use crate::error::NsArchiveError;
use vstd::prelude::*;
use vstd::utf8::{encode_utf8, encode_utf8_decode_utf8};

verus! {

/// A property-list value, as the keyed-archive decoder reads it.
#[derive(Debug)]
pub enum PlistValue {
    Boolean(bool),
    /// A signed or unsigned 64-bit integer.
    Integer(i128),
    /// The bit pattern of a 64-bit float.
    Real(u64),
    String(String),
    Data(Vec<u8>),
    Array(Vec<PlistValue>),
    /// Entries in the order in which they were stored.
    Dictionary(Vec<(String, PlistValue)>),
    /// A reference into the `$objects` table.
    Uid(u64),
    /// A value of a kind that nothing here reads (a date).
    Other,
}

pub type Dict = Vec<(String, PlistValue)>;

/// The value stored under `key` in the entries `d`: the first entry with that key.
pub open spec fn dict_get(d: Seq<(String, PlistValue)>, key: Seq<char>) -> Option<PlistValue>
    decreases d.len(),
{
    if d.len() == 0 {
        None
    } else if d[0].0@ == key {
        Some(d[0].1)
    } else {
        dict_get(d.drop_first(), key)
    }
}

/// Two strings are equal, compared through their bytes.
pub fn str_eq(a: &str, b: &str) -> (r: bool)
    ensures
        r == (a@ == b@),
{
    let x = a.as_bytes();
    let y = b.as_bytes();
    proof {
        encode_utf8_decode_utf8(a@);
        encode_utf8_decode_utf8(b@);
        assert(x@ == encode_utf8(a@));
        assert(y@ == encode_utf8(b@));
    }
    if x.len() != y.len() {
        assert(x@ != y@);
        return false;
    }
    let mut i: usize = 0;
    while i < x.len()
        invariant
            x@ == encode_utf8(a@),
            y@ == encode_utf8(b@),
            x.len() == y.len(),
            i <= x.len(),
            forall|k: int| 0 <= k < i ==> x@[k] == y@[k],
        decreases x.len() - i,
    {
        if x[i] != y[i] {
            assert(x@ != y@);
            return false;
        }
        i = i + 1;
    }
    assert(x@ =~= y@);
    true
}

/// The value stored under `key` in `d`, if any.
pub fn dict_lookup<'a>(d: &'a Dict, key: &str) -> (r: Option<&'a PlistValue>)
    ensures
        r matches Some(v) ==> dict_get(d@, key@) == Some(*v),
        r is None ==> dict_get(d@, key@) is None,
{
    let mut i: usize = 0;
    assert(d@.subrange(0, d@.len() as int) =~= d@);
    while i < d.len()
        invariant
            i <= d@.len(),
            dict_get(d@, key@) == dict_get(d@.subrange(i as int, d@.len() as int), key@),
        decreases d.len() - i,
    {
        let ghost rest = d@.subrange(i as int, d@.len() as int);
        assert(rest.drop_first() =~= d@.subrange(i + 1, d@.len() as int));
        assert(rest[0] == d@[i as int]);
        if str_eq(d[i].0.as_str(), key) {
            return Some(&d[i].1);
        }
        i = i + 1;
    }
    None
}

/// The object table of a keyed archive, with its `$top` dictionary.
pub struct NsKeyedArchive {
    pub objects: Vec<PlistValue>,
    pub top: Dict,
}

/// What an optional value that is present but null reads as: the archiver's `$null` marker.
pub open spec fn is_null(v: PlistValue) -> bool {
    v matches PlistValue::String(s) && s@ == "$null"@
}

pub open spec fn as_bool(v: PlistValue) -> Option<bool> {
    match v {
        PlistValue::Boolean(b) => Some(b),
        _ => None,
    }
}

pub open spec fn as_u32(v: PlistValue) -> Option<u32> {
    match v {
        PlistValue::Integer(i) => if 0 <= i <= u32::MAX {
            Some(i as u32)
        } else {
            None
        },
        _ => None,
    }
}

pub open spec fn as_u64(v: PlistValue) -> Option<u64> {
    match v {
        PlistValue::Integer(i) => if 0 <= i <= u64::MAX {
            Some(i as u64)
        } else {
            None
        },
        _ => None,
    }
}

/// A real, as the bits of a 64-bit float.
pub open spec fn as_real_bits(v: PlistValue) -> Option<u64> {
    match v {
        PlistValue::Real(b) => Some(b),
        _ => None,
    }
}

pub open spec fn as_string(v: PlistValue) -> Option<Seq<char>> {
    match v {
        PlistValue::String(s) => Some(s@),
        _ => None,
    }
}

pub open spec fn as_data(v: PlistValue) -> Option<Seq<u8>> {
    match v {
        PlistValue::Data(d) => Some(d@),
        _ => None,
    }
}

pub open spec fn as_dict(v: PlistValue) -> Option<Seq<(String, PlistValue)>> {
    match v {
        PlistValue::Dictionary(d) => Some(d@),
        _ => None,
    }
}

/// A typed read: a value that is not of the asked type is a mismatch.
pub open spec fn typed<T>(r: Result<PlistValue, NsArchiveError>, t: spec_fn(PlistValue) -> Option<T>) -> Result<T, NsArchiveError> {
    match r {
        Ok(v) => match t(v) {
            Some(x) => Ok(x),
            None => Err(NsArchiveError::TypeMismatch),
        },
        Err(e) => Err(e),
    }
}

/// An optional typed read: absent or null reads as `None`.
pub open spec fn typed_opt<T>(r: Result<PlistValue, NsArchiveError>, t: spec_fn(PlistValue) -> Option<T>) -> Result<Option<T>, NsArchiveError> {
    match r {
        Err(NsArchiveError::MissingKey) => Ok(None),
        Ok(v) => if is_null(v) {
            Ok(None)
        } else {
            match t(v) {
                Some(x) => Ok(Some(x)),
                None => Err(NsArchiveError::TypeMismatch),
            }
        },
        Err(e) => Err(e),
    }
}

impl NsKeyedArchive {
    /// `v` with a `UID` replaced by the object that it names.
    pub open spec fn resolved(&self, v: PlistValue) -> Result<PlistValue, NsArchiveError> {
        match v {
            PlistValue::Uid(u) => if u < self.objects@.len() {
                Ok(self.objects@[u as int])
            } else {
                Err(NsArchiveError::BadUid)
            },
            _ => Ok(v),
        }
    }

    /// The value under `key` in `d`, resolved.
    pub open spec fn fetched(&self, d: Seq<(String, PlistValue)>, key: Seq<char>) -> Result<PlistValue, NsArchiveError> {
        match dict_get(d, key) {
            Some(v) => self.resolved(v),
            None => Err(NsArchiveError::MissingKey),
        }
    }

    /// Reads the top level of a keyed archive: a dictionary with an `$objects` array and a
    /// `$top` dictionary.
    pub fn from_value(v: PlistValue) -> (r: Result<NsKeyedArchive, NsArchiveError>)
        ensures
            r is Ok <==> (as_dict(v) matches Some(d) && dict_get(d, "$objects"@) matches Some(
                PlistValue::Array(_),
            ) && dict_get(d, "$top"@) matches Some(PlistValue::Dictionary(_))),
            r matches Ok(a) ==> dict_get(as_dict(v)->0, "$objects"@) == Some(
                PlistValue::Array(a.objects),
            ) && dict_get(as_dict(v)->0, "$top"@) == Some(PlistValue::Dictionary(a.top)),
            r matches Err(e) ==> e is TypeMismatch,
    {
        match v {
            PlistValue::Dictionary(d) => {
                let ghost dv = d@;
                let mut entries = d;
                let mut objects: Option<PlistValue> = None;
                let mut top: Option<PlistValue> = None;
                // Walk from the end, so that the first entry under a key is the one kept.
                while entries.len() > 0
                    invariant
                        entries@ == dv.subrange(0, entries@.len() as int),
                        entries@.len() <= dv.len(),
                        objects == dict_get(dv.subrange(entries@.len() as int, dv.len() as int), "$objects"@),
                        top == dict_get(dv.subrange(entries@.len() as int, dv.len() as int), "$top"@),
                    decreases entries.len(),
                {
                    let ghost k = entries@.len() - 1;
                    let ghost rest = dv.subrange(k, dv.len() as int);
                    assert(rest.drop_first() =~= dv.subrange(k + 1, dv.len() as int));
                    assert(rest[0] == dv[k]);
                    proof {
                        reveal_strlit("$objects");
                        reveal_strlit("$top");
                    }
                    assert("$objects"@ != "$top"@) by {
                        assert("$objects"@.len() != "$top"@.len());
                    }
                    match entries.pop() {
                        Some(entry) => {
                            let (key, val) = entry;
                            if str_eq(key.as_str(), "$objects") {
                                objects = Some(val);
                            } else if str_eq(key.as_str(), "$top") {
                                top = Some(val);
                            }
                        },
                        None => {},
                    }
                    assert(entries@ =~= dv.subrange(0, entries@.len() as int));
                }
                assert(dv.subrange(0, dv.len() as int) =~= dv);
                match (objects, top) {
                    (Some(PlistValue::Array(o)), Some(PlistValue::Dictionary(t))) => Ok(
                        NsKeyedArchive { objects: o, top: t },
                    ),
                    _ => Err(NsArchiveError::TypeMismatch),
                }
            },
            _ => Err(NsArchiveError::TypeMismatch),
        }
    }

    /// `v`, or the object that it names if it is a `UID`.
    pub fn resolve<'a>(&'a self, v: &'a PlistValue) -> (r: Result<&'a PlistValue, NsArchiveError>)
        ensures
            r matches Ok(x) ==> self.resolved(*v) == Ok::<PlistValue, NsArchiveError>(*x),
            r matches Err(e) ==> self.resolved(*v) == Err::<PlistValue, NsArchiveError>(e),
    {
        match v {
            PlistValue::Uid(u) => {
                if *u < self.objects.len() as u64 {
                    Ok(&self.objects[*u as usize])
                } else {
                    Err(NsArchiveError::BadUid)
                }
            },
            _ => Ok(v),
        }
    }

    /// The value under `key` in `d`, resolved.
    pub fn fetch<'a>(&'a self, d: &'a Dict, key: &str) -> (r: Result<&'a PlistValue, NsArchiveError>)
        ensures
            r matches Ok(x) ==> self.fetched(d@, key@) == Ok::<PlistValue, NsArchiveError>(*x),
            r matches Err(e) ==> self.fetched(d@, key@) == Err::<PlistValue, NsArchiveError>(e),
    {
        match dict_lookup(d, key) {
            Some(v) => self.resolve(v),
            None => Err(NsArchiveError::MissingKey),
        }
    }

    pub fn fetch_bool(&self, d: &Dict, key: &str) -> (r: Result<bool, NsArchiveError>)
        ensures
            r == typed(self.fetched(d@, key@), |v: PlistValue| as_bool(v)),
    {
        match self.fetch(d, key)? {
            PlistValue::Boolean(b) => Ok(*b),
            _ => Err(NsArchiveError::TypeMismatch),
        }
    }

    pub fn fetch_u32(&self, d: &Dict, key: &str) -> (r: Result<u32, NsArchiveError>)
        ensures
            r == typed(self.fetched(d@, key@), |v: PlistValue| as_u32(v)),
    {
        match self.fetch(d, key)? {
            PlistValue::Integer(i) => {
                if 0 <= *i && *i <= u32::MAX as i128 {
                    Ok(*i as u32)
                } else {
                    Err(NsArchiveError::TypeMismatch)
                }
            },
            _ => Err(NsArchiveError::TypeMismatch),
        }
    }

    pub fn fetch_u64(&self, d: &Dict, key: &str) -> (r: Result<u64, NsArchiveError>)
        ensures
            r == typed(self.fetched(d@, key@), |v: PlistValue| as_u64(v)),
    {
        match self.fetch(d, key)? {
            PlistValue::Integer(i) => {
                if 0 <= *i && *i <= u64::MAX as i128 {
                    Ok(*i as u64)
                } else {
                    Err(NsArchiveError::TypeMismatch)
                }
            },
            _ => Err(NsArchiveError::TypeMismatch),
        }
    }

    pub fn fetch_opt_u32(&self, d: &Dict, key: &str) -> (r: Result<Option<u32>, NsArchiveError>)
        ensures
            r == typed_opt(self.fetched(d@, key@), |v: PlistValue| as_u32(v)),
    {
        match self.fetch(d, key) {
            Err(NsArchiveError::MissingKey) => Ok(None),
            Err(e) => Err(e),
            Ok(v) => {
                if self.null_marker(v) {
                    return Ok(None);
                }
                match v {
                    PlistValue::Integer(i) => {
                        if 0 <= *i && *i <= u32::MAX as i128 {
                            Ok(Some(*i as u32))
                        } else {
                            Err(NsArchiveError::TypeMismatch)
                        }
                    },
                    _ => Err(NsArchiveError::TypeMismatch),
                }
            },
        }
    }

    /// The bits of the 64-bit float under `key`.
    pub fn fetch_real_bits(&self, d: &Dict, key: &str) -> (r: Result<u64, NsArchiveError>)
        ensures
            r == typed(self.fetched(d@, key@), |v: PlistValue| as_real_bits(v)),
    {
        match self.fetch(d, key)? {
            PlistValue::Real(b) => Ok(*b),
            _ => Err(NsArchiveError::TypeMismatch),
        }
    }

    pub fn fetch_string(&self, d: &Dict, key: &str) -> (r: Result<String, NsArchiveError>)
        ensures
            r is Ok <==> typed(self.fetched(d@, key@), |v: PlistValue| as_string(v)) is Ok,
            r matches Ok(s) ==> typed(self.fetched(d@, key@), |v: PlistValue| as_string(v)) == Ok::<Seq<char>, NsArchiveError>(s@),
            r matches Err(e) ==> typed(self.fetched(d@, key@), |v: PlistValue| as_string(v)) == Err::<Seq<char>, NsArchiveError>(e),
    {
        match self.fetch(d, key)? {
            PlistValue::String(s) => Ok(s.clone()),
            _ => Err(NsArchiveError::TypeMismatch),
        }
    }

    pub fn fetch_opt_string(&self, d: &Dict, key: &str) -> (r: Result<Option<String>, NsArchiveError>)
        ensures
            r is Ok <==> typed_opt(self.fetched(d@, key@), |v: PlistValue| as_string(v)) is Ok,
            r matches Ok(Some(s)) ==> typed_opt(self.fetched(d@, key@), |v: PlistValue| as_string(v)) == Ok::<Option<Seq<char>>, NsArchiveError>(Some(s@)),
            r matches Ok(None) ==> typed_opt(self.fetched(d@, key@), |v: PlistValue| as_string(v)) == Ok::<Option<Seq<char>>, NsArchiveError>(None),
            r matches Err(e) ==> typed_opt(self.fetched(d@, key@), |v: PlistValue| as_string(v)) == Err::<Option<Seq<char>>, NsArchiveError>(e),
    {
        match self.fetch(d, key) {
            Err(NsArchiveError::MissingKey) => Ok(None),
            Err(e) => Err(e),
            Ok(v) => {
                if self.null_marker(v) {
                    return Ok(None);
                }
                match v {
                    PlistValue::String(s) => Ok(Some(s.clone())),
                    _ => Err(NsArchiveError::TypeMismatch),
                }
            },
        }
    }

    /// The bytes under `key`.
    pub fn fetch_data<'a>(&'a self, d: &'a Dict, key: &str) -> (r: Result<&'a Vec<u8>, NsArchiveError>)
        ensures
            r is Ok <==> typed(self.fetched(d@, key@), |v: PlistValue| as_data(v)) is Ok,
            r matches Ok(b) ==> typed(self.fetched(d@, key@), |v: PlistValue| as_data(v)) == Ok::<Seq<u8>, NsArchiveError>(b@),
            r matches Err(e) ==> typed(self.fetched(d@, key@), |v: PlistValue| as_data(v)) == Err::<Seq<u8>, NsArchiveError>(e),
    {
        match self.fetch(d, key)? {
            PlistValue::Data(b) => Ok(b),
            _ => Err(NsArchiveError::TypeMismatch),
        }
    }

    /// The dictionary under `key`.
    pub fn fetch_dict<'a>(&'a self, d: &'a Dict, key: &str) -> (r: Result<&'a Dict, NsArchiveError>)
        ensures
            r is Ok <==> typed(self.fetched(d@, key@), |v: PlistValue| as_dict(v)) is Ok,
            r matches Ok(x) ==> typed(self.fetched(d@, key@), |v: PlistValue| as_dict(v)) == Ok::<Seq<(String, PlistValue)>, NsArchiveError>(x@),
            r matches Err(e) ==> typed(self.fetched(d@, key@), |v: PlistValue| as_dict(v)) == Err::<Seq<(String, PlistValue)>, NsArchiveError>(e),
    {
        match self.fetch(d, key)? {
            PlistValue::Dictionary(x) => Ok(x),
            _ => Err(NsArchiveError::TypeMismatch),
        }
    }

    /// Whether `v` is the archiver's null marker.
    fn null_marker(&self, v: &PlistValue) -> (r: bool)
        ensures
            r == is_null(*v),
    {
        match v {
            PlistValue::String(s) => str_eq(s.as_str(), "$null"),
            _ => false,
        }
    }

    /// The root object: the dictionary that `$top` names under `root`.
    pub fn root(&self) -> (r: Result<&Dict, NsArchiveError>)
        ensures
            r is Ok <==> typed(self.fetched(self.top@, "root"@), |v: PlistValue| as_dict(v)) is Ok,
            r matches Ok(x) ==> typed(self.fetched(self.top@, "root"@), |v: PlistValue| as_dict(v)) == Ok::<Seq<(String, PlistValue)>, NsArchiveError>(x@),
    {
        self.fetch_dict(&self.top, "root")
    }

    /// The class name of the object `d`: `$classname` of the dictionary that `$class` names.
    pub open spec fn class_of(&self, d: Seq<(String, PlistValue)>) -> Result<Seq<char>, NsArchiveError> {
        match typed(self.fetched(d, "$class"@), |v: PlistValue| as_dict(v)) {
            Ok(c) => typed(self.fetched(c, "$classname"@), |v: PlistValue| as_string(v)),
            Err(e) => Err(e),
        }
    }

    /// The class name of the object `d`.
    pub fn class_name<'a>(&'a self, d: &'a Dict) -> (r: Result<&'a String, NsArchiveError>)
        ensures
            r matches Ok(s) ==> self.class_of(d@) == Ok::<Seq<char>, NsArchiveError>(s@),
            r matches Err(e) ==> self.class_of(d@) == Err::<Seq<char>, NsArchiveError>(e),
    {
        let c = self.fetch_dict(d, "$class")?;
        match self.fetch(c, "$classname")? {
            PlistValue::String(s) => Ok(s),
            _ => Err(NsArchiveError::TypeMismatch),
        }
    }

    /// The elements of `s`, each resolved, or `None` if one of them cannot be.
    pub open spec fn resolve_all(&self, s: Seq<PlistValue>) -> Option<Seq<PlistValue>> {
        if forall|i: int| 0 <= i < s.len() ==> (#[trigger] self.resolved(s[i])) is Ok {
            Some(Seq::new(s.len(), |i: int| self.resolved(s[i])->Ok_0))
        } else {
            None
        }
    }

    /// The objects of the wrapped array under `key` in `d`, if it can be read.
    pub open spec fn wrapped_items(&self, d: Seq<(String, PlistValue)>, key: Seq<char>) -> Option<Seq<PlistValue>> {
        match typed(self.fetched(d, key), |v: PlistValue| as_dict(v)) {
            Ok(w) => match dict_get(w, "NS.objects"@) {
                Some(PlistValue::Array(a)) => self.resolve_all(a@),
                _ => None,
            },
            Err(_) => None,
        }
    }

    /// The objects of the wrapped array under `key`: the `NS.objects` array of the
    /// dictionary that it names, each element resolved.
    pub fn wrapped_array<'a>(&'a self, d: &'a Dict, key: &str) -> (r: Result<Vec<&'a PlistValue>, NsArchiveError>)
        ensures
            r matches Ok(xs) ==> typed(self.fetched(d@, key@), |v: PlistValue| as_dict(v)) matches Ok(w)
                && dict_get(w, "NS.objects"@) matches Some(PlistValue::Array(a))
                && xs@.len() == a@.len()
                && forall|i: int| 0 <= i < a@.len() ==> self.resolved(a@[i]) == Ok::<PlistValue, NsArchiveError>(*xs@[i]),
        r is Ok <==> self.wrapped_items(d@, key@) is Some,
        r matches Ok(xs) ==> xs@.len() == self.wrapped_items(d@, key@)->0.len()
            && forall|i: int| 0 <= i < xs@.len() ==> *xs@[i] == self.wrapped_items(d@, key@)->0[i],
    {
        let w = self.fetch_dict(d, key)?;
        let a = match dict_lookup(w, "NS.objects") {
            Some(PlistValue::Array(a)) => a,
            Some(_) => {
                return Err(NsArchiveError::TypeMismatch);
            },
            None => {
                return Err(NsArchiveError::MissingKey);
            },
        };
        let mut xs: Vec<&'a PlistValue> = Vec::new();
        let mut i: usize = 0;
        while i < a.len()
            invariant
                typed(self.fetched(d@, key@), |v: PlistValue| as_dict(v)) == Ok::<Seq<(String, PlistValue)>, NsArchiveError>(w@),
                dict_get(w@, "NS.objects"@) == Some(PlistValue::Array(*a)),
                i <= a@.len(),
                xs@.len() == i,
                forall|k: int| 0 <= k < i ==> self.resolved(a@[k]) == Ok::<PlistValue, NsArchiveError>(*xs@[k]),
            decreases a.len() - i,
        {
            let x = match self.resolve(&a[i]) {
                Ok(x) => x,
                Err(e) => {
                    assert(!(self.resolved(a@[i as int]) is Ok));
                    return Err(e);
                },
            };
            xs.push(x);
            i = i + 1;
        }
        assert(self.resolve_all(a@) is Some);
        Ok(xs)
    }
}

} // verus!
