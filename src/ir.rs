use crate::blend::{blend_code, is_blend_code, BlendingMode};
use crate::error::{NsArchiveError, ProcreateError};
use crate::keyed::{as_bool, as_dict, as_real_bits, as_string, as_u32, as_u64, str_eq, typed, typed_opt, Dict, NsKeyedArchive, PlistValue};
use crate::layers::{SilicaGroup, SilicaHierarchy, SilicaLayer};
use crate::tiling::Size;
use vstd::prelude::*;

verus! {

/// The slots of the layers of a node, in stored order.
pub open spec fn node_slots(n: SilicaHierarchy) -> Seq<u32>
    decreases n, 0int,
{
    match n {
        SilicaHierarchy::Layer(l) => seq![l.image],
        SilicaHierarchy::Group(g) => seq_slots(g.children@, g.children@.len() as int),
    }
}

/// The slots of the layers of `s[0]` to `s[hi - 1]`, in that order.
pub open spec fn seq_slots(s: Seq<SilicaHierarchy>, hi: int) -> Seq<u32>
    decreases s, hi,
{
    if hi <= 0 || hi > s.len() {
        Seq::empty()
    } else {
        seq_slots(s, hi - 1) + node_slots(s[hi - 1])
    }
}

/// The slots `lo`, `lo + 1`, ... up to `hi`, not included.
pub open spec fn slot_range(lo: int, hi: int) -> Seq<u32> {
    Seq::new((hi - lo) as nat, |k: int| (lo + k) as u32)
}

proof fn lemma_seq_slots_push(s: Seq<SilicaHierarchy>, x: SilicaHierarchy, hi: int)
    requires
        0 <= hi <= s.len(),
    ensures
        seq_slots(s.push(x), hi) == seq_slots(s, hi),
    decreases hi,
{
    if hi > 0 {
        lemma_seq_slots_push(s, x, hi - 1);
        assert(s.push(x)[hi - 1] == s[hi - 1]);
    }
}

/// The code of the blend mode of layer object `d`: `extendedBlend` where it is present,
/// else `blend`.
pub open spec fn blend_field(a: NsKeyedArchive, d: Seq<(String, PlistValue)>) -> Result<u32, NsArchiveError> {
    match typed_opt(a.fetched(d, "extendedBlend"@), |v: PlistValue| as_u32(v)) {
        Ok(Some(c)) => Ok(c),
        Ok(None) => typed(a.fetched(d, "blend"@), |v: PlistValue| as_u32(v)),
        Err(e) => Err(e),
    }
}

/// The bits of a 64-bit float that lies in `0.0..=1.0`: a non-negative float orders as its
/// bits do, and a negative zero is zero.
pub open spec fn opacity_in_range(bits: u64) -> bool {
    bits <= 0x3FF0_0000_0000_0000 || bits == 0x8000_0000_0000_0000
}

/// Every scalar field of layer object `d` reads as its type, and the opacity lies in range.
pub open spec fn layer_fields_read(a: NsKeyedArchive, d: Seq<(String, PlistValue)>) -> bool {
    &&& opacity_in_range(typed(a.fetched(d, "opacity"@), |v: PlistValue| as_real_bits(v))->Ok_0)
    &&& typed(a.fetched(d, "UUID"@), |v: PlistValue| as_string(v)) is Ok
    &&& blend_field(a, d) is Ok
    &&& typed(a.fetched(d, "clipped"@), |v: PlistValue| as_bool(v)) is Ok
    &&& typed(a.fetched(d, "hidden"@), |v: PlistValue| as_bool(v)) is Ok
    &&& typed_opt(a.fetched(d, "name"@), |v: PlistValue| as_string(v)) is Ok
    &&& typed(a.fetched(d, "opacity"@), |v: PlistValue| as_real_bits(v)) is Ok
    &&& typed(a.fetched(d, "version"@), |v: PlistValue| as_u64(v)) is Ok
}

/// Layer `l` holds what layer object `d` stores.
pub open spec fn layer_matches(a: NsKeyedArchive, d: Seq<(String, PlistValue)>, l: SilicaLayer) -> bool {
    &&& typed(a.fetched(d, "UUID"@), |v: PlistValue| as_string(v)) == Ok::<Seq<char>, NsArchiveError>(l.uuid@)
    &&& blend_field(a, d) == Ok::<u32, NsArchiveError>(blend_code(l.blend))
    &&& typed(a.fetched(d, "clipped"@), |v: PlistValue| as_bool(v)) == Ok::<bool, NsArchiveError>(l.clipped)
    &&& typed(a.fetched(d, "hidden"@), |v: PlistValue| as_bool(v)) == Ok::<bool, NsArchiveError>(l.hidden)
    &&& typed_opt(a.fetched(d, "name"@), |v: PlistValue| as_string(v)) == Ok::<Option<Seq<char>>, NsArchiveError>(
        match l.name {
            Some(n) => Some(n@),
            None => None,
        },
    )
    &&& typed(a.fetched(d, "opacity"@), |v: PlistValue| as_real_bits(v)) == Ok::<u64, NsArchiveError>(l.opacity_bits)
    &&& typed(a.fetched(d, "version"@), |v: PlistValue| as_u64(v)) == Ok::<u64, NsArchiveError>(l.version)
    &&& l.mask is None
}

/// `n` is what the node that `v` holds or names decodes to on a `size` canvas: a layer with
/// the stored fields, or a group with the stored flag and name whose children are, in order,
/// what its stored children decode to. Slots are left aside.
pub open spec fn node_decoded(a: NsKeyedArchive, v: PlistValue, depth: int, size: Size, n: SilicaHierarchy) -> bool
    decreases depth,
{
    match a.resolved(v) {
        Ok(PlistValue::Dictionary(d)) => match n {
            SilicaHierarchy::Layer(l) => {
                &&& a.class_of(d@) == Ok::<Seq<char>, NsArchiveError>("SilicaLayer"@)
                &&& layer_matches(a, d@, l)
                &&& l.size == size
            },
            SilicaHierarchy::Group(g) => {
                &&& a.class_of(d@) == Ok::<Seq<char>, NsArchiveError>("SilicaGroup"@)
                &&& depth > 0
                &&& typed(a.fetched(d@, "isHidden"@), |x: PlistValue| as_bool(x)) == Ok::<bool, NsArchiveError>(g.hidden)
                &&& typed_opt(a.fetched(d@, "name"@), |x: PlistValue| as_string(x)) == Ok::<Option<Seq<char>>, NsArchiveError>(
                    match g.name {
                        Some(m) => Some(m@),
                        None => None,
                    },
                )
                &&& a.wrapped_items(d@, "children"@) is Some
                &&& g.children@.len() == a.wrapped_items(d@, "children"@)->0.len()
                &&& forall|i: int|
                    0 <= i < g.children@.len() ==> node_decoded(
                        a,
                        a.wrapped_items(d@, "children"@)->0[i],
                        depth - 1,
                        size,
                        #[trigger] g.children@[i],
                    )
            },
        },
        _ => false,
    }
}

/// The objects that the references `s` point at.
pub open spec fn derefs(s: Seq<&PlistValue>) -> Seq<PlistValue> {
    Seq::new(s.len(), |i: int| *s[i])
}

/// The node that `v` holds or names can be read, with groups nested at most `depth` deep.
pub open spec fn node_ok(a: NsKeyedArchive, v: PlistValue, depth: int) -> bool
    decreases depth, 0int, 0int,
{
    match a.resolved(v) {
        Ok(PlistValue::Dictionary(d)) => match a.class_of(d@) {
            Ok(c) => if c == "SilicaLayer"@ {
                layer_fields_read(a, d@) && is_blend_code(blend_field(a, d@)->Ok_0)
            } else if c == "SilicaGroup"@ {
                &&& depth > 0
                &&& typed(a.fetched(d@, "isHidden"@), |x: PlistValue| as_bool(x)) is Ok
                &&& typed_opt(a.fetched(d@, "name"@), |x: PlistValue| as_string(x)) is Ok
                &&& a.wrapped_items(d@, "children"@) is Some
                &&& items_ok(a, a.wrapped_items(d@, "children"@)->0, depth - 1, 0)
            } else {
                false
            },
            Err(_) => false,
        },
        _ => false,
    }
}

/// The nodes `s[i..]` can each be read.
pub open spec fn items_ok(a: NsKeyedArchive, s: Seq<PlistValue>, depth: int, i: int) -> bool
    decreases depth, 1int, s.len() - i,
{
    if i < 0 || i >= s.len() {
        true
    } else {
        node_ok(a, s[i], depth) && items_ok(a, s, depth, i + 1)
    }
}

/// The number of layers in the node that `v` holds or names.
pub open spec fn node_count(a: NsKeyedArchive, v: PlistValue, depth: int) -> nat
    decreases depth, 0int, 0int,
{
    match a.resolved(v) {
        Ok(PlistValue::Dictionary(d)) => match a.class_of(d@) {
            Ok(c) => if c == "SilicaLayer"@ {
                1
            } else if c == "SilicaGroup"@ && depth > 0 && a.wrapped_items(d@, "children"@) is Some {
                items_count(a, a.wrapped_items(d@, "children"@)->0, depth - 1, 0)
            } else {
                0
            },
            Err(_) => 0,
        },
        _ => 0,
    }
}

/// The number of layers in the nodes `s[i..]`.
pub open spec fn items_count(a: NsKeyedArchive, s: Seq<PlistValue>, depth: int, i: int) -> nat
    decreases depth, 1int, s.len() - i,
{
    if i < 0 || i >= s.len() {
        0
    } else {
        node_count(a, s[i], depth) + items_count(a, s, depth, i + 1)
    }
}

/// Reading the node that `v` holds or names first fails on a blend code that names no mode:
/// it is such a layer, or a group whose stored fields read and one of whose children, after
/// children that all read, first fails so.
pub open spec fn first_fault_is_blend(a: NsKeyedArchive, v: PlistValue, depth: int) -> bool
    decreases depth,
{
    match a.resolved(v) {
        Ok(PlistValue::Dictionary(d)) => if a.class_of(d@) == Ok::<Seq<char>, NsArchiveError>("SilicaLayer"@) {
            blend_field(a, d@) is Ok && !is_blend_code(blend_field(a, d@)->Ok_0)
        } else if a.class_of(d@) == Ok::<Seq<char>, NsArchiveError>("SilicaGroup"@) {
            &&& depth > 0
            &&& typed(a.fetched(d@, "isHidden"@), |x: PlistValue| as_bool(x)) is Ok
            &&& typed_opt(a.fetched(d@, "name"@), |x: PlistValue| as_string(x)) is Ok
            &&& a.wrapped_items(d@, "children"@) is Some
            &&& exists|j: int|
                0 <= j < a.wrapped_items(d@, "children"@)->0.len() && (forall|k: int|
                    0 <= k < j ==> node_ok(a, #[trigger] a.wrapped_items(d@, "children"@)->0[k], depth - 1))
                    && first_fault_is_blend(a, a.wrapped_items(d@, "children"@)->0[j], depth - 1)
        } else {
            false
        },
        _ => false,
    }
}

/// Among `s`, child `j` first fails on a blend code, after children that all read.
pub open spec fn items_fault_is_blend(a: NsKeyedArchive, s: Seq<PlistValue>, depth: int) -> bool {
    exists|j: int|
        0 <= j < s.len() && (forall|k: int| 0 <= k < j ==> node_ok(a, #[trigger] s[k], depth))
            && first_fault_is_blend(a, s[j], depth)
}

proof fn lemma_fault_not_ok(a: NsKeyedArchive, v: PlistValue, depth: int)
    requires
        first_fault_is_blend(a, v, depth),
    ensures
        !node_ok(a, v, depth),
    decreases depth,
{
    if let Ok(PlistValue::Dictionary(d)) = a.resolved(v) {
        if a.class_of(d@) == Ok::<Seq<char>, NsArchiveError>("SilicaGroup"@)
            && a.class_of(d@) != Ok::<Seq<char>, NsArchiveError>("SilicaLayer"@) {
            let items = a.wrapped_items(d@, "children"@)->0;
            let j = choose|j: int|
                0 <= j < items.len() && (forall|k: int| 0 <= k < j ==> node_ok(a, #[trigger] items[k], depth - 1))
                    && first_fault_is_blend(a, items[j], depth - 1);
            lemma_fault_not_ok(a, items[j], depth - 1);
            lemma_items_ok_split(a, items, depth - 1, j);
            lemma_items_ok_split(a, items, depth - 1, j + 1);
        }
    }
}

proof fn lemma_items_count_prefix(a: NsKeyedArchive, s: Seq<PlistValue>, depth: int, i: int)
    requires
        0 <= i <= s.len(),
    ensures
        items_count(a, s, depth, i) <= items_count(a, s, depth, 0),
    decreases i,
{
    if i > 0 {
        lemma_items_count_prefix(a, s, depth, i - 1);
    }
}

proof fn lemma_items_ok_split(a: NsKeyedArchive, s: Seq<PlistValue>, depth: int, i: int)
    requires
        0 <= i <= s.len(),
    ensures
        items_ok(a, s, depth, 0) <==> (forall|k: int| 0 <= k < i ==> node_ok(a, #[trigger] s[k], depth)) && items_ok(a, s, depth, i),
    decreases i,
{
    if i > 0 {
        lemma_items_ok_split(a, s, depth, i - 1);
    }
}

/// An archive error, as a document error.
pub(crate) fn lift<T>(r: Result<T, NsArchiveError>) -> (o: Result<T, ProcreateError>)
    ensures
        r matches Ok(x) ==> o == Ok::<T, ProcreateError>(x),
        r matches Err(e) ==> o == Err::<T, ProcreateError>(ProcreateError::NsArchiveError(e)),
{
    match r {
        Ok(x) => Ok(x),
        Err(e) => Err(ProcreateError::NsArchiveError(e)),
    }
}

/// The code of the blend mode of layer object `d`.
pub fn read_blend_code(a: &NsKeyedArchive, d: &Dict) -> (r: Result<u32, NsArchiveError>)
    ensures
        r == blend_field(*a, d@),
{
    match a.fetch_opt_u32(d, "extendedBlend")? {
        Some(c) => Ok(c),
        None => a.fetch_u32(d, "blend"),
    }
}

/// Reads the layer object `d` of a `size` canvas into a layer that takes slot `*counter`,
/// and moves the counter on. A blend code that names no mode, or an opacity outside
/// `0.0..=1.0`, is an invalid value.
pub fn decode_layer(a: &NsKeyedArchive, d: &Dict, size: Size, counter: &mut u32) -> (r: Result<SilicaLayer, ProcreateError>)
    ensures
        r is Ok <==> layer_fields_read(*a, d@) && is_blend_code(blend_field(*a, d@)->Ok_0) && *old(counter) < u32::MAX,
        r matches Ok(l) ==> layer_matches(*a, d@, l) && l.size == size && l.image == *old(counter)
            && *final(counter) == *old(counter) + 1,
        r is Err ==> *final(counter) == *old(counter),
        r matches Ok(l) ==> is_blend_code(blend_code(l.blend)) && opacity_in_range(l.opacity_bits),
        blend_field(*a, d@) matches Ok(c) && !is_blend_code(c) ==> r == Err::<SilicaLayer, ProcreateError>(ProcreateError::InvalidValue),
{
    let code = lift(read_blend_code(a, d))?;
    let blend = BlendingMode::from_u32(code)?;
    let uuid = lift(a.fetch_string(d, "UUID"))?;
    let clipped = lift(a.fetch_bool(d, "clipped"))?;
    let hidden = lift(a.fetch_bool(d, "hidden"))?;
    let name = lift(a.fetch_opt_string(d, "name"))?;
    let opacity_bits = lift(a.fetch_real_bits(d, "opacity"))?;
    let version = lift(a.fetch_u64(d, "version"))?;
    if !(opacity_bits <= 0x3FF0_0000_0000_0000 || opacity_bits == 0x8000_0000_0000_0000) {
        return Err(ProcreateError::InvalidValue);
    }
    if *counter == u32::MAX {
        return Err(ProcreateError::InvalidValue);
    }
    let image = *counter;
    *counter = *counter + 1;
    Ok(SilicaLayer { blend, clipped, hidden, mask: None, name, opacity_bits, size, uuid, version, image })
}

/// Reads the node that `v` holds or names: a `SilicaLayer` or a `SilicaGroup` object. Its
/// layers take the slots from `*counter` on, in stored order. `depth` bounds the nesting, so
/// that an archive whose groups contain themselves is refused.
pub fn decode_node(a: &NsKeyedArchive, v: &PlistValue, size: Size, counter: &mut u32, depth: u32) -> (r: Result<SilicaHierarchy, ProcreateError>)
    ensures
        r matches Ok(n) ==> node_slots(n) == slot_range(*old(counter) as int, *final(counter) as int)
            && *old(counter) <= *final(counter),
        r is Ok <==> node_ok(*a, *v, depth as int) && *old(counter) + node_count(*a, *v, depth as int) <= u32::MAX,
        r is Ok ==> *final(counter) == *old(counter) + node_count(*a, *v, depth as int),
        r matches Ok(n) ==> node_decoded(*a, *v, depth as int, size, n),
        first_fault_is_blend(*a, *v, depth as int) && *old(counter) + node_count(*a, *v, depth as int) <= u32::MAX
            ==> r == Err::<SilicaHierarchy, ProcreateError>(ProcreateError::InvalidValue),
        r matches Ok(n) ==> (n matches SilicaHierarchy::Layer(l) ==> as_dict(a.resolved(*v)->Ok_0) matches Some(d) && layer_matches(*a, d, l)),
        r is Ok ==> as_dict(a.resolved(*v)->Ok_0) is Some && a.resolved(*v) is Ok,
        a.resolved(*v) matches Err(e) ==> r == Err::<SilicaHierarchy, ProcreateError>(ProcreateError::NsArchiveError(e)),
        a.resolved(*v) is Ok && as_dict(a.resolved(*v)->Ok_0) is None ==> r == Err::<SilicaHierarchy, ProcreateError>(
            ProcreateError::NsArchiveError(NsArchiveError::TypeMismatch),
        ),
        a.resolved(*v) matches Ok(PlistValue::Dictionary(d)) ==> ({
            let c = a.class_of(d@);
            &&& (r matches Ok(SilicaHierarchy::Layer(_)) ==> c == Ok::<Seq<char>, NsArchiveError>("SilicaLayer"@))
            &&& (r matches Ok(SilicaHierarchy::Group(_)) ==> c == Ok::<Seq<char>, NsArchiveError>("SilicaGroup"@))
            &&& (c matches Err(e) ==> r == Err::<SilicaHierarchy, ProcreateError>(ProcreateError::NsArchiveError(e)))
            &&& (c matches Ok(name) && name != "SilicaLayer"@ && name != "SilicaGroup"@ ==> r == Err::<SilicaHierarchy, ProcreateError>(
                ProcreateError::NsArchiveError(NsArchiveError::UnknownClass),
            ))
            &&& (c == Ok::<Seq<char>, NsArchiveError>("SilicaLayer"@) ==> (r is Ok <==> layer_fields_read(*a, d@)
                && is_blend_code(blend_field(*a, d@)->Ok_0) && *old(counter) < u32::MAX))
            &&& (r matches Ok(SilicaHierarchy::Group(g)) ==> {
                &&& typed(a.fetched(d@, "isHidden"@), |x: PlistValue| as_bool(x)) == Ok::<bool, NsArchiveError>(g.hidden)
                &&& typed_opt(a.fetched(d@, "name"@), |x: PlistValue| as_string(x)) == Ok::<Option<Seq<char>>, NsArchiveError>(
                    match g.name {
                        Some(n) => Some(n@),
                        None => None,
                    },
                )
            })
        }),
    decreases depth, 0int,
{
    let obj = lift(a.resolve(v))?;
    let d = match obj {
        PlistValue::Dictionary(d) => d,
        _ => {
            return Err(ProcreateError::NsArchiveError(NsArchiveError::TypeMismatch));
        },
    };
    let class = lift(a.class_name(d))?;
    if str_eq(class.as_str(), "SilicaLayer") {
        let c0 = *counter;
        let l = decode_layer(a, d, size, counter)?;
        let n = SilicaHierarchy::Layer(l);
        assert(node_slots(n) =~= slot_range(c0 as int, *counter as int));
        Ok(n)
    } else if str_eq(class.as_str(), "SilicaGroup") {
        if depth == 0 {
            return Err(ProcreateError::NsArchiveError(NsArchiveError::Cycle));
        }
        let hidden = lift(a.fetch_bool(d, "isHidden"))?;
        let name = lift(a.fetch_opt_string(d, "name"))?;
        let items = lift(a.wrapped_array(d, "children"))?;
        assert(derefs(items@) =~= a.wrapped_items(d@, "children"@)->0);
        let children = decode_nodes(a, &items, size, counter, depth - 1)?;
        let g = SilicaGroup { hidden, children, name };
        Ok(SilicaHierarchy::Group(g))
    } else {
        Err(ProcreateError::NsArchiveError(NsArchiveError::UnknownClass))
    }
}

/// Reads each node of `items` in turn; their layers take the slots from `*counter` on.
pub fn decode_nodes(a: &NsKeyedArchive, items: &Vec<&PlistValue>, size: Size, counter: &mut u32, depth: u32) -> (r: Result<Vec<SilicaHierarchy>, ProcreateError>)
    ensures
        r matches Ok(ns) ==> ns@.len() == items@.len()
            && seq_slots(ns@, ns@.len() as int) == slot_range(*old(counter) as int, *final(counter) as int)
            && *old(counter) <= *final(counter),
        r is Ok <==> items_ok(*a, derefs(items@), depth as int, 0) && *old(counter) + items_count(*a, derefs(items@), depth as int, 0) <= u32::MAX,
        r is Ok ==> *final(counter) == *old(counter) + items_count(*a, derefs(items@), depth as int, 0),
        r matches Ok(ns) ==> forall|i: int|
            0 <= i < ns@.len() ==> node_decoded(*a, derefs(items@)[i], depth as int, size, #[trigger] ns@[i]),
        items_fault_is_blend(*a, derefs(items@), depth as int) && *old(counter) + items_count(*a, derefs(items@), depth as int, 0) <= u32::MAX
            ==> r == Err::<Vec<SilicaHierarchy>, ProcreateError>(ProcreateError::InvalidValue),
    decreases depth, 1int,
{
    let ghost c0 = *counter;
    let ghost s = derefs(items@);
    let ghost total = items_count(*a, s, depth as int, 0);
    let mut out: Vec<SilicaHierarchy> = Vec::new();
    let mut i: usize = 0;
    assert(seq_slots(out@, 0) =~= slot_range(c0 as int, c0 as int));
    while i < items.len()
        invariant
            c0 == *old(counter),
            s == derefs(items@),
            total == items_count(*a, s, depth as int, 0),
            i <= items@.len(),
            out@.len() == i,
            c0 <= *counter,
            seq_slots(out@, i as int) == slot_range(c0 as int, *counter as int),
            forall|k: int| 0 <= k < i ==> node_ok(*a, #[trigger] s[k], depth as int),
            *counter + items_count(*a, s, depth as int, i as int) == c0 + total,
            forall|k: int| 0 <= k < i ==> node_decoded(*a, s[k], depth as int, size, #[trigger] out@[k]),
        decreases items.len() - i,
    {
        let c1 = *counter;
        assert(s[i as int] == *items@[i as int]);
        let n = match decode_node(a, items[i], size, counter, depth) {
            Ok(n) => n,
            Err(e) => {
                proof {
                    lemma_items_ok_split(*a, s, depth as int, i as int);
                    assert(items_count(*a, s, depth as int, i as int) == node_count(*a, s[i as int], depth as int)
                        + items_count(*a, s, depth as int, i + 1));
                    assert(!items_ok(*a, s, depth as int, i as int) || c1 + node_count(*a, s[i as int], depth as int) > u32::MAX);
                    if items_fault_is_blend(*a, s, depth as int) && c0 + total <= u32::MAX {
                        let j = choose|j: int|
                            0 <= j < s.len() && (forall|k: int| 0 <= k < j ==> node_ok(*a, #[trigger] s[k], depth as int))
                                && first_fault_is_blend(*a, s[j], depth as int);
                        if j < i {
                            lemma_fault_not_ok(*a, s[j], depth as int);
                        } else if j > i {
                            assert(node_ok(*a, s[i as int], depth as int));
                        }
                    }
                }
                return Err(e);
            },
        };
        let ghost prev = out@;
        out.push(n);
        assert forall|k: int| 0 <= k < i + 1 implies node_decoded(*a, s[k], depth as int, size, #[trigger] out@[k]) by {
            if k < i {
                assert(out@[k] == prev[k]);
            }
        }
        proof {
            lemma_seq_slots_push(prev, n, i as int);
            assert(out@[i as int] == n);
            assert(seq_slots(out@, i + 1) == seq_slots(prev, i as int) + node_slots(n));
            assert(seq_slots(out@, i + 1) =~= slot_range(c0 as int, *counter as int));
        }
        i = i + 1;
    }
    proof {
        lemma_items_ok_split(*a, s, depth as int, i as int);
        if items_fault_is_blend(*a, s, depth as int) {
            let j = choose|j: int|
                0 <= j < s.len() && (forall|k: int| 0 <= k < j ==> node_ok(*a, #[trigger] s[k], depth as int))
                    && first_fault_is_blend(*a, s[j], depth as int);
            lemma_fault_not_ok(*a, s[j], depth as int);
        }
    }
    Ok(out)
}

} // verus!
