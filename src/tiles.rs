use crate::codec::{lz4_frame_decode, lz4_frame_result, lzo_block_result, lzo_decompress};
use crate::error::ProcreateError;
use crate::tiling::{tile_extent, TilingData};
use vstd::prelude::*;
use vstd::string::StringSliceAdditionalSpecFns;
use vstd::utf8::encode_utf8;

verus! {

/// A byte that is a decimal digit.
pub open spec fn is_digit(b: u8) -> bool {
    48 <= b <= 57
}

/// A non-empty run of decimal digits.
pub open spec fn is_digits(s: Seq<u8>) -> bool {
    s.len() > 0 && forall|i: int| 0 <= i < s.len() ==> is_digit(#[trigger] s[i])
}

/// The number that a run of decimal digits writes.
pub open spec fn dec_value(s: Seq<u8>) -> int
    decreases s.len(),
{
    if s.len() == 0 {
        0
    } else {
        dec_value(s.drop_last()) * 10 + (s.last() - 48)
    }
}

/// Where `b` first occurs in `s`, or -1.
pub open spec fn first_index(s: Seq<u8>, b: u8) -> int
    decreases s.len(),
{
    if s.len() == 0 {
        -1
    } else if s[0] == b {
        0
    } else {
        let k = first_index(s.drop_first(), b);
        if k < 0 {
            -1
        } else {
            k + 1
        }
    }
}

/// `s` begins with `p`.
pub open spec fn starts_with(s: Seq<u8>, p: Seq<u8>) -> bool {
    p.len() <= s.len() && s.subrange(0, p.len() as int) == p
}

/// `s` ends with `.lz4`, the extension of tiles in the framed codec.
pub open spec fn is_lz4_name(s: Seq<u8>) -> bool {
    s.len() >= 4 && s.subrange(s.len() - 4, s.len() as int) == seq![46u8, 108u8, 122u8, 52u8]
}

/// What remains of `rest` before its first `.`.
pub open spec fn stem(rest: Seq<u8>) -> Seq<u8> {
    let k = first_index(rest, 46u8);
    if k >= 0 {
        rest.subrange(0, k)
    } else {
        rest
    }
}

/// The column and row that a stem `<col>~<row>` names, if it has that shape.
pub open spec fn tile_index(st: Seq<u8>) -> Option<(int, int)> {
    let k = first_index(st, 126u8);
    if k >= 0 && is_digits(st.subrange(0, k)) && is_digits(st.subrange(k + 1, st.len() as int)) {
        Some((dec_value(st.subrange(0, k)), dec_value(st.subrange(k + 1, st.len() as int))))
    } else {
        None
    }
}

/// The column and row that the entry `name` of the layer `uuid` names, both within `u32`.
pub open spec fn tile_name_index(name: Seq<u8>, uuid: Seq<u8>) -> Option<(u32, u32)> {
    match tile_index(stem(name.subrange(uuid.len() as int, name.len() as int))) {
        Some((c, r)) => if c <= u32::MAX && r <= u32::MAX {
            Some((c as u32, r as u32))
        } else {
            None
        },
        None => None,
    }
}

proof fn lemma_first_index(s: Seq<u8>, b: u8)
    ensures
        -1 <= first_index(s, b) < s.len(),
        first_index(s, b) >= 0 ==> s[first_index(s, b)] == b,
        forall|i: int| 0 <= i < s.len() && (first_index(s, b) < 0 || i < first_index(s, b)) ==> s[i] != b,
    decreases s.len(),
{
    if s.len() > 0 {
        lemma_first_index(s.drop_first(), b);
        assert forall|i: int| 0 < i < s.len() implies s[i] == s.drop_first()[i - 1] by {}
    }
}

proof fn lemma_dec_prefix(s: Seq<u8>, k: int)
    requires
        is_digits(s),
        0 < k <= s.len(),
    ensures
        dec_value(s.subrange(0, k)) <= dec_value(s),
        dec_value(s) >= 0,
    decreases s.len(),
{
    if k < s.len() {
        let t = s.drop_last();
        assert(is_digits(t)) by {
            assert forall|i: int| 0 <= i < t.len() implies is_digit(#[trigger] t[i]) by {
                assert(t[i] == s[i]);
            }
        }
        lemma_dec_prefix(t, k);
        assert(t.subrange(0, k) =~= s.subrange(0, k));
        assert(is_digit(s[s.len() - 1]));
    } else {
        assert(s.subrange(0, k) =~= s);
        lemma_dec_nonneg(s);
    }
}

proof fn lemma_dec_nonneg(s: Seq<u8>)
    requires
        forall|i: int| 0 <= i < s.len() ==> is_digit(#[trigger] s[i]),
    ensures
        dec_value(s) >= 0,
    decreases s.len(),
{
    if s.len() > 0 {
        let t = s.drop_last();
        assert forall|i: int| 0 <= i < t.len() implies is_digit(#[trigger] t[i]) by {
            assert(t[i] == s[i]);
        }
        lemma_dec_nonneg(t);
        assert(is_digit(s[s.len() - 1]));
    }
}

/// Reads `b[lo..hi]` as a decimal number that fits a `u32`.
fn parse_digits(b: &[u8], lo: usize, hi: usize) -> (r: Option<u32>)
    requires
        lo <= hi <= b@.len(),
    ensures
        r is Some <==> is_digits(b@.subrange(lo as int, hi as int)) && dec_value(b@.subrange(lo as int, hi as int)) <= u32::MAX,
        r matches Some(v) ==> v == dec_value(b@.subrange(lo as int, hi as int)),
{
    let ghost s = b@.subrange(lo as int, hi as int);
    if lo == hi {
        return None;
    }
    let mut acc: u64 = 0;
    let mut too_large = false;
    let mut i: usize = lo;
    while i < hi
        invariant
            lo <= i <= hi <= b@.len(),
            s == b@.subrange(lo as int, hi as int),
            forall|k: int| lo <= k < i ==> is_digit(#[trigger] b@[k]),
            !too_large ==> acc == dec_value(b@.subrange(lo as int, i as int)),
            !too_large ==> acc <= u32::MAX,
            too_large ==> i > lo && dec_value(b@.subrange(lo as int, i as int)) > u32::MAX,
        decreases hi - i,
    {
        let c = b[i];
        if c < 48 || c > 57 {
            assert(!is_digit(s[i - lo]));
            return None;
        }
        let ghost prev = b@.subrange(lo as int, i as int);
        let ghost next = b@.subrange(lo as int, i + 1);
        assert(next.drop_last() =~= prev);
        assert(next.last() == c);
        proof {
            assert forall|k: int| 0 <= k < prev.len() implies is_digit(#[trigger] prev[k]) by {
                assert(prev[k] == b@[lo + k]);
            }
            lemma_dec_nonneg(prev);
        }
        if !too_large {
            let v = acc * 10 + (c - 48) as u64;
            if v > 0xFFFF_FFFF {
                too_large = true;
            } else {
                acc = v;
            }
        } else {
            assert(dec_value(next) >= dec_value(prev));
        }
        i = i + 1;
    }
    assert(b@.subrange(lo as int, hi as int) =~= s);
    assert(is_digits(s)) by {
        assert forall|k: int| 0 <= k < s.len() implies is_digit(#[trigger] s[k]) by {
            assert(s[k] == b@[lo + k]);
        }
    }
    if too_large {
        None
    } else {
        Some(acc as u32)
    }
}

/// Where `b` first occurs in `s[lo..]`, as an index into `s`.
fn find_byte(s: &[u8], lo: usize, b: u8) -> (r: Option<usize>)
    requires
        lo <= s@.len(),
    ensures
        r matches Some(k) ==> first_index(s@.subrange(lo as int, s@.len() as int), b) == k - lo && lo <= k < s@.len(),
        r is None ==> first_index(s@.subrange(lo as int, s@.len() as int), b) == -1,
{
    let ghost t = s@.subrange(lo as int, s@.len() as int);
    proof {
        lemma_first_index(t, b);
    }
    let mut i: usize = lo;
    while i < s.len()
        invariant
            lo <= i <= s@.len(),
            t == s@.subrange(lo as int, s@.len() as int),
            -1 <= first_index(t, b) < t.len(),
            first_index(t, b) >= 0 ==> t[first_index(t, b)] == b,
            forall|k: int| 0 <= k < t.len() && (first_index(t, b) < 0 || k < first_index(t, b)) ==> t[k] != b,
            forall|k: int| lo <= k < i ==> s@[k] != b,
        decreases s.len() - i,
    {
        if s[i] == b {
            assert(t[i - lo] == b);
            assert(first_index(t, b) >= 0 && first_index(t, b) <= i - lo);
            assert(first_index(t, b) == i - lo) by {
                if first_index(t, b) < i - lo {
                    assert(s@[lo + first_index(t, b)] == t[first_index(t, b)]);
                }
            }
            return Some(i);
        }
        i = i + 1;
    }
    assert(first_index(t, b) < 0) by {
        if first_index(t, b) >= 0 {
            assert(s@[lo + first_index(t, b)] == t[first_index(t, b)]);
        }
    }
    None
}

/// Reads the column and row from the entry `name` of the layer `uuid`: after the
/// prefix, `<col>~<row>` up to the first `.`. Any other shape is an invalid value.
pub fn parse_tile_name(name: &str, uuid: &str) -> (r: Result<(u32, u32), ProcreateError>)
    requires
        uuid.spec_bytes().len() <= name.spec_bytes().len(),
    ensures
        r matches Ok(p) ==> tile_name_index(name.spec_bytes(), uuid.spec_bytes()) == Some(p),
        r is Err ==> tile_name_index(name.spec_bytes(), uuid.spec_bytes()) is None && r == Err::<(u32, u32), ProcreateError>(ProcreateError::InvalidValue),
{
    let b = name.as_bytes();
    let lo = uuid.as_bytes().len();
    let ghost rest = b@.subrange(lo as int, b@.len() as int);
    let end = match find_byte(b, lo, 46u8) {
        Some(k) => k,
        None => b.len(),
    };
    let ghost st = b@.subrange(lo as int, end as int);
    assert(st =~= stem(rest));
    let tilde = match find_byte(b, lo, 126u8) {
        Some(k) => k,
        None => {
            assert(first_index(st, 126u8) < 0) by {
                lemma_first_index(st, 126u8);
                lemma_first_index(rest, 126u8);
                if first_index(st, 126u8) >= 0 {
                    assert(rest[first_index(st, 126u8)] == st[first_index(st, 126u8)]);
                }
            }
            return Err(ProcreateError::InvalidValue);
        },
    };
    if tilde >= end {
        assert(first_index(st, 126u8) < 0) by {
            lemma_first_index(st, 126u8);
            lemma_first_index(rest, 126u8);
            if first_index(st, 126u8) >= 0 {
                assert(rest[first_index(st, 126u8)] == st[first_index(st, 126u8)]);
            }
        }
        return Err(ProcreateError::InvalidValue);
    }
    assert(first_index(st, 126u8) == tilde - lo) by {
        lemma_first_index(st, 126u8);
        lemma_first_index(rest, 126u8);
        assert(st[tilde - lo] == rest[tilde - lo]);
        if first_index(st, 126u8) >= 0 && first_index(st, 126u8) < tilde - lo {
            assert(rest[first_index(st, 126u8)] == st[first_index(st, 126u8)]);
        }
    }
    assert(st.subrange(0, tilde - lo) =~= b@.subrange(lo as int, tilde as int));
    assert(st.subrange(tilde - lo + 1, st.len() as int) =~= b@.subrange(tilde + 1, end as int));
    let col = parse_digits(b, lo, tilde);
    let row = parse_digits(b, tilde + 1, end);
    match (col, row) {
        (Some(c), Some(r)) => Ok((c, r)),
        _ => Err(ProcreateError::InvalidValue),
    }
}

/// Where one tile of a layer comes from and where its pixels go.
#[derive(Debug, Clone, Copy, PartialEq, Eq, Structural)]
pub struct TileJob {
    /// Index of the archive entry that holds the tile.
    pub name_index: usize,
    pub col: u32,
    pub row: u32,
    /// Pixel at which the tile starts in its texture-array slot.
    pub x: u32,
    pub y: u32,
    pub width: u32,
    pub height: u32,
    /// The entry is in the framed codec; otherwise in the dictionary codec.
    pub lz4: bool,
    /// Length of the decoded RGBA8 pixels: four bytes a pixel.
    pub len: usize,
}

/// The bytes of a string.
pub open spec fn str_bytes(s: String) -> Seq<u8> {
    encode_utf8(s@)
}

/// The indices of the entries among `names[..n]` that belong to the layer `uuid`.
pub open spec fn layer_entries(names: Seq<String>, uuid: Seq<u8>, n: int) -> Seq<int>
    decreases n,
{
    if n <= 0 || n > names.len() {
        Seq::empty()
    } else if starts_with(str_bytes(names[n - 1]), uuid) {
        layer_entries(names, uuid, n - 1).push(n - 1)
    } else {
        layer_entries(names, uuid, n - 1)
    }
}

/// The entries of a layer come in increasing order, and are exactly those that start with
/// its identifier.
pub proof fn lemma_layer_entries(names: Seq<String>, uuid: Seq<u8>, n: int)
    requires
        0 <= n <= names.len(),
    ensures
        forall|j: int, k: int| 0 <= j < k < layer_entries(names, uuid, n).len()
            ==> layer_entries(names, uuid, n)[j] < layer_entries(names, uuid, n)[k],
        forall|j: int| 0 <= j < layer_entries(names, uuid, n).len() ==> 0 <= #[trigger] layer_entries(names, uuid, n)[j] < n
            && starts_with(str_bytes(names[layer_entries(names, uuid, n)[j]]), uuid),
        forall|i: int| 0 <= i < n && starts_with(str_bytes(#[trigger] names[i]), uuid) ==> layer_entries(names, uuid, n).contains(i),
    decreases n,
{
    if n > 0 {
        lemma_layer_entries(names, uuid, n - 1);
        let prev = layer_entries(names, uuid, n - 1);
        if starts_with(str_bytes(names[n - 1]), uuid) {
            let cur = prev.push(n - 1);
            assert(cur[cur.len() - 1] == n - 1);
            assert forall|i: int| 0 <= i < n && starts_with(str_bytes(#[trigger] names[i]), uuid) implies cur.contains(i) by {
                if i < n - 1 {
                    let j = choose|j: int| 0 <= j < prev.len() && prev[j] == i;
                    assert(cur[j] == i);
                }
            }
        }
    }
}

/// Each entry of `names` that belongs to the layer `uuid` is read by some job.
pub open spec fn every_entry_planned(jobs: Seq<TileJob>, names: Seq<String>, uuid: Seq<u8>) -> bool {
    forall|i: int| 0 <= i < names.len() && starts_with(str_bytes(#[trigger] names[i]), uuid)
        ==> exists|j: int| 0 <= j < jobs.len() && jobs[j].name_index == i
}

/// The entry `name` of the layer `uuid` names a tile within `g`, whose pixels fit memory.
pub open spec fn tile_fits(name: Seq<u8>, uuid: Seq<u8>, g: TilingData) -> bool {
    tile_name_index(name, uuid) matches Some((c, r)) && c < g.columns && r < g.rows
        && tile_extent(g.width(), g.size as int, c as int) * tile_extent(g.height(), g.size as int, r as int) * 4
        <= usize::MAX
}

/// `job` reads the tile that entry `i` of `names` holds for the layer `uuid` in grid `g`.
pub open spec fn job_for(job: TileJob, names: Seq<String>, uuid: Seq<u8>, g: TilingData, i: int) -> bool {
    let name = str_bytes(names[i]);
    &&& job.name_index == i
    &&& tile_name_index(name, uuid) == Some((job.col, job.row))
    &&& job.col < g.columns
    &&& job.row < g.rows
    &&& job.x == job.col * g.size
    &&& job.y == job.row * g.size
    &&& job.width == tile_extent(g.width(), g.size as int, job.col as int)
    &&& job.height == tile_extent(g.height(), g.size as int, job.row as int)
    &&& job.len == job.width * job.height * 4
    &&& job.lz4 == is_lz4_name(name)
}

fn has_prefix(s: &[u8], p: &[u8]) -> (r: bool)
    ensures
        r == starts_with(s@, p@),
{
    if p.len() > s.len() {
        return false;
    }
    let mut i: usize = 0;
    while i < p.len()
        invariant
            p@.len() <= s@.len(),
            i <= p@.len(),
            forall|k: int| 0 <= k < i ==> s@[k] == p@[k],
        decreases p.len() - i,
    {
        if s[i] != p[i] {
            assert(s@.subrange(0, p@.len() as int)[i as int] != p@[i as int]);
            return false;
        }
        i = i + 1;
    }
    assert(s@.subrange(0, p@.len() as int) =~= p@);
    true
}

fn has_lz4_extension(s: &[u8]) -> (r: bool)
    ensures
        r == is_lz4_name(s@),
{
    let n = s.len();
    if n < 4 {
        return false;
    }
    let r = s[n - 4] == 46u8 && s[n - 3] == 108u8 && s[n - 2] == 122u8 && s[n - 1] == 52u8;
    let ghost t = s@.subrange(n - 4, n as int);
    assert(t[0] == s@[n - 4] && t[1] == s@[n - 3] && t[2] == s@[n - 2] && t[3] == s@[n - 1]);
    if r {
        assert(t =~= seq![46u8, 108u8, 122u8, 52u8]);
    } else {
        assert(t != seq![46u8, 108u8, 122u8, 52u8]) by {
            let e = seq![46u8, 108u8, 122u8, 52u8];
            if t == e {
                assert(t[0] == e[0] && t[1] == e[1] && t[2] == e[2] && t[3] == e[3]);
            }
        }
    }
    r
}

/// The tiles of the layer `uuid`: one job for each entry of `names` that starts with `uuid`,
/// in the order of `names`. An entry that names no tile of the grid is an invalid value.
pub fn plan_layer_tiles(uuid: &str, names: &Vec<String>, grid: &TilingData) -> (r: Result<Vec<TileJob>, ProcreateError>)
    requires
        grid.wf(),
    ensures
        r matches Ok(jobs) ==> jobs@.len() == layer_entries(names@, uuid.spec_bytes(), names@.len() as int).len()
            && forall|j: int| 0 <= j < jobs@.len() ==> job_for(#[trigger] jobs@[j], names@, uuid.spec_bytes(), *grid,
                layer_entries(names@, uuid.spec_bytes(), names@.len() as int)[j]),
        r is Ok <==> forall|i: int| 0 <= i < names@.len() && starts_with(str_bytes(#[trigger] names@[i]), uuid.spec_bytes())
            ==> tile_fits(str_bytes(names@[i]), uuid.spec_bytes(), *grid),
        r matches Err(e) ==> e is InvalidValue,
        r matches Ok(jobs) ==> forall|j: int, k: int| 0 <= j < k < jobs@.len() ==> jobs@[j].name_index < jobs@[k].name_index,
        r matches Ok(jobs) ==> every_entry_planned(jobs@, names@, uuid.spec_bytes()),
{
    proof {
        lemma_layer_entries(names@, uuid.spec_bytes(), names@.len() as int);
    }
    let u = uuid.as_bytes();
    let ghost ub = uuid.spec_bytes();
    let mut jobs: Vec<TileJob> = Vec::new();
    let mut i: usize = 0;
    while i < names.len()
        invariant
            grid.wf(),
            u@ == ub,
            ub == uuid.spec_bytes(),
            i <= names@.len(),
            jobs@.len() == layer_entries(names@, ub, i as int).len(),
            forall|j: int| 0 <= j < jobs@.len() ==> job_for(#[trigger] jobs@[j], names@, ub, *grid,
                layer_entries(names@, ub, i as int)[j]),
            forall|k: int| 0 <= k < i && starts_with(str_bytes(#[trigger] names@[k]), ub)
                ==> tile_fits(str_bytes(names@[k]), ub, *grid),
        decreases names.len() - i,
    {
        let name = names[i].as_str();
        let b = name.as_bytes();
        assert(b@ == str_bytes(names@[i as int]));
        assert(b@ == name.spec_bytes());
        let ghost prev = layer_entries(names@, ub, i as int);
        if has_prefix(b, u) {
            assert(u@.len() <= b@.len());
            assert(uuid.spec_bytes().len() <= name.spec_bytes().len());
            let (col, row) = match parse_tile_name(name, uuid) {
                Ok(p) => p,
                Err(e) => {
                    return Err(e);
                },
            };
            if col >= grid.columns || row >= grid.rows {
                return Err(ProcreateError::InvalidValue);
            }
            let size = grid.tile_size(col, row);
            let (x, y) = grid.tile_origin(col, row);
            let w: u64 = size.width as u64;
            let h: u64 = size.height as u64;
            assert(w * h <= 0xFFFF_FFFF * 0xFFFF_FFFF) by (nonlinear_arith)
                requires
                    w <= 0xFFFF_FFFF,
                    h <= 0xFFFF_FFFF,
            ;
            let area: u64 = w * h;
            if area > 0x3FFF_FFFF_FFFF_FFFF || area * 4 > usize::MAX as u64 {
                return Err(ProcreateError::InvalidValue);
            }
            let len = (area * 4) as usize;
            let lz4 = has_lz4_extension(b);
            let job = TileJob { name_index: i, col, row, x, y, width: size.width, height: size.height, lz4, len };
            assert(job_for(job, names@, ub, *grid, i as int));
            let ghost old_jobs = jobs@;
            jobs.push(job);
            assert(layer_entries(names@, ub, i + 1) == prev.push(i as int));
            assert forall|j: int| 0 <= j < jobs@.len() implies job_for(#[trigger] jobs@[j], names@, ub, *grid,
                layer_entries(names@, ub, i + 1)[j]) by {
                if j < old_jobs.len() {
                    assert(jobs@[j] == old_jobs[j]);
                    assert(layer_entries(names@, ub, i + 1)[j] == prev[j]);
                }
            }
        } else {
            assert(layer_entries(names@, ub, i + 1) == prev);
        }
        i = i + 1;
    }
    proof {
        let es = layer_entries(names@, ub, names@.len() as int);
        assert forall|j: int, k: int| 0 <= j < k < jobs@.len() implies jobs@[j].name_index < jobs@[k].name_index by {
            assert(job_for(jobs@[j], names@, ub, *grid, es[j]));
            assert(job_for(jobs@[k], names@, ub, *grid, es[k]));
        }
        assert forall|i: int| 0 <= i < names@.len() && starts_with(str_bytes(#[trigger] names@[i]), ub)
            implies exists|j: int| 0 <= j < jobs@.len() && jobs@[j].name_index == i by {
            assert(es.contains(i));
            let j = choose|j: int| 0 <= j < es.len() && es[j] == i;
            assert(job_for(jobs@[j], names@, ub, *grid, es[j]));
            assert(jobs@[j].name_index == i);
        }
        assert(every_entry_planned(jobs@, names@, ub));
    }
    Ok(jobs)
}

/// Accepts the decoded pixels of a tile only where they fill its rectangle exactly.
pub fn check_tile_pixels(job: &TileJob, pixels: Vec<u8>) -> (r: Result<Vec<u8>, ProcreateError>)
    ensures
        r is Ok <==> pixels@.len() == job.len,
        r matches Ok(v) ==> v@ == pixels@,
        r matches Err(e) ==> e is TileLength,
{
    if pixels.len() == job.len {
        Ok(pixels)
    } else {
        Err(ProcreateError::TileLength)
    }
}

/// Decodes the stored bytes `data` of a tile into its RGBA8 pixels, with the codec that the
/// entry's extension names; `lzo` is the dictionary codec's context for this load.
pub fn decode_tile(job: &TileJob, data: &[u8], lzo: &minilzo_rs::LZO) -> (r: Result<Vec<u8>, ProcreateError>)
    ensures
        job.lz4 ==> (r is Ok <==> (lz4_frame_result(data@) matches Some(v) && v.len() == job.len)),
        !job.lz4 ==> (r is Ok <==> lzo_block_result(data@, job.len as nat) is Some),
        r matches Ok(v) ==> v@.len() == job.len && (if job.lz4 {
            lz4_frame_result(data@) == Some(v@)
        } else {
            lzo_block_result(data@, job.len as nat) == Some(v@)
        }),
        r matches Err(e) ==> (if job.lz4 {
            (e is Lz4Error && lz4_frame_result(data@) is None) || (e is TileLength && lz4_frame_result(data@) is Some)
        } else {
            e is LzoError
        }),
{
    if job.lz4 {
        match lz4_frame_decode(data) {
            Some(v) => check_tile_pixels(job, v),
            None => Err(ProcreateError::Lz4Error),
        }
    } else {
        match lzo_decompress(lzo, data, job.len) {
            Some(v) => Ok(v),
            None => Err(ProcreateError::LzoError),
        }
    }
}

} // verus!
