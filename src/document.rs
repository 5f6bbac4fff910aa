use crate::error::{NsArchiveError, ProcreateError};
use crate::blend::is_blend_code;
use crate::ir::{blend_field, decode_layer, items_fault_is_blend, layer_fields_read, node_decoded, decode_nodes, derefs, lift, items_count, items_ok, layer_matches, seq_slots, slot_range};
use crate::keyed::{as_bool, as_data, as_dict, as_string, as_u32, as_u64, typed, typed_opt, Dict, NsKeyedArchive, PlistValue};
use crate::layers::{SilicaGroup, SilicaLayer};
use crate::tiling::{tile_count, Size, TilingData};
use vstd::prelude::*;

verus! {

/// Identifies one opened document among several held at once.
#[derive(Debug, Clone, Copy, PartialEq, Eq, Hash, Default, Structural)]
pub struct InstanceKey(pub usize);

/// Whether the canvas is mirrored.
#[derive(Debug, Clone, Copy, PartialEq, Eq, Structural)]
pub struct Flipped {
    pub horizontally: bool,
    pub vertically: bool,
}

/// A decoded document: its attributes and its layer tree. Layer `k` of the tree, in stored
/// order, holds slot `k` of the texture array; the composite, if any, the slot after them.
#[derive(Debug)]
pub struct ProcreateFile {
    pub author_name: Option<String>,
    pub background_hidden: bool,
    /// Red, green, blue and alpha, as the bit patterns of 32-bit floats.
    pub background_color: [u32; 4],
    pub flipped: Flipped,
    pub layers: SilicaGroup,
    pub name: Option<String>,
    /// Quarter turns to apply to the render target.
    pub orientation: u32,
    pub stroke_count: usize,
    pub tile_size: u32,
    pub composite: Option<SilicaLayer>,
    pub size: Size,
    /// How the canvas is cut into tiles.
    pub tiling: TilingData,
    /// Number of layers in the tree; the texture array has one slot more.
    pub layer_count: u32,
}

/// The little-endian 32-bit word at `b[i..i + 4]`.
pub open spec fn le_u32(b: Seq<u8>, i: int) -> int {
    b[i] + b[i + 1] * 256 + b[i + 2] * 65536 + b[i + 3] * 16777216
}

fn read_le_u32(b: &Vec<u8>, i: usize) -> (r: u32)
    requires
        i + 4 <= b@.len(),
    ensures
        r == le_u32(b@, i as int),
{
    let n = b.len();
    assert(i + 4 <= n);
    let b0: u32 = b[i] as u32;
    let b1: u32 = b[i + 1] as u32;
    let b2: u32 = b[i + 2] as u32;
    let b3: u32 = b[i + 3] as u32;
    assert(b0 < 256 && b1 < 256 && b2 < 256 && b3 < 256);
    b0 + b1 * 256 + b2 * 65536 + b3 * 16777216
}

/// Four colour channels from the 16 bytes of four little-endian 32-bit floats; any other
/// length is a type mismatch.
pub fn color_from_bytes(b: &Vec<u8>) -> (r: Result<[u32; 4], NsArchiveError>)
    ensures
        r is Ok <==> b@.len() == 16,
        r matches Ok(c) ==> forall|k: int| 0 <= k < 4 ==> c@[k] == le_u32(b@, 4 * k),
        r matches Err(e) ==> e is TypeMismatch,
{
    if b.len() != 16 {
        return Err(NsArchiveError::TypeMismatch);
    }
    let c = [read_le_u32(b, 0), read_le_u32(b, 4), read_le_u32(b, 8), read_le_u32(b, 12)];
    assert(c@[0] == le_u32(b@, 0) && c@[1] == le_u32(b@, 4) && c@[2] == le_u32(b@, 8) && c@[3] == le_u32(b@, 12));
    Ok(c)
}

/// The composite of the root object `root` can be read as a layer in slot `slot`.
pub open spec fn composite_ok(a: NsKeyedArchive, root: Seq<(String, PlistValue)>, slot: u32) -> bool {
    a.fetched(root, "composite"@) matches Ok(PlistValue::Dictionary(d)) && layer_fields_read(a, d@)
        && is_blend_code(blend_field(a, d@)->Ok_0) && slot < u32::MAX
}

/// The composite layer of `root`, in slot `slot`, or `None` where it cannot be read.
fn decode_composite(a: &NsKeyedArchive, root: &Dict, size: Size, slot: u32) -> (r: Option<SilicaLayer>)
    ensures
        r matches Some(l) ==> l.image == slot && l.size == size,
        r matches Some(l) ==> (as_dict(a.fetched(root@, "composite"@)->Ok_0) matches Some(d) && layer_matches(*a, d, l)),
        r is Some <==> composite_ok(*a, root@, slot),
{
    let v = match a.fetch(root, "composite") {
        Ok(v) => v,
        Err(_) => {
            return None;
        },
    };
    match v {
        PlistValue::Dictionary(d) => {
            let mut counter = slot;
            match decode_layer(a, d, size, &mut counter) {
                Ok(l) => Some(l),
                Err(_) => None,
            }
        },
        _ => None,
    }
}

impl ProcreateFile {
    /// Decodes the document that the keyed archive `a` holds. The layers of the tree take
    /// the slots `0..layer_count` in stored order; the composite, where it can be read, takes
    /// slot `layer_count`, and where it cannot the document has none.
    pub fn from_archive(a: &NsKeyedArchive) -> (r: Result<ProcreateFile, ProcreateError>)
        ensures
            r matches Ok(f) ==> document_slots(f).no_duplicates() && document_slots(f).to_set() == Set::new(
                |k: u32| k < f.layer_count,
            ),
            r matches Ok(f) ==> {
                &&& seq_slots(f.layers.children@, f.layers.children@.len() as int) == slot_range(0, f.layer_count as int)
                &&& f.composite matches Some(c) ==> c.image == f.layer_count
                &&& !f.layers.hidden
                &&& f.tiling.wf()
                &&& f.tiling.size == f.tile_size
                &&& f.tiling.width() == f.size.width
                &&& f.tiling.height() == f.size.height
                &&& f.tiling.columns == tile_count(f.size.width as int, f.tile_size as int)
                &&& f.tiling.rows == tile_count(f.size.height as int, f.tile_size as int)
                &&& typed(a.fetched(self_root(*a), "tileSize"@), |v: PlistValue| as_u32(v)) == Ok::<u32, NsArchiveError>(f.tile_size)
                &&& typed(a.fetched(self_root(*a), "orientation"@), |v: PlistValue| as_u32(v)) == Ok::<u32, NsArchiveError>(f.orientation)
                &&& typed(a.fetched(self_root(*a), "backgroundHidden"@), |v: PlistValue| as_bool(v)) == Ok::<bool, NsArchiveError>(f.background_hidden)
                &&& typed(a.fetched(self_root(*a), "flippedHorizontally"@), |v: PlistValue| as_bool(v)) == Ok::<bool, NsArchiveError>(f.flipped.horizontally)
                &&& typed(a.fetched(self_root(*a), "flippedVertically"@), |v: PlistValue| as_bool(v)) == Ok::<bool, NsArchiveError>(f.flipped.vertically)
                &&& typed(a.fetched(self_root(*a), "strokeCount"@), |v: PlistValue| as_u64(v)) == Ok::<u64, NsArchiveError>(f.stroke_count as u64)
                &&& typed(a.fetched(self_root(*a), "backgroundColor"@), |v: PlistValue| as_data(v)) matches Ok(bytes)
                    && forall|k: int| 0 <= k < 4 ==> f.background_color@[k] == le_u32(bytes, 4 * k)
            },
            r is Ok <==> document_ok(*a),
            document_fields_ok(*a) && items_fault_is_blend(*a, a.wrapped_items(self_root(*a), "unwrappedLayers"@)->0, archive_depth(*a))
                && items_count(*a, a.wrapped_items(self_root(*a), "unwrappedLayers"@)->0, archive_depth(*a), 0) <= u32::MAX
                ==> r == Err::<ProcreateFile, ProcreateError>(ProcreateError::InvalidValue),
            r matches Ok(f) ==> (f.composite is Some <==> composite_ok(*a, self_root(*a), f.layer_count)),
            r matches Ok(f) ==> {
                let items = a.wrapped_items(self_root(*a), "unwrappedLayers"@)->0;
                &&& typed(a.fetched(size_dict(*a), "width"@), |v: PlistValue| as_u32(v)) == Ok::<u32, NsArchiveError>(f.size.width)
                &&& typed(a.fetched(size_dict(*a), "height"@), |v: PlistValue| as_u32(v)) == Ok::<u32, NsArchiveError>(f.size.height)
                &&& typed_opt(a.fetched(self_root(*a), "authorName"@), |v: PlistValue| as_string(v)) == Ok::<Option<Seq<char>>, NsArchiveError>(
                    opt_view(f.author_name),
                )
                &&& typed_opt(a.fetched(self_root(*a), "name"@), |v: PlistValue| as_string(v)) == Ok::<Option<Seq<char>>, NsArchiveError>(
                    opt_view(f.name),
                )
                &&& opt_view(f.layers.name) == Some("Root Layer"@)
                &&& f.layers.children@.len() == items.len()
                &&& forall|i: int|
                    0 <= i < items.len() ==> node_decoded(*a, items[i], archive_depth(*a), f.size, #[trigger] f.layers.children@[i])
            },
            r matches Ok(f) ==> f.layer_count == items_count(*a, a.wrapped_items(self_root(*a), "unwrappedLayers"@)->0, archive_depth(*a), 0),
    {
        let root = lift(a.root())?;
        let size_dict = lift(a.fetch_dict(root, "size"))?;
        let width = lift(a.fetch_u32(size_dict, "width"))?;
        let height = lift(a.fetch_u32(size_dict, "height"))?;
        let tile_size = lift(a.fetch_u32(root, "tileSize"))?;
        if tile_size == 0 || width > u32::MAX - (tile_size - 1) || height > u32::MAX - (tile_size - 1) {
            return Err(ProcreateError::InvalidValue);
        }
        let tiling = TilingData::new(width, height, tile_size);
        let size = Size { width, height };
        let author_name = lift(a.fetch_opt_string(root, "authorName"))?;
        let background_hidden = lift(a.fetch_bool(root, "backgroundHidden"))?;
        let strokes = lift(a.fetch_u64(root, "strokeCount"))?;
        if strokes > usize::MAX as u64 {
            return Err(ProcreateError::NsArchiveError(NsArchiveError::TypeMismatch));
        }
        let color_bytes = lift(a.fetch_data(root, "backgroundColor"))?;
        let background_color = lift(color_from_bytes(color_bytes))?;
        let name = lift(a.fetch_opt_string(root, "name"))?;
        let orientation = lift(a.fetch_u32(root, "orientation"))?;
        let horizontally = lift(a.fetch_bool(root, "flippedHorizontally"))?;
        let vertically = lift(a.fetch_bool(root, "flippedVertically"))?;
        let items = lift(a.wrapped_array(root, "unwrappedLayers"))?;
        assert(derefs(items@) =~= a.wrapped_items(self_root(*a), "unwrappedLayers"@)->0);
        let depth: u32 = if a.objects.len() > u32::MAX as usize {
            u32::MAX
        } else {
            a.objects.len() as u32
        };
        let mut counter: u32 = 0;
        let children = decode_nodes(a, &items, size, &mut counter, depth)?;
        let composite = decode_composite(a, root, size, counter);
        let layers = SilicaGroup { hidden: false, children, name: Some(String::from_str("Root Layer")) };
        proof {
            lemma_slot_range_set(counter);
        }
        Ok(ProcreateFile {
            author_name,
            background_hidden,
            background_color,
            flipped: Flipped { horizontally, vertically },
            layers,
            name,
            orientation,
            stroke_count: strokes as usize,
            tile_size,
            composite,
            size,
            tiling,
            layer_count: counter,
        })
    }
}

impl ProcreateFile {
    /// The size of the render target: the canvas turned a quarter turn `orientation` times,
    /// each turn swapping width and height.
    pub fn render_size(&self) -> (r: Size)
        ensures
            r == (if self.orientation % 2 == 1 {
                Size { width: self.size.height, height: self.size.width }
            } else {
                self.size
            }),
    {
        let mut dim = self.size;
        let mut turn: u32 = 0;
        while turn < self.orientation
            invariant
                turn <= self.orientation,
                dim == (if turn % 2 == 1 {
                    Size { width: self.size.height, height: self.size.width }
                } else {
                    self.size
                }),
            decreases self.orientation - turn,
        {
            dim = Size { width: dim.height, height: dim.width };
            turn = turn + 1;
        }
        dim
    }
}

/// The slots of the layers of a document's tree, in stored order.
pub open spec fn document_slots(f: ProcreateFile) -> Seq<u32> {
    seq_slots(f.layers.children@, f.layers.children@.len() as int)
}

proof fn lemma_slot_range_set(n: u32)
    ensures
        slot_range(0, n as int).no_duplicates(),
        slot_range(0, n as int).to_set() == Set::new(|k: u32| k < n),
{
    let s = slot_range(0, n as int);
    assert forall|k: u32| #[trigger] s.to_set().contains(k) <==> k < n by {
        if k < n {
            assert(s[k as int] == k);
        }
    }
    assert(s.to_set() =~= Set::new(|k: u32| k < n));
}

/// The characters of an optional string.
pub open spec fn opt_view(s: Option<String>) -> Option<Seq<char>> {
    match s {
        Some(x) => Some(x@),
        None => None,
    }
}

/// How deep groups may nest: as many levels as the archive has objects, within `u32`.
pub open spec fn archive_depth(a: NsKeyedArchive) -> int {
    if a.objects@.len() > u32::MAX {
        u32::MAX as int
    } else {
        a.objects@.len() as int
    }
}

/// The size dictionary of the root of `a`.
pub open spec fn size_dict(a: NsKeyedArchive) -> Seq<(String, PlistValue)> {
    typed(a.fetched(self_root(a), "size"@), |v: PlistValue| as_dict(v))->Ok_0
}

/// The keyed archive `a` holds a document that can be opened: its attributes read, and the
/// layer tree can be read with its slots fitting `u32`.
pub open spec fn document_ok(a: NsKeyedArchive) -> bool {
    let items = a.wrapped_items(self_root(a), "unwrappedLayers"@);
    &&& document_fields_ok(a)
    &&& items_ok(a, items->0, archive_depth(a), 0)
    &&& items_count(a, items->0, archive_depth(a), 0) <= u32::MAX
}

/// Every attribute of the document in `a` reads as its type, the tile edge is positive and
/// the canvas plus one tile fits `u32`, the background colour has sixteen bytes, and the
/// stored layer list can be read.
pub open spec fn document_fields_ok(a: NsKeyedArchive) -> bool {
    let root = self_root(a);
    let w = typed(a.fetched(size_dict(a), "width"@), |v: PlistValue| as_u32(v));
    let h = typed(a.fetched(size_dict(a), "height"@), |v: PlistValue| as_u32(v));
    let t = typed(a.fetched(root, "tileSize"@), |v: PlistValue| as_u32(v));
    let items = a.wrapped_items(root, "unwrappedLayers"@);
    &&& typed(a.fetched(a.top@, "root"@), |v: PlistValue| as_dict(v)) is Ok
    &&& typed(a.fetched(root, "size"@), |v: PlistValue| as_dict(v)) is Ok
    &&& w is Ok && h is Ok && t is Ok
    &&& t->Ok_0 > 0 && w->Ok_0 + t->Ok_0 - 1 <= u32::MAX && h->Ok_0 + t->Ok_0 - 1 <= u32::MAX
    &&& typed_opt(a.fetched(root, "authorName"@), |v: PlistValue| as_string(v)) is Ok
    &&& typed(a.fetched(root, "backgroundHidden"@), |v: PlistValue| as_bool(v)) is Ok
    &&& typed(a.fetched(root, "strokeCount"@), |v: PlistValue| as_u64(v)) is Ok
    &&& typed(a.fetched(root, "strokeCount"@), |v: PlistValue| as_u64(v))->Ok_0 <= usize::MAX
    &&& typed(a.fetched(root, "backgroundColor"@), |v: PlistValue| as_data(v)) is Ok
    &&& typed(a.fetched(root, "backgroundColor"@), |v: PlistValue| as_data(v))->Ok_0.len() == 16
    &&& typed_opt(a.fetched(root, "name"@), |v: PlistValue| as_string(v)) is Ok
    &&& typed(a.fetched(root, "orientation"@), |v: PlistValue| as_u32(v)) is Ok
    &&& typed(a.fetched(root, "flippedHorizontally"@), |v: PlistValue| as_bool(v)) is Ok
    &&& typed(a.fetched(root, "flippedVertically"@), |v: PlistValue| as_bool(v)) is Ok
    &&& items is Some
}

/// The root object of `a`.
pub open spec fn self_root(a: NsKeyedArchive) -> Seq<(String, PlistValue)> {
    typed(a.fetched(a.top@, "root"@), |v: PlistValue| as_dict(v))->Ok_0
}

} // verus!
