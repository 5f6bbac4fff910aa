use crate::blend::BlendingMode;
use crate::tiling::Size;
use vstd::prelude::*;

verus! {

/// One raster layer of a document, with the texture-array slot that holds its pixels.
#[derive(Debug, Clone)]
pub struct SilicaLayer {
    pub blend: BlendingMode,
    /// Takes its alpha from the nearest non-clipped layer under it.
    pub clipped: bool,
    pub hidden: bool,
    pub mask: Option<usize>,
    pub name: Option<String>,
    /// Opacity in `0.0..=1.0`, as the bit pattern of a 64-bit float.
    pub opacity_bits: u64,
    pub size: Size,
    pub uuid: String,
    pub version: u64,
    /// Slot of the texture array that holds this layer.
    pub image: u32,
}

/// A layer or a group of layers.
#[derive(Debug)]
pub enum SilicaHierarchy {
    Layer(SilicaLayer),
    Group(SilicaGroup),
}

/// A named, possibly hidden, group of nodes, stored from the top of the stack down.
#[derive(Debug)]
pub struct SilicaGroup {
    pub hidden: bool,
    pub children: Vec<SilicaHierarchy>,
    pub name: Option<String>,
}

impl SilicaGroup {
    /// A hidden group with no children and no name.
    pub fn empty() -> (r: Self)
        ensures
            r.hidden,
            r.children@.len() == 0,
            r.name is None,
    {
        SilicaGroup { hidden: true, children: Vec::new(), name: None }
    }
}

/// The layers of a node that lie under no hidden group, bottom of the stack first.
pub open spec fn node_layers(n: SilicaHierarchy) -> Seq<SilicaLayer>
    decreases n, 0int,
{
    match n {
        SilicaHierarchy::Layer(l) => seq![l],
        SilicaHierarchy::Group(g) => if g.hidden {
            Seq::empty()
        } else {
            rev_range(g.children@, 0, g.children@.len() as int)
        },
    }
}

/// The layers of `s[hi - 1]`, then of `s[hi - 2]`, down to `s[lo]`.
pub open spec fn rev_range(s: Seq<SilicaHierarchy>, lo: int, hi: int) -> Seq<SilicaLayer>
    decreases s, hi - lo,
{
    if lo < 0 || hi <= lo || hi > s.len() {
        Seq::empty()
    } else {
        rev_range(s, lo + 1, hi) + node_layers(s[lo])
    }
}

/// The layers under the children of `g` that lie under no hidden group, bottom first.
pub open spec fn group_layers(g: SilicaGroup) -> Seq<SilicaLayer> {
    rev_range(g.children@, 0, g.children@.len() as int)
}

/// Every layer of a node, hidden or not, in stored order.
pub open spec fn node_all_layers(n: SilicaHierarchy) -> Seq<SilicaLayer>
    decreases n, 0int,
{
    match n {
        SilicaHierarchy::Layer(l) => seq![l],
        SilicaHierarchy::Group(g) => all_range(g.children@, g.children@.len() as int),
    }
}

/// Every layer of `s[0]` to `s[hi - 1]`, in that order.
pub open spec fn all_range(s: Seq<SilicaHierarchy>, hi: int) -> Seq<SilicaLayer>
    decreases s, hi,
{
    if hi <= 0 || hi > s.len() {
        Seq::empty()
    } else {
        all_range(s, hi - 1) + node_all_layers(s[hi - 1])
    }
}

/// `out[base..]` names the layers `ls`, each by identifier and slot.
pub open spec fn names_layers(out: Seq<(String, u32)>, base: int, ls: Seq<SilicaLayer>) -> bool {
    &&& out.len() == base + ls.len()
    &&& forall|k: int| 0 <= k < ls.len() ==> (#[trigger] out[base + k]).0@ == ls[k].uuid@ && out[base + k].1 == ls[k].image
}

fn collect_into(g: &SilicaGroup, out: &mut Vec<(String, u32)>)
    ensures
        names_layers(final(out)@, old(out)@.len() as int, all_range(g.children@, g.children@.len() as int)),
        forall|k: int| 0 <= k < old(out)@.len() ==> final(out)@[k] == old(out)@[k],
    decreases g,
{
    let ghost base = out@.len() as int;
    let ghost start = out@;
    let n = g.children.len();
    let mut i: usize = 0;
    while i < n
        invariant
            n == g.children@.len(),
            i <= n,
            start.len() == base,
            names_layers(out@, base, all_range(g.children@, i as int)),
            forall|k: int| 0 <= k < base ==> out@[k] == start[k],
        decreases n - i,
    {
        let ghost mid = out@;
        let ghost before = all_range(g.children@, i as int);
        assert(all_range(g.children@, i + 1) == before + node_all_layers(g.children@[i as int]));
        match &g.children[i] {
            SilicaHierarchy::Layer(l) => {
                out.push((l.uuid.clone(), l.image));
                let ghost after = all_range(g.children@, i + 1);
                assert forall|k: int| 0 <= k < after.len() implies (#[trigger] out@[base + k]).0@ == after[k].uuid@
                    && out@[base + k].1 == after[k].image by {
                    if k < before.len() {
                        assert(out@[base + k] == mid[base + k]);
                    }
                }
            },
            SilicaHierarchy::Group(inner) => {
                collect_into(inner, out);
                let ghost after = all_range(g.children@, i + 1);
                assert forall|k: int| 0 <= k < after.len() implies (#[trigger] out@[base + k]).0@ == after[k].uuid@
                    && out@[base + k].1 == after[k].image by {
                    if k < before.len() {
                        assert(out@[base + k] == mid[base + k]);
                    } else {
                        let q = k - before.len();
                        assert(out@[mid.len() + q] == out@[base + k]);
                    }
                }
            },
        }
        i = i + 1;
    }
}

/// The identifier and slot of every layer of the tree, hidden or not, in stored order: the
/// layers whose tiles a load reads.
pub fn layer_targets(root: &SilicaGroup) -> (r: Vec<(String, u32)>)
    ensures
        names_layers(r@, 0, all_range(root.children@, root.children@.len() as int)),
{
    let mut out: Vec<(String, u32)> = Vec::new();
    collect_into(root, &mut out);
    out
}

} // verus!
