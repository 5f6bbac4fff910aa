use crate::blend::BlendingMode;
use crate::layers::{group_layers, node_layers, rev_range, SilicaGroup, SilicaHierarchy, SilicaLayer};
use vstd::prelude::*;

verus! {

/// One layer as the compositor draws it.
#[derive(Debug, Clone, Copy, PartialEq, Eq, Structural)]
pub struct CompositeLayer {
    /// Slot of the texture array to draw.
    pub texture: u32,
    /// For a clipped layer, the slot whose alpha it is clipped to.
    pub clipped: Option<u32>,
    /// Opacity, as the bit pattern of a 64-bit float.
    pub opacity_bits: u64,
    pub blend: BlendingMode,
}

/// The clipping mask in effect: the slot of the last non-clipped layer met, and whether that
/// layer is hidden.
pub type MaskState = Option<(u32, bool)>;

/// The record that `l` yields under mask `m`, if any: hidden layers yield none, nor does a
/// clipped layer whose mask is missing or hidden.
pub open spec fn emitted(l: SilicaLayer, m: MaskState) -> Option<CompositeLayer> {
    if l.hidden {
        None
    } else if !l.clipped {
        Some(CompositeLayer { texture: l.image, clipped: None, opacity_bits: l.opacity_bits, blend: l.blend })
    } else {
        match m {
            Some((s, mask_hidden)) => if mask_hidden {
                None
            } else {
                Some(CompositeLayer { texture: l.image, clipped: Some(s), opacity_bits: l.opacity_bits, blend: l.blend })
            },
            None => None,
        }
    }
}

/// A mask is in effect and its layer is visible.
pub open spec fn mask_visible(m: MaskState) -> bool {
    match m {
        Some((_, mask_hidden)) => !mask_hidden,
        None => false,
    }
}

/// The slot of the mask in effect, if any.
pub open spec fn mask_slot(m: MaskState) -> u32 {
    match m {
        Some((slot, _)) => slot,
        None => 0,
    }
}

/// The mask in effect after `l`: every non-clipped layer becomes the mask.
pub open spec fn mask_after_layer(l: SilicaLayer, m: MaskState) -> MaskState {
    if !l.clipped {
        Some((l.image, l.hidden))
    } else {
        m
    }
}

pub open spec fn opt_seq(o: Option<CompositeLayer>) -> Seq<CompositeLayer> {
    match o {
        Some(r) => seq![r],
        None => Seq::empty(),
    }
}

/// The records that the layers `ls`, met in that order from mask `m`, yield.
pub open spec fn scan(ls: Seq<SilicaLayer>, m: MaskState) -> Seq<CompositeLayer>
    decreases ls.len(),
{
    if ls.len() == 0 {
        Seq::empty()
    } else {
        opt_seq(emitted(ls[0], m)) + scan(ls.drop_first(), mask_after_layer(ls[0], m))
    }
}

/// The mask in effect after the layers `ls`, met from mask `m`.
pub open spec fn mask_after(ls: Seq<SilicaLayer>, m: MaskState) -> MaskState
    decreases ls.len(),
{
    if ls.len() == 0 {
        m
    } else {
        mask_after(ls.drop_first(), mask_after_layer(ls[0], m))
    }
}

/// What flattening `root` yields: its layers under no hidden group, bottom first, scanned
/// from no mask.
pub open spec fn flatten_spec(root: SilicaGroup) -> Seq<CompositeLayer> {
    scan(group_layers(root), None)
}

proof fn lemma_scan_concat(a: Seq<SilicaLayer>, b: Seq<SilicaLayer>, m: MaskState)
    ensures
        scan(a + b, m) == scan(a, m) + scan(b, mask_after(a, m)),
        mask_after(a + b, m) == mask_after(b, mask_after(a, m)),
    decreases a.len(),
{
    if a.len() == 0 {
        assert(a + b =~= b);
    } else {
        assert((a + b).drop_first() =~= a.drop_first() + b);
        lemma_scan_concat(a.drop_first(), b, mask_after_layer(a[0], m));
        assert(opt_seq(emitted(a[0], m)) + (scan(a.drop_first(), mask_after_layer(a[0], m)) + scan(
            b,
            mask_after(a, m),
        )) =~= (opt_seq(emitted(a[0], m)) + scan(a.drop_first(), mask_after_layer(a[0], m)))
            + scan(b, mask_after(a, m)));
    }
}

proof fn lemma_scan_single(l: SilicaLayer, m: MaskState)
    ensures
        scan(seq![l], m) == opt_seq(emitted(l, m)),
        mask_after(seq![l], m) == mask_after_layer(l, m),
{
    let e = Seq::<SilicaLayer>::empty();
    assert(seq![l].drop_first() =~= e);
    assert(seq![l][0] == l);
    assert(scan(e, mask_after_layer(l, m)) =~= Seq::<CompositeLayer>::empty());
    assert(mask_after(e, mask_after_layer(l, m)) == mask_after_layer(l, m));
    assert(opt_seq(emitted(l, m)) + Seq::<CompositeLayer>::empty() =~= opt_seq(emitted(l, m)));
}

/// If record `i` of `p` is clipped, an earlier record of `p` draws its mask slot unclipped.
pub open spec fn has_source(p: Seq<CompositeLayer>, i: int) -> bool {
    p[i].clipped is Some ==> exists|j: int|
        0 <= j < i && p[j].texture == p[i].clipped->0 && p[j].clipped is None
}

/// Every clipped record in `p` names a slot that an earlier record of `p` draws unclipped.
pub open spec fn clip_sources_precede(p: Seq<CompositeLayer>) -> bool {
    forall|i: int| 0 <= i < p.len() ==> #[trigger] has_source(p, i)
}

spec fn mask_drawn(p: Seq<CompositeLayer>, m: MaskState) -> bool {
    match m {
        Some((s, mask_hidden)) => !mask_hidden ==> exists|j: int|
            0 <= j < p.len() && p[j].texture == s && p[j].clipped is None,
        None => true,
    }
}

proof fn lemma_clip_step(p: Seq<CompositeLayer>, l: SilicaLayer, m: MaskState)
    requires
        clip_sources_precede(p),
        mask_drawn(p, m),
    ensures
        clip_sources_precede(p + opt_seq(emitted(l, m))),
        mask_drawn(p + opt_seq(emitted(l, m)), mask_after_layer(l, m)),
{
    let h = opt_seq(emitted(l, m));
    let grown = p + h;
    assert forall|i: int| 0 <= i < grown.len() implies #[trigger] has_source(grown, i) by {
        if i < p.len() {
            assert(grown[i] == p[i]);
            assert(has_source(p, i));
            if p[i].clipped is Some {
                let j = choose|j: int| 0 <= j < i && p[j].texture == p[i].clipped->0 && p[j].clipped is None;
                assert(grown[j] == p[j]);
            }
        } else if grown[i].clipped is Some {
            let ms = m->0;
            let j = choose|j: int| 0 <= j < p.len() && p[j].texture == ms.0 && p[j].clipped is None;
            assert(grown[j] == p[j]);
        }
    }
    if !l.clipped {
        if !l.hidden {
            assert(grown[p.len() as int] == h[0]);
        }
    } else {
        if let Some((s, mh)) = m {
            if !mh {
                let j = choose|j: int| 0 <= j < p.len() && p[j].texture == s && p[j].clipped is None;
                assert(grown[j] == p[j]);
            }
        }
    }
}

proof fn lemma_scan_clip_sources(p: Seq<CompositeLayer>, ls: Seq<SilicaLayer>, m: MaskState)
    requires
        clip_sources_precede(p),
        mask_drawn(p, m),
    ensures
        clip_sources_precede(p + scan(ls, m)),
    decreases ls.len(),
{
    if ls.len() == 0 {
        assert(p + scan(ls, m) =~= p);
    } else {
        let grown = p + opt_seq(emitted(ls[0], m));
        let m2 = mask_after_layer(ls[0], m);
        lemma_clip_step(p, ls[0], m);
        lemma_scan_clip_sources(grown, ls.drop_first(), m2);
        assert(p + scan(ls, m) =~= grown + scan(ls.drop_first(), m2));
    }
}

/// Whenever a clipped layer is drawn, the layer that it is clipped to is drawn earlier, and
/// unclipped.
pub proof fn lemma_clip_sources_precede(root: SilicaGroup)
    ensures
        clip_sources_precede(flatten_spec(root)),
{
    let e = Seq::<CompositeLayer>::empty();
    lemma_scan_clip_sources(e, group_layers(root), None);
    assert(e + flatten_spec(root) =~= flatten_spec(root));
}

/// Record `r` draws layer `l`.
pub open spec fn draws(r: CompositeLayer, l: SilicaLayer) -> bool {
    &&& r.texture == l.image
    &&& r.opacity_bits == l.opacity_bits
    &&& r.blend == l.blend
    &&& (r.clipped is None <==> !l.clipped)
}

proof fn lemma_scan_visible(ls: Seq<SilicaLayer>, m: MaskState)
    ensures
        forall|i: int|
            #![trigger scan(ls, m)[i]]
            0 <= i < scan(ls, m).len() ==> exists|j: int|
                0 <= j < ls.len() && !ls[j].hidden && draws(scan(ls, m)[i], ls[j]),
        forall|j: int|
            #![trigger ls[j]]
            0 <= j < ls.len() && !ls[j].hidden && !ls[j].clipped ==> exists|i: int|
                0 <= i < scan(ls, m).len() && draws(scan(ls, m)[i], ls[j]),
    decreases ls.len(),
{
    if ls.len() > 0 {
        let t = ls.drop_first();
        let m2 = mask_after_layer(ls[0], m);
        lemma_scan_visible(t, m2);
        let h = opt_seq(emitted(ls[0], m));
        let out = scan(ls, m);
        assert(out == h + scan(t, m2));
        assert forall|i: int|
            #![trigger out[i]]
            0 <= i < out.len() implies exists|j: int|
                0 <= j < ls.len() && !ls[j].hidden && draws(out[i], ls[j]) by {
            if i < h.len() {
                assert(out[i] == h[i]);
                assert(draws(out[i], ls[0]));
            } else {
                assert(out[i] == scan(t, m2)[i - h.len()]);
                let j = choose|j: int|
                    0 <= j < t.len() && !t[j].hidden && draws(scan(t, m2)[i - h.len()], t[j]);
                assert(t[j] == ls[j + 1]);
            }
        }
        assert forall|j: int|
            #![trigger ls[j]]
            0 <= j < ls.len() && !ls[j].hidden && !ls[j].clipped implies exists|i: int|
                0 <= i < out.len() && draws(out[i], ls[j]) by {
            if j == 0 {
                assert(out[0] == h[0]);
            } else {
                assert(t[j - 1] == ls[j]);
                let i = choose|i: int| 0 <= i < scan(t, m2).len() && draws(scan(t, m2)[i], t[j - 1]);
                assert(out[i + h.len()] == scan(t, m2)[i]);
            }
        }
    }
}

/// Flattening draws only layers that are visible and lie under no hidden group, each as it
/// is, and draws every such layer that is not clipped.
pub proof fn lemma_flatten_draws_visible_layers(root: SilicaGroup)
    ensures
        forall|i: int|
            #![trigger flatten_spec(root)[i]]
            0 <= i < flatten_spec(root).len() ==> exists|j: int|
                0 <= j < group_layers(root).len() && !group_layers(root)[j].hidden && draws(
                    flatten_spec(root)[i],
                    group_layers(root)[j],
                ),
        forall|j: int|
            #![trigger group_layers(root)[j]]
            0 <= j < group_layers(root).len() && !group_layers(root)[j].hidden
                && !group_layers(root)[j].clipped ==> exists|i: int|
                0 <= i < flatten_spec(root).len() && draws(flatten_spec(root)[i], group_layers(root)[j]),
{
    let ls = group_layers(root);
    let out = flatten_spec(root);
    lemma_scan_visible(ls, None);
    assert forall|i: int|
        #![trigger out[i]]
        0 <= i < out.len() implies exists|j: int|
            0 <= j < ls.len() && !ls[j].hidden && draws(out[i], ls[j]) by {
        assert(out[i] == scan(ls, None)[i]);
    }
    assert forall|j: int|
        #![trigger ls[j]]
        0 <= j < ls.len() && !ls[j].hidden && !ls[j].clipped implies exists|i: int|
            0 <= i < out.len() && draws(out[i], ls[j]) by {
        assert(ls[j] == ls[j]);
    }
}

/// Layer `j` of `ls` is visible and clipped, and the mask in effect before it is visible.
pub open spec fn clip_drawable(ls: Seq<SilicaLayer>, m: MaskState, j: int) -> bool {
    !ls[j].hidden && ls[j].clipped && mask_visible(mask_after(ls.subrange(0, j), m))
}

/// Some record of `out` draws `l` clipped to `s`.
pub open spec fn drawn_clipped(out: Seq<CompositeLayer>, l: SilicaLayer, s: u32) -> bool {
    exists|i: int| 0 <= i < out.len() && draws(out[i], l) && out[i].clipped == Some(s)
}

proof fn lemma_scan_clipped(ls: Seq<SilicaLayer>, m: MaskState, j: int)
    requires
        0 <= j < ls.len(),
        clip_drawable(ls, m, j),
    ensures
        drawn_clipped(scan(ls, m), ls[j], mask_slot(mask_after(ls.subrange(0, j), m))),
    decreases ls.len(),
{
    let t = ls.drop_first();
    let m2 = mask_after_layer(ls[0], m);
    let h = opt_seq(emitted(ls[0], m));
    let out = scan(ls, m);
    assert(out == h + scan(t, m2));
    if j == 0 {
        assert(ls.subrange(0, 0).len() == 0);
        assert(mask_after(ls.subrange(0, 0), m) == m);
        assert(out[0] == h[0]);
    } else {
        assert(ls.subrange(0, j).drop_first() =~= t.subrange(0, j - 1));
        assert(ls.subrange(0, j)[0] == ls[0]);
        assert(mask_after(t.subrange(0, j - 1), m2) == mask_after(ls.subrange(0, j), m));
        assert(t[j - 1] == ls[j]);
        lemma_scan_clipped(t, m2, j - 1);
        let s = mask_slot(mask_after(t.subrange(0, j - 1), m2));
        let i = choose|i: int| 0 <= i < scan(t, m2).len() && draws(scan(t, m2)[i], t[j - 1]) && scan(t, m2)[i].clipped == Some(s);
        assert(out[i + h.len()] == scan(t, m2)[i]);
    }
}

/// A visible clipped layer under no hidden group is drawn, clipped to the slot of its mask,
/// whenever the mask in effect before it (the last non-clipped layer met) is visible.
pub proof fn lemma_flatten_draws_clipped_layers(root: SilicaGroup, j: int)
    requires
        0 <= j < group_layers(root).len(),
        clip_drawable(group_layers(root), None, j),
    ensures
        drawn_clipped(
            flatten_spec(root),
            group_layers(root)[j],
            mask_slot(mask_after(group_layers(root).subrange(0, j), None)),
        ),
{
    lemma_scan_clipped(group_layers(root), None, j);
}

/// Record `r` draws layer `j` of `ls`, met from mask `m`: the layer is visible and, if it is
/// clipped, the mask in effect before it is visible and `r` is clipped to its slot.
pub open spec fn record_from(ls: Seq<SilicaLayer>, m: MaskState, r: CompositeLayer, j: int) -> bool {
    &&& 0 <= j < ls.len()
    &&& !ls[j].hidden
    &&& draws(r, ls[j])
    &&& ls[j].clipped ==> mask_visible(mask_after(ls.subrange(0, j), m)) && r.clipped == Some(
        mask_slot(mask_after(ls.subrange(0, j), m)),
    )
}

proof fn lemma_scan_sound(ls: Seq<SilicaLayer>, m: MaskState, i: int)
    requires
        0 <= i < scan(ls, m).len(),
    ensures
        exists|j: int| #[trigger] record_from(ls, m, scan(ls, m)[i], j),
    decreases ls.len(),
{
    let t = ls.drop_first();
    let m2 = mask_after_layer(ls[0], m);
    let h = opt_seq(emitted(ls[0], m));
    let out = scan(ls, m);
    assert(out == h + scan(t, m2));
    assert(ls.subrange(0, 0).len() == 0);
    assert(mask_after(ls.subrange(0, 0), m) == m);
    if i < h.len() {
        assert(out[i] == h[0]);
        assert(record_from(ls, m, out[i], 0));
    } else {
        lemma_scan_sound(t, m2, i - h.len());
        assert(out[i] == scan(t, m2)[i - h.len()]);
        let j = choose|j: int| #[trigger] record_from(t, m2, scan(t, m2)[i - h.len()], j);
        assert(ls.subrange(0, j + 1).drop_first() =~= t.subrange(0, j));
        assert(ls.subrange(0, j + 1)[0] == ls[0]);
        assert(mask_after(t.subrange(0, j), m2) == mask_after(ls.subrange(0, j + 1), m));
        assert(t[j] == ls[j + 1]);
        assert(record_from(ls, m, out[i], j + 1));
    }
}

/// Each drawn record comes from a visible layer under no hidden group; a clipped record
/// comes from a clipped layer whose mask, the last non-clipped layer met before it, is
/// visible, and names that mask's slot. With the two laws above, flattening draws exactly the
/// visible layers that the hidden-mask rule keeps.
pub proof fn lemma_flatten_records_sound(root: SilicaGroup, i: int)
    requires
        0 <= i < flatten_spec(root).len(),
    ensures
        exists|j: int| #[trigger] record_from(group_layers(root), None, flatten_spec(root)[i], j),
{
    lemma_scan_sound(group_layers(root), None, i);
}

fn flatten_into(g: &SilicaGroup, out: &mut Vec<CompositeLayer>, mask: &mut MaskState)
    ensures
        final(out)@ == old(out)@ + scan(group_layers(*g), *old(mask)),
        *final(mask) == mask_after(group_layers(*g), *old(mask)),
    decreases g,
{
    let ghost s = g.children@;
    let ghost out0 = out@;
    let ghost m0 = *mask;
    let n = g.children.len();
    let mut i: usize = n;
    assert(rev_range(s, n as int, n as int) =~= Seq::<SilicaLayer>::empty());
    while i > 0
        invariant
            s == g.children@,
            n == s.len(),
            i <= n,
            out@ == out0 + scan(rev_range(s, i as int, n as int), m0),
            *mask == mask_after(rev_range(s, i as int, n as int), m0),
        decreases i,
    {
        i = i - 1;
        let ghost before = rev_range(s, (i + 1) as int, n as int);
        let ghost m1 = *mask;
        let ghost out1 = out@;
        assert(rev_range(s, i as int, n as int) == before + node_layers(s[i as int]));
        match &g.children[i] {
            SilicaHierarchy::Group(child) => {
                if !child.hidden {
                    flatten_into(child, out, mask);
                } else {
                    assert(node_layers(s[i as int]) =~= Seq::<SilicaLayer>::empty());
                }
            },
            SilicaHierarchy::Layer(layer) => {
                proof {
                    lemma_scan_single(*layer, m1);
                }
                if !layer.hidden {
                    let skip = match *mask {
                        Some((_, mask_hidden)) => layer.clipped && mask_hidden,
                        None => layer.clipped,
                    };
                    if !skip {
                        let clip = if layer.clipped {
                            match *mask {
                                Some((slot, _)) => Some(slot),
                                None => None,
                            }
                        } else {
                            None
                        };
                        out.push(
                            CompositeLayer {
                                texture: layer.image,
                                clipped: clip,
                                opacity_bits: layer.opacity_bits,
                                blend: layer.blend,
                            },
                        );
                    }
                }
                if !layer.clipped {
                    *mask = Some((layer.image, layer.hidden));
                }
            },
        }
        proof {
            lemma_scan_concat(before, node_layers(s[i as int]), m0);
            assert(out@ =~= out0 + scan(rev_range(s, i as int, n as int), m0));
        }
    }
}

/// Turns the layer tree into the list of layers to draw, bottom first. Hidden layers and
/// groups are left out, and so is a clipped layer whose mask is missing or hidden; a clipped
/// layer names the slot of its mask.
pub fn linearize_silica_layers(layers: &SilicaGroup) -> (r: Vec<CompositeLayer>)
    ensures
        r@ == flatten_spec(*layers),
{
    let mut out: Vec<CompositeLayer> = Vec::new();
    let mut mask: MaskState = None;
    flatten_into(layers, &mut out, &mut mask);
    assert(out@ =~= flatten_spec(*layers));
    out
}

} // verus!
