use silica::blend::BlendingMode;
use silica::flatten::{linearize_silica_layers, CompositeLayer};
use silica::layers::{SilicaGroup, SilicaHierarchy, SilicaLayer};
use silica::tiling::Size;

const OPAQUE: u64 = 0x3FF0_0000_0000_0000;

fn layer(image: u32, clipped: bool, hidden: bool) -> SilicaHierarchy {
    SilicaHierarchy::Layer(SilicaLayer {
        blend: BlendingMode::Normal,
        clipped,
        hidden,
        mask: None,
        name: None,
        opacity_bits: OPAQUE,
        size: Size { width: 128, height: 128 },
        uuid: format!("layer-{image}"),
        version: 1,
        image,
    })
}

fn group(hidden: bool, children: Vec<SilicaHierarchy>) -> SilicaGroup {
    SilicaGroup { hidden, children, name: None }
}

fn record(texture: u32, clipped: Option<u32>) -> CompositeLayer {
    CompositeLayer { texture, clipped, opacity_bits: OPAQUE, blend: BlendingMode::Normal }
}

#[test]
fn single_visible_layer() {
    let root = group(false, vec![layer(0, false, false)]);
    assert_eq!(linearize_silica_layers(&root), vec![record(0, None)]);
}

// Children are stored from the top of the stack down, so A, the mask at the bottom,
// is stored last and drawn first.
#[test]
fn group_with_clipping_chain() {
    let (a, b, c) = (0, 1, 2);
    let inner = group(false, vec![layer(c, true, false), layer(b, true, false), layer(a, false, false)]);
    let root = group(false, vec![SilicaHierarchy::Group(inner)]);
    assert_eq!(
        linearize_silica_layers(&root),
        vec![record(a, None), record(b, Some(a)), record(c, Some(a))]
    );
}

#[test]
fn hidden_mask_suppresses_clips() {
    let inner = group(false, vec![layer(2, true, false), layer(1, true, false), layer(0, false, true)]);
    let root = group(false, vec![SilicaHierarchy::Group(inner)]);
    assert_eq!(linearize_silica_layers(&root), vec![]);
}

#[test]
fn hidden_group_is_skipped() {
    let inner = group(true, vec![layer(1, false, false)]);
    let root = group(false, vec![SilicaHierarchy::Group(inner), layer(0, false, false)]);
    assert_eq!(linearize_silica_layers(&root), vec![record(0, None)]);
}

#[test]
fn clipped_layer_without_mask_is_dropped() {
    let root = group(false, vec![layer(1, false, false), layer(0, true, false)]);
    assert_eq!(linearize_silica_layers(&root), vec![record(1, None)]);
}

#[test]
fn mask_carries_into_a_group() {
    let inner = group(false, vec![layer(1, true, false)]);
    let root = group(false, vec![SilicaHierarchy::Group(inner), layer(0, false, false)]);
    assert_eq!(linearize_silica_layers(&root), vec![record(0, None), record(1, Some(0))]);
}

#[test]
fn flattening_twice_gives_the_same_list() {
    let inner = group(false, vec![layer(2, true, false), layer(1, false, false)]);
    let root = group(false, vec![layer(3, false, false), SilicaHierarchy::Group(inner), layer(0, false, true)]);
    let first = linearize_silica_layers(&root);
    assert_eq!(first, linearize_silica_layers(&root));
    for (i, r) in first.iter().enumerate() {
        if let Some(s) = r.clipped {
            assert!(first[..i].iter().any(|e| e.texture == s && e.clipped.is_none()));
        }
    }
}

#[test]
fn empty_group_is_empty() {
    assert_eq!(linearize_silica_layers(&SilicaGroup::empty()), vec![]);
}
