use silica::blend::BlendingMode;
use silica::document::{color_from_bytes, ProcreateFile};
use silica::error::{NsArchiveError, ProcreateError};
use silica::keyed::{NsKeyedArchive, PlistValue};
use silica::flatten::{linearize_silica_layers, CompositeLayer};
use silica::layers::{layer_targets, SilicaHierarchy};
use silica::tiles::plan_layer_tiles;
use silica::tiling::Size;

fn s(x: &str) -> PlistValue {
    PlistValue::String(x.to_string())
}

fn integer(x: i128) -> PlistValue {
    PlistValue::Integer(x)
}

fn dict(entries: Vec<(&str, PlistValue)>) -> PlistValue {
    PlistValue::Dictionary(entries.into_iter().map(|(k, v)| (k.to_string(), v)).collect())
}

fn color_bytes() -> Vec<u8> {
    [1.0f32, 0.5, 0.25, 1.0].iter().flat_map(|f| f.to_le_bytes()).collect()
}

fn layer_object(class: u64, uuid: &str, blend: Vec<(&'static str, PlistValue)>, clipped: bool, hidden: bool) -> PlistValue {
    let mut entries = vec![
        ("$class", PlistValue::Uid(class)),
        ("UUID", s(uuid)),
        ("clipped", PlistValue::Boolean(clipped)),
        ("hidden", PlistValue::Boolean(hidden)),
        ("name", PlistValue::Uid(0)),
        ("opacity", PlistValue::Real(0.5f64.to_bits())),
        ("version", integer(3)),
    ];
    entries.extend(blend);
    dict(entries)
}

/// An archive with a layer at the top level and a group that holds a second layer.
fn document(second_blend: Vec<(&'static str, PlistValue)>, composite: PlistValue) -> PlistValue {
    let objects = vec![
        s("$null"),
        dict(vec![
            ("size", PlistValue::Uid(2)),
            ("tileSize", integer(64)),
            ("authorName", PlistValue::Uid(0)),
            ("name", s("Sketch")),
            ("orientation", integer(3)),
            ("flippedHorizontally", PlistValue::Boolean(true)),
            ("flippedVertically", PlistValue::Boolean(false)),
            ("strokeCount", integer(42)),
            ("backgroundColor", PlistValue::Data(color_bytes())),
            ("backgroundHidden", PlistValue::Boolean(true)),
            ("composite", composite),
            ("unwrappedLayers", PlistValue::Uid(3)),
        ]),
        dict(vec![("width", integer(100)), ("height", integer(70))]),
        dict(vec![("NS.objects", PlistValue::Array(vec![PlistValue::Uid(5), PlistValue::Uid(6)]))]),
        dict(vec![("$classname", s("SilicaLayer")), ("$classes", PlistValue::Array(vec![s("SilicaLayer")]))]),
        layer_object(4, "AAAA", vec![("blend", integer(1))], false, false),
        dict(vec![
            ("$class", PlistValue::Uid(7)),
            ("isHidden", PlistValue::Boolean(false)),
            ("name", s("Group")),
            ("children", PlistValue::Uid(8)),
        ]),
        dict(vec![("$classname", s("SilicaGroup"))]),
        dict(vec![("NS.objects", PlistValue::Array(vec![PlistValue::Uid(9)]))]),
        layer_object(4, "BBBB", second_blend, true, false),
        layer_object(4, "CCCC", vec![("blend", integer(0))], false, false),
    ];
    dict(vec![
        ("$version", integer(100000)),
        ("$archiver", s("NSKeyedArchiver")),
        ("$top", dict(vec![("root", PlistValue::Uid(1))])),
        ("$objects", PlistValue::Array(objects)),
    ])
}

fn open(v: PlistValue) -> Result<ProcreateFile, ProcreateError> {
    let a = NsKeyedArchive::from_value(v).map_err(ProcreateError::NsArchiveError)?;
    ProcreateFile::from_archive(&a)
}

fn second_layer(f: &ProcreateFile) -> &silica::layers::SilicaLayer {
    match &f.layers.children[1] {
        SilicaHierarchy::Group(g) => match &g.children[0] {
            SilicaHierarchy::Layer(l) => l,
            SilicaHierarchy::Group(_) => panic!("expected a layer"),
        },
        SilicaHierarchy::Layer(_) => panic!("expected a group"),
    }
}

#[test]
fn document_attributes_are_read() {
    let f = open(document(vec![("blend", integer(2))], PlistValue::Uid(0))).unwrap();
    assert_eq!(f.size, Size { width: 100, height: 70 });
    assert_eq!(f.tile_size, 64);
    assert_eq!((f.tiling.columns, f.tiling.rows), (2, 2));
    assert_eq!(f.author_name, None);
    assert_eq!(f.name.as_deref(), Some("Sketch"));
    assert_eq!(f.orientation, 3);
    assert!(f.flipped.horizontally && !f.flipped.vertically);
    assert_eq!(f.stroke_count, 42);
    assert!(f.background_hidden);
    assert_eq!(f.background_color, [1.0f32.to_bits(), 0.5f32.to_bits(), 0.25f32.to_bits(), 1.0f32.to_bits()]);
    assert!(f.composite.is_none());
}

#[test]
fn layers_take_dense_slots_in_order() {
    let f = open(document(vec![("blend", integer(2))], PlistValue::Uid(0))).unwrap();
    assert_eq!(f.layer_count, 2);
    assert_eq!(f.layers.children.len(), 2);
    match &f.layers.children[0] {
        SilicaHierarchy::Layer(l) => {
            assert_eq!(l.image, 0);
            assert_eq!(l.uuid, "AAAA");
            assert_eq!(l.blend, BlendingMode::Multiply);
            assert_eq!(l.opacity_bits, 0.5f64.to_bits());
            assert_eq!(l.version, 3);
            assert_eq!(l.name, None);
        }
        SilicaHierarchy::Group(_) => panic!("expected a layer"),
    }
    let l = second_layer(&f);
    assert_eq!(l.image, 1);
    assert!(l.clipped);
    assert_eq!(l.blend, BlendingMode::Screen);
}

#[test]
fn blend_falls_back_when_extended_is_absent() {
    let f = open(document(vec![("blend", integer(22))], PlistValue::Uid(0))).unwrap();
    assert_eq!(second_layer(&f).blend, BlendingMode::LinearLight);
    let f = open(document(vec![("blend", integer(21))], PlistValue::Uid(0))).unwrap();
    assert_eq!(second_layer(&f).blend, BlendingMode::VividLight);
}

#[test]
fn extended_blend_is_preferred() {
    let f = open(document(vec![("blend", integer(0)), ("extendedBlend", integer(26))], PlistValue::Uid(0))).unwrap();
    assert_eq!(second_layer(&f).blend, BlendingMode::Divide);
}

#[test]
fn invalid_extended_blend_fails_the_open() {
    let r = open(document(vec![("blend", integer(0)), ("extendedBlend", integer(18))], PlistValue::Uid(0)));
    assert_eq!(r.err(), Some(ProcreateError::InvalidValue));
}

#[test]
fn composite_takes_the_last_slot() {
    let f = open(document(vec![("blend", integer(0))], PlistValue::Uid(10))).unwrap();
    let c = f.composite.expect("composite");
    assert_eq!(c.image, 2);
    assert_eq!(c.uuid, "CCCC");
}

#[test]
fn unreadable_composite_is_dropped() {
    let f = open(document(vec![("blend", integer(0))], PlistValue::Uid(2))).unwrap();
    assert!(f.composite.is_none());
}

#[test]
fn missing_key_is_reported() {
    let r = open(document(vec![], PlistValue::Uid(0)));
    assert_eq!(r.err(), Some(ProcreateError::NsArchiveError(NsArchiveError::MissingKey)));
}

#[test]
fn uid_out_of_range_is_reported() {
    let r = open(document(vec![("blend", PlistValue::Uid(999))], PlistValue::Uid(0)));
    assert_eq!(r.err(), Some(ProcreateError::NsArchiveError(NsArchiveError::BadUid)));
}

#[test]
fn wrong_type_is_reported() {
    let r = open(document(vec![("blend", s("one"))], PlistValue::Uid(0)));
    assert_eq!(r.err(), Some(ProcreateError::NsArchiveError(NsArchiveError::TypeMismatch)));
}

#[test]
fn top_level_must_be_a_keyed_archive() {
    assert!(matches!(NsKeyedArchive::from_value(integer(1)), Err(NsArchiveError::TypeMismatch)));
    assert!(matches!(
        NsKeyedArchive::from_value(dict(vec![("$objects", PlistValue::Array(vec![]))])),
        Err(NsArchiveError::TypeMismatch)
    ));
}

#[test]
fn background_colour_needs_sixteen_bytes() {
    assert_eq!(color_from_bytes(&vec![0; 15]), Err(NsArchiveError::TypeMismatch));
    assert_eq!(color_from_bytes(&vec![0; 17]), Err(NsArchiveError::TypeMismatch));
    assert_eq!(color_from_bytes(&vec![0; 19]), Err(NsArchiveError::TypeMismatch));
    assert_eq!(color_from_bytes(&vec![1, 0, 0, 0, 0, 1, 0, 0, 0, 0, 1, 0, 0, 0, 0, 1]), Ok([1, 256, 65536, 16777216]));
}

#[test]
fn trivial_single_layer() {
    let objects = vec![
        s("$null"),
        dict(vec![
            ("size", PlistValue::Uid(2)),
            ("tileSize", integer(64)),
            ("authorName", s("Someone")),
            ("name", PlistValue::Uid(0)),
            ("orientation", integer(0)),
            ("flippedHorizontally", PlistValue::Boolean(false)),
            ("flippedVertically", PlistValue::Boolean(false)),
            ("strokeCount", integer(1)),
            ("backgroundColor", PlistValue::Data(color_bytes())),
            ("backgroundHidden", PlistValue::Boolean(false)),
            ("composite", PlistValue::Uid(0)),
            ("unwrappedLayers", PlistValue::Uid(3)),
        ]),
        dict(vec![("width", integer(128)), ("height", integer(128))]),
        dict(vec![("NS.objects", PlistValue::Array(vec![PlistValue::Uid(5)]))]),
        dict(vec![("$classname", s("SilicaLayer"))]),
        dict(vec![
            ("$class", PlistValue::Uid(4)),
            ("UUID", s("LAYER")),
            ("blend", integer(0)),
            ("clipped", PlistValue::Boolean(false)),
            ("hidden", PlistValue::Boolean(false)),
            ("name", s("Layer 1")),
            ("opacity", PlistValue::Real(1.0f64.to_bits())),
            ("version", integer(0)),
        ]),
    ];
    let tree = dict(vec![("$top", dict(vec![("root", PlistValue::Uid(1))])), ("$objects", PlistValue::Array(objects))]);
    let f = open(tree).unwrap();
    assert_eq!(f.layer_count, 1);
    assert_eq!(f.author_name.as_deref(), Some("Someone"));
    let names: Vec<String> = ["LAYER0~0", "LAYER1~0", "LAYER0~1", "LAYER1~1"].iter().map(|n| format!("{n}.chunk")).collect();
    let jobs = plan_layer_tiles("LAYER", &names, &f.tiling).unwrap();
    let uploads: Vec<(u32, u32, u32, u32)> = jobs.iter().map(|j| (j.x, j.y, j.width, j.height)).collect();
    assert_eq!(uploads, vec![(0, 0, 64, 64), (64, 0, 64, 64), (0, 64, 64, 64), (64, 64, 64, 64)]);
    assert_eq!(
        linearize_silica_layers(&f.layers),
        vec![CompositeLayer { texture: 0, clipped: None, opacity_bits: 1.0f64.to_bits(), blend: BlendingMode::Normal }]
    );
}

#[test]
fn quarter_turns_swap_the_render_target() {
    let mut f = open(document(vec![("blend", integer(0))], PlistValue::Uid(0))).unwrap();
    assert_eq!(f.render_size(), Size { width: 70, height: 100 });
    f.orientation = 2;
    assert_eq!(f.render_size(), Size { width: 100, height: 70 });
}

#[test]
fn unknown_class_is_reported() {
    let mut tree = document(vec![("blend", integer(0))], PlistValue::Uid(0));
    if let PlistValue::Dictionary(top) = &mut tree {
        if let PlistValue::Array(objects) = &mut top[3].1 {
            objects[4] = dict(vec![("$classname", s("SilicaBrush"))]);
        }
    }
    assert_eq!(open(tree).err(), Some(ProcreateError::NsArchiveError(NsArchiveError::UnknownClass)));
}

#[test]
fn zero_tile_size_is_invalid() {
    let mut tree = document(vec![("blend", integer(0))], PlistValue::Uid(0));
    if let PlistValue::Dictionary(top) = &mut tree {
        if let PlistValue::Array(objects) = &mut top[3].1 {
            if let PlistValue::Dictionary(root) = &mut objects[1] {
                root[1].1 = integer(0);
            }
        }
    }
    assert_eq!(open(tree).err(), Some(ProcreateError::InvalidValue));
}

#[test]
fn group_that_contains_itself_is_refused() {
    let mut tree = document(vec![("blend", integer(0))], PlistValue::Uid(0));
    if let PlistValue::Dictionary(top) = &mut tree {
        if let PlistValue::Array(objects) = &mut top[3].1 {
            objects[8] = dict(vec![("NS.objects", PlistValue::Array(vec![PlistValue::Uid(6)]))]);
        }
    }
    assert_eq!(open(tree).err(), Some(ProcreateError::NsArchiveError(NsArchiveError::Cycle)));
}

#[test]
fn root_group_and_load_targets() {
    let f = open(document(vec![("blend", integer(0))], PlistValue::Uid(0))).unwrap();
    assert_eq!(f.layers.name.as_deref(), Some("Root Layer"));
    assert!(!f.layers.hidden);
    assert_eq!(layer_targets(&f.layers), vec![("AAAA".to_string(), 0), ("BBBB".to_string(), 1)]);
}

fn set_second_layer_field(tree: &mut PlistValue, key: &str, value: PlistValue) {
    if let PlistValue::Dictionary(top) = tree {
        if let PlistValue::Array(objects) = &mut top[3].1 {
            if let PlistValue::Dictionary(layer) = &mut objects[9] {
                for entry in layer.iter_mut() {
                    if entry.0 == key {
                        entry.1 = value;
                        return;
                    }
                }
            }
        }
    }
    panic!("no such field");
}

#[test]
fn opacity_outside_the_unit_range_is_invalid() {
    for bad in [1.5f64, -0.25, f64::NAN] {
        let mut tree = document(vec![("blend", integer(0))], PlistValue::Uid(0));
        set_second_layer_field(&mut tree, "opacity", PlistValue::Real(bad.to_bits()));
        assert_eq!(open(tree).err(), Some(ProcreateError::InvalidValue));
    }
    for good in [0.0f64, -0.0, 1.0] {
        let mut tree = document(vec![("blend", integer(0))], PlistValue::Uid(0));
        set_second_layer_field(&mut tree, "opacity", PlistValue::Real(good.to_bits()));
        assert!(open(tree).is_ok());
    }
}

#[test]
fn background_colour_of_seventeen_bytes_fails_the_open() {
    let mut tree = document(vec![("blend", integer(0))], PlistValue::Uid(0));
    if let PlistValue::Dictionary(top) = &mut tree {
        if let PlistValue::Array(objects) = &mut top[3].1 {
            if let PlistValue::Dictionary(root) = &mut objects[1] {
                root[8].1 = PlistValue::Data(vec![0; 17]);
            }
        }
    }
    assert_eq!(open(tree).err(), Some(ProcreateError::NsArchiveError(NsArchiveError::TypeMismatch)));
}
