use wzlib_rs::directory::{collect_image_paths, find_image_entry, parse_image_at, WzDirectoryEntry, WzImageEntry};
use wzlib_rs::inflate::compress_png_data;
use wzlib_rs::json::{image_to_json, image_to_tree};
use wzlib_rs::limits::{blocks_well_sized, canvas_fits, canvases_exportable, dims_fit, height_at_most, list_height_at_most};
use wzlib_rs::node::{apply_edit, canvas_rgba, child_names, edit_node, remove_entries, set_value, upsert_entry, CanvasReadError, EditError, NodeEdit};
use wzlib_rs::property::{CanvasData, WzProperty};
use wzlib_rs::tree::get_prop;
use wzlib_rs::typed::ScriptValue;
use wzlib_rs::types::WzPngFormat;
use wzlib_rs::version::{version_to_iv, version_to_maple, WzMapleVersion};
use wzlib_rs::crypto::{WZ_GMSIV, WZ_MSEAIV};

fn int_value(v: i64) -> ScriptValue {
    ScriptValue { as_i64: Some(v), as_f32_bits: Some((v as f32).to_bits()), as_f64_bits: Some((v as f64).to_bits()), as_string: None, as_bytes: None, oversized_int: None }
}

fn float_value(v: f64) -> ScriptValue {
    ScriptValue { as_i64: None, as_f32_bits: Some((v as f32).to_bits()), as_f64_bits: Some(v.to_bits()), as_string: None, as_bytes: None, oversized_int: None }
}

fn str_value(s: &str) -> ScriptValue {
    ScriptValue { as_i64: None, as_f32_bits: None, as_f64_bits: None, as_string: Some(s.to_string()), as_bytes: None, oversized_int: None }
}

fn tree() -> Vec<(String, WzProperty)> {
    vec![
        (
            "info".to_string(),
            WzProperty::SubProperty {
                properties: vec![
                    ("hp".to_string(), WzProperty::Short(10)),
                    ("exp".to_string(), WzProperty::Long(5)),
                    ("link".to_string(), WzProperty::Uol("../a".to_string())),
                    ("speed".to_string(), WzProperty::Double(1.0f64.to_bits())),
                ],
            },
        ),
        ("name".to_string(), WzProperty::String("x".to_string())),
        (
            "icon".to_string(),
            WzProperty::Canvas {
                width: 1,
                height: 1,
                format: WzPngFormat::Bgra4444,
                scale: 0,
                properties: vec![],
                png_data: CanvasData::Loaded(vec![]),
            },
        ),
    ]
}

// ── set ────────────────────────────────────────────────────────

#[test]
fn set_keeps_short_long_double_uol() {
    let mut t = tree();
    edit_node(&mut t, &["info", "hp"], NodeEdit::SetValue(int_value(300))).unwrap();
    edit_node(&mut t, &["info", "exp"], NodeEdit::SetValue(int_value(1 << 40))).unwrap();
    edit_node(&mut t, &["info", "speed"], NodeEdit::SetValue(float_value(2.5))).unwrap();
    edit_node(&mut t, &["info", "link"], NodeEdit::SetValue(str_value("../b"))).unwrap();
    assert!(matches!(get_prop(&t, &["info", "hp"]), Some(WzProperty::Short(300))));
    assert!(matches!(get_prop(&t, &["info", "exp"]), Some(WzProperty::Long(v)) if *v == 1 << 40));
    assert!(matches!(get_prop(&t, &["info", "speed"]), Some(WzProperty::Double(b)) if *b == 2.5f64.to_bits()));
    assert!(matches!(get_prop(&t, &["info", "link"]), Some(WzProperty::Uol(s)) if s == "../b"));
}

#[test]
fn set_out_of_range_is_refused_and_changes_nothing() {
    let mut t = tree();
    let err = edit_node(&mut t, &["info", "hp"], NodeEdit::SetValue(int_value(40000))).unwrap_err();
    assert!(matches!(err, EditError::Invalid(ref m) if m == "value 40000 out of range for Short (-32768..=32767)"));
    assert!(matches!(get_prop(&t, &["info", "hp"]), Some(WzProperty::Short(10))));
}

#[test]
fn set_replaces_other_kinds() {
    let p = set_value(&WzProperty::String("s".to_string()), int_value(7)).unwrap();
    assert!(matches!(p, WzProperty::Int(7)));
    let p = set_value(&WzProperty::Int(1), float_value(0.5)).unwrap();
    assert!(matches!(p, WzProperty::Float(b) if b == 0.5f32.to_bits()));
    let p = set_value(&WzProperty::Int(1), str_value("t")).unwrap();
    assert!(matches!(p, WzProperty::String(ref s) if s == "t"));
    let none = ScriptValue { as_i64: None, as_f32_bits: None, as_f64_bits: None, as_string: None, as_bytes: Some(vec![1]), oversized_int: None };
    assert_eq!(set_value(&WzProperty::Int(1), none).unwrap_err(), "value must be int, float, or str");
}

#[test]
fn edit_missing_path_is_not_found() {
    let mut t = tree();
    assert!(matches!(edit_node(&mut t, &["info", "nope"], NodeEdit::SetValue(int_value(1))), Err(EditError::NotFound)));
    assert!(matches!(edit_node(&mut t, &[], NodeEdit::SetValue(int_value(1))), Err(EditError::NotFound)));
    assert!(matches!(edit_node(&mut t, &["name", "x"], NodeEdit::SetValue(int_value(1))), Err(EditError::NotFound)));
}

// ── add / remove ───────────────────────────────────────────────

#[test]
fn add_then_read_back() {
    let mut t = tree();
    let op = NodeEdit::Add { name: "mp".to_string(), hint: None, value: int_value(20) };
    edit_node(&mut t, &["info"], op).unwrap();
    assert!(matches!(get_prop(&t, &["info", "mp"]), Some(WzProperty::Int(20))));
    let op = NodeEdit::Add { name: "hp".to_string(), hint: Some("long".to_string()), value: int_value(99) };
    edit_node(&mut t, &["info"], op).unwrap();
    assert!(matches!(get_prop(&t, &["info", "hp"]), Some(WzProperty::Long(99))));
    // replacing keeps the position and the count
    match get_prop(&t, &["info"]) {
        Some(WzProperty::SubProperty { properties }) => {
            assert_eq!(properties.len(), 5);
            assert_eq!(properties[0].0, "hp");
            assert_eq!(properties[4].0, "mp");
        }
        other => panic!("expected SubProperty, got {other:?}"),
    }
}

#[test]
fn add_to_leaf_is_refused() {
    let mut t = tree();
    let op = NodeEdit::Add { name: "c".to_string(), hint: None, value: int_value(1) };
    assert!(matches!(edit_node(&mut t, &["name"], op), Err(EditError::Leaf(ref k)) if k == "String"));
    let op = NodeEdit::Add { name: "c".to_string(), hint: Some("nonsense".to_string()), value: int_value(1) };
    assert!(matches!(edit_node(&mut t, &["info"], op), Err(EditError::Invalid(_))));
}

#[test]
fn add_to_canvas_children() {
    let mut t = tree();
    let op = NodeEdit::Add { name: "delay".to_string(), hint: None, value: int_value(120) };
    edit_node(&mut t, &["icon"], op).unwrap();
    assert!(matches!(get_prop(&t, &["icon", "delay"]), Some(WzProperty::Int(120))));
}

#[test]
fn remove_reports_presence() {
    let mut t = tree();
    assert_eq!(edit_node(&mut t, &["info"], NodeEdit::Remove("hp".to_string())).unwrap(), true);
    assert!(get_prop(&t, &["info", "hp"]).is_none());
    assert_eq!(edit_node(&mut t, &["info"], NodeEdit::Remove("hp".to_string())).unwrap(), false);
    assert!(matches!(edit_node(&mut t, &["name"], NodeEdit::Remove("x".to_string())), Err(EditError::Leaf(_))));
}

#[test]
fn root_level_upsert_and_remove() {
    let mut t = tree();
    upsert_entry(&mut t, "name", WzProperty::Int(3));
    assert_eq!(t[1].0, "name");
    assert!(matches!(t[1].1, WzProperty::Int(3)));
    upsert_entry(&mut t, "new", WzProperty::Null);
    assert_eq!(t.len(), 4);
    t.push(("new".to_string(), WzProperty::Int(1)));
    assert!(remove_entries(&mut t, "new"));
    assert_eq!(t.len(), 3);
    assert!(!remove_entries(&mut t, "new"));
}

// ── canvases ───────────────────────────────────────────────────

#[test]
fn replace_canvas_then_decode() {
    let mut t = tree();
    let rgba = vec![10u8, 20, 30, 40, 50, 60, 70, 80];
    edit_node(&mut t, &["icon"], NodeEdit::ReplaceCanvas { rgba: rgba.clone(), width: 2, height: 1 }).unwrap();
    let icon = get_prop(&t, &["icon"]).unwrap();
    match icon {
        WzProperty::Canvas { width, height, format, png_data, .. } => {
            assert_eq!((*width, *height, *format), (2, 1, WzPngFormat::Bgra8888));
            assert_eq!(png_data.as_bytes()[0], 0x78);
        }
        other => panic!("expected Canvas, got {other:?}"),
    }
    let (back, w, h) = canvas_rgba(icon, &[0u8; 16]).unwrap();
    assert_eq!((w, h), (2, 1));
    assert_eq!(back, rgba);
}

#[test]
fn scaled_canvas_is_read_enlarged() {
    // 2x2 BGRA8888 stored for a 4x4 canvas with scale exponent 1.
    let raw: Vec<u8> = vec![
        0, 0, 255, 255, 0, 255, 0, 255, //
        255, 0, 0, 255, 255, 255, 255, 255,
    ];
    let canvas = WzProperty::Canvas {
        width: 4,
        height: 4,
        format: WzPngFormat::Bgra8888,
        scale: 1,
        properties: vec![],
        png_data: CanvasData::Loaded(compress_png_data(&raw).unwrap()),
    };
    let (rgba, w, h) = canvas_rgba(&canvas, &[0u8; 16]).unwrap();
    assert_eq!((w, h), (4, 4));
    assert_eq!(rgba.len(), 64);
    // Pixel (2, 0) comes from stored pixel (1, 0): green.
    assert_eq!(&rgba[8..12], &[0, 255, 0, 255]);
    // Pixel (3, 3) comes from stored pixel (1, 1): white.
    assert_eq!(&rgba[60..64], &[255, 255, 255, 255]);
    // Pixel (0, 2) comes from stored pixel (0, 1): blue.
    assert_eq!(&rgba[32..36], &[0, 0, 255, 255]);
}

#[test]
fn replace_canvas_refusals() {
    let mut t = tree();
    let short = NodeEdit::ReplaceCanvas { rgba: vec![1, 2, 3], width: 1, height: 1 };
    assert!(matches!(edit_node(&mut t, &["icon"], short), Err(EditError::ShortPixels)));
    let op = NodeEdit::ReplaceCanvas { rgba: vec![0; 4], width: 1, height: 1 };
    assert!(matches!(edit_node(&mut t, &["name"], op), Err(EditError::NotCanvas(ref k)) if k == "String"));
    assert!(matches!(canvas_rgba(&WzProperty::Null, &[]), Err(CanvasReadError::NotCanvas(ref k)) if k == "Null"));
}

#[test]
fn apply_edit_on_a_single_node() {
    let (p, r) = apply_edit(WzProperty::Short(1), NodeEdit::SetValue(int_value(2)));
    assert!(matches!(p, WzProperty::Short(2)));
    assert!(matches!(r, Ok(false)));
}

#[test]
fn child_names_in_order() {
    let t = tree();
    assert_eq!(child_names(&t[0].1), vec!["hp", "exp", "link", "speed"]);
    assert!(child_names(&t[1].1).is_empty());
}

// ── image-level text ───────────────────────────────────────────

#[test]
fn image_json_and_tree() {
    let t = vec![
        ("a".to_string(), WzProperty::Int(1)),
        ("b".to_string(), WzProperty::SubProperty { properties: vec![("c".to_string(), WzProperty::Null)] }),
    ];
    assert_eq!(
        image_to_json(&t, -1, &[]),
        "{\"a\":{\"path\":\"a\",\"type\":\"Int\",\"value\":1},\"b\":{\"path\":\"b\",\"type\":\"SubProperty\",\"children\":{\"c\":{\"path\":\"b/c\",\"type\":\"Null\",\"value\":null}}}}"
    );
    assert_eq!(image_to_tree(&t, -1, &[]), "a [Int] = 1\nb [SubProperty]\n└─c [Null] = null");
    assert_eq!(image_to_json(&Vec::new(), -1, &[]), "{}");
}

// ── versions ───────────────────────────────────────────────────

#[test]
fn version_names() {
    assert_eq!(version_to_maple("GMS").unwrap(), WzMapleVersion::Gms);
    assert_eq!(version_to_maple("msea").unwrap(), WzMapleVersion::Ems);
    assert_eq!(version_to_maple("Classic").unwrap(), WzMapleVersion::Bms);
    assert_eq!(version_to_iv("gms").unwrap(), WZ_GMSIV);
    assert_eq!(version_to_iv("ems").unwrap(), WZ_MSEAIV);
    assert_eq!(version_to_iv("bms").unwrap(), [0, 0, 0, 0]);
    assert_eq!(
        version_to_maple("KMS").unwrap_err(),
        "Unknown version 'kms'. Use 'gms', 'ems'/'msea', or 'bms'/'classic'."
    );
}

// ── directories ────────────────────────────────────────────────

fn image(name: &str, offset: u64) -> WzImageEntry {
    WzImageEntry { name: name.to_string(), offset, size: 1, iv: None }
}

fn sample_dir() -> WzDirectoryEntry {
    WzDirectoryEntry {
        name: String::new(),
        subdirectories: vec![WzDirectoryEntry {
            name: "Mob".to_string(),
            subdirectories: vec![WzDirectoryEntry {
                name: "Boss".to_string(),
                subdirectories: vec![],
                images: vec![image("9.img", 30)],
            }],
            images: vec![image("0100100.img", 20)],
        }],
        images: vec![image("0100000.img", 10), image("a.img", 11)],
    }
}

#[test]
fn list_image_paths_depth_first() {
    let mut out = Vec::new();
    collect_image_paths(&sample_dir(), "", &mut out);
    assert_eq!(out, vec!["0100000.img", "a.img", "Mob/0100100.img", "Mob/Boss/9.img"]);
}

#[test]
fn find_images_by_path() {
    let d = sample_dir();
    assert_eq!(find_image_entry(&d, "a.img").map(|e| e.offset), Some(11));
    assert_eq!(find_image_entry(&d, "Mob/0100100.img").map(|e| e.offset), Some(20));
    assert_eq!(find_image_entry(&d, "Mob/Boss/9.img").map(|e| e.offset), Some(30));
    assert!(find_image_entry(&d, "Mob/a.img").is_none());
    assert!(find_image_entry(&d, "Npc/a.img").is_none());
    assert!(find_image_entry(&d, "Mob").is_none());
}

#[test]
fn parse_image_at_an_offset() {
    // two junk bytes, then an empty property image (zero key)
    let mut raw = vec![0xEE, 0xEE, 0x73];
    let mut mask: u8 = 0xAA;
    raw.push((-(8i8)) as u8);
    for b in "Property".bytes() {
        raw.push(b ^ mask);
        mask = mask.wrapping_add(1);
    }
    raw.extend_from_slice(&[0, 0, 0]);
    assert!(parse_image_at(raw.clone(), [0; 4], 2).unwrap().is_empty());
    assert!(parse_image_at(raw, [0; 4], 0).is_err());
}

// ── limits ─────────────────────────────────────────────────────

#[test]
fn limit_checks() {
    let t = tree();
    assert!(list_height_at_most(&t, 1));
    assert!(!list_height_at_most(&t, 0));
    assert!(height_at_most(&WzProperty::Null, 0));
    assert!(dims_fit(1024, 1024));
    assert!(!dims_fit(u32::MAX, 2));
    assert!(canvas_fits(128, 128, 4));
    assert!(!canvas_fits(16, 16, 40));
    assert!(canvases_exportable(&t));
    assert!(blocks_well_sized(&[1, 2, 3], Some(&[0u8; 4])));
    assert!(!blocks_well_sized(&[0xFF, 0xFF, 0xFF, 0xFF, 0], Some(&[0u8; 4])));
    assert!(blocks_well_sized(&[0xFF, 0xFF, 0xFF, 0xFF, 0], None));
}

#[test]
fn compressed_canvas_is_zlib() {
    assert_eq!(compress_png_data(&[0u8; 8]).unwrap()[0], 0x78);
}

#[test]
fn every_listed_image_is_found() {
    let d = sample_dir();
    let mut out = Vec::new();
    collect_image_paths(&d, "", &mut out);
    for p in &out {
        let e = find_image_entry(&d, p).expect("listed path must be found");
        assert!(p.ends_with(&e.name));
    }
}

#[test]
fn oversized_integer_is_refused_and_changes_nothing() {
    let mut t = tree();
    let big = ScriptValue {
        as_i64: None,
        as_f32_bits: Some((1e21f64 as f32).to_bits()),
        as_f64_bits: Some(1e21f64.to_bits()),
        as_string: None,
        as_bytes: None,
        oversized_int: Some("1000000000000000000000".to_string()),
    };
    let err = edit_node(&mut t, &["info", "exp"], NodeEdit::SetValue(big)).unwrap_err();
    assert!(matches!(err, EditError::Invalid(ref m)
        if m == "value 1000000000000000000000 out of range for Long (-9223372036854775808..=9223372036854775807)"));
    assert!(matches!(get_prop(&t, &["info", "exp"]), Some(WzProperty::Long(5))));
}
