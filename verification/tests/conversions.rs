use wzlib_rs::attrs::{parse_i16, parse_i32, parse_u8, replace_chars, unescape_xml_attr};
use wzlib_rs::canvas_png::{canvas_to_standard_png, png_bytes_to_rgba, rgba_to_png_bytes};
use wzlib_rs::export::FloatBits;
use wzlib_rs::inflate::compress_png_data;
use wzlib_rs::json::{json_string, prop_to_json, prop_to_tree};
use wzlib_rs::property::{CanvasData, WzProperty};
use wzlib_rs::tree::{get_prop, path_parts, prop_type_name};
use wzlib_rs::typed::{typed_property, untyped_property, ScriptValue};
use wzlib_rs::types::WzPngFormat;
use wzlib_rs::xml_import::encode_bgra8888;

fn sample() -> WzProperty {
    WzProperty::SubProperty {
        properties: vec![
            ("a".to_string(), WzProperty::Int(5)),
            (
                "b".to_string(),
                WzProperty::SubProperty {
                    properties: vec![("c".to_string(), WzProperty::String("x\"y".to_string()))],
                },
            ),
        ],
    }
}

fn value(i: Option<i64>, f: Option<f64>, s: Option<&str>, b: Option<Vec<u8>>) -> ScriptValue {
    ScriptValue {
        as_i64: i,
        as_f32_bits: f.map(|v| (v as f32).to_bits()),
        as_f64_bits: f.map(|v| v.to_bits()),
        as_string: s.map(|t| t.to_string()),
        as_bytes: b,
        oversized_int: None,
    }
}

// ── JSON and tree text ─────────────────────────────────────────

#[test]
fn json_string_escapes() {
    assert_eq!(json_string("a\"b\\c\nd\u{1}"), "\"a\\\"b\\\\c\\nd\\u0001\"");
    assert_eq!(json_string(""), "\"\"");
}

#[test]
fn prop_to_json_full_depth() {
    let j = prop_to_json(&sample(), "", -1, 0, &[]);
    assert_eq!(
        j,
        "{\"path\":\"\",\"type\":\"SubProperty\",\"children\":{\"a\":{\"path\":\"a\",\"type\":\"Int\",\"value\":5},\"b\":{\"path\":\"b\",\"type\":\"SubProperty\",\"children\":{\"c\":{\"path\":\"b/c\",\"type\":\"String\",\"value\":\"x\\\"y\"}}}}}"
    );
}

#[test]
fn prop_to_json_depth_limit_counts_children() {
    let j = prop_to_json(&sample(), "root", 0, 0, &[]);
    assert_eq!(j, "{\"path\":\"root\",\"type\":\"SubProperty\",\"children_count\":2}");
}

#[test]
fn prop_to_json_float_from_table() {
    let bits = 1.25f32.to_bits();
    let table = vec![(FloatBits::F32(bits), "1.25".to_string())];
    let j = prop_to_json(&WzProperty::Float(bits), "f", -1, 0, &table);
    assert_eq!(j, "{\"path\":\"f\",\"type\":\"Float\",\"value\":1.25}");
    assert_eq!(prop_to_json(&WzProperty::Null, "n", -1, 0, &[]), "{\"path\":\"n\",\"type\":\"Null\",\"value\":null}");
}

#[test]
fn prop_to_tree_layout() {
    let t = prop_to_tree(&sample(), "root", "", "", -1, 0, &[]);
    assert_eq!(t, "root [SubProperty]\n├─a [Int] = 5\n└─b [SubProperty]\n  └─c [String] = \"x\"y\"");
}

#[test]
fn prop_to_tree_depth_limit() {
    let t = prop_to_tree(&sample(), "root", "", "", 0, 0, &[]);
    assert_eq!(t, "root [SubProperty]\n  ... (2 children)");
}

#[test]
fn prop_to_tree_truncates_long_strings() {
    let long = "z".repeat(70);
    let t = prop_to_tree(&WzProperty::String(long), "s", "", "", -1, 0, &[]);
    assert_eq!(t, format!("s [String] = \"{}...\"", "z".repeat(60)));
}

// ── tree access ────────────────────────────────────────────────

#[test]
fn type_names() {
    assert_eq!(prop_type_name(&WzProperty::Uol("x".to_string())), "UOL");
    assert_eq!(prop_type_name(&WzProperty::Vector { x: 1, y: 2 }), "Vector");
    assert_eq!(prop_type_name(&sample()), "SubProperty");
}

#[test]
fn get_prop_by_path() {
    let props = vec![("root".to_string(), sample())];
    assert_eq!(get_prop(&props, &["root", "b", "c"]).and_then(|p| p.as_str()), Some("x\"y"));
    assert_eq!(get_prop(&props, &["root", "a"]).and_then(|p| p.as_int()), Some(5));
    assert!(get_prop(&props, &["root", "a", "deeper"]).is_none());
    assert!(get_prop(&props, &["missing"]).is_none());
    assert!(get_prop(&props, &[]).is_none());
}

#[test]
fn path_parts_drops_empty_segments() {
    assert_eq!(path_parts("/a//b/c/"), vec!["a".to_string(), "b".to_string(), "c".to_string()]);
    assert!(path_parts("").is_empty());
    assert!(path_parts("///").is_empty());
}

// ── typed values ───────────────────────────────────────────────

#[test]
fn typed_property_hints() {
    assert!(matches!(typed_property("SHORT", value(Some(7), None, None, None)), Ok(WzProperty::Short(7))));
    assert!(matches!(typed_property("int", value(Some(-9), None, None, None)), Ok(WzProperty::Int(-9))));
    assert!(matches!(typed_property("long", value(Some(1 << 40), None, None, None)), Ok(WzProperty::Long(v)) if v == 1 << 40));
    assert!(matches!(typed_property("double", value(None, Some(2.5), None, None)), Ok(WzProperty::Double(b)) if b == 2.5f64.to_bits()));
    assert!(matches!(typed_property("float", value(None, Some(2.5), None, None)), Ok(WzProperty::Float(b)) if b == 2.5f32.to_bits()));
    assert!(matches!(typed_property("str", value(None, None, Some("hi"), None)), Ok(WzProperty::String(s)) if s == "hi"));
    assert!(matches!(typed_property("uol", value(None, None, Some("../a"), None)), Ok(WzProperty::Uol(s)) if s == "../a"));
    assert!(matches!(typed_property("bytes", value(None, None, None, Some(vec![1, 2]))), Ok(WzProperty::Lua(b)) if b == vec![1, 2]));
}

#[test]
fn typed_property_errors() {
    assert_eq!(
        typed_property("short", value(Some(40000), None, None, None)).unwrap_err(),
        "value 40000 out of range for Short (-32768..=32767)"
    );
    assert_eq!(typed_property("int", value(None, None, Some("x"), None)).unwrap_err(), "'int' requires an int value");
    assert_eq!(
        typed_property("Weird", value(Some(1), None, None, None)).unwrap_err(),
        "Unknown type hint 'weird'. Use: short, int, long, float, double, string, uol, lua"
    );
}

#[test]
fn untyped_property_picks_the_first_kind() {
    assert!(matches!(untyped_property(value(Some(3), None, None, None)), Ok(WzProperty::Int(3))));
    assert!(untyped_property(value(Some(1 << 40), None, None, None)).is_err());
    assert!(matches!(untyped_property(value(None, None, Some("s"), None)), Ok(WzProperty::String(_))));
    assert_eq!(untyped_property(value(None, None, None, None)).unwrap_err(), "value must be int, float, str, or bytes");
}

// ── XML attribute text ─────────────────────────────────────────

#[test]
fn unescape_attribute_entities() {
    assert_eq!(unescape_xml_attr("plain"), "plain");
    assert_eq!(unescape_xml_attr("a&amp;b&lt;c&gt;&quot;&apos;"), "a&b<c>\"'");
    // each entity is decoded once
    assert_eq!(unescape_xml_attr("&amp;lt;"), "&lt;");
    assert_eq!(unescape_xml_attr("a & b &unknown; &amp"), "a & b &unknown; &amp");
    assert_eq!(unescape_xml_attr("&amp;amp;&quot;&quot;"), "&amp;\"\"");
}

#[test]
fn replace_chars_all_occurrences() {
    let s: Vec<char> = "1,5,0".chars().collect();
    let r = replace_chars(&s, &[','], &['.']);
    assert_eq!(r.into_iter().collect::<String>(), "1.5.0");
}

#[test]
fn integer_attribute_parsing() {
    assert_eq!(parse_i32("-42"), Some(-42));
    assert_eq!(parse_i32("+7"), Some(7));
    assert_eq!(parse_i32(" 7"), None);
    assert_eq!(parse_i32("2147483648"), None);
    assert_eq!(parse_i16("32767"), Some(32767));
    assert_eq!(parse_i16("32768"), None);
    assert_eq!(parse_u8("255"), Some(255));
    assert_eq!(parse_u8("-1"), None);
    assert_eq!(parse_i32(""), None);
}

// ── PNG conversion ─────────────────────────────────────────────

#[test]
fn png_encode_decode_roundtrip() {
    let rgba = vec![1u8, 2, 3, 4, 5, 6, 7, 8];
    let png = rgba_to_png_bytes(&rgba, 2, 1).unwrap();
    assert_eq!(&png[..8], &[137, 80, 78, 71, 13, 10, 26, 10]);
    let (w, h, back) = png_bytes_to_rgba(&png).unwrap();
    assert_eq!((w, h), (2, 1));
    assert_eq!(back, rgba);
}

#[test]
fn png_decode_rejects_garbage() {
    assert!(png_bytes_to_rgba(&[1, 2, 3]).is_err());
}

#[test]
fn canvas_to_png_decodes_pixels() {
    let rgba = vec![255u8, 0, 0, 255, 0, 255, 0, 128];
    let bgra = encode_bgra8888(&rgba, 2, 1).unwrap();
    assert_eq!(bgra, vec![0, 0, 255, 255, 0, 255, 0, 128]);
    let data = CanvasData::Loaded(compress_png_data(&bgra).unwrap());
    let png = canvas_to_standard_png(2, 1, 0, WzPngFormat::Bgra8888, &data).unwrap();
    let (w, h, back) = png_bytes_to_rgba(&png).unwrap();
    assert_eq!((w, h), (2, 1));
    assert_eq!(back, rgba);
}

#[test]
fn encode_bgra8888_needs_enough_pixels() {
    assert!(encode_bgra8888(&[1, 2, 3], 1, 1).is_none());
}

#[test]
fn as_str_reads_strings_and_uols() {
    assert_eq!(WzProperty::Uol("../a".to_string()).as_str(), Some("../a"));
    assert_eq!(WzProperty::String("s".to_string()).as_str(), Some("s"));
    assert_eq!(WzProperty::Int(1).as_str(), None);
    assert_eq!(WzProperty::Long(-3).as_int(), Some(-3));
    assert_eq!(WzProperty::Null.as_int(), None);
}
