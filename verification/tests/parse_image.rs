use std::sync::Arc;
use wzlib_rs::crypto::{WzKey, WZ_GMSIV, WZ_MSEAIV};
use wzlib_rs::error::WzError;
use wzlib_rs::parse::{parse_image, parse_image_lazy, parse_property_list, try_decrypt_wave_format};
use wzlib_rs::path::parse_image_path_lazy;
use wzlib_rs::property::{CanvasData, WzProperty};
use wzlib_rs::reader::WzBinaryReader;
use wzlib_rs::types::WzPngFormat;

const SOUND_HEADER_LEN: usize = 51;
const WAVE_FORMAT_SIZE: usize = 18;

// ── building WZ bytes (zero key) ───────────────────────────────

fn make_reader(data: Vec<u8>) -> WzBinaryReader {
    WzBinaryReader::new(data, [0; 4])
}

/// An ASCII WZ string under the zero key: negative length, then each byte
/// XORed with the rolling mask.
fn encode_wz_ascii(s: &str) -> Vec<u8> {
    let mut out = vec![(-(s.len() as i8)) as u8];
    let mut mask: u8 = 0xAA;
    for b in s.bytes() {
        out.push(b ^ mask);
        mask = mask.wrapping_add(1);
    }
    out
}

/// An ASCII WZ string under the key stream of `iv`.
fn encode_ascii_with_iv(s: &str, iv: [u8; 4]) -> Vec<u8> {
    let len = s.len();
    assert!(len > 0 && len < 128);
    let mut key = WzKey::new(iv);
    key.ensure_size(len);
    let mut out = vec![(-(len as i8)) as u8];
    let mut mask: u8 = 0xAA;
    for (i, b) in s.bytes().enumerate() {
        out.push(b ^ mask ^ key.get(i));
        mask = mask.wrapping_add(1);
    }
    out
}

fn property_image_header_with_iv(iv: [u8; 4]) -> Vec<u8> {
    let mut out = vec![0x73u8];
    out.extend_from_slice(&encode_ascii_with_iv("Property", iv));
    out.extend_from_slice(&0u16.to_le_bytes());
    out
}

fn property_image_header() -> Vec<u8> {
    let mut out = vec![0x73u8];
    out.extend_from_slice(&encode_wz_ascii("Property"));
    out.extend_from_slice(&0u16.to_le_bytes());
    out
}

/// An inline string block (type byte 0x00, then the string).
fn string_block(s: &str) -> Vec<u8> {
    let mut out = vec![0x00u8];
    out.extend_from_slice(&encode_wz_ascii(s));
    out
}

fn build_image_with_property(name: &str, value: &[u8]) -> Vec<u8> {
    let mut data = property_image_header();
    data.push(1);
    data.extend_from_slice(&string_block(name));
    data.extend_from_slice(value);
    data
}

/// A 0x09 extended property: block size, then the inline type name and content.
fn build_extended_property(kind: &str, content: &[u8]) -> Vec<u8> {
    let mut block = vec![0x73u8];
    block.extend_from_slice(&encode_wz_ascii(kind));
    block.extend_from_slice(content);
    let mut out = vec![0x09u8];
    out.extend_from_slice(&(block.len() as u32).to_le_bytes());
    out.extend_from_slice(&block);
    out
}

fn float_value(p: &WzProperty) -> Option<f64> {
    match p {
        WzProperty::Float(bits) => Some(f32::from_bits(*bits) as f64),
        WzProperty::Double(bits) => Some(f64::from_bits(*bits)),
        _ => None,
    }
}

// ── header dispatch ────────────────────────────────────────────

#[test]
fn test_parse_image_0x73_iv_fallback() {
    let mut data = property_image_header_with_iv(WZ_GMSIV);
    data.push(0);
    let mut reader = make_reader(data);
    let props = parse_image(&mut reader).unwrap();
    assert!(props.is_empty());
}

#[test]
fn test_parse_image_0x73_iv_fallback_ems() {
    let mut data = property_image_header_with_iv(WZ_MSEAIV);
    data.push(0);
    let mut reader = make_reader(data);
    let props = parse_image(&mut reader).unwrap();
    assert!(props.is_empty());
}

#[test]
fn test_parse_image_0x73_empty_property_list() {
    let mut data = property_image_header();
    data.push(0);
    let mut reader = make_reader(data);
    let props = parse_image(&mut reader).unwrap();
    assert!(props.is_empty());
}

#[test]
fn test_parse_image_invalid_header() {
    let mut reader = make_reader(vec![0xFF]);
    let err = parse_image(&mut reader).unwrap_err();
    assert!(matches!(err, WzError::InvalidImageHeader(0xFF)));
}

#[test]
fn test_parse_image_lua() {
    let lua_bytes = b"print('hello')";
    let mut data = vec![0x01u8];
    data.push(lua_bytes.len() as u8);
    data.extend_from_slice(lua_bytes);
    let mut reader = make_reader(data);
    let props = parse_image(&mut reader).unwrap();
    assert_eq!(props.len(), 1);
    assert_eq!(props[0].0, "Script");
    if let WzProperty::Lua(ref d) = props[0].1 {
        assert_eq!(d, lua_bytes);
    } else {
        panic!("Expected Lua property");
    }
}

// ── scalar properties ──────────────────────────────────────────

#[test]
fn test_parse_null_property() {
    let data = build_image_with_property("n", &[0x00]);
    let mut reader = make_reader(data);
    let props = parse_image(&mut reader).unwrap();
    assert_eq!(props.len(), 1);
    assert_eq!(props[0].0, "n");
    assert!(matches!(props[0].1, WzProperty::Null));
}

#[test]
fn test_parse_short_property() {
    let mut value = vec![0x02u8];
    value.extend_from_slice(&42i16.to_le_bytes());
    let data = build_image_with_property("s", &value);
    let props = parse_image(&mut make_reader(data)).unwrap();
    assert_eq!(props[0].1.as_int(), Some(42));
}

#[test]
fn test_parse_int_property_small() {
    let data = build_image_with_property("i", &[0x03u8, 99]);
    let props = parse_image(&mut make_reader(data)).unwrap();
    assert_eq!(props[0].1.as_int(), Some(99));
}

#[test]
fn test_parse_int_property_large() {
    let mut value = vec![0x03u8, 0x80];
    value.extend_from_slice(&100_000i32.to_le_bytes());
    let data = build_image_with_property("i", &value);
    let props = parse_image(&mut make_reader(data)).unwrap();
    assert_eq!(props[0].1.as_int(), Some(100_000));
}

#[test]
fn test_parse_long_property() {
    let mut value = vec![0x14u8, 0x80];
    value.extend_from_slice(&9_999_999i64.to_le_bytes());
    let data = build_image_with_property("l", &value);
    let props = parse_image(&mut make_reader(data)).unwrap();
    assert_eq!(props[0].1.as_int(), Some(9_999_999));
}

#[test]
fn test_parse_float_property_value() {
    let mut value = vec![0x04u8, 0x80];
    value.extend_from_slice(&1.5f32.to_le_bytes());
    let data = build_image_with_property("f", &value);
    let props = parse_image(&mut make_reader(data)).unwrap();
    let v = float_value(&props[0].1).unwrap();
    assert!((v - 1.5).abs() < f64::EPSILON);
}

#[test]
fn test_parse_float_property_zero() {
    let data = build_image_with_property("f", &[0x04u8, 0x00]);
    let props = parse_image(&mut make_reader(data)).unwrap();
    assert_eq!(float_value(&props[0].1), Some(0.0));
}

#[test]
fn test_parse_float_property_unknown_indicator_skipped() {
    let data = build_image_with_property("f", &[0x04u8, 0x42]);
    let props = parse_image(&mut make_reader(data)).unwrap();
    assert!(props.is_empty());
}

#[test]
fn test_parse_double_property() {
    let mut value = vec![0x05u8];
    value.extend_from_slice(&3.14f64.to_le_bytes());
    let data = build_image_with_property("d", &value);
    let props = parse_image(&mut make_reader(data)).unwrap();
    let v = float_value(&props[0].1).unwrap();
    assert!((v - 3.14).abs() < f64::EPSILON);
}

#[test]
fn test_parse_string_property() {
    let mut value = vec![0x08u8];
    value.extend_from_slice(&string_block("hello"));
    let data = build_image_with_property("str", &value);
    let props = parse_image(&mut make_reader(data)).unwrap();
    assert_eq!(props[0].1.as_str(), Some("hello"));
}

#[test]
fn test_parse_vector_property() {
    let mut inner = vec![0x73u8];
    inner.extend_from_slice(&encode_wz_ascii("Shape2D#Vector2D"));
    inner.push(10);
    inner.push(20);
    let mut value = vec![0x09u8];
    value.extend_from_slice(&(inner.len() as u32).to_le_bytes());
    value.extend_from_slice(&inner);

    let data = build_image_with_property("v", &value);
    let props = parse_image(&mut make_reader(data)).unwrap();
    if let WzProperty::Vector { x, y } = &props[0].1 {
        assert_eq!(*x, 10);
        assert_eq!(*y, 20);
    } else {
        panic!("Expected Vector, got {:?}", props[0].1);
    }
}

#[test]
fn test_parse_multiple_properties() {
    let mut data = property_image_header();
    data.push(3);
    data.extend_from_slice(&string_block("a"));
    data.push(0x00);
    data.extend_from_slice(&string_block("b"));
    data.push(0x02);
    data.extend_from_slice(&7i16.to_le_bytes());
    data.extend_from_slice(&string_block("c"));
    data.push(0x03);
    data.push(42);

    let props = parse_image(&mut make_reader(data)).unwrap();
    assert_eq!(props.len(), 3);
    assert_eq!(props[0].0, "a");
    assert!(matches!(props[0].1, WzProperty::Null));
    assert_eq!(props[1].0, "b");
    assert_eq!(props[1].1.as_int(), Some(7));
    assert_eq!(props[2].0, "c");
    assert_eq!(props[2].1.as_int(), Some(42));
}

// ── path (partial) parse ───────────────────────────────────────

fn int_value(v: i32) -> Vec<u8> {
    vec![0x03u8, v as i8 as u8]
}

fn subproperty(children: &[(&str, Vec<u8>)]) -> Vec<u8> {
    let mut content = vec![0u8, 0u8];
    content.push(children.len() as u8);
    for (name, value) in children {
        content.extend_from_slice(&string_block(name));
        content.extend_from_slice(value);
    }
    build_extended_property("Property", &content)
}

fn nested_path_image() -> Vec<u8> {
    let mut data = property_image_header();
    data.push(3);
    data.extend_from_slice(&string_block("first"));
    data.extend_from_slice(&int_value(1));
    data.extend_from_slice(&string_block("target"));
    data.extend_from_slice(&subproperty(&[
        ("junk", subproperty(&[("x", int_value(100))])),
        ("info", subproperty(&[("icon", int_value(7)), ("price", int_value(99))])),
    ]));
    data.extend_from_slice(&string_block("last"));
    data.extend_from_slice(&int_value(2));
    data
}

#[test]
fn parse_image_path_reaches_nested_leaf_skipping_siblings() {
    let data = nested_path_image();
    let src = Arc::new(data.clone());

    let mut reader = make_reader(data.clone());
    let node = parse_image_path_lazy(&mut reader, src.clone(), &["target", "info", "icon"]).unwrap();
    assert!(
        matches!(node, Some(WzProperty::Int(7))),
        "must reach the leaf past the scalar `first` + the 0x09 `junk` sibling, got {node:?}"
    );

    let mut reader = make_reader(data.clone());
    let info = parse_image_path_lazy(&mut reader, src.clone(), &["target", "info"])
        .unwrap()
        .expect("info present");
    match info {
        WzProperty::SubProperty { properties } => {
            assert_eq!(properties.len(), 2, "info has icon + price");
            assert_eq!(properties[0].0, "icon");
        }
        other => panic!("expected SubProperty, got {other:?}"),
    }
}

#[test]
fn parse_image_path_returns_none_for_absent_paths() {
    let data = nested_path_image();
    let src = Arc::new(data.clone());
    for path in [
        &["target", "info", "missing"][..],
        &["target", "nope"][..],
        &["nope"][..],
        &["first", "x"][..],
    ] {
        let mut reader = make_reader(data.clone());
        assert!(
            parse_image_path_lazy(&mut reader, src.clone(), path).unwrap().is_none(),
            "absent path {path:?} must be None"
        );
    }
}

#[test]
fn parse_image_path_matches_full_parse_at_that_path() {
    let data = nested_path_image();
    let src = Arc::new(data.clone());

    let full = parse_image(&mut make_reader(data.clone())).unwrap();
    let target = &full.iter().find(|(n, _)| n == "target").unwrap().1;
    let info = target.children().unwrap().iter().find(|(n, _)| n == "info").unwrap();
    let icon_full = info.1.children().unwrap().iter().find(|(n, _)| n == "icon").unwrap();
    assert_eq!(icon_full.1.as_int(), Some(7));

    let mut reader = make_reader(data.clone());
    let icon_partial = parse_image_path_lazy(&mut reader, src, &["target", "info", "icon"]).unwrap();
    assert_eq!(icon_partial.and_then(|p| p.as_int()), icon_full.1.as_int());
}

#[test]
fn parse_image_path_empty_path_is_an_error() {
    let data = nested_path_image();
    let src = Arc::new(data.clone());
    let mut reader = make_reader(data);
    reader.seek(3);
    assert!(matches!(parse_image_path_lazy(&mut reader, src, &[]), Err(WzError::Custom(_))));
    assert_eq!(reader.position(), 3);
    assert!(reader.lazy_src().is_none());
}

// ── canvas ─────────────────────────────────────────────────────

#[test]
fn test_parse_canvas_property_no_children() {
    let png_payload = vec![0xAA, 0xBB, 0xCC];
    let raw_data_len: i32 = png_payload.len() as i32 + 1;

    let mut inner = Vec::new();
    inner.push(0x00);
    inner.push(0x00);
    inner.push(4);
    inner.push(8);
    inner.push(2);
    inner.push(0);
    inner.extend_from_slice(&0i32.to_le_bytes());
    inner.extend_from_slice(&raw_data_len.to_le_bytes());
    inner.push(0x00);
    inner.extend_from_slice(&png_payload);

    let value = build_extended_property("Canvas", &inner);
    let data = build_image_with_property("img", &value);
    let props = parse_image(&mut make_reader(data)).unwrap();

    assert_eq!(props.len(), 1);
    assert_eq!(props[0].0, "img");
    if let WzProperty::Canvas { width, height, format, properties, png_data, .. } = &props[0].1 {
        assert_eq!(*width, 4);
        assert_eq!(*height, 8);
        assert_eq!(*format, WzPngFormat::Bgra8888);
        assert!(properties.is_empty());
        assert_eq!(png_data.as_bytes(), &png_payload[..]);
    } else {
        panic!("Expected Canvas, got {:?}", props[0].1);
    }
}

#[test]
fn test_parse_canvas_property_with_children() {
    let png_payload = vec![0xDD, 0xEE];
    let raw_data_len: i32 = png_payload.len() as i32 + 1;

    let mut inner = Vec::new();
    inner.push(0x00);
    inner.push(0x01);
    inner.extend_from_slice(&0u16.to_le_bytes());
    inner.push(1);
    inner.extend_from_slice(&string_block("delay"));
    inner.push(0x03);
    inner.push(100);
    inner.push(16);
    inner.push(16);
    inner.push(1);
    inner.push(0);
    inner.extend_from_slice(&0i32.to_le_bytes());
    inner.extend_from_slice(&raw_data_len.to_le_bytes());
    inner.push(0x00);
    inner.extend_from_slice(&png_payload);

    let value = build_extended_property("Canvas", &inner);
    let data = build_image_with_property("icon", &value);
    let props = parse_image(&mut make_reader(data)).unwrap();

    if let WzProperty::Canvas { width, height, format, properties, .. } = &props[0].1 {
        assert_eq!(*width, 16);
        assert_eq!(*height, 16);
        assert_eq!(*format, WzPngFormat::Bgra4444);
        assert_eq!(properties.len(), 1);
        assert_eq!(properties[0].0, "delay");
        assert_eq!(properties[0].1.as_int(), Some(100));
    } else {
        panic!("Expected Canvas");
    }
}

#[test]
fn test_parse_canvas_lazy_zero_copy() {
    let png_payload = vec![0xAA, 0xBB, 0xCC, 0xDD];
    let raw_data_len: i32 = png_payload.len() as i32 + 1;

    let mut inner = Vec::new();
    inner.push(0x00);
    inner.push(0x00);
    inner.push(4);
    inner.push(8);
    inner.push(2);
    inner.push(0);
    inner.extend_from_slice(&0i32.to_le_bytes());
    inner.extend_from_slice(&raw_data_len.to_le_bytes());
    inner.push(0x00);
    inner.extend_from_slice(&png_payload);

    let value = build_extended_property("Canvas", &inner);
    let data = build_image_with_property("img", &value);

    let eager = parse_image(&mut make_reader(data.clone())).unwrap();
    let src: Arc<Vec<u8>> = Arc::new(data.clone());
    let mut reader = make_reader(data);
    let lazy = parse_image_lazy(&mut reader, src.clone()).unwrap();

    let eager_png = match &eager[0].1 {
        WzProperty::Canvas { png_data, .. } => png_data,
        _ => panic!("Expected Canvas"),
    };
    match &lazy[0].1 {
        WzProperty::Canvas { png_data, width, height, .. } => {
            assert_eq!(*width, 4);
            assert_eq!(*height, 8);
            assert!(
                matches!(png_data, CanvasData::Ref { .. }),
                "lazy parse should produce CanvasData::Ref"
            );
            assert_eq!(png_data.as_bytes(), &png_payload[..]);
            assert_eq!(png_data.as_bytes(), eager_png.as_bytes());
            if let CanvasData::Ref { src: ref_src, offset, len } = png_data {
                assert!(Arc::ptr_eq(ref_src, &src), "Ref should share the source Arc");
                assert_eq!(&src[*offset..*offset + *len], &png_payload[..]);
            }
        }
        _ => panic!("Expected Canvas"),
    }
}

#[test]
fn test_parse_canvas_invalid_data_len() {
    let mut inner = Vec::new();
    inner.push(0x00);
    inner.push(0x00);
    inner.push(1);
    inner.push(1);
    inner.push(2);
    inner.push(0);
    inner.extend_from_slice(&0i32.to_le_bytes());
    inner.extend_from_slice(&0i32.to_le_bytes());
    inner.push(0x00);

    let value = build_extended_property("Canvas", &inner);
    let data = build_image_with_property("bad", &value);
    let err = parse_image(&mut make_reader(data)).unwrap_err();
    assert!(matches!(err, WzError::Custom(_)));
}

// ── sound ──────────────────────────────────────────────────────

#[test]
fn test_parse_sound_property() {
    let audio_data = vec![0x01, 0x02, 0x03, 0x04];
    let sound_header = vec![0xAA; SOUND_HEADER_LEN];
    let wav_format_len: u8 = 4;
    let wav_format = vec![0xBB; wav_format_len as usize];

    let mut inner = Vec::new();
    inner.push(0x00);
    inner.push(audio_data.len() as u8);
    inner.push(100);
    inner.extend_from_slice(&sound_header);
    inner.push(wav_format_len);
    inner.extend_from_slice(&wav_format);
    inner.extend_from_slice(&audio_data);

    let value = build_extended_property("Sound_DX8", &inner);
    let data = build_image_with_property("snd", &value);
    let props = parse_image(&mut make_reader(data)).unwrap();

    assert_eq!(props.len(), 1);
    assert_eq!(props[0].0, "snd");
    if let WzProperty::Sound { duration_ms, data, header, .. } = &props[0].1 {
        assert_eq!(*duration_ms, 100);
        assert_eq!(data, &audio_data);
        assert_eq!(header.len(), SOUND_HEADER_LEN + 1 + wav_format_len as usize);
    } else {
        panic!("Expected Sound, got {:?}", props[0].1);
    }
}

#[test]
fn test_parse_sound_property_zero_wav_format() {
    let audio_data = vec![0xFF; 2];
    let sound_header = vec![0x00; SOUND_HEADER_LEN];
    let wav_format_len: u8 = 0;

    let mut inner = Vec::new();
    inner.push(0x00);
    inner.push(audio_data.len() as u8);
    inner.push(50);
    inner.extend_from_slice(&sound_header);
    inner.push(wav_format_len);
    inner.extend_from_slice(&audio_data);

    let value = build_extended_property("Sound_DX8", &inner);
    let data = build_image_with_property("s2", &value);
    let props = parse_image(&mut make_reader(data)).unwrap();

    if let WzProperty::Sound { duration_ms, data, header, .. } = &props[0].1 {
        assert_eq!(*duration_ms, 50);
        assert_eq!(data, &audio_data);
        assert_eq!(header.len(), SOUND_HEADER_LEN + 1);
    } else {
        panic!("Expected Sound");
    }
}

// ── UOL, convex, sub-property ──────────────────────────────────

#[test]
fn test_parse_uol_property_inline() {
    let mut inner = Vec::new();
    inner.push(0x00);
    inner.push(0x00);
    inner.extend_from_slice(&encode_wz_ascii("../stand/0"));

    let value = build_extended_property("UOL", &inner);
    let data = build_image_with_property("link", &value);
    let props = parse_image(&mut make_reader(data)).unwrap();

    assert_eq!(props.len(), 1);
    assert_eq!(props[0].0, "link");
    if let WzProperty::Uol(path) = &props[0].1 {
        assert_eq!(path, "../stand/0");
    } else {
        panic!("Expected Uol, got {:?}", props[0].1);
    }
}

#[test]
fn test_parse_uol_unsupported_type() {
    let inner = vec![0x00, 0x99];
    let value = build_extended_property("UOL", &inner);
    let data = build_image_with_property("bad", &value);
    let err = parse_image(&mut make_reader(data)).unwrap_err();
    assert!(matches!(err, WzError::Custom(_)));
}

#[test]
fn test_parse_convex_property() {
    let mut inner = Vec::new();
    inner.push(2);
    inner.push(0x73);
    inner.extend_from_slice(&encode_wz_ascii("Shape2D#Vector2D"));
    inner.push(1);
    inner.push(2);
    inner.push(0x73);
    inner.extend_from_slice(&encode_wz_ascii("Shape2D#Vector2D"));
    inner.push(3);
    inner.push(4);

    let value = build_extended_property("Shape2D#Convex2D", &inner);
    let data = build_image_with_property("cv", &value);
    let props = parse_image(&mut make_reader(data)).unwrap();

    if let WzProperty::Convex { points } = &props[0].1 {
        assert_eq!(points.len(), 2);
        assert!(matches!(points[0].1, WzProperty::Vector { x: 1, y: 2 }));
        assert!(matches!(points[1].1, WzProperty::Vector { x: 3, y: 4 }));
    } else {
        panic!("Expected Convex");
    }
}

#[test]
fn test_parse_sub_property_extended() {
    let mut inner = Vec::new();
    inner.extend_from_slice(&0u16.to_le_bytes());
    inner.push(1);
    inner.extend_from_slice(&string_block("val"));
    inner.push(0x00);

    let value = build_extended_property("Property", &inner);
    let data = build_image_with_property("sub", &value);
    let props = parse_image(&mut make_reader(data)).unwrap();

    if let WzProperty::SubProperty { properties, .. } = &props[0].1 {
        assert_eq!(properties.len(), 1);
        assert_eq!(properties[0].0, "val");
        assert!(matches!(properties[0].1, WzProperty::Null));
    } else {
        panic!("Expected SubProperty");
    }
}

// ── try_decrypt_wave_format ────────────────────────────────────

#[test]
fn test_try_decrypt_wave_format_already_valid() {
    let mut wav = vec![0u8; WAVE_FORMAT_SIZE];
    wav[16] = 0;
    wav[17] = 0;
    let key = vec![0xFF; 18];
    let before = wav.clone();
    let result = try_decrypt_wave_format(&mut wav, &key);
    assert!(!result);
    assert_eq!(wav, before);
}

#[test]
fn test_try_decrypt_wave_format_too_short() {
    let mut wav = vec![0u8; 10];
    let result = try_decrypt_wave_format(&mut wav, &[]);
    assert!(!result);
}

#[test]
fn test_try_decrypt_wave_format_decrypts() {
    let mut plain = vec![0u8; 20];
    plain[16] = 2;
    plain[17] = 0;

    let key = vec![0x55u8; 20];
    let mut encrypted: Vec<u8> = plain.iter().zip(key.iter()).map(|(a, b)| a ^ b).collect();

    let extra_before = u16::from_le_bytes([encrypted[16], encrypted[17]]) as usize;
    assert_ne!(WAVE_FORMAT_SIZE + extra_before, encrypted.len());

    let result = try_decrypt_wave_format(&mut encrypted, &key);
    assert!(result);
    assert_eq!(encrypted, plain);
}

// ── errors ─────────────────────────────────────────────────────

#[test]
fn test_parse_unknown_property_type_error() {
    let data = build_image_with_property("x", &[0xFEu8]);
    let err = parse_image(&mut make_reader(data)).unwrap_err();
    assert!(matches!(err, WzError::UnknownPropertyType(_)));
}

#[test]
fn test_parse_invalid_property_count() {
    let mut data = property_image_header();
    data.push(0x80);
    data.extend_from_slice(&600_000i32.to_le_bytes());
    let err = parse_image(&mut make_reader(data)).unwrap_err();
    assert!(matches!(err, WzError::Custom(_)));
}

#[test]
fn test_parse_extended_invalid_type_byte() {
    let inner = vec![0xFFu8];
    let mut value = vec![0x09u8];
    value.extend_from_slice(&(inner.len() as u32).to_le_bytes());
    value.extend_from_slice(&inner);

    let data = build_image_with_property("bad", &value);
    let err = parse_image(&mut make_reader(data)).unwrap_err();
    assert!(matches!(err, WzError::Custom(_)));
}

#[test]
fn test_parse_unknown_extended_type_returns_string() {
    let value = build_extended_property("SomeUnknownType", &[]);
    let data = build_image_with_property("unk", &value);
    let props = parse_image(&mut make_reader(data)).unwrap();
    assert_eq!(props[0].1.as_str(), Some("SomeUnknownType"));
}

// ── further cases ──────────────────────────────────────────────

#[test]
fn truncated_image_is_unexpected_eof() {
    let mut data = property_image_header();
    data.push(2);
    data.extend_from_slice(&string_block("a"));
    data.push(0x00);
    let err = parse_image(&mut make_reader(data)).unwrap_err();
    assert!(matches!(err, WzError::UnexpectedEof));
}

#[test]
fn lazy_parse_agrees_with_eager_on_scalars() {
    let data = nested_path_image();
    let eager = parse_image(&mut make_reader(data.clone())).unwrap();
    let lazy = parse_image_lazy(&mut make_reader(data.clone()), Arc::new(data)).unwrap();
    assert_eq!(eager.len(), lazy.len());
    for (a, b) in eager.iter().zip(lazy.iter()) {
        assert_eq!(a.0, b.0);
        assert_eq!(a.1.as_int(), b.1.as_int());
    }
}

#[test]
fn property_list_at_offset() {
    // A bare property list (count, then entries) at offset 0.
    let mut data = vec![1u8];
    data.extend_from_slice(&string_block("k"));
    data.push(0x03);
    data.push(5);
    let mut reader = make_reader(data);
    let props = parse_property_list(&mut reader, 0).unwrap();
    assert_eq!(props.len(), 1);
    assert_eq!(props[0].0, "k");
    assert_eq!(props[0].1.as_int(), Some(5));
}

#[test]
fn string_property_by_offset_reference() {
    // string block 0x01 + i32 offset refers back to the inline "hello" of an
    // earlier string (offset relative to the image start).
    let mut data = property_image_header();
    data.push(2);
    data.extend_from_slice(&string_block("a"));
    data.push(0x08);
    let hello_at = data.len() + 1; // after the 0x00 type byte
    data.extend_from_slice(&string_block("hello"));
    data.extend_from_slice(&string_block("b"));
    data.push(0x08);
    data.push(0x01);
    data.extend_from_slice(&(hello_at as i32).to_le_bytes());
    let props = parse_image(&mut make_reader(data)).unwrap();
    assert_eq!(props[1].0, "b");
    assert_eq!(props[1].1.as_str(), Some("hello"));
}

/// A UTF-16 WZ string under the zero key: positive length, then each unit
/// XORed with the rolling 16-bit mask.
fn encode_wz_unicode(s: &str) -> Vec<u8> {
    let units: Vec<u16> = s.encode_utf16().collect();
    let mut out = vec![units.len() as u8];
    let mut mask: u16 = 0xAAAA;
    for u in units {
        out.extend_from_slice(&(u ^ mask).to_le_bytes());
        mask = mask.wrapping_add(1);
    }
    out
}

#[test]
fn unicode_string_property() {
    let mut value = vec![0x08u8, 0x00];
    value.extend_from_slice(&encode_wz_unicode("héllo ☃ 😀"));
    let data = build_image_with_property("u", &value);
    let props = parse_image(&mut make_reader(data)).unwrap();
    assert_eq!(props[0].1.as_str(), Some("héllo ☃ 😀"));
}

#[test]
fn unpaired_surrogate_becomes_replacement_char() {
    let mut raw = vec![0x08u8, 0x00, 1];
    raw.extend_from_slice(&(0xD800u16 ^ 0xAAAA).to_le_bytes());
    let data = build_image_with_property("u", &raw);
    let props = parse_image(&mut make_reader(data)).unwrap();
    assert_eq!(props[0].1.as_str(), Some("\u{FFFD}"));
}
