use base64::Engine;
use wzlib_rs::b64::decode_base64;
use wzlib_rs::export::{export_wz_xml, float_values, FloatBits};
use wzlib_rs::inflate::compress_png_data;
use wzlib_rs::property::{CanvasData, WzProperty};
use wzlib_rs::types::WzPngFormat;
use wzlib_rs::xml::{pack_sound_blob, XmlMode};
use wzlib_rs::xml_import::{
    encode_bgra8888, fill_floats, import_wz_xml, unpack_sound_blob, FloatText,
};

fn make_props() -> Vec<(String, WzProperty)> {
    vec![
        (
            "info".to_string(),
            WzProperty::SubProperty {
                properties: vec![
                    ("islot".to_string(), WzProperty::String("Bd".to_string())),
                    ("cash".to_string(), WzProperty::Int(0)),
                ],
            },
        ),
        ("delay".to_string(), WzProperty::Int(120)),
        ("origin".to_string(), WzProperty::Vector { x: -36, y: 100 }),
        ("face".to_string(), WzProperty::Short(1)),
    ]
}

/// Reads the float texts of an import as the application does: an `f64`
/// (0 when it does not parse), narrowed for a float; its bit pattern.
fn float_bits(texts: &[FloatText]) -> Vec<u64> {
    texts
        .iter()
        .map(|t| {
            let v = t.text.parse::<f64>().unwrap_or(0.0);
            if t.single {
                (v as f32).to_bits() as u64
            } else {
                v.to_bits()
            }
        })
        .collect()
}

fn import(xml: &str) -> (String, Vec<(String, WzProperty)>) {
    let (name, props, texts) = import_wz_xml(xml).unwrap();
    let bits = float_bits(&texts);
    (name, fill_floats(props, &bits))
}

/// The texts of the floats of `props` in export order, as `Display` writes them.
fn float_texts(props: &[(String, WzProperty)]) -> Vec<String> {
    float_values(props)
        .iter()
        .map(|f| match f {
            FloatBits::F32(b) => f32::from_bits(*b).to_string(),
            FloatBits::F64(b) => f64::from_bits(*b).to_string(),
        })
        .collect()
}

#[test]
fn test_export_server_mode() {
    let props = make_props();
    let xml = export_wz_xml("test.img", &props, &XmlMode::MetadataOnly, &[]);
    assert!(xml.starts_with("<?xml version=\"1.0\""));
    assert!(xml.contains("<imgdir name=\"test.img\">"));
    assert!(xml.contains("<imgdir name=\"info\">"));
    assert!(xml.contains("<string name=\"islot\" value=\"Bd\"/>"));
    assert!(xml.contains("<int name=\"cash\" value=\"0\"/>"));
    assert!(xml.contains("</imgdir>"));
    assert!(xml.contains("<int name=\"delay\" value=\"120\"/>"));
    assert!(xml.contains("<vector name=\"origin\" x=\"-36\" y=\"100\"/>"));
    assert!(xml.contains("<short name=\"face\" value=\"1\"/>"));
    assert!(!xml.contains("basedata"));
}

#[test]
fn test_export_empty_subproperty() {
    let props = vec![(
        "stop".to_string(),
        WzProperty::SubProperty {
            properties: vec![("0".to_string(), WzProperty::SubProperty { properties: vec![] })],
        },
    )];
    let xml = export_wz_xml("test.img", &props, &XmlMode::MetadataOnly, &[]);
    assert!(xml.contains("<imgdir name=\"0\"/>"));
}

#[test]
fn test_export_xml_escape() {
    let props = vec![("a&b".to_string(), WzProperty::String("val<>\"".to_string()))];
    let xml = export_wz_xml("test.img", &props, &XmlMode::MetadataOnly, &[]);
    assert!(xml.contains("name=\"a&amp;b\""));
    assert!(xml.contains("value=\"val&lt;&gt;&quot;\""));
}

#[test]
fn test_import_basic() {
    let xml = r#"<?xml version="1.0" encoding="UTF-8" standalone="yes"?>
<imgdir name="00002000.img">
  <imgdir name="info">
    <string name="islot" value="Bd"/>
    <int name="cash" value="0"/>
  </imgdir>
  <short name="face" value="1"/>
  <vector name="origin" x="19" y="32"/>
</imgdir>"#;

    let (name, props) = import(xml);
    assert_eq!(name, "00002000.img");
    assert_eq!(props.len(), 3);

    let (n, p) = &props[0];
    assert_eq!(n, "info");
    if let WzProperty::SubProperty { properties } = p {
        assert_eq!(properties.len(), 2);
        assert_eq!(properties[0].0, "islot");
        assert!(matches!(&properties[0].1, WzProperty::String(s) if s == "Bd"));
        assert!(matches!(&properties[1].1, WzProperty::Int(0)));
    } else {
        panic!("Expected SubProperty");
    }
    assert!(matches!(&props[1].1, WzProperty::Short(1)));
    assert!(matches!(&props[2].1, WzProperty::Vector { x: 19, y: 32 }));
}

#[test]
fn test_import_double_comma() {
    let xml = r#"<?xml version="1.0" encoding="UTF-8" standalone="yes"?>
<imgdir name="root">
  <double name="speed" value="1,5"/>
  <float name="rate" value="2.5"/>
</imgdir>"#;
    let (_, props) = import(xml);
    assert!(matches!(&props[0].1, WzProperty::Double(v) if (f64::from_bits(*v) - 1.5).abs() < 1e-9));
    assert!(matches!(&props[1].1, WzProperty::Float(v) if (f32::from_bits(*v) - 2.5f32).abs() < 1e-6));
}

#[test]
fn test_roundtrip_server_mode() {
    let props = make_props();
    let xml = export_wz_xml("test.img", &props, &XmlMode::MetadataOnly, &[]);
    let (name, imported) = import(&xml);
    assert_eq!(name, "test.img");
    assert_eq!(imported.len(), props.len());

    if let WzProperty::SubProperty { properties } = &imported[0].1 {
        assert!(matches!(&properties[0].1, WzProperty::String(s) if s == "Bd"));
    } else {
        panic!("Expected SubProperty");
    }
    assert!(matches!(&imported[1].1, WzProperty::Int(120)));
    assert!(matches!(&imported[2].1, WzProperty::Vector { x: -36, y: 100 }));
    assert!(matches!(&imported[3].1, WzProperty::Short(1)));
}

#[test]
fn test_roundtrip_client_mode_canvas() {
    let rgba = vec![255u8, 0, 0, 255, 0, 255, 0, 255];
    let wz_pixels = encode_bgra8888(&rgba, 2, 1).unwrap();
    let png_data = compress_png_data(&wz_pixels).unwrap();

    let props = vec![(
        "img".to_string(),
        WzProperty::Canvas {
            width: 2,
            height: 1,
            format: WzPngFormat::Bgra8888,
            scale: 0,
            properties: vec![("origin".to_string(), WzProperty::Vector { x: 5, y: 10 })],
            png_data: CanvasData::Loaded(png_data),
        },
    )];
    let xml = export_wz_xml("test.img", &props, &XmlMode::WithBinaryData, &[]);
    assert!(!xml.contains("format="));
    assert!(xml.contains("basedata="));

    let b64_start = xml.find("basedata=\"").unwrap() + 10;
    let b64_end = xml[b64_start..].find('"').unwrap() + b64_start;
    let decoded = base64::engine::general_purpose::STANDARD
        .decode(&xml[b64_start..b64_end])
        .unwrap();
    assert_eq!(&decoded[..4], b"\x89PNG", "basedata must be a standard PNG");

    let (_, imported) = import(&xml);
    if let WzProperty::Canvas { width, height, format, properties, png_data: got_png, .. } = &imported[0].1 {
        assert_eq!(*width, 2);
        assert_eq!(*height, 1);
        assert_eq!(*format, WzPngFormat::Bgra8888);
        let got = got_png.as_bytes();
        assert!(!got.is_empty());
        assert_eq!(got[0], 0x78, "roundtrip png_data should be zlib");
        assert_eq!(properties.len(), 1);
    } else {
        panic!("Expected Canvas");
    }
}

// ── further cases ──────────────────────────────────────────────

#[test]
fn floats_roundtrip_through_their_texts() {
    let props = vec![
        ("f".to_string(), WzProperty::Float(0.25f32.to_bits())),
        ("d".to_string(), WzProperty::Double((-3.5f64).to_bits())),
    ];
    let texts = float_texts(&props);
    assert_eq!(texts, vec!["0.25".to_string(), "-3.5".to_string()]);
    let xml = export_wz_xml("x.img", &props, &XmlMode::MetadataOnly, &texts);
    assert!(xml.contains("<float name=\"f\" value=\"0.25\"/>"));
    assert!(xml.contains("<double name=\"d\" value=\"-3.5\"/>"));
    let (_, back) = import(&xml);
    assert!(matches!(back[0].1, WzProperty::Float(b) if b == 0.25f32.to_bits()));
    assert!(matches!(back[1].1, WzProperty::Double(b) if b == (-3.5f64).to_bits()));
}

#[test]
fn sound_roundtrips_through_client_mode() {
    let props = vec![(
        "snd".to_string(),
        WzProperty::Sound { duration_ms: 321, header: vec![1, 2, 3], data: vec![9, 8, 7, 6] },
    )];
    let xml = export_wz_xml("s.img", &props, &XmlMode::WithBinaryData, &[]);
    let (_, back) = import(&xml);
    match &back[0].1 {
        WzProperty::Sound { duration_ms, header, data } => {
            assert_eq!(*duration_ms, 321);
            assert_eq!(header, &vec![1, 2, 3]);
            assert_eq!(data, &vec![9, 8, 7, 6]);
        }
        other => panic!("expected Sound, got {other:?}"),
    }
}

#[test]
fn sound_blob_pack_unpack() {
    let blob = pack_sound_blob(&[0xAA, 0xBB], &[1, 2, 3]);
    assert_eq!(blob, vec![2, 0, 0, 0, 0xAA, 0xBB, 1, 2, 3]);
    assert_eq!(unpack_sound_blob(&blob), (vec![0xAA, 0xBB], vec![1, 2, 3]));
}

#[test]
fn import_rejects_malformed_xml() {
    assert!(import_wz_xml("<imgdir name=\"a\"><int name=\"x\" value=\"1\"/></wrong>").is_err());
}

#[test]
fn import_without_imgdir_gives_default_root() {
    let (name, props, texts) = import_wz_xml("<?xml version=\"1.0\"?>").unwrap();
    assert_eq!(name, "root");
    assert!(props.is_empty());
    assert!(texts.is_empty());
}

#[test]
fn metadata_only_canvas_has_no_basedata() {
    let props = vec![(
        "c".to_string(),
        WzProperty::Canvas {
            width: 3,
            height: 4,
            format: WzPngFormat::Bgra4444,
            scale: 0,
            properties: vec![],
            png_data: CanvasData::Loaded(vec![1, 2, 3]),
        },
    )];
    let xml = export_wz_xml("c.img", &props, &XmlMode::MetadataOnly, &[]);
    assert!(xml.contains("<canvas name=\"c\" width=\"3\" height=\"4\""));
    assert!(!xml.contains("basedata"));
}

#[test]
fn base64_decoding_of_library() {
    assert_eq!(decode_base64("aGVsbG8="), Some(b"hello".to_vec()));
    assert_eq!(decode_base64("@@"), None);
}

#[test]
fn escaped_names_and_values_roundtrip() {
    let tricky = "&lt; a&b <c> \"q\" 'x' &amp;";
    let props = vec![(tricky.to_string(), WzProperty::String(tricky.to_string()))];
    let xml = export_wz_xml("t&.img", &props, &XmlMode::MetadataOnly, &[]);
    let (name, back) = import(&xml);
    assert_eq!(name, "t&.img");
    assert_eq!(back[0].0, tricky);
    assert!(matches!(&back[0].1, WzProperty::String(s) if s == tricky));
}

/// The lines between the root's start tag and its end tag.
fn body_of(xml: &str) -> String {
    let start = xml.find("\">\n").unwrap() + 3;
    let end = xml.rfind("</imgdir>\n").unwrap();
    xml[start..end].to_string()
}

#[test]
fn document_body_of_joined_lists_is_joined() {
    let ps = make_props();
    let qs = vec![
        ("more".to_string(), WzProperty::Uol("../info".to_string())),
        ("empty".to_string(), WzProperty::Convex { points: vec![] }),
    ];
    let mut both = make_props();
    both.extend(vec![
        ("more".to_string(), WzProperty::Uol("../info".to_string())),
        ("empty".to_string(), WzProperty::Convex { points: vec![] }),
    ]);
    let a = export_wz_xml("t.img", &ps, &XmlMode::MetadataOnly, &[]);
    let b = export_wz_xml("t.img", &qs, &XmlMode::MetadataOnly, &[]);
    let ab = export_wz_xml("t.img", &both, &XmlMode::MetadataOnly, &[]);
    assert_eq!(body_of(&ab), body_of(&a) + &body_of(&b));
}

#[test]
fn plain_properties_with_empty_containers_roundtrip() {
    let props = vec![
        ("n".to_string(), WzProperty::Null),
        ("d".to_string(), WzProperty::SubProperty { properties: vec![] }),
        ("c".to_string(), WzProperty::Convex { points: vec![("p".to_string(), WzProperty::Vector { x: i32::MIN, y: i32::MAX })] }),
        ("l".to_string(), WzProperty::Long(i64::MIN)),
        ("s".to_string(), WzProperty::String("a&b<c>\"d'".to_string())),
    ];
    let xml = export_wz_xml("r&d.img", &props, &XmlMode::MetadataOnly, &[]);
    let (name, back, texts) = import_wz_xml(&xml).unwrap();
    assert_eq!(name, "r&d.img");
    assert!(texts.is_empty());
    assert_eq!(format!("{back:?}"), format!("{props:?}"));
}
