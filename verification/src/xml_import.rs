//! WZ XML import: the elements of a WZ XML document back into an image's
//! property list. Both server-mode (no `basedata`) and client-mode XML are
//! accepted.
use vstd::prelude::*;
use crate::error::{ErrV, WzError, WzResult};
use crate::property::{WzProperty, PropV, PropList, CanvasV, CanvasData, props_model, lemma_props_model, lemma_props_model_push};
use crate::types::WzPngFormat;
use crate::attrs::{unescape_attr, unescape_xml_attr, parse_int, parse_i16, parse_i32, parse_i64, parse_u8, parse_u32, replace_all, replace_chars};
use crate::b64::{base64_decoding, base64_encoding, decode_base64, lemma_base64_roundtrip};
use crate::canvas_png::{png_decoding, to_rgba8, png_bytes_to_rgba};
use crate::inflate::{zlib_compression, compress_png_data};
use crate::reader::le_value;
use crate::text::{str_chars, chars_eq, push_all, string_from_chars};

verus! {

/// An XML event as the import reads it.
pub enum XmlEvent {
    /// A start tag (`open`) or an empty-element tag: its name and its
    /// attributes as (key, raw value); an attribute that did not parse is
    /// `None`.
    Element { open: bool, tag: String, attrs: Vec<Option<(String, String)>> },
    /// An end tag.
    End,
    /// The end of the document.
    Eof,
    /// A malformed document, with the parser's message.
    Error(String),
    /// Anything else (text, comments, declarations).
    Other,
}

/// Model of an [`XmlEvent`].
pub enum XmlEventV {
    Element { open: bool, tag: Seq<char>, attrs: Seq<Option<(Seq<char>, Seq<char>)>> },
    End,
    Eof,
    Error(Seq<char>),
    Other,
}

pub open spec fn raw_attrs_view(a: Seq<Option<(String, String)>>) -> Seq<Option<(Seq<char>, Seq<char>)>> {
    Seq::new(
        a.len(),
        |i: int|
            match a[i] {
                Some((k, v)) => Some((k@, v@)),
                None => None,
            },
    )
}

impl XmlEvent {
    pub open spec fn model(&self) -> XmlEventV {
        match self {
            XmlEvent::Element { open, tag, attrs } => XmlEventV::Element {
                open: *open,
                tag: tag@,
                attrs: raw_attrs_view(attrs@),
            },
            XmlEvent::End => XmlEventV::End,
            XmlEvent::Eof => XmlEventV::Eof,
            XmlEvent::Error(m) => XmlEventV::Error(m@),
            XmlEvent::Other => XmlEventV::Other,
        }
    }
}

/// Attributes as (key, value) pairs.
pub type AttrsV = Seq<(Seq<char>, Seq<char>)>;

/// The attributes that parsed, in order, with their values unescaped.
pub open spec fn attrs_of(raw: Seq<Option<(Seq<char>, Seq<char>)>>) -> AttrsV
    decreases raw.len(),
{
    if raw.len() == 0 {
        Seq::empty()
    } else {
        let rest = attrs_of(raw.drop_last());
        match raw.last() {
            Some((k, v)) => rest.push((k, unescape_attr(v))),
            None => rest,
        }
    }
}

/// The value of the attribute `key`; of several, the last.
pub open spec fn attr_get(a: AttrsV, key: Seq<char>) -> Option<Seq<char>>
    decreases a.len(),
{
    if a.len() == 0 {
        None
    } else if a.last().0 == key {
        Some(a.last().1)
    } else {
        attr_get(a.drop_last(), key)
    }
}

/// The value of `key`, or the empty text.
pub open spec fn attr_text(a: AttrsV, key: Seq<char>) -> Seq<char> {
    match attr_get(a, key) {
        Some(v) => v,
        None => Seq::empty(),
    }
}

/// The integer value of `key` in `min..=max`, or 0 when absent or not a
/// valid integer of that range.
pub open spec fn attr_int(a: AttrsV, key: Seq<char>, min: int, max: int) -> int {
    match attr_get(a, key) {
        Some(v) => match parse_int(v, min, max) {
            Some(x) => x,
            None => 0,
        },
        None => 0,
    }
}

/// The bytes `key` holds in base64, or none when absent or not base64.
pub open spec fn attr_bytes(a: AttrsV, key: Seq<char>) -> Seq<u8> {
    match attr_get(a, key) {
        Some(v) => match base64_decoding(v) {
            Some(b) => b,
            None => Seq::empty(),
        },
        None => Seq::empty(),
    }
}

/// A sound blob split into its header and data (see
/// [`crate::xml::sound_blob`]); both empty when the blob is too short for
/// the header length it declares.
pub open spec fn unpack_sound(blob: Seq<u8>) -> (Seq<u8>, Seq<u8>) {
    if blob.len() < 4 {
        (Seq::empty(), Seq::empty())
    } else {
        let n = le_value(blob, 0, 4);
        if 4 + n > blob.len() {
            (Seq::empty(), Seq::empty())
        } else {
            (blob.subrange(4, 4 + n), blob.subrange(4 + n, blob.len() as int))
        }
    }
}

/// RGBA8888 pixels of a `w`×`h` image as BGRA8888 (red and blue swapped);
/// `None` when there are fewer than `w·h·4` bytes.
pub open spec fn to_bgra8888(rgba: Seq<u8>, w: u32, h: u32) -> Option<Seq<u8>> {
    let n = w * h * 4;
    if rgba.len() < n {
        None
    } else {
        Some(
            Seq::new(
                n as nat,
                |i: int|
                    if i % 4 == 0 {
                        rgba[i + 2]
                    } else if i % 4 == 2 {
                        rgba[i - 2]
                    } else {
                        rgba[i]
                    },
            ),
        )
    }
}

/// The compressed BGRA8888 pixels of a canvas's `basedata` (a standard PNG
/// file in base64); none when it is absent, empty or does not decode.
pub open spec fn canvas_data_of(a: AttrsV) -> Seq<u8> {
    match attr_get(a, "basedata"@) {
        Some(b64) => if b64.len() == 0 {
            Seq::empty()
        } else {
            match base64_decoding(b64) {
                None => Seq::empty(),
                Some(file) => match png_decoding(file) {
                    None => Seq::empty(),
                    Some((w, h, c, raw)) => match to_bgra8888(to_rgba8(c, raw), w, h) {
                        None => Seq::empty(),
                        Some(px) => match zlib_compression(px) {
                            Ok(z) => z,
                            Err(_) => Seq::empty(),
                        },
                    },
                },
            }
        },
        None => Seq::empty(),
    }
}

/// The text of a float or double value, to be read as a number: the value
/// (`0` when absent) with `,` taken as the decimal separator.
pub open spec fn float_source(a: AttrsV) -> Seq<char> {
    replace_all(
        match attr_get(a, "value"@) {
            Some(v) => v,
            None => "0"@,
        },
        ","@,
        "."@,
    )
}

/// A float or double value still to be read from its text.
pub struct FloatText {
    /// Whether it is an `f32` (else an `f64`).
    pub single: bool,
    /// The decimal text.
    pub text: String,
}

pub struct FloatTextV {
    pub single: bool,
    pub text: Seq<char>,
}

/// The property of an empty-element tag, or `None` for an unknown tag. A
/// float or double holds the number `k` of its text among the document's
/// floats, until the texts are read (see [`fill_floats`]).
pub open spec fn leaf_of(tag: Seq<char>, a: AttrsV, k: int) -> Option<(PropV, Option<FloatTextV>)> {
    if tag == "null"@ {
        Some((PropV::Null, None))
    } else if tag == "short"@ {
        Some((PropV::Short(attr_int(a, "value"@, i16::MIN as int, i16::MAX as int) as i16), None))
    } else if tag == "int"@ {
        Some((PropV::Int(attr_int(a, "value"@, i32::MIN as int, i32::MAX as int) as i32), None))
    } else if tag == "long"@ {
        Some((PropV::Long(attr_int(a, "value"@, i64::MIN as int, i64::MAX as int) as i64), None))
    } else if tag == "float"@ {
        Some((PropV::Float(k as u32), Some(FloatTextV { single: true, text: float_source(a) })))
    } else if tag == "double"@ {
        Some((PropV::Double(k as u64), Some(FloatTextV { single: false, text: float_source(a) })))
    } else if tag == "string"@ {
        Some((PropV::String(attr_text(a, "value"@)), None))
    } else if tag == "uol"@ {
        Some((PropV::Uol(attr_text(a, "value"@)), None))
    } else if tag == "vector"@ {
        Some((PropV::Vector {
            x: attr_int(a, "x"@, i32::MIN as int, i32::MAX as int) as i32,
            y: attr_int(a, "y"@, i32::MIN as int, i32::MAX as int) as i32,
        }, None))
    } else if tag == "imgdir"@ {
        Some((PropV::SubProperty(Seq::empty()), None))
    } else if tag == "canvas"@ {
        Some((PropV::Canvas {
            width: attr_int(a, "width"@, i32::MIN as int, i32::MAX as int) as i32,
            height: attr_int(a, "height"@, i32::MIN as int, i32::MAX as int) as i32,
            format: WzPngFormat::Bgra8888,
            scale: 0,
            properties: Seq::empty(),
            png_data: CanvasV::Loaded(canvas_data_of(a)),
        }, None))
    } else if tag == "convex"@ {
        Some((PropV::Convex(Seq::empty()), None))
    } else if tag == "sound"@ {
        let (header, data) = unpack_sound(attr_bytes(a, "basedata"@));
        Some((PropV::Sound {
            duration_ms: attr_int(a, "duration"@, i32::MIN as int, i32::MAX as int) as i32,
            header,
            data,
        }, None))
    } else if tag == "lua"@ {
        Some((PropV::Lua(attr_bytes(a, "basedata"@)), None))
    } else if tag == "rawdata"@ {
        Some((PropV::RawData {
            raw_type: attr_int(a, "type"@, 0, u8::MAX as int) as u8,
            properties: Seq::empty(),
            data: attr_bytes(a, "basedata"@),
        }, None))
    } else if tag == "video"@ {
        Some((PropV::Video {
            video_type: attr_int(a, "type"@, 0, u8::MAX as int) as u8,
            properties: Seq::empty(),
            data_offset: 0,
            data_length: attr_int(a, "dataLength"@, 0, u32::MAX as int) as u32,
            video_data: None,
        }, None))
    } else {
        None
    }
}

/// An element whose children are being read.
pub enum FrameV {
    ImgDir(Seq<char>),
    Canvas { name: Seq<char>, width: i32, height: i32, png_data: Seq<u8> },
    Convex(Seq<char>),
    RawData { name: Seq<char>, raw_type: u8, data: Seq<u8> },
    Video { name: Seq<char>, video_type: u8, data_length: u32 },
}

/// Where the import stands: the open elements with the children read so
/// far, the root's name, the finished top-level entries, and the texts of
/// the floats met.
pub struct ImportV {
    pub stack: Seq<(FrameV, PropList)>,
    pub root: Seq<char>,
    pub result: PropList,
    pub floats: Seq<FloatTextV>,
}

pub open spec fn import_start() -> ImportV {
    ImportV { stack: Seq::empty(), root: "root"@, result: Seq::empty(), floats: Seq::empty() }
}

/// `st` with a finished entry added to the innermost open element, or to
/// the top level when none is open.
pub open spec fn add_entry(st: ImportV, e: (Seq<char>, PropV)) -> ImportV {
    if st.stack.len() == 0 {
        ImportV { result: st.result.push(e), ..st }
    } else {
        let top = st.stack.last();
        ImportV { stack: st.stack.update(st.stack.len() - 1, (top.0, top.1.push(e))), ..st }
    }
}

/// The frame a start tag opens, if its tag has children.
pub open spec fn frame_of(tag: Seq<char>, a: AttrsV) -> Option<FrameV> {
    let name = attr_text(a, "name"@);
    if tag == "imgdir"@ {
        Some(FrameV::ImgDir(name))
    } else if tag == "canvas"@ {
        Some(FrameV::Canvas {
            name,
            width: attr_int(a, "width"@, i32::MIN as int, i32::MAX as int) as i32,
            height: attr_int(a, "height"@, i32::MIN as int, i32::MAX as int) as i32,
            png_data: canvas_data_of(a),
        })
    } else if tag == "convex"@ {
        Some(FrameV::Convex(name))
    } else if tag == "rawdata"@ {
        Some(FrameV::RawData {
            name,
            raw_type: attr_int(a, "type"@, 0, u8::MAX as int) as u8,
            data: attr_bytes(a, "basedata"@),
        })
    } else if tag == "video"@ {
        Some(FrameV::Video {
            name,
            video_type: attr_int(a, "type"@, 0, u8::MAX as int) as u8,
            data_length: attr_int(a, "dataLength"@, 0, u32::MAX as int) as u32,
        })
    } else {
        None
    }
}

/// The entry a closed frame becomes, given its children.
pub open spec fn close_frame(f: FrameV, children: PropList) -> (Seq<char>, PropV) {
    match f {
        FrameV::ImgDir(name) => (name, PropV::SubProperty(children)),
        FrameV::Canvas { name, width, height, png_data } => (name, PropV::Canvas {
            width,
            height,
            format: WzPngFormat::Bgra8888,
            scale: 0,
            properties: children,
            png_data: CanvasV::Loaded(png_data),
        }),
        FrameV::Convex(name) => (name, PropV::Convex(children)),
        FrameV::RawData { name, raw_type, data } => (name, PropV::RawData { raw_type, properties: children, data }),
        FrameV::Video { name, video_type, data_length } => (name, PropV::Video {
            video_type,
            properties: children,
            data_offset: 0,
            data_length,
            video_data: None,
        }),
    }
}

/// One event read: a start tag opens a frame (the first `imgdir` names the
/// root); an empty-element tag adds a leaf (a root `imgdir` with no
/// children only names the root); an end tag closes the innermost frame
/// (closing the root `imgdir` makes its children the result); anything
/// else changes nothing.
pub open spec fn import_step(st: ImportV, ev: XmlEventV) -> ImportV {
    match ev {
        XmlEventV::Element { open, tag, attrs } => {
            let a = attrs_of(attrs);
            let name = attr_text(a, "name"@);
            if open {
                match frame_of(tag, a) {
                    Some(f) => ImportV {
                        stack: st.stack.push((f, Seq::empty())),
                        root: if tag == "imgdir"@ && st.stack.len() == 0 {
                            name
                        } else {
                            st.root
                        },
                        ..st
                    },
                    None => st,
                }
            } else if tag == "imgdir"@ && st.stack.len() == 0 {
                ImportV { root: name, ..st }
            } else {
                match leaf_of(tag, a, st.floats.len() as int) {
                    Some((p, ft)) => {
                        let st2 = add_entry(st, (name, p));
                        match ft {
                            Some(t) => ImportV { floats: st2.floats.push(t), ..st2 },
                            None => st2,
                        }
                    },
                    None => st,
                }
            }
        },
        XmlEventV::End => if st.stack.len() == 0 {
            st
        } else {
            let (f, children) = st.stack.last();
            let rest = ImportV { stack: st.stack.drop_last(), ..st };
            if f is ImgDir && rest.stack.len() == 0 {
                ImportV { result: children, ..rest }
            } else {
                add_entry(rest, close_frame(f, children))
            }
        },
        _ => st,
    }
}

/// Reading `evs` from the state `st` until the end of the document (or of
/// the events); a parser error stops with its message.
pub open spec fn import_run(evs: Seq<XmlEventV>, st: ImportV) -> Result<ImportV, Seq<char>>
    decreases evs.len(),
{
    if evs.len() == 0 {
        Ok(st)
    } else {
        match evs[0] {
            XmlEventV::Eof => Ok(st),
            XmlEventV::Error(m) => Err(m),
            e => import_run(evs.subrange(1, evs.len() as int), import_step(st, e)),
        }
    }
}

/// What importing the events gives: the root's name, the property list and
/// the float texts, or a parse error.
pub open spec fn import_outcome(evs: Seq<XmlEventV>) -> Result<(Seq<char>, PropList, Seq<FloatTextV>), ErrV> {
    match import_run(evs, import_start()) {
        Ok(st) => Ok((st.root, st.result, st.floats)),
        Err(m) => Err(ErrV::Custom("XML parse error: "@ + m)),
    }
}


// ── Reading attributes ──────────────────────────────────────────────────

/// Whether `s` is the text `lit`.
fn text_is(s: &str, lit: &str) -> (r: bool)
    ensures
        r == (s@ == lit@),
{
    chars_eq(str_chars(s).as_slice(), str_chars(lit).as_slice())
}

pub open spec fn attrs_view(a: Seq<(String, String)>) -> AttrsV {
    Seq::new(a.len(), |i: int| (a[i].0@, a[i].1@))
}

/// The attributes that parsed, with their values unescaped (see
/// [`attrs_of`]).
pub fn parsed_attrs(raw: &Vec<Option<(String, String)>>) -> (a: Vec<(String, String)>)
    ensures
        attrs_view(a@) == attrs_of(raw_attrs_view(raw@)),
{
    let mut a: Vec<(String, String)> = Vec::new();
    let mut i: usize = 0;
    while i < raw.len()
        invariant
            0 <= i <= raw.len(),
            attrs_view(a@) == attrs_of(raw_attrs_view(raw@).subrange(0, i as int)),
        decreases raw.len() - i,
    {
        let ghost before = a@;
        proof {
            assert(raw_attrs_view(raw@).subrange(0, i + 1).drop_last() =~= raw_attrs_view(raw@).subrange(0, i as int));
        }
        match &raw[i] {
            Some((k, v)) => {
                let value = unescape_xml_attr(v.as_str());
                a.push((k.clone(), value));
                assert(attrs_view(a@) =~= attrs_view(before).push((k@, unescape_attr(v@))));
            },
            None => {},
        }
        i = i + 1;
    }
    assert(raw_attrs_view(raw@).subrange(0, raw@.len() as int) =~= raw_attrs_view(raw@));
    a
}

/// The value of attribute `key` (the last, of several).
pub fn attr_value(a: &Vec<(String, String)>, key: &str) -> (r: Option<String>)
    ensures
        match attr_get(attrs_view(a@), key@) {
            Some(v) => r matches Some(s) && s@ == v,
            None => r is None,
        },
{
    let mut i = a.len();
    assert(attrs_view(a@).subrange(0, i as int) =~= attrs_view(a@));
    while i > 0
        invariant
            0 <= i <= a.len(),
            attr_get(attrs_view(a@), key@) == attr_get(attrs_view(a@).subrange(0, i as int), key@),
        decreases i,
    {
        let ghost pre = attrs_view(a@).subrange(0, i as int);
        assert(pre.drop_last() =~= attrs_view(a@).subrange(0, i - 1));
        if text_is(a[i - 1].0.as_str(), key) {
            return Some(a[i - 1].1.clone());
        }
        i = i - 1;
    }
    None
}

fn attr_text_of(a: &Vec<(String, String)>, key: &str) -> (r: String)
    ensures
        r@ == attr_text(attrs_view(a@), key@),
{
    match attr_value(a, key) {
        Some(v) => v,
        None => String::new(),
    }
}

fn attr_i16(a: &Vec<(String, String)>, key: &str) -> (r: i16)
    ensures
        r == attr_int(attrs_view(a@), key@, i16::MIN as int, i16::MAX as int),
{
    match attr_value(a, key) {
        Some(v) => match parse_i16(v.as_str()) {
            Some(x) => x,
            None => 0,
        },
        None => 0,
    }
}

fn attr_i32(a: &Vec<(String, String)>, key: &str) -> (r: i32)
    ensures
        r == attr_int(attrs_view(a@), key@, i32::MIN as int, i32::MAX as int),
{
    match attr_value(a, key) {
        Some(v) => match parse_i32(v.as_str()) {
            Some(x) => x,
            None => 0,
        },
        None => 0,
    }
}

fn attr_i64(a: &Vec<(String, String)>, key: &str) -> (r: i64)
    ensures
        r == attr_int(attrs_view(a@), key@, i64::MIN as int, i64::MAX as int),
{
    match attr_value(a, key) {
        Some(v) => match parse_i64(v.as_str()) {
            Some(x) => x,
            None => 0,
        },
        None => 0,
    }
}

fn attr_u8(a: &Vec<(String, String)>, key: &str) -> (r: u8)
    ensures
        r == attr_int(attrs_view(a@), key@, 0, u8::MAX as int),
{
    match attr_value(a, key) {
        Some(v) => match parse_u8(v.as_str()) {
            Some(x) => x,
            None => 0,
        },
        None => 0,
    }
}

fn attr_u32(a: &Vec<(String, String)>, key: &str) -> (r: u32)
    ensures
        r == attr_int(attrs_view(a@), key@, 0, u32::MAX as int),
{
    match attr_value(a, key) {
        Some(v) => match parse_u32(v.as_str()) {
            Some(x) => x,
            None => 0,
        },
        None => 0,
    }
}

/// The bytes attribute `key` holds in base64; none when it is absent or
/// not base64.
pub fn decode_b64_attr(a: &Vec<(String, String)>, key: &str) -> (r: Vec<u8>)
    ensures
        r@ == attr_bytes(attrs_view(a@), key@),
{
    match attr_value(a, key) {
        Some(v) => match decode_base64(v.as_str()) {
            Some(b) => b,
            None => Vec::new(),
        },
        None => Vec::new(),
    }
}

fn copy_range(b: &[u8], start: usize, end: usize) -> (r: Vec<u8>)
    requires
        start <= end <= b.len(),
    ensures
        r@ == b@.subrange(start as int, end as int),
{
    let mut r: Vec<u8> = Vec::new();
    push_all(&mut r, &b[start..end]);
    assert(r@ =~= b@.subrange(start as int, end as int));
    r
}

/// A sound blob split into header and data (see [`unpack_sound`]).
pub fn unpack_sound_blob(blob: &[u8]) -> (r: (Vec<u8>, Vec<u8>))
    ensures
        (r.0@, r.1@) == unpack_sound(blob@),
{
    if blob.len() < 4 {
        return (Vec::new(), Vec::new());
    }
    let n: u64 = blob[0] as u64 + 256 * (blob[1] as u64) + 65536 * (blob[2] as u64) + 16777216 * (blob[3] as u64);
    assert(n == le_value(blob@, 0, 4)) by {
        reveal_with_fuel(le_value, 5);
    }
    if 4 + n > blob.len() as u64 {
        return (Vec::new(), Vec::new());
    }
    let h = n as usize;
    (copy_range(blob, 4, 4 + h), copy_range(blob, 4 + h, blob.len()))
}

/// The header and data of a sound's `basedata` blob (see [`unpack_sound`]).
pub fn unpack_sound_from_attrs(a: &Vec<(String, String)>) -> (r: (Vec<u8>, Vec<u8>))
    ensures
        (r.0@, r.1@) == unpack_sound(attr_bytes(attrs_view(a@), "basedata"@)),
{
    let blob = decode_b64_attr(a, "basedata");
    unpack_sound_blob(blob.as_slice())
}

/// RGBA8888 pixels as BGRA8888 (see [`to_bgra8888`]).
pub fn encode_bgra8888(rgba: &[u8], w: u32, h: u32) -> (r: Option<Vec<u8>>)
    ensures
        match to_bgra8888(rgba@, w, h) {
            Some(v) => r matches Some(o) && o@ == v,
            None => r is None,
        },
{
    proof {
        assert((w as u128) * (h as u128) <= 0xFFFF_FFFF * 0xFFFF_FFFF) by (nonlinear_arith)
            requires
                w <= 0xFFFF_FFFF,
                h <= 0xFFFF_FFFF,
        ;
    }
    let n: u128 = (w as u128) * (h as u128) * 4;
    if (rgba.len() as u128) < n {
        return None;
    }
    let n = n as usize;
    let mut out: Vec<u8> = Vec::new();
    let mut i: usize = 0;
    while i < n
        invariant
            n <= rgba.len(),
            n == w * h * 4,
            i <= n,
            i % 4 == 0,
            n % 4 == 0,
            out@.len() == i,
            forall|j: int|
                0 <= j < i ==> out@[j] == (if j % 4 == 0 {
                    rgba@[j + 2]
                } else if j % 4 == 2 {
                    rgba@[j - 2]
                } else {
                    rgba@[j]
                }),
        decreases n - i,
    {
        out.push(rgba[i + 2]);
        out.push(rgba[i + 1]);
        out.push(rgba[i]);
        out.push(rgba[i + 3]);
        i = i + 4;
    }
    assert(out@ =~= to_bgra8888(rgba@, w, h)->Some_0);
    Some(out)
}

/// A canvas's pixel codec and compressed data from its `basedata` (see
/// [`canvas_data_of`]): always BGRA8888.
pub fn canvas_from_basedata(a: &Vec<(String, String)>) -> (r: (WzPngFormat, Vec<u8>))
    ensures
        r.0 == WzPngFormat::Bgra8888,
        r.1@ == canvas_data_of(attrs_view(a@)),
{
    let b64 = match attr_value(a, "basedata") {
        Some(v) => v,
        None => return (WzPngFormat::Bgra8888, Vec::new()),
    };
    if b64.as_str().is_empty() {
        return (WzPngFormat::Bgra8888, Vec::new());
    }
    let file = match decode_base64(b64.as_str()) {
        Some(b) => b,
        None => return (WzPngFormat::Bgra8888, Vec::new()),
    };
    let (w, h, rgba) = match png_bytes_to_rgba(file.as_slice()) {
        Ok(t) => t,
        Err(_) => return (WzPngFormat::Bgra8888, Vec::new()),
    };
    let px = match encode_bgra8888(rgba.as_slice(), w, h) {
        Some(p) => p,
        None => return (WzPngFormat::Bgra8888, Vec::new()),
    };
    match compress_png_data(px.as_slice()) {
        Ok(z) => (WzPngFormat::Bgra8888, z),
        Err(_) => (WzPngFormat::Bgra8888, Vec::new()),
    }
}

fn float_source_of(a: &Vec<(String, String)>) -> (r: String)
    ensures
        r@ == float_source(attrs_view(a@)),
{
    let v = match attr_value(a, "value") {
        Some(v) => v,
        None => String::from_str("0"),
    };
    let cs = replace_chars(str_chars(v.as_str()).as_slice(), str_chars(",").as_slice(), str_chars(".").as_slice());
    string_from_chars(cs.as_slice())
}


// ── Leaves and frames ───────────────────────────────────────────────────

pub open spec fn float_text_view(f: Option<FloatText>) -> Option<FloatTextV> {
    match f {
        Some(t) => Some(FloatTextV { single: t.single, text: t.text@ }),
        None => None,
    }
}

/// The property of an empty-element tag (see [`leaf_of`]).
pub fn build_leaf(tag: &str, a: &Vec<(String, String)>, k: usize) -> (r: Option<(WzProperty, Option<FloatText>)>)
    ensures
        match leaf_of(tag@, attrs_view(a@), k as int) {
            Some((p, ft)) => r matches Some((q, fq)) && q.model() == p && float_text_view(fq) == ft,
            None => r is None,
        },
{
    let ghost av = attrs_view(a@);
    if text_is(tag, "null") {
        Some((WzProperty::Null, None))
    } else if text_is(tag, "short") {
        Some((WzProperty::Short(attr_i16(a, "value")), None))
    } else if text_is(tag, "int") {
        Some((WzProperty::Int(attr_i32(a, "value")), None))
    } else if text_is(tag, "long") {
        Some((WzProperty::Long(attr_i64(a, "value")), None))
    } else if text_is(tag, "float") {
        Some((WzProperty::Float(k as u32), Some(FloatText { single: true, text: float_source_of(a) })))
    } else if text_is(tag, "double") {
        Some((WzProperty::Double(k as u64), Some(FloatText { single: false, text: float_source_of(a) })))
    } else if text_is(tag, "string") {
        Some((WzProperty::String(attr_text_of(a, "value")), None))
    } else if text_is(tag, "uol") {
        Some((WzProperty::Uol(attr_text_of(a, "value")), None))
    } else if text_is(tag, "vector") {
        Some((WzProperty::Vector { x: attr_i32(a, "x"), y: attr_i32(a, "y") }, None))
    } else if text_is(tag, "imgdir") {
        let p = WzProperty::SubProperty { properties: Vec::new() };
        assert(p.model() == PropV::SubProperty(Seq::empty())) by {
            assert(props_model(Seq::<(String, WzProperty)>::empty()) =~= Seq::<(Seq<char>, PropV)>::empty());
        }
        Some((p, None))
    } else if text_is(tag, "canvas") {
        let width = attr_i32(a, "width");
        let height = attr_i32(a, "height");
        let (format, data) = canvas_from_basedata(a);
        let p = WzProperty::Canvas {
            width,
            height,
            format,
            scale: 0,
            properties: Vec::new(),
            png_data: CanvasData::Loaded(data),
        };
        assert(props_model(Seq::<(String, WzProperty)>::empty()) =~= Seq::<(Seq<char>, PropV)>::empty());
        Some((p, None))
    } else if text_is(tag, "convex") {
        let p = WzProperty::Convex { points: Vec::new() };
        assert(props_model(Seq::<(String, WzProperty)>::empty()) =~= Seq::<(Seq<char>, PropV)>::empty());
        Some((p, None))
    } else if text_is(tag, "sound") {
        let duration_ms = attr_i32(a, "duration");
        let (header, data) = unpack_sound_from_attrs(a);
        Some((WzProperty::Sound { duration_ms, header, data }, None))
    } else if text_is(tag, "lua") {
        Some((WzProperty::Lua(decode_b64_attr(a, "basedata")), None))
    } else if text_is(tag, "rawdata") {
        let raw_type = attr_u8(a, "type");
        let data = decode_b64_attr(a, "basedata");
        assert(props_model(Seq::<(String, WzProperty)>::empty()) =~= Seq::<(Seq<char>, PropV)>::empty());
        Some((WzProperty::RawData { raw_type, properties: Vec::new(), data }, None))
    } else if text_is(tag, "video") {
        let video_type = attr_u8(a, "type");
        let data_length = attr_u32(a, "dataLength");
        assert(props_model(Seq::<(String, WzProperty)>::empty()) =~= Seq::<(Seq<char>, PropV)>::empty());
        Some((WzProperty::Video { video_type, properties: Vec::new(), data_offset: 0, data_length, video_data: None }, None))
    } else {
        None
    }
}

/// An element whose children are being read.
pub enum Frame {
    ImgDir(String),
    Canvas { name: String, width: i32, height: i32, png_data: Vec<u8> },
    Convex(String),
    RawData { name: String, raw_type: u8, data: Vec<u8> },
    Video { name: String, video_type: u8, data_length: u32 },
}

impl Frame {
    pub open spec fn model(&self) -> FrameV {
        match self {
            Frame::ImgDir(n) => FrameV::ImgDir(n@),
            Frame::Canvas { name, width, height, png_data } => FrameV::Canvas {
                name: name@,
                width: *width,
                height: *height,
                png_data: png_data@,
            },
            Frame::Convex(n) => FrameV::Convex(n@),
            Frame::RawData { name, raw_type, data } => FrameV::RawData { name: name@, raw_type: *raw_type, data: data@ },
            Frame::Video { name, video_type, data_length } => FrameV::Video {
                name: name@,
                video_type: *video_type,
                data_length: *data_length,
            },
        }
    }
}

/// The frame a start tag opens (see [`frame_of`]).
fn open_frame(tag: &str, a: &Vec<(String, String)>) -> (r: Option<Frame>)
    ensures
        match frame_of(tag@, attrs_view(a@)) {
            Some(f) => r matches Some(g) && g.model() == f,
            None => r is None,
        },
{
    if text_is(tag, "imgdir") {
        Some(Frame::ImgDir(attr_text_of(a, "name")))
    } else if text_is(tag, "canvas") {
        let name = attr_text_of(a, "name");
        let width = attr_i32(a, "width");
        let height = attr_i32(a, "height");
        let (_, png_data) = canvas_from_basedata(a);
        Some(Frame::Canvas { name, width, height, png_data })
    } else if text_is(tag, "convex") {
        Some(Frame::Convex(attr_text_of(a, "name")))
    } else if text_is(tag, "rawdata") {
        let name = attr_text_of(a, "name");
        let raw_type = attr_u8(a, "type");
        let data = decode_b64_attr(a, "basedata");
        Some(Frame::RawData { name, raw_type, data })
    } else if text_is(tag, "video") {
        let name = attr_text_of(a, "name");
        let video_type = attr_u8(a, "type");
        let data_length = attr_u32(a, "dataLength");
        Some(Frame::Video { name, video_type, data_length })
    } else {
        None
    }
}

/// The entry a closed frame becomes (see [`close_frame`]).
fn frame_entry(f: Frame, children: Vec<(String, WzProperty)>) -> (r: (String, WzProperty))
    ensures
        (r.0@, r.1.model()) == close_frame(f.model(), props_model(children@)),
{
    match f {
        Frame::ImgDir(name) => (name, WzProperty::SubProperty { properties: children }),
        Frame::Canvas { name, width, height, png_data } => (name, WzProperty::Canvas {
            width,
            height,
            format: WzPngFormat::Bgra8888,
            scale: 0,
            properties: children,
            png_data: CanvasData::Loaded(png_data),
        }),
        Frame::Convex(name) => (name, WzProperty::Convex { points: children }),
        Frame::RawData { name, raw_type, data } => (name, WzProperty::RawData { raw_type, properties: children, data }),
        Frame::Video { name, video_type, data_length } => (name, WzProperty::Video {
            video_type,
            properties: children,
            data_offset: 0,
            data_length,
            video_data: None,
        }),
    }
}


// ── The import state machine ────────────────────────────────────────────

/// Where an import stands (see [`ImportV`]).
pub struct ImportState {
    pub stack: Vec<(Frame, Vec<(String, WzProperty)>)>,
    pub root: String,
    pub result: Vec<(String, WzProperty)>,
    pub floats: Vec<FloatText>,
}

pub open spec fn stack_view(s: Seq<(Frame, Vec<(String, WzProperty)>)>) -> Seq<(FrameV, PropList)> {
    Seq::new(s.len(), |i: int| (s[i].0.model(), props_model(s[i].1@)))
}

pub open spec fn floats_view(f: Seq<FloatText>) -> Seq<FloatTextV> {
    Seq::new(f.len(), |i: int| FloatTextV { single: f[i].single, text: f[i].text@ })
}

impl ImportState {
    pub open spec fn model(&self) -> ImportV {
        ImportV {
            stack: stack_view(self.stack@),
            root: self.root@,
            result: props_model(self.result@),
            floats: floats_view(self.floats@),
        }
    }
}

fn add_entry_to(st: &mut ImportState, name: String, p: WzProperty)
    ensures
        final(st).model() == add_entry(old(st).model(), (name@, p.model())),
{
    let ghost e = (name@, p.model());
    if st.stack.len() == 0 {
        let ghost before = st.result@;
        st.result.push((name, p));
        proof {
            lemma_props_model_push(before, (name, p));
        }
    } else {
        let ghost sv = stack_view(st.stack@);
        let (f, mut ch) = st.stack.pop().unwrap();
        let ghost old_ch = ch@;
        ch.push((name, p));
        proof {
            lemma_props_model_push(old_ch, (name, p));
        }
        st.stack.push((f, ch));
        assert(stack_view(st.stack@) =~= sv.update(sv.len() - 1, (sv.last().0, sv.last().1.push(e))));
    }
}

fn step_element(st: &mut ImportState, open: bool, tag: &String, raw: &Vec<Option<(String, String)>>)
    ensures
        final(st).model() == import_step(old(st).model(), XmlEventV::Element { open, tag: tag@, attrs: raw_attrs_view(raw@) }),
{
    let a = parsed_attrs(raw);
    let ghost av = attrs_view(a@);
    let name = attr_text_of(&a, "name");
    if open {
        match open_frame(tag.as_str(), &a) {
            Some(f) => {
                let ghost sv = stack_view(st.stack@);
                let ghost fv = f.model();
                if text_is(tag.as_str(), "imgdir") && st.stack.len() == 0 {
                    st.root = name;
                }
                st.stack.push((f, Vec::new()));
                assert(props_model(Seq::<(String, WzProperty)>::empty()) =~= Seq::<(Seq<char>, PropV)>::empty());
                assert(stack_view(st.stack@) =~= sv.push((fv, Seq::empty())));
            },
            None => {},
        }
    } else if text_is(tag.as_str(), "imgdir") && st.stack.len() == 0 {
        st.root = name;
    } else {
        match build_leaf(tag.as_str(), &a, st.floats.len()) {
            Some((p, ft)) => {
                add_entry_to(st, name, p);
                match ft {
                    Some(t) => {
                        let ghost fv = floats_view(st.floats@);
                        let ghost tv = FloatTextV { single: t.single, text: t.text@ };
                        st.floats.push(t);
                        assert(floats_view(st.floats@) =~= fv.push(tv));
                    },
                    None => {},
                }
            },
            None => {},
        }
    }
}

fn step_end(st: &mut ImportState)
    ensures
        final(st).model() == import_step(old(st).model(), XmlEventV::End),
{
    if st.stack.len() == 0 {
        return;
    }
    let ghost sv = stack_view(st.stack@);
    let (f, ch) = st.stack.pop().unwrap();
    assert(stack_view(st.stack@) =~= sv.drop_last());
    let is_dir = match &f {
        Frame::ImgDir(_) => true,
        _ => false,
    };
    if is_dir && st.stack.len() == 0 {
        st.result = ch;
    } else {
        let (name, p) = frame_entry(f, ch);
        add_entry_to(st, name, p);
    }
}

/// Reads events until the end of the document (see [`import_outcome`]):
/// the root's name, the property list, and the texts of its floats and
/// doubles, which hold the numbers of their texts until they are read
/// (see [`fill_floats`]). A parser error is a `Custom` error.
pub fn import_events(events: &[XmlEvent]) -> (r: WzResult<(String, Vec<(String, WzProperty)>, Vec<FloatText>)>)
    ensures
        match import_outcome(Seq::new(events@.len(), |i: int| events@[i].model())) {
            Ok((root, props, floats)) => r matches Ok((rr, rp, rf)) && rr@ == root && props_model(rp@) == props
                && floats_view(rf@) == floats,
            Err(e) => r matches Err(err) && err@ == e,
        },
{
    let ghost evs = Seq::new(events@.len(), |i: int| events@[i].model());
    let mut st = ImportState {
        stack: Vec::new(),
        root: String::from_str("root"),
        result: Vec::new(),
        floats: Vec::new(),
    };
    proof {
        assert(stack_view(st.stack@) =~= Seq::<(FrameV, PropList)>::empty());
        assert(props_model(st.result@) =~= Seq::<(Seq<char>, PropV)>::empty());
        assert(floats_view(st.floats@) =~= Seq::<FloatTextV>::empty());
        assert(evs.subrange(0, evs.len() as int) =~= evs);
    }
    let mut i: usize = 0;
    while i < events.len()
        invariant
            0 <= i <= events.len(),
            evs == Seq::new(events@.len(), |j: int| events@[j].model()),
            import_run(evs, import_start()) == import_run(evs.subrange(i as int, evs.len() as int), st.model()),
        decreases events.len() - i,
    {
        let ghost rest = evs.subrange(i as int, evs.len() as int);
        assert(rest[0] == events@[i as int].model());
        assert(rest.subrange(1, rest.len() as int) =~= evs.subrange(i + 1, evs.len() as int));
        match &events[i] {
            XmlEvent::Eof => {
                return Ok((st.root, st.result, st.floats));
            },
            XmlEvent::Error(m) => {
                let mut msg = str_chars("XML parse error: ");
                push_all(&mut msg, str_chars(m.as_str()).as_slice());
                return Err(WzError::Custom(string_from_chars(msg.as_slice())));
            },
            XmlEvent::Element { open, tag, attrs } => {
                step_element(&mut st, *open, tag, attrs);
            },
            XmlEvent::End => {
                step_end(&mut st);
            },
            XmlEvent::Other => {},
        }
        i = i + 1;
    }
    assert(evs.subrange(i as int, evs.len() as int).len() == 0);
    Ok((st.root, st.result, st.floats))
}


// ── Reading the document ────────────────────────────────────────────────

#[verifier::external_type_specification]
#[verifier::external_body]
#[verifier::reject_recursive_types(R)]
pub struct ExXmlReader<R>(quick_xml::Reader<R>);

/// The events that quick-xml's reader, made by `Reader::from_str` with its
/// default settings, gives for the document `doc`, each converted as
/// [`next_event`] does, in order, up to and including the first end of the
/// document or error.
pub uninterp spec fn xml_event_stream(doc: Seq<char>) -> Seq<XmlEventV>;

/// The events that the reader `r` has yet to give, up to and including the
/// first end of the document or error.
pub uninterp spec fn reader_pending(r: quick_xml::Reader<&[u8]>) -> Seq<XmlEventV>;

/// An event that ends reading: the end of the document or an error.
pub open spec fn ends_stream(e: XmlEventV) -> bool {
    e is Eof || e is Error
}

/// A stream of events that ends with its first end of the document or
/// error.
pub open spec fn closed_stream(evs: Seq<XmlEventV>) -> bool {
    &&& evs.len() > 0
    &&& ends_stream(evs.last())
    &&& forall|i: int| 0 <= i < evs.len() - 1 ==> !ends_stream(#[trigger] evs[i])
}

/// quick-xml's `Reader::from_str`: a reader over the document. What it will
/// give is the document's event stream, which ends with its first end of the
/// document or error (the reader moves on at each other event, and gives
/// `Eof` at the end of its input).
#[verifier::external_body]
fn xml_reader<'a>(xml: &'a str) -> (r: quick_xml::Reader<&'a [u8]>)
    ensures
        reader_pending(r) == xml_event_stream(xml@),
        closed_stream(reader_pending(r)),
{
    quick_xml::Reader::from_str(xml)
}

/// quick-xml's `Reader::read_event`, the event converted: start and
/// empty-element tags with their name and attributes (key and raw value,
/// `None` for one that does not parse), end tags, the end of the document,
/// an error with its message, or any other event. It gives the first of the
/// pending events, which then leaves the stream.
#[verifier::external_body]
fn next_event(reader: &mut quick_xml::Reader<&[u8]>) -> (e: XmlEvent)
    requires
        reader_pending(*old(reader)).len() > 0,
    ensures
        e.model() == reader_pending(*old(reader))[0],
        reader_pending(*final(reader)) == reader_pending(*old(reader)).drop_first(),
{
    let (open, e) = match reader.read_event() {
        Ok(quick_xml::events::Event::Start(e)) => (true, e),
        Ok(quick_xml::events::Event::Empty(e)) => (false, e),
        Ok(quick_xml::events::Event::End(_)) => return XmlEvent::End,
        Ok(quick_xml::events::Event::Eof) => return XmlEvent::Eof,
        Ok(_) => return XmlEvent::Other,
        Err(err) => return XmlEvent::Error(err.to_string()),
    };
    let tag = e.name().as_ref().to_string();
    let attrs = e.attributes().map(|a| a.ok().map(|a| (a.key.as_ref().to_string(), a.value.into_owned()))).collect();
    XmlEvent::Element { open, tag, attrs }
}

pub open spec fn events_view(evs: Seq<XmlEvent>) -> Seq<XmlEventV> {
    Seq::new(evs.len(), |i: int| evs[i].model())
}

/// Parses a WZ XML document back into `(image name, property list, float
/// texts)`: the document's event stream is imported as [`import_events`]
/// says. Floats and doubles hold the numbers of their texts until the texts
/// are read as numbers and put in place with [`fill_floats`].
pub fn import_wz_xml(xml: &str) -> (r: WzResult<(String, Vec<(String, WzProperty)>, Vec<FloatText>)>)
    ensures
        match import_outcome(xml_event_stream(xml@)) {
            Ok((root, props, floats)) => r matches Ok((rr, rp, rf)) && rr@ == root && props_model(rp@) == props
                && floats_view(rf@) == floats,
            Err(e) => r matches Err(err) && err@ == e,
        },
{
    let mut reader = xml_reader(xml);
    let mut events: Vec<XmlEvent> = Vec::new();
    let ghost stream = xml_event_stream(xml@);
    loop
        invariant_except_break
            events_view(events@) + reader_pending(reader) == stream,
            reader_pending(reader).len() > 0,
            forall|i: int| 0 <= i < events@.len() ==> !ends_stream(#[trigger] events_view(events@)[i]),
        invariant
            closed_stream(stream),
        ensures
            events_view(events@) == stream,
        decreases reader_pending(reader).len(),
    {
        let ghost before = events_view(events@);
        let ghost pend = reader_pending(reader);
        let ev = next_event(&mut reader);
        let last = match ev {
            XmlEvent::Eof => true,
            XmlEvent::Error(_) => true,
            _ => false,
        };
        events.push(ev);
        proof {
            assert(events_view(events@) =~= before.push(pend[0]));
            assert(events_view(events@) + reader_pending(reader) =~= before + pend);
        }
        if last {
            proof {
                assert(stream[before.len() as int] == pend[0]);
                assert(events_view(events@) =~= stream);
            }
            break;
        }
        proof {
            assert(stream[before.len() as int] == pend[0]);
            if reader_pending(reader).len() == 0 {
                assert(stream.len() == before.len() + 1);
                assert(stream.last() == pend[0]);
            }
        }
    }
    let r = import_events(events.as_slice());
    assert(events_view(events@) =~= Seq::new(events@.len(), |i: int| events@[i].model()));
    r
}

// ── Putting the floats in ───────────────────────────────────────────────

/// Bit pattern number `k`, or 0 when there is none.
pub open spec fn bits_at(bits: Seq<u64>, k: int) -> u64 {
    if 0 <= k < bits.len() {
        bits[k]
    } else {
        0
    }
}

/// A property with each float `k` set to the `f32` bits `bits[k]` (the low
/// 32 bits) and each double `k` to the `f64` bits `bits[k]`.
pub open spec fn filled(p: PropV, bits: Seq<u64>) -> PropV
    decreases p, 0int,
{
    match p {
        PropV::Float(k) => PropV::Float(bits_at(bits, k as int) as u32),
        PropV::Double(k) => PropV::Double(bits_at(bits, k as int)),
        PropV::SubProperty(ch) => PropV::SubProperty(filled_list(ch, 0, bits)),
        PropV::Canvas { width, height, format, scale, properties, png_data } => PropV::Canvas {
            width,
            height,
            format,
            scale,
            properties: filled_list(properties, 0, bits),
            png_data,
        },
        PropV::Convex(points) => PropV::Convex(filled_list(points, 0, bits)),
        PropV::RawData { raw_type, properties, data } => PropV::RawData {
            raw_type,
            properties: filled_list(properties, 0, bits),
            data,
        },
        PropV::Video { video_type, properties, data_offset, data_length, video_data } => PropV::Video {
            video_type,
            properties: filled_list(properties, 0, bits),
            data_offset,
            data_length,
            video_data,
        },
        _ => p,
    }
}

/// The entries of `l` from index `i` on, each [`filled`].
pub open spec fn filled_list(l: PropList, i: int, bits: Seq<u64>) -> PropList
    decreases l, l.len() - i,
{
    if i < 0 || i >= l.len() {
        Seq::empty()
    } else {
        proof {
            assert(decreases_to!(l => l[i]));
        }
        seq![(l[i].0, filled(l[i].1, bits))] + filled_list(l, i + 1, bits)
    }
}

proof fn lemma_filled_list(l: PropList, i: int, bits: Seq<u64>)
    requires
        0 <= i <= l.len(),
    ensures
        filled_list(l, i, bits).len() == l.len() - i,
        forall|k: int|
            0 <= k < l.len() - i ==> #[trigger] filled_list(l, i, bits)[k] == (l[i + k].0, filled(l[i + k].1, bits)),
    decreases l.len() - i,
{
    if i < l.len() {
        lemma_filled_list(l, i + 1, bits);
        let f = filled_list(l, i, bits);
        assert forall|k: int| 0 <= k < l.len() - i implies #[trigger] f[k] == (l[i + k].0, filled(l[i + k].1, bits)) by {
            if k > 0 {
                assert(f[k] == filled_list(l, i + 1, bits)[k - 1]);
            }
        }
    }
}

fn fill_prop(p: WzProperty, bits: &[u64]) -> (r: WzProperty)
    ensures
        r.model() == filled(p.model(), bits@),
    decreases p, 1int,
{
    match p {
        WzProperty::Float(k) => {
            let b: u64 = if (k as usize) < bits.len() { bits[k as usize] } else { 0 };
            WzProperty::Float(b as u32)
        },
        WzProperty::Double(k) => {
            let b: u64 = if k < bits.len() as u64 { bits[k as usize] } else { 0 };
            WzProperty::Double(b)
        },
        WzProperty::SubProperty { properties } => WzProperty::SubProperty { properties: fill_list(properties, bits) },
        WzProperty::Canvas { width, height, format, scale, properties, png_data } => WzProperty::Canvas {
            width,
            height,
            format,
            scale,
            properties: fill_list(properties, bits),
            png_data,
        },
        WzProperty::Convex { points } => WzProperty::Convex { points: fill_list(points, bits) },
        WzProperty::RawData { raw_type, properties, data } => WzProperty::RawData {
            raw_type,
            properties: fill_list(properties, bits),
            data,
        },
        WzProperty::Video { video_type, properties, data_offset, data_length, video_data } => WzProperty::Video {
            video_type,
            properties: fill_list(properties, bits),
            data_offset,
            data_length,
            video_data,
        },
        other => other,
    }
}

fn fill_list(entries: Vec<(String, WzProperty)>, bits: &[u64]) -> (r: Vec<(String, WzProperty)>)
    ensures
        props_model(r@) == filled_list(props_model(entries@), 0, bits@),
    decreases entries, 0int,
{
    let ghost orig = entries@;
    let mut list = entries;
    let mut i: usize = 0;
    while i < list.len()
        invariant
            0 <= i <= list.len(),
            list@.len() == orig.len(),
            orig == entries@,
            forall|j: int| i <= j < orig.len() ==> #[trigger] list@[j] == orig[j],
            forall|j: int|
                0 <= j < i ==> (#[trigger] list@[j]).0@ == orig[j].0@ && list@[j].1.model() == filled(orig[j].1.model(), bits@),
        decreases orig.len() - i,
    {
        let (name, p) = list.remove(i);
        proof {
            assert(decreases_to!(entries => entries@));
            assert(decreases_to!(entries@ => entries@[i as int]));
            assert(decreases_to!(entries@[i as int] => entries@[i as int].1));
        }
        let q = fill_prop(p, bits);
        list.insert(i, (name, q));
        i = i + 1;
    }
    proof {
        lemma_props_model(list@);
        lemma_props_model(orig);
        lemma_filled_list(props_model(orig), 0, bits@);
        assert(props_model(list@) =~= filled_list(props_model(orig), 0, bits@));
    }
    list
}

/// Puts the values of the floats in: each float or double numbered `k`
/// (see [`import_wz_xml`]) gets the bit pattern `bits[k]` (for a float, its
/// low 32 bits; 0 when `bits` has no such entry).
pub fn fill_floats(props: Vec<(String, WzProperty)>, bits: &[u64]) -> (r: Vec<(String, WzProperty)>)
    ensures
        props_model(r@) == filled_list(props_model(props@), 0, bits@),
{
    fill_list(props, bits)
}


/// A sound's header and data, packed into a blob as the export writes it
/// and written in base64, read back as the import reads them: the same
/// header and data (for a header shorter than 2^32 bytes, as its length is
/// stored in 32 bits).
pub proof fn lemma_sound_roundtrip(header: Seq<u8>, data: Seq<u8>)
    requires
        header.len() < 0x1_0000_0000,
    ensures
        base64_decoding(base64_encoding(crate::xml::sound_blob(header, data))) == Some(crate::xml::sound_blob(header, data)),
        unpack_sound(crate::xml::sound_blob(header, data)) == (header, data),
{
    let blob = crate::xml::sound_blob(header, data);
    lemma_base64_roundtrip(blob);
    let n = header.len() as u32;
    assert((header.len() % 0x1_0000_0000) as u32 == n);
    assert(le_value(blob, 0, 4) == (n % 256) + 256 * ((n / 256) % 256) + 65536 * ((n / 65536) % 256) + 16777216 * (n / 16777216)) by {
        reveal_with_fuel(le_value, 5);
    }
    assert((n % 256) + 256 * ((n / 256) % 256) + 65536 * ((n / 65536) % 256) + 16777216 * (n / 16777216) == n) by (nonlinear_arith)
        requires
            0 <= n < 0x1_0000_0000,
    ;
    assert(blob.subrange(4, 4 + header.len() as int) =~= header);
    assert(blob.subrange(4 + header.len() as int, blob.len() as int) =~= data);
}

} // verus!
