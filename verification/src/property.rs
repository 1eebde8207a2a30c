//! The WZ property tree and its mathematical model.
use vstd::prelude::*;
use std::sync::Arc;
use crate::types::WzPngFormat;

verus! {

/// Compressed pixel data of a canvas: owned bytes, or a byte range of a
/// shared source buffer (zero-copy).
#[derive(Debug, Clone)]
pub enum CanvasData {
    Loaded(Vec<u8>),
    Ref { src: Arc<Vec<u8>>, offset: usize, len: usize },
}

/// One node of an image's property tree. Floating-point values are held as
/// their IEEE-754 bit patterns.
#[derive(Debug)]
pub enum WzProperty {
    Null,
    Short(i16),
    Int(i32),
    Long(i64),
    /// An `f32`, as `f32::to_bits`.
    Float(u32),
    /// An `f64`, as `f64::to_bits`.
    Double(u64),
    String(String),
    SubProperty { properties: Vec<(String, WzProperty)> },
    Canvas {
        width: i32,
        height: i32,
        format: WzPngFormat,
        scale: u8,
        properties: Vec<(String, WzProperty)>,
        png_data: CanvasData,
    },
    Vector { x: i32, y: i32 },
    Convex { points: Vec<(String, WzProperty)> },
    Sound { duration_ms: i32, header: Vec<u8>, data: Vec<u8> },
    Uol(String),
    Lua(Vec<u8>),
    RawData { raw_type: u8, properties: Vec<(String, WzProperty)>, data: Vec<u8> },
    Video {
        video_type: u8,
        properties: Vec<(String, WzProperty)>,
        data_offset: u64,
        data_length: u32,
        video_data: Option<Vec<u8>>,
    },
}

/// Model of [`CanvasData`].
pub enum CanvasV {
    Loaded(Seq<u8>),
    Ref { src: Seq<u8>, offset: nat, len: nat },
}

/// Model of [`WzProperty`]: strings as character sequences, byte buffers as
/// byte sequences, child lists as sequences of (name, child).
pub enum PropV {
    Null,
    Short(i16),
    Int(i32),
    Long(i64),
    Float(u32),
    Double(u64),
    String(Seq<char>),
    SubProperty(Seq<(Seq<char>, PropV)>),
    Canvas {
        width: i32,
        height: i32,
        format: WzPngFormat,
        scale: u8,
        properties: Seq<(Seq<char>, PropV)>,
        png_data: CanvasV,
    },
    Vector { x: i32, y: i32 },
    Convex(Seq<(Seq<char>, PropV)>),
    Sound { duration_ms: i32, header: Seq<u8>, data: Seq<u8> },
    Uol(Seq<char>),
    Lua(Seq<u8>),
    RawData { raw_type: u8, properties: Seq<(Seq<char>, PropV)>, data: Seq<u8> },
    Video {
        video_type: u8,
        properties: Seq<(Seq<char>, PropV)>,
        data_offset: u64,
        data_length: u32,
        video_data: Option<Seq<u8>>,
    },
}

/// A list of named properties.
pub type PropList = Seq<(Seq<char>, PropV)>;

impl CanvasData {
    pub open spec fn model(&self) -> CanvasV {
        match self {
            CanvasData::Loaded(v) => CanvasV::Loaded(v@),
            CanvasData::Ref { src, offset, len } => CanvasV::Ref {
                src: (**src)@,
                offset: *offset as nat,
                len: *len as nat,
            },
        }
    }
}

/// Whether the compressed data of a canvas refers to bytes that exist.
pub open spec fn canvas_range_ok(c: CanvasV) -> bool {
    match c {
        CanvasV::Loaded(_) => true,
        CanvasV::Ref { src, offset, len } => offset + len <= src.len(),
    }
}

impl CanvasData {
    /// The compressed bytes: the owned buffer, or the range of the shared source.
    pub fn as_bytes(&self) -> (b: &[u8])
        requires
            canvas_range_ok(self.model()),
        ensures
            b@ == canvas_bytes(self.model()),
    {
        match self {
            CanvasData::Loaded(v) => v.as_slice(),
            CanvasData::Ref { src, offset, len } => {
                let whole: &Vec<u8> = &**src;
                let n = whole.len();
                assert(*offset + *len <= n);
                &whole.as_slice()[*offset..*offset + *len]
            },
        }
    }
}

/// The bytes a canvas's compressed data stands for.
pub open spec fn canvas_bytes(c: CanvasV) -> Seq<u8> {
    match c {
        CanvasV::Loaded(v) => v,
        CanvasV::Ref { src, offset, len } => src.subrange(offset as int, (offset + len) as int),
    }
}

impl WzProperty {
    pub open spec fn model(&self) -> PropV
        decreases self,
    {
        match self {
            WzProperty::Null => PropV::Null,
            WzProperty::Short(v) => PropV::Short(*v),
            WzProperty::Int(v) => PropV::Int(*v),
            WzProperty::Long(v) => PropV::Long(*v),
            WzProperty::Float(v) => PropV::Float(*v),
            WzProperty::Double(v) => PropV::Double(*v),
            WzProperty::String(s) => PropV::String(s@),
            WzProperty::SubProperty { properties } => PropV::SubProperty(props_model(properties@)),
            WzProperty::Canvas { width, height, format, scale, properties, png_data } => PropV::Canvas {
                width: *width,
                height: *height,
                format: *format,
                scale: *scale,
                properties: props_model(properties@),
                png_data: png_data.model(),
            },
            WzProperty::Vector { x, y } => PropV::Vector { x: *x, y: *y },
            WzProperty::Convex { points } => PropV::Convex(props_model(points@)),
            WzProperty::Sound { duration_ms, header, data } => PropV::Sound {
                duration_ms: *duration_ms,
                header: header@,
                data: data@,
            },
            WzProperty::Uol(s) => PropV::Uol(s@),
            WzProperty::Lua(v) => PropV::Lua(v@),
            WzProperty::RawData { raw_type, properties, data } => PropV::RawData {
                raw_type: *raw_type,
                properties: props_model(properties@),
                data: data@,
            },
            WzProperty::Video { video_type, properties, data_offset, data_length, video_data } => PropV::Video {
                video_type: *video_type,
                properties: props_model(properties@),
                data_offset: *data_offset,
                data_length: *data_length,
                video_data: match video_data {
                    Some(v) => Some(v@),
                    None => None,
                },
            },
        }
    }
}

/// Model of a list of named properties.
pub open spec fn props_model(s: Seq<(String, WzProperty)>) -> PropList
    decreases s,
{
    if s.len() == 0 {
        Seq::empty()
    } else {
        let last = s[s.len() - 1];
        props_model(s.subrange(0, s.len() - 1)).push((last.0@, last.1.model()))
    }
}

/// The model of a list has the same length, and element `i` is the model of
/// element `i`.
pub proof fn lemma_props_model(s: Seq<(String, WzProperty)>)
    ensures
        props_model(s).len() == s.len(),
        forall|i: int| 0 <= i < s.len() ==> #[trigger] props_model(s)[i] == (s[i].0@, s[i].1.model()),
    decreases s.len(),
{
    if s.len() > 0 {
        lemma_props_model(s.subrange(0, s.len() - 1));
    }
}

/// Appending an element appends its model.
pub proof fn lemma_props_model_push(s: Seq<(String, WzProperty)>, e: (String, WzProperty))
    ensures
        props_model(s.push(e)) == props_model(s).push((e.0@, e.1.model())),
{
    assert(s.push(e).subrange(0, s.len() as int) =~= s);
}

} // verus!
