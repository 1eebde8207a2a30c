//! Editing an image's property tree at a path: setting a node's value,
//! adding, replacing or removing a child, and replacing a canvas's pixels.
use vstd::prelude::*;
use crate::error::{ErrV, WzError};
use crate::property::{WzProperty, PropV, PropList, CanvasData, CanvasV, props_model, lemma_props_model};
use crate::tree::{children_of, kind_name, lookup_children, str_path_view, prop_type_name};
use crate::typed::{ScriptValue, typed_outcome, untyped_outcome, typed_property, untyped_property, out_of_range, out_of_range_text, range_error, message};
use crate::types::WzPngFormat;
use crate::xml_import::{to_bgra8888, encode_bgra8888};
use crate::inflate::{zlib_compression, compress_png_data, decompress_png_data, blocks_sized, sp_inflate_input, decompressed};
use crate::image::{dims_ok, spec_decode_pixels, decode_pixels, decoded_image, zero_padded, spec_decode_canvas_pixels, decode_canvas_pixels};
use crate::canvas_png::canvas_decodable;
use crate::property::{canvas_range_ok, canvas_bytes};
use crate::text::{str_chars, chars_eq, string_from_chars, push_all};

verus! {

/// One change to a node of a property tree.
pub enum NodeEdit {
    /// Set the node's value, keeping its variant where the value fits it.
    SetValue(ScriptValue),
    /// Add the child `name`, or replace the first child so named; the value
    /// is converted under the type hint when one is given.
    Add { name: String, hint: Option<String>, value: ScriptValue },
    /// Remove every child so named.
    Remove(String),
    /// Replace a canvas's pixels with RGBA8888 bytes, stored as BGRA8888.
    ReplaceCanvas { rgba: Vec<u8>, width: u32, height: u32 },
}

/// Model of [`NodeEdit`].
pub enum EditV {
    SetValue(ScriptValue),
    Add { name: Seq<char>, hint: Option<Seq<char>>, value: ScriptValue },
    Remove(Seq<char>),
    ReplaceCanvas { rgba: Seq<u8>, width: u32, height: u32 },
}

impl View for NodeEdit {
    type V = EditV;

    open spec fn view(&self) -> EditV {
        match self {
            NodeEdit::SetValue(v) => EditV::SetValue(*v),
            NodeEdit::Add { name, hint, value } => EditV::Add {
                name: name@,
                hint: match hint {
                    Some(h) => Some(h@),
                    None => None,
                },
                value: *value,
            },
            NodeEdit::Remove(name) => EditV::Remove(name@),
            NodeEdit::ReplaceCanvas { rgba, width, height } => EditV::ReplaceCanvas { rgba: rgba@, width: *width, height: *height },
        }
    }
}

/// Why an edit was refused.
#[derive(Debug)]
pub enum EditError {
    /// No node at the path.
    NotFound,
    /// Children were to be added or removed at a node without children (its type name).
    Leaf(String),
    /// The node is not a canvas (its type name).
    NotCanvas(String),
    /// The value does not fit (the message).
    Invalid(String),
    /// Fewer RGBA bytes than width × height × 4.
    ShortPixels,
    /// The pixels could not be compressed (the compressor's error).
    CompressFailed(WzError),
}

/// Model of [`EditError`].
pub enum EditErrV {
    NotFound,
    Leaf(Seq<char>),
    NotCanvas(Seq<char>),
    Invalid(Seq<char>),
    ShortPixels,
    CompressFailed(ErrV),
}

impl View for EditError {
    type V = EditErrV;

    open spec fn view(&self) -> EditErrV {
        match self {
            EditError::NotFound => EditErrV::NotFound,
            EditError::Leaf(k) => EditErrV::Leaf(k@),
            EditError::NotCanvas(k) => EditErrV::NotCanvas(k@),
            EditError::Invalid(m) => EditErrV::Invalid(m@),
            EditError::ShortPixels => EditErrV::ShortPixels,
            EditError::CompressFailed(e) => EditErrV::CompressFailed(e@),
        }
    }
}

/// A container property with its children replaced by `ch`; any other
/// property unchanged.
pub open spec fn with_children(p: PropV, ch: PropList) -> PropV {
    match p {
        PropV::SubProperty(_) => PropV::SubProperty(ch),
        PropV::Canvas { width, height, format, scale, png_data, .. } => PropV::Canvas {
            width,
            height,
            format,
            scale,
            properties: ch,
            png_data,
        },
        PropV::Video { video_type, data_offset, data_length, video_data, .. } => PropV::Video {
            video_type,
            properties: ch,
            data_offset,
            data_length,
            video_data,
        },
        PropV::Convex(_) => PropV::Convex(ch),
        PropV::RawData { raw_type, data, .. } => PropV::RawData { raw_type, properties: ch, data },
        _ => p,
    }
}

/// `ch` with the first entry named `name` given the value `q`, or with
/// `(name, q)` appended when no entry is so named.
pub open spec fn upsert(ch: PropList, name: Seq<char>, q: PropV) -> PropList
    decreases ch.len(),
{
    if ch.len() == 0 {
        seq![(name, q)]
    } else if ch[0].0 == name {
        ch.update(0, (name, q))
    } else {
        seq![ch[0]] + upsert(ch.subrange(1, ch.len() as int), name, q)
    }
}

/// `ch` without the entries named `name`, the others in order.
pub open spec fn without(ch: PropList, name: Seq<char>) -> PropList
    decreases ch.len(),
{
    if ch.len() == 0 {
        ch
    } else if ch.last().0 == name {
        without(ch.drop_last(), name)
    } else {
        without(ch.drop_last(), name).push(ch.last())
    }
}

/// The type a node's new integer value must fit: the node's own type for a
/// short or a long, else an int.
pub open spec fn int_kind(p: PropV) -> Seq<char> {
    match p {
        PropV::Short(_) => "Short (-32768..=32767)"@,
        PropV::Long(_) => "Long (-9223372036854775808..=9223372036854775807)"@,
        _ => "Int (-2147483648..=2147483647)"@,
    }
}

/// A new value for a node: an integer keeps a short a short and a long a
/// long (else it makes an int), and one that does not fit is refused; a
/// float keeps a double a double (else it makes a float); a string keeps a
/// UOL a UOL (else it makes a string). A float carries both widths; any
/// other value is refused.
pub open spec fn set_outcome(p: PropV, v: ScriptValue) -> Result<PropV, Seq<char>> {
    match v.as_i64 {
        Some(x) => match p {
            PropV::Short(_) => if i16::MIN <= x <= i16::MAX {
                Ok(PropV::Short(x as i16))
            } else {
                Err(out_of_range(x, int_kind(p)))
            },
            PropV::Long(_) => Ok(PropV::Long(x)),
            _ => if i32::MIN <= x <= i32::MAX {
                Ok(PropV::Int(x as i32))
            } else {
                Err(out_of_range(x, int_kind(p)))
            },
        },
        None => match v.oversized_int {
            Some(t) => Err(out_of_range_text(t@, int_kind(p))),
            None => if v.as_f64_bits is Some && v.as_f32_bits is Some {
                match p {
                    PropV::Double(_) => Ok(PropV::Double(v.as_f64_bits->Some_0)),
                    _ => Ok(PropV::Float(v.as_f32_bits->Some_0)),
                }
            } else {
                match v.as_string {
                    Some(s) => match p {
                        PropV::Uol(_) => Ok(PropV::Uol(s@)),
                        _ => Ok(PropV::String(s@)),
                    },
                    None => Err("value must be int, float, or str"@),
                }
            },
        },
    }
}

/// A canvas with new pixels: BGRA8888, zlib-compressed, with the new size
/// and no scale exponent (the data holds the image at full size); its
/// children are kept.
pub open spec fn canvas_outcome(p: PropV, rgba: Seq<u8>, width: u32, height: u32) -> Result<PropV, EditErrV> {
    match p {
        PropV::Canvas { properties, .. } => match to_bgra8888(rgba, width, height) {
            None => Err(EditErrV::ShortPixels),
            Some(px) => match zlib_compression(px) {
                Err(m) => Err(EditErrV::CompressFailed(ErrV::Custom(m))),
                Ok(c) => Ok(PropV::Canvas {
                    width: width as i32,
                    height: height as i32,
                    format: WzPngFormat::Bgra8888,
                    scale: 0,
                    properties,
                    png_data: CanvasV::Loaded(c),
                }),
            },
        },
        _ => Err(EditErrV::NotCanvas(kind_name(p))),
    }
}

/// The zlib stream that a pixel replacement stores for `rgba` inflates,
/// under any key, back to the BGRA8888 bytes it was made from.
pub open spec fn replacement_inflates(rgba: Seq<u8>, width: u32, height: u32) -> bool {
    match to_bgra8888(rgba, width, height) {
        Some(px) => match zlib_compression(px) {
            Ok(c) => forall|key: Option<Seq<u8>>| #[trigger] decompressed(c, key) == Ok::<Seq<u8>, ErrV>(px),
            Err(_) => true,
        },
        None => true,
    }
}

/// The value a child to add is converted to.
pub open spec fn added_value(hint: Option<Seq<char>>, value: ScriptValue) -> Result<PropV, Seq<char>> {
    match hint {
        Some(h) => typed_outcome(h, value),
        None => untyped_outcome(value),
    }
}

/// An edit applied to one node: the new node and whether a child was
/// removed, or why it is refused.
pub open spec fn edit_outcome(p: PropV, op: EditV) -> Result<(PropV, bool), EditErrV> {
    match op {
        EditV::SetValue(v) => match set_outcome(p, v) {
            Ok(q) => Ok((q, false)),
            Err(m) => Err(EditErrV::Invalid(m)),
        },
        EditV::Add { name, hint, value } => match children_of(p) {
            None => Err(EditErrV::Leaf(kind_name(p))),
            Some(ch) => match added_value(hint, value) {
                Ok(q) => Ok((with_children(p, upsert(ch, name, q)), false)),
                Err(m) => Err(EditErrV::Invalid(m)),
            },
        },
        EditV::Remove(name) => match children_of(p) {
            None => Err(EditErrV::Leaf(kind_name(p))),
            Some(ch) => Ok((with_children(p, without(ch, name)), without(ch, name).len() < ch.len())),
        },
        EditV::ReplaceCanvas { rgba, width, height } => match canvas_outcome(p, rgba, width, height) {
            Ok(q) => Ok((q, false)),
            Err(e) => Err(e),
        },
    }
}

/// An edit applied to the node at `path` among `props` (the node
/// [`lookup_children`] finds): the new list and whether a child was
/// removed, or why it is refused.
pub open spec fn edit_at(props: PropList, path: Seq<Seq<char>>, op: EditV) -> Result<(PropList, bool), EditErrV>
    decreases path.len(), props.len(),
{
    if path.len() == 0 || props.len() == 0 {
        Err(EditErrV::NotFound)
    } else if props[0].0 == path[0] {
        if path.len() == 1 {
            match edit_outcome(props[0].1, op) {
                Ok((q, b)) => Ok((props.update(0, (props[0].0, q)), b)),
                Err(e) => Err(e),
            }
        } else {
            match children_of(props[0].1) {
                Some(ch) => match edit_at(ch, path.subrange(1, path.len() as int), op) {
                    Ok((ch2, b)) => Ok((props.update(0, (props[0].0, with_children(props[0].1, ch2))), b)),
                    Err(e) => Err(e),
                },
                None => Err(EditErrV::NotFound),
            }
        }
    } else {
        match edit_at(props.subrange(1, props.len() as int), path, op) {
            Ok((rest, b)) => Ok((seq![props[0]] + rest, b)),
            Err(e) => Err(e),
        }
    }
}

// ── Children lists ──────────────────────────────────────────────────

proof fn lemma_upsert_skip(ch: PropList, name: Seq<char>, q: PropV, i: int)
    requires
        0 <= i <= ch.len(),
        forall|k: int| 0 <= k < i ==> ch[k].0 != name,
    ensures
        upsert(ch, name, q) == ch.subrange(0, i) + upsert(ch.subrange(i, ch.len() as int), name, q),
    decreases i,
{
    if i > 0 {
        let rest = ch.subrange(1, ch.len() as int);
        assert forall|k: int| 0 <= k < i - 1 implies rest[k].0 != name by {
            assert(rest[k] == ch[k + 1]);
        }
        lemma_upsert_skip(rest, name, q, i - 1);
        assert(rest.subrange(i - 1, rest.len() as int) =~= ch.subrange(i, ch.len() as int));
        assert(seq![ch[0]] + (rest.subrange(0, i - 1) + upsert(ch.subrange(i, ch.len() as int), name, q))
            =~= ch.subrange(0, i) + upsert(ch.subrange(i, ch.len() as int), name, q));
    } else {
        assert(ch.subrange(0, ch.len() as int) =~= ch);
        assert(ch.subrange(0, 0) + upsert(ch, name, q) =~= upsert(ch, name, q));
    }
}

/// Gives the first entry named `name` the value `p`, or appends
/// `(name, p)` when no entry is so named (see [`upsert`]).
pub fn upsert_entry(list: &mut Vec<(String, WzProperty)>, name: &str, p: WzProperty)
    ensures
        props_model(final(list)@) == upsert(props_model(old(list)@), name@, p.model()),
{
    let ghost l = props_model(list@);
    let ghost orig = list@;
    proof {
        lemma_props_model(list@);
    }
    let want = str_chars(name);
    let mut i: usize = 0;
    while i < list.len()
        invariant
            0 <= i <= list.len(),
            list@ == orig,
            orig == old(list)@,
            l == props_model(orig),
            l.len() == orig.len(),
            forall|j: int| 0 <= j < orig.len() ==> #[trigger] l[j] == (orig[j].0@, orig[j].1.model()),
            want@ == name@,
            forall|j: int| 0 <= j < i ==> l[j].0 != name@,
        decreases list.len() - i,
    {
        if chars_eq(str_chars(list[i].0.as_str()).as_slice(), want.as_slice()) {
            proof {
                lemma_upsert_skip(l, name@, p.model(), i as int);
                let tail = l.subrange(i as int, l.len() as int);
                assert(tail[0] == l[i as int]);
                assert(l[i as int].0 == name@);
            }
            let (n, _) = list.remove(i);
            assert(n@ == name@);
            list.insert(i, (n, p));
            proof {
                lemma_props_model(list@);
                let tail = l.subrange(i as int, l.len() as int);
                assert(upsert(tail, name@, p.model()) == tail.update(0, (name@, p.model())));
                assert(l.subrange(0, i as int) + tail.update(0, (name@, p.model())) =~= props_model(list@));
                assert(props_model(list@) == upsert(l, name@, p.model()));
            }
            return;
        }
        i = i + 1;
    }
    proof {
        lemma_upsert_skip(l, name@, p.model(), i as int);
        assert(l.subrange(i as int, l.len() as int) =~= Seq::<(Seq<char>, PropV)>::empty());
    }
    list.push((string_from_chars(want.as_slice()), p));
    proof {
        lemma_props_model(list@);
        assert(props_model(list@) =~= l.subrange(0, i as int) + seq![(name@, p.model())]);
    }
}

/// Removes every entry named `name`; whether any was (see [`without`]).
pub fn remove_entries(list: &mut Vec<(String, WzProperty)>, name: &str) -> (removed: bool)
    ensures
        props_model(final(list)@) == without(props_model(old(list)@), name@),
        removed == (without(props_model(old(list)@), name@).len() < old(list)@.len()),
{
    let ghost orig = props_model(list@);
    proof {
        lemma_props_model(list@);
        assert(orig.subrange(0, 0) =~= Seq::<(Seq<char>, PropV)>::empty());
        assert(props_model(list@) =~= without(orig.subrange(0, 0), name@) + orig.subrange(0, orig.len() as int));
    }
    let n0 = list.len();
    let want = str_chars(name);
    let mut i: usize = 0;
    let ghost mut j: int = 0;
    while i < list.len()
        invariant
            0 <= i,
            0 <= j <= orig.len(),
            orig.len() == n0,
            want@ == name@,
            props_model(list@) == without(orig.subrange(0, j), name@) + orig.subrange(j, orig.len() as int),
            i == without(orig.subrange(0, j), name@).len(),
            list@.len() == i + (orig.len() - j),
        decreases list.len() - i,
    {
        proof {
            lemma_props_model(list@);
            assert(props_model(list@)[i as int] == orig[j]);
            assert(orig.subrange(0, j + 1).drop_last() =~= orig.subrange(0, j));
            assert(orig.subrange(0, j + 1).last() == orig[j]);
        }
        if chars_eq(str_chars(list[i].0.as_str()).as_slice(), want.as_slice()) {
            let ghost before = list@;
            list.remove(i);
            proof {
                lemma_props_model(list@);
                lemma_props_model(before);
                assert(orig[j].0 == name@);
                assert(without(orig.subrange(0, j + 1), name@) == without(orig.subrange(0, j), name@));
                assert(props_model(list@) =~= props_model(before).remove(i as int));
                assert(props_model(list@) =~= without(orig.subrange(0, j + 1), name@) + orig.subrange(j + 1, orig.len() as int));
                j = j + 1;
            }
        } else {
            proof {
                assert(without(orig.subrange(0, j + 1), name@) == without(orig.subrange(0, j), name@).push(orig[j]));
                assert(props_model(list@) =~= without(orig.subrange(0, j + 1), name@) + orig.subrange(j + 1, orig.len() as int));
                j = j + 1;
            }
            i = i + 1;
        }
    }
    proof {
        assert(j == orig.len());
        assert(orig.subrange(0, j) =~= orig);
        assert(props_model(list@) =~= without(orig, name@));
    }
    list.len() < n0
}

// ── Editing one node ────────────────────────────────────────────────

/// The type name of a property, as a `String`.
fn kind_string(p: &WzProperty) -> (s: String)
    ensures
        s@ == kind_name(p.model()),
{
    let k = prop_type_name(p);
    string_from_chars(str_chars(k).as_slice())
}

/// The new value of a node (see [`set_outcome`]).
pub fn set_value(p: &WzProperty, v: ScriptValue) -> (r: Result<WzProperty, String>)
    ensures
        match set_outcome(p.model(), v) {
            Ok(q) => r matches Ok(x) && x.model() == q,
            Err(m) => r matches Err(e) && e@ == m,
        },
{
    let ScriptValue { as_i64, as_f32_bits, as_f64_bits, as_string, as_bytes: _, oversized_int } = v;
    match as_i64 {
        Some(x) => match p {
            WzProperty::Short(_) => if -32768 <= x && x <= 32767 {
                Ok(WzProperty::Short(x as i16))
            } else {
                Err(range_error(x, "Short (-32768..=32767)"))
            },
            WzProperty::Long(_) => Ok(WzProperty::Long(x)),
            _ => if -2147483648 <= x && x <= 2147483647 {
                Ok(WzProperty::Int(x as i32))
            } else {
                Err(range_error(x, "Int (-2147483648..=2147483647)"))
            },
        },
        None => match oversized_int {
            Some(t) => {
                let kind = match p {
                    WzProperty::Short(_) => "Short (-32768..=32767)",
                    WzProperty::Long(_) => "Long (-9223372036854775808..=9223372036854775807)",
                    _ => "Int (-2147483648..=2147483647)",
                };
                let mut m = str_chars("value ");
                push_all(&mut m, str_chars(t.as_str()).as_slice());
                push_all(&mut m, str_chars(" out of range for ").as_slice());
                push_all(&mut m, str_chars(kind).as_slice());
                Err(string_from_chars(m.as_slice()))
            },
            None => match (as_f64_bits, as_f32_bits) {
                (Some(d), Some(f)) => match p {
                    WzProperty::Double(_) => Ok(WzProperty::Double(d)),
                    _ => Ok(WzProperty::Float(f)),
                },
                _ => match as_string {
                    Some(s) => match p {
                        WzProperty::Uol(_) => Ok(WzProperty::Uol(s)),
                        _ => Ok(WzProperty::String(s)),
                    },
                    None => Err(message("value must be int, float, or str")),
                },
            },
        },
    }
}

/// A container with the child `name` added or replaced (see [`upsert`]).
fn add_child(p: WzProperty, name: &str, q: WzProperty) -> (r: WzProperty)
    requires
        children_of(p.model()) is Some,
    ensures
        r.model() == with_children(p.model(), upsert(children_of(p.model())->Some_0, name@, q.model())),
{
    match p {
        WzProperty::SubProperty { mut properties } => {
            upsert_entry(&mut properties, name, q);
            WzProperty::SubProperty { properties }
        },
        WzProperty::Canvas { width, height, format, scale, mut properties, png_data } => {
            upsert_entry(&mut properties, name, q);
            WzProperty::Canvas { width, height, format, scale, properties, png_data }
        },
        WzProperty::Video { video_type, mut properties, data_offset, data_length, video_data } => {
            upsert_entry(&mut properties, name, q);
            WzProperty::Video { video_type, properties, data_offset, data_length, video_data }
        },
        WzProperty::Convex { mut points } => {
            upsert_entry(&mut points, name, q);
            WzProperty::Convex { points }
        },
        WzProperty::RawData { raw_type, mut properties, data } => {
            upsert_entry(&mut properties, name, q);
            WzProperty::RawData { raw_type, properties, data }
        },
        other => other,
    }
}

/// A container without its children named `name` (see [`without`]), and
/// whether it had any.
fn remove_child(p: WzProperty, name: &str) -> (r: (WzProperty, bool))
    requires
        children_of(p.model()) is Some,
    ensures
        r.0.model() == with_children(p.model(), without(children_of(p.model())->Some_0, name@)),
        r.1 == (without(children_of(p.model())->Some_0, name@).len() < children_of(p.model())->Some_0.len()),
{
    match p {
        WzProperty::SubProperty { mut properties } => {
            proof { lemma_props_model(properties@); }
            let b = remove_entries(&mut properties, name);
            (WzProperty::SubProperty { properties }, b)
        },
        WzProperty::Canvas { width, height, format, scale, mut properties, png_data } => {
            proof { lemma_props_model(properties@); }
            let b = remove_entries(&mut properties, name);
            (WzProperty::Canvas { width, height, format, scale, properties, png_data }, b)
        },
        WzProperty::Video { video_type, mut properties, data_offset, data_length, video_data } => {
            proof { lemma_props_model(properties@); }
            let b = remove_entries(&mut properties, name);
            (WzProperty::Video { video_type, properties, data_offset, data_length, video_data }, b)
        },
        WzProperty::Convex { mut points } => {
            proof { lemma_props_model(points@); }
            let b = remove_entries(&mut points, name);
            (WzProperty::Convex { points }, b)
        },
        WzProperty::RawData { raw_type, mut properties, data } => {
            proof { lemma_props_model(properties@); }
            let b = remove_entries(&mut properties, name);
            (WzProperty::RawData { raw_type, properties, data }, b)
        },
        other => (other, false),
    }
}

/// A canvas with new pixels (see [`canvas_outcome`]); anything else, or a
/// failure, leaves the node as it was.
fn replace_pixels(p: WzProperty, rgba: &[u8], w: u32, h: u32) -> (r: (WzProperty, Result<bool, EditError>))
    ensures
        match canvas_outcome(p.model(), rgba@, w, h) {
            Ok(q) => r.1 matches Ok(b) && !b && r.0.model() == q,
            Err(e) => r.1 matches Err(x) && x@ == e && r.0.model() == p.model(),
        },
        r.1 is Ok ==> replacement_inflates(rgba@, w, h),
{
    match p {
        WzProperty::Canvas { width, height, format, scale, properties, png_data } => match encode_bgra8888(rgba, w, h) {
            None => (WzProperty::Canvas { width, height, format, scale, properties, png_data }, Err(EditError::ShortPixels)),
            Some(px) => match compress_png_data(px.as_slice()) {
                Err(e) => (
                    WzProperty::Canvas { width, height, format, scale, properties, png_data },
                    Err(EditError::CompressFailed(e)),
                ),
                Ok(c) => (
                    WzProperty::Canvas {
                        width: w as i32,
                        height: h as i32,
                        format: WzPngFormat::Bgra8888,
                        scale: 0,
                        properties,
                        png_data: CanvasData::Loaded(c),
                    },
                    Ok(false),
                ),
            },
        },
        other => {
            let k = kind_string(&other);
            (other, Err(EditError::NotCanvas(k)))
        },
    }
}

/// An edit applied to one node (see [`edit_outcome`]); a refused edit
/// leaves the node as it was.
pub fn apply_edit(p: WzProperty, op: NodeEdit) -> (r: (WzProperty, Result<bool, EditError>))
    ensures
        match edit_outcome(p.model(), op@) {
            Ok((q, b)) => r.1 matches Ok(b2) && b2 == b && r.0.model() == q,
            Err(e) => r.1 matches Err(x) && x@ == e && r.0.model() == p.model(),
        },
        r.1 is Ok ==> (op@ matches EditV::ReplaceCanvas { rgba, width, height } ==> replacement_inflates(rgba, width, height)),
{
    match op {
        NodeEdit::SetValue(v) => match set_value(&p, v) {
            Ok(q) => (q, Ok(false)),
            Err(m) => (p, Err(EditError::Invalid(m))),
        },
        NodeEdit::Add { name, hint, value } => {
            if p.children().is_none() {
                let k = kind_string(&p);
                return (p, Err(EditError::Leaf(k)));
            }
            let conv = match hint {
                Some(h) => typed_property(h.as_str(), value),
                None => untyped_property(value),
            };
            match conv {
                Ok(q) => (add_child(p, name.as_str(), q), Ok(false)),
                Err(m) => (p, Err(EditError::Invalid(m))),
            }
        },
        NodeEdit::Remove(name) => {
            if p.children().is_none() {
                let k = kind_string(&p);
                return (p, Err(EditError::Leaf(k)));
            }
            let (q, removed) = remove_child(p, name.as_str());
            (q, Ok(removed))
        },
        NodeEdit::ReplaceCanvas { rgba, width, height } => replace_pixels(p, rgba.as_slice(), width, height),
    }
}

// ── Editing at a path ───────────────────────────────────────────────

proof fn lemma_edit_skip(l: PropList, path: Seq<Seq<char>>, op: EditV, i: int)
    requires
        path.len() > 0,
        0 <= i <= l.len(),
        forall|k: int| 0 <= k < i ==> l[k].0 != path[0],
    ensures
        edit_at(l, path, op) == match edit_at(l.subrange(i, l.len() as int), path, op) {
            Ok((r, b)) => Ok((l.subrange(0, i) + r, b)),
            Err(e) => Err(e),
        },
    decreases i,
{
    if i > 0 {
        let rest = l.subrange(1, l.len() as int);
        assert forall|k: int| 0 <= k < i - 1 implies rest[k].0 != path[0] by {
            assert(rest[k] == l[k + 1]);
        }
        lemma_edit_skip(rest, path, op, i - 1);
        assert(rest.subrange(i - 1, rest.len() as int) =~= l.subrange(i, l.len() as int));
        match edit_at(l.subrange(i, l.len() as int), path, op) {
            Ok((r, b)) => {
                assert(seq![l[0]] + (rest.subrange(0, i - 1) + r) =~= l.subrange(0, i) + r);
            },
            Err(e) => {},
        }
    } else {
        assert(l.subrange(0, l.len() as int) =~= l);
        match edit_at(l, path, op) {
            Ok((r, b)) => {
                assert(l.subrange(0, 0) + r =~= r);
            },
            Err(e) => {},
        }
    }
}

fn edit_list(list: &mut Vec<(String, WzProperty)>, path: &[&str], k: usize, op: NodeEdit) -> (r: Result<bool, EditError>)
    requires
        k < path.len(),
    ensures
        match edit_at(props_model(old(list)@), str_path_view(path@).subrange(k as int, path@.len() as int), op@) {
            Ok((l2, b)) => r matches Ok(b2) && b2 == b && props_model(final(list)@) == l2,
            Err(e) => r matches Err(x) && x@ == e && props_model(final(list)@) == props_model(old(list)@),
        },
        r is Ok ==> (op@ matches EditV::ReplaceCanvas { rgba, width, height } ==> replacement_inflates(rgba, width, height)),
    decreases path.len() - k, 0int,
{
    let ghost l = props_model(list@);
    let ghost orig = list@;
    let ghost rest = str_path_view(path@).subrange(k as int, path@.len() as int);
    proof {
        lemma_props_model(list@);
    }
    let want = str_chars(path[k]);
    let mut i: usize = 0;
    while i < list.len()
        invariant
            0 <= i <= list.len(),
            k < path.len(),
            list@ == orig,
            orig == old(list)@,
            l == props_model(orig),
            l.len() == orig.len(),
            forall|j: int| 0 <= j < orig.len() ==> #[trigger] l[j] == (orig[j].0@, orig[j].1.model()),
            rest == str_path_view(path@).subrange(k as int, path@.len() as int),
            want@ == rest[0],
            forall|j: int| 0 <= j < i ==> l[j].0 != rest[0],
        decreases list.len() - i,
    {
        if chars_eq(str_chars(list[i].0.as_str()).as_slice(), want.as_slice()) {
            proof {
                lemma_edit_skip(l, rest, op@, i as int);
                let tail = l.subrange(i as int, l.len() as int);
                assert(tail[0] == l[i as int]);
                assert(rest.subrange(1, rest.len() as int) =~= str_path_view(path@).subrange(k + 1, path@.len() as int));
            }
            let (n, p) = list.remove(i);
            let ghost pm = p.model();
            assert(pm == l[i as int].1);
            let (q, res) = if k + 1 == path.len() {
                apply_edit(p, op)
            } else {
                edit_children(p, path, k + 1, op)
            };
            list.insert(i, (n, q));
            proof {
                lemma_props_model(list@);
                let tail = l.subrange(i as int, l.len() as int);
                assert(props_model(list@) =~= l.update(i as int, (l[i as int].0, q.model())));
                assert(l.subrange(0, i as int) + tail.update(0, (tail[0].0, q.model())) =~= l.update(i as int, (l[i as int].0, q.model())));
                if q.model() == pm {
                    assert(l.update(i as int, (l[i as int].0, pm)) =~= l);
                }
            }
            return res;
        }
        i = i + 1;
    }
    proof {
        lemma_edit_skip(l, rest, op@, i as int);
    }
    Err(EditError::NotFound)
}

fn edit_children(p: WzProperty, path: &[&str], k: usize, op: NodeEdit) -> (r: (WzProperty, Result<bool, EditError>))
    requires
        k < path.len(),
    ensures
        match children_of(p.model()) {
            Some(ch) => match edit_at(ch, str_path_view(path@).subrange(k as int, path@.len() as int), op@) {
                Ok((ch2, b)) => r.1 matches Ok(b2) && b2 == b && r.0.model() == with_children(p.model(), ch2),
                Err(e) => r.1 matches Err(x) && x@ == e && r.0.model() == p.model(),
            },
            None => r.1 matches Err(x) && x@ == EditErrV::NotFound && r.0.model() == p.model(),
        },
        r.1 is Ok ==> (op@ matches EditV::ReplaceCanvas { rgba, width, height } ==> replacement_inflates(rgba, width, height)),
    decreases path.len() - k, 1int,
{
    match p {
        WzProperty::SubProperty { mut properties } => {
            let res = edit_list(&mut properties, path, k, op);
            (WzProperty::SubProperty { properties }, res)
        },
        WzProperty::Canvas { width, height, format, scale, mut properties, png_data } => {
            let res = edit_list(&mut properties, path, k, op);
            (WzProperty::Canvas { width, height, format, scale, properties, png_data }, res)
        },
        WzProperty::Video { video_type, mut properties, data_offset, data_length, video_data } => {
            let res = edit_list(&mut properties, path, k, op);
            (WzProperty::Video { video_type, properties, data_offset, data_length, video_data }, res)
        },
        WzProperty::Convex { mut points } => {
            let res = edit_list(&mut points, path, k, op);
            (WzProperty::Convex { points }, res)
        },
        WzProperty::RawData { raw_type, mut properties, data } => {
            let res = edit_list(&mut properties, path, k, op);
            (WzProperty::RawData { raw_type, properties, data }, res)
        },
        other => (other, Err(EditError::NotFound)),
    }
}

/// Applies an edit to the node at `path` among `root` (see [`edit_at`]):
/// whether a child was removed, or why the edit is refused, in which case
/// `root` is left as it was.
pub fn edit_node(root: &mut Vec<(String, WzProperty)>, path: &[&str], op: NodeEdit) -> (r: Result<bool, EditError>)
    ensures
        match edit_at(props_model(old(root)@), str_path_view(path@), op@) {
            Ok((l2, b)) => r matches Ok(b2) && b2 == b && props_model(final(root)@) == l2,
            Err(e) => r matches Err(x) && x@ == e && props_model(final(root)@) == props_model(old(root)@),
        },
        r is Ok ==> (op@ matches EditV::ReplaceCanvas { rgba, width, height } ==> width <= i32::MAX && height <= i32::MAX ==> forall|key: Seq<u8>|
            lookup_children(props_model(final(root)@), str_path_view(path@)) is Some && #[trigger] canvas_pixels(
                lookup_children(props_model(final(root)@), str_path_view(path@))->Some_0,
                key,
            ) == Ok::<(Seq<u8>, u32, u32), ErrV>((rgba.subrange(0, width * height * 4), width, height))),
{
    if path.len() == 0 {
        return Err(EditError::NotFound);
    }
    let ghost l = props_model(root@);
    let ghost opv = op@;
    assert(str_path_view(path@).subrange(0, path@.len() as int) =~= str_path_view(path@));
    let r = edit_list(root, path, 0, op);
    proof {
        if let EditV::ReplaceCanvas { rgba, width, height } = opv {
            if r is Ok && width <= i32::MAX && height <= i32::MAX {
                assert forall|key: Seq<u8>|
                    lookup_children(props_model(root@), str_path_view(path@)) is Some && #[trigger] canvas_pixels(
                        lookup_children(props_model(root@), str_path_view(path@))->Some_0,
                        key,
                    ) == Ok::<(Seq<u8>, u32, u32), ErrV>((rgba.subrange(0, width * height * 4), width, height)) by {
                    lemma_replaced_canvas_reads_back(l, str_path_view(path@), rgba, width, height, key);
                }
            }
        }
    }
    r
}

// ── Laws ────────────────────────────────────────────────────────────

/// After a pixel replacement at a path succeeds, the node there decodes,
/// under any key, to the pixels given at the width and height given, as
/// long as the stored stream inflates back to its bytes.
proof fn lemma_replaced_canvas_reads_back(l: PropList, path: Seq<Seq<char>>, rgba: Seq<u8>, w: u32, h: u32, key: Seq<u8>)
    requires
        edit_at(l, path, EditV::ReplaceCanvas { rgba, width: w, height: h }) is Ok,
        replacement_inflates(rgba, w, h),
        w <= i32::MAX,
        h <= i32::MAX,
    ensures
        lookup_children(edit_at(l, path, EditV::ReplaceCanvas { rgba, width: w, height: h })->Ok_0.0, path) matches Some(q)
            && canvas_pixels(q, key) == Ok::<(Seq<u8>, u32, u32), ErrV>((rgba.subrange(0, w * h * 4), w, h)),
{
    let op = EditV::ReplaceCanvas { rgba, width: w, height: h };
    lemma_edit_then_read(l, path, op);
    let p = lookup_children(l, path)->Some_0;
    let q = canvas_outcome(p, rgba, w, h)->Ok_0;
    let px = to_bgra8888(rgba, w, h)->Some_0;
    let c = zlib_compression(px)->Ok_0;
    assert(decompressed(c, Some(key)) == Ok::<Seq<u8>, ErrV>(px));
    lemma_bgra8888_decodes_back(rgba, w, h);
    assert(((w as i32) as u32) == w);
    assert(((h as i32) as u32) == h);
}

/// Decoding, as BGRA8888, the bytes that a pixel replacement stores gives
/// back the RGBA pixels it was given (the first `w * h` of them).
pub proof fn lemma_bgra8888_decodes_back(rgba: Seq<u8>, w: u32, h: u32)
    requires
        to_bgra8888(rgba, w, h) is Some,
    ensures
        spec_decode_pixels(to_bgra8888(rgba, w, h)->Some_0, w as nat, h as nat, WzPngFormat::Bgra8888)
            == Ok::<Seq<u8>, ErrV>(rgba.subrange(0, w * h * 4)),
{
    let d = to_bgra8888(rgba, w, h)->Some_0;
    let n = w * h * 4;
    assert(WzPngFormat::Bgra8888.spec_raw_data_size(w as nat, h as nat) == n);
    assert(zero_padded(d, n as nat) == d);
    let img = decoded_image(WzPngFormat::Bgra8888, d, w as nat, h as nat);
    assert forall|k: int| 0 <= k < n implies #[trigger] img[k] == rgba[k] by {
        let q = k / 4;
        assert(w > 0) by (nonlinear_arith)
            requires 0 <= k < w * h * 4, w >= 0, h >= 0;
        vstd::arithmetic::div_mod::lemma_fundamental_div_mod(q, w as int);
        let x = q % (w as int);
        let y = q / (w as int);
        let wi = w as int;
        assert(y * wi + x == q) by (nonlinear_arith)
            requires q == wi * (q / wi) + q % wi, y == q / wi, x == q % wi;
        assert(4 * q + k % 4 == k);
        assert(0 <= 4 * q && 4 * q + 3 < n);
    }
    assert(img =~= rgba.subrange(0, n));
}


proof fn lemma_children_of_with(p: PropV, ch: PropList)
    requires
        children_of(p) is Some,
    ensures
        children_of(with_children(p, ch)) == Some(ch),
        kind_name(with_children(p, ch)) == kind_name(p),
{
}

/// An edit that succeeds changes exactly the node the path reads: a read of
/// the path before the edit finds the node, and a read after it finds the
/// edited node.
pub proof fn lemma_edit_then_read(l: PropList, path: Seq<Seq<char>>, op: EditV)
    requires
        edit_at(l, path, op) is Ok,
    ensures
        lookup_children(l, path) is Some,
        edit_outcome(lookup_children(l, path)->Some_0, op) is Ok,
        edit_at(l, path, op)->Ok_0.1 == edit_outcome(lookup_children(l, path)->Some_0, op)->Ok_0.1,
        lookup_children(edit_at(l, path, op)->Ok_0.0, path) == Some(edit_outcome(lookup_children(l, path)->Some_0, op)->Ok_0.0),
    decreases path.len(), l.len(),
{
    let l2 = edit_at(l, path, op)->Ok_0.0;
    if l[0].0 == path[0] {
        if path.len() == 1 {
            assert(l2[0] == (l[0].0, edit_outcome(l[0].1, op)->Ok_0.0));
        } else {
            let ch = children_of(l[0].1)->Some_0;
            let tail = path.subrange(1, path.len() as int);
            lemma_edit_then_read(ch, tail, op);
            let ch2 = edit_at(ch, tail, op)->Ok_0.0;
            lemma_children_of_with(l[0].1, ch2);
            assert(l2[0] == (l[0].0, with_children(l[0].1, ch2)));
        }
    } else {
        let rest = l.subrange(1, l.len() as int);
        lemma_edit_then_read(rest, path, op);
        let rest2 = edit_at(rest, path, op)->Ok_0.0;
        assert(l2 == seq![l[0]] + rest2);
        assert(l2.subrange(1, l2.len() as int) =~= rest2);
    }
}

proof fn lemma_lookup_push(l: PropList, path: Seq<Seq<char>>, x: Seq<char>)
    requires
        path.len() > 0,
    ensures
        lookup_children(l, path.push(x)) == match lookup_children(l, path) {
            Some(p) => match children_of(p) {
                Some(ch) => lookup_children(ch, seq![x]),
                None => None,
            },
            None => None,
        },
    decreases path.len(), l.len(),
{
    let px = path.push(x);
    if l.len() == 0 {
    } else if l[0].0 == path[0] {
        assert(px[0] == path[0]);
        if path.len() == 1 {
            assert(px.subrange(1, px.len() as int) =~= seq![x]);
        } else {
            let tail = path.subrange(1, path.len() as int);
            assert(px.subrange(1, px.len() as int) =~= tail.push(x));
            match children_of(l[0].1) {
                Some(ch) => lemma_lookup_push(ch, tail, x),
                None => {},
            }
        }
    } else {
        assert(px[0] == path[0]);
        lemma_lookup_push(l.subrange(1, l.len() as int), path, x);
    }
}

proof fn lemma_upsert_read(ch: PropList, name: Seq<char>, q: PropV)
    ensures
        lookup_children(upsert(ch, name, q), seq![name]) == Some(q),
    decreases ch.len(),
{
    let u = upsert(ch, name, q);
    if ch.len() > 0 && ch[0].0 != name {
        let rest = ch.subrange(1, ch.len() as int);
        lemma_upsert_read(rest, name, q);
        assert(u.subrange(1, u.len() as int) =~= upsert(rest, name, q));
    }
}

proof fn lemma_without_read(ch: PropList, name: Seq<char>)
    ensures
        forall|i: int| 0 <= i < without(ch, name).len() ==> #[trigger] without(ch, name)[i].0 != name,
    decreases ch.len(),
{
    if ch.len() > 0 {
        let init = ch.drop_last();
        lemma_without_read(init, name);
        let w = without(init, name);
        if ch.last().0 != name {
            assert forall|i: int| 0 <= i < w.push(ch.last()).len() implies #[trigger] w.push(ch.last())[i].0 != name by {
                if i < w.len() {
                    assert(w.push(ch.last())[i] == w[i]);
                }
            }
        }
    }
}

proof fn lemma_absent_read(l: PropList, name: Seq<char>)
    requires
        forall|i: int| 0 <= i < l.len() ==> #[trigger] l[i].0 != name,
    ensures
        lookup_children(l, seq![name]) is None,
    decreases l.len(),
{
    if l.len() > 0 {
        let rest = l.subrange(1, l.len() as int);
        assert forall|i: int| 0 <= i < rest.len() implies #[trigger] rest[i].0 != name by {
            assert(rest[i] == l[i + 1]);
        }
        lemma_absent_read(rest, name);
    }
}

/// After a child is added at a path, reading the path with the child's
/// name appended gives the converted value.
pub proof fn lemma_add_then_read(l: PropList, path: Seq<Seq<char>>, name: Seq<char>, hint: Option<Seq<char>>, value: ScriptValue)
    requires
        edit_at(l, path, EditV::Add { name, hint, value }) is Ok,
    ensures
        added_value(hint, value) is Ok,
        lookup_children(edit_at(l, path, EditV::Add { name, hint, value })->Ok_0.0, path.push(name)) == Some(added_value(hint, value)->Ok_0),
{
    let op = EditV::Add { name, hint, value };
    lemma_edit_then_read(l, path, op);
    let p = lookup_children(l, path)->Some_0;
    let ch = children_of(p)->Some_0;
    let q = added_value(hint, value)->Ok_0;
    let l2 = edit_at(l, path, op)->Ok_0.0;
    lemma_children_of_with(p, upsert(ch, name, q));
    lemma_lookup_push(l2, path, name);
    lemma_upsert_read(ch, name, q);
}

/// After the children named `name` are removed at a path, reading the path
/// with that name appended finds nothing.
pub proof fn lemma_remove_then_read(l: PropList, path: Seq<Seq<char>>, name: Seq<char>)
    requires
        edit_at(l, path, EditV::Remove(name)) is Ok,
    ensures
        lookup_children(edit_at(l, path, EditV::Remove(name))->Ok_0.0, path.push(name)) is None,
{
    let op = EditV::Remove(name);
    lemma_edit_then_read(l, path, op);
    let p = lookup_children(l, path)->Some_0;
    let ch = children_of(p)->Some_0;
    let l2 = edit_at(l, path, op)->Ok_0.0;
    lemma_children_of_with(p, without(ch, name));
    lemma_lookup_push(l2, path, name);
    lemma_without_read(ch, name);
    lemma_absent_read(without(ch, name), name);
}

/// Removing reports whether there was a child of that name: some entry
/// leaves exactly when one is so named.
pub proof fn lemma_remove_reports_presence(ch: PropList, name: Seq<char>)
    ensures
        (without(ch, name).len() < ch.len()) <==> (exists|i: int| 0 <= i < ch.len() && #[trigger] ch[i].0 == name),
        without(ch, name).len() <= ch.len(),
    decreases ch.len(),
{
    if ch.len() > 0 {
        let init = ch.drop_last();
        lemma_remove_reports_presence(init, name);
        if exists|i: int| 0 <= i < init.len() && #[trigger] init[i].0 == name {
            let i = choose|i: int| 0 <= i < init.len() && #[trigger] init[i].0 == name;
            assert(ch[i] == init[i]);
        }
        if exists|i: int| 0 <= i < ch.len() && #[trigger] ch[i].0 == name {
            let i = choose|i: int| 0 <= i < ch.len() && #[trigger] ch[i].0 == name;
            if i < ch.len() - 1 {
                assert(init[i] == ch[i]);
            }
        }
    }
}

/// Setting a value keeps the node's variant where the value fits it: an
/// integer keeps a short or a long, a float keeps a double, a string keeps a
/// UOL.
pub proof fn lemma_set_keeps_kind(p: PropV, v: ScriptValue)
    requires
        set_outcome(p, v) is Ok,
        ((v.as_i64 is Some || v.oversized_int is Some) && (p is Short || p is Long))
            || (v.as_i64 is None && v.oversized_int is None && v.as_f64_bits is Some && v.as_f32_bits is Some && p is Double)
            || (v.as_i64 is None && v.oversized_int is None && !(v.as_f64_bits is Some && v.as_f32_bits is Some)
            && v.as_string is Some && p is Uol),
    ensures
        kind_name(set_outcome(p, v)->Ok_0) == kind_name(p),
{
}

/// An integer value either sets an integer (a short, an int or a long) or
/// is refused as out of range: it never becomes a float.
pub proof fn lemma_set_integer_stays_integer(p: PropV, v: ScriptValue)
    requires
        v.as_i64 is Some || v.oversized_int is Some,
    ensures
        set_outcome(p, v) matches Ok(q) ==> (q is Short || q is Int || q is Long),
        v.as_i64 is None ==> set_outcome(p, v) is Err,
{
}

// ── Reading one node ────────────────────────────────────────────────

/// The names of a property's children, in order (none for a property
/// without children).
pub open spec fn child_names_of(p: PropV) -> Seq<Seq<char>> {
    match children_of(p) {
        Some(ch) => Seq::new(ch.len(), |i: int| ch[i].0),
        None => Seq::empty(),
    }
}

/// The names of a property's children (see [`child_names_of`]).
pub fn child_names(p: &WzProperty) -> (r: Vec<String>)
    ensures
        Seq::new(r@.len(), |i: int| r@[i]@) == child_names_of(p.model()),
{
    let mut out: Vec<String> = Vec::new();
    match p.children() {
        None => {
            assert(Seq::new(out@.len(), |i: int| out@[i]@) =~= Seq::<Seq<char>>::empty());
        },
        Some(ch) => {
            let ghost l = props_model(ch@);
            proof {
                lemma_props_model(ch@);
            }
            let mut i: usize = 0;
            while i < ch.len()
                invariant
                    0 <= i <= ch.len(),
                    l == props_model(ch@),
                    l.len() == ch@.len(),
                    forall|k: int| 0 <= k < ch@.len() ==> #[trigger] l[k] == (ch@[k].0@, ch@[k].1.model()),
                    out@.len() == i,
                    forall|k: int| 0 <= k < i ==> #[trigger] out@[k]@ == l[k].0,
                decreases ch.len() - i,
            {
                out.push(string_from_chars(str_chars(ch[i].0.as_str()).as_slice()));
                i = i + 1;
            }
            assert(Seq::new(out@.len(), |k: int| out@[k]@) =~= Seq::new(l.len(), |k: int| l[k].0));
        },
    }
    out
}

/// Why a canvas could not be decoded.
#[derive(Debug)]
pub enum CanvasReadError {
    /// The node is not a canvas (its type name).
    NotCanvas(String),
    /// Decompressing or decoding failed.
    Failed(WzError),
}

/// Whether a canvas's data can be handed to the decompressor with `key` and
/// its size to the decoder.
pub open spec fn canvas_readable(p: PropV, key: Seq<u8>) -> bool {
    match p {
        PropV::Canvas { width, height, scale, png_data, .. } => canvas_range_ok(png_data) && blocks_sized(
            canvas_bytes(png_data),
            Some(key),
        ) && canvas_decodable(width, height, scale),
        _ => true,
    }
}

/// Whether `raw` decodes to the RGBA8888 image `rgba` at `w × h` under the
/// scale exponent `scale` (see [`decode_canvas_pixels`]).
pub open spec fn decodes_to(raw: Seq<u8>, w: u32, h: u32, scale: u8, format: WzPngFormat, rgba: Seq<u8>) -> bool {
    spec_decode_canvas_pixels(raw, w, h, scale, format) == Ok::<Seq<u8>, ErrV>(rgba)
}

/// What [`canvas_rgba`] gives for a canvas: its data decompressed with the
/// key ([`decompressed`]) and decoded to the canvas's full size, a scaled
/// canvas enlarged from its stored size ([`spec_decode_canvas_pixels`]),
/// with that size; or the first error.
pub open spec fn canvas_pixels(p: PropV, key: Seq<u8>) -> Result<(Seq<u8>, u32, u32), ErrV> {
    match p {
        PropV::Canvas { width, height, format, scale, png_data, .. } => match decompressed(canvas_bytes(png_data), Some(key)) {
            Err(e) => Err(e),
            Ok(raw) => match spec_decode_canvas_pixels(raw, width as u32, height as u32, scale, format) {
                Ok(rgba) => Ok((rgba, width as u32, height as u32)),
                Err(e) => Err(e),
            },
        },
        _ => Err(ErrV::Custom(Seq::empty())),
    }
}

/// A canvas's pixels as RGBA8888 with its width and height (see
/// [`canvas_pixels`]); a non-canvas is refused with its type name.
pub fn canvas_rgba(p: &WzProperty, key: &[u8]) -> (r: Result<(Vec<u8>, u32, u32), CanvasReadError>)
    requires
        canvas_readable(p.model(), key@),
    ensures
        !(p.model() is Canvas) ==> (r matches Err(CanvasReadError::NotCanvas(k)) && k@ == kind_name(p.model())),
        p.model() is Canvas && canvas_pixels(p.model(), key@) is Err ==> (r matches Err(CanvasReadError::Failed(x))
            && x@ == canvas_pixels(p.model(), key@)->Err_0),
        p.model() is Canvas && canvas_pixels(p.model(), key@) is Ok ==> (r is Ok && r->Ok_0.0@ == canvas_pixels(
            p.model(),
            key@,
        )->Ok_0.0 && r->Ok_0.1 == canvas_pixels(p.model(), key@)->Ok_0.1 && r->Ok_0.2 == canvas_pixels(
            p.model(),
            key@,
        )->Ok_0.2),
        r is Ok ==> exists|raw: Seq<u8>| #[trigger] decodes_to(raw, r->Ok_0.1, r->Ok_0.2, p.model()->scale, p.model()->format, r->Ok_0.0@),
{
    match p {
        WzProperty::Canvas { width, height, format, scale, png_data, .. } => {
            let bytes = png_data.as_bytes();
            let ghost inp = sp_inflate_input(bytes@, Some(key@));
            let raw = match decompress_png_data(bytes, Some(key)) {
                Ok(v) => v,
                Err(e) => {
                    return Err(CanvasReadError::Failed(e));
                },
            };
            assert(inp is Ok);
            let w = #[verifier::truncate] (*width as u32);
            let h = #[verifier::truncate] (*height as u32);
            match decode_canvas_pixels(raw.as_slice(), w, h, *scale, *format) {
                Ok(rgba) => {
                    let res: Result<(Vec<u8>, u32, u32), CanvasReadError> = Ok((rgba, w, h));
                    assert(decodes_to(raw@, res->Ok_0.1, res->Ok_0.2, p.model()->scale, p.model()->format, res->Ok_0.0@));
                    res
                },
                Err(e) => {
                    let r: Result<(Vec<u8>, u32, u32), CanvasReadError> = Err(CanvasReadError::Failed(e));
                    assert(!(inp is Err));
                    r
                },
            }
        },
        other => {
            let k = kind_string(other);
            assert(!(p.model() is Canvas));
            assert(k@ == kind_name(p.model()));
            Err(CanvasReadError::NotCanvas(k))
        },
    }
}

} // verus!
