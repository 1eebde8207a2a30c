//! WZ XML export (the WzLib / HaRepacker convention used by server tools).
//! Server mode writes no binary data; client mode adds base64 `basedata`.
use vstd::prelude::*;
use crate::property::{WzProperty, PropV, PropList, CanvasV, CanvasData, props_model, lemma_props_model};
use crate::text::{decimal, decimal_i64, decimal_u64, str_chars, push_all, string_from_chars};
use crate::b64::{base64_encoding, base64_encode};

verus! {

/// Whether binary data is written.
#[derive(Clone, Copy, Debug, PartialEq, Eq, Structural)]
pub enum XmlMode {
    /// Server mode: no binary data; canvas, sound, Lua and raw data are
    /// metadata-only stubs.
    MetadataOnly,
    /// Client mode: binary data base64-encoded in `basedata` attributes.
    WithBinaryData,
}

/// One character escaped for an XML attribute value.
pub open spec fn escape_char(c: char) -> Seq<char> {
    if c == '&' {
        "&amp;"@
    } else if c == '<' {
        "&lt;"@
    } else if c == '>' {
        "&gt;"@
    } else if c == '"' {
        "&quot;"@
    } else {
        seq![c]
    }
}

/// `s` with `&`, `<`, `>` and `"` escaped as entities.
pub open spec fn xml_escape(s: Seq<char>) -> Seq<char>
    decreases s.len(),
{
    if s.len() == 0 {
        Seq::empty()
    } else {
        xml_escape(s.drop_last()) + escape_char(s.last())
    }
}

/// Two spaces per nesting level.
pub open spec fn indent(depth: nat) -> Seq<char> {
    Seq::new(2 * depth, |i: int| ' ')
}

/// Whether an `f32` bit pattern is finite (its exponent is not all ones).
pub open spec fn f32_finite(bits: u32) -> bool {
    (bits >> 23u32) & 0xFFu32 != 0xFFu32
}

/// Whether an `f64` bit pattern is finite (its exponent is not all ones).
pub open spec fn f64_finite(bits: u64) -> bool {
    (bits >> 52u64) & 0x7FFu64 != 0x7FFu64
}

/// The text written for the float numbered `k` of a document: its rendering
/// from `texts` when finite and present, `0` otherwise.
pub open spec fn float_text(texts: Seq<Seq<char>>, k: int, finite: bool) -> Seq<char> {
    if finite && 0 <= k < texts.len() {
        texts[k]
    } else {
        "0"@
    }
}

/// The PNG written for the canvas numbered `k` of a document, if any.
pub open spec fn png_at(pngs: Seq<Option<Seq<u8>>>, k: int) -> Option<Seq<u8>> {
    if 0 <= k < pngs.len() {
        pngs[k]
    } else {
        None
    }
}

/// `v` as four little-endian bytes.
pub open spec fn le32_bytes(v: u32) -> Seq<u8> {
    seq![(v % 256) as u8, ((v / 256) % 256) as u8, ((v / 65536) % 256) as u8, (v / 16777216) as u8]
}

/// A sound's header and data in one blob: the header length (`u32`, little
/// endian, truncated to 32 bits), the header, then the data.
pub open spec fn sound_blob(header: Seq<u8>, data: Seq<u8>) -> Seq<u8> {
    le32_bytes((header.len() % 0x1_0000_0000) as u32) + header + data
}

/// How an element ends: with no children it is closed in place, else the
/// children's lines follow and a closing tag on a line of its own.
pub open spec fn element_tail(body: Seq<char>, empty: bool, depth: nat, tag: Seq<char>) -> Seq<char> {
    if empty {
        "/>\n"@
    } else {
        ">\n"@ + body + indent(depth) + "</"@ + tag + ">\n"@
    }
}

/// Where a document's floats and canvases are numbered from, and which
/// renderings are available for them.
pub struct XmlInputs {
    pub texts: Seq<Seq<char>>,
    pub pngs: Seq<Option<Seq<u8>>>,
}

/// The XML for one property named `name` at nesting `depth`, with the
/// document's floats numbered from `fi` and canvases from `ci`; also the
/// numbers the next property starts from.
pub open spec fn xml_prop(name: Seq<char>, p: PropV, mode: XmlMode, depth: nat, ins: XmlInputs, fi: int, ci: int) -> (Seq<char>, int, int)
    decreases p, 0int,
{
    let ind = indent(depth);
    let nm = xml_escape(name);
    let bin = mode == XmlMode::WithBinaryData;
    match p {
        PropV::Null => (ind + "<null name=\""@ + nm + "\"/>\n"@, fi, ci),
        PropV::Short(v) => (ind + "<short name=\""@ + nm + "\" value=\""@ + decimal(v as int) + "\"/>\n"@, fi, ci),
        PropV::Int(v) => (ind + "<int name=\""@ + nm + "\" value=\""@ + decimal(v as int) + "\"/>\n"@, fi, ci),
        PropV::Long(v) => (ind + "<long name=\""@ + nm + "\" value=\""@ + decimal(v as int) + "\"/>\n"@, fi, ci),
        PropV::Float(bits) => (
            ind + "<float name=\""@ + nm + "\" value=\""@ + float_text(ins.texts, fi, f32_finite(bits)) + "\"/>\n"@,
            fi + 1,
            ci,
        ),
        PropV::Double(bits) => (
            ind + "<double name=\""@ + nm + "\" value=\""@ + float_text(ins.texts, fi, f64_finite(bits)) + "\"/>\n"@,
            fi + 1,
            ci,
        ),
        PropV::String(v) => (ind + "<string name=\""@ + nm + "\" value=\""@ + xml_escape(v) + "\"/>\n"@, fi, ci),
        PropV::Uol(v) => (ind + "<uol name=\""@ + nm + "\" value=\""@ + xml_escape(v) + "\"/>\n"@, fi, ci),
        PropV::Vector { x, y } => (
            ind + "<vector name=\""@ + nm + "\" x=\""@ + decimal(x as int) + "\" y=\""@ + decimal(y as int) + "\"/>\n"@,
            fi,
            ci,
        ),
        PropV::SubProperty(ch) => xml_container(ind + "<imgdir name=\""@ + nm + "\""@, ch, "imgdir"@, mode, depth, ins, fi, ci),
        PropV::Canvas { width, height, format, scale, properties, png_data } => {
            let data = if bin {
                match png_at(ins.pngs, ci) {
                    Some(png) => " basedata=\""@ + base64_encoding(png) + "\""@,
                    None => Seq::empty(),
                }
            } else {
                Seq::empty()
            };
            let c1 = if bin { ci + 1 } else { ci };
            let open = ind + "<canvas name=\""@ + nm + "\" width=\""@ + decimal(width as int) + "\" height=\""@
                + decimal(height as int) + "\""@ + data;
            xml_container(open, properties, "canvas"@, mode, depth, ins, fi, c1)
        },
        PropV::Convex(points) => xml_container(ind + "<convex name=\""@ + nm + "\""@, points, "convex"@, mode, depth, ins, fi, ci),
        PropV::Sound { duration_ms, header, data } => {
            let extra = if bin {
                " duration=\""@ + decimal(duration_ms as int) + "\" basedata=\""@ + base64_encoding(sound_blob(header, data))
                    + "\""@
            } else {
                Seq::empty()
            };
            (ind + "<sound name=\""@ + nm + "\""@ + extra + "/>\n"@, fi, ci)
        },
        PropV::Lua(data) => {
            let extra = if bin {
                " basedata=\""@ + base64_encoding(data) + "\""@
            } else {
                Seq::empty()
            };
            (ind + "<lua name=\""@ + nm + "\""@ + extra + "/>\n"@, fi, ci)
        },
        PropV::RawData { raw_type, properties, data } => {
            let extra = if bin {
                " basedata=\""@ + base64_encoding(data) + "\""@
            } else {
                Seq::empty()
            };
            let open = ind + "<rawdata name=\""@ + nm + "\" type=\""@ + decimal(raw_type as int) + "\""@ + extra;
            xml_container(open, properties, "rawdata"@, mode, depth, ins, fi, ci)
        },
        PropV::Video { video_type, properties, data_length, .. } => {
            let open = ind + "<video name=\""@ + nm + "\" type=\""@ + decimal(video_type as int) + "\" dataLength=\""@
                + decimal(data_length as int) + "\""@;
            xml_container(open, properties, "video"@, mode, depth, ins, fi, ci)
        },
    }
}

/// An element whose start `open` has been written, holding the entries of
/// `l` one level deeper, ending as [`element_tail`] says.
pub open spec fn xml_container(open: Seq<char>, l: PropList, tag: Seq<char>, mode: XmlMode, depth: nat, ins: XmlInputs, fi: int, ci: int) -> (Seq<char>, int, int)
    decreases l, l.len() + 1,
{
    let (body, f2, c2) = xml_list(l, 0, mode, depth + 1, ins, fi, ci);
    (open + element_tail(body, l.len() == 0, depth, tag), f2, c2)
}

/// The XML for the entries of `list` from index `i` on.
pub open spec fn xml_list(list: PropList, i: int, mode: XmlMode, depth: nat, ins: XmlInputs, fi: int, ci: int) -> (Seq<char>, int, int)
    decreases list, list.len() - i,
{
    if i < 0 || i >= list.len() {
        (Seq::empty(), fi, ci)
    } else {
        proof {
            assert(decreases_to!(list => list[i]));
        }
        let (head, f1, c1) = xml_prop(list[i].0, list[i].1, mode, depth, ins, fi, ci);
        let (rest, f2, c2) = xml_list(list, i + 1, mode, depth, ins, f1, c1);
        (head + rest, f2, c2)
    }
}

/// A whole document: the XML declaration, then a root `imgdir` named
/// `img_name` holding the properties.
pub open spec fn xml_document(img_name: Seq<char>, props: PropList, mode: XmlMode, ins: XmlInputs) -> Seq<char> {
    "<?xml version=\"1.0\" encoding=\"UTF-8\" standalone=\"yes\"?>\n"@ + "<imgdir name=\""@ + xml_escape(img_name)
        + "\">\n"@ + xml_list(props, 0, mode, 1, ins, 0, 0).0 + "</imgdir>\n"@
}


/// Nesting height of a property: 0 for a leaf, one more than its tallest
/// child for a container.
pub open spec fn prop_height(p: PropV) -> nat
    decreases p, 0int,
{
    match p {
        PropV::SubProperty(ch) => 1 + list_height(ch, 0),
        PropV::Canvas { properties, .. } => 1 + list_height(properties, 0),
        PropV::Convex(points) => 1 + list_height(points, 0),
        PropV::RawData { properties, .. } => 1 + list_height(properties, 0),
        PropV::Video { properties, .. } => 1 + list_height(properties, 0),
        _ => 0,
    }
}

/// The tallest height among the entries of `l` from index `i` on.
pub open spec fn list_height(l: PropList, i: int) -> nat
    decreases l, l.len() - i,
{
    if i < 0 || i >= l.len() {
        0
    } else {
        proof {
            assert(decreases_to!(l => l[i]));
        }
        let h = prop_height(l[i].1);
        let r = list_height(l, i + 1);
        if h > r {
            h
        } else {
            r
        }
    }
}

pub proof fn lemma_list_height(l: PropList, i: int, j: int)
    requires
        0 <= i <= j,
    ensures
        list_height(l, j) <= list_height(l, i),
        j < l.len() ==> prop_height(l[j].1) <= list_height(l, i),
    decreases j - i,
{
    if i < j {
        lemma_list_height(l, i + 1, j);
    }
}

/// How deep a document may nest: far beyond any real image, it keeps
/// indentation and depth counters within machine integers.
pub const MAX_XML_DEPTH: usize = 0x1000_0000;

/// The renderings handed to the writer, as sequences.
pub open spec fn inputs_view(texts: Seq<String>, pngs: Seq<Option<Vec<u8>>>) -> XmlInputs {
    XmlInputs {
        texts: Seq::new(texts.len(), |i: int| texts[i]@),
        pngs: Seq::new(
            pngs.len(),
            |i: int|
                match pngs[i] {
                    Some(v) => Some(v@),
                    None => None,
                },
        ),
    }
}

/// A running number, held at most at `n` (all that matters once it passes
/// the end of the renderings).
pub open spec fn capped(k: int, n: int) -> int {
    if k < n {
        k
    } else {
        n
    }
}

pub(crate) fn push_str(out: &mut Vec<char>, s: &str)
    ensures
        final(out)@ == old(out)@ + s@,
{
    let cs = str_chars(s);
    push_all(out, cs.as_slice());
}

fn push_escaped(out: &mut Vec<char>, s: &str)
    ensures
        final(out)@ == old(out)@ + xml_escape(s@),
{
    let cs = str_chars(s);
    let ghost start = out@;
    let mut i: usize = 0;
    while i < cs.len()
        invariant
            0 <= i <= cs.len(),
            cs@ == s@,
            out@ == start + xml_escape(cs@.subrange(0, i as int)),
        decreases cs.len() - i,
    {
        let c = cs[i];
        if c == '&' {
            push_str(out, "&amp;");
        } else if c == '<' {
            push_str(out, "&lt;");
        } else if c == '>' {
            push_str(out, "&gt;");
        } else if c == '"' {
            push_str(out, "&quot;");
        } else {
            out.push(c);
        }
        proof {
            let pre = cs@.subrange(0, i + 1);
            assert(pre.drop_last() =~= cs@.subrange(0, i as int));
            assert(pre.last() == c);
            assert(out@ =~= start + xml_escape(pre));
        }
        i = i + 1;
    }
    assert(cs@.subrange(0, cs.len() as int) =~= s@);
}

fn push_indent(out: &mut Vec<char>, depth: usize)
    requires
        depth <= MAX_XML_DEPTH,
    ensures
        final(out)@ == old(out)@ + indent(depth as nat),
{
    let ghost start = out@;
    let mut i: usize = 0;
    while i < 2 * depth
        invariant
            depth <= MAX_XML_DEPTH,
            i <= 2 * depth,
            out@ =~= start + Seq::new(i as nat, |k: int| ' '),
        decreases 2 * depth - i,
    {
        out.push(' ');
        i = i + 1;
    }
}

fn indent_line(depth: usize) -> (line: Vec<char>)
    requires
        depth <= MAX_XML_DEPTH,
    ensures
        line@ == indent(depth as nat),
{
    let mut line: Vec<char> = Vec::new();
    push_indent(&mut line, depth);
    assert(line@ =~= indent(depth as nat));
    line
}

pub(crate) fn push_decimal(out: &mut Vec<char>, v: i64)
    ensures
        final(out)@ == old(out)@ + decimal(v as int),
{
    let d = decimal_i64(v);
    push_all(out, d.as_slice());
}

fn push_base64(out: &mut Vec<char>, bytes: &[u8])
    ensures
        final(out)@ == old(out)@ + base64_encoding(bytes@),
{
    let s = base64_encode(bytes);
    let cs = str_chars(s.as_str());
    push_all(out, cs.as_slice());
}

/// A sound's header and data packed into one blob (see [`sound_blob`]).
pub fn pack_sound_blob(header: &[u8], data: &[u8]) -> (blob: Vec<u8>)
    ensures
        blob@ == sound_blob(header@, data@),
{
    let n: u32 = (header.len() as u64 % 0x1_0000_0000u64) as u32;
    let mut blob: Vec<u8> = Vec::new();
    blob.push((n % 256) as u8);
    blob.push(((n / 256) % 256) as u8);
    blob.push(((n / 65536) % 256) as u8);
    blob.push((n / 16777216) as u8);
    push_all(&mut blob, header);
    push_all(&mut blob, data);
    assert(blob@ =~= sound_blob(header@, data@));
    blob
}


fn write_float(out: &mut Vec<char>, finite: bool, texts: &[String], fi: &mut usize)
    requires
        *old(fi) <= texts.len(),
    ensures
        final(out)@ == old(out)@ + float_text(inputs_view(texts@, Seq::empty()).texts, *old(fi) as int, finite),
        *final(fi) == capped(*old(fi) + 1, texts.len() as int),
{
    if finite && *fi < texts.len() {
        push_str(out, texts[*fi].as_str());
    } else {
        push_str(out, "0");
    }
    if *fi < texts.len() {
        *fi = *fi + 1;
    }
}

/// Writes an element whose start is `open`: `open`, then its children one
/// level deeper and a closing tag, or a self-closing end (see
/// [`xml_container`]).
fn write_element(
    out: &mut Vec<char>,
    open: &Vec<char>,
    list: &Vec<(String, WzProperty)>,
    tag: &str,
    mode: XmlMode,
    depth: usize,
    texts: &[String],
    pngs: &[Option<Vec<u8>>],
    fi: &mut usize,
    ci: &mut usize,
    Ghost(sfi): Ghost<int>,
    Ghost(sci): Ghost<int>,
)
    requires
        depth + 1 + list_height(props_model(list@), 0) <= MAX_XML_DEPTH,
        0 <= sfi,
        0 <= sci,
        *old(fi) == capped(sfi, texts.len() as int),
        *old(ci) == capped(sci, pngs.len() as int),
    ensures
        ({
            let (t, f2, c2) = xml_container(open@, props_model(list@), tag@, mode, depth as nat, inputs_view(texts@, pngs@), sfi, sci);
            &&& final(out)@ == old(out)@ + t
            &&& f2 >= sfi
            &&& c2 >= sci
            &&& *final(fi) == capped(f2, texts.len() as int)
            &&& *final(ci) == capped(c2, pngs.len() as int)
        }),
    decreases list, 1int,
{
    proof {
        lemma_props_model(list@);
    }
    let ghost start = out@;
    let ghost body = xml_list(props_model(list@), 0, mode, (depth + 1) as nat, inputs_view(texts@, pngs@), sfi, sci).0;
    push_all(out, open.as_slice());
    if list.len() == 0 {
        push_str(out, "/>\n");
        assert(out@ =~= start + (open@ + "/>\n"@));
    } else {
        push_str(out, ">\n");
        write_children(out, list, mode, depth + 1, texts, pngs, fi, ci, Ghost(sfi), Ghost(sci));
        push_indent(out, depth);
        push_str(out, "</");
        push_str(out, tag);
        push_str(out, ">\n");
        assert(out@ =~= start + (open@ + (">\n"@ + body + indent(depth as nat) + "</"@ + tag@ + ">\n"@)));
    }
}

fn write_children(
    out: &mut Vec<char>,
    list: &Vec<(String, WzProperty)>,
    mode: XmlMode,
    depth: usize,
    texts: &[String],
    pngs: &[Option<Vec<u8>>],
    fi: &mut usize,
    ci: &mut usize,
    Ghost(sfi): Ghost<int>,
    Ghost(sci): Ghost<int>,
)
    requires
        depth + list_height(props_model(list@), 0) <= MAX_XML_DEPTH,
        0 <= sfi,
        0 <= sci,
        *old(fi) == capped(sfi, texts.len() as int),
        *old(ci) == capped(sci, pngs.len() as int),
    ensures
        ({
            let (body, f2, c2) = xml_list(props_model(list@), 0, mode, depth as nat, inputs_view(texts@, pngs@), sfi, sci);
            &&& final(out)@ == old(out)@ + body
            &&& f2 >= sfi
            &&& c2 >= sci
            &&& *final(fi) == capped(f2, texts.len() as int)
            &&& *final(ci) == capped(c2, pngs.len() as int)
        }),
    decreases list, 0int,
{
    let ghost l = props_model(list@);
    let ghost ins = inputs_view(texts@, pngs@);
    let ghost start = out@;
    proof {
        lemma_props_model(list@);
    }
    let ghost mut acc: Seq<char> = Seq::empty();
    let ghost mut gf: int = sfi;
    let ghost mut gc: int = sci;
    let mut i: usize = 0;
    assert(acc + xml_list(l, 0, mode, depth as nat, ins, gf, gc).0 =~= xml_list(l, 0, mode, depth as nat, ins, gf, gc).0);
    while i < list.len()
        invariant
            0 <= i <= list.len(),
            l == props_model(list@),
            l.len() == list@.len(),
            forall|k: int| 0 <= k < list@.len() ==> #[trigger] l[k] == (list@[k].0@, list@[k].1.model()),
            ins == inputs_view(texts@, pngs@),
            depth + list_height(l, 0) <= MAX_XML_DEPTH,
            out@ == start + acc,
            gf >= sfi,
            gc >= sci,
            *fi == capped(gf, texts.len() as int),
            *ci == capped(gc, pngs.len() as int),
            xml_list(l, 0, mode, depth as nat, ins, sfi, sci) == ({
                let (rest, f2, c2) = xml_list(l, i as int, mode, depth as nat, ins, gf, gc);
                (acc + rest, f2, c2)
            }),
        decreases list.len() - i,
    {
        let entry = &list[i];
        proof {
            lemma_list_height(l, 0, i as int);
            assert(decreases_to!(list => list@[i as int]));
        }
        let ghost (head, f1, c1) = xml_prop(l[i as int].0, l[i as int].1, mode, depth as nat, ins, gf, gc);
        let ghost (rest, f2, c2) = xml_list(l, i + 1, mode, depth as nat, ins, f1, c1);
        write_prop(out, entry.0.as_str(), &entry.1, mode, depth, texts, pngs, fi, ci, Ghost(gf), Ghost(gc));
        proof {
            assert(acc + (head + rest) =~= (acc + head) + rest);
            acc = acc + head;
            gf = f1;
            gc = c1;
        }
        i = i + 1;
    }
    assert(acc + Seq::<char>::empty() =~= acc);
}

fn write_leaf(
    out: &mut Vec<char>,
    name: &str,
    prop: &WzProperty,
    mode: XmlMode,
    depth: usize,
    texts: &[String],
    pngs: &[Option<Vec<u8>>],
    fi: &mut usize,
    ci: &mut usize,
    Ghost(sfi): Ghost<int>,
    Ghost(sci): Ghost<int>,
)
    requires
        !(prop is SubProperty || prop is Convex || prop is Canvas || prop is RawData || prop is Video),
        depth + prop_height(prop.model()) <= MAX_XML_DEPTH,
        0 <= sfi,
        0 <= sci,
        *old(fi) == capped(sfi, texts.len() as int),
        *old(ci) == capped(sci, pngs.len() as int),
    ensures
        ({
            let (t, f2, c2) = xml_prop(name@, prop.model(), mode, depth as nat, inputs_view(texts@, pngs@), sfi, sci);
            &&& final(out)@ == old(out)@ + t
            &&& f2 >= sfi
            &&& c2 >= sci
            &&& *final(fi) == capped(f2, texts.len() as int)
            &&& *final(ci) == capped(c2, pngs.len() as int)
        }),
    decreases prop, 0int,
{

    let ghost start = out@;
    let ghost ins = inputs_view(texts@, pngs@);
    let mut line = indent_line(depth);
    match prop {
        WzProperty::Null => {
            push_str(&mut line, "<null name=\"");
            push_escaped(&mut line, name);
            push_str(&mut line, "\"/>\n");
            assert(line@ == xml_prop(name@, prop.model(), mode, depth as nat, ins, sfi, sci).0);
            push_all(out, line.as_slice());
        },
        WzProperty::Short(v) => {
            push_str(&mut line, "<short name=\"");
            push_escaped(&mut line, name);
            push_str(&mut line, "\" value=\"");
            push_decimal(&mut line, *v as i64);
            push_str(&mut line, "\"/>\n");
            assert(line@ == xml_prop(name@, prop.model(), mode, depth as nat, ins, sfi, sci).0);
            push_all(out, line.as_slice());
        },
        WzProperty::Int(v) => {
            push_str(&mut line, "<int name=\"");
            push_escaped(&mut line, name);
            push_str(&mut line, "\" value=\"");
            push_decimal(&mut line, *v as i64);
            push_str(&mut line, "\"/>\n");
            assert(line@ == xml_prop(name@, prop.model(), mode, depth as nat, ins, sfi, sci).0);
            push_all(out, line.as_slice());
        },
        WzProperty::Long(v) => {
            push_str(&mut line, "<long name=\"");
            push_escaped(&mut line, name);
            push_str(&mut line, "\" value=\"");
            push_decimal(&mut line, *v);
            push_str(&mut line, "\"/>\n");
            assert(line@ == xml_prop(name@, prop.model(), mode, depth as nat, ins, sfi, sci).0);
            push_all(out, line.as_slice());
        },
        WzProperty::Float(bits) => {
            push_str(&mut line, "<float name=\"");
            push_escaped(&mut line, name);
            push_str(&mut line, "\" value=\"");
            write_float(&mut line, (*bits >> 23u32) & 0xFFu32 != 0xFFu32, texts, fi);
            push_str(&mut line, "\"/>\n");
            assert(line@ == xml_prop(name@, prop.model(), mode, depth as nat, ins, sfi, sci).0);
            push_all(out, line.as_slice());
        },
        WzProperty::Double(bits) => {
            push_str(&mut line, "<double name=\"");
            push_escaped(&mut line, name);
            push_str(&mut line, "\" value=\"");
            write_float(&mut line, (*bits >> 52u64) & 0x7FFu64 != 0x7FFu64, texts, fi);
            push_str(&mut line, "\"/>\n");
            assert(line@ == xml_prop(name@, prop.model(), mode, depth as nat, ins, sfi, sci).0);
            push_all(out, line.as_slice());
        },
        WzProperty::String(v) => {
            push_str(&mut line, "<string name=\"");
            push_escaped(&mut line, name);
            push_str(&mut line, "\" value=\"");
            push_escaped(&mut line, v.as_str());
            push_str(&mut line, "\"/>\n");
            assert(line@ == xml_prop(name@, prop.model(), mode, depth as nat, ins, sfi, sci).0);
            push_all(out, line.as_slice());
        },
        WzProperty::Uol(v) => {
            push_str(&mut line, "<uol name=\"");
            push_escaped(&mut line, name);
            push_str(&mut line, "\" value=\"");
            push_escaped(&mut line, v.as_str());
            push_str(&mut line, "\"/>\n");
            assert(line@ == xml_prop(name@, prop.model(), mode, depth as nat, ins, sfi, sci).0);
            push_all(out, line.as_slice());
        },
        WzProperty::Vector { x, y } => {
            push_str(&mut line, "<vector name=\"");
            push_escaped(&mut line, name);
            push_str(&mut line, "\" x=\"");
            push_decimal(&mut line, *x as i64);
            push_str(&mut line, "\" y=\"");
            push_decimal(&mut line, *y as i64);
            push_str(&mut line, "\"/>\n");
            assert(line@ == xml_prop(name@, prop.model(), mode, depth as nat, ins, sfi, sci).0);
            push_all(out, line.as_slice());
        },
        WzProperty::Sound { duration_ms, header, data } => {
            push_str(&mut line, "<sound name=\"");
            push_escaped(&mut line, name);
            push_str(&mut line, "\"");
            if mode == XmlMode::WithBinaryData {
                let blob = pack_sound_blob(header.as_slice(), data.as_slice());
                push_str(&mut line, " duration=\"");
                push_decimal(&mut line, *duration_ms as i64);
                push_str(&mut line, "\" basedata=\"");
                push_base64(&mut line, blob.as_slice());
                push_str(&mut line, "\"");
            }
            push_str(&mut line, "/>\n");
            assert(line@ == xml_prop(name@, prop.model(), mode, depth as nat, ins, sfi, sci).0);
            push_all(out, line.as_slice());
        },
        WzProperty::Lua(data) => {
            push_str(&mut line, "<lua name=\"");
            push_escaped(&mut line, name);
            push_str(&mut line, "\"");
            if mode == XmlMode::WithBinaryData {
                push_str(&mut line, " basedata=\"");
                push_base64(&mut line, data.as_slice());
                push_str(&mut line, "\"");
            }
            push_str(&mut line, "/>\n");
            assert(line@ == xml_prop(name@, prop.model(), mode, depth as nat, ins, sfi, sci).0);
            push_all(out, line.as_slice());
        },
        _ => {},
    }
}

fn write_subproperty(
    out: &mut Vec<char>,
    name: &str,
    prop: &WzProperty,
    mode: XmlMode,
    depth: usize,
    texts: &[String],
    pngs: &[Option<Vec<u8>>],
    fi: &mut usize,
    ci: &mut usize,
    Ghost(sfi): Ghost<int>,
    Ghost(sci): Ghost<int>,
)
    requires
        prop is SubProperty,
        depth + prop_height(prop.model()) <= MAX_XML_DEPTH,
        0 <= sfi,
        0 <= sci,
        *old(fi) == capped(sfi, texts.len() as int),
        *old(ci) == capped(sci, pngs.len() as int),
    ensures
        ({
            let (t, f2, c2) = xml_prop(name@, prop.model(), mode, depth as nat, inputs_view(texts@, pngs@), sfi, sci);
            &&& final(out)@ == old(out)@ + t
            &&& f2 >= sfi
            &&& c2 >= sci
            &&& *final(fi) == capped(f2, texts.len() as int)
            &&& *final(ci) == capped(c2, pngs.len() as int)
        }),
    decreases prop, 0int,
{
    let ghost start = out@;
    let ghost ins = inputs_view(texts@, pngs@);
    let mut line = indent_line(depth);
    match prop {
        WzProperty::SubProperty { properties } => {
            push_str(&mut line, "<imgdir name=\"");
            push_escaped(&mut line, name);
            push_str(&mut line, "\"");
            let ghost open = out@;
            write_element(out, &line, properties, "imgdir", mode, depth, texts, pngs, fi, ci, Ghost(sfi), Ghost(sci));
            assert(out@ =~= start + xml_prop(name@, prop.model(), mode, depth as nat, ins, sfi, sci).0);
        },
        _ => {},
    }
}

fn write_convex(
    out: &mut Vec<char>,
    name: &str,
    prop: &WzProperty,
    mode: XmlMode,
    depth: usize,
    texts: &[String],
    pngs: &[Option<Vec<u8>>],
    fi: &mut usize,
    ci: &mut usize,
    Ghost(sfi): Ghost<int>,
    Ghost(sci): Ghost<int>,
)
    requires
        prop is Convex,
        depth + prop_height(prop.model()) <= MAX_XML_DEPTH,
        0 <= sfi,
        0 <= sci,
        *old(fi) == capped(sfi, texts.len() as int),
        *old(ci) == capped(sci, pngs.len() as int),
    ensures
        ({
            let (t, f2, c2) = xml_prop(name@, prop.model(), mode, depth as nat, inputs_view(texts@, pngs@), sfi, sci);
            &&& final(out)@ == old(out)@ + t
            &&& f2 >= sfi
            &&& c2 >= sci
            &&& *final(fi) == capped(f2, texts.len() as int)
            &&& *final(ci) == capped(c2, pngs.len() as int)
        }),
    decreases prop, 0int,
{
    let ghost start = out@;
    let ghost ins = inputs_view(texts@, pngs@);
    let mut line = indent_line(depth);
    match prop {
        WzProperty::Convex { points } => {
            push_str(&mut line, "<convex name=\"");
            push_escaped(&mut line, name);
            push_str(&mut line, "\"");
            write_element(out, &line, points, "convex", mode, depth, texts, pngs, fi, ci, Ghost(sfi), Ghost(sci));
            assert(out@ =~= start + xml_prop(name@, prop.model(), mode, depth as nat, ins, sfi, sci).0);
        },
        _ => {},
    }
}

#[verifier::rlimit(40)]
fn write_canvas(
    out: &mut Vec<char>,
    name: &str,
    prop: &WzProperty,
    mode: XmlMode,
    depth: usize,
    texts: &[String],
    pngs: &[Option<Vec<u8>>],
    fi: &mut usize,
    ci: &mut usize,
    Ghost(sfi): Ghost<int>,
    Ghost(sci): Ghost<int>,
)
    requires
        prop is Canvas,
        depth + prop_height(prop.model()) <= MAX_XML_DEPTH,
        0 <= sfi,
        0 <= sci,
        *old(fi) == capped(sfi, texts.len() as int),
        *old(ci) == capped(sci, pngs.len() as int),
    ensures
        ({
            let (t, f2, c2) = xml_prop(name@, prop.model(), mode, depth as nat, inputs_view(texts@, pngs@), sfi, sci);
            &&& final(out)@ == old(out)@ + t
            &&& f2 >= sfi
            &&& c2 >= sci
            &&& *final(fi) == capped(f2, texts.len() as int)
            &&& *final(ci) == capped(c2, pngs.len() as int)
        }),
    decreases prop, 0int,
{
    let ghost start = out@;
    let ghost ins = inputs_view(texts@, pngs@);
    let mut line = indent_line(depth);
    match prop {
        WzProperty::Canvas { width, height, properties, .. } => {
            push_str(&mut line, "<canvas name=\"");
            push_escaped(&mut line, name);
            push_str(&mut line, "\" width=\"");
            push_decimal(&mut line, *width as i64);
            push_str(&mut line, "\" height=\"");
            push_decimal(&mut line, *height as i64);
            push_str(&mut line, "\"");
            let ghost before = out@;
            if mode == XmlMode::WithBinaryData {
                if *ci < pngs.len() {
                    match &pngs[*ci] {
                        Some(png) => {
                            push_str(&mut line, " basedata=\"");
                            push_base64(&mut line, png.as_slice());
                            push_str(&mut line, "\"");
                        },
                        None => {},
                    }
                    *ci = *ci + 1;
                }
            }
            let ghost c1: int = if mode == XmlMode::WithBinaryData { sci + 1 } else { sci };
            write_element(out, &line, properties, "canvas", mode, depth, texts, pngs, fi, ci, Ghost(sfi), Ghost(c1));
            assert(out@ =~= start + xml_prop(name@, prop.model(), mode, depth as nat, ins, sfi, sci).0);
        },
        _ => {},
    }
}

fn write_rawdata(
    out: &mut Vec<char>,
    name: &str,
    prop: &WzProperty,
    mode: XmlMode,
    depth: usize,
    texts: &[String],
    pngs: &[Option<Vec<u8>>],
    fi: &mut usize,
    ci: &mut usize,
    Ghost(sfi): Ghost<int>,
    Ghost(sci): Ghost<int>,
)
    requires
        prop is RawData,
        depth + prop_height(prop.model()) <= MAX_XML_DEPTH,
        0 <= sfi,
        0 <= sci,
        *old(fi) == capped(sfi, texts.len() as int),
        *old(ci) == capped(sci, pngs.len() as int),
    ensures
        ({
            let (t, f2, c2) = xml_prop(name@, prop.model(), mode, depth as nat, inputs_view(texts@, pngs@), sfi, sci);
            &&& final(out)@ == old(out)@ + t
            &&& f2 >= sfi
            &&& c2 >= sci
            &&& *final(fi) == capped(f2, texts.len() as int)
            &&& *final(ci) == capped(c2, pngs.len() as int)
        }),
    decreases prop, 0int,
{
    let ghost start = out@;
    let ghost ins = inputs_view(texts@, pngs@);
    let mut line = indent_line(depth);
    match prop {
        WzProperty::RawData { raw_type, properties, data } => {
            push_str(&mut line, "<rawdata name=\"");
            push_escaped(&mut line, name);
            push_str(&mut line, "\" type=\"");
            push_decimal(&mut line, *raw_type as i64);
            push_str(&mut line, "\"");
            if mode == XmlMode::WithBinaryData {
                push_str(&mut line, " basedata=\"");
                push_base64(&mut line, data.as_slice());
                push_str(&mut line, "\"");
            }
            write_element(out, &line, properties, "rawdata", mode, depth, texts, pngs, fi, ci, Ghost(sfi), Ghost(sci));
            assert(out@ =~= start + xml_prop(name@, prop.model(), mode, depth as nat, ins, sfi, sci).0);
        },
        _ => {},
    }
}

fn write_video(
    out: &mut Vec<char>,
    name: &str,
    prop: &WzProperty,
    mode: XmlMode,
    depth: usize,
    texts: &[String],
    pngs: &[Option<Vec<u8>>],
    fi: &mut usize,
    ci: &mut usize,
    Ghost(sfi): Ghost<int>,
    Ghost(sci): Ghost<int>,
)
    requires
        prop is Video,
        depth + prop_height(prop.model()) <= MAX_XML_DEPTH,
        0 <= sfi,
        0 <= sci,
        *old(fi) == capped(sfi, texts.len() as int),
        *old(ci) == capped(sci, pngs.len() as int),
    ensures
        ({
            let (t, f2, c2) = xml_prop(name@, prop.model(), mode, depth as nat, inputs_view(texts@, pngs@), sfi, sci);
            &&& final(out)@ == old(out)@ + t
            &&& f2 >= sfi
            &&& c2 >= sci
            &&& *final(fi) == capped(f2, texts.len() as int)
            &&& *final(ci) == capped(c2, pngs.len() as int)
        }),
    decreases prop, 0int,
{
    let ghost start = out@;
    let ghost ins = inputs_view(texts@, pngs@);
    let mut line = indent_line(depth);
    match prop {
        WzProperty::Video { video_type, properties, data_length, .. } => {
            push_str(&mut line, "<video name=\"");
            push_escaped(&mut line, name);
            push_str(&mut line, "\" type=\"");
            push_decimal(&mut line, *video_type as i64);
            push_str(&mut line, "\" dataLength=\"");
            push_decimal(&mut line, *data_length as i64);
            push_str(&mut line, "\"");
            write_element(out, &line, properties, "video", mode, depth, texts, pngs, fi, ci, Ghost(sfi), Ghost(sci));
            assert(out@ =~= start + xml_prop(name@, prop.model(), mode, depth as nat, ins, sfi, sci).0);
        },
        _ => {},
    }
}

fn write_container(
    out: &mut Vec<char>,
    name: &str,
    prop: &WzProperty,
    mode: XmlMode,
    depth: usize,
    texts: &[String],
    pngs: &[Option<Vec<u8>>],
    fi: &mut usize,
    ci: &mut usize,
    Ghost(sfi): Ghost<int>,
    Ghost(sci): Ghost<int>,
)
    requires
        prop is SubProperty || prop is Convex || prop is Canvas || prop is RawData || prop is Video,
        depth + prop_height(prop.model()) <= MAX_XML_DEPTH,
        0 <= sfi,
        0 <= sci,
        *old(fi) == capped(sfi, texts.len() as int),
        *old(ci) == capped(sci, pngs.len() as int),
    ensures
        ({
            let (t, f2, c2) = xml_prop(name@, prop.model(), mode, depth as nat, inputs_view(texts@, pngs@), sfi, sci);
            &&& final(out)@ == old(out)@ + t
            &&& f2 >= sfi
            &&& c2 >= sci
            &&& *final(fi) == capped(f2, texts.len() as int)
            &&& *final(ci) == capped(c2, pngs.len() as int)
        }),
    decreases prop, 1int,
{
    match prop {
        WzProperty::SubProperty { .. } => write_subproperty(out, name, prop, mode, depth, texts, pngs, fi, ci, Ghost(sfi), Ghost(sci)),
        WzProperty::Convex { .. } => write_convex(out, name, prop, mode, depth, texts, pngs, fi, ci, Ghost(sfi), Ghost(sci)),
        WzProperty::Canvas { .. } => write_canvas(out, name, prop, mode, depth, texts, pngs, fi, ci, Ghost(sfi), Ghost(sci)),
        WzProperty::RawData { .. } => write_rawdata(out, name, prop, mode, depth, texts, pngs, fi, ci, Ghost(sfi), Ghost(sci)),
        WzProperty::Video { .. } => write_video(out, name, prop, mode, depth, texts, pngs, fi, ci, Ghost(sfi), Ghost(sci)),
        _ => {},
    }
}

fn write_prop(
    out: &mut Vec<char>,
    name: &str,
    prop: &WzProperty,
    mode: XmlMode,
    depth: usize,
    texts: &[String],
    pngs: &[Option<Vec<u8>>],
    fi: &mut usize,
    ci: &mut usize,
    Ghost(sfi): Ghost<int>,
    Ghost(sci): Ghost<int>,
)
    requires
        depth + prop_height(prop.model()) <= MAX_XML_DEPTH,
        0 <= sfi,
        0 <= sci,
        *old(fi) == capped(sfi, texts.len() as int),
        *old(ci) == capped(sci, pngs.len() as int),
    ensures
        ({
            let (t, f2, c2) = xml_prop(name@, prop.model(), mode, depth as nat, inputs_view(texts@, pngs@), sfi, sci);
            &&& final(out)@ == old(out)@ + t
            &&& f2 >= sfi
            &&& c2 >= sci
            &&& *final(fi) == capped(f2, texts.len() as int)
            &&& *final(ci) == capped(c2, pngs.len() as int)
        }),
    decreases prop, 2int,
{
    match prop {
        WzProperty::SubProperty { .. } | WzProperty::Convex { .. } | WzProperty::Canvas { .. } | WzProperty::RawData { .. } | WzProperty::Video { .. } => {
            write_container(out, name, prop, mode, depth, texts, pngs, fi, ci, Ghost(sfi), Ghost(sci))
        },
        _ => write_leaf(out, name, prop, mode, depth, texts, pngs, fi, ci, Ghost(sfi), Ghost(sci)),
    }
}



/// Writes a whole document (see [`xml_document`]) from the renderings of
/// its floats (`float_texts`, in document order; a non-finite float is
/// written as `0`) and the PNG files of its canvases (`canvas_pngs`, in
/// document order; a missing one writes no `basedata`).
pub fn export_wz_xml_with(
    img_name: &str,
    props: &[(String, WzProperty)],
    mode: &XmlMode,
    float_texts: &[String],
    canvas_pngs: &[Option<Vec<u8>>],
) -> (r: String)
    requires
        1 + list_height(props_model(props@), 0) <= MAX_XML_DEPTH,
    ensures
        r@ == xml_document(img_name@, props_model(props@), *mode, inputs_view(float_texts@, canvas_pngs@)),
{
    let mut out: Vec<char> = Vec::new();
    push_str(&mut out, "<?xml version=\"1.0\" encoding=\"UTF-8\" standalone=\"yes\"?>\n");
    push_str(&mut out, "<imgdir name=\"");
    push_escaped(&mut out, img_name);
    push_str(&mut out, "\">\n");
    let ghost head = out@;
    let ghost l = props_model(props@);
    let ghost ins = inputs_view(float_texts@, canvas_pngs@);
    let mode = *mode;
    proof {
        lemma_props_model(props@);
    }
    let mut fi: usize = 0;
    let mut ci: usize = 0;
    let ghost mut acc: Seq<char> = Seq::empty();
    let ghost mut gf: int = 0;
    let ghost mut gc: int = 0;
    let mut i: usize = 0;
    assert(acc + xml_list(l, 0, mode, 1, ins, 0, 0).0 =~= xml_list(l, 0, mode, 1, ins, 0, 0).0);
    while i < props.len()
        invariant
            0 <= i <= props.len(),
            l == props_model(props@),
            l.len() == props@.len(),
            forall|k: int| 0 <= k < props@.len() ==> #[trigger] l[k] == (props@[k].0@, props@[k].1.model()),
            ins == inputs_view(float_texts@, canvas_pngs@),
            1 + list_height(l, 0) <= MAX_XML_DEPTH,
            out@ == head + acc,
            gf >= 0,
            gc >= 0,
            fi == capped(gf, float_texts.len() as int),
            ci == capped(gc, canvas_pngs.len() as int),
            xml_list(l, 0, mode, 1, ins, 0, 0) == ({
                let (rest, f2, c2) = xml_list(l, i as int, mode, 1, ins, gf, gc);
                (acc + rest, f2, c2)
            }),
        decreases props.len() - i,
    {
        let entry = &props[i];
        proof {
            lemma_list_height(l, 0, i as int);
        }
        let ghost (h, f1, c1) = xml_prop(l[i as int].0, l[i as int].1, mode, 1, ins, gf, gc);
        let ghost (rest, f2, c2) = xml_list(l, i + 1, mode, 1, ins, f1, c1);
        write_prop(&mut out, entry.0.as_str(), &entry.1, mode, 1, float_texts, canvas_pngs, &mut fi, &mut ci, Ghost(gf), Ghost(gc));
        proof {
            assert(acc + (h + rest) =~= (acc + h) + rest);
            acc = acc + h;
            gf = f1;
            gc = c1;
        }
        i = i + 1;
    }
    push_str(&mut out, "</imgdir>\n");
    assert(out@ =~= xml_document(img_name@, l, mode, ins));
    string_from_chars(out.as_slice())
}


// ── Metadata-only export ────────────────────────────────────────────

/// A property with its binary payloads emptied: canvas data, sound header
/// and data, Lua bytes, raw data and video data, at every depth.
pub open spec fn without_payloads(p: PropV) -> PropV
    decreases p, 0int,
{
    match p {
        PropV::SubProperty(ch) => PropV::SubProperty(list_without_payloads(ch, 0)),
        PropV::Canvas { width, height, format, scale, properties, .. } => PropV::Canvas {
            width,
            height,
            format,
            scale,
            properties: list_without_payloads(properties, 0),
            png_data: CanvasV::Loaded(Seq::empty()),
        },
        PropV::Convex(points) => PropV::Convex(list_without_payloads(points, 0)),
        PropV::Sound { duration_ms, .. } => PropV::Sound { duration_ms, header: Seq::empty(), data: Seq::empty() },
        PropV::Lua(_) => PropV::Lua(Seq::empty()),
        PropV::RawData { raw_type, properties, .. } => PropV::RawData {
            raw_type,
            properties: list_without_payloads(properties, 0),
            data: Seq::empty(),
        },
        PropV::Video { video_type, properties, data_offset, data_length, .. } => PropV::Video {
            video_type,
            properties: list_without_payloads(properties, 0),
            data_offset,
            data_length,
            video_data: None,
        },
        _ => p,
    }
}

/// The entries of `l` from index `i` on, each [`without_payloads`].
pub open spec fn list_without_payloads(l: PropList, i: int) -> PropList
    decreases l, l.len() - i,
{
    if i < 0 || i >= l.len() {
        Seq::empty()
    } else {
        proof {
            assert(decreases_to!(l => l[i]));
        }
        seq![(l[i].0, without_payloads(l[i].1))] + list_without_payloads(l, i + 1)
    }
}

proof fn lemma_list_without_payloads(l: PropList, i: int)
    requires
        0 <= i <= l.len(),
    ensures
        list_without_payloads(l, i).len() == l.len() - i,
        forall|k: int|
            0 <= k < l.len() - i ==> #[trigger] list_without_payloads(l, i)[k] == (l[i + k].0, without_payloads(l[i + k].1)),
    decreases l.len() - i,
{
    if i < l.len() {
        lemma_list_without_payloads(l, i + 1);
        let f = list_without_payloads(l, i);
        assert forall|k: int| 0 <= k < l.len() - i implies #[trigger] f[k] == (l[i + k].0, without_payloads(l[i + k].1)) by {
            if k > 0 {
                assert(f[k] == list_without_payloads(l, i + 1)[k - 1]);
            }
        }
    }
}

proof fn lemma_meta_prop(name: Seq<char>, p: PropV, depth: nat, ins1: XmlInputs, ins2: XmlInputs, fi: int, ci: int)
    requires
        ins1.texts == ins2.texts,
    ensures
        xml_prop(name, p, XmlMode::MetadataOnly, depth, ins1, fi, ci) == xml_prop(
            name,
            without_payloads(p),
            XmlMode::MetadataOnly,
            depth,
            ins2,
            fi,
            ci,
        ),
    decreases p, 0int,
{
    match p {
        PropV::SubProperty(ch) => lemma_meta_list(ch, 0, depth + 1, ins1, ins2, fi, ci),
        PropV::Canvas { properties, .. } => lemma_meta_list(properties, 0, depth + 1, ins1, ins2, fi, ci),
        PropV::Convex(points) => lemma_meta_list(points, 0, depth + 1, ins1, ins2, fi, ci),
        PropV::RawData { properties, .. } => lemma_meta_list(properties, 0, depth + 1, ins1, ins2, fi, ci),
        PropV::Video { properties, .. } => lemma_meta_list(properties, 0, depth + 1, ins1, ins2, fi, ci),
        _ => {},
    }
}

proof fn lemma_meta_list(l: PropList, i: int, depth: nat, ins1: XmlInputs, ins2: XmlInputs, fi: int, ci: int)
    requires
        0 <= i,
        ins1.texts == ins2.texts,
    ensures
        xml_list(l, i, XmlMode::MetadataOnly, depth, ins1, fi, ci) == xml_list(
            list_without_payloads(l, 0),
            i,
            XmlMode::MetadataOnly,
            depth,
            ins2,
            fi,
            ci,
        ),
    decreases l, l.len() - i,
{
    lemma_list_without_payloads(l, 0);
    let sl = list_without_payloads(l, 0);
    if i < l.len() {
        assert(decreases_to!(l => l[i]));
        assert(sl[i] == (l[i].0, without_payloads(l[i].1)));
        lemma_meta_prop(l[i].0, l[i].1, depth, ins1, ins2, fi, ci);
        let (_, f1, c1) = xml_prop(l[i].0, l[i].1, XmlMode::MetadataOnly, depth, ins1, fi, ci);
        lemma_meta_list(l, i + 1, depth, ins1, ins2, f1, c1);
    }
}

/// A metadata-only export ignores binary payloads: emptying every canvas's
/// data, every sound, Lua and raw-data payload and every video's data, and
/// dropping the canvas PNGs, gives the same document.
pub proof fn lemma_metadata_only_ignores_payloads(img_name: Seq<char>, props: PropList, ins: XmlInputs)
    ensures
        xml_document(img_name, props, XmlMode::MetadataOnly, ins) == xml_document(
            img_name,
            list_without_payloads(props, 0),
            XmlMode::MetadataOnly,
            XmlInputs { texts: ins.texts, pngs: Seq::empty() },
        ),
{
    lemma_meta_list(props, 0, 1, ins, XmlInputs { texts: ins.texts, pngs: Seq::empty() }, 0, 0);
}

/// The entries of `a + b` from index `a.len() + j` on are written as those
/// of `b` from index `j` on.
proof fn lemma_list_shift(a: PropList, b: PropList, j: int, mode: XmlMode, depth: nat, ins: XmlInputs, fi: int, ci: int)
    requires
        0 <= j <= b.len(),
    ensures
        xml_list(a + b, a.len() + j, mode, depth, ins, fi, ci) == xml_list(b, j, mode, depth, ins, fi, ci),
    decreases b.len() - j,
{
    if j < b.len() {
        assert((a + b)[a.len() + j] == b[j]);
        let (_, f1, c1) = xml_prop(b[j].0, b[j].1, mode, depth, ins, fi, ci);
        lemma_list_shift(a, b, j + 1, mode, depth, ins, f1, c1);
    }
}

/// The entries of `a + b` from index `i` on are written as those of `a`
/// from `i` on, then those of `b`, numbered on from where `a` left off.
proof fn lemma_list_concat(a: PropList, b: PropList, i: int, mode: XmlMode, depth: nat, ins: XmlInputs, fi: int, ci: int)
    requires
        0 <= i <= a.len(),
    ensures
        xml_list(a + b, i, mode, depth, ins, fi, ci) == ({
            let (ta, fa, ca) = xml_list(a, i, mode, depth, ins, fi, ci);
            let (tb, fb, cb) = xml_list(b, 0, mode, depth, ins, fa, ca);
            (ta + tb, fb, cb)
        }),
    decreases a.len() - i,
{
    if i < a.len() {
        assert((a + b)[i] == a[i]);
        let (_, f1, c1) = xml_prop(a[i].0, a[i].1, mode, depth, ins, fi, ci);
        lemma_list_concat(a, b, i + 1, mode, depth, ins, f1, c1);
        let (h, _, _) = xml_prop(a[i].0, a[i].1, mode, depth, ins, fi, ci);
        let (ta, fa, ca) = xml_list(a, i + 1, mode, depth, ins, f1, c1);
        let (tb, fb, cb) = xml_list(b, 0, mode, depth, ins, fa, ca);
        assert(h + (ta + tb) =~= (h + ta) + tb);
    } else {
        lemma_list_shift(a, b, 0, mode, depth, ins, fi, ci);
        let (tb, fb, cb) = xml_list(b, 0, mode, depth, ins, fi, ci);
        assert(Seq::<char>::empty() + tb =~= tb);
    }
}

/// Law: the body of a document for `ps + qs` is the body for `ps` followed
/// by the body for `qs`, whose floats and canvases are numbered on from
/// where those of `ps` end.
pub proof fn lemma_document_body_concat(ps: PropList, qs: PropList, mode: XmlMode, ins: XmlInputs)
    ensures
        xml_list(ps + qs, 0, mode, 1, ins, 0, 0).0 == xml_list(ps, 0, mode, 1, ins, 0, 0).0 + xml_list(
            qs,
            0,
            mode,
            1,
            ins,
            xml_list(ps, 0, mode, 1, ins, 0, 0).1,
            xml_list(ps, 0, mode, 1, ins, 0, 0).2,
        ).0,
{
    lemma_list_concat(ps, qs, 0, mode, 1, ins, 0, 0);
}

/// How many canvases a document numbers for `p`: those it holds, with
/// binary data; none without.
pub open spec fn numbered_canvases(p: PropV, mode: XmlMode) -> int {
    if mode == XmlMode::WithBinaryData {
        crate::export::prop_canvases(p).len() as int
    } else {
        0
    }
}

/// Law: each float and each double of an entry takes the next float text,
/// in document order, and each canvas (with binary data) the next PNG: the
/// numbering after the entry has moved on by the number of its floats
/// (see [`crate::export::prop_floats`], which [`crate::export::float_values`]
/// lists) and of its canvases.
pub proof fn lemma_prop_numbering(name: Seq<char>, p: PropV, mode: XmlMode, depth: nat, ins: XmlInputs, fi: int, ci: int)
    ensures
        xml_prop(name, p, mode, depth, ins, fi, ci).1 == fi + crate::export::prop_floats(p).len(),
        xml_prop(name, p, mode, depth, ins, fi, ci).2 == ci + numbered_canvases(p, mode),
    decreases p, 0int,
{
    match p {
        PropV::SubProperty(ch) => lemma_list_numbering(ch, 0, mode, depth + 1, ins, fi, ci),
        PropV::Convex(ch) => lemma_list_numbering(ch, 0, mode, depth + 1, ins, fi, ci),
        PropV::RawData { properties, .. } => lemma_list_numbering(properties, 0, mode, depth + 1, ins, fi, ci),
        PropV::Video { properties, .. } => lemma_list_numbering(properties, 0, mode, depth + 1, ins, fi, ci),
        PropV::Canvas { properties, .. } => {
            let c1 = if mode == XmlMode::WithBinaryData { ci + 1 } else { ci };
            lemma_list_numbering(properties, 0, mode, depth + 1, ins, fi, c1);
            assert(crate::export::prop_canvases(p).len() == 1 + crate::export::list_canvases(properties, 0).len());
        },
        _ => {},
    }
}

/// Law: the numbering after the entries of `l` from index `i` on has moved
/// on by the number of their floats and of their canvases.
pub proof fn lemma_list_numbering(l: PropList, i: int, mode: XmlMode, depth: nat, ins: XmlInputs, fi: int, ci: int)
    ensures
        xml_list(l, i, mode, depth, ins, fi, ci).1 == fi + crate::export::list_floats(l, i).len(),
        xml_list(l, i, mode, depth, ins, fi, ci).2 == ci + (if mode == XmlMode::WithBinaryData {
            crate::export::list_canvases(l, i).len() as int
        } else {
            0
        }),
    decreases l, l.len() - i,
{
    if 0 <= i < l.len() {
        assert(decreases_to!(l => l[i]));
        lemma_prop_numbering(l[i].0, l[i].1, mode, depth, ins, fi, ci);
        let (_, f1, c1) = xml_prop(l[i].0, l[i].1, mode, depth, ins, fi, ci);
        lemma_list_numbering(l, i + 1, mode, depth, ins, f1, c1);
    }
}

/// Law: a whole document uses exactly one float text per float and double
/// of the image, in the order [`crate::export::float_values`] lists them,
/// and (with binary data) one PNG per canvas.
pub proof fn lemma_document_numbering(props: PropList, mode: XmlMode, ins: XmlInputs)
    ensures
        xml_list(props, 0, mode, 1, ins, 0, 0).1 == crate::export::list_floats(props, 0).len(),
        xml_list(props, 0, mode, 1, ins, 0, 0).2 == (if mode == XmlMode::WithBinaryData {
            crate::export::list_canvases(props, 0).len() as int
        } else {
            0
        }),
{
    lemma_list_numbering(props, 0, mode, 1, ins, 0, 0);
}

/// Law: a float or double entry numbered `fi` is written with the float
/// text numbered `fi` (the rendering of the `fi`-th entry of
/// [`crate::export::float_values`]) when it is finite and that text exists,
/// and with `0` otherwise.
pub proof fn lemma_float_element_text(name: Seq<char>, p: PropV, mode: XmlMode, depth: nat, ins: XmlInputs, fi: int, ci: int)
    requires
        p is Float || p is Double,
    ensures
        xml_prop(name, p, mode, depth, ins, fi, ci).0 == indent(depth) + (if p is Float {
            "<float name=\""@
        } else {
            "<double name=\""@
        }) + xml_escape(name) + "\" value=\""@ + (if (match p {
            PropV::Float(b) => f32_finite(b),
            PropV::Double(b) => f64_finite(b),
            _ => false,
        }) && 0 <= fi < ins.texts.len() {
            ins.texts[fi]
        } else {
            "0"@
        }) + "\"/>\n"@,
{
}

} // verus!
