//! Writing a whole image's property tree as WZ XML.
use vstd::prelude::*;
use crate::property::{WzProperty, PropV, PropList, props_model, lemma_props_model};
use crate::canvas_png::{canvas_decodable, canvas_to_standard_png, standard_png};
use crate::property::canvas_bytes;
use crate::property::canvas_range_ok;
use crate::inflate::decompressed;
use crate::image::spec_decode_canvas_pixels;
use crate::xml::{XmlMode, XmlInputs, xml_document, inputs_view, list_height, MAX_XML_DEPTH, export_wz_xml_with};

verus! {

/// The canvases of a property in document order: a canvas, then those among
/// its children.
pub open spec fn prop_canvases(p: PropV) -> Seq<PropV>
    decreases p, 0int,
{
    match p {
        PropV::Canvas { properties, .. } => seq![p] + list_canvases(properties, 0),
        PropV::SubProperty(ch) => list_canvases(ch, 0),
        PropV::Convex(points) => list_canvases(points, 0),
        PropV::RawData { properties, .. } => list_canvases(properties, 0),
        PropV::Video { properties, .. } => list_canvases(properties, 0),
        _ => Seq::empty(),
    }
}

/// The canvases of the entries of `l` from index `i` on, in document order.
pub open spec fn list_canvases(l: PropList, i: int) -> Seq<PropV>
    decreases l, l.len() - i,
{
    if i < 0 || i >= l.len() {
        Seq::empty()
    } else {
        proof {
            assert(decreases_to!(l => l[i]));
        }
        prop_canvases(l[i].1) + list_canvases(l, i + 1)
    }
}

/// Whether a canvas can be written with its data: it decodes, and its data
/// range exists.
pub open spec fn canvas_ok(c: PropV) -> bool {
    match c {
        PropV::Canvas { width, height, scale, png_data, .. } => canvas_decodable(width, height, scale) && canvas_range_ok(
            png_data,
        ),
        _ => true,
    }
}

pub open spec fn all_canvases_ok(cs: Seq<PropV>) -> bool {
    forall|k: int| 0 <= k < cs.len() ==> #[trigger] canvas_ok(cs[k])
}

/// The PNG written for canvas `c`: the standard PNG of its data when that
/// conversion succeeds ([`standard_png`]), none when it fails.
pub open spec fn canvas_png(c: PropV) -> Option<Seq<u8>> {
    match c {
        PropV::Canvas { width, height, format, scale, png_data, .. } => match standard_png(
            width,
            height,
            scale,
            format,
            canvas_bytes(png_data),
        ) {
            Ok(b) => Some(b),
            Err(_) => None,
        },
        _ => None,
    }
}

/// Whether a canvas's PNG can be made: it has a width and a height, and its
/// data decompresses (without a key) and decodes.
pub open spec fn png_owed(c: PropV) -> bool {
    match c {
        PropV::Canvas { width, height, format, scale, png_data, .. } => {
            &&& (width as u32) > 0
            &&& (height as u32) > 0
            &&& decompressed(canvas_bytes(png_data), None) matches Ok(raw)
                && spec_decode_canvas_pixels(raw, width as u32, height as u32, scale, format) is Ok
        },
        _ => false,
    }
}

/// Whether `o` is the PNG written for canvas `c` (see [`canvas_png`]); it
/// is there whenever the canvas's PNG can be made ([`png_owed`]).
pub open spec fn png_for(o: Option<Seq<u8>>, c: PropV) -> bool {
    &&& o == canvas_png(c)
    &&& png_owed(c) ==> o is Some
}

pub open spec fn opt_view(o: Option<Vec<u8>>) -> Option<Seq<u8>> {
    match o {
        Some(v) => Some(v@),
        None => None,
    }
}

proof fn lemma_all_ok_split(a: Seq<PropV>, b: Seq<PropV>)
    requires
        all_canvases_ok(a + b),
    ensures
        all_canvases_ok(a),
        all_canvases_ok(b),
{
    assert forall|k: int| 0 <= k < a.len() implies #[trigger] canvas_ok(a[k]) by {
        assert((a + b)[k] == a[k]);
    }
    assert forall|k: int| 0 <= k < b.len() implies #[trigger] canvas_ok(b[k]) by {
        assert((a + b)[a.len() + k] == b[k]);
    }
}

fn collect_prop_pngs(prop: &WzProperty, out: &mut Vec<Option<Vec<u8>>>)
    requires
        all_canvases_ok(prop_canvases(prop.model())),
    ensures
        final(out)@.len() == old(out)@.len() + prop_canvases(prop.model()).len(),
        final(out)@.subrange(0, old(out)@.len() as int) == old(out)@,
        forall|k: int|
            0 <= k < prop_canvases(prop.model()).len() ==> png_for(
                opt_view(#[trigger] final(out)@[old(out)@.len() + k]),
                prop_canvases(prop.model())[k],
            ),
    decreases prop, 1int,
{
    match prop {
        WzProperty::Canvas { width, height, format, scale, properties, png_data } => {
            let ghost base = out@;
            let ghost me = prop.model();
            proof {
                lemma_all_ok_split(seq![me], list_canvases(props_model(properties@), 0));
                assert(canvas_ok(seq![me][0]));
            }
            let png = canvas_to_standard_png(*width, *height, *scale, *format, png_data);
            match png {
                Ok(b) => {
                    assert(png_for(Some(b@), me));
                    out.push(Some(b));
                },
                Err(_) => {
                    out.push(None);
                },
            }
            let ghost mid = out@;
            assert(png_for(opt_view(mid[base.len() as int]), me));
            collect_list_pngs(properties, out);
            proof {
                assert(prop_canvases(me) =~= seq![me] + list_canvases(props_model(properties@), 0));
                assert forall|k: int| 0 <= k < prop_canvases(me).len() implies png_for(
                    opt_view(#[trigger] out@[base.len() + k]),
                    prop_canvases(me)[k],
                ) by {
                    if k == 0 {
                        assert(out@[base.len() + k] == mid[base.len() as int]);
                    } else {
                        assert(out@[mid.len() + (k - 1)] == out@[base.len() + k]);
                    }
                }
                assert(out@.subrange(0, base.len() as int) =~= base);
            }
        },
        WzProperty::SubProperty { properties } => collect_list_pngs(properties, out),
        WzProperty::Convex { points } => collect_list_pngs(points, out),
        WzProperty::RawData { properties, .. } => collect_list_pngs(properties, out),
        WzProperty::Video { properties, .. } => collect_list_pngs(properties, out),
        _ => {
            assert(out@.subrange(0, out@.len() as int) =~= out@);
        },
    }
}

fn collect_list_pngs(list: &Vec<(String, WzProperty)>, out: &mut Vec<Option<Vec<u8>>>)
    requires
        all_canvases_ok(list_canvases(props_model(list@), 0)),
    ensures
        final(out)@.len() == old(out)@.len() + list_canvases(props_model(list@), 0).len(),
        final(out)@.subrange(0, old(out)@.len() as int) == old(out)@,
        forall|k: int|
            0 <= k < list_canvases(props_model(list@), 0).len() ==> png_for(
                opt_view(#[trigger] final(out)@[old(out)@.len() + k]),
                list_canvases(props_model(list@), 0)[k],
            ),
    decreases list, 0int,
{
    let ghost l = props_model(list@);
    let ghost base = out@;
    proof {
        lemma_props_model(list@);
    }
    let ghost mut pre: Seq<PropV> = Seq::empty();
    let mut i: usize = 0;
    assert(list_canvases(l, 0) =~= pre + list_canvases(l, 0));
    while i < list.len()
        invariant
            0 <= i <= list.len(),
            l == props_model(list@),
            l.len() == list@.len(),
            forall|k: int| 0 <= k < list@.len() ==> #[trigger] l[k] == (list@[k].0@, list@[k].1.model()),
            all_canvases_ok(list_canvases(l, 0)),
            list_canvases(l, 0) == pre + list_canvases(l, i as int),
            out@.len() == base.len() + pre.len(),
            out@.subrange(0, base.len() as int) == base,
            forall|k: int| 0 <= k < pre.len() ==> png_for(opt_view(#[trigger] out@[base.len() + k]), pre[k]),
        decreases list.len() - i,
    {
        let entry = &list[i];
        proof {
            assert(decreases_to!(list => list@[i as int]));
            lemma_all_ok_split(pre, list_canvases(l, i as int));
            lemma_all_ok_split(prop_canvases(l[i as int].1), list_canvases(l, i + 1));
        }
        let ghost before = out@;
        let ghost mine = prop_canvases(l[i as int].1);
        collect_prop_pngs(&entry.1, out);
        proof {
            assert(list_canvases(l, 0) =~= (pre + mine) + list_canvases(l, i + 1));
            assert forall|k: int| 0 <= k < pre.len() + mine.len() implies png_for(
                opt_view(#[trigger] out@[base.len() + k]),
                (pre + mine)[k],
            ) by {
                if k < pre.len() {
                    assert(out@[base.len() + k] == out@.subrange(0, before.len() as int)[base.len() + k]);
                } else {
                    assert(out@[before.len() + (k - pre.len())] == out@[base.len() + k]);
                }
            }
            assert(out@.subrange(0, base.len() as int) =~= out@.subrange(0, before.len() as int).subrange(0, base.len() as int));
            pre = pre + mine;
        }
        i = i + 1;
    }
    assert(pre =~= list_canvases(l, 0));
}


fn collect_top_pngs(props: &[(String, WzProperty)]) -> (out: Vec<Option<Vec<u8>>>)
    requires
        all_canvases_ok(list_canvases(props_model(props@), 0)),
    ensures
        out@.len() == list_canvases(props_model(props@), 0).len(),
        forall|k: int|
            0 <= k < out@.len() ==> png_for(opt_view(#[trigger] out@[k]), list_canvases(props_model(props@), 0)[k]),
{
    let ghost l = props_model(props@);
    let mut out: Vec<Option<Vec<u8>>> = Vec::new();
    proof {
        lemma_props_model(props@);
    }
    let ghost mut pre: Seq<PropV> = Seq::empty();
    let mut i: usize = 0;
    assert(list_canvases(l, 0) =~= pre + list_canvases(l, 0));
    while i < props.len()
        invariant
            0 <= i <= props.len(),
            l == props_model(props@),
            l.len() == props@.len(),
            forall|k: int| 0 <= k < props@.len() ==> #[trigger] l[k] == (props@[k].0@, props@[k].1.model()),
            all_canvases_ok(list_canvases(l, 0)),
            list_canvases(l, 0) == pre + list_canvases(l, i as int),
            out@.len() == pre.len(),
            forall|k: int| 0 <= k < pre.len() ==> png_for(opt_view(#[trigger] out@[k]), pre[k]),
        decreases props.len() - i,
    {
        let entry = &props[i];
        proof {
            lemma_all_ok_split(pre, list_canvases(l, i as int));
            lemma_all_ok_split(prop_canvases(l[i as int].1), list_canvases(l, i + 1));
        }
        let ghost before = out@;
        let ghost mine = prop_canvases(l[i as int].1);
        collect_prop_pngs(&entry.1, &mut out);
        proof {
            assert(list_canvases(l, 0) =~= (pre + mine) + list_canvases(l, i + 1));
            assert forall|k: int| 0 <= k < pre.len() + mine.len() implies png_for(
                opt_view(#[trigger] out@[k]),
                (pre + mine)[k],
            ) by {
                if k < pre.len() {
                    assert(out@[k] == out@.subrange(0, before.len() as int)[k]);
                } else {
                    assert(out@[before.len() + (k - pre.len())] == out@[k]);
                }
            }
            pre = pre + mine;
        }
        i = i + 1;
    }
    assert(pre =~= list_canvases(l, 0));
    out
}

/// Serialises an image's property list as WZ XML: a root `imgdir` named
/// `img_name` (typically the `.img` file name) holding the properties.
/// `float_texts` are the renderings of the image's floats in document order
/// (see [`float_values`]). With binary data, each canvas is converted to a
/// standard PNG (see [`canvas_to_standard_png`]) and written as its
/// `basedata`; one whose conversion fails is written without `basedata`
/// ([`canvas_png`]).
pub fn export_wz_xml(img_name: &str, props: &[(String, WzProperty)], mode: &XmlMode, float_texts: &[String]) -> (r: String)
    requires
        1 + list_height(props_model(props@), 0) <= MAX_XML_DEPTH,
        *mode == XmlMode::WithBinaryData ==> all_canvases_ok(list_canvases(props_model(props@), 0)),
    ensures
        *mode == XmlMode::MetadataOnly ==> r@ == xml_document(
            img_name@,
            props_model(props@),
            *mode,
            inputs_view(float_texts@, Seq::empty()),
        ),
        *mode == XmlMode::WithBinaryData ==> exists|pngs: Seq<Option<Vec<u8>>>|
            #![trigger inputs_view(float_texts@, pngs)]
            {
                &&& pngs.len() == list_canvases(props_model(props@), 0).len()
                &&& forall|k: int|
                    0 <= k < pngs.len() ==> png_for(opt_view(#[trigger] pngs[k]), list_canvases(props_model(props@), 0)[k])
                &&& r@ == xml_document(img_name@, props_model(props@), *mode, inputs_view(float_texts@, pngs))
            },
{
    if *mode == XmlMode::WithBinaryData {
        let pngs = collect_top_pngs(props);
        let r = export_wz_xml_with(img_name, props, mode, float_texts, pngs.as_slice());
        assert(pngs@.len() == list_canvases(props_model(props@), 0).len());
        assert(r@ == xml_document(img_name@, props_model(props@), *mode, inputs_view(float_texts@, pngs@)));
        r
    } else {
        let pngs: Vec<Option<Vec<u8>>> = Vec::new();
        let r = export_wz_xml_with(img_name, props, mode, float_texts, pngs.as_slice());
        assert(inputs_view(float_texts@, pngs@) == inputs_view(float_texts@, Seq::empty())) by {
            assert(inputs_view(float_texts@, pngs@).pngs =~= inputs_view(float_texts@, Seq::empty()).pngs);
            assert(inputs_view(float_texts@, pngs@).texts =~= inputs_view(float_texts@, Seq::empty()).texts);
        }
        r
    }
}


/// A float of a property tree, by its bit pattern.
#[derive(Clone, Copy, Debug, PartialEq, Eq, Structural)]
pub enum FloatBits {
    /// An `f32`, as `f32::to_bits`.
    F32(u32),
    /// An `f64`, as `f64::to_bits`.
    F64(u64),
}

/// The floats of a property in document order.
pub open spec fn prop_floats(p: PropV) -> Seq<FloatBits>
    decreases p, 0int,
{
    match p {
        PropV::Float(b) => seq![FloatBits::F32(b)],
        PropV::Double(b) => seq![FloatBits::F64(b)],
        PropV::SubProperty(ch) => list_floats(ch, 0),
        PropV::Canvas { properties, .. } => list_floats(properties, 0),
        PropV::Convex(points) => list_floats(points, 0),
        PropV::RawData { properties, .. } => list_floats(properties, 0),
        PropV::Video { properties, .. } => list_floats(properties, 0),
        _ => Seq::empty(),
    }
}

/// The floats of the entries of `l` from index `i` on, in document order.
pub open spec fn list_floats(l: PropList, i: int) -> Seq<FloatBits>
    decreases l, l.len() - i,
{
    if i < 0 || i >= l.len() {
        Seq::empty()
    } else {
        proof {
            assert(decreases_to!(l => l[i]));
        }
        prop_floats(l[i].1) + list_floats(l, i + 1)
    }
}

fn collect_prop_floats(prop: &WzProperty, out: &mut Vec<FloatBits>)
    ensures
        final(out)@ == old(out)@ + prop_floats(prop.model()),
    decreases prop, 1int,
{
    match prop {
        WzProperty::Float(b) => {
            out.push(FloatBits::F32(*b));
        },
        WzProperty::Double(b) => {
            out.push(FloatBits::F64(*b));
        },
        WzProperty::SubProperty { properties } => collect_list_floats(properties, out),
        WzProperty::Canvas { properties, .. } => collect_list_floats(properties, out),
        WzProperty::Convex { points } => collect_list_floats(points, out),
        WzProperty::RawData { properties, .. } => collect_list_floats(properties, out),
        WzProperty::Video { properties, .. } => collect_list_floats(properties, out),
        _ => {
            assert(out@ =~= out@ + Seq::<FloatBits>::empty());
        },
    }
}

fn collect_list_floats(list: &Vec<(String, WzProperty)>, out: &mut Vec<FloatBits>)
    ensures
        final(out)@ == old(out)@ + list_floats(props_model(list@), 0),
    decreases list, 0int,
{
    let ghost l = props_model(list@);
    let ghost base = out@;
    proof {
        lemma_props_model(list@);
    }
    let ghost mut pre: Seq<FloatBits> = Seq::empty();
    let mut i: usize = 0;
    assert(list_floats(l, 0) =~= pre + list_floats(l, 0));
    while i < list.len()
        invariant
            0 <= i <= list.len(),
            l == props_model(list@),
            l.len() == list@.len(),
            forall|k: int| 0 <= k < list@.len() ==> #[trigger] l[k] == (list@[k].0@, list@[k].1.model()),
            list_floats(l, 0) == pre + list_floats(l, i as int),
            out@ == base + pre,
        decreases list.len() - i,
    {
        proof {
            assert(decreases_to!(list => list@[i as int]));
        }
        let ghost mine = prop_floats(l[i as int].1);
        collect_prop_floats(&list[i].1, out);
        proof {
            assert(list_floats(l, 0) =~= (pre + mine) + list_floats(l, i + 1));
            assert(out@ =~= base + (pre + mine));
            pre = pre + mine;
        }
        i = i + 1;
    }
    assert(pre =~= list_floats(l, 0));
}

/// The floats of a property (itself or its descendants) in document order.
pub fn prop_float_values(prop: &WzProperty) -> (r: Vec<FloatBits>)
    ensures
        r@ == prop_floats(prop.model()),
{
    let mut out: Vec<FloatBits> = Vec::new();
    collect_prop_floats(prop, &mut out);
    assert(out@ =~= prop_floats(prop.model()));
    out
}

/// The floats of a property list in document order, the order in which
/// [`export_wz_xml`] takes their renderings.
pub fn float_values(props: &[(String, WzProperty)]) -> (r: Vec<FloatBits>)
    ensures
        r@ == list_floats(props_model(props@), 0),
{
    let ghost l = props_model(props@);
    let mut out: Vec<FloatBits> = Vec::new();
    proof {
        lemma_props_model(props@);
    }
    let ghost mut pre: Seq<FloatBits> = Seq::empty();
    let mut i: usize = 0;
    assert(list_floats(l, 0) =~= pre + list_floats(l, 0));
    while i < props.len()
        invariant
            0 <= i <= props.len(),
            l == props_model(props@),
            l.len() == props@.len(),
            forall|k: int| 0 <= k < props@.len() ==> #[trigger] l[k] == (props@[k].0@, props@[k].1.model()),
            list_floats(l, 0) == pre + list_floats(l, i as int),
            out@ == pre,
        decreases props.len() - i,
    {
        let ghost mine = prop_floats(l[i as int].1);
        collect_prop_floats(&props[i].1, &mut out);
        proof {
            assert(list_floats(l, 0) =~= (pre + mine) + list_floats(l, i + 1));
            pre = pre + mine;
        }
        i = i + 1;
    }
    assert(pre =~= list_floats(l, 0));
    out
}

/// Law: a float and a double each stand for exactly one entry of the floats
/// (their bit pattern, as `f32` or `f64`), and the floats of a list are
/// those of its first entry followed by those of the rest.
pub proof fn lemma_floats_of_leaves(b32: u32, b64: u64, l: PropList)
    ensures
        prop_floats(PropV::Float(b32)) == seq![FloatBits::F32(b32)],
        prop_floats(PropV::Double(b64)) == seq![FloatBits::F64(b64)],
        l.len() > 0 ==> list_floats(l, 0) == prop_floats(l[0].1) + list_floats(l, 1),
{
}

} // verus!
