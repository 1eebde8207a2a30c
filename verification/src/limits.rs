//! Tests of the conditions the tree walks, canvas decoders and the
//! decompressor need of their inputs, for callers that hold data of
//! unknown shape.
use vstd::prelude::*;
use crate::property::{WzProperty, PropV, PropList, props_model, lemma_props_model, canvas_range_ok};
use crate::xml::{prop_height, list_height, lemma_list_height};
use crate::export::{prop_canvases, list_canvases, canvas_ok, all_canvases_ok};
use crate::canvas_png::canvas_decodable;
use crate::image::{dims_ok, upscale_ok, scaled_dim};
use crate::inflate::{blocks_sized, sp_blocks, is_zlib_header, Blocks};
use crate::reader::{rd_i32, rd_bytes};

verus! {

proof fn lemma_list_height_le(l: PropList, i: int, limit: nat)
    requires
        0 <= i,
    ensures
        (list_height(l, i) <= limit) <==> (forall|j: int| i <= j < l.len() ==> #[trigger] prop_height(l[j].1) <= limit),
    decreases l.len() - i,
{
    if i < l.len() {
        lemma_list_height_le(l, i + 1, limit);
        if list_height(l, i) <= limit {
            assert forall|j: int| i <= j < l.len() implies #[trigger] prop_height(l[j].1) <= limit by {
                if j > i {
                    assert(i + 1 <= j < l.len());
                }
            }
        }
        if forall|j: int| i <= j < l.len() ==> #[trigger] prop_height(l[j].1) <= limit {
            assert(prop_height(l[i].1) <= limit);
            assert forall|j: int| i + 1 <= j < l.len() implies #[trigger] prop_height(l[j].1) <= limit by {
                assert(i <= j);
            }
        }
    }
}

/// Whether no entry of `list` nests deeper than `limit` (see [`list_height`]).
pub fn list_height_at_most(list: &Vec<(String, WzProperty)>, limit: u64) -> (b: bool)
    ensures
        b == (list_height(props_model(list@), 0) <= limit),
    decreases list, 1int,
{
    let ghost l = props_model(list@);
    proof {
        lemma_props_model(list@);
        lemma_list_height_le(l, 0, limit as nat);
    }
    let mut i: usize = 0;
    while i < list.len()
        invariant
            0 <= i <= list.len(),
            l == props_model(list@),
            l.len() == list@.len(),
            forall|k: int| 0 <= k < list@.len() ==> #[trigger] l[k] == (list@[k].0@, list@[k].1.model()),
            forall|j: int| 0 <= j < i ==> #[trigger] prop_height(l[j].1) <= limit,
        decreases list.len() - i,
    {
        proof {
            assert(decreases_to!(list => list@[i as int]));
        }
        if !height_at_most(&list[i].1, limit) {
            proof {
                lemma_list_height_le(l, 0, limit as nat);
                assert(prop_height(l[i as int].1) > limit);
            }
            return false;
        }
        i = i + 1;
    }
    true
}

/// Whether a property nests no deeper than `limit` (see [`prop_height`]).
pub fn height_at_most(p: &WzProperty, limit: u64) -> (b: bool)
    ensures
        b == (prop_height(p.model()) <= limit),
    decreases p, 2int,
{
    let children = match p {
        WzProperty::SubProperty { properties } => properties,
        WzProperty::Canvas { properties, .. } => properties,
        WzProperty::Video { properties, .. } => properties,
        WzProperty::Convex { points } => points,
        WzProperty::RawData { properties, .. } => properties,
        _ => {
            return true;
        },
    };
    if limit == 0 {
        return false;
    }
    list_height_at_most(children, limit - 1)
}

/// Whether a `w × h` image fits the decoders' size limits (see [`dims_ok`]).
pub fn dims_fit(w: u32, h: u32) -> (b: bool)
    ensures
        b == dims_ok(w, h),
{
    proof {
        assert((w as u128) * (h as u128) <= 0xFFFF_FFFFu128 * 0xFFFF_FFFFu128) by (nonlinear_arith)
            requires
                w <= 0xFFFF_FFFF,
                h <= 0xFFFF_FFFF,
        ;
        assert(((w as u128) + 4) * ((h as u128) + 4) * 16 <= 0x1_0000_0004u128 * 0x1_0000_0004u128 * 16) by (nonlinear_arith)
            requires
                w <= 0xFFFF_FFFF,
                h <= 0xFFFF_FFFF,
        ;
    }
    let area: u128 = (w as u128) * (h as u128);
    let padded: u128 = ((w as u128) + 4) * ((h as u128) + 4) * 16;
    area <= 0xFFFF_FFFF && padded <= usize::MAX as u128
}

proof fn lemma_mul_u32(a: u32, c: u32)
    ensures
        (a as u128) * (c as u128) <= 0xFFFF_FFFFu128 * 0xFFFF_FFFFu128,
{
    assert((a as u128) * (c as u128) <= 0xFFFF_FFFFu128 * 0xFFFF_FFFFu128) by (nonlinear_arith)
        requires
            a <= 0xFFFF_FFFF,
            c <= 0xFFFF_FFFF,
    ;
}

/// Whether a `sw × sh` image can be upscaled to `dw × dh` within the size
/// limits (see [`upscale_ok`]).
fn upscale_fits(sw: u32, sh: u32, dw: u32, dh: u32) -> (b: bool)
    ensures
        b == upscale_ok(sw, sh, dw, dh),
{
    proof {
        lemma_mul_u32(dw, sw);
        lemma_mul_u32(dh, sh);
        lemma_mul_u32(sw, sh);
        lemma_mul_u32(dw, dh);
    }
    let a: u128 = (dw as u128) * (sw as u128);
    let b: u128 = (dh as u128) * (sh as u128);
    let s: u128 = (sw as u128) * (sh as u128);
    let d: u128 = (dw as u128) * (dh as u128);
    a <= 0xFFFF_FFFF && b <= 0xFFFF_FFFF && s <= 0xFFFF_FFFF && s * 4 + 4 <= usize::MAX as u128 && d * 4
        <= usize::MAX as u128 && d <= 0xFFFF_FFFF
}

fn scaled(n: u32, scale: u8) -> (r: u32)
    requires
        scale < 32,
    ensures
        r == scaled_dim(n, scale),
{
    let s = n >> scale;
    if s > 1 {
        s
    } else {
        1
    }
}

/// Whether a canvas of these dimensions and scale exponent can be decoded
/// (see [`canvas_decodable`]).
pub fn canvas_fits(width: i32, height: i32, scale: u8) -> (b: bool)
    ensures
        b == canvas_decodable(width, height, scale),
{
    let w = width as u32;
    let h = height as u32;
    if !dims_fit(w, h) {
        return false;
    }
    if scale == 0 {
        return true;
    }
    if scale >= 32 {
        return false;
    }
    let sw = scaled(w, scale);
    let sh = scaled(h, scale);
    dims_fit(sw, sh) && upscale_fits(sw, sh, w, h)
}

proof fn lemma_all_ok_concat(a: Seq<PropV>, b: Seq<PropV>)
    ensures
        all_canvases_ok(a + b) <==> (all_canvases_ok(a) && all_canvases_ok(b)),
{
    if all_canvases_ok(a + b) {
        assert forall|k: int| 0 <= k < a.len() implies #[trigger] canvas_ok(a[k]) by {
            assert((a + b)[k] == a[k]);
        }
        assert forall|k: int| 0 <= k < b.len() implies #[trigger] canvas_ok(b[k]) by {
            assert((a + b)[a.len() + k] == b[k]);
        }
    }
    if all_canvases_ok(a) && all_canvases_ok(b) {
        assert forall|k: int| 0 <= k < (a + b).len() implies #[trigger] canvas_ok((a + b)[k]) by {
            if k < a.len() {
                assert((a + b)[k] == a[k]);
            } else {
                assert((a + b)[k] == b[k - a.len()]);
            }
        }
    }
}

/// Whether every canvas in `list` (at any depth) can be decoded and refers
/// to data that exists (see [`all_canvases_ok`]).
pub fn canvases_exportable(list: &Vec<(String, WzProperty)>) -> (b: bool)
    ensures
        b == all_canvases_ok(list_canvases(props_model(list@), 0)),
    decreases list, 1int,
{
    let ghost l = props_model(list@);
    proof {
        lemma_props_model(list@);
    }
    let mut i: usize = 0;
    while i < list.len()
        invariant
            0 <= i <= list.len(),
            l == props_model(list@),
            l.len() == list@.len(),
            forall|k: int| 0 <= k < list@.len() ==> #[trigger] l[k] == (list@[k].0@, list@[k].1.model()),
            all_canvases_ok(list_canvases(l, 0)) == all_canvases_ok(list_canvases(l, i as int)),
        decreases list.len() - i,
    {
        proof {
            assert(decreases_to!(list => list@[i as int]));
            lemma_all_ok_concat(prop_canvases(l[i as int].1), list_canvases(l, i + 1));
        }
        if !prop_canvases_exportable(&list[i].1) {
            return false;
        }
        i = i + 1;
    }
    true
}

/// Whether every canvas in a property (itself included) can be decoded and
/// refers to data that exists.
pub fn prop_canvases_exportable(p: &WzProperty) -> (b: bool)
    ensures
        b == all_canvases_ok(prop_canvases(p.model())),
    decreases p, 2int,
{
    match p {
        WzProperty::Canvas { width, height, scale, properties, png_data, .. } => {
            let here = canvas_fits(*width, *height, *scale) && match png_data {
                crate::property::CanvasData::Loaded(_) => true,
                crate::property::CanvasData::Ref { src, offset, len } => *offset <= (**src).len() && *len <= (**src).len() - *offset,
            };
            proof {
                lemma_all_ok_concat(seq![p.model()], list_canvases(props_model(properties@), 0));
                assert(here == canvas_ok(p.model()));
                assert(seq![p.model()][0] == p.model());
                assert(all_canvases_ok(seq![p.model()]) == canvas_ok(p.model()));
            }
            here && canvases_exportable(properties)
        },
        WzProperty::SubProperty { properties } => canvases_exportable(properties),
        WzProperty::Convex { points } => canvases_exportable(points),
        WzProperty::RawData { properties, .. } => canvases_exportable(properties),
        WzProperty::Video { properties, .. } => canvases_exportable(properties),
        _ => true,
    }
}

/// Whether the data can be handed to the decompressor with this key (see
/// [`blocks_sized`]): encrypted blocks must not declare a negative size.
pub fn blocks_well_sized(c: &[u8], key: Option<&[u8]>) -> (b: bool)
    ensures
        b == blocks_sized(c@, match key { Some(k) => Some(k@), None => None }),
{
    if c.len() < 2 || (c[0] == 0x78 && (c[1] == 0x9C || c[1] == 0xDA || c[1] == 0x01 || c[1] == 0x5E)) {
        return true;
    }
    let k = match key {
        None => {
            return true;
        },
        Some(k) => k,
    };
    let ghost d = c@;
    let mut p: usize = 0;
    while p < c.len()
        invariant
            p <= c.len(),
            d == c@,
            key == Some(k),
            c.len() >= 2,
            !is_zlib_header(c@[0], c@[1]),
            (sp_blocks(d, 0, k@) is NegativeSize) == (sp_blocks(d, p as nat, k@) is NegativeSize),
        decreases c.len() - p,
    {
        if c.len() - p < 4 {
            assert(sp_blocks(d, p as nat, k@) is Truncated);
            return true;
        }
        let raw: u32 = c[p] as u32 + 256 * (c[p + 1] as u32) + 65536 * (c[p + 2] as u32) + 16777216 * (c[p + 3] as u32);
        let size = raw as i32;
        assert(rd_i32(d, p as int) == Some((size, p + 4))) by {
            reveal_with_fuel(crate::reader::le_value, 5);
        }
        if size < 0 {
            return false;
        }
        let n = size as usize;
        if n > c.len() - (p + 4) {
            assert(rd_bytes(d, p + 4, size as int) is None);
            assert(sp_blocks(d, p as nat, k@) is Truncated);
            return true;
        }
        p = p + 4 + n;
    }
    true
}

} // verus!
