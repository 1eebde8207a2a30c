//! Canvas pixel decoding: raw WZ pixel data of any supported format to RGBA8888.
use vstd::prelude::*;
use crate::error::{ErrV, WzError, WzResult};
use crate::types::{WzPngFormat, align4};
use crate::pixel::{Rgba, channel, le16, le32, read_le16, read_le32, bgra4444_pixel, bgra8888_pixel, argb1555_pixel, rgb565_pixel, r16_pixel, a8_pixel, rgba1010102_pixel, decode_bgra4444, decode_argb1555, decode_rgb565, decode_rgba1010102};
use crate::dxt::{DxtKind, dxt_pixel, decode_dxt_texel, block_bytes};

verus! {

/// Whether pixel data of this format can be decoded by [`decode_pixels`].
pub open spec fn is_decodable(format: WzPngFormat) -> bool {
    !(format is Unknown || format is Bc7 || format is Rgba32Float)
}

/// Pixel `(x, y)` of a `w × h` image of the given format whose raw data is `d`.
pub open spec fn format_pixel(format: WzPngFormat, d: Seq<u8>, w: int, h: int, x: int, y: int) -> Rgba {
    let i = y * w + x;
    match format {
        WzPngFormat::Bgra4444 => bgra4444_pixel(d[2 * i], d[2 * i + 1]),
        WzPngFormat::Bgra8888 => bgra8888_pixel(d[4 * i], d[4 * i + 1], d[4 * i + 2], d[4 * i + 3]),
        WzPngFormat::Argb1555 => argb1555_pixel(le16(d, 2 * i)),
        WzPngFormat::Rgb565 => rgb565_pixel(le16(d, 2 * i)),
        WzPngFormat::Rgb565Block => {
            let bw = w / 16;
            let bh = h / 16;
            if x < bw * 16 && y < bh * 16 {
                rgb565_pixel(le16(d, 2 * ((y / 16) * bw + x / 16)))
            } else {
                rgb565_pixel(0)
            }
        },
        WzPngFormat::R16 => r16_pixel(le16(d, 2 * i)),
        WzPngFormat::A8 => a8_pixel(d[i]),
        WzPngFormat::Rgba1010102 => rgba1010102_pixel(le32(d, 4 * i)),
        WzPngFormat::Dxt3Grayscale | WzPngFormat::Dxt3 => dxt_pixel(DxtKind::Dxt3, d, w, x, y),
        WzPngFormat::Dxt5 => dxt_pixel(DxtKind::Dxt5, d, w, x, y),
        WzPngFormat::Dxt1 => dxt_pixel(DxtKind::Dxt1, d, w, x, y),
        _ => (0u8, 0u8, 0u8, 0u8),
    }
}

/// The RGBA8888 image, row-major, four bytes per pixel.
pub open spec fn decoded_image(format: WzPngFormat, d: Seq<u8>, w: nat, h: nat) -> Seq<u8> {
    Seq::new(
        w * h * 4,
        |k: int| channel(format_pixel(format, d, w as int, h as int, (k / 4) % (w as int), (k / 4) / (w as int)), k % 4),
    )
}

/// `raw`, extended with zero bytes to `expected` bytes when it is shorter
/// (and `expected` is not 0).
pub open spec fn zero_padded(raw: Seq<u8>, expected: nat) -> Seq<u8> {
    if expected > 0 && raw.len() < expected {
        raw + Seq::new((expected - raw.len()) as nat, |i: int| 0u8)
    } else {
        raw
    }
}

/// What [`decode_pixels`] produces.
pub open spec fn spec_decode_pixels(raw: Seq<u8>, w: nat, h: nat, format: WzPngFormat) -> Result<Seq<u8>, ErrV> {
    if is_decodable(format) {
        Ok(decoded_image(format, zero_padded(raw, format.spec_raw_data_size(w, h)), w, h))
    } else {
        Err(ErrV::UnsupportedPngFormat(format.spec_id()))
    }
}

/// Size limits under which decoding cannot overflow: the pixel count fits a
/// `u32` and every buffer size fits a `usize`.
pub open spec fn dims_ok(w: u32, h: u32) -> bool {
    &&& w * h <= u32::MAX
    &&& (w + 4) * (h + 4) * 16 <= usize::MAX
}

fn decode_pixel(format: &WzPngFormat, d: &[u8], w: u32, h: u32, x: u32, y: u32) -> (p: Rgba)
    requires
        is_decodable(*format),
        dims_ok(w, h),
        x < w,
        y < h,
        d.len() >= format.spec_raw_data_size(w as nat, h as nat),
    ensures
        p == format_pixel(*format, d@, w as int, h as int, x as int, y as int),
{
    proof {
        assert(y * w + x < w * h) by (nonlinear_arith)
            requires x < w, y < h;
    }
    let i: usize = y as usize * w as usize + x as usize;
    match format {
        WzPngFormat::Bgra4444 => decode_bgra4444(d[2 * i], d[2 * i + 1]),
        WzPngFormat::Bgra8888 => (d[4 * i + 2], d[4 * i + 1], d[4 * i], d[4 * i + 3]),
        WzPngFormat::Argb1555 => decode_argb1555(read_le16(d, 2 * i)),
        WzPngFormat::Rgb565 => decode_rgb565(read_le16(d, 2 * i)),
        WzPngFormat::Rgb565Block => {
            let bw = w / 16;
            let bh = h / 16;
            if x < bw * 16 && y < bh * 16 {
                proof {
                    assert((y / 16) * bw + x / 16 < bw * bh) by (nonlinear_arith)
                        requires
                            x < bw * 16,
                            y < bh * 16,
                            x >= 0,
                            y >= 0,
                    ;
                    assert(bw * bh <= w * h) by (nonlinear_arith)
                        requires
                            bw == w / 16,
                            bh == h / 16,
                            w >= 0,
                            h >= 0,
                    ;
                    assert(2 * (bw * bh) <= w * h / 128) by (nonlinear_arith)
                        requires
                            bw == w / 16,
                            bh == h / 16,
                            w >= 0,
                            h >= 0,
                    ;
                }
                let b: usize = (y / 16) as usize * bw as usize + (x / 16) as usize;
                assert(format.spec_raw_data_size(w as nat, h as nat) == (w as nat) * (h as nat) / 128);
                assert(2 * b + 1 < d.len());
                decode_rgb565(read_le16(d, 2 * b))
            } else {
                decode_rgb565(0)
            }
        },
        WzPngFormat::R16 => {
            let v = read_le16(d, 2 * i);
            (#[verifier::truncate] ((v >> 8u16) as u8), 0u8, 0u8, 255u8)
        },
        WzPngFormat::A8 => (255u8, 255u8, 255u8, d[i]),
        WzPngFormat::Rgba1010102 => decode_rgba1010102(read_le32(d, 4 * i)),
        _ => {
            let kind = match format {
                WzPngFormat::Dxt5 => DxtKind::Dxt5,
                WzPngFormat::Dxt1 => DxtKind::Dxt1,
                _ => DxtKind::Dxt3,
            };
            proof {
                assert(w + 3 <= (w + 4) * (h + 4) * 16 && h + 3 <= (w + 4) * (h + 4) * 16)
                    by (nonlinear_arith)
                    requires
                        w >= 0,
                        h >= 0,
                ;
            }
            let bw = (w as usize + 3) / 4;
            let bh = (h as usize + 3) / 4;
            proof {
                assert((y / 4) * bw + x / 4 < bw * bh) by (nonlinear_arith)
                    requires
                        x < w,
                        y < h,
                        bw == (w + 3) / 4,
                        bh == (h + 3) / 4,
                        x >= 0,
                        y >= 0,
                ;
                assert(bw * bh <= (w + 4) * (h + 4) * 16) by (nonlinear_arith)
                    requires
                        bw * 4 <= w + 3,
                        bh * 4 <= h + 3,
                        bw >= 0,
                        bh >= 0,
                ;
            }
            let b: usize = (y / 4) as usize * bw + (x / 4) as usize;
            let bb: usize = match kind {
                DxtKind::Dxt1 => 8,
                _ => 16,
            };
            proof {
                assert(b < bw * bh) by (nonlinear_arith)
                    requires
                        b == (y / 4) * bw + x / 4,
                        x < w,
                        y < h,
                        bw == (w + 3) / 4,
                        bh == (h + 3) / 4,
                        x >= 0,
                        y >= 0,
                ;
                assert(b * bb + bb <= bw * bh * bb) by (nonlinear_arith)
                    requires
                        b < bw * bh,
                        bb >= 0,
                ;
                assert(align4(w as nat) == 4 * bw);
                assert(align4(h as nat) == 4 * bh);
                assert(4 * bw * (4 * bh) == 16 * (bw * bh)) by (nonlinear_arith);
                assert(bw * bh * bb <= (w + 4) * (h + 4) * 16) by (nonlinear_arith)
                    requires
                        bw * 4 <= w + 3,
                        bh * 4 <= h + 3,
                        bb <= 16,
                        bw >= 0,
                        bh >= 0,
                ;
            }
            let j: u32 = 4 * (y % 4) + x % 4;
            decode_dxt_texel(&kind, d, b * bb, j)
        },
    }
}


/// Decodes every pixel of a `w × h` image, row by row.
fn decode_all(format: &WzPngFormat, d: &[u8], w: u32, h: u32) -> (out: Vec<u8>)
    requires
        is_decodable(*format),
        dims_ok(w, h),
        d.len() >= format.spec_raw_data_size(w as nat, h as nat),
    ensures
        out@ == decoded_image(*format, d@, w as nat, h as nat),
{
    let mut out: Vec<u8> = Vec::new();
    let ghost wi = w as int;
    let mut y: u32 = 0;
    while y < h
        invariant
            y <= h,
            wi == w,
            is_decodable(*format),
            dims_ok(w, h),
            d.len() >= format.spec_raw_data_size(w as nat, h as nat),
            out.len() == 4 * (y * wi),
            forall|k: int|
                0 <= k < out.len() ==> #[trigger] out@[k] == channel(
                    format_pixel(*format, d@, w as int, h as int, (k / 4) % wi, (k / 4) / wi),
                    k % 4,
                ),
        decreases h - y,
    {
        let mut x: u32 = 0;
        while x < w
            invariant
                x <= w,
                y < h,
                wi == w,
                is_decodable(*format),
                dims_ok(w, h),
                d.len() >= format.spec_raw_data_size(w as nat, h as nat),
                out.len() == 4 * (y * wi + x),
                forall|k: int|
                    0 <= k < out.len() ==> #[trigger] out@[k] == channel(
                        format_pixel(*format, d@, w as int, h as int, (k / 4) % wi, (k / 4) / wi),
                        k % 4,
                    ),
            decreases w - x,
        {
            proof {
                assert(y * wi + x < wi * h) by (nonlinear_arith)
                    requires x < wi, y < h;
                assert(4 * (y * wi + x) + 4 <= 4 * (w * h)) by (nonlinear_arith)
                    requires y * wi + x < wi * h, wi == w;
            }
            let p = decode_pixel(format, d, w, h, x, y);
            let ghost m = y * wi + x;
            let ghost old_out = out@;
            out.push(p.0);
            out.push(p.1);
            out.push(p.2);
            out.push(p.3);
            proof {
                vstd::arithmetic::div_mod::lemma_fundamental_div_mod_converse(m, wi, y as int, x as int);
                assert forall|k: int| 0 <= k < out.len() implies #[trigger] out@[k] == channel(
                    format_pixel(*format, d@, w as int, h as int, (k / 4) % wi, (k / 4) / wi),
                    k % 4,
                ) by {
                    if k >= 4 * m {
                        assert(k / 4 == m);
                    } else {
                        assert(out@[k] == old_out[k]);
                    }
                }
            }
            x = x + 1;
        }
        proof {
            assert(y * wi + wi == (y + 1) * wi) by (nonlinear_arith);
        }
        y = y + 1;
    }
    proof {
        assert(4 * (h * wi) == (w as nat) * (h as nat) * 4) by (nonlinear_arith)
            requires wi == w;
    }
    assert(out@ =~= decoded_image(*format, d@, w as nat, h as nat));
    out
}


/// Decodes raw WZ pixel data to RGBA8888. Data shorter than the format's raw
/// size is treated as if zero-padded to that size.
pub fn decode_pixels(raw: &[u8], width: u32, height: u32, format: WzPngFormat) -> (r: WzResult<Vec<u8>>)
    requires
        dims_ok(width, height),
    ensures
        match spec_decode_pixels(raw@, width as nat, height as nat, format) {
            Ok(img) => r matches Ok(v) && v@ == img,
            Err(e) => r matches Err(err) && err@ == e,
        },
{
    if !matches!(format, WzPngFormat::Unknown(_) | WzPngFormat::Bc7 | WzPngFormat::Rgba32Float) {
        proof {
            assert((width + 3) * (height + 3) * 16 <= (width + 4) * (height + 4) * 16) by (nonlinear_arith)
                requires width >= 0, height >= 0;
        }
        let expected = format.raw_data_size(width, height);
        if expected > 0 && raw.len() < expected {
            let mut padded: Vec<u8> = vstd::slice::slice_to_vec(raw);
            while padded.len() < expected
                invariant
                    raw@.len() <= padded.len() <= expected,
                    padded@ =~= raw@ + Seq::new((padded.len() - raw@.len()) as nat, |i: int| 0u8),
                decreases expected - padded.len(),
            {
                padded.push(0u8);
            }
            Ok(decode_all(&format, padded.as_slice(), width, height))
        } else {
            Ok(decode_all(&format, raw, width, height))
        }
    } else {
        Err(WzError::UnsupportedPngFormat(format.id()))
    }
}

/// Size limits for upscaling `(sw, sh)` to `(dw, dh)` without overflow.
pub open spec fn upscale_ok(sw: u32, sh: u32, dw: u32, dh: u32) -> bool {
    &&& dw * sw <= u32::MAX
    &&& dh * sh <= u32::MAX
    &&& sw * sh <= u32::MAX
    &&& sw * sh * 4 + 4 <= usize::MAX
    &&& dw * dh * 4 <= usize::MAX
    &&& dw * dh <= u32::MAX
}

/// The source pixel index that destination coordinate `d` of `dn` maps to
/// along an axis of `sn` source pixels.
pub open spec fn nearest_src(d: int, sn: int, dn: int) -> int {
    let s = (d * sn) / dn;
    if s < sn - 1 {
        s
    } else {
        sn - 1
    }
}

/// Nearest-neighbour upscale of an RGBA8888 image from `(sw, sh)` to
/// `(dw, dh)`: each destination pixel copies its nearest source pixel, or
/// stays zero when the source has no such pixel (or has no pixels at all).
pub open spec fn upscaled(src: Seq<u8>, sw: int, sh: int, dw: int, dh: int) -> Seq<u8> {
    Seq::new(
        (dw * dh * 4) as nat,
        |k: int|
            {
                let m = k / 4;
                let si = (nearest_src(m / dw, sh, dh) * sw + nearest_src(m % dw, sw, dw)) * 4;
                if sw == 0 || sh == 0 || si + 4 > src.len() {
                    0u8
                } else {
                    src[si + k % 4]
                }
            },
    )
}

fn nearest_upscale(src: &[u8], sw: u32, sh: u32, dw: u32, dh: u32) -> (out: Vec<u8>)
    requires
        upscale_ok(sw, sh, dw, dh),
    ensures
        out@ == upscaled(src@, sw as int, sh as int, dw as int, dh as int),
{
    let mut out: Vec<u8> = Vec::new();
    let ghost dwi = dw as int;
    let mut y: u32 = 0;
    while y < dh
        invariant
            y <= dh,
            dwi == dw,
            upscale_ok(sw, sh, dw, dh),
            out.len() == 4 * (y * dwi),
            forall|k: int|
                0 <= k < out.len() ==> #[trigger] out@[k] == upscaled(src@, sw as int, sh as int, dw as int, dh as int)[k],
        decreases dh - y,
    {
        let mut x: u32 = 0;
        while x < dw
            invariant
                x <= dw,
                y < dh,
                dwi == dw,
                upscale_ok(sw, sh, dw, dh),
                out.len() == 4 * (y * dwi + x),
                forall|k: int|
                    0 <= k < out.len() ==> #[trigger] out@[k] == upscaled(src@, sw as int, sh as int, dw as int, dh as int)[k],
            decreases dw - x,
        {
            proof {
                assert(y * dwi + x < dwi * dh) by (nonlinear_arith)
                    requires x < dwi, y < dh;
                assert(4 * (y * dwi + x) + 4 <= 4 * (dw * dh)) by (nonlinear_arith)
                    requires y * dwi + x < dwi * dh, dwi == dw;
            }
            let ghost m = y * dwi + x;
            let ghost old_out = out@;
            let mut px: (u8, u8, u8, u8) = (0, 0, 0, 0);
            if sw != 0 && sh != 0 {
                proof {
                    assert(y * sh <= dh * sh) by (nonlinear_arith) requires y < dh, sh >= 0;
                    assert(x * sw <= dw * sw) by (nonlinear_arith) requires x < dw, sw >= 0;
                }
                let qy = (y * sh) / dh;
                let sy = if qy < sh - 1 { qy } else { sh - 1 };
                let qx = (x * sw) / dw;
                let sx = if qx < sw - 1 { qx } else { sw - 1 };
                proof {
                    assert(sy * sw + sx < sw * sh) by (nonlinear_arith)
                        requires sy < sh, sx < sw, sy >= 0, sx >= 0;
                }
                proof {
                    assert((sy * sw + sx) * 4 + 4 <= sw * sh * 4 + 4) by (nonlinear_arith)
                        requires sy * sw + sx < sw * sh;
                }
                let si: usize = ((sy * sw + sx) as usize) * 4;
                if si + 4 <= src.len() {
                    px = (src[si], src[si + 1], src[si + 2], src[si + 3]);
                }
            }
            out.push(px.0);
            out.push(px.1);
            out.push(px.2);
            out.push(px.3);
            proof {
                vstd::arithmetic::div_mod::lemma_fundamental_div_mod_converse(m, dwi, y as int, x as int);
                assert forall|k: int| 0 <= k < out.len() implies #[trigger] out@[k] == upscaled(
                    src@, sw as int, sh as int, dw as int, dh as int)[k] by {
                    if k >= 4 * m {
                        assert(k / 4 == m);
                    } else {
                        assert(out@[k] == old_out[k]);
                    }
                }
            }
            x = x + 1;
        }
        proof {
            assert(y * dwi + dwi == (y + 1) * dwi) by (nonlinear_arith);
        }
        y = y + 1;
    }
    proof {
        assert(4 * (dh * dwi) == dw * dh * 4) by (nonlinear_arith)
            requires dwi == dw;
    }
    assert(out@ =~= upscaled(src@, sw as int, sh as int, dw as int, dh as int));
    out
}


/// The stored size of a dimension under scale exponent `scale`: `n >> scale`,
/// but at least 1.
pub open spec fn scaled_dim(n: u32, scale: u8) -> u32 {
    if (n >> scale) > 1 {
        n >> scale
    } else {
        1
    }
}

/// What [`decode_canvas_pixels`] produces.
pub open spec fn spec_decode_canvas_pixels(
    raw: Seq<u8>,
    w: u32,
    h: u32,
    scale: u8,
    format: WzPngFormat,
) -> Result<Seq<u8>, ErrV> {
    if scale == 0 {
        spec_decode_pixels(raw, w as nat, h as nat, format)
    } else {
        let sw = scaled_dim(w, scale);
        let sh = scaled_dim(h, scale);
        match spec_decode_pixels(raw, sw as nat, sh as nat, format) {
            Ok(small) => Ok(upscaled(small, sw as int, sh as int, w as int, h as int)),
            Err(e) => Err(e),
        }
    }
}

/// Decodes a canvas's decompressed bytes to RGBA8888, honoring the scale
/// exponent: with `scale > 0` the data holds a `(w >> scale) × (h >> scale)`
/// image (each side at least 1) that is upscaled to `w × h` by nearest
/// neighbour.
pub fn decode_canvas_pixels(
    raw: &[u8],
    width: u32,
    height: u32,
    scale: u8,
    format: WzPngFormat,
) -> (r: WzResult<Vec<u8>>)
    requires
        dims_ok(width, height),
        scale != 0 ==> {
            &&& scale < 32
            &&& dims_ok(scaled_dim(width, scale), scaled_dim(height, scale))
            &&& upscale_ok(scaled_dim(width, scale), scaled_dim(height, scale), width, height)
        },
    ensures
        match spec_decode_canvas_pixels(raw@, width, height, scale, format) {
            Ok(img) => r matches Ok(v) && v@ == img,
            Err(e) => r matches Err(err) && err@ == e,
        },
{
    if scale == 0 {
        return decode_pixels(raw, width, height, format);
    }
    let sw = if (width >> scale) > 1 { width >> scale } else { 1 };
    let sh = if (height >> scale) > 1 { height >> scale } else { 1 };
    let small = decode_pixels(raw, sw, sh, format)?;
    Ok(nearest_upscale(small.as_slice(), sw, sh, width, height))
}

/// Law: with scale exponent 0, canvas decoding is exactly [`decode_pixels`].
pub proof fn lemma_scale_zero_is_plain_decode(raw: Seq<u8>, w: u32, h: u32, format: WzPngFormat)
    ensures
        spec_decode_canvas_pixels(raw, w, h, 0, format) == spec_decode_pixels(raw, w as nat, h as nat, format),
{
}

/// Law: a successful decode of a `w × h` image yields exactly `w·h` RGBA pixels.
pub proof fn lemma_decoded_length(raw: Seq<u8>, w: nat, h: nat, format: WzPngFormat)
    ensures
        spec_decode_pixels(raw, w, h, format) matches Ok(img) ==> img.len() == w * h * 4,
{
}

/// Law: upscaling an image to its own size gives it back unchanged.
pub proof fn lemma_upscale_same_size_is_identity(src: Seq<u8>, w: int, h: int)
    requires
        w > 0,
        h > 0,
        src.len() == w * h * 4,
    ensures
        upscaled(src, w, h, w, h) == src,
{
    assert forall|k: int| 0 <= k < src.len() implies #[trigger] upscaled(src, w, h, w, h)[k] == src[k] by {
        let m = k / 4;
        let x = m % w;
        let y = m / w;
        assert(m < w * h) by (nonlinear_arith) requires k < w * h * 4, m == k / 4, k >= 0;
        assert(0 <= y < h) by (nonlinear_arith) requires y == m / w, m < w * h, m >= 0, w > 0;
        assert(0 <= x < w) by (nonlinear_arith) requires x == m % w, w > 0;
        assert((y * h) / h == y) by (nonlinear_arith) requires h > 0;
        assert((x * w) / w == x) by (nonlinear_arith) requires w > 0;
        assert(nearest_src(y, h, h) == y);
        assert(nearest_src(x, w, w) == x);
        vstd::arithmetic::div_mod::lemma_fundamental_div_mod(m, w);
        assert((y * w + x) == m) by (nonlinear_arith) requires m == w * (m / w) + m % w, y == m / w, x == m % w;
        assert((y * w + x) * 4 + 4 <= src.len()) by (nonlinear_arith) requires y * w + x < w * h, src.len() == w * h * 4;
        assert(k == m * 4 + k % 4);
    }
    assert(upscaled(src, w, h, w, h) =~= src) by (nonlinear_arith)
        requires src.len() == w * h * 4, upscaled(src, w, h, w, h).len() == w * h * 4,
        forall|k: int| 0 <= k < src.len() ==> #[trigger] upscaled(src, w, h, w, h)[k] == src[k];
}

/// Pixel `(x, y)` of a decoded image is the format's pixel at `(x, y)` of
/// the zero-padded data.
proof fn lemma_decoded_pixel(raw: Seq<u8>, w: nat, h: nat, format: WzPngFormat, x: int, y: int, c: int)
    requires
        is_decodable(format),
        0 <= x < w,
        0 <= y < h,
        0 <= c < 4,
    ensures
        spec_decode_pixels(raw, w, h, format) matches Ok(img) && img.len() == w * h * 4 && 0 <= 4 * (y * w + x) + c
            < img.len() && img[4 * (y * w + x) + c] == channel(
            format_pixel(
                format,
                zero_padded(raw, format.spec_raw_data_size(w, h)),
                w as int,
                h as int,
                x,
                y,
            ),
            c,
        ),
{
    let m = y * w + x;
    let k = 4 * m + c;
    assert(0 <= m < w * h) by (nonlinear_arith)
        requires
            m == y * w + x,
            0 <= x < w,
            0 <= y < h,
    ;
    assert(k / 4 == m && k % 4 == c);
    vstd::arithmetic::div_mod::lemma_fundamental_div_mod_converse(m, w as int, y, x);
}

/// The data byte at `at` after zero padding: the byte of `raw` there, or 0
/// past its end.
proof fn lemma_padded_byte(raw: Seq<u8>, n: nat, at: int)
    requires
        0 <= at < n,
    ensures
        zero_padded(raw, n)[at] == (if at < raw.len() { raw[at] } else { 0u8 }),
{
}

proof fn lemma_nibbles(b: u8)
    ensures
        crate::pixel::expand4(b) as int == 17 * (b as int % 16),
        crate::pixel::expand4(b >> 4u8) as int == 17 * (b as int / 16),
{
    assert((b & 0x0F) | ((b & 0x0F) << 4u8) == 17 * (b % 16)) by (bit_vector);
    assert(((b >> 4u8) & 0x0F) | (((b >> 4u8) & 0x0F) << 4u8) == 17 * (b / 16)) by (bit_vector);
}

/// Law: the alpha of a DXT3 pixel is the explicit 4-bit value of its texel,
/// widened by repetition: texel `j` (row-major in its 4×4 block; blocks
/// stored row-major, 16 bytes each) takes byte `j / 2` of its block's alpha
/// half, the low nibble for an even `j` and the high nibble for an odd one.
/// Data shorter than the image reads as zeros.
pub proof fn lemma_dxt3_alpha_nibble(raw: Seq<u8>, w: nat, h: nat, format: WzPngFormat, x: int, y: int)
    requires
        format is Dxt3 || format is Dxt3Grayscale,
        0 <= x < w,
        0 <= y < h,
    ensures
        spec_decode_pixels(raw, w, h, format) matches Ok(img) && img.len() == w * h * 4 && img[4 * (y * w + x) + 3] as int
            == 17 * ({
            let j = 4 * (y % 4) + x % 4;
            let at = ((y / 4) * ((w + 3) / 4) + x / 4) * 16 + j / 2;
            let b: int = if at < raw.len() {
                raw[at] as int
            } else {
                0
            };
            if j % 2 == 0 {
                b % 16
            } else {
                b / 16
            }
        }),
{
    lemma_decoded_pixel(raw, w, h, format, x, y, 3);
    let bw: int = ((w + 3) / 4) as int;
    let bh: int = ((h + 3) / 4) as int;
    let j = 4 * (y % 4) + x % 4;
    let block = (y / 4) * bw + x / 4;
    let at = block * 16 + j / 2;
    let n = format.spec_raw_data_size(w, h);
    assert(n == align4(w) * align4(h));
    assert(align4(w) == bw * 4 && align4(h) == bh * 4);
    assert(0 <= j < 16);
    assert(0 <= x / 4 < bw && 0 <= y / 4 < bh);
    assert(0 <= block < bw * bh) by (nonlinear_arith)
        requires
            block == (y / 4) * bw + x / 4,
            0 <= x / 4 < bw,
            0 <= y / 4 < bh,
    ;
    assert(0 <= at < n) by (nonlinear_arith)
        requires
            at == block * 16 + j / 2,
            0 <= block < bw * bh,
            0 <= j < 16,
            n == (bw * 4) * (bh * 4),
    ;
    lemma_padded_byte(raw, n, at);
    let d = zero_padded(raw, n);
    lemma_nibbles(d[at]);
    assert(format_pixel(format, d, w as int, h as int, x, y) == dxt_pixel(DxtKind::Dxt3, d, w as int, x, y));
}

// ── Laws on the uncompressed formats ────────────────────────────────

/// The byte at `at` of canvas data as decoding reads it: the byte of `raw`,
/// or 0 past its end.
pub open spec fn data_byte(raw: Seq<u8>, at: int) -> int {
    if 0 <= at < raw.len() {
        raw[at] as int
    } else {
        0
    }
}

/// Whether pixel `(x, y)` of the `w`-wide RGBA8888 image `img` is
/// `(r, g, b, a)`.
pub open spec fn pixel_at(img: Seq<u8>, w: int, x: int, y: int, r: int, g: int, b: int, a: int) -> bool {
    let k = 4 * (y * w + x);
    &&& img[k] as int == r
    &&& img[k + 1] as int == g
    &&& img[k + 2] as int == b
    &&& img[k + 3] as int == a
}

proof fn lemma_pixel_index(w: nat, h: nat, x: int, y: int)
    requires
        0 <= x < w,
        0 <= y < h,
    ensures
        0 <= y * w + x < w * h,
{
    assert(0 <= y * w + x < w * h) by (nonlinear_arith)
        requires
            0 <= x < w,
            0 <= y < h,
    ;
}

/// A decoded pixel is the format's pixel of the zero-padded data.
proof fn lemma_decoded_rgba(raw: Seq<u8>, w: nat, h: nat, format: WzPngFormat, x: int, y: int)
    requires
        is_decodable(format),
        0 <= x < w,
        0 <= y < h,
    ensures
        spec_decode_pixels(raw, w, h, format) matches Ok(img) && img.len() == w * h * 4 && ({
            let p = format_pixel(format, zero_padded(raw, format.spec_raw_data_size(w, h)), w as int, h as int, x, y);
            pixel_at(img, w as int, x, y, p.0 as int, p.1 as int, p.2 as int, p.3 as int)
        }),
{
    lemma_decoded_pixel(raw, w, h, format, x, y, 0);
    lemma_decoded_pixel(raw, w, h, format, x, y, 1);
    lemma_decoded_pixel(raw, w, h, format, x, y, 2);
    lemma_decoded_pixel(raw, w, h, format, x, y, 3);
}

proof fn lemma_le16_value(d: Seq<u8>, p: int)
    ensures
        crate::pixel::le16(d, p) as int == d[p] as int + 256 * d[p + 1] as int,
{
    let a = d[p];
    let b = d[p + 1];
    assert((a as u16) | ((b as u16) << 8u16) == a as u16 + 256 * (b as u16)) by (bit_vector);
}

proof fn lemma_le32_value(d: Seq<u8>, p: int)
    ensures
        crate::pixel::le32(d, p) as int == d[p] as int + 256 * d[p + 1] as int + 65536 * d[p + 2] as int + 16777216
            * d[p + 3] as int,
{
    let a = d[p];
    let b = d[p + 1];
    let c = d[p + 2];
    let e = d[p + 3];
    assert((a as u32) | ((b as u32) << 8u32) | ((c as u32) << 16u32) | ((e as u32) << 24u32) == a as u32 + 256 * (b as u32)
        + 65536 * (c as u32) + 16777216 * (e as u32)) by (bit_vector);
}

/// A 5-bit value widened to 8 bits: `8v + v / 4`.
pub open spec fn widened5(v: int) -> int {
    8 * v + v / 4
}

/// A 6-bit value widened to 8 bits: `4v + v / 16`.
pub open spec fn widened6(v: int) -> int {
    4 * v + v / 16
}

proof fn lemma_expand5(v: u16)
    ensures
        crate::pixel::expand5((v >> 11u16) as u8) as int == widened5((v as int / 2048) % 32),
        crate::pixel::expand5((v >> 10u16) as u8) as int == widened5((v as int / 1024) % 32),
        crate::pixel::expand5((v >> 5u16) as u8) as int == widened5((v as int / 32) % 32),
        crate::pixel::expand5(v as u8) as int == widened5(v as int % 32),
{
    assert(((v >> 11u16) as u8) & 0x1F == ((v / 2048) % 32) as u8) by (bit_vector);
    assert(((v >> 10u16) as u8) & 0x1F == ((v / 1024) % 32) as u8) by (bit_vector);
    assert(((v >> 5u16) as u8) & 0x1F == ((v / 32) % 32) as u8) by (bit_vector);
    assert((v as u8) & 0x1F == (v % 32) as u8) by (bit_vector);
    assert forall|x: u8| x < 32 implies (x << 3u8) | (x >> 2u8) == 8 * x + x / 4 by {
        assert((x << 3u8) | (x >> 2u8) == 8 * x + x / 4) by (bit_vector)
            requires
                x < 32,
        ;
    }
}

proof fn lemma_expand6(v: u16)
    ensures
        crate::pixel::expand6((v >> 5u16) as u8) as int == widened6((v as int / 32) % 64),
{
    let x = ((v >> 5u16) as u8) & 0x3F;
    assert(((v >> 5u16) as u8) & 0x3F == ((v / 32) % 64) as u8) by (bit_vector);
    assert((x << 2u8) | (x >> 4u8) == 4 * x + x / 16) by (bit_vector)
        requires
            x < 64,
    ;
}

/// Law: a BGRA4444 pixel is its two bytes `lo`, `hi` (pixel `i` at bytes
/// `2i`, `2i + 1`) read as blue = low nibble of `lo`, green = high nibble of
/// `lo`, red = low nibble of `hi`, alpha = high nibble of `hi`, each widened
/// by repetition (`17 ·` the nibble).
pub proof fn lemma_bgra4444_pixel(raw: Seq<u8>, w: nat, h: nat, x: int, y: int)
    requires
        0 <= x < w,
        0 <= y < h,
    ensures
        spec_decode_pixels(raw, w, h, WzPngFormat::Bgra4444) matches Ok(img) && ({
            let i = y * w + x;
            let lo = data_byte(raw, 2 * i);
            let hi = data_byte(raw, 2 * i + 1);
            pixel_at(img, w as int, x, y, 17 * (hi % 16), 17 * (lo / 16), 17 * (lo % 16), 17 * (hi / 16))
        }),
{
    let f = WzPngFormat::Bgra4444;
    lemma_decoded_rgba(raw, w, h, f, x, y);
    lemma_pixel_index(w, h, x, y);
    let i = y * w + x;
    let n = f.spec_raw_data_size(w, h);
    assert(2 * i + 1 < n) by (nonlinear_arith)
        requires
            0 <= i < w * h,
            n == w * h * 2,
    ;
    lemma_padded_byte(raw, n, 2 * i);
    lemma_padded_byte(raw, n, 2 * i + 1);
    let d = zero_padded(raw, n);
    lemma_nibbles(d[2 * i]);
    lemma_nibbles(d[2 * i + 1]);
}

/// Law: a BGRA8888 pixel is its four bytes (pixel `i` at bytes `4i` to
/// `4i + 3`) read as blue, green, red, alpha.
pub proof fn lemma_bgra8888_pixel(raw: Seq<u8>, w: nat, h: nat, x: int, y: int)
    requires
        0 <= x < w,
        0 <= y < h,
    ensures
        spec_decode_pixels(raw, w, h, WzPngFormat::Bgra8888) matches Ok(img) && ({
            let i = y * w + x;
            pixel_at(
                img,
                w as int,
                x,
                y,
                data_byte(raw, 4 * i + 2),
                data_byte(raw, 4 * i + 1),
                data_byte(raw, 4 * i),
                data_byte(raw, 4 * i + 3),
            )
        }),
{
    let f = WzPngFormat::Bgra8888;
    lemma_decoded_rgba(raw, w, h, f, x, y);
    lemma_pixel_index(w, h, x, y);
    let i = y * w + x;
    let n = f.spec_raw_data_size(w, h);
    assert(4 * i + 3 < n) by (nonlinear_arith)
        requires
            0 <= i < w * h,
            n == w * h * 4,
    ;
    lemma_padded_byte(raw, n, 4 * i);
    lemma_padded_byte(raw, n, 4 * i + 1);
    lemma_padded_byte(raw, n, 4 * i + 2);
    lemma_padded_byte(raw, n, 4 * i + 3);
}

/// The bytes `2i`, `2i + 1` of the data as a little-endian 16-bit value.
pub open spec fn data_le16(raw: Seq<u8>, i: int) -> int {
    data_byte(raw, 2 * i) + 256 * data_byte(raw, 2 * i + 1)
}

proof fn lemma_pixel_le16(raw: Seq<u8>, w: nat, h: nat, f: WzPngFormat, x: int, y: int)
    requires
        f.spec_raw_data_size(w, h) == w * h * 2,
        0 <= x < w,
        0 <= y < h,
    ensures
        crate::pixel::le16(zero_padded(raw, f.spec_raw_data_size(w, h)), 2 * (y * w + x)) as int == data_le16(raw, y * w + x),
{
    lemma_pixel_index(w, h, x, y);
    let i = y * w + x;
    let n = f.spec_raw_data_size(w, h);
    assert(2 * i + 1 < n) by (nonlinear_arith)
        requires
            0 <= i < w * h,
            n == w * h * 2,
    ;
    lemma_padded_byte(raw, n, 2 * i);
    lemma_padded_byte(raw, n, 2 * i + 1);
    lemma_le16_value(zero_padded(raw, n), 2 * i);
}

/// Law: an ARGB1555 pixel is its 16-bit little-endian value `v` read as
/// alpha = the top bit (opaque when set, else transparent), then five bits
/// each of red, green and blue, each widened to 8 bits.
pub proof fn lemma_argb1555_pixel(raw: Seq<u8>, w: nat, h: nat, x: int, y: int)
    requires
        0 <= x < w,
        0 <= y < h,
    ensures
        spec_decode_pixels(raw, w, h, WzPngFormat::Argb1555) matches Ok(img) && ({
            let v = data_le16(raw, y * w + x);
            pixel_at(
                img,
                w as int,
                x,
                y,
                widened5((v / 1024) % 32),
                widened5((v / 32) % 32),
                widened5(v % 32),
                if v >= 32768 { 255 } else { 0 },
            )
        }),
{
    let f = WzPngFormat::Argb1555;
    lemma_decoded_rgba(raw, w, h, f, x, y);
    lemma_pixel_le16(raw, w, h, f, x, y);
    let v = crate::pixel::le16(zero_padded(raw, f.spec_raw_data_size(w, h)), 2 * (y * w + x));
    lemma_expand5(v);
    assert((v & 0x8000u16 != 0) == (v >= 32768)) by (bit_vector);
}

/// Law: an RGB565 pixel is its 16-bit little-endian value read as five bits
/// of red (the top), six of green and five of blue, each widened to 8 bits,
/// and opaque.
pub proof fn lemma_rgb565_pixel(raw: Seq<u8>, w: nat, h: nat, x: int, y: int)
    requires
        0 <= x < w,
        0 <= y < h,
    ensures
        spec_decode_pixels(raw, w, h, WzPngFormat::Rgb565) matches Ok(img) && ({
            let v = data_le16(raw, y * w + x);
            pixel_at(img, w as int, x, y, widened5(v / 2048), widened6((v / 32) % 64), widened5(v % 32), 255)
        }),
{
    let f = WzPngFormat::Rgb565;
    lemma_decoded_rgba(raw, w, h, f, x, y);
    lemma_pixel_le16(raw, w, h, f, x, y);
    let v = crate::pixel::le16(zero_padded(raw, f.spec_raw_data_size(w, h)), 2 * (y * w + x));
    lemma_expand5(v);
    lemma_expand6(v);
    assert((v as int / 2048) % 32 == v as int / 2048);
}

/// Law: an R16 pixel is red at the intensity of its high byte (the second
/// byte of the pair), with no green or blue, and opaque.
pub proof fn lemma_r16_pixel(raw: Seq<u8>, w: nat, h: nat, x: int, y: int)
    requires
        0 <= x < w,
        0 <= y < h,
    ensures
        spec_decode_pixels(raw, w, h, WzPngFormat::R16) matches Ok(img) && pixel_at(
            img,
            w as int,
            x,
            y,
            data_byte(raw, 2 * (y * w + x) + 1),
            0,
            0,
            255,
        ),
{
    let f = WzPngFormat::R16;
    lemma_decoded_rgba(raw, w, h, f, x, y);
    lemma_pixel_le16(raw, w, h, f, x, y);
    let v = crate::pixel::le16(zero_padded(raw, f.spec_raw_data_size(w, h)), 2 * (y * w + x));
    assert((v >> 8u16) as u8 == v / 256) by (bit_vector);
}

/// Law: an A8 pixel is white with its byte (pixel `i` at byte `i`) as
/// alpha.
pub proof fn lemma_a8_pixel(raw: Seq<u8>, w: nat, h: nat, x: int, y: int)
    requires
        0 <= x < w,
        0 <= y < h,
    ensures
        spec_decode_pixels(raw, w, h, WzPngFormat::A8) matches Ok(img) && pixel_at(
            img,
            w as int,
            x,
            y,
            255,
            255,
            255,
            data_byte(raw, y * w + x),
        ),
{
    let f = WzPngFormat::A8;
    lemma_decoded_rgba(raw, w, h, f, x, y);
    lemma_pixel_index(w, h, x, y);
    lemma_padded_byte(raw, f.spec_raw_data_size(w, h), y * w + x);
}

/// Law: an RGBA1010102 pixel is its 32-bit little-endian value `v` (pixel
/// `i` at bytes `4i` to `4i + 3`) read as ten bits each of red, green and
/// blue from the lowest up, each keeping its top eight bits, and two bits of
/// alpha at the top, widened to 8 bits (`85 ·` them).
pub proof fn lemma_rgba1010102_pixel(raw: Seq<u8>, w: nat, h: nat, x: int, y: int)
    requires
        0 <= x < w,
        0 <= y < h,
    ensures
        spec_decode_pixels(raw, w, h, WzPngFormat::Rgba1010102) matches Ok(img) && ({
            let i = y * w + x;
            let v = data_byte(raw, 4 * i) + 256 * data_byte(raw, 4 * i + 1) + 65536 * data_byte(raw, 4 * i + 2) + 16777216
                * data_byte(raw, 4 * i + 3);
            pixel_at(
                img,
                w as int,
                x,
                y,
                (v % 1024) / 4,
                ((v / 1024) % 1024) / 4,
                ((v / 1048576) % 1024) / 4,
                85 * (v / 1073741824),
            )
        }),
{
    let f = WzPngFormat::Rgba1010102;
    lemma_decoded_rgba(raw, w, h, f, x, y);
    lemma_pixel_index(w, h, x, y);
    let i = y * w + x;
    let n = f.spec_raw_data_size(w, h);
    assert(4 * i + 3 < n) by (nonlinear_arith)
        requires
            0 <= i < w * h,
            n == w * h * 4,
    ;
    lemma_padded_byte(raw, n, 4 * i);
    lemma_padded_byte(raw, n, 4 * i + 1);
    lemma_padded_byte(raw, n, 4 * i + 2);
    lemma_padded_byte(raw, n, 4 * i + 3);
    let d = zero_padded(raw, n);
    lemma_le32_value(d, 4 * i);
    let v = crate::pixel::le32(d, 4 * i);
    assert(((v & 0x3FF) >> 2u32) == (v % 1024) / 4) by (bit_vector);
    assert((((v >> 10u32) & 0x3FF) >> 2u32) == ((v / 1024) % 1024) / 4) by (bit_vector);
    assert((((v >> 20u32) & 0x3FF) >> 2u32) == ((v / 1048576) % 1024) / 4) by (bit_vector);
    assert(((v >> 30u32) * 85) as u8 == 85 * (v / 1073741824)) by (bit_vector);
}

// ── Laws on the block-compressed formats ───────────────────────────

/// Where the block holding pixel `(x, y)` of a `w`-wide image starts: blocks
/// of 4×4 pixels, `size` bytes each, stored row-major, `ceil(w / 4)` per row.
pub open spec fn block_start(w: int, x: int, y: int, size: int) -> int {
    ((y / 4) * ((w + 3) / 4) + x / 4) * size
}

/// The number of pixel `(x, y)` within its 4×4 block, row-major.
pub open spec fn texel_number(x: int, y: int) -> int {
    4 * (y % 4) + x % 4
}

/// The bytes of a block-compressed image at and around pixel `(x, y)`'s
/// block are within the data's size.
proof fn lemma_block_bytes(w: nat, h: nat, x: int, y: int, size: int, n: nat)
    requires
        0 <= x < w,
        0 <= y < h,
        size == 8 || size == 16,
        n == size * ((w + 3) / 4) * ((h + 3) / 4),
    ensures
        0 <= block_start(w as int, x, y, size),
        block_start(w as int, x, y, size) + size <= n,
        0 <= texel_number(x, y) < 16,
{
    let bw: int = ((w + 3) / 4) as int;
    let bh: int = ((h + 3) / 4) as int;
    let block = (y / 4) * bw + x / 4;
    assert(0 <= x / 4 < bw && 0 <= y / 4 < bh);
    assert(0 <= block < bw * bh) by (nonlinear_arith)
        requires
            block == (y / 4) * bw + x / 4,
            0 <= x / 4 < bw,
            0 <= y / 4 < bh,
    ;
    assert(0 <= block * size && block * size + size <= n) by (nonlinear_arith)
        requires
            0 <= block < bw * bh,
            size > 0,
            n == size * bw * bh,
    ;
}

proof fn lemma_le48_value(d: Seq<u8>, p: int)
    ensures
        crate::dxt::le48(d, p) as int == d[p] as int + 256 * d[p + 1] as int + 65536 * d[p + 2] as int + 16777216
            * d[p + 3] as int + 4294967296 * d[p + 4] as int + 1099511627776 * d[p + 5] as int,
{
    let (a, b, c, e, f, g) = (d[p], d[p + 1], d[p + 2], d[p + 3], d[p + 4], d[p + 5]);
    assert((a as u64) | ((b as u64) << 8u64) | ((c as u64) << 16u64) | ((e as u64) << 24u64) | ((f as u64) << 32u64) | ((g
        as u64) << 40u64) == a as u64 + 256 * (b as u64) + 65536 * (c as u64) + 16777216 * (e as u64) + 4294967296 * (f
        as u64) + 1099511627776 * (g as u64)) by (bit_vector);
}

/// The DXT5 alpha a texel with 3-bit code `code` takes between the block's
/// two alphas `a0`, `a1`: `a0`, `a1`, then six (when `a0 > a1`) or four
/// evenly spaced values between them (rounded down), the four-value form
/// ending with fully transparent and fully opaque.
pub open spec fn dxt5_alpha_value(a0: int, a1: int, code: int) -> int {
    if code == 0 {
        a0
    } else if code == 1 {
        a1
    } else if a0 > a1 {
        ((8 - code) * a0 + (code - 1) * a1) / 7
    } else if code <= 5 {
        ((6 - code) * a0 + (code - 1) * a1) / 5
    } else if code == 6 {
        0
    } else {
        255
    }
}

/// Law: the alpha of a DXT5 pixel: its block (16 bytes) starts with two
/// alphas `a0`, `a1` and 48 bits of 3-bit codes, little-endian, the code of
/// texel `j` at bit `3j`; the texel's alpha is the palette entry its code
/// names ([`dxt5_alpha_value`]). Data shorter than the image reads as zeros.
pub proof fn lemma_dxt5_alpha(raw: Seq<u8>, w: nat, h: nat, x: int, y: int)
    requires
        0 <= x < w,
        0 <= y < h,
    ensures
        spec_decode_pixels(raw, w, h, WzPngFormat::Dxt5) matches Ok(img) && ({
            let p = block_start(w as int, x, y, 16);
            let j = texel_number(x, y);
            let bits = data_byte(raw, p + 2) + 256 * data_byte(raw, p + 3) + 65536 * data_byte(raw, p + 4) + 16777216
                * data_byte(raw, p + 5) + 4294967296 * data_byte(raw, p + 6) + 1099511627776 * data_byte(raw, p + 7);
            let code = ((bits as u64) >> ((3 * j) as u64)) & 7u64;
            img[4 * (y * w + x) + 3] as int == dxt5_alpha_value(data_byte(raw, p), data_byte(raw, p + 1), code as int)
        }),
{
    let f = WzPngFormat::Dxt5;
    lemma_decoded_pixel(raw, w, h, f, x, y, 3);
    let n = f.spec_raw_data_size(w, h);
    assert(n == 16 * ((w + 3) / 4) * ((h + 3) / 4)) by (nonlinear_arith)
        requires
            n == align4(w) * align4(h),
            align4(w) == ((w + 3) / 4) * 4,
            align4(h) == ((h + 3) / 4) * 4,
    ;
    lemma_block_bytes(w, h, x, y, 16, n);
    let p = block_start(w as int, x, y, 16);
    let j = texel_number(x, y);
    let d = zero_padded(raw, n);
    lemma_padded_byte(raw, n, p);
    lemma_padded_byte(raw, n, p + 1);
    lemma_padded_byte(raw, n, p + 2);
    lemma_padded_byte(raw, n, p + 3);
    lemma_padded_byte(raw, n, p + 4);
    lemma_padded_byte(raw, n, p + 5);
    lemma_padded_byte(raw, n, p + 6);
    lemma_padded_byte(raw, n, p + 7);
    lemma_le48_value(d, p + 2);
    assert(format_pixel(f, d, w as int, h as int, x, y) == crate::dxt::dxt_pixel(DxtKind::Dxt5, d, w as int, x, y));
    let bits48 = crate::dxt::le48(d, p + 2);
    let sh: u64 = (3 * j) as u64;
    let code = (bits48 >> sh) & 7;
    assert(code < 8) by (bit_vector)
        requires
            code == (bits48 >> sh) & 7,
    ;
    let a0 = d[p];
    let a1 = d[p + 1];
    if code >= 2 && a0 > a1 {
        assert(((8 - code) * a0 + (code - 1) * a1) / 7 <= 255) by (nonlinear_arith)
            requires
                2 <= code < 8,
                a0 <= 255,
                a1 <= 255,
        ;
    }
    if code >= 2 && code <= 5 && a0 <= a1 {
        assert(((6 - code) * a0 + (code - 1) * a1) / 5 <= 255) by (nonlinear_arith)
            requires
                2 <= code <= 5,
                a0 <= 255,
                a1 <= 255,
        ;
    }
}

/// The red, green and blue of an RGB565 endpoint `c`, each widened to 8 bits.
pub open spec fn endpoint_rgb(c: int) -> (int, int, int) {
    (widened5(c / 2048), widened6((c / 32) % 64), widened5(c % 32))
}

/// Colour `k` (0–3) of a DXT colour block with endpoints `c0`, `c1`, as
/// (red, green, blue, alpha): the two endpoints, then the colours a third
/// and two thirds of the way between them. With `four_color` (DXT3/DXT5)
/// those are rounded; otherwise (DXT1) they are rounded down when `c0 > c1`,
/// and when `c0 <= c1` colour 2 is the midpoint and colour 3 transparent
/// black.
pub open spec fn dxt_color_value(c0: int, c1: int, k: int, four_color: bool) -> (int, int, int, int) {
    let e0 = endpoint_rgb(c0);
    let e1 = endpoint_rgb(c1);
    if k == 0 {
        (e0.0, e0.1, e0.2, 255)
    } else if k == 1 {
        (e1.0, e1.1, e1.2, 255)
    } else if four_color {
        if k == 2 {
            ((2 * e0.0 + e1.0 + 1) / 3, (2 * e0.1 + e1.1 + 1) / 3, (2 * e0.2 + e1.2 + 1) / 3, 255)
        } else {
            ((e0.0 + 2 * e1.0 + 1) / 3, (e0.1 + 2 * e1.1 + 1) / 3, (e0.2 + 2 * e1.2 + 1) / 3, 255)
        }
    } else if c0 > c1 {
        if k == 2 {
            ((2 * e0.0 + e1.0) / 3, (2 * e0.1 + e1.1) / 3, (2 * e0.2 + e1.2) / 3, 255)
        } else {
            ((e0.0 + 2 * e1.0) / 3, (e0.1 + 2 * e1.1) / 3, (e0.2 + 2 * e1.2) / 3, 255)
        }
    } else if k == 2 {
        ((e0.0 + e1.0) / 2, (e0.1 + e1.1) / 2, (e0.2 + e1.2) / 2, 255)
    } else {
        (0, 0, 0, 0)
    }
}

proof fn lemma_blend_fits(a: u8, b: u8, wa: u32, wb: u32, bias: u32, d: u32)
    requires
        d > 0,
        wa + wb == d,
        bias < d,
    ensures
        crate::dxt::blend(a, b, wa, wb, bias, d) as int == (wa * a + wb * b + bias) / (d as int),
{
    assert(0 <= (wa * a + wb * b + bias) / (d as int) <= 255) by (nonlinear_arith)
        requires
            d > 0,
            wa + wb == d,
            bias < d,
            a <= 255,
            b <= 255,
    ;
}

proof fn lemma_block_color(c0: u16, c1: u16, k: u32, four_color: bool)
    requires
        k < 4,
    ensures
        ({
            let p = crate::dxt::block_color(c0, c1, k, four_color);
            (p.0 as int, p.1 as int, p.2 as int, p.3 as int)
        }) == dxt_color_value(c0 as int, c1 as int, k as int, four_color),
{
    lemma_expand5(c0);
    lemma_expand6(c0);
    lemma_expand5(c1);
    lemma_expand6(c1);
    assert((c0 as int / 2048) % 32 == c0 as int / 2048);
    assert((c1 as int / 2048) % 32 == c1 as int / 2048);
    let e0 = crate::pixel::rgb565_pixel(c0);
    let e1 = crate::pixel::rgb565_pixel(c1);
    lemma_blend_fits(e0.0, e1.0, 2, 1, 1, 3);
    lemma_blend_fits(e0.1, e1.1, 2, 1, 1, 3);
    lemma_blend_fits(e0.2, e1.2, 2, 1, 1, 3);
    lemma_blend_fits(e0.0, e1.0, 1, 2, 1, 3);
    lemma_blend_fits(e0.1, e1.1, 1, 2, 1, 3);
    lemma_blend_fits(e0.2, e1.2, 1, 2, 1, 3);
    lemma_blend_fits(e0.0, e1.0, 2, 1, 0, 3);
    lemma_blend_fits(e0.1, e1.1, 2, 1, 0, 3);
    lemma_blend_fits(e0.2, e1.2, 2, 1, 0, 3);
    lemma_blend_fits(e0.0, e1.0, 1, 2, 0, 3);
    lemma_blend_fits(e0.1, e1.1, 1, 2, 0, 3);
    lemma_blend_fits(e0.2, e1.2, 1, 2, 0, 3);
    lemma_blend_fits(e0.0, e1.0, 1, 1, 0, 2);
    lemma_blend_fits(e0.1, e1.1, 1, 1, 0, 2);
    lemma_blend_fits(e0.2, e1.2, 1, 1, 0, 2);
}

/// The bytes `p`, `p + 1` of the data as a little-endian 16-bit value.
pub open spec fn data_u16_at(raw: Seq<u8>, p: int) -> int {
    data_byte(raw, p) + 256 * data_byte(raw, p + 1)
}

/// The bytes `p` to `p + 3` of the data as a little-endian 32-bit value.
pub open spec fn data_u32_at(raw: Seq<u8>, p: int) -> int {
    data_byte(raw, p) + 256 * data_byte(raw, p + 1) + 65536 * data_byte(raw, p + 2) + 16777216 * data_byte(raw, p + 3)
}

/// The colour a DXT colour block starting at byte `p` gives texel `j`: its
/// two endpoints (16-bit little-endian), then 32 bits of 2-bit colour
/// indices, the index of texel `j` at bit `2j`.
pub open spec fn block_texel_color(raw: Seq<u8>, p: int, j: int, four_color: bool) -> (int, int, int, int) {
    let k = ((data_u32_at(raw, p + 4) as u32) >> ((2 * j) as u32)) & 3u32;
    dxt_color_value(data_u16_at(raw, p), data_u16_at(raw, p + 2), k as int, four_color)
}

proof fn lemma_color_texel(raw: Seq<u8>, n: nat, p: int, j: int, four_color: bool)
    requires
        0 <= p,
        p + 8 <= n,
        0 <= j < 16,
    ensures
        ({
            let c = crate::dxt::color_texel(zero_padded(raw, n), p, j as u32, four_color);
            (c.0 as int, c.1 as int, c.2 as int, c.3 as int)
        }) == block_texel_color(raw, p, j, four_color),
{
    let d = zero_padded(raw, n);
    lemma_padded_byte(raw, n, p);
    lemma_padded_byte(raw, n, p + 1);
    lemma_padded_byte(raw, n, p + 2);
    lemma_padded_byte(raw, n, p + 3);
    lemma_padded_byte(raw, n, p + 4);
    lemma_padded_byte(raw, n, p + 5);
    lemma_padded_byte(raw, n, p + 6);
    lemma_padded_byte(raw, n, p + 7);
    lemma_le16_value(d, p);
    lemma_le16_value(d, p + 2);
    lemma_le32_value(d, p + 4);
    let bits = crate::pixel::le32(d, p + 4);
    let sh: u32 = (2 * j) as u32;
    let k = (bits >> sh) & 3;
    assert(k < 4) by (bit_vector)
        requires
            k == (bits >> sh) & 3,
    ;
    lemma_block_color(crate::pixel::le16(d, p), crate::pixel::le16(d, p + 2), k, four_color);
}

/// Law: a DXT1 pixel is the colour its 2-bit index picks from its block
/// (8 bytes: two RGB565 endpoints, then the indices; see
/// [`block_texel_color`] and [`dxt_color_value`]). Data shorter than the
/// image reads as zeros.
pub proof fn lemma_dxt1_pixel(raw: Seq<u8>, w: nat, h: nat, x: int, y: int)
    requires
        0 <= x < w,
        0 <= y < h,
    ensures
        spec_decode_pixels(raw, w, h, WzPngFormat::Dxt1) matches Ok(img) && ({
            let c = block_texel_color(raw, block_start(w as int, x, y, 8), texel_number(x, y), false);
            pixel_at(img, w as int, x, y, c.0, c.1, c.2, c.3)
        }),
{
    let f = WzPngFormat::Dxt1;
    lemma_decoded_rgba(raw, w, h, f, x, y);
    let n = f.spec_raw_data_size(w, h);
    assert(n == 8 * ((w + 3) / 4) * ((h + 3) / 4)) by (nonlinear_arith)
        requires
            n == align4(w) * align4(h) / 2,
            align4(w) == ((w + 3) / 4) * 4,
            align4(h) == ((h + 3) / 4) * 4,
    ;
    lemma_block_bytes(w, h, x, y, 8, n);
    let p = block_start(w as int, x, y, 8);
    let d = zero_padded(raw, n);
    assert(format_pixel(f, d, w as int, h as int, x, y) == crate::dxt::dxt_pixel(DxtKind::Dxt1, d, w as int, x, y));
    lemma_color_texel(raw, n, p, texel_number(x, y), false);
}

/// Law: the colour of a DXT3 or DXT5 pixel is the colour its 2-bit index
/// picks from the colour half of its block (the last 8 of its 16 bytes),
/// with the four-colour palette (see [`dxt_color_value`]); its alpha is
/// given by [`lemma_dxt3_alpha_nibble`] and [`lemma_dxt5_alpha`].
pub proof fn lemma_dxt35_color(raw: Seq<u8>, w: nat, h: nat, format: WzPngFormat, x: int, y: int)
    requires
        format is Dxt3 || format is Dxt3Grayscale || format is Dxt5,
        0 <= x < w,
        0 <= y < h,
    ensures
        spec_decode_pixels(raw, w, h, format) matches Ok(img) && ({
            let c = block_texel_color(raw, block_start(w as int, x, y, 16) + 8, texel_number(x, y), true);
            let k = 4 * (y * w + x);
            &&& img[k] as int == c.0
            &&& img[k + 1] as int == c.1
            &&& img[k + 2] as int == c.2
        }),
{
    lemma_decoded_rgba(raw, w, h, format, x, y);
    let n = format.spec_raw_data_size(w, h);
    assert(n == 16 * ((w + 3) / 4) * ((h + 3) / 4)) by (nonlinear_arith)
        requires
            n == align4(w) * align4(h),
            align4(w) == ((w + 3) / 4) * 4,
            align4(h) == ((h + 3) / 4) * 4,
    ;
    lemma_block_bytes(w, h, x, y, 16, n);
    let p = block_start(w as int, x, y, 16);
    let d = zero_padded(raw, n);
    lemma_color_texel(raw, n, p + 8, texel_number(x, y), true);
}

/// Law: a canvas stored with scale exponent `scale > 0` holds an image of
/// `sw × sh` pixels (`w >> scale` and `h >> scale`, at least 1 each), and
/// pixel `(x, y)` of the `w × h` result is the stored pixel nearest to it:
/// `(min(x·sw / w, sw − 1), min(y·sh / h, sh − 1))`.
pub proof fn lemma_scaled_canvas_pixel(raw: Seq<u8>, w: u32, h: u32, scale: u8, format: WzPngFormat, x: int, y: int, c: int)
    requires
        scale > 0,
        0 <= x < w,
        0 <= y < h,
        0 <= c < 4,
    ensures
        ({
            let sw: int = if (w >> scale) > 1 { (w >> scale) as int } else { 1 };
            let sh: int = if (h >> scale) > 1 { (h >> scale) as int } else { 1 };
            let sx = if x * sw / (w as int) < sw - 1 { x * sw / (w as int) } else { sw - 1 };
            let sy = if y * sh / (h as int) < sh - 1 { y * sh / (h as int) } else { sh - 1 };
            spec_decode_canvas_pixels(raw, w, h, scale, format) matches Ok(out) ==> {
                &&& spec_decode_pixels(raw, sw as nat, sh as nat, format) matches Ok(small)
                &&& out.len() == w * h * 4
                &&& out[4 * (y * w + x) + c] == small[4 * (sy * sw + sx) + c]
            }
        }),
{
    let sw: int = scaled_dim(w, scale) as int;
    let sh: int = scaled_dim(h, scale) as int;
    let wi = w as int;
    let hi = h as int;
    if let Ok(out) = spec_decode_canvas_pixels(raw, w, h, scale, format) {
        let small = spec_decode_pixels(raw, sw as nat, sh as nat, format)->Ok_0;
        lemma_decoded_length(raw, sw as nat, sh as nat, format);
        let m = y * wi + x;
        let k = 4 * m + c;
        assert(0 <= m < wi * hi) by (nonlinear_arith)
            requires
                m == y * wi + x,
                0 <= x < wi,
                0 <= y < hi,
        ;
        assert(k / 4 == m && k % 4 == c);
        vstd::arithmetic::div_mod::lemma_fundamental_div_mod_converse(m, wi, y, x);
        let sx = nearest_src(x, sw, wi);
        let sy = nearest_src(y, sh, hi);
        assert(0 <= x * sw / wi) by (nonlinear_arith)
            requires
                0 <= x,
                sw >= 1,
                wi > 0,
        ;
        assert(0 <= y * sh / hi) by (nonlinear_arith)
            requires
                0 <= y,
                sh >= 1,
                hi > 0,
        ;
        assert(0 <= sx < sw && 0 <= sy < sh);
        assert(0 <= sy * sw + sx < sw * sh) by (nonlinear_arith)
            requires
                0 <= sx < sw,
                0 <= sy < sh,
        ;
        assert(out[k] == small[(sy * sw + sx) * 4 + c]);
    }
}

/// Law: an RGB565 block image holds one RGB565 colour (16-bit little-endian)
/// per 16×16 block of pixels, blocks row-major, `w / 16` per row; pixel
/// `(x, y)` takes the colour of its block, and pixels past the last whole
/// block of a row or column are opaque black.
pub proof fn lemma_rgb565_block_pixel(raw: Seq<u8>, w: nat, h: nat, x: int, y: int)
    requires
        0 <= x < w,
        0 <= y < h,
    ensures
        spec_decode_pixels(raw, w, h, WzPngFormat::Rgb565Block) matches Ok(img) && ({
            let bw = (w / 16) as int;
            let bh = (h / 16) as int;
            let v = if x < bw * 16 && y < bh * 16 {
                data_u16_at(raw, 2 * ((y / 16) * bw + x / 16))
            } else {
                0
            };
            pixel_at(img, w as int, x, y, widened5(v / 2048), widened6((v / 32) % 64), widened5(v % 32), 255)
        }),
{
    let f = WzPngFormat::Rgb565Block;
    lemma_decoded_rgba(raw, w, h, f, x, y);
    let n = f.spec_raw_data_size(w, h);
    let bw = (w / 16) as int;
    let bh = (h / 16) as int;
    let d = zero_padded(raw, n);
    let v16 = if x < bw * 16 && y < bh * 16 {
        crate::pixel::le16(d, 2 * ((y / 16) * bw + x / 16))
    } else {
        0u16
    };
    if x < bw * 16 && y < bh * 16 {
        let b = (y / 16) * bw + x / 16;
        assert(0 <= x / 16 < bw && 0 <= y / 16 < bh);
        assert(0 <= b < bw * bh) by (nonlinear_arith)
            requires
                b == (y / 16) * bw + x / 16,
                0 <= x / 16 < bw,
                0 <= y / 16 < bh,
        ;
        assert(2 * b + 2 <= n) by (nonlinear_arith)
            requires
                0 <= b < bw * bh,
                bw == w / 16,
                bh == h / 16,
                n == w * h / 128,
        ;
        lemma_padded_byte(raw, n, 2 * b);
        lemma_padded_byte(raw, n, 2 * b + 1);
        lemma_le16_value(d, 2 * b);
    }
    lemma_expand5(v16);
    lemma_expand6(v16);
    assert((v16 as int / 2048) % 32 == v16 as int / 2048);
}

/// Law: BC7, RGBA32Float and unknown pixel formats are refused with their
/// format id (4098, 4100, or the unknown id itself), whatever the data.
pub proof fn lemma_unsupported_formats(raw: Seq<u8>, w: nat, h: nat, format: WzPngFormat)
    requires
        format is Bc7 || format is Rgba32Float || format is Unknown,
    ensures
        spec_decode_pixels(raw, w, h, format) == Err::<Seq<u8>, ErrV>(ErrV::UnsupportedPngFormat(
            match format {
                WzPngFormat::Bc7 => 4098u32,
                WzPngFormat::Rgba32Float => 4100u32,
                WzPngFormat::Unknown(id) => id,
                _ => 0u32,
            },
        )),
{
}

} // verus!
