//! Per-pixel decoding of DXT1 / DXT3 / DXT5 (BC1–BC3) block-compressed pixel data.
use vstd::prelude::*;
use crate::pixel::{Rgba, le16, le32, read_le16, read_le32, rgb565_pixel, decode_rgb565, expand4, widen4};

verus! {

/// Weighted average `(wa·a + wb·b + bias) / d` of two channel values.
pub open spec fn blend(a: u8, b: u8, wa: u32, wb: u32, bias: u32, d: u32) -> u8 {
    ((wa * a + wb * b + bias) / (d as int)) as u8
}

pub fn mix(a: u8, b: u8, wa: u32, wb: u32, bias: u32, d: u32) -> (r: u8)
    requires
        wa <= 8,
        wb <= 8,
        bias <= 8,
        d > 0,
    ensures
        r == blend(a, b, wa, wb, bias, d),
{
    proof {
        assert(wa * a <= 8 * 255 && wb * b <= 8 * 255) by (nonlinear_arith)
            requires
                wa <= 8,
                wb <= 8,
                a <= 255,
                b <= 255,
        ;
    }
    ((wa * (a as u32) + wb * (b as u32) + bias) / d) as u8
}

/// Color `k` (0–3) of a BC1 block with endpoints `c0`, `c1`. With `four_color`
/// (DXT3/DXT5 color blocks) the palette always has two interpolated colors,
/// rounded; otherwise (DXT1) `c0 <= c1` selects the three-color palette whose
/// last entry is transparent black.
pub open spec fn block_color(c0: u16, c1: u16, k: u32, four_color: bool) -> Rgba {
    let e0 = rgb565_pixel(c0);
    let e1 = rgb565_pixel(c1);
    if k == 0 {
        e0
    } else if k == 1 {
        e1
    } else if four_color {
        if k == 2 {
            (blend(e0.0, e1.0, 2, 1, 1, 3), blend(e0.1, e1.1, 2, 1, 1, 3), blend(e0.2, e1.2, 2, 1, 1, 3), 255u8)
        } else {
            (blend(e0.0, e1.0, 1, 2, 1, 3), blend(e0.1, e1.1, 1, 2, 1, 3), blend(e0.2, e1.2, 1, 2, 1, 3), 255u8)
        }
    } else if c0 > c1 {
        if k == 2 {
            (blend(e0.0, e1.0, 2, 1, 0, 3), blend(e0.1, e1.1, 2, 1, 0, 3), blend(e0.2, e1.2, 2, 1, 0, 3), 255u8)
        } else {
            (blend(e0.0, e1.0, 1, 2, 0, 3), blend(e0.1, e1.1, 1, 2, 0, 3), blend(e0.2, e1.2, 1, 2, 0, 3), 255u8)
        }
    } else if k == 2 {
        (blend(e0.0, e1.0, 1, 1, 0, 2), blend(e0.1, e1.1, 1, 1, 0, 2), blend(e0.2, e1.2, 1, 1, 0, 2), 255u8)
    } else {
        (0u8, 0u8, 0u8, 0u8)
    }
}

pub fn color_of_block(c0: u16, c1: u16, k: u32, four_color: bool) -> (p: Rgba)
    requires
        k < 4,
    ensures
        p == block_color(c0, c1, k, four_color),
{
    let e0 = decode_rgb565(c0);
    let e1 = decode_rgb565(c1);
    if k == 0 {
        e0
    } else if k == 1 {
        e1
    } else if four_color {
        if k == 2 {
            (mix(e0.0, e1.0, 2, 1, 1, 3), mix(e0.1, e1.1, 2, 1, 1, 3), mix(e0.2, e1.2, 2, 1, 1, 3), 255u8)
        } else {
            (mix(e0.0, e1.0, 1, 2, 1, 3), mix(e0.1, e1.1, 1, 2, 1, 3), mix(e0.2, e1.2, 1, 2, 1, 3), 255u8)
        }
    } else if c0 > c1 {
        if k == 2 {
            (mix(e0.0, e1.0, 2, 1, 0, 3), mix(e0.1, e1.1, 2, 1, 0, 3), mix(e0.2, e1.2, 2, 1, 0, 3), 255u8)
        } else {
            (mix(e0.0, e1.0, 1, 2, 0, 3), mix(e0.1, e1.1, 1, 2, 0, 3), mix(e0.2, e1.2, 1, 2, 0, 3), 255u8)
        }
    } else if k == 2 {
        (mix(e0.0, e1.0, 1, 1, 0, 2), mix(e0.1, e1.1, 1, 1, 0, 2), mix(e0.2, e1.2, 1, 1, 0, 2), 255u8)
    } else {
        (0u8, 0u8, 0u8, 0u8)
    }
}

/// The color of texel `j` (0–15, row-major in its block) of the BC1 color
/// block starting at byte `p`.
pub open spec fn color_texel(d: Seq<u8>, p: int, j: u32, four_color: bool) -> Rgba {
    block_color(le16(d, p), le16(d, p + 2), (le32(d, p + 4) >> (2 * j)) & 3, four_color)
}

pub fn decode_color_texel(d: &[u8], p: usize, j: u32, four_color: bool) -> (px: Rgba)
    requires
        p + 8 <= d.len(),
        j < 16,
    ensures
        px == color_texel(d@, p as int, j, four_color),
{
    let c0 = read_le16(d, p);
    let c1 = read_le16(d, p + 2);
    let bits = read_le32(d, p + 4);
    let k = (bits >> (2 * j)) & 3;
    assert(k < 4) by (bit_vector)
        requires k == (bits >> (2 * j)) & 3;
    color_of_block(c0, c1, k, four_color)
}

/// DXT3 alpha of texel `j`: an explicit 4-bit value widened to 8 bits.
pub open spec fn dxt3_alpha(d: Seq<u8>, p: int, j: u32) -> u8 {
    let b = d[p + j / 2];
    if j % 2 == 0 {
        expand4(b)
    } else {
        expand4(b >> 4u8)
    }
}

/// DXT5 interpolated alpha palette entry `code` (0–7).
pub open spec fn dxt5_palette(a0: u8, a1: u8, code: u64) -> u8 {
    if code == 0 {
        a0
    } else if code == 1 {
        a1
    } else if a0 > a1 {
        blend(a0, a1, (8 - code) as u32, (code - 1) as u32, 0, 7)
    } else if code <= 5 {
        blend(a0, a1, (6 - code) as u32, (code - 1) as u32, 0, 5)
    } else if code == 6 {
        0u8
    } else {
        255u8
    }
}

/// The 48 bits of 3-bit alpha codes of a DXT5 block starting at byte `p`.
pub open spec fn le48(d: Seq<u8>, p: int) -> u64 {
    (d[p] as u64) | ((d[p + 1] as u64) << 8u64) | ((d[p + 2] as u64) << 16u64) | ((d[p + 3]
        as u64) << 24u64) | ((d[p + 4] as u64) << 32u64) | ((d[p + 5] as u64) << 40u64)
}

/// DXT5 alpha of texel `j` of the block starting at byte `p`.
pub open spec fn dxt5_alpha(d: Seq<u8>, p: int, j: u32) -> u8 {
    dxt5_palette(d[p], d[p + 1], (le48(d, p + 2) >> (3 * j) as u64) & 7)
}

pub fn decode_dxt3_alpha(d: &[u8], p: usize, j: u32) -> (a: u8)
    requires
        p + 8 <= d.len(),
        j < 16,
    ensures
        a == dxt3_alpha(d@, p as int, j),
{
    let b = d[p + (j / 2) as usize];
    if j % 2 == 0 {
        widen4(b)
    } else {
        widen4(b >> 4u8)
    }
}

pub fn decode_dxt5_alpha(d: &[u8], p: usize, j: u32) -> (a: u8)
    requires
        p + 8 <= d.len(),
        j < 16,
    ensures
        a == dxt5_alpha(d@, p as int, j),
{
    let a0 = d[p];
    let a1 = d[p + 1];
    let q = p + 2;
    let bits: u64 = (d[q] as u64) | ((d[q + 1] as u64) << 8u64) | ((d[q + 2] as u64) << 16u64)
        | ((d[q + 3] as u64) << 24u64) | ((d[q + 4] as u64) << 32u64) | ((d[q + 5] as u64)
        << 40u64);
    let code: u64 = (bits >> (3 * j) as u64) & 7;
    assert(code < 8) by (bit_vector)
        requires code == (bits >> (3 * j) as u64) & 7;
    if code == 0 {
        a0
    } else if code == 1 {
        a1
    } else if a0 > a1 {
        mix(a0, a1, (8 - code) as u32, (code - 1) as u32, 0, 7)
    } else if code <= 5 {
        mix(a0, a1, (6 - code) as u32, (code - 1) as u32, 0, 5)
    } else if code == 6 {
        0u8
    } else {
        255u8
    }
}

/// Which DXT variant a block stream uses.
pub enum DxtKind {
    Dxt1,
    Dxt3,
    Dxt5,
}

/// Bytes per 4×4 block.
pub open spec fn block_bytes(kind: DxtKind) -> nat {
    match kind {
        DxtKind::Dxt1 => 8,
        _ => 16,
    }
}

/// Texel `j` of the block starting at byte `p`.
pub open spec fn dxt_texel(kind: DxtKind, d: Seq<u8>, p: int, j: u32) -> Rgba {
    match kind {
        DxtKind::Dxt1 => color_texel(d, p, j, false),
        DxtKind::Dxt3 => {
            let c = color_texel(d, p + 8, j, true);
            (c.0, c.1, c.2, dxt3_alpha(d, p, j))
        },
        DxtKind::Dxt5 => {
            let c = color_texel(d, p + 8, j, true);
            (c.0, c.1, c.2, dxt5_alpha(d, p, j))
        },
    }
}

pub fn decode_dxt_texel(kind: &DxtKind, d: &[u8], p: usize, j: u32) -> (px: Rgba)
    requires
        p + block_bytes(*kind) <= d.len(),
        j < 16,
    ensures
        px == dxt_texel(*kind, d@, p as int, j),
{
    match kind {
        DxtKind::Dxt1 => decode_color_texel(d, p, j, false),
        DxtKind::Dxt3 => {
            let c = decode_color_texel(d, p + 8, j, true);
            (c.0, c.1, c.2, decode_dxt3_alpha(d, p, j))
        },
        DxtKind::Dxt5 => {
            let c = decode_color_texel(d, p + 8, j, true);
            (c.0, c.1, c.2, decode_dxt5_alpha(d, p, j))
        },
    }
}

/// Pixel `(x, y)` of a `w`-wide block-compressed image: blocks are stored
/// row-major, `ceil(w / 4)` per row.
pub open spec fn dxt_pixel(kind: DxtKind, d: Seq<u8>, w: int, x: int, y: int) -> Rgba {
    let bw = (w + 3) / 4;
    let block = (y / 4) * bw + x / 4;
    dxt_texel(kind, d, block * block_bytes(kind), (4 * (y % 4) + x % 4) as u32)
}

} // verus!
