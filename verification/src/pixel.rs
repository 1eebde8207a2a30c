//! Per-pixel conversion of the uncompressed WZ pixel formats to RGBA8888.
use vstd::prelude::*;

verus! {

/// An RGBA8888 pixel: red, green, blue, alpha.
pub type Rgba = (u8, u8, u8, u8);

/// Channel `c` (0 = red … 3 = alpha) of a pixel.
pub open spec fn channel(p: Rgba, c: int) -> u8 {
    if c == 0 {
        p.0
    } else if c == 1 {
        p.1
    } else if c == 2 {
        p.2
    } else {
        p.3
    }
}

/// Little-endian 16-bit value at byte `p`.
pub open spec fn le16(d: Seq<u8>, p: int) -> u16 {
    (d[p] as u16) | ((d[p + 1] as u16) << 8u16)
}

/// Little-endian 32-bit value at byte `p`.
pub open spec fn le32(d: Seq<u8>, p: int) -> u32 {
    (d[p] as u32) | ((d[p + 1] as u32) << 8u32) | ((d[p + 2] as u32) << 16u32) | ((d[p + 3]
        as u32) << 24u32)
}

pub fn read_le16(d: &[u8], p: usize) -> (v: u16)
    requires
        p + 1 < d.len(),
    ensures
        v == le16(d@, p as int),
{
    (d[p] as u16) | ((d[p + 1] as u16) << 8u16)
}

pub fn read_le32(d: &[u8], p: usize) -> (v: u32)
    requires
        p + 3 < d.len(),
    ensures
        v == le32(d@, p as int),
{
    (d[p] as u32) | ((d[p + 1] as u32) << 8u32) | ((d[p + 2] as u32) << 16u32) | ((d[p + 3]
        as u32) << 24u32)
}

/// A 4-bit value (the low nibble of `v`) widened to 8 bits by repetition.
pub open spec fn expand4(v: u8) -> u8 {
    (v & 0x0F) | ((v & 0x0F) << 4u8)
}

/// A 5-bit value widened to 8 bits by repeating its top bits.
pub open spec fn expand5(v: u8) -> u8 {
    ((v & 0x1F) << 3u8) | ((v & 0x1F) >> 2u8)
}

/// A 6-bit value widened to 8 bits by repeating its top bits.
pub open spec fn expand6(v: u8) -> u8 {
    ((v & 0x3F) << 2u8) | ((v & 0x3F) >> 4u8)
}

pub fn widen4(v: u8) -> (r: u8)
    ensures
        r == expand4(v),
{
    (v & 0x0F) | ((v & 0x0F) << 4u8)
}

pub fn widen5(v: u8) -> (r: u8)
    ensures
        r == expand5(v),
{
    ((v & 0x1F) << 3u8) | ((v & 0x1F) >> 2u8)
}

pub fn widen6(v: u8) -> (r: u8)
    ensures
        r == expand6(v),
{
    ((v & 0x3F) << 2u8) | ((v & 0x3F) >> 4u8)
}

/// BGRA4444: low byte holds blue (low nibble) and green, high byte red and alpha.
pub open spec fn bgra4444_pixel(lo: u8, hi: u8) -> Rgba {
    (expand4(hi), expand4(lo >> 4u8), expand4(lo), expand4(hi >> 4u8))
}

/// BGRA8888: bytes are blue, green, red, alpha.
pub open spec fn bgra8888_pixel(b: u8, g: u8, r: u8, a: u8) -> Rgba {
    (r, g, b, a)
}

/// ARGB1555: bit 15 is alpha, then five bits each of red, green, blue.
pub open spec fn argb1555_pixel(v: u16) -> Rgba {
    (
        expand5((v >> 10u16) as u8),
        expand5((v >> 5u16) as u8),
        expand5(v as u8),
        if v & 0x8000 != 0 {
            255u8
        } else {
            0u8
        },
    )
}

/// RGB565: five bits red, six green, five blue; opaque.
pub open spec fn rgb565_pixel(v: u16) -> Rgba {
    (expand5((v >> 11u16) as u8), expand6((v >> 5u16) as u8), expand5(v as u8), 255u8)
}

/// R16: the high byte is the red intensity; opaque.
pub open spec fn r16_pixel(v: u16) -> Rgba {
    ((v >> 8u16) as u8, 0u8, 0u8, 255u8)
}

/// A8: white with the byte as alpha.
pub open spec fn a8_pixel(a: u8) -> Rgba {
    (255u8, 255u8, 255u8, a)
}

/// RGBA1010102: ten bits each of red, green, blue (low to high), two bits alpha.
pub open spec fn rgba1010102_pixel(v: u32) -> Rgba {
    (
        ((v & 0x3FF) >> 2u32) as u8,
        (((v >> 10u32) & 0x3FF) >> 2u32) as u8,
        (((v >> 20u32) & 0x3FF) >> 2u32) as u8,
        ((v >> 30u32) * 85) as u8,
    )
}

pub fn decode_bgra4444(lo: u8, hi: u8) -> (p: Rgba)
    ensures
        p == bgra4444_pixel(lo, hi),
{
    (widen4(hi), widen4(lo >> 4u8), widen4(lo), widen4(hi >> 4u8))
}

pub fn decode_argb1555(v: u16) -> (p: Rgba)
    ensures
        p == argb1555_pixel(v),
{
    let a: u8 = if v & 0x8000 != 0 {
        255
    } else {
        0
    };
    (widen5((v >> 10u16) as u8), widen5((v >> 5u16) as u8), widen5(v as u8), a)
}

pub fn decode_rgb565(v: u16) -> (p: Rgba)
    ensures
        p == rgb565_pixel(v),
{
    (widen5((v >> 11u16) as u8), widen6((v >> 5u16) as u8), widen5(v as u8), 255u8)
}

pub fn decode_rgba1010102(v: u32) -> (p: Rgba)
    ensures
        p == rgba1010102_pixel(v),
{
    let a: u32 = v >> 30u32;
    assert(v >> 30u32 <= 3) by (bit_vector);
    (
        ((v & 0x3FF) >> 2u32) as u8,
        (((v >> 10u32) & 0x3FF) >> 2u32) as u8,
        (((v >> 20u32) & 0x3FF) >> 2u32) as u8,
        (a * 85) as u8,
    )
}

} // verus!
