use vstd::prelude::*;

verus! {

/// Pixel codec of a canvas, identified by the WZ format id.
#[derive(Clone, Copy, Debug, PartialEq, Eq, Structural)]
pub enum WzPngFormat {
    /// 1 — 16-bit BGRA, four bits per channel.
    Bgra4444,
    /// 2 — 32-bit BGRA.
    Bgra8888,
    /// 3 — DXT3-compressed (grayscale variant).
    Dxt3Grayscale,
    /// 257 — 16-bit ARGB with a one-bit alpha.
    Argb1555,
    /// 513 — 16-bit RGB565.
    Rgb565,
    /// 517 — RGB565 colors, one per 16×16 block.
    Rgb565Block,
    /// 769 — 16-bit red channel.
    R16,
    /// 1026 — DXT3-compressed.
    Dxt3,
    /// 2050 — DXT5-compressed.
    Dxt5,
    /// 2304 — 8-bit alpha mask over white.
    A8,
    /// 2562 — 32-bit RGBA with 10 bits per color channel.
    Rgba1010102,
    /// 4097 — DXT1 / BC1-compressed.
    Dxt1,
    /// 4098 — BC7-compressed.
    Bc7,
    /// 4100 — four 32-bit float channels.
    Rgba32Float,
    /// Any other id.
    Unknown(u32),
}

/// Rounds a dimension up to a multiple of four (the DXT block size).
pub open spec fn align4(n: nat) -> nat {
    ((n + 3) / 4 * 4) as nat
}

impl WzPngFormat {
    /// The format with the given codec id.
    pub open spec fn spec_from_id(id: u32) -> WzPngFormat {
        if id == 1 {
            WzPngFormat::Bgra4444
        } else if id == 2 {
            WzPngFormat::Bgra8888
        } else if id == 3 {
            WzPngFormat::Dxt3Grayscale
        } else if id == 257 {
            WzPngFormat::Argb1555
        } else if id == 513 {
            WzPngFormat::Rgb565
        } else if id == 517 {
            WzPngFormat::Rgb565Block
        } else if id == 769 {
            WzPngFormat::R16
        } else if id == 1026 {
            WzPngFormat::Dxt3
        } else if id == 2050 {
            WzPngFormat::Dxt5
        } else if id == 2304 {
            WzPngFormat::A8
        } else if id == 2562 {
            WzPngFormat::Rgba1010102
        } else if id == 4097 {
            WzPngFormat::Dxt1
        } else if id == 4098 {
            WzPngFormat::Bc7
        } else if id == 4100 {
            WzPngFormat::Rgba32Float
        } else {
            WzPngFormat::Unknown(id)
        }
    }

    /// The codec id of this format.
    pub open spec fn spec_id(self) -> u32 {
        match self {
            WzPngFormat::Bgra4444 => 1,
            WzPngFormat::Bgra8888 => 2,
            WzPngFormat::Dxt3Grayscale => 3,
            WzPngFormat::Argb1555 => 257,
            WzPngFormat::Rgb565 => 513,
            WzPngFormat::Rgb565Block => 517,
            WzPngFormat::R16 => 769,
            WzPngFormat::Dxt3 => 1026,
            WzPngFormat::Dxt5 => 2050,
            WzPngFormat::A8 => 2304,
            WzPngFormat::Rgba1010102 => 2562,
            WzPngFormat::Dxt1 => 4097,
            WzPngFormat::Bc7 => 4098,
            WzPngFormat::Rgba32Float => 4100,
            WzPngFormat::Unknown(id) => id,
        }
    }

    /// Number of bytes of raw (decompressed) pixel data that a `w × h` image
    /// of this format occupies; 0 where the format is unknown.
    pub open spec fn spec_raw_data_size(self, w: nat, h: nat) -> nat {
        match self {
            WzPngFormat::Bgra4444 | WzPngFormat::Argb1555 | WzPngFormat::Rgb565
            | WzPngFormat::R16 => w * h * 2,
            WzPngFormat::Bgra8888 | WzPngFormat::Rgba1010102 => w * h * 4,
            WzPngFormat::A8 => w * h,
            WzPngFormat::Rgb565Block => w * h / 128,
            WzPngFormat::Dxt3Grayscale | WzPngFormat::Dxt3 | WzPngFormat::Dxt5
            | WzPngFormat::Bc7 => align4(w) * align4(h),
            WzPngFormat::Dxt1 => align4(w) * align4(h) / 2,
            WzPngFormat::Rgba32Float => w * h * 16,
            WzPngFormat::Unknown(_) => 0,
        }
    }

    /// The format for a codec id read from a canvas header.
    pub fn from_combined(id: u32) -> (f: WzPngFormat)
        ensures
            f == Self::spec_from_id(id),
    {
        match id {
            1 => WzPngFormat::Bgra4444,
            2 => WzPngFormat::Bgra8888,
            3 => WzPngFormat::Dxt3Grayscale,
            257 => WzPngFormat::Argb1555,
            513 => WzPngFormat::Rgb565,
            517 => WzPngFormat::Rgb565Block,
            769 => WzPngFormat::R16,
            1026 => WzPngFormat::Dxt3,
            2050 => WzPngFormat::Dxt5,
            2304 => WzPngFormat::A8,
            2562 => WzPngFormat::Rgba1010102,
            4097 => WzPngFormat::Dxt1,
            4098 => WzPngFormat::Bc7,
            4100 => WzPngFormat::Rgba32Float,
            other => WzPngFormat::Unknown(other),
        }
    }

    /// The codec id of this format.
    pub fn id(&self) -> (id: u32)
        ensures
            id == self.spec_id(),
    {
        match self {
            WzPngFormat::Bgra4444 => 1,
            WzPngFormat::Bgra8888 => 2,
            WzPngFormat::Dxt3Grayscale => 3,
            WzPngFormat::Argb1555 => 257,
            WzPngFormat::Rgb565 => 513,
            WzPngFormat::Rgb565Block => 517,
            WzPngFormat::R16 => 769,
            WzPngFormat::Dxt3 => 1026,
            WzPngFormat::Dxt5 => 2050,
            WzPngFormat::A8 => 2304,
            WzPngFormat::Rgba1010102 => 2562,
            WzPngFormat::Dxt1 => 4097,
            WzPngFormat::Bc7 => 4098,
            WzPngFormat::Rgba32Float => 4100,
            WzPngFormat::Unknown(id) => *id,
        }
    }

    /// Number of bytes of raw pixel data for a `width × height` image.
    pub fn raw_data_size(&self, width: u32, height: u32) -> (n: usize)
        requires
            (width as int + 3) * (height as int + 3) * 16 <= usize::MAX,
        ensures
            n == self.spec_raw_data_size(width as nat, height as nat),
    {
        let w = width as usize;
        let h = height as usize;
        proof {
            assert(w * h <= (w + 3) * (h + 3)) by (nonlinear_arith)
                requires
                    w >= 0,
                    h >= 0,
            ;
            assert(w + 3 <= (w + 3) * (h + 3) && h + 3 <= (w + 3) * (h + 3)) by (nonlinear_arith)
                requires
                    w >= 0,
                    h >= 0,
            ;
        }
        let aw = (w + 3) / 4 * 4;
        let ah = (h + 3) / 4 * 4;
        proof {
            assert(aw * ah <= (w + 3) * (h + 3)) by (nonlinear_arith)
                requires
                    0 <= aw <= w + 3,
                    0 <= ah <= h + 3,
            ;
        }
        match self {
            WzPngFormat::Bgra4444 | WzPngFormat::Argb1555 | WzPngFormat::Rgb565
            | WzPngFormat::R16 => w * h * 2,
            WzPngFormat::Bgra8888 | WzPngFormat::Rgba1010102 => w * h * 4,
            WzPngFormat::A8 => w * h,
            WzPngFormat::Rgb565Block => w * h / 128,
            WzPngFormat::Dxt3Grayscale | WzPngFormat::Dxt3 | WzPngFormat::Dxt5
            | WzPngFormat::Bc7 => aw * ah,
            WzPngFormat::Dxt1 => aw * ah / 2,
            WzPngFormat::Rgba32Float => w * h * 16,
            WzPngFormat::Unknown(_) => 0,
        }
    }
}

/// Law: reading a format back from its own id gives the same format
/// (for `Unknown`, when its id is not one of the known ids).
pub proof fn lemma_format_id_roundtrip(f: WzPngFormat)
    requires
        f matches WzPngFormat::Unknown(id) ==> WzPngFormat::spec_from_id(id) == f,
    ensures
        WzPngFormat::spec_from_id(f.spec_id()) == f,
{
}

} // verus!
