//! Converting canvas data to standard PNG files, through the `png` crate.
use vstd::prelude::*;
use crate::error::{ErrV, WzError, WzResult};
use crate::types::WzPngFormat;
use crate::property::{CanvasData, CanvasV, canvas_bytes, canvas_range_ok};
use crate::image::{dims_ok, upscale_ok, scaled_dim, spec_decode_canvas_pixels, decode_canvas_pixels};
use crate::inflate::{decompress_png_data, decompressed};
use crate::text::{str_chars, string_from_chars};

verus! {

/// What the `png` crate's encoder gives for an RGBA image, 8 bits per
/// channel, with its default settings: the PNG file, or its error message.
pub uninterp spec fn png_rgba8_encoding(width: u32, height: u32, rgba: Seq<u8>) -> Result<Seq<u8>, Seq<char>>;

/// The PNG file the `png` crate writes for an RGBA image (see
/// [`png_rgba8_encoding`]).
pub open spec fn png_rgba8_file(width: u32, height: u32, rgba: Seq<u8>) -> Seq<u8> {
    png_rgba8_encoding(width, height, rgba)->Ok_0
}

/// The eight signature bytes every PNG file starts with.
pub open spec fn png_signature() -> Seq<u8> {
    seq![137u8, 80u8, 78u8, 71u8, 13u8, 10u8, 26u8, 10u8]
}

/// The `png` crate's `Encoder` for an RGBA image with 8-bit channels
/// (`write_header`, `write_image_data`, then finishing the file). The result
/// is named ([`png_rgba8_encoding`]); per its source it refuses a zero width
/// or height and image data that is not `width · height · 4` bytes, writes
/// any other image (into a vector, where writing cannot fail), and a file it
/// writes starts with the PNG signature.
#[verifier::external_body]
fn encode_png_rgba8(rgba: &[u8], width: u32, height: u32) -> (r: Result<Vec<u8>, String>)
    ensures
        match r {
            Ok(b) => png_rgba8_encoding(width, height, rgba@) == Ok::<Seq<u8>, Seq<char>>(b@),
            Err(m) => png_rgba8_encoding(width, height, rgba@) == Err::<Seq<u8>, Seq<char>>(m@),
        },
        r matches Ok(b) ==> b@.len() >= 8 && b@.subrange(0, 8) == png_signature(),
        width == 0 || height == 0 || rgba@.len() != width * height * 4 ==> r is Err,
        width > 0 && height > 0 && rgba@.len() == width * height * 4 ==> r is Ok,
{
    let mut out = Vec::new();
    let mut encoder = png::Encoder::new(&mut out, width, height);
    encoder.set_color(png::ColorType::Rgba);
    encoder.set_depth(png::BitDepth::Eight);
    let mut writer = encoder.write_header().map_err(|e| e.to_string())?;
    writer.write_image_data(rgba).map_err(|e| e.to_string())?;
    drop(writer);
    Ok(out)
}

/// What [`rgba_to_png_bytes`] gives: the PNG the encoder writes, or a
/// `Custom` error with its message.
pub open spec fn png_outcome(width: u32, height: u32, rgba: Seq<u8>) -> Result<Seq<u8>, ErrV> {
    match png_rgba8_encoding(width, height, rgba) {
        Ok(b) => Ok(b),
        Err(m) => Err(ErrV::Custom("PNG encode: "@ + m)),
    }
}

/// Encodes RGBA8888 pixels as a standard PNG file (see [`png_outcome`]).
pub fn rgba_to_png_bytes(rgba: &[u8], width: u32, height: u32) -> (r: WzResult<Vec<u8>>)
    ensures
        match png_outcome(width, height, rgba@) {
            Ok(b) => r matches Ok(v) && v@ == b,
            Err(e) => r matches Err(x) && x@ == e,
        },
        r matches Ok(b) ==> b@.len() >= 8 && b@.subrange(0, 8) == png_signature(),
        width == 0 || height == 0 || rgba@.len() != width * height * 4 ==> (r matches Err(e) && e@ is Custom),
        width > 0 && height > 0 && rgba@.len() == width * height * 4 ==> r is Ok,
{
    match encode_png_rgba8(rgba, width, height) {
        Ok(b) => Ok(b),
        Err(msg) => {
            let mut m = str_chars("PNG encode: ");
            crate::text::push_all(&mut m, str_chars(msg.as_str()).as_slice());
            Err(WzError::Custom(string_from_chars(m.as_slice())))
        },
    }
}

/// Whether a canvas of these dimensions and scale exponent can be decoded
/// (see [`decode_canvas_pixels`]); the width and height are read as `u32`.
pub open spec fn canvas_decodable(width: i32, height: i32, scale: u8) -> bool {
    let w = width as u32;
    let h = height as u32;
    &&& dims_ok(w, h)
    &&& scale != 0 ==> {
        &&& scale < 32
        &&& dims_ok(scaled_dim(w, scale), scaled_dim(h, scale))
        &&& upscale_ok(scaled_dim(w, scale), scaled_dim(h, scale), w, h)
    }
}

/// Whether `b` is the PNG of the pixels that `raw` decodes to.
pub open spec fn png_of_pixels(b: Seq<u8>, raw: Seq<u8>, width: i32, height: i32, scale: u8, format: WzPngFormat) -> bool {
    match spec_decode_canvas_pixels(raw, width as u32, height as u32, scale, format) {
        Ok(rgba) => b == png_rgba8_file(width as u32, height as u32, rgba),
        Err(_) => false,
    }
}

/// What [`canvas_to_standard_png`] gives for a canvas of this size, scale
/// and format whose compressed data is `data`: the data decompressed
/// ([`decompressed`], without a key), decoded to RGBA8888 honouring the
/// scale exponent, and encoded as PNG ([`png_outcome`]); the first error
/// stops it.
pub open spec fn standard_png(width: i32, height: i32, scale: u8, format: WzPngFormat, data: Seq<u8>) -> Result<Seq<u8>, ErrV> {
    match decompressed(data, None) {
        Err(e) => Err(e),
        Ok(raw) => match spec_decode_canvas_pixels(raw, width as u32, height as u32, scale, format) {
            Err(e) => Err(e),
            Ok(rgba) => png_outcome(width as u32, height as u32, rgba),
        },
    }
}

/// A canvas as a standard PNG file (see [`standard_png`]).
pub fn canvas_to_standard_png(width: i32, height: i32, scale: u8, format: WzPngFormat, png_data: &CanvasData) -> (r: WzResult<Vec<u8>>)
    requires
        canvas_decodable(width, height, scale),
        canvas_range_ok(png_data.model()),
    ensures
        match standard_png(width, height, scale, format, canvas_bytes(png_data.model())) {
            Ok(b) => r matches Ok(v) && v@ == b,
            Err(e) => r matches Err(x) && x@ == e,
        },
        r matches Ok(b) ==> exists|raw: Seq<u8>| #[trigger] png_of_pixels(b@, raw, width, height, scale, format),
        r matches Ok(b) ==> b@.len() >= 8 && b@.subrange(0, 8) == png_signature(),
        (width as u32) == 0 || (height as u32) == 0 ==> r is Err,
        (width as u32) > 0 && (height as u32) > 0 ==> (decompressed(canvas_bytes(png_data.model()), None) matches Ok(raw)
            && spec_decode_canvas_pixels(raw, width as u32, height as u32, scale, format) is Ok ==> r is Ok),
{
    let bytes = png_data.as_bytes();
    let raw = decompress_png_data(bytes, None)?;
    let rgba = decode_canvas_pixels(raw.as_slice(), width as u32, height as u32, scale, format)?;
    let png = rgba_to_png_bytes(rgba.as_slice(), width as u32, height as u32)?;
    assert(png_of_pixels(png@, raw@, width, height, scale, format));
    Ok(png)
}


/// What the `png` crate decodes a file to, with its default settings (no
/// transformations): width, height, colour type (the PNG code: 0 grey, 2
/// RGB, 3 indexed, 4 grey with alpha, 6 RGBA) and the image bytes; `None`
/// when it reports an error.
pub uninterp spec fn png_decoding(bytes: Seq<u8>) -> Option<(u32, u32, u8, Seq<u8>)>;

/// The `png` crate's `Decoder` (`read_info`, then `next_frame` into a
/// buffer of `output_buffer_size` bytes, keeping the frame's `buffer_size`
/// bytes). The result is named; per the crate's source a grey-with-alpha
/// image has two samples per pixel of 8 or 16 bits, so its bytes come in
/// pairs.
#[verifier::external_body]
fn decode_png_file(bytes: &[u8]) -> (r: Result<(u32, u32, u8, Vec<u8>), String>)
    ensures
        match r {
            Ok((w, h, c, raw)) => png_decoding(bytes@) == Some((w, h, c, raw@)) && (c == 4 ==> raw@.len() % 2 == 0),
            Err(_) => png_decoding(bytes@) is None,
        },
{
    let decoder = png::Decoder::new(std::io::Cursor::new(bytes));
    let mut reader = decoder.read_info().map_err(|e| format!("PNG decode: {}", e))?;
    let mut buf = vec![0u8; reader.output_buffer_size()];
    let frame = reader.next_frame(&mut buf).map_err(|e| format!("PNG decode: {}", e))?;
    let color: u8 = match frame.color_type {
        png::ColorType::Grayscale => 0,
        png::ColorType::Rgb => 2,
        png::ColorType::Indexed => 3,
        png::ColorType::GrayscaleAlpha => 4,
        png::ColorType::Rgba => 6,
    };
    Ok((frame.width, frame.height, color, buf[..frame.buffer_size()].to_vec()))
}

/// Image bytes of a colour type, as RGBA8888: RGBA as it is; RGB gains an
/// opaque alpha per three bytes; grey with alpha and grey are spread over
/// the colour channels; any other type is kept as it is.
pub open spec fn to_rgba8(color: u8, raw: Seq<u8>) -> Seq<u8>
    decreases raw.len(),
{
    if color == 2 {
        if raw.len() == 0 {
            Seq::empty()
        } else if raw.len() < 3 {
            raw + seq![255u8]
        } else {
            raw.subrange(0, 3) + seq![255u8] + to_rgba8(color, raw.subrange(3, raw.len() as int))
        }
    } else if color == 4 {
        if raw.len() < 2 {
            Seq::empty()
        } else {
            seq![raw[0], raw[0], raw[0], raw[1]] + to_rgba8(color, raw.subrange(2, raw.len() as int))
        }
    } else if color == 0 {
        if raw.len() == 0 {
            Seq::empty()
        } else {
            seq![raw[0], raw[0], raw[0], 255u8] + to_rgba8(color, raw.subrange(1, raw.len() as int))
        }
    } else {
        raw
    }
}

/// Decodes a standard PNG file to `(width, height, RGBA8888 bytes)` (see
/// [`to_rgba8`]); a decoding failure is a `Custom` error.
pub fn png_bytes_to_rgba(png_bytes: &[u8]) -> (r: WzResult<(u32, u32, Vec<u8>)>)
    ensures
        match png_decoding(png_bytes@) {
            Some((w, h, c, raw)) => r matches Ok((rw, rh, rgba)) && rw == w && rh == h && rgba@ == to_rgba8(c, raw),
            None => r matches Err(e) && e@ is Custom,
        },
{
    let (w, h, color, raw) = match decode_png_file(png_bytes) {
        Ok(t) => t,
        Err(msg) => return Err(WzError::Custom(msg)),
    };
    let mut out: Vec<u8> = Vec::new();
    if color == 2 || color == 4 || color == 0 {
        let step: usize = if color == 2 { 3 } else if color == 4 { 2 } else { 1 };
        let mut i: usize = 0;
        assert(out@ + to_rgba8(color, raw@.subrange(0, raw@.len() as int)) =~= to_rgba8(color, raw@)) by {
            assert(raw@.subrange(0, raw@.len() as int) =~= raw@);
        }
        while i < raw.len()
            invariant
                step == (if color == 2 { 3usize } else if color == 4 { 2usize } else { 1usize }),
                color == 2 || color == 4 || color == 0,
                color == 4 ==> raw@.len() % 2 == 0 && i % 2 == 0,
                i <= raw.len(),
                to_rgba8(color, raw@) == out@ + to_rgba8(color, raw@.subrange(i as int, raw@.len() as int)),
            decreases raw.len() - i,
        {
            let ghost rest = raw@.subrange(i as int, raw@.len() as int);
            let ghost before = out@;
            if color == 2 {
                let end = if raw.len() - i < 3 { raw.len() } else { i + 3 };
                let mut k = i;
                while k < end
                    invariant
                        i <= k <= end <= raw.len(),
                        out@ == before + raw@.subrange(i as int, k as int),
                    decreases end - k,
                {
                    out.push(raw[k]);
                    k = k + 1;
                    assert(out@ =~= before + raw@.subrange(i as int, k as int));
                }
                out.push(255u8);
                proof {
                    if raw.len() - i < 3 {
                        assert(rest =~= raw@.subrange(i as int, end as int));
                    } else {
                        assert(rest.subrange(0, 3) =~= raw@.subrange(i as int, end as int));
                        assert(rest.subrange(3, rest.len() as int) =~= raw@.subrange(end as int, raw@.len() as int));
                    }
                }
                i = end;
            } else if color == 4 {
                let g = raw[i];
                let a = raw[i + 1];
                out.push(g);
                out.push(g);
                out.push(g);
                out.push(a);
                assert(rest.subrange(2, rest.len() as int) =~= raw@.subrange(i + 2, raw@.len() as int));
                i = i + 2;
            } else {
                let g = raw[i];
                out.push(g);
                out.push(g);
                out.push(g);
                out.push(255u8);
                assert(rest.subrange(1, rest.len() as int) =~= raw@.subrange(i + 1, raw@.len() as int));
                i = i + 1;
            }
            proof {
                assert(out@ + to_rgba8(color, raw@.subrange(i as int, raw@.len() as int)) =~= before + to_rgba8(color, rest));
            }
        }
        assert(raw@.subrange(i as int, raw@.len() as int) =~= Seq::<u8>::empty());
        assert(out@ + Seq::<u8>::empty() =~= out@);
        Ok((w, h, out))
    } else {
        Ok((w, h, raw))
    }
}

// ── Laws ────────────────────────────────────────────────────────────

/// Law: an RGB image (colour type 2) becomes RGBA with each pixel's three
/// bytes in order followed by an opaque alpha of 255.
pub proof fn lemma_rgb_pixels_opaque(raw: Seq<u8>)
    requires
        raw.len() % 3 == 0,
    ensures
        to_rgba8(2, raw).len() == raw.len() / 3 * 4,
        forall|i: int|
            0 <= i < raw.len() / 3 ==> {
                &&& #[trigger] to_rgba8(2, raw)[4 * i] == raw[3 * i]
                &&& to_rgba8(2, raw)[4 * i + 1] == raw[3 * i + 1]
                &&& to_rgba8(2, raw)[4 * i + 2] == raw[3 * i + 2]
                &&& to_rgba8(2, raw)[4 * i + 3] == 255u8
            },
    decreases raw.len(),
{
    if raw.len() > 0 {
        let rest = raw.subrange(3, raw.len() as int);
        lemma_rgb_pixels_opaque(rest);
        let out = to_rgba8(2, raw);
        let head = raw.subrange(0, 3) + seq![255u8];
        assert(out == head + to_rgba8(2, rest));
        assert forall|i: int| 0 <= i < raw.len() / 3 implies {
            &&& #[trigger] out[4 * i] == raw[3 * i]
            &&& out[4 * i + 1] == raw[3 * i + 1]
            &&& out[4 * i + 2] == raw[3 * i + 2]
            &&& out[4 * i + 3] == 255u8
        } by {
            if i > 0 {
                let k = i - 1;
                assert(to_rgba8(2, rest)[4 * k] == rest[3 * k]);
                assert(out[4 * i] == to_rgba8(2, rest)[4 * k]);
                assert(out[4 * i + 1] == to_rgba8(2, rest)[4 * k + 1]);
                assert(out[4 * i + 2] == to_rgba8(2, rest)[4 * k + 2]);
                assert(out[4 * i + 3] == to_rgba8(2, rest)[4 * k + 3]);
                assert(rest[3 * k] == raw[3 * i]);
                assert(rest[3 * k + 1] == raw[3 * i + 1]);
                assert(rest[3 * k + 2] == raw[3 * i + 2]);
            }
        }
    }
}

/// Law: a grey image (colour type 0) becomes RGBA with the grey level in
/// each colour channel and an opaque alpha of 255.
pub proof fn lemma_grey_pixels_opaque(raw: Seq<u8>)
    ensures
        to_rgba8(0, raw).len() == raw.len() * 4,
        forall|i: int|
            0 <= i < raw.len() ==> {
                &&& #[trigger] to_rgba8(0, raw)[4 * i] == raw[i]
                &&& to_rgba8(0, raw)[4 * i + 1] == raw[i]
                &&& to_rgba8(0, raw)[4 * i + 2] == raw[i]
                &&& to_rgba8(0, raw)[4 * i + 3] == 255u8
            },
    decreases raw.len(),
{
    if raw.len() > 0 {
        let rest = raw.subrange(1, raw.len() as int);
        lemma_grey_pixels_opaque(rest);
        let head = seq![raw[0], raw[0], raw[0], 255u8];
        assert(to_rgba8(0, raw) == head + to_rgba8(0, rest));
        assert forall|i: int| 0 <= i < raw.len() implies {
            &&& #[trigger] to_rgba8(0, raw)[4 * i] == raw[i]
            &&& to_rgba8(0, raw)[4 * i + 1] == raw[i]
            &&& to_rgba8(0, raw)[4 * i + 2] == raw[i]
            &&& to_rgba8(0, raw)[4 * i + 3] == 255u8
        } by {
            if i > 0 {
                let k = i - 1;
                assert(to_rgba8(0, rest)[4 * k] == rest[k]);
                assert(rest[k] == raw[i]);
                assert(4 * i == 4 + 4 * k);
            }
        }
    }
}

/// Law: a grey-with-alpha image (colour type 4) becomes RGBA with the grey
/// level in each colour channel and its own alpha.
pub proof fn lemma_grey_alpha_pixels(raw: Seq<u8>)
    requires
        raw.len() % 2 == 0,
    ensures
        to_rgba8(4, raw).len() == raw.len() / 2 * 4,
        forall|i: int|
            0 <= i < raw.len() / 2 ==> {
                &&& #[trigger] to_rgba8(4, raw)[4 * i] == raw[2 * i]
                &&& to_rgba8(4, raw)[4 * i + 1] == raw[2 * i]
                &&& to_rgba8(4, raw)[4 * i + 2] == raw[2 * i]
                &&& to_rgba8(4, raw)[4 * i + 3] == raw[2 * i + 1]
            },
    decreases raw.len(),
{
    if raw.len() > 0 {
        let rest = raw.subrange(2, raw.len() as int);
        lemma_grey_alpha_pixels(rest);
        let head = seq![raw[0], raw[0], raw[0], raw[1]];
        assert(to_rgba8(4, raw) == head + to_rgba8(4, rest));
        assert forall|i: int| 0 <= i < raw.len() / 2 implies {
            &&& #[trigger] to_rgba8(4, raw)[4 * i] == raw[2 * i]
            &&& to_rgba8(4, raw)[4 * i + 1] == raw[2 * i]
            &&& to_rgba8(4, raw)[4 * i + 2] == raw[2 * i]
            &&& to_rgba8(4, raw)[4 * i + 3] == raw[2 * i + 1]
        } by {
            if i > 0 {
                let k = i - 1;
                assert(k < rest.len() / 2);
                assert(to_rgba8(4, rest)[4 * k] == rest[2 * k]);
                assert(rest[2 * k] == raw[2 * i]);
                assert(rest[2 * k + 1] == raw[2 * i + 1]);
                assert(4 * i == 4 + 4 * k);
            }
        }
    }
}

/// Law: an RGBA image (colour type 6) is kept byte for byte.
pub proof fn lemma_rgba_pixels_kept(raw: Seq<u8>)
    ensures
        to_rgba8(6, raw) == raw,
{
}

} // verus!
