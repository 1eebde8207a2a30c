//! Inflating compressed canvas data: recognising the zlib header, undoing
//! the encrypted block framing of list.wz canvases, and tolerating streams
//! that end without a terminator.
use vstd::prelude::*;
use crate::error::{ErrV, WzError, WzResult};
use crate::reader::{rd_i32, rd_bytes};
use crate::text::{str_chars, push_all};

verus! {

/// How reading a deflate stream to its end stopped.
pub enum ReadEnd {
    /// The stream ended (with its checksum, for zlib).
    Finished,
    /// The input ran out before the end of the stream.
    Incomplete,
    /// The data is not a valid stream; the reader's message.
    Corrupt(String),
}

/// Model of [`ReadEnd`].
pub enum ReadEndV {
    Finished,
    Incomplete,
    Corrupt(Seq<char>),
}

impl View for ReadEnd {
    type V = ReadEndV;

    open spec fn view(&self) -> ReadEndV {
        match self {
            ReadEnd::Finished => ReadEndV::Finished,
            ReadEnd::Incomplete => ReadEndV::Incomplete,
            ReadEnd::Corrupt(m) => ReadEndV::Corrupt(m@),
        }
    }
}

/// What flate2's `read::ZlibDecoder` over `input`, read to its end, gives:
/// the bytes it produced and how it stopped.
pub uninterp spec fn zlib_read(input: Seq<u8>) -> (Seq<u8>, ReadEndV);

/// What flate2's `read::DeflateDecoder` (raw deflate, no header) over
/// `input`, read to its end, gives: the bytes it produced and how it stopped.
pub uninterp spec fn raw_deflate_read(input: Seq<u8>) -> (Seq<u8>, ReadEndV);

/// flate2's `read::ZlibDecoder::new(input)` read with `Read::read_to_end`.
/// The bytes and the end are named ([`zlib_read`]): per flate2's source
/// (`zio::read`) the reader fails with `UnexpectedEof` when the input runs
/// out inside the stream and with `InvalidInput` on corrupt data, and
/// `read_to_end` keeps the bytes read before an error.
#[verifier::external_body]
fn read_zlib(input: &[u8]) -> (r: (Vec<u8>, ReadEnd))
    ensures
        (r.0@, r.1@) == zlib_read(input@),
{
    let mut out = Vec::new();
    let res = std::io::Read::read_to_end(&mut flate2::read::ZlibDecoder::new(input), &mut out);
    let end = match res {
        Ok(_) => ReadEnd::Finished,
        Err(e) if e.kind() == std::io::ErrorKind::UnexpectedEof => ReadEnd::Incomplete,
        Err(e) => ReadEnd::Corrupt(e.to_string()),
    };
    (out, end)
}

/// flate2's `read::DeflateDecoder::new(input)` read with
/// `Read::read_to_end`; see [`read_zlib`]. The result is named
/// ([`raw_deflate_read`]).
#[verifier::external_body]
fn read_raw_deflate(input: &[u8]) -> (r: (Vec<u8>, ReadEnd))
    ensures
        (r.0@, r.1@) == raw_deflate_read(input@),
{
    let mut out = Vec::new();
    let res = std::io::Read::read_to_end(&mut flate2::read::DeflateDecoder::new(input), &mut out);
    let end = match res {
        Ok(_) => ReadEnd::Finished,
        Err(e) if e.kind() == std::io::ErrorKind::UnexpectedEof => ReadEnd::Incomplete,
        Err(e) => ReadEnd::Corrupt(e.to_string()),
    };
    (out, end)
}

/// The bytes and end of reading `input` as a zlib or a raw deflate stream.
pub open spec fn inflated(input: Seq<u8>, zlib_header: bool) -> (Seq<u8>, ReadEndV) {
    if zlib_header {
        zlib_read(input)
    } else {
        raw_deflate_read(input)
    }
}

/// The message of an inflate that ended without the end of the stream and
/// without any output.
pub open spec fn msg_no_data() -> Seq<char> {
    "incomplete deflate stream (no data decoded)"@
}

/// The outcome once the inflater has stopped: the bytes produced, unless the
/// stream neither ended nor produced anything.
pub open spec fn inflate_outcome(output: Seq<u8>, stream_end: bool) -> Result<Seq<u8>, ErrV> {
    if !stream_end && output.len() == 0 {
        Err(ErrV::DecompressionFailed(msg_no_data()))
    } else {
        Ok(output)
    }
}

/// A lenient inflate's outcome from what the reader gave: corrupt data is a
/// decompression failure with the reader's message; otherwise the bytes, as
/// [`inflate_outcome`] says (running out of input after producing bytes
/// keeps them).
pub open spec fn lenient_outcome(read: (Seq<u8>, ReadEndV)) -> Result<Seq<u8>, ErrV> {
    match read.1 {
        ReadEndV::Corrupt(m) => Err(ErrV::DecompressionFailed(m)),
        ReadEndV::Finished => inflate_outcome(read.0, true),
        ReadEndV::Incomplete => inflate_outcome(read.0, false),
    }
}

/// Finishes an inflate: see [`inflate_outcome`].
pub fn finish_inflate(output: Vec<u8>, stream_end: bool) -> (r: WzResult<Vec<u8>>)
    ensures
        match inflate_outcome(output@, stream_end) {
            Ok(v) => r matches Ok(o) && o@ == v,
            Err(e) => r matches Err(err) && err@ == e,
        },
{
    if !stream_end && output.len() == 0 {
        return Err(WzError::DecompressionFailed(crate::text::string_from_chars(str_chars("incomplete deflate stream (no data decoded)").as_slice())));
    }
    Ok(output)
}

/// Inflates `input` (a zlib stream, or raw deflate), tolerating a stream
/// that never reaches its terminator: canvas blobs are stored as a deflate
/// window whose last block is not marked final and which has no checksum
/// trailer. Running out of input after producing bytes returns those bytes;
/// a data error, or a stream that produced nothing, is an error (see
/// [`lenient_outcome`]).
pub fn inflate_lenient(input: &[u8], zlib_header: bool) -> (r: WzResult<Vec<u8>>)
    ensures
        match lenient_outcome(inflated(input@, zlib_header)) {
            Ok(v) => r matches Ok(o) && o@ == v,
            Err(e) => r matches Err(err) && err@ == e,
        },
{
    let (output, end) = if zlib_header {
        read_zlib(input)
    } else {
        read_raw_deflate(input)
    };
    match end {
        ReadEnd::Corrupt(msg) => Err(WzError::DecompressionFailed(msg)),
        ReadEnd::Finished => finish_inflate(output, true),
        ReadEnd::Incomplete => finish_inflate(output, false),
    }
}


/// Whether two bytes start a zlib stream as canvases store them.
pub open spec fn is_zlib_header(b0: u8, b1: u8) -> bool {
    b0 == 0x78 && (b1 == 0x9C || b1 == 0xDA || b1 == 0x01 || b1 == 0x5E)
}

/// `b` with byte `i` XORed with key byte `i`, where the key has one.
pub open spec fn xor_with_key(b: Seq<u8>, key: Seq<u8>) -> Seq<u8> {
    Seq::new(b.len(), |i: int| if i < key.len() { b[i] ^ key[i] } else { b[i] })
}

/// The outcome of undoing the block framing of encrypted canvas data.
pub enum Blocks {
    /// The decrypted bytes of all blocks, in order.
    Data(Seq<u8>),
    /// A size or a block ran past the end of the data.
    Truncated,
    /// A block size is negative.
    NegativeSize,
}

/// The blocks of `d` from position `p` on: each an `i32` size, then that
/// many bytes XORed with the key (from its start, for every block).
pub open spec fn sp_blocks(d: Seq<u8>, p: nat, key: Seq<u8>) -> Blocks
    decreases d.len() - p,
{
    if p >= d.len() {
        Blocks::Data(Seq::empty())
    } else {
        match rd_i32(d, p as int) {
            None => Blocks::Truncated,
            Some((size, q)) => if size < 0 {
                Blocks::NegativeSize
            } else {
                match rd_bytes(d, q, size as int) {
                    None => Blocks::Truncated,
                    Some((block, q2)) => match sp_blocks(d, q2 as nat, key) {
                        Blocks::Data(rest) => Blocks::Data(xor_with_key(block, key) + rest),
                        other => other,
                    },
                }
            },
        }
    }
}

/// What [`decompress_png_data`] inflates: the bytes and whether a zlib
/// header is expected, or the error that stops it first. Zlib data is
/// inflated as it is; otherwise, with a key, the encrypted blocks are
/// decrypted and inflated without their 2-byte zlib header; without a key
/// the data is a raw deflate stream.
pub open spec fn sp_inflate_input(c: Seq<u8>, key: Option<Seq<u8>>) -> Result<(Seq<u8>, bool), ErrV> {
    if c.len() < 2 {
        Err(ErrV::DecompressionFailed("Data too short"@))
    } else if is_zlib_header(c[0], c[1]) {
        Ok((c, true))
    } else {
        match key {
            None => Ok((c, false)),
            Some(k) => match sp_blocks(c, 0, k) {
                Blocks::Data(dec) => if dec.len() < 2 {
                    Err(ErrV::DecompressionFailed("Decrypted list.wz data too short"@))
                } else {
                    Ok((dec.subrange(2, dec.len() as int), false))
                },
                _ => Err(ErrV::DecompressionFailed("failed to fill whole buffer"@)),
            },
        }
    }
}

/// Whether [`decompress_png_data`] can take these arguments: encrypted
/// blocks (no zlib header, a key given) must not declare a negative size.
pub open spec fn blocks_sized(c: Seq<u8>, key: Option<Seq<u8>>) -> bool {
    c.len() >= 2 && !is_zlib_header(c[0], c[1]) && key is Some ==> !(sp_blocks(c, 0, key->Some_0) is NegativeSize)
}

fn decrypt_blocks(c: &[u8], key: &[u8]) -> (r: Option<Vec<u8>>)
    requires
        !(sp_blocks(c@, 0, key@) is NegativeSize),
    ensures
        match sp_blocks(c@, 0, key@) {
            Blocks::Data(v) => r matches Some(o) && o@ == v,
            _ => r is None,
        },
{
    let mut out: Vec<u8> = Vec::new();
    let mut p: usize = 0;
    let ghost d = c@;
    while p < c.len()
        invariant
            p <= c.len(),
            d == c@,
            !(sp_blocks(d, 0, key@) is NegativeSize),
            sp_blocks(d, 0, key@) == match sp_blocks(d, p as nat, key@) {
                Blocks::Data(rest) => Blocks::Data(out@ + rest),
                other => other,
            },
        decreases c.len() - p,
    {
        if c.len() - p < 4 {
            return None;
        }
        let raw: u32 = c[p] as u32 + 256 * (c[p + 1] as u32) + 65536 * (c[p + 2] as u32) + 16777216 * (c[p + 3] as u32);
        let size = raw as i32;
        assert(rd_i32(d, p as int) == Some((size, p + 4))) by {
            reveal_with_fuel(crate::reader::le_value, 5);
        }
        let start = p + 4;
        if size < 0 {
            return None;
        }
        let n = size as usize;
        if n > c.len() - start {
            return None;
        }
        let ghost block = d.subrange(start as int, start + n);
        let ghost old_out = out@;
        let mut i: usize = 0;
        while i < n
            invariant
                i <= n,
                start + n <= c.len(),
                d == c@,
                block == d.subrange(start as int, start + n),
                out@ == old_out + xor_with_key(block, key@).subrange(0, i as int),
            decreases n - i,
        {
            let b = c[start + i];
            let x = if i < key.len() { b ^ key[i] } else { b };
            out.push(x);
            i = i + 1;
            assert(out@ =~= old_out + xor_with_key(block, key@).subrange(0, i as int));
        }
        assert(xor_with_key(block, key@).subrange(0, n as int) =~= xor_with_key(block, key@));
        let ghost q2 = start + n;
        assert(old_out + (xor_with_key(block, key@) + match sp_blocks(d, q2 as nat, key@) {
            Blocks::Data(rest) => rest,
            _ => Seq::empty(),
        }) =~= out@ + match sp_blocks(d, q2 as nat, key@) {
            Blocks::Data(rest) => rest,
            _ => Seq::empty(),
        });
        p = start + n;
    }
    assert(out@ + Seq::<u8>::empty() =~= out@);
    Some(out)
}

fn copy_bytes(b: &[u8]) -> (v: Vec<u8>)
    ensures
        v@ == b@,
{
    let mut v: Vec<u8> = Vec::new();
    push_all(&mut v, b);
    assert(v@ =~= b@);
    v
}

/// The bytes to inflate and whether they carry a zlib header; see
/// [`sp_inflate_input`].
pub fn inflate_input(compressed: &[u8], wz_key: Option<&[u8]>) -> (r: WzResult<(Vec<u8>, bool)>)
    requires
        blocks_sized(compressed@, match wz_key { Some(k) => Some(k@), None => None }),
    ensures
        match sp_inflate_input(compressed@, match wz_key { Some(k) => Some(k@), None => None }) {
            Ok((v, z)) => r matches Ok((o, oz)) && o@ == v && oz == z,
            Err(e) => r matches Err(err) && err@ == e,
        },
{
    if compressed.len() < 2 {
        return Err(WzError::DecompressionFailed(crate::text::string_from_chars(str_chars("Data too short").as_slice())));
    }
    let b0 = compressed[0];
    let b1 = compressed[1];
    if b0 == 0x78 && (b1 == 0x9C || b1 == 0xDA || b1 == 0x01 || b1 == 0x5E) {
        return Ok((copy_bytes(compressed), true));
    }
    match wz_key {
        None => Ok((copy_bytes(compressed), false)),
        Some(key) => match decrypt_blocks(compressed, key) {
            None => Err(WzError::DecompressionFailed(crate::text::string_from_chars(str_chars("failed to fill whole buffer").as_slice()))),
            Some(dec) => {
                if dec.len() < 2 {
                    return Err(WzError::DecompressionFailed(crate::text::string_from_chars(str_chars("Decrypted list.wz data too short").as_slice())));
                }
                let body = copy_bytes(&dec[2..dec.len()]);
                Ok((body, false))
            },
        },
    }
}

/// What decompressing canvas data gives: the input prepared as
/// [`sp_inflate_input`] says, then inflated leniently ([`lenient_outcome`]).
pub open spec fn decompressed(c: Seq<u8>, key: Option<Seq<u8>>) -> Result<Seq<u8>, ErrV> {
    match sp_inflate_input(c, key) {
        Ok((v, z)) => lenient_outcome(inflated(v, z)),
        Err(e) => Err(e),
    }
}

/// Decompresses canvas data: a zlib stream, encrypted list.wz blocks (with
/// a key), or a raw deflate stream (see [`decompressed`]).
pub fn decompress_png_data(compressed: &[u8], wz_key: Option<&[u8]>) -> (r: WzResult<Vec<u8>>)
    requires
        blocks_sized(compressed@, match wz_key { Some(k) => Some(k@), None => None }),
    ensures
        match decompressed(compressed@, match wz_key { Some(k) => Some(k@), None => None }) {
            Ok(v) => r matches Ok(o) && o@ == v,
            Err(e) => r matches Err(err) && err@ == e,
        },
{
    let (data, zlib) = inflate_input(compressed, wz_key)?;
    inflate_lenient(data.as_slice(), zlib)
}


/// The zlib stream flate2's `ZlibEncoder` writes for `data` at the default
/// compression level, or the text of the error it reports.
pub uninterp spec fn zlib_compression(data: Seq<u8>) -> Result<Seq<u8>, Seq<char>>;

/// flate2's `ZlibEncoder` (default level) writing into a vector, then
/// `finish`. The stream is named; per the miniz_oxide source its header is
/// `0x78 0x9C` (deflate, 32 KiB window, the default level's flag), and, as
/// flate2's own round-trip tests show, its `read::ZlibDecoder` reads the
/// finished stream back to `data`, reaching the stream's end.
#[verifier::external_body]
fn zlib_compress(data: &[u8]) -> (r: Result<Vec<u8>, String>)
    ensures
        match r {
            Ok(b) => zlib_compression(data@) == Ok::<Seq<u8>, Seq<char>>(b@) && b@.len() >= 2 && b@[0] == 0x78 && b@[1] == 0x9C,
            Err(m) => zlib_compression(data@) == Err::<Seq<u8>, Seq<char>>(m@),
        },
        r matches Ok(b) ==> zlib_read(b@) == (data@, ReadEndV::Finished),
{
    let mut encoder = flate2::write::ZlibEncoder::new(Vec::new(), flate2::Compression::default());
    std::io::Write::write_all(&mut encoder, data).map_err(|e| e.to_string())?;
    encoder.finish().map_err(|e| e.to_string())
}

/// Compresses canvas pixel bytes as a zlib stream (see
/// [`zlib_compression`]); a failure is a `Custom` error with the encoder's
/// message. What it returns decompresses back to `data`, with or without a
/// key.
pub fn compress_png_data(data: &[u8]) -> (r: WzResult<Vec<u8>>)
    ensures
        match zlib_compression(data@) {
            Ok(b) => r matches Ok(v) && v@ == b,
            Err(m) => r matches Err(e) && e@ == ErrV::Custom(m),
        },
        r matches Ok(v) ==> forall|key: Option<Seq<u8>>| #[trigger] decompressed(v@, key) == Ok::<Seq<u8>, ErrV>(data@),
{
    match zlib_compress(data) {
        Ok(b) => Ok(b),
        Err(msg) => Err(WzError::Custom(msg)),
    }
}


} // verus!
