//! A positioned little-endian reader over an in-memory WZ data block,
//! with the encrypted string encodings of the format.
use vstd::prelude::*;
use std::sync::Arc;
use crate::crypto::{WzKey, key_byte};
use crate::error::{WzError, WzResult};
use crate::text::char_from_u32;

verus! {

// ── Spec-level decoding of primitives at a byte position ────────────────

/// The byte at position `p`, and the position after it.
pub open spec fn rd_u8(d: Seq<u8>, p: int) -> Option<(u8, int)> {
    if 0 <= p < d.len() {
        Some((d[p], p + 1))
    } else {
        None
    }
}

/// `n` bytes starting at position `p`, and the position after them.
pub open spec fn rd_bytes(d: Seq<u8>, p: int, n: int) -> Option<(Seq<u8>, int)> {
    if 0 <= p && 0 <= n && p + n <= d.len() {
        Some((d.subrange(p, p + n), p + n))
    } else {
        None
    }
}

/// Little-endian unsigned value of `n` bytes at `p` (as a mathematical integer).
pub open spec fn le_value(d: Seq<u8>, p: int, n: nat) -> int
    decreases n,
{
    if n == 0 {
        0
    } else {
        d[p] + 256 * le_value(d, p + 1, (n - 1) as nat)
    }
}

pub open spec fn rd_u16(d: Seq<u8>, p: int) -> Option<(u16, int)> {
    if 0 <= p && p + 2 <= d.len() {
        Some((le_value(d, p, 2) as u16, p + 2))
    } else {
        None
    }
}

pub open spec fn rd_i16(d: Seq<u8>, p: int) -> Option<(i16, int)> {
    if 0 <= p && p + 2 <= d.len() {
        Some((le_value(d, p, 2) as i16, p + 2))
    } else {
        None
    }
}

pub open spec fn rd_u32(d: Seq<u8>, p: int) -> Option<(u32, int)> {
    if 0 <= p && p + 4 <= d.len() {
        Some((le_value(d, p, 4) as u32, p + 4))
    } else {
        None
    }
}

pub open spec fn rd_i32(d: Seq<u8>, p: int) -> Option<(i32, int)> {
    if 0 <= p && p + 4 <= d.len() {
        Some((le_value(d, p, 4) as i32, p + 4))
    } else {
        None
    }
}

pub open spec fn rd_u64(d: Seq<u8>, p: int) -> Option<(u64, int)> {
    if 0 <= p && p + 8 <= d.len() {
        Some((le_value(d, p, 8) as u64, p + 8))
    } else {
        None
    }
}

pub open spec fn rd_i64(d: Seq<u8>, p: int) -> Option<(i64, int)> {
    if 0 <= p && p + 8 <= d.len() {
        Some((le_value(d, p, 8) as i64, p + 8))
    } else {
        None
    }
}

/// Compressed int: one signed byte, or `-128` followed by an `i32`.
pub open spec fn rd_cint(d: Seq<u8>, p: int) -> Option<(i32, int)> {
    match rd_u8(d, p) {
        None => None,
        Some((b, q)) => if b as i8 == -128 {
            rd_i32(d, q)
        } else {
            Some(((b as i8) as i32, q))
        },
    }
}

/// Compressed long: one signed byte, or `-128` followed by an `i64`.
pub open spec fn rd_clong(d: Seq<u8>, p: int) -> Option<(i64, int)> {
    match rd_u8(d, p) {
        None => None,
        Some((b, q)) => if b as i8 == -128 {
            rd_i64(d, q)
        } else {
            Some(((b as i8) as i64, q))
        },
    }
}

// ── Encrypted strings ───────────────────────────────────────────────────

/// ASCII string bytes: byte `i` is XORed with the mask `0xAA + i` (mod 256)
/// and key byte `i`; each result byte is one character.
pub open spec fn ascii_chars(bytes: Seq<u8>, iv: [u8; 4]) -> Seq<char> {
    Seq::new(
        bytes.len(),
        |i: int| ((bytes[i] ^ (((0xAA + i) % 256) as u8)) ^ key_byte(iv, i)) as char,
    )
}

/// UTF-16 code units of a Unicode string: unit `i` (little-endian at byte
/// `2i`) is XORed with the mask `0xAAAA + i` (mod 65536) and with key bytes
/// `2i` (low) and `2i + 1` (high).
pub open spec fn unicode_units(bytes: Seq<u8>, iv: [u8; 4]) -> Seq<u16> {
    Seq::new(
        bytes.len() / 2,
        |i: int|
            (crate::pixel::le16(bytes, 2 * i) ^ (((0xAAAA + i) % 65536) as u16)) ^ ((key_byte(
                iv,
                2 * i + 1,
            ) as u16) << 8u16 | key_byte(iv, 2 * i) as u16),
    )
}

pub open spec fn is_high_surrogate(u: u16) -> bool {
    0xD800 <= u <= 0xDBFF
}

pub open spec fn is_low_surrogate(u: u16) -> bool {
    0xDC00 <= u <= 0xDFFF
}

/// Lossy UTF-16 decoding: surrogate pairs combine, any unpaired surrogate
/// becomes U+FFFD.
pub open spec fn utf16_lossy(units: Seq<u16>) -> Seq<char>
    decreases units.len(),
{
    if units.len() == 0 {
        Seq::empty()
    } else if is_high_surrogate(units[0]) && units.len() >= 2 && is_low_surrogate(units[1]) {
        seq![(0x10000 + (units[0] - 0xD800) * 1024 + (units[1] - 0xDC00)) as char] + utf16_lossy(
            units.subrange(2, units.len() as int),
        )
    } else if is_high_surrogate(units[0]) || is_low_surrogate(units[0]) {
        seq!['\u{FFFD}'] + utf16_lossy(units.subrange(1, units.len() as int))
    } else {
        seq![units[0] as char] + utf16_lossy(units.subrange(1, units.len() as int))
    }
}

/// An inline WZ string at `p`: a signed length byte (0 = empty; positive =
/// UTF-16 of that many units, 127 = `i32` count follows; negative = ASCII of
/// that many bytes, -128 = `i32` count follows), then the encrypted data.
#[verifier::opaque]
pub open spec fn rd_wz_string(d: Seq<u8>, iv: [u8; 4], p: int) -> Option<(Seq<char>, int)> {
    match rd_u8(d, p) {
        None => None,
        Some((b, q)) => {
            let ind = b as i8;
            if ind == 0 {
                Some((Seq::empty(), q))
            } else if ind > 0 {
                let len_at = if ind == 127 {
                    match rd_i32(d, q) {
                        Some((n, q2)) => Some((n as int, q2)),
                        None => None,
                    }
                } else {
                    Some((ind as int, q))
                };
                match len_at {
                    None => None,
                    Some((n, q2)) => if n <= 0 {
                        Some((Seq::empty(), q2))
                    } else {
                        match rd_bytes(d, q2, 2 * n) {
                            None => None,
                            Some((bytes, q3)) => Some((utf16_lossy(unicode_units(bytes, iv)), q3)),
                        }
                    },
                }
            } else {
                let len_at = if ind == -128 {
                    match rd_i32(d, q) {
                        Some((n, q2)) => Some((n as int, q2)),
                        None => None,
                    }
                } else {
                    Some((-(ind as int), q))
                };
                match len_at {
                    None => None,
                    Some((n, q2)) => if n <= 0 {
                        Some((Seq::empty(), q2))
                    } else {
                        match rd_bytes(d, q2, n) {
                            None => None,
                            Some((bytes, q3)) => Some((ascii_chars(bytes, iv), q3)),
                        }
                    },
                }
            }
        },
    }
}

/// The target position of a string-block reference: `offset + rel`, wrapping
/// modulo 2^64 as unsigned 64-bit arithmetic does.
pub open spec fn rel_target(offset: int, rel: i32) -> int {
    if offset + rel > u64::MAX {
        offset + rel - 0x1_0000_0000_0000_0000
    } else if offset + rel < 0 {
        offset + rel + 0x1_0000_0000_0000_0000
    } else {
        offset + rel
    }
}

/// A string block at `p`: tag `0x00`/`0x73` = inline string, tag
/// `0x01`/`0x1B` = `i32` offset (relative to `offset`) of an inline string
/// elsewhere; any other tag = empty string.
#[verifier::opaque]
pub open spec fn rd_string_block(d: Seq<u8>, iv: [u8; 4], offset: int, p: int) -> Option<(Seq<char>, int)> {
    match rd_u8(d, p) {
        None => None,
        Some((tag, q)) => if tag == 0x00 || tag == 0x73 {
            rd_wz_string(d, iv, q)
        } else if tag == 0x01 || tag == 0x1B {
            match rd_i32(d, q) {
                None => None,
                Some((rel, q2)) => match rd_wz_string(d, iv, rel_target(offset, rel)) {
                    None => None,
                    Some((s, _)) => Some((s, q2)),
                },
            }
        } else {
            Some((Seq::empty(), q))
        },
    }
}

// ── The reader ──────────────────────────────────────────────────────────

/// A reader over WZ image bytes: a position, the XOR key stream used for
/// strings, and (while parsing lazily) the shared buffer canvases refer into.
pub struct WzBinaryReader {
    data: Vec<u8>,
    pos: u64,
    key: WzKey,
    lazy_src: Option<Arc<Vec<u8>>>,
}

impl WzBinaryReader {
    pub closed spec fn spec_data(&self) -> Seq<u8> {
        self.data@
    }

    pub closed spec fn spec_pos(&self) -> int {
        self.pos as int
    }

    pub closed spec fn spec_iv(&self) -> [u8; 4] {
        self.key.spec_iv()
    }

    /// The shared buffer canvases refer into while parsing lazily.
    pub closed spec fn spec_lazy(&self) -> Option<Seq<u8>> {
        match self.lazy_src {
            Some(a) => Some((*a)@),
            None => None,
        }
    }

    pub closed spec fn wf(&self) -> bool {
        &&& self.key.wf()
        &&& self.data@.len() <= 0x4000_0000_0000_0000
        &&& self.data@.len() + 16 <= usize::MAX
    }

    /// Size facts of a well-formed reader.
    pub proof fn lemma_wf_bounds(&self)
        requires
            self.wf(),
        ensures
            self.spec_data().len() <= 0x4000_0000_0000_0000,
            self.spec_data().len() + 16 <= usize::MAX,
    {
    }

    /// A reader at position 0 over `data`, decrypting strings with the key
    /// stream of `iv`.
    pub fn new(data: Vec<u8>, iv: [u8; 4]) -> (r: WzBinaryReader)
        requires
            data@.len() <= 0x4000_0000_0000_0000,
            data@.len() + 16 <= usize::MAX,
        ensures
            r.wf(),
            r.spec_data() == data@,
            r.spec_pos() == 0,
            r.spec_iv() == iv,
            r.spec_lazy() is None,
    {
        WzBinaryReader { data, pos: 0, key: WzKey::new(iv), lazy_src: None }
    }

    /// The current position.
    pub fn position(&self) -> (p: u64)
        ensures
            p == self.spec_pos(),
    {
        self.pos
    }

    /// Moves to position `p` (which may lie past the end; reads there fail).
    pub fn seek(&mut self, p: u64)
        ensures
            final(self).spec_pos() == p,
            final(self).spec_data() == old(self).spec_data(),
            final(self).spec_iv() == old(self).spec_iv(),
            final(self).spec_lazy() == old(self).spec_lazy(),
            old(self).wf() ==> final(self).wf(),
    {
        self.pos = p;
    }

    /// Switches string decryption to the key stream of `iv`.
    pub fn set_iv(&mut self, iv: [u8; 4])
        ensures
            final(self).spec_pos() == old(self).spec_pos(),
            final(self).spec_data() == old(self).spec_data(),
            final(self).spec_iv() == iv,
            final(self).spec_lazy() == old(self).spec_lazy(),
            old(self).wf() ==> final(self).wf(),
    {
        self.key = WzKey::new(iv);
    }

    /// The IV of the current key stream.
    pub fn iv(&self) -> (iv: [u8; 4])
        ensures
            iv == self.spec_iv(),
    {
        self.key.iv()
    }

    /// Sets (or clears) the buffer that canvases refer into.
    pub fn set_lazy_src(&mut self, src: Option<Arc<Vec<u8>>>)
        ensures
            final(self).spec_pos() == old(self).spec_pos(),
            final(self).spec_data() == old(self).spec_data(),
            final(self).spec_iv() == old(self).spec_iv(),
            final(self).spec_lazy() == (match src {
                Some(a) => Some((*a)@),
                None => None,
            }),
            old(self).wf() ==> final(self).wf(),
    {
        self.lazy_src = src;
    }

    /// A handle on the buffer that canvases refer into, if any.
    pub fn lazy_src(&self) -> (r: Option<Arc<Vec<u8>>>)
        ensures
            match r {
                Some(a) => self.spec_lazy() == Some((*a)@),
                None => self.spec_lazy() is None,
            },
    {
        match &self.lazy_src {
            Some(a) => Some(share(a)),
            None => None,
        }
    }

    /// The key stream's first `n` bytes.
    pub fn key_slice(&mut self, n: usize) -> (r: Vec<u8>)
        requires
            old(self).wf(),
            n + 16 <= usize::MAX,
        ensures
            final(self).wf(),
            r@ == crate::crypto::key_prefix(old(self).spec_iv(), n as nat),
            final(self).spec_pos() == old(self).spec_pos(),
            final(self).spec_data() == old(self).spec_data(),
            final(self).spec_iv() == old(self).spec_iv(),
            final(self).spec_lazy() == old(self).spec_lazy(),
    {
        self.key.get_slice(n)
    }

    /// Reads `n` bytes.
    pub fn read_bytes(&mut self, n: usize) -> (r: WzResult<Vec<u8>>)
        requires
            old(self).wf(),
        ensures
            final(self).wf(),
            final(self).spec_data() == old(self).spec_data(),
            final(self).spec_iv() == old(self).spec_iv(),
            final(self).spec_lazy() == old(self).spec_lazy(),
            match rd_bytes(old(self).spec_data(), old(self).spec_pos(), n as int) {
                Some((v, q)) => r matches Ok(b) && b@ == v && final(self).spec_pos() == q,
                None => r matches Err(WzError::UnexpectedEof),
            },
    {
        let len = self.data.len() as u64;
        if self.pos > len || (n as u64) > len - self.pos {
            return Err(WzError::UnexpectedEof);
        }
        let start = self.pos as usize;
        let mut out: Vec<u8> = Vec::new();
        let mut i = 0usize;
        while i < n
            invariant
                0 <= i <= n,
                start + n <= self.data.len(),
                out@ == self.data@.subrange(start as int, start + i),
            decreases n - i,
        {
            out.push(self.data[start + i]);
            i = i + 1;
            assert(out@ =~= self.data@.subrange(start as int, start + i));
        }
        self.pos = self.pos + n as u64;
        Ok(out)
    }

    /// Reads one byte.
    pub fn read_u8(&mut self) -> (r: WzResult<u8>)
        requires
            old(self).wf(),
        ensures
            final(self).wf(),
            final(self).spec_data() == old(self).spec_data(),
            final(self).spec_iv() == old(self).spec_iv(),
            final(self).spec_lazy() == old(self).spec_lazy(),
            match rd_u8(old(self).spec_data(), old(self).spec_pos()) {
                Some((v, q)) => r == Ok::<u8, WzError>(v) && final(self).spec_pos() == q,
                None => r matches Err(WzError::UnexpectedEof),
            },
    {
        if self.pos >= self.data.len() as u64 {
            return Err(WzError::UnexpectedEof);
        }
        let b = self.data[self.pos as usize];
        self.pos = self.pos + 1;
        Ok(b)
    }

    /// Little-endian value of the next `n` (at most 8) bytes.
    fn read_le(&mut self, n: usize) -> (r: WzResult<u64>)
        requires
            old(self).wf(),
            1 <= n <= 8,
        ensures
            final(self).wf(),
            final(self).spec_data() == old(self).spec_data(),
            final(self).spec_iv() == old(self).spec_iv(),
            final(self).spec_lazy() == old(self).spec_lazy(),
            match rd_bytes(old(self).spec_data(), old(self).spec_pos(), n as int) {
                Some((_, q)) => r matches Ok(v) && v == le_value(old(self).spec_data(), old(self).spec_pos(), n as nat)
                    && final(self).spec_pos() == q,
                None => r matches Err(WzError::UnexpectedEof),
            },
    {
        let len = self.data.len() as u64;
        if self.pos > len || (n as u64) > len - self.pos {
            return Err(WzError::UnexpectedEof);
        }
        let start = self.pos as usize;
        let ghost d = self.data@;
        let mut v: u64 = 0;
        let mut i = n;
        proof {
            assert(le_value(d, start + n, 0) == 0);
        }
        while i > 0
            invariant
                0 <= i <= n,
                n <= 8,
                d == self.data@,
                start + n <= self.data.len(),
                v == le_value(d, start + i, (n - i) as nat),
                le_value(d, start + i, (n - i) as nat) < pow256(n - i),
            decreases i,
        {
            i = i - 1;
            proof {
                assert(pow256(n - i) == 256 * pow256(n - i - 1));
                assert(pow256(n - i) <= 0x1_0000_0000_0000_0000) by {
                    lemma_pow256_mono((n - i) as nat, 8);
                }
                assert(le_value(d, start + i, (n - i) as nat) == d[start + i] + 256 * le_value(d, start + i + 1, (n - i - 1) as nat));
            }
            v = (self.data[start + i] as u64) + 256 * v;
        }
        self.pos = self.pos + n as u64;
        Ok(v)
    }

    pub fn read_u16(&mut self) -> (r: WzResult<u16>)
        requires
            old(self).wf(),
        ensures
            final(self).wf(),
            final(self).spec_data() == old(self).spec_data(),
            final(self).spec_iv() == old(self).spec_iv(),
            final(self).spec_lazy() == old(self).spec_lazy(),
            match rd_u16(old(self).spec_data(), old(self).spec_pos()) {
                Some((v, q)) => r == Ok::<u16, WzError>(v) && final(self).spec_pos() == q,
                None => r matches Err(WzError::UnexpectedEof),
            },
    {
        let v = self.read_le(2)?;
        Ok(v as u16)
    }

    pub fn read_i16(&mut self) -> (r: WzResult<i16>)
        requires
            old(self).wf(),
        ensures
            final(self).wf(),
            final(self).spec_data() == old(self).spec_data(),
            final(self).spec_iv() == old(self).spec_iv(),
            final(self).spec_lazy() == old(self).spec_lazy(),
            match rd_i16(old(self).spec_data(), old(self).spec_pos()) {
                Some((v, q)) => r == Ok::<i16, WzError>(v) && final(self).spec_pos() == q,
                None => r matches Err(WzError::UnexpectedEof),
            },
    {
        let v = self.read_le(2)?;
        Ok(v as i16)
    }

    pub fn read_u32(&mut self) -> (r: WzResult<u32>)
        requires
            old(self).wf(),
        ensures
            final(self).wf(),
            final(self).spec_data() == old(self).spec_data(),
            final(self).spec_iv() == old(self).spec_iv(),
            final(self).spec_lazy() == old(self).spec_lazy(),
            match rd_u32(old(self).spec_data(), old(self).spec_pos()) {
                Some((v, q)) => r == Ok::<u32, WzError>(v) && final(self).spec_pos() == q,
                None => r matches Err(WzError::UnexpectedEof),
            },
    {
        let v = self.read_le(4)?;
        Ok(v as u32)
    }

    pub fn read_i32(&mut self) -> (r: WzResult<i32>)
        requires
            old(self).wf(),
        ensures
            final(self).wf(),
            final(self).spec_data() == old(self).spec_data(),
            final(self).spec_iv() == old(self).spec_iv(),
            final(self).spec_lazy() == old(self).spec_lazy(),
            match rd_i32(old(self).spec_data(), old(self).spec_pos()) {
                Some((v, q)) => r == Ok::<i32, WzError>(v) && final(self).spec_pos() == q,
                None => r matches Err(WzError::UnexpectedEof),
            },
    {
        let v = self.read_le(4)?;
        Ok(v as i32)
    }

    pub fn read_u64(&mut self) -> (r: WzResult<u64>)
        requires
            old(self).wf(),
        ensures
            final(self).wf(),
            final(self).spec_data() == old(self).spec_data(),
            final(self).spec_iv() == old(self).spec_iv(),
            final(self).spec_lazy() == old(self).spec_lazy(),
            match rd_u64(old(self).spec_data(), old(self).spec_pos()) {
                Some((v, q)) => r == Ok::<u64, WzError>(v) && final(self).spec_pos() == q,
                None => r matches Err(WzError::UnexpectedEof),
            },
    {
        let v = self.read_le(8)?;
        Ok(v)
    }

    pub fn read_i64(&mut self) -> (r: WzResult<i64>)
        requires
            old(self).wf(),
        ensures
            final(self).wf(),
            final(self).spec_data() == old(self).spec_data(),
            final(self).spec_iv() == old(self).spec_iv(),
            final(self).spec_lazy() == old(self).spec_lazy(),
            match rd_i64(old(self).spec_data(), old(self).spec_pos()) {
                Some((v, q)) => r == Ok::<i64, WzError>(v) && final(self).spec_pos() == q,
                None => r matches Err(WzError::UnexpectedEof),
            },
    {
        let v = self.read_le(8)?;
        Ok(v as i64)
    }
}

impl WzBinaryReader {
    /// Reads a compressed int.
    pub fn read_compressed_int(&mut self) -> (r: WzResult<i32>)
        requires
            old(self).wf(),
        ensures
            final(self).wf(),
            final(self).spec_data() == old(self).spec_data(),
            final(self).spec_iv() == old(self).spec_iv(),
            final(self).spec_lazy() == old(self).spec_lazy(),
            match rd_cint(old(self).spec_data(), old(self).spec_pos()) {
                Some((v, q)) => r == Ok::<i32, WzError>(v) && final(self).spec_pos() == q,
                None => r matches Err(WzError::UnexpectedEof),
            },
    {
        let b = self.read_u8()?;
        if b as i8 == -128 {
            self.read_i32()
        } else {
            Ok((b as i8) as i32)
        }
    }

    /// Reads a compressed long.
    pub fn read_compressed_long(&mut self) -> (r: WzResult<i64>)
        requires
            old(self).wf(),
        ensures
            final(self).wf(),
            final(self).spec_data() == old(self).spec_data(),
            final(self).spec_iv() == old(self).spec_iv(),
            final(self).spec_lazy() == old(self).spec_lazy(),
            match rd_clong(old(self).spec_data(), old(self).spec_pos()) {
                Some((v, q)) => r == Ok::<i64, WzError>(v) && final(self).spec_pos() == q,
                None => r matches Err(WzError::UnexpectedEof),
            },
    {
        let b = self.read_u8()?;
        if b as i8 == -128 {
            self.read_i64()
        } else {
            Ok((b as i8) as i64)
        }
    }

    /// Decrypts ASCII string bytes with the current key stream.
    fn decrypt_ascii(&mut self, bytes: &Vec<u8>) -> (cs: Vec<char>)
        requires
            old(self).wf(),
            bytes@.len() + 16 <= usize::MAX,
        ensures
            final(self).wf(),
            final(self).spec_pos() == old(self).spec_pos(),
            final(self).spec_data() == old(self).spec_data(),
            final(self).spec_iv() == old(self).spec_iv(),
            final(self).spec_lazy() == old(self).spec_lazy(),
            cs@ == ascii_chars(bytes@, old(self).spec_iv()),
    {
        let n = bytes.len();
        let key = self.key_slice(n);
        let ghost iv = self.spec_iv();
        let mut out: Vec<char> = Vec::new();
        let mut mask: u8 = 0xAA;
        let mut i = 0usize;
        while i < n
            invariant
                0 <= i <= n,
                n == bytes@.len(),
                key@ == crate::crypto::key_prefix(iv, n as nat),
                mask == ((0xAA + i) % 256) as u8,
                out@ == ascii_chars(bytes@, iv).subrange(0, i as int),
            decreases n - i,
        {
            let c = ((bytes[i] ^ mask) ^ key[i]) as char;
            out.push(c);
            mask = mask.wrapping_add(1);
            i = i + 1;
            assert(out@ =~= ascii_chars(bytes@, iv).subrange(0, i as int));
        }
        assert(out@ =~= ascii_chars(bytes@, iv));
        out
    }

    /// Decrypts Unicode string bytes (an even number) with the current key stream.
    fn decrypt_unicode(&mut self, bytes: &Vec<u8>) -> (cs: Vec<char>)
        requires
            old(self).wf(),
            bytes@.len() + 16 <= usize::MAX,
            bytes@.len() % 2 == 0,
        ensures
            final(self).wf(),
            final(self).spec_pos() == old(self).spec_pos(),
            final(self).spec_data() == old(self).spec_data(),
            final(self).spec_iv() == old(self).spec_iv(),
            final(self).spec_lazy() == old(self).spec_lazy(),
            cs@ == utf16_lossy(unicode_units(bytes@, old(self).spec_iv())),
    {
        let n = bytes.len();
        let key = self.key_slice(n);
        let ghost iv = self.spec_iv();
        let ghost target = unicode_units(bytes@, iv);
        let mut units: Vec<u16> = Vec::new();
        let mut mask: u16 = 0xAAAA;
        let mut i = 0usize;
        while i < n / 2
            invariant
                0 <= i <= n / 2,
                n == bytes@.len(),
                n % 2 == 0,
                key@ == crate::crypto::key_prefix(iv, n as nat),
                mask == ((0xAAAA + i) % 65536) as u16,
                target == unicode_units(bytes@, iv),
                units@ == target.subrange(0, i as int),
            decreases n / 2 - i,
        {
            let enc = crate::pixel::read_le16(bytes.as_slice(), 2 * i);
            let k = ((key[2 * i + 1] as u16) << 8u16) | (key[2 * i] as u16);
            units.push((enc ^ mask) ^ k);
            mask = mask.wrapping_add(1);
            i = i + 1;
            assert(units@ =~= target.subrange(0, i as int));
        }
        assert(units@ =~= target);
        decode_utf16_lossy(&units)
    }

    /// Reads an inline WZ string.
    pub fn read_wz_string(&mut self) -> (r: WzResult<Vec<char>>)
        requires
            old(self).wf(),
        ensures
            final(self).wf(),
            final(self).spec_data() == old(self).spec_data(),
            final(self).spec_iv() == old(self).spec_iv(),
            final(self).spec_lazy() == old(self).spec_lazy(),
            match rd_wz_string(old(self).spec_data(), old(self).spec_iv(), old(self).spec_pos()) {
                Some((v, q)) => r matches Ok(cs) && cs@ == v && final(self).spec_pos() == q,
                None => r matches Err(WzError::UnexpectedEof),
            },
    {
        proof {
            reveal(rd_wz_string);
        }
        let b = self.read_u8()?;
        let ind = #[verifier::truncate] (b as i8);
        if ind == 0 {
            return Ok(Vec::new());
        }
        if ind > 0 {
            let n: i32 = if ind == 127 {
                self.read_i32()?
            } else {
                ind as i32
            };
            if n <= 0 {
                return Ok(Vec::new());
            }
            let need: u64 = 2 * (n as u64);
            let len = self.data.len() as u64;
            if self.pos > len || need > len - self.pos {
                return Err(WzError::UnexpectedEof);
            }
            let bytes = self.read_bytes(need as usize)?;
            Ok(self.decrypt_unicode(&bytes))
        } else {
            let n: i32 = if ind == -128 {
                self.read_i32()?
            } else {
                -(ind as i32)
            };
            if n <= 0 {
                return Ok(Vec::new());
            }
            let need: u64 = n as u64;
            let len = self.data.len() as u64;
            if self.pos > len || need > len - self.pos {
                return Err(WzError::UnexpectedEof);
            }
            let bytes = self.read_bytes(need as usize)?;
            Ok(self.decrypt_ascii(&bytes))
        }
    }

    /// Reads an inline WZ string stored at position `target`, then returns
    /// to the current position.
    pub fn read_string_at_offset(&mut self, target: u64) -> (r: WzResult<Vec<char>>)
        requires
            old(self).wf(),
        ensures
            final(self).wf(),
            final(self).spec_data() == old(self).spec_data(),
            final(self).spec_iv() == old(self).spec_iv(),
            final(self).spec_lazy() == old(self).spec_lazy(),
            final(self).spec_pos() == old(self).spec_pos(),
            match rd_wz_string(old(self).spec_data(), old(self).spec_iv(), target as int) {
                Some((v, _)) => r matches Ok(cs) && cs@ == v,
                None => r matches Err(WzError::UnexpectedEof),
            },
    {
        let back = self.pos;
        self.pos = target;
        let r = self.read_wz_string();
        self.pos = back;
        r
    }

    /// Reads a string block (inline, or a reference relative to `offset`).
    pub fn read_string_block(&mut self, offset: u64) -> (r: WzResult<Vec<char>>)
        requires
            old(self).wf(),
        ensures
            final(self).wf(),
            final(self).spec_data() == old(self).spec_data(),
            final(self).spec_iv() == old(self).spec_iv(),
            final(self).spec_lazy() == old(self).spec_lazy(),
            match rd_string_block(old(self).spec_data(), old(self).spec_iv(), offset as int, old(self).spec_pos()) {
                Some((v, q)) => r matches Ok(cs) && cs@ == v && final(self).spec_pos() == q,
                None => r matches Err(WzError::UnexpectedEof),
            },
    {
        proof {
            reveal(rd_string_block);
        }
        let tag = self.read_u8()?;
        if tag == 0x00 || tag == 0x73 {
            self.read_wz_string()
        } else if tag == 0x01 || tag == 0x1B {
            let rel = self.read_i32()?;
            let target = offset.wrapping_add_signed(rel as i64);
            self.read_string_at_offset(target)
        } else {
            Ok(Vec::new())
        }
    }
}

/// Lossy UTF-16 decoding of code units.
pub fn decode_utf16_lossy(units: &Vec<u16>) -> (cs: Vec<char>)
    ensures
        cs@ == utf16_lossy(units@),
{
    let mut out: Vec<char> = Vec::new();
    let mut i = 0usize;
    let n = units.len();
    assert(units@.subrange(0, n as int) =~= units@);
    while i < n
        invariant
            0 <= i <= n,
            n == units@.len(),
            out@ + utf16_lossy(units@.subrange(i as int, n as int)) == utf16_lossy(units@),
        decreases n - i,
    {
        let ghost rest = units@.subrange(i as int, n as int);
        let u = units[i];
        if 0xD800 <= u && u <= 0xDBFF && i + 1 < n && 0xDC00 <= units[i + 1] && units[i + 1] <= 0xDFFF {
            let code: u32 = 0x10000 + ((u - 0xD800) as u32) * 1024 + ((units[i + 1] - 0xDC00) as u32);
            let c = match char_from_u32(code) {
                Some(c) => c,
                None => '\u{FFFD}',
            };
            assert(rest.subrange(2, rest.len() as int) =~= units@.subrange(i + 2, n as int));
            out.push(c);
            i = i + 2;
        } else if 0xD800 <= u && u <= 0xDFFF {
            assert(rest.subrange(1, rest.len() as int) =~= units@.subrange(i + 1, n as int));
            out.push('\u{FFFD}');
            i = i + 1;
        } else {
            let c = match char_from_u32(u as u32) {
                Some(c) => c,
                None => '\u{FFFD}',
            };
            assert(rest.subrange(1, rest.len() as int) =~= units@.subrange(i + 1, n as int));
            out.push(c);
            i = i + 1;
        }
    }
    assert(units@.subrange(n as int, n as int) =~= Seq::<u16>::empty());
    assert(out@ + Seq::<char>::empty() =~= out@);
    out
}

/// `256^n`.
pub open spec fn pow256(n: int) -> int
    decreases n,
{
    if n <= 0 {
        1
    } else {
        256 * pow256(n - 1)
    }
}

proof fn lemma_pow256_mono(a: nat, b: nat)
    requires
        a <= b,
    ensures
        pow256(a as int) <= pow256(b as int),
        pow256(8) == 0x1_0000_0000_0000_0000,
    decreases b,
{
    if a < b {
        lemma_pow256_mono(a, (b - 1) as nat);
        assert(pow256(b as int) == 256 * pow256(b - 1));
        assert(pow256(b - 1) >= 1) by {
            lemma_pow256_pos((b - 1) as nat);
        }
    }
    assert(pow256(8) == 0x1_0000_0000_0000_0000) by {
        reveal_with_fuel(pow256, 9);
    }
}

proof fn lemma_pow256_pos(a: nat)
    ensures
        pow256(a as int) >= 1,
    decreases a,
{
    if a > 0 {
        lemma_pow256_pos((a - 1) as nat);
    }
}

/// Shares the buffer behind an `Arc` (std's `Arc::clone`); the clone has the
/// same contents.
#[verifier::external_body]
pub(crate) fn share(a: &Arc<Vec<u8>>) -> (r: Arc<Vec<u8>>)
    ensures
        r == *a,
{
    Arc::clone(a)
}

} // verus!
