//! Standard base64 (RFC 4648 alphabet, `=` padding), through the `base64`
//! crate.
use vstd::prelude::*;
use base64::Engine as _;

verus! {

/// The character of a 6-bit value in the standard alphabet.
pub open spec fn b64_char(v: int) -> char {
    if v < 26 {
        (('A' as int) + v) as char
    } else if v < 52 {
        (('a' as int) + v - 26) as char
    } else if v < 62 {
        (('0' as int) + v - 52) as char
    } else if v == 62 {
        '+'
    } else {
        '/'
    }
}

/// Standard base64 of `b`: each group of three bytes becomes four
/// characters; a final group of one or two bytes is padded with `=`.
pub open spec fn base64_encoding(b: Seq<u8>) -> Seq<char>
    decreases b.len(),
{
    if b.len() == 0 {
        Seq::empty()
    } else if b.len() == 1 {
        seq![b64_char((b[0] / 4) as int), b64_char((b[0] % 4) * 16 as int), '=', '=']
    } else if b.len() == 2 {
        seq![b64_char((b[0] / 4) as int), b64_char((b[0] % 4) * 16 + b[1] / 16), b64_char((b[1] % 16) * 4 as int), '=']
    } else {
        seq![
            b64_char((b[0] / 4) as int),
            b64_char((b[0] % 4) * 16 + b[1] / 16),
            b64_char((b[1] % 16) * 4 + b[2] / 64),
            b64_char((b[2] % 64) as int),
        ] + base64_encoding(b.subrange(3, b.len() as int))
    }
}

/// The `base64` crate's `STANDARD.encode`: the standard, padded base64 of
/// `data`.
#[verifier::external_body]
pub(crate) fn base64_encode(data: &[u8]) -> (s: String)
    ensures
        s@ == base64_encoding(data@),
{
    base64::engine::general_purpose::STANDARD.encode(data)
}

/// The `base64` crate's `STANDARD.decode`, which requires canonical padding
/// and no trailing bits: it succeeds exactly on the texts that are the
/// standard base64 of some bytes, and gives those bytes.
#[verifier::external_body]
pub(crate) fn base64_decode(text: &str) -> (r: Option<Vec<u8>>)
    ensures
        r matches Some(v) ==> base64_encoding(v@) == text@,
        (exists|v: Seq<u8>| base64_encoding(v) == text@) ==> r is Some,
{
    base64::engine::general_purpose::STANDARD.decode(text).ok()
}


/// What the standard base64 text `t` decodes to: the bytes whose encoding
/// it is (there is at most one, [`lemma_base64_injective`]), if any.
pub open spec fn base64_decoding(t: Seq<char>) -> Option<Seq<u8>> {
    if exists|v: Seq<u8>| #[trigger] base64_encoding(v) == t {
        Some(choose|v: Seq<u8>| #[trigger] base64_encoding(v) == t)
    } else {
        None
    }
}

proof fn lemma_b64_char_injective(a: int, b: int)
    requires
        0 <= a < 64,
        0 <= b < 64,
        b64_char(a) == b64_char(b),
    ensures
        a == b,
{
    assert(('A' as int) == 65 && ('a' as int) == 97 && ('0' as int) == 48);
    assert(('+' as int) == 43 && ('/' as int) == 47);
}

proof fn lemma_b64_char_not_pad(a: int)
    requires
        0 <= a < 64,
    ensures
        b64_char(a) != '=',
{
    assert(('A' as int) == 65 && ('a' as int) == 97 && ('0' as int) == 48 && ('=' as int) == 61);
}

proof fn lemma_encoding_len(b: Seq<u8>)
    ensures
        base64_encoding(b).len() == 4 * ((b.len() + 2) / 3),
    decreases b.len(),
{
    if b.len() > 2 {
        lemma_encoding_len(b.subrange(3, b.len() as int));
    }
}

/// The first four characters of an encoding.
proof fn lemma_encoding_head(b: Seq<u8>)
    requires
        b.len() > 0,
    ensures
        ({
            let e = base64_encoding(b);
            let b1: u8 = if b.len() > 1 { b[1] } else { 0 };
            let b2: u8 = if b.len() > 2 { b[2] } else { 0 };
            &&& e.len() >= 4
            &&& e[0] == b64_char((b[0] / 4) as int)
            &&& e[1] == b64_char((b[0] % 4) * 16 + b1 / 16)
            &&& e[2] == (if b.len() > 1 { b64_char((b[1] % 16) * 4 + b2 / 64) } else { '=' })
            &&& e[3] == (if b.len() > 2 { b64_char((b[2] % 64) as int) } else { '=' })
        }),
{
    lemma_encoding_len(b);
}

proof fn lemma_group(x0: u8, x1: u8, x2: u8, y0: u8, y1: u8, y2: u8)
    requires
        x0 / 4 == y0 / 4,
        (x0 % 4) * 16 + x1 / 16 == (y0 % 4) * 16 + y1 / 16,
        (x1 % 16) * 4 + x2 / 64 == (y1 % 16) * 4 + y2 / 64,
        x2 % 64 == y2 % 64,
    ensures
        x0 == y0 && x1 == y1 && x2 == y2,
{
    assert(x0 % 4 == y0 % 4 && x1 / 16 == y1 / 16) by (nonlinear_arith)
        requires
            (x0 % 4) * 16 + x1 / 16 == (y0 % 4) * 16 + y1 / 16,
            0 <= x1 / 16 < 16,
            0 <= y1 / 16 < 16,
    ;
    assert(x1 % 16 == y1 % 16 && x2 / 64 == y2 / 64) by (nonlinear_arith)
        requires
            (x1 % 16) * 4 + x2 / 64 == (y1 % 16) * 4 + y2 / 64,
            0 <= x2 / 64 < 4,
            0 <= y2 / 64 < 4,
    ;
}

/// Distinct byte strings have distinct base64 texts.
pub proof fn lemma_base64_injective(a: Seq<u8>, b: Seq<u8>)
    requires
        base64_encoding(a) == base64_encoding(b),
    ensures
        a == b,
    decreases a.len(),
{
    let e = base64_encoding(a);
    lemma_encoding_len(a);
    lemma_encoding_len(b);
    if a.len() == 0 || b.len() == 0 {
        assert(a.len() == 0 && b.len() == 0);
        assert(a =~= b);
    } else {
        // the first group: four characters from up to three bytes
        lemma_encoding_head(a);
        lemma_encoding_head(b);
        lemma_b64_char_injective((a[0] / 4) as int, (b[0] / 4) as int);
        assert(a[0] / 4 == b[0] / 4);
        let a1 = if a.len() > 1 { a[1] } else { 0u8 };
        let b1 = if b.len() > 1 { b[1] } else { 0u8 };
        let a2 = if a.len() > 2 { a[2] } else { 0u8 };
        let b2 = if b.len() > 2 { b[2] } else { 0u8 };
        lemma_b64_char_injective((a[0] % 4) * 16 + a1 / 16, (b[0] % 4) * 16 + b1 / 16);
        if a.len() == 1 || b.len() == 1 {
            if a.len() > 1 {
                lemma_b64_char_not_pad((a[1] % 16) * 4 + a2 / 64);
            }
            if b.len() > 1 {
                lemma_b64_char_not_pad((b[1] % 16) * 4 + b2 / 64);
            }
            assert(a.len() == 1 && b.len() == 1);
            assert(a[0] == b[0]) by (nonlinear_arith)
                requires
                    a[0] / 4 == b[0] / 4,
                    (a[0] % 4) * 16 == (b[0] % 4) * 16,
            ;
            assert(a =~= b);
        } else {
            lemma_b64_char_injective((a[1] % 16) * 4 + a2 / 64, (b[1] % 16) * 4 + b2 / 64);
            if a.len() == 2 || b.len() == 2 {
                if a.len() > 2 {
                    lemma_b64_char_not_pad((a[2] % 64) as int);
                }
                if b.len() > 2 {
                    lemma_b64_char_not_pad((b[2] % 64) as int);
                }
                assert(a.len() == 2 && b.len() == 2);
                lemma_group(a[0], a[1], 0, b[0], b[1], 0);
                assert(a =~= b);
            } else {
                lemma_b64_char_injective((a[2] % 64) as int, (b[2] % 64) as int);
                lemma_group(a[0], a[1], a[2], b[0], b[1], b[2]);
                let ra = a.subrange(3, a.len() as int);
                let rb = b.subrange(3, b.len() as int);
                assert(base64_encoding(ra) =~= e.subrange(4, e.len() as int));
                assert(base64_encoding(rb) =~= e.subrange(4, e.len() as int));
                lemma_base64_injective(ra, rb);
                assert(a =~= seq![a[0], a[1], a[2]] + ra);
                assert(b =~= seq![b[0], b[1], b[2]] + rb);
            }
        }
    }
}

/// Decoding the standard base64 of any bytes gives those bytes back.
pub proof fn lemma_base64_roundtrip(b: Seq<u8>)
    ensures
        base64_decoding(base64_encoding(b)) == Some(b),
{
    let t = base64_encoding(b);
    assert(exists|v: Seq<u8>| #[trigger] base64_encoding(v) == t);
    let v = choose|v: Seq<u8>| #[trigger] base64_encoding(v) == t;
    lemma_base64_injective(v, b);
}

/// Decodes standard base64 text (see [`base64_decoding`]).
pub fn decode_base64(text: &str) -> (r: Option<Vec<u8>>)
    ensures
        match base64_decoding(text@) {
            Some(v) => r matches Some(o) && o@ == v,
            None => r is None,
        },
{
    let r = base64_decode(text);
    proof {
        if r is Some {
            let v = choose|v: Seq<u8>| #[trigger] base64_encoding(v) == text@;
            lemma_base64_injective(v, r->Some_0@);
        }
    }
    r
}

} // verus!
