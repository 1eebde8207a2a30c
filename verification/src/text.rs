//! Character-level helpers: building and comparing strings, and formatting
//! integers the way `to_string` and `{:02X}` do.
use vstd::prelude::*;

verus! {

/// A `String` with exactly the given characters (std's `FromIterator<char>`).
#[verifier::external_body]
pub(crate) fn string_from_chars(cs: &[char]) -> (s: String)
    ensures
        s@ == cs@,
{
    cs.iter().collect()
}

/// The characters of a string slice, in order.
pub fn str_chars(s: &str) -> (cs: Vec<char>)
    ensures
        cs@ == s@,
{
    broadcast use vstd::string::axiom_spec_iter;
    let mut cs: Vec<char> = Vec::new();
    for c in it: s.chars()
        invariant
            it.seq() == s@,
            cs@ == s@.subrange(0, it.index() as int),
    {
        cs.push(c);
    }
    assert(cs@ =~= s@);
    cs
}

/// The Unicode scalar value `v` as a `char`, if it is one (std's `char::from_u32`).
#[verifier::external_body]
pub(crate) fn char_from_u32(v: u32) -> (c: Option<char>)
    ensures
        c == (if v < 0xD800 || (0xE000 <= v && v <= 0x10FFFF) {
            Some(v as char)
        } else {
            None
        }),
{
    char::from_u32(v)
}

/// Whether two character sequences are equal.
pub fn chars_eq(a: &[char], b: &[char]) -> (r: bool)
    ensures
        r == (a@ == b@),
{
    if a.len() != b.len() {
        return false;
    }
    let mut i = 0usize;
    while i < a.len()
        invariant
            0 <= i <= a.len(),
            a.len() == b.len(),
            forall|j: int| 0 <= j < i ==> a@[j] == b@[j],
        decreases a.len() - i,
    {
        if a[i] != b[i] {
            return false;
        }
        i = i + 1;
    }
    assert(a@ =~= b@);
    true
}

/// Appends all elements of `src` to `dst`.
pub fn push_all<T: Copy>(dst: &mut Vec<T>, src: &[T])
    ensures
        final(dst)@ == old(dst)@ + src@,
{
    let mut i = 0usize;
    while i < src.len()
        invariant
            0 <= i <= src.len(),
            dst@ == old(dst)@ + src@.subrange(0, i as int),
        decreases src.len() - i,
    {
        dst.push(src[i]);
        i = i + 1;
        assert(dst@ =~= old(dst)@ + src@.subrange(0, i as int));
    }
    assert(src@.subrange(0, src.len() as int) =~= src@);
}

/// The decimal digit character for `d` (0–9).
pub open spec fn digit_char(d: int) -> char {
    (('0' as int) + d) as char
}

/// Decimal representation of a natural number, most significant digit first.
pub open spec fn decimal_nat(n: nat) -> Seq<char>
    decreases n,
{
    if n < 10 {
        seq![digit_char(n as int)]
    } else {
        decimal_nat(n / 10).push(digit_char((n % 10) as int))
    }
}

/// Decimal representation of an integer, with a leading `-` when negative
/// (what `to_string` gives for Rust's integer types).
pub open spec fn decimal(v: int) -> Seq<char> {
    if v < 0 {
        seq!['-'] + decimal_nat((-v) as nat)
    } else {
        decimal_nat(v as nat)
    }
}

fn digit(d: u8) -> (c: char)
    requires
        d < 10,
    ensures
        c == digit_char(d as int),
{
    let c = (48u8 + d) as char;
    assert(('0' as int) == 48);
    c
}

/// Decimal digits of `n`.
pub fn decimal_u64(n: u64) -> (cs: Vec<char>)
    ensures
        cs@ == decimal_nat(n as nat),
    decreases n,
{
    if n < 10 {
        let mut v: Vec<char> = Vec::new();
        v.push(digit(n as u8));
        assert(v@ =~= decimal_nat(n as nat));
        v
    } else {
        let mut v = decimal_u64(n / 10);
        v.push(digit((n % 10) as u8));
        v
    }
}

/// Decimal representation of `v` (what `v.to_string()` gives).
pub fn decimal_i64(v: i64) -> (cs: Vec<char>)
    ensures
        cs@ == decimal(v as int),
{
    if v < 0 {
        let mag: u64 = if v == i64::MIN {
            9223372036854775808u64
        } else {
            (-v) as u64
        };
        let digits = decimal_u64(mag);
        let mut out: Vec<char> = Vec::new();
        out.push('-');
        push_all(&mut out, digits.as_slice());
        assert(out@ =~= seq!['-'] + decimal_nat((-v) as nat));
        out
    } else {
        decimal_u64(v as u64)
    }
}

/// The upper-case hexadecimal digit for `d` (0–15).
pub open spec fn hex_char(d: int) -> char {
    if d < 10 {
        digit_char(d)
    } else {
        (('A' as int) + d - 10) as char
    }
}

/// `0x` and two upper-case hex digits (what `format!("0x{:02X}", b)` gives).
pub open spec fn hex_byte(b: u8) -> Seq<char> {
    seq!['0', 'x', hex_char((b / 16) as int), hex_char((b % 16) as int)]
}

fn hex_digit(d: u8) -> (c: char)
    requires
        d < 16,
    ensures
        c == hex_char(d as int),
{
    assert(('0' as int) == 48 && ('A' as int) == 65);
    if d < 10 {
        (48u8 + d) as char
    } else {
        (55u8 + d) as char
    }
}

/// `0x` followed by the byte in two upper-case hex digits.
pub fn format_hex_byte(b: u8) -> (cs: Vec<char>)
    ensures
        cs@ == hex_byte(b),
{
    let mut v: Vec<char> = Vec::new();
    v.push('0');
    v.push('x');
    v.push(hex_digit(b / 16));
    v.push(hex_digit(b % 16));
    assert(v@ =~= hex_byte(b));
    v
}

} // verus!
