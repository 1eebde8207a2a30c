//! XML attribute values: entity unescaping, lookup by key, and integer
//! values as Rust's `str::parse` reads them.
use vstd::prelude::*;
use crate::text::{str_chars, push_all, string_from_chars};

verus! {

/// `s` with every occurrence of `pat` replaced by `rep`, scanning left to
/// right without overlaps (what `str::replace` does).
pub open spec fn replace_all(s: Seq<char>, pat: Seq<char>, rep: Seq<char>) -> Seq<char>
    decreases s.len(),
{
    if s.len() == 0 || pat.len() == 0 {
        s
    } else if s.len() >= pat.len() && s.subrange(0, pat.len() as int) == pat {
        rep + replace_all(s.subrange(pat.len() as int, s.len() as int), pat, rep)
    } else {
        seq![s[0]] + replace_all(s.subrange(1, s.len() as int), pat, rep)
    }
}

/// Whether `s` starts with the non-empty text `p`.
pub open spec fn starts_with(s: Seq<char>, p: Seq<char>) -> bool {
    p.len() > 0 && s.len() >= p.len() && s.subrange(0, p.len() as int) == p
}

/// The predefined entity at the start of `s`, if any: the character it
/// stands for and its length.
pub open spec fn entity_at(s: Seq<char>) -> Option<(char, nat)> {
    if starts_with(s, "&amp;"@) {
        Some(('&', "&amp;"@.len()))
    } else if starts_with(s, "&lt;"@) {
        Some(('<', "&lt;"@.len()))
    } else if starts_with(s, "&gt;"@) {
        Some(('>', "&gt;"@.len()))
    } else if starts_with(s, "&quot;"@) {
        Some(('"', "&quot;"@.len()))
    } else if starts_with(s, "&apos;"@) {
        Some(('\'', "&apos;"@.len()))
    } else {
        None
    }
}

/// An attribute value with each of the five predefined entities decoded
/// once, left to right; any other character, a lone `&` included, is kept.
pub open spec fn unescape_attr(s: Seq<char>) -> Seq<char>
    decreases s.len(),
{
    if s.len() == 0 {
        s
    } else {
        match entity_at(s) {
            Some((c, n)) => seq![c] + unescape_attr(s.subrange(n as int, s.len() as int)),
            None => seq![s[0]] + unescape_attr(s.subrange(1, s.len() as int)),
        }
    }
}

/// Whether `s` has `pat` at position `i`.
fn occurs_at(s: &[char], i: usize, pat: &[char]) -> (r: bool)
    requires
        i <= s.len(),
    ensures
        r == (s@.len() - i >= pat@.len() && s@.subrange(i as int, i + pat@.len()) == pat@),
{
    if s.len() - i < pat.len() {
        return false;
    }
    let mut k: usize = 0;
    while k < pat.len()
        invariant
            0 <= k <= pat.len(),
            i + pat.len() <= s.len(),
            forall|j: int| 0 <= j < k ==> s@[i + j] == pat@[j],
        decreases pat.len() - k,
    {
        if s[i + k] != pat[k] {
            assert(s@.subrange(i as int, i + pat@.len())[k as int] != pat@[k as int]);
            return false;
        }
        k = k + 1;
    }
    assert(s@.subrange(i as int, i + pat@.len()) =~= pat@);
    true
}

/// `s` with every occurrence of `pat` replaced by `rep` (see [`replace_all`]).
pub fn replace_chars(s: &[char], pat: &[char], rep: &[char]) -> (r: Vec<char>)
    ensures
        r@ == replace_all(s@, pat@, rep@),
{
    let mut out: Vec<char> = Vec::new();
    if pat.len() == 0 {
        push_all(&mut out, s);
        assert(out@ =~= s@);
        return out;
    }
    let mut i: usize = 0;
    assert(s@.subrange(0, s@.len() as int) =~= s@);
    while i < s.len()
        invariant
            0 <= i <= s.len(),
            pat@.len() > 0,
            replace_all(s@, pat@, rep@) == out@ + replace_all(s@.subrange(i as int, s@.len() as int), pat@, rep@),
        decreases s.len() - i,
    {
        let ghost rest = s@.subrange(i as int, s@.len() as int);
        if occurs_at(s, i, pat) {
            assert(rest.subrange(0, pat@.len() as int) =~= s@.subrange(i as int, i + pat@.len()));
            assert(rest.subrange(pat@.len() as int, rest.len() as int) =~= s@.subrange(i + pat@.len(), s@.len() as int));
            let ghost before = out@;
            push_all(&mut out, rep);
            assert(before + (rep@ + replace_all(s@.subrange(i + pat@.len(), s@.len() as int), pat@, rep@)) =~= out@
                + replace_all(s@.subrange(i + pat@.len(), s@.len() as int), pat@, rep@));
            i = i + pat.len();
        } else {
            proof {
                if rest.len() >= pat@.len() {
                    assert(rest.subrange(0, pat@.len() as int) =~= s@.subrange(i as int, i + pat@.len()));
                }
            }
            assert(rest.subrange(1, rest.len() as int) =~= s@.subrange(i + 1, s@.len() as int));
            let ghost before = out@;
            out.push(s[i]);
            assert(before + (seq![s@[i as int]] + replace_all(s@.subrange(i + 1, s@.len() as int), pat@, rep@)) =~= out@
                + replace_all(s@.subrange(i + 1, s@.len() as int), pat@, rep@));
            i = i + 1;
        }
    }
    assert(out@ + replace_all(s@.subrange(i as int, s@.len() as int), pat@, rep@) =~= out@);
    out
}

/// Unescapes the predefined XML entities of an attribute value (see
/// [`unescape_attr`]); a value without `&` comes back as it is.
pub fn unescape_xml_attr(s: &str) -> (r: String)
    ensures
        r@ == unescape_attr(s@),
{
    let cs = str_chars(s);
    let amp = str_chars("&amp;");
    let lt = str_chars("&lt;");
    let gt = str_chars("&gt;");
    let quot = str_chars("&quot;");
    let apos = str_chars("&apos;");
    let mut out: Vec<char> = Vec::new();
    let mut i: usize = 0;
    assert(cs@.subrange(0, cs@.len() as int) =~= cs@);
    while i < cs.len()
        invariant
            0 <= i <= cs.len(),
            cs@ == s@,
            amp@ == "&amp;"@,
            lt@ == "&lt;"@,
            gt@ == "&gt;"@,
            quot@ == "&quot;"@,
            apos@ == "&apos;"@,
            unescape_attr(s@) == out@ + unescape_attr(cs@.subrange(i as int, cs@.len() as int)),
        decreases cs.len() - i,
    {
        let ghost rest = cs@.subrange(i as int, cs@.len() as int);
        let mut hit: Option<(char, usize)> = None;
        if cs[i] == '&' {
            if amp.len() > 0 && occurs_at(cs.as_slice(), i, amp.as_slice()) {
                hit = Some(('&', amp.len()));
            } else if lt.len() > 0 && occurs_at(cs.as_slice(), i, lt.as_slice()) {
                hit = Some(('<', lt.len()));
            } else if gt.len() > 0 && occurs_at(cs.as_slice(), i, gt.as_slice()) {
                hit = Some(('>', gt.len()));
            } else if quot.len() > 0 && occurs_at(cs.as_slice(), i, quot.as_slice()) {
                hit = Some(('"', quot.len()));
            } else if apos.len() > 0 && occurs_at(cs.as_slice(), i, apos.as_slice()) {
                hit = Some(('\'', apos.len()));
            }
            proof {
                assert forall|p: Seq<char>| p.len() > 0 && rest.len() >= p.len() implies rest.subrange(0, p.len() as int)
                    == cs@.subrange(i as int, i + p.len()) by {
                    assert(rest.subrange(0, p.len() as int) =~= cs@.subrange(i as int, i + p.len()));
                }
            }
        } else {
            proof {
                reveal_strlit("&amp;");
                reveal_strlit("&lt;");
                reveal_strlit("&gt;");
                reveal_strlit("&quot;");
                reveal_strlit("&apos;");
                assert(rest[0] != '&');
                assert forall|p: Seq<char>| p.len() > 0 && p[0] == '&' implies !starts_with(rest, p) by {
                    if starts_with(rest, p) {
                        assert(rest.subrange(0, p.len() as int)[0] == rest[0]);
                    }
                }
                assert("&amp;"@[0] == '&');
                assert("&lt;"@[0] == '&');
                assert("&gt;"@[0] == '&');
                assert("&quot;"@[0] == '&');
                assert("&apos;"@[0] == '&');
            }
        }
        match hit {
            Some((c, n)) => {
                assert(entity_at(rest) == Some((c, n as nat)));
                out.push(c);
                assert(rest.subrange(n as int, rest.len() as int) =~= cs@.subrange(i + n, cs@.len() as int));
                i = i + n;
            },
            None => {
                assert(entity_at(rest) is None);
                out.push(cs[i]);
                assert(rest.subrange(1, rest.len() as int) =~= cs@.subrange(i + 1, cs@.len() as int));
                i = i + 1;
            },
        }
    }
    assert(out@ + unescape_attr(cs@.subrange(i as int, cs@.len() as int)) =~= out@);
    string_from_chars(out.as_slice())
}

pub open spec fn is_digit(c: char) -> bool {
    '0' <= c && c <= '9'
}

/// The decimal value of a string of digits.
pub open spec fn digits_value(s: Seq<char>) -> int
    decreases s.len(),
{
    if s.len() == 0 {
        0
    } else {
        digits_value(s.drop_last()) * 10 + (s.last() as int - '0' as int)
    }
}

/// What Rust's `str::parse` gives for an integer type ranging over
/// `min..=max`: an optional `+` (or `-`, for a signed type), then at least
/// one decimal digit and nothing else, with the value in range.
pub open spec fn parse_int(s: Seq<char>, min: int, max: int) -> Option<int> {
    if s.len() == 0 {
        None
    } else {
        let neg = s[0] == '-' && min < 0;
        let digits = if s[0] == '+' || neg {
            s.subrange(1, s.len() as int)
        } else {
            s
        };
        if digits.len() == 0 || !all_digits(digits) {
            None
        } else {
            let v = if neg {
                -digits_value(digits)
            } else {
                digits_value(digits)
            };
            if min <= v && v <= max {
                Some(v)
            } else {
                None
            }
        }
    }
}

proof fn lemma_digits_grow(s: Seq<char>, i: int)
    requires
        0 <= i <= s.len(),
        forall|k: int| 0 <= k < s.len() ==> is_digit(#[trigger] s[k]),
    ensures
        digits_value(s.subrange(0, i)) <= digits_value(s),
        0 <= digits_value(s.subrange(0, i)),
    decreases s.len() - i,
{
    if i < s.len() {
        lemma_digits_grow(s, i + 1);
        assert(s.subrange(0, i + 1).drop_last() =~= s.subrange(0, i));
        assert(s.subrange(0, i + 1).last() == s[i]);
    } else {
        assert(s.subrange(0, i) =~= s);
    }
    lemma_digits_nonneg(s.subrange(0, i));
}

proof fn lemma_digits_nonneg(s: Seq<char>)
    requires
        forall|k: int| 0 <= k < s.len() ==> is_digit(#[trigger] s[k]),
    ensures
        0 <= digits_value(s),
    decreases s.len(),
{
    if s.len() > 0 {
        lemma_digits_nonneg(s.drop_last());
    }
}

pub open spec fn all_digits(s: Seq<char>) -> bool {
    forall|i: int| 0 <= i < s.len() ==> is_digit(#[trigger] s[i])
}

/// The value of the digits of `s` from `start` on, when they are all digits
/// and the value is at most `limit`.
fn digits_at_most(s: &[char], start: usize, limit: u128) -> (r: Option<u128>)
    requires
        start <= s.len(),
        limit <= 0x8000_0000_0000_0000,
    ensures
        ({
            let t = s@.subrange(start as int, s@.len() as int);
            match r {
                Some(v) => all_digits(t) && v == digits_value(t) && v <= limit,
                None => !all_digits(t) || digits_value(t) > limit,
            }
        }),
{
    let ghost t = s@.subrange(start as int, s@.len() as int);
    let mut v: u128 = 0;
    let mut i: usize = start;
    assert(s@.subrange(start as int, start as int) =~= Seq::<char>::empty());
    while i < s.len()
        invariant
            start <= i <= s.len(),
            t == s@.subrange(start as int, s@.len() as int),
            limit <= 0x8000_0000_0000_0000,
            v <= limit,
            forall|k: int| start <= k < i ==> is_digit(#[trigger] s@[k]),
            v == digits_value(s@.subrange(start as int, i as int)),
        decreases s.len() - i,
    {
        let c = s[i];
        if !('0' <= c && c <= '9') {
            assert(!is_digit(t[i - start]));
            return None;
        }
        let d = (c as u32 - '0' as u32) as u128;
        assert(s@.subrange(start as int, i + 1).drop_last() =~= s@.subrange(start as int, i as int));
        v = v * 10 + d;
        i = i + 1;
        if v > limit {
            proof {
                if all_digits(t) {
                    lemma_digits_grow(t, i - start);
                    assert(t.subrange(0, i - start) =~= s@.subrange(start as int, i as int));
                }
            }
            return None;
        }
    }
    assert(s@.subrange(start as int, i as int) =~= t);
    Some(v)
}

/// An integer value in `min..=max` as Rust's `str::parse` reads it (see
/// [`parse_int`]).
fn parse_int_text(s: &[char], min: i64, max: i64) -> (r: Option<i64>)
    requires
        min <= 0 < max,
    ensures
        match parse_int(s@, min as int, max as int) {
            Some(v) => r == Some(v as i64),
            None => r is None,
        },
{
    if s.len() == 0 {
        return None;
    }
    let neg = s[0] == '-' && min < 0;
    let start: usize = if s[0] == '+' || neg { 1 } else { 0 };
    let ghost digits = if s@[0] == '+' || neg { s@.subrange(1, s@.len() as int) } else { s@ };
    assert(digits =~= s@.subrange(start as int, s@.len() as int));
    if start == s.len() {
        return None;
    }
    let limit: u128 = if neg { (0 - (min as i128)) as u128 } else { max as u128 };
    match digits_at_most(s, start, limit) {
        None => None,
        Some(v) => {
            if neg {
                Some((0 - (v as i128)) as i64)
            } else {
                Some(v as i64)
            }
        },
    }
}

/// Rust's `str::parse::<i16>`.
pub fn parse_i16(s: &str) -> (r: Option<i16>)
    ensures
        match parse_int(s@, i16::MIN as int, i16::MAX as int) {
            Some(v) => r == Some(v as i16),
            None => r is None,
        },
{
    match parse_int_text(str_chars(s).as_slice(), i16::MIN as i64, i16::MAX as i64) {
        Some(v) => Some(v as i16),
        None => None,
    }
}

/// Rust's `str::parse::<i32>`.
pub fn parse_i32(s: &str) -> (r: Option<i32>)
    ensures
        match parse_int(s@, i32::MIN as int, i32::MAX as int) {
            Some(v) => r == Some(v as i32),
            None => r is None,
        },
{
    match parse_int_text(str_chars(s).as_slice(), i32::MIN as i64, i32::MAX as i64) {
        Some(v) => Some(v as i32),
        None => None,
    }
}

/// Rust's `str::parse::<i64>`.
pub fn parse_i64(s: &str) -> (r: Option<i64>)
    ensures
        match parse_int(s@, i64::MIN as int, i64::MAX as int) {
            Some(v) => r == Some(v as i64),
            None => r is None,
        },
{
    parse_int_text(str_chars(s).as_slice(), i64::MIN, i64::MAX)
}

/// Rust's `str::parse::<u8>`.
pub fn parse_u8(s: &str) -> (r: Option<u8>)
    ensures
        match parse_int(s@, 0, u8::MAX as int) {
            Some(v) => r == Some(v as u8),
            None => r is None,
        },
{
    match parse_int_text(str_chars(s).as_slice(), 0, u8::MAX as i64) {
        Some(v) => Some(v as u8),
        None => None,
    }
}

/// Rust's `str::parse::<u32>`.
pub fn parse_u32(s: &str) -> (r: Option<u32>)
    ensures
        match parse_int(s@, 0, u32::MAX as int) {
            Some(v) => r == Some(v as u32),
            None => r is None,
        },
{
    match parse_int_text(str_chars(s).as_slice(), 0, u32::MAX as i64) {
        Some(v) => Some(v as u32),
        None => None,
    }
}

} // verus!
