//! Building a property from a scripting-language value, with or without a
//! type hint.
use vstd::prelude::*;
use crate::property::{WzProperty, PropV};
use crate::text::{decimal, decimal_i64, str_chars, push_all, string_from_chars};

verus! {

/// What std's `str::to_lowercase` gives (Unicode lower case).
pub uninterp spec fn unicode_lowercase(s: Seq<char>) -> Seq<char>;

/// std's `str::to_lowercase`; the result is named.
#[verifier::external_body]
pub(crate) fn lowercase(s: &str) -> (r: String)
    ensures
        r@ == unicode_lowercase(s@),
{
    s.to_lowercase()
}

/// A scripting-language value, read each way a property may need it.
pub struct ScriptValue {
    /// The value as an integer, if it is one.
    pub as_i64: Option<i64>,
    /// The value as a float, narrowed to `f32`, as `f32::to_bits`.
    pub as_f32_bits: Option<u32>,
    /// The value as a float, as `f64::to_bits`.
    pub as_f64_bits: Option<u64>,
    /// The value as a string, if it is one.
    pub as_string: Option<String>,
    /// The value as bytes, if it is such.
    pub as_bytes: Option<Vec<u8>>,
    /// The decimal text of an integer outside the `i64` range, if the value
    /// is one.
    pub oversized_int: Option<String>,
}

pub open spec fn out_of_range(v: i64, kind: Seq<char>) -> Seq<char> {
    out_of_range_text(decimal(v as int), kind)
}

/// The message for an integer (given by its decimal text) that does not
/// fit a property type.
pub open spec fn out_of_range_text(v: Seq<char>, kind: Seq<char>) -> Seq<char> {
    "value "@ + v + " out of range for "@ + kind
}

/// The property a value makes under a type hint (case-insensitive), or the
/// message of why it cannot.
pub open spec fn typed_outcome(hint: Seq<char>, v: ScriptValue) -> Result<PropV, Seq<char>> {
    let h = unicode_lowercase(hint);
    if h == "short"@ {
        match v.as_i64 {
            None => Err("'short' requires an int value"@),
            Some(x) => if i16::MIN <= x <= i16::MAX {
                Ok(PropV::Short(x as i16))
            } else {
                Err(out_of_range(x, "Short (-32768..=32767)"@))
            },
        }
    } else if h == "int"@ {
        match v.as_i64 {
            None => Err("'int' requires an int value"@),
            Some(x) => if i32::MIN <= x <= i32::MAX {
                Ok(PropV::Int(x as i32))
            } else {
                Err(out_of_range(x, "Int (-2147483648..=2147483647)"@))
            },
        }
    } else if h == "long"@ {
        match v.as_i64 {
            None => Err("'long' requires an int value"@),
            Some(x) => Ok(PropV::Long(x)),
        }
    } else if h == "float"@ {
        match v.as_f32_bits {
            None => Err("'float' requires a float value"@),
            Some(b) => Ok(PropV::Float(b)),
        }
    } else if h == "double"@ {
        match v.as_f64_bits {
            None => Err("'double' requires a float value"@),
            Some(b) => Ok(PropV::Double(b)),
        }
    } else if h == "string"@ || h == "str"@ {
        match v.as_string {
            None => Err("'string' requires a str value"@),
            Some(s) => Ok(PropV::String(s@)),
        }
    } else if h == "uol"@ {
        match v.as_string {
            None => Err("'uol' requires a str value"@),
            Some(s) => Ok(PropV::Uol(s@)),
        }
    } else if h == "lua"@ || h == "bytes"@ {
        match v.as_bytes {
            None => Err("'lua' requires a bytes value"@),
            Some(b) => Ok(PropV::Lua(b@)),
        }
    } else {
        Err("Unknown type hint '"@ + h + "'. Use: short, int, long, float, double, string, uol, lua"@)
    }
}

fn text_is(s: &str, lit: &str) -> (r: bool)
    ensures
        r == (s@ == lit@),
{
    crate::text::chars_eq(str_chars(s).as_slice(), str_chars(lit).as_slice())
}

pub(crate) fn range_error(v: i64, kind: &str) -> (r: String)
    ensures
        r@ == out_of_range(v, kind@),
{
    let mut m = str_chars("value ");
    push_all(&mut m, decimal_i64(v).as_slice());
    push_all(&mut m, str_chars(" out of range for ").as_slice());
    push_all(&mut m, str_chars(kind).as_slice());
    string_from_chars(m.as_slice())
}

pub(crate) fn message(s: &str) -> (r: String)
    ensures
        r@ == s@,
{
    string_from_chars(str_chars(s).as_slice())
}

/// The property `value` makes under `type_hint` (see [`typed_outcome`]).
pub fn typed_property(type_hint: &str, value: ScriptValue) -> (r: Result<WzProperty, String>)
    ensures
        match typed_outcome(type_hint@, value) {
            Ok(p) => r matches Ok(q) && q.model() == p,
            Err(m) => r matches Err(e) && e@ == m,
        },
{
    let h = lowercase(type_hint);
    let hs = h.as_str();
    if text_is(hs, "short") {
        match value.as_i64 {
            None => Err(message("'short' requires an int value")),
            Some(x) => if -32768 <= x && x <= 32767 {
                Ok(WzProperty::Short(x as i16))
            } else {
                Err(range_error(x, "Short (-32768..=32767)"))
            },
        }
    } else if text_is(hs, "int") {
        match value.as_i64 {
            None => Err(message("'int' requires an int value")),
            Some(x) => if -2147483648 <= x && x <= 2147483647 {
                Ok(WzProperty::Int(x as i32))
            } else {
                Err(range_error(x, "Int (-2147483648..=2147483647)"))
            },
        }
    } else if text_is(hs, "long") {
        match value.as_i64 {
            None => Err(message("'long' requires an int value")),
            Some(x) => Ok(WzProperty::Long(x)),
        }
    } else if text_is(hs, "float") {
        match value.as_f32_bits {
            None => Err(message("'float' requires a float value")),
            Some(b) => Ok(WzProperty::Float(b)),
        }
    } else if text_is(hs, "double") {
        match value.as_f64_bits {
            None => Err(message("'double' requires a float value")),
            Some(b) => Ok(WzProperty::Double(b)),
        }
    } else if text_is(hs, "string") || text_is(hs, "str") {
        match value.as_string {
            None => Err(message("'string' requires a str value")),
            Some(s) => Ok(WzProperty::String(s)),
        }
    } else if text_is(hs, "uol") {
        match value.as_string {
            None => Err(message("'uol' requires a str value")),
            Some(s) => Ok(WzProperty::Uol(s)),
        }
    } else if text_is(hs, "lua") || text_is(hs, "bytes") {
        match value.as_bytes {
            None => Err(message("'lua' requires a bytes value")),
            Some(b) => Ok(WzProperty::Lua(b)),
        }
    } else {
        let mut m = str_chars("Unknown type hint '");
        push_all(&mut m, str_chars(hs).as_slice());
        push_all(&mut m, str_chars("'. Use: short, int, long, float, double, string, uol, lua").as_slice());
        Err(string_from_chars(m.as_slice()))
    }
}

/// The property a value makes without a type hint: an integer as an int
/// (in range), else a float, a string or bytes (as Lua).
pub open spec fn untyped_outcome(v: ScriptValue) -> Result<PropV, Seq<char>> {
    match v.as_i64 {
        Some(x) => if i32::MIN <= x <= i32::MAX {
            Ok(PropV::Int(x as i32))
        } else {
            Err(out_of_range(x, "Int. Use add_typed() with \"long\" for large integers."@))
        },
        None => match v.as_f32_bits {
            Some(b) => Ok(PropV::Float(b)),
            None => match v.as_string {
                Some(s) => Ok(PropV::String(s@)),
                None => match v.as_bytes {
                    Some(b) => Ok(PropV::Lua(b@)),
                    None => Err("value must be int, float, str, or bytes"@),
                },
            },
        },
    }
}

/// The property `value` makes without a type hint (see
/// [`untyped_outcome`]).
pub fn untyped_property(value: ScriptValue) -> (r: Result<WzProperty, String>)
    ensures
        match untyped_outcome(value) {
            Ok(p) => r matches Ok(q) && q.model() == p,
            Err(m) => r matches Err(e) && e@ == m,
        },
{
    match value.as_i64 {
        Some(x) => if -2147483648 <= x && x <= 2147483647 {
            Ok(WzProperty::Int(x as i32))
        } else {
            Err(range_error(x, "Int. Use add_typed() with \"long\" for large integers."))
        },
        None => match value.as_f32_bits {
            Some(b) => Ok(WzProperty::Float(b)),
            None => match value.as_string {
                Some(s) => Ok(WzProperty::String(s)),
                None => match value.as_bytes {
                    Some(b) => Ok(WzProperty::Lua(b)),
                    None => Err(message("value must be int, float, str, or bytes")),
                },
            },
        },
    }
}

} // verus!
