//! The fixed type names and messages of the format, as character vectors.
use vstd::prelude::*;
use crate::grammar::{chars_property, chars_canvas, chars_vector, chars_convex, chars_sound, chars_uol, chars_raw_data, chars_video, chars_script, msg_property_count, msg_convex_count, msg_ext_type_byte, msg_uol_type, msg_png_length, msg_empty_path};

verus! {

/// `"Property"`.
pub fn name_property() -> (v: Vec<char>)
    ensures
        v@ == chars_property(),
{
    let v = vec!['P', 'r', 'o', 'p', 'e', 'r', 't', 'y'];
    assert(v@ =~= chars_property());
    v
}

/// `"Canvas"`.
pub fn name_canvas() -> (v: Vec<char>)
    ensures
        v@ == chars_canvas(),
{
    let v = vec!['C', 'a', 'n', 'v', 'a', 's'];
    assert(v@ =~= chars_canvas());
    v
}

/// `"Shape2D#Vector2D"`.
pub fn name_vector() -> (v: Vec<char>)
    ensures
        v@ == chars_vector(),
{
    let v = vec!['S', 'h', 'a', 'p', 'e', '2', 'D', '#', 'V', 'e', 'c', 't', 'o', 'r', '2', 'D'];
    assert(v@ =~= chars_vector());
    v
}

/// `"Shape2D#Convex2D"`.
pub fn name_convex() -> (v: Vec<char>)
    ensures
        v@ == chars_convex(),
{
    let v = vec!['S', 'h', 'a', 'p', 'e', '2', 'D', '#', 'C', 'o', 'n', 'v', 'e', 'x', '2', 'D'];
    assert(v@ =~= chars_convex());
    v
}

/// `"Sound_DX8"`.
pub fn name_sound() -> (v: Vec<char>)
    ensures
        v@ == chars_sound(),
{
    let v = vec!['S', 'o', 'u', 'n', 'd', '_', 'D', 'X', '8'];
    assert(v@ =~= chars_sound());
    v
}

/// `"UOL"`.
pub fn name_uol() -> (v: Vec<char>)
    ensures
        v@ == chars_uol(),
{
    let v = vec!['U', 'O', 'L'];
    assert(v@ =~= chars_uol());
    v
}

/// `"RawData"`.
pub fn name_raw_data() -> (v: Vec<char>)
    ensures
        v@ == chars_raw_data(),
{
    let v = vec!['R', 'a', 'w', 'D', 'a', 't', 'a'];
    assert(v@ =~= chars_raw_data());
    v
}

/// `"Canvas#Video"`.
pub fn name_video() -> (v: Vec<char>)
    ensures
        v@ == chars_video(),
{
    let v = vec!['C', 'a', 'n', 'v', 'a', 's', '#', 'V', 'i', 'd', 'e', 'o'];
    assert(v@ =~= chars_video());
    v
}

/// `"Script"`.
pub fn name_script() -> (v: Vec<char>)
    ensures
        v@ == chars_script(),
{
    let v = vec!['S', 'c', 'r', 'i', 'p', 't'];
    assert(v@ =~= chars_script());
    v
}

/// `"Invalid property count: "`.
pub fn msg_property_count_chars() -> (v: Vec<char>)
    ensures
        v@ == msg_property_count(),
{
    let v = vec!['I', 'n', 'v', 'a', 'l', 'i', 'd', ' ', 'p', 'r', 'o', 'p', 'e', 'r', 't', 'y', ' ', 'c', 'o', 'u', 'n', 't', ':', ' '];
    assert(v@ =~= msg_property_count());
    v
}

/// `"Invalid convex point count: "`.
pub fn msg_convex_count_chars() -> (v: Vec<char>)
    ensures
        v@ == msg_convex_count(),
{
    let v = vec!['I', 'n', 'v', 'a', 'l', 'i', 'd', ' ', 'c', 'o', 'n', 'v', 'e', 'x', ' ', 'p', 'o', 'i', 'n', 't', ' ', 'c', 'o', 'u', 'n', 't', ':', ' '];
    assert(v@ =~= msg_convex_count());
    v
}

/// `"Invalid extended prop type byte: "`.
pub fn msg_ext_type_byte_chars() -> (v: Vec<char>)
    ensures
        v@ == msg_ext_type_byte(),
{
    let v = vec!['I', 'n', 'v', 'a', 'l', 'i', 'd', ' ', 'e', 'x', 't', 'e', 'n', 'd', 'e', 'd', ' ', 'p', 'r', 'o', 'p', ' ', 't', 'y', 'p', 'e', ' ', 'b', 'y', 't', 'e', ':', ' '];
    assert(v@ =~= msg_ext_type_byte());
    v
}

/// `"Unsupported UOL type: "`.
pub fn msg_uol_type_chars() -> (v: Vec<char>)
    ensures
        v@ == msg_uol_type(),
{
    let v = vec!['U', 'n', 's', 'u', 'p', 'p', 'o', 'r', 't', 'e', 'd', ' ', 'U', 'O', 'L', ' ', 't', 'y', 'p', 'e', ':', ' '];
    assert(v@ =~= msg_uol_type());
    v
}

/// `"Invalid PNG data length: "`.
pub fn msg_png_length_chars() -> (v: Vec<char>)
    ensures
        v@ == msg_png_length(),
{
    let v = vec!['I', 'n', 'v', 'a', 'l', 'i', 'd', ' ', 'P', 'N', 'G', ' ', 'd', 'a', 't', 'a', ' ', 'l', 'e', 'n', 'g', 't', 'h', ':', ' '];
    assert(v@ =~= msg_png_length());
    v
}

/// `"parse_image_path: empty path"`.
pub fn msg_empty_path_chars() -> (v: Vec<char>)
    ensures
        v@ == msg_empty_path(),
{
    let v = vec!['p', 'a', 'r', 's', 'e', '_', 'i', 'm', 'a', 'g', 'e', '_', 'p', 'a', 't', 'h', ':', ' ', 'e', 'm', 'p', 't', 'y', ' ', 'p', 'a', 't', 'h'];
    assert(v@ =~= msg_empty_path());
    v
}

} // verus!
