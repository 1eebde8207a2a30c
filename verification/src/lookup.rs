//! Looking a path up in a parsed property tree, and how a path parse relates
//! to a full parse of the same data.
use vstd::prelude::*;
use crate::error::ErrV;
use crate::property::{PropV, PropList};
use crate::reader::{rd_u8, rd_u16, rd_u32, rd_i32, rd_cint, rd_string_block, rd_wz_string, rel_target};
use crate::grammar::{
    Ctx, fuel, forward, sp_value, sp_simple_value, sp_extended, sp_entries, sp_list, sp_skip, sp_sub,
    sp_canvas, sp_canvas_tail, sp_vector, sp_convex, sp_sound, sp_uol, sp_raw_data, sp_video,
    sp_path_entries, sp_path_list, sp_descend, ext_type_name, chars_property, chars_canvas, chars_vector,
    chars_convex, chars_sound, chars_uol, chars_raw_data, chars_video, MAX_PROPERTY_COUNT,
    lemma_block_advances, lemma_value_advances, lemma_type_name_advances, sp_image, sp_image_path,
    sp_fallback, sp_path_fallback, tag_with_iv, TagLoc, known_ivs,
};

verus! {

/// The property at `path` of a property list: the first entry named
/// `path[0]`, then (for a longer path) the same in its children, which only a
/// `"Property"` container has.
pub open spec fn lookup(props: PropList, path: Seq<Seq<char>>) -> Option<PropV>
    decreases path.len(), props.len(),
{
    if path.len() == 0 || props.len() == 0 {
        None
    } else if props[0].0 == path[0] {
        if path.len() == 1 {
            Some(props[0].1)
        } else {
            match props[0].1 {
                PropV::SubProperty(children) => lookup(children, path.subrange(1, path.len() as int)),
                _ => None,
            }
        }
    } else {
        lookup(props.subrange(1, props.len() as int), path)
    }
}

/// Whether, following `path` through `n` more entries at `p`, the first entry
/// named by a component is a float with an unknown indicator byte. Such an
/// entry is left out of a full parse, so a later sibling of the same name
/// takes its place there; a path parse stops at it.
pub open spec fn sp_dropped_entries(c: Ctx, p: int, n: int, path: Seq<Seq<char>>) -> bool
    decreases fuel(c.d, p), 0int, n,
{
    if n <= 0 || path.len() == 0 {
        false
    } else {
        proof {
            lemma_block_advances(c.d, c.iv, c.off, p);
        }
        match rd_string_block(c.d, c.iv, c.off, p) {
            None => false,
            Some((name, q)) => if name == path[0] {
                match sp_value(c, q) {
                    Ok((None, _)) => true,
                    _ => path.len() > 1 && sp_dropped_descend(c, q, path.subrange(1, path.len() as int)),
                }
            } else {
                match sp_skip(c, q) {
                    Err(_) => false,
                    Ok(q2) => sp_dropped_entries(c, forward(p, q2), n - 1, path),
                }
            },
        }
    }
}

/// [`sp_dropped_entries`] for the property list at `p`.
pub open spec fn sp_dropped_list(c: Ctx, p: int, path: Seq<Seq<char>>) -> bool
    decreases fuel(c.d, p), 1int, 0int,
{
    match rd_cint(c.d, p) {
        None => false,
        Some((n, q)) => if n < 0 || n > MAX_PROPERTY_COUNT {
            false
        } else {
            sp_dropped_entries(c, q, n as int, path)
        },
    }
}

/// [`sp_dropped_entries`] inside the `"Property"` container at `p`.
pub open spec fn sp_dropped_descend(c: Ctx, p: int, rest: Seq<Seq<char>>) -> bool
    decreases fuel(c.d, p), 2int, 0int,
{
    match rd_u8(c.d, p) {
        None => false,
        Some((b, q)) => if b != 0x09 {
            false
        } else {
            match rd_u32(c.d, q) {
                None => false,
                Some((_, q2)) => match ext_type_name(c, q2) {
                    Some(Ok((name, q3))) if name == chars_property() => {
                        proof {
                            lemma_type_name_advances(c, q2);
                        }
                        match rd_u16(c.d, q3) {
                            None => false,
                            Some((_, q4)) => sp_dropped_list(c, q4, rest),
                        }
                    },
                    _ => false,
                },
            }
        },
    }
}

/// Skipping a value moves the cursor as parsing it does: a skip ends where
/// a successful parse of the same value ends.
pub proof fn lemma_skip_matches_value(c: Ctx, p: int)
    ensures
        sp_value(c, p) matches Ok((_, q)) ==> sp_skip(c, p) == Ok::<int, ErrV>(q),
{
    reveal(sp_simple_value);
}

/// Whether `r` is a successfully parsed `SubProperty`.
pub open spec fn is_sub(r: crate::grammar::PRes<PropV>) -> bool {
    r matches Ok((PropV::SubProperty(_), _))
}

/// Whether the type name at `p` reads, and is not `"Property"`.
pub open spec fn other_type_name(c: Ctx, p: int) -> bool {
    match ext_type_name(c, p) {
        Some(Ok((name, _))) => name != chars_property(),
        _ => false,
    }
}

/// Only an extended `"Property"` container parses to a `SubProperty`.
proof fn lemma_extended_sub(c: Ctx, p: int)
    ensures
        other_type_name(c, p) ==> !is_sub(sp_extended(c, p)),
{
    reveal(sp_canvas_tail);
    reveal(sp_vector);
    reveal(sp_sound);
    reveal(sp_uol);
    if let Some(Ok((name, q))) = ext_type_name(c, p) {
        if name == chars_canvas() {
            if let Some((_, q1)) = rd_u8(c.d, q) {
                if let Some((has, q2)) = rd_u8(c.d, q1) {
                    if let Ok((props, q3)) = crate::grammar::sp_optional_list(c, q2, has) {
                        assert(!is_sub(sp_canvas_tail(c, q3, props)));
                    }
                }
            }
        }
    }
}

/// Parsing a list at `p` then looking `path` up in it gives what searching
/// the list for `path` gives, unless a component's first match is a dropped
/// float (then the search yields nothing).
proof fn lemma_list_lookup(c: Ctx, p: int, path: Seq<Seq<char>>)
    requires
        path.len() > 0,
        sp_list(c, p) is Ok,
    ensures
        sp_path_list(c, p, path) == Ok::<Option<PropV>, ErrV>(
            if sp_dropped_list(c, p, path) { None } else { lookup(sp_list(c, p)->Ok_0.0, path) },
        ),
    decreases fuel(c.d, p), 1int, 0int,
{
    let (n, q) = rd_cint(c.d, p).unwrap();
    lemma_entries_lookup(c, q, n as int, path);
}

proof fn lemma_entries_lookup(c: Ctx, p: int, n: int, path: Seq<Seq<char>>)
    requires
        path.len() > 0,
        sp_entries(c, p, n) is Ok,
    ensures
        sp_path_entries(c, p, n, path) == Ok::<Option<PropV>, ErrV>(
            if sp_dropped_entries(c, p, n, path) { None } else { lookup(sp_entries(c, p, n)->Ok_0.0, path) },
        ),
    decreases fuel(c.d, p), 0int, n,
{
    if n > 0 {
        lemma_block_advances(c.d, c.iv, c.off, p);
        let (name, q) = rd_string_block(c.d, c.iv, c.off, p).unwrap();
        let (v, q2) = sp_value(c, q)->Ok_0;
        lemma_value_advances(c, q);
        lemma_skip_matches_value(c, q);
        let rest = sp_entries(c, forward(p, q2), n - 1)->Ok_0.0;
        let props = sp_entries(c, p, n)->Ok_0.0;
        if name != path[0] {
            lemma_entries_lookup(c, forward(p, q2), n - 1, path);
            if let Some(pv) = v {
                assert(props[0] == (name, pv));
                assert(props.subrange(1, props.len() as int) =~= rest);
            }
        } else {
            match v {
                None => {
                    if path.len() > 1 {
                        reveal(sp_simple_value);
                    }
                },
                Some(pv) => {
                    assert(props[0] == (name, pv));
                    if path.len() > 1 {
                        lemma_descend_lookup(c, q, pv, path.subrange(1, path.len() as int));
                    }
                },
            }
        }
    }
}

proof fn lemma_descend_lookup(c: Ctx, p: int, pv: PropV, rest: Seq<Seq<char>>)
    requires
        rest.len() > 0,
        sp_value(c, p) matches Ok((Some(v), _)) && v == pv,
    ensures
        sp_descend(c, p, rest) == Ok::<Option<PropV>, ErrV>(
            if sp_dropped_descend(c, p, rest) {
                None
            } else {
                match pv {
                    PropV::SubProperty(children) => lookup(children, rest),
                    _ => None,
                }
            },
        ),
    decreases fuel(c.d, p), 2int, 0int,
{
    reveal(sp_simple_value);
    let (b, q) = rd_u8(c.d, p).unwrap();
    if b == 0x09 {
        let (_, q2) = rd_u32(c.d, q).unwrap();
        lemma_extended_sub(c, q2);
        lemma_type_name_advances(c, q2);
        if let Some(Ok((name, q3))) = ext_type_name(c, q2) {
            if name == chars_property() {
                let (_, q4) = rd_u16(c.d, q3).unwrap();
                lemma_list_lookup(c, q4, rest);
            }
        }
    }
}


/// Whether a path can address the image at `p` read with `iv`: it is not a
/// Lua script, and a `0x1B` header's tag reads `"Property"` with `iv` (a
/// path parse does not retry such a header with other IVs).
pub open spec fn path_addressable(d: Seq<u8>, iv: [u8; 4], p: int) -> bool {
    match rd_u8(d, p) {
        None => false,
        Some((hb, pa)) => hb == 0x73 || (hb == 0x1B && match rd_i32(d, pa) {
            None => false,
            Some((rel, _)) => match rd_wz_string(d, iv, rel_target(p, rel)) {
                None => false,
                Some((s, _)) => s == chars_property(),
            },
        }),
    }
}

/// [`sp_dropped_list`] for the property list of the image at `p`, with the
/// IV its header decrypts with.
pub open spec fn sp_image_dropped(d: Seq<u8>, iv: [u8; 4], lazy: Option<Seq<u8>>, p: int, path: Seq<Seq<char>>) -> bool {
    match rd_u8(d, p) {
        None => false,
        Some((hb, pa)) => if hb == 0x73 {
            match rd_wz_string(d, iv, pa) {
                None => false,
                Some((s, q)) => match rd_u16(d, q) {
                    None => false,
                    Some((v, q2)) => if s == chars_property() && v == 0 {
                        sp_dropped_list(Ctx { d, iv, lazy, off: p }, q2, path)
                    } else {
                        sp_fallback_dropped(d, known_ivs(), lazy, p, pa, path)
                    },
                },
            }
        } else if hb == 0x1B {
            match rd_i32(d, pa) {
                None => false,
                Some((_, q)) => match rd_u16(d, q) {
                    None => false,
                    Some((_, q2)) => sp_dropped_list(Ctx { d, iv, lazy, off: p }, q2, path),
                },
            }
        } else {
            false
        },
    }
}

/// [`sp_dropped_list`] with the first IV of `ivs` whose inline header tag
/// at `pa` reads `"Property"`.
pub open spec fn sp_fallback_dropped(d: Seq<u8>, ivs: Seq<[u8; 4]>, lazy: Option<Seq<u8>>, off: int, pa: int, path: Seq<Seq<char>>) -> bool
    decreases ivs.len(),
{
    if ivs.len() == 0 {
        false
    } else {
        match tag_with_iv(d, ivs[0], TagLoc::Inline(pa)) {
            Some((s, q)) if s == chars_property() => sp_dropped_list(Ctx { d, iv: ivs[0], lazy, off }, q, path),
            _ => sp_fallback_dropped(d, ivs.subrange(1, ivs.len() as int), lazy, off, pa, path),
        }
    }
}

/// Where a string ends does not depend on the key it is decrypted with.
proof fn lemma_string_end_keyless(d: Seq<u8>, iv1: [u8; 4], iv2: [u8; 4], p: int)
    ensures
        rd_wz_string(d, iv1, p) matches Some((_, q)) ==> rd_wz_string(d, iv2, p) matches Some((_, q2)) && q2 == q,
{
    reveal(rd_wz_string);
}

/// An inline header tag whose `u16` is cut off fails with every IV.
proof fn lemma_fallback_cut_off(d: Seq<u8>, ivs: Seq<[u8; 4]>, lazy: Option<Seq<u8>>, off: int, pa: int, iv: [u8; 4])
    requires
        rd_wz_string(d, iv, pa) matches Some((_, q)) && rd_u16(d, q) is None,
    ensures
        sp_fallback(d, ivs, lazy, off, TagLoc::Inline(pa)) is Err,
    decreases ivs.len(),
{
    reveal(sp_fallback);
    reveal(tag_with_iv);
    if ivs.len() > 0 {
        lemma_string_end_keyless(d, iv, ivs[0], pa);
        lemma_fallback_cut_off(d, ivs.subrange(1, ivs.len() as int), lazy, off, pa, iv);
    }
}

proof fn lemma_fallback_lookup(d: Seq<u8>, ivs: Seq<[u8; 4]>, lazy: Option<Seq<u8>>, off: int, pa: int, path: Seq<Seq<char>>)
    requires
        path.len() > 0,
        sp_fallback(d, ivs, lazy, off, TagLoc::Inline(pa)) is Ok,
    ensures
        sp_path_fallback(d, ivs, lazy, off, pa, path) == Ok::<Option<PropV>, ErrV>(
            if sp_fallback_dropped(d, ivs, lazy, off, pa, path) {
                None
            } else {
                lookup(sp_fallback(d, ivs, lazy, off, TagLoc::Inline(pa))->Ok_0.0, path)
            },
        ),
    decreases ivs.len(),
{
    reveal(sp_fallback);
    reveal(tag_with_iv);
    if ivs.len() > 0 {
        let iv = ivs[0];
        let rest = ivs.subrange(1, ivs.len() as int);
        match rd_wz_string(d, iv, pa) {
            None => {
                lemma_fallback_lookup(d, rest, lazy, off, pa, path);
            },
            Some((s, q)) => {
                match rd_u16(d, q) {
                    None => {
                        lemma_fallback_cut_off(d, rest, lazy, off, pa, iv);
                    },
                    Some((v, q2)) => {
                        if s == chars_property() && v == 0 {
                            lemma_list_lookup(Ctx { d, iv, lazy, off }, q2, path);
                        } else {
                            lemma_fallback_lookup(d, rest, lazy, off, pa, path);
                        }
                    },
                }
            },
        }
    }
}

/// Parsing only the property at `path` of an image gives what a full parse
/// of the image holds at that path: the first entry of each component's
/// name, descending through `"Property"` containers. The one exception is a
/// component whose first match is a float with an unknown indicator byte: a
/// full parse leaves that entry out (so a later sibling of the same name
/// takes its place), while the path parse yields nothing. The image must be
/// addressable by a path ([`path_addressable`]).
pub proof fn lemma_path_parse_matches_full_parse(d: Seq<u8>, iv: [u8; 4], lazy: Option<Seq<u8>>, p: int, path: Seq<Seq<char>>)
    requires
        path.len() > 0,
        sp_image(d, iv, lazy, p) is Ok,
        path_addressable(d, iv, p),
    ensures
        sp_image_path(d, iv, lazy, p, path) == Ok::<Option<PropV>, ErrV>(
            if sp_image_dropped(d, iv, lazy, p, path) { None } else { lookup(sp_image(d, iv, lazy, p)->Ok_0.0, path) },
        ),
{
    let (hb, pa) = rd_u8(d, p).unwrap();
    if hb == 0x73 {
        let (s, q) = rd_wz_string(d, iv, pa).unwrap();
        let (v, q2) = rd_u16(d, q).unwrap();
        if s == chars_property() && v == 0 {
            lemma_list_lookup(Ctx { d, iv, lazy, off: p }, q2, path);
        } else {
            lemma_fallback_lookup(d, known_ivs(), lazy, p, pa, path);
        }
    } else {
        let (rel, q) = rd_i32(d, pa).unwrap();
        let (v, q2) = rd_u16(d, q).unwrap();
        lemma_list_lookup(Ctx { d, iv, lazy, off: p }, q2, path);
    }
}

} // verus!
