//! A lazy parse (canvas data kept as ranges of the source buffer) and an
//! eager parse (canvas data copied) of the same bytes agree.
use vstd::prelude::*;
use crate::error::ErrV;
use crate::property::{PropV, PropList, CanvasV, canvas_bytes};
use crate::reader::{rd_u8, rd_u16, rd_u32, rd_i32, rd_cint, rd_bytes, rd_string_block, rd_wz_string, rel_target};
use crate::grammar::{
    Ctx, PRes, fuel, forward, sp_value, sp_simple_value, sp_extended, sp_entries, sp_list, sp_optional_list,
    sp_points, sp_canvas, sp_canvas_tail, sp_sub, sp_vector, sp_convex, sp_sound, sp_uol, sp_raw_data, sp_video,
    sp_image, sp_fallback, tag_with_iv, TagLoc, known_ivs, ext_type_name, chars_property, chars_canvas,
    chars_vector, chars_convex, chars_sound, chars_uol, chars_raw_data, chars_video,
    lemma_block_advances, lemma_value_advances, lemma_extended_advances, lemma_type_name_advances,
    lemma_list_advances,
};

verus! {

/// A property with the data of every canvas held as its bytes.
pub open spec fn loaded(p: PropV) -> PropV
    decreases p, 0int,
{
    match p {
        PropV::SubProperty(ch) => PropV::SubProperty(loaded_list(ch, 0)),
        PropV::Canvas { width, height, format, scale, properties, png_data } => PropV::Canvas {
            width,
            height,
            format,
            scale,
            properties: loaded_list(properties, 0),
            png_data: CanvasV::Loaded(canvas_bytes(png_data)),
        },
        PropV::Convex(points) => PropV::Convex(loaded_list(points, 0)),
        PropV::RawData { raw_type, properties, data } => PropV::RawData {
            raw_type,
            properties: loaded_list(properties, 0),
            data,
        },
        PropV::Video { video_type, properties, data_offset, data_length, video_data } => PropV::Video {
            video_type,
            properties: loaded_list(properties, 0),
            data_offset,
            data_length,
            video_data,
        },
        _ => p,
    }
}

/// The entries of `l` from index `i` on, each [`loaded`].
pub open spec fn loaded_list(l: PropList, i: int) -> PropList
    decreases l, l.len() - i,
{
    if i < 0 || i >= l.len() {
        Seq::empty()
    } else {
        proof {
            assert(decreases_to!(l => l[i]));
        }
        seq![(l[i].0, loaded(l[i].1))] + loaded_list(l, i + 1)
    }
}

/// The lazy context of the eager context `c`: canvas data refers into the
/// parsed bytes themselves.
pub open spec fn lazy_of(c: Ctx) -> Ctx {
    Ctx { lazy: Some(c.d), ..c }
}

pub open spec fn eager_of(c: Ctx) -> Ctx {
    Ctx { lazy: None, ..c }
}

/// Two outcomes agree: both fail, or both succeed ending at the same
/// position with the lazy value [`loaded`] equal to the eager one.
pub open spec fn agree(lz: PRes<PropV>, eg: PRes<PropV>) -> bool {
    match (lz, eg) {
        (Ok((a, q)), Ok((b, q2))) => q == q2 && loaded(a) == b,
        (Err(_), Err(_)) => true,
        _ => false,
    }
}

pub open spec fn agree_opt(lz: PRes<Option<PropV>>, eg: PRes<Option<PropV>>) -> bool {
    match (lz, eg) {
        (Ok((a, q)), Ok((b, q2))) => q == q2 && match (a, b) {
            (Some(x), Some(y)) => loaded(x) == y,
            (None, None) => true,
            _ => false,
        },
        (Err(_), Err(_)) => true,
        _ => false,
    }
}

pub open spec fn agree_list(lz: PRes<PropList>, eg: PRes<PropList>) -> bool {
    match (lz, eg) {
        (Ok((a, q)), Ok((b, q2))) => q == q2 && loaded_list(a, 0) == b,
        (Err(_), Err(_)) => true,
        _ => false,
    }
}

proof fn lemma_loaded_list_shape(l: PropList, i: int)
    requires
        0 <= i <= l.len(),
    ensures
        loaded_list(l, i).len() == l.len() - i,
        forall|k: int| 0 <= k < l.len() - i ==> #[trigger] loaded_list(l, i)[k] == (l[i + k].0, loaded(l[i + k].1)),
    decreases l.len() - i,
{
    if i < l.len() {
        lemma_loaded_list_shape(l, i + 1);
        let f = loaded_list(l, i);
        assert forall|k: int| 0 <= k < l.len() - i implies #[trigger] f[k] == (l[i + k].0, loaded(l[i + k].1)) by {
            if k > 0 {
                assert(f[k] == loaded_list(l, i + 1)[k - 1]);
            }
        }
    }
}

/// `loaded_list` of an entry followed by a list.
proof fn lemma_loaded_cons(x: (Seq<char>, PropV), rest: PropList)
    ensures
        loaded_list(seq![x] + rest, 0) == seq![(x.0, loaded(x.1))] + loaded_list(rest, 0),
{
    let l = seq![x] + rest;
    lemma_loaded_list_shape(l, 0);
    lemma_loaded_list_shape(rest, 0);
    assert(loaded_list(l, 0) =~= seq![(x.0, loaded(x.1))] + loaded_list(rest, 0)) by {
        assert forall|k: int| 0 <= k < l.len() implies #[trigger] loaded_list(l, 0)[k] == (seq![(x.0, loaded(x.1))] + loaded_list(rest, 0))[k] by {
            if k > 0 {
                assert(l[k] == rest[k - 1]);
            }
        }
    }
}

proof fn lemma_loaded_empty()
    ensures
        loaded_list(Seq::<(Seq<char>, PropV)>::empty(), 0) == Seq::<(Seq<char>, PropV)>::empty(),
{
    assert(loaded_list(Seq::<(Seq<char>, PropV)>::empty(), 0) =~= Seq::<(Seq<char>, PropV)>::empty());
}

proof fn lemma_simple_agree(c: Ctx, t: u8, q: int)
    ensures
        agree_opt(sp_simple_value(lazy_of(c), t, q), sp_simple_value(eager_of(c), t, q)),
{
    reveal(sp_simple_value);
}

proof fn lemma_value_agree(c: Ctx, p: int)
    ensures
        agree_opt(sp_value(lazy_of(c), p), sp_value(eager_of(c), p)),
    decreases fuel(c.d, p), 0int, 0int,
{
    if let Some((t, q)) = rd_u8(c.d, p) {
        if t == 0x09 {
            if let Some((size, q2)) = rd_u32(c.d, q) {
                lemma_extended_agree(c, q2);
            }
        } else {
            lemma_simple_agree(c, t, q);
        }
    }
}

proof fn lemma_entries_agree(c: Ctx, p: int, n: int)
    ensures
        agree_list(sp_entries(lazy_of(c), p, n), sp_entries(eager_of(c), p, n)),
    decreases fuel(c.d, p), 0int, n,
{
    if n <= 0 {
        lemma_loaded_empty();
    } else {
        lemma_block_advances(c.d, c.iv, c.off, p);
        if let Some((name, q)) = rd_string_block(c.d, c.iv, c.off, p) {
            lemma_value_agree(c, q);
            if let Ok((v, q2)) = sp_value(eager_of(c), q) {
                lemma_value_advances(eager_of(c), q);
                lemma_entries_agree(c, forward(p, q2), n - 1);
                if let Ok((rest, q3)) = sp_entries(lazy_of(c), forward(p, q2), n - 1) {
                    let lv = sp_value(lazy_of(c), q)->Ok_0.0;
                    if let Some(pv) = lv {
                        lemma_loaded_cons((name, pv), rest);
                    }
                }
            }
        }
    }
}

proof fn lemma_list_agree(c: Ctx, p: int)
    ensures
        agree_list(sp_list(lazy_of(c), p), sp_list(eager_of(c), p)),
    decreases fuel(c.d, p), 0int, 0int,
{
    if let Some((n, q)) = rd_cint(c.d, p) {
        lemma_entries_agree(c, q, n as int);
    }
}

proof fn lemma_optional_agree(c: Ctx, p: int, flag: u8)
    ensures
        agree_list(sp_optional_list(lazy_of(c), p, flag), sp_optional_list(eager_of(c), p, flag)),
    decreases fuel(c.d, p), 1int, 0int,
{
    if flag == 1 {
        if let Some((_, q)) = rd_u16(c.d, p) {
            lemma_list_agree(c, q);
        }
    } else {
        lemma_loaded_empty();
    }
}

proof fn lemma_points_agree(c: Ctx, p: int, i: int, n: int)
    ensures
        agree_list(sp_points(lazy_of(c), p, i, n), sp_points(eager_of(c), p, i, n)),
    decreases fuel(c.d, p), 1int, n - i,
{
    if i >= n {
        lemma_loaded_empty();
    } else {
        lemma_extended_agree(c, p);
        if let Ok((v, q)) = sp_extended(eager_of(c), p) {
            lemma_extended_advances(eager_of(c), p);
            lemma_points_agree(c, forward(p, q), i + 1, n);
            if let Ok((rest, q2)) = sp_points(lazy_of(c), forward(p, q), i + 1, n) {
                let lv = sp_extended(lazy_of(c), p)->Ok_0.0;
                lemma_loaded_cons((crate::text::decimal(i), lv), rest);
            }
        }
    }
}

proof fn lemma_tail_agree(c: Ctx, p: int, props_lazy: PropList, props_eager: PropList)
    requires
        loaded_list(props_lazy, 0) == props_eager,
    ensures
        agree(sp_canvas_tail(lazy_of(c), p, props_lazy), sp_canvas_tail(eager_of(c), p, props_eager)),
{
    reveal(sp_canvas_tail);
}

proof fn lemma_canvas_agree(c: Ctx, p: int)
    ensures
        agree(sp_canvas(lazy_of(c), p), sp_canvas(eager_of(c), p)),
    decreases fuel(c.d, p), 0int, 0int,
{
    if let Some((_, q)) = rd_u8(c.d, p) {
        if let Some((has, q1)) = rd_u8(c.d, q) {
            lemma_optional_agree(c, q1, has);
            if let Ok((props, q2)) = sp_optional_list(lazy_of(c), q1, has) {
                if let Ok((props_e, _)) = sp_optional_list(eager_of(c), q1, has) {
                    lemma_tail_agree(c, q2, props, props_e);
                }
            }
        }
    }
}

proof fn lemma_extended_agree(c: Ctx, p: int)
    ensures
        agree(sp_extended(lazy_of(c), p), sp_extended(eager_of(c), p)),
    decreases fuel(c.d, p), 0int, 0int,
{
    lemma_type_name_advances(eager_of(c), p);
    reveal(sp_vector);
    reveal(sp_sound);
    reveal(sp_uol);
    if let Some(Ok((name, q))) = ext_type_name(eager_of(c), p) {
        if name == chars_property() {
            if let Some((_, q2)) = rd_u16(c.d, q) {
                lemma_list_agree(c, q2);
            }
        } else if name == chars_canvas() {
            lemma_canvas_agree(c, q);
        } else if name == chars_convex() {
            if let Some((n, q2)) = rd_cint(c.d, q) {
                lemma_points_agree(c, q2, 0, n as int);
            }
        } else if name == chars_raw_data() {
            if let Some((raw_type, p1)) = rd_u8(c.d, q) {
                if raw_type == 1 {
                    if let Some((has, p2)) = rd_u8(c.d, p1) {
                        if has == 1 {
                            if let Some((_, p3)) = rd_u16(c.d, p2) {
                                lemma_list_agree(c, p3);
                            }
                        } else {
                            lemma_loaded_empty();
                        }
                    }
                } else {
                    lemma_loaded_empty();
                }
            }
        } else if name == chars_video() {
            if let Some((_, p1)) = rd_u8(c.d, q) {
                if let Some((has, p2)) = rd_u8(c.d, p1) {
                    lemma_optional_agree(c, p2, has);
                }
            }
        }
    }
}


/// Two image outcomes agree: both fail, or both succeed with the same IV
/// and the lazy list [`loaded`] equal to the eager one.
pub open spec fn agree_image(lz: Result<(PropList, [u8; 4]), ErrV>, eg: Result<(PropList, [u8; 4]), ErrV>) -> bool {
    match (lz, eg) {
        (Ok((a, iv1)), Ok((b, iv2))) => iv1 == iv2 && loaded_list(a, 0) == b,
        (Err(_), Err(_)) => true,
        _ => false,
    }
}

proof fn lemma_fallback_agree(d: Seq<u8>, ivs: Seq<[u8; 4]>, off: int, loc: TagLoc)
    ensures
        agree_image(sp_fallback(d, ivs, Some(d), off, loc), sp_fallback(d, ivs, None, off, loc)),
    decreases ivs.len(),
{
    reveal(sp_fallback);
    if ivs.len() > 0 {
        let iv = ivs[0];
        match tag_with_iv(d, iv, loc) {
            Some((s, q)) => {
                if s == chars_property() {
                    lemma_list_agree(Ctx { d, iv, lazy: None, off }, q);
                    assert(lazy_of(Ctx { d, iv, lazy: None, off }) == Ctx { d, iv, lazy: Some(d), off });
                } else {
                    lemma_fallback_agree(d, ivs.subrange(1, ivs.len() as int), off, loc);
                }
            },
            None => {
                lemma_fallback_agree(d, ivs.subrange(1, ivs.len() as int), off, loc);
            },
        }
    }
}

/// Parsing an image lazily over its own bytes (canvas data kept as ranges
/// of them) and parsing it eagerly (canvas data copied) agree: both fail,
/// or both succeed with the same IV, and the lazy tree with every canvas's
/// data read from its range is the eager tree.
pub proof fn lemma_lazy_parse_matches_eager(d: Seq<u8>, iv: [u8; 4], p: int)
    ensures
        agree_image(sp_image(d, iv, Some(d), p), sp_image(d, iv, None, p)),
{
    let c = Ctx { d, iv, lazy: None, off: p };
    assert(lazy_of(c) == Ctx { d, iv, lazy: Some(d), off: p });
    if let Some((hb, pa)) = rd_u8(d, p) {
        if hb == 0x73 {
            if let Some((s, q)) = rd_wz_string(d, iv, pa) {
                if let Some((v, q2)) = rd_u16(d, q) {
                    if s == chars_property() && v == 0 {
                        lemma_list_agree(c, q2);
                    } else {
                        lemma_fallback_agree(d, known_ivs(), p, TagLoc::Inline(pa));
                    }
                }
            }
        } else if hb == 0x1B {
            if let Some((rel, q)) = rd_i32(d, pa) {
                let sp = rel_target(p, rel);
                if let Some((s, _)) = rd_wz_string(d, iv, sp) {
                    if let Some((v, q2)) = rd_u16(d, q) {
                        if s == chars_property() && v == 0 {
                            lemma_list_agree(c, q2);
                        } else if v == 0 {
                            lemma_fallback_agree(d, known_ivs(), p, TagLoc::Offset(sp, q2));
                        }
                    }
                }
            }
        } else if hb == 0x01 {
            if let Some((n, q)) = rd_cint(d, pa) {
                if let Some((bytes, _)) = rd_bytes(d, q, (n as usize) as int) {
                    lemma_loaded_empty();
                    lemma_loaded_cons((crate::grammar::chars_script(), PropV::Lua(bytes)), Seq::empty());
                    assert(seq![(crate::grammar::chars_script(), PropV::Lua(bytes))] + Seq::<(Seq<char>, PropV)>::empty()
                        =~= seq![(crate::grammar::chars_script(), PropV::Lua(bytes))]);
                }
            }
        }
    }
}

} // verus!
