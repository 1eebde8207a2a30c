//! Parsing the single property at a path of an image, skipping the subtrees
//! of non-matching siblings.
use vstd::prelude::*;
use std::sync::Arc;
use crate::error::{ErrV, WzError, WzResult};
use crate::property::{WzProperty, PropV};
use crate::reader::{WzBinaryReader, rd_u8, rd_u16, rd_wz_string};
use crate::grammar::{
    Ctx, fuel, forward, sp_skip, sp_value, sp_path_entries, sp_path_list, sp_descend, sp_path_fallback,
    sp_image_path, ext_type_name, chars_property, known_ivs, MAX_PROPERTY_COUNT, msg_empty_path,
    lemma_block_advances, lemma_skip_advances, lemma_value_advances, lemma_type_name_advances,
};
use crate::parse::{ctx, same_source, opt_model, parse_property_value, read_type_name, known_iv, count_error};
use crate::names::{name_property, msg_property_count_chars, msg_empty_path_chars};
use crate::text::{chars_eq, str_chars, string_from_chars};

verus! {

/// The components of a path, as character sequences.
pub open spec fn path_view(path: Seq<Vec<char>>) -> Seq<Seq<char>> {
    Seq::new(path.len(), |i: int| path[i]@)
}

/// The components of a path of string slices, as character sequences.
pub open spec fn str_path(path: Seq<&str>) -> Seq<Seq<char>> {
    Seq::new(path.len(), |i: int| path[i]@)
}

/// The components of `path` from index `k` on.
pub open spec fn rest_of(path: Seq<Vec<char>>, k: int) -> Seq<Seq<char>> {
    path_view(path).subrange(k, path.len() as int)
}

/// The outcome `res` is what the spec `s` says.
pub open spec fn agrees_found(res: WzResult<Option<WzProperty>>, s: Result<Option<PropV>, ErrV>) -> bool {
    match s {
        Ok(v) => res matches Ok(x) && opt_model(x) == v,
        Err(e) => res matches Err(err) && err@ == e,
    }
}

/// Moves past one property value without building it; an extended value is
/// skipped whole by its block size.
fn skip_property_value(reader: &mut WzBinaryReader, offset: u64) -> (res: WzResult<()>)
    requires
        old(reader).wf(),
    ensures
        same_source(old(reader), final(reader)),
        match sp_skip(ctx(old(reader), offset as int), old(reader).spec_pos()) {
            Ok(q) => res is Ok && final(reader).spec_pos() == q,
            Err(e) => res matches Err(err) && err@ == e,
        },
{
    let t = reader.read_u8()?;
    if t == 0x00 {
    } else if t == 0x02 || t == 0x0B {
        reader.read_i16()?;
    } else if t == 0x03 || t == 0x13 {
        reader.read_compressed_int()?;
    } else if t == 0x14 {
        reader.read_compressed_long()?;
    } else if t == 0x04 {
        if reader.read_u8()? == 0x80 {
            reader.read_u32()?;
        }
    } else if t == 0x05 {
        reader.read_u64()?;
    } else if t == 0x08 {
        reader.read_string_block(offset)?;
    } else if t == 0x09 {
        let size = reader.read_u32()?;
        proof {
            reader.lemma_wf_bounds();
        }
        let end = reader.position() + size as u64;
        reader.seek(end);
    } else {
        return Err(WzError::UnknownPropertyType(string_from_chars(crate::text::format_hex_byte(t).as_slice())));
    }
    Ok(())
}

/// Searches the property list at the reader for `path[k]`: the matching
/// entry's value when `k` is the last component, else a descent into it.
/// Non-matching entries are skipped; later siblings are never read.
fn parse_property_list_path(reader: &mut WzBinaryReader, offset: u64, path: &[Vec<char>], k: usize) -> (res: WzResult<Option<WzProperty>>)
    requires
        old(reader).wf(),
        k < path.len(),
    ensures
        same_source(old(reader), final(reader)),
        agrees_found(res, sp_path_list(ctx(old(reader), offset as int), old(reader).spec_pos(), rest_of(path@, k as int))),
    decreases fuel(old(reader).spec_data(), old(reader).spec_pos()), 1int,
{
    let ghost c = ctx(reader, offset as int);
    let ghost entry = reader.spec_pos();
    let ghost rest = rest_of(path@, k as int);
    let count = reader.read_compressed_int()?;
    if count < 0 || count > MAX_PROPERTY_COUNT {
        return Err(count_error(msg_property_count_chars(), count));
    }
    let mut i: i32 = 0;
    assert(rest[0] == path@[k as int]@);
    while i < count
        invariant
            0 <= i <= count,
            k < path.len(),
            rest == rest_of(path@, k as int),
            rest.len() > 0,
            rest[0] == path@[k as int]@,
            same_source(old(reader), reader),
            c == ctx(old(reader), offset as int),
            entry == old(reader).spec_pos(),
            0 <= entry < c.d.len(),
            reader.spec_pos() > entry,
            sp_path_list(c, entry, rest) == sp_path_entries(c, reader.spec_pos(), (count - i) as int, rest),
        decreases count - i,
    {
        let ghost p = reader.spec_pos();
        proof {
            lemma_block_advances(c.d, c.iv, c.off, p);
        }
        let name = reader.read_string_block(offset)?;
        let ghost q = reader.spec_pos();
        assert(fuel(c.d, q) < fuel(c.d, entry));
        if chars_eq(name.as_slice(), path[k].as_slice()) {
            if k + 1 == path.len() {
                assert(rest.len() == 1);
                let v = parse_property_value(reader, offset)?;
                return Ok(v);
            }
            assert(rest.subrange(1, rest.len() as int) =~= rest_of(path@, (k + 1) as int));
            return descend_into_property(reader, offset, path, k + 1);
        }
        proof {
            lemma_skip_advances(c, q);
        }
        skip_property_value(reader, offset)?;
        let ghost q2 = reader.spec_pos();
        assert(forward(p, q2) == q2);
        i = i + 1;
    }
    Ok(None)
}

/// Descends into the value at the reader for the components from `path[k]`
/// on: only an extended `"Property"` container has named children, so any
/// other value ends the search with `Ok(None)`.
fn descend_into_property(reader: &mut WzBinaryReader, offset: u64, path: &[Vec<char>], k: usize) -> (res: WzResult<Option<WzProperty>>)
    requires
        old(reader).wf(),
        k < path.len(),
    ensures
        same_source(old(reader), final(reader)),
        agrees_found(res, sp_descend(ctx(old(reader), offset as int), old(reader).spec_pos(), rest_of(path@, k as int))),
    decreases fuel(old(reader).spec_data(), old(reader).spec_pos()), 2int,
{
    let ghost c = ctx(reader, offset as int);
    let ghost p = reader.spec_pos();
    if reader.read_u8()? != 0x09 {
        return Ok(None);
    }
    let _block_size = reader.read_u32()?;
    let ghost q2 = reader.spec_pos();
    proof {
        lemma_type_name_advances(c, q2);
    }
    let name = match read_type_name(reader, offset)? {
        Ok(n) => n,
        Err(_) => return Ok(None),
    };
    if !chars_eq(name.as_slice(), name_property().as_slice()) {
        return Ok(None);
    }
    let _padding = reader.read_u16()?;
    parse_property_list_path(reader, offset, path, k)
}


proof fn lemma_path_fallback_step(d: Seq<u8>, k: int, lazy: Option<Seq<u8>>, off: int, pa: int, path: Seq<Seq<char>>)
    requires
        0 <= k < 3,
    ensures
        sp_path_fallback(d, known_ivs().subrange(k, 3), lazy, off, pa, path) == ({
            let iv = known_ivs()[k];
            let next = sp_path_fallback(d, known_ivs().subrange(k + 1, 3), lazy, off, pa, path);
            match rd_wz_string(d, iv, pa) {
                Some((s, q)) if s == chars_property() => match rd_u16(d, q) {
                    None => Err(ErrV::UnexpectedEof),
                    Some((v, q2)) => if v == 0 {
                        sp_path_list(Ctx { d, iv, lazy, off }, q2, path)
                    } else {
                        next
                    },
                },
                _ => next,
            }
        }),
{
    let ivs = known_ivs().subrange(k, 3);
    assert(ivs[0] == known_ivs()[k]);
    assert(ivs.subrange(1, ivs.len() as int) =~= known_ivs().subrange(k + 1, 3));
}

/// Retries an inline `"Property"` header tag at `pa` with each known IV,
/// then searches the property list for `path`.
fn path_fallback(reader: &mut WzBinaryReader, offset: u64, pa: u64, path: &[Vec<char>]) -> (res: WzResult<Option<WzProperty>>)
    requires
        old(reader).wf(),
        path.len() > 0,
    ensures
        final(reader).wf(),
        final(reader).spec_data() == old(reader).spec_data(),
        final(reader).spec_lazy() == old(reader).spec_lazy(),
        agrees_found(res, sp_path_fallback(old(reader).spec_data(), known_ivs(), old(reader).spec_lazy(), offset as int, pa as int, path_view(path@))),
{
    let ghost d = reader.spec_data();
    let ghost lazy = reader.spec_lazy();
    let ghost pv = path_view(path@);
    assert(rest_of(path@, 0) =~= pv);
    let property = name_property();
    let mut k: usize = 0;
    assert(known_ivs().subrange(0, 3) =~= known_ivs());
    while k < 3
        invariant
            0 <= k <= 3,
            path.len() > 0,
            reader.wf(),
            reader.spec_data() == d,
            reader.spec_lazy() == lazy,
            d == old(reader).spec_data(),
            lazy == old(reader).spec_lazy(),
            pv == path_view(path@),
            rest_of(path@, 0) == pv,
            property@ == chars_property(),
            sp_path_fallback(d, known_ivs(), lazy, offset as int, pa as int, pv)
                == sp_path_fallback(d, known_ivs().subrange(k as int, 3), lazy, offset as int, pa as int, pv),
        decreases 3 - k,
    {
        proof {
            lemma_path_fallback_step(d, k as int, lazy, offset as int, pa as int, pv);
        }
        reader.set_iv(known_iv(k));
        reader.seek(pa);
        match reader.read_wz_string() {
            Ok(s) => {
                if chars_eq(s.as_slice(), property.as_slice()) {
                    let v = reader.read_u16()?;
                    if v == 0 {
                        assert(ctx(reader, offset as int) == Ctx { d, iv: known_ivs()[k as int], lazy, off: offset as int });
                        return parse_property_list_path(reader, offset, path, 0);
                    }
                }
            },
            Err(_) => {},
        }
        k = k + 1;
    }
    proof {
        assert(known_ivs().subrange(3, 3).len() == 0);
    }
    Err(WzError::InvalidImageHeader(0x73))
}

/// The property at `path` of the image at the reader (`Ok(None)` when
/// absent). A `0x73` header that does not decrypt with the reader's IV is
/// retried with each known IV.
fn parse_image_path(reader: &mut WzBinaryReader, path: &[Vec<char>]) -> (res: WzResult<Option<WzProperty>>)
    requires
        old(reader).wf(),
    ensures
        final(reader).wf(),
        final(reader).spec_data() == old(reader).spec_data(),
        final(reader).spec_lazy() == old(reader).spec_lazy(),
        agrees_found(res, sp_image_path(old(reader).spec_data(), old(reader).spec_iv(), old(reader).spec_lazy(), old(reader).spec_pos(), path_view(path@))),
        path@.len() == 0 ==> final(reader).spec_pos() == old(reader).spec_pos() && final(reader).spec_iv() == old(reader).spec_iv(),
{
    if path.len() == 0 {
        return Err(WzError::Custom(string_from_chars(msg_empty_path_chars().as_slice())));
    }
    let ghost d = reader.spec_data();
    let ghost lazy = reader.spec_lazy();
    let ghost pv = path_view(path@);
    assert(rest_of(path@, 0) =~= pv);
    let offset = reader.position();
    let header_byte = reader.read_u8()?;
    let property = name_property();
    if header_byte == 0x73 {
        let pos_after_header = reader.position();
        let prop_str = reader.read_wz_string()?;
        let val = reader.read_u16()?;
        if chars_eq(prop_str.as_slice(), property.as_slice()) && val == 0 {
            return parse_property_list_path(reader, offset, path, 0);
        }
        path_fallback(reader, offset, pos_after_header, path)
    } else if header_byte == 0x1B {
        let str_offset = reader.read_i32()?;
        let string_pos = offset.wrapping_add_signed(str_offset as i64);
        let prop_str = reader.read_string_at_offset(string_pos)?;
        let val = reader.read_u16()?;
        if chars_eq(prop_str.as_slice(), property.as_slice()) && val == 0 {
            return parse_property_list_path(reader, offset, path, 0);
        }
        Err(WzError::InvalidImageHeader(0x1B))
    } else {
        Err(WzError::InvalidImageHeader(header_byte))
    }
}

/// Parses only the property at `path` of the image at the reader, skipping
/// the subtrees of non-matching siblings; canvas pixel data of the result
/// is recorded as a range of `src` (see [`crate::parse::parse_image_lazy`]).
/// `Ok(None)` when the path is absent or runs through a value that has no
/// named children; an empty path is an error.
pub fn parse_image_path_lazy(reader: &mut WzBinaryReader, src: Arc<Vec<u8>>, path: &[&str]) -> (res: WzResult<Option<WzProperty>>)
    requires
        old(reader).wf(),
    ensures
        final(reader).wf(),
        final(reader).spec_data() == old(reader).spec_data(),
        final(reader).spec_lazy() is None,
        agrees_found(res, sp_image_path(old(reader).spec_data(), old(reader).spec_iv(), Some((*src)@), old(reader).spec_pos(), str_path(path@))),
        path@.len() == 0 ==> final(reader).spec_pos() == old(reader).spec_pos() && final(reader).spec_iv() == old(reader).spec_iv(),
{
    let mut comps: Vec<Vec<char>> = Vec::new();
    let mut i: usize = 0;
    while i < path.len()
        invariant
            0 <= i <= path.len(),
            comps@.len() == i,
            forall|j: int| 0 <= j < i ==> comps@[j]@ == path@[j]@,
        decreases path.len() - i,
    {
        comps.push(str_chars(path[i]));
        i = i + 1;
    }
    assert(path_view(comps@) =~= str_path(path@));
    reader.set_lazy_src(Some(src));
    let result = parse_image_path(reader, comps.as_slice());
    reader.set_lazy_src(None);
    result
}

} // verus!
