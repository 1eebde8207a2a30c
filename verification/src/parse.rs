//! Parsing WZ image property trees from a reader.
use vstd::prelude::*;
use std::sync::Arc;
use crate::error::{ErrV, WzError, WzResult};
use crate::property::{WzProperty, PropV, PropList, CanvasData, props_model, lemma_props_model, lemma_props_model_push};
use crate::reader::WzBinaryReader;
use crate::grammar::{
    Ctx, PRes, fuel, forward, sp_value, sp_simple_value, sp_extended, sp_entries, sp_list, sp_optional_list,
    sp_points, sp_sub, sp_vector, sp_convex, sp_canvas, sp_canvas_tail, sp_sound, sp_uol, sp_raw_data, sp_video,
    ext_type_name, wave_format_fix, count_message, msg_canvas_range, MAX_PROPERTY_COUNT, MAX_CONVEX_POINTS,
    lemma_value_advances, lemma_block_advances, lemma_extended_advances, lemma_type_name_advances,
    chars_property, chars_canvas, chars_vector, chars_convex, chars_sound, chars_uol, chars_raw_data, chars_video,
    msg_property_count, msg_convex_count, msg_ext_type_byte, msg_uol_type, msg_png_length,
};
use crate::reader::{rd_u8, rd_wz_string, rel_target, share};
use crate::text::{string_from_chars, format_hex_byte, chars_eq, push_all, decimal, decimal_i64, decimal_u64};
use crate::names::{
    name_property, name_canvas, name_vector, name_convex, name_sound, name_uol, name_raw_data, name_video,
    msg_property_count_chars, msg_convex_count_chars, msg_ext_type_byte_chars, msg_uol_type_chars,
    msg_png_length_chars,
};
use crate::types::WzPngFormat;
use crate::grammar::{
    sp_image, sp_fallback, known_ivs, tag_with_iv, TagLoc, chars_script, sp_skip, sp_path_entries, sp_path_list,
    sp_descend, sp_path_fallback, sp_image_path, msg_empty_path,
};
use crate::names::{name_script, msg_empty_path_chars};
use crate::crypto::{WZ_BMSCLASSIC_IV, WZ_GMSIV, WZ_MSEAIV};
use crate::text::str_chars;

verus! {

/// The parse context of a reader: its data, IV and lazy buffer, with string
/// references relative to `off`.
pub open spec fn ctx(r: &WzBinaryReader, off: int) -> Ctx {
    Ctx { d: r.spec_data(), iv: r.spec_iv(), lazy: r.spec_lazy(), off }
}

/// `r2` reads the same bytes as `r1`, with the same key stream and lazy buffer.
pub open spec fn same_source(r1: &WzBinaryReader, r2: &WzBinaryReader) -> bool {
    &&& r2.wf()
    &&& r2.spec_data() == r1.spec_data()
    &&& r2.spec_iv() == r1.spec_iv()
    &&& r2.spec_lazy() == r1.spec_lazy()
}

pub open spec fn opt_model(o: Option<WzProperty>) -> Option<PropV> {
    match o {
        Some(p) => Some(p.model()),
        None => None,
    }
}

/// The outcome `res` (with the reader ending at `pos`) is what the spec `s` says.
pub open spec fn agrees_opt(res: WzResult<Option<WzProperty>>, s: PRes<Option<PropV>>, pos: int) -> bool {
    match s {
        Ok((v, q)) => res matches Ok(x) && opt_model(x) == v && pos == q,
        Err(e) => res matches Err(err) && err@ == e,
    }
}

/// A value whose marker `t` (not `0x09`) was just read.
fn parse_simple_value(reader: &mut WzBinaryReader, t: u8, offset: u64) -> (res: WzResult<Option<WzProperty>>)
    requires
        old(reader).wf(),
        t != 0x09,
    ensures
        same_source(old(reader), final(reader)),
        agrees_opt(res, sp_simple_value(ctx(old(reader), offset as int), t, old(reader).spec_pos()), final(reader).spec_pos()),
{
    proof {
        reveal(sp_simple_value);
    }
    if t == 0x00 {
        Ok(Some(WzProperty::Null))
    } else if t == 0x02 || t == 0x0B {
        let v = reader.read_i16()?;
        Ok(Some(WzProperty::Short(v)))
    } else if t == 0x03 || t == 0x13 {
        let v = reader.read_compressed_int()?;
        Ok(Some(WzProperty::Int(v)))
    } else if t == 0x14 {
        let v = reader.read_compressed_long()?;
        Ok(Some(WzProperty::Long(v)))
    } else if t == 0x04 {
        let ind = reader.read_u8()?;
        if ind == 0x80 {
            let bits = reader.read_u32()?;
            Ok(Some(WzProperty::Float(bits)))
        } else if ind == 0x00 {
            Ok(Some(WzProperty::Float(0)))
        } else {
            Ok(None)
        }
    } else if t == 0x05 {
        let bits = reader.read_u64()?;
        Ok(Some(WzProperty::Double(bits)))
    } else if t == 0x08 {
        let cs = reader.read_string_block(offset)?;
        Ok(Some(WzProperty::String(string_from_chars(cs.as_slice()))))
    } else {
        Err(WzError::UnknownPropertyType(string_from_chars(format_hex_byte(t).as_slice())))
    }
}

pub open spec fn agrees_prop(res: WzResult<WzProperty>, s: PRes<PropV>, pos: int) -> bool {
    match s {
        Ok((v, q)) => res matches Ok(x) && x.model() == v && pos == q,
        Err(e) => res matches Err(err) && err@ == e,
    }
}

pub open spec fn agrees_list(res: WzResult<Vec<(String, WzProperty)>>, s: PRes<PropList>, pos: int) -> bool {
    match s {
        Ok((v, q)) => res matches Ok(x) && props_model(x@) == v && pos == q,
        Err(e) => res matches Err(err) && err@ == e,
    }
}

/// `pre` followed by the list that `r` yields (errors pass through).
pub open spec fn prefix_with(pre: PropList, r: PRes<PropList>) -> PRes<PropList> {
    match r {
        Ok((rest, q)) => Ok((pre + rest, q)),
        Err(e) => Err(e),
    }
}

proof fn lemma_prefix_step(pre: PropList, x: (Seq<char>, PropV), r: PRes<PropList>)
    ensures
        prefix_with(pre, match r {
            Ok((rest, q)) => Ok((seq![x] + rest, q)),
            Err(e) => Err(e),
        }) == prefix_with(pre.push(x), r),
{
    if let Ok((rest, q)) = r {
        assert(pre + (seq![x] + rest) =~= pre.push(x) + rest);
    }
}

/// An error message: `prefix` then the decimal `n`.
pub(crate) fn count_error(prefix: Vec<char>, n: i32) -> (e: WzError)
    ensures
        e@ == ErrV::Custom(prefix@ + decimal(n as int)),
{
    let mut m = prefix;
    let digits = decimal_i64(n as i64);
    push_all(&mut m, digits.as_slice());
    WzError::Custom(string_from_chars(m.as_slice()))
}

/// An error message: `prefix` then `0x` and the byte in hex.
fn byte_error(prefix: Vec<char>, b: u8) -> (e: WzError)
    ensures
        e@ == ErrV::Custom(prefix@ + crate::text::hex_byte(b)),
{
    let mut m = prefix;
    let hex = format_hex_byte(b);
    push_all(&mut m, hex.as_slice());
    WzError::Custom(string_from_chars(m.as_slice()))
}

/// The type name of an extended property; `Err(tb)` for an unknown type byte.
pub(crate) fn read_type_name(reader: &mut WzBinaryReader, offset: u64) -> (res: WzResult<Result<Vec<char>, u8>>)
    requires
        old(reader).wf(),
    ensures
        same_source(old(reader), final(reader)),
        match ext_type_name(ctx(old(reader), offset as int), old(reader).spec_pos()) {
            None => res matches Ok(Err(tb)) && rd_u8(old(reader).spec_data(), old(reader).spec_pos()) matches Some((b, _)) && b == tb,
            Some(Err(e)) => res matches Err(err) && err@ == e,
            Some(Ok((name, q))) => res matches Ok(Ok(v)) && v@ == name && final(reader).spec_pos() == q,
        },
{
    let tb = reader.read_u8()?;
    if tb == 0x01 || tb == 0x1B {
        let rel = reader.read_i32()?;
        let target = offset.wrapping_add_signed(rel as i64);
        let s = reader.read_string_at_offset(target)?;
        Ok(Ok(s))
    } else if tb == 0x00 || tb == 0x73 {
        let s = reader.read_wz_string()?;
        Ok(Ok(s))
    } else {
        Ok(Err(tb))
    }
}

pub(crate) fn parse_property_value(reader: &mut WzBinaryReader, offset: u64) -> (res: WzResult<Option<WzProperty>>)
    requires
        old(reader).wf(),
    ensures
        same_source(old(reader), final(reader)),
        agrees_opt(res, sp_value(ctx(old(reader), offset as int), old(reader).spec_pos()), final(reader).spec_pos()),
    decreases fuel(old(reader).spec_data(), old(reader).spec_pos()),
{
    let t = reader.read_u8()?;
    if t == 0x09 {
        let size = reader.read_u32()?;
        proof { reader.lemma_wf_bounds(); }
    assert(reader.spec_pos() <= reader.spec_data().len());
        let end = reader.position() + size as u64;
        let v = parse_extended_property(reader, offset)?;
        if reader.position() != end {
            reader.seek(end);
        }
        Ok(Some(v))
    } else {
        parse_simple_value(reader, t, offset)
    }
}

/// A property list: a compressed-int count, then that many (name, value) entries.
pub fn parse_property_list(reader: &mut WzBinaryReader, offset: u64) -> (res: WzResult<Vec<(String, WzProperty)>>)
    requires
        old(reader).wf(),
    ensures
        same_source(old(reader), final(reader)),
        agrees_list(res, sp_list(ctx(old(reader), offset as int), old(reader).spec_pos()), final(reader).spec_pos()),
    decreases fuel(old(reader).spec_data(), old(reader).spec_pos()),
{
    let ghost c = ctx(reader, offset as int);
    let ghost entry = reader.spec_pos();
    let count = reader.read_compressed_int()?;
    if count < 0 || count > MAX_PROPERTY_COUNT {
        return Err(count_error(msg_property_count_chars(), count));
    }
    let ghost start = reader.spec_pos();
    let mut props: Vec<(String, WzProperty)> = Vec::with_capacity(count as usize);
    let mut i: i32 = 0;
    proof {
        lemma_props_model(props@);
        assert(props_model(props@) =~= Seq::<(Seq<char>, PropV)>::empty());
        assert(prefix_with(props_model(props@), sp_entries(c, start, count as int)) =~= sp_entries(c, start, count as int)) by {
            if let Ok((rest, q)) = sp_entries(c, start, count as int) {
                assert(Seq::<(Seq<char>, PropV)>::empty() + rest =~= rest);
            }
        }
    }
    while i < count
        invariant
            0 <= i <= count,
            same_source(old(reader), reader),
            c == ctx(old(reader), offset as int),
            entry == old(reader).spec_pos(),
            0 <= entry < c.d.len(),
            reader.spec_pos() > entry,
            sp_list(c, entry) == sp_entries(c, start, count as int),
            sp_entries(c, start, count as int) == prefix_with(props_model(props@), sp_entries(c, reader.spec_pos(), (count - i) as int)),
        decreases count - i,
    {
        let ghost p = reader.spec_pos();
        proof {
            lemma_block_advances(c.d, c.iv, c.off, p);
        }
        let name = reader.read_string_block(offset)?;
        let ghost q = reader.spec_pos();
        assert(q > p);
        assert(fuel(c.d, q) < fuel(c.d, entry));
        proof {
            lemma_value_advances(c, q);
        }
        let v = parse_property_value(reader, offset)?;
        let ghost q2 = reader.spec_pos();
        assert(forward(p, q2) == q2);
        match v {
            Some(prop) => {
                let ghost x = (name@, prop.model());
                let n = string_from_chars(name.as_slice());
                let ghost old_props = props@;
                props.push((n, prop));
                proof {
                    lemma_props_model_push(old_props, (n, prop));
                    lemma_prefix_step(props_model(old_props), x, sp_entries(c, q2, (count - i - 1) as int));
                }
            },
            None => {},
        }
        i = i + 1;
    }
    proof {
        assert(props_model(props@) + Seq::<(Seq<char>, PropV)>::empty() =~= props_model(props@));
    }
    Ok(props)
}

/// Child properties behind a flag byte (present when the flag is 1).
fn read_optional_properties(reader: &mut WzBinaryReader, offset: u64, flag: u8) -> (res: WzResult<Vec<(String, WzProperty)>>)
    requires
        old(reader).wf(),
    ensures
        same_source(old(reader), final(reader)),
        agrees_list(res, sp_optional_list(ctx(old(reader), offset as int), old(reader).spec_pos(), flag), final(reader).spec_pos()),
    decreases fuel(old(reader).spec_data(), old(reader).spec_pos()),
{
    if flag == 1 {
        let _padding = reader.read_u16()?;
        parse_property_list(reader, offset)
    } else {
        proof {
            assert(props_model(Seq::<(String, WzProperty)>::empty()) =~= Seq::<(Seq<char>, PropV)>::empty());
        }
        Ok(Vec::new())
    }
}

fn parse_sub_property(reader: &mut WzBinaryReader, offset: u64) -> (res: WzResult<WzProperty>)
    requires
        old(reader).wf(),
    ensures
        same_source(old(reader), final(reader)),
        agrees_prop(res, sp_sub(ctx(old(reader), offset as int), old(reader).spec_pos()), final(reader).spec_pos()),
    decreases fuel(old(reader).spec_data(), old(reader).spec_pos()),
{
    let _padding = reader.read_u16()?;
    let properties = parse_property_list(reader, offset)?;
    Ok(WzProperty::SubProperty { properties })
}

fn parse_vector(reader: &mut WzBinaryReader, offset: u64) -> (res: WzResult<WzProperty>)
    requires
        old(reader).wf(),
    ensures
        same_source(old(reader), final(reader)),
        agrees_prop(res, sp_vector(ctx(old(reader), offset as int), old(reader).spec_pos()), final(reader).spec_pos()),
{
    proof {
        reveal(sp_vector);
    }
    let x = reader.read_compressed_int()?;
    let y = reader.read_compressed_int()?;
    Ok(WzProperty::Vector { x, y })
}

fn parse_convex(reader: &mut WzBinaryReader, offset: u64) -> (res: WzResult<WzProperty>)
    requires
        old(reader).wf(),
    ensures
        same_source(old(reader), final(reader)),
        agrees_prop(res, sp_convex(ctx(old(reader), offset as int), old(reader).spec_pos()), final(reader).spec_pos()),
    decreases fuel(old(reader).spec_data(), old(reader).spec_pos()),
{
    let ghost c = ctx(reader, offset as int);
    let ghost entry = reader.spec_pos();
    let count = reader.read_compressed_int()?;
    if count < 0 || count > MAX_CONVEX_POINTS {
        return Err(count_error(msg_convex_count_chars(), count));
    }
    let ghost start = reader.spec_pos();
    assert(sp_convex(c, entry) == match sp_points(c, start, 0, count as int) {
        Err(e) => Err(e),
        Ok((pts, q)) => Ok((PropV::Convex(pts), q)),
    });
    let mut points: Vec<(String, WzProperty)> = Vec::with_capacity(count as usize);
    let mut i: i32 = 0;
    proof {
        assert(props_model(points@) =~= Seq::<(Seq<char>, PropV)>::empty());
        assert(prefix_with(props_model(points@), sp_points(c, start, 0, count as int)) =~= sp_points(c, start, 0, count as int)) by {
            if let Ok((rest, q)) = sp_points(c, start, 0, count as int) {
                assert(Seq::<(Seq<char>, PropV)>::empty() + rest =~= rest);
            }
        }
    }
    while i < count
        invariant
            0 <= i <= count,
            same_source(old(reader), reader),
            c == ctx(old(reader), offset as int),
            entry == old(reader).spec_pos(),
            0 <= entry < c.d.len(),
            reader.spec_pos() > entry,
            sp_convex(c, entry) == match sp_points(c, start, 0, count as int) {
                Err(e) => Err(e),
                Ok((pts, q)) => Ok((PropV::Convex(pts), q)),
            },
            sp_points(c, start, 0, count as int) == prefix_with(props_model(points@), sp_points(c, reader.spec_pos(), i as int, count as int)),
        decreases count - i,
    {
        let ghost p = reader.spec_pos();
        proof {
            lemma_extended_advances(c, p);
        }
        let v = parse_extended_property(reader, offset)?;
        let ghost q = reader.spec_pos();
        assert(forward(p, q) == q);
        let ghost x = (decimal(i as int), v.model());
        let digits = decimal_i64(i as i64);
        let n = string_from_chars(digits.as_slice());
        let ghost old_points = points@;
        points.push((n, v));
        proof {
            lemma_props_model_push(old_points, (n, v));
            lemma_prefix_step(props_model(old_points), x, sp_points(c, q, i + 1, count as int));
        }
        i = i + 1;
    }
    proof {
        assert(props_model(points@) + Seq::<(Seq<char>, PropV)>::empty() =~= props_model(points@));
    }
    Ok(WzProperty::Convex { points })
}

fn parse_extended_property(reader: &mut WzBinaryReader, offset: u64) -> (res: WzResult<WzProperty>)
    requires
        old(reader).wf(),
    ensures
        same_source(old(reader), final(reader)),
        agrees_prop(res, sp_extended(ctx(old(reader), offset as int), old(reader).spec_pos()), final(reader).spec_pos()),
    decreases fuel(old(reader).spec_data(), old(reader).spec_pos()),
{
    let ghost c = ctx(reader, offset as int);
    proof {
        lemma_type_name_advances(c, reader.spec_pos());
    }
    let name = match read_type_name(reader, offset)? {
        Ok(n) => n,
        Err(tb) => return Err(byte_error(msg_ext_type_byte_chars(), tb)),
    };
    if chars_eq(name.as_slice(), name_property().as_slice()) {
        parse_sub_property(reader, offset)
    } else if chars_eq(name.as_slice(), name_canvas().as_slice()) {
        parse_canvas_property(reader, offset)
    } else if chars_eq(name.as_slice(), name_vector().as_slice()) {
        parse_vector(reader, offset)
    } else if chars_eq(name.as_slice(), name_convex().as_slice()) {
        parse_convex(reader, offset)
    } else if chars_eq(name.as_slice(), name_sound().as_slice()) {
        parse_sound_property(reader)
    } else if chars_eq(name.as_slice(), name_uol().as_slice()) {
        parse_uol(reader, offset)
    } else if chars_eq(name.as_slice(), name_raw_data().as_slice()) {
        parse_raw_data(reader, offset)
    } else if chars_eq(name.as_slice(), name_video().as_slice()) {
        parse_video(reader, offset)
    } else {
        Ok(WzProperty::String(string_from_chars(name.as_slice())))
    }
}

fn parse_canvas_property(reader: &mut WzBinaryReader, offset: u64) -> (res: WzResult<WzProperty>)
    requires
        old(reader).wf(),
    ensures
        same_source(old(reader), final(reader)),
        agrees_prop(res, sp_canvas(ctx(old(reader), offset as int), old(reader).spec_pos()), final(reader).spec_pos()),
    decreases fuel(old(reader).spec_data(), old(reader).spec_pos()),
{
    let _skip = reader.read_u8()?;
    let has_children = reader.read_u8()?;
    let properties = read_optional_properties(reader, offset, has_children)?;
    parse_canvas_tail(reader, offset, properties)
}

fn parse_canvas_tail(reader: &mut WzBinaryReader, offset: u64, properties: Vec<(String, WzProperty)>) -> (res: WzResult<WzProperty>)
    requires
        old(reader).wf(),
    ensures
        same_source(old(reader), final(reader)),
        agrees_prop(res, sp_canvas_tail(ctx(old(reader), offset as int), old(reader).spec_pos(), props_model(properties@)), final(reader).spec_pos()),
{
    proof {
        reveal(sp_canvas_tail);
    }
    let width = reader.read_compressed_int()?;
    let height = reader.read_compressed_int()?;
    let format_low = reader.read_compressed_int()?;
    let format_high = reader.read_compressed_int()?;
    let _zero = reader.read_i32()?;
    let raw_data_len = reader.read_i32()?;
    let _header_byte = reader.read_u8()?;
    if raw_data_len <= 1 {
        return Err(count_error(msg_png_length_chars(), raw_data_len));
    }
    let data_len = (raw_data_len - 1) as usize;
    let png_data = match reader.lazy_src() {
        Some(src) => {
            let start = reader.position();
            proof { reader.lemma_wf_bounds(); }
    assert(reader.spec_pos() <= reader.spec_data().len());
            let end: u64 = start + data_len as u64;
            if end > src.len() as u64 {
                let mut m: Vec<char> = vec!['C', 'a', 'n', 'v', 'a', 's', ' ', 'd', 'a', 't', 'a', ' ', 'r', 'a', 'n', 'g', 'e', ' '];
                push_all(&mut m, decimal_u64(start).as_slice());
                push_all(&mut m, vec!['.', '.'].as_slice());
                push_all(&mut m, decimal_u64(end).as_slice());
                push_all(&mut m, vec![' ', 'e', 'x', 'c', 'e', 'e', 'd', 's', ' ', 's', 'o', 'u', 'r', 'c', 'e', ' ', 'b', 'u', 'f', 'f', 'e', 'r', ' ', '('].as_slice());
                push_all(&mut m, decimal_u64(src.len() as u64).as_slice());
                push_all(&mut m, vec![' ', 'b', 'y', 't', 'e', 's', ')'].as_slice());
                assert(m@ =~= msg_canvas_range(start as int, end as int, src@.len() as int));
                return Err(WzError::Custom(string_from_chars(m.as_slice())));
            }
            reader.seek(end);
            CanvasData::Ref { src, offset: start as usize, len: data_len }
        },
        None => CanvasData::Loaded(reader.read_bytes(data_len)?),
    };
    let format = WzPngFormat::from_combined(if format_low < 0 { 0 } else { format_low as u32 });
    let scale: u8 = if format_high < 0 {
        0
    } else if format_high > 255 {
        255
    } else {
        format_high as u8
    };
    Ok(WzProperty::Canvas { width, height, format, scale, properties, png_data })
}

/// Checks a WAVEFORMATEX header: when its size field does not match its
/// length, XORs it with `wz_key` and reports whether it is valid afterwards.
/// Returns false (and leaves it unchanged) when it is already valid or shorter
/// than 18 bytes.
pub fn try_decrypt_wave_format(wav_header: &mut Vec<u8>, wz_key: &[u8]) -> (ok: bool)
    ensures
        (ok, final(wav_header)@) == wave_format_fix(old(wav_header)@, wz_key@),
{
    if wav_header.len() < 18 {
        return false;
    }
    let extra = wav_header[16] as usize + 256 * (wav_header[17] as usize);
    if 18 + extra == wav_header.len() {
        return false;
    }
    let ghost h = wav_header@;
    let mut i = 0usize;
    while i < wav_header.len()
        invariant
            0 <= i <= wav_header.len(),
            wav_header@.len() == h.len(),
            forall|j: int| 0 <= j < i ==> wav_header@[j] == (if j < wz_key@.len() { h[j] ^ wz_key@[j] } else { h[j] }),
            forall|j: int| i <= j < h.len() ==> wav_header@[j] == h[j],
        decreases wav_header.len() - i,
    {
        if i < wz_key.len() {
            let b = wav_header[i] ^ wz_key[i];
            wav_header.set(i, b);
        }
        i = i + 1;
    }
    assert(wav_header@ =~= wave_format_fix(h, wz_key@).1);
    let extra2 = wav_header[16] as usize + 256 * (wav_header[17] as usize);
    18 + extra2 == wav_header.len()
}

fn parse_sound_property(reader: &mut WzBinaryReader) -> (res: WzResult<WzProperty>)
    requires
        old(reader).wf(),
    ensures
        same_source(old(reader), final(reader)),
        agrees_prop(res, sp_sound(old(reader).spec_data(), old(reader).spec_iv(), old(reader).spec_pos()), final(reader).spec_pos()),
{
    proof {
        reveal(sp_sound);
    }
    let _padding = reader.read_u8()?;
    let sound_data_len = reader.read_compressed_int()?;
    let duration = reader.read_compressed_int()?;
    let header_off = reader.position();
    proof { reader.lemma_wf_bounds(); }
    assert(reader.spec_pos() <= reader.spec_data().len());
    reader.seek(header_off + 51);
    let wav_format_len = reader.read_u8()? as usize;
    reader.seek(header_off);
    let sound_header_bytes = reader.read_bytes(51)?;
    let unk1 = reader.read_bytes(1)?;
    let mut wav_format_bytes = reader.read_bytes(wav_format_len)?;
    let key_slice = reader.key_slice(if wav_format_len > 1 { wav_format_len } else { 1 });
    try_decrypt_wave_format(&mut wav_format_bytes, key_slice.as_slice());
    let mut header: Vec<u8> = Vec::new();
    push_all(&mut header, sound_header_bytes.as_slice());
    push_all(&mut header, unk1.as_slice());
    push_all(&mut header, wav_format_bytes.as_slice());
    assert(header@ =~= sound_header_bytes@ + unk1@ + wav_format_bytes@);
    let audio_data = reader.read_bytes(sound_data_len as usize)?;
    Ok(WzProperty::Sound { duration_ms: duration, data: audio_data, header })
}

fn parse_uol(reader: &mut WzBinaryReader, offset: u64) -> (res: WzResult<WzProperty>)
    requires
        old(reader).wf(),
    ensures
        same_source(old(reader), final(reader)),
        agrees_prop(res, sp_uol(ctx(old(reader), offset as int), old(reader).spec_pos()), final(reader).spec_pos()),
{
    proof {
        reveal(sp_uol);
    }
    let _skip = reader.read_u8()?;
    let uol_type = reader.read_u8()?;
    let path = if uol_type == 0x00 {
        reader.read_wz_string()?
    } else if uol_type == 0x01 {
        let rel = reader.read_i32()?;
        reader.read_string_at_offset(offset.wrapping_add_signed(rel as i64))?
    } else {
        return Err(byte_error(msg_uol_type_chars(), uol_type));
    };
    Ok(WzProperty::Uol(string_from_chars(path.as_slice())))
}

fn parse_raw_data(reader: &mut WzBinaryReader, offset: u64) -> (res: WzResult<WzProperty>)
    requires
        old(reader).wf(),
    ensures
        same_source(old(reader), final(reader)),
        agrees_prop(res, sp_raw_data(ctx(old(reader), offset as int), old(reader).spec_pos()), final(reader).spec_pos()),
    decreases fuel(old(reader).spec_data(), old(reader).spec_pos()),
{
    let raw_type = reader.read_u8()?;
    let properties = if raw_type == 1 {
        let has_props = reader.read_u8()?;
        if has_props == 1 {
            let _padding = reader.read_u16()?;
            parse_property_list(reader, offset)?
        } else {
            proof {
                assert(props_model(Seq::<(String, WzProperty)>::empty()) =~= Seq::<(Seq<char>, PropV)>::empty());
            }
            Vec::new()
        }
    } else {
        proof {
            assert(props_model(Seq::<(String, WzProperty)>::empty()) =~= Seq::<(Seq<char>, PropV)>::empty());
        }
        Vec::new()
    };
    let len = reader.read_compressed_int()?;
    let data = reader.read_bytes(len as usize)?;
    Ok(WzProperty::RawData { raw_type, properties, data })
}

fn parse_video(reader: &mut WzBinaryReader, offset: u64) -> (res: WzResult<WzProperty>)
    requires
        old(reader).wf(),
    ensures
        same_source(old(reader), final(reader)),
        agrees_prop(res, sp_video(ctx(old(reader), offset as int), old(reader).spec_pos()), final(reader).spec_pos()),
    decreases fuel(old(reader).spec_data(), old(reader).spec_pos()),
{
    let _skip = reader.read_u8()?;
    let has_props = reader.read_u8()?;
    let properties = read_optional_properties(reader, offset, has_props)?;
    let video_type = reader.read_u8()?;
    let data_len = reader.read_compressed_int()?;
    let data_offset = reader.position();
    let video_data = reader.read_bytes(data_len as usize)?;
    Ok(WzProperty::Video {
        video_type,
        properties,
        data_offset,
        data_length: data_len as u32,
        video_data: Some(video_data),
    })
}


/// Where an image header's `"Property"` tag is: inline at a position, or at
/// a string offset.
pub enum TagAt {
    Inline(u64),
    Offset(u64),
}

/// The IV tried `k`-th when an image header does not decrypt.
pub(crate) fn known_iv(k: usize) -> (iv: [u8; 4])
    requires
        k < 3,
    ensures
        iv == known_ivs()[k as int],
{
    if k == 0 {
        WZ_BMSCLASSIC_IV
    } else if k == 1 {
        WZ_GMSIV
    } else {
        WZ_MSEAIV
    }
}

/// The model of a parsed image: (properties, IV) or an error.
pub open spec fn agrees_image(res: WzResult<Vec<(String, WzProperty)>>, s: Result<(PropList, [u8; 4]), ErrV>, iv: [u8; 4]) -> bool {
    match s {
        Ok((props, siv)) => res matches Ok(v) && props_model(v@) == props && iv == siv,
        Err(e) => res matches Err(err) && err@ == e,
    }
}

/// The header tag read with the reader's current IV (see [`tag_with_iv`]).
fn read_tag(reader: &mut WzBinaryReader, loc: &TagAt) -> (attempt: Option<Vec<char>>)
    requires
        old(reader).wf(),
    ensures
        same_source(old(reader), final(reader)),
        match *loc {
            TagAt::Offset(_) => final(reader).spec_pos() == old(reader).spec_pos(),
            TagAt::Inline(_) => true,
        },
        match attempt {
            Some(s) => tag_with_iv(old(reader).spec_data(), old(reader).spec_iv(), match *loc {
                TagAt::Inline(pa) => TagLoc::Inline(pa as int),
                TagAt::Offset(sp) => TagLoc::Offset(sp as int, old(reader).spec_pos()),
            }) == Some((s@, final(reader).spec_pos())),
            None => tag_with_iv(old(reader).spec_data(), old(reader).spec_iv(), match *loc {
                TagAt::Inline(pa) => TagLoc::Inline(pa as int),
                TagAt::Offset(sp) => TagLoc::Offset(sp as int, old(reader).spec_pos()),
            }) is None,
        },
{
    proof {
        reveal(tag_with_iv);
    }
    match loc {
        TagAt::Inline(pa) => {
            reader.seek(*pa);
            match reader.read_wz_string() {
                Ok(s) => match reader.read_u16() {
                    Ok(v) => if v == 0 {
                        Some(s)
                    } else {
                        None
                    },
                    Err(_) => None,
                },
                Err(_) => None,
            }
        },
        TagAt::Offset(sp) => match reader.read_string_at_offset(*sp) {
            Ok(s) => Some(s),
            Err(_) => None,
        },
    }
}

proof fn lemma_fallback_step(d: Seq<u8>, k: int, lazy: Option<Seq<u8>>, off: int, loc: TagLoc)
    requires
        0 <= k < 3,
    ensures
        sp_fallback(d, known_ivs().subrange(k, 3), lazy, off, loc) == (match tag_with_iv(d, known_ivs()[k], loc) {
            Some((s, q)) if s == crate::grammar::chars_property() => match sp_list(Ctx { d, iv: known_ivs()[k], lazy, off }, q) {
                Ok((props, _)) => Ok((props, known_ivs()[k])),
                Err(e) => Err(e),
            },
            _ => sp_fallback(d, known_ivs().subrange(k + 1, 3), lazy, off, loc),
        }),
{
    reveal(sp_fallback);
    let rest = known_ivs().subrange(k, 3);
    assert(rest[0] == known_ivs()[k]);
    assert(rest.subrange(1, rest.len() as int) =~= known_ivs().subrange(k + 1, 3));
}

/// Image encrypted with another IV than the reader's: retries the header tag
/// with each known IV and parses the property list with the first that
/// reads `"Property"` (which stays the reader's IV).
fn try_iv_fallback(reader: &mut WzBinaryReader, offset: u64, loc: TagAt) -> (res: WzResult<Vec<(String, WzProperty)>>)
    requires
        old(reader).wf(),
    ensures
        final(reader).wf(),
        final(reader).spec_data() == old(reader).spec_data(),
        final(reader).spec_lazy() == old(reader).spec_lazy(),
        agrees_image(res, sp_fallback(old(reader).spec_data(), known_ivs(), old(reader).spec_lazy(), offset as int,
            match loc {
                TagAt::Inline(pa) => TagLoc::Inline(pa as int),
                TagAt::Offset(sp) => TagLoc::Offset(sp as int, old(reader).spec_pos()),
            }), final(reader).spec_iv()),
{
    let ghost d = reader.spec_data();
    let ghost lazy = reader.spec_lazy();
    let ghost sloc = match loc {
        TagAt::Inline(pa) => TagLoc::Inline(pa as int),
        TagAt::Offset(sp) => TagLoc::Offset(sp as int, reader.spec_pos()),
    };
    let ghost cur = reader.spec_pos();
    let property = name_property();
    let mut k: usize = 0;
    assert(known_ivs().subrange(0, 3) =~= known_ivs());
    while k < 3
        invariant
            0 <= k <= 3,
            reader.wf(),
            reader.spec_data() == d,
            reader.spec_lazy() == lazy,
            d == old(reader).spec_data(),
            lazy == old(reader).spec_lazy(),
            cur == old(reader).spec_pos(),
            property@ == crate::grammar::chars_property(),
            match loc {
                TagAt::Offset(sp) => reader.spec_pos() == cur && sloc == TagLoc::Offset(sp as int, cur),
                TagAt::Inline(pa) => sloc == TagLoc::Inline(pa as int),
            },
            sp_fallback(d, known_ivs(), lazy, offset as int, sloc) == sp_fallback(d, known_ivs().subrange(k as int, 3), lazy, offset as int, sloc),
        decreases 3 - k,
    {
        let iv = known_iv(k);
        reader.set_iv(iv);
        proof {
            lemma_fallback_step(d, k as int, lazy, offset as int, sloc);
        }
        let attempt = read_tag(reader, &loc);
        if let Some(s) = attempt {
            if chars_eq(s.as_slice(), property.as_slice()) {
                assert(ctx(reader, offset as int) == Ctx { d, iv: known_ivs()[k as int], lazy, off: offset as int });
                return parse_property_list(reader, offset);
            }
        }
        k = k + 1;
    }
    proof {
        reveal(sp_fallback);
        assert(known_ivs().subrange(3, 3).len() == 0);
    }
    Err(WzError::InvalidImageHeader(0))
}

/// A Lua script: a compressed-int length, then the bytes.
fn read_lua_data(reader: &mut WzBinaryReader) -> (res: WzResult<Vec<u8>>)
    requires
        old(reader).wf(),
    ensures
        same_source(old(reader), final(reader)),
        match crate::reader::rd_cint(old(reader).spec_data(), old(reader).spec_pos()) {
            None => res matches Err(e) && e@ == ErrV::UnexpectedEof,
            Some((n, q)) => match crate::reader::rd_bytes(old(reader).spec_data(), q, (n as usize) as int) {
                None => res matches Err(e) && e@ == ErrV::UnexpectedEof,
                Some((bytes, _)) => res matches Ok(v) && v@ == bytes,
            },
        },
{
    let len = reader.read_compressed_int()?;
    reader.read_bytes(len as usize)
}

/// Parses a whole image at the reader's position: its header, then its
/// property tree. An image whose header tag does not decrypt with the
/// reader's IV is retried with each known IV; the one that works stays set.
pub fn parse_image(reader: &mut WzBinaryReader) -> (res: WzResult<Vec<(String, WzProperty)>>)
    requires
        old(reader).wf(),
    ensures
        final(reader).wf(),
        final(reader).spec_data() == old(reader).spec_data(),
        final(reader).spec_lazy() == old(reader).spec_lazy(),
        agrees_image(res, sp_image(old(reader).spec_data(), old(reader).spec_iv(), old(reader).spec_lazy(), old(reader).spec_pos()), final(reader).spec_iv()),
{
    let offset = reader.position();
    let header_byte = reader.read_u8()?;
    if header_byte == 0x73 {
        let pos_after_header = reader.position();
        let prop_str = reader.read_wz_string()?;
        let val = reader.read_u16()?;
        if chars_eq(prop_str.as_slice(), name_property().as_slice()) && val == 0 {
            return parse_property_list(reader, offset);
        }
        try_iv_fallback(reader, offset, TagAt::Inline(pos_after_header))
    } else if header_byte == 0x1B {
        let str_offset = reader.read_i32()?;
        let string_pos = offset.wrapping_add_signed(str_offset as i64);
        let prop_str = reader.read_string_at_offset(string_pos)?;
        let val = reader.read_u16()?;
        if chars_eq(prop_str.as_slice(), name_property().as_slice()) && val == 0 {
            return parse_property_list(reader, offset);
        }
        if val != 0 {
            return Err(WzError::InvalidImageHeader(header_byte));
        }
        try_iv_fallback(reader, offset, TagAt::Offset(string_pos))
    } else if header_byte == 0x01 {
        let data = read_lua_data(reader)?;
        let mut props: Vec<(String, WzProperty)> = Vec::new();
        let name = string_from_chars(name_script().as_slice());
        props.push((name, WzProperty::Lua(data)));
        proof {
            lemma_props_model_push(Seq::<(String, WzProperty)>::empty(), (name, WzProperty::Lua(data)));
            assert(props@ =~= Seq::<(String, WzProperty)>::empty().push((name, WzProperty::Lua(data))));
            assert(props_model(Seq::<(String, WzProperty)>::empty()) =~= Seq::<(Seq<char>, PropV)>::empty());
        }
        Ok(props)
    } else {
        Err(WzError::InvalidImageHeader(header_byte))
    }
}

/// Like [`parse_image`], but canvas pixel data is recorded as a range of
/// `src` (shared, not copied). `src` should hold the bytes the reader reads.
pub fn parse_image_lazy(reader: &mut WzBinaryReader, src: Arc<Vec<u8>>) -> (res: WzResult<Vec<(String, WzProperty)>>)
    requires
        old(reader).wf(),
    ensures
        final(reader).wf(),
        final(reader).spec_data() == old(reader).spec_data(),
        final(reader).spec_lazy() is None,
        agrees_image(res, sp_image(old(reader).spec_data(), old(reader).spec_iv(), Some((*src)@), old(reader).spec_pos()), final(reader).spec_iv()),
{
    reader.set_lazy_src(Some(src));
    let result = parse_image(reader);
    reader.set_lazy_src(None);
    result
}

} // verus!
