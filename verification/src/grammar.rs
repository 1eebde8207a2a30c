//! The WZ image property-tree encoding, as spec functions: what a parse
//! starting at a byte position yields and where it ends.
use vstd::prelude::*;
use crate::error::ErrV;
use crate::property::{PropV, PropList, CanvasV};
use crate::types::WzPngFormat;
use crate::reader::{rd_u8, rd_u16, rd_i16, rd_u32, rd_i32, rd_u64, rd_cint, rd_clong, rd_bytes, rd_wz_string, rd_string_block, rel_target};
use crate::crypto::key_prefix;
use crate::text::{decimal, hex_byte};

verus! {

/// Upper bound on the number of entries of a property list.
pub const MAX_PROPERTY_COUNT: i32 = 500_000;

/// Upper bound on the number of points of a convex shape.
pub const MAX_CONVEX_POINTS: i32 = 100_000;

/// Length of a sound's fixed header (the media-type GUIDs).
pub const SOUND_HEADER_LEN: usize = 51;

/// Size of a WAVEFORMATEX structure without extra data.
pub const WAVE_FORMAT_SIZE: usize = 18;

pub open spec fn chars_property() -> Seq<char> {
    seq!['P', 'r', 'o', 'p', 'e', 'r', 't', 'y']
}

pub open spec fn chars_canvas() -> Seq<char> {
    seq!['C', 'a', 'n', 'v', 'a', 's']
}

pub open spec fn chars_vector() -> Seq<char> {
    seq!['S', 'h', 'a', 'p', 'e', '2', 'D', '#', 'V', 'e', 'c', 't', 'o', 'r', '2', 'D']
}

pub open spec fn chars_convex() -> Seq<char> {
    seq!['S', 'h', 'a', 'p', 'e', '2', 'D', '#', 'C', 'o', 'n', 'v', 'e', 'x', '2', 'D']
}

pub open spec fn chars_sound() -> Seq<char> {
    seq!['S', 'o', 'u', 'n', 'd', '_', 'D', 'X', '8']
}

pub open spec fn chars_uol() -> Seq<char> {
    seq!['U', 'O', 'L']
}

pub open spec fn chars_raw_data() -> Seq<char> {
    seq!['R', 'a', 'w', 'D', 'a', 't', 'a']
}

pub open spec fn chars_video() -> Seq<char> {
    seq!['C', 'a', 'n', 'v', 'a', 's', '#', 'V', 'i', 'd', 'e', 'o']
}

pub open spec fn chars_script() -> Seq<char> {
    seq!['S', 'c', 'r', 'i', 'p', 't']
}

/// Where a parse stands: the data, the key stream's IV, the lazily shared
/// canvas buffer (if any) and the image's start offset (string references
/// are relative to it).
pub struct Ctx {
    pub d: Seq<u8>,
    pub iv: [u8; 4],
    pub lazy: Option<Seq<u8>>,
    pub off: int,
}

/// Termination measure: bytes left from position `p` (0 past the end).
pub open spec fn fuel(d: Seq<u8>, p: int) -> nat {
    if p < 0 {
        (d.len() + 2) as nat
    } else if p <= d.len() {
        (d.len() + 1 - p) as nat
    } else {
        0
    }
}

/// The position to continue from after a parse that started at `p` and
/// ended at `q`. Parses always end after their start
/// ([`lemma_value_advances`]), so this is `q`; it only makes the forward
/// progress evident to the termination check.
pub open spec fn forward(p: int, q: int) -> int {
    if q > p {
        q
    } else {
        p + 1
    }
}

/// Result of parsing at a position: a value and the position after it.
pub type PRes<T> = Result<(T, int), ErrV>;

pub open spec fn eof<T>() -> PRes<T> {
    Err(ErrV::UnexpectedEof)
}

/// An invalid-count message: `prefix` followed by the decimal count.
pub open spec fn count_message(prefix: Seq<char>, n: i32) -> Seq<char> {
    prefix + decimal(n as int)
}

pub open spec fn msg_property_count() -> Seq<char> {
    seq!['I', 'n', 'v', 'a', 'l', 'i', 'd', ' ', 'p', 'r', 'o', 'p', 'e', 'r', 't', 'y', ' ', 'c', 'o', 'u', 'n', 't', ':', ' ']
}

pub open spec fn msg_convex_count() -> Seq<char> {
    seq!['I', 'n', 'v', 'a', 'l', 'i', 'd', ' ', 'c', 'o', 'n', 'v', 'e', 'x', ' ', 'p', 'o', 'i', 'n', 't', ' ', 'c', 'o', 'u', 'n', 't', ':', ' ']
}

pub open spec fn msg_ext_type_byte() -> Seq<char> {
    seq!['I', 'n', 'v', 'a', 'l', 'i', 'd', ' ', 'e', 'x', 't', 'e', 'n', 'd', 'e', 'd', ' ', 'p', 'r', 'o', 'p', ' ', 't', 'y', 'p', 'e', ' ', 'b', 'y', 't', 'e', ':', ' ']
}

pub open spec fn msg_uol_type() -> Seq<char> {
    seq!['U', 'n', 's', 'u', 'p', 'p', 'o', 'r', 't', 'e', 'd', ' ', 'U', 'O', 'L', ' ', 't', 'y', 'p', 'e', ':', ' ']
}

pub open spec fn msg_png_length() -> Seq<char> {
    seq!['I', 'n', 'v', 'a', 'l', 'i', 'd', ' ', 'P', 'N', 'G', ' ', 'd', 'a', 't', 'a', ' ', 'l', 'e', 'n', 'g', 't', 'h', ':', ' ']
}

/// `Canvas data range {start}..{end} exceeds source buffer ({len} bytes)`.
pub open spec fn msg_canvas_range(start: int, end: int, len: int) -> Seq<char> {
    seq!['C', 'a', 'n', 'v', 'a', 's', ' ', 'd', 'a', 't', 'a', ' ', 'r', 'a', 'n', 'g', 'e', ' ']
        + decimal(start) + seq!['.', '.'] + decimal(end)
        + seq![' ', 'e', 'x', 'c', 'e', 'e', 'd', 's', ' ', 's', 'o', 'u', 'r', 'c', 'e', ' ', 'b', 'u', 'f', 'f', 'e', 'r', ' ', '(']
        + decimal(len) + seq![' ', 'b', 'y', 't', 'e', 's', ')']
}

pub open spec fn msg_empty_path() -> Seq<char> {
    seq!['p', 'a', 'r', 's', 'e', '_', 'i', 'm', 'a', 'g', 'e', '_', 'p', 'a', 't', 'h', ':', ' ', 'e', 'm', 'p', 't', 'y', ' ', 'p', 'a', 't', 'h']
}

/// Validates a WAVEFORMATEX header; when its size field does not match its
/// length, XORs it with `key` (byte `i` with key byte `i` where the key has
/// one) and reports whether the result is valid. Returns (valid after
/// decryption, resulting bytes).
pub open spec fn wave_format_fix(h: Seq<u8>, key: Seq<u8>) -> (bool, Seq<u8>) {
    if h.len() < 18 {
        (false, h)
    } else if 18 + (h[16] + 256 * h[17]) == h.len() {
        (false, h)
    } else {
        let x = Seq::new(h.len(), |i: int| if i < key.len() { h[i] ^ key[i] } else { h[i] });
        (18 + (x[16] + 256 * x[17]) == x.len(), x)
    }
}

/// A type name of an extended property: by reference (`0x01`/`0x1B`) or
/// inline (`0x00`/`0x73`); `None` with any other type byte.
pub open spec fn ext_type_name(c: Ctx, p: int) -> Option<Result<(Seq<char>, int), ErrV>> {
    match rd_u8(c.d, p) {
        None => Some(eof()),
        Some((tb, q)) => if tb == 0x01 || tb == 0x1B {
            match rd_i32(c.d, q) {
                None => Some(eof()),
                Some((rel, q2)) => match rd_wz_string(c.d, c.iv, rel_target(c.off, rel)) {
                    None => Some(eof()),
                    Some((s, _)) => Some(Ok((s, q2))),
                },
            }
        } else if tb == 0x00 || tb == 0x73 {
            match rd_wz_string(c.d, c.iv, q) {
                None => Some(eof()),
                Some((s, q2)) => Some(Ok((s, q2))),
            }
        } else {
            None
        },
    }
}

/// A property value of a marker other than `0x09`, with the marker `t`
/// already read and the value's bytes at `q`.
#[verifier::opaque]
pub open spec fn sp_simple_value(c: Ctx, t: u8, q: int) -> PRes<Option<PropV>> {
    if t == 0x00 {
        Ok((Some(PropV::Null), q))
    } else if t == 0x02 || t == 0x0B {
        match rd_i16(c.d, q) {
            None => eof(),
            Some((v, q2)) => Ok((Some(PropV::Short(v)), q2)),
        }
    } else if t == 0x03 || t == 0x13 {
        match rd_cint(c.d, q) {
            None => eof(),
            Some((v, q2)) => Ok((Some(PropV::Int(v)), q2)),
        }
    } else if t == 0x14 {
        match rd_clong(c.d, q) {
            None => eof(),
            Some((v, q2)) => Ok((Some(PropV::Long(v)), q2)),
        }
    } else if t == 0x04 {
        match rd_u8(c.d, q) {
            None => eof(),
            Some((ind, q2)) => if ind == 0x80 {
                match rd_u32(c.d, q2) {
                    None => eof(),
                    Some((bits, q3)) => Ok((Some(PropV::Float(bits)), q3)),
                }
            } else if ind == 0x00 {
                Ok((Some(PropV::Float(0)), q2))
            } else {
                Ok((None, q2))
            },
        }
    } else if t == 0x05 {
        match rd_u64(c.d, q) {
            None => eof(),
            Some((bits, q2)) => Ok((Some(PropV::Double(bits)), q2)),
        }
    } else if t == 0x08 {
        match rd_string_block(c.d, c.iv, c.off, q) {
            None => eof(),
            Some((s, q2)) => Ok((Some(PropV::String(s)), q2)),
        }
    } else {
        Err(ErrV::UnknownPropertyType(hex_byte(t)))
    }
}

/// A property value at `p` (marker byte first). `Ok((None, q))` for a float
/// with an unknown indicator byte, which is skipped. Marker `0x09` is an
/// extended property in a block of the given size; parsing continues after
/// the block.
pub open spec fn sp_value(c: Ctx, p: int) -> PRes<Option<PropV>>
    decreases fuel(c.d, p), 0int, 0int,
{
    match rd_u8(c.d, p) {
        None => eof(),
        Some((t, q)) => if t == 0x09 {
            match rd_u32(c.d, q) {
                None => eof(),
                Some((size, q2)) => match sp_extended(c, q2) {
                    Err(e) => Err(e),
                    Ok((v, _)) => Ok((Some(v), q2 + size)),
                },
            }
        } else {
            sp_simple_value(c, t, q)
        },
    }
}

/// `n` more (name, value) entries of a property list starting at `p`;
/// entries whose value is skipped are left out.
pub open spec fn sp_entries(c: Ctx, p: int, n: int) -> PRes<PropList>
    decreases fuel(c.d, p), 0int, n,
{
    if n <= 0 {
        Ok((Seq::empty(), p))
    } else {
        proof {
            lemma_block_advances(c.d, c.iv, c.off, p);
        }
        match rd_string_block(c.d, c.iv, c.off, p) {
            None => eof(),
            Some((name, q)) => match sp_value(c, q) {
                Err(e) => Err(e),
                Ok((v, q2)) => match sp_entries(c, forward(p, q2), n - 1) {
                    Err(e) => Err(e),
                    Ok((rest, q3)) => match v {
                        Some(pv) => Ok((seq![(name, pv)] + rest, q3)),
                        None => Ok((rest, q3)),
                    },
                },
            },
        }
    }
}

/// A property list at `p`: a compressed-int count (0 to
/// [`MAX_PROPERTY_COUNT`]), then that many entries.
pub open spec fn sp_list(c: Ctx, p: int) -> PRes<PropList>
    decreases fuel(c.d, p), 0int, 0int,
{
    match rd_cint(c.d, p) {
        None => eof(),
        Some((n, q)) => if n < 0 || n > MAX_PROPERTY_COUNT {
            Err(ErrV::Custom(count_message(msg_property_count(), n)))
        } else {
            sp_entries(c, q, n as int)
        },
    }
}

/// Child properties that follow a flag byte: a `u16` of padding and a list
/// when the flag is 1, none otherwise.
pub open spec fn sp_optional_list(c: Ctx, p: int, flag: u8) -> PRes<PropList>
    decreases fuel(c.d, p), 1int, 0int,
{
    if flag == 1 {
        match rd_u16(c.d, p) {
            None => eof(),
            Some((_, q)) => sp_list(c, q),
        }
    } else {
        Ok((Seq::empty(), p))
    }
}

/// The points of a convex shape: `n` more extended properties at `p`, named
/// by their index starting at `i`.
pub open spec fn sp_points(c: Ctx, p: int, i: int, n: int) -> PRes<PropList>
    decreases fuel(c.d, p), 1int, n - i,
{
    if i >= n {
        Ok((Seq::empty(), p))
    } else {
        match sp_extended(c, p) {
            Err(e) => Err(e),
            Ok((v, q)) => match sp_points(c, forward(p, q), i + 1, n) {
                Err(e) => Err(e),
                Ok((rest, q2)) => Ok((seq![(decimal(i), v)] + rest, q2)),
            },
        }
    }
}

/// The canvas payload after its type name.
pub open spec fn sp_canvas(c: Ctx, p: int) -> PRes<PropV>
    decreases fuel(c.d, p), 0int, 0int,
{
    match rd_u8(c.d, p) {
        None => eof(),
        Some((_, q)) => match rd_u8(c.d, q) {
            None => eof(),
            Some((has_children, q1)) => match sp_optional_list(c, q1, has_children) {
                Err(e) => Err(e),
                Ok((props, q2)) => sp_canvas_tail(c, q2, props),
            },
        },
    }
}

/// The scale exponent stored in a canvas header, clamped to a byte.
pub open spec fn clamp_scale(v: i32) -> u8 {
    if v < 0 {
        0
    } else if v > 255 {
        255
    } else {
        v as u8
    }
}

#[verifier::opaque]
/// The canvas fields after its child list: width, height, codec id and scale
/// (compressed ints), a zero `i32`, the data length + 1 (`i32`), a header
/// byte, then the compressed pixel data.
pub open spec fn sp_canvas_tail(c: Ctx, p: int, props: PropList) -> PRes<PropV> {
    match rd_cint(c.d, p) {
        None => eof(),
        Some((width, p1)) => match rd_cint(c.d, p1) {
            None => eof(),
            Some((height, p2)) => match rd_cint(c.d, p2) {
                None => eof(),
                Some((flow, p3)) => match rd_cint(c.d, p3) {
                    None => eof(),
                    Some((fhigh, p4)) => match rd_i32(c.d, p4) {
                        None => eof(),
                        Some((_, p5)) => match rd_i32(c.d, p5) {
                            None => eof(),
                            Some((raw_len, p6)) => match rd_u8(c.d, p6) {
                                None => eof(),
                                Some((_, p7)) => if raw_len <= 1 {
                                    Err(ErrV::Custom(count_message(msg_png_length(), raw_len)))
                                } else {
                                    let n = raw_len - 1;
                                    let format = WzPngFormat::spec_from_id(if flow < 0 { 0u32 } else { flow as u32 });
                                    let scale = clamp_scale(fhigh);
                                    match c.lazy {
                                        Some(src) => if p7 + n > src.len() {
                                            Err(ErrV::Custom(msg_canvas_range(p7, p7 + n, src.len() as int)))
                                        } else {
                                            Ok((PropV::Canvas {
                                                width,
                                                height,
                                                format,
                                                scale,
                                                properties: props,
                                                png_data: CanvasV::Ref { src, offset: p7 as nat, len: n as nat },
                                            }, p7 + n))
                                        },
                                        None => match rd_bytes(c.d, p7, n) {
                                            None => eof(),
                                            Some((bytes, p8)) => Ok((PropV::Canvas {
                                                width,
                                                height,
                                                format,
                                                scale,
                                                properties: props,
                                                png_data: CanvasV::Loaded(bytes),
                                            }, p8)),
                                        },
                                    }
                                },
                            },
                        },
                    },
                },
            },
        },
    }
}

#[verifier::opaque]
/// The sound payload after its type name: padding byte, data length and
/// duration (compressed ints), the 51-byte header, one byte, the
/// WAVEFORMATEX (its length is that byte), then the audio data.
pub open spec fn sp_sound(d: Seq<u8>, iv: [u8; 4], p: int) -> PRes<PropV> {
    match rd_u8(d, p) {
        None => eof(),
        Some((_, p1)) => match rd_cint(d, p1) {
            None => eof(),
            Some((len, p2)) => match rd_cint(d, p2) {
                None => eof(),
                Some((duration, p3)) => match rd_u8(d, p3 + 51) {
                    None => eof(),
                    Some((wav_len, _)) => match rd_bytes(d, p3, 51) {
                        None => eof(),
                        Some((head, p4)) => match rd_bytes(d, p4, 1) {
                            None => eof(),
                            Some((unk, p5)) => match rd_bytes(d, p5, wav_len as int) {
                                None => eof(),
                                Some((wav, p6)) => {
                                    let key = key_prefix(iv, if wav_len > 1 { wav_len as nat } else { 1 });
                                    let fixed = wave_format_fix(wav, key).1;
                                    match rd_bytes(d, p6, (len as usize) as int) {
                                        None => eof(),
                                        Some((audio, p7)) => Ok((PropV::Sound {
                                            duration_ms: duration,
                                            header: head + unk + fixed,
                                            data: audio,
                                        }, p7)),
                                    }
                                },
                            },
                        },
                    },
                },
            },
        },
    }
}

#[verifier::opaque]
/// The UOL payload after its type name: a skipped byte, then the path,
/// inline (type 0) or by reference (type 1).
pub open spec fn sp_uol(c: Ctx, p: int) -> PRes<PropV> {
    match rd_u8(c.d, p) {
        None => eof(),
        Some((_, p1)) => match rd_u8(c.d, p1) {
            None => eof(),
            Some((ty, p2)) => if ty == 0 {
                match rd_wz_string(c.d, c.iv, p2) {
                    None => eof(),
                    Some((s, p3)) => Ok((PropV::Uol(s), p3)),
                }
            } else if ty == 1 {
                match rd_i32(c.d, p2) {
                    None => eof(),
                    Some((rel, p3)) => match rd_wz_string(c.d, c.iv, rel_target(c.off, rel)) {
                        None => eof(),
                        Some((s, _)) => Ok((PropV::Uol(s), p3)),
                    },
                }
            } else {
                Err(ErrV::Custom(msg_uol_type() + hex_byte(ty)))
            },
        },
    }
}

/// The raw-data payload after its type name.
pub open spec fn sp_raw_data(c: Ctx, p: int) -> PRes<PropV>
    decreases fuel(c.d, p), 0int, 0int,
{
    match rd_u8(c.d, p) {
        None => eof(),
        Some((raw_type, p1)) => {
            let props = if raw_type == 1 {
                match rd_u8(c.d, p1) {
                    None => eof(),
                    Some((has, p2)) => if has == 1 {
                        match rd_u16(c.d, p2) {
                            None => eof(),
                            Some((_, p3)) => sp_list(c, p3),
                        }
                    } else {
                        Ok((Seq::empty(), p2))
                    },
                }
            } else {
                Ok((Seq::empty(), p1))
            };
            match props {
                Err(e) => Err(e),
                Ok((props, p4)) => match rd_cint(c.d, p4) {
                    None => eof(),
                    Some((len, p5)) => match rd_bytes(c.d, p5, (len as usize) as int) {
                        None => eof(),
                        Some((data, p6)) => Ok((PropV::RawData { raw_type, properties: props, data }, p6)),
                    },
                },
            }
        },
    }
}

/// The video payload after its type name.
pub open spec fn sp_video(c: Ctx, p: int) -> PRes<PropV>
    decreases fuel(c.d, p), 0int, 0int,
{
    match rd_u8(c.d, p) {
        None => eof(),
        Some((_, p1)) => match rd_u8(c.d, p1) {
            None => eof(),
            Some((has, p2)) => match sp_optional_list(c, p2, has) {
                Err(e) => Err(e),
                Ok((props, p3)) => match rd_u8(c.d, p3) {
                    None => eof(),
                    Some((video_type, p4)) => match rd_cint(c.d, p4) {
                        None => eof(),
                        Some((len, p5)) => match rd_bytes(c.d, p5, (len as usize) as int) {
                            None => eof(),
                            Some((data, p6)) => Ok((PropV::Video {
                                video_type,
                                properties: props,
                                data_offset: p5 as u64,
                                data_length: len as u32,
                                video_data: Some(data),
                            }, p6)),
                        },
                    },
                },
            },
        },
    }
}

/// A `"Property"` container after its type name: `u16` padding, then a list.
pub open spec fn sp_sub(c: Ctx, p: int) -> PRes<PropV>
    decreases fuel(c.d, p), 0int, 0int,
{
    match rd_u16(c.d, p) {
        None => eof(),
        Some((_, q)) => match sp_list(c, q) {
            Err(e) => Err(e),
            Ok((props, q2)) => Ok((PropV::SubProperty(props), q2)),
        },
    }
}

/// A 2-D vector after its type name: x and y as compressed ints.
#[verifier::opaque]
pub open spec fn sp_vector(c: Ctx, p: int) -> PRes<PropV> {
    match rd_cint(c.d, p) {
        None => eof(),
        Some((x, q)) => match rd_cint(c.d, q) {
            None => eof(),
            Some((y, q2)) => Ok((PropV::Vector { x, y }, q2)),
        },
    }
}

/// A convex shape after its type name: a point count (0 to
/// [`MAX_CONVEX_POINTS`]) and that many extended properties.
pub open spec fn sp_convex(c: Ctx, p: int) -> PRes<PropV>
    decreases fuel(c.d, p), 0int, 0int,
{
    match rd_cint(c.d, p) {
        None => eof(),
        Some((n, q)) => if n < 0 || n > MAX_CONVEX_POINTS {
            Err(ErrV::Custom(count_message(msg_convex_count(), n)))
        } else {
            match sp_points(c, q, 0, n as int) {
                Err(e) => Err(e),
                Ok((points, q2)) => Ok((PropV::Convex(points), q2)),
            }
        },
    }
}

/// An extended property at `p`: its type name, then the payload of that type.
/// An unknown type name yields a string property holding the name.
pub open spec fn sp_extended(c: Ctx, p: int) -> PRes<PropV>
    decreases fuel(c.d, p), 0int, 0int,
{
    proof {
        lemma_type_name_advances(c, p);
    }
    match ext_type_name(c, p) {
        None => match rd_u8(c.d, p) {
            Some((tb, _)) => Err(ErrV::Custom(msg_ext_type_byte() + hex_byte(tb))),
            None => eof(),
        },
        Some(Err(e)) => Err(e),
        Some(Ok((name, q))) => if name == chars_property() {
            sp_sub(c, q)
        } else if name == chars_canvas() {
            sp_canvas(c, q)
        } else if name == chars_vector() {
            sp_vector(c, q)
        } else if name == chars_convex() {
            sp_convex(c, q)
        } else if name == chars_sound() {
            sp_sound(c.d, c.iv, q)
        } else if name == chars_uol() {
            sp_uol(c, q)
        } else if name == chars_raw_data() {
            sp_raw_data(c, q)
        } else if name == chars_video() {
            sp_video(c, q)
        } else {
            Ok((PropV::String(name), q))
        },
    }
}

// ── Whole images ────────────────────────────────────────────────────────

/// The IVs tried, in order, when an image's header does not decrypt with the
/// current one.
pub open spec fn known_ivs() -> Seq<[u8; 4]> {
    seq![[0u8, 0u8, 0u8, 0u8], [0x4Du8, 0x23u8, 0xC7u8, 0x2Bu8], [0xB9u8, 0x7Du8, 0x63u8, 0xE9u8]]
}

/// Where the `"Property"` tag of an image header is: inline right after the
/// header byte (followed by a `u16` that must be 0), or at a string offset
/// (with the reader resting at `cur`).
pub enum TagLoc {
    Inline(int),
    Offset(int, int),
}

/// The header tag decrypted with `iv`, and the position to continue from;
/// `None` when it cannot be read (or, inline, when the `u16` is not 0).
#[verifier::opaque]
pub open spec fn tag_with_iv(d: Seq<u8>, iv: [u8; 4], loc: TagLoc) -> Option<(Seq<char>, int)> {
    match loc {
        TagLoc::Inline(pa) => match rd_wz_string(d, iv, pa) {
            None => None,
            Some((s, q)) => match rd_u16(d, q) {
                Some((v, q2)) => if v == 0 {
                    Some((s, q2))
                } else {
                    None
                },
                None => None,
            },
        },
        TagLoc::Offset(sp, cur) => match rd_wz_string(d, iv, sp) {
            None => None,
            Some((s, _)) => Some((s, cur)),
        },
    }
}

/// Retrying an image header with each IV of `ivs` in turn: the first whose
/// tag reads `"Property"` parses the property list (and stays the reader's
/// IV); none → invalid header.
#[verifier::opaque]
pub open spec fn sp_fallback(d: Seq<u8>, ivs: Seq<[u8; 4]>, lazy: Option<Seq<u8>>, off: int, loc: TagLoc) -> Result<(PropList, [u8; 4]), ErrV>
    decreases ivs.len(),
{
    if ivs.len() == 0 {
        Err(ErrV::InvalidImageHeader(0))
    } else {
        let iv = ivs[0];
        match tag_with_iv(d, iv, loc) {
            Some((s, q)) if s == chars_property() => match sp_list(Ctx { d, iv, lazy, off }, q) {
                Ok((props, _)) => Ok((props, iv)),
                Err(e) => Err(e),
            },
            _ => sp_fallback(d, ivs.subrange(1, ivs.len() as int), lazy, off, loc),
        }
    }
}

/// A whole image at `p`: the property list and the IV the image decrypted
/// with. Header `0x73`: inline `"Property"` tag and `u16` 0; `0x1B`: the tag
/// at a string offset, then `u16` 0; `0x01`: a Lua script.
pub open spec fn sp_image(d: Seq<u8>, iv: [u8; 4], lazy: Option<Seq<u8>>, p: int) -> Result<(PropList, [u8; 4]), ErrV> {
    let off = p;
    match rd_u8(d, p) {
        None => Err(ErrV::UnexpectedEof),
        Some((hb, pa)) => if hb == 0x73 {
            match rd_wz_string(d, iv, pa) {
                None => Err(ErrV::UnexpectedEof),
                Some((s, q)) => match rd_u16(d, q) {
                    None => Err(ErrV::UnexpectedEof),
                    Some((v, q2)) => if s == chars_property() && v == 0 {
                        match sp_list(Ctx { d, iv, lazy, off }, q2) {
                            Ok((props, _)) => Ok((props, iv)),
                            Err(e) => Err(e),
                        }
                    } else {
                        sp_fallback(d, known_ivs(), lazy, off, TagLoc::Inline(pa))
                    },
                },
            }
        } else if hb == 0x1B {
            match rd_i32(d, pa) {
                None => Err(ErrV::UnexpectedEof),
                Some((rel, q)) => {
                    let sp = rel_target(off, rel);
                    match rd_wz_string(d, iv, sp) {
                        None => Err(ErrV::UnexpectedEof),
                        Some((s, _)) => match rd_u16(d, q) {
                            None => Err(ErrV::UnexpectedEof),
                            Some((v, q2)) => if s == chars_property() && v == 0 {
                                match sp_list(Ctx { d, iv, lazy, off }, q2) {
                                    Ok((props, _)) => Ok((props, iv)),
                                    Err(e) => Err(e),
                                }
                            } else if v != 0 {
                                Err(ErrV::InvalidImageHeader(0x1B))
                            } else {
                                sp_fallback(d, known_ivs(), lazy, off, TagLoc::Offset(sp, q2))
                            },
                        },
                    }
                },
            }
        } else if hb == 0x01 {
            match rd_cint(d, pa) {
                None => Err(ErrV::UnexpectedEof),
                Some((n, q)) => match rd_bytes(d, q, (n as usize) as int) {
                    None => Err(ErrV::UnexpectedEof),
                    Some((bytes, _)) => Ok((seq![(chars_script(), PropV::Lua(bytes))], iv)),
                },
            }
        } else {
            Err(ErrV::InvalidImageHeader(hb))
        },
    }
}

// ── Parsing one path ────────────────────────────────────────────────────

/// Skipping one property value at `p` without building it; the position
/// after it.
pub open spec fn sp_skip(c: Ctx, p: int) -> Result<int, ErrV> {
    match rd_u8(c.d, p) {
        None => Err(ErrV::UnexpectedEof),
        Some((t, q)) => if t == 0x00 {
            Ok(q)
        } else if t == 0x02 || t == 0x0B {
            match rd_i16(c.d, q) {
                None => Err(ErrV::UnexpectedEof),
                Some((_, q2)) => Ok(q2),
            }
        } else if t == 0x03 || t == 0x13 {
            match rd_cint(c.d, q) {
                None => Err(ErrV::UnexpectedEof),
                Some((_, q2)) => Ok(q2),
            }
        } else if t == 0x14 {
            match rd_clong(c.d, q) {
                None => Err(ErrV::UnexpectedEof),
                Some((_, q2)) => Ok(q2),
            }
        } else if t == 0x04 {
            match rd_u8(c.d, q) {
                None => Err(ErrV::UnexpectedEof),
                Some((ind, q2)) => if ind == 0x80 {
                    match rd_u32(c.d, q2) {
                        None => Err(ErrV::UnexpectedEof),
                        Some((_, q3)) => Ok(q3),
                    }
                } else {
                    Ok(q2)
                },
            }
        } else if t == 0x05 {
            match rd_u64(c.d, q) {
                None => Err(ErrV::UnexpectedEof),
                Some((_, q2)) => Ok(q2),
            }
        } else if t == 0x08 {
            match rd_string_block(c.d, c.iv, c.off, q) {
                None => Err(ErrV::UnexpectedEof),
                Some((_, q2)) => Ok(q2),
            }
        } else if t == 0x09 {
            match rd_u32(c.d, q) {
                None => Err(ErrV::UnexpectedEof),
                Some((size, q2)) => Ok(q2 + size),
            }
        } else {
            Err(ErrV::UnknownPropertyType(hex_byte(t)))
        },
    }
}

/// Looking for `path[0]` among `n` more entries at `p`: on a name match the
/// value (last component) or a descent (more components); non-matching
/// entries are skipped. `Ok(None)` when no entry matches.
pub open spec fn sp_path_entries(c: Ctx, p: int, n: int, path: Seq<Seq<char>>) -> Result<Option<PropV>, ErrV>
    decreases fuel(c.d, p), 0int, n,
{
    if n <= 0 || path.len() == 0 {
        Ok(None)
    } else {
        proof {
            lemma_block_advances(c.d, c.iv, c.off, p);
        }
        match rd_string_block(c.d, c.iv, c.off, p) {
            None => Err(ErrV::UnexpectedEof),
            Some((name, q)) => if name == path[0] {
                if path.len() == 1 {
                    match sp_value(c, q) {
                        Err(e) => Err(e),
                        Ok((v, _)) => Ok(v),
                    }
                } else {
                    sp_descend(c, q, path.subrange(1, path.len() as int))
                }
            } else {
                match sp_skip(c, q) {
                    Err(e) => Err(e),
                    Ok(q2) => sp_path_entries(c, forward(p, q2), n - 1, path),
                }
            },
        }
    }
}

/// A property list at `p`, searched for `path`.
pub open spec fn sp_path_list(c: Ctx, p: int, path: Seq<Seq<char>>) -> Result<Option<PropV>, ErrV>
    decreases fuel(c.d, p), 1int, 0int,
{
    match rd_cint(c.d, p) {
        None => Err(ErrV::UnexpectedEof),
        Some((n, q)) => if n < 0 || n > MAX_PROPERTY_COUNT {
            Err(ErrV::Custom(count_message(msg_property_count(), n)))
        } else {
            sp_path_entries(c, q, n as int, path)
        },
    }
}

/// Descending into the value at `p` for the remaining components `rest`:
/// only an extended `"Property"` container has named children; anything
/// else yields `Ok(None)`.
pub open spec fn sp_descend(c: Ctx, p: int, rest: Seq<Seq<char>>) -> Result<Option<PropV>, ErrV>
    decreases fuel(c.d, p), 2int, 0int,
{
    match rd_u8(c.d, p) {
        None => Err(ErrV::UnexpectedEof),
        Some((b, q)) => if b != 0x09 {
            Ok(None)
        } else {
            match rd_u32(c.d, q) {
                None => Err(ErrV::UnexpectedEof),
                Some((_, q2)) => match ext_type_name(c, q2) {
                    Some(Ok((name, q3))) if name == chars_property() => {
                        proof {
                            lemma_type_name_advances(c, q2);
                        }
                        match rd_u16(c.d, q3) {
                            None => Err(ErrV::UnexpectedEof),
                            Some((_, q4)) => sp_path_list(c, q4, rest),
                        }
                    },
                    None => Ok(None),
                    Some(Err(e)) => Err(e),
                    Some(Ok(_)) => Ok(None),
                },
            }
        },
    }
}

/// Retrying an inline `"Property"` header tag at `pa` with each IV in turn,
/// then searching for `path`.
pub open spec fn sp_path_fallback(d: Seq<u8>, ivs: Seq<[u8; 4]>, lazy: Option<Seq<u8>>, off: int, pa: int, path: Seq<Seq<char>>) -> Result<Option<PropV>, ErrV>
    decreases ivs.len(),
{
    if ivs.len() == 0 {
        Err(ErrV::InvalidImageHeader(0x73))
    } else {
        let iv = ivs[0];
        let next = sp_path_fallback(d, ivs.subrange(1, ivs.len() as int), lazy, off, pa, path);
        match rd_wz_string(d, iv, pa) {
            Some((s, q)) if s == chars_property() => match rd_u16(d, q) {
                None => Err(ErrV::UnexpectedEof),
                Some((v, q2)) => if v == 0 {
                    sp_path_list(Ctx { d, iv, lazy, off }, q2, path)
                } else {
                    next
                },
            },
            _ => next,
        }
    }
}

/// The single property at `path` of the image at `p` (`Ok(None)` when absent).
pub open spec fn sp_image_path(d: Seq<u8>, iv: [u8; 4], lazy: Option<Seq<u8>>, p: int, path: Seq<Seq<char>>) -> Result<Option<PropV>, ErrV> {
    let off = p;
    if path.len() == 0 {
        Err(ErrV::Custom(msg_empty_path()))
    } else {
        match rd_u8(d, p) {
            None => Err(ErrV::UnexpectedEof),
            Some((hb, pa)) => if hb == 0x73 {
                match rd_wz_string(d, iv, pa) {
                    None => Err(ErrV::UnexpectedEof),
                    Some((s, q)) => match rd_u16(d, q) {
                        None => Err(ErrV::UnexpectedEof),
                        Some((v, q2)) => if s == chars_property() && v == 0 {
                            sp_path_list(Ctx { d, iv, lazy, off }, q2, path)
                        } else {
                            sp_path_fallback(d, known_ivs(), lazy, off, pa, path)
                        },
                    },
                }
            } else if hb == 0x1B {
                match rd_i32(d, pa) {
                    None => Err(ErrV::UnexpectedEof),
                    Some((rel, q)) => match rd_wz_string(d, iv, rel_target(off, rel)) {
                        None => Err(ErrV::UnexpectedEof),
                        Some((s, _)) => match rd_u16(d, q) {
                            None => Err(ErrV::UnexpectedEof),
                            Some((v, q2)) => if s == chars_property() && v == 0 {
                                sp_path_list(Ctx { d, iv, lazy, off }, q2, path)
                            } else {
                                Err(ErrV::InvalidImageHeader(0x1B))
                            },
                        },
                    },
                }
            } else {
                Err(ErrV::InvalidImageHeader(hb))
            },
        }
    }
}

// ── Positions only move forward ─────────────────────────────────────────

pub proof fn lemma_string_advances(d: Seq<u8>, iv: [u8; 4], p: int)
    ensures
        rd_wz_string(d, iv, p) matches Some((_, q)) ==> q > p && 0 <= p < d.len(),
{
    reveal(rd_wz_string);
}

pub proof fn lemma_block_advances(d: Seq<u8>, iv: [u8; 4], off: int, p: int)
    ensures
        rd_string_block(d, iv, off, p) matches Some((_, q)) ==> q > p && 0 <= p < d.len(),
{
    reveal(rd_string_block);
    if let Some((tag, q)) = rd_u8(d, p) {
        lemma_string_advances(d, iv, q);
    }
}

pub proof fn lemma_type_name_advances(c: Ctx, p: int)
    ensures
        ext_type_name(c, p) matches Some(Ok((_, q))) ==> q > p && 0 <= p < c.d.len(),
{
    if let Some((tb, q)) = rd_u8(c.d, p) {
        lemma_string_advances(c.d, c.iv, q);
    }
}

/// A property value parse ends after its start.
pub proof fn lemma_value_advances(c: Ctx, p: int)
    ensures
        sp_value(c, p) matches Ok((_, q)) ==> q > p,
{
    reveal(sp_simple_value);
    if let Some((t, q)) = rd_u8(c.d, p) {
        lemma_block_advances(c.d, c.iv, c.off, q);
    }
}

pub proof fn lemma_entries_advance(c: Ctx, p: int, n: int)
    ensures
        sp_entries(c, p, n) matches Ok((_, q)) ==> q >= p,
    decreases fuel(c.d, p), n,
{
    if n > 0 {
        if let Some((name, q)) = rd_string_block(c.d, c.iv, c.off, p) {
            lemma_block_advances(c.d, c.iv, c.off, p);
            if let Ok((v, q2)) = sp_value(c, q) {
                lemma_value_advances(c, q);
                lemma_entries_advance(c, forward(p, q2), n - 1);
            }
        }
    }
}

pub proof fn lemma_list_advances(c: Ctx, p: int)
    ensures
        sp_list(c, p) matches Ok((_, q)) ==> q > p,
{
    if let Some((n, q)) = rd_cint(c.d, p) {
        lemma_entries_advance(c, q, n as int);
    }
}

pub proof fn lemma_points_advance(c: Ctx, p: int, i: int, n: int)
    ensures
        sp_points(c, p, i, n) matches Ok((_, q)) ==> q >= p,
    decreases fuel(c.d, p), n - i,
{
    if i < n {
        if let Ok((v, q)) = sp_extended(c, p) {
            lemma_points_advance(c, forward(p, q), i + 1, n);
        }
    }
}

pub proof fn lemma_optional_advances(c: Ctx, p: int, flag: u8)
    ensures
        sp_optional_list(c, p, flag) matches Ok((_, q)) ==> q >= p,
{
    if let Some((_, q)) = rd_u16(c.d, p) {
        lemma_list_advances(c, q);
    }
}

pub proof fn lemma_canvas_advances(c: Ctx, p: int)
    ensures
        sp_canvas(c, p) matches Ok((_, q)) ==> q > p,
{
    if let Some((_, q)) = rd_u8(c.d, p) {
        if let Some((has, q1)) = rd_u8(c.d, q) {
            lemma_optional_advances(c, q1, has);
            if let Ok((props, q2)) = sp_optional_list(c, q1, has) {
                reveal(sp_canvas_tail);
                assert(sp_canvas_tail(c, q2, props) matches Ok((_, q3)) ==> q3 >= q2);
            }
        }
    }
}

pub proof fn lemma_raw_advances(c: Ctx, p: int)
    ensures
        sp_raw_data(c, p) matches Ok((_, q)) ==> q > p,
{
    if let Some((raw_type, p1)) = rd_u8(c.d, p) {
        if let Some((has, p2)) = rd_u8(c.d, p1) {
            if let Some((_, p3)) = rd_u16(c.d, p2) {
                lemma_list_advances(c, p3);
            }
        }
    }
}

pub proof fn lemma_video_advances(c: Ctx, p: int)
    ensures
        sp_video(c, p) matches Ok((_, q)) ==> q > p,
{
    if let Some((_, p1)) = rd_u8(c.d, p) {
        if let Some((has, p2)) = rd_u8(c.d, p1) {
            lemma_optional_advances(c, p2, has);
        }
    }
}

pub proof fn lemma_sound_advances(c: Ctx, p: int)
    ensures
        sp_sound(c.d, c.iv, p) matches Ok((_, q)) ==> q > p,
{
    reveal(sp_sound);
}

pub proof fn lemma_uol_advances(c: Ctx, p: int)
    ensures
        sp_uol(c, p) matches Ok((_, q)) ==> q > p,
{
    reveal(sp_uol);
    if let Some((_, p1)) = rd_u8(c.d, p) {
        if let Some((_, p2)) = rd_u8(c.d, p1) {
            lemma_string_advances(c.d, c.iv, p2);
        }
    }
}

/// Skipping a value ends after its start.
pub proof fn lemma_skip_advances(c: Ctx, p: int)
    ensures
        sp_skip(c, p) matches Ok(q) ==> q > p,
{
    if let Some((t, q)) = rd_u8(c.d, p) {
        lemma_block_advances(c.d, c.iv, c.off, q);
    }
}

/// An extended property parse ends after its start.
pub proof fn lemma_extended_advances(c: Ctx, p: int)
    ensures
        sp_extended(c, p) matches Ok((_, q)) ==> q > p,
{
    lemma_type_name_advances(c, p);
    if let Some(Ok((name, q))) = ext_type_name(c, p) {
        if name == chars_property() {
            if let Some((_, q2)) = rd_u16(c.d, q) {
                lemma_list_advances(c, q2);
            }
        } else if name == chars_canvas() {
            lemma_canvas_advances(c, q);
        } else if name == chars_vector() {
            reveal(sp_vector);
        } else if name == chars_convex() {
            if let Some((n, q2)) = rd_cint(c.d, q) {
                lemma_points_advance(c, q2, 0, n as int);
            }
        } else if name == chars_sound() {
            lemma_sound_advances(c, q);
        } else if name == chars_uol() {
            lemma_uol_advances(c, q);
        } else if name == chars_raw_data() {
            lemma_raw_advances(c, q);
        } else if name == chars_video() {
            lemma_video_advances(c, q);
        }
    }
}

/// The four compressed ints at `p`: width, height, pixel format id and
/// scale exponent of a canvas header.
pub open spec fn canvas_header_ints(d: Seq<u8>, p: int) -> Option<(i32, i32, i32, i32)> {
    match rd_cint(d, p) {
        None => None,
        Some((w, p1)) => match rd_cint(d, p1) {
            None => None,
            Some((h, p2)) => match rd_cint(d, p2) {
                None => None,
                Some((f, p3)) => match rd_cint(d, p3) {
                    None => None,
                    Some((sc, _)) => Some((w, h, f, sc)),
                },
            },
        },
    }
}

/// Law: a parsed canvas has the header it was read from: its width and
/// height are the first two compressed ints after its child list, its pixel
/// format the one the third names (a negative id read as 0), its scale
/// exponent the fourth clamped to `0..=255`, and its children the list read
/// before them.
pub proof fn lemma_canvas_header(c: Ctx, p: int, props: PropList)
    ensures
        sp_canvas_tail(c, p, props) matches Ok((PropV::Canvas { width, height, format, scale, properties, .. }, _)) ==> {
            let hd = canvas_header_ints(c.d, p)->Some_0;
            &&& canvas_header_ints(c.d, p) is Some
            &&& properties == props
            &&& width == hd.0
            &&& height == hd.1
            &&& format == WzPngFormat::spec_from_id(if hd.2 < 0 { 0u32 } else { hd.2 as u32 })
            &&& scale as int == (if hd.3 < 0 {
                0
            } else if hd.3 > 255 {
                255
            } else {
                hd.3 as int
            })
        },
{
    reveal(sp_canvas_tail);
}

/// Law: what each value marker reads: `0x00` a null; `0x02` and `0x0B` a
/// short (`i16`, little-endian); `0x03` and `0x13` an int (compressed);
/// `0x14` a long (compressed); `0x04` a float, whose indicator byte `0x80`
/// is followed by its `u32` bits, `0x00` stands for 0.0, and any other
/// indicator leaves the value out; `0x05` a double (`u64` bits); `0x08` a
/// string; any other marker is refused as an unknown property type.
pub proof fn lemma_simple_value_markers(c: Ctx, t: u8, q: int)
    ensures
        t == 0x00 ==> sp_simple_value(c, t, q) == Ok::<(Option<PropV>, int), ErrV>((Some(PropV::Null), q)),
        (t == 0x02 || t == 0x0B) && rd_i16(c.d, q) is Some ==> sp_simple_value(c, t, q) == Ok::<(Option<PropV>, int), ErrV>(
            (Some(PropV::Short(rd_i16(c.d, q)->Some_0.0)), rd_i16(c.d, q)->Some_0.1),
        ),
        (t == 0x03 || t == 0x13) && rd_cint(c.d, q) is Some ==> sp_simple_value(c, t, q) == Ok::<(Option<PropV>, int), ErrV>(
            (Some(PropV::Int(rd_cint(c.d, q)->Some_0.0)), rd_cint(c.d, q)->Some_0.1),
        ),
        t == 0x14 && rd_clong(c.d, q) is Some ==> sp_simple_value(c, t, q) == Ok::<(Option<PropV>, int), ErrV>(
            (Some(PropV::Long(rd_clong(c.d, q)->Some_0.0)), rd_clong(c.d, q)->Some_0.1),
        ),
        t == 0x04 && rd_u8(c.d, q) == Some((0x80u8, q + 1)) && rd_u32(c.d, q + 1) is Some ==> sp_simple_value(c, t, q)
            == Ok::<(Option<PropV>, int), ErrV>((Some(PropV::Float(rd_u32(c.d, q + 1)->Some_0.0)), rd_u32(c.d, q + 1)->Some_0.1)),
        t == 0x04 && rd_u8(c.d, q) == Some((0x00u8, q + 1)) ==> sp_simple_value(c, t, q) == Ok::<(Option<PropV>, int), ErrV>(
            (Some(PropV::Float(0)), q + 1),
        ),
        t == 0x05 && rd_u64(c.d, q) is Some ==> sp_simple_value(c, t, q) == Ok::<(Option<PropV>, int), ErrV>(
            (Some(PropV::Double(rd_u64(c.d, q)->Some_0.0)), rd_u64(c.d, q)->Some_0.1),
        ),
        !(t == 0x00 || t == 0x02 || t == 0x0B || t == 0x03 || t == 0x13 || t == 0x14 || t == 0x04 || t == 0x05 || t == 0x08)
            ==> sp_simple_value(c, t, q) == Err::<(Option<PropV>, int), ErrV>(ErrV::UnknownPropertyType(hex_byte(t))),
{
    reveal(sp_simple_value);
}

/// Law: a vector is its two compressed ints, x then y.
pub proof fn lemma_vector_fields(c: Ctx, p: int)
    ensures
        rd_cint(c.d, p) is Some && rd_cint(c.d, rd_cint(c.d, p)->Some_0.1) is Some ==> sp_vector(c, p) == Ok::<(PropV, int), ErrV>(
            (
                PropV::Vector { x: rd_cint(c.d, p)->Some_0.0, y: rd_cint(c.d, rd_cint(c.d, p)->Some_0.1)->Some_0.0 },
                rd_cint(c.d, rd_cint(c.d, p)->Some_0.1)->Some_0.1,
            ),
        ),
{
    reveal(sp_vector);
}

/// Law: the points of a convex shape are named by their index, `"0"`,
/// `"1"`, … in order, and there are as many as its count says.
pub proof fn lemma_convex_point_names(c: Ctx, p: int, i: int, n: int)
    requires
        0 <= i <= n,
    ensures
        sp_points(c, p, i, n) matches Ok((pts, _)) ==> pts.len() == n - i && forall|k: int|
            0 <= k < pts.len() ==> #[trigger] pts[k].0 == decimal(i + k),
    decreases n - i,
{
    if i < n {
        if let Ok((v, q)) = sp_extended(c, p) {
            lemma_convex_point_names(c, forward(p, q), i + 1, n);
            if let Ok((rest, _)) = sp_points(c, forward(p, q), i + 1, n) {
                let pts = seq![(decimal(i), v)] + rest;
                assert forall|k: int| 0 <= k < pts.len() implies #[trigger] pts[k].0 == decimal(i + k) by {
                    if k > 0 {
                        assert(pts[k] == rest[k - 1]);
                        assert(rest[k - 1].0 == decimal(i + 1 + (k - 1)));
                    }
                }
            }
        }
    }
}

/// Law: raw data has child properties only when its type byte is 1.
pub proof fn lemma_raw_data_children(c: Ctx, p: int)
    ensures
        sp_raw_data(c, p) matches Ok((PropV::RawData { raw_type, properties, .. }, _)) ==> (raw_type != 1
            ==> properties.len() == 0),
{
}

/// Law: the children of a canvas or video are read only when their flag
/// byte is 1; with any other flag there are none and nothing is read.
pub proof fn lemma_optional_list_flag(c: Ctx, p: int, flag: u8)
    ensures
        flag != 1 ==> sp_optional_list(c, p, flag) == Ok::<(PropList, int), ErrV>((Seq::empty(), p)),
{
}

} // verus!
