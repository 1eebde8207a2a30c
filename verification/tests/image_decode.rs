use flate2::write::ZlibEncoder;
use flate2::{Compress, Compression, FlushCompress};
use std::io::Write;
use wzlib_rs::error::WzError;
use wzlib_rs::image::{decode_canvas_pixels, decode_pixels};
use wzlib_rs::inflate::{compress_png_data, decompress_png_data, finish_inflate, inflate_lenient};
use wzlib_rs::types::WzPngFormat;

// ── decode_pixels ──────────────────────────────────────────────

#[test]
fn test_decode_pixels_bgra8888_white() {
    let raw = vec![0xFF; 2 * 2 * 4];
    let result = decode_pixels(&raw, 2, 2, WzPngFormat::Bgra8888).unwrap();
    assert_eq!(result.len(), 16);
    assert!(result.iter().all(|&b| b == 0xFF));
}

#[test]
fn test_decode_pixels_a8() {
    let raw = vec![0, 128, 255, 64];
    let result = decode_pixels(&raw, 2, 2, WzPngFormat::A8).unwrap();
    assert_eq!(result.len(), 16);
    assert_eq!(&result[0..4], &[255, 255, 255, 0]);
    assert_eq!(&result[8..12], &[255, 255, 255, 255]);
}

#[test]
fn test_decode_canvas_scale0_equals_decode_pixels() {
    let raw = vec![0xFF; 2 * 2 * 4];
    let a = decode_canvas_pixels(&raw, 2, 2, 0, WzPngFormat::Bgra8888).unwrap();
    let b = decode_pixels(&raw, 2, 2, WzPngFormat::Bgra8888).unwrap();
    assert_eq!(a, b);
}

#[test]
fn test_decode_canvas_scale_upscales_nearest() {
    let raw = vec![
        0x00, 0x00, 0xFF, 0xFF, // px(0,0) red
        0x00, 0xFF, 0x00, 0xFF, // px(1,0) green
        0xFF, 0x00, 0x00, 0xFF, // px(0,1) blue
        0xFF, 0xFF, 0xFF, 0xFF, // px(1,1) white
    ];
    let out = decode_canvas_pixels(&raw, 4, 4, 1, WzPngFormat::Bgra8888).unwrap();
    assert_eq!(out.len(), 4 * 4 * 4);
    let px = |x: usize, y: usize| {
        let i = (y * 4 + x) * 4;
        out[i..i + 4].to_vec()
    };
    assert_eq!(px(0, 0), vec![0xFF, 0x00, 0x00, 0xFF]);
    assert_eq!(px(1, 1), vec![0xFF, 0x00, 0x00, 0xFF]);
    assert_eq!(px(2, 0), vec![0x00, 0xFF, 0x00, 0xFF]);
    assert_eq!(px(3, 1), vec![0x00, 0xFF, 0x00, 0xFF]);
    assert_eq!(px(0, 2), vec![0x00, 0x00, 0xFF, 0xFF]);
    assert_eq!(px(3, 3), vec![0xFF, 0xFF, 0xFF, 0xFF]);
}

#[test]
fn test_decode_canvas_midforest_shape() {
    let raw = vec![0u8; 8 * 8 * 2];
    let out = decode_canvas_pixels(&raw, 128, 128, 4, WzPngFormat::Rgb565).unwrap();
    assert_eq!(out.len(), 128 * 128 * 4);
}

#[test]
fn test_decode_pixels_unknown_format_error() {
    let raw = vec![0; 16];
    let err = decode_pixels(&raw, 2, 2, WzPngFormat::Unknown(999)).unwrap_err();
    assert!(matches!(err, WzError::UnsupportedPngFormat(999)));
}

#[test]
fn test_decode_pixels_short_data_zero_padded() {
    let raw = vec![0xFF; 8];
    let result = decode_pixels(&raw, 2, 2, WzPngFormat::Bgra8888).unwrap();
    assert_eq!(result.len(), 16);
    assert_eq!(&result[0..4], &[0xFF, 0xFF, 0xFF, 0xFF]);
    assert_eq!(&result[8..12], &[0, 0, 0, 0]);
}

#[test]
fn decode_pixels_bgra4444_expands_nibbles() {
    // one pixel: low byte = B|G<<4 = 0x21, high byte = R|A<<4 = 0xF3
    let out = decode_pixels(&[0x21, 0xF3], 1, 1, WzPngFormat::Bgra4444).unwrap();
    assert_eq!(out, vec![0x33, 0x22, 0x11, 0xFF]);
}

#[test]
fn decode_pixels_rgb565_pure_colours() {
    // red 0xF800, green 0x07E0, blue 0x001F (little-endian)
    let raw = [0x00, 0xF8, 0xE0, 0x07, 0x1F, 0x00];
    let out = decode_pixels(&raw, 3, 1, WzPngFormat::Rgb565).unwrap();
    assert_eq!(out, vec![255, 0, 0, 255, 0, 255, 0, 255, 0, 0, 255, 255]);
}

#[test]
fn decode_pixels_argb1555_alpha_bit() {
    // 0x8000 → opaque black; 0x7FFF → transparent white
    let raw = [0x00, 0x80, 0xFF, 0x7F];
    let out = decode_pixels(&raw, 2, 1, WzPngFormat::Argb1555).unwrap();
    assert_eq!(out, vec![0, 0, 0, 255, 255, 255, 255, 0]);
}

#[test]
fn decode_pixels_bc7_is_unsupported() {
    let err = decode_pixels(&[0u8; 16], 4, 4, WzPngFormat::Bc7).unwrap_err();
    assert!(matches!(err, WzError::UnsupportedPngFormat(4098)));
}

#[test]
fn format_ids_round_trip() {
    for id in [1u32, 2, 3, 257, 513, 517, 769, 1026, 2050, 2304, 2562, 4097, 4098, 4100, 12345] {
        assert_eq!(WzPngFormat::from_combined(id).id(), id);
    }
    assert_eq!(WzPngFormat::from_combined(2), WzPngFormat::Bgra8888);
    assert_eq!(WzPngFormat::Bgra4444.raw_data_size(26, 16), 832);
    assert_eq!(WzPngFormat::Dxt5.raw_data_size(5, 5), 64);
}

// ── decompress_png_data ────────────────────────────────────────

fn zlib(data: &[u8]) -> Vec<u8> {
    let mut encoder = ZlibEncoder::new(Vec::new(), Compression::default());
    encoder.write_all(data).unwrap();
    encoder.finish().unwrap()
}

/// zlib-headed stream carrying `payload` but never terminated.
fn unterminated_zlib(payload: &[u8]) -> Vec<u8> {
    let mut deflater = Compress::new(Compression::default(), true);
    let mut out = Vec::with_capacity(payload.len() + 128);
    deflater.compress_vec(payload, &mut out, FlushCompress::Sync).unwrap();
    assert_eq!(deflater.total_in() as usize, payload.len());
    out
}

#[test]
fn test_decompress_png_data_zlib() {
    let plain = b"Hello, WZ world!";
    let compressed = zlib(plain);
    let result = decompress_png_data(&compressed, None).unwrap();
    assert_eq!(result, plain);
}

#[test]
fn test_decompress_png_data_too_short() {
    for input in [&[][..], &[0x78][..]] {
        let err = decompress_png_data(input, None).unwrap_err();
        assert!(
            matches!(err, WzError::DecompressionFailed(_)),
            "expected DecompressionFailed for {input:?}, got {err:?}"
        );
    }
}

#[test]
fn test_decompress_png_data_unterminated_zlib_canvas() {
    let (w, h) = (26u32, 16u32);
    let expected_len = WzPngFormat::Bgra4444.raw_data_size(w, h);
    assert_eq!(expected_len, (w * h * 2) as usize);

    let payload: Vec<u8> = (0..expected_len).map(|i| (i % 251) as u8).collect();
    let stream = unterminated_zlib(&payload);

    let raw = decompress_png_data(&stream, None).unwrap();
    assert_eq!(raw.len(), expected_len, "truncated stream lost pixel bytes");
    assert_eq!(raw, payload);

    let rgba = decode_pixels(&raw, w, h, WzPngFormat::Bgra4444).unwrap();
    assert_eq!(rgba.len(), (w * h * 4) as usize);
}

#[test]
fn test_decompress_png_data_unterminated_raw_deflate() {
    let payload: Vec<u8> = (0..4096).map(|i| (i % 97) as u8).collect();
    let mut deflater = Compress::new(Compression::default(), false);
    let mut stream = Vec::with_capacity(payload.len() + 128);
    deflater.compress_vec(&payload, &mut stream, FlushCompress::Sync).unwrap();

    let raw = decompress_png_data(&stream, None).unwrap();
    assert_eq!(raw, payload);
}

#[test]
fn test_decompress_png_data_unterminated_encrypted_blocks() {
    let payload: Vec<u8> = (0..1024).map(|i| (i % 211) as u8).collect();
    let zlib_data = unterminated_zlib(&payload);

    let mut compressed = Vec::new();
    compressed.extend_from_slice(&(zlib_data.len() as i32).to_le_bytes());
    compressed.extend_from_slice(&zlib_data);

    let key = vec![0u8; zlib_data.len()];
    let raw = decompress_png_data(&compressed, Some(&key)).unwrap();
    assert_eq!(raw, payload);
}

#[test]
fn test_decompress_png_data_corrupt_still_errors() {
    let cases: Vec<(&str, Vec<u8>)> = vec![
        (
            "invalid stored block lengths",
            vec![0x78, 0x9C, 0x00, 0x05, 0x00, 0x00, 0x00, 1, 2, 3, 4, 5],
        ),
        ("reserved block type", vec![0xFF, 0xFF, 0x00, 0x00]),
        ("empty after header", vec![0x78, 0x9C]),
    ];
    for (what, input) in cases {
        let err = decompress_png_data(&input, None).unwrap_err();
        assert!(
            matches!(err, WzError::DecompressionFailed(_)),
            "{what}: expected DecompressionFailed, got {err:?}"
        );
    }
}

#[test]
fn test_decompress_png_data_encrypted_blocks() {
    let plain = b"test data for blocks";
    let zlib_data = zlib(plain);
    let block_size = zlib_data.len() as i32;
    let mut compressed = Vec::new();
    compressed.extend_from_slice(&block_size.to_le_bytes());
    compressed.extend_from_slice(&zlib_data);

    let key = vec![0u8; zlib_data.len()];
    let result = decompress_png_data(&compressed, Some(&key)).unwrap();
    assert_eq!(result, plain);
}

#[test]
fn decompress_encrypted_blocks_with_nonzero_key() {
    let plain = b"keyed block payload";
    let zlib_data = zlib(plain);
    let key: Vec<u8> = (0..zlib_data.len()).map(|i| (i * 7 + 3) as u8).collect();
    let encrypted: Vec<u8> = zlib_data.iter().zip(key.iter()).map(|(a, b)| a ^ b).collect();
    let mut compressed = Vec::new();
    compressed.extend_from_slice(&(encrypted.len() as i32).to_le_bytes());
    compressed.extend_from_slice(&encrypted);
    let result = decompress_png_data(&compressed, Some(&key)).unwrap();
    assert_eq!(result, plain);
}

#[test]
fn compress_then_decompress_gives_the_data_back() {
    let data: Vec<u8> = (0..3000).map(|i| (i % 13) as u8).collect();
    let packed = compress_png_data(&data).unwrap();
    assert_eq!(packed[0], 0x78);
    assert_eq!(decompress_png_data(&packed, None).unwrap(), data);
}

#[test]
fn inflate_lenient_raw_and_zlib() {
    let packed = zlib(b"abc");
    assert_eq!(inflate_lenient(&packed[2..], false).unwrap(), b"abc".to_vec());
    assert!(matches!(
        inflate_lenient(&[0xFF, 0xFF, 0x00, 0x00], false),
        Err(WzError::DecompressionFailed(_))
    ));
}

#[test]
fn finish_inflate_empty_unterminated_fails() {
    assert!(matches!(finish_inflate(Vec::new(), false), Err(WzError::DecompressionFailed(_))));
    assert_eq!(finish_inflate(Vec::new(), true).unwrap(), Vec::<u8>::new());
    assert_eq!(finish_inflate(vec![1, 2], false).unwrap(), vec![1, 2]);
}
