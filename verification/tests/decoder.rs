//! Decoding frames.

use cinepak::decoder::{CinepakDecoder, DeviantConfig};
use cinepak::image::CinepakPixelFormat;

#[test]
fn decodes_minimal_v1_only_intra_frame() {
    let mut bytes = Vec::new();
    bytes.extend_from_slice(&[0, 0, 0, 0, 0, 4, 0, 4, 0, 1]);
    let strip_hdr_pos = bytes.len();
    bytes.extend_from_slice(&[0x10, 0x00, 0, 0, 0, 0, 0, 0, 0, 4, 0, 4]);
    bytes.extend_from_slice(&[0x20, 0x00, 0x00, 0x04]);
    bytes.extend_from_slice(&[0x22, 0x00, 0x00, 0x0a]);
    bytes.extend_from_slice(&[50, 100, 150, 200, 0, 0]);
    bytes.extend_from_slice(&[0x32, 0x00, 0x00, 0x05]);
    bytes.push(0);

    let strip_size = (bytes.len() - strip_hdr_pos) as u16;
    bytes[strip_hdr_pos + 2..strip_hdr_pos + 4].copy_from_slice(&strip_size.to_be_bytes());
    let frame_len = bytes.len() as u32;
    bytes[1] = ((frame_len >> 16) & 0xff) as u8;
    bytes[2] = ((frame_len >> 8) & 0xff) as u8;
    bytes[3] = (frame_len & 0xff) as u8;

    let mut dec = CinepakDecoder::new();
    let f = dec.decode_frame(&bytes, None).unwrap();
    assert_eq!(f.width, 4);
    assert_eq!(f.height, 4);
    assert_eq!(f.pixel_format, CinepakPixelFormat::Rgb24);
    let p = f.pixels();
    assert_eq!(p[0], 50);
    assert_eq!(p[1], 50);
    assert_eq!(p[2], 50);
    assert_eq!(p[6], 100);
    let row2_off = 2 * f.stride();
    assert_eq!(p[row2_off], 150);
    assert_eq!(p[row2_off + 6], 200);
}

/// A frame of 4x4 pixels with one strip of the given id and chunks.
fn frame_of(strip_id: u16, prefix: usize, chunks: &[u8]) -> Vec<u8> {
    strip_frame(strip_id, prefix, [0, 0, 4, 4], chunks)
}

/// The same with the strip's top, left, bottom and right edge.
fn strip_frame(strip_id: u16, prefix: usize, edges: [u16; 4], chunks: &[u8]) -> Vec<u8> {
    let size = 12 + chunks.len();
    let len = 10 + prefix + size;
    let mut bytes = vec![0, (len >> 16) as u8, (len >> 8) as u8, len as u8];
    bytes.extend_from_slice(&[0, 4, 0, 4, 0, 1]);
    bytes.extend(std::iter::repeat(0xee).take(prefix));
    bytes.extend_from_slice(&strip_id.to_be_bytes());
    bytes.extend_from_slice(&(size as u16).to_be_bytes());
    for e in edges {
        bytes.extend_from_slice(&e.to_be_bytes());
    }
    bytes.extend_from_slice(chunks);
    bytes
}

/// A V1 codebook of one grey entry, and a chunk that uses it.
const GREY_V1: [u8; 13] = [
    0x26, 0x00, 0x00, 0x08, 10, 20, 30, 40, 0x32, 0x00, 0x00, 0x05, 0x00,
];

/// One skipped macroblock.
const ALL_SKIP: [u8; 8] = [0x31, 0x00, 0x00, 0x08, 0x00, 0x00, 0x00, 0x00];

fn failure(bytes: &[u8]) -> String {
    CinepakDecoder::new()
        .decode_frame(bytes, None)
        .unwrap_err()
        .to_string()
}

#[test]
fn grey_frame_has_one_byte_per_pixel() {
    let mut dec = CinepakDecoder::new();
    let f = dec
        .decode_frame(&frame_of(0x1000, 0, &GREY_V1), Some(7))
        .unwrap();
    assert_eq!(f.pixel_format, CinepakPixelFormat::Gray8);
    assert_eq!(f.pts, Some(7));
    assert_eq!(f.stride(), 4);
    assert_eq!(
        f.pixels(),
        &[10, 10, 20, 20, 10, 10, 20, 20, 30, 30, 40, 40, 30, 30, 40, 40]
    );
}

#[test]
fn skipped_macroblock_shows_the_previous_frame() {
    let mut dec = CinepakDecoder::new();
    let first = dec
        .decode_frame(&frame_of(0x1000, 0, &GREY_V1), None)
        .unwrap();
    let second = dec
        .decode_frame(&frame_of(0x1100, 0, &ALL_SKIP), None)
        .unwrap();
    assert_eq!(second.pixel_format, CinepakPixelFormat::Gray8);
    assert_eq!(first.pixels(), second.pixels());
}

#[test]
fn skipped_macroblock_needs_a_previous_frame() {
    let expected = "cinepak: invalid data: \
        0x3100 skip macroblock on first frame (no previous reconstruction)";
    assert_eq!(failure(&frame_of(0x1100, 0, &ALL_SKIP)), expected);
    let mut dec = CinepakDecoder::new();
    dec.decode_frame(&frame_of(0x1000, 0, &GREY_V1), None)
        .unwrap();
    dec.reset();
    let err = dec
        .decode_frame(&frame_of(0x1100, 0, &ALL_SKIP), None)
        .unwrap_err();
    assert_eq!(err.to_string(), expected);
}

#[test]
fn bytes_after_the_frame_are_ignored() {
    let plain = frame_of(0x1000, 0, &GREY_V1);
    let mut padded = plain.clone();
    padded.extend_from_slice(&[1, 2, 3]);
    let a = CinepakDecoder::new().decode_frame(&plain, None).unwrap();
    let b = CinepakDecoder::new().decode_frame(&padded, None).unwrap();
    assert_eq!(a.pixels(), b.pixels());
}

#[test]
fn refused_header_keeps_the_decoder_as_it_was() {
    let mut dec = CinepakDecoder::new();
    let first = dec
        .decode_frame(&frame_of(0x1000, 0, &GREY_V1), None)
        .unwrap();
    assert!(dec.decode_frame(&[0, 0, 0], None).is_err());
    let mut long = frame_of(0x1000, 0, &GREY_V1);
    long.pop();
    assert_eq!(
        dec.decode_frame(&long, None).unwrap_err().to_string(),
        "cinepak: invalid data: frame_length 35 exceeds buffer size 34"
    );
    let second = dec
        .decode_frame(&frame_of(0x1100, 0, &ALL_SKIP), None)
        .unwrap();
    assert_eq!(first.pixels(), second.pixels());
}

#[test]
fn deviant_frames_have_a_longer_prefix_and_padded_codebooks() {
    let mut chunks = vec![0x26, 0x00, 0x00, 0x0a, 10, 20, 30, 40, 0xaa, 0xbb];
    chunks.extend_from_slice(&GREY_V1[8..]);
    let plain = CinepakDecoder::new()
        .decode_frame(&frame_of(0x1000, 0, &GREY_V1), None)
        .unwrap();
    for cfg in [DeviantConfig::saturn(), DeviantConfig::lemmings_3do()] {
        let mut bytes = frame_of(0x1000, cfg.extra_header_bytes as usize, &chunks);
        bytes[3] -= cfg.frame_length_short_by;
        let f = CinepakDecoder::new()
            .decode_deviant_frame(&bytes, None, cfg)
            .unwrap();
        assert_eq!(f.pixels(), plain.pixels());
    }
    assert!(CinepakDecoder::new()
        .decode_frame(&frame_of(0x1000, 0, &chunks), None)
        .is_err());
}

#[test]
fn broken_chunks_are_refused() {
    let cases: [(u16, &[u8], &str); 8] = [
        (0x1000, &[0x32, 0x00, 0x00], "strip chunk header truncated"),
        (
            0x1000,
            &[0x32, 0x00, 0x00, 0x03],
            "chunk_size 3 smaller than 4-byte header",
        ),
        (
            0x1000,
            &[0x32, 0x00, 0x00, 0x06, 0x00],
            "chunk 0x3200 truncated: declared 6, have 5",
        ),
        (
            0x1000,
            &[0x21, 0x00, 0x00, 0x04],
            "selective-update chunk 0x2100 on intra strip",
        ),
        (
            0x1000,
            &[0x32, 0, 0, 5, 0, 0x32, 0, 0, 5, 0],
            "strip carries more than one vector chunk",
        ),
        (
            0x1000,
            &ALL_SKIP,
            "inter vector chunk 0x3100 on intra strip",
        ),
        (
            0x1100,
            &[0x40, 0x00, 0x00, 0x04],
            "unknown strip chunk id 0x4000",
        ),
        (0x1100, &[], "strip carries no vector chunk"),
    ];
    for (id, chunks, message) in cases {
        assert_eq!(
            failure(&frame_of(id, 0, chunks)),
            format!("cinepak: invalid data: {message}")
        );
    }
}

#[test]
fn strips_must_lie_in_the_frame() {
    assert_eq!(
        failure(&strip_frame(0x1000, 0, [0, 0, 4, 8], &GREY_V1)),
        "cinepak: invalid data: strip 0 bounds (0..8, 0..4) exceed frame (4x4)"
    );
    assert_eq!(
        failure(&strip_frame(0x1000, 0, [0, 2, 4, 4], &GREY_V1)),
        "cinepak: invalid data: strip 0 dims (2x4) not multiples of 4"
    );
    assert_eq!(
        failure(&strip_frame(0x1000, 0, [0, 4, 4, 0], &GREY_V1)),
        "cinepak: invalid data: strip 0 bounds (4..0, 0..4) are reversed"
    );
}
