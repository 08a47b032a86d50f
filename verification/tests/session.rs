//! Encoding sequences of frames.

use cinepak::decoder::CinepakDecoder;
use cinepak::encoder::{encode_rgb24, encode_rgb24_inter, CinepakEncoder, EncoderOptions};
use cinepak::header::{FrameStrips, STRIP_ID_INTER, STRIP_ID_INTRA};
use cinepak::image::{CinepakFrame, CinepakPlane};
use cinepak::lint::lint_frame;
use cinepak::measure::{decode_rgb_sse, decode_y_sse, plane_rgb_error, plane_y_error};
use cinepak::CinepakPixelFormat;

const W: u32 = 32;
const H: u32 = 16;

/// A picture with a gradient and some structure, moved by `shift`.
fn picture(shift: u32) -> Vec<u8> {
    let mut v = Vec::new();
    for y in 0..H {
        for x in 0..W {
            let a = (x + shift) * 7 % 256;
            let b = (y * 13 + x * 3) % 256;
            let c = ((x + shift) / 8 + y / 8) * 60 % 256;
            v.extend_from_slice(&[a as u8, b as u8, c as u8]);
        }
    }
    v
}

fn small() -> EncoderOptions {
    EncoderOptions { v4_entries: 16, v1_entries: 16, ..EncoderOptions::default() }
}

fn strip_id(bytes: &[u8]) -> u16 {
    let mut it = FrameStrips::new(bytes).unwrap();
    it.next().unwrap().unwrap().header.raw.strip_id
}

#[test]
fn receivers_see_the_same_pictures() {
    let mut enc = CinepakEncoder::new();
    let mut early = CinepakDecoder::new();
    let mut late = CinepakDecoder::new();
    for i in 0..6u32 {
        let rgb = picture(i);
        let bytes = if i % 3 == 0 {
            enc.encode_intra(&rgb, W, H, small()).unwrap()
        } else {
            enc.encode_inter(&rgb, W, H, small()).unwrap()
        };
        let a = early.decode_frame(&bytes, Some(7)).unwrap();
        assert_eq!((a.width, a.height, a.pts), (W, H, Some(7)));
        assert_eq!(a.pixel_format, CinepakPixelFormat::Rgb24);
        if i >= 3 {
            let b = late.decode_frame(&bytes, None).unwrap();
            assert_eq!(a.pixels(), b.pixels());
        }
        assert_eq!(strip_id(&bytes), if i % 3 == 0 { STRIP_ID_INTRA } else { STRIP_ID_INTER });
        assert!(lint_frame(&bytes).is_clean());
    }
}

#[test]
fn inter_before_intra_is_refused() {
    let mut enc = CinepakEncoder::new();
    let e = enc.encode_inter(&picture(0), W, H, small()).unwrap_err();
    assert_eq!(
        e.to_string(),
        "cinepak: encoder: encode_inter called before encode_intra; no prev frame"
    );
}

#[test]
fn inter_of_another_size_is_refused() {
    let mut enc = CinepakEncoder::new();
    enc.encode_intra(&picture(0), W, H, small()).unwrap();
    let e = enc.encode_inter(&picture(0), 16, 16, small()).unwrap_err();
    assert_eq!(e.to_string(), "cinepak: encoder: prev frame dims 32x16 != current 16x16");
    assert!(enc.encode_inter(&picture(1), W, H, small()).is_ok());
}

#[test]
fn still_pictures_take_no_codebooks() {
    let rgb = vec![90u8; (W * H * 3) as usize];
    let mut enc = CinepakEncoder::new();
    enc.encode_intra(&rgb, W, H, small()).unwrap();
    let still = enc.encode_inter(&rgb, W, H, small()).unwrap();
    let words = (W * H / 16).div_ceil(32) as usize;
    assert_eq!(still.len(), 10 + 12 + 4 + 4 * words);
}

#[test]
fn reset_keeps_the_settings() {
    let mut enc = CinepakEncoder::new().with_target_frame_bytes(900);
    enc.set_cross_frame_codebook_persistence(false);
    enc.encode_intra(&picture(0), W, H, small()).unwrap();
    assert!(enc.last_rate_stats().is_some());
    enc.reset();
    assert_eq!(enc.target_frame_bytes(), Some(900));
    assert!(!enc.cross_frame_codebook_persistence());
    assert!(enc.last_rate_stats().is_none());
    assert!(enc.encode_inter(&picture(0), W, H, small()).is_err());
    enc.clear_target_bitrate();
    assert_eq!(enc.target_frame_bytes(), None);
}

#[test]
fn bit_rates_become_budgets() {
    let mut enc = CinepakEncoder::new();
    assert_eq!(enc.target_frame_bytes(), None);
    enc.set_target_bitrate(256_000, (15, 1));
    assert_eq!(enc.target_frame_bytes(), Some(2133));
    enc.set_target_bitrate(256_000, (30_000, 1_001));
    assert_eq!(enc.target_frame_bytes(), Some(1068));
    enc.set_target_bitrate(800, (1, 2));
    assert_eq!(enc.target_frame_bytes(), Some(100));
    enc.set_target_bitrate(12, (1, 0));
    assert_eq!(enc.target_frame_bytes(), Some(2));
    let enc = CinepakEncoder::new().with_target_bitrate(0, (25, 1));
    assert_eq!(enc.target_frame_bytes(), Some(0));
}

#[test]
fn frames_fit_a_wide_budget() {
    let mut enc = CinepakEncoder::new();
    enc.set_target_frame_bytes(100_000);
    let bytes = enc.encode_intra(&picture(0), W, H, small()).unwrap();
    let s = enc.last_rate_stats().unwrap();
    assert_eq!(s.target_bytes, 100_000);
    assert_eq!(s.actual_bytes, bytes.len());
    assert_eq!(s.byte_delta, bytes.len() as i64 - 100_000);
    assert!(s.within_budget);
    assert_eq!(s.trials, 27);
    let next = enc.encode_inter(&picture(1), W, H, small()).unwrap();
    assert!(enc.last_rate_stats().unwrap().actual_bytes == next.len());
}

#[test]
fn frames_over_the_budget_are_the_smallest() {
    let mut tight = CinepakEncoder::new().with_target_frame_bytes(0);
    let bytes = tight.encode_intra(&picture(0), W, H, small()).unwrap();
    let s = tight.last_rate_stats().unwrap();
    assert!(!s.within_budget);
    assert_eq!(s.byte_delta, bytes.len() as i64);
    let mut wide = CinepakEncoder::new().with_target_frame_bytes(100_000);
    let best = wide.encode_intra(&picture(0), W, H, small()).unwrap();
    assert!(bytes.len() <= best.len());
    let rgb = picture(0);
    let a = decode_y_sse(&mut CinepakDecoder::new(), &best, &rgb, W, H).unwrap();
    let b = decode_y_sse(&mut CinepakDecoder::new(), &bytes, &rgb, W, H).unwrap();
    assert!(a <= b);
}

#[test]
fn statistics_start_at_nothing() {
    let mut enc = CinepakEncoder::new();
    let none = enc.last_frame_stats();
    assert_eq!(none.reclaimed_v4_slots, 0);
    let o = EncoderOptions { stale_slot_threshold: Some(0), ..small() };
    enc.encode_intra(&picture(0), W, H, o).unwrap();
    assert_eq!(enc.last_frame_stats(), none);
    let mut reclaimed = 0;
    let mut forced = 0;
    for i in 1..6 {
        enc.encode_inter(&picture(i * 5), W, H, o).unwrap();
        let s = enc.last_frame_stats();
        reclaimed += s.reclaimed_v4_slots + s.reclaimed_v1_slots;
        forced += s.forced_full_chunks;
    }
    assert_eq!(reclaimed > 0, forced > 0);
}

#[test]
fn errors_are_measured() {
    let mut p = CinepakPlane { stride: 12, data: vec![100; 48] };
    let mut rgb = vec![100u8; 48];
    assert_eq!(plane_rgb_error(&p, &rgb, 4, 4), 0);
    rgb[0] = 101;
    p.data[13] = 98;
    assert_eq!(plane_rgb_error(&p, &rgb, 4, 4), 1 + 4);
    assert_eq!(plane_y_error(&p, &rgb, 4, 4), 299 * 299 + (2 * 587) * (2 * 587));
}

#[test]
fn measuring_passes_errors_on() {
    let mut dec = CinepakDecoder::new();
    assert!(decode_rgb_sse(&mut dec, &[0; 4], &[0; 48], 4, 4).is_err());
    let mut enc = CinepakEncoder::new();
    let bytes = enc.encode_intra(&picture(0), W, H, small()).unwrap();
    let big = vec![0u8; (64 * 64 * 3) as usize];
    let e = decode_y_sse(&mut dec, &bytes, &big, 64, 64).unwrap_err();
    assert_eq!(e.to_string(), "cinepak: encoder: decoded frame does not cover the picture");
}

#[test]
fn frames_are_copied_whole() {
    let f = CinepakFrame {
        width: 4,
        height: 4,
        pixel_format: CinepakPixelFormat::Gray8,
        pts: Some(-3),
        planes: vec![CinepakPlane { stride: 4, data: (0..16).collect() }],
    };
    let g = f.clone();
    assert_eq!((g.width, g.height, g.pts, g.stride()), (4, 4, Some(-3), 4));
    assert_eq!(g.pixels(), f.pixels());
}

#[test]
fn frames_without_a_sequence_carry_whole_codebooks() {
    let rgb = vec![90u8; (W * H * 3) as usize];
    let first = encode_rgb24(&rgb, W, H, small()).unwrap();
    let prev = CinepakDecoder::new().decode_frame(&first, None).unwrap();
    let o = EncoderOptions { strip_count: 2, ..small() };
    let bytes = encode_rgb24_inter(&rgb, &prev, W, H, o).unwrap();
    let mut it = FrameStrips::new(&bytes).unwrap();
    while let Some(s) = it.next() {
        let p = s.unwrap().payload;
        assert_eq!(&p[0..4], &[0x20, 0x00, 0, 4 + 16 * 6]);
        assert_eq!(&p[100..104], &[0x22, 0x00, 0, 4 + 16 * 6]);
        assert_eq!(&p[200..202], &[0x31, 0x00]);
    }
}

#[test]
fn reset_needs_a_frame_that_stands_alone() {
    let mut enc = CinepakEncoder::default();
    enc.set_target_frame_bytes(400);
    enc.set_cross_frame_codebook_persistence(false);
    enc.encode_intra(&picture(0), W, H, small()).unwrap();
    enc.encode_inter(&picture(1), W, H, small()).unwrap();
    assert!(enc.last_rate_stats().is_some());
    enc.reset();
    assert_eq!(enc.target_frame_bytes(), Some(400));
    assert!(!enc.cross_frame_codebook_persistence());
    assert!(enc.last_rate_stats().is_none());
    assert_eq!(enc.last_frame_stats().forced_full_chunks, 0);
    assert!(enc.encode_inter(&picture(1), W, H, small()).is_err());
    assert!(enc.encode_intra(&picture(0)[1..], W, H, small()).is_err());
    assert!(enc.encode_inter(&picture(1), W, H, small()).is_err());
    let mut fresh = CinepakEncoder::new();
    fresh.set_target_frame_bytes(400);
    fresh.set_cross_frame_codebook_persistence(false);
    for i in 0..3u32 {
        let a = if i == 0 {
            enc.encode_intra(&picture(i), W, H, small()).unwrap()
        } else {
            enc.encode_inter(&picture(i), W, H, small()).unwrap()
        };
        let b = if i == 0 {
            fresh.encode_intra(&picture(i), W, H, small()).unwrap()
        } else {
            fresh.encode_inter(&picture(i), W, H, small()).unwrap()
        };
        assert_eq!(a, b);
    }
}

#[test]
fn budgets_of_small_pictures_are_rated() {
    for budget in [1usize, 300, 100_000] {
        let mut enc = CinepakEncoder::new();
        enc.set_target_frame_bytes(budget);
        for i in 0..2u32 {
            let bytes = if i == 0 {
                enc.encode_intra(&picture(i), W, H, small()).unwrap()
            } else {
                enc.encode_inter(&picture(i), W, H, small()).unwrap()
            };
            let r = enc.last_rate_stats().unwrap();
            assert_eq!(r.target_bytes, enc.target_frame_bytes().unwrap());
            assert_eq!(r.actual_bytes, bytes.len());
            assert_eq!(r.byte_delta, bytes.len() as i64 - r.target_bytes as i64);
            assert_eq!(r.within_budget, bytes.len() <= r.target_bytes);
            assert_eq!(r.trials, 27);
        }
    }
}

#[test]
fn previous_frame_of_another_size_is_not_read() {
    let prev = CinepakFrame {
        width: W + 4,
        height: H,
        pixel_format: CinepakPixelFormat::Rgb24,
        pts: None,
        planes: vec![],
    };
    let err = encode_rgb24_inter(&picture(0), &prev, W, H, small()).unwrap_err();
    assert_eq!(err.to_string(), "cinepak: encoder: prev frame dims 36x16 != current 32x16");
}
