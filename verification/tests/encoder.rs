//! Encoding frames.

use cinepak::decoder::CinepakDecoder;
use cinepak::encoder::{encode_gray8, encode_rgb24, encode_rgb24_inter};
use cinepak::header::{FRAME_HEADER_SIZE, FrameHeader};
use cinepak::image::CinepakPixelFormat;
use cinepak::options::EncoderOptions;
use cinepak::strips::plan_strips;

/// A number with 16 fractional bits; negative for one that is no threshold.
fn fixed(x: f32) -> i64 {
    if x.is_finite() && x >= 0.0 {
        (f64::from(x) * 65536.0) as i64
    } else {
        -1
    }
}

#[test]
fn rgb24_roundtrip_4_color_blocks() {
    let w = 16usize;
    let h = 16usize;
    let mut rgb = vec![0u8; w * h * 3];
    let colors = [
        (255, 0, 0),
        (0, 255, 0),
        (0, 0, 255),
        (200, 200, 0),
    ];
    for r in 0..h {
        for c in 0..w {
            let q = (r / 8) * 2 + (c / 8);
            let off = r * w * 3 + c * 3;
            rgb[off] = colors[q].0;
            rgb[off + 1] = colors[q].1;
            rgb[off + 2] = colors[q].2;
        }
    }
    let bytes = encode_rgb24(&rgb, w as u32, h as u32, EncoderOptions::default()).unwrap();
    let mut dec = CinepakDecoder::new();
    let f = dec.decode_frame(&bytes, None).unwrap();
    assert_eq!(f.width, w as u32);
    assert_eq!(f.height, h as u32);
    let s = f.stride();
    let p = f.pixels();
    for q in 0..4 {
        let qr = (q / 2) * 8 + 2;
        let qc = (q % 2) * 8 + 2;
        let off = qr * s + qc * 3;
        let r = p[off] as i32;
        let g = p[off + 1] as i32;
        let b = p[off + 2] as i32;
        let (er, eg, eb) = (colors[q].0 as i32, colors[q].1 as i32, colors[q].2 as i32);
        assert!((r - er).abs() <= 8, "q{q} R={r} expect {er}");
        assert!((g - eg).abs() <= 8, "q{q} G={g} expect {eg}");
        assert!((b - eb).abs() <= 8, "q{q} B={b} expect {eb}");
    }
}

#[test]
fn gray8_roundtrip_4_blocks() {
    let w = 16usize;
    let h = 16usize;
    let mut gray = vec![0u8; w * h];
    let lums = [40u8, 80, 160, 220];
    for r in 0..h {
        for c in 0..w {
            let q = (r / 8) * 2 + (c / 8);
            gray[r * w + c] = lums[q];
        }
    }
    let bytes = encode_gray8(&gray, w as u32, h as u32, EncoderOptions::default()).unwrap();
    let mut dec = CinepakDecoder::new();
    let f = dec.decode_frame(&bytes, None).unwrap();
    assert_eq!(f.pixel_format, CinepakPixelFormat::Gray8);
    assert_eq!(f.stride(), w);
    let p = f.pixels();
    for q in 0..4 {
        let qr = (q / 2) * 8 + 2;
        let qc = (q % 2) * 8 + 2;
        let v = p[qr * w + qc];
        assert!(
            (v as i32 - lums[q] as i32).abs() <= 4,
            "q{q} got {v} expect {}",
            lums[q]
        );
    }
}

#[test]
fn rejects_misaligned_dims() {
    let rgb = vec![0u8; 5 * 4 * 3];
    let r = encode_rgb24(&rgb, 5, 4, EncoderOptions::default());
    assert!(r.is_err());
}

#[test]
fn frame_length_matches_buffer_size() {
    let rgb = vec![128u8; 8 * 8 * 3];
    let bytes = encode_rgb24(&rgb, 8, 8, EncoderOptions::default()).unwrap();
    let h = FrameHeader::parse(&bytes).unwrap();
    assert_eq!(h.frame_length as usize, bytes.len());
    assert_eq!(h.width, 8);
    assert_eq!(h.height, 8);
    assert_eq!(h.strip_count, 1);
}

#[test]
fn plan_strips_distributes_remainder_to_first() {
    let plans = plan_strips(8, 3);
    assert_eq!(plans.len(), 3);
    assert_eq!(plans[0].y_top, 0);
    assert_eq!(plans[0].y_bottom, 12);
    assert_eq!(plans[1].y_top, 12);
    assert_eq!(plans[1].y_bottom, 24);
    assert_eq!(plans[2].y_top, 24);
    assert_eq!(plans[2].y_bottom, 32);
}

#[test]
fn plan_strips_clamps_to_mb_rows() {
    let plans = plan_strips(2, 8);
    assert_eq!(plans.len(), 2);
    assert_eq!(plans[0].y_bottom, 4);
    assert_eq!(plans[1].y_bottom, 8);
}

#[test]
fn encode_multi_strip_4_strips_32x32() {
    let w = 32usize;
    let h = 32usize;
    let mut rgb = vec![0u8; w * h * 3];
    for r in 0..h {
        let g = (r * 8) as u8;
        for c in 0..w {
            let off = r * w * 3 + c * 3;
            rgb[off] = g;
            rgb[off + 1] = g;
            rgb[off + 2] = g;
        }
    }
    let opts = EncoderOptions {
        v4_entries: 8,
        v1_entries: 8,
        strip_count: 4,
        skip_threshold: fixed(64.0),
        ..EncoderOptions::default()
    };
    let bytes = encode_rgb24(&rgb, w as u32, h as u32, opts).unwrap();
    let h_parsed = FrameHeader::parse(&bytes).unwrap();
    assert_eq!(h_parsed.strip_count, 4);
    let mut dec = CinepakDecoder::new();
    let f = dec.decode_frame(&bytes, None).unwrap();
    assert_eq!(f.width, 32);
    assert_eq!(f.height, 32);
    let p = f.pixels();
    let s = f.stride();
    let r4 = p[4 * s + 8] as i32;
    let r28 = p[28 * s + 8] as i32;
    assert!(r4 < 80, "row 4 luma {r4} should be dark");
    assert!(r28 > 160, "row 28 luma {r28} should be bright");
}

#[test]
fn encode_inter_unchanged_frame_is_mostly_skip() {
    let w = 16usize;
    let h = 16usize;
    let rgb = vec![128u8; w * h * 3];
    let bytes_intra =
        encode_rgb24(&rgb, w as u32, h as u32, EncoderOptions::default()).unwrap();
    let mut dec = CinepakDecoder::new();
    let prev = dec.decode_frame(&bytes_intra, None).unwrap();

    let opts = EncoderOptions {
        v4_entries: 8,
        v1_entries: 8,
        strip_count: 1,
        skip_threshold: fixed(32.0),
        ..EncoderOptions::default()
    };
    let bytes_inter = encode_rgb24_inter(&rgb, &prev, w as u32, h as u32, opts).unwrap();
    let strip_off = FRAME_HEADER_SIZE;
    assert_eq!(bytes_inter[strip_off], 0x11);
    assert_eq!(bytes_inter[strip_off + 1], 0x00);

    let mut dec2 = CinepakDecoder::new();
    let _ = dec2.decode_frame(&bytes_intra, None).unwrap();
    let f2 = dec2.decode_frame(&bytes_inter, None).unwrap();
    let p = f2.pixels();
    let s = f2.stride();
    for r in 0..h {
        for c in 0..w {
            let off = r * s + c * 3;
            assert!(
                (p[off] as i32 - 128).abs() <= 12,
                "({r},{c}) R={} expected ~128",
                p[off]
            );
        }
    }
}

#[test]
fn from_quality_monotonic_codebook() {
    let q0 = EncoderOptions::from_quality(0);
    let q50 = EncoderOptions::from_quality(50);
    let q100 = EncoderOptions::from_quality(100);
    assert!(q0.v4_entries < q50.v4_entries);
    assert!(q50.v4_entries < q100.v4_entries);
    assert_eq!(q0.v4_entries, q0.v1_entries);
    assert_eq!(q100.v4_entries, 256);
    assert!(q100.skip_threshold < q0.skip_threshold);
    assert!(q100.strip_count >= q0.strip_count);
}

#[test]
fn from_quality_encodes_at_min_q() {
    let w = 16usize;
    let h = 16usize;
    let rgb = vec![100u8; w * h * 3];
    let opts = EncoderOptions::from_quality(0);
    assert_eq!(opts.v4_entries, 8);
    let bytes = encode_rgb24(&rgb, w as u32, h as u32, opts).unwrap();
    let mut dec = CinepakDecoder::new();
    let f = dec.decode_frame(&bytes, None).unwrap();
    assert_eq!(f.width, 16);
}

#[test]
fn rejects_nan_skip_threshold() {
    let opts = EncoderOptions {
        v4_entries: 8,
        v1_entries: 8,
        strip_count: 1,
        skip_threshold: fixed(f32::NAN),
        ..EncoderOptions::default()
    };
    let rgb = vec![0u8; 8 * 8 * 3];
    assert!(encode_rgb24(&rgb, 8, 8, opts).is_err());
}

#[test]
fn encoder_rejects_zero_strip_count() {
    let opts = EncoderOptions {
        v4_entries: 8,
        v1_entries: 8,
        strip_count: 0,
        skip_threshold: fixed(64.0),
        ..EncoderOptions::default()
    };
    let rgb = vec![0u8; 8 * 8 * 3];
    assert!(encode_rgb24(&rgb, 8, 8, opts).is_err());
}

#[test]
fn rejects_prev_size_mismatch() {
    let rgb_a = vec![0u8; 8 * 8 * 3];
    let bytes = encode_rgb24(&rgb_a, 8, 8, EncoderOptions::default()).unwrap();
    let mut dec = CinepakDecoder::new();
    let prev = dec.decode_frame(&bytes, None).unwrap();
    let rgb_b = vec![0u8; 16 * 16 * 3];
    let r = encode_rgb24_inter(&rgb_b, &prev, 16, 16, EncoderOptions::default());
    assert!(r.is_err());
}
