//! Configurations of the encoder.

use cinepak::codebook::PixelMode;
use cinepak::encoder::{encode_gray8, encode_rgb24};
use cinepak::grid::{budget_grid_candidates, grid_candidates};
use cinepak::options::{validate_dims, validate_input_size, validate_opts, EncoderOptions};
use cinepak::strips::{assemble_frame, finalise_strip, plan_strips, StripPlan};
use cinepak::CinepakError;

const ONE: i64 = 65536;

#[test]
fn default_configuration() {
    let o = EncoderOptions::default();
    assert_eq!(o.v4_entries, 64);
    assert_eq!(o.v1_entries, 64);
    assert_eq!(o.strip_count, 1);
    assert_eq!(o.skip_threshold, 64 * ONE);
    assert_eq!(o.rdo_lambda, Some(5 * ONE));
    assert_eq!(o.luma_weight, 2);
}

#[test]
fn quality_follows_its_table() {
    let rows = [
        (0u8, 8u16, 1u16, 256i64),
        (25, 32, 1, 128),
        (50, 64, 2, 64),
        (75, 128, 3, 32),
        (100, 256, 4, 16),
    ];
    for (q, entries, strips, threshold) in rows {
        let o = EncoderOptions::from_quality(q);
        assert_eq!(o.v4_entries, entries);
        assert_eq!(o.v1_entries, entries);
        assert_eq!(o.strip_count, strips);
        assert_eq!(o.skip_threshold, threshold * ONE);
    }
}

#[test]
fn quality_never_falls() {
    for q in 0..100u8 {
        let a = EncoderOptions::from_quality(q);
        let b = EncoderOptions::from_quality(q + 1);
        assert!(a.v4_entries <= b.v4_entries);
        assert!(a.strip_count <= b.strip_count);
        assert!(a.skip_threshold >= b.skip_threshold);
        assert!(validate_opts(&a).is_ok());
    }
}

#[test]
fn quality_above_the_scale_is_the_best() {
    assert_eq!(EncoderOptions::from_quality(200), EncoderOptions::from_quality(100));
}

fn text(r: Result<(), CinepakError>) -> String {
    r.unwrap_err().to_string()
}

#[test]
fn refusals_say_what_is_wrong() {
    assert_eq!(
        text(validate_dims(8, 6)),
        "cinepak: encoder: dims must be > 0 and multiples of 4; got 8x6"
    );
    assert_eq!(
        text(validate_dims(0, 4)),
        "cinepak: encoder: dims must be > 0 and multiples of 4; got 0x4"
    );
    let none = EncoderOptions { v4_entries: 0, ..EncoderOptions::default() };
    let many = EncoderOptions { v1_entries: 257, ..EncoderOptions::default() };
    let sizes = "cinepak: encoder: v4_entries / v1_entries must be in 1..=256";
    assert_eq!(text(validate_opts(&none)), sizes);
    assert_eq!(text(validate_opts(&many)), sizes);
    let strips = EncoderOptions { strip_count: 0, ..EncoderOptions::default() };
    assert_eq!(text(validate_opts(&strips)), "cinepak: encoder: strip_count must be ≥ 1");
    let negative = EncoderOptions { skip_threshold: -1, ..EncoderOptions::default() };
    assert_eq!(
        text(validate_opts(&negative)),
        "cinepak: encoder: skip_threshold must be a finite non-negative float"
    );
    assert_eq!(
        text(validate_input_size(&[0; 47], 4, 4, PixelMode::Yuv12)),
        "cinepak: encoder: input buffer 47 bytes < expected 48"
    );
    assert!(validate_input_size(&[0; 16], 4, 4, PixelMode::Gray8).is_ok());
}

#[test]
fn size_is_tested_before_configuration_before_bytes() {
    let bad = EncoderOptions { v4_entries: 0, ..EncoderOptions::default() };
    let a = encode_rgb24(&[], 3, 4, bad).unwrap_err().to_string();
    assert!(a.contains("dims"));
    let b = encode_rgb24(&[], 4, 4, bad).unwrap_err().to_string();
    assert!(b.contains("entries"));
    let c = encode_gray8(&[], 4, 4, EncoderOptions::default()).unwrap_err().to_string();
    assert!(c.contains("input buffer 0 bytes < expected 16"));
}

#[test]
fn grid_varies_luma_fastest() {
    let base = EncoderOptions::default();
    let g = grid_candidates(&base, &[1, 2], &[None, Some(ONE)], &[3, 5]);
    assert_eq!(g.len(), 8);
    assert_eq!((g[0].strip_count, g[0].rdo_lambda, g[0].luma_weight), (1, None, 3));
    assert_eq!((g[1].strip_count, g[1].rdo_lambda, g[1].luma_weight), (1, None, 5));
    assert_eq!((g[2].strip_count, g[2].rdo_lambda, g[2].luma_weight), (1, Some(ONE), 3));
    assert_eq!((g[7].strip_count, g[7].rdo_lambda, g[7].luma_weight), (2, Some(ONE), 5));
    assert_eq!(g[7].v4_entries, base.v4_entries);
}

#[test]
fn budget_grid_has_no_repetitions() {
    let g = budget_grid_candidates(&EncoderOptions::default());
    assert_eq!(g.len(), 27);
    assert_eq!((g[0].strip_count, g[0].rdo_lambda, g[0].luma_weight), (1, Some(5 * ONE), 2));
    let o = EncoderOptions { rdo_lambda: Some(0), luma_weight: 4, ..EncoderOptions::default() };
    let h = budget_grid_candidates(&o);
    assert_eq!(h.len(), 3 * 2 * 2);
    assert_eq!(h[2].rdo_lambda, Some(5 * ONE / 2));
}

#[test]
fn strips_tile_the_frame() {
    for rows in 1..20usize {
        for wanted in 0..25usize {
            let s = plan_strips(rows, wanted);
            assert_eq!(s[0].y_top, 0);
            assert_eq!(s[s.len() - 1].y_bottom as usize, rows * 4);
            for i in 1..s.len() {
                assert_eq!(s[i].y_top, s[i - 1].y_bottom);
            }
            assert!(s.iter().all(|p| p.y_top < p.y_bottom));
        }
    }
}

#[test]
fn strips_and_frames_have_a_largest_size() {
    let rows = StripPlan { y_top: 0, y_bottom: 4 };
    assert!(finalise_strip(0x1000, &rows, 4, &vec![0; 65523]).is_ok());
    assert!(finalise_strip(0x1000, &rows, 4, &vec![0; 65524]).is_err());
    let strips = vec![vec![0u8; 65535]; 256];
    assert!(assemble_frame(4, 4, &strips).is_ok());
    let strips = vec![vec![0u8; 65535]; 257];
    assert!(assemble_frame(4, 4, &strips).is_err());
}

#[test]
fn luma_weight_of_zero_is_one() {
    let rgb: Vec<u8> = (0..16 * 16 * 3).map(|i| (i * 31 % 256) as u8).collect();
    let none = EncoderOptions { luma_weight: 0, v4_entries: 8, ..EncoderOptions::default() };
    let one = EncoderOptions { luma_weight: 1, ..none };
    assert_eq!(encode_rgb24(&rgb, 16, 16, none), encode_rgb24(&rgb, 16, 16, one));
}

#[test]
fn luma_weight_does_not_matter_for_gray() {
    let gray: Vec<u8> = (0..16 * 16).map(|i| (i * i % 251) as u8).collect();
    for lambda in [None, Some(5 * ONE)] {
        let o = EncoderOptions { v4_entries: 8, v1_entries: 8, rdo_lambda: lambda, ..EncoderOptions::default() };
        let a = encode_gray8(&gray, 16, 16, o).unwrap();
        for w in [0u8, 1, 4, 255] {
            let b = encode_gray8(&gray, 16, 16, EncoderOptions { luma_weight: w, ..o }).unwrap();
            assert_eq!(a, b);
        }
    }
}
