//! Searching for the best configuration.

use cinepak::decoder::CinepakDecoder;
use cinepak::encoder::{
    encode_rgb24, encode_rgb24_best_rd_grid, encode_rgb24_best_rd_grid_3axis,
    encode_rgb24_best_strips, encode_rgb24_per_strip_rd, encode_rgb24_round6, encode_rgb24_round7,
    encode_rgb24_round8, EncoderOptions,
};
use cinepak::header::FrameHeader;
use cinepak::lint::lint_frame;
use cinepak::measure::{decode_rgb_sse, decode_y_sse};
use cinepak::stripwise::extract_strip_rgb;

const ONE: i64 = 65536;
const W: u32 = 16;
const H: u32 = 16;

fn picture() -> Vec<u8> {
    let mut v = Vec::new();
    for y in 0..H {
        for x in 0..W {
            v.extend_from_slice(&[(x * 16) as u8, (y * 16) as u8, ((x * y) % 256) as u8]);
        }
    }
    v
}

fn small() -> EncoderOptions {
    EncoderOptions { v4_entries: 8, v1_entries: 8, kmeans_pp_init: false, ..EncoderOptions::default() }
}

fn rgb_cost(bytes: &[u8]) -> u128 {
    let e = decode_rgb_sse(&mut CinepakDecoder::new(), bytes, &picture(), W, H).unwrap();
    e * 65536 + 3 * (5 * 65536) * bytes.len() as u128
}

fn y_cost(bytes: &[u8]) -> u128 {
    let e = decode_y_sse(&mut CinepakDecoder::new(), bytes, &picture(), W, H).unwrap();
    e * 65536 + 1_000_000 * (5 * 65536) * bytes.len() as u128
}

#[test]
fn empty_lists_are_refused() {
    let rgb = picture();
    let o = small();
    let said = |r: Result<Vec<u8>, cinepak::CinepakError>| r.unwrap_err().to_string();
    assert_eq!(
        said(encode_rgb24_best_strips(&rgb, W, H, o, &[])),
        "cinepak: encode_rgb24_best_strips: candidates list must not be empty"
    );
    assert_eq!(
        said(encode_rgb24_best_rd_grid(&rgb, W, H, o, &[], &[None])),
        "cinepak: encode_rgb24_best_rd_grid: strip_candidates must not be empty"
    );
    assert_eq!(
        said(encode_rgb24_best_rd_grid(&rgb, W, H, o, &[1], &[])),
        "cinepak: encode_rgb24_best_rd_grid: lambda_candidates must not be empty"
    );
    assert_eq!(
        said(encode_rgb24_best_rd_grid_3axis(&rgb, W, H, o, &[], &[None], &[1])),
        "cinepak: encode_rgb24_best_rd_grid_3axis: strip_candidates must not be empty"
    );
    assert_eq!(
        said(encode_rgb24_best_rd_grid_3axis(&rgb, W, H, o, &[1], &[], &[1])),
        "cinepak: encode_rgb24_best_rd_grid_3axis: lambda_candidates must not be empty"
    );
    assert_eq!(
        said(encode_rgb24_best_rd_grid_3axis(&rgb, W, H, o, &[1], &[None], &[])),
        "cinepak: encode_rgb24_best_rd_grid_3axis: luma_candidates must not be empty"
    );
    assert_eq!(
        said(encode_rgb24_per_strip_rd(&rgb, W, H, o, &[], &[None], &[1])),
        "cinepak: encode_rgb24_per_strip_rd: strip_candidates must not be empty"
    );
    assert_eq!(
        said(encode_rgb24_per_strip_rd(&rgb, W, H, o, &[1], &[], &[1])),
        "cinepak: encode_rgb24_per_strip_rd: lambda_candidates must not be empty"
    );
    assert_eq!(
        said(encode_rgb24_per_strip_rd(&rgb, W, H, o, &[1], &[None], &[])),
        "cinepak: encode_rgb24_per_strip_rd: luma_candidates must not be empty"
    );
}

#[test]
fn strip_counts_out_of_range_are_taken_as_the_nearest() {
    let rgb = picture();
    let none = encode_rgb24_best_strips(&rgb, W, H, small(), &[0]).unwrap();
    assert_eq!(none, encode_rgb24(&rgb, W, H, small()).unwrap());
    let many = encode_rgb24_best_strips(&rgb, W, H, small(), &[100]).unwrap();
    assert_eq!(FrameHeader::parse(&many).unwrap().strip_count, 4);
}

#[test]
fn the_cheapest_strip_count_wins() {
    let rgb = picture();
    let best = encode_rgb24_best_strips(&rgb, W, H, small(), &[1, 2, 4]).unwrap();
    for n in [1u16, 2, 4] {
        let o = EncoderOptions { strip_count: n, ..small() };
        let other = encode_rgb24(&rgb, W, H, o).unwrap();
        assert!(rgb_cost(&best) <= rgb_cost(&other));
    }
    let six = encode_rgb24_round6(&rgb, W, H, small()).unwrap();
    assert!(rgb_cost(&six) <= rgb_cost(&best));
}

#[test]
fn the_cheapest_luma_weight_wins() {
    let rgb = picture();
    let best = encode_rgb24_round7(&rgb, W, H, small()).unwrap();
    let one =
        encode_rgb24_best_rd_grid_3axis(&rgb, W, H, small(), &[2], &[Some(5 * ONE)], &[8]).unwrap();
    assert!(y_cost(&best) <= y_cost(&one));
    let o = EncoderOptions { strip_count: 2, luma_weight: 8, ..small() };
    assert_eq!(one, encode_rgb24(&rgb, W, H, o).unwrap());
}

#[test]
fn suited_strips_are_no_dearer_than_uniform_ones() {
    let rgb = picture();
    let uniform = encode_rgb24_round7(&rgb, W, H, small()).unwrap();
    let better = encode_rgb24_round8(&rgb, W, H, small()).unwrap();
    assert!(y_cost(&better) <= y_cost(&uniform));
}

#[test]
fn one_suited_strip_is_the_best_uniform_one() {
    let rgb = picture();
    let lambdas = [Some(0), Some(5 * ONE)];
    let a = encode_rgb24_per_strip_rd(&rgb, W, H, small(), &[1], &lambdas, &[1, 4]).unwrap();
    let b = encode_rgb24_best_rd_grid_3axis(&rgb, W, H, small(), &[1], &lambdas, &[1, 4]).unwrap();
    assert_eq!(y_cost(&a), y_cost(&b));
}

#[test]
fn unsuitable_configurations_are_refused() {
    let rgb = picture();
    let bad = EncoderOptions { v4_entries: 0, ..small() };
    let e = encode_rgb24_per_strip_rd(&rgb, W, H, bad, &[1, 2], &[None], &[2]).unwrap_err();
    assert_eq!(
        e.to_string(),
        "cinepak: encode_rgb24_per_strip_rd: no strip_count candidate succeeded"
    );
    assert!(encode_rgb24_per_strip_rd(&rgb, 15, H, small(), &[1], &[None], &[2]).is_err());
    assert!(encode_rgb24_per_strip_rd(&rgb, 64, 64, small(), &[1], &[None], &[2]).is_err());
    assert!(encode_rgb24_best_rd_grid(&rgb, W, H, small(), &[1, 0], &[None]).is_err());
}

#[test]
fn strips_are_cut_out_of_the_picture() {
    let rgb = picture();
    let cut = extract_strip_rgb(&rgb, W, 4, 8);
    assert_eq!(cut, rgb[4 * 48..12 * 48].to_vec());
    assert!(extract_strip_rgb(&rgb, W, 4, 0).is_empty());
}

#[test]
fn frames_of_suited_strips_decode_and_are_clean() {
    let frames = [
        encode_rgb24_per_strip_rd(&picture(), W, H, small(), &[2, 4], &[Some(0), Some(5 * ONE)], &[1, 4])
            .unwrap(),
        encode_rgb24_round8(&picture(), W, H, small()).unwrap(),
        encode_rgb24_round7(&picture(), W, H, small()).unwrap(),
    ];
    for bytes in frames {
        let f = CinepakDecoder::new().decode_frame(&bytes, Some(3)).unwrap();
        assert_eq!((f.width, f.height, f.pts), (W, H, Some(3)));
        assert_eq!(f.pixels().len(), (W * H * 3) as usize);
        assert!(lint_frame(&bytes).is_clean());
    }
}

#[test]
fn strip_that_only_the_given_configuration_suits_counts_its_error() {
    let (w, h) = (512u32, 512u32);
    let mut rgb = Vec::new();
    for y in 0..h {
        for x in 0..w {
            let v = if (x + y) % 2 == 0 { 104 } else { 96 };
            rgb.extend_from_slice(&[v, v, v]);
        }
    }
    let o = EncoderOptions { v4_entries: 2, v1_entries: 2, rdo_lambda: Some(30 * ONE), ..small() };
    let free = EncoderOptions { rdo_lambda: Some(0), luma_weight: 1, ..o };
    assert!(encode_rgb24(&rgb, w, h, free).is_err());
    assert!(encode_rgb24(&rgb, w, h, o).is_ok());
    let strips = |counts: &[u16]| {
        let bytes = encode_rgb24_per_strip_rd(&rgb, w, h, o, counts, &[Some(0)], &[1]).unwrap();
        FrameHeader::parse(&bytes).unwrap().strip_count
    };
    assert_eq!(strips(&[1]), 1);
    assert_eq!(strips(&[1, 2]), 2);
}
