//! Choosing a quality for every frame.

use cinepak::decoder::CinepakDecoder;
use cinepak::encoder::{CinepakEncoder, EncoderOptions};
use cinepak::rate::{RateControlledFrame, TwoPassRateControl};
use cinepak::window::PERCENT;

const W: u32 = 16;
const H: u32 = 16;

fn frames(n: u32) -> Vec<Vec<u8>> {
    (0..n)
        .map(|i| {
            let mut v = Vec::new();
            for y in 0..H {
                for x in 0..W {
                    v.extend_from_slice(&[((x + i) * 16) as u8, (y * 16) as u8, ((x * y + i) % 256) as u8]);
                }
            }
            v
        })
        .collect()
}

fn decodes(out: &[RateControlledFrame]) {
    let mut dec = CinepakDecoder::new();
    for f in out {
        let g = dec.decode_frame(&f.bytes, None).unwrap();
        assert_eq!((g.width, g.height), (W, H));
    }
}

#[test]
fn statistics_record_every_frame() {
    let mut rc = TwoPassRateControl::new();
    assert_eq!(rc.reference_quality, 50);
    assert_eq!(rc.average_frame_bytes(), None);
    let input = frames(3);
    let total = rc.stats_pass(&input, W, H).unwrap();
    assert_eq!(rc.per_frame_bytes().len(), 3);
    assert_eq!(rc.per_frame_bytes().iter().sum::<usize>(), total);
    assert_eq!(rc.average_frame_bytes(), Some((total as u128, 3)));
    let mut enc = CinepakEncoder::new();
    let first = enc.encode_intra(&input[0], W, H, EncoderOptions::from_quality(50)).unwrap();
    assert_eq!(rc.per_frame_bytes()[0], first.len());
}

#[test]
fn statistics_stop_at_a_frame_that_fails() {
    let mut rc = TwoPassRateControl::default();
    let mut input = frames(2);
    input.push(vec![0; 5]);
    assert!(rc.stats_pass(&input, W, H).is_err());
    assert_eq!(rc.per_frame_bytes().len(), 2);
    assert!(rc.encode_at_target_bytes(&input, W, H, 1000).is_err());
}

#[test]
fn wide_sizes_give_the_best_quality() {
    let rc = TwoPassRateControl::new();
    let out = rc.encode_at_target_bytes(&frames(2), W, H, 1_000_000).unwrap();
    assert_eq!(out.len(), 2);
    for f in &out {
        assert_eq!(f.quality, 100);
        assert_eq!(f.byte_delta, f.bytes.len() as i64 - 1_000_000);
    }
    decodes(&out);
}

#[test]
fn no_size_gives_the_lowest_quality() {
    let rc = TwoPassRateControl::new();
    let out = rc.encode_at_target_bytes(&frames(2), W, H, 0).unwrap();
    for f in &out {
        assert_eq!(f.quality, 0);
        assert_eq!(f.byte_delta, f.bytes.len() as i64);
    }
    decodes(&out);
}

#[test]
fn quality_is_the_highest_that_fits() {
    let rc = TwoPassRateControl::new();
    let input = frames(1);
    let target = 300;
    let out = rc.encode_at_target_bytes(&input, W, H, target).unwrap();
    let q = out[0].quality;
    assert_eq!(q % 10, 0);
    for k in 0..=10u8 {
        let o = EncoderOptions::from_quality(k * 10);
        let b = CinepakEncoder::new().encode_intra(&input[0], W, H, o).unwrap();
        if b.len() <= target {
            assert!(k * 10 <= q);
        }
    }
}

#[test]
fn nothing_in_nothing_out() {
    let rc = TwoPassRateControl::new();
    assert!(rc.encode_at_target_bytes(&[], W, H, 10).unwrap().is_empty());
    assert!(rc.encode_at_target_window_bytes(&[], W, H, 10, 2, PERCENT).unwrap().is_empty());
}

#[test]
fn windows_hold_their_budget() {
    let rc = TwoPassRateControl::new();
    let input = frames(5);
    let out = rc.encode_at_target_window_bytes(&input, W, H, 1500, 3, 10 * PERCENT).unwrap();
    assert_eq!(out.len(), 5);
    for f in &out {
        assert!(f.quality <= 100);
        assert_eq!(f.byte_delta, f.bytes.len() as i64 - 500);
    }
    assert!(out[0].bytes.len() <= 1500);
    decodes(&out);
}

#[test]
fn wide_windows_keep_the_best_quality() {
    let rc = TwoPassRateControl::new();
    let out = rc.encode_at_target_window_bytes(&frames(3), W, H, 1_000_000, 2, 0).unwrap();
    assert!(out.iter().all(|f| f.quality == 100));
}

#[test]
fn windows_of_no_budget_take_the_lowest_quality() {
    let rc = TwoPassRateControl::new();
    let out = rc.encode_at_target_window_bytes(&frames(3), W, H, 0, 0, PERCENT).unwrap();
    assert!(out.iter().all(|f| f.quality == 0));
}

#[test]
fn equal_tolerances_are_one_tolerance() {
    let rc = TwoPassRateControl::new();
    let input = frames(4);
    let t = 8 * PERCENT;
    let a = rc.encode_at_target_window_bytes(&input, W, H, 1200, 2, t).unwrap();
    let b = rc
        .encode_at_target_window_bytes_adaptive(&input, W, H, 1200, 2, t, t, 25 * PERCENT)
        .unwrap();
    for i in 0..4 {
        assert_eq!(a[i].bytes, b[i].bytes);
        assert_eq!(a[i].quality, b[i].quality);
    }
}

#[test]
fn wide_tolerances_hold_the_quality() {
    let rc = TwoPassRateControl::new();
    let input = frames(4);
    let out = rc
        .encode_at_target_window_bytes_adaptive(
            &input,
            W,
            H,
            1200,
            2,
            100_000 * PERCENT,
            200_000 * PERCENT,
            25 * PERCENT,
        )
        .unwrap();
    assert!(out.iter().all(|f| f.quality == out[0].quality));
    decodes(&out);
}
