//! Training codebooks.

use cinepak::codebook::{Codebook, CodebookEntry, PixelMode, WhichCodebook};
use cinepak::median::{extent, median_cut};
use cinepak::quant::{
    centroid, codebook_total_sse, dim_value, entry_distance, entry_l1_distance, nearest, Metric,
};
use cinepak::reclaim::reclaim_stale_slots;
use cinepak::rolling::{used_v1_slots, used_v4_slots, RollingCodebooks};
use cinepak::sampling::{rgb_to_yuv, Source};
use cinepak::seeding::{kmeans_pp_init_cold, ContentSeededRng};
use cinepak::training::{lbg_refine_codebook, perturb_dim};
use cinepak::vector::Mb;

const COLOUR: Metric = Metric { mode: PixelMode::Yuv12, luma_weight: 2 };
const GRAY: Metric = Metric { mode: PixelMode::Gray8, luma_weight: 2 };

#[test]
fn distances_weigh_luma() {
    let a = CodebookEntry::from_yuv(10, 20, 30, 40, 5, -5);
    let b = CodebookEntry::from_yuv(11, 18, 33, 36, 0, 1);
    assert_eq!(entry_distance(COLOUR, &a, &b), 2 * (1 + 4 + 9 + 16) + 25 + 36);
    assert_eq!(entry_distance(GRAY, &a, &b), 1 + 4 + 9 + 16);
    assert_eq!(entry_l1_distance(COLOUR, &a, &b), 2 * (1 + 2 + 3 + 4) + 5 + 6);
    assert_eq!(entry_distance(COLOUR, &a, &a), 0);
    let zero = Metric { mode: PixelMode::Yuv12, luma_weight: 0 };
    let one = Metric { mode: PixelMode::Yuv12, luma_weight: 1 };
    assert_eq!(entry_distance(zero, &a, &b), entry_distance(one, &a, &b));
}

#[test]
fn nearest_takes_the_first_of_equals() {
    let mut cb = Codebook::default();
    cb.entries[0] = CodebookEntry::from_y(0, 0, 0, 0);
    cb.entries[1] = CodebookEntry::from_y(20, 20, 20, 20);
    cb.entries[2] = CodebookEntry::from_y(10, 10, 10, 10);
    cb.entries[3] = CodebookEntry::from_y(10, 10, 10, 10);
    let t = CodebookEntry::from_y(11, 10, 10, 10);
    assert_eq!(nearest(GRAY, &t, &cb, 4), (2, 1));
    assert_eq!(nearest(GRAY, &t, &cb, 2), (1, 81 + 3 * 100));
    assert_eq!(codebook_total_sse(GRAY, &cb, &[t, t], 4), 2);
    assert_eq!(nearest(COLOUR, &t, &cb, 4), (2, 2));
}

#[test]
fn centres_round_toward_zero() {
    let c = [
        CodebookEntry::from_yuv(1, 2, 3, 4, -3, 5),
        CodebookEntry::from_yuv(2, 2, 3, 5, -2, 4),
    ];
    assert_eq!(centroid(PixelMode::Yuv12, &c), CodebookEntry::from_yuv(1, 2, 3, 4, -2, 4));
    assert_eq!(centroid(PixelMode::Gray8, &c), CodebookEntry::from_y(1, 2, 3, 4));
    assert_eq!(dim_value(&c[0], 3), 4);
    assert_eq!(dim_value(&c[0], 4), -3);
    assert_eq!(extent(&c, 4), (-3, -2));
    assert_eq!(extent(&[], 0), (i32::MAX, i32::MIN));
}

#[test]
fn cutting_separates_two_colours() {
    let a = CodebookEntry::from_y(10, 10, 10, 10);
    let b = CodebookEntry::from_y(200, 200, 200, 200);
    let cb = median_cut(GRAY, &[a, b, a, b, a, b], 2);
    let mut got = [cb.entries[0].y0, cb.entries[1].y0];
    got.sort();
    assert_eq!(got, [10, 200]);
}

#[test]
fn random_numbers_are_an_xorshift() {
    let vs = [CodebookEntry::from_y(1, 2, 3, 4)];
    let mut a = ContentSeededRng::new(&vs, 8, 0);
    let mut b = ContentSeededRng::new(&vs, 8, 1);
    let x = a.next_u32();
    assert_eq!(x, b.next_u32());
    let mut s = x;
    s ^= s << 13;
    s ^= s >> 17;
    s ^= s << 5;
    assert_eq!(a.next_u32(), s);
    assert_eq!(a.next_index(1), 0);
    assert!(a.next_index(7) < 7);
    assert_eq!(a.next_range_i64(1), 0);
    assert!(a.next_range_i64(1000) < 1000);
}

#[test]
fn drawn_entries_are_vectors() {
    let vs: Vec<CodebookEntry> = (0..40u8).map(|i| CodebookEntry::from_y(i * 5, i, 7, 9)).collect();
    let cb = kmeans_pp_init_cold(COLOUR, &vs, 8, 0, 1);
    for i in 0..8 {
        assert!(vs.contains(&cb.entries[i]));
    }
}

#[test]
fn splitting_never_makes_a_codebook_worse() {
    let vs: Vec<CodebookEntry> =
        (0..60u8).map(|i| CodebookEntry::from_yuv(i * 4, 255 - i * 4, i, 3, 0, 1)).collect();
    let mut cb = median_cut(COLOUR, &vs, 8);
    let before = codebook_total_sse(COLOUR, &cb, &vs, 8);
    lbg_refine_codebook(COLOUR, &mut cb, &vs, 8, 8);
    assert!(codebook_total_sse(COLOUR, &cb, &vs, 8) <= before);
}

#[test]
fn perturbing_stays_in_range() {
    let mut e = CodebookEntry::from_yuv(255, 0, 7, 7, 127, -128);
    perturb_dim(&mut e, 0, 1);
    perturb_dim(&mut e, 1, -1);
    perturb_dim(&mut e, 2, 1);
    perturb_dim(&mut e, 4, 1);
    perturb_dim(&mut e, 5, -1);
    assert_eq!(e, CodebookEntry::from_yuv(255, 0, 8, 7, 127, -128));
}

#[test]
fn gray_colours_have_no_chroma() {
    for y in 0..=255u8 {
        assert_eq!(rgb_to_yuv(y, y, y), (y, 0, 0));
    }
    assert_eq!(rgb_to_yuv(255, 0, 0), (73, -36, 91));
    assert_eq!(rgb_to_yuv(0, 255, 0), (145, -73, -73));
    assert_eq!(rgb_to_yuv(0, 0, 255), (36, 110, -18));
    assert_eq!(rgb_to_yuv(0, 1, 0), (1, 0, 0));
    assert_eq!(rgb_to_yuv(1, 0, 0), (0, 0, 0));
    assert_eq!(rgb_to_yuv(0, 3, 0), (2, -1, -1));
    assert_eq!(rgb_to_yuv(0, 254, 0), (145, -72, -72));
    assert_eq!(rgb_to_yuv(0, 0, 254), (36, 109, -18));
}

#[test]
fn blocks_are_sampled_from_the_picture() {
    let gray: Vec<u8> = (0..16u8).map(|i| i * 10).collect();
    let s = Source { pixels: &gray, width: 4, height: 4, mode: PixelMode::Gray8 };
    let q = s.sample_v4_block(0, 0);
    assert_eq!(q[0], CodebookEntry::from_y(0, 10, 40, 50));
    assert_eq!(q[1], CodebookEntry::from_y(20, 30, 60, 70));
    assert_eq!(q[2], CodebookEntry::from_y(80, 90, 120, 130));
    assert_eq!(q[3], CodebookEntry::from_y(100, 110, 140, 150));
    assert_eq!(s.sample_v1_block(0, 0), CodebookEntry::from_y(25, 45, 105, 125));
}

#[test]
fn use_of_entries_is_noted() {
    let mbs = [Mb::V1(3), Mb::V4([1, 2, 2, 9]), Mb::Skip];
    let v4 = used_v4_slots(&mbs);
    let v1 = used_v1_slots(&mbs);
    let on = |u: &[bool; 256]| (0..256).filter(|i| u[*i]).collect::<Vec<_>>();
    assert_eq!(on(&v4), vec![1, 2, 9]);
    assert_eq!(on(&v1), vec![3]);
}

#[test]
fn unused_entries_age() {
    let mut roll = RollingCodebooks::new();
    let mut used = [false; 256];
    used[1] = true;
    for _ in 0..3 {
        roll.update_staleness(WhichCodebook::V4, &used, 4);
    }
    let s = roll.staleness(WhichCodebook::V4);
    assert_eq!(&s[0..6], &[3, 0, 3, 3, 0, 0]);
    roll.reset_staleness(WhichCodebook::V4, &[2]);
    assert_eq!(roll.staleness(WhichCodebook::V4)[2], 0);
    assert!(roll.get(WhichCodebook::V4, 4).is_none());
    roll.set(WhichCodebook::V4, Codebook::default(), 4);
    assert!(roll.get(WhichCodebook::V4, 4).is_some());
    assert!(roll.get(WhichCodebook::V4, 8).is_none());
}

#[test]
fn only_entries_unused_for_long_are_given_new_values() {
    let far = CodebookEntry::from_y(200, 200, 200, 200);
    let samples = [CodebookEntry::from_y(0, 0, 0, 0), far];
    let mut stale = [0u16; 256];
    stale[1] = 3;
    let mut cb = Codebook::default();
    let kept = reclaim_stale_slots(GRAY, &samples, &mut cb, 4, &stale, 3);
    assert!(kept.is_empty());
    stale[1] = 4;
    let new = reclaim_stale_slots(GRAY, &samples, &mut cb, 4, &stale, 3);
    assert_eq!(new, vec![1]);
    assert_eq!(cb.entries[1], far);
}

#[test]
fn perturbing_far_stops_at_the_ends() {
    let mut e = CodebookEntry::from_yuv(7, 7, 7, 7, 7, 7);
    perturb_dim(&mut e, 0, 1000);
    perturb_dim(&mut e, 1, -1000);
    perturb_dim(&mut e, 3, 100);
    perturb_dim(&mut e, 4, i32::MAX - 7);
    perturb_dim(&mut e, 5, i32::MIN);
    perturb_dim(&mut e, 6, i32::MAX);
    assert_eq!(e, CodebookEntry::from_yuv(255, 0, 7, 107, 127, -128));
}

#[test]
fn drawing_nothing_one_and_too_many() {
    let vs: Vec<CodebookEntry> = (0..9u8).map(|i| CodebookEntry::from_y(i * 20, i, 7, 9)).collect();
    let zero = CodebookEntry::default();
    for cb in [kmeans_pp_init_cold(COLOUR, &[], 8, 4, 1), kmeans_pp_init_cold(COLOUR, &vs, 0, 4, 1)] {
        assert!(cb.entries.iter().all(|e| *e == zero));
    }
    let one = kmeans_pp_init_cold(COLOUR, &vs, 1, 4, 1);
    assert!(vs.contains(&one.entries[0]));
    assert!(one.entries[1..].iter().all(|e| *e == zero));
    let all = kmeans_pp_init_cold(COLOUR, &vs, 256, 4, 1);
    let more = kmeans_pp_init_cold(COLOUR, &vs, 1000, 4, 1);
    assert_eq!(all.entries, more.entries);
}

#[test]
fn new_values_keep_two_units_apart() {
    let heavy = Metric { mode: PixelMode::Yuv12, luma_weight: 8 };
    let samples = [
        CodebookEntry::from_y(100, 100, 100, 100),
        CodebookEntry::from_y(99, 100, 100, 100),
        CodebookEntry::from_y(98, 100, 100, 100),
    ];
    let stale = [9u16; 256];
    let mut cb = Codebook::default();
    assert_eq!(reclaim_stale_slots(heavy, &samples, &mut cb, 4, &stale, 3), vec![0, 1]);
    assert_eq!(cb.entries[0], samples[0]);
    assert_eq!(cb.entries[1], samples[2]);
}

#[test]
fn splitting_copies_the_worst_entry_to_a_spare_one() {
    let a = CodebookEntry::from_y(10, 10, 10, 10);
    let b = CodebookEntry::from_y(14, 10, 10, 10);
    let mut cb = Codebook::default();
    cb.entries[0] = CodebookEntry::from_y(11, 10, 10, 10);
    cb.entries[1] = CodebookEntry::from_y(250, 250, 250, 250);
    lbg_refine_codebook(GRAY, &mut cb, &[a, b, a, b], 2, 1);
    assert_eq!(cb.entries[0], a);
    assert_eq!(cb.entries[1], b);
}
