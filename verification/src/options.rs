//! What the encoder can be told, and what it accepts.

use vstd::prelude::*;
use crate::codebook::PixelMode;
use crate::error::{self, other, CinepakError, ErrorView, Result};
use crate::sampling::{self, FIXED_ONE};
use crate::text::{self, cat, cat_dec, cat_dec_wide, lit};

verus! {

/// Encoder configuration.
#[derive(Clone, Copy, Debug, PartialEq, Eq, Structural)]
pub struct EncoderOptions {
    /// Entries of the V4 codebook, 1 to 256.
    pub v4_entries: u16,
    /// Entries of the V1 codebook, 1 to 256.
    pub v1_entries: u16,
    /// Horizontal strips per frame. A frame with fewer rows of macroblocks
    /// gets as many strips as it has rows.
    pub strip_count: u16,
    /// Mean squared difference below which a macroblock is skipped, with
    /// sixteen fractional bits.
    pub skip_threshold: i64,
    /// Rounds of recentring a former codebook, at most. Zero makes a new
    /// codebook for every strip.
    pub lloyd_max_iter: u8,
    /// Movement at which recentring ends.
    pub lloyd_eps: u32,
    /// Frames that an entry may go unused, at most, before it is given a new
    /// value; `None` for ever.
    pub stale_slot_threshold: Option<u8>,
    /// What one bit is worth, in squared luma differences, with sixteen
    /// fractional bits. `None` compares distances to the codebooks instead.
    pub rdo_lambda: Option<i64>,
    /// Splits of the worst codebook entry, at most.
    pub lbg_max_passes: u8,
    /// How much more luma counts than chroma; zero stands for one.
    pub luma_weight: u8,
    /// Rounds of fitting the codebooks to the macroblocks that use them, at
    /// most.
    pub pcl_max_iter: u8,
    /// Whether to try a codebook drawn at random.
    pub kmeans_pp_init: bool,
    /// Rounds of recentring for the drawn codebook, at most.
    pub kmeans_pp_lloyd_iter: u8,
}

/// The default configuration.
pub open spec fn default_options() -> EncoderOptions {
    EncoderOptions {
        v4_entries: 64,
        v1_entries: 64,
        strip_count: 1,
        skip_threshold: (64 * FIXED_ONE) as i64,
        lloyd_max_iter: 2,
        lloyd_eps: 1,
        stale_slot_threshold: Some(8),
        rdo_lambda: Some((5 * FIXED_ONE) as i64),
        lbg_max_passes: 8,
        luma_weight: 2,
        pcl_max_iter: 2,
        kmeans_pp_init: true,
        kmeans_pp_lloyd_iter: 4,
    }
}

impl Default for EncoderOptions {
    fn default() -> (r: Self)
        ensures
            r == default_options(),
    {
        EncoderOptions {
            v4_entries: 64,
            v1_entries: 64,
            strip_count: 1,
            skip_threshold: 64 * FIXED_ONE,
            lloyd_max_iter: 2,
            lloyd_eps: 1,
            stale_slot_threshold: Some(8),
            rdo_lambda: Some(5 * FIXED_ONE),
            lbg_max_passes: 8,
            luma_weight: 2,
            pcl_max_iter: 2,
            kmeans_pp_init: true,
            kmeans_pp_lloyd_iter: 4,
        }
    }
}

/// Two to the power of `k` twentieths, with 24 fractional bits.
pub open spec fn twentieths(k: int) -> int {
    if k == 0 {
        16777216
    } else if k == 1 {
        17368863
    } else if k == 2 {
        17981375
    } else if k == 3 {
        18615487
    } else if k == 4 {
        19271960
    } else if k == 5 {
        19951585
    } else if k == 6 {
        20655176
    } else if k == 7 {
        21383579
    } else if k == 8 {
        22137669
    } else if k == 9 {
        22918352
    } else if k == 10 {
        23726566
    } else if k == 11 {
        24563282
    } else if k == 12 {
        25429504
    } else if k == 13 {
        26326274
    } else if k == 14 {
        27254668
    } else if k == 15 {
        28215802
    } else if k == 16 {
        29210830
    } else if k == 17 {
        30240947
    } else if k == 18 {
        31307392
    } else {
        32411445
    }
}

/// Two to the power of minus `k` twenty-fifths, with forty fractional bits.
pub open spec fn twenty_fifths(k: int) -> int {
    if k == 0 {
        1099511627776
    } else if k == 1 {
        1069445424494
    } else if k == 2 {
        1040201383121
    } else if k == 3 {
        1011757021598
    } else if k == 4 {
        984090472636
    } else if k == 5 {
        957180466911
    } else if k == 6 {
        931006316707
    } else if k == 7 {
        905547900018
    } else if k == 8 {
        880785645071
    } else if k == 9 {
        856700515288
    } else if k == 10 {
        833273994645
    } else if k == 11 {
        810488073442
    } else if k == 12 {
        788325234452
    } else if k == 13 {
        766768439460
    } else if k == 14 {
        745801116160
    } else if k == 15 {
        725407145419
    } else if k == 16 {
        705570848880
    } else if k == 17 {
        686276976913
    } else if k == 18 {
        667510696889
    } else if k == 19 {
        649257581780
    } else if k == 20 {
        631503599063
    } else if k == 21 {
        614235099937
    } else if k == 22 {
        597438808828
    } else if k == 23 {
        581101813183
    } else {
        565211553543
    }
}

/// Two to the power of `k`, up to five.
pub open spec fn small_power(k: int) -> int {
    if k == 0 {
        1
    } else if k == 1 {
        2
    } else if k == 2 {
        4
    } else if k == 3 {
        8
    } else if k == 4 {
        16
    } else {
        32
    }
}

/// The fewest entries from a quarter of the scale on.
pub open spec fn quarter_entries(q: int) -> int {
    if q < 25 {
        8
    } else if q < 50 {
        32
    } else if q < 75 {
        64
    } else if q < 100 {
        128
    } else {
        256
    }
}

/// Codebook entries for quality `q`, 0 to 100: eight, doubled every twenty
/// steps, and rounded; but no fewer than the last quarter of the scale has.
pub open spec fn quality_entries(q: int) -> int {
    let n = (twentieths(q % 20) * (8 * small_power(q / 20)) + 8388608) / 16777216;
    if n < quarter_entries(q) {
        quarter_entries(q)
    } else {
        n
    }
}

/// Strips for quality `q`, 0 to 100.
pub open spec fn quality_strips(q: int) -> int {
    if q < 33 {
        1
    } else if q < 66 {
        2
    } else if q < 100 {
        3
    } else {
        4
    }
}

/// Skip threshold for quality `q`, 0 to 100: 256, halved every twenty-five
/// steps, with sixteen fractional bits.
pub open spec fn quality_threshold(q: int) -> int {
    twenty_fifths(q % 25) / small_power(q / 25) / 65536
}

/// The configuration for quality `quality`; a value above 100 counts as 100.
pub open spec fn quality_options(quality: u8) -> EncoderOptions {
    let q = if quality > 100 {
        100int
    } else {
        quality as int
    };
    EncoderOptions {
        v4_entries: quality_entries(q) as u16,
        v1_entries: quality_entries(q) as u16,
        strip_count: quality_strips(q) as u16,
        skip_threshold: quality_threshold(q) as i64,
        ..default_options()
    }
}

fn power_of_twentieths(k: u64) -> (r: u64)
    requires
        k < 20,
    ensures
        r == twentieths(k as int),
        r < 33554432,
{
    if k == 0 {
        16777216
    } else if k == 1 {
        17368863
    } else if k == 2 {
        17981375
    } else if k == 3 {
        18615487
    } else if k == 4 {
        19271960
    } else if k == 5 {
        19951585
    } else if k == 6 {
        20655176
    } else if k == 7 {
        21383579
    } else if k == 8 {
        22137669
    } else if k == 9 {
        22918352
    } else if k == 10 {
        23726566
    } else if k == 11 {
        24563282
    } else if k == 12 {
        25429504
    } else if k == 13 {
        26326274
    } else if k == 14 {
        27254668
    } else if k == 15 {
        28215802
    } else if k == 16 {
        29210830
    } else if k == 17 {
        30240947
    } else if k == 18 {
        31307392
    } else {
        32411445
    }
}

fn power_of_twenty_fifths(k: u64) -> (r: u64)
    requires
        k < 25,
    ensures
        r == twenty_fifths(k as int),
        0 < r <= 1099511627776,
{
    if k == 0 {
        1099511627776
    } else if k == 1 {
        1069445424494
    } else if k == 2 {
        1040201383121
    } else if k == 3 {
        1011757021598
    } else if k == 4 {
        984090472636
    } else if k == 5 {
        957180466911
    } else if k == 6 {
        931006316707
    } else if k == 7 {
        905547900018
    } else if k == 8 {
        880785645071
    } else if k == 9 {
        856700515288
    } else if k == 10 {
        833273994645
    } else if k == 11 {
        810488073442
    } else if k == 12 {
        788325234452
    } else if k == 13 {
        766768439460
    } else if k == 14 {
        745801116160
    } else if k == 15 {
        725407145419
    } else if k == 16 {
        705570848880
    } else if k == 17 {
        686276976913
    } else if k == 18 {
        667510696889
    } else if k == 19 {
        649257581780
    } else if k == 20 {
        631503599063
    } else if k == 21 {
        614235099937
    } else if k == 22 {
        597438808828
    } else if k == 23 {
        581101813183
    } else {
        565211553543
    }
}

fn power(k: u64) -> (r: u64)
    requires
        k <= 5,
    ensures
        r == small_power(k as int),
        1 <= r <= 32,
{
    if k == 0 {
        1
    } else if k == 1 {
        2
    } else if k == 2 {
        4
    } else if k == 3 {
        8
    } else if k == 4 {
        16
    } else {
        32
    }
}

fn entries_for(q: u64) -> (r: u16)
    requires
        q <= 100,
    ensures
        r == quality_entries(q as int),
        8 <= r <= 256,
{
    let floor: u64 = if q < 25 {
        8
    } else if q < 50 {
        32
    } else if q < 75 {
        64
    } else if q < 100 {
        128
    } else {
        256
    };
    let p: u64 = power_of_twentieths(q % 20);
    let s: u64 = power(q / 20);
    assert(p * (8 * s) <= 33554431 * 256) by (nonlinear_arith)
        requires
            p <= 33554431,
            s <= 32,
    ;
    let n: u64 = (p * (8 * s) + 8388608) / 16777216;
    proof {
        entries_bound(q as int);
    }
    if n < floor {
        floor as u16
    } else {
        n as u16
    }
}

proof fn entries_bound(q: int)
    requires
        0 <= q <= 100,
    ensures
        8 <= quality_entries(q) <= 256,
{
    let p = twentieths(q % 20);
    if q < 100 {
        let s = small_power(q / 20);
        assert(s <= 16);
        assert(p <= 32412672);
        assert(p * (8 * s) <= 32412672 * 128) by (nonlinear_arith)
            requires
                0 <= p <= 32412672,
                0 <= s <= 16,
        ;
    } else {
        assert(p == 16777216);
    }
}

fn threshold_for(q: u64) -> (r: i64)
    requires
        q <= 100,
    ensures
        r == quality_threshold(q as int),
        r >= 0,
{
    let p: u64 = power_of_twenty_fifths(q % 25);
    let s: u64 = power(q / 25);
    assert(p / s <= p) by (nonlinear_arith)
        requires
            s >= 1,
            p >= 0,
    ;
    (p / s / 65536) as i64
}

impl EncoderOptions {
    /// The configuration for a quality from 0 to 100. Higher quality has
    /// larger codebooks, more strips, and skips less.
    ///
    /// | quality | entries | strips | skip threshold |
    /// | ------- | ------- | ------ | -------------- |
    /// |       0 |       8 |      1 |            256 |
    /// |      25 |      32 |      1 |            128 |
    /// |      50 |      64 |      2 |             64 |
    /// |      75 |     128 |      3 |             32 |
    /// |     100 |     256 |      4 |             16 |
    pub fn from_quality(quality: u8) -> (r: Self)
        ensures
            r == quality_options(quality),
            8 <= r.v4_entries <= 256,
            8 <= r.v1_entries <= 256,
            r.strip_count >= 1,
            r.skip_threshold >= 0,
    {
        let q: u64 = if quality > 100 {
            100
        } else {
            quality as u64
        };
        let n: u16 = entries_for(q);
        let strip_count: u16 = if q < 33 {
            1
        } else if q < 66 {
            2
        } else if q < 100 {
            3
        } else {
            4
        };
        EncoderOptions {
            v4_entries: n,
            v1_entries: n,
            strip_count,
            skip_threshold: threshold_for(q),
            lloyd_max_iter: 2,
            lloyd_eps: 1,
            stale_slot_threshold: Some(8),
            rdo_lambda: Some(5 * FIXED_ONE),
            lbg_max_passes: 8,
            luma_weight: 2,
            pcl_max_iter: 2,
            kmeans_pp_init: true,
            kmeans_pp_lloyd_iter: 4,
        }
    }
}

/// Message of a picture whose sides are zero or no multiples of four.
pub open spec fn bad_dims(width: u32, height: u32) -> ErrorView {
    ErrorView::Other(
        "encoder: dims must be > 0 and multiples of 4; got "@ + text::dec(width as nat) + "x"@ + text::dec(
            height as nat,
        ),
    )
}

/// Message of codebook sizes out of range.
pub open spec fn bad_entries() -> ErrorView {
    ErrorView::Other("encoder: v4_entries / v1_entries must be in 1..=256"@)
}

/// Message of a frame without strips.
pub open spec fn bad_strip_count() -> ErrorView {
    ErrorView::Other("encoder: strip_count must be ≥ 1"@)
}

/// Message of a negative threshold.
pub open spec fn bad_threshold() -> ErrorView {
    ErrorView::Other("encoder: skip_threshold must be a finite non-negative float"@)
}

/// Message of a picture whose bytes are not all there.
pub open spec fn input_short(len: nat, expected: nat) -> ErrorView {
    ErrorView::Other(
        "encoder: input buffer "@ + text::dec(len) + " bytes < expected "@ + text::dec(expected),
    )
}

/// What is wrong with the size of a picture.
pub open spec fn dims_error(width: u32, height: u32) -> Option<ErrorView> {
    if width == 0 || height == 0 || width % 4 != 0 || height % 4 != 0 {
        Some(bad_dims(width, height))
    } else {
        None
    }
}

/// What is wrong with a configuration.
pub open spec fn options_error(o: EncoderOptions) -> Option<ErrorView> {
    if !(1 <= o.v4_entries <= 256 && 1 <= o.v1_entries <= 256) {
        Some(bad_entries())
    } else if o.strip_count == 0 {
        Some(bad_strip_count())
    } else if o.skip_threshold < 0 {
        Some(bad_threshold())
    } else {
        None
    }
}

/// What is wrong with the bytes of a picture.
pub open spec fn input_error(len: nat, width: u32, height: u32, mode: PixelMode) -> Option<
    ErrorView,
> {
    if len < sampling::picture_len(width as int, height as int, mode) {
        Some(input_short(len, sampling::picture_len(width as int, height as int, mode) as nat))
    } else {
        None
    }
}

/// What is wrong with a picture and a configuration: the size is tested
/// first, then the configuration, then the bytes.
pub open spec fn request_error(
    len: nat,
    width: u32,
    height: u32,
    mode: PixelMode,
    o: EncoderOptions,
) -> Option<ErrorView> {
    match dims_error(width, height) {
        Some(e) => Some(e),
        None => match options_error(o) {
            Some(e) => Some(e),
            None => input_error(len, width, height, mode),
        },
    }
}

/// Tests the size of a picture.
pub fn validate_dims(width: u32, height: u32) -> (r: Result<()>)
    ensures
        match r {
            Ok(_) => dims_error(width, height) is None,
            Err(e) => dims_error(width, height) == Some(e@),
        },
{
    if width == 0 || height == 0 || width % 4 != 0 || height % 4 != 0 {
        let text = cat_dec(
            lit("encoder: dims must be > 0 and multiples of 4; got "),
            width as u64,
        );
        return Err(CinepakError::other(cat_dec(cat(text, "x"), height as u64)));
    }
    Ok(())
}

/// Tests a configuration.
pub fn validate_opts(opts: &EncoderOptions) -> (r: Result<()>)
    ensures
        match r {
            Ok(_) => options_error(*opts) is None,
            Err(e) => options_error(*opts) == Some(e@),
        },
{
    if opts.v4_entries < 1 || opts.v4_entries > 256 || opts.v1_entries < 1 || opts.v1_entries
        > 256 {
        return Err(other("encoder: v4_entries / v1_entries must be in 1..=256"));
    }
    if opts.strip_count == 0 {
        return Err(other("encoder: strip_count must be ≥ 1"));
    }
    if opts.skip_threshold < 0 {
        return Err(other("encoder: skip_threshold must be a finite non-negative float"));
    }
    Ok(())
}

/// Tests the bytes of a picture.
pub fn validate_input_size(pixels: &[u8], width: u32, height: u32, mode: PixelMode) -> (r: Result<
    (),
>)
    ensures
        match r {
            Ok(_) => input_error(pixels@.len(), width, height, mode) is None,
            Err(e) => input_error(pixels@.len(), width, height, mode) == Some(e@),
        },
{
    let bpp: u128 = match mode {
        PixelMode::Yuv12 => 3,
        PixelMode::Gray8 => 1,
    };
    assert(0 <= width * height <= 0xffffffff * 0xffffffff) by (nonlinear_arith)
        requires
            width <= 0xffffffff,
            height <= 0xffffffff,
    ;
    assert(0 <= (width * height) * bpp <= 3 * (0xffffffff * 0xffffffff)) by (nonlinear_arith)
        requires
            0 <= width * height <= 0xffffffff * 0xffffffff,
            bpp <= 3,
    ;
    let expected: u128 = (width as u128) * (height as u128) * bpp;
    if (pixels.len() as u128) < expected {
        let text = cat_dec(lit("encoder: input buffer "), pixels.len() as u64);
        let text = cat_dec_wide(cat(text, " bytes < expected "), expected);
        return Err(CinepakError::other(text));
    }
    Ok(())
}

/// Tests a picture and a configuration.
pub fn validate_request(
    pixels: &[u8],
    width: u32,
    height: u32,
    mode: PixelMode,
    opts: &EncoderOptions,
) -> (r: Result<()>)
    ensures
        match r {
            Ok(_) => request_error(pixels@.len(), width, height, mode, *opts) is None,
            Err(e) => request_error(pixels@.len(), width, height, mode, *opts) == Some(e@),
        },
{
    if let Err(e) = validate_dims(width, height) {
        return Err(e);
    }
    if let Err(e) = validate_opts(opts) {
        return Err(e);
    }
    validate_input_size(pixels, width, height, mode)
}

proof fn quality_step(q: int)
    requires
        0 <= q < 100,
    ensures
        quality_entries(q) <= quality_entries(q + 1),
        quality_threshold(q) >= quality_threshold(q + 1),
{
    let a = twentieths(q % 20);
    let b = twentieths((q + 1) % 20);
    let s = small_power(q / 20);
    let t = small_power((q + 1) / 20);
    if q % 20 == 19 {
        assert((q + 1) % 20 == 0 && (q + 1) / 20 == q / 20 + 1);
        assert(t == 2 * s);
        assert(a * (8 * s) <= b * (8 * t)) by (nonlinear_arith)
            requires
                t == 2 * s,
                s >= 1,
                a <= 2 * b,
        ;
    } else {
        assert((q + 1) % 20 == q % 20 + 1 && (q + 1) / 20 == q / 20);
        assert(a <= b);
        assert(a * (8 * s) <= b * (8 * t)) by (nonlinear_arith)
            requires
                t == s,
                s >= 1,
                a <= b,
        ;
    }
    let c = twenty_fifths(q % 25);
    let d = twenty_fifths((q + 1) % 25);
    let u = small_power(q / 25);
    let v = small_power((q + 1) / 25);
    if q % 25 == 24 {
        assert((q + 1) % 25 == 0 && (q + 1) / 25 == q / 25 + 1);
        assert(v == 2 * u);
        assert(2 * c >= d);
        assert(c / u >= d / v) by (nonlinear_arith)
            requires
                v == 2 * u,
                u >= 1,
                2 * c >= d,
                d >= 0,
        ;
    } else {
        assert((q + 1) % 25 == q % 25 + 1 && (q + 1) / 25 == q / 25);
        assert(c >= d);
        assert(c / u >= d / v) by (nonlinear_arith)
            requires
                v == u,
                u >= 1,
                c >= d,
                d >= 0,
        ;
    }
}

/// Higher quality never has smaller codebooks or fewer strips, and never
/// skips more.
pub proof fn quality_grows(a: u8, b: u8)
    requires
        a <= b,
    ensures
        quality_options(a).v4_entries <= quality_options(b).v4_entries,
        quality_options(a).strip_count <= quality_options(b).strip_count,
        quality_options(a).skip_threshold >= quality_options(b).skip_threshold,
    decreases b,
{
    let x = if a > 100 {
        100int
    } else {
        a as int
    };
    let y = if b > 100 {
        100int
    } else {
        b as int
    };
    entries_bound(x);
    entries_bound(y);
    threshold_bound(x);
    threshold_bound(y);
    if a < b {
        quality_grows(a, (b - 1) as u8);
        let z = if b - 1 > 100 {
            100int
        } else {
            b - 1
        };
        entries_bound(z);
        threshold_bound(z);
        if b <= 100 {
            quality_step(b - 1);
        }
    }
}

proof fn threshold_bound(q: int)
    requires
        0 <= q <= 100,
    ensures
        0 <= quality_threshold(q) <= 16777216,
{
    let c = twenty_fifths(q % 25);
    let u = small_power(q / 25);
    assert(0 <= c / u <= c) by (nonlinear_arith)
        requires
            u >= 1,
            c >= 0,
    ;
}

/// Every quality gives a configuration that the encoder accepts.
pub proof fn quality_accepted(q: u8)
    ensures
        options_error(quality_options(q)) is None,
{
    let x = if q > 100 {
        100int
    } else {
        q as int
    };
    entries_bound(x);
    threshold_bound(x);
}

} // verus!
