//! What the settings of an encoder stand for.

use vstd::prelude::*;
use crate::options;
use crate::session;

verus! {

/// The bytes per frame are the nearest to the bits per frame by eight, and
/// the higher where two are; a frame rate below one, or of no seconds, counts
/// as one frame in one second.
pub proof fn share_is_nearest(bits: u64, frames: u64, seconds: u64)
    ensures
        ({
            let n = session::frame_share(bits, (frames, seconds)) as int;
            let (f, s) = if seconds == 0 || frames < seconds {
                (1int, 1int)
            } else {
                (frames as int, seconds as int)
            };
            &&& 8 * f * n <= bits * s + 4 * f
            &&& n < usize::MAX ==> bits * s < 8 * f * n + 4 * f
            &&& n == usize::MAX ==> bits * s + 4 * f >= 8 * f * usize::MAX
        }),
{
    let (f, s) = if seconds == 0 || frames < seconds {
        (1int, 1int)
    } else {
        (frames as int, seconds as int)
    };
    let all = bits * s + 4 * f;
    let part = 8 * f;
    let q = all / part;
    assert(all >= 0) by (nonlinear_arith)
        requires
            all == bits * s + 4 * f,
            s >= 1,
            f >= 1,
            bits >= 0,
    ;
    assert(q >= 0 && part * q <= all < part * q + part) by (nonlinear_arith)
        requires
            q == all / part,
            part >= 1,
            all >= 0,
    ;
    let n = session::frame_share(bits, (frames, seconds)) as int;
    assert(part * n <= part * q) by (nonlinear_arith)
        requires
            n <= q,
            part >= 1,
    ;
    if q > usize::MAX {
        assert(n == usize::MAX);
    }
}

/// Twenty-fifths of a halving are even steps: each value of the table is the
/// geometric mean of its neighbours, up to rounding, and after the last comes
/// the half of the first.
pub proof fn twenty_fifths_are_even(k: int)
    requires
        1 <= k <= 24,
    ensures
        ({
            let a = options::twenty_fifths(k - 1);
            let b = options::twenty_fifths(k);
            let c = if k == 24 {
                options::twenty_fifths(0) / 2
            } else {
                options::twenty_fifths(k + 1)
            };
            -2 * options::twenty_fifths(0) <= a * c - b * b <= 2 * options::twenty_fifths(0)
        }),
        options::twenty_fifths(0) == 0x10000000000,
{
}

/// Twentieths of a doubling are even steps: each value of the table is the
/// geometric mean of its neighbours, up to rounding, and after the last comes
/// the double of the first.
pub proof fn twentieths_are_even(k: int)
    requires
        1 <= k <= 19,
    ensures
        ({
            let a = options::twentieths(k - 1);
            let b = options::twentieths(k);
            let c = if k == 19 {
                2 * options::twentieths(0)
            } else {
                options::twentieths(k + 1)
            };
            -4 * options::twentieths(0) <= a * c - b * b <= 4 * options::twentieths(0)
        }),
        options::twentieths(0) == 0x1000000,
{
}

/// The threshold, 256 at quality zero and in steps of twenty-fifths of a
/// halving from there, halves every twenty-five steps; fractions are cut off.
pub proof fn threshold_halves(q: u8)
    requires
        q <= 100,
    ensures
        q < 25 ==> ({
            let t = options::quality_options(q).skip_threshold;
            65536 * t <= options::twenty_fifths(q as int) < 65536 * t + 65536
        }),
        q >= 25 ==> ({
            let t = options::quality_options(q).skip_threshold as int;
            let before = options::quality_options((q - 25) as u8).skip_threshold as int;
            2 * t <= before <= 2 * t + 1
        }),
{
    let i = q as int;
    if i >= 25 {
        thresholds_halve(i);
    }
}

proof fn thresholds_halve(q: int)
    requires
        25 <= q <= 100,
    ensures
        0 <= options::quality_threshold(q) <= 16777216,
        0 <= options::quality_threshold(q - 25) <= 16777216,
        2 * options::quality_threshold(q) <= options::quality_threshold(q - 25) <= 2
            * options::quality_threshold(q) + 1,
{
    assert((q - 25) % 25 == q % 25 && (q - 25) / 25 == q / 25 - 1);
    let c = options::twenty_fifths(q % 25);
    assert(0 <= c <= 1099511627776);
    let k = q / 25;
    if k == 1 {
        assert(c / 2 / 65536 == c / 131072);
    } else if k == 2 {
        assert(c / 4 / 65536 == c / 262144);
        assert(c / 2 / 65536 == c / 131072);
    } else if k == 3 {
        assert(c / 8 / 65536 == c / 524288);
        assert(c / 4 / 65536 == c / 262144);
    } else {
        assert(c / 16 / 65536 == c / 1048576);
        assert(c / 8 / 65536 == c / 524288);
    }
}

/// The entries for a quality: eight at zero, in steps of twentieths of a
/// doubling from there and to the nearest; but from 25, 50, 75 and 100 on no
/// fewer than 32, 64, 128 and 256.
pub proof fn entries_double(q: u8, full: int, part: int)
    requires
        q <= 100,
        q == 20 * full + part,
        0 <= part < 20,
    ensures
        ({
            let o = options::quality_options(q);
            let n = o.v4_entries as int;
            let x = 16 * options::twentieths(part) * (if full == 0 {
                1int
            } else if full == 1 {
                2
            } else if full == 2 {
                4
            } else if full == 3 {
                8
            } else if full == 4 {
                16
            } else {
                32
            });
            let least = if q == 100 {
                256int
            } else if q >= 75 {
                128
            } else if q >= 50 {
                64
            } else if q >= 25 {
                32
            } else {
                8
            };
            &&& o.v1_entries == n
            &&& n >= least
            &&& x < 33554432 * n + 16777216
            &&& n > least ==> 33554432 * n - 16777216 <= x
        }),
{
    assert(q as int / 20 == full && q as int % 20 == part);
    let w = options::small_power(full);
    let t = options::twentieths(part);
    let n = (t * (8 * w) + 8388608) / 16777216;
    assert(t * (8 * w) == 8 * t * w && 16 * t * w == 2 * (t * (8 * w))) by (nonlinear_arith);
    assert(16777216 <= t <= 32411445);
    assert(0 <= t * (8 * w) <= 32411445 * 256) by (nonlinear_arith)
        requires
            0 <= t <= 32411445,
            1 <= w <= 32,
    ;
    assert(full == 5 ==> part == 0);
    assert(full == 5 ==> t * (8 * w) == 16777216 * 256);
    assert(full <= 4 ==> t * (8 * w) <= 32411445 * 128) by (nonlinear_arith)
        requires
            0 <= t <= 32411445,
            full <= 4 ==> 1 <= w <= 16,
    ;
}

/// Strips, one at the lowest quality, are one more each from a third, from
/// two thirds, and at the end of the scale.
pub proof fn strips_by_thirds(q: u8)
    ensures
        options::quality_options(q).strip_count == 1 + (if q >= 33 {
            1int
        } else {
            0
        }) + (if q >= 66 {
            1int
        } else {
            0
        }) + (if q >= 100 {
            1int
        } else {
            0
        }),
{
}

/// A quality decides on nothing but entries, strips and the threshold: the
/// rest is as by default.
pub proof fn quality_keeps_defaults(q: u8)
    ensures
        ({
            let o = options::quality_options(q);
            &&& o.lloyd_max_iter == 2 && o.lloyd_eps == 1
            &&& o.stale_slot_threshold == Some(8u8)
            &&& o.rdo_lambda matches Some(l) && l == 5 * 65536
            &&& o.lbg_max_passes == 8
            &&& o.luma_weight == 2
            &&& o.pcl_max_iter == 2
            &&& o.kmeans_pp_init && o.kmeans_pp_lloyd_iter == 4
        }),
{
}

} // verus!
