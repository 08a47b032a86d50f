//! Keeping the frames of a sequence within the budget of a window.

use vstd::prelude::*;
use crate::error::{ErrorView, Result};
use crate::options::{self, EncoderOptions};
use crate::quant;
use crate::rate::{self, encode_at, RateControlledFrame, RateRun, RatedFrame, TwoPassRateControl};
use crate::session::{self, excess_of, CinepakEncoder, EncoderState};
use crate::strips;
use crate::wide::Wide;

verus! {

/// One percent, in the unit of tolerances.
pub const PERCENT: u64 = 65536;

/// A sequence whose frames share a budget among a window of them.
pub struct WindowScene {
    pub frames: Seq<Seq<u8>>,
    pub width: u32,
    pub height: u32,
    /// The budget of a window.
    pub target: usize,
    /// The frames of a window.
    pub window: usize,
    /// The tolerance for frames of equal sizes.
    pub least: u64,
    /// The tolerance for frames of quite different sizes.
    pub most: u64,
    /// The standard deviation, relative to the mean, from which on sizes are
    /// quite different.
    pub scale: u64,
}

/// The frames of a window, one at least.
pub open spec fn window_len(c: WindowScene) -> int {
    if c.window == 0 {
        1
    } else {
        c.window as int
    }
}

/// The share of a frame in the budget.
pub open spec fn share(c: WindowScene) -> int {
    c.target as int / window_len(c)
}

/// The first frame of the window before frame `i`.
pub open spec fn window_start(c: WindowScene, i: int) -> int {
    if i > window_len(c) {
        i - window_len(c)
    } else {
        0
    }
}

/// The sum of the sizes of the frames from `lo` up to `hi`.
pub open spec fn span_sum(frames: Seq<RatedFrame>, lo: int, hi: int) -> int
    decreases hi - lo,
{
    if hi <= lo {
        0
    } else {
        span_sum(frames, lo, hi - 1) + frames[hi - 1].bytes.len()
    }
}

/// The sum of the squares of the sizes of the frames from `lo` up to `hi`.
pub open spec fn span_squares(frames: Seq<RatedFrame>, lo: int, hi: int) -> int
    decreases hi - lo,
{
    if hi <= lo {
        0
    } else {
        span_squares(frames, lo, hi - 1) + quant::sq(frames[hi - 1].bytes.len() as int)
    }
}

/// What the window is expected to hold with one more frame of average size.
pub open spec fn projected(sum: int, n: int) -> int {
    sum + sum / n
}

/// What it may hold: the budget without the shares of frames to come.
pub open spec fn projected_target(c: WindowScene, n: int) -> int {
    let later = window_len(c) - (n + 1);
    let left = c.target - if later > 0 {
        later * share(c)
    } else {
        0
    };
    if left > 0 {
        left
    } else {
        0
    }
}

/// Whether an expected size departs from what was aimed at by more than the
/// tolerance. The tolerance grows from the least to the most with the
/// standard deviation of the sizes relative to their mean, up to the scale;
/// for fewer than two sizes it is the most. Standard deviations are compared
/// by their squares.
pub open spec fn drifts(
    c: WindowScene,
    n: int,
    sum: int,
    squares: int,
    expected: int,
    aim: int,
) -> bool {
    let d = 100 * PERCENT * (if expected > aim {
        expected - aim
    } else {
        aim - expected
    });
    let a = d - c.least * aim;
    if aim <= 0 {
        true
    } else if n < 2 {
        d > c.most * aim
    } else {
        a > 0 && (sum == 0 || a > (c.most - c.least) * aim || quant::sq(a * sum * c.scale) > quant::sq(
            100 * PERCENT * (aim * (c.most - c.least)),
        ) * (n * squares - sum * sum))
    }
}

/// Whether the quality of frame `i` is searched for anew.
pub open spec fn must_search(c: WindowScene, frames: Seq<RatedFrame>, i: int) -> bool {
    let lo = window_start(c, i);
    let n = i - lo;
    let sum = span_sum(frames, lo, i);
    i == 0 || drifts(
        c,
        n,
        sum,
        span_squares(frames, lo, i),
        projected(sum, n),
        projected_target(c, n),
    )
}

/// Frame `i` at a quality.
#[verifier::opaque]
pub open spec fn window_call(c: WindowScene, st: EncoderState, i: int, q: u8) -> (
    EncoderState,
    core::result::Result<Seq<u8>, ErrorView>,
) {
    rate::sequence_call(st, i, c.frames[i], c.width, c.height, options::quality_options(q))
}

/// Whether frame `i` at a quality has no more than `cap` bytes.
pub open spec fn fits(c: WindowScene, st: EncoderState, i: int, cap: int, q: int) -> bool {
    window_call(c, st, i, q as u8).1 matches Ok(b) && b.len() <= cap
}

/// The quality that halving finds between `lo` and `hi`, where `best` is the
/// highest one so far at which the frame fits.
pub open spec fn halved(
    c: WindowScene,
    st: EncoderState,
    i: int,
    cap: int,
    lo: int,
    hi: int,
    best: Option<u8>,
) -> core::result::Result<u8, ErrorView>
    decreases hi - lo + 1,
{
    let found = match best {
        Some(q) => q,
        None => 0,
    };
    if lo > hi {
        Ok(found)
    } else {
        let mid = lo + (hi - lo) / 2;
        match window_call(c, st, i, mid as u8).1 {
            Err(e) => Err(e),
            Ok(b) => if b.len() <= cap {
                halved(c, st, i, cap, mid + 1, hi, Some(mid as u8))
            } else {
                halved(c, st, i, cap, lo, mid - 1, best)
            },
        }
    }
}

/// What is left of the budget for frame `i`.
pub open spec fn left_over(c: WindowScene, frames: Seq<RatedFrame>, i: int) -> int {
    let left = c.target - span_sum(frames, window_start(c, i), i);
    if left > 0 {
        left
    } else {
        0
    }
}

/// The sequence after one more frame: at the quality of the one before, or
/// where the window drifts, at one that halving finds.
pub open spec fn window_step(c: WindowScene, i: int, run: RateRun) -> RateRun {
    if run.error is Some {
        run
    } else if must_search(c, run.frames, i) {
        match halved(c, run.state, i, left_over(c, run.frames, i), 0, 100, None) {
            Err(e) => RateRun { error: Some(e), ..run },
            Ok(q) => rate::rate_push(run, window_call(c, run.state, i, q), q, share(c)),
        }
    } else {
        let q = run.frames[i - 1].quality;
        rate::rate_push(run, window_call(c, run.state, i, q), q, share(c))
    }
}

/// The sequence after its first `n` frames.
pub open spec fn window_run(c: WindowScene, n: int) -> RateRun
    decreases n,
{
    if n <= 0 {
        rate::rate_start()
    } else {
        window_step(c, n - 1, window_run(c, n - 1))
    }
}

proof fn window_run_ends(c: WindowScene, i: int, n: int)
    requires
        0 <= i <= n,
        window_run(c, i).error is Some,
    ensures
        window_run(c, n) == window_run(c, i),
    decreases n - i,
{
    if i < n {
        window_run_ends(c, i, n - 1);
    }
}

/// Tests whether an expected size departs from what was aimed at by more
/// than the tolerance.
fn departs(
    n: usize,
    sum: u128,
    squares: u128,
    expected: u128,
    aim: usize,
    least: u64,
    most: u64,
    scale: u64,
    Ghost(c): Ghost<WindowScene>,
) -> (r: bool)
    requires
        expected <= 0x40000000000000000000000,
        least <= most,
        c.least == least,
        c.most == most,
        c.scale == scale,
    ensures
        r == drifts(c, n as int, sum as int, squares as int, expected as int, aim as int),
{
    if aim == 0 {
        return true;
    }
    let t: u128 = aim as u128;
    let gap: u128 = if expected > t {
        expected - t
    } else {
        t - expected
    };
    let d: u128 = 6553600 * gap;
    assert(least * aim <= 0xffffffffffffffff * 0xffffffffffffffff && most * aim
        <= 0xffffffffffffffff * 0xffffffffffffffff && (most - least) * aim <= 0xffffffffffffffff
        * 0xffffffffffffffff && 0 <= least * aim && 0 <= most * aim && 0 <= (most - least) * aim)
        by (nonlinear_arith)
        requires
            0 <= least <= most <= 0xffffffffffffffff,
            0 <= aim <= 0xffffffffffffffff,
    ;
    if n < 2 {
        return d > most as u128 * t;
    }
    let low: u128 = least as u128 * t;
    if d <= low {
        return false;
    }
    let a: u128 = d - low;
    let range: u128 = (most - least) as u128 * t;
    if sum == 0 || a > range {
        return true;
    }
    let x = Wide::of(a).times(&Wide::of(sum)).times(&Wide::of(scale as u128));
    let y = Wide::of(6553600).times(&Wide::of(range));
    let y2 = y.times(&y);
    let s = Wide::of(sum);
    let left = x.times(&x).plus(&y2.times(&s.times(&s)));
    let right = y2.times(&Wide::of(n as u128).times(&Wide::of(squares)));
    proof {
        let yy = y2.value();
        let ss = sum * sum;
        let nq = n * squares;
        assert(range == aim * (most - least)) by (nonlinear_arith)
            requires
                range == (most - least) * aim,
        ;
        assert(y.value() == 100 * PERCENT * (aim * (most - least)));
        assert(yy * (nq - ss) == yy * nq - yy * ss) by (nonlinear_arith);
    }
    left.exceeds(&right)
}

/// The frames of a window: how many, the sum of their sizes, and of the
/// squares.
fn window_sums(out: &Vec<RateControlledFrame>, lo: usize, i: usize) -> (r: (u128, u128))
    requires
        lo <= i <= out@.len(),
        forall|k: int| 0 <= k < out@.len() ==> (#[trigger] out@[k]).bytes@.len() <= 0xffffff,
    ensures
        r.0 == span_sum(rate::rated_views(out@), lo as int, i as int),
        r.1 == span_squares(rate::rated_views(out@), lo as int, i as int),
        r.0 <= (i - lo) * 0xffffff,
{
    let ghost v = rate::rated_views(out@);
    let mut sum: u128 = 0;
    let mut squares: u128 = 0;
    let mut k: usize = lo;
    while k < i
        invariant
            lo <= k <= i <= out@.len(),
            v == rate::rated_views(out@),
            forall|j: int| 0 <= j < out@.len() ==> (#[trigger] out@[j]).bytes@.len() <= 0xffffff,
            sum == span_sum(v, lo as int, k as int),
            squares == span_squares(v, lo as int, k as int),
            sum <= (k - lo) * 0xffffff,
            squares <= (k - lo) * 0xfffffe000001,
        decreases i - k,
    {
        assert(v[k as int].bytes == out@[k as int].bytes@);
        assert(out@[k as int].bytes@.len() <= 0xffffff);
        let n: u128 = out[k].bytes.len() as u128;
        assert(n * n <= 0xffffff * 0xffffff) by (nonlinear_arith)
            requires
                0 <= n <= 0xffffff,
        ;
        sum = sum + n;
        squares = squares + n * n;
        k = k + 1;
        assert(span_squares(v, lo as int, k as int) == span_squares(v, lo as int, k - 1) + quant::sq(
            n as int,
        ));
    }
    (sum, squares)
}

/// Searches for a quality by halving.
fn bisect_q_for_window(
    enc: &CinepakEncoder,
    i: usize,
    frame: &Vec<u8>,
    width: u32,
    height: u32,
    cap: usize,
    Ghost(c): Ghost<WindowScene>,
) -> (r: Result<(u8, Vec<u8>, CinepakEncoder)>)
    requires
        enc.wf(),
        0 <= i < c.frames.len(),
        c.frames[i as int] == frame@,
        c.width == width,
        c.height == height,
    ensures
        match r {
            Ok((q, b, e)) => e.wf() && b@.len() <= 0xffffff && halved(
                c,
                enc@,
                i as int,
                cap as int,
                0,
                100,
                None,
            ) == Ok::<u8, ErrorView>(q) && window_call(c, enc@, i as int, q) == (
                e@,
                Ok::<Seq<u8>, ErrorView>(b@),
            ),
            Err(x) => halved(c, enc@, i as int, cap as int, 0, 100, None) == Err::<u8, ErrorView>(
                x@,
            ),
        },
{
    proof {
        reveal(window_call);
    }
    let mut best: Option<(u8, Vec<u8>, CinepakEncoder)> = None;
    let mut lowest: Option<(Vec<u8>, CinepakEncoder)> = None;
    let mut lo: i16 = 0;
    let mut hi: i16 = 100;
    while lo <= hi
        invariant
            enc.wf(),
            0 <= i < c.frames.len(),
            c.frames[i as int] == frame@,
            c.width == width,
            c.height == height,
            0 <= lo <= hi + 1,
            hi <= 100,
            best is None ==> lo == 0,
            lo == 0 ==> best is None,
            best is None && hi < 0 ==> lowest is Some,
            match best {
                Some((q, b, e)) => e.wf() && b@.len() <= 0xffffff && window_call(
                    c,
                    enc@,
                    i as int,
                    q,
                ) == (e@, Ok::<Seq<u8>, ErrorView>(b@)) && halved(
                    c,
                    enc@,
                    i as int,
                    cap as int,
                    lo as int,
                    hi as int,
                    Some(q),
                ) == halved(c, enc@, i as int, cap as int, 0, 100, None),
                None => halved(c, enc@, i as int, cap as int, lo as int, hi as int, None) == halved(
                    c,
                    enc@,
                    i as int,
                    cap as int,
                    0,
                    100,
                    None,
                ),
            },
            lowest matches Some((b, e)) ==> e.wf() && b@.len() <= 0xffffff && window_call(
                c,
                enc@,
                i as int,
                0,
            ) == (e@, Ok::<Seq<u8>, ErrorView>(b@)),
        decreases hi - lo + 1,
    {
        let mid: i16 = lo + (hi - lo) / 2;
        let q: u8 = mid as u8;
        proof {
            reveal(window_call);
        }
        let mut e = enc.duplicate();
        let b = match encode_at(&mut e, i, frame, width, height, EncoderOptions::from_quality(q)) {
            Ok(b) => b,
            Err(x) => return Err(x),
        };
        if b.len() <= cap {
            best = Some((q, b, e));
            lo = mid + 1;
        } else {
            if mid == 0 {
                lowest = Some((b, e));
            }
            hi = mid - 1;
        }
    }
    match best {
        Some(p) => Ok(p),
        None => match lowest {
            Some((b, e)) => Ok((0, b, e)),
            None => {
                assert(false);
                Ok((0, Vec::new(), enc.duplicate()))
            },
        },
    }
}

impl TwoPassRateControl {
    /// Encodes a sequence such that every window of frames holds about
    /// `target_window_bytes`. A frame takes the quality of the one before
    /// while the window, with one more frame of average size, departs from
    /// what was aimed at by no more than the tolerance; else its quality is
    /// searched for. The tolerance grows with how different the sizes in the
    /// window are. Tolerances and the scale are in units of `PERCENT`.
    pub fn encode_at_target_window_bytes_adaptive(
        &self,
        frames: &[Vec<u8>],
        width: u32,
        height: u32,
        target_window_bytes: usize,
        window_size: usize,
        tolerance_pct_min: u64,
        tolerance_pct_max: u64,
        variance_scale_pct: u64,
    ) -> (r: Result<Vec<RateControlledFrame>>)
        requires
            tolerance_pct_min <= tolerance_pct_max,
        ensures
            rate::rated_outcome(r) == rate::rate_result(
                window_run(
                    WindowScene {
                        frames: rate::pictures(frames@),
                        width,
                        height,
                        target: target_window_bytes,
                        window: window_size,
                        least: tolerance_pct_min,
                        most: tolerance_pct_max,
                        scale: variance_scale_pct,
                    },
                    frames@.len() as int,
                ),
            ),
    {
        let ghost c = WindowScene {
            frames: rate::pictures(frames@),
            width,
            height,
            target: target_window_bytes,
            window: window_size,
            least: tolerance_pct_min,
            most: tolerance_pct_max,
            scale: variance_scale_pct,
        };
        let window: usize = if window_size == 0 {
            1
        } else {
            window_size
        };
        let slice: usize = target_window_bytes / window;
        let mut enc = CinepakEncoder::new();
        let mut out: Vec<RateControlledFrame> = Vec::new();
        assert(rate::rated_views(out@) =~= Seq::empty());
        let mut current: u8 = 50;
        let total: usize = frames.len();
        let mut i: usize = 0;
        while i < total
            invariant
                i <= total,
                total == frames@.len(),
                tolerance_pct_min <= tolerance_pct_max,
                c == (WindowScene {
                    frames: rate::pictures(frames@),
                    width,
                    height,
                    target: target_window_bytes,
                    window: window_size,
                    least: tolerance_pct_min,
                    most: tolerance_pct_max,
                    scale: variance_scale_pct,
                }),
                window == window_len(c),
                slice == share(c),
                window >= 1,
                enc.wf(),
                out@.len() == i,
                forall|k: int| 0 <= k < i ==> (#[trigger] out@[k]).bytes@.len() <= 0xffffff,
                i > 0 ==> current == out@[i - 1].quality,
                window_run(c, i as int) == (RateRun {
                    state: enc@,
                    frames: rate::rated_views(out@),
                    error: None,
                }),
            decreases total - i,
        {
            proof {
                reveal(window_call);
            }
            let ghost run = window_run(c, i as int);
            assert(window_run(c, i + 1) == window_step(c, i as int, run));
            let lo: usize = if i > window {
                i - window
            } else {
                0
            };
            let n: usize = i - lo;
            let (sum, squares) = window_sums(&out, lo, i);
            let search = if i == 0 {
                true
            } else {
                let aim: usize = window_aim(window, n, slice, target_window_bytes, Ghost(c));
                let expected: u128 = sum + sum / n as u128;
                departs(
                    n,
                    sum,
                    squares,
                    expected,
                    aim,
                    tolerance_pct_min,
                    tolerance_pct_max,
                    variance_scale_pct,
                    Ghost(c),
                )
            };
            assert(search == must_search(c, run.frames, i as int));
            let (q, b, e) = if search {
                let cap: usize = if sum < target_window_bytes as u128 {
                    target_window_bytes - sum as usize
                } else {
                    0
                };
                match bisect_q_for_window(&enc, i, &frames[i], width, height, cap, Ghost(c)) {
                    Ok(p) => p,
                    Err(x) => {
                        proof {
                            assert(window_run(c, i + 1).error == Some(x@));
                            window_run_ends(c, i + 1, total as int);
                        }
                        return Err(x);
                    },
                }
            } else {
                let mut e = enc.duplicate();
                match encode_at(
                    &mut e,
                    i,
                    &frames[i],
                    width,
                    height,
                    EncoderOptions::from_quality(current),
                ) {
                    Ok(b) => (current, b, e),
                    Err(x) => {
                        proof {
                            assert(run.frames[i - 1].quality == current);
                            assert(window_run(c, i + 1).error == Some(x@));
                            window_run_ends(c, i + 1, total as int);
                        }
                        return Err(x);
                    },
                }
            };
            let byte_delta: i64 = excess_of(b.len(), slice);
            let ghost before = out@;
            let f = RateControlledFrame { bytes: b, quality: q, byte_delta };
            out.push(f);
            enc = e;
            current = q;
            proof {
                if i > 0 {
                    assert(run.frames[i - 1].quality == before[i - 1].quality);
                }
                assert(rate::rated_views(out@) =~= rate::rated_views(before).push(f@));
            }
            i = i + 1;
        }
        Ok(out)
    }

    /// Encodes a sequence such that every window of frames holds about
    /// `target_window_bytes`, with the same tolerance throughout, in units of
    /// `PERCENT`.
    pub fn encode_at_target_window_bytes(
        &self,
        frames: &[Vec<u8>],
        width: u32,
        height: u32,
        target_window_bytes: usize,
        window_size: usize,
        tolerance_pct: u64,
    ) -> (r: Result<Vec<RateControlledFrame>>)
        ensures
            rate::rated_outcome(r) == rate::rate_result(
                window_run(
                    WindowScene {
                        frames: rate::pictures(frames@),
                        width,
                        height,
                        target: target_window_bytes,
                        window: window_size,
                        least: tolerance_pct,
                        most: tolerance_pct,
                        scale: PERCENT,
                    },
                    frames@.len() as int,
                ),
            ),
    {
        self.encode_at_target_window_bytes_adaptive(
            frames,
            width,
            height,
            target_window_bytes,
            window_size,
            tolerance_pct,
            tolerance_pct,
            PERCENT,
        )
    }
}

fn window_aim(
    window: usize,
    n: usize,
    slice: usize,
    target: usize,
    Ghost(c): Ghost<WindowScene>,
) -> (r: usize)
    requires
        window == window_len(c),
        slice == share(c),
        target == c.target,
        n <= window,
        1 <= window,
    ensures
        r == projected_target(c, n as int),
{
    if n == window || n + 1 == window {
        return target;
    }
    let later: usize = window - n - 1;
    assert(later * slice <= target) by (nonlinear_arith)
        requires
            0 <= later <= window,
            slice == target / window,
            window >= 1,
    ;
    target - later * slice
}

proof fn halving_ends_at_border(
    c: WindowScene,
    st: EncoderState,
    i: int,
    cap: int,
    lo: int,
    hi: int,
    best: Option<u8>,
)
    requires
        0 <= lo <= hi + 1,
        hi <= 100,
        match best {
            Some(q) => q == lo - 1 && fits(c, st, i, cap, q as int),
            None => lo == 0,
        },
        hi < 100 ==> !fits(c, st, i, cap, hi + 1),
    ensures
        halved(c, st, i, cap, lo, hi, best) matches Ok(q) ==> {
            &&& q <= 100
            &&& q == 0 || fits(c, st, i, cap, q as int)
            &&& q < 100 && fits(c, st, i, cap, q as int) ==> !fits(c, st, i, cap, q + 1)
        },
    decreases hi - lo + 1,
{
    if lo <= hi {
        let mid = lo + (hi - lo) / 2;
        if let Ok(b) = window_call(c, st, i, mid as u8).1 {
            if b.len() <= cap {
                halving_ends_at_border(c, st, i, cap, mid + 1, hi, Some(mid as u8));
            } else {
                halving_ends_at_border(c, st, i, cap, lo, mid - 1, best);
            }
        }
    }
}

/// Whether the frame fits at every lower quality than one at which it fits.
pub open spec fn fits_below(c: WindowScene, st: EncoderState, i: int, cap: int) -> bool {
    forall|a: int, b: int|
        0 <= a < b <= 100 && #[trigger] fits(c, st, i, cap, b) ==> #[trigger] fits(
            c,
            st,
            i,
            cap,
            a,
        )
}

/// The quality that halving finds is one at which the frame fits while it
/// does not at the next higher one, or else the lowest. Where the frame fits
/// at every lower quality than one at which it fits, no higher quality than
/// the one found will do.
pub proof fn halving_finds_highest(c: WindowScene, st: EncoderState, i: int, cap: int)
    ensures
        halved(c, st, i, cap, 0, 100, None) matches Ok(q) ==> {
            &&& q <= 100
            &&& q == 0 || fits(c, st, i, cap, q as int)
            &&& q < 100 && fits(c, st, i, cap, q as int) ==> !fits(c, st, i, cap, q + 1)
            &&& fits_below(c, st, i, cap) ==> forall|b: int|
                q < b <= 100 ==> !(#[trigger] fits(c, st, i, cap, b))
        },
{
    halving_ends_at_border(c, st, i, cap, 0, 100, None);
    if let Ok(q) = halved(c, st, i, cap, 0, 100, None) {
        if fits_below(c, st, i, cap) {
            assert forall|b: int| q < b <= 100 implies !(#[trigger] fits(c, st, i, cap, b)) by {
                if fits(c, st, i, cap, b) {
                    assert(fits(c, st, i, cap, q as int));
                    assert(fits(c, st, i, cap, q + 1) || b == q + 1);
                }
            }
        }
    }
}

} // verus!
