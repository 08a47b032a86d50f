//! What sequences with a budget keep to.

use vstd::prelude::*;
use crate::options::{self, EncoderOptions};
use crate::quant;
use crate::rate::{self, RatedFrame, SizedScene};
use crate::session::{self, EncoderState};
use crate::streaming;
use crate::window::{self, WindowScene};

verus! {

/// The sizes of the frames from `first` up to `end`, added up.
pub open spec fn added(frames: Seq<RatedFrame>, first: int, end: int) -> int
    decreases end - first,
{
    if first >= end {
        0
    } else {
        frames[first].bytes.len() + added(frames, first + 1, end)
    }
}

/// The squares of the sizes of the frames from `first` up to `end`, added
/// up.
pub open spec fn squares_added(frames: Seq<RatedFrame>, first: int, end: int) -> int
    decreases end - first,
{
    if first >= end {
        0
    } else {
        frames[first].bytes.len() * frames[first].bytes.len() + squares_added(
            frames,
            first + 1,
            end,
        )
    }
}

/// The larger of two numbers.
pub open spec fn larger(a: int, b: int) -> int {
    if a > b {
        a
    } else {
        b
    }
}

proof fn added_from_end(frames: Seq<RatedFrame>, first: int, end: int)
    requires
        first < end,
    ensures
        added(frames, first, end) == added(frames, first, end - 1) + frames[end - 1].bytes.len(),
        squares_added(frames, first, end) == squares_added(frames, first, end - 1) + frames[end
            - 1].bytes.len() * frames[end - 1].bytes.len(),
    decreases end - first,
{
    reveal_with_fuel(added, 2);
    reveal_with_fuel(squares_added, 2);
    if first < end - 1 {
        added_from_end(frames, first + 1, end);
    }
}

proof fn span_is_added(frames: Seq<RatedFrame>, first: int, end: int)
    ensures
        window::span_sum(frames, first, end) == added(frames, first, end),
        window::span_squares(frames, first, end) == squares_added(frames, first, end),
    decreases end - first,
{
    if first < end {
        span_is_added(frames, first, end - 1);
        added_from_end(frames, first, end);
    }
}

proof fn added_of_part(frames: Seq<RatedFrame>, first: int, later: int, end: int)
    requires
        first <= later <= end,
    ensures
        0 <= added(frames, later, end) <= added(frames, first, end),
    decreases end - first,
{
    if first < later {
        added_of_part(frames, first + 1, later, end);
    } else if first < end {
        added_of_part(frames, first + 1, first + 1, end);
    }
}

proof fn added_kept(a: Seq<RatedFrame>, b: Seq<RatedFrame>, first: int, end: int)
    requires
        forall|k: int| first <= k < end ==> a[k] == b[k],
    ensures
        added(a, first, end) == added(b, first, end),
    decreases end - first,
{
    if first < end {
        added_kept(a, b, first + 1, end);
    }
}

/// Every frame of a sequence with a window is encoded at its quality from
/// the state after the frame before it, and its excess is over an equal share
/// of the budget.
pub proof fn windowed_frame(c: WindowScene, i: int, n: int)
    requires
        0 <= i < n,
        window::window_run(c, n).error is None,
    ensures
        window::window_run(c, n).frames.len() == n,
        window::window_run(c, i).error is None,
        window::window_run(c, i + 1).error is None,
        window::window_run(c, i).frames == window::window_run(c, n).frames.take(i),
        window::window_run(c, i + 1).frames == window::window_run(c, n).frames.take(i + 1),
        ({
            let f = window::window_run(c, n).frames[i];
            &&& rate::sequence_call(
                window::window_run(c, i).state,
                i,
                c.frames[i],
                c.width,
                c.height,
                options::quality_options(f.quality),
            ) == (window::window_run(c, i + 1).state, Ok::<Seq<u8>, crate::error::ErrorView>(f.bytes))
            &&& c.target < 0x8000000000000000 ==> f.byte_delta == f.bytes.len() - c.target as int / larger(
                1,
                c.window as int,
            )
        }),
    decreases n,
{
    reveal(window::window_call);
    let before = window::window_run(c, n - 1);
    let run = window::window_run(c, n);
    let w = larger(1, c.window as int);
    let t = c.target as int;
    assert(0 <= t / w <= t) by (nonlinear_arith)
        requires
            w >= 1,
            t >= 0,
    ;
    assert(run == window::window_step(c, n - 1, before));
    if n == 1 {
        assert(before.frames.len() == 0);
    } else {
        windowed_frame(c, n - 2, n - 1);
    }
    assert(run.frames.len() == n);
    assert(run.frames.take(n - 1) =~= before.frames);
    if i == n - 1 {
        assert(run.frames.take(n) =~= run.frames);
        frame_has_header(
            before.state,
            i,
            c.frames[i],
            c.width,
            c.height,
            options::quality_options(run.frames[i].quality),
        );
    } else {
        windowed_frame(c, i, n - 1);
        assert(run.frames.take(i) =~= before.frames.take(i));
        assert(run.frames.take(i + 1) =~= before.frames.take(i + 1));
    }
}

proof fn one_has_header(
    st: EncoderState,
    rgb: Seq<u8>,
    width: u32,
    height: u32,
    o: EncoderOptions,
    intra: bool,
)
    ensures
        session::encoded_one(st, rgb, width, height, o, intra).1 matches Ok(b) ==> 10 <= b.len()
            <= 0xffffff,
{
    reveal(session::intra_one);
    reveal(session::inter_one);
}

/// An encoded frame holds its header at least, and has a length that its
/// length field can tell.
pub proof fn frame_has_header(
    st: EncoderState,
    i: int,
    rgb: Seq<u8>,
    width: u32,
    height: u32,
    o: EncoderOptions,
)
    ensures
        rate::sequence_call(st, i, rgb, width, height, o).1 matches Ok(b) ==> 10 <= b.len()
            <= 0xffffff,
{
    if rate::sequence_call(st, i, rgb, width, height, o).1 is Ok {
        let used = streaming::frame_has_options(st, rgb, width, height, o, i == 0);
        one_has_header(st, rgb, width, height, used, i == 0);
    }
}

/// A frame whose quality is searched for keeps the window within the budget
/// or has the lowest quality: above that, it and the frames of the window
/// before it add up to no more than the budget. One step higher they would
/// not, where they do at its own quality.
pub proof fn searched_frame_keeps_budget(c: WindowScene, i: int, n: int, first: int)
    requires
        0 <= i < n,
        window::window_run(c, n).error is None,
        window::must_search(c, window::window_run(c, n).frames.take(i), i),
        0 <= first <= i,
        i - first <= larger(1, c.window as int),
    ensures
        ({
            let frames = window::window_run(c, n).frames;
            let q = frames[i].quality;
            let next = rate::sequence_call(
                window::window_run(c, i).state,
                i,
                c.frames[i],
                c.width,
                c.height,
                options::quality_options((q + 1) as u8),
            ).1;
            let start = larger(0, i - larger(1, c.window as int));
            &&& q <= 100
            &&& q > 0 ==> added(frames, first, i + 1) <= c.target
            &&& q < 100 && added(frames, start, i + 1) <= c.target && next is Ok ==> added(
                frames,
                start,
                i,
            ) + next->Ok_0.len() > c.target
        }),
{
    reveal(window::window_call);
    windowed_frame(c, i, n);
    let run = window::window_run(c, i);
    frame_has_header(
        run.state,
        i,
        c.frames[i],
        c.width,
        c.height,
        options::quality_options(window::window_run(c, n).frames[i].quality),
    );
    let frames = window::window_run(c, n).frames;
    let start = larger(0, i - larger(1, c.window as int));
    let cap = window::left_over(c, run.frames, i);
    assert(window::window_run(c, i + 1) == window::window_step(c, i, run));
    assert(frames.take(i + 1)[i] == frames[i]);
    window::halving_finds_highest(c, run.state, i, cap);
    span_is_added(run.frames, start, i);
    assert forall|k: int| start <= k < i implies run.frames[k] == frames[k] by {
        assert(frames.take(i)[k] == frames[k]);
    }
    added_kept(run.frames, frames, start, i);
    added_from_end(frames, start, i + 1);
    added_from_end(frames, first, i + 1);
    added_of_part(frames, start, first, i);
    added_of_part(frames, start, start, i);
    let q = frames[i].quality;
    if q > 0 {
        assert(window::fits(c, run.state, i, cap, q as int));
    }
    if q < 100 && added(frames, start, i + 1) <= c.target {
        assert(window::fits(c, run.state, i, cap, q as int));
        assert(!window::fits(c, run.state, i, cap, q + 1));
    }
}

/// A frame whose quality is not searched for has that of the frame before.
pub proof fn steady_frame_keeps_quality(c: WindowScene, i: int, n: int)
    requires
        0 <= i < n,
        window::window_run(c, n).error is None,
        !window::must_search(c, window::window_run(c, n).frames.take(i), i),
    ensures
        i > 0,
        window::window_run(c, n).frames[i].quality == window::window_run(c, n).frames[i
            - 1].quality,
{
    windowed_frame(c, i, n);
    let frames = window::window_run(c, n).frames;
    assert(window::window_run(c, i + 1) == window::window_step(c, i, window::window_run(c, i)));
    assert(frames.take(i + 1)[i] == frames[i]);
    assert(frames.take(i)[i - 1] == frames[i - 1]);
}

/// The distance of two numbers.
pub open spec fn apart(a: int, b: int) -> int {
    if a > b {
        a - b
    } else {
        b - a
    }
}

/// What the frames of a window are to add up to, with those still to come
/// left out.
pub open spec fn aimed(c: WindowScene, n: int) -> int {
    let w = larger(1, c.window as int);
    c.target - larger(0, w - n - 1) * (c.target as int / w)
}

proof fn aimed_at(c: WindowScene, n: int)
    requires
        n >= 0,
    ensures
        0 <= aimed(c, n) == window::projected_target(c, n),
{
    let w = larger(1, c.window as int);
    let m = larger(0, w - n - 1);
    let t = c.target as int;
    assert(m * (t / w) <= t) by (nonlinear_arith)
        requires
            0 <= m <= w,
            w >= 1,
            t >= 0,
    ;
    assert(m == 0 ==> m * (t / w) == 0) by (nonlinear_arith);
}

/// The quality of the first frame is searched for; that of a later one is
/// where the window, with a frame of average size added, departs from its aim
/// by more than the largest tolerance, and is not where it departs by no more
/// than the least.
pub proof fn drift_is_searched(c: WindowScene, frames: Seq<RatedFrame>, i: int)
    requires
        0 <= i,
        c.least <= c.most,
    ensures
        i == 0 ==> window::must_search(c, frames, i),
        i > 0 ==> ({
            let first = larger(0, i - larger(1, c.window as int));
            let n = i - first;
            let s = added(frames, first, i);
            let gap = 6553600 * apart(s + s / n, aimed(c, n));
            &&& gap > c.most * aimed(c, n) ==> window::must_search(c, frames, i)
            &&& aimed(c, n) > 0 && gap <= c.least * aimed(c, n) ==> !window::must_search(
                c,
                frames,
                i,
            )
            &&& aimed(c, n) > 0 && n < 2 && gap <= c.most * aimed(c, n) ==> !window::must_search(
                c,
                frames,
                i,
            )
        }),
{
    if i > 0 {
        let first = larger(0, i - larger(1, c.window as int));
        let n = i - first;
        span_is_added(frames, first, i);
        aimed_at(c, n);
        let aim = aimed(c, n);
        assert((c.most - c.least) * aim == c.most * aim - c.least * aim && c.least * aim <= c.most
            * aim) by (nonlinear_arith)
            requires
                c.least <= c.most,
                aim >= 0,
        ;
    }
}

proof fn deviation_decides(
    a: int,
    s: int,
    scale: int,
    y: int,
    v: int,
    p: int,
    r: int,
)
    requires
        a > 0,
        s > 0,
        scale > 0,
        y >= 0,
        v >= 0,
        p >= 0,
        r > 0,
    ensures
        r * r * (6553600 * 6553600 * v) >= p * p * (scale * scale * (s * s)) && r * a <= p * y
            ==> quant::sq(a * s * scale) <= quant::sq(100 * 65536 * y) * v,
        r * r * (6553600 * 6553600 * v) <= p * p * (scale * scale * (s * s)) && r * a > p * y
            ==> quant::sq(a * s * scale) > quant::sq(100 * 65536 * y) * v,
{
    let big = 6553600 * 6553600 * v;
    let ss = scale * scale * (s * s);
    assert(quant::sq(a * s * scale) == (a * a) * ss) by (nonlinear_arith)
        requires
            ss == scale * scale * (s * s),
    ;
    assert(quant::sq(100 * 65536 * y) * v == (y * y) * big) by (nonlinear_arith)
        requires
            big == 6553600 * 6553600 * v,
    ;
    assert(ss > 0) by (nonlinear_arith)
        requires
            ss == scale * scale * (s * s),
            s > 0,
            scale > 0,
    ;
    let ra = r * a;
    let py = p * y;
    let aa = a * a;
    let yy = y * y;
    let rr = r * r;
    let pp = p * p;
    assert(ra * ra == rr * aa && py * py == pp * yy) by (nonlinear_arith)
        requires
            ra == r * a,
            py == p * y,
            aa == a * a,
            yy == y * y,
            rr == r * r,
            pp == p * p,
    ;
    assert(rr > 0 && ra > 0 && py >= 0 && yy >= 0 && pp >= 0) by (nonlinear_arith)
        requires
            rr == r * r,
            ra == r * a,
            py == p * y,
            yy == y * y,
            pp == p * p,
            r > 0,
            a > 0,
            p >= 0,
            y >= 0,
    ;
    if rr * big >= pp * ss && ra <= py {
        assert(ra * ra <= py * py) by (nonlinear_arith)
            requires
                0 < ra <= py,
        ;
        assert(rr * (aa * ss) == (rr * aa) * ss && rr * (yy * big) == yy * (rr * big) && (pp * yy)
            * ss == yy * (pp * ss)) by (nonlinear_arith);
        assert((rr * aa) * ss <= (pp * yy) * ss) by (nonlinear_arith)
            requires
                rr * aa <= pp * yy,
                ss > 0,
        ;
        assert(yy * (pp * ss) <= yy * (rr * big)) by (nonlinear_arith)
            requires
                pp * ss <= rr * big,
                yy >= 0,
        ;
        assert(aa * ss <= yy * big) by (nonlinear_arith)
            requires
                rr * (aa * ss) <= rr * (yy * big),
                rr > 0,
        ;
    }
    if rr * big <= pp * ss && ra > py {
        assert(ra * ra > py * py) by (nonlinear_arith)
            requires
                0 <= py < ra,
        ;
        assert(rr * (aa * ss) == (rr * aa) * ss && rr * (yy * big) == yy * (rr * big) && (pp * yy)
            * ss == yy * (pp * ss)) by (nonlinear_arith);
        assert((rr * aa) * ss > (pp * yy) * ss) by (nonlinear_arith)
            requires
                rr * aa > pp * yy,
                ss > 0,
        ;
        assert(yy * (pp * ss) >= yy * (rr * big)) by (nonlinear_arith)
            requires
                pp * ss >= rr * big,
                yy >= 0,
        ;
        assert(aa * ss > yy * big) by (nonlinear_arith)
            requires
                rr * (aa * ss) > rr * (yy * big),
                rr > 0,
        ;
    }
}

proof fn sum_of_one_more(n: int, q: int, s: int, x: int)
    requires
        n >= 1,
        n * q >= s * s,
    ensures
        (n + 1) * (x * x + q) >= (x + s) * (x + s),
{
    let xx = x * x;
    let ss = s * s;
    let xs = x * s;
    let nq = n * q;
    let nx = n * x;
    let a = (n + 1) * (xx + q);
    let b = (x + s) * (x + s);
    assert(a == n * xx + xx + nq + q) by (nonlinear_arith)
        requires
            a == (n + 1) * (xx + q),
            nq == n * q,
    ;
    assert(b == xx + 2 * xs + ss) by (nonlinear_arith)
        requires
            b == (x + s) * (x + s),
            xx == x * x,
            ss == s * s,
            xs == x * s,
    ;
    assert((nx - s) * (nx - s) == n * (n * xx) - 2 * (n * xs) + ss) by (nonlinear_arith)
        requires
            nx == n * x,
            xx == x * x,
            ss == s * s,
            xs == x * s,
    ;
    assert((nx - s) * (nx - s) >= 0) by (nonlinear_arith);
    let c = n * xx;
    assert(n * a == n * c + c + n * nq + nq) by (nonlinear_arith)
        requires
            a == c + xx + nq + q,
            c == n * xx,
            nq == n * q,
    ;
    assert(n * b == c + 2 * (n * xs) + n * ss) by (nonlinear_arith)
        requires
            b == xx + 2 * xs + ss,
            c == n * xx,
    ;
    assert(n * nq >= n * ss) by (nonlinear_arith)
        requires
            n >= 1,
            nq >= ss,
    ;
    assert(a >= b) by (nonlinear_arith)
        requires
            n * a >= n * b,
            n >= 1,
    ;
}

proof fn squares_cover_sum(frames: Seq<RatedFrame>, first: int, end: int)
    requires
        first <= end,
    ensures
        (end - first) * squares_added(frames, first, end) >= added(frames, first, end) * added(
            frames,
            first,
            end,
        ),
        squares_added(frames, first, end) >= 0,
    decreases end - first,
{
    if first < end {
        squares_cover_sum(frames, first + 1, end);
        let n = end - first - 1;
        let q = squares_added(frames, first + 1, end);
        let s = added(frames, first + 1, end);
        let x = frames[first].bytes.len() as int;
        if n == 0 {
            assert(s == 0 && q == 0);
            assert((n + 1) * (x * x + q) == (x + s) * (x + s)) by (nonlinear_arith)
                requires
                    n == 0,
                    s == 0,
                    q == 0,
            ;
        } else {
            sum_of_one_more(n, q, s, x);
        }
        assert(x * x + q >= 0) by (nonlinear_arith)
            requires
                q >= 0,
        ;
    }
}

/// The tolerance grows from the least to the most with how the sizes of the
/// window vary: where their standard deviation, relative to their mean, is
/// the fraction `p` over `r` of the scale, so is what the tolerance has grown
/// by of what it can.
pub proof fn tolerance_grows_with_variation(
    c: WindowScene,
    frames: Seq<RatedFrame>,
    i: int,
    p: int,
    r: int,
)
    requires
        c.least <= c.most,
        c.scale > 0,
        0 <= p <= r,
        0 < r,
        ({
            let first = larger(0, i - larger(1, c.window as int));
            &&& i - first >= 2
            &&& aimed(c, i - first) > 0
            &&& added(frames, first, i) > 0
        }),
    ensures
        ({
            let first = larger(0, i - larger(1, c.window as int));
            let n = i - first;
            let s = added(frames, first, i);
            let spread = n * squares_added(frames, first, i) - s * s;
            let gap = 6553600 * apart(s + s / n, aimed(c, n));
            let over = r * (gap - c.least * aimed(c, n));
            let grown = p * ((c.most - c.least) * aimed(c, n));
            &&& r * r * (6553600 * 6553600 * spread) >= p * p * (c.scale * c.scale * (s * s)) && over
                <= grown ==> !window::must_search(c, frames, i)
            &&& r * r * (6553600 * 6553600 * spread) <= p * p * (c.scale * c.scale * (s * s)) && over
                > grown ==> window::must_search(c, frames, i)
        }),
{
    let first = larger(0, i - larger(1, c.window as int));
    let n = i - first;
    let s = added(frames, first, i);
    let q = squares_added(frames, first, i);
    let spread = n * q - s * s;
    span_is_added(frames, first, i);
    squares_cover_sum(frames, first, i);
    aimed_at(c, n);
    let aim = aimed(c, n);
    let gap = 6553600 * apart(s + s / n, aim);
    let a = gap - c.least * aim;
    let y = aim * (c.most - c.least);
    assert(y == (c.most - c.least) * aim && y >= 0) by (nonlinear_arith)
        requires
            y == aim * (c.most - c.least),
            aim > 0,
            c.least <= c.most,
    ;
    assert(100 * window::PERCENT * apart(s + s / n, aim) == gap);
    if a > 0 {
        deviation_decides(a, s, c.scale as int, y, spread, p, r);
        assert(r * a <= p * y ==> a <= y) by (nonlinear_arith)
            requires
                0 <= p <= r,
                0 < r,
                y >= 0,
        ;
    } else {
        assert(r * a <= 0 && p * y >= 0) by (nonlinear_arith)
            requires
                a <= 0,
                r > 0,
                p >= 0,
                y >= 0,
        ;
    }
}

/// Every frame that aims at a size is encoded at its quality from the state
/// after the frame before it, and its excess is over that size.
pub proof fn sized_frame(c: SizedScene, i: int, n: int)
    requires
        0 <= i < n,
        rate::sized_run(c, n).error is None,
    ensures
        rate::sized_run(c, n).frames.len() == n,
        rate::sized_run(c, i).error is None,
        rate::sized_run(c, i + 1).error is None,
        rate::sized_run(c, i).frames == rate::sized_run(c, n).frames.take(i),
        rate::sized_run(c, i + 1).frames == rate::sized_run(c, n).frames.take(i + 1),
        ({
            let f = rate::sized_run(c, n).frames[i];
            &&& rate::sequence_call(
                rate::sized_run(c, i).state,
                i,
                c.frames[i],
                c.width,
                c.height,
                options::quality_options(f.quality),
            ) == (rate::sized_run(c, i + 1).state, Ok::<Seq<u8>, crate::error::ErrorView>(f.bytes))
            &&& c.target < 0x8000000000000000 ==> f.byte_delta == f.bytes.len() - c.target
        }),
    decreases n,
{
    reveal(rate::sized_call);
    let before = rate::sized_run(c, n - 1);
    let run = rate::sized_run(c, n);
    assert(run == rate::sized_step(c, n - 1, before));
    if n == 1 {
        assert(before.frames.len() == 0);
    } else {
        sized_frame(c, n - 2, n - 1);
    }
    assert(run.frames.len() == n);
    assert(run.frames.take(n - 1) =~= before.frames);
    if i == n - 1 {
        assert(run.frames.take(n) =~= run.frames);
        frame_has_header(
            before.state,
            i,
            c.frames[i],
            c.width,
            c.height,
            options::quality_options(run.frames[i].quality),
        );
    } else {
        sized_frame(c, i, n - 1);
        assert(run.frames.take(i) =~= before.frames.take(i));
        assert(run.frames.take(i + 1) =~= before.frames.take(i + 1));
    }
}

/// A frame that aims at a size keeps to it or has the lowest quality, and at
/// no higher multiple of ten would it keep to it.
pub proof fn sized_frame_keeps_size(c: SizedScene, i: int, n: int, k: int)
    requires
        0 <= i < n,
        0 <= k <= 10,
        rate::sized_run(c, n).error is None,
    ensures
        ({
            let f = rate::sized_run(c, n).frames[i];
            let other = rate::sequence_call(
                rate::sized_run(c, i).state,
                i,
                c.frames[i],
                c.width,
                c.height,
                options::quality_options((10 * k) as u8),
            ).1;
            &&& f.quality % 10 == 0 && f.quality <= 100
            &&& f.bytes.len() <= c.target || f.quality == 0
            &&& other is Ok
            &&& 10 * k > f.quality ==> other->Ok_0.len() > c.target
        }),
{
    reveal(rate::sized_call);
    sized_frame(c, i, n);
    let run = rate::sized_run(c, i);
    let frames = rate::sized_run(c, n).frames;
    assert(rate::sized_run(c, i + 1) == rate::sized_step(c, i, run));
    assert(frames.take(i + 1)[i] == frames[i]);
    assert(rate::sized_run(c, i + 1).frames.last() == frames[i]);
    rate::sized_quality_is_highest(c, i, run, k);
}

} // verus!
