//! Distances between codebook entries, and the clusters they make.

use vstd::prelude::*;
use crate::codebook::{Codebook, CodebookEntry, PixelMode};

verus! {

/// How distances between entries are measured.
#[derive(Clone, Copy, Debug, PartialEq, Eq, Structural)]
pub struct Metric {
    /// Whether chroma counts.
    pub mode: PixelMode,
    /// How much more luma counts than chroma; zero stands for one. Gray has
    /// no chroma to count against, so that it does not matter there.
    pub luma_weight: u8,
}

/// The weight of luma.
pub open spec fn weight(m: Metric) -> int {
    match m.mode {
        PixelMode::Yuv12 => if m.luma_weight == 0 {
            1
        } else {
            m.luma_weight as int
        },
        PixelMode::Gray8 => 1,
    }
}

/// The square of a number.
pub open spec fn sq(x: int) -> int {
    x * x
}

/// The absolute value of a number.
pub open spec fn magnitude(x: int) -> int {
    if x < 0 {
        -x
    } else {
        x
    }
}

/// Division that rounds toward zero.
pub open spec fn toward_zero(a: int, b: int) -> int {
    if a < 0 {
        -((-a) / b)
    } else {
        a / b
    }
}

/// Squared distance of two entries.
#[verifier::opaque]
pub open spec fn distance(m: Metric, a: CodebookEntry, b: CodebookEntry) -> int {
    weight(m) * (sq(a.y0 - b.y0) + sq(a.y1 - b.y1) + sq(a.y2 - b.y2) + sq(a.y3 - b.y3)) + match m.mode {
        PixelMode::Yuv12 => sq(a.u - b.u) + sq(a.v - b.v),
        PixelMode::Gray8 => 0,
    }
}

/// Manhattan distance of two entries.
#[verifier::opaque]
pub open spec fn drift(m: Metric, a: CodebookEntry, b: CodebookEntry) -> int {
    weight(m) * (magnitude(a.y0 - b.y0) + magnitude(a.y1 - b.y1) + magnitude(a.y2 - b.y2)
        + magnitude(a.y3 - b.y3)) + match m.mode {
        PixelMode::Yuv12 => magnitude(a.u - b.u) + magnitude(a.v - b.v),
        PixelMode::Gray8 => 0,
    }
}

proof fn square_bound(x: int)
    requires
        -255 <= x <= 255,
    ensures
        0 <= sq(x) <= 65025,
{
    assert(0 <= x * x <= 65025) by (nonlinear_arith)
        requires
            -255 <= x <= 255,
    ;
}

/// A squared distance is not negative and fits a machine word.
pub proof fn distance_bound(m: Metric, a: CodebookEntry, b: CodebookEntry)
    ensures
        0 <= distance(m, a, b) <= 66455550,
{
    reveal(distance);
    square_bound(a.y0 - b.y0);
    square_bound(a.y1 - b.y1);
    square_bound(a.y2 - b.y2);
    square_bound(a.y3 - b.y3);
    square_bound(a.u - b.u);
    square_bound(a.v - b.v);
    let y = sq(a.y0 - b.y0) + sq(a.y1 - b.y1) + sq(a.y2 - b.y2) + sq(a.y3 - b.y3);
    let w = weight(m);
    assert(0 <= w * y <= 255 * 260100) by (nonlinear_arith)
        requires
            0 <= y <= 260100,
            1 <= w <= 255,
    ;
}

/// An entry has no distance to itself.
pub proof fn distance_self(m: Metric, a: CodebookEntry)
    ensures
        distance(m, a, a) == 0,
{
    reveal(distance);
    assert(weight(m) * 0 == 0);
}

/// A luma weight of zero measures as a weight of one does.
pub proof fn weight_zero_is_one(mode: PixelMode, a: CodebookEntry, b: CodebookEntry)
    ensures
        distance(Metric { mode, luma_weight: 0 }, a, b) == distance(
            Metric { mode, luma_weight: 1 },
            a,
            b,
        ),
        drift(Metric { mode, luma_weight: 0 }, a, b) == drift(
            Metric { mode, luma_weight: 1 },
            a,
            b,
        ),
{
    reveal(distance);
    reveal(drift);
}

/// The luma weight does not matter for gray.
pub proof fn gray_ignores_weight(v: u8, w: u8, a: CodebookEntry, b: CodebookEntry)
    ensures
        distance(Metric { mode: PixelMode::Gray8, luma_weight: v }, a, b) == distance(
            Metric { mode: PixelMode::Gray8, luma_weight: w },
            a,
            b,
        ),
        drift(Metric { mode: PixelMode::Gray8, luma_weight: v }, a, b) == drift(
            Metric { mode: PixelMode::Gray8, luma_weight: w },
            a,
            b,
        ),
{
    reveal(distance);
    reveal(drift);
}

pub(crate) fn luma_factor(m: Metric) -> (r: i64)
    ensures
        r == weight(m),
        1 <= r <= 255,
{
    match m.mode {
        PixelMode::Yuv12 => if m.luma_weight == 0 {
            1
        } else {
            m.luma_weight as i64
        },
        PixelMode::Gray8 => 1,
    }
}

fn square(x: i64) -> (r: i64)
    requires
        -255 <= x <= 255,
    ensures
        r == sq(x as int),
        0 <= r <= 65025,
{
    proof {
        square_bound(x as int);
    }
    x * x
}

fn absolute(x: i64) -> (r: i64)
    requires
        -255 <= x <= 255,
    ensures
        r == magnitude(x as int),
        0 <= r <= 255,
{
    if x < 0 {
        -x
    } else {
        x
    }
}

/// Squared distance of two entries: the squares of the luma differences,
/// weighted, and those of the chroma differences where chroma counts.
pub fn entry_distance(m: Metric, a: &CodebookEntry, b: &CodebookEntry) -> (r: i64)
    ensures
        r == distance(m, *a, *b),
        0 <= r <= 66455550,
{
    proof {
        reveal(distance);
        distance_bound(m, *a, *b);
    }
    let w: i64 = luma_factor(m);
    let y: i64 = square(a.y0 as i64 - b.y0 as i64) + square(a.y1 as i64 - b.y1 as i64) + square(
        a.y2 as i64 - b.y2 as i64,
    ) + square(a.y3 as i64 - b.y3 as i64);
    assert(0 <= w * y <= 255 * 260100) by (nonlinear_arith)
        requires
            0 <= y <= 260100,
            1 <= w <= 255,
    ;
    let d: i64 = w * y;
    match m.mode {
        PixelMode::Yuv12 => d + square(a.u as i64 - b.u as i64) + square(a.v as i64 - b.v as i64),
        PixelMode::Gray8 => d,
    }
}

/// Manhattan distance of two entries, weighted in the same way.
pub fn entry_l1_distance(m: Metric, a: &CodebookEntry, b: &CodebookEntry) -> (r: u32)
    ensures
        r == drift(m, *a, *b),
{
    proof {
        reveal(drift);
    }
    let w: i64 = luma_factor(m);
    let y: i64 = absolute(a.y0 as i64 - b.y0 as i64) + absolute(a.y1 as i64 - b.y1 as i64)
        + absolute(a.y2 as i64 - b.y2 as i64) + absolute(a.y3 as i64 - b.y3 as i64);
    assert(0 <= w * y <= 255 * 1020) by (nonlinear_arith)
        requires
            0 <= y <= 1020,
            1 <= w <= 255,
    ;
    let d: i64 = w * y;
    match m.mode {
        PixelMode::Yuv12 => (d + absolute(a.u as i64 - b.u as i64) + absolute(
            a.v as i64 - b.v as i64,
        )) as u32,
        PixelMode::Gray8 => d as u32,
    }
}

/// The place of the entry among the first `n` of `cb` that lies nearest to
/// `t`; the first such one.
pub open spec fn nearest_slot(m: Metric, t: CodebookEntry, cb: Seq<CodebookEntry>, n: int) -> int
    decreases n,
{
    if n <= 1 {
        0
    } else {
        let b = nearest_slot(m, t, cb, n - 1);
        if distance(m, t, cb[n - 1]) < distance(m, t, cb[b]) {
            n - 1
        } else {
            b
        }
    }
}

/// The distance from `t` to the nearest of the first `n` entries of `cb`.
pub open spec fn nearest_error(m: Metric, t: CodebookEntry, cb: Seq<CodebookEntry>, n: int) -> int {
    distance(m, t, cb[nearest_slot(m, t, cb, n)])
}

/// No entry among the first `n` lies nearer than the one picked, and none
/// before it lies as near.
pub proof fn nearest_is_least(m: Metric, t: CodebookEntry, cb: Seq<CodebookEntry>, n: int)
    requires
        1 <= n,
    ensures
        0 <= nearest_slot(m, t, cb, n) < n,
        forall|j: int|
            0 <= j < n ==> nearest_error(m, t, cb, n) <= #[trigger] distance(m, t, cb[j]),
        forall|j: int|
            0 <= j < nearest_slot(m, t, cb, n) ==> nearest_error(m, t, cb, n) < #[trigger] distance(
                m,
                t,
                cb[j],
            ),
    decreases n,
{
    if n > 1 {
        nearest_is_least(m, t, cb, n - 1);
    }
}

proof fn nearest_in_range(m: Metric, t: CodebookEntry, cb: Seq<CodebookEntry>, n: int)
    requires
        1 <= n,
    ensures
        0 <= nearest_slot(m, t, cb, n) < n,
    decreases n,
{
    if n > 1 {
        nearest_in_range(m, t, cb, n - 1);
    }
}

/// The nearest of the first `n` entries: its place, and its distance.
pub fn nearest(m: Metric, t: &CodebookEntry, cb: &Codebook, n: usize) -> (r: (u8, i64))
    requires
        1 <= n <= 256,
    ensures
        r.0 == nearest_slot(m, *t, cb@, n as int),
        r.0 < n,
        r.1 == nearest_error(m, *t, cb@, n as int),
        0 <= r.1 <= 66455550,
{
    let mut best: usize = 0;
    let mut err: i64 = entry_distance(m, t, &cb.entries[0]);
    let mut i: usize = 1;
    while i < n
        invariant
            1 <= i <= n <= 256,
            best < i,
            best == nearest_slot(m, *t, cb@, i as int),
            err == distance(m, *t, cb@[best as int]),
            0 <= err <= 66455550,
        decreases n - i,
    {
        let d: i64 = entry_distance(m, t, &cb.entries[i]);
        if d < err {
            err = d;
            best = i;
        }
        i = i + 1;
    }
    (best as u8, err)
}

/// The vectors among the first `k` of `vs` that lie nearest to entry `slot`.
pub open spec fn members(
    m: Metric,
    vs: Seq<CodebookEntry>,
    cb: Seq<CodebookEntry>,
    n: int,
    slot: int,
    k: int,
) -> Seq<CodebookEntry>
    decreases k,
{
    if k <= 0 {
        Seq::empty()
    } else {
        let before = members(m, vs, cb, n, slot, k - 1);
        if nearest_slot(m, vs[k - 1], cb, n) == slot {
            before.push(vs[k - 1])
        } else {
            before
        }
    }
}

/// The vectors of `vs` that lie nearest to entry `slot`.
pub open spec fn cluster(
    m: Metric,
    vs: Seq<CodebookEntry>,
    cb: Seq<CodebookEntry>,
    n: int,
    slot: int,
) -> Seq<CodebookEntry> {
    members(m, vs, cb, n, slot, vs.len() as int)
}

/// The sum of the distances of the first `k` vectors to their nearest
/// entries.
pub open spec fn error_sum(
    m: Metric,
    vs: Seq<CodebookEntry>,
    cb: Seq<CodebookEntry>,
    n: int,
    k: int,
) -> int
    decreases k,
{
    if k <= 0 {
        0
    } else {
        error_sum(m, vs, cb, n, k - 1) + nearest_error(m, vs[k - 1], cb, n)
    }
}

/// A sum limited to an `i64`.
pub open spec fn limited(x: int) -> i64 {
    if x > i64::MAX {
        i64::MAX
    } else {
        x as i64
    }
}

/// How badly a codebook stands for the vectors: the sum of the distances to
/// the nearest entries, limited to an `i64`.
pub open spec fn total_error(
    m: Metric,
    vs: Seq<CodebookEntry>,
    cb: Seq<CodebookEntry>,
    n: int,
) -> i64 {
    limited(error_sum(m, vs, cb, n, vs.len() as int))
}

pub(crate) fn limited_add(total: i64, d: i64, Ghost(sum): Ghost<int>) -> (r: i64)
    requires
        sum >= 0,
        d >= 0,
        total == limited(sum),
    ensures
        r == limited(sum + d),
{
    if total > i64::MAX - d {
        i64::MAX
    } else {
        total + d
    }
}

pub proof fn error_sum_positive(
    m: Metric,
    vs: Seq<CodebookEntry>,
    cb: Seq<CodebookEntry>,
    n: int,
    k: int,
)
    ensures
        error_sum(m, vs, cb, n, k) >= 0,
    decreases k,
{
    if k > 0 {
        error_sum_positive(m, vs, cb, n, k - 1);
        distance_bound(m, vs[k - 1], cb[nearest_slot(m, vs[k - 1], cb, n)]);
    }
}

/// How badly the first `n` entries of a codebook stand for the vectors.
pub fn codebook_total_sse(m: Metric, cb: &Codebook, vs: &[CodebookEntry], n: usize) -> (r: i64)
    requires
        1 <= n <= 256,
    ensures
        r == total_error(m, vs@, cb@, n as int),
{
    let mut total: i64 = 0;
    let mut i: usize = 0;
    while i < vs.len()
        invariant
            1 <= n <= 256,
            i <= vs@.len(),
            total == limited(error_sum(m, vs@, cb@, n as int, i as int)),
        decreases vs@.len() - i,
    {
        let (_, e) = nearest(m, &vs[i], cb, n);
        proof {
            error_sum_positive(m, vs@, cb@, n as int, i as int);
        }
        total = limited_add(total, e, Ghost(error_sum(m, vs@, cb@, n as int, i as int)));
        i = i + 1;
    }
    total
}

/// Component `d` of an entry: the four lumas, then the two chromas.
pub open spec fn component(e: CodebookEntry, d: int) -> int {
    if d == 0 {
        e.y0 as int
    } else if d == 1 {
        e.y1 as int
    } else if d == 2 {
        e.y2 as int
    } else if d == 3 {
        e.y3 as int
    } else if d == 4 {
        e.u as int
    } else if d == 5 {
        e.v as int
    } else {
        0
    }
}

/// Component `d` of an entry.
pub fn dim_value(e: &CodebookEntry, d: usize) -> (r: i32)
    ensures
        r == component(*e, d as int),
        -128 <= r <= 255,
        d < 4 ==> 0 <= r,
        d >= 4 ==> r <= 127,
{
    if d == 0 {
        e.y0 as i32
    } else if d == 1 {
        e.y1 as i32
    } else if d == 2 {
        e.y2 as i32
    } else if d == 3 {
        e.y3 as i32
    } else if d == 4 {
        e.u as i32
    } else if d == 5 {
        e.v as i32
    } else {
        0
    }
}

/// The sum of component `d` over the first `k` entries.
pub open spec fn component_sum(c: Seq<CodebookEntry>, d: int, k: int) -> int
    decreases k,
{
    if k <= 0 {
        0
    } else {
        component_sum(c, d, k - 1) + component(c[k - 1], d)
    }
}

/// The mean of component `d`, rounded toward zero.
pub open spec fn mean(c: Seq<CodebookEntry>, d: int) -> int {
    toward_zero(component_sum(c, d, c.len() as int), c.len() as int)
}

/// The mean of the entries of a cluster.
pub open spec fn centre(mode: PixelMode, c: Seq<CodebookEntry>) -> CodebookEntry {
    CodebookEntry {
        y0: mean(c, 0) as u8,
        y1: mean(c, 1) as u8,
        y2: mean(c, 2) as u8,
        y3: mean(c, 3) as u8,
        u: match mode {
            PixelMode::Yuv12 => mean(c, 4) as i8,
            PixelMode::Gray8 => 0,
        },
        v: match mode {
            PixelMode::Yuv12 => mean(c, 5) as i8,
            PixelMode::Gray8 => 0,
        },
    }
}

proof fn component_sum_bound(c: Seq<CodebookEntry>, d: int, k: int)
    requires
        0 <= k,
    ensures
        0 <= d < 4 ==> 0 <= component_sum(c, d, k) <= 255 * k,
        -128 * k <= component_sum(c, d, k),
        d >= 4 ==> component_sum(c, d, k) <= 127 * k,
    decreases k,
{
    if k > 0 {
        component_sum_bound(c, d, k - 1);
    }
}

proof fn quotient_range(a: int, lo: int, hi: int, n: int)
    requires
        n > 0,
        lo <= 0 <= hi,
        lo * n <= a <= hi * n,
    ensures
        lo <= toward_zero(a, n) <= hi,
{
    if a < 0 {
        assert(0 <= (-a) / n <= -lo) by (nonlinear_arith)
            requires
                n > 0,
                a < 0,
                lo * n <= a,
        ;
    } else {
        assert(0 <= a / n <= hi) by (nonlinear_arith)
            requires
                n > 0,
                0 <= a <= hi * n,
        ;
    }
}

/// The mean of a cluster lies within the range of its components.
pub proof fn mean_range(c: Seq<CodebookEntry>, d: int)
    requires
        c.len() > 0,
    ensures
        0 <= d < 4 ==> 0 <= mean(c, d) <= 255,
        4 <= d ==> -128 <= mean(c, d) <= 127,
{
    let n = c.len() as int;
    component_sum_bound(c, d, n);
    if 0 <= d < 4 {
        quotient_range(component_sum(c, d, n), 0, 255, n);
    }
    if 4 <= d {
        quotient_range(component_sum(c, d, n), -128, 127, n);
    }
}

fn quotient(a: i128, n: i128) -> (r: i128)
    requires
        n > 0,
        -0x10000000000000000000 <= a <= 0x10000000000000000000,
    ensures
        r == toward_zero(a as int, n as int),
{
    if a < 0 {
        let q: i128 = (-a) / n;
        assert(0 <= q <= -a) by (nonlinear_arith)
            requires
                q == (-a) as int / n as int,
                n > 0,
                a < 0,
        ;
        -q
    } else {
        a / n
    }
}

fn mean_of(c: &[CodebookEntry], d: usize) -> (r: i32)
    requires
        c@.len() > 0,
        d < 6,
    ensures
        r == mean(c@, d as int),
        d < 4 ==> 0 <= r <= 255,
        4 <= d ==> -128 <= r <= 127,
{
    let total: usize = c.len();
    let mut sum: i128 = 0;
    let mut i: usize = 0;
    while i < total
        invariant
            i <= total,
            total == c@.len(),
            sum == component_sum(c@, d as int, i as int),
            -128 * i <= sum <= 255 * i,
        decreases total - i,
    {
        sum = sum + dim_value(&c[i], d) as i128;
        i = i + 1;
    }
    proof {
        mean_range(c@, d as int);
    }
    quotient(sum, total as i128) as i32
}

/// The mean of the entries of a cluster, each component rounded toward zero.
pub fn centroid(mode: PixelMode, c: &[CodebookEntry]) -> (r: CodebookEntry)
    requires
        c@.len() > 0,
    ensures
        r == centre(mode, c@),
{
    let y0: u8 = mean_of(c, 0) as u8;
    let y1: u8 = mean_of(c, 1) as u8;
    let y2: u8 = mean_of(c, 2) as u8;
    let y3: u8 = mean_of(c, 3) as u8;
    match mode {
        PixelMode::Yuv12 => CodebookEntry {
            y0,
            y1,
            y2,
            y3,
            u: mean_of(c, 4) as i8,
            v: mean_of(c, 5) as i8,
        },
        PixelMode::Gray8 => CodebookEntry { y0, y1, y2, y3, u: 0, v: 0 },
    }
}

pub(crate) fn empty_clusters(n: usize) -> (r: Vec<Vec<CodebookEntry>>)
    ensures
        r@.len() == n,
        forall|i: int| 0 <= i < n ==> (#[trigger] r@[i])@ == Seq::<CodebookEntry>::empty(),
{
    let mut out: Vec<Vec<CodebookEntry>> = Vec::new();
    let mut i: usize = 0;
    while i < n
        invariant
            i <= n,
            out@.len() == i,
            forall|j: int| 0 <= j < i ==> (#[trigger] out@[j])@ == Seq::<CodebookEntry>::empty(),
        decreases n - i,
    {
        out.push(Vec::new());
        i = i + 1;
    }
    out
}

/// The clusters of the vectors, one for each of the first `n` entries.
pub(crate) fn clusters_of(m: Metric, vs: &[CodebookEntry], cb: &Codebook, n: usize) -> (r: Vec<
    Vec<CodebookEntry>,
>)
    requires
        1 <= n <= 256,
    ensures
        r@.len() == n,
        forall|i: int| 0 <= i < n ==> (#[trigger] r@[i])@ == cluster(m, vs@, cb@, n as int, i),
{
    let mut out = empty_clusters(n);
    let mut k: usize = 0;
    while k < vs.len()
        invariant
            1 <= n <= 256,
            k <= vs@.len(),
            out@.len() == n,
            forall|i: int|
                0 <= i < n ==> (#[trigger] out@[i])@ == members(
                    m,
                    vs@,
                    cb@,
                    n as int,
                    i,
                    k as int,
                ),
        decreases vs@.len() - k,
    {
        let (slot, _) = nearest(m, &vs[k], cb, n);
        out[slot as usize].push(vs[k]);
        k = k + 1;
    }
    out
}

/// A codebook whose first `n` entries are the means of their clusters. An
/// entry whose cluster is empty stays as it is.
pub open spec fn recentred(
    m: Metric,
    vs: Seq<CodebookEntry>,
    cb: Seq<CodebookEntry>,
    n: int,
) -> Seq<CodebookEntry> {
    Seq::new(
        256,
        |i: int|
            if i < n && cluster(m, vs, cb, n, i).len() > 0 {
                centre(m.mode, cluster(m, vs, cb, n, i))
            } else {
                cb[i]
            },
    )
}

/// How far the first `k` entries move, at most.
pub open spec fn largest_drift(
    m: Metric,
    vs: Seq<CodebookEntry>,
    cb: Seq<CodebookEntry>,
    n: int,
    k: int,
) -> int
    decreases k,
{
    if k <= 0 {
        0
    } else {
        let before = largest_drift(m, vs, cb, n, k - 1);
        if cluster(m, vs, cb, n, k - 1).len() > 0 && drift(
            m,
            cb[k - 1],
            centre(m.mode, cluster(m, vs, cb, n, k - 1)),
        ) > before {
            drift(m, cb[k - 1], centre(m.mode, cluster(m, vs, cb, n, k - 1)))
        } else {
            before
        }
    }
}

pub(crate) fn recentre(m: Metric, vs: &[CodebookEntry], cb: &Codebook, n: usize) -> (r: (
    Codebook,
    u32,
))
    requires
        1 <= n <= 256,
    ensures
        r.0@ == recentred(m, vs@, cb@, n as int),
        r.1 == largest_drift(m, vs@, cb@, n as int, n as int),
{
    let clusters = clusters_of(m, vs, cb, n);
    let mut out = cb.clone();
    let mut most: u32 = 0;
    let mut i: usize = 0;
    while i < n
        invariant
            1 <= n <= 256,
            i <= n,
            clusters@.len() == n,
            forall|j: int|
                0 <= j < n ==> (#[trigger] clusters@[j])@ == cluster(m, vs@, cb@, n as int, j),
            most == largest_drift(m, vs@, cb@, n as int, i as int),
            out@.len() == 256,
            cb@.len() == 256,
            forall|j: int| 0 <= j < i ==> out@[j] == recentred(m, vs@, cb@, n as int)[j],
            forall|j: int| i <= j < 256 ==> out@[j] == cb@[j],
        decreases n - i,
    {
        if clusters[i].len() > 0 {
            let c = centroid(m.mode, clusters[i].as_slice());
            let d: u32 = entry_l1_distance(m, &cb.entries[i], &c);
            if d > most {
                most = d;
            }
            out.entries[i] = c;
        }
        i = i + 1;
    }
    assert(out@ =~= recentred(m, vs@, cb@, n as int));
    (out, most)
}

/// The codebook after `iter` rounds of recentring at most. The rounds end
/// where no entry moves by more than `eps`.
pub open spec fn lloyd(
    m: Metric,
    vs: Seq<CodebookEntry>,
    cb: Seq<CodebookEntry>,
    n: int,
    iter: nat,
    eps: u32,
) -> Seq<CodebookEntry>
    decreases iter,
{
    if iter == 0 {
        cb
    } else {
        let next = recentred(m, vs, cb, n);
        if largest_drift(m, vs, cb, n, n) <= eps {
            next
        } else {
            lloyd(m, vs, next, n, (iter - 1) as nat, eps)
        }
    }
}

pub(crate) fn lloyd_rounds(
    m: Metric,
    vs: &[CodebookEntry],
    cb: Codebook,
    n: usize,
    iter: u8,
    eps: u32,
) -> (r: Codebook)
    requires
        1 <= n <= 256,
    ensures
        r@ == lloyd(m, vs@, cb@, n as int, iter as nat, eps),
{
    let mut out = cb;
    let mut left: u8 = iter;
    while left > 0
        invariant
            1 <= n <= 256,
            lloyd(m, vs@, cb@, n as int, iter as nat, eps) == lloyd(
                m,
                vs@,
                out@,
                n as int,
                left as nat,
                eps,
            ),
        decreases left,
    {
        let (next, most) = recentre(m, vs, &out, n);
        if most <= eps {
            return next;
        }
        out = next;
        left = left - 1;
    }
    out
}

/// An entry that no vector lies nearest to is kept by every round.
pub proof fn empty_cluster_kept(
    m: Metric,
    vs: Seq<CodebookEntry>,
    cb: Seq<CodebookEntry>,
    n: int,
    slot: int,
)
    requires
        0 <= slot < 256,
        slot >= n || cluster(m, vs, cb, n, slot).len() == 0,
    ensures
        recentred(m, vs, cb, n)[slot] == cb[slot],
{
}

/// Recentring keeps a codebook whole.
pub proof fn lloyd_len(
    m: Metric,
    vs: Seq<CodebookEntry>,
    cb: Seq<CodebookEntry>,
    n: int,
    iter: nat,
    eps: u32,
)
    requires
        cb.len() == 256,
    ensures
        lloyd(m, vs, cb, n, iter, eps).len() == 256,
    decreases iter,
{
    if iter > 0 {
        lloyd_len(m, vs, recentred(m, vs, cb, n), n, (iter - 1) as nat, eps);
    }
}

} // verus!
