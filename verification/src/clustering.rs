//! What clusters of vectors and their means keep.

use vstd::prelude::*;
use crate::codebook::{CodebookEntry, PixelMode};
use crate::quant::{self, Metric};

verus! {

/// How often `x` occurs among the entries from `i` on.
pub open spec fn times(c: Seq<CodebookEntry>, x: CodebookEntry, i: int) -> int
    decreases c.len() - i,
{
    if i < 0 || i >= c.len() {
        0
    } else {
        times(c, x, i + 1) + if c[i] == x {
            1int
        } else {
            0int
        }
    }
}

/// How often `x` occurs in the clusters from `i` on.
pub open spec fn times_in_all(cl: Seq<Seq<CodebookEntry>>, x: CodebookEntry, i: int) -> int
    decreases cl.len() - i,
{
    if i < 0 || i >= cl.len() {
        0
    } else {
        times(cl[i], x, 0) + times_in_all(cl, x, i + 1)
    }
}

pub(crate) proof fn times_of_joined(a: Seq<CodebookEntry>, b: Seq<CodebookEntry>, x: CodebookEntry, i: int)
    requires
        0 <= i <= a.len(),
    ensures
        times(a + b, x, i) == times(a, x, i) + times(b, x, 0),
    decreases a.len() - i,
{
    if i < a.len() {
        times_of_joined(a, b, x, i + 1);
        assert((a + b)[i] == a[i]);
    } else {
        times_of_later(a, b, x, 0);
    }
}

proof fn times_of_later(a: Seq<CodebookEntry>, b: Seq<CodebookEntry>, x: CodebookEntry, j: int)
    requires
        0 <= j <= b.len(),
    ensures
        times(a + b, x, a.len() + j) == times(b, x, j),
    decreases b.len() - j,
{
    if j < b.len() {
        times_of_later(a, b, x, j + 1);
        assert((a + b)[a.len() + j] == b[j]);
    }
}

pub(crate) proof fn times_of_pushed(a: Seq<CodebookEntry>, e: CodebookEntry, x: CodebookEntry)
    ensures
        times(a.push(e), x, 0) == times(a, x, 0) + if e == x {
            1int
        } else {
            0int
        },
{
    assert(a.push(e) =~= a + seq![e]);
    times_of_joined(a, seq![e], x, 0);
    assert(times(seq![e], x, 1) == 0);
}

/// The components are the four lumas and the two chromas.
pub proof fn components_are_fields(e: CodebookEntry)
    ensures
        quant::component(e, 0) == e.y0,
        quant::component(e, 1) == e.y1,
        quant::component(e, 2) == e.y2,
        quant::component(e, 3) == e.y3,
        quant::component(e, 4) == e.u,
        quant::component(e, 5) == e.v,
{
}

/// The drift of an entry is how far its components move, luma weighted; a
/// weight of zero counts as one, and gray knows neither weight nor chroma.
pub proof fn drift_parts(m: Metric, a: CodebookEntry, b: CodebookEntry)
    ensures
        ({
            let l = quant::magnitude(a.y0 - b.y0) + quant::magnitude(a.y1 - b.y1) + quant::magnitude(
                a.y2 - b.y2,
            ) + quant::magnitude(a.y3 - b.y3);
            let c = quant::magnitude(a.u - b.u) + quant::magnitude(a.v - b.v);
            &&& m.mode == PixelMode::Gray8 ==> quant::drift(m, a, b) == l
            &&& m.mode == PixelMode::Yuv12 && m.luma_weight == 0 ==> quant::drift(m, a, b) == l + c
            &&& m.mode == PixelMode::Yuv12 && m.luma_weight > 0 ==> quant::drift(m, a, b)
                == m.luma_weight * l + c
        }),
{
    reveal(quant::drift);
    let l = quant::magnitude(a.y0 - b.y0) + quant::magnitude(a.y1 - b.y1) + quant::magnitude(
        a.y2 - b.y2,
    ) + quant::magnitude(a.y3 - b.y3);
    assert(1 * l == l) by (nonlinear_arith);
}

/// The sum of component `d` over the entries from `i` on, where component 0
/// to 3 are the lumas and 4 and 5 the chromas.
pub open spec fn summed(c: Seq<CodebookEntry>, d: int, i: int) -> int
    decreases c.len() - i,
{
    if i < 0 || i >= c.len() {
        0
    } else {
        summed(c, d, i + 1) + if d == 0 {
            c[i].y0 as int
        } else if d == 1 {
            c[i].y1 as int
        } else if d == 2 {
            c[i].y2 as int
        } else if d == 3 {
            c[i].y3 as int
        } else if d == 4 {
            c[i].u as int
        } else {
            c[i].v as int
        }
    }
}

proof fn summed_both_ways(c: Seq<CodebookEntry>, d: int, k: int)
    requires
        0 <= k <= c.len(),
        0 <= d < 6,
    ensures
        summed(c, d, 0) == quant::component_sum(c, d, k) + summed(c, d, k),
    decreases k,
{
    if k > 0 {
        summed_both_ways(c, d, k - 1);
    }
}

/// Whether `x` is the mean of `n` numbers with the given sum, rounded toward
/// zero.
pub open spec fn is_mean(x: int, sum: int, n: int) -> bool {
    &&& sum >= 0 ==> n * x <= sum < n * x + n
    &&& sum <= 0 ==> n * x - n < sum <= n * x
}

proof fn quotient_is_mean(sum: int, n: int)
    requires
        n > 0,
    ensures
        is_mean(quant::toward_zero(sum, n), sum, n),
{
    let x = quant::toward_zero(sum, n);
    if sum < 0 {
        let q = (-sum) / n;
        assert(n * q <= -sum < n * q + n) by (nonlinear_arith)
            requires
                q == (-sum) / n,
                n > 0,
        ;
        assert(n * (-q) == -(n * q)) by (nonlinear_arith);
    } else {
        assert(n * x <= sum < n * x + n) by (nonlinear_arith)
            requires
                x == sum / n,
                n > 0,
        ;
        if sum == 0 {
            assert(n * x == 0) by (nonlinear_arith)
                requires
                    x == 0int / n,
                    n > 0,
            ;
        }
    }
}

/// Whether an entry is the mean of a cluster, component by component; of
/// gray ones, with no chroma.
pub open spec fn stands_for_all(mode: PixelMode, e: CodebookEntry, c: Seq<CodebookEntry>) -> bool {
    let n = c.len() as int;
    &&& is_mean(e.y0 as int, summed(c, 0, 0), n)
    &&& is_mean(e.y1 as int, summed(c, 1, 0), n)
    &&& is_mean(e.y2 as int, summed(c, 2, 0), n)
    &&& is_mean(e.y3 as int, summed(c, 3, 0), n)
    &&& mode == PixelMode::Yuv12 ==> is_mean(e.u as int, summed(c, 4, 0), n) && is_mean(
        e.v as int,
        summed(c, 5, 0),
        n,
    )
    &&& mode == PixelMode::Gray8 ==> e.u == 0 && e.v == 0
}

/// The centre of a cluster is its mean.
pub proof fn centre_is_mean(mode: PixelMode, c: Seq<CodebookEntry>)
    requires
        c.len() > 0,
    ensures
        stands_for_all(mode, quant::centre(mode, c), c),
{
    let n = c.len() as int;
    assert forall|d: int| 0 <= d < 6 implies is_mean(#[trigger] quant::mean(c, d), summed(c, d, 0), n)
        && (d < 4 ==> 0 <= quant::mean(c, d) <= 255) && (4 <= d ==> -128 <= quant::mean(c, d)
        <= 127) by {
        summed_both_ways(c, d, n);
        quotient_is_mean(quant::component_sum(c, d, n), n);
        quant::mean_range(c, d);
    }
    assert(is_mean(quant::mean(c, 0), summed(c, 0, 0), n));
    assert(is_mean(quant::mean(c, 1), summed(c, 1, 0), n));
    assert(is_mean(quant::mean(c, 2), summed(c, 2, 0), n));
    assert(is_mean(quant::mean(c, 3), summed(c, 3, 0), n));
    assert(is_mean(quant::mean(c, 4), summed(c, 4, 0), n));
    assert(is_mean(quant::mean(c, 5), summed(c, 5, 0), n));
}

proof fn members_counted(
    m: Metric,
    vs: Seq<CodebookEntry>,
    cb: Seq<CodebookEntry>,
    n: int,
    slot: int,
    k: int,
    x: CodebookEntry,
)
    requires
        0 <= k <= vs.len(),
    ensures
        times(quant::members(m, vs, cb, n, slot, k), x, 0) == if quant::nearest_slot(m, x, cb, n)
            == slot {
            times(vs, x, 0) - times(vs, x, k)
        } else {
            0
        },
    decreases k,
{
    if k > 0 {
        members_counted(m, vs, cb, n, slot, k - 1, x);
        times_of_pushed(quant::members(m, vs, cb, n, slot, k - 1), vs[k - 1], x);
    }
}

/// A cluster holds a vector as often as there is one where its entry is the
/// first of the nearest ones, and not at all where it is not.
pub proof fn cluster_holds_nearest(
    m: Metric,
    vs: Seq<CodebookEntry>,
    cb: Seq<CodebookEntry>,
    n: int,
    slot: int,
    x: CodebookEntry,
)
    requires
        0 <= slot < n,
    ensures
        (forall|j: int|
            0 <= j < n ==> quant::distance(m, x, cb[slot]) <= #[trigger] quant::distance(m, x, cb[j]))
            && (forall|j: int|
            0 <= j < slot ==> quant::distance(m, x, cb[slot]) < #[trigger] quant::distance(
                m,
                x,
                cb[j],
            )) ==> times(quant::cluster(m, vs, cb, n, slot), x, 0) == times(vs, x, 0),
        (exists|j: int|
            0 <= j < n && #[trigger] quant::distance(m, x, cb[j]) < quant::distance(m, x, cb[slot]))
            || (exists|j: int|
            0 <= j < slot && #[trigger] quant::distance(m, x, cb[j]) <= quant::distance(
                m,
                x,
                cb[slot],
            )) ==> times(quant::cluster(m, vs, cb, n, slot), x, 0) == 0,
{
    members_counted(m, vs, cb, n, slot, vs.len() as int, x);
    quant::nearest_is_least(m, x, cb, n);
    let s = quant::nearest_slot(m, x, cb, n);
    assert(quant::distance(m, x, cb[s]) <= quant::distance(m, x, cb[slot]));
    if s < slot {
        assert(quant::distance(m, x, cb[s]) <= quant::distance(m, x, cb[slot]));
    } else if slot < s {
        assert(quant::distance(m, x, cb[s]) < quant::distance(m, x, cb[slot]));
    }
}

/// Recentring makes an entry the mean of its cluster, and keeps it where the
/// cluster is empty.
pub proof fn recentred_entry_is_mean(
    m: Metric,
    vs: Seq<CodebookEntry>,
    cb: Seq<CodebookEntry>,
    n: int,
    slot: int,
)
    requires
        0 <= slot < 256,
    ensures
        slot < n && quant::cluster(m, vs, cb, n, slot).len() > 0 ==> stands_for_all(
            m.mode,
            quant::recentred(m, vs, cb, n)[slot],
            quant::cluster(m, vs, cb, n, slot),
        ),
        slot >= n || quant::cluster(m, vs, cb, n, slot).len() == 0 ==> quant::recentred(
            m,
            vs,
            cb,
            n,
        )[slot] == cb[slot],
{
    if slot < n && quant::cluster(m, vs, cb, n, slot).len() > 0 {
        centre_is_mean(m.mode, quant::cluster(m, vs, cb, n, slot));
    }
}

/// A codebook recentred `k` times.
pub open spec fn recentred_often(
    m: Metric,
    vs: Seq<CodebookEntry>,
    cb: Seq<CodebookEntry>,
    n: int,
    k: nat,
) -> Seq<CodebookEntry>
    decreases k,
{
    if k == 0 {
        cb
    } else {
        quant::recentred(m, vs, recentred_often(m, vs, cb, n, (k - 1) as nat), n)
    }
}

/// Whether no entry among the first `n` moves by more than `eps`.
pub open spec fn settled(
    m: Metric,
    a: Seq<CodebookEntry>,
    b: Seq<CodebookEntry>,
    n: int,
    eps: u32,
) -> bool {
    forall|i: int| 0 <= i < n ==> quant::drift(m, #[trigger] a[i], b[i]) <= eps
}

proof fn drift_self(m: Metric, a: CodebookEntry)
    ensures
        quant::drift(m, a, a) == 0,
{
    reveal(quant::drift);
    assert(quant::weight(m) * 0 == 0);
}

proof fn drift_is_largest(
    m: Metric,
    vs: Seq<CodebookEntry>,
    cb: Seq<CodebookEntry>,
    n: int,
    k: int,
    eps: u32,
)
    requires
        0 <= k <= n <= 256,
    ensures
        quant::largest_drift(m, vs, cb, n, k) >= 0,
        quant::largest_drift(m, vs, cb, n, k) <= eps <==> (forall|i: int|
            0 <= i < k ==> quant::drift(m, #[trigger] cb[i], quant::recentred(m, vs, cb, n)[i])
                <= eps),
    decreases k,
{
    if k > 0 {
        drift_is_largest(m, vs, cb, n, k - 1, eps);
        let next = quant::recentred(m, vs, cb, n);
        drift_self(m, cb[k - 1]);
        let d = quant::drift(m, cb[k - 1], next[k - 1]);
        let before = quant::largest_drift(m, vs, cb, n, k - 1);
        if before <= eps && d <= eps {
            assert forall|i: int| 0 <= i < k implies quant::drift(m, #[trigger] cb[i], next[i])
                <= eps by {
                if i == k - 1 {
                } else {
                    assert(quant::drift(m, cb[i], next[i]) <= eps);
                }
            }
        }
    }
}

/// Rounds of recentring go on until no entry moves by more than `eps`, or
/// all the rounds are used: the codebook found is that of some number of
/// rounds, before the last of which none was settled.
pub proof fn rounds_until_settled(
    m: Metric,
    vs: Seq<CodebookEntry>,
    cb: Seq<CodebookEntry>,
    n: int,
    iter: nat,
    eps: u32,
) -> (k: nat)
    requires
        0 <= n <= 256,
        iter > 0,
    ensures
        1 <= k <= iter,
        quant::lloyd(m, vs, cb, n, iter, eps) == recentred_often(m, vs, cb, n, k),
        k < iter ==> settled(
            m,
            recentred_often(m, vs, cb, n, (k - 1) as nat),
            recentred_often(m, vs, cb, n, k),
            n,
            eps,
        ),
        forall|j: nat|
            1 <= j < k ==> !settled(
                m,
                recentred_often(m, vs, cb, n, (j - 1) as nat),
                #[trigger] recentred_often(m, vs, cb, n, j),
                n,
                eps,
            ),
{
    rounds_from(m, vs, cb, n, 0, iter, eps)
}

proof fn rounds_from(
    m: Metric,
    vs: Seq<CodebookEntry>,
    cb: Seq<CodebookEntry>,
    n: int,
    done: nat,
    iter: nat,
    eps: u32,
) -> (k: nat)
    requires
        0 <= n <= 256,
        iter > 0,
    ensures
        done + 1 <= k <= done + iter,
        quant::lloyd(m, vs, recentred_often(m, vs, cb, n, done), n, iter, eps) == recentred_often(
            m,
            vs,
            cb,
            n,
            k,
        ),
        k < done + iter ==> settled(
            m,
            recentred_often(m, vs, cb, n, (k - 1) as nat),
            recentred_often(m, vs, cb, n, k),
            n,
            eps,
        ),
        forall|j: nat|
            done + 1 <= j < k ==> !settled(
                m,
                recentred_often(m, vs, cb, n, (j - 1) as nat),
                #[trigger] recentred_often(m, vs, cb, n, j),
                n,
                eps,
            ),
    decreases iter,
{
    let at = recentred_often(m, vs, cb, n, done);
    let next = recentred_often(m, vs, cb, n, done + 1);
    assert(next == quant::recentred(m, vs, at, n));
    drift_is_largest(m, vs, at, n, n, eps);
    if quant::largest_drift(m, vs, at, n, n) <= eps {
        assert(settled(m, at, next, n, eps));
        done + 1
    } else {
        assert(!settled(m, at, next, n, eps));
        if iter == 1 {
            assert(quant::lloyd(m, vs, next, n, 0, eps) == next);
            done + 1
        } else {
            let k = rounds_from(m, vs, cb, n, done + 1, (iter - 1) as nat, eps);
            assert forall|j: nat| done + 1 <= j < k implies !settled(
                m,
                recentred_often(m, vs, cb, n, (j - 1) as nat),
                #[trigger] recentred_often(m, vs, cb, n, j),
                n,
                eps,
            ) by {
                if j == done + 1 {
                    assert((j - 1) as nat == done);
                }
            }
            k
        }
    }
}

/// The distances of the first `k` vectors to the entries that they are
/// assigned to, added up.
pub open spec fn assigned_sum(
    m: Metric,
    vs: Seq<CodebookEntry>,
    cb: Seq<CodebookEntry>,
    to: Seq<int>,
    k: int,
) -> int
    decreases k,
{
    if k <= 0 {
        0
    } else {
        assigned_sum(m, vs, cb, to, k - 1) + quant::distance(m, vs[k - 1], cb[to[k - 1]])
    }
}

/// The error of a codebook is the least that assigning each vector to an
/// entry can give.
pub proof fn error_is_least_assigned(
    m: Metric,
    vs: Seq<CodebookEntry>,
    cb: Seq<CodebookEntry>,
    n: int,
    to: Seq<int>,
    k: int,
)
    requires
        1 <= n,
        0 <= k <= to.len(),
        forall|i: int| 0 <= i < k ==> 0 <= #[trigger] to[i] < n,
    ensures
        0 <= quant::error_sum(m, vs, cb, n, k) <= assigned_sum(m, vs, cb, to, k),
        (forall|i: int, j: int|
            0 <= i < k && 0 <= j < n ==> quant::distance(m, vs[i], cb[#[trigger] to[i]])
                <= quant::distance(m, vs[i], #[trigger] cb[j])) ==> quant::error_sum(m, vs, cb, n, k)
            == assigned_sum(m, vs, cb, to, k),
    decreases k,
{
    if k > 0 {
        error_is_least_assigned(m, vs, cb, n, to, k - 1);
        quant::nearest_is_least(m, vs[k - 1], cb, n);
        quant::distance_bound(m, vs[k - 1], cb[quant::nearest_slot(m, vs[k - 1], cb, n)]);
        let s = quant::nearest_slot(m, vs[k - 1], cb, n);
        let t = to[k - 1];
        assert(quant::distance(m, vs[k - 1], cb[s]) <= quant::distance(m, vs[k - 1], cb[t]));
        if forall|i: int, j: int|
            0 <= i < k && 0 <= j < n ==> quant::distance(m, vs[i], cb[#[trigger] to[i]])
                <= quant::distance(m, vs[i], #[trigger] cb[j]) {
            assert(quant::distance(m, vs[k - 1], cb[to[k - 1]]) <= quant::distance(
                m,
                vs[k - 1],
                cb[s],
            ));
        }
    }
}

} // verus!
