//! What cutting vectors into clusters keeps.

use vstd::prelude::*;
use crate::clustering;
use crate::codebook::{CodebookEntry, PixelMode};
use crate::median;
use crate::quant::{self, Metric};

verus! {

proof fn of_value_counted(c: Seq<CodebookEntry>, d: int, v: int, k: int, x: CodebookEntry)
    requires
        0 <= k <= c.len(),
    ensures
        clustering::times(median::of_value(c, d, v, k), x, 0) == if quant::component(x, d) == v {
            clustering::times(c, x, 0) - clustering::times(c, x, k)
        } else {
            0
        },
    decreases k,
{
    if k > 0 {
        of_value_counted(c, d, v, k - 1, x);
        clustering::times_of_pushed(median::of_value(c, d, v, k - 1), c[k - 1], x);
    }
}

proof fn ordered_below_counted(c: Seq<CodebookEntry>, d: int, v: int, x: CodebookEntry)
    requires
        -128 <= v,
    ensures
        clustering::times(median::ordered_below(c, d, v), x, 0) == if quant::component(x, d) < v {
            clustering::times(c, x, 0)
        } else {
            0
        },
    decreases v + 128,
{
    if v > -128 {
        ordered_below_counted(c, d, v - 1, x);
        of_value_counted(c, d, v - 1, c.len() as int, x);
        clustering::times_of_joined(
            median::ordered_below(c, d, v - 1),
            median::of_value(c, d, v - 1, c.len() as int),
            x,
            0,
        );
    }
}

/// Ordering a cluster keeps every entry as often as it holds it.
pub proof fn ordered_is_rearranged(c: Seq<CodebookEntry>, d: int, x: CodebookEntry)
    ensures
        clustering::times(median::ordered(c, d), x, 0) == clustering::times(c, x, 0),
{
    ordered_below_counted(c, d, 256, x);
}

/// The entries from `i` on whose component `d` is `v`, in their order.
pub open spec fn having(c: Seq<CodebookEntry>, d: int, v: int, i: int) -> Seq<CodebookEntry>
    decreases c.len() - i,
{
    if i < 0 || i >= c.len() {
        Seq::empty()
    } else if quant::component(c[i], d) == v {
        seq![c[i]] + having(c, d, v, i + 1)
    } else {
        having(c, d, v, i + 1)
    }
}

proof fn having_from_end(c: Seq<CodebookEntry>, e: CodebookEntry, d: int, v: int, i: int)
    requires
        0 <= i <= c.len(),
    ensures
        having(c.push(e), d, v, i) == if quant::component(e, d) == v {
            having(c, d, v, i).push(e)
        } else {
            having(c, d, v, i)
        },
    decreases c.len() - i,
{
    let s = c.push(e);
    if i < c.len() {
        having_from_end(c, e, d, v, i + 1);
        assert(s[i] == c[i]);
        if quant::component(c[i], d) == v {
            assert(seq![c[i]] + having(c, d, v, i + 1).push(e) =~= (seq![c[i]] + having(c, d, v, i + 1)).push(e));
        }
    } else {
        assert(having(s, d, v, i + 1) =~= Seq::empty());
        assert(having(c, d, v, i) =~= Seq::empty());
        assert(s[i] == e);
        assert(seq![e] + Seq::<CodebookEntry>::empty() =~= Seq::<CodebookEntry>::empty().push(e));
    }
}

proof fn of_value_is_having(c: Seq<CodebookEntry>, d: int, v: int, k: int)
    requires
        0 <= k <= c.len(),
    ensures
        median::of_value(c, d, v, k) == having(c.take(k), d, v, 0),
    decreases k,
{
    if k > 0 {
        of_value_is_having(c, d, v, k - 1);
        assert(c.take(k) =~= c.take(k - 1).push(c[k - 1]));
        having_from_end(c.take(k - 1), c[k - 1], d, v, 0);
    } else {
        assert(having(c.take(0), d, v, 0) =~= Seq::empty());
    }
}

proof fn having_of_joined(a: Seq<CodebookEntry>, b: Seq<CodebookEntry>, d: int, v: int)
    ensures
        having(a + b, d, v, 0) == having(a, d, v, 0) + having(b, d, v, 0),
    decreases b.len(),
{
    if b.len() == 0 {
        assert(a + b =~= a);
        assert(having(b, d, v, 0) =~= Seq::empty());
        assert(having(a, d, v, 0) + having(b, d, v, 0) =~= having(a, d, v, 0));
    } else {
        let r = b.drop_last();
        let e = b.last();
        having_of_joined(a, r, d, v);
        assert(a + b =~= (a + r).push(e));
        assert(b =~= r.push(e));
        having_from_end(a + r, e, d, v, 0);
        having_from_end(r, e, d, v, 0);
        if quant::component(e, d) == v {
            assert((having(a, d, v, 0) + having(r, d, v, 0)).push(e) =~= having(a, d, v, 0) + having(
                r,
                d,
                v,
                0,
            ).push(e));
        }
    }
}

proof fn having_of_same(c: Seq<CodebookEntry>, d: int, u: int, v: int, i: int)
    requires
        0 <= i <= c.len(),
        forall|j: int| 0 <= j < c.len() ==> quant::component(#[trigger] c[j], d) == u,
    ensures
        having(c, d, v, i) == if u == v {
            c.skip(i)
        } else {
            Seq::empty()
        },
    decreases c.len() - i,
{
    if i < c.len() {
        having_of_same(c, d, u, v, i + 1);
        if u == v {
            assert(seq![c[i]] + c.skip(i + 1) =~= c.skip(i));
        }
    } else {
        assert(c.skip(i) =~= Seq::empty());
    }
}

proof fn having_of_ordered(c: Seq<CodebookEntry>, d: int, v: int, top: int)
    requires
        -128 <= top,
    ensures
        having(median::ordered_below(c, d, top), d, v, 0) == if -128 <= v < top {
            having(c, d, v, 0)
        } else {
            Seq::empty()
        },
    decreases top + 128,
{
    if top > -128 {
        having_of_ordered(c, d, v, top - 1);
        let last = median::of_value(c, d, top - 1, c.len() as int);
        let before = median::ordered_below(c, d, top - 1);
        median::of_value_component(c, d, top - 1, c.len() as int);
        having_of_same(last, d, top - 1, v, 0);
        having_of_joined(before, last, d, v);
        assert(last.skip(0) =~= last);
        of_value_is_having(c, d, top - 1, c.len() as int);
        assert(c.take(c.len() as int) =~= c);
        let e = Seq::<CodebookEntry>::empty();
        assert(e + last =~= last);
        assert(having(c, d, v, 0) + e =~= having(c, d, v, 0));
        assert(e + e =~= e);
    } else {
        assert(having(median::ordered_below(c, d, top), d, v, 0) =~= Seq::empty());
    }
}

/// Ordering a cluster by a component keeps entries that have it in common in
/// their order.
pub proof fn equals_keep_their_order(c: Seq<CodebookEntry>, d: int, v: int)
    requires
        -128 <= v <= 255,
    ensures
        having(median::ordered(c, d), d, v, 0) == having(c, d, v, 0),
{
    having_of_ordered(c, d, v, 256);
}

/// The least and the greatest component of a cluster bound all its
/// components, and entries of it have them.
pub proof fn extent_is_reached(c: Seq<CodebookEntry>, d: int, k: int) -> (ends: (int, int))
    requires
        1 <= k <= c.len(),
    ensures
        forall|i: int|
            0 <= i < k ==> median::least(c, d, k) <= quant::component(#[trigger] c[i], d)
                <= median::greatest(c, d, k),
        0 <= ends.0 < k,
        0 <= ends.1 < k,
        quant::component(c[ends.0], d) == median::least(c, d, k),
        quant::component(c[ends.1], d) == median::greatest(c, d, k),
    decreases k,
{
    if k == 1 {
        (0, 0)
    } else {
        let e = extent_is_reached(c, d, k - 1);
        let v = quant::component(c[k - 1], d);
        (
            if v < median::least(c, d, k - 1) {
                k - 1
            } else {
                e.0
            },
            if v > median::greatest(c, d, k - 1) {
                k - 1
            } else {
                e.1
            },
        )
    }
}

/// How far apart two entries lie along component `d`, luma weighted where
/// there is chroma to weigh it against.
pub open spec fn gap(m: Metric, a: CodebookEntry, b: CodebookEntry, d: int) -> int {
    let x = quant::component(a, d) - quant::component(b, d);
    if d < 4 && m.mode == PixelMode::Yuv12 && m.luma_weight > 1 {
        x * m.luma_weight
    } else {
        x
    }
}

/// The components that count: of gray the lumas, else all.
pub open spec fn counted(m: Metric, d: int) -> bool {
    match m.mode {
        PixelMode::Yuv12 => 0 <= d < 6,
        PixelMode::Gray8 => 0 <= d < 4,
    }
}

proof fn gap_is_scored(m: Metric, c: Seq<CodebookEntry>, d: int, i: int, j: int)
    requires
        0 <= i < c.len(),
        0 <= j < c.len(),
        counted(m, d),
    ensures
        gap(m, c[i], c[j], d) <= median::score(m, c, d),
{
    let e = extent_is_reached(c, d, c.len() as int);
    let x = quant::component(c[i], d) - quant::component(c[j], d);
    let s = median::spread(c, d);
    let w = quant::weight(m);
    assert(x <= s);
    assert(x * w <= s * w) by (nonlinear_arith)
        requires
            x <= s,
            w >= 1,
    ;
    assert(w == 1 ==> x * w == x) by (nonlinear_arith);
}

proof fn score_is_gap(m: Metric, c: Seq<CodebookEntry>, d: int) -> (ends: (int, int))
    requires
        c.len() > 0,
        counted(m, d),
    ensures
        0 <= ends.0 < c.len(),
        0 <= ends.1 < c.len(),
        gap(m, c[ends.1], c[ends.0], d) == median::score(m, c, d),
{
    let e = extent_is_reached(c, d, c.len() as int);
    let x = quant::component(c[e.1], d) - quant::component(c[e.0], d);
    let w = quant::weight(m);
    assert(w == 1 ==> x * w == x) by (nonlinear_arith);
    e
}

proof fn best_dim_is_best(m: Metric, c: Seq<CodebookEntry>, i: int, k: int, b: median::Cut)
    requires
        0 <= k,
    ensures
        median::best_dim(m, c, i, k, b).score >= b.score,
        forall|d: int|
            0 <= d < k ==> #[trigger] median::score(m, c, d) <= median::best_dim(m, c, i, k, b).score,
        median::best_dim(m, c, i, k, b) == b || (median::best_dim(m, c, i, k, b).index == i && 0
            <= median::best_dim(m, c, i, k, b).dim < k && median::best_dim(m, c, i, k, b).score
            == median::score(m, c, median::best_dim(m, c, i, k, b).dim)
            && median::best_dim(m, c, i, k, b).score > b.score),
        median::best_dim(m, c, i, k, b) != b ==> forall|d: int|
            0 <= d < median::best_dim(m, c, i, k, b).dim ==> #[trigger] median::score(m, c, d)
                < median::best_dim(m, c, i, k, b).score,
    decreases k,
{
    if k > 0 {
        best_dim_is_best(m, c, i, k - 1, b);
    }
}

proof fn best_cut_is_best(m: Metric, cl: Seq<Seq<CodebookEntry>>, k: int)
    requires
        0 <= k <= cl.len(),
    ensures
        median::best_cut(m, cl, k).score >= 0,
        forall|i: int, d: int|
            0 <= i < k && cl[i].len() >= 2 && counted(m, d) ==> #[trigger] median::score(m, cl[i], d)
                <= median::best_cut(m, cl, k).score,
        median::best_cut(m, cl, k).score > 0 ==> {
            let b = median::best_cut(m, cl, k);
            &&& 0 <= b.index < k
            &&& cl[b.index].len() >= 2
            &&& counted(m, b.dim)
            &&& b.score == median::score(m, cl[b.index], b.dim)
            &&& forall|i: int, d: int|
                0 <= i < k && cl[i].len() >= 2 && counted(m, d) && (i < b.index || (i == b.index && d
                    < b.dim)) ==> #[trigger] median::score(m, cl[i], d) < b.score
        },
    decreases k,
{
    if k > 0 {
        best_cut_is_best(m, cl, k - 1);
        let before = median::best_cut(m, cl, k - 1);
        if cl[k - 1].len() >= 2 {
            best_dim_is_best(m, cl[k - 1], k - 1, median::dims(m.mode), before);
        }
    }
}

/// The cut found is the widest: no two entries of one cluster lie farther
/// apart along any component than two of the cluster to be cut do along the
/// component found, and none of an earlier cluster or component as far. Where
/// nothing is found, no two entries of one cluster lie apart.
pub proof fn widest_is_cut(
    m: Metric,
    cl: Seq<Seq<CodebookEntry>>,
    k: int,
    i: int,
    j: int,
    d: int,
) -> (ends: (int, int))
    requires
        0 <= k < cl.len(),
        0 <= i < cl[k].len(),
        0 <= j < cl[k].len(),
        counted(m, d),
    ensures
        ({
            let b = median::best_cut(m, cl, cl.len() as int);
            &&& b.score == 0 ==> gap(m, cl[k][i], cl[k][j], d) <= 0
            &&& b.score != 0 ==> {
                &&& 0 <= b.index < cl.len()
                &&& counted(m, b.dim)
                &&& 0 <= ends.0 < cl[b.index].len()
                &&& 0 <= ends.1 < cl[b.index].len()
                &&& gap(m, cl[b.index][ends.1], cl[b.index][ends.0], b.dim) > 0
                &&& gap(m, cl[k][i], cl[k][j], d) <= gap(
                    m,
                    cl[b.index][ends.1],
                    cl[b.index][ends.0],
                    b.dim,
                )
                &&& k < b.index || (k == b.index && d < b.dim) ==> gap(m, cl[k][i], cl[k][j], d) < gap(
                    m,
                    cl[b.index][ends.1],
                    cl[b.index][ends.0],
                    b.dim,
                )
            }
        }),
{
    let b = median::best_cut(m, cl, cl.len() as int);
    best_cut_is_best(m, cl, cl.len() as int);
    if cl[k].len() >= 2 {
        gap_is_scored(m, cl[k], d, i, j);
        assert(median::score(m, cl[k], d) <= b.score);
    } else {
        assert(i == j);
        assert(gap(m, cl[k][i], cl[k][j], d) == 0) by {
            assert(0 * m.luma_weight == 0);
        }
    }
    if b.score != 0 {
        score_is_gap(m, cl[b.index], b.dim)
    } else {
        (0, 0)
    }
}

/// A cut parts the cluster in the middle: one half has as many entries as the
/// other or one less, every entry is in one of them, and none of the first
/// half lies above one of the second.
pub proof fn cut_in_the_middle(
    m: Metric,
    cl: Seq<Seq<CodebookEntry>>,
    n: int,
    x: CodebookEntry,
    i: int,
    j: int,
)
    requires
        cl.len() < n,
        median::best_cut(m, cl, cl.len() as int).score != 0,
    ensures
        ({
            let b = median::best_cut(m, cl, cl.len() as int);
            let next = median::cut_clusters(m, cl, (cl.len() + 1) as int);
            let left = next[b.index];
            let right = next[cl.len() as int];
            &&& median::cut_clusters(m, cl, n) == median::cut_clusters(m, next, n)
            &&& next == cl.update(b.index, left).push(right)
            &&& left.len() <= right.len() <= left.len() + 1
            &&& left.len() + right.len() == cl[b.index].len()
            &&& clustering::times(left, x, 0) + clustering::times(right, x, 0) == clustering::times(
                cl[b.index],
                x,
                0,
            )
            &&& 0 <= i < left.len() && 0 <= j < right.len() ==> quant::component(left[i], b.dim)
                <= quant::component(right[j], b.dim)
        }),
{
    let b = median::best_cut(m, cl, cl.len() as int);
    best_cut_is_best(m, cl, cl.len() as int);
    let s = median::ordered(cl[b.index], b.dim);
    median::ordered_len(cl[b.index], b.dim);
    let mid = (s.len() / 2) as int;
    let left = s.subrange(0, mid);
    let right = s.subrange(mid, s.len() as int);
    let next = cl.update(b.index, left).push(right);
    assert(median::cut_clusters(m, next, (cl.len() + 1) as int) == next);
    assert(median::cut_clusters(m, cl, (cl.len() + 1) as int) == next);
    ordered_is_rearranged(cl[b.index], b.dim, x);
    assert(left + right =~= s);
    clustering::times_of_joined(left, right, x, 0);
    if 0 <= i < left.len() && 0 <= j < right.len() {
        median::ordered_ascends(cl[b.index], b.dim, i, mid + j);
    }
}

proof fn in_all_of_pushed(cl: Seq<Seq<CodebookEntry>>, c: Seq<CodebookEntry>, x: CodebookEntry, i: int)
    requires
        0 <= i <= cl.len(),
    ensures
        clustering::times_in_all(cl.push(c), x, i) == clustering::times_in_all(cl, x, i)
            + clustering::times(c, x, 0),
    decreases cl.len() - i,
{
    if i < cl.len() {
        in_all_of_pushed(cl, c, x, i + 1);
        assert(cl.push(c)[i] == cl[i]);
    } else {
        assert(clustering::times_in_all(cl.push(c), x, i + 1) == 0);
    }
}

proof fn in_all_of_updated(
    cl: Seq<Seq<CodebookEntry>>,
    at: int,
    c: Seq<CodebookEntry>,
    x: CodebookEntry,
    i: int,
)
    requires
        0 <= i <= cl.len(),
        0 <= at < cl.len(),
    ensures
        clustering::times_in_all(cl.update(at, c), x, i) == clustering::times_in_all(cl, x, i)
            + if i <= at {
            clustering::times(c, x, 0) - clustering::times(cl[at], x, 0)
        } else {
            0
        },
    decreases cl.len() - i,
{
    if i < cl.len() {
        in_all_of_updated(cl, at, c, x, i + 1);
    }
}

/// Cutting loses no vector and makes none up, leaves no cluster empty, and
/// makes no more clusters than asked for; it makes less only where no two
/// vectors of one cluster lie apart.
pub proof fn cutting_parts_vectors(m: Metric, cl: Seq<Seq<CodebookEntry>>, n: int, x: CodebookEntry)
    requires
        cl.len() <= n,
        forall|i: int| 0 <= i < cl.len() ==> (#[trigger] cl[i]).len() > 0,
    ensures
        ({
            let r = median::cut_clusters(m, cl, n);
            &&& cl.len() <= r.len() <= n
            &&& forall|i: int| 0 <= i < r.len() ==> (#[trigger] r[i]).len() > 0
            &&& clustering::times_in_all(r, x, 0) == clustering::times_in_all(cl, x, 0)
            &&& r.len() < n ==> forall|k: int, i: int, j: int, d: int|
                0 <= k < r.len() && 0 <= i < r[k].len() && 0 <= j < r[k].len() && counted(m, d)
                    ==> #[trigger] gap(m, r[k][i], r[k][j], d) <= 0
        }),
    decreases n - cl.len(),
{
    let b = median::best_cut(m, cl, cl.len() as int);
    if cl.len() < n {
        if b.score == 0 {
            assert forall|k: int, i: int, j: int, d: int|
                0 <= k < cl.len() && 0 <= i < cl[k].len() && 0 <= j < cl[k].len() && counted(m, d)
                implies #[trigger] gap(m, cl[k][i], cl[k][j], d) <= 0 by {
                let e = widest_is_cut(m, cl, k, i, j, d);
            }
        } else {
            best_cut_is_best(m, cl, cl.len() as int);
            cut_in_the_middle(m, cl, n, x, 0, 0);
            let next = median::cut_clusters(m, cl, (cl.len() + 1) as int);
            let left = next[b.index];
            let right = next[cl.len() as int];
            assert(next == cl.update(b.index, left).push(right));
            in_all_of_updated(cl, b.index, left, x, 0);
            in_all_of_pushed(cl.update(b.index, left), right, x, 0);
            assert forall|i: int| 0 <= i < next.len() implies (#[trigger] next[i]).len() > 0 by {
                if i < cl.len() && i != b.index {
                    assert(next[i] == cl[i]);
                }
            }
            cutting_parts_vectors(m, next, n, x);
        }
    }
}

/// The codebook of cutting has the mean of each cluster.
pub proof fn cut_entries_are_means(m: Metric, vs: Seq<CodebookEntry>, n: int, i: int)
    requires
        vs.len() > 0,
        0 < n <= 256,
        0 <= i < median::cut_clusters(m, seq![vs], n).len(),
    ensures
        clustering::stands_for_all(
            m.mode,
            median::cut_codebook(m, vs, n)[i],
            median::cut_clusters(m, seq![vs], n)[i],
        ),
{
    cutting_parts_vectors(m, seq![vs], n, vs[0]);
    clustering::centre_is_mean(m.mode, median::cut_clusters(m, seq![vs], n)[i]);
}

} // verus!
