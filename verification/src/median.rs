//! Codebooks made by cutting the widest cluster in two, again and again.

use vstd::prelude::*;
use crate::codebook::{self, Codebook, CodebookEntry, PixelMode};
use crate::quant::{self, centroid, dim_value, empty_clusters, luma_factor, Metric};

verus! {

/// Number of components that count.
pub open spec fn dims(mode: PixelMode) -> int {
    match mode {
        PixelMode::Yuv12 => 6,
        PixelMode::Gray8 => 4,
    }
}

pub(crate) fn dim_count(mode: PixelMode) -> (r: usize)
    ensures
        r == dims(mode),
        4 <= r <= 6,
{
    match mode {
        PixelMode::Yuv12 => 6,
        PixelMode::Gray8 => 4,
    }
}

/// The least component `d` among the first `k` entries.
pub open spec fn least(c: Seq<CodebookEntry>, d: int, k: int) -> int
    decreases k,
{
    if k <= 1 {
        quant::component(c[0], d)
    } else if quant::component(c[k - 1], d) < least(c, d, k - 1) {
        quant::component(c[k - 1], d)
    } else {
        least(c, d, k - 1)
    }
}

/// The greatest component `d` among the first `k` entries.
pub open spec fn greatest(c: Seq<CodebookEntry>, d: int, k: int) -> int
    decreases k,
{
    if k <= 1 {
        quant::component(c[0], d)
    } else if quant::component(c[k - 1], d) > greatest(c, d, k - 1) {
        quant::component(c[k - 1], d)
    } else {
        greatest(c, d, k - 1)
    }
}

/// How far component `d` spreads in a cluster.
pub open spec fn spread(c: Seq<CodebookEntry>, d: int) -> int {
    greatest(c, d, c.len() as int) - least(c, d, c.len() as int)
}

/// The least and the greatest component `d` of a cluster; without entries,
/// the ends of the range of numbers, the greatest first.
pub fn extent(c: &[CodebookEntry], d: usize) -> (r: (i32, i32))
    ensures
        c@.len() == 0 ==> r == (i32::MAX, i32::MIN),
        c@.len() > 0 ==> {
            &&& r.0 == least(c@, d as int, c@.len() as int)
            &&& r.1 == greatest(c@, d as int, c@.len() as int)
            &&& -128 <= r.0 <= 255
            &&& -128 <= r.1 <= 255
            &&& 0 <= r.1 - r.0 <= 255
        },
{
    if c.len() == 0 {
        return (i32::MAX, i32::MIN);
    }
    let mut lo: i32 = dim_value(&c[0], d);
    let mut hi: i32 = lo;
    let mut i: usize = 1;
    while i < c.len()
        invariant
            1 <= i <= c@.len(),
            lo == least(c@, d as int, i as int),
            hi == greatest(c@, d as int, i as int),
            -128 <= lo <= hi <= 255,
            d < 4 ==> 0 <= lo,
            d >= 4 ==> hi <= 127,
        decreases c@.len() - i,
    {
        let v: i32 = dim_value(&c[i], d);
        if v < lo {
            lo = v;
        }
        if v > hi {
            hi = v;
        }
        i = i + 1;
    }
    (lo, hi)
}

/// How far component `d` spreads, with luma weighted.
pub open spec fn score(m: Metric, c: Seq<CodebookEntry>, d: int) -> int {
    if d < 4 {
        spread(c, d) * quant::weight(m)
    } else {
        spread(c, d)
    }
}

/// Where to cut: the score, the cluster, and the component.
pub struct Cut {
    pub score: int,
    pub index: int,
    pub dim: int,
}

/// The better of `b` and the best cut of cluster `i` along its first `k`
/// components; the first among equals.
pub open spec fn best_dim(m: Metric, c: Seq<CodebookEntry>, i: int, k: int, b: Cut) -> Cut
    decreases k,
{
    if k <= 0 {
        b
    } else {
        let before = best_dim(m, c, i, k - 1, b);
        if score(m, c, k - 1) > before.score {
            Cut { score: score(m, c, k - 1), index: i, dim: k - 1 }
        } else {
            before
        }
    }
}

/// The best cut among the first `k` clusters; the first among equals. The
/// score is zero where no cluster can be cut.
pub open spec fn best_cut(m: Metric, cl: Seq<Seq<CodebookEntry>>, k: int) -> Cut
    decreases k,
{
    if k <= 0 {
        Cut { score: 0, index: 0, dim: 0 }
    } else {
        let before = best_cut(m, cl, k - 1);
        if cl[k - 1].len() < 2 {
            before
        } else {
            best_dim(m, cl[k - 1], k - 1, dims(m.mode), before)
        }
    }
}

/// The entries among the first `k` whose component `d` is `v`.
pub open spec fn of_value(c: Seq<CodebookEntry>, d: int, v: int, k: int) -> Seq<CodebookEntry>
    decreases k,
{
    if k <= 0 {
        Seq::empty()
    } else if quant::component(c[k - 1], d) == v {
        of_value(c, d, v, k - 1).push(c[k - 1])
    } else {
        of_value(c, d, v, k - 1)
    }
}

/// The entries whose component `d` is below `v`, in ascending order of that
/// component; equals stay in their order.
pub open spec fn ordered_below(c: Seq<CodebookEntry>, d: int, v: int) -> Seq<CodebookEntry>
    decreases v + 128,
{
    if v <= -128 {
        Seq::empty()
    } else {
        ordered_below(c, d, v - 1) + of_value(c, d, v - 1, c.len() as int)
    }
}

/// A cluster in ascending order of component `d`; equals stay in their
/// order.
pub open spec fn ordered(c: Seq<CodebookEntry>, d: int) -> Seq<CodebookEntry> {
    ordered_below(c, d, 256)
}

/// The number of entries among the first `k` whose component `d` is below
/// `v`.
spec fn count_below(c: Seq<CodebookEntry>, d: int, v: int, k: int) -> int
    decreases k,
{
    if k <= 0 {
        0
    } else {
        count_below(c, d, v, k - 1) + if quant::component(c[k - 1], d) < v {
            1int
        } else {
            0int
        }
    }
}

proof fn count_step(c: Seq<CodebookEntry>, d: int, v: int, k: int)
    ensures
        count_below(c, d, v, k) + of_value(c, d, v, k).len() == count_below(c, d, v + 1, k),
    decreases k,
{
    if k > 0 {
        count_step(c, d, v, k - 1);
    }
}

proof fn count_none(c: Seq<CodebookEntry>, d: int, k: int)
    ensures
        count_below(c, d, -128, k) == 0,
    decreases k,
{
    if k > 0 {
        count_none(c, d, k - 1);
    }
}

proof fn count_all(c: Seq<CodebookEntry>, d: int, k: int)
    requires
        0 <= k,
    ensures
        count_below(c, d, 256, k) == k,
    decreases k,
{
    if k > 0 {
        count_all(c, d, k - 1);
    }
}

proof fn ordered_below_len(c: Seq<CodebookEntry>, d: int, v: int)
    requires
        -128 <= v,
    ensures
        ordered_below(c, d, v).len() == count_below(c, d, v, c.len() as int),
    decreases v + 128,
{
    if v <= -128 {
        count_none(c, d, c.len() as int);
    } else {
        ordered_below_len(c, d, v - 1);
        count_step(c, d, v - 1, c.len() as int);
    }
}

/// Ordering a cluster keeps its size.
pub proof fn ordered_len(c: Seq<CodebookEntry>, d: int)
    ensures
        ordered(c, d).len() == c.len(),
{
    ordered_below_len(c, d, 256);
    count_all(c, d, c.len() as int);
}

pub(crate) proof fn of_value_component(c: Seq<CodebookEntry>, d: int, v: int, k: int)
    ensures
        forall|i: int|
            0 <= i < of_value(c, d, v, k).len() ==> quant::component(#[trigger] of_value(c, d, v, k)[i], d)
                == v,
    decreases k,
{
    if k > 0 {
        of_value_component(c, d, v, k - 1);
        let before = of_value(c, d, v, k - 1);
        let s = of_value(c, d, v, k);
        assert forall|i: int| 0 <= i < s.len() implies quant::component(#[trigger] s[i], d) == v by {
            if i < before.len() {
                assert(s[i] == before[i]);
            }
        }
    }
}

proof fn ordered_below_sorted(c: Seq<CodebookEntry>, d: int, v: int)
    ensures
        forall|i: int|
            0 <= i < ordered_below(c, d, v).len() ==> quant::component(
                #[trigger] ordered_below(c, d, v)[i],
                d,
            ) < v,
        forall|i: int, j: int|
            0 <= i <= j < ordered_below(c, d, v).len() ==> quant::component(
                #[trigger] ordered_below(c, d, v)[i],
                d,
            ) <= quant::component(#[trigger] ordered_below(c, d, v)[j], d),
    decreases v + 128,
{
    if v > -128 {
        ordered_below_sorted(c, d, v - 1);
        of_value_component(c, d, v - 1, c.len() as int);
        let before = ordered_below(c, d, v - 1);
        let last = of_value(c, d, v - 1, c.len() as int);
        let s = ordered_below(c, d, v);
        assert forall|i: int| 0 <= i < s.len() implies if i < before.len() {
            s[i] == before[i] && quant::component(s[i], d) < v - 1
        } else {
            s[i] == last[i - before.len()] && quant::component(#[trigger] s[i], d) == v - 1
        } by {}
        assert forall|i: int, j: int| 0 <= i <= j < s.len() implies quant::component(#[trigger] s[i], d)
            <= quant::component(#[trigger] s[j], d) by {
            if j < before.len() {
                assert(quant::component(before[i], d) <= quant::component(before[j], d));
            }
        }
    }
}

/// An ordered cluster ascends.
pub proof fn ordered_ascends(c: Seq<CodebookEntry>, d: int, i: int, j: int)
    requires
        0 <= i <= j < c.len(),
    ensures
        quant::component(ordered(c, d)[i], d) <= quant::component(ordered(c, d)[j], d),
{
    ordered_len(c, d);
    ordered_below_sorted(c, d, 256);
}

fn order_by(c: &[CodebookEntry], d: usize) -> (r: Vec<CodebookEntry>)
    ensures
        r@ == ordered(c@, d as int),
        r@.len() == c@.len(),
{
    let mut buckets = empty_clusters(384);
    let mut k: usize = 0;
    while k < c.len()
        invariant
            k <= c@.len(),
            buckets@.len() == 384,
            forall|i: int|
                0 <= i < 384 ==> (#[trigger] buckets@[i])@ == of_value(
                    c@,
                    d as int,
                    i - 128,
                    k as int,
                ),
        decreases c@.len() - k,
    {
        let b: usize = (dim_value(&c[k], d) + 128) as usize;
        buckets[b].push(c[k]);
        k = k + 1;
    }
    let mut out: Vec<CodebookEntry> = Vec::new();
    let mut i: usize = 0;
    while i < 384
        invariant
            i <= 384,
            buckets@.len() == 384,
            forall|j: int|
                0 <= j < 384 ==> (#[trigger] buckets@[j])@ == of_value(
                    c@,
                    d as int,
                    j - 128,
                    c@.len() as int,
                ),
            out@ == ordered_below(c@, d as int, i - 128),
        decreases 384 - i,
    {
        append_all(&mut out, &buckets[i]);
        i = i + 1;
    }
    proof {
        ordered_len(c@, d as int);
    }
    out
}

fn append_all(out: &mut Vec<CodebookEntry>, v: &Vec<CodebookEntry>)
    ensures
        final(out)@ == old(out)@ + v@,
{
    let ghost before = out@;
    let mut i: usize = 0;
    while i < v.len()
        invariant
            i <= v@.len(),
            out@ == before + v@.subrange(0, i as int),
        decreases v@.len() - i,
    {
        out.push(v[i]);
        i = i + 1;
        assert(out@ =~= before + v@.subrange(0, i as int));
    }
    assert(v@.subrange(0, v@.len() as int) =~= v@);
}

/// The clusters after cutting until there are `n`, or none can be cut. Each
/// cut parts a cluster in the middle, along its best component.
pub open spec fn cut_clusters(m: Metric, cl: Seq<Seq<CodebookEntry>>, n: int) -> Seq<
    Seq<CodebookEntry>,
>
    decreases n - cl.len(),
    via cut_clusters_end
{
    if cl.len() >= n {
        cl
    } else {
        let b = best_cut(m, cl, cl.len() as int);
        if b.score == 0 {
            cl
        } else {
            let s = ordered(cl[b.index], b.dim);
            let mid = s.len() / 2;
            cut_clusters(
                m,
                cl.update(b.index, s.subrange(0, mid as int)).push(
                    s.subrange(mid as int, s.len() as int),
                ),
                n,
            )
        }
    }
}

#[via_fn]
proof fn cut_clusters_end(m: Metric, cl: Seq<Seq<CodebookEntry>>, n: int) {
    best_cut_range(m, cl, cl.len() as int);
}

/// The codebook whose entries are the means of the clusters.
pub open spec fn centres(mode: PixelMode, cl: Seq<Seq<CodebookEntry>>) -> Seq<CodebookEntry> {
    Seq::new(
        256,
        |i: int|
            if i < cl.len() && cl[i].len() > 0 {
                quant::centre(mode, cl[i])
            } else {
                codebook::zero_codebook()[i]
            },
    )
}

/// The codebook of up to `n` entries that cutting makes of the vectors.
pub open spec fn cut_codebook(m: Metric, vs: Seq<CodebookEntry>, n: int) -> Seq<CodebookEntry> {
    if vs.len() == 0 || n == 0 {
        codebook::zero_codebook()
    } else {
        centres(m.mode, cut_clusters(m, seq![vs], n))
    }
}

proof fn best_dim_range(m: Metric, c: Seq<CodebookEntry>, i: int, k: int, b: Cut)
    requires
        b.score >= 0,
    ensures
        best_dim(m, c, i, k, b).score >= b.score,
        best_dim(m, c, i, k, b) != b ==> best_dim(m, c, i, k, b).index == i && 0 <= best_dim(
            m,
            c,
            i,
            k,
            b,
        ).dim < k,
    decreases k,
{
    if k > 0 {
        best_dim_range(m, c, i, k - 1, b);
    }
}

proof fn best_cut_range(m: Metric, cl: Seq<Seq<CodebookEntry>>, k: int)
    requires
        0 <= k <= cl.len(),
    ensures
        best_cut(m, cl, k).score >= 0,
        best_cut(m, cl, k).score > 0 ==> 0 <= best_cut(m, cl, k).index < k && cl[best_cut(
            m,
            cl,
            k,
        ).index].len() >= 2 && 0 <= best_cut(m, cl, k).dim < dims(m.mode),
    decreases k,
{
    if k > 0 {
        best_cut_range(m, cl, k - 1);
        if cl[k - 1].len() >= 2 {
            best_dim_range(m, cl[k - 1], k - 1, dims(m.mode), best_cut(m, cl, k - 1));
        }
    }
}

/// The sequences behind a list of clusters.
pub open spec fn views(cl: Seq<Vec<CodebookEntry>>) -> Seq<Seq<CodebookEntry>> {
    Seq::new(cl.len(), |i: int| cl[i]@)
}

fn find_cut(m: Metric, cl: &Vec<Vec<CodebookEntry>>) -> (r: (i64, usize, usize))
    ensures
        (Cut { score: r.0 as int, index: r.1 as int, dim: r.2 as int }) == best_cut(
            m,
            views(cl@),
            cl@.len() as int,
        ),
        r.0 >= 0,
        r.0 > 0 ==> r.1 < cl@.len() && cl@[r.1 as int]@.len() >= 2 && r.2 < 6,
{
    let w: i64 = luma_factor(m);
    let n: usize = dim_count(m.mode);
    let ghost v = views(cl@);
    let mut best: i64 = 0;
    let mut index: usize = 0;
    let mut dim: usize = 0;
    let mut i: usize = 0;
    while i < cl.len()
        invariant
            i <= cl@.len(),
            v == views(cl@),
            w == quant::weight(m),
            1 <= w <= 255,
            n == dims(m.mode),
            0 <= best <= 65025,
            (Cut { score: best as int, index: index as int, dim: dim as int }) == best_cut(
                m,
                v,
                i as int,
            ),
        decreases cl@.len() - i,
    {
        let ghost b = best_cut(m, v, i as int);
        if cl[i].len() >= 2 {
            let mut d: usize = 0;
            while d < n
                invariant
                    i < cl@.len(),
                    v == views(cl@),
                    cl@[i as int]@.len() >= 2,
                    d <= n,
                    w == quant::weight(m),
                    1 <= w <= 255,
                    n == dims(m.mode),
                    0 <= best <= 65025,
                    (Cut { score: best as int, index: index as int, dim: dim as int }) == best_dim(
                        m,
                        v[i as int],
                        i as int,
                        d as int,
                        b,
                    ),
                decreases n - d,
            {
                let (lo, hi) = extent(cl[i].as_slice(), d);
                let ext: i64 = hi as i64 - lo as i64;
                assert(0 <= ext * w <= 65025) by (nonlinear_arith)
                    requires
                        0 <= ext <= 255,
                        1 <= w <= 255,
                ;
                let s: i64 = if d < 4 {
                    ext * w
                } else {
                    ext
                };
                if s > best {
                    best = s;
                    index = i;
                    dim = d;
                }
                d = d + 1;
            }
        }
        i = i + 1;
    }
    proof {
        best_cut_range(m, v, cl@.len() as int);
    }
    (best, index, dim)
}

fn halves(s: &Vec<CodebookEntry>) -> (r: (Vec<CodebookEntry>, Vec<CodebookEntry>))
    ensures
        r.0@ == s@.subrange(0, (s@.len() / 2) as int),
        r.1@ == s@.subrange((s@.len() / 2) as int, s@.len() as int),
{
    let mid: usize = s.len() / 2;
    let mut left: Vec<CodebookEntry> = Vec::new();
    let mut right: Vec<CodebookEntry> = Vec::new();
    let mut i: usize = 0;
    while i < mid
        invariant
            i <= mid <= s@.len(),
            left@ == s@.subrange(0, i as int),
        decreases mid - i,
    {
        left.push(s[i]);
        i = i + 1;
        assert(left@ =~= s@.subrange(0, i as int));
    }
    while i < s.len()
        invariant
            mid <= i <= s@.len(),
            right@ == s@.subrange(mid as int, i as int),
        decreases s@.len() - i,
    {
        right.push(s[i]);
        i = i + 1;
        assert(right@ =~= s@.subrange(mid as int, i as int));
    }
    (left, right)
}

pub(crate) fn copy_entries(s: &[CodebookEntry]) -> (r: Vec<CodebookEntry>)
    ensures
        r@ == s@,
{
    let mut out: Vec<CodebookEntry> = Vec::new();
    let mut i: usize = 0;
    while i < s.len()
        invariant
            i <= s@.len(),
            out@ == s@.subrange(0, i as int),
        decreases s@.len() - i,
    {
        out.push(s[i]);
        i = i + 1;
        assert(out@ =~= s@.subrange(0, i as int));
    }
    assert(out@ =~= s@);
    out
}

fn cut_all(m: Metric, vs: &[CodebookEntry], n: usize) -> (r: Vec<Vec<CodebookEntry>>)
    requires
        1 <= n,
    ensures
        views(r@) == cut_clusters(m, seq![vs@], n as int),
        1 <= r@.len() <= n,
{
    let mut cl: Vec<Vec<CodebookEntry>> = Vec::new();
    cl.push(copy_entries(vs));
    assert(views(cl@) =~= seq![vs@]);
    while cl.len() < n
        invariant
            1 <= cl@.len() <= n,
            cut_clusters(m, views(cl@), n as int) == cut_clusters(m, seq![vs@], n as int),
        decreases n - cl@.len(),
    {
        let (s, index, dim) = find_cut(m, &cl);
        if s == 0 {
            return cl;
        }
        let ghost before = views(cl@);
        let sorted = order_by(cl[index].as_slice(), dim);
        let (left, right) = halves(&sorted);
        cl.set(index, left);
        cl.push(right);
        assert(views(cl@) =~= before.update(index as int, left@).push(right@));
    }
    cl
}

/// Makes a codebook of up to `n` entries by cutting the vectors into
/// clusters and taking their means.
pub fn median_cut(m: Metric, vs: &[CodebookEntry], n: usize) -> (r: Codebook)
    requires
        n <= 256,
    ensures
        r@ == cut_codebook(m, vs@, n as int),
{
    let mut cb = Codebook::default();
    if vs.len() == 0 || n == 0 {
        return cb;
    }
    let cl = cut_all(m, vs, n);
    let ghost v = views(cl@);
    let mut i: usize = 0;
    while i < cl.len()
        invariant
            i <= cl@.len() <= 256,
            v == views(cl@),
            cb@.len() == 256,
            forall|j: int| 0 <= j < i ==> cb@[j] == centres(m.mode, v)[j],
            forall|j: int| i <= j < 256 ==> cb@[j] == codebook::zero_codebook()[j],
        decreases cl@.len() - i,
    {
        if cl[i].len() > 0 {
            cb.entries[i] = centroid(m.mode, cl[i].as_slice());
        }
        i = i + 1;
    }
    assert(cb@ =~= centres(m.mode, v));
    cb
}

} // verus!
