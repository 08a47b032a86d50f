//! Which entry of a codebook is split, and which gives way.

use vstd::prelude::*;
use crate::codebook::CodebookEntry;
use crate::cutting;
use crate::median;
use crate::quant::{self, Metric};
use crate::seeding;
use crate::training::{self, Training};

verus! {

/// The distances of all members of the clusters before `k` to their entries,
/// added up.
pub open spec fn cluster_errors(
    m: Metric,
    vs: Seq<CodebookEntry>,
    cb: Seq<CodebookEntry>,
    n: int,
    k: int,
) -> int
    decreases k,
{
    if k <= 0 {
        0
    } else {
        let c = quant::cluster(m, vs, cb, n, k - 1);
        cluster_errors(m, vs, cb, n, k - 1) + training::distance_sum(m, c, cb[k - 1], c.len() as int)
    }
}

spec fn member_errors(
    m: Metric,
    vs: Seq<CodebookEntry>,
    cb: Seq<CodebookEntry>,
    n: int,
    k: int,
    upto: int,
) -> int
    decreases k,
{
    if k <= 0 {
        0
    } else {
        let c = quant::members(m, vs, cb, n, k - 1, upto);
        member_errors(m, vs, cb, n, k - 1, upto) + training::distance_sum(
            m,
            c,
            cb[k - 1],
            c.len() as int,
        )
    }
}

proof fn sum_of_prefix(m: Metric, a: Seq<CodebookEntry>, b: Seq<CodebookEntry>, e: CodebookEntry, k: int)
    requires
        0 <= k <= a.len(),
        k <= b.len(),
        forall|i: int| 0 <= i < k ==> a[i] == b[i],
    ensures
        training::distance_sum(m, a, e, k) == training::distance_sum(m, b, e, k),
    decreases k,
{
    if k > 0 {
        sum_of_prefix(m, a, b, e, k - 1);
    }
}

proof fn one_more_member(
    m: Metric,
    vs: Seq<CodebookEntry>,
    cb: Seq<CodebookEntry>,
    n: int,
    k: int,
    upto: int,
)
    requires
        0 < upto <= vs.len(),
        0 <= k,
    ensures
        member_errors(m, vs, cb, n, k, upto) == member_errors(m, vs, cb, n, k, upto - 1) + if 0
            <= quant::nearest_slot(m, vs[upto - 1], cb, n) < k {
            quant::nearest_error(m, vs[upto - 1], cb, n)
        } else {
            0
        },
    decreases k,
{
    if k > 0 {
        one_more_member(m, vs, cb, n, k - 1, upto);
        let a = quant::members(m, vs, cb, n, k - 1, upto - 1);
        let b = quant::members(m, vs, cb, n, k - 1, upto);
        if quant::nearest_slot(m, vs[upto - 1], cb, n) == k - 1 {
            assert(b == a.push(vs[upto - 1]));
            sum_of_prefix(m, a, b, cb[k - 1], a.len() as int);
            assert(b[a.len() as int] == vs[upto - 1]);
        }
    }
}

proof fn member_errors_add_up(
    m: Metric,
    vs: Seq<CodebookEntry>,
    cb: Seq<CodebookEntry>,
    n: int,
    upto: int,
)
    requires
        0 <= upto <= vs.len(),
        1 <= n,
    ensures
        member_errors(m, vs, cb, n, n, upto) == quant::error_sum(m, vs, cb, n, upto),
    decreases upto,
{
    if upto > 0 {
        member_errors_add_up(m, vs, cb, n, upto - 1);
        one_more_member(m, vs, cb, n, n, upto);
        quant::nearest_is_least(m, vs[upto - 1], cb, n);
    } else {
        no_members(m, vs, cb, n, n);
    }
}

proof fn no_members(m: Metric, vs: Seq<CodebookEntry>, cb: Seq<CodebookEntry>, n: int, k: int)
    ensures
        member_errors(m, vs, cb, n, k, 0) == 0,
    decreases k,
{
    if k > 0 {
        no_members(m, vs, cb, n, k - 1);
    }
}

proof fn all_members(m: Metric, vs: Seq<CodebookEntry>, cb: Seq<CodebookEntry>, n: int, k: int)
    ensures
        member_errors(m, vs, cb, n, k, vs.len() as int) == cluster_errors(m, vs, cb, n, k),
    decreases k,
{
    if k > 0 {
        all_members(m, vs, cb, n, k - 1);
    }
}

/// The errors of the clusters add up to the error of the codebook.
pub proof fn cluster_errors_add_up(m: Metric, vs: Seq<CodebookEntry>, cb: Seq<CodebookEntry>, n: int)
    requires
        1 <= n,
    ensures
        cluster_errors(m, vs, cb, n, n) == quant::error_sum(m, vs, cb, n, vs.len() as int),
{
    member_errors_add_up(m, vs, cb, n, vs.len() as int);
    all_members(m, vs, cb, n, n);
}

/// The entry to be split has two members at least, and no other such entry
/// stands worse for its own, nor an earlier one as badly; there is none only
/// where no entry has two.
pub proof fn worst_is_split(
    m: Metric,
    vs: Seq<CodebookEntry>,
    cb: Seq<CodebookEntry>,
    n: int,
    k: int,
)
    requires
        0 <= k,
    ensures
        ({
            let w = training::worst_slot(m, vs, cb, n, k);
            &&& -1 <= w < k
            &&& w >= 0 ==> quant::cluster(m, vs, cb, n, w).len() >= 2
            &&& forall|i: int|
                0 <= i < k && (#[trigger] quant::cluster(m, vs, cb, n, i)).len() >= 2 ==> w >= 0
                    && training::slot_error(m, vs, cb, n, i) <= training::slot_error(m, vs, cb, n, w)
                    && (i < w ==> training::slot_error(m, vs, cb, n, i) < training::slot_error(
                    m,
                    vs,
                    cb,
                    n,
                    w,
                ))
        }),
    decreases k,
{
    if k > 0 {
        worst_is_split(m, vs, cb, n, k - 1);
    }
}

/// The entry that gives way is another one, and none but the split one has
/// fewer members, or as many and less error, and no earlier one as much.
pub proof fn least_useful_gives_way(
    m: Metric,
    vs: Seq<CodebookEntry>,
    cb: Seq<CodebookEntry>,
    n: int,
    skip: int,
    k: int,
)
    requires
        0 <= k,
    ensures
        ({
            let s = training::spare_slot(m, vs, cb, n, skip, k);
            &&& -1 <= s < k
            &&& s >= 0 ==> s != skip
            &&& forall|i: int|
                0 <= i < k && i != skip ==> {
                    let c = (#[trigger] quant::cluster(m, vs, cb, n, i)).len();
                    let least = quant::cluster(m, vs, cb, n, s).len();
                    &&& s >= 0
                    &&& least <= c
                    &&& c == least ==> training::slot_error(m, vs, cb, n, s) <= training::slot_error(
                        m,
                        vs,
                        cb,
                        n,
                        i,
                    )
                    &&& i < s && c == least ==> training::slot_error(m, vs, cb, n, s)
                        < training::slot_error(m, vs, cb, n, i)
                }
        }),
    decreases k,
{
    if k > 0 {
        least_useful_gives_way(m, vs, cb, n, skip, k - 1);
    }
}

proof fn widest_spread(c: Seq<CodebookEntry>, k: int)
    requires
        1 <= k,
    ensures
        0 <= training::widest(c, k) < k,
        forall|d: int|
            0 <= d < k ==> #[trigger] median::spread(c, d) <= median::spread(
                c,
                training::widest(c, k),
            ),
        forall|d: int|
            0 <= d < training::widest(c, k) ==> #[trigger] median::spread(c, d) < median::spread(
                c,
                training::widest(c, k),
            ),
    decreases k,
{
    if k > 1 {
        widest_spread(c, k - 1);
    }
}

/// A cluster is split along the component in which two of its members lie
/// farthest apart, the first such one.
pub proof fn split_along_widest(m: Metric, c: Seq<CodebookEntry>, d: int, i: int, j: int) -> (ends: (
    int,
    int,
))
    requires
        0 <= i < c.len(),
        0 <= j < c.len(),
        cutting::counted(m, d),
    ensures
        cutting::counted(m, training::widest(c, median::dims(m.mode))),
        0 <= ends.0 < c.len(),
        0 <= ends.1 < c.len(),
        quant::component(c[i], d) - quant::component(c[j], d) <= quant::component(
            c[ends.1],
            training::widest(c, median::dims(m.mode)),
        ) - quant::component(c[ends.0], training::widest(c, median::dims(m.mode))),
        d < training::widest(c, median::dims(m.mode)) ==> quant::component(c[i], d)
            - quant::component(c[j], d) < quant::component(
            c[ends.1],
            training::widest(c, median::dims(m.mode)),
        ) - quant::component(c[ends.0], training::widest(c, median::dims(m.mode))),
{
    let w = training::widest(c, median::dims(m.mode));
    widest_spread(c, median::dims(m.mode));
    let a = cutting::extent_is_reached(c, d, c.len() as int);
    let b = cutting::extent_is_reached(c, w, c.len() as int);
    assert(median::spread(c, d) <= median::spread(c, w));
    b
}

/// The two parts of a split entry: one is the entry itself, the other takes
/// the place of the one that gives way and lies one above it in the given
/// component, or equals it where that is at its largest. No other entry
/// changes.
pub proof fn parts_lie_one_apart(cb: Seq<CodebookEntry>, worst: int, spare: int, d: int, i: int)
    requires
        0 <= worst < cb.len(),
        0 <= spare < cb.len(),
        worst != spare,
        0 <= d < 6,
        0 <= i < 6,
    ensures
        ({
            let r = training::parted(cb, worst, spare, d);
            let whole = quant::component(cb[worst], d);
            let most = if d < 4 {
                255int
            } else {
                127int
            };
            &&& r.len() == cb.len()
            &&& forall|k: int| 0 <= k < cb.len() && k != spare ==> #[trigger] r[k] == cb[k]
            &&& i != d ==> quant::component(r[spare], i) == quant::component(cb[worst], i)
            &&& whole < most ==> quant::component(r[spare], d) == whole + 1
            &&& whole == most ==> quant::component(r[spare], d) == most
        }),
{
}

/// A split that is kept makes the codebook better, and one is kept only for
/// an entry that stands worse for its members than the one that gives way.
pub proof fn kept_split_is_better(m: Metric, vs: Seq<CodebookEntry>, cb: Seq<CodebookEntry>, n: int)
    requires
        1 <= n,
    ensures
        training::split_once(m, vs, cb, n) matches Some(next) ==> {
            let w = training::worst_slot(m, vs, cb, n, n);
            let s = training::spare_slot(m, vs, cb, n, w, n);
            &&& quant::total_error(m, vs, next, n) < quant::total_error(m, vs, cb, n)
            &&& 0 <= w < n
            &&& 0 <= s < n
            &&& training::slot_error(m, vs, cb, n, s) < training::slot_error(m, vs, cb, n, w)
        },
{
    worst_is_split(m, vs, cb, n, n);
    least_useful_gives_way(m, vs, cb, n, training::worst_slot(m, vs, cb, n, n), n);
}

/// Where drawing is asked for, the codebook is no worse than the drawn one
/// either.
pub proof fn drawn_one_is_tried(t: Training, m: Metric, vs: Seq<CodebookEntry>, n: int)
    requires
        t.lloyd_max_iter > 0,
        t.kmeans_pp_init,
        n >= 2,
        vs.len() > 0,
    ensures
        quant::total_error(m, vs, training::trained(t, m, vs, n, None), n) <= quant::total_error(
            m,
            vs,
            seeding::seeded_codebook(m, vs, n, t.kmeans_pp_lloyd_iter as nat, t.lloyd_eps),
            n,
        ),
{
}

} // verus!
