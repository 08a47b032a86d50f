//! How a codebook is made and improved.

use vstd::prelude::*;
use crate::codebook::{Codebook, CodebookEntry};
use crate::median::{self, dim_count, extent, median_cut};
use crate::quant::{
    self, clusters_of, codebook_total_sse, entry_distance, limited_add, lloyd_rounds, recentre,
    Metric,
};
use crate::seeding::{self, kmeans_pp_init_cold};

verus! {

/// The sum of the distances of the first `k` entries of `c` to `e`.
pub open spec fn distance_sum(m: Metric, c: Seq<CodebookEntry>, e: CodebookEntry, k: int) -> int
    decreases k,
{
    if k <= 0 {
        0
    } else {
        distance_sum(m, c, e, k - 1) + quant::distance(m, c[k - 1], e)
    }
}

/// How badly entry `i` stands for its own cluster.
pub open spec fn slot_error(
    m: Metric,
    vs: Seq<CodebookEntry>,
    cb: Seq<CodebookEntry>,
    n: int,
    i: int,
) -> i64 {
    let c = quant::cluster(m, vs, cb, n, i);
    quant::limited(distance_sum(m, c, cb[i], c.len() as int))
}

/// The entry among the first `k` that stands worst for its cluster, of those
/// with two members or more; the first such one, or minus one.
pub open spec fn worst_slot(
    m: Metric,
    vs: Seq<CodebookEntry>,
    cb: Seq<CodebookEntry>,
    n: int,
    k: int,
) -> int
    decreases k,
{
    if k <= 0 {
        -1
    } else {
        let b = worst_slot(m, vs, cb, n, k - 1);
        if quant::cluster(m, vs, cb, n, k - 1).len() >= 2 && (b < 0 || slot_error(m, vs, cb, n, k - 1)
            > slot_error(m, vs, cb, n, b)) {
            k - 1
        } else {
            b
        }
    }
}

/// Whether entry `i` is less useful than entry `j`: fewer members, or as
/// many and less error.
pub open spec fn less_useful(
    m: Metric,
    vs: Seq<CodebookEntry>,
    cb: Seq<CodebookEntry>,
    n: int,
    i: int,
    j: int,
) -> bool {
    let a = quant::cluster(m, vs, cb, n, i).len();
    let b = quant::cluster(m, vs, cb, n, j).len();
    a < b || (a == b && slot_error(m, vs, cb, n, i) < slot_error(m, vs, cb, n, j))
}

/// The least useful entry among the first `k`, apart from `skip`; the first
/// such one, or minus one.
pub open spec fn spare_slot(
    m: Metric,
    vs: Seq<CodebookEntry>,
    cb: Seq<CodebookEntry>,
    n: int,
    skip: int,
    k: int,
) -> int
    decreases k,
{
    if k <= 0 {
        -1
    } else {
        let b = spare_slot(m, vs, cb, n, skip, k - 1);
        if k - 1 != skip && (b < 0 || less_useful(m, vs, cb, n, k - 1, b)) {
            k - 1
        } else {
            b
        }
    }
}

/// The component among the first `k` along which a cluster spreads most; the
/// first such one.
pub open spec fn widest(c: Seq<CodebookEntry>, k: int) -> int
    decreases k,
{
    if k <= 1 {
        0
    } else {
        let b = widest(c, k - 1);
        if median::spread(c, k - 1) > median::spread(c, b) {
            k - 1
        } else {
            b
        }
    }
}

/// A luma moved by `by`, kept in range.
pub open spec fn moved_luma(v: u8, by: int) -> u8 {
    if v + by < 0 {
        0
    } else if v + by > 255 {
        255
    } else {
        (v + by) as u8
    }
}

/// A chroma moved by `by`, kept in range.
pub open spec fn moved_chroma(v: i8, by: int) -> i8 {
    if v + by < -128 {
        -128i8
    } else if v + by > 127 {
        127
    } else {
        (v + by) as i8
    }
}

/// An entry with component `d` moved by `by`, kept in range.
pub open spec fn nudged(e: CodebookEntry, d: int, by: int) -> CodebookEntry {
    if d == 0 {
        CodebookEntry { y0: moved_luma(e.y0, by), ..e }
    } else if d == 1 {
        CodebookEntry { y1: moved_luma(e.y1, by), ..e }
    } else if d == 2 {
        CodebookEntry { y2: moved_luma(e.y2, by), ..e }
    } else if d == 3 {
        CodebookEntry { y3: moved_luma(e.y3, by), ..e }
    } else if d == 4 {
        CodebookEntry { u: moved_chroma(e.u, by), ..e }
    } else if d == 5 {
        CodebookEntry { v: moved_chroma(e.v, by), ..e }
    } else {
        e
    }
}

/// The codebook with the worst entry split in two along the widest component
/// of its cluster: it stays in its place, and a copy moved by one takes the
/// place of the spare entry.
pub open spec fn parted(cb: Seq<CodebookEntry>, worst: int, spare: int, d: int) -> Seq<
    CodebookEntry,
> {
    cb.update(spare, nudged(cb[worst], d, 1))
}

/// The codebook after one split and one recentring, where that makes it
/// better.
pub open spec fn split_once(
    m: Metric,
    vs: Seq<CodebookEntry>,
    cb: Seq<CodebookEntry>,
    n: int,
) -> Option<Seq<CodebookEntry>> {
    let worst = worst_slot(m, vs, cb, n, n);
    let spare = spare_slot(m, vs, cb, n, worst, n);
    let c = quant::cluster(m, vs, cb, n, worst);
    let d = widest(c, median::dims(m.mode));
    let next = quant::recentred(m, vs, parted(cb, worst, spare, d), n);
    if worst < 0 || spare < 0 || slot_error(m, vs, cb, n, spare) >= slot_error(m, vs, cb, n, worst)
        || median::spread(c, d) <= 0 || quant::total_error(m, vs, next, n) >= quant::total_error(m, vs, cb, n) {
        None
    } else {
        Some(next)
    }
}

/// The codebook after up to `passes` splits that each make it better.
pub open spec fn split_codebook(
    m: Metric,
    vs: Seq<CodebookEntry>,
    cb: Seq<CodebookEntry>,
    n: int,
    passes: nat,
) -> Seq<CodebookEntry>
    decreases passes,
{
    if passes == 0 || n <= 1 || vs.len() == 0 {
        cb
    } else {
        match split_once(m, vs, cb, n) {
            None => cb,
            Some(next) => split_codebook(m, vs, next, n, (passes - 1) as nat),
        }
    }
}

/// Splitting never makes a codebook worse.
pub proof fn splitting_never_worse(
    m: Metric,
    vs: Seq<CodebookEntry>,
    cb: Seq<CodebookEntry>,
    n: int,
    passes: nat,
)
    ensures
        quant::total_error(m, vs, split_codebook(m, vs, cb, n, passes), n) <= quant::total_error(m, vs, cb, n),
    decreases passes,
{
    if passes > 0 && n > 1 && vs.len() > 0 {
        if let Some(next) = split_once(m, vs, cb, n) {
            splitting_never_worse(m, vs, next, n, (passes - 1) as nat);
        }
    }
}

proof fn distance_sum_positive(m: Metric, c: Seq<CodebookEntry>, e: CodebookEntry, k: int)
    ensures
        distance_sum(m, c, e, k) >= 0,
    decreases k,
{
    if k > 0 {
        distance_sum_positive(m, c, e, k - 1);
        quant::distance_bound(m, c[k - 1], e);
    }
}

fn cluster_error(m: Metric, c: &[CodebookEntry], e: &CodebookEntry) -> (r: i64)
    ensures
        r == quant::limited(distance_sum(m, c@, *e, c@.len() as int)),
        r >= 0,
{
    let mut sum: i64 = 0;
    let mut i: usize = 0;
    while i < c.len()
        invariant
            i <= c@.len(),
            sum == quant::limited(distance_sum(m, c@, *e, i as int)),
        decreases c@.len() - i,
    {
        proof {
            distance_sum_positive(m, c@, *e, i as int);
        }
        let d: i64 = entry_distance(m, &c[i], e);
        sum = limited_add(sum, d, Ghost(distance_sum(m, c@, *e, i as int)));
        i = i + 1;
    }
    proof {
        distance_sum_positive(m, c@, *e, i as int);
    }
    sum
}

fn find_worst(
    m: Metric,
    cl: &Vec<Vec<CodebookEntry>>,
    errors: &Vec<i64>,
    Ghost(vs): Ghost<Seq<CodebookEntry>>,
    Ghost(cb): Ghost<Seq<CodebookEntry>>,
) -> (r: Option<usize>)
    requires
        errors@.len() == cl@.len(),
        forall|i: int|
            0 <= i < cl@.len() ==> (#[trigger] cl@[i])@ == quant::cluster(
                m,
                vs,
                cb,
                cl@.len() as int,
                i,
            ),
        forall|i: int|
            0 <= i < cl@.len() ==> #[trigger] errors@[i] == slot_error(
                m,
                vs,
                cb,
                cl@.len() as int,
                i,
            ),
    ensures
        match r {
            Some(i) => i < cl@.len() && i == worst_slot(
                m,
                vs,
                cb,
                cl@.len() as int,
                cl@.len() as int,
            ) && cl@[i as int]@.len() >= 2,
            None => worst_slot(m, vs, cb, cl@.len() as int, cl@.len() as int) < 0,
        },
{
    let mut best: Option<usize> = None;
    let ghost n = cl@.len() as int;
    let mut i: usize = 0;
    while i < cl.len()
        invariant
            i <= cl@.len(),
            n == cl@.len(),
            errors@.len() == n,
            forall|j: int| 0 <= j < n ==> (#[trigger] cl@[j])@ == quant::cluster(m, vs, cb, n, j),
            forall|j: int| 0 <= j < n ==> #[trigger] errors@[j] == slot_error(m, vs, cb, n, j),
            match best {
                Some(b) => b < i && b == worst_slot(m, vs, cb, n, i as int)
                    && cl@[b as int]@.len() >= 2,
                None => worst_slot(m, vs, cb, n, i as int) < 0,
            },
        decreases n - i,
    {
        if cl[i].len() >= 2 {
            let better = match best {
                Some(b) => errors[i] > errors[b],
                None => true,
            };
            if better {
                best = Some(i);
            }
        }
        i = i + 1;
    }
    best
}

fn find_spare(
    m: Metric,
    cl: &Vec<Vec<CodebookEntry>>,
    errors: &Vec<i64>,
    skip: usize,
    Ghost(vs): Ghost<Seq<CodebookEntry>>,
    Ghost(cb): Ghost<Seq<CodebookEntry>>,
) -> (r: Option<usize>)
    requires
        errors@.len() == cl@.len(),
        forall|i: int|
            0 <= i < cl@.len() ==> (#[trigger] cl@[i])@ == quant::cluster(
                m,
                vs,
                cb,
                cl@.len() as int,
                i,
            ),
        forall|i: int|
            0 <= i < cl@.len() ==> #[trigger] errors@[i] == slot_error(
                m,
                vs,
                cb,
                cl@.len() as int,
                i,
            ),
    ensures
        match r {
            Some(i) => i < cl@.len() && i != skip && i == spare_slot(
                m,
                vs,
                cb,
                cl@.len() as int,
                skip as int,
                cl@.len() as int,
            ),
            None => spare_slot(m, vs, cb, cl@.len() as int, skip as int, cl@.len() as int) < 0,
        },
{
    let mut best: Option<usize> = None;
    let ghost n = cl@.len() as int;
    let mut i: usize = 0;
    while i < cl.len()
        invariant
            i <= cl@.len(),
            n == cl@.len(),
            errors@.len() == n,
            forall|j: int| 0 <= j < n ==> (#[trigger] cl@[j])@ == quant::cluster(m, vs, cb, n, j),
            forall|j: int| 0 <= j < n ==> #[trigger] errors@[j] == slot_error(m, vs, cb, n, j),
            match best {
                Some(b) => b < i && b != skip && b == spare_slot(
                    m,
                    vs,
                    cb,
                    n,
                    skip as int,
                    i as int,
                ),
                None => spare_slot(m, vs, cb, n, skip as int, i as int) < 0,
            },
        decreases n - i,
    {
        if i != skip {
            let better = match best {
                Some(b) => cl[i].len() < cl[b].len() || (cl[i].len() == cl[b].len() && errors[i]
                    < errors[b]),
                None => true,
            };
            if better {
                best = Some(i);
            }
        }
        i = i + 1;
    }
    best
}

fn find_widest(m: Metric, c: &[CodebookEntry]) -> (r: (usize, i32))
    requires
        c@.len() > 0,
    ensures
        r.0 == widest(c@, median::dims(m.mode)),
        r.0 < 6,
        r.1 == median::spread(c@, r.0 as int),
{
    let n: usize = dim_count(m.mode);
    let (lo, hi) = extent(c, 0);
    let mut dim: usize = 0;
    let mut most: i32 = hi - lo;
    let mut d: usize = 1;
    while d < n
        invariant
            1 <= d <= n <= 6,
            c@.len() > 0,
            dim < d,
            dim == widest(c@, d as int),
            most == median::spread(c@, dim as int),
        decreases n - d,
    {
        let (lo, hi) = extent(c, d);
        if hi - lo > most {
            most = hi - lo;
            dim = d;
        }
        d = d + 1;
    }
    (dim, most)
}

fn move_luma(v: u8, by: i32) -> (r: u8)
    requires
        v + by <= i32::MAX,
    ensures
        r == moved_luma(v, by as int),
{
    let x: i32 = v as i32 + by;
    if x < 0 {
        0
    } else if x > 255 {
        255
    } else {
        x as u8
    }
}

fn move_chroma(v: i8, by: i32) -> (r: i8)
    requires
        i32::MIN <= v + by <= i32::MAX,
    ensures
        r == moved_chroma(v, by as int),
{
    let x: i32 = v as i32 + by;
    if x < -128 {
        -128
    } else if x > 127 {
        127
    } else {
        x as i8
    }
}

/// Moves component `dim` of an entry by `delta`, and keeps it in range.
pub fn perturb_dim(e: &mut CodebookEntry, dim: usize, delta: i32)
    requires
        i32::MIN <= quant::component(*old(e), dim as int) + delta <= i32::MAX,
    ensures
        *final(e) == nudged(*old(e), dim as int, delta as int),
{
    if dim == 0 {
        e.y0 = move_luma(e.y0, delta);
    } else if dim == 1 {
        e.y1 = move_luma(e.y1, delta);
    } else if dim == 2 {
        e.y2 = move_luma(e.y2, delta);
    } else if dim == 3 {
        e.y3 = move_luma(e.y3, delta);
    } else if dim == 4 {
        e.u = move_chroma(e.u, delta);
    } else if dim == 5 {
        e.v = move_chroma(e.v, delta);
    }
}

fn slot_errors(
    m: Metric,
    cl: &Vec<Vec<CodebookEntry>>,
    cb: &Codebook,
    Ghost(vs): Ghost<Seq<CodebookEntry>>,
) -> (r: Vec<i64>)
    requires
        cl@.len() <= 256,
        forall|i: int|
            0 <= i < cl@.len() ==> (#[trigger] cl@[i])@ == quant::cluster(
                m,
                vs,
                cb@,
                cl@.len() as int,
                i,
            ),
    ensures
        r@.len() == cl@.len(),
        forall|i: int|
            0 <= i < cl@.len() ==> #[trigger] r@[i] == slot_error(
                m,
                vs,
                cb@,
                cl@.len() as int,
                i,
            ),
{
    let mut out: Vec<i64> = Vec::new();
    let ghost n = cl@.len() as int;
    let mut i: usize = 0;
    while i < cl.len()
        invariant
            i <= cl@.len(),
            n == cl@.len(),
            n <= 256,
            out@.len() == i,
            forall|j: int| 0 <= j < n ==> (#[trigger] cl@[j])@ == quant::cluster(m, vs, cb@, n, j),
            forall|j: int| 0 <= j < i ==> #[trigger] out@[j] == slot_error(m, vs, cb@, n, j),
        decreases n - i,
    {
        out.push(cluster_error(m, cl[i].as_slice(), &cb.entries[i]));
        i = i + 1;
    }
    out
}

fn try_split(m: Metric, vs: &[CodebookEntry], cb: &Codebook, n: usize) -> (r: Option<Codebook>)
    requires
        1 <= n <= 256,
    ensures
        match r {
            Some(next) => split_once(m, vs@, cb@, n as int) == Some(next@),
            None => split_once(m, vs@, cb@, n as int) is None,
        },
{
    let cl = clusters_of(m, vs, cb, n);
    let errors = slot_errors(m, &cl, cb, Ghost(vs@));
    let worst: usize = match find_worst(m, &cl, &errors, Ghost(vs@), Ghost(cb@)) {
        Some(i) => i,
        None => return None,
    };
    let spare: usize = match find_spare(m, &cl, &errors, worst, Ghost(vs@), Ghost(cb@)) {
        Some(i) => i,
        None => return None,
    };
    if errors[spare] >= errors[worst] {
        return None;
    }
    let (dim, most) = find_widest(m, cl[worst].as_slice());
    if most <= 0 {
        return None;
    }
    let mut moved = cb.entries[worst];
    perturb_dim(&mut moved, dim, 1);
    let mut trial = cb.clone();
    trial.entries[spare] = moved;
    assert(trial@ =~= parted(cb@, worst as int, spare as int, dim as int));
    let (next, _) = recentre(m, vs, &trial, n);
    let before: i64 = codebook_total_sse(m, cb, vs, n);
    let after: i64 = codebook_total_sse(m, &next, vs, n);
    if after < before {
        Some(next)
    } else {
        None
    }
}

/// Improves a codebook: up to `max_passes` times, splits the entry that
/// stands worst for its cluster, recentres, and keeps the outcome if it is
/// better.
pub fn lbg_refine_codebook(
    m: Metric,
    cb: &mut Codebook,
    vs: &[CodebookEntry],
    n: usize,
    max_passes: u8,
)
    requires
        n <= 256,
    ensures
        final(cb)@ == split_codebook(m, vs@, old(cb)@, n as int, max_passes as nat),
{
    if max_passes == 0 || n <= 1 || vs.len() == 0 {
        return;
    }
    let ghost before = cb@;
    let mut left: u8 = max_passes;
    while left > 0
        invariant
            2 <= n <= 256,
            vs@.len() > 0,
            before == old(cb)@,
            split_codebook(m, vs@, before, n as int, max_passes as nat) == split_codebook(
                m,
                vs@,
                cb@,
                n as int,
                left as nat,
            ),
        decreases left,
    {
        match try_split(m, vs, cb, n) {
            Some(next) => {
                *cb = next;
            },
            None => {
                return;
            },
        }
        left = left - 1;
    }
}

/// How codebooks are made.
#[derive(Clone, Copy, Debug, PartialEq, Eq, Structural)]
pub struct Training {
    /// Rounds of recentring from a former codebook.
    pub lloyd_max_iter: u8,
    /// Movement at which the rounds end.
    pub lloyd_eps: u32,
    /// Whether to try a codebook drawn at random.
    pub kmeans_pp_init: bool,
    /// Rounds of recentring for the drawn codebook.
    pub kmeans_pp_lloyd_iter: u8,
}

/// The codebook of `n` entries for the vectors. Where no rounds of recentring
/// are allowed, cutting makes it. Else a former codebook is recentred, and
/// kept where there are no vectors; without one, cutting makes the codebook,
/// unless one drawn at random is better.
pub open spec fn trained(
    t: Training,
    m: Metric,
    vs: Seq<CodebookEntry>,
    n: int,
    seed: Option<Seq<CodebookEntry>>,
) -> Seq<CodebookEntry> {
    if t.lloyd_max_iter == 0 {
        median::cut_codebook(m, vs, n)
    } else if seed is Some {
        if vs.len() > 0 {
            quant::lloyd(m, vs, seed->0, n, t.lloyd_max_iter as nat, t.lloyd_eps)
        } else {
            seed->0
        }
    } else if t.kmeans_pp_init && n >= 2 && vs.len() > 0 {
        let cut = median::cut_codebook(m, vs, n);
        let drawn = seeding::seeded_codebook(m, vs, n, t.kmeans_pp_lloyd_iter as nat, t.lloyd_eps);
        if quant::total_error(m, vs, drawn, n) < quant::total_error(m, vs, cut, n) {
            drawn
        } else {
            cut
        }
    } else {
        median::cut_codebook(m, vs, n)
    }
}

/// The entries behind an optional codebook.
pub open spec fn seed_view(s: Option<&Codebook>) -> Option<Seq<CodebookEntry>> {
    match s {
        Some(cb) => Some(cb@),
        None => None,
    }
}

/// Makes the codebook of `n` entries for the vectors, from a former one
/// where there is one.
pub fn median_cut_seeded(
    t: Training,
    m: Metric,
    vs: &[CodebookEntry],
    n: usize,
    seed: Option<&Codebook>,
) -> (r: Codebook)
    requires
        1 <= n <= 256,
    ensures
        r@ == trained(t, m, vs@, n as int, seed_view(seed)),
{
    if t.lloyd_max_iter == 0 {
        return median_cut(m, vs, n);
    }
    if let Some(prev) = seed {
        if vs.len() > 0 {
            return lloyd_rounds(m, vs, prev.clone(), n, t.lloyd_max_iter, t.lloyd_eps);
        }
        return prev.clone();
    }
    if t.kmeans_pp_init && n >= 2 && vs.len() > 0 {
        let cut = median_cut(m, vs, n);
        let drawn = kmeans_pp_init_cold(m, vs, n, t.kmeans_pp_lloyd_iter, t.lloyd_eps);
        let cut_error: i64 = codebook_total_sse(m, &cut, vs, n);
        let drawn_error: i64 = codebook_total_sse(m, &drawn, vs, n);
        if drawn_error < cut_error {
            return drawn;
        }
        return cut;
    }
    median_cut(m, vs, n)
}

/// Trying a codebook drawn at random never gives a worse one than cutting.
pub proof fn drawing_never_worse(t: Training, m: Metric, vs: Seq<CodebookEntry>, n: int)
    requires
        t.lloyd_max_iter > 0,
    ensures
        quant::total_error(m, vs, trained(t, m, vs, n, None), n) <= quant::total_error(
            m,
            vs,
            median::cut_codebook(m, vs, n),
            n,
        ),
{
}

/// With no vectors, a former codebook is kept as it is.
pub proof fn seed_kept_without_vectors(
    t: Training,
    m: Metric,
    n: int,
    seed: Seq<CodebookEntry>,
)
    requires
        t.lloyd_max_iter > 0,
    ensures
        trained(t, m, Seq::empty(), n, Some(seed)) == seed,
{
}

/// A codebook that was made is whole.
pub proof fn trained_len(
    t: Training,
    m: Metric,
    vs: Seq<CodebookEntry>,
    n: int,
    seed: Option<Seq<CodebookEntry>>,
)
    requires
        1 <= n <= 256,
        seed matches Some(s) ==> s.len() == 256,
    ensures
        trained(t, m, vs, n, seed).len() == 256,
{
    if let Some(s) = seed {
        quant::lloyd_len(m, vs, s, n, t.lloyd_max_iter as nat, t.lloyd_eps);
    }
    seeding::seeded_codebook_len(m, vs, n, t.kmeans_pp_lloyd_iter as nat, t.lloyd_eps);
}

/// Splitting keeps a codebook whole.
pub proof fn split_codebook_len(
    m: Metric,
    vs: Seq<CodebookEntry>,
    cb: Seq<CodebookEntry>,
    n: int,
    passes: nat,
)
    requires
        cb.len() == 256,
    ensures
        split_codebook(m, vs, cb, n, passes).len() == 256,
    decreases passes,
{
    if passes > 0 && n > 1 && vs.len() > 0 {
        if let Some(next) = split_once(m, vs, cb, n) {
            split_codebook_len(m, vs, next, n, (passes - 1) as nat);
        }
    }
}

} // verus!
