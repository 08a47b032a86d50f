//! New values for codebook entries that went unused for too long.

use vstd::prelude::*;
use crate::codebook::{Codebook, CodebookEntry};
use crate::quant::{self, entry_l1_distance, nearest, Metric};

verus! {

/// Manhattan distance that two new values keep, at least.
pub const MIN_SEPARATION: u32 = 2;

/// Distances with every component counted alike.
pub open spec fn plain(m: Metric) -> Metric {
    Metric { mode: m.mode, luma_weight: 1 }
}

/// The entries among the first `k` whose count exceeds `threshold`,
/// ascending.
pub open spec fn stale_slots(stale: Seq<u16>, threshold: u8, k: int) -> Seq<u8>
    decreases k,
{
    if k <= 0 {
        Seq::empty()
    } else if stale[k - 1] > threshold {
        stale_slots(stale, threshold, k - 1).push((k - 1) as u8)
    } else {
        stale_slots(stale, threshold, k - 1)
    }
}

/// Whether sample `i` keeps its distance from the chosen samples.
pub open spec fn far_from(m: Metric, samples: Seq<CodebookEntry>, chosen: Seq<int>, i: int) -> bool {
    forall|j: int|
        0 <= j < chosen.len() ==> quant::drift(plain(m), samples[i], samples[#[trigger] chosen[j]])
            >= MIN_SEPARATION
}

/// The sample among the first `k` that the codebook stands for worst, of
/// those that keep their distance from the chosen ones; the first such one,
/// or minus one.
pub open spec fn next_outlier(
    m: Metric,
    samples: Seq<CodebookEntry>,
    cb: Seq<CodebookEntry>,
    n: int,
    chosen: Seq<int>,
    k: int,
) -> int
    decreases k,
{
    if k <= 0 {
        -1
    } else {
        let b = next_outlier(m, samples, cb, n, chosen, k - 1);
        if far_from(m, samples, chosen, k - 1) && (b < 0 || quant::nearest_error(
            m,
            samples[k - 1],
            cb,
            n,
        ) > quant::nearest_error(m, samples[b], cb, n)) {
            k - 1
        } else {
            b
        }
    }
}

/// The chosen samples after choosing up to `count` more outliers.
pub open spec fn outliers(
    m: Metric,
    samples: Seq<CodebookEntry>,
    cb: Seq<CodebookEntry>,
    n: int,
    chosen: Seq<int>,
    count: nat,
) -> Seq<int>
    decreases count,
{
    if count == 0 {
        chosen
    } else {
        let i = next_outlier(m, samples, cb, n, chosen, samples.len() as int);
        if i < 0 {
            chosen
        } else {
            outliers(m, samples, cb, n, chosen.push(i), (count - 1) as nat)
        }
    }
}

/// The codebook with the first `k` of `slots` at the chosen samples.
pub open spec fn reseeded(
    samples: Seq<CodebookEntry>,
    cb: Seq<CodebookEntry>,
    slots: Seq<u8>,
    chosen: Seq<int>,
    k: int,
) -> Seq<CodebookEntry>
    decreases k,
{
    if k <= 0 {
        cb
    } else {
        reseeded(samples, cb, slots, chosen, k - 1).update(
            slots[k - 1] as int,
            samples[chosen[k - 1]],
        )
    }
}

/// The codebook with stale entries at the samples that it stands for worst,
/// and the entries that were given new values.
pub open spec fn reclaimed(
    m: Metric,
    samples: Seq<CodebookEntry>,
    cb: Seq<CodebookEntry>,
    n: int,
    stale: Seq<u16>,
    threshold: u8,
) -> (Seq<CodebookEntry>, Seq<u8>) {
    let slots = stale_slots(stale, threshold, n);
    let chosen = outliers(m, samples, cb, n, Seq::empty(), slots.len());
    (
        reseeded(samples, cb, slots, chosen, chosen.len() as int),
        slots.subrange(0, chosen.len() as int),
    )
}

proof fn stale_slots_bound(stale: Seq<u16>, threshold: u8, k: int)
    requires
        0 <= k,
    ensures
        stale_slots(stale, threshold, k).len() <= k,
    decreases k,
{
    if k > 0 {
        stale_slots_bound(stale, threshold, k - 1);
    }
}

proof fn next_outlier_range(
    m: Metric,
    samples: Seq<CodebookEntry>,
    cb: Seq<CodebookEntry>,
    n: int,
    chosen: Seq<int>,
    k: int,
)
    ensures
        next_outlier(m, samples, cb, n, chosen, k) < k || k <= 0,
        next_outlier(m, samples, cb, n, chosen, k) >= 0 ==> far_from(
            m,
            samples,
            chosen,
            next_outlier(m, samples, cb, n, chosen, k),
        ),
    decreases k,
{
    if k > 0 {
        next_outlier_range(m, samples, cb, n, chosen, k - 1);
    }
}

proof fn outliers_range(
    m: Metric,
    samples: Seq<CodebookEntry>,
    cb: Seq<CodebookEntry>,
    n: int,
    chosen: Seq<int>,
    count: nat,
)
    requires
        forall|i: int| 0 <= i < chosen.len() ==> 0 <= #[trigger] chosen[i] < samples.len(),
    ensures
        chosen.len() <= outliers(m, samples, cb, n, chosen, count).len() <= chosen.len() + count,
        forall|i: int|
            0 <= i < outliers(m, samples, cb, n, chosen, count).len() ==> 0 <= #[trigger] outliers(
                m,
                samples,
                cb,
                n,
                chosen,
                count,
            )[i] < samples.len(),
    decreases count,
{
    if count > 0 {
        let i = next_outlier(m, samples, cb, n, chosen, samples.len() as int);
        next_outlier_range(m, samples, cb, n, chosen, samples.len() as int);
        if i >= 0 {
            outliers_range(m, samples, cb, n, chosen.push(i), (count - 1) as nat);
        }
    }
}

/// Whether the chosen samples keep their distance from one another.
pub open spec fn apart(m: Metric, samples: Seq<CodebookEntry>, chosen: Seq<int>) -> bool {
    forall|i: int, j: int|
        0 <= j < i < chosen.len() ==> quant::drift(
            plain(m),
            samples[#[trigger] chosen[i]],
            samples[#[trigger] chosen[j]],
        ) >= MIN_SEPARATION
}

proof fn outliers_stay_apart(
    m: Metric,
    samples: Seq<CodebookEntry>,
    cb: Seq<CodebookEntry>,
    n: int,
    chosen: Seq<int>,
    count: nat,
)
    requires
        apart(m, samples, chosen),
    ensures
        apart(m, samples, outliers(m, samples, cb, n, chosen, count)),
    decreases count,
{
    if count > 0 {
        let k = next_outlier(m, samples, cb, n, chosen, samples.len() as int);
        next_outlier_range(m, samples, cb, n, chosen, samples.len() as int);
        if k >= 0 {
            let more = chosen.push(k);
            assert forall|i: int, j: int| 0 <= j < i < more.len() implies quant::drift(
                plain(m),
                samples[#[trigger] more[i]],
                samples[#[trigger] more[j]],
            ) >= MIN_SEPARATION by {
                assert(more[j] == chosen[j]);
                if i < chosen.len() {
                    assert(more[i] == chosen[i]);
                }
            }
            outliers_stay_apart(m, samples, cb, n, more, (count - 1) as nat);
        }
    }
}

/// The values that stale entries are given keep their distance from one
/// another.
pub proof fn outliers_apart(
    m: Metric,
    samples: Seq<CodebookEntry>,
    cb: Seq<CodebookEntry>,
    n: int,
    count: nat,
)
    ensures
        apart(m, samples, outliers(m, samples, cb, n, Seq::empty(), count)),
{
    outliers_stay_apart(m, samples, cb, n, Seq::empty(), count);
}

/// Entries that are not stale keep their values.
pub proof fn fresh_entries_kept(
    m: Metric,
    samples: Seq<CodebookEntry>,
    cb: Seq<CodebookEntry>,
    n: int,
    stale: Seq<u16>,
    threshold: u8,
    slot: int,
)
    requires
        0 <= slot < 256,
        cb.len() == 256,
        n <= 256,
        stale.len() == 256,
        stale[slot] <= threshold,
    ensures
        reclaimed(m, samples, cb, n, stale, threshold).0[slot] == cb[slot],
{
    let slots = stale_slots(stale, threshold, n);
    let chosen = outliers(m, samples, cb, n, Seq::empty(), slots.len());
    outliers_range(m, samples, cb, n, Seq::empty(), slots.len());
    stale_slots_stale(stale, threshold, n);
    reseeded_elsewhere(samples, cb, slots, chosen, chosen.len() as int, slot);
}

proof fn stale_slots_stale(stale: Seq<u16>, threshold: u8, k: int)
    requires
        k <= 256,
    ensures
        forall|i: int|
            0 <= i < stale_slots(stale, threshold, k).len() ==> stale[#[trigger] stale_slots(
                stale,
                threshold,
                k,
            )[i] as int] > threshold && stale_slots(stale, threshold, k)[i] < k,
    decreases k,
{
    if k > 0 {
        stale_slots_stale(stale, threshold, k - 1);
        let before = stale_slots(stale, threshold, k - 1);
        let s = stale_slots(stale, threshold, k);
        assert forall|i: int| 0 <= i < s.len() implies stale[#[trigger] s[i] as int] > threshold
            && s[i] < k by {
            if i < before.len() {
                assert(s[i] == before[i]);
            }
        }
    }
}

proof fn reseeded_elsewhere(
    samples: Seq<CodebookEntry>,
    cb: Seq<CodebookEntry>,
    slots: Seq<u8>,
    chosen: Seq<int>,
    k: int,
    slot: int,
)
    requires
        cb.len() == 256,
        0 <= slot < 256,
        0 <= k <= slots.len(),
        forall|i: int| 0 <= i < k ==> #[trigger] slots[i] != slot,
    ensures
        reseeded(samples, cb, slots, chosen, k).len() == 256,
        reseeded(samples, cb, slots, chosen, k)[slot] == cb[slot],
    decreases k,
{
    if k > 0 {
        reseeded_elsewhere(samples, cb, slots, chosen, k - 1, slot);
    }
}

fn find_stale(stale: &[u16; 256], threshold: u8, n: usize) -> (r: Vec<u8>)
    requires
        n <= 256,
    ensures
        r@ == stale_slots(stale@, threshold, n as int),
        r@.len() <= 256,
{
    let mut out: Vec<u8> = Vec::new();
    let mut i: usize = 0;
    while i < n
        invariant
            i <= n <= 256,
            stale@.len() == 256,
            out@ == stale_slots(stale@, threshold, i as int),
        decreases n - i,
    {
        if stale[i] > threshold as u16 {
            out.push(i as u8);
        }
        i = i + 1;
    }
    proof {
        stale_slots_bound(stale@, threshold, n as int);
    }
    out
}

fn residuals(m: Metric, samples: &[CodebookEntry], cb: &Codebook, n: usize) -> (r: Vec<i64>)
    requires
        1 <= n <= 256,
    ensures
        r@.len() == samples@.len(),
        forall|i: int|
            0 <= i < samples@.len() ==> #[trigger] r@[i] == quant::nearest_error(
                m,
                samples@[i],
                cb@,
                n as int,
            ),
{
    let mut out: Vec<i64> = Vec::new();
    let mut i: usize = 0;
    while i < samples.len()
        invariant
            1 <= n <= 256,
            i <= samples@.len(),
            out@.len() == i,
            forall|j: int|
                0 <= j < i ==> #[trigger] out@[j] == quant::nearest_error(
                    m,
                    samples@[j],
                    cb@,
                    n as int,
                ),
        decreases samples@.len() - i,
    {
        let (_, e) = nearest(m, &samples[i], cb, n);
        out.push(e);
        i = i + 1;
    }
    out
}

/// The places behind a list of chosen samples.
spec fn places(v: Seq<usize>) -> Seq<int> {
    Seq::new(v.len(), |i: int| v[i] as int)
}

fn worst_far(
    m: Metric,
    errors: &Vec<i64>,
    far: &Vec<bool>,
    Ghost(samples): Ghost<Seq<CodebookEntry>>,
    Ghost(cb): Ghost<Seq<CodebookEntry>>,
    Ghost(n): Ghost<int>,
    Ghost(chosen): Ghost<Seq<int>>,
) -> (r: Option<usize>)
    requires
        errors@.len() == samples.len(),
        far@.len() == samples.len(),
        forall|i: int|
            0 <= i < samples.len() ==> #[trigger] errors@[i] == quant::nearest_error(
                m,
                samples[i],
                cb,
                n,
            ),
        forall|i: int|
            0 <= i < samples.len() ==> #[trigger] far@[i] == far_from(m, samples, chosen, i),
    ensures
        match r {
            Some(i) => i < samples.len() && i == next_outlier(
                m,
                samples,
                cb,
                n,
                chosen,
                samples.len() as int,
            ),
            None => next_outlier(m, samples, cb, n, chosen, samples.len() as int) < 0,
        },
{
    let mut best: Option<usize> = None;
    let mut i: usize = 0;
    while i < errors.len()
        invariant
            i <= errors@.len(),
            errors@.len() == samples.len(),
            far@.len() == samples.len(),
            forall|j: int|
                0 <= j < samples.len() ==> #[trigger] errors@[j] == quant::nearest_error(
                    m,
                    samples[j],
                    cb,
                    n,
                ),
            forall|j: int|
                0 <= j < samples.len() ==> #[trigger] far@[j] == far_from(m, samples, chosen, j),
            match best {
                Some(b) => b < i && b == next_outlier(m, samples, cb, n, chosen, i as int),
                None => next_outlier(m, samples, cb, n, chosen, i as int) < 0,
            },
        decreases errors@.len() - i,
    {
        if far[i] {
            let better = match best {
                Some(b) => errors[i] > errors[b],
                None => true,
            };
            if better {
                best = Some(i);
            }
        }
        i = i + 1;
    }
    best
}

fn mark_near(
    m: Metric,
    samples: &[CodebookEntry],
    pick: usize,
    far: &mut Vec<bool>,
    Ghost(chosen): Ghost<Seq<int>>,
)
    requires
        pick < samples@.len(),
        old(far)@.len() == samples@.len(),
        forall|i: int|
            0 <= i < samples@.len() ==> #[trigger] old(far)@[i] == far_from(
                m,
                samples@,
                chosen,
                i,
            ),
    ensures
        final(far)@.len() == samples@.len(),
        forall|i: int|
            0 <= i < samples@.len() ==> #[trigger] final(far)@[i] == far_from(
                m,
                samples@,
                chosen.push(pick as int),
                i,
            ),
{
    let ghost more = chosen.push(pick as int);
    let unweighted = Metric { mode: m.mode, luma_weight: 1 };
    let e = samples[pick];
    let mut i: usize = 0;
    while i < samples.len()
        invariant
            unweighted == plain(m),
            i <= samples@.len(),
            pick < samples@.len(),
            e == samples@[pick as int],
            more == chosen.push(pick as int),
            far@.len() == samples@.len(),
            forall|j: int|
                0 <= j < i ==> #[trigger] far@[j] == far_from(m, samples@, more, j),
            forall|j: int|
                i <= j < samples@.len() ==> #[trigger] far@[j] == far_from(
                    m,
                    samples@,
                    chosen,
                    j,
                ),
        decreases samples@.len() - i,
    {
        let d: u32 = entry_l1_distance(unweighted, &samples[i], &e);
        proof {
            let k = chosen.len() as int;
            assert(more[k] == pick);
            assert(forall|j: int| 0 <= j < k ==> more[j] == #[trigger] chosen[j]);
            assert(far_from(m, samples@, more, i as int) == (far_from(
                m,
                samples@,
                chosen,
                i as int,
            ) && d >= MIN_SEPARATION)) by {
                if far_from(m, samples@, more, i as int) {
                    assert forall|j: int| 0 <= j < chosen.len() implies quant::drift(
                        plain(m),
                        samples@[i as int],
                        samples@[#[trigger] chosen[j]],
                    ) >= MIN_SEPARATION by {
                        assert(more[j] == chosen[j]);
                    }
                    assert(quant::drift(plain(m), samples@[i as int], samples@[more[k]]) >= MIN_SEPARATION);
                }
            }
        }
        if d < MIN_SEPARATION {
            far.set(i, false);
        }
        i = i + 1;
    }
}

fn find_outliers(
    m: Metric,
    samples: &[CodebookEntry],
    cb: &Codebook,
    n: usize,
    count: usize,
) -> (r: Vec<usize>)
    requires
        1 <= n <= 256,
        count <= 256,
    ensures
        places(r@) == outliers(m, samples@, cb@, n as int, Seq::empty(), count as nat),
        r@.len() <= count,
        forall|i: int| 0 <= i < r@.len() ==> #[trigger] r@[i] < samples@.len(),
{
    let errors = residuals(m, samples, cb, n);
    let mut far: Vec<bool> = Vec::new();
    let mut i: usize = 0;
    while i < samples.len()
        invariant
            i <= samples@.len(),
            far@.len() == i,
            forall|j: int| 0 <= j < i ==> #[trigger] far@[j],
        decreases samples@.len() - i,
    {
        far.push(true);
        i = i + 1;
    }
    let mut chosen: Vec<usize> = Vec::new();
    assert(places(chosen@) =~= Seq::empty());
    let mut left: usize = count;
    while left > 0
        invariant
            1 <= n <= 256,
            left <= count,
            chosen@.len() + left == count,
            errors@.len() == samples@.len(),
            far@.len() == samples@.len(),
            forall|j: int|
                0 <= j < samples@.len() ==> #[trigger] errors@[j] == quant::nearest_error(
                    m,
                    samples@[j],
                    cb@,
                    n as int,
                ),
            forall|j: int|
                0 <= j < samples@.len() ==> #[trigger] far@[j] == far_from(
                    m,
                    samples@,
                    places(chosen@),
                    j,
                ),
            forall|j: int| 0 <= j < chosen@.len() ==> #[trigger] chosen@[j] < samples@.len(),
            outliers(m, samples@, cb@, n as int, Seq::empty(), count as nat) == outliers(
                m,
                samples@,
                cb@,
                n as int,
                places(chosen@),
                left as nat,
            ),
        decreases left,
    {
        let ghost before = places(chosen@);
        match worst_far(
            m,
            &errors,
            &far,
            Ghost(samples@),
            Ghost(cb@),
            Ghost(n as int),
            Ghost(before),
        ) {
            Some(p) => {
                mark_near(m, samples, p, &mut far, Ghost(before));
                chosen.push(p);
                assert(places(chosen@) =~= before.push(p as int));
            },
            None => {
                return chosen;
            },
        }
        left = left - 1;
    }
    chosen
}

/// Gives stale entries of a codebook new values: the samples that it stands
/// for worst. Tells which entries were given one.
pub fn reclaim_stale_slots(
    m: Metric,
    samples: &[CodebookEntry],
    cb: &mut Codebook,
    n: usize,
    stale: &[u16; 256],
    threshold: u8,
) -> (r: Vec<u8>)
    requires
        1 <= n <= 256,
    ensures
        (final(cb)@, r@) == reclaimed(m, samples@, old(cb)@, n as int, stale@, threshold),
        r@.len() <= 256,
{
    let ghost before = cb@;
    let slots = find_stale(stale, threshold, n);
    let chosen = find_outliers(m, samples, cb, n, slots.len());
    let ghost c = places(chosen@);
    let mut out: Vec<u8> = Vec::new();
    let mut i: usize = 0;
    while i < chosen.len()
        invariant
            i <= chosen@.len() <= slots@.len(),
            c == places(chosen@),
            cb@.len() == 256,
            forall|j: int| 0 <= j < chosen@.len() ==> #[trigger] chosen@[j] < samples@.len(),
            cb@ == reseeded(samples@, before, slots@, c, i as int),
            out@ == slots@.subrange(0, i as int),
        decreases chosen@.len() - i,
    {
        let s: u8 = slots[i];
        let p: usize = chosen[i];
        assert(c[i as int] == p);
        let ghost prior = cb@;
        cb.entries[s as usize] = samples[p];
        assert(cb@ =~= prior.update(s as int, samples@[p as int]));
        out.push(s);
        i = i + 1;
        assert(out@ =~= slots@.subrange(0, i as int));
    }
    out
}

/// A codebook whose stale entries were given new values is whole.
pub proof fn reclaimed_len(
    m: Metric,
    samples: Seq<CodebookEntry>,
    cb: Seq<CodebookEntry>,
    n: int,
    stale: Seq<u16>,
    threshold: u8,
)
    requires
        cb.len() == 256,
    ensures
        reclaimed(m, samples, cb, n, stale, threshold).0.len() == 256,
{
    let slots = stale_slots(stale, threshold, n);
    let chosen = outliers(m, samples, cb, n, Seq::empty(), slots.len());
    reseeded_len(samples, cb, slots, chosen, chosen.len() as int);
}

proof fn reseeded_len(
    samples: Seq<CodebookEntry>,
    cb: Seq<CodebookEntry>,
    slots: Seq<u8>,
    chosen: Seq<int>,
    k: int,
)
    requires
        cb.len() == 256,
    ensures
        reseeded(samples, cb, slots, chosen, k).len() == 256,
    decreases k,
{
    if k > 0 {
        reseeded_len(samples, cb, slots, chosen, k - 1);
    }
}

} // verus!
