//! How codebook entries age and are renewed.

use vstd::prelude::*;
use crate::codebook::{self, CodebookChunkKind, CodebookEntry, PixelMode, UpdateStyle};
use crate::quant::{self, Metric};
use crate::reclaim;
use crate::rolling::{self, RollView, Update};

verus! {

/// How far apart two entries lie, with every component that counts counted
/// alike.
pub open spec fn moved(mode: PixelMode, a: CodebookEntry, b: CodebookEntry) -> int {
    quant::magnitude(a.y0 - b.y0) + quant::magnitude(a.y1 - b.y1) + quant::magnitude(a.y2 - b.y2)
        + quant::magnitude(a.y3 - b.y3) + if mode == PixelMode::Yuv12 {
        quant::magnitude(a.u - b.u) + quant::magnitude(a.v - b.v)
    } else {
        0
    }
}

proof fn plain_drift(m: Metric, a: CodebookEntry, b: CodebookEntry)
    ensures
        quant::drift(reclaim::plain(m), a, b) == moved(m.mode, a, b),
{
    reveal(quant::drift);
    let l = quant::magnitude(a.y0 - b.y0) + quant::magnitude(a.y1 - b.y1) + quant::magnitude(
        a.y2 - b.y2,
    ) + quant::magnitude(a.y3 - b.y3);
    assert(1 * l == l) by (nonlinear_arith);
}

/// Whether sample `i` differs by two or more from all the chosen samples.
pub open spec fn differs_from_all(m: Metric, samples: Seq<CodebookEntry>, chosen: Seq<int>, i: int) -> bool {
    forall|j: int|
        0 <= j < chosen.len() ==> moved(m.mode, samples[i], samples[#[trigger] chosen[j]]) >= 2
}

proof fn far_is_different(m: Metric, samples: Seq<CodebookEntry>, chosen: Seq<int>, i: int)
    ensures
        reclaim::far_from(m, samples, chosen, i) == differs_from_all(m, samples, chosen, i),
{
    assert forall|j: int| 0 <= j < chosen.len() implies quant::drift(
        reclaim::plain(m),
        samples[i],
        samples[#[trigger] chosen[j]],
    ) == moved(m.mode, samples[i], samples[chosen[j]]) by {
        plain_drift(m, samples[i], samples[chosen[j]]);
    }
}

proof fn next_is_worst(
    m: Metric,
    samples: Seq<CodebookEntry>,
    cb: Seq<CodebookEntry>,
    n: int,
    chosen: Seq<int>,
    k: int,
)
    requires
        0 <= k <= samples.len(),
    ensures
        ({
            let b = reclaim::next_outlier(m, samples, cb, n, chosen, k);
            &&& -1 <= b < k
            &&& b >= 0 ==> differs_from_all(m, samples, chosen, b)
            &&& forall|s: int|
                0 <= s < k && #[trigger] differs_from_all(m, samples, chosen, s) ==> b >= 0
                    && quant::nearest_error(m, samples[s], cb, n) <= quant::nearest_error(
                    m,
                    samples[b],
                    cb,
                    n,
                ) && (s < b ==> quant::nearest_error(m, samples[s], cb, n) < quant::nearest_error(
                    m,
                    samples[b],
                    cb,
                    n,
                ))
        }),
    decreases k,
{
    if k > 0 {
        next_is_worst(m, samples, cb, n, chosen, k - 1);
        far_is_different(m, samples, chosen, k - 1);
    }
}

/// Whether the chosen samples from place `from` on are each the first of the
/// worst of those that differ from the ones chosen before.
pub open spec fn worst_first(
    m: Metric,
    samples: Seq<CodebookEntry>,
    cb: Seq<CodebookEntry>,
    n: int,
    chosen: Seq<int>,
    from: int,
) -> bool {
    forall|i: int|
        from <= i < chosen.len() ==> {
            &&& 0 <= #[trigger] chosen[i] < samples.len()
            &&& differs_from_all(m, samples, chosen.take(i), chosen[i])
            &&& forall|s: int|
                0 <= s < samples.len() && #[trigger] differs_from_all(m, samples, chosen.take(i), s)
                    ==> quant::nearest_error(m, samples[s], cb, n) <= quant::nearest_error(
                    m,
                    samples[chosen[i]],
                    cb,
                    n,
                ) && (s < chosen[i] ==> quant::nearest_error(m, samples[s], cb, n)
                    < quant::nearest_error(m, samples[chosen[i]], cb, n))
        }
}

proof fn outliers_are_worst(
    m: Metric,
    samples: Seq<CodebookEntry>,
    cb: Seq<CodebookEntry>,
    n: int,
    chosen: Seq<int>,
    count: nat,
)
    ensures
        ({
            let all = reclaim::outliers(m, samples, cb, n, chosen, count);
            &&& chosen.len() <= all.len() <= chosen.len() + count
            &&& all.take(chosen.len() as int) == chosen
            &&& worst_first(m, samples, cb, n, all, chosen.len() as int)
            &&& all.len() < chosen.len() + count ==> forall|s: int|
                0 <= s < samples.len() ==> !#[trigger] differs_from_all(m, samples, all, s)
        }),
    decreases count,
{
    let all = reclaim::outliers(m, samples, cb, n, chosen, count);
    if count == 0 {
        assert(all.take(chosen.len() as int) =~= chosen);
    } else {
        let b = reclaim::next_outlier(m, samples, cb, n, chosen, samples.len() as int);
        next_is_worst(m, samples, cb, n, chosen, samples.len() as int);
        if b < 0 {
            assert(all.take(chosen.len() as int) =~= chosen);
        } else {
            let more = chosen.push(b);
            outliers_are_worst(m, samples, cb, n, more, (count - 1) as nat);
            assert(all.take(chosen.len() as int) =~= chosen) by {
                assert forall|i: int| 0 <= i < chosen.len() implies all[i] == chosen[i] by {
                    assert(all.take(more.len() as int)[i] == more[i]);
                }
            }
            assert(all[chosen.len() as int] == b) by {
                assert(all.take(more.len() as int)[chosen.len() as int] == more[chosen.len() as int]);
            }
        }
    }
}

proof fn stale_slots_are_first(stale: Seq<u16>, threshold: u8, k: int)
    requires
        0 <= k <= 256,
    ensures
        ({
            let s = reclaim::stale_slots(stale, threshold, k);
            &&& s.len() <= k
            &&& codebook::ascending(s)
            &&& forall|i: int| 0 <= i < s.len() ==> #[trigger] s[i] < k && stale[s[i] as int] > threshold
            &&& forall|t: int|
                0 <= t < k && #[trigger] stale[t] > threshold ==> s.contains(t as u8)
        }),
    decreases k,
{
    if k > 0 {
        stale_slots_are_first(stale, threshold, k - 1);
        let before = reclaim::stale_slots(stale, threshold, k - 1);
        let s = reclaim::stale_slots(stale, threshold, k);
        assert forall|i: int| 0 <= i < s.len() implies #[trigger] s[i] < k && stale[s[i] as int]
            > threshold by {
            if i < before.len() {
                assert(s[i] == before[i]);
            }
        }
        assert forall|t: int| 0 <= t < k && #[trigger] stale[t] > threshold implies s.contains(
            t as u8,
        ) by {
            if t == k - 1 {
                assert(s[s.len() - 1] == t as u8);
            } else {
                assert(before.contains(t as u8));
                let i = choose|i: int| 0 <= i < before.len() && before[i] == t as u8;
                assert(s[i] == t as u8);
            }
        }
    }
}

proof fn reseeded_values(
    samples: Seq<CodebookEntry>,
    cb: Seq<CodebookEntry>,
    slots: Seq<u8>,
    chosen: Seq<int>,
    k: int,
)
    requires
        cb.len() == 256,
        0 <= k <= slots.len(),
        codebook::ascending(slots),
    ensures
        ({
            let r = reclaim::reseeded(samples, cb, slots, chosen, k);
            &&& r.len() == 256
            &&& forall|i: int| 0 <= i < k ==> r[#[trigger] slots[i] as int] == samples[chosen[i]]
            &&& forall|t: int|
                0 <= t < 256 && !slots.take(k).contains(t as u8) ==> #[trigger] r[t] == cb[t]
        }),
    decreases k,
{
    if k > 0 {
        reseeded_values(samples, cb, slots, chosen, k - 1);
        let r = reclaim::reseeded(samples, cb, slots, chosen, k);
        assert forall|t: int| 0 <= t < 256 && !slots.take(k).contains(t as u8) implies #[trigger] r[t]
            == cb[t] by {
            if slots.take(k - 1).contains(t as u8) {
                let before = slots.take(k - 1);
                let i = choose|i: int| 0 <= i < before.len() && before[i] == t as u8;
                assert(slots.take(k)[i] == t as u8);
            }
            assert(slots.take(k)[k - 1] == slots[k - 1]);
        }
    }
}

/// Renewing gives stale entries, from the first on, the samples that the
/// codebook stands for worst: each differs by two or more from those before
/// it, and no other sample that does is stood for worse. Entries are left
/// stale only where no sample is left to take, and no other entry changes.
pub proof fn stale_entries_are_renewed(
    m: Metric,
    samples: Seq<CodebookEntry>,
    cb: Seq<CodebookEntry>,
    n: int,
    stale: Seq<u16>,
    threshold: u8,
) -> (chosen: Seq<int>)
    requires
        1 <= n <= 256,
        cb.len() == 256,
        stale.len() == 256,
    ensures
        ({
            let (out, slots) = reclaim::reclaimed(m, samples, cb, n, stale, threshold);
            &&& slots.len() == chosen.len()
            &&& codebook::ascending(slots)
            &&& worst_first(m, samples, cb, n, chosen, 0)
            &&& forall|i: int|
                0 <= i < slots.len() ==> #[trigger] slots[i] < n && stale[slots[i] as int] > threshold
                    && out[slots[i] as int] == samples[chosen[i]]
            &&& forall|t: int|
                0 <= t < 256 && !slots.contains(t as u8) ==> #[trigger] out[t] == cb[t]
            &&& forall|t: int|
                0 <= t < n && #[trigger] stale[t] > threshold && !slots.contains(t as u8) ==> {
                    &&& forall|i: int| 0 <= i < slots.len() ==> #[trigger] slots[i] < t
                    &&& forall|s: int|
                        0 <= s < samples.len() ==> !#[trigger] differs_from_all(
                            m,
                            samples,
                            chosen,
                            s,
                        )
                }
        }),
{
    let all = reclaim::stale_slots(stale, threshold, n);
    let chosen = reclaim::outliers(m, samples, cb, n, Seq::empty(), all.len());
    stale_slots_are_first(stale, threshold, n);
    outliers_are_worst(m, samples, cb, n, Seq::empty(), all.len());
    reseeded_values(samples, cb, all, chosen, chosen.len() as int);
    let slots = all.subrange(0, chosen.len() as int);
    assert(slots =~= all.take(chosen.len() as int));
    assert forall|i: int| 0 <= i < slots.len() implies #[trigger] slots[i] < n && stale[slots[i] as int]
        > threshold by {
        assert(slots[i] == all[i]);
    }
    assert forall|t: int|
        0 <= t < n && #[trigger] stale[t] > threshold && !slots.contains(t as u8) implies {
        &&& forall|i: int| 0 <= i < slots.len() ==> #[trigger] slots[i] < t
        &&& chosen.len() < all.len()
    } by {
        let j = choose|j: int| 0 <= j < all.len() && all[j] == t as u8;
        assert(j >= chosen.len()) by {
            if j < chosen.len() {
                assert(slots[j] == t as u8);
            }
        }
        assert forall|i: int| 0 <= i < slots.len() implies #[trigger] slots[i] < t by {
            assert(slots[i] == all[i]);
        }
    }
    chosen
}

/// The counts after the first `k` frames of a history of used entries.
pub open spec fn aged_often(history: Seq<Seq<bool>>, n: int, k: int) -> Seq<u16>
    decreases k,
{
    if k <= 0 {
        Seq::new(256, |i: int| 0u16)
    } else {
        rolling::aged(aged_often(history, n, k - 1), history[k - 1], n)
    }
}

/// A count tells for how many frames its entry went unused: those after the
/// last that used it, or all where none did, up to the largest number.
/// Entries that are not part of the codebook have a count of zero.
pub proof fn count_is_frames_unused(history: Seq<Seq<bool>>, n: int, k: int, slot: int, since: int)
    requires
        0 <= slot < 256,
        0 <= since <= k <= history.len(),
        since > 0 ==> history[since - 1][slot],
        forall|j: int| since <= j < k ==> !(#[trigger] history[j])[slot],
    ensures
        aged_often(history, n, k).len() == 256,
        slot < n && k - since <= 65535 ==> aged_often(history, n, k)[slot] == k - since,
        slot < n && k - since > 65535 ==> aged_often(history, n, k)[slot] == 65535,
        slot >= n ==> aged_often(history, n, k)[slot] == 0,
    decreases k,
{
    if k > 0 {
        if slot >= n || since < k {
            if since < k {
                count_is_frames_unused(history, n, k - 1, slot, since);
            } else {
                unused_is_zero(history, n, k - 1, slot);
            }
        }
    }
}

proof fn unused_is_zero(history: Seq<Seq<bool>>, n: int, k: int, slot: int)
    requires
        n <= slot < 256,
        0 <= slot,
    ensures
        aged_often(history, n, k).len() == 256,
        aged_often(history, n, k)[slot] == 0,
    decreases k,
{
    if k > 0 {
        unused_is_zero(history, n, k - 1, slot);
    }
}

/// The id of a kind of update tells by its bits whether it is for gray
/// entries, for V1 entries, and selective.
pub proof fn ids_tell_kinds(k: CodebookChunkKind)
    ensures
        codebook::kind_id(k) == 0x2000 + (if k.mode == PixelMode::Gray8 {
            0x400int
        } else {
            0int
        }) + (if k.which == codebook::WhichCodebook::V1 {
            0x200int
        } else {
            0int
        }) + (if k.style == UpdateStyle::Selective {
            0x100int
        } else {
            0int
        }),
{
}

/// Whether the decoder holds every entry that is used.
pub open spec fn holds_used(u: Update, held: Seq<CodebookEntry>) -> bool {
    forall|i: int| 0 <= i < u.n && u.used[i] ==> held[i] == #[trigger] u.cb[i]
}

/// An update is never longer than a full one, which takes four bytes and
/// those of its entries. Nothing is emitted exactly where updates may be
/// selective, need not be full, and the decoder holds a codebook of the same
/// size with every entry that is used.
pub proof fn update_is_short(u: Update, r: RollView)
    requires
        1 <= u.n <= 256,
        u.cb.len() == 256,
        u.used.len() == 256,
    ensures
        ({
            let e = rolling::emitted(u, r);
            let prev = rolling::held(r, u.which);
            &&& e.0.len() <= 4 + u.n * (if u.mode == PixelMode::Gray8 {
                4int
            } else {
                6int
            })
            &&& e.0.len() == 0 <==> u.selective && !u.force_full && prev is Some && (prev->0).1 == u.n
                && holds_used(u, (prev->0).0)
            &&& e.0.len() == 0 ==> e.1 == (prev->0).0
        }),
{
    let prev = rolling::held_of_size(r, u.which, u.n);
    let slots = rolling::outdated(prev, u.cb, u.used, u.n as int);
    rolling::outdated_order(prev, u.cb, u.used, u.n as int);
    codebook::entries_bytes_len(u.mode, u.cb, u.n);
    let size = codebook::entry_bytes_len(u.mode);
    assert(u.n * size >= 4) by (nonlinear_arith)
        requires
            u.n >= 1,
            size >= 4,
    ;
    if prev is Some {
        if slots.len() == 0 {
            assert forall|i: int| 0 <= i < u.n && u.used[i] implies prev->0[i] == #[trigger] u.cb[i] by {
                assert(!slots.contains(i as u8));
            }
            assert(holds_used(u, prev->0));
        } else {
            let t = slots[0];
            assert(slots.contains(t));
            assert(u.used[t as int] && prev->0[t as int] != u.cb[t as int]);
            assert(!holds_used(u, prev->0));
        }
        codebook::selective_len(u.mode, u.cb, slots);
    }
}

} // verus!
