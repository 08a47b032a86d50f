//! How codebooks are fitted to the macroblocks that use them.

use vstd::prelude::*;
use crate::clustering;
use crate::codebook::{CodebookEntry, PixelMode};
use crate::options::EncoderOptions;
use crate::planning::{self, PlanView, StripSource};
use crate::quant;
use crate::vector::Mb;

verus! {

/// One where a condition holds, and zero where it does not.
pub open spec fn one_if(p: bool) -> int {
    if p {
        1
    } else {
        0
    }
}

/// How often quarters that equal `e` are coded by V4 entry `slot` in the
/// macroblocks from `i` on.
pub open spec fn quarters_coded(
    x: StripSource,
    mbs: Seq<Mb>,
    slot: int,
    e: CodebookEntry,
    i: int,
) -> int
    decreases mbs.len() - i,
{
    if i < 0 || i >= mbs.len() {
        0
    } else {
        quarters_coded(x, mbs, slot, e, i + 1) + match mbs[i] {
            Mb::V4(s) => {
                let q = planning::quads_at(x, i);
                one_if(s[0] == slot && q[0] == e) + one_if(s[1] == slot && q[1] == e) + one_if(
                    s[2] == slot && q[2] == e,
                ) + one_if(s[3] == slot && q[3] == e)
            },
            _ => 0,
        }
    }
}

/// How often macroblocks that equal `e` are coded by V1 entry `slot` among
/// the macroblocks from `i` on.
pub open spec fn wholes_coded(
    x: StripSource,
    mbs: Seq<Mb>,
    slot: int,
    e: CodebookEntry,
    i: int,
) -> int
    decreases mbs.len() - i,
{
    if i < 0 || i >= mbs.len() {
        0
    } else {
        wholes_coded(x, mbs, slot, e, i + 1) + one_if(
            mbs[i] matches Mb::V1(s) && s == slot && planning::single_at(x, i) == e,
        )
    }
}

proof fn coded_quads_counted(quads: Seq<CodebookEntry>, s: [u8; 4], slot: int, e: CodebookEntry)
    ensures
        clustering::times(planning::coded_quads(quads, s, slot, 4), e, 0) == one_if(
            s[0] == slot && quads[0] == e,
        ) + one_if(s[1] == slot && quads[1] == e) + one_if(s[2] == slot && quads[2] == e) + one_if(
            s[3] == slot && quads[3] == e,
        ),
{
    assert(clustering::times(planning::coded_quads(quads, s, slot, 0), e, 0) == 0);
    clustering::times_of_pushed(planning::coded_quads(quads, s, slot, 0), quads[0], e);
    assert(clustering::times(planning::coded_quads(quads, s, slot, 1), e, 0) == one_if(
        s[0] == slot && quads[0] == e,
    ));
    clustering::times_of_pushed(planning::coded_quads(quads, s, slot, 1), quads[1], e);
    assert(clustering::times(planning::coded_quads(quads, s, slot, 2), e, 0) == one_if(
        s[0] == slot && quads[0] == e,
    ) + one_if(s[1] == slot && quads[1] == e));
    clustering::times_of_pushed(planning::coded_quads(quads, s, slot, 2), quads[2], e);
    assert(clustering::times(planning::coded_quads(quads, s, slot, 3), e, 0) == one_if(
        s[0] == slot && quads[0] == e,
    ) + one_if(s[1] == slot && quads[1] == e) + one_if(s[2] == slot && quads[2] == e));
    clustering::times_of_pushed(planning::coded_quads(quads, s, slot, 3), quads[3], e);
}

proof fn users_counted(x: StripSource, mbs: Seq<Mb>, slot: int, e: CodebookEntry, k: int)
    requires
        0 <= k <= mbs.len(),
    ensures
        clustering::times(planning::v4_users(x, mbs, slot, k), e, 0) == quarters_coded(
            x,
            mbs,
            slot,
            e,
            0,
        ) - quarters_coded(x, mbs, slot, e, k),
        clustering::times(planning::v1_users(x, mbs, slot, k), e, 0) == wholes_coded(
            x,
            mbs,
            slot,
            e,
            0,
        ) - wholes_coded(x, mbs, slot, e, k),
    decreases k,
{
    if k > 0 {
        users_counted(x, mbs, slot, e, k - 1);
        match mbs[k - 1] {
            Mb::V4(s) => {
                let q = planning::quads_at(x, k - 1);
                coded_quads_counted(q, s, slot, e);
                clustering::times_of_joined(
                    planning::v4_users(x, mbs, slot, k - 1),
                    planning::coded_quads(q, s, slot, 4),
                    e,
                    0,
                );
            },
            Mb::V1(s) => {
                clustering::times_of_pushed(
                    planning::v1_users(x, mbs, slot, k - 1),
                    planning::single_at(x, k - 1),
                    e,
                );
            },
            Mb::Skip => {},
        }
    }
}

/// The users of a V4 entry are the quarters that it codes, and those of a V1
/// entry the macroblocks.
pub proof fn users_are_coded(x: StripSource, mbs: Seq<Mb>, slot: int, e: CodebookEntry)
    ensures
        clustering::times(planning::v4_users(x, mbs, slot, mbs.len() as int), e, 0)
            == quarters_coded(x, mbs, slot, e, 0),
        clustering::times(planning::v1_users(x, mbs, slot, mbs.len() as int), e, 0) == wholes_coded(
            x,
            mbs,
            slot,
            e,
            0,
        ),
{
    users_counted(x, mbs, slot, e, mbs.len() as int);
}

/// Fitting makes every used entry the mean of its users, and keeps the rest.
pub proof fn fitted_entry_is_mean(
    x: StripSource,
    mbs: Seq<Mb>,
    cb: Seq<CodebookEntry>,
    slot: int,
)
    requires
        0 <= slot < 256,
    ensures
        ({
            let u = planning::v4_users(x, mbs, slot, mbs.len() as int);
            let e = planning::fitted_v4(x, mbs, cb)[slot];
            if u.len() > 0 {
                clustering::stands_for_all(x.picture.mode, e, u)
            } else {
                e == cb[slot]
            }
        }),
        ({
            let u = planning::v1_users(x, mbs, slot, mbs.len() as int);
            let e = planning::fitted_v1(x, mbs, cb)[slot];
            if u.len() > 0 {
                clustering::stands_for_all(x.picture.mode, e, u)
            } else {
                e == cb[slot]
            }
        }),
{
    let a = planning::v4_users(x, mbs, slot, mbs.len() as int);
    let b = planning::v1_users(x, mbs, slot, mbs.len() as int);
    if a.len() > 0 {
        clustering::centre_is_mean(x.picture.mode, a);
    }
    if b.len() > 0 {
        clustering::centre_is_mean(x.picture.mode, b);
    }
}

/// A plan fitted and coded anew once.
pub open spec fn fitted_once(x: StripSource, o: EncoderOptions, p: PlanView) -> PlanView {
    let v4 = planning::fitted_v4(x, p.mbs, p.v4);
    let v1 = planning::fitted_v1(x, p.mbs, p.v1);
    PlanView { v4, v1, mbs: planning::choices(x, o, v4, v1) }
}

/// A plan fitted and coded anew `k` times.
pub open spec fn fitted_often(x: StripSource, o: EncoderOptions, p: PlanView, k: nat) -> PlanView
    decreases k,
{
    if k == 0 {
        p
    } else {
        fitted_once(x, o, fitted_often(x, o, p, (k - 1) as nat))
    }
}

/// Whether fitting would change no entry.
pub open spec fn fits(x: StripSource, o: EncoderOptions, p: PlanView) -> bool {
    fitted_once(x, o, p).v4 == p.v4 && fitted_once(x, o, p).v1 == p.v1
}

proof fn polishing_from(x: StripSource, o: EncoderOptions, p: PlanView, done: nat, rounds: nat) -> (k:
    nat)
    ensures
        done <= k <= done + rounds,
        planning::polished(x, o, fitted_often(x, o, p, done), rounds) == fitted_often(x, o, p, k),
        k < done + rounds ==> fits(x, o, fitted_often(x, o, p, k)),
        forall|j: nat| done <= j < k ==> !fits(x, o, #[trigger] fitted_often(x, o, p, j)),
    decreases rounds,
{
    let now = fitted_often(x, o, p, done);
    if rounds == 0 {
        done
    } else if fits(x, o, now) {
        done
    } else {
        assert(fitted_often(x, o, p, done + 1) == fitted_once(x, o, now));
        let k = polishing_from(x, o, p, done + 1, (rounds - 1) as nat);
        assert forall|j: nat| done <= j < k implies !fits(
            x,
            o,
            #[trigger] fitted_often(x, o, p, j),
        ) by {
            if j == done {
            }
        }
        k
    }
}

/// Polishing goes on until the codebooks fit their users, or all the rounds
/// are used.
pub proof fn polished_until_it_fits(x: StripSource, o: EncoderOptions, p: PlanView, rounds: nat) -> (k:
    nat)
    ensures
        k <= rounds,
        planning::polished(x, o, p, rounds) == fitted_often(x, o, p, k),
        k < rounds ==> fits(x, o, planning::polished(x, o, p, rounds)),
        forall|j: nat| j < k ==> !fits(x, o, #[trigger] fitted_often(x, o, p, j)),
{
    polishing_from(x, o, p, 0, rounds)
}

/// How often `e` is a quarter of a macroblock from `i` up to `end` that is
/// not skipped.
pub open spec fn quarters_kept(x: StripSource, e: CodebookEntry, i: int, end: int) -> int
    decreases end - i,
{
    if i >= end {
        0
    } else {
        let q = planning::quads_at(x, i);
        quarters_kept(x, e, i + 1, end) + if planning::skipped_at(x, i) {
            0
        } else {
            one_if(q[0] == e) + one_if(q[1] == e) + one_if(q[2] == e) + one_if(q[3] == e)
        }
    }
}

/// How often `e` is a macroblock from `i` up to `end` that is not skipped.
pub open spec fn wholes_kept(x: StripSource, e: CodebookEntry, i: int, end: int) -> int
    decreases end - i,
{
    if i >= end {
        0
    } else {
        wholes_kept(x, e, i + 1, end) + one_if(
            !planning::skipped_at(x, i) && planning::single_at(x, i) == e,
        )
    }
}

proof fn kept_from_end(x: StripSource, e: CodebookEntry, i: int, end: int)
    requires
        i < end,
    ensures
        quarters_kept(x, e, i, end) == quarters_kept(x, e, i, end - 1) + quarters_kept(
            x,
            e,
            end - 1,
            end,
        ),
        wholes_kept(x, e, i, end) == wholes_kept(x, e, i, end - 1) + wholes_kept(x, e, end - 1, end),
    decreases end - i,
{
    if i < end - 1 {
        kept_from_end(x, e, i + 1, end);
    }
}

proof fn times_of_four(q: Seq<CodebookEntry>, e: CodebookEntry)
    requires
        q.len() == 4,
    ensures
        clustering::times(q, e, 0) == one_if(q[0] == e) + one_if(q[1] == e) + one_if(q[2] == e)
            + one_if(q[3] == e),
{
    reveal_with_fuel(clustering::times, 5);
}

/// The vectors that the codebooks of a strip are made from are the quarters,
/// and the macroblocks, that are not skipped.
pub proof fn kept_are_learned(x: StripSource, e: CodebookEntry, k: int)
    requires
        0 <= k,
    ensures
        clustering::times(planning::kept_quads(x, k), e, 0) == quarters_kept(x, e, 0, k),
        clustering::times(planning::kept_singles(x, k), e, 0) == wholes_kept(x, e, 0, k),
    decreases k,
{
    if k > 0 {
        kept_are_learned(x, e, k - 1);
        kept_from_end(x, e, 0, k);
        assert(quarters_kept(x, e, k, k) == 0 && wholes_kept(x, e, k, k) == 0);
        let q = planning::quads_at(x, k - 1);
        reveal(crate::sampling::block4);
        assert(q.len() == 4);
        times_of_four(q, e);
        clustering::times_of_joined(planning::kept_quads(x, k - 1), q, e, 0);
        clustering::times_of_pushed(
            planning::kept_singles(x, k - 1),
            planning::single_at(x, k - 1),
            e,
        );
    }
}

/// Distances are measured as configured: luma counts as often as its weight
/// says, a weight of zero as one, and gray has no weight.
pub proof fn measured_as_configured(o: EncoderOptions, mode: PixelMode, a: CodebookEntry, b: CodebookEntry)
    ensures
        ({
            let l = (a.y0 - b.y0) * (a.y0 - b.y0) + (a.y1 - b.y1) * (a.y1 - b.y1) + (a.y2 - b.y2) * (
            a.y2 - b.y2) + (a.y3 - b.y3) * (a.y3 - b.y3);
            let c = (a.u - b.u) * (a.u - b.u) + (a.v - b.v) * (a.v - b.v);
            let d = quant::distance(planning::metric_of(mode, o), a, b);
            &&& mode == PixelMode::Gray8 ==> d == l
            &&& mode == PixelMode::Yuv12 && o.luma_weight == 0 ==> d == l + c
            &&& mode == PixelMode::Yuv12 && o.luma_weight > 0 ==> d == o.luma_weight * l + c
        }),
{
    reveal(quant::distance);
    let l = (a.y0 - b.y0) * (a.y0 - b.y0) + (a.y1 - b.y1) * (a.y1 - b.y1) + (a.y2 - b.y2) * (a.y2
        - b.y2) + (a.y3 - b.y3) * (a.y3 - b.y3);
    assert(1 * l == l) by (nonlinear_arith);
}

} // verus!
