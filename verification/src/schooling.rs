//! How the codebooks of a strip come about.

use vstd::prelude::*;
use crate::clustering;
use crate::codebook::CodebookEntry;
use crate::fitting;
use crate::median;
use crate::options::EncoderOptions;
use crate::planning::{self, PlanView, StripSource};
use crate::quant::{self, Metric};
use crate::rolling::{self, RollView};
use crate::seeding;
use crate::strips;
use crate::training::{self, Training};

verus! {

/// A former codebook is recentred, once at least, until it is settled or the
/// rounds are used up.
pub proof fn former_is_recentred(
    t: Training,
    m: Metric,
    vs: Seq<CodebookEntry>,
    n: int,
    former: Seq<CodebookEntry>,
) -> (k: nat)
    requires
        t.lloyd_max_iter > 0,
        vs.len() > 0,
        1 <= n <= 256,
    ensures
        1 <= k <= t.lloyd_max_iter,
        training::trained(t, m, vs, n, Some(former)) == clustering::recentred_often(
            m,
            vs,
            former,
            n,
            k,
        ),
        k < t.lloyd_max_iter ==> clustering::settled(
            m,
            clustering::recentred_often(m, vs, former, n, (k - 1) as nat),
            clustering::recentred_often(m, vs, former, n, k),
            n,
            t.lloyd_eps,
        ),
{
    clustering::rounds_until_settled(m, vs, former, n, t.lloyd_max_iter as nat, t.lloyd_eps)
}

/// A drawn codebook of two entries or more is recentred as well, once at
/// least where there are rounds.
pub proof fn drawn_is_recentred(
    m: Metric,
    vs: Seq<CodebookEntry>,
    n: int,
    iter: nat,
    eps: u32,
) -> (k: nat)
    requires
        vs.len() > 0,
        2 <= n <= 256,
    ensures
        k <= iter,
        iter > 0 ==> k >= 1,
        seeding::seeded_codebook(m, vs, n, iter, eps) == clustering::recentred_often(
            m,
            vs,
            seeding::seeded(m, vs, n),
            n,
            k,
        ),
        0 < k < iter ==> clustering::settled(
            m,
            clustering::recentred_often(m, vs, seeding::seeded(m, vs, n), n, (k - 1) as nat),
            clustering::recentred_often(m, vs, seeding::seeded(m, vs, n), n, k),
            n,
            eps,
        ),
{
    if iter == 0 {
        assert(clustering::recentred_often(m, vs, seeding::seeded(m, vs, n), n, 0)
            == seeding::seeded(m, vs, n));
        0
    } else {
        clustering::rounds_until_settled(m, vs, seeding::seeded(m, vs, n), n, iter, eps)
    }
}

/// Without rounds of recentring a codebook is cut anew, whatever there was
/// before. With nothing to learn from, a former one stays as it is. Without a
/// former one the codebook is the cut or the drawn one: the drawn one only
/// where that is asked for and better, and the cut one only where the drawn
/// one is not asked for or no better.
pub proof fn codebook_is_cut_or_drawn(
    t: Training,
    m: Metric,
    vs: Seq<CodebookEntry>,
    n: int,
    former: Option<Seq<CodebookEntry>>,
)
    requires
        1 <= n <= 256,
    ensures
        t.lloyd_max_iter == 0 ==> training::trained(t, m, vs, n, former) == median::cut_codebook(
            m,
            vs,
            n,
        ),
        t.lloyd_max_iter > 0 && former is Some && vs.len() == 0 ==> training::trained(
            t,
            m,
            vs,
            n,
            former,
        ) == former->0,
        former is None ==> ({
            let cut = median::cut_codebook(m, vs, n);
            let drawn = seeding::seeded_codebook(
                m,
                vs,
                n,
                t.kmeans_pp_lloyd_iter as nat,
                t.lloyd_eps,
            );
            let r = training::trained(t, m, vs, n, former);
            let asked = t.kmeans_pp_init && t.lloyd_max_iter > 0 && n >= 2 && vs.len() > 0;
            &&& r == cut || r == drawn
            &&& r != cut ==> asked
            &&& quant::total_error(m, vs, r, n) <= quant::total_error(m, vs, cut, n)
            &&& asked ==> quant::total_error(m, vs, r, n) <= quant::total_error(m, vs, drawn, n)
        }),
{
}

/// The codebooks that the plan of a strip starts from stand for its quarters,
/// and its macroblocks, at least as well as those that cutting makes, where
/// there are no former ones.
pub proof fn start_is_no_worse_than_cut(x: StripSource, o: EncoderOptions)
    requires
        1 <= o.v4_entries <= 256,
        1 <= o.v1_entries <= 256,
    ensures
        ({
            let m = planning::metric_of(x.picture.mode, o);
            let quarters = planning::kept_quads(x, planning::mb_total(x));
            let wholes = planning::kept_singles(x, planning::mb_total(x));
            let n4 = o.v4_entries as int;
            let n1 = o.v1_entries as int;
            &&& quant::total_error(m, quarters, planning::first_v4(x, o, None), n4)
                <= quant::total_error(m, quarters, median::cut_codebook(m, quarters, n4), n4)
            &&& quant::total_error(m, wholes, planning::first_v1(x, o, None), n1)
                <= quant::total_error(m, wholes, median::cut_codebook(m, wholes, n1), n1)
        }),
{
    let m = planning::metric_of(x.picture.mode, o);
    let quarters = planning::kept_quads(x, planning::mb_total(x));
    let wholes = planning::kept_singles(x, planning::mb_total(x));
    let t = planning::training_of(o);
    let n4 = o.v4_entries as int;
    let n1 = o.v1_entries as int;
    training::splitting_never_worse(
        m,
        quarters,
        training::trained(t, m, quarters, n4, None),
        n4,
        o.lbg_max_passes as nat,
    );
    training::splitting_never_worse(
        m,
        wholes,
        training::trained(t, m, wholes, n1, None),
        n1,
        o.lbg_max_passes as nat,
    );
}

/// Without splits, a strip starts from codebooks made under the settings of
/// its configuration, from its quarters and from its macroblocks.
pub proof fn start_without_splits(
    x: StripSource,
    o: EncoderOptions,
    seed4: Option<Seq<CodebookEntry>>,
    seed1: Option<Seq<CodebookEntry>>,
)
    requires
        o.lbg_max_passes == 0,
    ensures
        ({
            let m = planning::metric_of(x.picture.mode, o);
            let t = Training {
                lloyd_max_iter: o.lloyd_max_iter,
                lloyd_eps: o.lloyd_eps,
                kmeans_pp_init: o.kmeans_pp_init,
                kmeans_pp_lloyd_iter: o.kmeans_pp_lloyd_iter,
            };
            &&& planning::first_v4(x, o, seed4) == training::trained(
                t,
                m,
                planning::kept_quads(x, planning::mb_total(x)),
                o.v4_entries as int,
                seed4,
            )
            &&& planning::first_v1(x, o, seed1) == training::trained(
                t,
                m,
                planning::kept_singles(x, planning::mb_total(x)),
                o.v1_entries as int,
                seed1,
            )
        }),
{
}

/// A plan is what fitting makes of the codebooks that it starts from, in as
/// many rounds as are allowed or until they fit.
pub proof fn plan_is_fitted(
    x: StripSource,
    o: EncoderOptions,
    seed4: Option<Seq<CodebookEntry>>,
    seed1: Option<Seq<CodebookEntry>>,
) -> (k: nat)
    ensures
        ({
            let v4 = planning::first_v4(x, o, seed4);
            let v1 = planning::first_v1(x, o, seed1);
            let start = PlanView { v4, v1, mbs: planning::choices(x, o, v4, v1) };
            let p = planning::strip_plan(x, o, seed4, seed1);
            &&& k <= o.pcl_max_iter
            &&& p == fitting::fitted_often(x, o, start, k)
            &&& k < o.pcl_max_iter ==> fitting::fits(x, o, p)
            &&& forall|j: nat| j < k ==> !fitting::fits(x, o, #[trigger] fitting::fitted_often(x, o, start, j))
        }),
{
    reveal(planning::strip_plan);
    let v4 = planning::first_v4(x, o, seed4);
    let v1 = planning::first_v1(x, o, seed1);
    let start = PlanView { v4, v1, mbs: planning::choices(x, o, v4, v1) };
    fitting::polished_until_it_fits(x, o, start, o.pcl_max_iter as nat)
}

/// A strip that builds on what came before is planned from the codebooks that
/// the decoder holds, each where it has the size asked for; where none may be
/// built on, it is planned as if it stood alone.
pub proof fn planned_from_held(x: StripSource, o: EncoderOptions, r: RollView)
    requires
        o.stale_slot_threshold is None,
    ensures
        strips::inter_plan(x, o, r, false).0 == planning::strip_plan(x, o, None, None),
        r.v4 is None && r.v1 is None ==> strips::inter_plan(x, o, r, true).0 == planning::strip_plan(
            x,
            o,
            None,
            None,
        ),
        r.v4 is Some && r.v1 is Some && (r.v4->0).1 == o.v4_entries && (r.v1->0).1 == o.v1_entries
            ==> strips::inter_plan(x, o, r, true).0 == planning::strip_plan(
            x,
            o,
            Some((r.v4->0).0),
            Some((r.v1->0).0),
        ),
{
}

} // verus!
