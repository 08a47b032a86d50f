//! What the price of bits does to the pixels that are shown.

use vstd::prelude::*;
use crate::codebook::{CodebookEntry, PixelMode};
use crate::colours;
use crate::decoder::{self, Paint};
use crate::drawing;
use crate::fidelity;
use crate::options::EncoderOptions;
use crate::planning::{self, PlanView, StripSource};
use crate::quant;
use crate::sampling::{self, SourceView};
use crate::vector::Mb;

verus! {

/// The squared error of an entry's four lumas that are shown as `a` to `d`.
pub open spec fn quarter_loss(e: CodebookEntry, a: u8, b: u8, c: u8, d: u8) -> int {
    (e.y0 - a) * (e.y0 - a) + (e.y1 - b) * (e.y1 - b) + (e.y2 - c) * (e.y2 - c) + (e.y3 - d) * (e.y3
        - d)
}

/// The squared luma error of a macroblock that is shown as four entries.
pub open spec fn four_loss(quads: Seq<CodebookEntry>, v4: Seq<CodebookEntry>, x: [u8; 4]) -> int {
    let (a, b, c, d) = (v4[x[0] as int], v4[x[1] as int], v4[x[2] as int], v4[x[3] as int]);
    quarter_loss(quads[0], a.y0, a.y1, a.y2, a.y3) + quarter_loss(quads[1], b.y0, b.y1, b.y2, b.y3)
        + quarter_loss(quads[2], c.y0, c.y1, c.y2, c.y3) + quarter_loss(
        quads[3],
        d.y0,
        d.y1,
        d.y2,
        d.y3,
    )
}

/// The squared luma error of a macroblock that is shown as one entry.
pub open spec fn one_loss(quads: Seq<CodebookEntry>, e: CodebookEntry) -> int {
    quarter_loss(quads[0], e.y0, e.y0, e.y0, e.y0) + quarter_loss(quads[1], e.y1, e.y1, e.y1, e.y1)
        + quarter_loss(quads[2], e.y2, e.y2, e.y2, e.y2) + quarter_loss(
        quads[3],
        e.y3,
        e.y3,
        e.y3,
        e.y3,
    )
}

/// The squared luma error of a macroblock as it is coded.
pub open spec fn loss(
    quads: Seq<CodebookEntry>,
    mb: Mb,
    v4: Seq<CodebookEntry>,
    v1: Seq<CodebookEntry>,
) -> int {
    match mb {
        Mb::V4(x) => four_loss(quads, v4, x),
        Mb::V1(x) => one_loss(quads, v1[x as int]),
        Mb::Skip => 0,
    }
}

/// Whether entry `x` is among the first `n` of a codebook, and none of these
/// is nearer to `t`, nor as near and before it.
pub open spec fn stands_nearest(
    mode: PixelMode,
    luma_weight: u8,
    t: CodebookEntry,
    cb: Seq<CodebookEntry>,
    n: int,
    x: u8,
) -> bool {
    let m = quant::Metric { mode, luma_weight };
    &&& x < n
    &&& forall|j: int|
        0 <= j < n ==> quant::distance(m, t, cb[x as int]) <= #[trigger] quant::distance(
            m,
            t,
            cb[j],
        )
    &&& forall|j: int|
        0 <= j < x ==> quant::distance(m, t, cb[x as int]) < #[trigger] quant::distance(m, t, cb[j])
}

/// Whether four entries are each nearest to a quarter.
pub open spec fn four_nearest(
    mode: PixelMode,
    luma_weight: u8,
    quads: Seq<CodebookEntry>,
    v4: Seq<CodebookEntry>,
    n: int,
    x: [u8; 4],
) -> bool {
    &&& stands_nearest(mode, luma_weight, quads[0], v4, n, x[0])
    &&& stands_nearest(mode, luma_weight, quads[1], v4, n, x[1])
    &&& stands_nearest(mode, luma_weight, quads[2], v4, n, x[2])
    &&& stands_nearest(mode, luma_weight, quads[3], v4, n, x[3])
}

proof fn same_measure(mode: PixelMode, o: EncoderOptions, a: CodebookEntry, b: CodebookEntry)
    ensures
        quant::distance(planning::metric_of(mode, o), a, b) == quant::distance(
            quant::Metric { mode, luma_weight: o.luma_weight },
            a,
            b,
        ),
{
    quant::weight_zero_is_one(mode, a, b);
    quant::gray_ignores_weight(1, o.luma_weight, a, b);
}

proof fn slot_stands_nearest(
    mode: PixelMode,
    o: EncoderOptions,
    t: CodebookEntry,
    cb: Seq<CodebookEntry>,
    n: int,
)
    requires
        1 <= n <= 256,
    ensures
        stands_nearest(
            mode,
            o.luma_weight,
            t,
            cb,
            n,
            quant::nearest_slot(planning::metric_of(mode, o), t, cb, n) as u8,
        ),
        0 <= quant::nearest_slot(planning::metric_of(mode, o), t, cb, n) < n,
{
    let m = planning::metric_of(mode, o);
    quant::nearest_is_least(m, t, cb, n);
    assert forall|j: int|
        0 <= j < n implies #[trigger] quant::distance(
        quant::Metric { mode, luma_weight: o.luma_weight },
        t,
        cb[j],
    ) == quant::distance(m, t, cb[j]) by {
        same_measure(mode, o, t, cb[j]);
    }
}

proof fn nearest_is_one(
    mode: PixelMode,
    w: u8,
    t: CodebookEntry,
    cb: Seq<CodebookEntry>,
    n: int,
    x: u8,
    y: u8,
)
    requires
        stands_nearest(mode, w, t, cb, n, x),
        stands_nearest(mode, w, t, cb, n, y),
    ensures
        x == y,
{
    let m = quant::Metric { mode, luma_weight: w };
    assert(quant::distance(m, t, cb[x as int]) <= quant::distance(m, t, cb[y as int]));
    assert(quant::distance(m, t, cb[y as int]) <= quant::distance(m, t, cb[x as int]));
}

/// A macroblock is coded with the entries nearest to it: with the one nearest
/// to it as a whole, or with the four nearest to its quarters. With a price
/// of bits, it is coded with one exactly where that adds no more luma error
/// than 24 bits are worth; so what the loss can gain by other entries is
/// bounded in colour as in gray. Without a price, the distances decide.
pub proof fn price_bounds_loss(
    o: EncoderOptions,
    mode: PixelMode,
    quads: Seq<CodebookEntry>,
    single: CodebookEntry,
    v4: Seq<CodebookEntry>,
    v1: Seq<CodebookEntry>,
    x: [u8; 4],
    z: u8,
)
    requires
        1 <= o.v4_entries <= 256,
        1 <= o.v1_entries <= 256,
        quads.len() == 4,
        four_nearest(mode, o.luma_weight, quads, v4, o.v4_entries as int, x),
        stands_nearest(mode, o.luma_weight, single, v1, o.v1_entries as int, z),
    ensures
        ({
            let mb = planning::choice(o, mode, quads, single, v4, v1);
            let m = quant::Metric { mode, luma_weight: o.luma_weight };
            &&& mb == Mb::V4(x) || mb == Mb::V1(z)
            &&& o.rdo_lambda matches Some(l) ==> {
                &&& mb is V1 <==> (one_loss(quads, v1[z as int]) - four_loss(quads, v4, x)) * 65536
                    <= 24 * l
                &&& l >= 0 ==> loss(quads, mb, v4, v1) * 65536 <= four_loss(quads, v4, x) * 65536 + 24
                    * l
            }
            &&& o.rdo_lambda is None ==> (mb is V1 <==> quant::distance(m, single, v1[z as int])
                <= quant::distance(m, quads[0], v4[x[0] as int]) + quant::distance(
                m,
                quads[1],
                v4[x[1] as int],
            ) + quant::distance(m, quads[2], v4[x[2] as int]) + quant::distance(
                m,
                quads[3],
                v4[x[3] as int],
            ))
        }),
{
    reveal(planning::choice);
    let m = planning::metric_of(mode, o);
    let n4 = o.v4_entries as int;
    let n1 = o.v1_entries as int;
    let q = planning::nearest_quads(m, n4, quads, v4);
    slot_stands_nearest(mode, o, single, v1, n1);
    nearest_is_one(mode, o.luma_weight, single, v1, n1, z, quant::nearest_slot(m, single, v1, n1) as u8);
    slot_stands_nearest(mode, o, quads[0], v4, n4);
    slot_stands_nearest(mode, o, quads[1], v4, n4);
    slot_stands_nearest(mode, o, quads[2], v4, n4);
    slot_stands_nearest(mode, o, quads[3], v4, n4);
    nearest_is_one(mode, o.luma_weight, quads[0], v4, n4, x[0], q[0] as u8);
    nearest_is_one(mode, o.luma_weight, quads[1], v4, n4, x[1], q[1] as u8);
    nearest_is_one(mode, o.luma_weight, quads[2], v4, n4, x[2], q[2] as u8);
    nearest_is_one(mode, o.luma_weight, quads[3], v4, n4, x[3], q[3] as u8);
    let y = [q[0] as u8, q[1] as u8, q[2] as u8, q[3] as u8];
    assert(x@ =~= y@);
    assert(x =~= y);
    same_measure(mode, o, single, v1[z as int]);
    same_measure(mode, o, quads[0], v4[x[0] as int]);
    same_measure(mode, o, quads[1], v4[x[1] as int]);
    same_measure(mode, o, quads[2], v4[x[2] as int]);
    same_measure(mode, o, quads[3], v4[x[3] as int]);
}

proof fn choice_entries(
    o: EncoderOptions,
    mode: PixelMode,
    quads: Seq<CodebookEntry>,
    single: CodebookEntry,
    v4: Seq<CodebookEntry>,
    v1: Seq<CodebookEntry>,
) -> (r: ([u8; 4], u8))
    requires
        1 <= o.v4_entries <= 256,
        1 <= o.v1_entries <= 256,
        quads.len() == 4,
    ensures
        four_nearest(mode, o.luma_weight, quads, v4, o.v4_entries as int, r.0),
        stands_nearest(mode, o.luma_weight, single, v1, o.v1_entries as int, r.1),
{
    let m = planning::metric_of(mode, o);
    let n4 = o.v4_entries as int;
    let n1 = o.v1_entries as int;
    slot_stands_nearest(mode, o, single, v1, n1);
    slot_stands_nearest(mode, o, quads[0], v4, n4);
    slot_stands_nearest(mode, o, quads[1], v4, n4);
    slot_stands_nearest(mode, o, quads[2], v4, n4);
    slot_stands_nearest(mode, o, quads[3], v4, n4);
    (
        [
            quant::nearest_slot(m, quads[0], v4, n4) as u8,
            quant::nearest_slot(m, quads[1], v4, n4) as u8,
            quant::nearest_slot(m, quads[2], v4, n4) as u8,
            quant::nearest_slot(m, quads[3], v4, n4) as u8,
        ],
        quant::nearest_slot(m, single, v1, n1) as u8,
    )
}

/// The squared error of two by two pixels of a gray picture that was drawn.
pub open spec fn square_shown(got: Seq<u8>, s: SourceView, row: int, col: int) -> int {
    let (a, b) = (drawing::gray_at(s.width, row, col), drawing::gray_at(s.width, row, col + 1));
    let (c, d) = (drawing::gray_at(s.width, row + 1, col), drawing::gray_at(s.width, row + 1, col + 1));
    (s.pixels[a] - got[a]) * (s.pixels[a] - got[a]) + (s.pixels[b] - got[b]) * (s.pixels[b] - got[b])
        + (s.pixels[c] - got[c]) * (s.pixels[c] - got[c]) + (s.pixels[d] - got[d]) * (s.pixels[d]
        - got[d])
}

/// The squared error of a macroblock of a gray picture that was drawn.
pub open spec fn shown_loss(got: Seq<u8>, s: SourceView, px: int, py: int) -> int {
    square_shown(got, s, py, px) + square_shown(got, s, py, px + 2) + square_shown(
        got,
        s,
        py + 2,
        px,
    ) + square_shown(got, s, py + 2, px + 2)
}

/// The error of a drawn gray macroblock is that of its entries.
pub proof fn loss_is_shown(s: SourceView, out: Seq<u8>, a: Paint, mb: Mb, px: int, py: int)
    requires
        s.mode == PixelMode::Gray8,
        a.mode == PixelMode::Gray8,
        !(mb is Skip),
        fidelity::inside(s, px, py),
        out.len() == s.width * s.height,
    ensures
        shown_loss(decoder::draw_mb(out, s.width, a, mb, px, py), s, px, py) == loss(
            sampling::block4(s, px, py),
            mb,
            a.v4,
            a.v1,
        ),
{
    let (w, h) = (s.width, s.height);
    fidelity::gray_square(s, py, px);
    fidelity::gray_square(s, py, px + 2);
    fidelity::gray_square(s, py + 2, px);
    fidelity::gray_square(s, py + 2, px + 2);
    match mb {
        Mb::V4(x) => {
            drawing::gray_quarter_shown(out, a, x, px, py, w, h, 0, 0);
            drawing::gray_quarter_shown(out, a, x, px, py, w, h, 0, 1);
            drawing::gray_quarter_shown(out, a, x, px, py, w, h, 1, 0);
            drawing::gray_quarter_shown(out, a, x, px, py, w, h, 1, 1);
        },
        Mb::V1(x) => {
            drawing::gray_whole_shown(out, a, x, px, py, w, h, 0, 0);
            drawing::gray_whole_shown(out, a, x, px, py, w, h, 0, 1);
            drawing::gray_whole_shown(out, a, x, px, py, w, h, 1, 0);
            drawing::gray_whole_shown(out, a, x, px, py, w, h, 1, 1);
        },
        Mb::Skip => {},
    }
}

/// Whether four indices lie within the size of a codebook.
pub open spec fn within(x: [u8; 4], n: int) -> bool {
    x[0] < n && x[1] < n && x[2] < n && x[3] < n
}

proof fn nearest_loses_least(
    quads: Seq<CodebookEntry>,
    v4: Seq<CodebookEntry>,
    n: int,
    w: u8,
    x: [u8; 4],
    y: [u8; 4],
)
    requires
        four_nearest(PixelMode::Gray8, w, quads, v4, n, x),
        within(y, n),
    ensures
        four_loss(quads, v4, x) <= four_loss(quads, v4, y),
{
    let m = quant::Metric { mode: PixelMode::Gray8, luma_weight: w };
    assert forall|k: int| 0 <= k < 4 implies quant::distance(m, quads[k], v4[#[trigger] x[k] as int])
        <= quant::distance(m, quads[k], v4[y[k] as int]) by {}
    assert(x[0] == x[0] && x[1] == x[1] && x[2] == x[2] && x[3] == x[3]);
    colours::distance_parts(m, quads[0], v4[x[0] as int]);
    colours::distance_parts(m, quads[1], v4[x[1] as int]);
    colours::distance_parts(m, quads[2], v4[x[2] as int]);
    colours::distance_parts(m, quads[3], v4[x[3] as int]);
    colours::distance_parts(m, quads[0], v4[y[0] as int]);
    colours::distance_parts(m, quads[1], v4[y[1] as int]);
    colours::distance_parts(m, quads[2], v4[y[2] as int]);
    colours::distance_parts(m, quads[3], v4[y[3] as int]);
}

/// A gray macroblock, drawn as it is coded, shows its picture as well as any
/// four entries of the codebook would, but for what 24 bits are worth.
pub proof fn gray_shown_well(
    s: SourceView,
    o: EncoderOptions,
    v4: Seq<CodebookEntry>,
    v1: Seq<CodebookEntry>,
    out: Seq<u8>,
    px: int,
    py: int,
    y: [u8; 4],
    l: i64,
)
    requires
        s.mode == PixelMode::Gray8,
        fidelity::inside(s, px, py),
        out.len() == s.width * s.height,
        1 <= o.v4_entries <= 256,
        1 <= o.v1_entries <= 256,
        o.rdo_lambda == Some(l),
        l >= 0,
        within(y, o.v4_entries as int),
    ensures
        ({
            let a = Paint { mode: PixelMode::Gray8, v4, v1, prev: None };
            let quads = sampling::block4(s, px, py);
            let mb = planning::choice(
                o,
                PixelMode::Gray8,
                quads,
                sampling::block1(s, px, py),
                v4,
                v1,
            );
            let coded = decoder::draw_mb(out, s.width, a, mb, px, py);
            let other = decoder::draw_mb(out, s.width, a, Mb::V4(y), px, py);
            shown_loss(coded, s, px, py) * 65536 <= shown_loss(other, s, px, py) * 65536 + 24 * l
        }),
{
    let a = Paint { mode: PixelMode::Gray8, v4, v1, prev: None };
    let quads = sampling::block4(s, px, py);
    let single = sampling::block1(s, px, py);
    let mb = planning::choice(o, PixelMode::Gray8, quads, single, v4, v1);
    let (x, z) = choice_entries(o, PixelMode::Gray8, quads, single, v4, v1);
    price_bounds_loss(o, PixelMode::Gray8, quads, single, v4, v1, x, z);
    nearest_loses_least(quads, v4, o.v4_entries as int, o.luma_weight, x, y);
    loss_is_shown(s, out, a, mb, px, py);
    loss_is_shown(s, out, a, Mb::V4(y), px, py);
}

proof fn polished_is_chosen(x: StripSource, o: EncoderOptions, p: PlanView, rounds: nat)
    requires
        p.mbs == planning::choices(x, o, p.v4, p.v1),
    ensures
        ({
            let q = planning::polished(x, o, p, rounds);
            q.mbs == planning::choices(x, o, q.v4, q.v1)
        }),
    decreases rounds,
{
    if rounds > 0 {
        let v4 = planning::fitted_v4(x, p.mbs, p.v4);
        let v1 = planning::fitted_v1(x, p.mbs, p.v1);
        polished_is_chosen(
            x,
            o,
            PlanView { v4, v1, mbs: planning::choices(x, o, v4, v1) },
            (rounds - 1) as nat,
        );
    }
}

/// Every macroblock of a plan that is not skipped is coded as suits it best
/// with the very codebooks that the plan ends with.
pub proof fn plan_is_chosen(
    x: StripSource,
    o: EncoderOptions,
    seed4: Option<Seq<CodebookEntry>>,
    seed1: Option<Seq<CodebookEntry>>,
    k: int,
)
    requires
        0 <= k < planning::mb_total(x),
    ensures
        ({
            let p = planning::strip_plan(x, o, seed4, seed1);
            let cols = x.picture.width / 4;
            let px = drawing::left_of(0, cols, k);
            let py = drawing::top_of(x.top, cols, k);
            p.mbs.len() == planning::mb_total(x) && (p.mbs[k] is Skip || p.mbs[k] == planning::choice(
                o,
                x.picture.mode,
                sampling::block4(x.picture, px, py),
                sampling::block1(x.picture, px, py),
                p.v4,
                p.v1,
            ))
        }),
{
    reveal(planning::strip_plan);
    let v4 = planning::first_v4(x, o, seed4);
    let v1 = planning::first_v1(x, o, seed1);
    polished_is_chosen(
        x,
        o,
        PlanView { v4, v1, mbs: planning::choices(x, o, v4, v1) },
        o.pcl_max_iter as nat,
    );
}

} // verus!
