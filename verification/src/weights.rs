//! What the luma weight and the price of bits do.

use vstd::prelude::*;
use crate::codebook::{CodebookEntry, PixelMode};
use crate::encoder;
use crate::image::PlaneView;
use crate::options::EncoderOptions;
use crate::planning::{self, PlanView, StripSource};
use crate::quant;
use crate::rolling::{self, RollView};
use crate::sampling::{SourceView, FIXED_ONE};
use crate::session::{self, EncoderState};
use crate::strips::{self, StripPlan};

verus! {

/// Whether two configurations differ at most in the luma weight, and measure
/// the same.
pub open spec fn alike(mode: PixelMode, a: EncoderOptions, b: EncoderOptions) -> bool {
    &&& a == (EncoderOptions { luma_weight: a.luma_weight, ..b })
    &&& planning::metric_of(mode, a) == planning::metric_of(mode, b)
}

proof fn choices_alike(
    x: StripSource,
    a: EncoderOptions,
    b: EncoderOptions,
    v4: Seq<CodebookEntry>,
    v1: Seq<CodebookEntry>,
)
    requires
        alike(x.picture.mode, a, b),
    ensures
        planning::choices(x, a, v4, v1) == planning::choices(x, b, v4, v1),
{
    reveal(planning::choice);
    assert(planning::choices(x, a, v4, v1) =~= planning::choices(x, b, v4, v1));
}

proof fn polished_alike(
    x: StripSource,
    a: EncoderOptions,
    b: EncoderOptions,
    p: PlanView,
    rounds: nat,
)
    requires
        alike(x.picture.mode, a, b),
    ensures
        planning::polished(x, a, p, rounds) == planning::polished(x, b, p, rounds),
    decreases rounds,
{
    if rounds > 0 {
        let v4 = planning::fitted_v4(x, p.mbs, p.v4);
        let v1 = planning::fitted_v1(x, p.mbs, p.v1);
        choices_alike(x, a, b, v4, v1);
        let q = PlanView { v4, v1, mbs: planning::choices(x, a, v4, v1) };
        polished_alike(x, a, b, q, (rounds - 1) as nat);
    }
}

proof fn plans_alike(
    x: StripSource,
    a: EncoderOptions,
    b: EncoderOptions,
    seed4: Option<Seq<CodebookEntry>>,
    seed1: Option<Seq<CodebookEntry>>,
)
    requires
        alike(x.picture.mode, a, b),
    ensures
        planning::strip_plan(x, a, seed4, seed1) == planning::strip_plan(x, b, seed4, seed1),
{
    reveal(planning::strip_plan);
    let v4 = planning::first_v4(x, a, seed4);
    let v1 = planning::first_v1(x, a, seed1);
    assert(v4 == planning::first_v4(x, b, seed4));
    assert(v1 == planning::first_v1(x, b, seed1));
    choices_alike(x, a, b, v4, v1);
    let p = PlanView { v4, v1, mbs: planning::choices(x, a, v4, v1) };
    polished_alike(x, a, b, p, a.pcl_max_iter as nat);
}

proof fn intra_runs_alike(
    s: SourceView,
    layout: Seq<StripPlan>,
    a: EncoderOptions,
    b: EncoderOptions,
    r: RollView,
    n: int,
)
    requires
        alike(s.mode, a, b),
    ensures
        encoder::intra_run(s, layout, a, r, n) == encoder::intra_run(s, layout, b, r, n),
    decreases n,
{
    if n > 0 {
        intra_runs_alike(s, layout, a, b, r, n - 1);
        let x = encoder::strip_of(s, layout[n - 1], None, a);
        assert(x == encoder::strip_of(s, layout[n - 1], None, b));
        plans_alike(x, a, b, None, None);
    }
}

proof fn inter_runs_alike(
    s: SourceView,
    layout: Seq<StripPlan>,
    prev: Option<PlaneView>,
    a: EncoderOptions,
    b: EncoderOptions,
    r: RollView,
    selective: bool,
    seeding: bool,
    n: int,
)
    requires
        alike(s.mode, a, b),
    ensures
        encoder::inter_run(s, layout, prev, a, r, selective, seeding, n) == encoder::inter_run(
            s,
            layout,
            prev,
            b,
            r,
            selective,
            seeding,
            n,
        ),
    decreases n,
{
    if n > 0 {
        inter_runs_alike(s, layout, prev, a, b, r, selective, seeding, n - 1);
        let before = encoder::inter_run(s, layout, prev, a, r, selective, seeding, n - 1).roll;
        let x = encoder::strip_of(s, layout[n - 1], prev, a);
        assert(x == encoder::strip_of(s, layout[n - 1], prev, b));
        inter_strips_alike(x, a, b, before, selective, seeding);
    }
}

proof fn inter_strips_alike(
    x: StripSource,
    a: EncoderOptions,
    b: EncoderOptions,
    r: RollView,
    selective: bool,
    seeding: bool,
)
    requires
        alike(x.picture.mode, a, b),
    ensures
        strips::inter_strip(x, a, r, selective, seeding) == strips::inter_strip(
            x,
            b,
            r,
            selective,
            seeding,
        ),
{
    reveal(strips::inter_strip);
    let mode = x.picture.mode;
    let seed4 = strips::strip_seed(
        planning::kept_quads(x, planning::mb_total(x)),
        mode,
        a,
        r,
        crate::codebook::WhichCodebook::V4,
        a.v4_entries as int,
        seeding,
    ).0;
    let seed1 = strips::strip_seed(
        planning::kept_singles(x, planning::mb_total(x)),
        mode,
        a,
        r,
        crate::codebook::WhichCodebook::V1,
        a.v1_entries as int,
        seeding,
    ).0;
    plans_alike(x, a, b, seed4, seed1);
    assert(strips::inter_plan(x, a, r, seeding) == strips::inter_plan(x, b, r, seeding));
}

/// Configurations that differ at most in the luma weight, and measure the
/// same, give the same frames.
pub proof fn alike_give_the_same(
    pixels: Seq<u8>,
    width: u32,
    height: u32,
    mode: PixelMode,
    a: EncoderOptions,
    b: EncoderOptions,
)
    requires
        alike(mode, a, b),
    ensures
        encoder::intra_frame(pixels, width, height, mode, a) == encoder::intra_frame(
            pixels,
            width,
            height,
            mode,
            b,
        ),
{
    let layout = encoder::layout_of(height, a);
    intra_runs_alike(
        encoder::picture(pixels, width, height, mode),
        layout,
        a,
        b,
        rolling::fresh_roll(),
        layout.len() as int,
    );
}

/// A luma weight of zero gives the same frames as one of one.
pub proof fn no_luma_weight_is_one(
    pixels: Seq<u8>,
    width: u32,
    height: u32,
    mode: PixelMode,
    o: EncoderOptions,
)
    ensures
        encoder::intra_frame(
            pixels,
            width,
            height,
            mode,
            EncoderOptions { luma_weight: 0, ..o },
        ) == encoder::intra_frame(
            pixels,
            width,
            height,
            mode,
            EncoderOptions { luma_weight: 1, ..o },
        ),
{
    alike_give_the_same(
        pixels,
        width,
        height,
        mode,
        EncoderOptions { luma_weight: 0, ..o },
        EncoderOptions { luma_weight: 1, ..o },
    );
}

/// The luma weight does not matter for gray frames.
pub proof fn gray_frames_ignore_luma_weight(
    pixels: Seq<u8>,
    width: u32,
    height: u32,
    o: EncoderOptions,
    w: u8,
)
    ensures
        encoder::intra_frame(pixels, width, height, PixelMode::Gray8, o) == encoder::intra_frame(
            pixels,
            width,
            height,
            PixelMode::Gray8,
            EncoderOptions { luma_weight: w, ..o },
        ),
{
    alike_give_the_same(
        pixels,
        width,
        height,
        PixelMode::Gray8,
        o,
        EncoderOptions { luma_weight: w, ..o },
    );
}

/// In sequences too, a luma weight of zero gives the same frames as one of
/// one, and leaves the encoder in the same state.
pub proof fn no_luma_weight_is_one_in_sequences(
    st: EncoderState,
    rgb: Seq<u8>,
    width: u32,
    height: u32,
    o: EncoderOptions,
    intra: bool,
)
    ensures
        session::encoded_one(
            st,
            rgb,
            width,
            height,
            EncoderOptions { luma_weight: 0, ..o },
            intra,
        ) == session::encoded_one(
            st,
            rgb,
            width,
            height,
            EncoderOptions { luma_weight: 1, ..o },
            intra,
        ),
{
    reveal(session::intra_one);
    reveal(session::inter_one);
    let a = EncoderOptions { luma_weight: 0, ..o };
    let b = EncoderOptions { luma_weight: 1, ..o };
    let s = encoder::picture(rgb, width, height, PixelMode::Yuv12);
    let layout = encoder::layout_of(height, a);
    let n = layout.len() as int;
    intra_runs_alike(s, layout, a, b, rolling::fresh_roll(), n);
    inter_runs_alike(
        s,
        layout,
        session::compared_plane(st.prev, width, height),
        a,
        b,
        st.roll,
        true,
        st.persistence,
        n,
    );
}

proof fn luma_error_bound(a: CodebookEntry, b: CodebookEntry, y: u8)
    ensures
        0 <= planning::luma_error(a, b) <= 260100,
        0 <= planning::flat_error(a, y) <= 260100,
{
    square_bound(a.y0 - b.y0);
    square_bound(a.y1 - b.y1);
    square_bound(a.y2 - b.y2);
    square_bound(a.y3 - b.y3);
    square_bound(a.y0 - y);
    square_bound(a.y1 - y);
    square_bound(a.y2 - y);
    square_bound(a.y3 - y);
}

proof fn square_bound(x: int)
    requires
        -255 <= x <= 255,
    ensures
        0 <= quant::sq(x) <= 65025,
{
    assert(0 <= x * x <= 65025) by (nonlinear_arith)
        requires
            -255 <= x <= 255,
    ;
}

/// The luma error of a macroblock coded with four V4 entries.
pub open spec fn four_error(
    o: EncoderOptions,
    mode: PixelMode,
    quads: Seq<CodebookEntry>,
    v4: Seq<CodebookEntry>,
) -> int {
    let q = planning::nearest_quads(
        planning::metric_of(mode, o),
        o.v4_entries as int,
        quads,
        v4,
    );
    planning::luma_error(quads[0], v4[q[0]]) + planning::luma_error(quads[1], v4[q[1]])
        + planning::luma_error(quads[2], v4[q[2]]) + planning::luma_error(quads[3], v4[q[3]])
}

/// The luma error of a macroblock coded with one V1 entry.
pub open spec fn one_error(
    o: EncoderOptions,
    mode: PixelMode,
    quads: Seq<CodebookEntry>,
    single: CodebookEntry,
    v1: Seq<CodebookEntry>,
) -> int {
    let e = v1[quant::nearest_slot(
        planning::metric_of(mode, o),
        single,
        v1,
        o.v1_entries as int,
    )];
    planning::flat_error(quads[0], e.y0) + planning::flat_error(quads[1], e.y1)
        + planning::flat_error(quads[2], e.y2) + planning::flat_error(quads[3], e.y3)
}

/// Where bits are free, the coding with the smaller luma error is taken; where
/// they are dear, one V1 entry always.
pub proof fn price_of_bits_decides(
    o: EncoderOptions,
    mode: PixelMode,
    quads: Seq<CodebookEntry>,
    single: CodebookEntry,
    v4: Seq<CodebookEntry>,
    v1: Seq<CodebookEntry>,
)
    ensures
        o.rdo_lambda == Some(0i64) ==> planning::prefers_v1(o, mode, quads, single, v4, v1) == (
        one_error(o, mode, quads, single, v1) <= four_error(o, mode, quads, v4)),
        o.rdo_lambda matches Some(l) && l >= 43350 * FIXED_ONE ==> planning::prefers_v1(
            o,
            mode,
            quads,
            single,
            v4,
            v1,
        ),
{
    let q = planning::nearest_quads(
        planning::metric_of(mode, o),
        o.v4_entries as int,
        quads,
        v4,
    );
    let e = v1[quant::nearest_slot(
        planning::metric_of(mode, o),
        single,
        v1,
        o.v1_entries as int,
    )];
    luma_error_bound(quads[0], v4[q[0]], e.y0);
    luma_error_bound(quads[1], v4[q[1]], e.y1);
    luma_error_bound(quads[2], v4[q[2]], e.y2);
    luma_error_bound(quads[3], v4[q[3]], e.y3);
}

} // verus!
