//! What an encoder with a budget owes, and what it then says of the budget.

use vstd::prelude::*;
use crate::codebook::PixelMode;
use crate::decoder;
use crate::encoder;
use crate::error::ErrorView;
use crate::grid;
use crate::measure;
use crate::options::{self, EncoderOptions};
use crate::roundtrip::{self, InterScene};
use crate::session::{self, BudgetScene, EncoderState};
use crate::sizes::{self, STRIP_PIXELS};
use crate::streaming;

verus! {

/// Whether a search for a frame within a budget can measure what it tries:
/// the picture and the configuration are accepted, a frame header can hold
/// the picture's size, and a frame that builds on another has one to build
/// on.
pub open spec fn settled(c: BudgetScene) -> bool {
    &&& streaming::small_enough(c.width, c.height)
    &&& options::request_error(c.rgb.len(), c.width, c.height, PixelMode::Yuv12, c.base) is None
    &&& roundtrip::state_whole(c.state.decoder)
    &&& !c.intra ==> streaming::consistent(c.state) && (c.state.prev matches Some(f) && f.width
        == c.width && f.height == c.height)
}

/// A frame of a scene with the given configuration.
spec fn one(c: BudgetScene, o: EncoderOptions) -> core::result::Result<Seq<u8>, ErrorView> {
    session::encoded_one(c.state, c.rgb, c.width, c.height, o, c.intra).1
}

/// A scene in which a frame builds on the one before.
spec fn inter_scene(c: BudgetScene, o: EncoderOptions) -> InterScene {
    InterScene {
        source: encoder::picture(c.rgb, c.width, c.height, PixelMode::Yuv12),
        layout: encoder::layout_of(c.height, o),
        plane: session::compared_plane(c.state.prev, c.width, c.height),
        options: o,
        roll: c.state.roll,
        selective: true,
        seeding: c.state.persistence,
    }
}

proof fn one_is_measured(c: BudgetScene, o: EncoderOptions)
    requires
        settled(c),
        options::options_error(o) is None,
        one(c, o) is Ok,
    ensures
        measure::decoded_y_error(c.state.decoder, one(c, o)->Ok_0, c.rgb, c.width, c.height) is Ok,
{
    if c.intra {
        reveal(session::intra_one);
        roundtrip::intra_is_measured(
            c.state.decoder,
            c.rgb,
            c.width,
            c.height,
            o,
            crate::rolling::fresh_roll(),
        );
    } else {
        reveal(session::inter_one);
        roundtrip::inter_is_measured(c.state.decoder, inter_scene(c, o));
    }
}

proof fn one_succeeds(c: BudgetScene, o: EncoderOptions)
    requires
        settled(c),
        options::options_error(o) is None,
        sizes::always_fits(c.width, c.height, o),
    ensures
        one(c, o) is Ok,
{
    if c.intra {
        sizes::small_picture_gives_frame(
            c.rgb,
            c.width,
            c.height,
            PixelMode::Yuv12,
            o,
            crate::rolling::fresh_roll(),
        );
        streaming::intra_one_sent(
            c.state,
            c.rgb,
            c.width,
            c.height,
            o,
            decoder::fresh_decoder(),
            None,
        );
    } else {
        sizes::small_scene_gives_frame(inter_scene(c, o));
        streaming::inter_one_sent(
            c.state,
            c.rgb,
            c.width,
            c.height,
            o,
            c.state.decoder,
            None,
        );
    }
}

proof fn candidate_accepted(c: BudgetScene, i: int)
    requires
        settled(c),
        0 <= i < grid::budget_grid(c.base).len(),
    ensures
        options::options_error(grid::budget_grid(c.base)[i]) is None,
        grid::budget_grid(c.base)[i].strip_count <= 4,
{
    grid::grid_members(
        c.base,
        grid::strip_choices(),
        grid::budget_lambdas(c.base),
        grid::luma_choices(c.base),
    );
    let g = grid::budget_grid(c.base)[i];
    assert(grid::strip_choices().contains(g.strip_count));
}

/// A search that can measure what it tries never breaks off.
pub proof fn search_goes_on(c: BudgetScene, k: int)
    requires
        settled(c),
        0 <= k <= grid::budget_grid(c.base).len(),
    ensures
        session::search_run(c, k).fault is None,
    decreases k,
{
    if k > 0 {
        search_goes_on(c, k - 1);
        let o = grid::budget_grid(c.base)[k - 1];
        candidate_accepted(c, k - 1);
        if one(c, o) is Ok {
            one_is_measured(c, o);
        }
    }
}

proof fn all_tried(c: BudgetScene, k: int)
    requires
        settled(c),
        c.width * c.height <= STRIP_PIXELS,
        0 <= k <= grid::budget_grid(c.base).len(),
    ensures
        session::search_run(c, k).trials == k,
        forall|i: int| 0 <= i < k ==> (#[trigger] streaming::trial(c, i)) is Ok,
    decreases k,
{
    if k > 0 {
        all_tried(c, k - 1);
        search_goes_on(c, k - 1);
        let o = grid::budget_grid(c.base)[k - 1];
        candidate_accepted(c, k - 1);
        one_succeeds(c, o);
        assert(streaming::trial(c, k - 1) == one(c, o));
    }
}

/// Whether what is said of a budget is true of a frame of `len` bytes.
pub open spec fn rated(st: EncoderState, budget: usize, len: nat, trials: nat) -> bool {
    &&& st.rate matches Some(s)
    &&& s.target_bytes == budget
    &&& s.actual_bytes == len
    &&& s.byte_delta == session::excess(len as int, budget as int)
    &&& budget <= i64::MAX ==> s.byte_delta == len - budget
    &&& s.within_budget == (len <= budget)
    &&& s.trials == trials
}

#[verifier::rlimit(50)]
#[verifier::spinoff_prover]
proof fn one_is_short(c: BudgetScene, o: EncoderOptions)
    requires
        one(c, o) is Ok,
    ensures
        one(c, o)->Ok_0.len() <= 0xffffff,
{
    reveal(session::intra_one);
    reveal(session::inter_one);
}

/// A small picture always gives a frame within a search for a budget, every
/// configuration is tried, and what is then said of the budget is exact.
pub proof fn small_frame_is_rated(c: BudgetScene)
    requires
        settled(c),
        c.width * c.height <= STRIP_PIXELS,
    ensures
        session::budget_frame(c).1 is Ok,
        grid::budget_grid(c.base).len() >= 1,
        rated(
            session::budget_frame(c).0,
            c.budget,
            session::budget_frame(c).1->Ok_0.len(),
            grid::budget_grid(c.base).len(),
        ),
{
    reveal(session::budget_frame);
    let g = grid::budget_grid(c.base);
    let n = g.len() as int;
    grid::grid_not_empty(
        c.base,
        grid::strip_choices(),
        grid::budget_lambdas(c.base),
        grid::luma_choices(c.base),
    );
    grid::budget_grid_len(c.base);
    search_goes_on(c, n);
    all_tried(c, n);
    streaming::search_facts(c, n);
    assert(streaming::trial(c, 0) is Ok);
    let s = session::search_run(c, n);
    let o = match s.best {
        Some((_, _, o)) => o,
        None => (s.smallest->0).1,
    };
    one_is_short(c, o);
}

proof fn few_pixels_are_small_enough(width: u32, height: u32)
    requires
        width > 0,
        height > 0,
        width % 4 == 0,
        height % 4 == 0,
        width * height <= STRIP_PIXELS,
    ensures
        streaming::small_enough(width, height),
{
    assert(4 * width <= width * height && 4 * height <= width * height) by (nonlinear_arith)
        requires
            width >= 4,
            height >= 4,
    ;
}

/// With a budget, encoding a small picture that stands alone succeeds, and
/// what is then said of the budget is exact: the budget, the size of the
/// frame, the difference, whether the frame fits, and that every
/// configuration of the search was tried, of which there is at least one.
pub proof fn intra_budget_is_rated(
    st: EncoderState,
    rgb: Seq<u8>,
    width: u32,
    height: u32,
    o: EncoderOptions,
    budget: usize,
)
    requires
        st.target == Some(budget),
        options::request_error(rgb.len(), width, height, PixelMode::Yuv12, o) is None,
        width * height <= STRIP_PIXELS,
        roundtrip::state_whole(st.decoder),
    ensures
        ({
            let call = session::intra_call(st, rgb, width, height, o);
            &&& call.1 is Ok
            &&& grid::budget_grid(o).len() >= 1
            &&& rated(call.0, budget, call.1->Ok_0.len(), grid::budget_grid(o).len())
        }),
{
    few_pixels_are_small_enough(width, height);
    small_frame_is_rated(
        BudgetScene { state: st, rgb, width, height, base: o, intra: true, budget },
    );
}

/// With a budget, encoding a small picture that builds on the frame before
/// succeeds, and what is then said of the budget is exact.
pub proof fn inter_budget_is_rated(
    st: EncoderState,
    rgb: Seq<u8>,
    width: u32,
    height: u32,
    o: EncoderOptions,
    budget: usize,
)
    requires
        st.target == Some(budget),
        options::request_error(rgb.len(), width, height, PixelMode::Yuv12, o) is None,
        width * height <= STRIP_PIXELS,
        streaming::consistent(st),
        st.prev matches Some(f) && f.width == width && f.height == height,
    ensures
        ({
            let call = session::inter_call(st, rgb, width, height, o);
            &&& call.1 is Ok
            &&& grid::budget_grid(o).len() >= 1
            &&& rated(call.0, budget, call.1->Ok_0.len(), grid::budget_grid(o).len())
        }),
{
    few_pixels_are_small_enough(width, height);
    small_frame_is_rated(
        BudgetScene { state: st, rgb, width, height, base: o, intra: false, budget },
    );
}

} // verus!
