//! What a receiver sees of a sequence of encoded frames.

use vstd::prelude::*;
use crate::clean;
use crate::codebook::PixelMode;
use crate::decoder::{self, DecoderState, Paint};
use crate::encoder;
use crate::error::ErrorView;
use crate::grid;
use crate::image::{CinepakPixelFormat, FrameView};
use crate::lint;
use crate::measure;
use crate::options::{self, EncoderOptions};
use crate::rate::{self, RateRun, RatedFrame, SizedScene};
use crate::rolling;
use crate::roundtrip::{self, InterScene};
use crate::session::{self, BudgetScene, EncoderState};
use crate::vector::Mb;
use crate::window::{self, WindowScene};

verus! {

/// Whether two frames show the same picture, whatever their time.
pub open spec fn same_picture(a: FrameView, b: FrameView) -> bool {
    a == (FrameView { pts: a.pts, ..b })
}

/// Whether a decoder holds what an encoder takes its receiver to hold: the
/// codebooks, and the picture that the last frame showed.
pub open spec fn follows(d: DecoderState, st: EncoderState) -> bool {
    &&& roundtrip::state_whole(d)
    &&& roundtrip::synchronised(decoder::or_zero(d.v4), decoder::or_zero(d.v1), st.roll)
    &&& st.prev matches Some(f) && f.pixel_format == CinepakPixelFormat::Rgb24
    &&& d.prev matches Some(g) && same_picture(g, st.prev->0)
}

/// Whether an encoder's own decoder follows it.
pub open spec fn consistent(st: EncoderState) -> bool {
    &&& rolling::roll_wf(st.roll)
    &&& follows(st.decoder, st)
}

/// Whether a picture is one that a frame header and this machine can hold.
pub open spec fn small_enough(width: u32, height: u32) -> bool {
    &&& width <= 65535
    &&& height <= 65535
    &&& width * height * 3 <= usize::MAX
}

proof fn rows_ignore_time(
    out: Seq<u8>,
    stride: int,
    a: Paint,
    b: Paint,
    mb: Mb,
    px: int,
    py: int,
    n: nat,
)
    requires
        a.prev is Some,
        b.prev is Some,
        same_picture(a.prev->0, b.prev->0),
        b == (Paint { prev: b.prev, ..a }),
        n <= 4,
    ensures
        decoder::draw_rows(out, stride, a, mb, px, py, n) == decoder::draw_rows(out, stride, b, mb, px, py, n),
    decreases n,
{
    if n > 0 {
        rows_ignore_time(out, stride, a, b, mb, px, py, (n - 1) as nat);
        assert(decoder::mb_row(a, mb, px, py, n - 1) == decoder::mb_row(b, mb, px, py, n - 1));
    }
}

proof fn drawing_ignores_time(
    out: Seq<u8>,
    stride: int,
    a: Paint,
    b: Paint,
    mbs: Seq<Mb>,
    x0: int,
    y0: int,
    cols: int,
    n: nat,
)
    requires
        a.prev is Some,
        b.prev is Some,
        same_picture(a.prev->0, b.prev->0),
        b == (Paint { prev: b.prev, ..a }),
        n <= mbs.len(),
    ensures
        decoder::draw_mbs(out, stride, a, mbs, x0, y0, cols, n) == decoder::draw_mbs(
            out,
            stride,
            b,
            mbs,
            x0,
            y0,
            cols,
            n,
        ),
    decreases n,
{
    if n > 0 {
        let i = n - 1;
        drawing_ignores_time(out, stride, a, b, mbs, x0, y0, cols, i as nat);
        rows_ignore_time(
            decoder::draw_mbs(out, stride, a, mbs, x0, y0, cols, i as nat),
            stride,
            a,
            b,
            mbs[i],
            x0 + i % cols * 4,
            y0 + i / cols * 4,
            4,
        );
    }
}

proof fn picture_ignores_time(c: InterScene, f: FrameView, g: FrameView, n: int)
    requires
        same_picture(f, g),
    ensures
        roundtrip::scene_picture(c, Some(f), n) == roundtrip::scene_picture(c, Some(g), n),
    decreases n,
{
    if n > 0 {
        picture_ignores_time(c, f, g, n - 1);
        let p = roundtrip::scene_plan(c, n - 1);
        let a = Paint { mode: c.source.mode, v4: p.v4, v1: p.v1, prev: Some(f) };
        let b = Paint { mode: c.source.mode, v4: p.v4, v1: p.v1, prev: Some(g) };
        drawing_ignores_time(
            roundtrip::scene_picture(c, Some(f), n - 1),
            c.source.width * crate::decoder::mode_bpp(c.source.mode),
            a,
            b,
            p.mbs,
            0,
            c.layout[n - 1].y_top as int,
            c.source.width / 4,
            p.mbs.len(),
        );
    }
}

pub(crate) proof fn intra_one_sent(
    st: EncoderState,
    rgb: Seq<u8>,
    width: u32,
    height: u32,
    o: EncoderOptions,
    d: DecoderState,
    pts: Option<i64>,
)
    requires
        options::request_error(rgb.len(), width, height, PixelMode::Yuv12, o) is None,
        encoder::run_frame(
            width,
            height,
            encoder::whole_intra_run(rgb, width, height, PixelMode::Yuv12, o, rolling::fresh_roll()),
        ) is Ok,
        small_enough(width, height),
        roundtrip::state_whole(d),
    ensures
        ({
            let call = session::intra_one(st, rgb, width, height, o);
            let seen = decoder::decoded(d, call.1->Ok_0, pts, None);
            &&& call.1 is Ok
            &&& consistent(call.0)
            &&& seen.1 == Ok::<FrameView, ErrorView>(FrameView { pts, ..call.0.prev->0 })
            &&& follows(seen.0, call.0)
        }),
{
    reveal(session::intra_one);
    roundtrip::intra_decodes(decoder::fresh_decoder(), rgb, width, height, PixelMode::Yuv12, o, rolling::fresh_roll(), None);
    roundtrip::intra_decodes(d, rgb, width, height, PixelMode::Yuv12, o, rolling::fresh_roll(), pts);
}

/// A frame that stands alone reaches every receiver: whatever a decoder held
/// before, it shows what the encoder takes it to show, and then follows the
/// encoder.
pub proof fn intra_is_seen(
    st: EncoderState,
    rgb: Seq<u8>,
    width: u32,
    height: u32,
    o: EncoderOptions,
    d: DecoderState,
    pts: Option<i64>,
)
    requires
        session::intra_call(st, rgb, width, height, o).1 is Ok,
        small_enough(width, height),
        roundtrip::state_whole(d),
    ensures
        ({
            let call = session::intra_call(st, rgb, width, height, o);
            let seen = decoder::decoded(d, call.1->Ok_0, pts, None);
            &&& consistent(call.0)
            &&& seen.1 == Ok::<FrameView, ErrorView>(FrameView { pts, ..call.0.prev->0 })
            &&& follows(seen.0, call.0)
        }),
{
    let used = frame_has_options(st, rgb, width, height, o, true);
    reveal(session::intra_one);
    intra_one_sent(st, rgb, width, height, used, d, pts);
}

/// Encoding a frame that stands alone, without a budget, succeeds whenever
/// its strips can be put together.
pub proof fn intra_succeeds(
    st: EncoderState,
    rgb: Seq<u8>,
    width: u32,
    height: u32,
    o: EncoderOptions,
)
    requires
        st.target is None,
        options::request_error(rgb.len(), width, height, PixelMode::Yuv12, o) is None,
        encoder::run_frame(
            width,
            height,
            encoder::whole_intra_run(rgb, width, height, PixelMode::Yuv12, o, rolling::fresh_roll()),
        ) is Ok,
        small_enough(width, height),
    ensures
        session::intra_call(st, rgb, width, height, o).1 is Ok,
{
    intra_one_sent(st, rgb, width, height, o, decoder::fresh_decoder(), None);
}

pub(crate) proof fn inter_one_sent(
    st: EncoderState,
    rgb: Seq<u8>,
    width: u32,
    height: u32,
    o: EncoderOptions,
    d: DecoderState,
    pts: Option<i64>,
)
    requires
        options::request_error(rgb.len(), width, height, PixelMode::Yuv12, o) is None,
        st.prev matches Some(f) && f.width == width && f.height == height,
        encoder::run_frame(
            width,
            height,
            encoder::whole_inter_run(
                rgb,
                width,
                height,
                session::compared_plane(st.prev, width, height),
                o,
                st.roll,
                true,
                st.persistence,
            ),
        ) is Ok,
        small_enough(width, height),
        consistent(st),
        follows(d, st),
    ensures
        ({
            let call = session::inter_one(st, rgb, width, height, o);
            let seen = decoder::decoded(d, call.1->Ok_0, pts, None);
            &&& call.1 is Ok
            &&& consistent(call.0)
            &&& seen.1 == Ok::<FrameView, ErrorView>(FrameView { pts, ..call.0.prev->0 })
            &&& follows(seen.0, call.0)
        }),
{
    reveal(session::inter_one);
    let c = InterScene {
        source: encoder::picture(rgb, width, height, PixelMode::Yuv12),
        layout: encoder::layout_of(height, o),
        plane: session::compared_plane(st.prev, width, height),
        options: o,
        roll: st.roll,
        selective: true,
        seeding: st.persistence,
    };
    roundtrip::inter_decodes(st.decoder, c, None);
    roundtrip::inter_decodes(d, c, pts);
    picture_ignores_time(c, st.decoder.prev->0, d.prev->0, c.layout.len() as int);
}

/// A frame that builds on the one before reaches every receiver that follows
/// the encoder: it shows what the encoder takes it to show, and still follows.
pub proof fn inter_is_seen(
    st: EncoderState,
    rgb: Seq<u8>,
    width: u32,
    height: u32,
    o: EncoderOptions,
    d: DecoderState,
    pts: Option<i64>,
)
    requires
        session::inter_call(st, rgb, width, height, o).1 is Ok,
        small_enough(width, height),
        consistent(st),
        follows(d, st),
    ensures
        ({
            let call = session::inter_call(st, rgb, width, height, o);
            let seen = decoder::decoded(d, call.1->Ok_0, pts, None);
            &&& consistent(call.0)
            &&& seen.1 == Ok::<FrameView, ErrorView>(FrameView { pts, ..call.0.prev->0 })
            &&& follows(seen.0, call.0)
        }),
{
    let used = frame_has_options(st, rgb, width, height, o, false);
    reveal(session::inter_one);
    inter_one_sent(st, rgb, width, height, used, d, pts);
}

/// Encoding a frame that builds on the one before, without a budget, succeeds
/// whenever its strips can be put together.
pub proof fn inter_succeeds(
    st: EncoderState,
    rgb: Seq<u8>,
    width: u32,
    height: u32,
    o: EncoderOptions,
)
    requires
        st.target is None,
        options::request_error(rgb.len(), width, height, PixelMode::Yuv12, o) is None,
        st.prev matches Some(f) && f.width == width && f.height == height,
        encoder::run_frame(
            width,
            height,
            encoder::whole_inter_run(
                rgb,
                width,
                height,
                session::compared_plane(st.prev, width, height),
                o,
                st.roll,
                true,
                st.persistence,
            ),
        ) is Ok,
        small_enough(width, height),
        consistent(st),
    ensures
        session::inter_call(st, rgb, width, height, o).1 is Ok,
{
    inter_one_sent(st, rgb, width, height, o, st.decoder, None);
}

/// The configuration that a frame was encoded with.
pub(crate) proof fn frame_has_options(
    st: EncoderState,
    rgb: Seq<u8>,
    width: u32,
    height: u32,
    o: EncoderOptions,
    intra: bool,
) -> (used: EncoderOptions)
    requires
        options::request_error(rgb.len(), width, height, PixelMode::Yuv12, o) is None,
        session::encoded_frame(st, rgb, width, height, o, intra).1 is Ok,
    ensures
        options::request_error(rgb.len(), width, height, PixelMode::Yuv12, used) is None,
        session::encoded_frame(st, rgb, width, height, o, intra).1 == session::encoded_one(
            st,
            rgb,
            width,
            height,
            used,
            intra,
        ).1,
        session::encoded_frame(st, rgb, width, height, o, intra).0 == (EncoderState {
            rate: session::encoded_frame(st, rgb, width, height, o, intra).0.rate,
            ..session::encoded_one(st, rgb, width, height, used, intra).0
        }),
{
    match st.target {
        None => o,
        Some(budget) => {
            reveal(session::budget_frame);
            let c = BudgetScene { state: st, rgb, width, height, base: o, intra, budget };
            let n = grid::budget_grid(o).len() as int;
            search_facts(c, n);
            grid::grid_members(o, grid::strip_choices(), grid::budget_lambdas(o), grid::luma_choices(o));
            let s = session::search_run(c, n);
            match s.best {
                Some((_, _, w)) => w,
                None => match s.smallest {
                    Some((_, w)) => w,
                    None => o,
                },
            }
        },
    }
}

/// The frame that a configuration gives.
pub open spec fn trial(c: BudgetScene, i: int) -> core::result::Result<Seq<u8>, ErrorView> {
    session::encoded_one(
        c.state,
        c.rgb,
        c.width,
        c.height,
        grid::budget_grid(c.base)[i],
        c.intra,
    ).1
}

/// How much the frame that a configuration gives differs from its picture.
pub open spec fn trial_error(c: BudgetScene, i: int) -> core::result::Result<int, ErrorView> {
    measure::decoded_y_error(c.state.decoder, trial(c, i)->Ok_0, c.rgb, c.width, c.height)
}

/// What a search knows after `k` configurations.
pub(crate) proof fn search_facts(c: BudgetScene, k: int)
    requires
        0 <= k <= grid::budget_grid(c.base).len(),
        session::search_run(c, k).fault is None,
    ensures
        ({
            let s = session::search_run(c, k);
            let g = grid::budget_grid(c.base);
            &&& s.trials <= k
            &&& s.smallest is Some ==> s.trials >= 1
            &&& s.best matches Some((y, n, o)) ==> n <= c.budget && exists|i: int|
                0 <= i < k && #[trigger] g[i] == o && trial(c, i) is Ok && trial(
                    c,
                    i,
                )->Ok_0.len() == n && trial_error(c, i) == Ok::<int, ErrorView>(y)
            &&& s.smallest matches Some((n, o)) ==> exists|i: int|
                0 <= i < k && #[trigger] g[i] == o && trial(c, i) is Ok && trial(
                    c,
                    i,
                )->Ok_0.len() == n
            &&& forall|i: int|
                0 <= i < k && (#[trigger] trial(c, i)) is Ok ==> {
                    &&& s.smallest matches Some((n, _)) && n <= trial(c, i)->Ok_0.len()
                    &&& trial(c, i)->Ok_0.len() <= c.budget ==> {
                        &&& trial_error(c, i) is Ok
                        &&& s.best matches Some((b, _, _)) && b <= trial_error(c, i)->Ok_0
                    }
                }
        }),
    decreases k,
{
    if k > 0 {
        let o = grid::budget_grid(c.base)[k - 1];
        let t = session::search_run(c, k - 1);
        let s = session::search_run(c, k);
        assert(s == session::search_step(c, o, t));
        assert(t.fault is None);
        search_facts(c, k - 1);
        let e = trial(c, k - 1);
        assert(e == session::encoded_one(c.state, c.rgb, c.width, c.height, o, c.intra).1);
        assert(grid::budget_grid(c.base)[k - 1] == o);
    }
}

/// A frame encoded within a budget is the one with the least error of those
/// that fit; where none fits, it is a smallest one. What is then said of the
/// budget is true.
pub proof fn budget_is_used_well(c: BudgetScene)
    requires
        session::budget_frame(c).1 is Ok,
    ensures
        ({
            let call = session::budget_frame(c);
            let bytes = call.1->Ok_0;
            let error = measure::decoded_y_error(c.state.decoder, bytes, c.rgb, c.width, c.height);
            &&& forall|i: int|
                0 <= i < grid::budget_grid(c.base).len() && (#[trigger] trial(c, i)) is Ok ==> {
                    &&& call.0.rate matches Some(s) && s.target_bytes == c.budget
                        && s.actual_bytes == bytes.len() as usize && s.byte_delta
                        == session::excess(bytes.len() as int, c.budget as int)
                        && s.within_budget == (bytes.len() <= c.budget) && s.trials >= 1
                    &&& trial(c, i)->Ok_0.len() <= c.budget ==> {
                        &&& bytes.len() <= c.budget
                        &&& trial_error(c, i) is Ok
                        &&& error is Ok
                        &&& error->Ok_0 <= trial_error(c, i)->Ok_0
                    }
                    &&& bytes.len() > c.budget ==> bytes.len() <= trial(c, i)->Ok_0.len()
                }
        }),
{
    reveal(session::budget_frame);
    let n = grid::budget_grid(c.base).len() as int;
    grid::budget_grid_len(c.base);
    search_facts(c, n);
}

/// A decoder that has been given the first `n` frames of a sequence.
pub open spec fn received(d: DecoderState, frames: Seq<RatedFrame>, n: int) -> DecoderState
    decreases n,
{
    if n <= 0 {
        d
    } else {
        decoder::decoded(received(d, frames, n - 1), frames[n - 1].bytes, None, None).0
    }
}

/// What a decoder shows on being given frame `i` of a sequence.
pub open spec fn shown(d: DecoderState, frames: Seq<RatedFrame>, i: int) -> core::result::Result<
    FrameView,
    ErrorView,
> {
    decoder::decoded(received(d, frames, i), frames[i].bytes, None, None).1
}

/// Whether a decoder shows every frame of a sequence in the given size.
pub open spec fn all_shown(
    d: DecoderState,
    frames: Seq<RatedFrame>,
    width: u32,
    height: u32,
) -> bool {
    forall|i: int|
        0 <= i < frames.len() ==> (#[trigger] shown(d, frames, i) matches Ok(f) && f.width == width
            && f.height == height)
}

proof fn received_prefix(d: DecoderState, a: Seq<RatedFrame>, b: Seq<RatedFrame>, n: int)
    requires
        forall|i: int| 0 <= i < n ==> a[i] == b[i],
    ensures
        received(d, a, n) == received(d, b, n),
    decreases n,
{
    if n > 0 {
        received_prefix(d, a, b, n - 1);
    }
}

/// Whether a sequence has reached a decoder so far.
spec fn reached(d: DecoderState, run: RateRun, width: u32, height: u32) -> bool {
    &&& run.error is None
    &&& all_shown(d, run.frames, width, height)
    &&& run.frames.len() > 0 ==> consistent(run.state) && follows(
        received(d, run.frames, run.frames.len() as int),
        run.state,
    )
}

proof fn push_reaches(
    d: DecoderState,
    run: RateRun,
    rgb: Seq<u8>,
    width: u32,
    height: u32,
    o: EncoderOptions,
    q: u8,
    aim: int,
)
    requires
        reached(d, run, width, height),
        roundtrip::state_whole(d),
        small_enough(width, height),
        rate::sequence_call(run.state, run.frames.len() as int, rgb, width, height, o).1 is Ok,
    ensures
        reached(
            d,
            rate::rate_push(
                run,
                rate::sequence_call(run.state, run.frames.len() as int, rgb, width, height, o),
                q,
                aim,
            ),
            width,
            height,
        ),
{
    let n = run.frames.len() as int;
    let call = rate::sequence_call(run.state, n, rgb, width, height, o);
    let next = rate::rate_push(run, call, q, aim);
    let before = received(d, run.frames, n);
    received_prefix(d, run.frames, next.frames, n);
    if n == 0 {
        intra_is_seen(run.state, rgb, width, height, o, d, None);
        intra_size(run.state, rgb, width, height, o);
    } else {
        inter_is_seen(run.state, rgb, width, height, o, before, None);
        inter_size(run.state, rgb, width, height, o);
    }
    assert(next.frames[n].bytes == call.1->Ok_0);
    assert(received(d, next.frames, n) == before);
    assert(shown(d, next.frames, n) == decoder::decoded(before, call.1->Ok_0, None, None).1);
    assert(received(d, next.frames, n + 1) == decoder::decoded(before, call.1->Ok_0, None, None).0);
    assert forall|i: int| 0 <= i < next.frames.len() implies (#[trigger] shown(d, next.frames, i)
        matches Ok(f) && f.width == width && f.height == height) by {
        if i < n {
            received_prefix(d, run.frames, next.frames, i);
            assert(next.frames[i] == run.frames[i]);
            assert(shown(d, run.frames, i) == shown(d, next.frames, i));
        }
    }
}

proof fn intra_size(st: EncoderState, rgb: Seq<u8>, width: u32, height: u32, o: EncoderOptions)
    requires
        session::intra_call(st, rgb, width, height, o).1 is Ok,
        small_enough(width, height),
    ensures
        ({
            let call = session::intra_call(st, rgb, width, height, o);
            call.0.prev matches Some(f) && f.width == width && f.height == height
        }),
{
    let used = frame_has_options(st, rgb, width, height, o, true);
    reveal(session::intra_one);
    roundtrip::intra_decodes(decoder::fresh_decoder(), rgb, width, height, PixelMode::Yuv12, used, rolling::fresh_roll(), None);
}

proof fn inter_size(st: EncoderState, rgb: Seq<u8>, width: u32, height: u32, o: EncoderOptions)
    requires
        session::inter_call(st, rgb, width, height, o).1 is Ok,
        small_enough(width, height),
        consistent(st),
    ensures
        ({
            let call = session::inter_call(st, rgb, width, height, o);
            call.0.prev matches Some(f) && f.width == width && f.height == height
        }),
{
    let used = frame_has_options(st, rgb, width, height, o, false);
    reveal(session::inter_one);
    let c = InterScene {
        source: encoder::picture(rgb, width, height, PixelMode::Yuv12),
        layout: encoder::layout_of(height, used),
        plane: session::compared_plane(st.prev, width, height),
        options: used,
        roll: st.roll,
        selective: true,
        seeding: st.persistence,
    };
    roundtrip::inter_decodes(st.decoder, c, None);
}

/// The frames of a sequence that each aim at a size can be decoded one after
/// the other, and show pictures of their size; the decoder then follows the
/// encoder.
pub proof fn sized_sequence_is_seen(c: SizedScene, n: int, d: DecoderState)
    requires
        0 < n,
        rate::sized_run(c, n).error is None,
        roundtrip::state_whole(d),
        small_enough(c.width, c.height),
    ensures
        rate::sized_run(c, n).frames.len() == n,
        all_shown(d, rate::sized_run(c, n).frames, c.width, c.height),
        follows(received(d, rate::sized_run(c, n).frames, n), rate::sized_run(c, n).state),
{
    sized_reaches(c, n, d);
}

proof fn sized_reaches(c: SizedScene, n: int, d: DecoderState)
    requires
        0 <= n,
        rate::sized_run(c, n).error is None,
        roundtrip::state_whole(d),
        small_enough(c.width, c.height),
    ensures
        rate::sized_run(c, n).frames.len() == n,
        reached(d, rate::sized_run(c, n), c.width, c.height),
    decreases n,
{
    if n > 0 {
        reveal(rate::sized_call);
        let run = rate::sized_run(c, n - 1);
        sized_reaches(c, n - 1, d);
        let q = match rate::sized_search(c, run.state, n - 1, 11)->Ok_0 {
            Some(q) => q,
            None => 0,
        };
        push_reaches(
            d,
            run,
            c.frames[n - 1],
            c.width,
            c.height,
            options::quality_options(q),
            q,
            c.target as int,
        );
    }
}

/// The frames of a sequence that share the budget of a window can be decoded
/// one after the other, and show pictures of their size; the decoder then
/// follows the encoder.
pub proof fn window_sequence_is_seen(c: WindowScene, n: int, d: DecoderState)
    requires
        0 < n,
        window::window_run(c, n).error is None,
        roundtrip::state_whole(d),
        small_enough(c.width, c.height),
    ensures
        window::window_run(c, n).frames.len() == n,
        all_shown(d, window::window_run(c, n).frames, c.width, c.height),
        follows(received(d, window::window_run(c, n).frames, n), window::window_run(c, n).state),
{
    window_reaches(c, n, d);
}

proof fn window_reaches(c: WindowScene, n: int, d: DecoderState)
    requires
        0 <= n,
        window::window_run(c, n).error is None,
        roundtrip::state_whole(d),
        small_enough(c.width, c.height),
    ensures
        window::window_run(c, n).frames.len() == n,
        reached(d, window::window_run(c, n), c.width, c.height),
    decreases n,
{
    if n > 0 {
        reveal(window::window_call);
        let i = n - 1;
        let run = window::window_run(c, i);
        window_reaches(c, i, d);
        let q = if window::must_search(c, run.frames, i) {
            window::halved(c, run.state, i, window::left_over(c, run.frames, i), 0, 100, None)->Ok_0
        } else {
            run.frames[i - 1].quality
        };
        push_reaches(
            d,
            run,
            c.frames[i],
            c.width,
            c.height,
            options::quality_options(q),
            q,
            window::share(c),
        );
    }
}

/// Every frame that an encoder gives has no flaw, whether it stands alone or
/// builds on the one before, and whether or not it had a budget.
pub proof fn sent_frames_are_clean(
    st: EncoderState,
    rgb: Seq<u8>,
    width: u32,
    height: u32,
    o: EncoderOptions,
)
    requires
        width <= 65535,
        height <= 65535,
        rolling::roll_wf(st.roll),
    ensures
        session::intra_call(st, rgb, width, height, o).1 matches Ok(b) ==> lint::frame_report(
            b,
        ).issues.len() == 0,
        session::inter_call(st, rgb, width, height, o).1 matches Ok(b) ==> lint::frame_report(
            b,
        ).issues.len() == 0,
{
    if session::intra_call(st, rgb, width, height, o).1 is Ok {
        let used = frame_has_options(st, rgb, width, height, o, true);
        reveal(session::intra_one);
        clean::intra_frame_is_clean(rgb, width, height, PixelMode::Yuv12, used);
    }
    if session::inter_call(st, rgb, width, height, o).1 is Ok {
        let used = frame_has_options(st, rgb, width, height, o, false);
        reveal(session::inter_one);
        let c = InterScene {
            source: encoder::picture(rgb, width, height, PixelMode::Yuv12),
            layout: encoder::layout_of(height, used),
            plane: session::compared_plane(st.prev, width, height),
            options: used,
            roll: st.roll,
            selective: true,
            seeding: st.persistence,
        };
        clean::inter_frame_is_clean(c);
    }
}

} // verus!
