//! What an encoder does after it was reset.

use vstd::prelude::*;
use crate::budget;
use crate::codebook::PixelMode;
use crate::decoder;
use crate::error::ErrorView;
use crate::grid;
use crate::options::{self, EncoderOptions};
use crate::session::{self, BudgetScene, EncoderState};

verus! {

/// A frame that an encoder is asked for.
pub struct Request {
    pub rgb: Seq<u8>,
    pub width: u32,
    pub height: u32,
    pub options: EncoderOptions,
    /// Whether the frame is to stand alone.
    pub intra: bool,
}

/// What an encoder does on a request.
pub open spec fn answered(st: EncoderState, q: Request) -> (
    EncoderState,
    core::result::Result<Seq<u8>, ErrorView>,
) {
    if q.intra {
        session::intra_call(st, q.rgb, q.width, q.height, q.options)
    } else {
        session::inter_call(st, q.rgb, q.width, q.height, q.options)
    }
}

/// An encoder after the first `n` requests.
pub open spec fn asked(st: EncoderState, q: Seq<Request>, n: int) -> EncoderState
    decreases n,
{
    if n <= 0 {
        st
    } else {
        answered(asked(st, q, n - 1), q[n - 1]).0
    }
}

/// What an encoder gives on request `i`.
pub open spec fn reply(st: EncoderState, q: Seq<Request>, i: int) -> core::result::Result<
    Seq<u8>,
    ErrorView,
> {
    answered(asked(st, q, i), q[i]).1
}

/// Whether a request is for a picture that a frame header and this machine
/// can hold.
pub open spec fn holdable(q: Request) -> bool {
    q.width <= 65535 && q.height <= 65535 && q.rgb.len() <= usize::MAX
}

/// Whether an encoder has nothing to build on.
pub open spec fn unsent(st: EncoderState) -> bool {
    st.prev is None && st.decoder == decoder::fresh_decoder()
}

proof fn failed_one_sends_nothing(
    st: EncoderState,
    rgb: Seq<u8>,
    width: u32,
    height: u32,
    o: EncoderOptions,
)
    requires
        unsent(st),
        session::intra_one(st, rgb, width, height, o).1 is Err,
    ensures
        unsent(session::intra_one(st, rgb, width, height, o).0),
        session::intra_one(st, rgb, width, height, o).0.target == st.target,
{
    reveal(session::intra_one);
}

/// A failed request for a frame that stands alone leaves nothing to build
/// on where there was nothing.
pub proof fn failed_intra_sends_nothing(st: EncoderState, q: Request)
    requires
        unsent(st),
        q.intra,
        answered(st, q).1 is Err,
        st.target is Some ==> holdable(q),
    ensures
        unsent(answered(st, q).0),
        answered(st, q).0.target == st.target,
{
    if options::request_error(q.rgb.len(), q.width, q.height, PixelMode::Yuv12, q.options) is None {
        match st.target {
            None => {
                failed_one_sends_nothing(st, q.rgb, q.width, q.height, q.options);
            },
            Some(budget) => {
                reveal(session::budget_frame);
                let c = BudgetScene {
                    state: st,
                    rgb: q.rgb,
                    width: q.width,
                    height: q.height,
                    base: q.options,
                    intra: true,
                    budget,
                };
                let n = grid::budget_grid(q.options).len() as int;
                budget::search_goes_on(c, n);
                let s = session::search_run(c, n);
                let o = match s.best {
                    Some((_, _, o)) => o,
                    None => match s.smallest {
                        Some((_, o)) => o,
                        None => q.options,
                    },
                };
                failed_one_sends_nothing(st, q.rgb, q.width, q.height, o);
            },
        }
    }
}

proof fn nothing_sent(st: EncoderState, q: Seq<Request>, n: int)
    requires
        0 <= n <= q.len(),
        unsent(st),
        forall|i: int| 0 <= i < n && q[i].intra ==> #[trigger] reply(st, q, i) is Err,
        st.target is Some ==> forall|i: int| 0 <= i < n ==> holdable(#[trigger] q[i]),
    ensures
        unsent(asked(st, q, n)),
        asked(st, q, n).target == st.target,
        forall|i: int| 0 <= i < n ==> #[trigger] reply(st, q, i) is Err,
    decreases n,
{
    if n > 0 {
        nothing_sent(st, q, n - 1);
        if q[n - 1].intra {
            assert(reply(st, q, n - 1) is Err);
            failed_intra_sends_nothing(asked(st, q, n - 1), q[n - 1]);
        }
    }
}

/// An encoder that was reset keeps its settings, says nothing of former
/// frames, and is as a new encoder with the same settings. It gives no frame
/// that builds on another until it has given one that stands alone: not at
/// once, and not after requests for frames that stand alone failed.
pub proof fn reset_forgets(st: EncoderState, q: Seq<Request>, n: int)
    requires
        0 <= n <= q.len(),
        forall|i: int|
            0 <= i < n && q[i].intra ==> #[trigger] reply(session::reset_state(st), q, i) is Err,
        st.target is Some ==> forall|i: int| 0 <= i < n ==> holdable(#[trigger] q[i]),
    ensures
        session::reset_state(st).target == st.target,
        session::reset_state(st).persistence == st.persistence,
        session::reset_state(st).rate is None,
        session::reset_state(st).stats == session::no_stats(),
        session::reset_state(st) == (EncoderState {
            persistence: st.persistence,
            target: st.target,
            ..session::fresh_encoder()
        }),
        forall|i: int| 0 <= i < n ==> #[trigger] reply(session::reset_state(st), q, i) is Err,
        forall|p: Request|
            !p.intra ==> (#[trigger] answered(asked(session::reset_state(st), q, n), p)).1 is Err,
{
    nothing_sent(session::reset_state(st), q, n);
}

} // verus!
