//! The encoder for sequences of frames.

use vstd::prelude::*;
use crate::codebook::{PixelMode, WhichCodebook};
use crate::decoder::{self, CinepakDecoder, DecoderState};
use crate::encoder::{self, prev_size_error, run_inter, run_intra, validate_request, Run};
use crate::error::{other, ErrorView, Result};
use crate::grid::{self, budget_grid_candidates};
use crate::image::{self, CinepakFrame, CinepakPlane, FrameView, PlaneView};
use crate::measure::{self, decode_y_sse, plane_is_covering};
use crate::options::{self, EncoderOptions};
use crate::planning;
use crate::rolling::{self, RollView, RollingCodebooks};
use crate::sampling;
use crate::strips;

verus! {

/// What happened to codebook entries in a frame.
#[derive(Clone, Copy, Debug, PartialEq, Eq, Structural)]
pub struct FrameStats {
    /// V4 entries that were given new values.
    pub reclaimed_v4_slots: usize,
    /// V1 entries that were given new values.
    pub reclaimed_v1_slots: usize,
    /// Codebook updates that had to be full ones for that.
    pub forced_full_chunks: usize,
}

/// Nothing happened.
pub open spec fn no_stats() -> FrameStats {
    FrameStats { reclaimed_v4_slots: 0, reclaimed_v1_slots: 0, forced_full_chunks: 0 }
}

impl Default for FrameStats {
    fn default() -> (r: Self)
        ensures
            r == no_stats(),
    {
        FrameStats { reclaimed_v4_slots: 0, reclaimed_v1_slots: 0, forced_full_chunks: 0 }
    }
}

/// How a frame kept to its budget.
#[derive(Clone, Copy, Debug, PartialEq, Eq, Structural)]
pub struct RateStats {
    /// The budget.
    pub target_bytes: usize,
    /// The size of the frame.
    pub actual_bytes: usize,
    /// By how much the size exceeds the budget.
    pub byte_delta: i64,
    /// Whether the frame fits the budget.
    pub within_budget: bool,
    /// Configurations that gave a frame.
    pub trials: usize,
}

/// What an encoder carries from one frame to the next, and its settings.
#[verifier::ext_equal]
pub struct EncoderState {
    pub roll: RollView,
    pub prev: Option<FrameView>,
    pub decoder: DecoderState,
    pub persistence: bool,
    pub stats: FrameStats,
    pub target: Option<usize>,
    pub rate: Option<RateStats>,
}

/// An encoder that has seen no frame.
pub open spec fn fresh_encoder() -> EncoderState {
    EncoderState {
        roll: rolling::fresh_roll(),
        prev: None,
        decoder: decoder::fresh_decoder(),
        persistence: true,
        stats: no_stats(),
        target: None,
        rate: None,
    }
}

/// An encoder that has forgotten every frame but kept its settings.
pub open spec fn reset_state(st: EncoderState) -> EncoderState {
    EncoderState { persistence: st.persistence, target: st.target, ..fresh_encoder() }
}

/// The plane that macroblocks are compared with: that of the previous frame,
/// where it has all the bytes of the picture.
pub open spec fn compared_plane(prev: Option<FrameView>, width: u32, height: u32) -> Option<
    PlaneView,
> {
    match prev {
        Some(f) => if f.planes.len() >= 1 && sampling::plane_covers(
            f.planes[0],
            width as int,
            height as int,
            3,
        ) {
            Some(f.planes[0])
        } else {
            None
        },
        None => None,
    }
}

/// The state after the decoder has read a frame, and the frame or an error.
pub open spec fn committed(st: EncoderState, d: DecoderState, bytes: Seq<u8>) -> (
    EncoderState,
    core::result::Result<Seq<u8>, ErrorView>,
) {
    let r = decoder::decoded(d, bytes, None, None);
    match r.1 {
        Err(e) => (EncoderState { decoder: r.0, ..st }, Err(e)),
        Ok(f) => (EncoderState { decoder: r.0, prev: Some(f), ..st }, Ok(bytes)),
    }
}

/// Whether the settings, and what was said of the last budget, are the same.
pub open spec fn keeps_settings(a: EncoderState, b: EncoderState) -> bool {
    a.persistence == b.persistence && a.target == b.target && a.rate == b.rate
}

/// Encoding a frame that stands alone.
#[verifier::opaque]
pub open spec fn intra_one(
    st: EncoderState,
    rgb: Seq<u8>,
    width: u32,
    height: u32,
    o: EncoderOptions,
) -> (EncoderState, core::result::Result<Seq<u8>, ErrorView>) {
    let run = encoder::whole_intra_run(rgb, width, height, PixelMode::Yuv12, o, rolling::fresh_roll());
    let st1 = EncoderState { roll: run.roll, stats: no_stats(), ..st };
    match encoder::run_frame(width, height, run) {
        Err(e) => (st1, Err(e)),
        Ok(bytes) => committed(st1, decoder::fresh_decoder(), bytes),
    }
}

/// The codebooks after a frame whose strips used the given entries.
pub open spec fn aged_roll(r: RollView, run: Run, o: EncoderOptions) -> RollView {
    let a = rolling::with_stale(
        r,
        WhichCodebook::V4,
        rolling::aged(rolling::stale(r, WhichCodebook::V4), run.used_v4, o.v4_entries as int),
    );
    rolling::with_stale(
        a,
        WhichCodebook::V1,
        rolling::aged(rolling::stale(a, WhichCodebook::V1), run.used_v1, o.v1_entries as int),
    )
}

/// Encoding a frame that builds on what came before.
#[verifier::opaque]
pub open spec fn inter_one(
    st: EncoderState,
    rgb: Seq<u8>,
    width: u32,
    height: u32,
    o: EncoderOptions,
) -> (EncoderState, core::result::Result<Seq<u8>, ErrorView>) {
    let run = encoder::whole_inter_run(
        rgb,
        width,
        height,
        compared_plane(st.prev, width, height),
        o,
        st.roll,
        true,
        st.persistence,
    );
    if let Some(e) = run.error {
        (EncoderState { roll: run.roll, stats: no_stats(), ..st }, Err(e))
    } else {
        let st1 = EncoderState {
            roll: aged_roll(run.roll, run, o),
            stats: FrameStats {
                reclaimed_v4_slots: run.reclaimed_v4 as usize,
                reclaimed_v1_slots: run.reclaimed_v1 as usize,
                forced_full_chunks: run.forced as usize,
            },
            ..st
        };
        match strips::frame_bytes(width, height, run.strips) {
            Err(e) => (st1, Err(e)),
            Ok(bytes) => committed(st1, st.decoder, bytes),
        }
    }
}

/// Encoding a frame with exactly the given configuration.
pub open spec fn encoded_one(
    st: EncoderState,
    rgb: Seq<u8>,
    width: u32,
    height: u32,
    o: EncoderOptions,
    intra: bool,
) -> (EncoderState, core::result::Result<Seq<u8>, ErrorView>) {
    if intra {
        intra_one(st, rgb, width, height, o)
    } else {
        inter_one(st, rgb, width, height, o)
    }
}

/// A frame to encode within a budget.
pub struct BudgetScene {
    pub state: EncoderState,
    pub rgb: Seq<u8>,
    pub width: u32,
    pub height: u32,
    pub base: EncoderOptions,
    pub intra: bool,
    pub budget: usize,
}

/// How far a search within a budget has come.
pub struct BudgetSearch {
    /// The best frame that fits: its error, its size, its configuration.
    pub best: Option<(int, nat, EncoderOptions)>,
    /// The smallest frame: its size, its configuration.
    pub smallest: Option<(nat, EncoderOptions)>,
    /// Configurations that gave a frame.
    pub trials: nat,
    /// A frame that could not be measured: the state it left, and why.
    pub fault: Option<(EncoderState, ErrorView)>,
}

/// The search before its first configuration.
pub open spec fn search_start() -> BudgetSearch {
    BudgetSearch { best: None, smallest: None, trials: 0, fault: None }
}

/// The search after one more configuration. Every configuration starts from
/// the same state; one that gives no frame is passed over.
pub open spec fn search_step(c: BudgetScene, o: EncoderOptions, s: BudgetSearch) -> BudgetSearch {
    let t = encoded_one(c.state, c.rgb, c.width, c.height, o, c.intra);
    if s.fault is Some {
        s
    } else {
        match t.1 {
            Err(_) => s,
            Ok(bytes) => {
                let n = bytes.len();
                let smallest = match s.smallest {
                    Some((m, _)) => if n < m {
                        Some((n, o))
                    } else {
                        s.smallest
                    },
                    None => Some((n, o)),
                };
                let next = BudgetSearch { smallest, trials: s.trials + 1, ..s };
                if n > c.budget {
                    next
                } else {
                    match measure::decoded_y_error(c.state.decoder, bytes, c.rgb, c.width, c.height) {
                        Err(e) => BudgetSearch { fault: Some((t.0, e)), ..next },
                        Ok(y) => match s.best {
                            Some((b, m, _)) => if y < b || (y == b && n < m) {
                                BudgetSearch { best: Some((y, n, o)), ..next }
                            } else {
                                next
                            },
                            None => BudgetSearch { best: Some((y, n, o)), ..next },
                        },
                    }
                }
            },
        }
    }
}

/// The search after the first `k` configurations.
pub open spec fn search_run(c: BudgetScene, k: int) -> BudgetSearch
    decreases k,
{
    if k <= 0 {
        search_start()
    } else {
        search_step(c, grid::budget_grid(c.base)[k - 1], search_run(c, k - 1))
    }
}

/// By how much a size exceeds a budget, no lower than an `i64` can say.
pub open spec fn excess(actual: int, budget: int) -> i64 {
    if actual - budget < i64::MIN {
        i64::MIN
    } else {
        (actual - budget) as i64
    }
}

pub(crate) fn excess_of(actual: usize, budget: usize) -> (r: i64)
    requires
        actual <= 0xffffff,
    ensures
        r == excess(actual as int, budget as int),
{
    let d: i128 = actual as i128 - budget as i128;
    if d < i64::MIN as i128 {
        i64::MIN
    } else {
        d as i64
    }
}

/// Encoding a frame within a budget: of the configurations tried, the one
/// whose frame fits with the least error, or else the one with the smallest
/// frame.
#[verifier::opaque]
pub open spec fn budget_frame(c: BudgetScene) -> (
    EncoderState,
    core::result::Result<Seq<u8>, ErrorView>,
) {
    let s = search_run(c, grid::budget_grid(c.base).len() as int);
    if let Some((st, e)) = s.fault {
        (st, Err(e))
    } else {
        let (o, fits, found) = match s.best {
            Some((_, _, o)) => (o, true, true),
            None => match s.smallest {
                Some((_, o)) => (o, false, true),
                None => (c.base, false, false),
            },
        };
        let t = encoded_one(c.state, c.rgb, c.width, c.height, o, c.intra);
        match t.1 {
            Err(e) => (t.0, Err(e)),
            Ok(bytes) => if !found {
                (t.0, Ok(bytes))
            } else {
                (
                    EncoderState {
                        rate: Some(
                            RateStats {
                                target_bytes: c.budget,
                                actual_bytes: bytes.len() as usize,
                                byte_delta: excess(bytes.len() as int, c.budget as int),
                                within_budget: fits,
                                trials: s.trials as usize,
                            },
                        ),
                        ..t.0
                    },
                    Ok(bytes),
                )
            },
        }
    }
}

/// Encoding a frame as the settings say.
pub open spec fn encoded_frame(
    st: EncoderState,
    rgb: Seq<u8>,
    width: u32,
    height: u32,
    o: EncoderOptions,
    intra: bool,
) -> (EncoderState, core::result::Result<Seq<u8>, ErrorView>) {
    match st.target {
        Some(budget) => budget_frame(
            BudgetScene { state: st, rgb, width, height, base: o, intra, budget },
        ),
        None => encoded_one(st, rgb, width, height, o, intra),
    }
}

/// What `encode_intra` does.
pub open spec fn intra_call(
    st: EncoderState,
    rgb: Seq<u8>,
    width: u32,
    height: u32,
    o: EncoderOptions,
) -> (EncoderState, core::result::Result<Seq<u8>, ErrorView>) {
    match options::request_error(rgb.len(), width, height, PixelMode::Yuv12, o) {
        Some(e) => (st, Err(e)),
        None => encoded_frame(st, rgb, width, height, o, true),
    }
}

/// Message of a frame that builds on none.
pub open spec fn no_prev_frame() -> ErrorView {
    ErrorView::Other("encoder: encode_inter called before encode_intra; no prev frame"@)
}

/// What `encode_inter` does.
pub open spec fn inter_call(
    st: EncoderState,
    rgb: Seq<u8>,
    width: u32,
    height: u32,
    o: EncoderOptions,
) -> (EncoderState, core::result::Result<Seq<u8>, ErrorView>) {
    match options::request_error(rgb.len(), width, height, PixelMode::Yuv12, o) {
        Some(e) => (st, Err(e)),
        None => match st.prev {
            None => (st, Err(no_prev_frame())),
            Some(f) => if f.width != width || f.height != height {
                (st, Err(encoder::prev_size_differs(f.width, f.height, width, height)))
            } else {
                encoded_frame(st, rgb, width, height, o, false)
            },
        },
    }
}

/// The bytes per frame of a bit rate at a frame rate, to the nearest. A frame
/// rate below one, or of no seconds, counts as one.
pub open spec fn frame_share(bits_per_second: u64, fps: (u64, u64)) -> usize {
    let (frames, seconds) = if fps.1 == 0 || fps.0 < fps.1 {
        (1u64, 1u64)
    } else {
        fps
    };
    let n = (bits_per_second * seconds + 4 * frames) / (8 * frames as int);
    if n > usize::MAX {
        usize::MAX
    } else {
        n as usize
    }
}

proof fn rounded_share(bits: int, frames: int, seconds: int)
    requires
        bits >= 0,
        frames >= 1,
        seconds >= 1,
    ensures
        ({
            let part = 8 * frames;
            let all = bits * seconds;
            (all + 4 * frames) / part == all / part + if 2 * (all % part) >= part {
                1int
            } else {
                0int
            }
        }),
{
    let part = 8 * frames;
    let all = bits * seconds;
    let q = all / part;
    let r = all % part;
    vstd::arithmetic::div_mod::lemma_fundamental_div_mod(all, part);
    vstd::arithmetic::div_mod::lemma_mod_bound(all, part);
    let up = if 2 * r >= part {
        1int
    } else {
        0int
    };
    assert((q + up) * part == part * q + up * part) by (nonlinear_arith);
    assert(up * part == if up == 1 {
        part
    } else {
        0
    });
    vstd::arithmetic::div_mod::lemma_fundamental_div_mod_converse(
        all + 4 * frames,
        part,
        q + up,
        r + 4 * frames - up * part,
    );
}

/// An encoder for sequences of frames. The first frame must stand alone; the
/// others may build on what came before.
pub struct CinepakEncoder {
    rolling: RollingCodebooks,
    prev_frame: Option<CinepakFrame>,
    decoder: CinepakDecoder,
    cross_frame_persistence: bool,
    last_stats: FrameStats,
    target_frame_bytes: Option<usize>,
    last_rate_stats: Option<RateStats>,
}

/// The frame behind an optional frame.
pub open spec fn owned_frame_view(f: Option<CinepakFrame>) -> Option<FrameView> {
    match f {
        Some(g) => Some(g@),
        None => None,
    }
}

impl View for CinepakEncoder {
    type V = EncoderState;

    closed spec fn view(&self) -> EncoderState {
        EncoderState {
            roll: self.rolling@,
            prev: owned_frame_view(self.prev_frame),
            decoder: self.decoder@,
            persistence: self.cross_frame_persistence,
            stats: self.last_stats,
            target: self.target_frame_bytes,
            rate: self.last_rate_stats,
        }
    }
}

/// The part of an encoder that encoding a frame changes.
struct EncoderSnapshot {
    rolling: RollingCodebooks,
    prev_frame: Option<CinepakFrame>,
    decoder: CinepakDecoder,
    last_stats: FrameStats,
}

fn copy_frame(f: &Option<CinepakFrame>) -> (r: Option<CinepakFrame>)
    ensures
        owned_frame_view(r) == owned_frame_view(*f),
{
    match f {
        Some(g) => Some(g.clone()),
        None => None,
    }
}

impl Default for CinepakEncoder {
    fn default() -> (r: Self)
        ensures
            r@ == fresh_encoder(),
            r.wf(),
    {
        CinepakEncoder::new()
    }
}

impl CinepakEncoder {
    /// The codebooks are whole, and the frames kept are packed pictures.
    pub open spec fn wf(self) -> bool {
        &&& rolling::roll_wf(self@.roll)
        &&& self@.decoder.prev matches Some(f) ==> image::packed(f)
    }

    /// An encoder that has seen no frame.
    pub fn new() -> (r: Self)
        ensures
            r@ == fresh_encoder(),
            r.wf(),
    {
        CinepakEncoder {
            rolling: RollingCodebooks::new(),
            prev_frame: None,
            decoder: CinepakDecoder::new(),
            cross_frame_persistence: true,
            last_stats: FrameStats {
                reclaimed_v4_slots: 0,
                reclaimed_v1_slots: 0,
                forced_full_chunks: 0,
            },
            target_frame_bytes: None,
            last_rate_stats: None,
        }
    }

    /// Forgets every frame; the settings stay.
    pub fn reset(&mut self)
        ensures
            final(self)@ == reset_state(old(self)@),
            final(self).wf(),
    {
        let persistence = self.cross_frame_persistence;
        let target = self.target_frame_bytes;
        *self = CinepakEncoder::new();
        self.cross_frame_persistence = persistence;
        self.target_frame_bytes = target;
    }

    /// Sets whether the codebooks of a frame start from those before.
    pub fn set_cross_frame_codebook_persistence(&mut self, on: bool)
        ensures
            final(self)@ == (EncoderState { persistence: on, ..old(self)@ }),
            old(self).wf() ==> final(self).wf(),
    {
        self.cross_frame_persistence = on;
    }

    /// Whether the codebooks of a frame start from those before.
    pub fn cross_frame_codebook_persistence(&self) -> (r: bool)
        ensures
            r == self@.persistence,
    {
        self.cross_frame_persistence
    }

    /// Sets the budget for every frame that a bit rate leaves at a frame rate,
    /// which is given as frames and the seconds that they take.
    pub fn with_target_bitrate(self, bits_per_second: u64, fps: (u64, u64)) -> (r: Self)
        ensures
            r@ == (EncoderState { target: Some(frame_share(bits_per_second, fps)), ..self@ }),
            self.wf() ==> r.wf(),
    {
        let mut r = self;
        r.set_target_bitrate(bits_per_second, fps);
        r
    }

    /// Sets the budget for every frame that a bit rate leaves at a frame rate,
    /// which is given as frames and the seconds that they take.
    pub fn set_target_bitrate(&mut self, bits_per_second: u64, fps: (u64, u64))
        ensures
            final(self)@ == (EncoderState {
                target: Some(frame_share(bits_per_second, fps)),
                ..old(self)@
            }),
            old(self).wf() ==> final(self).wf(),
    {
        let (frames, seconds) = if fps.1 == 0 || fps.0 < fps.1 {
            (1u64, 1u64)
        } else {
            fps
        };
        assert(bits_per_second * seconds <= 0xffffffffffffffff * 0xffffffffffffffff)
            by (nonlinear_arith)
            requires
                0 <= bits_per_second <= 0xffffffffffffffff,
                0 <= seconds <= 0xffffffffffffffff,
        ;
        let part: u128 = 8 * frames as u128;
        let all: u128 = bits_per_second as u128 * seconds as u128;
        let down: u128 = all / part;
        let up: u128 = if 2 * (all % part) >= part {
            1
        } else {
            0
        };
        proof {
            rounded_share(bits_per_second as int, frames as int, seconds as int);
            assert(down <= all / 8) by (nonlinear_arith)
                requires
                    down == all / part,
                    part >= 8,
                    all >= 0,
            ;
        }
        let n: u128 = down + up;
        self.target_frame_bytes = Some(
            if n > usize::MAX as u128 {
                usize::MAX
            } else {
                n as usize
            },
        );
    }

    /// Sets a budget for every frame.
    pub fn with_target_frame_bytes(self, bytes_per_frame: usize) -> (r: Self)
        ensures
            r@ == (EncoderState { target: Some(bytes_per_frame), ..self@ }),
            self.wf() ==> r.wf(),
    {
        let mut r = self;
        r.target_frame_bytes = Some(bytes_per_frame);
        r
    }

    /// Sets a budget for every frame.
    pub fn set_target_frame_bytes(&mut self, bytes_per_frame: usize)
        ensures
            final(self)@ == (EncoderState { target: Some(bytes_per_frame), ..old(self)@ }),
            old(self).wf() ==> final(self).wf(),
    {
        self.target_frame_bytes = Some(bytes_per_frame);
    }

    /// The budget for every frame.
    pub fn target_frame_bytes(&self) -> (r: Option<usize>)
        ensures
            r == self@.target,
    {
        self.target_frame_bytes
    }

    /// Takes the budget away.
    pub fn clear_target_bitrate(&mut self)
        ensures
            final(self)@ == (EncoderState { target: None, rate: None, ..old(self)@ }),
            old(self).wf() ==> final(self).wf(),
    {
        self.target_frame_bytes = None;
        self.last_rate_stats = None;
    }

    /// How the last frame with a budget kept to it.
    pub fn last_rate_stats(&self) -> (r: Option<RateStats>)
        ensures
            r == self@.rate,
    {
        self.last_rate_stats
    }

    /// What happened to codebook entries in the last frame.
    pub fn last_frame_stats(&self) -> (r: FrameStats)
        ensures
            r == self@.stats,
    {
        self.last_stats
    }

    fn encode_intra_one(
        &mut self,
        rgb: &[u8],
        width: u32,
        height: u32,
        o: &EncoderOptions,
    ) -> (r: Result<Vec<u8>>)
        requires
            old(self).wf(),
            options::request_error(rgb@.len(), width, height, PixelMode::Yuv12, *o) is None,
        ensures
            (final(self)@, strips::bytes_outcome(r)) == intra_one(old(self)@, rgb@, width, height, *o),
            keeps_settings(old(self)@, final(self)@),
            final(self).wf(),
            r matches Ok(v) ==> v@.len() <= 0xffffff,
    {
        proof {
            reveal(intra_one);
        }
        self.rolling = RollingCodebooks::new();
        self.last_stats = FrameStats {
            reclaimed_v4_slots: 0,
            reclaimed_v1_slots: 0,
            forced_full_chunks: 0,
        };
        let run = run_intra(rgb, width, height, PixelMode::Yuv12, o, &mut self.rolling);
        let ghost spec_run = encoder::whole_intra_run(
            rgb@,
            width,
            height,
            PixelMode::Yuv12,
            *o,
            rolling::fresh_roll(),
        );
        let bytes = match run.frame(width, height, Ghost(spec_run)) {
            Ok(b) => b,
            Err(e) => return Err(e),
        };
        self.decoder.reset();
        match self.decoder.decode_frame(bytes.as_slice(), None) {
            Ok(f) => {
                self.prev_frame = Some(f);
                Ok(bytes)
            },
            Err(e) => Err(e),
        }
    }

    fn comparable(prev: &Option<CinepakFrame>, width: u32, height: u32) -> (r: Option<
        &CinepakPlane,
    >)
        ensures
            planning::plane_view(r) == compared_plane(owned_frame_view(*prev), width, height),
    {
        match prev {
            Some(f) => {
                if f.planes.len() < 1 {
                    return None;
                }
                assert(f.planes@[0]@ == f@.planes[0]);
                if plane_is_covering(&f.planes[0], width, height) {
                    Some(&f.planes[0])
                } else {
                    None
                }
            },
            None => None,
        }
    }

    fn encode_inter_one(
        &mut self,
        rgb: &[u8],
        width: u32,
        height: u32,
        o: &EncoderOptions,
    ) -> (r: Result<Vec<u8>>)
        requires
            old(self).wf(),
            options::request_error(rgb@.len(), width, height, PixelMode::Yuv12, *o) is None,
        ensures
            (final(self)@, strips::bytes_outcome(r)) == inter_one(old(self)@, rgb@, width, height, *o),
            keeps_settings(old(self)@, final(self)@),
            final(self).wf(),
            r matches Ok(v) ==> v@.len() <= 0xffffff,
    {
        proof {
            reveal(inter_one);
        }
        let ghost st = self@;
        let prev = copy_frame(&self.prev_frame);
        let plane = CinepakEncoder::comparable(&prev, width, height);
        let persistence = self.cross_frame_persistence;
        let run = run_inter(
            rgb,
            width,
            height,
            plane,
            o,
            &mut self.rolling,
            true,
            persistence,
        );
        let ghost spec_run = encoder::whole_inter_run(
            rgb@,
            width,
            height,
            compared_plane(st.prev, width, height),
            *o,
            st.roll,
            true,
            st.persistence,
        );
        assert(run.shows(spec_run));
        self.last_stats = FrameStats {
            reclaimed_v4_slots: 0,
            reclaimed_v1_slots: 0,
            forced_full_chunks: 0,
        };
        if run.error.is_some() {
            return run.frame(width, height, Ghost(spec_run));
        }
        self.rolling.update_staleness(WhichCodebook::V4, &run.used_v4, o.v4_entries as usize);
        self.rolling.update_staleness(WhichCodebook::V1, &run.used_v1, o.v1_entries as usize);
        self.last_stats = FrameStats {
            reclaimed_v4_slots: run.reclaimed_v4,
            reclaimed_v1_slots: run.reclaimed_v1,
            forced_full_chunks: run.forced,
        };
        let bytes = match run.frame(width, height, Ghost(spec_run)) {
            Ok(b) => b,
            Err(e) => return Err(e),
        };
        match self.decoder.decode_frame(bytes.as_slice(), None) {
            Ok(f) => {
                self.prev_frame = Some(f);
                Ok(bytes)
            },
            Err(e) => Err(e),
        }
    }

    fn encode_one(
        &mut self,
        rgb: &[u8],
        width: u32,
        height: u32,
        o: &EncoderOptions,
        intra: bool,
    ) -> (r: Result<Vec<u8>>)
        requires
            old(self).wf(),
            options::request_error(rgb@.len(), width, height, PixelMode::Yuv12, *o) is None,
        ensures
            (final(self)@, strips::bytes_outcome(r)) == encoded_one(
                old(self)@,
                rgb@,
                width,
                height,
                *o,
                intra,
            ),
            keeps_settings(old(self)@, final(self)@),
            final(self).wf(),
            r matches Ok(v) ==> v@.len() <= 0xffffff,
    {
        if intra {
            self.encode_intra_one(rgb, width, height, o)
        } else {
            self.encode_inter_one(rgb, width, height, o)
        }
    }

    fn snapshot_state(&self) -> (r: EncoderSnapshot)
        ensures
            r.rolling@ == self@.roll,
            owned_frame_view(r.prev_frame) == self@.prev,
            r.decoder@ == self@.decoder,
            r.last_stats == self@.stats,
    {
        EncoderSnapshot {
            rolling: self.rolling.clone(),
            prev_frame: copy_frame(&self.prev_frame),
            decoder: self.decoder.clone(),
            last_stats: self.last_stats,
        }
    }

    fn restore_state(&mut self, s: &EncoderSnapshot)
        ensures
            final(self)@ == (EncoderState {
                roll: s.rolling@,
                prev: owned_frame_view(s.prev_frame),
                decoder: s.decoder@,
                stats: s.last_stats,
                ..old(self)@
            }),
    {
        self.rolling = s.rolling.clone();
        self.prev_frame = copy_frame(&s.prev_frame);
        self.decoder = s.decoder.clone();
        self.last_stats = s.last_stats;
    }

    fn encode_budget_frame(
        &mut self,
        rgb: &[u8],
        width: u32,
        height: u32,
        base: &EncoderOptions,
        intra: bool,
        budget: usize,
    ) -> (r: Result<Vec<u8>>)
        requires
            old(self).wf(),
            options::request_error(rgb@.len(), width, height, PixelMode::Yuv12, *base) is None,
        ensures
            (final(self)@, strips::bytes_outcome(r)) == budget_frame(
                BudgetScene {
                    state: old(self)@,
                    rgb: rgb@,
                    width,
                    height,
                    base: *base,
                    intra,
                    budget,
                },
            ),
            final(self).wf(),
            r matches Ok(v) ==> v@.len() <= 0xffffff,
    {
        let ghost c = BudgetScene {
            state: self@,
            rgb: rgb@,
            width,
            height,
            base: *base,
            intra,
            budget,
        };
        let candidates = budget_grid_candidates(base);
        let total: usize = candidates.len();
        let snap = self.snapshot_state();
        let mut best: Option<(u128, usize, EncoderOptions)> = None;
        let mut smallest: Option<(usize, EncoderOptions)> = None;
        let mut trials: usize = 0;
        let mut i: usize = 0;
        proof {
            reveal(budget_frame);
            grid::grid_members(*base, grid::strip_choices(), grid::budget_lambdas(*base), grid::luma_choices(*base));
        }
        while i < total
            invariant
                i <= total,
                total == candidates@.len(),
                candidates@ == grid::budget_grid(*base),
                c == (BudgetScene {
                    state: c.state,
                    rgb: rgb@,
                    width,
                    height,
                    base: *base,
                    intra,
                    budget,
                }),
                c.state == old(self)@,
                keeps_settings(c.state, self@),
                snap.rolling@ == c.state.roll,
                owned_frame_view(snap.prev_frame) == c.state.prev,
                snap.decoder@ == c.state.decoder,
                snap.last_stats == c.state.stats,
                rolling::roll_wf(c.state.roll),
                c.state.decoder.prev matches Some(f) ==> image::packed(f),
                self.wf(),
                options::request_error(rgb@.len(), width, height, PixelMode::Yuv12, *base) is None,
                forall|k: int|
                    0 <= k < total ==> options::request_error(
                        rgb@.len(),
                        width,
                        height,
                        PixelMode::Yuv12,
                        #[trigger] candidates@[k],
                    ) is None,
                trials <= i,
                found_so_far(best, smallest, trials) == search_run(c, i as int),
            decreases total - i,
        {
            self.restore_state(&snap);
            assert(self@ == c.state);
            let o = candidates[i];
            proof {
                assert(o == candidates@[i as int]);
                assert(search_run(c, i + 1) == search_step(c, o, search_run(c, i as int)));
            }
            match self.encode_one(rgb, width, height, &o, intra) {
                Err(_) => {},
                Ok(bytes) => {
                    let n: usize = bytes.len();
                    trials = trials + 1;
                    let before = best;
                    let take_small = match &smallest {
                        None => true,
                        Some((m, _)) => n < *m,
                    };
                    if take_small {
                        smallest = Some((n, o));
                    }
                    if n <= budget {
                        let mut dec = snap.decoder.clone();
                        let y = match decode_y_sse(&mut dec, bytes.as_slice(), rgb, width, height) {
                            Ok(y) => y,
                            Err(e) => {
                                proof {
                                    reveal(budget_frame);
                                    search_stays(c, i + 1, total as int);
                                }
                                return Err(e);
                            },
                        };
                        let take = match &best {
                            None => true,
                            Some((b, m, _)) => y < *b || (y == *b && n < *m),
                        };
                        if take {
                            best = Some((y, n, o));
                        }
                    }
                },
            }
            i = i + 1;
        }
        let (winner, fits, found) = match (&best, &smallest) {
            (Some((_, _, o)), _) => (*o, true, true),
            (None, Some((_, o))) => (*o, false, true),
            (None, None) => (*base, false, false),
        };
        proof {
            search_keeps_valid(c, total as int);
        }
        self.restore_state(&snap);
        assert(self@ == c.state);
        match self.encode_one(rgb, width, height, &winner, intra) {
            Err(e) => Err(e),
            Ok(bytes) => {
                if found {
                    let actual: usize = bytes.len();
                    let byte_delta: i64 = excess_of(actual, budget);
                    self.last_rate_stats = Some(
                        RateStats {
                            target_bytes: budget,
                            actual_bytes: actual,
                            byte_delta,
                            within_budget: fits,
                            trials,
                        },
                    );
                }
                Ok(bytes)
            },
        }
    }

    /// A copy of the encoder.
    pub(crate) fn duplicate(&self) -> (r: Self)
        ensures
            r@ == self@,
            self.wf() ==> r.wf(),
    {
        CinepakEncoder {
            rolling: self.rolling.clone(),
            prev_frame: copy_frame(&self.prev_frame),
            decoder: self.decoder.clone(),
            cross_frame_persistence: self.cross_frame_persistence,
            last_stats: self.last_stats,
            target_frame_bytes: self.target_frame_bytes,
            last_rate_stats: self.last_rate_stats,
        }
    }

    /// Encodes a frame that stands alone.
    pub fn encode_intra(&mut self, rgb: &[u8], width: u32, height: u32, opts: EncoderOptions) -> (r:
        Result<Vec<u8>>)
        requires
            old(self).wf(),
        ensures
            (final(self)@, strips::bytes_outcome(r)) == intra_call(old(self)@, rgb@, width, height, opts),
            final(self).wf(),
            r matches Ok(v) ==> v@.len() <= 0xffffff,
    {
        if let Err(e) = validate_request(rgb, width, height, PixelMode::Yuv12, &opts) {
            return Err(e);
        }
        match self.target_frame_bytes {
            Some(budget) => self.encode_budget_frame(rgb, width, height, &opts, true, budget),
            None => self.encode_intra_one(rgb, width, height, &opts),
        }
    }

    /// Encodes a frame that builds on the one before.
    pub fn encode_inter(&mut self, rgb: &[u8], width: u32, height: u32, opts: EncoderOptions) -> (r:
        Result<Vec<u8>>)
        requires
            old(self).wf(),
        ensures
            (final(self)@, strips::bytes_outcome(r)) == inter_call(old(self)@, rgb@, width, height, opts),
            final(self).wf(),
            r matches Ok(v) ==> v@.len() <= 0xffffff,
    {
        if let Err(e) = validate_request(rgb, width, height, PixelMode::Yuv12, &opts) {
            return Err(e);
        }
        match &self.prev_frame {
            None => {
                return Err(
                    other("encoder: encode_inter called before encode_intra; no prev frame"),
                );
            },
            Some(f) => {
                if f.width != width || f.height != height {
                    return Err(prev_size_error(f.width, f.height, width, height));
                }
            },
        }
        match self.target_frame_bytes {
            Some(budget) => self.encode_budget_frame(rgb, width, height, &opts, false, budget),
            None => self.encode_inter_one(rgb, width, height, &opts),
        }
    }
}

/// What a search within a budget has found, where nothing went wrong.
pub open spec fn found_so_far(
    best: Option<(u128, usize, EncoderOptions)>,
    smallest: Option<(usize, EncoderOptions)>,
    trials: usize,
) -> BudgetSearch {
    BudgetSearch {
        best: match best {
            Some((y, n, o)) => Some((y as int, n as nat, o)),
            None => None,
        },
        smallest: match smallest {
            Some((n, o)) => Some((n as nat, o)),
            None => None,
        },
        trials: trials as nat,
        fault: None,
    }
}

proof fn search_stays(c: BudgetScene, k: int, n: int)
    requires
        0 <= k <= n,
        search_run(c, k).fault is Some,
    ensures
        search_run(c, n) == search_run(c, k),
    decreases n - k,
{
    if k < n {
        assert(search_run(c, k + 1) == search_run(c, k));
        search_stays(c, k + 1, n);
    }
}

/// What a search finds is one of its configurations.
proof fn search_keeps_valid(c: BudgetScene, k: int)
    requires
        0 <= k <= grid::budget_grid(c.base).len(),
    ensures
        search_run(c, k).best matches Some((_, _, o)) ==> exists|i: int|
            0 <= i < k && #[trigger] grid::budget_grid(c.base)[i] == o,
        search_run(c, k).smallest matches Some((_, o)) ==> exists|i: int|
            0 <= i < k && #[trigger] grid::budget_grid(c.base)[i] == o,
    decreases k,
{
    if k > 0 {
        search_keeps_valid(c, k - 1);
        let o = grid::budget_grid(c.base)[k - 1];
        assert(search_run(c, k) == search_step(c, o, search_run(c, k - 1)));
    }
}

} // verus!
