//! Choosing a quality for every frame of a sequence.

use vstd::prelude::*;
use crate::error::{ErrorView, Result};
use crate::options::{self, EncoderOptions};
use crate::session::{self, excess_of, CinepakEncoder, EncoderState};
use crate::strips;

verus! {

/// The pictures behind vectors of bytes.
pub open spec fn pictures(frames: Seq<Vec<u8>>) -> Seq<Seq<u8>> {
    Seq::new(frames.len(), |i: int| frames[i]@)
}

/// Encoding frame `i` of a sequence: the first stands alone, the others build
/// on the one before.
pub open spec fn sequence_call(
    st: EncoderState,
    i: int,
    rgb: Seq<u8>,
    width: u32,
    height: u32,
    o: EncoderOptions,
) -> (EncoderState, core::result::Result<Seq<u8>, ErrorView>) {
    if i == 0 {
        session::intra_call(st, rgb, width, height, o)
    } else {
        session::inter_call(st, rgb, width, height, o)
    }
}

pub(crate) fn encode_at(
    enc: &mut CinepakEncoder,
    i: usize,
    rgb: &Vec<u8>,
    width: u32,
    height: u32,
    o: EncoderOptions,
) -> (r: Result<Vec<u8>>)
    requires
        old(enc).wf(),
    ensures
        (final(enc)@, strips::bytes_outcome(r)) == sequence_call(
            old(enc)@,
            i as int,
            rgb@,
            width,
            height,
            o,
        ),
        final(enc).wf(),
        r matches Ok(v) ==> v@.len() <= 0xffffff,
{
    if i == 0 {
        enc.encode_intra(rgb.as_slice(), width, height, o)
    } else {
        enc.encode_inter(rgb.as_slice(), width, height, o)
    }
}

/// A sequence encoded with one configuration, as far as it has come.
#[verifier::ext_equal]
pub struct StatsRun {
    pub state: EncoderState,
    pub sizes: Seq<usize>,
    pub error: Option<ErrorView>,
}

/// The sequence after its first `n` frames. The first frame that fails ends
/// it.
pub open spec fn stats_run(
    frames: Seq<Seq<u8>>,
    width: u32,
    height: u32,
    o: EncoderOptions,
    n: int,
) -> StatsRun
    decreases n,
{
    if n <= 0 {
        StatsRun { state: session::fresh_encoder(), sizes: Seq::empty(), error: None }
    } else {
        let run = stats_run(frames, width, height, o, n - 1);
        if run.error is Some {
            run
        } else {
            let t = sequence_call(run.state, n - 1, frames[n - 1], width, height, o);
            match t.1 {
                Err(e) => StatsRun { state: t.0, error: Some(e), ..run },
                Ok(b) => StatsRun { state: t.0, sizes: run.sizes.push(b.len() as usize), ..run },
            }
        }
    }
}

proof fn stats_run_ends(
    frames: Seq<Seq<u8>>,
    width: u32,
    height: u32,
    o: EncoderOptions,
    i: int,
    n: int,
)
    requires
        0 <= i <= n,
        stats_run(frames, width, height, o, i).error is Some,
    ensures
        stats_run(frames, width, height, o, n) == stats_run(frames, width, height, o, i),
    decreases n - i,
{
    if i < n {
        stats_run_ends(frames, width, height, o, i, n - 1);
    }
}

/// The sum of the first `k` sizes.
pub open spec fn sizes_sum(sizes: Seq<usize>, k: int) -> int
    decreases k,
{
    if k <= 0 {
        0
    } else {
        sizes_sum(sizes, k - 1) + sizes[k - 1]
    }
}

proof fn sum_kept(a: Seq<usize>, b: Seq<usize>, k: int)
    requires
        forall|i: int| 0 <= i < k ==> a[i] == b[i],
    ensures
        sizes_sum(a, k) == sizes_sum(b, k),
    decreases k,
{
    if k > 0 {
        sum_kept(a, b, k - 1);
    }
}

/// A frame and how it was encoded.
#[derive(Clone, Debug)]
pub struct RateControlledFrame {
    pub bytes: Vec<u8>,
    /// The quality, from 0 to 100.
    pub quality: u8,
    /// By how much the size exceeds what was aimed at.
    pub byte_delta: i64,
}

/// A frame and how it was encoded.
#[verifier::ext_equal]
pub struct RatedFrame {
    pub bytes: Seq<u8>,
    pub quality: u8,
    pub byte_delta: i64,
}

impl View for RateControlledFrame {
    type V = RatedFrame;

    open spec fn view(&self) -> RatedFrame {
        RatedFrame { bytes: self.bytes@, quality: self.quality, byte_delta: self.byte_delta }
    }
}

/// The frames behind a vector.
pub open spec fn rated_views(v: Seq<RateControlledFrame>) -> Seq<RatedFrame> {
    Seq::new(v.len(), |i: int| v[i]@)
}

/// The frames behind an outcome.
pub open spec fn rated_outcome(r: Result<Vec<RateControlledFrame>>) -> core::result::Result<
    Seq<RatedFrame>,
    ErrorView,
> {
    match r {
        Ok(v) => Ok(rated_views(v@)),
        Err(e) => Err(e@),
    }
}

/// Two passes over a sequence: one for statistics, one that keeps to a size.
pub struct TwoPassRateControl {
    /// The quality of the pass for statistics.
    pub reference_quality: u8,
    /// The sizes of the frames of the last such pass.
    pub per_frame_bytes: Vec<usize>,
}

impl Default for TwoPassRateControl {
    fn default() -> (r: Self)
        ensures
            r.reference_quality == 50,
            r.sizes() == Seq::<usize>::empty(),
    {
        TwoPassRateControl { reference_quality: 50, per_frame_bytes: Vec::new() }
    }
}

/// A sequence whose frames each aim at a size.
pub struct SizedScene {
    pub frames: Seq<Seq<u8>>,
    pub width: u32,
    pub height: u32,
    pub target: usize,
}

/// Frame `i` at a quality.
#[verifier::opaque]
pub open spec fn sized_call(c: SizedScene, st: EncoderState, i: int, q: u8) -> (
    EncoderState,
    core::result::Result<Seq<u8>, ErrorView>,
) {
    sequence_call(st, i, c.frames[i], c.width, c.height, options::quality_options(q))
}

/// The highest of the first `k` multiples of ten at which frame `i` keeps to
/// the size. A quality at which the frame fails ends the search.
pub open spec fn sized_search(c: SizedScene, st: EncoderState, i: int, k: int) -> core::result::Result<
    Option<u8>,
    ErrorView,
>
    decreases k,
{
    if k <= 0 {
        Ok(None)
    } else {
        match sized_search(c, st, i, k - 1) {
            Err(e) => Err(e),
            Ok(best) => match sized_call(c, st, i, ((k - 1) * 10) as u8).1 {
                Err(e) => Err(e),
                Ok(b) => if b.len() <= c.target {
                    Ok(Some(((k - 1) * 10) as u8))
                } else {
                    Ok(best)
                },
            },
        }
    }
}

/// A sequence of frames with a quality each, as far as it has come.
#[verifier::ext_equal]
pub struct RateRun {
    pub state: EncoderState,
    pub frames: Seq<RatedFrame>,
    pub error: Option<ErrorView>,
}

/// The start of every sequence.
pub open spec fn rate_start() -> RateRun {
    RateRun { state: session::fresh_encoder(), frames: Seq::empty(), error: None }
}

/// The sequence with a frame at the given quality added.
pub open spec fn rate_push(
    run: RateRun,
    t: (EncoderState, core::result::Result<Seq<u8>, ErrorView>),
    q: u8,
    aim: int,
) -> RateRun {
    match t.1 {
        Err(e) => RateRun { error: Some(e), ..run },
        Ok(b) => RateRun {
            state: t.0,
            frames: run.frames.push(
                RatedFrame { bytes: b, quality: q, byte_delta: session::excess(b.len() as int, aim) },
            ),
            ..run
        },
    }
}

/// The sequence after one more frame: at the highest quality that keeps to
/// the size, or at the lowest where none does.
pub open spec fn sized_step(c: SizedScene, i: int, run: RateRun) -> RateRun {
    if run.error is Some {
        run
    } else {
        match sized_search(c, run.state, i, 11) {
            Err(e) => RateRun { error: Some(e), ..run },
            Ok(best) => {
                let q = match best {
                    Some(q) => q,
                    None => 0,
                };
                rate_push(run, sized_call(c, run.state, i, q), q, c.target as int)
            },
        }
    }
}

/// The sequence after its first `n` frames.
pub open spec fn sized_run(c: SizedScene, n: int) -> RateRun
    decreases n,
{
    if n <= 0 {
        rate_start()
    } else {
        sized_step(c, n - 1, sized_run(c, n - 1))
    }
}

/// The frames of a sequence, or why there are none.
pub open spec fn rate_result(run: RateRun) -> core::result::Result<Seq<RatedFrame>, ErrorView> {
    match run.error {
        Some(e) => Err(e),
        None => Ok(run.frames),
    }
}

proof fn sized_run_ends(c: SizedScene, i: int, n: int)
    requires
        0 <= i <= n,
        sized_run(c, i).error is Some,
    ensures
        sized_run(c, n) == sized_run(c, i),
    decreases n - i,
{
    if i < n {
        sized_run_ends(c, i, n - 1);
    }
}

proof fn sized_search_ends(c: SizedScene, st: EncoderState, i: int, j: int, k: int)
    requires
        0 <= j <= k,
        sized_search(c, st, i, j) is Err,
    ensures
        sized_search(c, st, i, k) == sized_search(c, st, i, j),
    decreases k - j,
{
    if j < k {
        sized_search_ends(c, st, i, j, k - 1);
    }
}

/// Encodes frame `i` at the highest quality that keeps to the size.
fn encode_sized(
    enc: &CinepakEncoder,
    i: usize,
    frame: &Vec<u8>,
    width: u32,
    height: u32,
    target: usize,
    Ghost(c): Ghost<SizedScene>,
    Ghost(run): Ghost<RateRun>,
) -> (r: Result<(CinepakEncoder, RateControlledFrame)>)
    requires
        enc.wf(),
        enc@ == run.state,
        run.error is None,
        0 <= i < c.frames.len(),
        c.frames[i as int] == frame@,
        c.width == width,
        c.height == height,
        c.target == target,
    ensures
        match r {
            Ok((e, f)) => e.wf() && sized_step(c, i as int, run) == (RateRun {
                state: e@,
                frames: run.frames.push(f@),
                error: None,
            }),
            Err(e) => sized_step(c, i as int, run).error == Some(e@),
        },
{
    let mut best: Option<(u8, Vec<u8>, CinepakEncoder)> = None;
    let mut lowest: Option<(Vec<u8>, CinepakEncoder)> = None;
    let mut k: u8 = 0;
    while k < 11
        invariant
            k <= 11,
            enc.wf(),
            enc@ == run.state,
            0 <= i < c.frames.len(),
            c.frames[i as int] == frame@,
            c.width == width,
            c.height == height,
            c.target == target,
            run.error is None,
            match best {
                Some((q, b, e)) => e.wf() && b@.len() <= 0xffffff && sized_search(
                    c,
                    run.state,
                    i as int,
                    k as int,
                ) == Ok::<Option<u8>, ErrorView>(Some(q)) && sized_call(c, run.state, i as int, q)
                    == (e@, Ok::<Seq<u8>, ErrorView>(b@)),
                None => sized_search(c, run.state, i as int, k as int) == Ok::<
                    Option<u8>,
                    ErrorView,
                >(None),
            },
            k > 0 ==> lowest is Some,
            lowest matches Some((b, e)) ==> e.wf() && b@.len() <= 0xffffff && sized_call(
                c,
                run.state,
                i as int,
                0,
            ) == (e@, Ok::<Seq<u8>, ErrorView>(b@)),
        decreases 11 - k,
    {
        proof {
            reveal(sized_call);
        }
        let q: u8 = k * 10;
        let mut e = enc.duplicate();
        let b = match encode_at(&mut e, i, frame, width, height, EncoderOptions::from_quality(q)) {
            Ok(b) => b,
            Err(x) => {
                proof {
                    assert(sized_search(c, run.state, i as int, k + 1) is Err);
                    sized_search_ends(c, run.state, i as int, k + 1, 11);
                }
                return Err(x);
            },
        };
        if b.len() <= target {
            if k == 0 {
                let copy = e.duplicate();
                let mut bytes: Vec<u8> = Vec::new();
                bytes.extend_from_slice(b.as_slice());
                assert(bytes@ =~= b@);
                lowest = Some((bytes, copy));
            }
            best = Some((q, b, e));
        } else if k == 0 {
            lowest = Some((b, e));
        }
        k = k + 1;
    }
    match best {
        Some((quality, bytes, e)) => {
            let byte_delta: i64 = excess_of(bytes.len(), target);
            Ok((e, RateControlledFrame { bytes, quality, byte_delta }))
        },
        None => match lowest {
            Some((bytes, e)) => {
                let byte_delta: i64 = excess_of(bytes.len(), target);
                Ok((e, RateControlledFrame { bytes, quality: 0, byte_delta }))
            },
            None => {
                assert(false);
                Ok(
                    (
                        enc.duplicate(),
                        RateControlledFrame { bytes: Vec::new(), quality: 0, byte_delta: 0 },
                    ),
                )
            },
        },
    }
}

impl TwoPassRateControl {
    /// The sizes of the frames of the pass for statistics.
    pub open spec fn sizes(self) -> Seq<usize> {
        self.per_frame_bytes@
    }

    /// A control without statistics, for a reference quality of 50.
    pub fn new() -> (r: Self)
        ensures
            r.reference_quality == 50,
            r.sizes() == Seq::<usize>::empty(),
    {
        TwoPassRateControl { reference_quality: 50, per_frame_bytes: Vec::new() }
    }

    /// Encodes a sequence at the reference quality, records the size of each
    /// frame, and gives the sum. The sum must fit in a machine word whatever
    /// the sizes.
    pub fn stats_pass(&mut self, frames: &[Vec<u8>], width: u32, height: u32) -> (r: Result<usize>)
        requires
            frames@.len() * 0xffffff <= usize::MAX,
        ensures
            final(self).reference_quality == old(self).reference_quality,
            ({
                let run = stats_run(
                    pictures(frames@),
                    width,
                    height,
                    options::quality_options(old(self).reference_quality),
                    frames@.len() as int,
                );
                &&& final(self).sizes() == run.sizes
                &&& match r {
                    Ok(total) => run.error is None && total == sizes_sum(
                        run.sizes,
                        run.sizes.len() as int,
                    ),
                    Err(e) => run.error == Some(e@),
                }
            }),
    {
        let ghost pics = pictures(frames@);
        self.per_frame_bytes = Vec::new();
        let o = EncoderOptions::from_quality(self.reference_quality);
        let mut enc = CinepakEncoder::new();
        let mut total: usize = 0;
        let mut i: usize = 0;
        while i < frames.len()
            invariant
                i <= frames@.len(),
                frames@.len() * 0xffffff <= usize::MAX,
                pics == pictures(frames@),
                o == options::quality_options(old(self).reference_quality),
                self.reference_quality == old(self).reference_quality,
                enc.wf(),
                stats_run(pics, width, height, o, i as int) == (StatsRun {
                    state: enc@,
                    sizes: self.per_frame_bytes@,
                    error: None,
                }),
                self.per_frame_bytes@.len() == i,
                total == sizes_sum(self.per_frame_bytes@, i as int),
                total <= i * 0xffffff,
            decreases frames@.len() - i,
        {
            assert(pics[i as int] == frames@[i as int]@);
            match encode_at(&mut enc, i, &frames[i], width, height, o) {
                Ok(b) => {
                    let ghost before = self.per_frame_bytes@;
                    let n: usize = b.len();
                    self.per_frame_bytes.push(n);
                    total = total + n;
                    proof {
                        sum_kept(before, self.per_frame_bytes@, i as int);
                    }
                },
                Err(e) => {
                    proof {
                        assert(stats_run(pics, width, height, o, i + 1).error is Some);
                        stats_run_ends(pics, width, height, o, i + 1, frames@.len() as int);
                    }
                    return Err(e);
                },
            }
            i = i + 1;
        }
        Ok(total)
    }

    /// The sizes of the frames of the last pass for statistics.
    pub fn per_frame_bytes(&self) -> (r: &[usize])
        ensures
            r@ == self.sizes(),
    {
        self.per_frame_bytes.as_slice()
    }

    /// The average size of the frames of the last pass for statistics, as a
    /// sum and what to divide it by.
    pub fn average_frame_bytes(&self) -> (r: Option<(u128, usize)>)
        ensures
            r == if self.sizes().len() == 0 {
                None::<(u128, usize)>
            } else {
                Some(
                    (
                        sizes_sum(self.sizes(), self.sizes().len() as int) as u128,
                        self.sizes().len() as usize,
                    ),
                )
            },
            sizes_sum(self.sizes(), self.sizes().len() as int) <= u128::MAX,
    {
        let n: usize = self.per_frame_bytes.len();
        let mut total: u128 = 0;
        let mut i: usize = 0;
        while i < n
            invariant
                i <= n,
                n == self.per_frame_bytes@.len(),
                total == sizes_sum(self.per_frame_bytes@, i as int),
                total <= i * 0xffffffffffffffff,
            decreases n - i,
        {
            total = total + self.per_frame_bytes[i] as u128;
            i = i + 1;
        }
        if n == 0 {
            None
        } else {
            Some((total, n))
        }
    }

    /// Encodes a sequence, each frame at the highest multiple of ten as its
    /// quality at which it keeps to the size; where none does, at the lowest.
    pub fn encode_at_target_bytes(
        &self,
        frames: &[Vec<u8>],
        width: u32,
        height: u32,
        target_bytes: usize,
    ) -> (r: Result<Vec<RateControlledFrame>>)
        ensures
            rated_outcome(r) == rate_result(
                sized_run(
                    SizedScene {
                        frames: pictures(frames@),
                        width,
                        height,
                        target: target_bytes,
                    },
                    frames@.len() as int,
                ),
            ),
    {
        let ghost c = SizedScene { frames: pictures(frames@), width, height, target: target_bytes };
        let mut enc = CinepakEncoder::new();
        let mut out: Vec<RateControlledFrame> = Vec::new();
        assert(rated_views(out@) =~= Seq::empty());
        let mut i: usize = 0;
        while i < frames.len()
            invariant
                i <= frames@.len(),
                c == (SizedScene {
                    frames: pictures(frames@),
                    width,
                    height,
                    target: target_bytes,
                }),
                enc.wf(),
                sized_run(c, i as int) == (RateRun {
                    state: enc@,
                    frames: rated_views(out@),
                    error: None,
                }),
            decreases frames@.len() - i,
        {
            let ghost run = sized_run(c, i as int);
            match encode_sized(
                &enc,
                i,
                &frames[i],
                width,
                height,
                target_bytes,
                Ghost(c),
                Ghost(run),
            ) {
                Ok((e, f)) => {
                    let ghost before = out@;
                    enc = e;
                    out.push(f);
                    assert(rated_views(out@) =~= rated_views(before).push(f@));
                },
                Err(x) => {
                    proof {
                        assert(sized_run(c, i + 1).error is Some);
                        sized_run_ends(c, i + 1, frames@.len() as int);
                    }
                    return Err(x);
                },
            }
            i = i + 1;
        }
        Ok(out)
    }
}

/// The quality of a frame that aims at a size is the highest multiple of ten
/// at which it keeps to it; where it keeps to it at none, the lowest.
pub proof fn sized_quality_is_highest(c: SizedScene, i: int, run: RateRun, k: int)
    requires
        run.error is None,
        sized_step(c, i, run).error is None,
        0 <= k <= 10,
    ensures
        ({
            let q = sized_step(c, i, run).frames.last().quality;
            let t = sized_call(c, run.state, i, (k * 10) as u8).1;
            &&& q <= 100 && q % 10 == 0
            &&& t is Ok
            &&& t->Ok_0.len() <= c.target ==> k * 10 <= q
            &&& q > 0 ==> sized_call(c, run.state, i, q).1->Ok_0.len() <= c.target
        }),
{
    sized_search_facts(c, run.state, i, 11);
    let t = sized_call(c, run.state, i, (k * 10) as u8).1;
}

proof fn sized_search_facts(c: SizedScene, st: EncoderState, i: int, n: int)
    requires
        0 <= n <= 11,
        sized_search(c, st, i, n) is Ok,
    ensures
        sized_search(c, st, i, n)->Ok_0 matches Some(q) ==> q < n * 10 && q % 10 == 0
            && sized_call(c, st, i, q).1 is Ok && sized_call(c, st, i, q).1->Ok_0.len()
            <= c.target,
        forall|k: int|
            0 <= k < n ==> {
                let t = #[trigger] sized_call(c, st, i, (k * 10) as u8).1;
                &&& t is Ok
                &&& t->Ok_0.len() <= c.target ==> (sized_search(c, st, i, n)->Ok_0 matches Some(q)
                    && k * 10 <= q)
            },
    decreases n,
{
    if n > 0 {
        assert(sized_search(c, st, i, n - 1) is Ok);
        sized_search_facts(c, st, i, n - 1);
    }
}

} // verus!
