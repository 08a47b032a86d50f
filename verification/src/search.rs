//! Searching for the configuration that serves a picture best.

use vstd::prelude::*;
use crate::clean;
use crate::codebook::PixelMode;
use crate::decoder::{self, CinepakDecoder, DecoderState};
use crate::encoder::{self, encode_rgb24};
use crate::error::{other, ErrorView, Result};
use crate::grid::{self, grid_candidates, search_lambdas, search_lumas, search_strips};
use crate::image::CinepakPixelFormat;
use crate::lint;
use crate::measure::{self, decode_rgb_sse, decode_y_sse, ROW_LIMIT};
use crate::options::{self, EncoderOptions};
use crate::rolling;
use crate::roundtrip;
use crate::sampling::{self, FIXED_ONE};
use crate::strips;

verus! {

/// The price of a byte: that of the configuration, or none.
pub open spec fn byte_price(o: EncoderOptions) -> i64 {
    match o.rdo_lambda {
        Some(l) => l,
        None => 0,
    }
}

pub(crate) fn price_of(o: &EncoderOptions) -> (r: i64)
    ensures
        r == byte_price(*o),
{
    match o.rdo_lambda {
        Some(l) => l,
        None => 0,
    }
}

/// Error per colour value plus the price of the bytes per pixel, times three
/// times the number of pixels.
pub open spec fn rgb_cost(error: int, price: i64, len: int) -> int {
    error * FIXED_ONE + 3 * (price * len)
}

/// Error in brightness per pixel plus the price of the bytes per pixel, times
/// a million times the number of pixels.
pub open spec fn y_cost(error: int, price: i64, len: int) -> int {
    error * FIXED_ONE + 1000000 * (price * len)
}

/// What a frame costs.
pub open spec fn frame_cost(
    bytes: Seq<u8>,
    rgb: Seq<u8>,
    width: u32,
    height: u32,
    price: i64,
    luma: bool,
) -> core::result::Result<int, ErrorView> {
    if luma {
        match measure::decoded_y_error(decoder::fresh_decoder(), bytes, rgb, width, height) {
            Ok(e) => Ok(y_cost(e, price, bytes.len() as int)),
            Err(e) => Err(e),
        }
    } else {
        match measure::decoded_rgb_error(decoder::fresh_decoder(), bytes, rgb, width, height) {
            Ok(e) => Ok(rgb_cost(e, price, bytes.len() as int)),
            Err(e) => Err(e),
        }
    }
}

/// The cost behind an outcome.
pub open spec fn cost_outcome(r: Result<i128>) -> core::result::Result<int, ErrorView> {
    match r {
        Ok(n) => Ok(n as int),
        Err(e) => Err(e@),
    }
}

/// Bound on the cost of a frame.
pub const COST_LIMIT: i128 = 0x10000000000000000000000000000000;

pub proof fn price_bound(price: i64, len: int, error: int)
    requires
        0 <= len <= 0xffffff,
        0 <= error <= 0xffffffff * ROW_LIMIT,
    ensures
        -0x8000000000000000 * 0xffffff <= price * len <= 0x8000000000000000 * 0xffffff,
        -COST_LIMIT < rgb_cost(error, price, len) < COST_LIMIT,
        -COST_LIMIT < y_cost(error, price, len) < COST_LIMIT,
{
    assert(-0x8000000000000000 * 0xffffff <= price * len <= 0x8000000000000000 * 0xffffff)
        by (nonlinear_arith)
        requires
            -0x8000000000000000 <= price <= 0x7fffffffffffffff,
            0 <= len <= 0xffffff,
    ;
}

/// Measures what a frame costs.
pub(crate) fn cost_of(bytes: &[u8], rgb: &[u8], width: u32, height: u32, price: i64, luma: bool) -> (r: Result<
    i128,
>)
    requires
        bytes@.len() <= 0xffffff,
        sampling::picture_len(width as int, height as int, PixelMode::Yuv12) <= rgb@.len(),
    ensures
        cost_outcome(r) == frame_cost(bytes@, rgb@, width, height, price, luma),
        r matches Ok(c) ==> -COST_LIMIT < c < COST_LIMIT,
{
    let mut dec = CinepakDecoder::new();
    let n: usize = bytes.len();
    if luma {
        match decode_y_sse(&mut dec, bytes, rgb, width, height) {
            Ok(e) => {
                proof {
                    price_bound(price, n as int, e as int);
                }
                Ok(e as i128 * (FIXED_ONE as i128) + 1000000 * (price as i128 * (n as i128)))
            },
            Err(e) => Err(e),
        }
    } else {
        match decode_rgb_sse(&mut dec, bytes, rgb, width, height) {
            Ok(e) => {
                proof {
                    price_bound(price, n as int, e as int);
                }
                Ok(e as i128 * (FIXED_ONE as i128) + 3 * (price as i128 * (n as i128)))
            },
            Err(e) => Err(e),
        }
    }
}

/// A picture, the configurations to try on it, and how to compare them.
pub struct Contest {
    pub rgb: Seq<u8>,
    pub width: u32,
    pub height: u32,
    pub candidates: Seq<EncoderOptions>,
    pub price: i64,
    /// Whether only brightness counts.
    pub luma: bool,
}

/// The frame that a configuration gives.
pub open spec fn contest_frame(c: Contest, i: int) -> core::result::Result<Seq<u8>, ErrorView> {
    encoder::intra_frame(c.rgb, c.width, c.height, PixelMode::Yuv12, c.candidates[i])
}

/// What the frame of a configuration costs.
pub open spec fn contest_cost(c: Contest, i: int) -> core::result::Result<int, ErrorView> {
    frame_cost(contest_frame(c, i)->Ok_0, c.rgb, c.width, c.height, c.price, c.luma)
}

/// The cheaper of two frames, of equal ones the smaller, of such the first.
pub open spec fn cheaper(best: Option<(int, Seq<u8>)>, cost: int, bytes: Seq<u8>) -> Option<
    (int, Seq<u8>),
> {
    match best {
        Some((b, s)) => if cost < b || (cost == b && bytes.len() < s.len()) {
            Some((cost, bytes))
        } else {
            best
        },
        None => Some((cost, bytes)),
    }
}

/// The cheapest frame of the first `k` configurations, with its cost. The
/// first configuration without a frame, or whose frame cannot be measured,
/// ends the contest.
pub open spec fn contest(c: Contest, k: int) -> core::result::Result<
    Option<(int, Seq<u8>)>,
    ErrorView,
>
    decreases k,
{
    if k <= 0 {
        Ok(None)
    } else {
        match contest(c, k - 1) {
            Err(e) => Err(e),
            Ok(best) => match contest_frame(c, k - 1) {
                Err(e) => Err(e),
                Ok(bytes) => match contest_cost(c, k - 1) {
                    Err(e) => Err(e),
                    Ok(cost) => Ok(cheaper(best, cost, bytes)),
                },
            },
        }
    }
}

/// The frame that wins a contest.
pub open spec fn winner(c: Contest) -> core::result::Result<Seq<u8>, ErrorView> {
    match contest(c, c.candidates.len() as int) {
        Err(e) => Err(e),
        Ok(best) => Ok((best->0).1),
    }
}

proof fn contest_ends(c: Contest, i: int, k: int)
    requires
        0 <= i <= k,
        contest(c, i) is Err,
    ensures
        contest(c, k) == contest(c, i),
    decreases k - i,
{
    if i < k {
        contest_ends(c, i, k - 1);
    }
}

/// The best frame behind an optional one.
pub open spec fn best_view(b: Option<(i128, Vec<u8>)>) -> Option<(int, Seq<u8>)> {
    match b {
        Some((c, v)) => Some((c as int, v@)),
        None => None,
    }
}

fn hold_contest(
    rgb: &[u8],
    width: u32,
    height: u32,
    candidates: &Vec<EncoderOptions>,
    price: i64,
    luma: bool,
) -> (r: Result<Vec<u8>>)
    requires
        candidates@.len() >= 1,
    ensures
        strips::bytes_outcome(r) == winner(
            Contest { rgb: rgb@, width, height, candidates: candidates@, price, luma },
        ),
        r matches Ok(v) ==> v@.len() <= 0xffffff,
        r is Ok ==> options::request_error(rgb@.len(), width, height, PixelMode::Yuv12, candidates@[0]) is None,
{
    let ghost c = Contest { rgb: rgb@, width, height, candidates: candidates@, price, luma };
    let total: usize = candidates.len();
    let mut best: Option<(i128, Vec<u8>)> = None;
    let mut i: usize = 0;
    while i < total
        invariant
            total == candidates@.len(),
            i <= total,
            c == (Contest { rgb: rgb@, width, height, candidates: candidates@, price, luma }),
            contest(c, i as int) == Ok::<Option<(int, Seq<u8>)>, ErrorView>(best_view(best)),
            i > 0 ==> best is Some,
            best matches Some((_, v)) ==> v@.len() <= 0xffffff,
            i > 0 ==> options::request_error(rgb@.len(), width, height, PixelMode::Yuv12, candidates@[0])
                is None,
        decreases total - i,
    {
        let o = candidates[i];
        assert(o == c.candidates[i as int]);
        let bytes = match encode_rgb24(rgb, width, height, o) {
            Ok(b) => b,
            Err(e) => {
                proof {
                    assert(contest(c, i + 1) is Err);
                    contest_ends(c, i + 1, total as int);
                }
                return Err(e);
            },
        };
        let cost = match cost_of(bytes.as_slice(), rgb, width, height, price, luma) {
            Ok(k) => k,
            Err(e) => {
                proof {
                    assert(contest(c, i + 1) is Err);
                    contest_ends(c, i + 1, total as int);
                }
                return Err(e);
            },
        };
        let take = match &best {
            Some((b, s)) => cost < *b || (cost == *b && bytes.len() < s.len()),
            None => true,
        };
        if take {
            best = Some((cost, bytes));
        }
        i = i + 1;
    }
    match best {
        Some((_, v)) => Ok(v),
        None => Ok(Vec::new()),
    }
}

/// The frame that wins is no dearer than any other of its contest.
pub proof fn winner_is_cheapest(c: Contest, i: int)
    requires
        winner(c) is Ok,
        0 <= i < c.candidates.len(),
    ensures
        contest_frame(c, i) is Ok,
        contest_cost(c, i) is Ok,
        frame_cost(winner(c)->Ok_0, c.rgb, c.width, c.height, c.price, c.luma) is Ok,
        frame_cost(winner(c)->Ok_0, c.rgb, c.width, c.height, c.price, c.luma)->Ok_0
            <= contest_cost(c, i)->Ok_0,
{
    contest_facts(c, c.candidates.len() as int);
}

#[verifier::rlimit(50)]
#[verifier::spinoff_prover]
proof fn contest_facts(c: Contest, k: int)
    requires
        0 <= k,
        contest(c, k) is Ok,
    ensures
        k > 0 ==> (contest(c, k)->Ok_0) is Some,
        contest(c, k)->Ok_0 matches Some((b, s)) ==> frame_cost(
            s,
            c.rgb,
            c.width,
            c.height,
            c.price,
            c.luma,
        ) == Ok::<int, ErrorView>(b),
        forall|i: int|
            0 <= i < k ==> (#[trigger] contest_frame(c, i)) is Ok && contest_cost(c, i) is Ok
                && (contest(c, k)->Ok_0->0).0 <= contest_cost(c, i)->Ok_0,
    decreases k,
{
    if k > 0 {
        assert(contest(c, k - 1) is Ok);
        contest_facts(c, k - 1);
    }
}

/// Strip counts with none taken as one.
pub open spec fn at_least_one(candidates: Seq<u16>) -> Seq<u16> {
    Seq::new(
        candidates.len(),
        |i: int|
            if candidates[i] == 0 {
                1u16
            } else {
                candidates[i]
            },
    )
}

/// The contest of strip counts.
pub open spec fn strips_contest(
    rgb: Seq<u8>,
    width: u32,
    height: u32,
    o: EncoderOptions,
    candidates: Seq<u16>,
) -> Contest {
    Contest {
        rgb,
        width,
        height,
        candidates: grid::grid(o, at_least_one(candidates), seq![o.rdo_lambda], seq![o.luma_weight]),
        price: byte_price(o),
        luma: false,
    }
}

/// Encodes a frame with each of the strip counts and gives the cheapest. A
/// count of none is taken as one, a larger one than there are rows of
/// macroblocks as their number.
pub fn encode_rgb24_best_strips(
    rgb: &[u8],
    width: u32,
    height: u32,
    opts: EncoderOptions,
    candidates: &[u16],
) -> (r: Result<Vec<u8>>)
    ensures
        strips::bytes_outcome(r) == if candidates@.len() == 0 {
            Err(
                ErrorView::Other(
                    "encode_rgb24_best_strips: candidates list must not be empty"@,
                ),
            )
        } else {
            winner(strips_contest(rgb@, width, height, opts, candidates@))
        },
{
    if candidates.len() == 0 {
        return Err(other("encode_rgb24_best_strips: candidates list must not be empty"));
    }
    let mut counts: Vec<u16> = Vec::new();
    let mut i: usize = 0;
    while i < candidates.len()
        invariant
            i <= candidates@.len(),
            counts@ == at_least_one(candidates@).subrange(0, i as int),
        decreases candidates@.len() - i,
    {
        let n: u16 = candidates[i];
        counts.push(
            if n == 0 {
                1
            } else {
                n
            },
        );
        i = i + 1;
        assert(counts@ =~= at_least_one(candidates@).subrange(0, i as int));
    }
    assert(counts@ =~= at_least_one(candidates@));
    let mut lambdas: Vec<Option<i64>> = Vec::new();
    lambdas.push(opts.rdo_lambda);
    let mut lumas: Vec<u8> = Vec::new();
    lumas.push(opts.luma_weight);
    assert(lambdas@ =~= seq![opts.rdo_lambda]);
    assert(lumas@ =~= seq![opts.luma_weight]);
    let list = grid_candidates(&opts, counts.as_slice(), lambdas.as_slice(), lumas.as_slice());
    proof {
        crate::grid::grid_not_empty(opts, counts@, lambdas@, lumas@);
    }
    hold_contest(rgb, width, height, &list, price_of(&opts), false)
}

/// The contest of strip counts and prices of bits.
pub open spec fn grid_contest(
    rgb: Seq<u8>,
    width: u32,
    height: u32,
    o: EncoderOptions,
    strips: Seq<u16>,
    lambdas: Seq<Option<i64>>,
) -> Contest {
    Contest {
        rgb,
        width,
        height,
        candidates: grid::grid(o, strips, lambdas, seq![o.luma_weight]),
        price: byte_price(o),
        luma: false,
    }
}

/// The cheapest frame over strip counts and prices of bits.
pub open spec fn best_of_grid(
    rgb: Seq<u8>,
    width: u32,
    height: u32,
    o: EncoderOptions,
    strips: Seq<u16>,
    lambdas: Seq<Option<i64>>,
) -> core::result::Result<Seq<u8>, ErrorView> {
    if strips.len() == 0 {
        Err(ErrorView::Other("encode_rgb24_best_rd_grid: strip_candidates must not be empty"@))
    } else if lambdas.len() == 0 {
        Err(ErrorView::Other("encode_rgb24_best_rd_grid: lambda_candidates must not be empty"@))
    } else {
        winner(grid_contest(rgb, width, height, o, strips, lambdas))
    }
}

/// Encodes a frame with each combination of strip counts and prices of bits,
/// and gives the cheapest.
pub fn encode_rgb24_best_rd_grid(
    rgb: &[u8],
    width: u32,
    height: u32,
    opts: EncoderOptions,
    strip_candidates: &[u16],
    lambda_candidates: &[Option<i64>],
) -> (r: Result<Vec<u8>>)
    ensures
        strips::bytes_outcome(r) == best_of_grid(
            rgb@,
            width,
            height,
            opts,
            strip_candidates@,
            lambda_candidates@,
        ),
{
    if strip_candidates.len() == 0 {
        return Err(other("encode_rgb24_best_rd_grid: strip_candidates must not be empty"));
    }
    if lambda_candidates.len() == 0 {
        return Err(other("encode_rgb24_best_rd_grid: lambda_candidates must not be empty"));
    }
    let mut lumas: Vec<u8> = Vec::new();
    lumas.push(opts.luma_weight);
    assert(lumas@ =~= seq![opts.luma_weight]);
    let list = grid_candidates(&opts, strip_candidates, lambda_candidates, lumas.as_slice());
    proof {
        crate::grid::grid_not_empty(opts, strip_candidates@, lambda_candidates@, lumas@);
    }
    hold_contest(rgb, width, height, &list, price_of(&opts), false)
}

/// Encodes a frame with the usual strip counts and prices of bits, and gives
/// the cheapest.
pub fn encode_rgb24_round6(rgb: &[u8], width: u32, height: u32, opts: EncoderOptions) -> (r: Result<
    Vec<u8>,
>)
    ensures
        strips::bytes_outcome(r) == winner(
            grid_contest(rgb@, width, height, opts, grid::strip_choices(), grid::lambda_choices(opts)),
        ),
{
    encode_rgb24_best_rd_grid(
        rgb,
        width,
        height,
        opts,
        search_strips().as_slice(),
        search_lambdas(&opts).as_slice(),
    )
}

/// The contest of strip counts, prices of bits and luma weights.
pub open spec fn full_contest(
    rgb: Seq<u8>,
    width: u32,
    height: u32,
    o: EncoderOptions,
    strips: Seq<u16>,
    lambdas: Seq<Option<i64>>,
    lumas: Seq<u8>,
) -> Contest {
    Contest {
        rgb,
        width,
        height,
        candidates: grid::grid(o, strips, lambdas, lumas),
        price: byte_price(o),
        luma: true,
    }
}

/// The frame that costs least in brightness over strip counts, prices of bits
/// and luma weights.
pub open spec fn best_of_full_grid(
    rgb: Seq<u8>,
    width: u32,
    height: u32,
    o: EncoderOptions,
    strips: Seq<u16>,
    lambdas: Seq<Option<i64>>,
    lumas: Seq<u8>,
) -> core::result::Result<Seq<u8>, ErrorView> {
    if strips.len() == 0 {
        Err(
            ErrorView::Other(
                "encode_rgb24_best_rd_grid_3axis: strip_candidates must not be empty"@,
            ),
        )
    } else if lambdas.len() == 0 {
        Err(
            ErrorView::Other(
                "encode_rgb24_best_rd_grid_3axis: lambda_candidates must not be empty"@,
            ),
        )
    } else if lumas.len() == 0 {
        Err(
            ErrorView::Other(
                "encode_rgb24_best_rd_grid_3axis: luma_candidates must not be empty"@,
            ),
        )
    } else {
        winner(full_contest(rgb, width, height, o, strips, lambdas, lumas))
    }
}

/// Encodes a frame with each combination of strip counts, prices of bits and
/// luma weights, and gives the one that costs least in brightness.
pub fn encode_rgb24_best_rd_grid_3axis(
    rgb: &[u8],
    width: u32,
    height: u32,
    opts: EncoderOptions,
    strip_candidates: &[u16],
    lambda_candidates: &[Option<i64>],
    luma_candidates: &[u8],
) -> (r: Result<Vec<u8>>)
    ensures
        strips::bytes_outcome(r) == best_of_full_grid(
            rgb@,
            width,
            height,
            opts,
            strip_candidates@,
            lambda_candidates@,
            luma_candidates@,
        ),
        r matches Ok(v) ==> v@.len() <= 0xffffff,
        r is Ok ==> sampling::picture_len(width as int, height as int, PixelMode::Yuv12) <= rgb@.len(),
{
    if strip_candidates.len() == 0 {
        return Err(other("encode_rgb24_best_rd_grid_3axis: strip_candidates must not be empty"));
    }
    if lambda_candidates.len() == 0 {
        return Err(other("encode_rgb24_best_rd_grid_3axis: lambda_candidates must not be empty"));
    }
    if luma_candidates.len() == 0 {
        return Err(other("encode_rgb24_best_rd_grid_3axis: luma_candidates must not be empty"));
    }
    let list = grid_candidates(&opts, strip_candidates, lambda_candidates, luma_candidates);
    proof {
        crate::grid::grid_not_empty(opts, strip_candidates@, lambda_candidates@, luma_candidates@);
    }
    hold_contest(rgb, width, height, &list, price_of(&opts), true)
}

/// The frame that `encode_rgb24_round7` gives.
pub open spec fn uniform_frame(rgb: Seq<u8>, width: u32, height: u32, o: EncoderOptions) -> core::result::Result<
    Seq<u8>,
    ErrorView,
> {
    winner(
        full_contest(rgb, width, height, o, grid::strip_choices(), grid::lambda_choices(o), grid::luma_choices(o)),
    )
}

/// Encodes a frame with the usual strip counts, prices of bits and luma
/// weights, and gives the one that costs least in brightness.
pub fn encode_rgb24_round7(rgb: &[u8], width: u32, height: u32, opts: EncoderOptions) -> (r: Result<
    Vec<u8>,
>)
    ensures
        strips::bytes_outcome(r) == uniform_frame(rgb@, width, height, opts),
        r matches Ok(v) ==> v@.len() <= 0xffffff,
        r is Ok ==> sampling::picture_len(width as int, height as int, PixelMode::Yuv12) <= rgb@.len(),
{
    encode_rgb24_best_rd_grid_3axis(
        rgb,
        width,
        height,
        opts,
        search_strips().as_slice(),
        search_lambdas(&opts).as_slice(),
        search_lumas(&opts).as_slice(),
    )
}

proof fn winning_candidate(c: Contest, k: int) -> (i: int)
    requires
        0 <= k <= c.candidates.len(),
        contest(c, k) matches Ok(Some(_)),
    ensures
        0 <= i < k,
        contest_frame(c, i) == Ok::<Seq<u8>, ErrorView>((contest(c, k)->Ok_0->0).1),
    decreases k,
{
    if contest_frame(c, k - 1)->Ok_0 == (contest(c, k)->Ok_0->0).1 {
        k - 1
    } else {
        winning_candidate(c, k - 1)
    }
}

/// The frame that wins decodes in every decoder, to a colour frame of the
/// picture's size, and has no flaw.
pub proof fn winner_is_seen(c: Contest, d: DecoderState, pts: Option<i64>)
    requires
        winner(c) is Ok,
        c.candidates.len() >= 1,
        c.width <= 65535,
        c.height <= 65535,
        c.width * c.height * 3 <= usize::MAX,
        roundtrip::state_whole(d),
    ensures
        ({
            let bytes = winner(c)->Ok_0;
            &&& decoder::decoded(d, bytes, pts, None).1 matches Ok(f)
            &&& f.width == c.width
            &&& f.height == c.height
            &&& f.pixel_format == CinepakPixelFormat::Rgb24
            &&& f.pts == pts
            &&& lint::frame_report(bytes).issues.len() == 0
        }),
{
    let n = c.candidates.len() as int;
    contest_facts(c, n);
    let i = winning_candidate(c, n);
    let o = c.candidates[i];
    roundtrip::intra_decodes(
        d,
        c.rgb,
        c.width,
        c.height,
        PixelMode::Yuv12,
        o,
        rolling::fresh_roll(),
        pts,
    );
    clean::intra_frame_is_clean(c.rgb, c.width, c.height, PixelMode::Yuv12, o);
}

} // verus!
