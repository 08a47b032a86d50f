//! Searching for the configuration that serves each strip best.

use vstd::prelude::*;
use crate::clean;
use crate::codebook::PixelMode;
use crate::decoder::{self, CinepakDecoder, DecoderState, FrameWork, Paint};
use crate::encoder::{self, encode_rgb24};
use crate::error::{other, ErrorView, Result};
use crate::grid::{self, grid_candidates, search_lambdas, search_lumas, search_strips};
use crate::header::{FRAME_HEADER_SIZE, STRIP_ID_INTRA};
use crate::image::{self, CinepakPixelFormat, FrameView};
use crate::lint;
use crate::measure::{self, decode_y_sse, ROW_LIMIT};
use crate::options::{self, validate_dims, validate_input_size, EncoderOptions};
use crate::planning::{self, PlanView, Strip, StripSource};
use crate::reading::{self, FrameReading};
use crate::rolling::{self, RollingCodebooks};
use crate::roundtrip;
use crate::sampling::{self, Source, SourceView, FIXED_ONE};
use crate::search::{self, cost_of, encode_rgb24_round7, price_of};
use crate::strips::{self, assemble_frame, encode_intra_strip, plan_strips, StripPlan};

verus! {

/// The pixels of a strip.
pub open spec fn strip_pixels(rgb: Seq<u8>, width: u32, rows: StripPlan) -> Seq<u8> {
    rgb.subrange(rows.y_top * (width * 3), rows.y_bottom * (width * 3))
}

/// Copies the pixels of a strip.
pub fn extract_strip_rgb(rgb: &[u8], width: u32, y_top: u32, strip_h: u32) -> (r: Vec<u8>)
    requires
        y_top + strip_h <= 0xffffffff,
        (y_top + strip_h) * (width * 3) <= rgb@.len(),
    ensures
        r@ == strip_pixels(
            rgb@,
            width,
            StripPlan { y_top, y_bottom: (y_top + strip_h) as u32 },
        ),
        r@.len() == strip_h * (width * 3),
{
    let ghost rows = StripPlan { y_top, y_bottom: (y_top + strip_h) as u32 };
    let total: usize = rgb.len();
    assert(0 <= y_top * (width * 3) <= (y_top + strip_h) * (width * 3)) by (nonlinear_arith)
        requires
            0 <= y_top,
            0 <= strip_h,
            0 <= width,
    ;
    assert((y_top + strip_h) * (width * 3) == y_top * (width * 3) + strip_h * (width * 3))
        by (nonlinear_arith);
    if strip_h == 0 {
        let out: Vec<u8> = Vec::new();
        assert(out@ =~= strip_pixels(rgb@, width, rows));
        return out;
    }
    assert(width * 3 <= (y_top + strip_h) * (width * 3)) by (nonlinear_arith)
        requires
            y_top + strip_h >= 1,
            0 <= width,
    ;
    let stride: usize = width as usize * 3;
    let start: usize = y_top as usize * stride;
    let end: usize = start + strip_h as usize * stride;
    let mut out: Vec<u8> = Vec::new();
    let mut i: usize = start;
    while i < end
        invariant
            start <= i <= end <= rgb@.len(),
            out@ == rgb@.subrange(start as int, i as int),
        decreases end - i,
    {
        out.push(rgb[i]);
        i = i + 1;
        assert(out@ =~= rgb@.subrange(start as int, i as int));
    }
    out
}

/// The configurations tried on a strip.
pub open spec fn strip_grid(o: EncoderOptions, lambdas: Seq<Option<i64>>, lumas: Seq<u8>) -> Seq<
    EncoderOptions,
> {
    grid::grid(o, seq![1u16], lambdas, lumas)
}

/// The best configuration of the first `k` for pixels that are encoded on
/// their own: its cost, its error, itself. One that gives no frame, or whose
/// frame cannot be measured, is passed over.
pub open spec fn strip_best(
    pixels: Seq<u8>,
    width: u32,
    height: u32,
    candidates: Seq<EncoderOptions>,
    price: i64,
    k: int,
) -> Option<(int, int, EncoderOptions)>
    decreases k,
{
    if k <= 0 {
        None
    } else {
        let best = strip_best(pixels, width, height, candidates, price, k - 1);
        let o = candidates[k - 1];
        match encoder::intra_frame(pixels, width, height, PixelMode::Yuv12, o) {
            Err(_) => best,
            Ok(bytes) => match measure::decoded_y_error(decoder::fresh_decoder(), bytes, pixels, width, height) {
                Err(_) => best,
                Ok(e) => {
                    let cost = search::y_cost(e, price, bytes.len() as int);
                    match best {
                        Some((b, _, _)) => if cost < b {
                            Some((cost, e, o))
                        } else {
                            best
                        },
                        None => Some((cost, e, o)),
                    }
                },
            },
        }
    }
}

/// The error counted for pixels that are encoded on their own: that of the
/// frame, or, where it cannot be measured, the most that a frame can have.
pub open spec fn counted_error(bytes: Seq<u8>, pixels: Seq<u8>, width: u32, height: u32) -> int {
    match measure::decoded_y_error(decoder::fresh_decoder(), bytes, pixels, width, height) {
        Ok(e) => e,
        Err(_) => height * ROW_LIMIT,
    }
}

/// The configuration for a strip and its error on its own. Where none of the
/// configurations does, the given one is taken if it gives a frame.
#[verifier::opaque]
pub open spec fn strip_choice(
    pixels: Seq<u8>,
    width: u32,
    height: u32,
    o: EncoderOptions,
    candidates: Seq<EncoderOptions>,
) -> Option<(int, EncoderOptions)> {
    match strip_best(pixels, width, height, candidates, search::byte_price(o), candidates.len() as int) {
        Some((_, e, w)) => Some((e, w)),
        None => {
            let plain = grid::tuned(o, 1, o.rdo_lambda, o.luma_weight);
            match encoder::intra_frame(pixels, width, height, PixelMode::Yuv12, plain) {
                Ok(bytes) => Some((counted_error(bytes, pixels, width, height), plain)),
                Err(_) => None,
            }
        },
    }
}

/// The choice behind an optional one.
pub open spec fn choice_view(r: Option<(u128, EncoderOptions)>) -> Option<(int, EncoderOptions)> {
    match r {
        Some((e, o)) => Some((e as int, o)),
        None => None,
    }
}

/// The best configuration behind an optional one.
pub open spec fn tried_view(r: Option<(i128, u128, EncoderOptions)>) -> Option<
    (int, int, EncoderOptions),
> {
    match r {
        Some((c, e, o)) => Some((c as int, e as int, o)),
        None => None,
    }
}

/// Picks the configuration for a strip.
#[verifier::rlimit(50)]
#[verifier::spinoff_prover]
fn find_winning_opts(
    pixels: &[u8],
    width: u32,
    height: u32,
    o: &EncoderOptions,
    candidates: &Vec<EncoderOptions>,
) -> (r: Option<(u128, EncoderOptions)>)
    ensures
        choice_view(r) == strip_choice(pixels@, width, height, *o, candidates@),
        r matches Some((e, w)) ==> e <= height * ROW_LIMIT && options::request_error(
            pixels@.len(),
            width,
            height,
            PixelMode::Yuv12,
            w,
        ) is None,
{
    proof {
        reveal(strip_choice);
    }
    let price: i64 = price_of(o);
    let total: usize = candidates.len();
    let mut best: Option<(i128, u128, EncoderOptions)> = None;
    let mut i: usize = 0;
    while i < total
        invariant
            i <= total,
            total == candidates@.len(),
            tried_view(best) == strip_best(
                pixels@,
                width,
                height,
                candidates@,
                price,
                i as int,
            ),
            best matches Some((_, e, w)) ==> e <= height * ROW_LIMIT && options::request_error(
                pixels@.len(),
                width,
                height,
                PixelMode::Yuv12,
                w,
            ) is None,
        decreases total - i,
    {
        let t = candidates[i];
        assert(t == candidates@[i as int]);
        if let Ok(bytes) = encode_rgb24(pixels, width, height, t) {
            let n: usize = bytes.len();
            let mut dec = CinepakDecoder::new();
            if let Ok(e) = decode_y_sse(&mut dec, bytes.as_slice(), pixels, width, height) {
                proof {
                    search::price_bound(price, n as int, e as int);
                }
                let cost: i128 = e as i128 * (FIXED_ONE as i128) + 1000000 * (price as i128 * (
                n as i128));
                let take = match &best {
                    Some((b, _, _)) => cost < *b,
                    None => true,
                };
                if take {
                    best = Some((cost, e, t));
                }
            }
        }
        i = i + 1;
    }
    match best {
        Some((_, e, w)) => Some((e, w)),
        None => {
            let plain = EncoderOptions { strip_count: 1, ..*o };
            assert(plain == grid::tuned(*o, 1, o.rdo_lambda, o.luma_weight));
            match encode_rgb24(pixels, width, height, plain) {
                Ok(bytes) => {
                    let mut dec = CinepakDecoder::new();
                    match decode_y_sse(&mut dec, bytes.as_slice(), pixels, width, height) {
                        Ok(e) => Some((e, plain)),
                        Err(_) => Some((height as u128 * ROW_LIMIT, plain)),
                    }
                },
                Err(_) => None,
            }
        },
    }
}

/// A picture and what to try on each of its strips.
pub struct Stripwise {
    pub rgb: Seq<u8>,
    pub width: u32,
    pub height: u32,
    pub base: EncoderOptions,
    pub candidates: Seq<EncoderOptions>,
}

/// A frame whose strips have configurations of their own, as far as it has
/// come.
#[verifier::ext_equal]
pub struct StripwiseRun {
    pub strips: Seq<Seq<u8>>,
    /// The sum of the errors.
    pub error: int,
    /// A strip that no configuration suits.
    pub stuck: bool,
    /// Why a strip could not be encoded.
    pub fault: Option<ErrorView>,
}

/// The strips for a strip count.
pub open spec fn stripwise_layout(c: Stripwise, count: u16) -> Seq<StripPlan> {
    strips::strip_layout(c.height as int / 4, count as int)
}

/// The strip of the given rows and its error; none where no configuration
/// suits it.
#[verifier::opaque]
pub open spec fn stripwise_strip(c: Stripwise, rows: StripPlan) -> core::result::Result<
    Option<(int, Seq<u8>)>,
    ErrorView,
> {
    match strip_choice(
        strip_pixels(c.rgb, c.width, rows),
        c.width,
        (rows.y_bottom - rows.y_top) as u32,
        c.base,
        c.candidates,
    ) {
        None => Ok(None),
        Some((e, w)) => match strips::intra_strip(
            encoder::strip_of(encoder::picture(c.rgb, c.width, c.height, PixelMode::Yuv12), rows, None, w),
            w,
        ) {
            Err(x) => Err(x),
            Ok(b) => Ok(Some((e, b))),
        },
    }
}

/// The frame after its first `n` strips.
pub open spec fn stripwise_run(c: Stripwise, count: u16, n: int) -> StripwiseRun
    decreases n,
{
    if n <= 0 {
        StripwiseRun { strips: Seq::empty(), error: 0, stuck: false, fault: None }
    } else {
        let run = stripwise_run(c, count, n - 1);
        let rows = stripwise_layout(c, count)[n - 1];
        if run.stuck || run.fault is Some {
            run
        } else {
            match stripwise_strip(c, rows) {
                Err(x) => StripwiseRun { fault: Some(x), ..run },
                Ok(None) => StripwiseRun { stuck: true, ..run },
                Ok(Some((e, b))) => StripwiseRun {
                    strips: run.strips.push(b),
                    error: run.error + e,
                    ..run
                },
            }
        }
    }
}

/// The frame for a strip count and its cost; none where a strip is stuck.
pub open spec fn stripwise_frame(c: Stripwise, count: u16) -> core::result::Result<
    Option<(int, Seq<u8>)>,
    ErrorView,
> {
    let run = stripwise_run(c, count, stripwise_layout(c, count).len() as int);
    if let Some(e) = run.fault {
        Err(e)
    } else if run.stuck {
        Ok(None)
    } else {
        match strips::frame_bytes(c.width, c.height, run.strips) {
            Err(e) => Err(e),
            Ok(bytes) => Ok(
                Some((search::y_cost(run.error, search::byte_price(c.base), bytes.len() as int), bytes)),
            ),
        }
    }
}

/// The cheapest frame of the first `k` strip counts.
pub open spec fn stripwise_best(c: Stripwise, counts: Seq<u16>, k: int) -> core::result::Result<
    Option<(int, Seq<u8>)>,
    ErrorView,
>
    decreases k,
{
    if k <= 0 {
        Ok(None)
    } else {
        match stripwise_best(c, counts, k - 1) {
            Err(e) => Err(e),
            Ok(best) => match stripwise_frame(c, counts[k - 1]) {
                Err(e) => Err(e),
                Ok(None) => Ok(best),
                Ok(Some((cost, bytes))) => Ok(search::cheaper(best, cost, bytes)),
            },
        }
    }
}

/// The frame that `encode_rgb24_per_strip_rd` gives.
pub open spec fn per_strip_frame(
    rgb: Seq<u8>,
    width: u32,
    height: u32,
    o: EncoderOptions,
    strips: Seq<u16>,
    lambdas: Seq<Option<i64>>,
    lumas: Seq<u8>,
) -> core::result::Result<Seq<u8>, ErrorView> {
    if strips.len() == 0 {
        Err(ErrorView::Other("encode_rgb24_per_strip_rd: strip_candidates must not be empty"@))
    } else if lambdas.len() == 0 {
        Err(ErrorView::Other("encode_rgb24_per_strip_rd: lambda_candidates must not be empty"@))
    } else if lumas.len() == 0 {
        Err(ErrorView::Other("encode_rgb24_per_strip_rd: luma_candidates must not be empty"@))
    } else if let Some(e) = options::dims_error(width, height) {
        Err(e)
    } else if let Some(e) = options::input_error(rgb.len(), width, height, PixelMode::Yuv12) {
        Err(e)
    } else {
        let c = Stripwise {
            rgb,
            width,
            height,
            base: o,
            candidates: strip_grid(o, lambdas, lumas),
        };
        match stripwise_best(c, strips, strips.len() as int) {
            Err(e) => Err(e),
            Ok(Some((_, bytes))) => Ok(bytes),
            Ok(None) => Err(
                ErrorView::Other(
                    "encode_rgb24_per_strip_rd: no strip_count candidate succeeded"@,
                ),
            ),
        }
    }
}

proof fn stripwise_halts(c: Stripwise, count: u16, i: int, n: int)
    requires
        0 <= i <= n,
        stripwise_run(c, count, i).stuck || stripwise_run(c, count, i).fault is Some,
    ensures
        stripwise_run(c, count, n) == stripwise_run(c, count, i),
    decreases n - i,
{
    if i < n {
        stripwise_halts(c, count, i, n - 1);
    }
}

proof fn stripwise_ends(c: Stripwise, counts: Seq<u16>, i: int, k: int)
    requires
        0 <= i <= k,
        stripwise_best(c, counts, i) is Err,
    ensures
        stripwise_best(c, counts, k) == stripwise_best(c, counts, i),
    decreases k - i,
{
    if i < k {
        stripwise_ends(c, counts, i, k - 1);
    }
}

proof fn strip_inside(len: nat, width: u32, height: u32, rows: StripPlan)
    requires
        sampling::picture_len(width as int, height as int, PixelMode::Yuv12) <= len,
        rows.y_top < rows.y_bottom <= height,
    ensures
        rows.y_bottom * (width * 3) <= len,
{
    assert(rows.y_bottom * (width * 3) <= height * (width * 3)) by (nonlinear_arith)
        requires
            rows.y_bottom <= height,
            0 <= width,
    ;
    assert(height * (width * 3) == width * height * 3) by (nonlinear_arith);
}

/// The strip behind an optional one.
pub open spec fn strip_view(b: Option<(u128, Vec<u8>)>) -> Option<(int, Seq<u8>)> {
    match b {
        Some((e, v)) => Some((e as int, v@)),
        None => None,
    }
}

/// Encodes a strip as suits it best.
fn encode_suited_strip(
    rgb: &[u8],
    width: u32,
    height: u32,
    base: &EncoderOptions,
    candidates: &Vec<EncoderOptions>,
    rows: StripPlan,
) -> (r: Result<Option<(u128, Vec<u8>)>>)
    requires
        options::dims_error(width, height) is None,
        sampling::picture_len(width as int, height as int, PixelMode::Yuv12) <= rgb@.len(),
        rows.y_top < rows.y_bottom <= height,
        rows.y_top % 4 == 0,
        rows.y_bottom % 4 == 0,
    ensures
        match r {
            Ok(b) => stripwise_strip(
                Stripwise { rgb: rgb@, width, height, base: *base, candidates: candidates@ },
                rows,
            ) == Ok::<Option<(int, Seq<u8>)>, ErrorView>(strip_view(b)),
            Err(e) => stripwise_strip(
                Stripwise { rgb: rgb@, width, height, base: *base, candidates: candidates@ },
                rows,
            ) == Err::<Option<(int, Seq<u8>)>, ErrorView>(e@),
        },
        r matches Ok(Some((e, v))) ==> e <= (rows.y_bottom - rows.y_top) * ROW_LIMIT && v@.len()
            <= 65535,
{
    proof {
        reveal(stripwise_strip);
        strip_inside(rgb@.len(), width, height, rows);
    }
    let source = Source { pixels: rgb, width, height, mode: PixelMode::Yuv12 };
    let h: u32 = rows.y_bottom - rows.y_top;
    let pixels = extract_strip_rgb(rgb, width, rows.y_top, h);
    assert(pixels@ == strip_pixels(rgb@, width, rows));
    let (e, w) = match find_winning_opts(pixels.as_slice(), width, h, base, candidates) {
        Some(p) => p,
        None => return Ok(None),
    };
    let strip = Strip {
        picture: source,
        top: rows.y_top,
        bottom: rows.y_bottom,
        prev: None,
        threshold: w.skip_threshold,
    };
    assert(strip@ == encoder::strip_of(
        encoder::picture(rgb@, width, height, PixelMode::Yuv12),
        rows,
        None,
        w,
    ));
    let mut roll = RollingCodebooks::new();
    match encode_intra_strip(&strip, &w, &mut roll) {
        Ok(b) => Ok(Some((e, b))),
        Err(x) => Err(x),
    }
}

/// The rows before strip `i`.
spec fn rows_done(layout: Seq<StripPlan>, i: int) -> int {
    if i <= 0 {
        0
    } else {
        layout[i - 1].y_bottom as int
    }
}

proof fn done_rows(layout: Seq<StripPlan>, height: u32, o: EncoderOptions, i: int)
    requires
        height > 0,
        height % 4 == 0,
        layout == encoder::layout_of(height, o),
        0 <= i < layout.len(),
    ensures
        rows_done(layout, i) == layout[i].y_top,
        rows_done(layout, i + 1) == layout[i].y_bottom,
{
    crate::strips::strips_tile(height as int / 4, o.strip_count as int);
}

/// Encodes a frame with the given strip count, each strip as suits it best.
fn encode_stripwise(
    rgb: &[u8],
    width: u32,
    height: u32,
    base: &EncoderOptions,
    candidates: &Vec<EncoderOptions>,
    count: u16,
) -> (r: Result<Option<(i128, Vec<u8>)>>)
    requires
        options::dims_error(width, height) is None,
        sampling::picture_len(width as int, height as int, PixelMode::Yuv12) <= rgb@.len(),
    ensures
        match r {
            Ok(b) => stripwise_frame(
                Stripwise { rgb: rgb@, width, height, base: *base, candidates: candidates@ },
                count,
            ) == Ok::<Option<(int, Seq<u8>)>, ErrorView>(search::best_view(b)),
            Err(e) => stripwise_frame(
                Stripwise { rgb: rgb@, width, height, base: *base, candidates: candidates@ },
                count,
            ) == Err::<Option<(int, Seq<u8>)>, ErrorView>(e@),
        },
        r matches Ok(Some((_, v))) ==> v@.len() <= 0xffffff,
{
    let ghost c = Stripwise { rgb: rgb@, width, height, base: *base, candidates: candidates@ };
    let layout = plan_strips((height / 4) as usize, count as usize);
    let total: usize = layout.len();
    let ghost sized = EncoderOptions { strip_count: count, ..*base };
    assert(layout@ == encoder::layout_of(height, sized));
    let mut strips: Vec<Vec<u8>> = Vec::new();
    let mut error: u128 = 0;
    let mut i: usize = 0;
    while i < total
        invariant
            i <= total <= 65535,
            total == layout@.len(),
            layout@ == stripwise_layout(c, count),
            layout@ == encoder::layout_of(height, sized),
            c == (Stripwise { rgb: rgb@, width, height, base: *base, candidates: candidates@ }),
            options::dims_error(width, height) is None,
            sampling::picture_len(width as int, height as int, PixelMode::Yuv12) <= rgb@.len(),
            stripwise_run(c, count, i as int) == (StripwiseRun {
                strips: strips::strip_views(strips@),
                error: error as int,
                stuck: false,
                fault: None,
            }),
            strips@.len() == i,
            forall|k: int| 0 <= k < i ==> (#[trigger] strips@[k])@.len() <= 65535,
            error <= rows_done(layout@, i as int) * ROW_LIMIT,
        decreases total - i,
    {
        let rows = layout[i];
        proof {
            encoder::layout_fits(height, sized, i as int);
            done_rows(layout@, height, sized, i as int);
        }
        match encode_suited_strip(rgb, width, height, base, candidates, rows) {
            Ok(Some((e, b))) => {
                let ghost before = strips@;
                strips.push(b);
                assert(strips::strip_views(strips@) =~= strips::strip_views(before).push(b@));
                error = error + e;
            },
            Ok(None) => {
                proof {
                    assert(stripwise_run(c, count, i + 1).stuck);
                    stripwise_halts(c, count, i + 1, total as int);
                }
                return Ok(None);
            },
            Err(x) => {
                proof {
                    assert(stripwise_run(c, count, i + 1).fault is Some);
                    stripwise_halts(c, count, i + 1, total as int);
                }
                return Err(x);
            },
        }
        i = i + 1;
    }
    let bytes = match assemble_frame(width, height, &strips) {
        Ok(b) => b,
        Err(e) => return Err(e),
    };
    let price: i64 = price_of(base);
    let n: usize = bytes.len();
    proof {
        search::price_bound(price, n as int, error as int);
    }
    let cost: i128 = error as i128 * (FIXED_ONE as i128) + 1000000 * (price as i128 * (n as i128));
    Ok(Some((cost, bytes)))
}

/// Encodes a frame with each of the strip counts, each strip with the price of
/// bits and the luma weight that suit it best, and gives the frame that costs
/// least in brightness.
pub fn encode_rgb24_per_strip_rd(
    rgb: &[u8],
    width: u32,
    height: u32,
    opts: EncoderOptions,
    strip_candidates: &[u16],
    lambda_candidates: &[Option<i64>],
    luma_candidates: &[u8],
) -> (r: Result<Vec<u8>>)
    ensures
        strips::bytes_outcome(r) == per_strip_frame(
            rgb@,
            width,
            height,
            opts,
            strip_candidates@,
            lambda_candidates@,
            luma_candidates@,
        ),
        r matches Ok(v) ==> v@.len() <= 0xffffff,
{
    if strip_candidates.len() == 0 {
        return Err(other("encode_rgb24_per_strip_rd: strip_candidates must not be empty"));
    }
    if lambda_candidates.len() == 0 {
        return Err(other("encode_rgb24_per_strip_rd: lambda_candidates must not be empty"));
    }
    if luma_candidates.len() == 0 {
        return Err(other("encode_rgb24_per_strip_rd: luma_candidates must not be empty"));
    }
    if let Err(e) = validate_dims(width, height) {
        return Err(e);
    }
    if let Err(e) = validate_input_size(rgb, width, height, PixelMode::Yuv12) {
        return Err(e);
    }
    let mut one: Vec<u16> = Vec::new();
    one.push(1);
    assert(one@ =~= seq![1u16]);
    let candidates = grid_candidates(&opts, one.as_slice(), lambda_candidates, luma_candidates);
    let ghost c = Stripwise {
        rgb: rgb@,
        width,
        height,
        base: opts,
        candidates: strip_grid(opts, lambda_candidates@, luma_candidates@),
    };
    let total: usize = strip_candidates.len();
    let mut best: Option<(i128, Vec<u8>)> = None;
    let mut i: usize = 0;
    while i < total
        invariant
            i <= total,
            total == strip_candidates@.len(),
            options::dims_error(width, height) is None,
            sampling::picture_len(width as int, height as int, PixelMode::Yuv12) <= rgb@.len(),
            c == (Stripwise { rgb: rgb@, width, height, base: opts, candidates: candidates@ }),
            stripwise_best(c, strip_candidates@, i as int) == Ok::<
                Option<(int, Seq<u8>)>,
                ErrorView,
            >(search::best_view(best)),
            best matches Some((_, v)) ==> v@.len() <= 0xffffff,
            total >= 1,
            lambda_candidates@.len() >= 1,
            luma_candidates@.len() >= 1,
            options::input_error(rgb@.len(), width, height, PixelMode::Yuv12) is None,
            candidates@ == strip_grid(opts, lambda_candidates@, luma_candidates@),
        decreases total - i,
    {
        match encode_stripwise(rgb, width, height, &opts, &candidates, strip_candidates[i]) {
            Ok(Some((cost, bytes))) => {
                let take = match &best {
                    Some((b, s)) => cost < *b || (cost == *b && bytes.len() < s.len()),
                    None => true,
                };
                if take {
                    best = Some((cost, bytes));
                }
            },
            Ok(None) => {},
            Err(e) => {
                proof {
                    assert(stripwise_best(c, strip_candidates@, i + 1) is Err);
                    stripwise_ends(c, strip_candidates@, i + 1, total as int);
                }
                return Err(e);
            },
        }
        i = i + 1;
    }
    match best {
        Some((_, v)) => Ok(v),
        None => Err(other("encode_rgb24_per_strip_rd: no strip_count candidate succeeded")),
    }
}

/// The frame whose strips each have the usual prices of bits and luma
/// weights to choose from.
pub open spec fn suited_frame(rgb: Seq<u8>, width: u32, height: u32, o: EncoderOptions) -> core::result::Result<
    Seq<u8>,
    ErrorView,
> {
    per_strip_frame(rgb, width, height, o, grid::strip_choices(), grid::lambda_choices(o), grid::luma_choices(o))
}

/// The cost that frames are compared by.
pub open spec fn brightness_cost(
    bytes: Seq<u8>,
    rgb: Seq<u8>,
    width: u32,
    height: u32,
    o: EncoderOptions,
) -> core::result::Result<int, ErrorView> {
    search::frame_cost(bytes, rgb, width, height, search::byte_price(o), true)
}

/// The frame that `encode_rgb24_round8` gives: the one with strips of their
/// own, unless the uniform one is cheaper, or equal and smaller.
pub open spec fn better_frame(rgb: Seq<u8>, width: u32, height: u32, o: EncoderOptions) -> core::result::Result<
    Seq<u8>,
    ErrorView,
> {
    match suited_frame(rgb, width, height, o) {
        Err(e) => Err(e),
        Ok(a) => match search::uniform_frame(rgb, width, height, o) {
            Err(e) => Err(e),
            Ok(b) => match brightness_cost(a, rgb, width, height, o) {
                Err(e) => Err(e),
                Ok(x) => match brightness_cost(b, rgb, width, height, o) {
                    Err(e) => Err(e),
                    Ok(y) => if x < y || (x == y && a.len() <= b.len()) {
                        Ok(a)
                    } else {
                        Ok(b)
                    },
                },
            },
        },
    }
}

/// Encodes a frame with strips that are each suited best and a frame with
/// uniform strips, and gives the cheaper one.
pub fn encode_rgb24_round8(rgb: &[u8], width: u32, height: u32, opts: EncoderOptions) -> (r: Result<
    Vec<u8>,
>)
    ensures
        strips::bytes_outcome(r) == better_frame(rgb@, width, height, opts),
{
    let a = match encode_rgb24_per_strip_rd(
        rgb,
        width,
        height,
        opts,
        search_strips().as_slice(),
        search_lambdas(&opts).as_slice(),
        search_lumas(&opts).as_slice(),
    ) {
        Ok(v) => v,
        Err(e) => return Err(e),
    };
    let b = match encode_rgb24_round7(rgb, width, height, opts) {
        Ok(v) => v,
        Err(e) => return Err(e),
    };
    let price: i64 = price_of(&opts);
    let x = match cost_of(a.as_slice(), rgb, width, height, price, true) {
        Ok(v) => v,
        Err(e) => return Err(e),
    };
    let y = match cost_of(b.as_slice(), rgb, width, height, price, true) {
        Ok(v) => v,
        Err(e) => return Err(e),
    };
    if x < y || (x == y && a.len() <= b.len()) {
        Ok(a)
    } else {
        Ok(b)
    }
}

/// A frame with the better of suited and uniform strips is no dearer than the
/// best uniform one.
pub proof fn better_is_no_dearer(rgb: Seq<u8>, width: u32, height: u32, o: EncoderOptions)
    requires
        better_frame(rgb, width, height, o) is Ok,
    ensures
        search::uniform_frame(rgb, width, height, o) is Ok,
        brightness_cost(better_frame(rgb, width, height, o)->Ok_0, rgb, width, height, o) is Ok,
        brightness_cost(search::uniform_frame(rgb, width, height, o)->Ok_0, rgb, width, height, o) is Ok,
        brightness_cost(better_frame(rgb, width, height, o)->Ok_0, rgb, width, height, o)->Ok_0
            <= brightness_cost(
            search::uniform_frame(rgb, width, height, o)->Ok_0,
            rgb,
            width,
            height,
            o,
        )->Ok_0,
{
}

proof fn best_gives_frame(
    pixels: Seq<u8>,
    width: u32,
    height: u32,
    candidates: Seq<EncoderOptions>,
    price: i64,
    k: int,
)
    ensures
        strip_best(pixels, width, height, candidates, price, k) matches Some((_, _, w))
            ==> encoder::intra_frame(pixels, width, height, PixelMode::Yuv12, w) is Ok,
    decreases k,
{
    if k > 0 {
        best_gives_frame(pixels, width, height, candidates, price, k - 1);
    }
}

/// The configuration that the strip of the given rows gets.
pub open spec fn suited_options(c: Stripwise, rows: StripPlan) -> EncoderOptions {
    (strip_choice(
        strip_pixels(c.rgb, c.width, rows),
        c.width,
        (rows.y_bottom - rows.y_top) as u32,
        c.base,
        c.candidates,
    )->0).1
}

/// The picture.
pub open spec fn stripwise_picture(c: Stripwise) -> SourceView {
    encoder::picture(c.rgb, c.width, c.height, PixelMode::Yuv12)
}

/// The strip of the given rows, to be encoded as suits it best.
pub open spec fn suited_strip(c: Stripwise, rows: StripPlan) -> StripSource {
    encoder::strip_of(stripwise_picture(c), rows, None, suited_options(c, rows))
}

/// The plan of the strip of the given rows.
pub open spec fn suited_plan(c: Stripwise, rows: StripPlan) -> PlanView {
    planning::strip_plan(suited_strip(c, rows), suited_options(c, rows), None, None)
}

/// The first `n` strips, each drawn as its own configuration plans it.
pub open spec fn suited_picture(c: Stripwise, layout: Seq<StripPlan>, n: int) -> Seq<u8>
    decreases n,
{
    if n <= 0 {
        roundtrip::black(stripwise_picture(c))
    } else {
        roundtrip::strip_drawn(
            suited_picture(c, layout, n - 1),
            stripwise_picture(c),
            layout[n - 1],
            suited_plan(c, layout[n - 1]),
            None,
        )
    }
}

/// The bytes of the strip of the given rows, where a configuration suits it.
spec fn suited_bytes(c: Stripwise, rows: StripPlan) -> Option<Seq<u8>> {
    match stripwise_strip(c, rows) {
        Ok(Some((_, b))) => Some(b),
        _ => None,
    }
}

proof fn suited_strip_bytes(c: Stripwise, rows: StripPlan)
    requires
        suited_bytes(c, rows) is Some,
    ensures
        options::options_error(suited_options(c, rows)) is None,
        strips::intra_strip(suited_strip(c, rows), suited_options(c, rows)) == Ok::<
            Seq<u8>,
            ErrorView,
        >(suited_bytes(c, rows)->0),
{
    reveal(stripwise_strip);
    reveal(strip_choice);
    best_gives_frame(
        strip_pixels(c.rgb, c.width, rows),
        c.width,
        (rows.y_bottom - rows.y_top) as u32,
        c.candidates,
        search::byte_price(c.base),
        c.candidates.len() as int,
    );
}

proof fn stripwise_run_strips(c: Stripwise, count: u16, n: int)
    requires
        0 <= n,
        !stripwise_run(c, count, n).stuck,
        stripwise_run(c, count, n).fault is None,
    ensures
        stripwise_run(c, count, n).strips.len() == n,
        forall|i: int|
            0 <= i < n ==> suited_bytes(c, stripwise_layout(c, count)[i]) == Some(
                #[trigger] stripwise_run(c, count, n).strips[i],
            ),
    decreases n,
{
    if n > 0 {
        stripwise_run_strips(c, count, n - 1);
        let l = stripwise_layout(c, count);
        let before = stripwise_run(c, count, n - 1).strips;
        let now = stripwise_run(c, count, n).strips;
        assert forall|i: int| 0 <= i < n implies suited_bytes(c, l[i]) == Some(#[trigger] now[i]) by {
            if i < n - 1 {
                assert(now[i] == before[i]);
            }
        }
    }
}

/// What a decoder reads of a frame whose strips have configurations of their
/// own.
spec fn suited_reading(
    c: Stripwise,
    l: Seq<StripPlan>,
    strips: Seq<Seq<u8>>,
    prev: Option<FrameView>,
) -> FrameReading {
    let n = l.len();
    FrameReading {
        header: strips::frame_head(
            c.width,
            c.height,
            strips.len(),
            strips::joined(strips, strips.len() as int).len(),
        ),
        rows: l,
        intra: true,
        u4: Seq::new(
            n,
            |i: int|
                strips::v4_update(
                    suited_strip(c, l[i]),
                    suited_options(c, l[i]),
                    suited_plan(c, l[i]),
                    false,
                    true,
                ),
        ),
        r4: Seq::new(n, |i: int| rolling::fresh_roll()),
        u1: Seq::new(
            n,
            |i: int|
                strips::v1_update(
                    suited_strip(c, l[i]),
                    suited_options(c, l[i]),
                    suited_plan(c, l[i]),
                    false,
                    true,
                ),
        ),
        r1: Seq::new(n, |i: int| rolling::fresh_roll()),
        mbs: Seq::new(n, |i: int| suited_plan(c, l[i]).mbs),
        strips,
        prev,
    }
}

/// Whether a picture has a size that frames can have.
spec fn frame_sized(c: Stripwise) -> bool {
    &&& 0 < c.width <= 65535
    &&& 0 < c.height <= 65535
    &&& c.width % 4 == 0
    &&& c.height % 4 == 0
}

#[verifier::rlimit(50)]
#[verifier::spinoff_prover]
proof fn suited_strip_sound(
    c: Stripwise,
    l: Seq<StripPlan>,
    strips: Seq<Seq<u8>>,
    prev: Option<FrameView>,
    i: int,
)
    requires
        frame_sized(c),
        0 <= i < l.len(),
        l[i].y_top < l[i].y_bottom <= c.height,
        l[i].y_top % 4 == 0,
        l[i].y_bottom % 4 == 0,
        i == 0 ==> l[i].y_top == 0,
        i > 0 ==> l[i].y_top > 0,
        suited_bytes(c, l[i]) == Some(strips[i]),
    ensures
        reading::strip_sound(suited_reading(c, l, strips, prev), i),
{
    let f = suited_reading(c, l, strips, prev);
    let o = suited_options(c, l[i]);
    let x = suited_strip(c, l[i]);
    let p = suited_plan(c, l[i]);
    let u4 = strips::v4_update(x, o, p, false, true);
    let u1 = strips::v1_update(x, o, p, false, true);
    let r = rolling::fresh_roll();
    let chunks = strips::intra_chunks(PixelMode::Yuv12, o, p);
    suited_strip_bytes(c, l[i]);
    roundtrip::intra_plan_sound(x, o, p);
    roundtrip::intra_script(x, o, p, r);
    assert(strips::rows_of(x) == l[i]);
    roundtrip::strip_split(STRIP_ID_INTRA, l[i], c.width, chunks, strips[i]);
    assert(f.u4[i] == u4 && f.u1[i] == u1 && f.mbs[i] == p.mbs && f.r4[i] == r && f.r1[i] == r);
    assert(f.u4[0].mode == PixelMode::Yuv12);
    assert(reading::reading_chunks(f, i) == chunks);
    assert(f.header.width == c.width && f.header.height == c.height);
}

#[verifier::rlimit(50)]
#[verifier::spinoff_prover]
proof fn suited_strip_picture(
    c: Stripwise,
    l: Seq<StripPlan>,
    strips: Seq<Seq<u8>>,
    prev: Option<FrameView>,
    start: FrameWork,
    i: int,
)
    requires
        frame_sized(c),
        0 <= i < l.len(),
        l[i].y_top < l[i].y_bottom <= c.height,
        options::options_error(suited_options(c, l[i])) is None,
        i == 0 ==> start.mode is None,
        ({
            let w = reading::reading_work(suited_reading(c, l, strips, prev), start, i);
            &&& w.v4.len() == 256
            &&& w.v1.len() == 256
            &&& i > 0 ==> w.out == suited_picture(c, l, i) && w.mode is Some
        }),
    ensures
        ({
            let w = reading::reading_work(suited_reading(c, l, strips, prev), start, i + 1);
            &&& w.out == suited_picture(c, l, i + 1)
            &&& w.mode == Some(PixelMode::Yuv12)
            &&& w.v4.len() == 256
            &&& w.v1.len() == 256
        }),
{
    let mode = PixelMode::Yuv12;
    let s = stripwise_picture(c);
    let f = suited_reading(c, l, strips, prev);
    let w0 = reading::reading_work(f, start, i);
    let w = reading::reading_work(f, start, i + 1);
    let o = suited_options(c, l[i]);
    let x = suited_strip(c, l[i]);
    let p = suited_plan(c, l[i]);
    roundtrip::mb_total_positive(x);
    planning::plan_is_in_range(x, o, None, None);
    strips::plan_without_skip(x, o, None, None);
    let u4 = strips::v4_update(x, o, p, false, true);
    let u1 = strips::v1_update(x, o, p, false, true);
    assert(f.u4[i] == u4 && f.u1[i] == u1 && f.mbs[i] == p.mbs);
    roundtrip::forced_applied(u4, rolling::fresh_roll(), w0.v4);
    roundtrip::forced_applied(u1, rolling::fresh_roll(), w0.v1);
    let canvas = if i == 0 {
        roundtrip::black(s)
    } else {
        suited_picture(c, l, i)
    };
    assert(f.header.width == s.width && f.header.height == s.height);
    assert(roundtrip::black(s) =~= Seq::new(
        (f.header.width * f.header.height * decoder::mode_bpp(mode)) as nat,
        |k: int| 0u8,
    ));
    let stride = s.width * decoder::mode_bpp(mode);
    let a = Paint { mode, v4: w.v4, v1: w.v1, prev };
    roundtrip::draw_without_prev(
        canvas,
        stride,
        a,
        p.mbs,
        0,
        l[i].y_top as int,
        s.width / 4,
        p.mbs.len(),
    );
    roundtrip::plan_drawn(x, o, p, w.v4, w.v1, canvas, l[i], None);
    assert(w.out == decoder::draw_mbs(
        canvas,
        stride,
        a,
        p.mbs,
        0,
        l[i].y_top as int,
        s.width / 4,
        p.mbs.len(),
    ));
    assert(canvas == suited_picture(c, l, i));
}

proof fn suited_reading_picture(
    c: Stripwise,
    l: Seq<StripPlan>,
    strips: Seq<Seq<u8>>,
    prev: Option<FrameView>,
    start: FrameWork,
    n: int,
)
    requires
        frame_sized(c),
        0 <= n <= l.len(),
        forall|i: int|
            0 <= i < n ==> (#[trigger] l[i]).y_top < l[i].y_bottom <= c.height
                && options::options_error(suited_options(c, l[i])) is None,
        start.mode is None,
        start.v4.len() == 256,
        start.v1.len() == 256,
    ensures
        ({
            let w = reading::reading_work(suited_reading(c, l, strips, prev), start, n);
            &&& n > 0 ==> w.out == suited_picture(c, l, n) && w.mode == Some(PixelMode::Yuv12)
            &&& w.v4.len() == 256
            &&& w.v1.len() == 256
        }),
    decreases n,
{
    if n > 0 {
        suited_reading_picture(c, l, strips, prev, start, n - 1);
        assert(l[n - 1].y_top < l[n - 1].y_bottom);
        suited_strip_picture(c, l, strips, prev, start, n - 1);
    }
}

proof fn suited_picture_len(c: Stripwise, l: Seq<StripPlan>, n: int)
    ensures
        suited_picture(c, l, n).len() == roundtrip::black(stripwise_picture(c)).len(),
    decreases n,
{
    if n > 0 {
        suited_picture_len(c, l, n - 1);
        let s = stripwise_picture(c);
        let p = suited_plan(c, l[n - 1]);
        roundtrip::drawn_len(
            suited_picture(c, l, n - 1),
            s.width * decoder::mode_bpp(s.mode),
            Paint { mode: s.mode, v4: p.v4, v1: p.v1, prev: None },
            p.mbs,
            0,
            l[n - 1].y_top as int,
            s.width / 4,
            p.mbs.len(),
        );
    }
}

/// A frame whose strips have configurations of their own decodes in every
/// decoder, to a frame of the picture's size whose pixels are those that the
/// strips plan. It has no flaw.
pub proof fn stripwise_decodes(c: Stripwise, count: u16, d: DecoderState, pts: Option<i64>)
    requires
        options::dims_error(c.width, c.height) is None,
        c.width <= 65535,
        c.height <= 65535,
        c.width * c.height * 3 <= usize::MAX,
        stripwise_frame(c, count) matches Ok(Some(_)),
        roundtrip::state_whole(d),
    ensures
        ({
            let bytes = (stripwise_frame(c, count)->Ok_0->0).1;
            let l = stripwise_layout(c, count);
            let out = roundtrip::frame_of(
                stripwise_picture(c),
                suited_picture(c, l, l.len() as int),
                pts,
            );
            &&& decoder::decoded(d, bytes, pts, None).1 == Ok::<FrameView, ErrorView>(out)
            &&& image::packed(out)
            &&& lint::frame_report(bytes).issues.len() == 0
            &&& lint::frame_report(bytes).strips_walked == l.len()
        }),
{
    let l = stripwise_layout(c, count);
    let n = l.len() as int;
    let run = stripwise_run(c, count, n);
    let bytes = (stripwise_frame(c, count)->Ok_0->0).1;
    let sized = EncoderOptions {
        strip_count: if count == 0 {
            1
        } else {
            count
        },
        ..c.base
    };
    assert(l == encoder::layout_of(c.height, sized));
    roundtrip::layout_sound(c.height, sized);
    clean::layout_tiles(c.height, sized);
    stripwise_run_strips(c, count, n);
    let h = strips::frame_head(
        c.width,
        c.height,
        run.strips.len(),
        strips::joined(run.strips, run.strips.len() as int).len(),
    );
    let prev = decoder::prev_of_size(d.prev, h);
    let f = suited_reading(c, l, run.strips, prev);
    assert forall|i: int| 0 <= i < n implies #[trigger] reading::strip_sound(f, i) by {
        assert(l[i].y_top < l[i].y_bottom);
        assert(run.strips[i] == run.strips[i]);
        suited_strip_sound(c, l, run.strips, prev, i);
    }
    assert forall|i: int| 0 <= i < n implies (#[trigger] l[i]).y_top < l[i].y_bottom <= c.height
        && options::options_error(suited_options(c, l[i])) is None && 1 <= suited_options(
        c,
        l[i],
    ).v4_entries && 1 <= suited_options(c, l[i]).v1_entries by {
        assert(run.strips[i] == run.strips[i]);
        suited_strip_bytes(c, l[i]);
    }
    assert(reading::reading_sound(f));
    roundtrip::frame_decodes(d, f, c.width, c.height, bytes, pts);
    let start = decoder::frame_start(d, FRAME_HEADER_SIZE as int);
    suited_reading_picture(c, l, run.strips, prev, start, n);
    suited_picture_len(c, l, n);
    roundtrip::whole_frame_covers(stripwise_picture(c), suited_picture(c, l, n), pts);
    let w = reading::reading_work(f, start, n);
    assert(decoder::finished(f.header, w, pts).planes =~= roundtrip::frame_of(
        stripwise_picture(c),
        suited_picture(c, l, n),
        pts,
    ).planes);
    assert(clean::tiles(f)) by {
        assert forall|i: int| 0 <= i < l.len() implies (#[trigger] f.u4[i]).n >= 1 by {
            assert(l[i].y_top < l[i].y_bottom);
        }
        assert forall|i: int| 0 <= i < l.len() implies (#[trigger] f.u1[i]).n >= 1 by {
            assert(l[i].y_top < l[i].y_bottom);
        }
    }
    clean::put_together(c.width, c.height, run.strips, bytes);
    clean::frame_is_clean(f, bytes);
}

proof fn best_is_cheapest(c: Stripwise, counts: Seq<u16>, k: int, j: int)
    requires
        0 <= j < k <= counts.len(),
        stripwise_best(c, counts, k) is Ok,
        stripwise_frame(c, counts[j]) matches Ok(Some(_)),
    ensures
        stripwise_best(c, counts, k)->Ok_0 matches Some(b) && b.0 <= (stripwise_frame(
            c,
            counts[j],
        )->Ok_0->0).0,
    decreases k,
{
    if j < k - 1 {
        best_is_cheapest(c, counts, k - 1, j);
    }
}

/// The frame that `encode_rgb24_per_strip_rd` gives is that of one of the strip
/// counts, and none gives a cheaper one.
pub proof fn per_strip_frame_is_cheapest(
    rgb: Seq<u8>,
    width: u32,
    height: u32,
    o: EncoderOptions,
    strips: Seq<u16>,
    lambdas: Seq<Option<i64>>,
    lumas: Seq<u8>,
    j: int,
) -> (i: int)
    requires
        per_strip_frame(rgb, width, height, o, strips, lambdas, lumas) is Ok,
        0 <= j < strips.len(),
    ensures
        ({
            let c = Stripwise {
                rgb,
                width,
                height,
                base: o,
                candidates: strip_grid(o, lambdas, lumas),
            };
            &&& 0 <= i < strips.len()
            &&& stripwise_frame(c, strips[i]) matches Ok(Some((least, bytes)))
            &&& per_strip_frame(rgb, width, height, o, strips, lambdas, lumas) == Ok::<
                Seq<u8>,
                ErrorView,
            >(bytes)
            &&& stripwise_frame(c, strips[j]) is Ok
            &&& stripwise_frame(c, strips[j])->Ok_0 matches Some((cost, _)) ==> least <= cost
        }),
{
    let c = Stripwise { rgb, width, height, base: o, candidates: strip_grid(o, lambdas, lumas) };
    let n = strips.len() as int;
    all_counts_end(c, strips, n, j);
    if stripwise_frame(c, strips[j])->Ok_0 is Some {
        best_is_cheapest(c, strips, n, j);
    }
    best_has_count(c, strips, n)
}

proof fn all_counts_end(c: Stripwise, counts: Seq<u16>, k: int, j: int)
    requires
        0 <= j < k <= counts.len(),
        stripwise_best(c, counts, k) is Ok,
    ensures
        stripwise_frame(c, counts[j]) is Ok,
    decreases k,
{
    if j < k - 1 {
        all_counts_end(c, counts, k - 1, j);
    }
}

proof fn best_has_count(c: Stripwise, counts: Seq<u16>, k: int) -> (j: int)
    requires
        0 <= k <= counts.len(),
        stripwise_best(c, counts, k) matches Ok(Some(_)),
    ensures
        0 <= j < k,
        stripwise_frame(c, counts[j]) == stripwise_best(c, counts, k),
    decreases k,
{
    let last = stripwise_frame(c, counts[k - 1]);
    if last == stripwise_best(c, counts, k) {
        k - 1
    } else {
        best_has_count(c, counts, k - 1)
    }
}

/// A frame that `encode_rgb24_per_strip_rd` gives decodes in every decoder,
/// a new one among them, to a colour frame of the picture's size, and has no
/// flaw.
pub proof fn per_strip_frame_is_seen(
    rgb: Seq<u8>,
    width: u32,
    height: u32,
    o: EncoderOptions,
    strips: Seq<u16>,
    lambdas: Seq<Option<i64>>,
    lumas: Seq<u8>,
    d: DecoderState,
    pts: Option<i64>,
)
    requires
        per_strip_frame(rgb, width, height, o, strips, lambdas, lumas) is Ok,
        width <= 65535,
        height <= 65535,
        width * height * 3 <= usize::MAX,
        roundtrip::state_whole(d),
    ensures
        ({
            let bytes = per_strip_frame(rgb, width, height, o, strips, lambdas, lumas)->Ok_0;
            &&& decoder::decoded(d, bytes, pts, None).1 matches Ok(f)
            &&& f.width == width
            &&& f.height == height
            &&& f.pixel_format == CinepakPixelFormat::Rgb24
            &&& f.pts == pts
            &&& image::packed(f)
            &&& lint::frame_report(bytes).issues.len() == 0
        }),
{
    let c = Stripwise { rgb, width, height, base: o, candidates: strip_grid(o, lambdas, lumas) };
    let j = best_has_count(c, strips, strips.len() as int);
    stripwise_decodes(c, strips[j], d, pts);
}

/// A frame that `encode_rgb24_round8` gives decodes in every decoder, to a
/// colour frame of the picture's size, and has no flaw.
pub proof fn better_frame_is_seen(
    rgb: Seq<u8>,
    width: u32,
    height: u32,
    o: EncoderOptions,
    d: DecoderState,
    pts: Option<i64>,
)
    requires
        better_frame(rgb, width, height, o) is Ok,
        width <= 65535,
        height <= 65535,
        width * height * 3 <= usize::MAX,
        roundtrip::state_whole(d),
    ensures
        ({
            let bytes = better_frame(rgb, width, height, o)->Ok_0;
            &&& decoder::decoded(d, bytes, pts, None).1 matches Ok(f)
            &&& f.width == width
            &&& f.height == height
            &&& f.pixel_format == CinepakPixelFormat::Rgb24
            &&& f.pts == pts
            &&& lint::frame_report(bytes).issues.len() == 0
        }),
{
    let (a, b, c) = (grid::strip_choices(), grid::lambda_choices(o), grid::luma_choices(o));
    per_strip_frame_is_seen(rgb, width, height, o, a, b, c, d, pts);
    grid::grid_not_empty(o, a, b, c);
    search::winner_is_seen(search::full_contest(rgb, width, height, o, a, b, c), d, pts);
}

} // verus!
