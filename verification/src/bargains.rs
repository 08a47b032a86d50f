//! What the frames that searches settle on are better than.

use vstd::prelude::*;
use crate::codebook::PixelMode;
use crate::decoder;
use crate::encoder;
use crate::error::ErrorView;
use crate::grid;
use crate::measure;
use crate::options::EncoderOptions;
use crate::search::{self, Contest};
use crate::session::{self, BudgetScene};
use crate::strips::{self, StripPlan};
use crate::stripwise::{self, Stripwise};

verus! {

proof fn in_luma_row(
    o: EncoderOptions,
    strips: u16,
    lambda: Option<i64>,
    lumas: Seq<u8>,
    k: int,
    c: int,
) -> (at: int)
    requires
        0 <= c < k <= lumas.len(),
    ensures
        0 <= at < grid::luma_row(o, strips, lambda, lumas, k).len(),
        grid::luma_row(o, strips, lambda, lumas, k)[at] == (EncoderOptions {
            strip_count: strips,
            rdo_lambda: lambda,
            luma_weight: lumas[c],
            ..o
        }),
    decreases k,
{
    if c == k - 1 {
        grid::luma_row(o, strips, lambda, lumas, k).len() - 1
    } else {
        in_luma_row(o, strips, lambda, lumas, k - 1, c)
    }
}

proof fn in_lambda_rows(
    o: EncoderOptions,
    strips: u16,
    lambdas: Seq<Option<i64>>,
    lumas: Seq<u8>,
    k: int,
    b: int,
    c: int,
) -> (at: int)
    requires
        0 <= b < k <= lambdas.len(),
        0 <= c < lumas.len(),
    ensures
        0 <= at < grid::lambda_rows(o, strips, lambdas, lumas, k).len(),
        grid::lambda_rows(o, strips, lambdas, lumas, k)[at] == (EncoderOptions {
            strip_count: strips,
            rdo_lambda: lambdas[b],
            luma_weight: lumas[c],
            ..o
        }),
    decreases k,
{
    let before = grid::lambda_rows(o, strips, lambdas, lumas, k - 1);
    if b == k - 1 {
        let i = in_luma_row(o, strips, lambdas[b], lumas, lumas.len() as int, c);
        before.len() + i
    } else {
        in_lambda_rows(o, strips, lambdas, lumas, k - 1, b, c)
    }
}

proof fn in_grid_rows(
    o: EncoderOptions,
    strips: Seq<u16>,
    lambdas: Seq<Option<i64>>,
    lumas: Seq<u8>,
    k: int,
    a: int,
    b: int,
    c: int,
) -> (at: int)
    requires
        0 <= a < k <= strips.len(),
        0 <= b < lambdas.len(),
        0 <= c < lumas.len(),
    ensures
        0 <= at < grid::grid_rows(o, strips, lambdas, lumas, k).len(),
        grid::grid_rows(o, strips, lambdas, lumas, k)[at] == (EncoderOptions {
            strip_count: strips[a],
            rdo_lambda: lambdas[b],
            luma_weight: lumas[c],
            ..o
        }),
    decreases k,
{
    let before = grid::grid_rows(o, strips, lambdas, lumas, k - 1);
    if a == k - 1 {
        let i = in_lambda_rows(o, strips[a], lambdas, lumas, lambdas.len() as int, b, c);
        before.len() + i
    } else {
        in_grid_rows(o, strips, lambdas, lumas, k - 1, a, b, c)
    }
}

/// A grid has every combination of its choices.
pub proof fn grid_is_complete(
    o: EncoderOptions,
    strips: Seq<u16>,
    lambdas: Seq<Option<i64>>,
    lumas: Seq<u8>,
    a: int,
    b: int,
    c: int,
) -> (at: int)
    requires
        0 <= a < strips.len(),
        0 <= b < lambdas.len(),
        0 <= c < lumas.len(),
    ensures
        0 <= at < grid::grid(o, strips, lambdas, lumas).len(),
        grid::grid(o, strips, lambdas, lumas)[at] == (EncoderOptions {
            strip_count: strips[a],
            rdo_lambda: lambdas[b],
            luma_weight: lumas[c],
            ..o
        }),
{
    in_grid_rows(o, strips, lambdas, lumas, strips.len() as int, a, b, c)
}

/// The usual choices: one, two or four strips; bits that are free, or worth
/// two and a half squared differences, or what the configuration says, or
/// five where it says nothing; and a luma weight of four, of eight, or as
/// configured, where zero stands for one.
pub proof fn usual_choices(o: EncoderOptions)
    ensures
        forall|s: u16| grid::strip_choices().contains(s) <==> s == 1 || s == 2 || s == 4,
        forall|l: Option<i64>|
            grid::lambda_choices(o).contains(l) <==> l == Some(0i64) || l == Some(163840i64) || (
            o.rdo_lambda is Some && l == o.rdo_lambda) || (o.rdo_lambda is None && l == Some(327680i64)),
        forall|l: Option<i64>| grid::budget_lambdas(o).contains(l) <==> grid::lambda_choices(o).contains(l),
        forall|w: u8|
            grid::luma_choices(o).contains(w) <==> w == 4 || w == 8 || (o.luma_weight > 0 && w
                == o.luma_weight) || (o.luma_weight == 0 && w == 1),
        grid::lambda_choices(o).no_duplicates(),
        grid::budget_lambdas(o).no_duplicates(),
        grid::luma_choices(o).no_duplicates(),
{
    let s3 = grid::strip_choices();
    assert(s3[0] == 1 && s3[1] == 2 && s3[2] == 4);
    let own = match o.rdo_lambda {
        Some(l) => Some(l),
        None => Some(327680i64),
    };
    distinct_holds(Some(0i64), Some(163840i64), own);
    distinct_holds(own, Some(163840i64), Some(0i64));
    distinct_holds(
        if o.luma_weight == 0 {
            1u8
        } else {
            o.luma_weight
        },
        4u8,
        8u8,
    );
}

proof fn distinct_holds<T>(a: T, b: T, c: T)
    ensures
        forall|x: T| grid::distinct(a, b, c).contains(x) <==> x == a || x == b || x == c,
        grid::distinct(a, b, c).no_duplicates(),
{
    let d = grid::distinct(a, b, c);
    assert forall|x: T| x == a || x == b || x == c implies d.contains(x) by {
        assert(d[0] == a);
        if b != a {
            assert(d[1] == b);
            if c != a && c != b {
                assert(d[2] == c);
            }
        } else if c != a {
            assert(d[1] == c);
        }
    }
}

/// What a frame is worth to a search that looks at colours: its error in
/// single colour values, and its bytes at the price of a configuration, where
/// no price is none.
pub open spec fn colour_cost(bytes: Seq<u8>, rgb: Seq<u8>, width: u32, height: u32, o: EncoderOptions) -> int {
    let e = measure::decoded_rgb_error(decoder::fresh_decoder(), bytes, rgb, width, height)->Ok_0;
    65536 * e + (match o.rdo_lambda {
        Some(l) => 3 * l * bytes.len(),
        None => 0,
    })
}

/// What a frame is worth to a search that looks at brightness: its error, in
/// millionths, and its bytes at the price of a configuration.
pub open spec fn brightness_cost(
    bytes: Seq<u8>,
    rgb: Seq<u8>,
    width: u32,
    height: u32,
    o: EncoderOptions,
) -> int {
    let e = measure::decoded_y_error(decoder::fresh_decoder(), bytes, rgb, width, height)->Ok_0;
    65536 * e + (match o.rdo_lambda {
        Some(l) => 1000000 * l * bytes.len(),
        None => 0,
    })
}

proof fn cost_of_frame(c: Contest, bytes: Seq<u8>, o: EncoderOptions)
    requires
        c.price == search::byte_price(o),
        search::frame_cost(bytes, c.rgb, c.width, c.height, c.price, c.luma) is Ok,
    ensures
        search::frame_cost(bytes, c.rgb, c.width, c.height, c.price, c.luma)->Ok_0 == if c.luma {
            brightness_cost(bytes, c.rgb, c.width, c.height, o)
        } else {
            colour_cost(bytes, c.rgb, c.width, c.height, o)
        },
{
    let n = bytes.len() as int;
    let p = c.price as int;
    assert(3 * (p * n) == 3 * p * n && 1000000 * (p * n) == 1000000 * p * n) by (nonlinear_arith);
    assert(p == 0 ==> p * n == 0) by (nonlinear_arith);
}

/// The frame with a configuration, where nothing else is known.
pub open spec fn frame_with(rgb: Seq<u8>, width: u32, height: u32, o: EncoderOptions) -> Seq<u8> {
    encoder::intra_frame(rgb, width, height, PixelMode::Yuv12, o)->Ok_0
}

/// Searching strip counts gives a frame that costs no more than that with any
/// of them, where a count of none is taken as one.
pub proof fn best_strips_cost_least(
    rgb: Seq<u8>,
    width: u32,
    height: u32,
    o: EncoderOptions,
    candidates: Seq<u16>,
    a: int,
)
    requires
        0 <= a < candidates.len(),
        search::winner(search::strips_contest(rgb, width, height, o, candidates)) is Ok,
    ensures
        ({
            let won = search::winner(search::strips_contest(rgb, width, height, o, candidates))->Ok_0;
            let n = if candidates[a] == 0 {
                1u16
            } else {
                candidates[a]
            };
            let other = frame_with(rgb, width, height, EncoderOptions { strip_count: n, ..o });
            colour_cost(won, rgb, width, height, o) <= colour_cost(other, rgb, width, height, o)
        }),
{
    let c = search::strips_contest(rgb, width, height, o, candidates);
    let at = grid_is_complete(
        o,
        search::at_least_one(candidates),
        seq![o.rdo_lambda],
        seq![o.luma_weight],
        a,
        0,
        0,
    );
    search::winner_is_cheapest(c, at);
    cost_of_frame(c, search::winner(c)->Ok_0, o);
    cost_of_frame(c, search::contest_frame(c, at)->Ok_0, o);
}

/// Searching strip counts and prices of bits gives a frame that costs no more
/// than that with any combination of them.
pub proof fn best_of_grid_costs_least(
    rgb: Seq<u8>,
    width: u32,
    height: u32,
    o: EncoderOptions,
    strips: Seq<u16>,
    lambdas: Seq<Option<i64>>,
    a: int,
    b: int,
)
    requires
        0 <= a < strips.len(),
        0 <= b < lambdas.len(),
        search::best_of_grid(rgb, width, height, o, strips, lambdas) is Ok,
    ensures
        ({
            let won = search::best_of_grid(rgb, width, height, o, strips, lambdas)->Ok_0;
            let other = frame_with(
                rgb,
                width,
                height,
                EncoderOptions { strip_count: strips[a], rdo_lambda: lambdas[b], ..o },
            );
            colour_cost(won, rgb, width, height, o) <= colour_cost(other, rgb, width, height, o)
        }),
{
    let c = search::grid_contest(rgb, width, height, o, strips, lambdas);
    let at = grid_is_complete(o, strips, lambdas, seq![o.luma_weight], a, b, 0);
    search::winner_is_cheapest(c, at);
    cost_of_frame(c, search::winner(c)->Ok_0, o);
    cost_of_frame(c, search::contest_frame(c, at)->Ok_0, o);
}

/// Searching strip counts, prices of bits and luma weights gives a frame that
/// costs no more, in brightness, than that with any combination of them.
pub proof fn best_of_full_grid_costs_least(
    rgb: Seq<u8>,
    width: u32,
    height: u32,
    o: EncoderOptions,
    strips: Seq<u16>,
    lambdas: Seq<Option<i64>>,
    lumas: Seq<u8>,
    a: int,
    b: int,
    w: int,
)
    requires
        0 <= a < strips.len(),
        0 <= b < lambdas.len(),
        0 <= w < lumas.len(),
        search::best_of_full_grid(rgb, width, height, o, strips, lambdas, lumas) is Ok,
    ensures
        ({
            let won = search::best_of_full_grid(rgb, width, height, o, strips, lambdas, lumas)->Ok_0;
            let other = frame_with(
                rgb,
                width,
                height,
                EncoderOptions {
                    strip_count: strips[a],
                    rdo_lambda: lambdas[b],
                    luma_weight: lumas[w],
                    ..o
                },
            );
            brightness_cost(won, rgb, width, height, o) <= brightness_cost(
                other,
                rgb,
                width,
                height,
                o,
            )
        }),
{
    let c = search::full_contest(rgb, width, height, o, strips, lambdas, lumas);
    let at = grid_is_complete(o, strips, lambdas, lumas, a, b, w);
    search::winner_is_cheapest(c, at);
    cost_of_frame(c, search::winner(c)->Ok_0, o);
    cost_of_frame(c, search::contest_frame(c, at)->Ok_0, o);
}

/// The pixels of a strip are those of its rows.
pub proof fn strip_has_its_rows(rgb: Seq<u8>, width: u32, rows: StripPlan, r: int, k: int)
    requires
        rows.y_top + r < rows.y_bottom,
        0 <= r,
        0 <= k < 3 * width,
        rows.y_bottom * (width * 3) <= rgb.len(),
    ensures
        stripwise::strip_pixels(rgb, width, rows)[r * (3 * width) + k] == rgb[(rows.y_top + r) * (3
            * width) + k],
        stripwise::strip_pixels(rgb, width, rows).len() == (rows.y_bottom - rows.y_top) * (3 * width),
{
    let w = width * 3;
    assert(rows.y_top * w + (r * w + k) == (rows.y_top + r) * w + k && 0 <= r * w && 0 <= rows.y_top * w
        && rows.y_top * w <= rows.y_bottom * w && r * w + k < (rows.y_bottom - rows.y_top) * w && (
    rows.y_bottom - rows.y_top) * w == rows.y_bottom * w - rows.y_top * w) by (nonlinear_arith)
        requires
            0 <= r,
            0 <= rows.y_top,
            rows.y_top + r + 1 <= rows.y_bottom,
            0 <= k < w,
    ;
}

/// Whether a strip on its own can be encoded with a configuration, and the
/// outcome measured.
pub open spec fn measurable(pixels: Seq<u8>, width: u32, height: u32, o: EncoderOptions) -> bool {
    &&& encoder::intra_frame(pixels, width, height, PixelMode::Yuv12, o) is Ok
    &&& measure::decoded_y_error(
        decoder::fresh_decoder(),
        frame_with(pixels, width, height, o),
        pixels,
        width,
        height,
    ) is Ok
}

#[verifier::rlimit(50)]
#[verifier::spinoff_prover]
proof fn strip_best_is_cheapest(
    pixels: Seq<u8>,
    width: u32,
    height: u32,
    base: EncoderOptions,
    candidates: Seq<EncoderOptions>,
    k: int,
)
    requires
        0 <= k <= candidates.len(),
    ensures
        ({
            let best = stripwise::strip_best(
                pixels,
                width,
                height,
                candidates,
                search::byte_price(base),
                k,
            );
            &&& best matches Some((cost, e, o)) ==> {
                &&& candidates.contains(o)
                &&& measurable(pixels, width, height, o)
                &&& e == measure::decoded_y_error(
                    decoder::fresh_decoder(),
                    frame_with(pixels, width, height, o),
                    pixels,
                    width,
                    height,
                )->Ok_0
                &&& cost == brightness_cost(
                    frame_with(pixels, width, height, o),
                    pixels,
                    width,
                    height,
                    base,
                )
            }
            &&& forall|i: int|
                0 <= i < k && measurable(pixels, width, height, #[trigger] candidates[i])
                    ==> best is Some && (best->0).0 <= brightness_cost(
                    frame_with(pixels, width, height, candidates[i]),
                    pixels,
                    width,
                    height,
                    base,
                )
        }),
    decreases k,
{
    if k > 0 {
        strip_best_is_cheapest(pixels, width, height, base, candidates, k - 1);
        let o = candidates[k - 1];
        assert(candidates.contains(o));
        if measurable(pixels, width, height, o) {
            let c = Contest {
                rgb: pixels,
                width,
                height,
                candidates,
                price: search::byte_price(base),
                luma: true,
            };
            cost_of_frame(c, frame_with(pixels, width, height, o), base);
        }
    }
}

/// A strip is encoded with the configuration whose frame, of the strip on its
/// own, costs least in brightness, and its error is that of this frame.
pub proof fn suited_strip_costs_least(
    pixels: Seq<u8>,
    width: u32,
    height: u32,
    base: EncoderOptions,
    candidates: Seq<EncoderOptions>,
    i: int,
)
    requires
        0 <= i < candidates.len(),
        measurable(pixels, width, height, candidates[i]),
    ensures
        stripwise::strip_choice(pixels, width, height, base, candidates) matches Some((e, o)) && {
            &&& candidates.contains(o)
            &&& measurable(pixels, width, height, o)
            &&& e == measure::decoded_y_error(
                decoder::fresh_decoder(),
                frame_with(pixels, width, height, o),
                pixels,
                width,
                height,
            )->Ok_0
            &&& brightness_cost(frame_with(pixels, width, height, o), pixels, width, height, base)
                <= brightness_cost(
                frame_with(pixels, width, height, candidates[i]),
                pixels,
                width,
                height,
                base,
            )
        },
{
    reveal(stripwise::strip_choice);
    strip_best_is_cheapest(pixels, width, height, base, candidates, candidates.len() as int);
}

/// The errors of the strips of a layout from `i` on, each as it suits it,
/// added up.
pub open spec fn strip_errors(c: Stripwise, layout: Seq<StripPlan>, i: int) -> int
    decreases layout.len() - i,
{
    if i < 0 || i >= layout.len() {
        0
    } else {
        (stripwise::stripwise_strip(c, layout[i])->Ok_0->0).0 + strip_errors(c, layout, i + 1)
    }
}

proof fn run_adds_errors(c: Stripwise, count: u16, n: int)
    requires
        0 <= n <= stripwise::stripwise_layout(c, count).len(),
        !stripwise::stripwise_run(c, count, n).stuck,
        stripwise::stripwise_run(c, count, n).fault is None,
    ensures
        stripwise::stripwise_run(c, count, n).error == strip_errors(
            c,
            stripwise::stripwise_layout(c, count),
            0,
        ) - strip_errors(c, stripwise::stripwise_layout(c, count), n),
    decreases n,
{
    if n > 0 {
        run_adds_errors(c, count, n - 1);
    }
}

/// A frame of suited strips costs the errors of its strips, and its bytes at
/// the price of a configuration.
pub proof fn suited_frame_cost(c: Stripwise, count: u16)
    requires
        stripwise::stripwise_frame(c, count) is Ok,
        stripwise::stripwise_frame(c, count)->Ok_0 is Some,
    ensures
        ({
            let (cost, bytes) = stripwise::stripwise_frame(c, count)->Ok_0->0;
            let l = strips::strip_layout(c.height as int / 4, count as int);
            cost == 65536 * strip_errors(c, l, 0) + (match c.base.rdo_lambda {
                Some(p) => 1000000 * p * bytes.len(),
                None => 0,
            })
        }),
{
    let l = stripwise::stripwise_layout(c, count);
    run_adds_errors(c, count, l.len() as int);
    let (cost, bytes) = stripwise::stripwise_frame(c, count)->Ok_0->0;
    let p = search::byte_price(c.base) as int;
    let n = bytes.len() as int;
    assert(1000000 * (p * n) == 1000000 * p * n) by (nonlinear_arith);
    assert(p == 0 ==> p * n == 0) by (nonlinear_arith);
}

/// Of the cheapest frames of a contest the smallest wins, and of these the
/// first.
#[verifier::rlimit(50)]
#[verifier::spinoff_prover]
pub proof fn winner_is_first_of_smallest(c: Contest, k: int) -> (i: int)
    requires
        0 < k <= c.candidates.len(),
        search::contest(c, k) is Ok,
    ensures
        0 <= i < k,
        search::contest(c, k)->Ok_0 == Some(
            (search::contest_cost(c, i)->Ok_0, search::contest_frame(c, i)->Ok_0),
        ),
        forall|j: int|
            0 <= j < k ==> {
                let cost = search::contest_cost(c, j)->Ok_0;
                let best = search::contest_cost(c, i)->Ok_0;
                let n = (#[trigger] search::contest_frame(c, j))->Ok_0.len();
                let least = search::contest_frame(c, i)->Ok_0.len();
                &&& best <= cost
                &&& cost == best ==> least <= n
                &&& cost == best && j < i ==> least < n
            },
    decreases k,
{
    if k == 1 {
        assert(search::contest(c, 0) == Ok::<Option<(int, Seq<u8>)>, ErrorView>(None));
        0
    } else {
        let before = winner_is_first_of_smallest(c, k - 1);
        let cost = search::contest_cost(c, k - 1)->Ok_0;
        let best = search::contest_cost(c, before)->Ok_0;
        if cost < best || (cost == best && search::contest_frame(c, k - 1)->Ok_0.len()
            < search::contest_frame(c, before)->Ok_0.len()) {
            k - 1
        } else {
            before
        }
    }
}

/// What a search within a budget has of configuration `i`: whether its frame
/// fits, its error and its size.
pub open spec fn trial_of(c: BudgetScene, i: int) -> core::result::Result<Seq<u8>, ErrorView> {
    session::encoded_one(
        c.state,
        c.rgb,
        c.width,
        c.height,
        grid::budget_grid(c.base)[i],
        c.intra,
    ).1
}

/// The error in brightness of the frame of configuration `i`.
pub open spec fn trial_error_of(c: BudgetScene, i: int) -> int {
    measure::decoded_y_error(
        c.state.decoder,
        trial_of(c, i)->Ok_0,
        c.rgb,
        c.width,
        c.height,
    )->Ok_0
}

/// Whether frame `a` of a search within a budget is to be taken before frame
/// `b`: less error, or as much in fewer bytes, or the first of equals.
pub open spec fn before_in_budget(c: BudgetScene, a: int, b: int) -> bool {
    let (x, y) = (trial_error_of(c, a), trial_error_of(c, b));
    let (m, n) = (trial_of(c, a)->Ok_0.len(), trial_of(c, b)->Ok_0.len());
    x < y || (x == y && (m < n || (m == n && a <= b)))
}

/// The best frame within a budget comes before every other that fits, and
/// the smallest is the first of its size.
pub proof fn budget_takes_first_of_best(c: BudgetScene, k: int) -> (at: (int, int))
    requires
        0 <= k <= grid::budget_grid(c.base).len(),
        session::search_run(c, k).fault is None,
    ensures
        ({
            let s = session::search_run(c, k);
            &&& s.best matches Some((e, n, o)) ==> {
                &&& 0 <= at.0 < k
                &&& o == grid::budget_grid(c.base)[at.0]
                &&& trial_of(c, at.0) matches Ok(b) && b.len() == n && n <= c.budget
                &&& e == trial_error_of(c, at.0)
            }
            &&& s.smallest matches Some((n, o)) ==> {
                &&& 0 <= at.1 < k
                &&& o == grid::budget_grid(c.base)[at.1]
                &&& trial_of(c, at.1) matches Ok(b) && b.len() == n
            }
            &&& forall|i: int|
                0 <= i < k && (#[trigger] trial_of(c, i)) is Ok ==> {
                    let n = trial_of(c, i)->Ok_0.len();
                    &&& s.smallest is Some
                    &&& (s.smallest->0).0 <= n
                    &&& i < at.1 ==> (s.smallest->0).0 < n
                    &&& n <= c.budget ==> s.best is Some && before_in_budget(c, at.0, i)
                }
        }),
    decreases k,
{
    if k == 0 {
        (0, 0)
    } else {
        let before = session::search_run(c, k - 1);
        let now = session::search_run(c, k);
        let o = grid::budget_grid(c.base)[k - 1];
        assert(now == session::search_step(c, o, before));
        assert(before.fault is None);
        let at = budget_takes_first_of_best(c, k - 1);
        (
            if now.best != before.best {
                k - 1
            } else {
                at.0
            },
            if now.smallest != before.smallest {
                k - 1
            } else {
                at.1
            },
        )
    }
}

/// How many of the first `k` configurations give a frame.
pub open spec fn frames_given(c: BudgetScene, k: int) -> nat
    decreases k,
{
    if k <= 0 {
        0
    } else {
        frames_given(c, k - 1) + if trial_of(c, k - 1) is Ok {
            1nat
        } else {
            0nat
        }
    }
}

/// The search within a budget counts the configurations that gave a frame,
/// and knows a smallest frame where there was any.
pub proof fn every_trial_counts(c: BudgetScene, k: int)
    requires
        0 <= k,
        session::search_run(c, k).fault is None,
    ensures
        session::search_run(c, k).trials == frames_given(c, k),
        session::search_run(c, k).smallest is Some <==> frames_given(c, k) > 0,
        frames_given(c, k) <= k,
    decreases k,
{
    if k > 0 {
        let before = session::search_run(c, k - 1);
        let o = grid::budget_grid(c.base)[k - 1];
        assert(session::search_run(c, k) == session::search_step(c, o, before));
        assert(before.fault is None);
        every_trial_counts(c, k - 1);
    }
}

/// What a frame within a budget reports: the budget, its size, whether that
/// keeps to the budget, by how much it is off, and how many configurations
/// gave a frame.
pub proof fn budget_is_reported(c: BudgetScene)
    requires
        session::search_run(c, grid::budget_grid(c.base).len() as int).fault is None,
        frames_given(c, grid::budget_grid(c.base).len() as int) > 0,
        session::budget_frame(c).1 is Ok,
        session::budget_frame(c).1->Ok_0.len() <= usize::MAX,
        c.budget < 0x8000000000000000,
    ensures
        ({
            let bytes = session::budget_frame(c).1->Ok_0;
            session::budget_frame(c).0.rate matches Some(r) && {
                &&& r.target_bytes == c.budget
                &&& r.actual_bytes == bytes.len()
                &&& r.within_budget <==> bytes.len() <= c.budget
                &&& bytes.len() < 0x8000000000000000 ==> r.byte_delta == bytes.len() - c.budget
                &&& r.trials == frames_given(c, grid::budget_grid(c.base).len() as int)
            }
        }),
{
    reveal(session::budget_frame);
    let k = grid::budget_grid(c.base).len() as int;
    every_trial_counts(c, k);
    let at = budget_takes_first_of_best(c, k);
    grid::budget_grid_len(c.base);
}

proof fn none_is_best(
    pixels: Seq<u8>,
    width: u32,
    height: u32,
    candidates: Seq<EncoderOptions>,
    price: i64,
    k: int,
)
    requires
        k <= candidates.len(),
        forall|i: int|
            0 <= i < candidates.len() ==> encoder::intra_frame(
                pixels,
                width,
                height,
                PixelMode::Yuv12,
                #[trigger] candidates[i],
            ) is Err,
    ensures
        stripwise::strip_best(pixels, width, height, candidates, price, k) is None,
    decreases k,
{
    if k > 0 {
        none_is_best(pixels, width, height, candidates, price, k - 1);
        assert(encoder::intra_frame(pixels, width, height, PixelMode::Yuv12, candidates[k - 1]) is Err);
    }
}

/// Where no candidate gives a frame for a strip, its configuration is the one
/// given, with one strip, where that gives a frame.
pub proof fn plain_where_none_works(
    pixels: Seq<u8>,
    width: u32,
    height: u32,
    o: EncoderOptions,
    candidates: Seq<EncoderOptions>,
)
    requires
        forall|i: int|
            0 <= i < candidates.len() ==> encoder::intra_frame(
                pixels,
                width,
                height,
                PixelMode::Yuv12,
                #[trigger] candidates[i],
            ) is Err,
    ensures
        ({
            let plain = EncoderOptions { strip_count: 1, ..o };
            let r = stripwise::strip_choice(pixels, width, height, o, candidates);
            &&& r is Some <==> encoder::intra_frame(
                pixels,
                width,
                height,
                PixelMode::Yuv12,
                plain,
            ) is Ok
            &&& r is Some ==> (r->0).1 == plain
        }),
{
    reveal(stripwise::strip_choice);
    assert(grid::tuned(o, 1, o.rdo_lambda, o.luma_weight) == EncoderOptions { strip_count: 1, ..o });
    none_is_best(
        pixels,
        width,
        height,
        candidates,
        search::byte_price(o),
        candidates.len() as int,
    );
}

} // verus!
