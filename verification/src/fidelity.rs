//! What entries keep of the pixels that they stand for.

use vstd::prelude::*;
use crate::codebook::{CodebookEntry, PixelMode};
use crate::colours;
use crate::decoder::{self, Paint};
use crate::drawing;
use crate::image::PlaneView;
use crate::options::EncoderOptions;
use crate::planning::{self, StripSource};
use crate::sampling::{self, SourceView};
use crate::vector::Mb;

verus! {

/// Whether four by four pixels at `(px, py)` lie in a picture whose bytes are
/// all there.
pub open spec fn inside(s: SourceView, px: int, py: int) -> bool {
    &&& 0 <= px && px + 4 <= s.width
    &&& 0 <= py && py + 4 <= s.height
    &&& match s.mode {
        PixelMode::Yuv12 => s.width * s.height * 3 <= s.pixels.len(),
        PixelMode::Gray8 => s.width * s.height <= s.pixels.len(),
    }
}

/// A pixel's brightness, in seventh parts.
pub open spec fn brightness(s: SourceView, row: int, col: int) -> int {
    let at = drawing::colour_at(s.width, row, col);
    2 * s.pixels[at] + 4 * s.pixels[at + 1] + s.pixels[at + 2]
}

/// The sum of a channel over two by two pixels.
pub open spec fn square_sum(s: SourceView, row: int, col: int, c: int) -> int {
    s.pixels[drawing::colour_at(s.width, row, col) + c] + s.pixels[drawing::colour_at(s.width, row, col + 1) + c]
        + s.pixels[drawing::colour_at(s.width, row + 1, col) + c] + s.pixels[drawing::colour_at(
        s.width,
        row + 1,
        col + 1,
    ) + c]
}

/// The sum of a channel over four by four pixels.
pub open spec fn block_sum(s: SourceView, row: int, col: int, c: int) -> int {
    square_sum(s, row, col, c) + square_sum(s, row, col + 2, c) + square_sum(s, row + 2, col, c)
        + square_sum(s, row + 2, col + 2, c)
}

/// Whether a luma is that of a brightness in seventh parts, but for rounding.
pub open spec fn luma_near(y: u8, seventh: int) -> bool {
    -5 <= 7 * y - seventh <= 3
}

proof fn offsets(s: SourceView, row: int, col: int)
    ensures
        s.mode == PixelMode::Yuv12 ==> sampling::pixel_offset(s, row, col) == drawing::colour_at(
            s.width,
            row,
            col,
        ),
        s.mode == PixelMode::Gray8 ==> sampling::pixel_offset(s, row, col) == drawing::gray_at(
            s.width,
            row,
            col,
        ),
{
    let w = s.width;
    assert((row * w + col) * 3 == row * (w * 3) + col * 3) by (nonlinear_arith);
}

/// The lumas of a sampled square are those of its pixels, from left to right
/// and then downward.
pub proof fn square_lumas(s: SourceView, row: int, col: int)
    requires
        s.mode == PixelMode::Yuv12,
    ensures
        ({
            let e = sampling::quad_entry(s, row, col);
            &&& luma_near(e.y0, brightness(s, row, col))
            &&& luma_near(e.y1, brightness(s, row, col + 1))
            &&& luma_near(e.y2, brightness(s, row + 1, col))
            &&& luma_near(e.y3, brightness(s, row + 1, col + 1))
        }),
{
    reveal(sampling::quad_entry);
    offsets(s, row, col);
    offsets(s, row, col + 1);
    offsets(s, row + 1, col);
    offsets(s, row + 1, col + 1);
    pixel_luma(s, row, col);
    pixel_luma(s, row, col + 1);
    pixel_luma(s, row + 1, col);
    pixel_luma(s, row + 1, col + 1);
}

proof fn pixel_luma(s: SourceView, row: int, col: int)
    requires
        s.mode == PixelMode::Yuv12,
    ensures
        luma_near(sampling::luma_at(s, row, col), brightness(s, row, col)),
{
    offsets(s, row, col);
    let at = drawing::colour_at(s.width, row, col);
    colours::colour_parts(s.pixels[at], s.pixels[at + 1], s.pixels[at + 2]);
}

/// The chromas of a mean colour: what blue, and red, has more than the luma,
/// halved, but for rounding. `n` pixels have the channel sums `r`, `g`, `b`.
pub open spec fn chromas_near(u: i8, v: i8, n: int, r: int, g: int, b: int) -> bool {
    &&& -20 * n <= 14 * n * u - (6 * b - 2 * r - 4 * g) <= 20 * n
    &&& -20 * n <= 14 * n * v - (5 * r - 4 * g - b) <= 20 * n
}

proof fn mean_of_four(r: int, g: int, b: int)
    requires
        0 <= r <= 1020,
        0 <= g <= 1020,
        0 <= b <= 1020,
    ensures
        ({
            let c = sampling::yuv_of((r / 4) as u8, (g / 4) as u8, (b / 4) as u8);
            chromas_near(c.1, c.2, 4, r, g, b)
        }),
{
    let c = sampling::yuv_of((r / 4) as u8, (g / 4) as u8, (b / 4) as u8);
    colours::colour_parts((r / 4) as u8, (g / 4) as u8, (b / 4) as u8);
    assert(-80 <= 56 * c.1 - (6 * b - 2 * r - 4 * g) <= 80);
    assert(-80 <= 56 * c.2 - (5 * r - 4 * g - b) <= 80);
}

proof fn mean_of_sixteen(r: int, g: int, b: int)
    requires
        0 <= r <= 4080,
        0 <= g <= 4080,
        0 <= b <= 4080,
    ensures
        ({
            let c = sampling::yuv_of((r / 16) as u8, (g / 16) as u8, (b / 16) as u8);
            chromas_near(c.1, c.2, 16, r, g, b)
        }),
{
    let c = sampling::yuv_of((r / 16) as u8, (g / 16) as u8, (b / 16) as u8);
    colours::colour_parts((r / 16) as u8, (g / 16) as u8, (b / 16) as u8);
    assert(-320 <= 224 * c.1 - (6 * b - 2 * r - 4 * g) <= 320);
    assert(-320 <= 224 * c.2 - (5 * r - 4 * g - b) <= 320);
}

/// The luma of a pixel.
pub open spec fn luma_of(s: SourceView, row: int, col: int) -> u8 {
    let at = drawing::colour_at(s.width, row, col);
    sampling::yuv_of(s.pixels[at], s.pixels[at + 1], s.pixels[at + 2]).0
}

/// Whether a sum is that of `n` equal numbers, but for a remainder.
pub open spec fn shared(x: u8, sum: int, n: int) -> bool {
    n * x <= sum < n * x + n
}

/// A sampled square has the lumas of its pixels, and the chromas of the
/// colour whose channels are their means, rounded down.
pub proof fn square_is_of_colours(s: SourceView, row: int, col: int, r: u8, g: u8, b: u8)
    requires
        s.mode == PixelMode::Yuv12,
        shared(r, square_sum(s, row, col, 0), 4),
        shared(g, square_sum(s, row, col, 1), 4),
        shared(b, square_sum(s, row, col, 2), 4),
    ensures
        ({
            let e = sampling::quad_entry(s, row, col);
            let c = sampling::yuv_of(r, g, b);
            &&& e.y0 == luma_of(s, row, col)
            &&& e.y1 == luma_of(s, row, col + 1)
            &&& e.y2 == luma_of(s, row + 1, col)
            &&& e.y3 == luma_of(s, row + 1, col + 1)
            &&& (e.u, e.v) == (c.1, c.2)
        }),
{
    reveal(sampling::quad_entry);
    square_sums(s, row, col);
    offsets(s, row, col);
    offsets(s, row, col + 1);
    offsets(s, row + 1, col);
    offsets(s, row + 1, col + 1);
    assert(sampling::sum2(s, row, col, 0) / 4 == r);
    assert(sampling::sum2(s, row, col, 1) / 4 == g);
    assert(sampling::sum2(s, row, col, 2) / 4 == b);
}

/// Whether a luma is the mean of those of two by two pixels, rounded down.
pub open spec fn mean_of_lumas(y: u8, s: SourceView, row: int, col: int) -> bool {
    shared(
        y,
        luma_of(s, row, col) + luma_of(s, row, col + 1) + luma_of(s, row + 1, col) + luma_of(
            s,
            row + 1,
            col + 1,
        ),
        4,
    )
}

proof fn mean_is_of_lumas(s: SourceView, row: int, col: int)
    requires
        s.mode == PixelMode::Yuv12,
    ensures
        mean_of_lumas(sampling::mean_luma(s, row, col), s, row, col),
{
    offsets(s, row, col);
    offsets(s, row, col + 1);
    offsets(s, row + 1, col);
    offsets(s, row + 1, col + 1);
}

/// A macroblock sampled as one entry has the means of its quarters' lumas,
/// and the chromas of the colour whose channels are the means of its pixels,
/// all rounded down.
pub proof fn whole_is_of_colours(s: SourceView, px: int, py: int, r: u8, g: u8, b: u8)
    requires
        s.mode == PixelMode::Yuv12,
        shared(r, block_sum(s, py, px, 0), 16),
        shared(g, block_sum(s, py, px, 1), 16),
        shared(b, block_sum(s, py, px, 2), 16),
    ensures
        ({
            let e = sampling::block1(s, px, py);
            let c = sampling::yuv_of(r, g, b);
            &&& mean_of_lumas(e.y0, s, py, px)
            &&& mean_of_lumas(e.y1, s, py, px + 2)
            &&& mean_of_lumas(e.y2, s, py + 2, px)
            &&& mean_of_lumas(e.y3, s, py + 2, px + 2)
            &&& (e.u, e.v) == (c.1, c.2)
        }),
{
    reveal(sampling::block1);
    mean_is_of_lumas(s, py, px);
    mean_is_of_lumas(s, py, px + 2);
    mean_is_of_lumas(s, py + 2, px);
    mean_is_of_lumas(s, py + 2, px + 2);
    square_sums(s, py, px);
    square_sums(s, py, px + 2);
    square_sums(s, py + 2, px);
    square_sums(s, py + 2, px + 2);
    assert(forall|c: int|
        0 <= c < 3 ==> #[trigger] sampling::sum4(s, py, px, c) == block_sum(s, py, px, c));
    assert(sampling::sum4(s, py, px, 0) / 16 == r);
    assert(sampling::sum4(s, py, px, 1) / 16 == g);
    assert(sampling::sum4(s, py, px, 2) / 16 == b);
}

/// The chromas of a sampled square are those of the mean of its four pixels.
pub proof fn square_chromas(s: SourceView, row: int, col: int)
    requires
        s.mode == PixelMode::Yuv12,
    ensures
        ({
            let e = sampling::quad_entry(s, row, col);
            chromas_near(
                e.u,
                e.v,
                4,
                square_sum(s, row, col, 0),
                square_sum(s, row, col, 1),
                square_sum(s, row, col, 2),
            )
        }),
{
    reveal(sampling::quad_entry);
    square_sums(s, row, col);
    mean_of_four(
        square_sum(s, row, col, 0),
        square_sum(s, row, col, 1),
        square_sum(s, row, col, 2),
    );
}

proof fn square_sums(s: SourceView, row: int, col: int)
    requires
        s.mode == PixelMode::Yuv12,
    ensures
        forall|c: int|
            0 <= c < 3 ==> #[trigger] sampling::sum2(s, row, col, c) == square_sum(s, row, col, c),
        forall|c: int| 0 <= c < 3 ==> 0 <= #[trigger] square_sum(s, row, col, c) <= 1020,
{
    offsets(s, row, col);
    offsets(s, row, col + 1);
    offsets(s, row + 1, col);
    offsets(s, row + 1, col + 1);
}

/// The chromas of a macroblock sampled as one entry are those of the mean of
/// its sixteen pixels.
pub proof fn whole_chromas(s: SourceView, px: int, py: int)
    requires
        s.mode == PixelMode::Yuv12,
    ensures
        ({
            let e = sampling::block1(s, px, py);
            chromas_near(
                e.u,
                e.v,
                16,
                block_sum(s, py, px, 0),
                block_sum(s, py, px, 1),
                block_sum(s, py, px, 2),
            )
        }),
{
    reveal(sampling::block1);
    square_sums(s, py, px);
    square_sums(s, py, px + 2);
    square_sums(s, py + 2, px);
    square_sums(s, py + 2, px + 2);
    assert(forall|c: int|
        0 <= c < 3 ==> #[trigger] sampling::sum4(s, py, px, c) == block_sum(s, py, px, c));
    mean_of_sixteen(block_sum(s, py, px, 0), block_sum(s, py, px, 1), block_sum(s, py, px, 2));
}

/// Whether a luma is the mean of those of two by two pixels, but for
/// rounding.
pub open spec fn mean_near(y: u8, s: SourceView, row: int, col: int) -> bool {
    let sum = brightness(s, row, col) + brightness(s, row, col + 1) + brightness(s, row + 1, col)
        + brightness(s, row + 1, col + 1);
    -41 <= 28 * y - sum <= 12
}

proof fn square_mean(s: SourceView, row: int, col: int)
    requires
        s.mode == PixelMode::Yuv12,
    ensures
        mean_near(sampling::mean_luma(s, row, col), s, row, col),
{
    pixel_luma(s, row, col);
    pixel_luma(s, row, col + 1);
    pixel_luma(s, row + 1, col);
    pixel_luma(s, row + 1, col + 1);
}

/// The lumas of a macroblock sampled as one entry are the means of its
/// quarters, from left to right and then downward.
pub proof fn whole_lumas(s: SourceView, px: int, py: int)
    requires
        s.mode == PixelMode::Yuv12,
    ensures
        ({
            let e = sampling::block1(s, px, py);
            &&& mean_near(e.y0, s, py, px)
            &&& mean_near(e.y1, s, py, px + 2)
            &&& mean_near(e.y2, s, py + 2, px)
            &&& mean_near(e.y3, s, py + 2, px + 2)
        }),
{
    reveal(sampling::block1);
    square_mean(s, py, px);
    square_mean(s, py, px + 2);
    square_mean(s, py + 2, px);
    square_mean(s, py + 2, px + 2);
}

/// Whether a byte is the mean of two by two bytes of a gray picture, rounded
/// down.
pub open spec fn gray_mean(y: u8, s: SourceView, row: int, col: int) -> bool {
    let sum = s.pixels[drawing::gray_at(s.width, row, col)] + s.pixels[drawing::gray_at(s.width, row, col + 1)]
        + s.pixels[drawing::gray_at(s.width, row + 1, col)] + s.pixels[drawing::gray_at(s.width, row + 1, col + 1)];
    4 * y <= sum < 4 * y + 4
}

/// The lumas of a gray macroblock sampled as one entry are the means of its
/// quarters, from left to right and then downward; it has no chromas.
pub proof fn gray_whole_lumas(s: SourceView, px: int, py: int)
    requires
        s.mode == PixelMode::Gray8,
    ensures
        ({
            let e = sampling::block1(s, px, py);
            &&& gray_mean(e.y0, s, py, px)
            &&& gray_mean(e.y1, s, py, px + 2)
            &&& gray_mean(e.y2, s, py + 2, px)
            &&& gray_mean(e.y3, s, py + 2, px + 2)
            &&& e.u == 0 && e.v == 0
        }),
{
    reveal(sampling::block1);
    gray_square_mean(s, py, px);
    gray_square_mean(s, py, px + 2);
    gray_square_mean(s, py + 2, px);
    gray_square_mean(s, py + 2, px + 2);
}

proof fn gray_square_mean(s: SourceView, row: int, col: int)
    requires
        s.mode == PixelMode::Gray8,
    ensures
        gray_mean(sampling::mean_luma(s, row, col), s, row, col),
{
    offsets(s, row, col);
    offsets(s, row, col + 1);
    offsets(s, row + 1, col);
    offsets(s, row + 1, col + 1);
}

/// The lumas of a sampled gray square are its pixels.
pub proof fn gray_square(s: SourceView, row: int, col: int)
    requires
        s.mode == PixelMode::Gray8,
    ensures
        ({
            let e = sampling::quad_entry(s, row, col);
            &&& e.y0 == s.pixels[drawing::gray_at(s.width, row, col)]
            &&& e.y1 == s.pixels[drawing::gray_at(s.width, row, col + 1)]
            &&& e.y2 == s.pixels[drawing::gray_at(s.width, row + 1, col)]
            &&& e.y3 == s.pixels[drawing::gray_at(s.width, row + 1, col + 1)]
            &&& e.u == 0 && e.v == 0
        }),
{
    reveal(sampling::quad_entry);
    offsets(s, row, col);
    offsets(s, row, col + 1);
    offsets(s, row + 1, col);
    offsets(s, row + 1, col + 1);
}

/// Whether four entries of a codebook are those that a macroblock was sampled
/// as.
pub open spec fn stands_for(v4: Seq<CodebookEntry>, x: [u8; 4], s: SourceView, px: int, py: int) -> bool {
    let q = sampling::block4(s, px, py);
    v4[x[0] as int] == q[0] && v4[x[1] as int] == q[1] && v4[x[2] as int] == q[2] && v4[x[3] as int]
        == q[3]
}

/// Drawing undoes sampling: a gray macroblock drawn with the four entries
/// that it was sampled as shows its own pixels, whatever they are.
pub proof fn gray_drawn_as_sampled(
    s: SourceView,
    out: Seq<u8>,
    a: Paint,
    x: [u8; 4],
    px: int,
    py: int,
    i: int,
    j: int,
)
    requires
        s.mode == PixelMode::Gray8,
        a.mode == PixelMode::Gray8,
        inside(s, px, py),
        out.len() == s.width * s.height,
        stands_for(a.v4, x, s, px, py),
        0 <= i < 4,
        0 <= j < 4,
    ensures
        decoder::draw_mb(out, s.width, a, Mb::V4(x), px, py)[drawing::gray_at(s.width, py + i, px + j)]
            == s.pixels[drawing::gray_at(s.width, py + i, px + j)],
{
    let p = i / 2;
    let q = j / 2;
    drawing::gray_quarter_shown(out, a, x, px, py, s.width, s.height, p, q);
    gray_square(s, py + 2 * p, px + 2 * q);
    assert(i == 2 * p || i == 2 * p + 1);
    assert(j == 2 * q || j == 2 * q + 1);
}

/// Whether a pixel of a colour picture is gray.
pub open spec fn gray_pixel(s: SourceView, row: int, col: int) -> bool {
    let at = drawing::colour_at(s.width, row, col);
    s.pixels[at] == s.pixels[at + 1] == s.pixels[at + 2]
}

/// Whether two by two pixels of a colour picture are gray.
pub open spec fn gray_squared(s: SourceView, row: int, col: int) -> bool {
    gray_pixel(s, row, col) && gray_pixel(s, row, col + 1) && gray_pixel(s, row + 1, col)
        && gray_pixel(s, row + 1, col + 1)
}

proof fn gray_pixel_luma(s: SourceView, row: int, col: int)
    requires
        s.mode == PixelMode::Yuv12,
        gray_pixel(s, row, col),
    ensures
        sampling::luma_at(s, row, col) == s.pixels[drawing::colour_at(s.width, row, col)],
{
    offsets(s, row, col);
    sampling::gray_has_no_chroma(s.pixels[drawing::colour_at(s.width, row, col)]);
}

/// The entry of gray pixels has their values for lumas, and no chromas.
proof fn gray_valued_square(s: SourceView, row: int, col: int)
    requires
        s.mode == PixelMode::Yuv12,
        gray_squared(s, row, col),
    ensures
        ({
            let e = sampling::quad_entry(s, row, col);
            &&& e.y0 == s.pixels[drawing::colour_at(s.width, row, col)]
            &&& e.y1 == s.pixels[drawing::colour_at(s.width, row, col + 1)]
            &&& e.y2 == s.pixels[drawing::colour_at(s.width, row + 1, col)]
            &&& e.y3 == s.pixels[drawing::colour_at(s.width, row + 1, col + 1)]
            &&& e.u == 0 && e.v == 0
        }),
{
    reveal(sampling::quad_entry);
    gray_pixel_luma(s, row, col);
    gray_pixel_luma(s, row, col + 1);
    gray_pixel_luma(s, row + 1, col);
    gray_pixel_luma(s, row + 1, col + 1);
    square_sums(s, row, col);
    let m = (square_sum(s, row, col, 0) / 4) as u8;
    assert(square_sum(s, row, col, 0) == square_sum(s, row, col, 1) && square_sum(s, row, col, 1)
        == square_sum(s, row, col, 2));
    sampling::gray_has_no_chroma(m);
}

/// Drawing undoes sampling: a colour macroblock of gray pixels, drawn with
/// the four entries that it was sampled as, shows its own pixels.
pub proof fn gray_colours_drawn_as_sampled(
    s: SourceView,
    out: Seq<u8>,
    a: Paint,
    x: [u8; 4],
    px: int,
    py: int,
    i: int,
    j: int,
    c: int,
)
    requires
        s.mode == PixelMode::Yuv12,
        a.mode == PixelMode::Yuv12,
        inside(s, px, py),
        out.len() == s.width * 3 * s.height,
        stands_for(a.v4, x, s, px, py),
        0 <= i < 4,
        0 <= j < 4,
        0 <= c < 3,
        gray_squared(s, py + 2 * (i / 2), px + 2 * (j / 2)),
    ensures
        decoder::draw_mb(out, s.width * 3, a, Mb::V4(x), px, py)[drawing::colour_at(s.width, py + i, px + j)
            + c] == s.pixels[drawing::colour_at(s.width, py + i, px + j) + c],
{
    let p = i / 2;
    let q = j / 2;
    drawing::colour_quarter_shown(out, a, x, px, py, s.width, s.height, p, q);
    gray_valued_square(s, py + 2 * p, px + 2 * q);
    assert(i == 2 * p || i == 2 * p + 1);
    assert(j == 2 * q || j == 2 * q + 1);
}

/// Whether two by two pixels have one colour.
pub open spec fn one_colour(s: SourceView, row: int, col: int) -> bool {
    forall|c: int|
        0 <= c < 3 ==> {
            let first = #[trigger] s.pixels[drawing::colour_at(s.width, row, col) + c];
            &&& s.pixels[drawing::colour_at(s.width, row, col + 1) + c] == first
            &&& s.pixels[drawing::colour_at(s.width, row + 1, col) + c] == first
            &&& s.pixels[drawing::colour_at(s.width, row + 1, col + 1) + c] == first
        }
}

proof fn one_coloured_square(s: SourceView, row: int, col: int)
    requires
        s.mode == PixelMode::Yuv12,
        one_colour(s, row, col),
    ensures
        ({
            let e = sampling::quad_entry(s, row, col);
            let at = drawing::colour_at(s.width, row, col);
            let c = sampling::yuv_of(s.pixels[at], s.pixels[at + 1], s.pixels[at + 2]);
            e == (CodebookEntry { y0: c.0, y1: c.0, y2: c.0, y3: c.0, u: c.1, v: c.2 })
        }),
{
    reveal(sampling::quad_entry);
    offsets(s, row, col);
    offsets(s, row, col + 1);
    offsets(s, row + 1, col);
    offsets(s, row + 1, col + 1);
    square_sums(s, row, col);
    let at = drawing::colour_at(s.width, row, col);
    assert(s.pixels[at + 0] == s.pixels[at]);
    assert(square_sum(s, row, col, 0) == 4 * s.pixels[at + 0]);
    assert(square_sum(s, row, col, 1) == 4 * s.pixels[at + 1]);
    assert(square_sum(s, row, col, 2) == 4 * s.pixels[at + 2]);
}

proof fn shown_comes_back(got: Seq<u8>, at: int, e: CodebookEntry, r: u8, g: u8, b: u8)
    requires
        drawing::coloured(got, at, e.y0, e.u, e.v),
        (e.y0, e.u, e.v) == sampling::yuv_of(r, g, b),
    ensures
        -1 <= got[at] - r <= 1,
        -2 <= got[at + 1] - g <= 2,
        -1 <= got[at + 2] - b <= 1,
{
    colours::colour_comes_back(r, g, b);
}

/// Drawing all but undoes sampling: where two by two pixels have one colour,
/// red and blue are off by one step at most, and green by two.
#[verifier::rlimit(50)]
#[verifier::spinoff_prover]
pub proof fn colours_drawn_as_sampled(
    s: SourceView,
    out: Seq<u8>,
    a: Paint,
    x: [u8; 4],
    px: int,
    py: int,
    i: int,
    j: int,
)
    requires
        s.mode == PixelMode::Yuv12,
        a.mode == PixelMode::Yuv12,
        inside(s, px, py),
        out.len() == s.width * 3 * s.height,
        stands_for(a.v4, x, s, px, py),
        0 <= i < 4,
        0 <= j < 4,
        one_colour(s, py + 2 * (i / 2), px + 2 * (j / 2)),
    ensures
        ({
            let got = decoder::draw_mb(out, s.width * 3, a, Mb::V4(x), px, py);
            let at = drawing::colour_at(s.width, py + i, px + j);
            &&& -1 <= got[at] - s.pixels[at] <= 1
            &&& -2 <= got[at + 1] - s.pixels[at + 1] <= 2
            &&& -1 <= got[at + 2] - s.pixels[at + 2] <= 1
        }),
{
    let p = i / 2;
    let q = j / 2;
    let first = drawing::colour_at(s.width, py + 2 * p, px + 2 * q);
    let at = drawing::colour_at(s.width, py + i, px + j);
    drawing::colour_quarter_shown(out, a, x, px, py, s.width, s.height, p, q);
    one_coloured_square(s, py + 2 * p, px + 2 * q);
    assert(i == 2 * p || i == 2 * p + 1);
    assert(j == 2 * q || j == 2 * q + 1);
    assert(s.pixels[first + 0] == s.pixels[at + 0]);
    assert(s.pixels[first + 1] == s.pixels[at + 1]);
    assert(s.pixels[first + 2] == s.pixels[at + 2]);
    let e = sampling::quad_entry(s, py + 2 * p, px + 2 * q);
    let got = decoder::draw_mb(out, s.width * 3, a, Mb::V4(x), px, py);
    assert(sampling::block4(s, px, py)[2 * p + q] == e);
    assert(a.v4[x[2 * p + q] as int] == e);
    assert(drawing::coloured(got, at, e.y0, e.u, e.v));
    shown_comes_back(got, at, e, s.pixels[first], s.pixels[first + 1], s.pixels[first + 2]);
}

/// Bytes per pixel of a picture.
pub open spec fn depth(s: SourceView) -> int {
    match s.mode {
        PixelMode::Yuv12 => 3,
        PixelMode::Gray8 => 1,
    }
}

/// By how much a byte of a picture differs from that of a plane: in row
/// `row`, the byte `k` after the start of column `col`.
pub open spec fn byte_gap(s: SourceView, p: PlaneView, row: int, col: int, k: int) -> int {
    s.pixels[row * (s.width * depth(s)) + col * depth(s) + k] - p.data[row * p.stride + col * depth(
        s,
    ) + k]
}

proof fn byte_offsets(s: SourceView, row: int, col: int)
    ensures
        sampling::pixel_offset(s, row, col) == row * (s.width * depth(s)) + col * depth(s),
        decoder::mode_bpp(s.mode) == depth(s),
{
    let w = s.width;
    let d = depth(s);
    assert((row * w + col) * d == row * (w * d) + col * d) by (nonlinear_arith);
}

proof fn row_gaps(s: SourceView, p: PlaneView, px: int, row: int, n: int, k: int)
    requires
        0 <= k < n,
    ensures
        byte_gap(s, p, row, px, k) * byte_gap(s, p, row, px, k) <= sampling::row_error(
            s,
            p,
            px,
            row,
            n,
        ),
        0 <= sampling::row_error(s, p, px, row, n),
    decreases n,
{
    let g = byte_gap(s, p, row, px, n - 1);
    colours::positive(g);
    byte_offsets(s, row, px);
    assert(sampling::row_error(s, p, px, row, n) == sampling::row_error(s, p, px, row, n - 1) + g
        * g);
    if n > 1 {
        row_gaps(s, p, px, row, n - 1, if k < n - 1 {
            k
        } else {
            0
        });
    }
}

/// A macroblock that is skipped is close to its picture in every byte: no
/// square of a difference reaches the threshold times the number of bytes.
pub proof fn still_is_close(
    s: SourceView,
    p: PlaneView,
    px: int,
    py: int,
    threshold: i64,
    i: int,
    k: int,
)
    requires
        sampling::still(s, p, px, py, threshold),
        0 <= i < 4,
        0 <= k < 4 * depth(s),
    ensures
        byte_gap(s, p, py + i, px, k) * byte_gap(s, p, py + i, px, k) * 65536 < threshold * (16
            * depth(s)),
{
    let n = 4 * depth(s);
    row_gaps(s, p, px, py, n, 0);
    row_gaps(s, p, px, py + 1, n, 0);
    row_gaps(s, p, px, py + 2, n, 0);
    row_gaps(s, p, px, py + 3, n, 0);
    row_gaps(s, p, px, py + i, n, k);
    reveal_with_fuel(sampling::block_error, 5);
}

proof fn small_row(s: SourceView, p: PlaneView, px: int, row: int, n: int, most: int)
    requires
        0 <= n,
        forall|k: int|
            0 <= k < n ==> (#[trigger] byte_gap(s, p, row, px, k)) * byte_gap(s, p, row, px, k)
                <= most,
    ensures
        sampling::row_error(s, p, px, row, n) <= n * most,
    decreases n,
{
    if n > 0 {
        small_row(s, p, px, row, n - 1, most);
        let g = byte_gap(s, p, row, px, n - 1);
        byte_offsets(s, row, px);
        assert(sampling::row_error(s, p, px, row, n) == sampling::row_error(s, p, px, row, n - 1) + g
            * g);
        assert(n * most == (n - 1) * most + most) by (nonlinear_arith);
    } else {
        assert(n * most == 0) by (nonlinear_arith)
            requires
                n == 0,
        ;
    }
}

/// A macroblock in which no square of a difference exceeds `most`, which
/// lies below the threshold, is skipped.
pub proof fn close_is_still(
    s: SourceView,
    p: PlaneView,
    px: int,
    py: int,
    threshold: i64,
    most: int,
)
    requires
        most * 65536 < threshold,
        forall|i: int, k: int|
            0 <= i < 4 && 0 <= k < 4 * depth(s) ==> (#[trigger] byte_gap(s, p, py + i, px, k))
                * byte_gap(s, p, py + i, px, k) <= most,
    ensures
        sampling::still(s, p, px, py, threshold),
{
    let n = 4 * depth(s);
    assert forall|i: int| 0 <= i < 4 implies #[trigger] sampling::row_error(s, p, px, py + i, n) <= n
        * most by {
        assert forall|k: int| 0 <= k < n implies (#[trigger] byte_gap(s, p, py + i, px, k))
            * byte_gap(s, p, py + i, px, k) <= most by {}
        small_row(s, p, px, py + i, n, most);
    }
    assert(sampling::row_error(s, p, px, py + 0, n) <= n * most);
    assert(sampling::row_error(s, p, px, py + 1, n) <= n * most);
    assert(sampling::row_error(s, p, px, py + 2, n) <= n * most);
    assert(sampling::row_error(s, p, px, py + 3, n) <= n * most);
    reveal_with_fuel(sampling::block_error, 5);
    assert(sampling::block_error(s, p, px, py, 4) <= 4 * (n * most));
    assert(4 * (n * most) * 65536 < threshold * (4 * n)) by (nonlinear_arith)
        requires
            most * 65536 < threshold,
            n > 0,
    ;
}

/// The macroblocks that a plan skips are close to the picture in every byte.
pub proof fn skipped_is_close(
    x: StripSource,
    o: EncoderOptions,
    seed4: Option<Seq<CodebookEntry>>,
    seed1: Option<Seq<CodebookEntry>>,
    m: int,
    i: int,
    k: int,
)
    requires
        planning::mb_total(x) >= 0,
        1 <= o.v4_entries <= 256,
        1 <= o.v1_entries <= 256,
        seed4 matches Some(s) ==> s.len() == 256,
        seed1 matches Some(s) ==> s.len() == 256,
        0 <= m < planning::strip_plan(x, o, seed4, seed1).mbs.len(),
        planning::strip_plan(x, o, seed4, seed1).mbs[m] is Skip,
        0 <= i < 4,
        0 <= k < 4 * depth(x.picture),
    ensures
        x.prev is Some,
        ({
            let cols = x.picture.width / 4;
            let gap = byte_gap(
                x.picture,
                x.prev->0,
                drawing::top_of(x.top, cols, m) + i,
                drawing::left_of(0, cols, m),
                k,
            );
            gap * gap * 65536 < x.threshold * (16 * depth(x.picture))
        }),
{
    planning::plan_is_in_range(x, o, seed4, seed1);
    let cols = x.picture.width / 4;
    assert(planning::skipped_at(x, m));
    still_is_close(
        x.picture,
        x.prev->0,
        drawing::left_of(0, cols, m),
        drawing::top_of(x.top, cols, m),
        x.threshold,
        i,
        k,
    );
}

/// A plan skips every macroblock in which no square of a difference exceeds
/// `most`, which lies below the threshold.
pub proof fn close_is_skipped(
    x: StripSource,
    o: EncoderOptions,
    seed4: Option<Seq<CodebookEntry>>,
    seed1: Option<Seq<CodebookEntry>>,
    m: int,
    most: int,
)
    requires
        planning::mb_total(x) >= 0,
        1 <= o.v4_entries <= 256,
        1 <= o.v1_entries <= 256,
        seed4 matches Some(s) ==> s.len() == 256,
        seed1 matches Some(s) ==> s.len() == 256,
        0 <= m < planning::strip_plan(x, o, seed4, seed1).mbs.len(),
        x.prev is Some,
        most * 65536 < x.threshold,
        forall|i: int, k: int|
            0 <= i < 4 && 0 <= k < 4 * depth(x.picture) ==> {
                let gap = #[trigger] byte_gap(
                    x.picture,
                    x.prev->0,
                    drawing::top_of(x.top, x.picture.width / 4, m) + i,
                    drawing::left_of(0, x.picture.width / 4, m),
                    k,
                );
                gap * gap <= most
            },
    ensures
        planning::strip_plan(x, o, seed4, seed1).mbs[m] is Skip,
{
    planning::plan_is_in_range(x, o, seed4, seed1);
    let cols = x.picture.width / 4;
    close_is_still(
        x.picture,
        x.prev->0,
        drawing::left_of(0, cols, m),
        drawing::top_of(x.top, cols, m),
        x.threshold,
        most,
    );
    assert(planning::skipped_at(x, m));
}

} // verus!
