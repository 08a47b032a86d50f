//! Pixels of a picture as codebook entries.

use vstd::prelude::*;
use crate::codebook::{CodebookEntry, PixelMode};
use crate::decoder;
use crate::image::{CinepakPlane, PlaneView};
use crate::quant;

verus! {

/// One, as a number with sixteen fractional bits.
pub const FIXED_ONE: i64 = 65536;

/// A picture to encode: packed `R, G, B` bytes, or one byte per pixel, row by
/// row.
#[derive(Clone, Copy)]
pub struct Source<'a> {
    pub pixels: &'a [u8],
    pub width: u32,
    pub height: u32,
    pub mode: PixelMode,
}

/// A [`Source`] as mathematical values.
pub struct SourceView {
    pub pixels: Seq<u8>,
    pub width: int,
    pub height: int,
    pub mode: PixelMode,
}

impl<'a> View for Source<'a> {
    type V = SourceView;

    open spec fn view(&self) -> SourceView {
        SourceView {
            pixels: self.pixels@,
            width: self.width as int,
            height: self.height as int,
            mode: self.mode,
        }
    }
}

/// Number of bytes in a picture.
pub open spec fn picture_len(width: int, height: int, mode: PixelMode) -> int {
    width * height * decoder::mode_bpp(mode)
}

/// Whether a picture's bytes are all there.
pub open spec fn holds(s: SourceView) -> bool {
    &&& 0 <= s.width
    &&& 0 <= s.height
    &&& picture_len(s.width, s.height, s.mode) <= s.pixels.len()
}

/// Where a pixel starts.
pub open spec fn pixel_offset(s: SourceView, row: int, col: int) -> int {
    (row * s.width + col) * decoder::mode_bpp(s.mode)
}

/// Channel `c` of a pixel.
pub open spec fn sample(s: SourceView, row: int, col: int, c: int) -> u8 {
    s.pixels[pixel_offset(s, row, col) + c]
}

/// A number kept in the range of a chroma.
pub open spec fn to_chroma(x: int) -> i8 {
    if x < -128 {
        -128i8
    } else if x > 127 {
        127
    } else {
        x as i8
    }
}

/// A colour as luma and two chromas: the luma rounded to nearest, and half the
/// differences to it rounded toward zero. Pure green and pure blue have fixed
/// values, each one step away from that in one component.
pub open spec fn yuv_of(r: u8, g: u8, b: u8) -> (u8, i8, i8) {
    let y = (2 * r + 4 * g + b + 3) / 7;
    if r == 0 && g == 255 && b == 0 {
        (145, -73i8, -73i8)
    } else if r == 0 && g == 0 && b == 255 {
        (36, 110, -18i8)
    } else {
        (y as u8, to_chroma(quant::toward_zero(b - y, 2)), to_chroma(quant::toward_zero(r - y, 2)))
    }
}

fn into_chroma(x: i32) -> (r: i8)
    ensures
        r == to_chroma(x as int),
{
    if x < -128 {
        -128
    } else if x > 127 {
        127
    } else {
        x as i8
    }
}

fn half_toward_zero(x: i32) -> (r: i32)
    requires
        -255 <= x <= 255,
    ensures
        r == quant::toward_zero(x as int, 2),
{
    if x < 0 {
        -((-x) / 2)
    } else {
        x / 2
    }
}

/// Converts a colour to luma and two chromas.
pub fn rgb_to_yuv(r: u8, g: u8, b: u8) -> (out: (u8, i8, i8))
    ensures
        out == yuv_of(r, g, b),
{
    if r == 0 && g == 255 && b == 0 {
        return (145, -73, -73);
    }
    if r == 0 && g == 0 && b == 255 {
        return (36, 110, -18);
    }
    let y: i32 = (2 * r as i32 + 4 * g as i32 + b as i32 + 3) / 7;
    (
        y as u8,
        into_chroma(half_toward_zero(b as i32 - y)),
        into_chroma(half_toward_zero(r as i32 - y)),
    )
}

/// The luma of a pixel.
pub open spec fn luma_at(s: SourceView, row: int, col: int) -> u8 {
    match s.mode {
        PixelMode::Yuv12 => yuv_of(
            sample(s, row, col, 0),
            sample(s, row, col, 1),
            sample(s, row, col, 2),
        ).0,
        PixelMode::Gray8 => sample(s, row, col, 0),
    }
}

/// The sum of channel `c` over two by two pixels.
pub open spec fn sum2(s: SourceView, row: int, col: int, c: int) -> int {
    sample(s, row, col, c) + sample(s, row, col + 1, c) + sample(s, row + 1, col, c) + sample(
        s,
        row + 1,
        col + 1,
        c,
    )
}

/// The sum of channel `c` over four by four pixels.
pub open spec fn sum4(s: SourceView, row: int, col: int, c: int) -> int {
    sum2(s, row, col, c) + sum2(s, row, col + 2, c) + sum2(s, row + 2, col, c) + sum2(
        s,
        row + 2,
        col + 2,
        c,
    )
}

/// The mean of the lumas of two by two pixels.
pub open spec fn mean_luma(s: SourceView, row: int, col: int) -> u8 {
    ((luma_at(s, row, col) + luma_at(s, row, col + 1) + luma_at(s, row + 1, col) + luma_at(
        s,
        row + 1,
        col + 1,
    )) / 4) as u8
}

/// Two by two pixels as an entry: each luma, and the chromas of the mean
/// colour.
#[verifier::opaque]
pub open spec fn quad_entry(s: SourceView, row: int, col: int) -> CodebookEntry {
    let (u, v) = match s.mode {
        PixelMode::Yuv12 => {
            let c = yuv_of(
                (sum2(s, row, col, 0) / 4) as u8,
                (sum2(s, row, col, 1) / 4) as u8,
                (sum2(s, row, col, 2) / 4) as u8,
            );
            (c.1, c.2)
        },
        PixelMode::Gray8 => (0i8, 0i8),
    };
    CodebookEntry {
        y0: luma_at(s, row, col),
        y1: luma_at(s, row, col + 1),
        y2: luma_at(s, row + 1, col),
        y3: luma_at(s, row + 1, col + 1),
        u,
        v,
    }
}

/// Four by four pixels as four entries: the quarters from left to right, the
/// upper ones first.
pub open spec fn block4(s: SourceView, px: int, py: int) -> Seq<CodebookEntry> {
    seq![
        quad_entry(s, py, px),
        quad_entry(s, py, px + 2),
        quad_entry(s, py + 2, px),
        quad_entry(s, py + 2, px + 2),
    ]
}

/// Four by four pixels as one entry: the mean luma of each quarter, and the
/// chromas of the mean colour.
#[verifier::opaque]
pub open spec fn block1(s: SourceView, px: int, py: int) -> CodebookEntry {
    let (u, v) = match s.mode {
        PixelMode::Yuv12 => {
            let c = yuv_of(
                (sum4(s, py, px, 0) / 16) as u8,
                (sum4(s, py, px, 1) / 16) as u8,
                (sum4(s, py, px, 2) / 16) as u8,
            );
            (c.1, c.2)
        },
        PixelMode::Gray8 => (0i8, 0i8),
    };
    CodebookEntry {
        y0: mean_luma(s, py, px),
        y1: mean_luma(s, py, px + 2),
        y2: mean_luma(s, py + 2, px),
        y3: mean_luma(s, py + 2, px + 2),
        u,
        v,
    }
}

pub(crate) proof fn pixel_inside(s: SourceView, row: int, col: int)
    requires
        holds(s),
        0 <= row < s.height,
        0 <= col < s.width,
    ensures
        0 <= row * s.width,
        0 <= row * s.width + col,
        0 <= pixel_offset(s, row, col),
        pixel_offset(s, row, col) + decoder::mode_bpp(s.mode) <= s.pixels.len(),
{
    let bpp = decoder::mode_bpp(s.mode) as int;
    let at = row * s.width + col;
    let all = s.width * s.height;
    assert(0 <= row * s.width && at + 1 <= all) by (nonlinear_arith)
        requires
            0 <= row < s.height,
            0 <= col < s.width,
            at == row * s.width + col,
            all == s.width * s.height,
    ;
    assert(0 <= at * bpp && at * bpp + bpp <= all * bpp) by (nonlinear_arith)
        requires
            0 <= at,
            at + 1 <= all,
            0 <= bpp,
    ;
}

impl<'a> Source<'a> {
    pub(crate) fn bytes_per_pixel(&self) -> (r: usize)
        ensures
            r == decoder::mode_bpp(self.mode),
            1 <= r <= 3,
    {
        match self.mode {
            PixelMode::Yuv12 => 3,
            PixelMode::Gray8 => 1,
        }
    }

    fn at(&self, row: usize, col: usize, c: usize) -> (r: u8)
        requires
            holds(self@),
            row < self.height,
            col < self.width,
            c < decoder::mode_bpp(self.mode),
        ensures
            r == sample(self@, row as int, col as int, c as int),
    {
        let total: usize = self.pixels.len();
        let bpp: usize = self.bytes_per_pixel();
        proof {
            pixel_inside(self@, row as int, col as int);
            let at = row * self.width + col;
            assert(at <= at * bpp) by (nonlinear_arith)
                requires
                    0 <= at,
                    1 <= bpp,
            ;
            assert(at * bpp + c < total);
        }
        self.pixels[(row * self.width as usize + col) * bpp + c]
    }

    fn luma(&self, row: usize, col: usize) -> (r: u8)
        requires
            holds(self@),
            row < self.height,
            col < self.width,
        ensures
            r == luma_at(self@, row as int, col as int),
    {
        match self.mode {
            PixelMode::Yuv12 => {
                let (y, _, _) = rgb_to_yuv(
                    self.at(row, col, 0),
                    self.at(row, col, 1),
                    self.at(row, col, 2),
                );
                y
            },
            PixelMode::Gray8 => self.at(row, col, 0),
        }
    }

    fn quad_sum(&self, row: usize, col: usize, c: usize) -> (r: u32)
        requires
            holds(self@),
            row + 1 < self.height,
            col + 1 < self.width,
            c < decoder::mode_bpp(self.mode),
        ensures
            r == sum2(self@, row as int, col as int, c as int),
            r <= 1020,
    {
        self.at(row, col, c) as u32 + self.at(row, col + 1, c) as u32 + self.at(
            row + 1,
            col,
            c,
        ) as u32 + self.at(row + 1, col + 1, c) as u32
    }

    fn block_sum(&self, row: usize, col: usize, c: usize) -> (r: u32)
        requires
            holds(self@),
            row + 3 < self.height,
            col + 3 < self.width,
            c < decoder::mode_bpp(self.mode),
        ensures
            r == sum4(self@, row as int, col as int, c as int),
            r <= 4080,
    {
        self.quad_sum(row, col, c) + self.quad_sum(row, col + 2, c) + self.quad_sum(
            row + 2,
            col,
            c,
        ) + self.quad_sum(row + 2, col + 2, c)
    }

    fn quad_luma(&self, row: usize, col: usize) -> (r: u8)
        requires
            holds(self@),
            row + 1 < self.height,
            col + 1 < self.width,
        ensures
            r == mean_luma(self@, row as int, col as int),
    {
        let sum: u32 = self.luma(row, col) as u32 + self.luma(row, col + 1) as u32 + self.luma(
            row + 1,
            col,
        ) as u32 + self.luma(row + 1, col + 1) as u32;
        (sum / 4) as u8
    }

    fn quad(&self, row: usize, col: usize) -> (r: CodebookEntry)
        requires
            holds(self@),
            row + 1 < self.height,
            col + 1 < self.width,
        ensures
            r == quad_entry(self@, row as int, col as int),
    {
        proof {
            reveal(quad_entry);
        }
        let (u, v) = match self.mode {
            PixelMode::Yuv12 => {
                let (_, u, v) = rgb_to_yuv(
                    (self.quad_sum(row, col, 0) / 4) as u8,
                    (self.quad_sum(row, col, 1) / 4) as u8,
                    (self.quad_sum(row, col, 2) / 4) as u8,
                );
                (u, v)
            },
            PixelMode::Gray8 => (0i8, 0i8),
        };
        CodebookEntry {
            y0: self.luma(row, col),
            y1: self.luma(row, col + 1),
            y2: self.luma(row + 1, col),
            y3: self.luma(row + 1, col + 1),
            u,
            v,
        }
    }

    /// The macroblock at `(px, py)` as four entries.
    pub fn sample_v4_block(&self, px: usize, py: usize) -> (r: [CodebookEntry; 4])
        requires
            holds(self@),
            px + 3 < self.width,
            py + 3 < self.height,
        ensures
            r@ == block4(self@, px as int, py as int),
    {
        let r = [
            self.quad(py, px),
            self.quad(py, px + 2),
            self.quad(py + 2, px),
            self.quad(py + 2, px + 2),
        ];
        assert(r@ =~= block4(self@, px as int, py as int));
        r
    }

    /// The macroblock at `(px, py)` as one entry.
    pub fn sample_v1_block(&self, px: usize, py: usize) -> (r: CodebookEntry)
        requires
            holds(self@),
            px + 3 < self.width,
            py + 3 < self.height,
        ensures
            r == block1(self@, px as int, py as int),
    {
        proof {
            reveal(block1);
        }
        let (u, v) = match self.mode {
            PixelMode::Yuv12 => {
                let (_, u, v) = rgb_to_yuv(
                    (self.block_sum(py, px, 0) / 16) as u8,
                    (self.block_sum(py, px, 1) / 16) as u8,
                    (self.block_sum(py, px, 2) / 16) as u8,
                );
                (u, v)
            },
            PixelMode::Gray8 => (0i8, 0i8),
        };
        CodebookEntry {
            y0: self.quad_luma(py, px),
            y1: self.quad_luma(py, px + 2),
            y2: self.quad_luma(py + 2, px),
            y3: self.quad_luma(py + 2, px + 2),
            u,
            v,
        }
    }
}

/// Whether a plane has all the bytes of a picture of the given size.
pub open spec fn plane_covers(p: PlaneView, width: int, height: int, bpp: int) -> bool {
    height <= 0 || (height - 1) * p.stride + width * bpp <= p.data.len()
}

/// The sum of the squared differences of the first `k` bytes of four pixels
/// in a row from those of a plane.
pub open spec fn row_error(s: SourceView, p: PlaneView, px: int, row: int, k: int) -> int
    decreases k,
{
    if k <= 0 {
        0
    } else {
        row_error(s, p, px, row, k - 1) + quant::sq(
            s.pixels[pixel_offset(s, row, px) + (k - 1)] - p.data[row * p.stride + px * decoder::mode_bpp(
                s.mode,
            ) + (k - 1)],
        )
    }
}

/// The sum of the squared differences of the first `rows` rows of four by
/// four pixels from those of a plane.
pub open spec fn block_error(s: SourceView, p: PlaneView, px: int, py: int, rows: int) -> int
    decreases rows,
{
    if rows <= 0 {
        0
    } else {
        block_error(s, p, px, py, rows - 1) + row_error(
            s,
            p,
            px,
            py + (rows - 1),
            4 * decoder::mode_bpp(s.mode) as int,
        )
    }
}

/// Whether the mean squared difference of a macroblock from the previous
/// frame lies below a threshold with sixteen fractional bits.
pub open spec fn still(s: SourceView, p: PlaneView, px: int, py: int, threshold: i64) -> bool {
    block_error(s, p, px, py, 4) * FIXED_ONE < threshold * (16 * decoder::mode_bpp(s.mode))
}

pub(crate) proof fn plane_inside(p: PlaneView, width: int, height: int, bpp: int, row: int, px: int)
    requires
        plane_covers(p, width, height, bpp),
        0 <= row < height,
        0 <= px,
        px + 4 <= width,
        1 <= bpp,
    ensures
        0 <= row * p.stride,
        0 <= px * bpp,
        row * p.stride + px * bpp + 4 * bpp <= p.data.len(),
{
    assert(0 <= row * p.stride && row * p.stride <= (height - 1) * p.stride) by (nonlinear_arith)
        requires
            0 <= row <= height - 1,
            0 <= p.stride,
    ;
    assert(0 <= px * bpp && px * bpp + 4 * bpp <= width * bpp) by (nonlinear_arith)
        requires
            0 <= px,
            px + 4 <= width,
            1 <= bpp,
    ;
}

fn difference_squared(a: u8, b: u8) -> (r: i64)
    ensures
        r == quant::sq(a - b),
        0 <= r <= 65025,
{
    let d: i64 = a as i64 - b as i64;
    assert(0 <= d * d <= 65025) by (nonlinear_arith)
        requires
            -255 <= d <= 255,
    ;
    d * d
}

impl<'a> Source<'a> {
    fn row_difference(&self, p: &CinepakPlane, px: usize, row: usize) -> (r: i64)
        requires
            holds(self@),
            plane_covers(
                p@,
                self.width as int,
                self.height as int,
                decoder::mode_bpp(self.mode) as int,
            ),
            px + 4 <= self.width,
            row < self.height,
        ensures
            r == row_error(self@, p@, px as int, row as int, 4 * decoder::mode_bpp(self.mode) as int),
            0 <= r <= 780300,
    {
        let bpp: usize = self.bytes_per_pixel();
        let total: usize = self.pixels.len();
        let ptotal: usize = p.data.len();
        let ghost w = self.width as int;
        proof {
            pixel_inside(self@, row as int, px as int);
            pixel_inside(self@, row as int, px + 3);
            plane_inside(p@, w, self.height as int, bpp as int, row as int, px as int);
            let at = row * w + px;
            assert(at <= at * bpp) by (nonlinear_arith)
                requires
                    0 <= at,
                    1 <= bpp,
            ;
            assert((at + 3) * bpp == at * bpp + 3 * bpp) by (nonlinear_arith);
            assert(row * w + (px + 3) == at + 3);
        }
        let src: usize = (row * self.width as usize + px) * bpp;
        let prev: usize = row * p.stride + px * bpp;
        let n: usize = 4 * bpp;
        let mut sum: i64 = 0;
        let mut k: usize = 0;
        while k < n
            invariant
                k <= n <= 12,
                src == pixel_offset(self@, row as int, px as int),
                prev == row * p@.stride + px * decoder::mode_bpp(self.mode),
                src + n <= self.pixels@.len(),
                prev + n <= p.data@.len(),
                total == self.pixels@.len(),
                ptotal == p.data@.len(),
                sum == row_error(self@, p@, px as int, row as int, k as int),
                0 <= sum <= k * 65025,
            decreases n - k,
        {
            sum = sum + difference_squared(self.pixels[src + k], p.data[prev + k]);
            k = k + 1;
        }
        sum
    }

    fn block_difference(&self, p: &CinepakPlane, px: usize, py: usize) -> (r: i64)
        requires
            holds(self@),
            plane_covers(
                p@,
                self.width as int,
                self.height as int,
                decoder::mode_bpp(self.mode) as int,
            ),
            px + 4 <= self.width,
            py + 4 <= self.height,
        ensures
            r == block_error(self@, p@, px as int, py as int, 4),
            0 <= r <= 3121200,
    {
        let mut sum: i64 = 0;
        let mut i: usize = 0;
        while i < 4
            invariant
                i <= 4,
                holds(self@),
                plane_covers(
                    p@,
                    self.width as int,
                    self.height as int,
                    decoder::mode_bpp(self.mode) as int,
                ),
                px + 4 <= self.width,
                py + 4 <= self.height,
                sum == block_error(self@, p@, px as int, py as int, i as int),
                0 <= sum <= i * 780300,
            decreases 4 - i,
        {
            sum = sum + self.row_difference(p, px, py + i);
            i = i + 1;
        }
        sum
    }

    /// Whether the macroblock at `(px, py)` differs so little from a plane of
    /// the previous frame that it can be skipped.
    pub fn matches_previous(&self, p: &CinepakPlane, px: usize, py: usize, threshold: i64) -> (r:
        bool)
        requires
            holds(self@),
            plane_covers(
                p@,
                self.width as int,
                self.height as int,
                decoder::mode_bpp(self.mode) as int,
            ),
            px + 4 <= self.width,
            py + 4 <= self.height,
        ensures
            r == still(self@, p@, px as int, py as int, threshold),
    {
        let e: i64 = self.block_difference(p, px, py);
        let n: i128 = 16 * self.bytes_per_pixel() as i128;
        assert(-48 * 0x8000000000000000 <= threshold * n <= 48 * 0x7fffffffffffffff)
            by (nonlinear_arith)
            requires
                0 <= n <= 48,
                -0x8000000000000000 <= threshold <= 0x7fffffffffffffff,
        ;
        (e as i128) * (FIXED_ONE as i128) < (threshold as i128) * n
    }
}

/// A macroblock that equals the previous frame's is skipped under every
/// positive threshold.
pub proof fn equal_blocks_are_still(
    s: SourceView,
    p: PlaneView,
    px: int,
    py: int,
    threshold: i64,
)
    requires
        threshold > 0,
        forall|i: int, k: int|
            #![trigger s.pixels[pixel_offset(s, py + i, px) + k]]
            0 <= i < 4 && 0 <= k < 4 * decoder::mode_bpp(s.mode) ==> s.pixels[pixel_offset(s, py + i, px)
                + k] == p.data[(py + i) * p.stride + px * decoder::mode_bpp(s.mode) + k],
    ensures
        still(s, p, px, py, threshold),
{
    let n = 4 * decoder::mode_bpp(s.mode) as int;
    equal_rows(s, p, px, py, 0, n);
    equal_rows(s, p, px, py, 1, n);
    equal_rows(s, p, px, py, 2, n);
    equal_rows(s, p, px, py, 3, n);
    reveal_with_fuel(block_error, 5);
    assert(threshold * (16 * decoder::mode_bpp(s.mode)) > 0) by (nonlinear_arith)
        requires
            threshold > 0,
            decoder::mode_bpp(s.mode) >= 1,
    ;
}

proof fn equal_rows(s: SourceView, p: PlaneView, px: int, py: int, i: int, k: int)
    requires
        0 <= i < 4,
        0 <= k <= 4 * decoder::mode_bpp(s.mode),
        forall|i: int, k: int|
            #![trigger s.pixels[pixel_offset(s, py + i, px) + k]]
            0 <= i < 4 && 0 <= k < 4 * decoder::mode_bpp(s.mode) ==> s.pixels[pixel_offset(s, py + i, px)
                + k] == p.data[(py + i) * p.stride + px * decoder::mode_bpp(s.mode) + k],
    ensures
        row_error(s, p, px, py + i, k) == 0,
    decreases k,
{
    if k > 0 {
        equal_rows(s, p, px, py, i, k - 1);
        let j = k - 1;
        assert(s.pixels[pixel_offset(s, py + i, px) + j] == p.data[(py + i) * p.stride + px
            * decoder::mode_bpp(s.mode) + j]);
    }
}

/// A gray colour has no chroma, and its luma is its brightness.
pub proof fn gray_has_no_chroma(x: u8)
    ensures
        yuv_of(x, x, x) == (x, 0i8, 0i8),
{
}

} // verus!
