//! What decoded pictures show, pixel by pixel.

use vstd::prelude::*;
use crate::codebook::{CodebookEntry, PixelMode};
use crate::colours;
use crate::decoder::{self, Paint};
use crate::image;
use crate::vector::Mb;
use crate::yuv;

verus! {

/// Whether a pixel has the colour of a luma and two chromas.
pub open spec fn coloured(out: Seq<u8>, at: int, y: u8, u: i8, v: i8) -> bool {
    &&& colours::nearest_byte(out[at], y + 2 * v)
    &&& colours::nearest_byte(
        out[at + 1],
        y - v - if u >= 0 {
            u as int / 2
        } else {
            (u + 1) / 2
        },
    )
    &&& colours::nearest_byte(out[at + 2], y + 2 * u)
}

/// Where the pixel in row `row` and column `col` of a gray picture stands.
pub open spec fn gray_at(w: int, row: int, col: int) -> int {
    row * w + col
}

/// Where the pixel in row `row` and column `col` of a colour picture starts.
pub open spec fn colour_at(w: int, row: int, col: int) -> int {
    row * (w * 3) + col * 3
}

/// A gray macroblock of four entries shows each of them in one quarter, from
/// left to right and then downward, and each entry's four lumas in the same
/// order.
pub proof fn gray_quarter_shown(
    out: Seq<u8>,
    a: Paint,
    x: [u8; 4],
    px: int,
    py: int,
    w: int,
    h: int,
    i: int,
    j: int,
)
    requires
        a.mode == PixelMode::Gray8,
        0 <= px && px + 4 <= w,
        0 <= py && py + 4 <= h,
        out.len() == w * h,
        0 <= i < 2,
        0 <= j < 2,
    ensures
        ({
            let got = decoder::draw_mb(out, w, a, Mb::V4(x), px, py);
            let e = a.v4[x[2 * i + j] as int];
            &&& got[gray_at(w, py + 2 * i, px + 2 * j)] == e.y0
            &&& got[gray_at(w, py + 2 * i, px + 2 * j + 1)] == e.y1
            &&& got[gray_at(w, py + 2 * i + 1, px + 2 * j)] == e.y2
            &&& got[gray_at(w, py + 2 * i + 1, px + 2 * j + 1)] == e.y3
        }),
{
    decoder::drawn_pixel(out, a, Mb::V4(x), px, py, w, h, 2 * i, 2 * j);
    decoder::drawn_pixel(out, a, Mb::V4(x), px, py, w, h, 2 * i, 2 * j + 1);
    decoder::drawn_pixel(out, a, Mb::V4(x), px, py, w, h, 2 * i + 1, 2 * j);
    decoder::drawn_pixel(out, a, Mb::V4(x), px, py, w, h, 2 * i + 1, 2 * j + 1);
}

/// A gray macroblock of one entry shows each of its lumas over one quarter,
/// from left to right and then downward.
pub proof fn gray_whole_shown(
    out: Seq<u8>,
    a: Paint,
    x: u8,
    px: int,
    py: int,
    w: int,
    h: int,
    i: int,
    j: int,
)
    requires
        a.mode == PixelMode::Gray8,
        0 <= px && px + 4 <= w,
        0 <= py && py + 4 <= h,
        out.len() == w * h,
        0 <= i < 2,
        0 <= j < 2,
    ensures
        ({
            let got = decoder::draw_mb(out, w, a, Mb::V1(x), px, py);
            let e = a.v1[x as int];
            &&& got[gray_at(w, py + i, px + j)] == e.y0
            &&& got[gray_at(w, py + i, px + j + 2)] == e.y1
            &&& got[gray_at(w, py + i + 2, px + j)] == e.y2
            &&& got[gray_at(w, py + i + 2, px + j + 2)] == e.y3
        }),
{
    decoder::drawn_pixel(out, a, Mb::V1(x), px, py, w, h, i, j);
    decoder::drawn_pixel(out, a, Mb::V1(x), px, py, w, h, i, j + 2);
    decoder::drawn_pixel(out, a, Mb::V1(x), px, py, w, h, i + 2, j);
    decoder::drawn_pixel(out, a, Mb::V1(x), px, py, w, h, i + 2, j + 2);
    assert(i / 2 * 2 + j / 2 == 0);
    assert(i / 2 * 2 + (j + 2) / 2 == 1);
    assert((i + 2) / 2 * 2 + j / 2 == 2);
    assert((i + 2) / 2 * 2 + (j + 2) / 2 == 3);
}

proof fn has_colour(out: Seq<u8>, at: int, y: u8, u: i8, v: i8)
    requires
        out[at] == decoder::channel(yuv::rgb_of(y, u, v), 0),
        out[at + 1] == decoder::channel(yuv::rgb_of(y, u, v), 1),
        out[at + 2] == decoder::channel(yuv::rgb_of(y, u, v), 2),
    ensures
        coloured(out, at, y, u, v),
{
}

proof fn v4_pixel(
    out: Seq<u8>,
    a: Paint,
    x: [u8; 4],
    px: int,
    py: int,
    w: int,
    h: int,
    i: int,
    j: int,
)
    requires
        a.mode == PixelMode::Yuv12,
        0 <= px && px + 4 <= w,
        0 <= py && py + 4 <= h,
        out.len() == w * 3 * h,
        0 <= i < 4,
        0 <= j < 4,
    ensures
        ({
            let e = a.v4[x[i / 2 * 2 + j / 2] as int];
            coloured(
                decoder::draw_mb(out, w * 3, a, Mb::V4(x), px, py),
                colour_at(w, py + i, px + j),
                yuv::luma(e, i % 2 * 2 + j % 2),
                e.u,
                e.v,
            )
        }),
{
    decoder::v4_drawn_as_expanded(out, a, x, px, py, w, h, i, j, 0);
    decoder::v4_drawn_as_expanded(out, a, x, px, py, w, h, i, j, 1);
    decoder::v4_drawn_as_expanded(out, a, x, px, py, w, h, i, j, 2);
    let e = a.v4[x[i / 2 * 2 + j / 2] as int];
    has_colour(
        decoder::draw_mb(out, w * 3, a, Mb::V4(x), px, py),
        colour_at(w, py + i, px + j),
        yuv::luma(e, i % 2 * 2 + j % 2),
        e.u,
        e.v,
    );
}

proof fn v1_pixel(
    out: Seq<u8>,
    a: Paint,
    x: u8,
    px: int,
    py: int,
    w: int,
    h: int,
    i: int,
    j: int,
)
    requires
        a.mode == PixelMode::Yuv12,
        0 <= px && px + 4 <= w,
        0 <= py && py + 4 <= h,
        out.len() == w * 3 * h,
        0 <= i < 4,
        0 <= j < 4,
    ensures
        ({
            let e = a.v1[x as int];
            coloured(
                decoder::draw_mb(out, w * 3, a, Mb::V1(x), px, py),
                colour_at(w, py + i, px + j),
                yuv::luma(e, i / 2 * 2 + j / 2),
                e.u,
                e.v,
            )
        }),
{
    decoder::v1_drawn_as_expanded(out, a, x, px, py, w, h, i, j, 0);
    decoder::v1_drawn_as_expanded(out, a, x, px, py, w, h, i, j, 1);
    decoder::v1_drawn_as_expanded(out, a, x, px, py, w, h, i, j, 2);
    let e = a.v1[x as int];
    has_colour(
        decoder::draw_mb(out, w * 3, a, Mb::V1(x), px, py),
        colour_at(w, py + i, px + j),
        yuv::luma(e, i / 2 * 2 + j / 2),
        e.u,
        e.v,
    );
}

/// A colour macroblock of four entries shows each of them in one quarter,
/// from left to right and then downward, and each entry's four lumas in the
/// same order, with its chromas.
pub proof fn colour_quarter_shown(
    out: Seq<u8>,
    a: Paint,
    x: [u8; 4],
    px: int,
    py: int,
    w: int,
    h: int,
    i: int,
    j: int,
)
    requires
        a.mode == PixelMode::Yuv12,
        0 <= px && px + 4 <= w,
        0 <= py && py + 4 <= h,
        out.len() == w * 3 * h,
        0 <= i < 2,
        0 <= j < 2,
    ensures
        ({
            let got = decoder::draw_mb(out, w * 3, a, Mb::V4(x), px, py);
            let e = a.v4[x[2 * i + j] as int];
            &&& coloured(got, colour_at(w, py + 2 * i, px + 2 * j), e.y0, e.u, e.v)
            &&& coloured(got, colour_at(w, py + 2 * i, px + 2 * j + 1), e.y1, e.u, e.v)
            &&& coloured(got, colour_at(w, py + 2 * i + 1, px + 2 * j), e.y2, e.u, e.v)
            &&& coloured(got, colour_at(w, py + 2 * i + 1, px + 2 * j + 1), e.y3, e.u, e.v)
        }),
{
    v4_pixel(out, a, x, px, py, w, h, 2 * i, 2 * j);
    v4_pixel(out, a, x, px, py, w, h, 2 * i, 2 * j + 1);
    v4_pixel(out, a, x, px, py, w, h, 2 * i + 1, 2 * j);
    v4_pixel(out, a, x, px, py, w, h, 2 * i + 1, 2 * j + 1);
}

/// A colour macroblock of one entry shows each of its lumas over one quarter,
/// from left to right and then downward, with its chromas.
pub proof fn colour_whole_shown(
    out: Seq<u8>,
    a: Paint,
    x: u8,
    px: int,
    py: int,
    w: int,
    h: int,
    i: int,
    j: int,
)
    requires
        a.mode == PixelMode::Yuv12,
        0 <= px && px + 4 <= w,
        0 <= py && py + 4 <= h,
        out.len() == w * 3 * h,
        0 <= i < 2,
        0 <= j < 2,
    ensures
        ({
            let got = decoder::draw_mb(out, w * 3, a, Mb::V1(x), px, py);
            let e = a.v1[x as int];
            &&& coloured(got, colour_at(w, py + i, px + j), e.y0, e.u, e.v)
            &&& coloured(got, colour_at(w, py + i, px + j + 2), e.y1, e.u, e.v)
            &&& coloured(got, colour_at(w, py + i + 2, px + j), e.y2, e.u, e.v)
            &&& coloured(got, colour_at(w, py + i + 2, px + j + 2), e.y3, e.u, e.v)
        }),
{
    v1_pixel(out, a, x, px, py, w, h, i, j);
    v1_pixel(out, a, x, px, py, w, h, i, j + 2);
    v1_pixel(out, a, x, px, py, w, h, i + 2, j);
    v1_pixel(out, a, x, px, py, w, h, i + 2, j + 2);
}

/// A gray macroblock shows what the same macroblock in colour shows with
/// chromas of zero: each byte is that of all three channels.
pub proof fn gray_agrees_with_colour(
    gray: Seq<u8>,
    colour: Seq<u8>,
    v4: Seq<CodebookEntry>,
    v1: Seq<CodebookEntry>,
    mb: Mb,
    px: int,
    py: int,
    w: int,
    h: int,
    i: int,
    j: int,
    c: int,
)
    requires
        !(mb is Skip),
        v4.len() == 256 && v1.len() == 256,
        forall|k: int| 0 <= k < 256 ==> (#[trigger] v4[k]).u == 0 && v4[k].v == 0,
        forall|k: int| 0 <= k < 256 ==> (#[trigger] v1[k]).u == 0 && v1[k].v == 0,
        0 <= px && px + 4 <= w,
        0 <= py && py + 4 <= h,
        gray.len() == w * h,
        colour.len() == w * 3 * h,
        0 <= i < 4,
        0 <= j < 4,
        0 <= c < 3,
    ensures
        decoder::draw_mb(
            gray,
            w,
            Paint { mode: PixelMode::Gray8, v4, v1, prev: None },
            mb,
            px,
            py,
        )[gray_at(w, py + i, px + j)] == decoder::draw_mb(
            colour,
            w * 3,
            Paint { mode: PixelMode::Yuv12, v4, v1, prev: None },
            mb,
            px,
            py,
        )[colour_at(w, py + i, px + j) + c],
{
    let a = Paint { mode: PixelMode::Gray8, v4, v1, prev: None };
    let b = Paint { mode: PixelMode::Yuv12, v4, v1, prev: None };
    match mb {
        Mb::V4(x) => {
            gray_quarter_shown(gray, a, x, px, py, w, h, i / 2, j / 2);
            colour_quarter_shown(colour, b, x, px, py, w, h, i / 2, j / 2);
            let e = v4[x[2 * (i / 2) + j / 2] as int];
            assert(e.u == 0 && e.v == 0);
        },
        Mb::V1(x) => {
            gray_whole_shown(gray, a, x, px, py, w, h, i % 2, j % 2);
            colour_whole_shown(colour, b, x, px, py, w, h, i % 2, j % 2);
            assert(v1[x as int].u == 0 && v1[x as int].v == 0);
        },
        Mb::Skip => {},
    }
}

/// Left edge of macroblock `k` of a strip that is `cols` macroblocks wide.
pub open spec fn left_of(x0: int, cols: int, k: int) -> int {
    x0 + 4 * (k % cols)
}

/// Top edge of macroblock `k`.
pub open spec fn top_of(y0: int, cols: int, k: int) -> int {
    y0 + 4 * (k / cols)
}

/// Whether macroblocks fill a part of a picture, row by row.
pub open spec fn fills(a: Paint, mbs: Seq<Mb>, x0: int, y0: int, cols: int, rows: int, w: int, h: int) -> bool {
    &&& 0 <= x0 && 1 <= cols && x0 + 4 * cols <= w
    &&& 0 <= y0 && 0 <= rows && y0 + 4 * rows <= h
    &&& mbs.len() == rows * cols
    &&& decoder::has_skip(mbs) ==> (a.prev matches Some(p) && image::packed(p) && p.width == w
        && p.height == h)
}

pub(crate) proof fn place_inside(k: int, x0: int, y0: int, cols: int, rows: int)
    requires
        0 <= k < rows * cols,
        1 <= cols,
    ensures
        0 <= k % cols < cols,
        0 <= k / cols < rows,
        k == (k / cols) * cols + k % cols,
        x0 <= left_of(x0, cols, k) && left_of(x0, cols, k) + 4 <= x0 + 4 * cols,
        y0 <= top_of(y0, cols, k) && top_of(y0, cols, k) + 4 <= y0 + 4 * rows,
{
    vstd::arithmetic::div_mod::lemma_fundamental_div_mod(k, cols);
    assert(k / cols < rows && 0 <= k / cols) by (nonlinear_arith)
        requires
            0 <= k < rows * cols,
            1 <= cols,
    ;
    assert(0 <= k % cols < cols) by (nonlinear_arith)
        requires
            0 <= k,
            1 <= cols,
    ;
    assert(cols * (k / cols) == (k / cols) * cols) by (nonlinear_arith);
}

/// An offset that lies in a row of pixels lies in no other.
proof fn one_row(stride: int, row: int, col: int, other: int, from: int, len: int)
    requires
        0 <= col < stride,
        0 <= from,
        from + len <= stride,
        other * stride + from <= row * stride + col < other * stride + from + len,
    ensures
        other == row,
        from <= col < from + len,
{
    if other < row {
        assert(other * stride + stride <= row * stride) by (nonlinear_arith)
            requires
                other + 1 <= row,
                stride >= 0,
        ;
    }
    if row < other {
        assert(row * stride + stride <= other * stride) by (nonlinear_arith)
            requires
                row + 1 <= other,
                stride >= 0,
        ;
    }
}

proof fn row_of_offset(w: int, bpp: int, row: int, px: int, k: int)
    requires
        bpp >= 1,
        0 <= px && px + 4 <= w,
        0 <= k < 4 * bpp,
    ensures
        0 <= px * bpp + k < w * bpp,
        px * bpp + 4 * bpp <= w * bpp,
        0 <= px * bpp,
{
    assert(0 <= px * bpp && px * bpp + 4 * bpp <= w * bpp) by (nonlinear_arith)
        requires
            bpp >= 1,
            0 <= px && px + 4 <= w,
    ;
}

proof fn offset_in_picture(w: int, bpp: int, h: int, row: int, c: int)
    requires
        0 <= row < h,
        0 <= c < w * bpp,
    ensures
        0 <= row * (w * bpp) + c < w * bpp * h,
{
    let s = w * bpp;
    assert(0 <= row * s && row * s + s <= s * h) by (nonlinear_arith)
        requires
            0 <= row <= h - 1,
            0 <= s,
    ;
}

pub(crate) proof fn drawn_mbs_len(
    out: Seq<u8>,
    stride: int,
    a: Paint,
    mbs: Seq<Mb>,
    x0: int,
    y0: int,
    cols: int,
    n: nat,
)
    ensures
        decoder::draw_mbs(out, stride, a, mbs, x0, y0, cols, n).len() == out.len(),
    decreases n,
{
    if n > 0 {
        drawn_mbs_len(out, stride, a, mbs, x0, y0, cols, (n - 1) as nat);
        reveal_with_fuel(decoder::draw_rows, 5);
    }
}

/// Drawing a strip changes nothing above it or below it.
pub proof fn other_rows_kept(
    out: Seq<u8>,
    a: Paint,
    mbs: Seq<Mb>,
    x0: int,
    y0: int,
    cols: int,
    rows: int,
    w: int,
    h: int,
    n: nat,
    row: int,
    c: int,
)
    requires
        fills(a, mbs, x0, y0, cols, rows, w, h),
        out.len() == w * decoder::mode_bpp(a.mode) * h,
        n <= mbs.len(),
        0 <= row < h,
        row < y0 || y0 + 4 * rows <= row,
        0 <= c < w * decoder::mode_bpp(a.mode),
    ensures
        decoder::draw_mbs(out, w * decoder::mode_bpp(a.mode), a, mbs, x0, y0, cols, n)[row * (w
            * decoder::mode_bpp(a.mode)) + c] == out[row * (w * decoder::mode_bpp(a.mode)) + c],
    decreases n,
{
    if n > 0 {
        let bpp = decoder::mode_bpp(a.mode) as int;
        let l = n - 1;
        other_rows_kept(out, a, mbs, x0, y0, cols, rows, w, h, l as nat, row, c);
        let before = decoder::draw_mbs(out, w * bpp, a, mbs, x0, y0, cols, l as nat);
        drawn_mbs_len(out, w * bpp, a, mbs, x0, y0, cols, l as nat);
        place_inside(l, x0, y0, cols, rows);
        let px = left_of(x0, cols, l);
        let py = top_of(y0, cols, l);
        let q = row * (w * bpp) + c;
        offset_in_picture(w, bpp, h, row, c);
        assert forall|i: int| 0 <= i < 4 implies !(#[trigger] decoder::row_start(w, bpp, px, py, i)
            <= q < decoder::row_start(w, bpp, px, py, i) + 4 * bpp) by {
            row_of_offset(w, bpp, py + i, px, 0);
            if decoder::row_start(w, bpp, px, py, i) <= q < decoder::row_start(w, bpp, px, py, i) + 4
                * bpp {
                one_row(w * bpp, row, c, py + i, px * bpp, 4 * bpp);
            }
        }
        if mbs[l] is Skip {
            assert(decoder::has_skip(mbs));
        }
        decoder::drawn_elsewhere(before, a, mbs[l], px, py, w, h, q);
    }
}

/// A drawn strip shows every one of its macroblocks, the first at its upper
/// left corner and the others to the right and then downward.
pub proof fn strip_shows(
    out: Seq<u8>,
    a: Paint,
    mbs: Seq<Mb>,
    x0: int,
    y0: int,
    cols: int,
    rows: int,
    w: int,
    h: int,
    n: nat,
    k: int,
    i: int,
    b: int,
)
    requires
        fills(a, mbs, x0, y0, cols, rows, w, h),
        out.len() == w * decoder::mode_bpp(a.mode) * h,
        n <= mbs.len(),
        0 <= k < n,
        0 <= i < 4,
        0 <= b < 4 * decoder::mode_bpp(a.mode),
    ensures
        ({
            let bpp = decoder::mode_bpp(a.mode) as int;
            let px = left_of(x0, cols, k);
            let py = top_of(y0, cols, k);
            decoder::draw_mbs(out, w * bpp, a, mbs, x0, y0, cols, n)[(py + i) * (w * bpp) + px * bpp
                + b] == decoder::mb_row(a, mbs[k], px, py, i)[b]
        }),
    decreases n,
{
    let bpp = decoder::mode_bpp(a.mode) as int;
    let l = n - 1;
    let before = decoder::draw_mbs(out, w * bpp, a, mbs, x0, y0, cols, l as nat);
    drawn_mbs_len(out, w * bpp, a, mbs, x0, y0, cols, l as nat);
    place_inside(l, x0, y0, cols, rows);
    place_inside(k, x0, y0, cols, rows);
    let lx = left_of(x0, cols, l);
    let ly = top_of(y0, cols, l);
    let px = left_of(x0, cols, k);
    let py = top_of(y0, cols, k);
    if mbs[l] is Skip || mbs[k] is Skip {
        assert(decoder::has_skip(mbs));
    }
    if k == l {
        decoder::drawn_pixel(before, a, mbs[l], lx, ly, w, h, i, b);
    } else {
        strip_shows(out, a, mbs, x0, y0, cols, rows, w, h, l as nat, k, i, b);
        row_of_offset(w, bpp, py + i, px, b);
        let q = (py + i) * (w * bpp) + (px * bpp + b);
        offset_in_picture(w, bpp, h, py + i, px * bpp + b);
        assert forall|r: int| 0 <= r < 4 implies !(#[trigger] decoder::row_start(w, bpp, lx, ly, r)
            <= q < decoder::row_start(w, bpp, lx, ly, r) + 4 * bpp) by {
            row_of_offset(w, bpp, ly + r, lx, 0);
            if decoder::row_start(w, bpp, lx, ly, r) <= q < decoder::row_start(w, bpp, lx, ly, r) + 4
                * bpp {
                one_row(w * bpp, py + i, px * bpp + b, ly + r, lx * bpp, 4 * bpp);
                assert(k / cols == l / cols);
                assert(k % cols != l % cols);
                if px < lx {
                    assert(px * bpp + 4 * bpp <= lx * bpp) by (nonlinear_arith)
                        requires
                            px + 4 <= lx,
                            bpp >= 1,
                    ;
                } else {
                    assert(lx * bpp + 4 * bpp <= px * bpp) by (nonlinear_arith)
                        requires
                            lx + 4 <= px,
                            bpp >= 1,
                    ;
                }
            }
        }
        decoder::drawn_elsewhere(before, a, mbs[l], lx, ly, w, h, q);
    }
}

} // verus!
