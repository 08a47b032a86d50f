//! From codebook entries to pixels.

use vstd::prelude::*;
use crate::codebook::CodebookEntry;

verus! {

/// `x` halved, rounded toward zero.
pub open spec fn half(x: int) -> int {
    if x >= 0 {
        x / 2
    } else {
        -((-x) / 2)
    }
}

/// `x` limited to what a byte holds.
pub open spec fn clamped(x: int) -> u8 {
    if x < 0 {
        0
    } else if x > 255 {
        255
    } else {
        x as u8
    }
}

/// The colour of a luminance and a chrominance pair: red `y + 2v`, green
/// `y - u/2 - v`, blue `y + 2u`, each limited to a byte.
pub open spec fn rgb_of(y: u8, u: i8, v: i8) -> (u8, u8, u8) {
    (clamped(y + 2 * v), clamped(y - half(u as int) - v), clamped(y + 2 * u))
}

/// The luminance of pixel `k` of an entry, in row-major order.
pub open spec fn luma(e: CodebookEntry, k: int) -> u8 {
    if k == 0 {
        e.y0
    } else if k == 1 {
        e.y1
    } else if k == 2 {
        e.y2
    } else {
        e.y3
    }
}

/// The colour of pixel `k` of an entry.
pub open spec fn entry_rgb(e: CodebookEntry, k: int) -> (u8, u8, u8) {
    rgb_of(luma(e, k), e.u, e.v)
}

/// The colour of the pixel in row `i` and column `j` of a V1 macroblock:
/// each pixel of the entry covers a 2x2 square.
pub open spec fn v1_rgb(e: CodebookEntry, i: int, j: int) -> (u8, u8, u8) {
    entry_rgb(e, i / 2 * 2 + j / 2)
}

/// The colour of the pixel in row `i` and column `j` of a V4 macroblock:
/// each entry covers a 2x2 square.
pub open spec fn v4_rgb(quad: Seq<CodebookEntry>, i: int, j: int) -> (u8, u8, u8) {
    entry_rgb(quad[i / 2 * 2 + j / 2], i % 2 * 2 + j % 2)
}

/// A colour as an array.
pub open spec fn triple(c: (u8, u8, u8)) -> [u8; 3] {
    [c.0, c.1, c.2]
}

/// Converts one pixel.
pub fn yuv_to_rgb(y: u8, u: i8, v: i8) -> (r: (u8, u8, u8))
    ensures
        r == rgb_of(y, u, v),
{
    let y: i32 = y as i32;
    let u: i32 = u as i32;
    let v: i32 = v as i32;
    let u_half: i32 = if u >= 0 {
        u / 2
    } else {
        -((-u) / 2)
    };
    (clamp_u8(y + 2 * v), clamp_u8(y - u_half - v), clamp_u8(y + 2 * u))
}

fn clamp_u8(x: i32) -> (r: u8)
    ensures
        r == clamped(x as int),
{
    if x < 0 {
        0
    } else if x > 255 {
        255
    } else {
        x as u8
    }
}

fn pixel(y: u8, e: &CodebookEntry) -> (r: [u8; 3])
    ensures
        r == triple(rgb_of(y, e.u, e.v)),
{
    let p = yuv_to_rgb(y, e.u, e.v);
    [p.0, p.1, p.2]
}

/// The pixels of a V1 macroblock, as rows of colours.
pub fn expand_v1_mb_rgb(e: &CodebookEntry) -> (r: [[[u8; 3]; 4]; 4])
    ensures
        forall|i: int, j: int|
            0 <= i < 4 && 0 <= j < 4 ==> #[trigger] r[i][j] == triple(v1_rgb(*e, i, j)),
{
    let tl = pixel(e.y0, e);
    let tr = pixel(e.y1, e);
    let bl = pixel(e.y2, e);
    let br = pixel(e.y3, e);
    [[tl, tl, tr, tr], [tl, tl, tr, tr], [bl, bl, br, br], [bl, bl, br, br]]
}

/// One row of two entries side by side.
fn v4_row(left: &CodebookEntry, right: &CodebookEntry, low: bool) -> (r: [[u8; 3]; 4])
    ensures
        forall|j: int|
            0 <= j < 4 ==> #[trigger] r[j] == triple(
                entry_rgb(
                    if j < 2 {
                        *left
                    } else {
                        *right
                    },
                    (if low {
                        2int
                    } else {
                        0
                    }) + j % 2,
                ),
            ),
{
    if low {
        [pixel(left.y2, left), pixel(left.y3, left), pixel(right.y2, right), pixel(right.y3, right)]
    } else {
        [pixel(left.y0, left), pixel(left.y1, left), pixel(right.y0, right), pixel(right.y1, right)]
    }
}

/// The pixels of a V4 macroblock, as rows of colours.
pub fn expand_v4_mb_rgb(quad: &[CodebookEntry; 4]) -> (r: [[[u8; 3]; 4]; 4])
    ensures
        forall|i: int, j: int|
            0 <= i < 4 && 0 <= j < 4 ==> #[trigger] r[i][j] == triple(v4_rgb(quad@, i, j)),
{
    let top = [v4_row(&quad[0], &quad[1], false), v4_row(&quad[0], &quad[1], true)];
    let bottom = [v4_row(&quad[2], &quad[3], false), v4_row(&quad[2], &quad[3], true)];
    [top[0], top[1], bottom[0], bottom[1]]
}

/// Without chrominance the colour is the gray of the luminance.
pub proof fn gray_is_luma(y: u8)
    ensures
        rgb_of(y, 0, 0) == (y, y, y),
{
}

/// A V4 macroblock whose four entries repeat the quadrants of a V1 entry is
/// that V1 macroblock.
pub proof fn v4_of_v1(e: CodebookEntry, quad: Seq<CodebookEntry>, i: int, j: int)
    requires
        quad.len() == 4,
        forall|k: int|
            0 <= k < 4 ==> #[trigger] quad[k] == (CodebookEntry {
                y0: luma(e, k),
                y1: luma(e, k),
                y2: luma(e, k),
                y3: luma(e, k),
                u: e.u,
                v: e.v,
            }),
        0 <= i < 4,
        0 <= j < 4,
    ensures
        v4_rgb(quad, i, j) == v1_rgb(e, i, j),
{
    let k = i / 2 * 2 + j / 2;
    assert(quad[k].u == e.u);
}

} // verus!
