//! What converting colours keeps of them.

use vstd::prelude::*;
use crate::codebook::{CodebookEntry, PixelMode};
use crate::quant::{self, Metric};
use crate::sampling;
use crate::yuv;

verus! {

/// Whether `b` is the byte nearest to `x`.
pub open spec fn nearest_byte(b: u8, x: int) -> bool {
    &&& 0 <= x <= 255 ==> b == x
    &&& x < 0 ==> b == 0
    &&& x > 255 ==> b == 255
}

/// The channels of a converted pixel: red lies `2v` above the luma and blue
/// `2u`; green lies `v` below it and then half of `u`, whose odd part is
/// dropped. Channels beyond a byte end at its border.
pub proof fn channels_around_luma(y: u8, u: i8, v: i8)
    ensures
        nearest_byte(yuv::rgb_of(y, u, v).0, y + 2 * v),
        nearest_byte(yuv::rgb_of(y, u, v).2, y + 2 * u),
        exists|h: int|
            (2 * h == u || (2 * h == u - 1 && u > 0) || (2 * h == u + 1 && u < 0))
                && #[trigger] nearest_byte(yuv::rgb_of(y, u, v).1, y - v - h),
{
    let h = yuv::half(u as int);
    assert(nearest_byte(yuv::rgb_of(y, u, v).1, y - v - h));
}

/// The luma of a colour is its brightness, where red counts two, green four
/// and blue one of seven parts; it is rounded to nearest, except for pure
/// green, which is rounded down. Twice the chromas are what blue and red have
/// more than that. An odd part of it is dropped, and added for pure green and
/// pure blue.
pub proof fn colour_parts(r: u8, g: u8, b: u8)
    ensures
        ({
            let (y, u, v) = sampling::yuv_of(r, g, b);
            &&& -3 <= 7 * y - (2 * r + 4 * g + b) <= 3 || (r == 0 && g == 255 && b == 0)
            &&& -5 <= 7 * y - (2 * r + 4 * g + b) <= 3
            &&& -1 <= 2 * u - (b - y) <= 1
            &&& -1 <= 2 * v - (r - y) <= 1
            &&& b == y ==> u == 0
            &&& r == y ==> v == 0
            &&& !(r == 0 && g == 255 && b == 0) && !(r == 0 && g == 0 && b == 255) ==> {
                &&& b >= y ==> 0 <= 2 * u <= b - y
                &&& b <= y ==> b - y <= 2 * u <= 0
                &&& r >= y ==> 0 <= 2 * v <= r - y
                &&& r <= y ==> r - y <= 2 * v <= 0
            }
            &&& (r == 0 && g == 255 && b == 0) || (r == 0 && g == 0 && b == 255) ==> {
                &&& 0 <= 2 * r + 4 * g + b - 7 * y < 7
                &&& b >= y ==> 2 * u >= b - y
                &&& b <= y ==> 2 * u <= b - y
                &&& r >= y ==> 2 * v >= r - y
                &&& r <= y ==> 2 * v <= r - y
            }
        }),
{
}

/// A colour comes back from luma and chromas all but unchanged: red and blue
/// by one step at most, green by two.
pub proof fn colour_comes_back(r: u8, g: u8, b: u8)
    ensures
        ({
            let (y, u, v) = sampling::yuv_of(r, g, b);
            let c = yuv::rgb_of(y, u, v);
            &&& -1 <= c.0 - r <= 1
            &&& -2 <= c.1 - g <= 2
            &&& -1 <= c.2 - b <= 1
        }),
{
}

/// A gray comes back unchanged.
pub proof fn gray_comes_back(x: u8)
    ensures
        ({
            let (y, u, v) = sampling::yuv_of(x, x, x);
            yuv::rgb_of(y, u, v) == (x, x, x)
        }),
{
}

/// The squared distance of gray entries is that of their four lumas. In
/// colour the lumas count as often as the weight says, and the chromas once.
pub proof fn distance_parts(m: Metric, a: CodebookEntry, b: CodebookEntry)
    ensures
        ({
            let lumas = (a.y0 - b.y0) * (a.y0 - b.y0) + (a.y1 - b.y1) * (a.y1 - b.y1) + (a.y2 - b.y2)
                * (a.y2 - b.y2) + (a.y3 - b.y3) * (a.y3 - b.y3);
            let chromas = (a.u - b.u) * (a.u - b.u) + (a.v - b.v) * (a.v - b.v);
            &&& m.mode == PixelMode::Gray8 ==> quant::distance(m, a, b) == lumas
            &&& m.mode == PixelMode::Yuv12 && m.luma_weight <= 1 ==> quant::distance(m, a, b)
                == lumas + chromas
            &&& m.mode == PixelMode::Yuv12 && m.luma_weight >= 1 ==> quant::distance(m, a, b)
                == m.luma_weight * lumas + chromas
        }),
{
    reveal(quant::distance);
    let l = quant::sq(a.y0 - b.y0) + quant::sq(a.y1 - b.y1) + quant::sq(a.y2 - b.y2) + quant::sq(
        a.y3 - b.y3,
    );
    let w = quant::weight(m);
    assert(w == 1 ==> w * l == l) by (nonlinear_arith);
}

/// Two entries have no distance only if they show the same: for gray, with
/// equal lumas; in colour, with all components equal.
pub proof fn no_distance_is_equal(m: Metric, a: CodebookEntry, b: CodebookEntry)
    requires
        quant::distance(m, a, b) == 0,
    ensures
        a.y0 == b.y0 && a.y1 == b.y1 && a.y2 == b.y2 && a.y3 == b.y3,
        m.mode == PixelMode::Yuv12 ==> a == b,
{
    reveal(quant::distance);
    positive(a.y0 - b.y0);
    positive(a.y1 - b.y1);
    positive(a.y2 - b.y2);
    positive(a.y3 - b.y3);
    positive(a.u - b.u);
    positive(a.v - b.v);
    let l = quant::sq(a.y0 - b.y0) + quant::sq(a.y1 - b.y1) + quant::sq(a.y2 - b.y2) + quant::sq(
        a.y3 - b.y3,
    );
    let w = quant::weight(m);
    assert(w * l >= l) by (nonlinear_arith)
        requires
            w >= 1,
            l >= 0,
    ;
}

/// A square is not negative, and zero only of zero.
pub proof fn positive(x: int)
    ensures
        quant::sq(x) >= 0,
        x != 0 ==> quant::sq(x) >= 1,
{
    assert(x * x >= 0 && (x != 0 ==> x * x >= 1)) by (nonlinear_arith);
}

} // verus!
