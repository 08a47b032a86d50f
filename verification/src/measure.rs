//! How much a decoded frame differs from its picture.

use vstd::prelude::*;
use crate::codebook::PixelMode;
use crate::decoder::{self, CinepakDecoder, DecoderState};
use crate::encoder;
use crate::error::{other, ErrorView, Result};
use crate::image::{self, CinepakFrame, CinepakPlane, FrameView, PlaneView};
use crate::quant;
use crate::sampling;

verus! {

/// The sum of the squared differences of the first `k` bytes of a row.
pub open spec fn row_rgb_error(p: PlaneView, pixels: Seq<u8>, width: int, row: int, k: int) -> int
    decreases k,
{
    if k <= 0 {
        0
    } else {
        row_rgb_error(p, pixels, width, row, k - 1) + quant::sq(
            p.data[row * p.stride + (k - 1)] - pixels[row * (width * 3) + (k - 1)],
        )
    }
}

/// The sum of the squared differences of the first `rows` rows.
pub open spec fn rgb_error(p: PlaneView, pixels: Seq<u8>, width: int, rows: int) -> int
    decreases rows,
{
    if rows <= 0 {
        0
    } else {
        rgb_error(p, pixels, width, rows - 1) + row_rgb_error(
            p,
            pixels,
            width,
            rows - 1,
            width * 3,
        )
    }
}

/// The difference of two colours in brightness, in thousandths.
pub open spec fn brightness(r: int, g: int, b: int) -> int {
    299 * r + 587 * g + 114 * b
}

/// The difference in brightness of pixel `c` of a row.
pub open spec fn pixel_difference(p: PlaneView, pixels: Seq<u8>, width: int, row: int, c: int) -> int {
    let d = row * p.stride + c * 3;
    let s = row * (width * 3) + c * 3;
    brightness(
        pixels[s] - p.data[d],
        pixels[s + 1] - p.data[d + 1],
        pixels[s + 2] - p.data[d + 2],
    )
}

/// The sum of the squared differences in brightness of the first `k` pixels
/// of a row, in millionths.
pub open spec fn row_y_error(p: PlaneView, pixels: Seq<u8>, width: int, row: int, k: int) -> int
    decreases k,
{
    if k <= 0 {
        0
    } else {
        row_y_error(p, pixels, width, row, k - 1) + quant::sq(
            pixel_difference(p, pixels, width, row, k - 1),
        )
    }
}

/// The sum of the squared differences in brightness of the first `rows`
/// rows, in millionths.
pub open spec fn y_error(p: PlaneView, pixels: Seq<u8>, width: int, rows: int) -> int
    decreases rows,
{
    if rows <= 0 {
        0
    } else {
        y_error(p, pixels, width, rows - 1) + row_y_error(p, pixels, width, rows - 1, width)
    }
}

/// Message of a decoded frame that lacks pixels of its picture.
pub open spec fn frame_lacks_pixels() -> ErrorView {
    ErrorView::Other("encoder: decoded frame does not cover the picture"@)
}

/// Whether a decoded frame covers a colour picture.
pub open spec fn covers_rgb(f: FrameView, width: u32, height: u32) -> bool {
    &&& f.planes.len() >= 1
    &&& sampling::plane_covers(f.planes[0], width as int, height as int, 3)
}

/// The difference in brightness of what a decoder makes of a frame from a
/// picture.
pub open spec fn decoded_y_error(
    d: DecoderState,
    bytes: Seq<u8>,
    rgb: Seq<u8>,
    width: u32,
    height: u32,
) -> core::result::Result<int, ErrorView> {
    match decoder::decoded(d, bytes, None, None).1 {
        Err(e) => Err(e),
        Ok(f) => if covers_rgb(f, width, height) {
            Ok(y_error(f.planes[0], rgb, width as int, height as int))
        } else {
            Err(frame_lacks_pixels())
        },
    }
}

/// The difference of what a decoder makes of a frame from a picture.
pub open spec fn decoded_rgb_error(
    d: DecoderState,
    bytes: Seq<u8>,
    rgb: Seq<u8>,
    width: u32,
    height: u32,
) -> core::result::Result<int, ErrorView> {
    match decoder::decoded(d, bytes, None, None).1 {
        Err(e) => Err(e),
        Ok(f) => if covers_rgb(f, width, height) {
            Ok(rgb_error(f.planes[0], rgb, width as int, height as int))
        } else {
            Err(frame_lacks_pixels())
        },
    }
}

/// Largest squared difference in brightness of a pixel.
pub const PIXEL_LIMIT: u128 = 65025000000;

/// Largest sum of those of a row.
pub const ROW_LIMIT: u128 = 279280248357375000000;

proof fn rows_inside(p: PlaneView, len: int, width: int, height: int, row: int)
    requires
        sampling::plane_covers(p, width, height, 3),
        width * height * 3 <= len,
        0 <= row < height,
        0 <= width,
    ensures
        0 <= row * p.stride,
        row * p.stride + width * 3 <= p.data.len(),
        0 <= row * (width * 3),
        row * (width * 3) + width * 3 <= len,
{
    assert(0 <= row * p.stride && row * p.stride <= (height - 1) * p.stride) by (nonlinear_arith)
        requires
            0 <= row <= height - 1,
            0 <= p.stride,
    ;
    assert(0 <= row * (width * 3) && row * (width * 3) + width * 3 <= width * height * 3)
        by (nonlinear_arith)
        requires
            0 <= row <= height - 1,
            0 <= width,
    ;
}

fn byte_difference(a: u8, b: u8) -> (r: u128)
    ensures
        r == quant::sq(a - b),
        r <= 65025,
{
    let d: i64 = a as i64 - b as i64;
    assert(0 <= d * d <= 65025) by (nonlinear_arith)
        requires
            -255 <= d <= 255,
    ;
    (d * d) as u128
}

fn pixel_square(dr: i64, dg: i64, db: i64) -> (r: u128)
    requires
        -255 <= dr <= 255,
        -255 <= dg <= 255,
        -255 <= db <= 255,
    ensures
        r == quant::sq(brightness(dr as int, dg as int, db as int)),
        r <= PIXEL_LIMIT,
{
    let e: i64 = 299 * dr + 587 * dg + 114 * db;
    assert(0 <= e * e <= 65025000000) by (nonlinear_arith)
        requires
            -255000 <= e <= 255000,
    ;
    (e * e) as u128
}

fn row_rgb_difference(p: &CinepakPlane, rgb: &[u8], width: u32, height: u32, row: u32) -> (r: u128)
    requires
        sampling::plane_covers(p@, width as int, height as int, 3),
        sampling::picture_len(width as int, height as int, PixelMode::Yuv12) <= rgb@.len(),
        row < height,
    ensures
        r == row_rgb_error(p@, rgb@, width as int, row as int, width * 3),
        r <= ROW_LIMIT,
{
    proof {
        rows_inside(p@, rgb@.len() as int, width as int, height as int, row as int);
    }
    let total: usize = rgb.len();
    let ptotal: usize = p.data.len();
    let n: usize = width as usize * 3;
    let src: usize = row as usize * n;
    let dec: usize = row as usize * p.stride;
    let mut sum: u128 = 0;
    let mut k: usize = 0;
    while k < n
        invariant
            k <= n,
            n == width * 3,
            n <= 3 * 0xffffffff,
            src == row * (width * 3),
            dec == row * p@.stride,
            src + n <= rgb@.len(),
            dec + n <= p.data@.len(),
            total == rgb@.len(),
            ptotal == p.data@.len(),
            sum == row_rgb_error(p@, rgb@, width as int, row as int, k as int),
            sum <= k * 65025,
        decreases n - k,
    {
        sum = sum + byte_difference(p.data[dec + k], rgb[src + k]);
        k = k + 1;
    }
    sum
}

/// The sum of the squared differences of a decoded plane from a picture.
pub fn plane_rgb_error(p: &CinepakPlane, rgb: &[u8], width: u32, height: u32) -> (r: u128)
    requires
        sampling::plane_covers(p@, width as int, height as int, 3),
        sampling::picture_len(width as int, height as int, PixelMode::Yuv12) <= rgb@.len(),
    ensures
        r == rgb_error(p@, rgb@, width as int, height as int),
        r <= height * ROW_LIMIT,
{
    let mut sum: u128 = 0;
    let mut row: u32 = 0;
    while row < height
        invariant
            row <= height,
            sampling::plane_covers(p@, width as int, height as int, 3),
            sampling::picture_len(width as int, height as int, PixelMode::Yuv12) <= rgb@.len(),
            sum == rgb_error(p@, rgb@, width as int, row as int),
            sum <= row * ROW_LIMIT,
        decreases height - row,
    {
        sum = sum + row_rgb_difference(p, rgb, width, height, row);
        row = row + 1;
    }
    sum
}

fn row_y_difference(p: &CinepakPlane, rgb: &[u8], width: u32, height: u32, row: u32) -> (r: u128)
    requires
        sampling::plane_covers(p@, width as int, height as int, 3),
        sampling::picture_len(width as int, height as int, PixelMode::Yuv12) <= rgb@.len(),
        row < height,
    ensures
        r == row_y_error(p@, rgb@, width as int, row as int, width as int),
        r <= ROW_LIMIT,
{
    proof {
        rows_inside(p@, rgb@.len() as int, width as int, height as int, row as int);
    }
    let total: usize = rgb.len();
    let ptotal: usize = p.data.len();
    let n: usize = width as usize;
    let src: usize = row as usize * (n * 3);
    let dec: usize = row as usize * p.stride;
    let mut sum: u128 = 0;
    let mut c: usize = 0;
    while c < n
        invariant
            c <= n,
            n == width,
            src == row * (width * 3),
            dec == row * p@.stride,
            src + n * 3 <= rgb@.len(),
            dec + n * 3 <= p.data@.len(),
            total == rgb@.len(),
            ptotal == p.data@.len(),
            sum == row_y_error(p@, rgb@, width as int, row as int, c as int),
            sum <= c * PIXEL_LIMIT,
        decreases n - c,
    {
        let s: usize = src + c * 3;
        let d: usize = dec + c * 3;
        let e: u128 = pixel_square(
            rgb[s] as i64 - p.data[d] as i64,
            rgb[s + 1] as i64 - p.data[d + 1] as i64,
            rgb[s + 2] as i64 - p.data[d + 2] as i64,
        );
        sum = sum + e;
        c = c + 1;
    }
    sum
}

/// The sum of the squared differences in brightness of a decoded plane from
/// a picture, in millionths.
pub fn plane_y_error(p: &CinepakPlane, rgb: &[u8], width: u32, height: u32) -> (r: u128)
    requires
        sampling::plane_covers(p@, width as int, height as int, 3),
        sampling::picture_len(width as int, height as int, PixelMode::Yuv12) <= rgb@.len(),
    ensures
        r == y_error(p@, rgb@, width as int, height as int),
        r <= height * ROW_LIMIT,
{
    let mut sum: u128 = 0;
    let mut row: u32 = 0;
    while row < height
        invariant
            row <= height,
            sampling::plane_covers(p@, width as int, height as int, 3),
            sampling::picture_len(width as int, height as int, PixelMode::Yuv12) <= rgb@.len(),
            sum == y_error(p@, rgb@, width as int, row as int),
            sum <= row * ROW_LIMIT,
        decreases height - row,
    {
        sum = sum + row_y_difference(p, rgb, width, height, row);
        row = row + 1;
    }
    sum
}

fn check_cover(f: &CinepakFrame, width: u32, height: u32) -> (r: bool)
    ensures
        r == covers_rgb(f@, width, height),
{
    if f.planes.len() < 1 {
        return false;
    }
    assert(f.planes@[0]@ == f@.planes[0]);
    plane_is_covering(&f.planes[0], width, height)
}

/// Whether a plane has all the bytes of a colour picture.
pub(crate) fn plane_is_covering(p: &CinepakPlane, width: u32, height: u32) -> (r: bool)
    ensures
        r == sampling::plane_covers(p@, width as int, height as int, 3),
{
    if height == 0 {
        return true;
    }
    assert(0 <= (height - 1) * p.stride <= 0xffffffff * 0xffffffffffffffff) by (nonlinear_arith)
        requires
            0 <= height - 1 <= 0xffffffff,
            0 <= p.stride <= 0xffffffffffffffff,
    ;
    (height as u128 - 1) * (p.stride as u128) + (width as u128) * 3 <= p.data.len() as u128
}

/// The number behind an outcome.
pub open spec fn number_outcome(r: Result<u128>) -> core::result::Result<int, ErrorView> {
    match r {
        Ok(n) => Ok(n as int),
        Err(e) => Err(e@),
    }
}

/// Decodes a frame and measures how much its brightness differs from a
/// picture.
pub fn decode_y_sse(
    dec: &mut CinepakDecoder,
    bytes: &[u8],
    rgb: &[u8],
    width: u32,
    height: u32,
) -> (r: Result<u128>)
    requires
        old(dec).wf(),
        sampling::picture_len(width as int, height as int, PixelMode::Yuv12) <= rgb@.len(),
    ensures
        number_outcome(r) == decoded_y_error(old(dec)@, bytes@, rgb@, width, height),
        final(dec)@ == decoder::decoded(old(dec)@, bytes@, None, None).0,
        final(dec).wf(),
        r matches Ok(n) ==> n <= height * ROW_LIMIT,
{
    match dec.decode_frame(bytes, None) {
        Err(e) => Err(e),
        Ok(f) => if check_cover(&f, width, height) {
            assert(f.planes@[0]@ == f@.planes[0]);
            Ok(plane_y_error(&f.planes[0], rgb, width, height))
        } else {
            Err(other("encoder: decoded frame does not cover the picture"))
        },
    }
}

/// Decodes a frame and measures how much it differs from a picture.
pub fn decode_rgb_sse(
    dec: &mut CinepakDecoder,
    bytes: &[u8],
    rgb: &[u8],
    width: u32,
    height: u32,
) -> (r: Result<u128>)
    requires
        old(dec).wf(),
        sampling::picture_len(width as int, height as int, PixelMode::Yuv12) <= rgb@.len(),
    ensures
        number_outcome(r) == decoded_rgb_error(old(dec)@, bytes@, rgb@, width, height),
        final(dec)@ == decoder::decoded(old(dec)@, bytes@, None, None).0,
        final(dec).wf(),
        r matches Ok(n) ==> n <= height * ROW_LIMIT,
{
    match dec.decode_frame(bytes, None) {
        Err(e) => Err(e),
        Ok(f) => if check_cover(&f, width, height) {
            assert(f.planes@[0]@ == f@.planes[0]);
            Ok(plane_rgb_error(&f.planes[0], rgb, width, height))
        } else {
            Err(other("encoder: decoded frame does not cover the picture"))
        },
    }
}

/// The difference of byte `k` of a row from that of the picture.
pub open spec fn off_by(p: PlaneView, pixels: Seq<u8>, width: int, row: int, k: int) -> int {
    p.data[row * p.stride + k] - pixels[row * (width * 3) + k]
}

proof fn row_rgb_error_parts(p: PlaneView, pixels: Seq<u8>, width: int, row: int, k: int, d: int)
    requires
        0 <= k,
    ensures
        row_rgb_error(p, pixels, width, row, k) >= 0,
        forall|j: int|
            0 <= j < k ==> {
                let x = #[trigger] off_by(p, pixels, width, row, j);
                x * x <= row_rgb_error(p, pixels, width, row, k)
            },
        (forall|j: int| 0 <= j < k ==> quant::magnitude(#[trigger] off_by(p, pixels, width, row, j)) == d)
            ==> row_rgb_error(p, pixels, width, row, k) == k * (d * d),
    decreases k,
{
    if k > 0 {
        row_rgb_error_parts(p, pixels, width, row, k - 1, d);
        let x = off_by(p, pixels, width, row, k - 1);
        assert(x * x >= 0 && (quant::magnitude(x) == d ==> x * x == d * d)) by (nonlinear_arith)
            requires
                quant::magnitude(x) == x || quant::magnitude(x) == -x,
        ;
        assert(k * (d * d) == (k - 1) * (d * d) + d * d) by (nonlinear_arith);
    } else {
        assert(k * (d * d) == 0) by (nonlinear_arith)
            requires
                k == 0,
        ;
    }
}

/// The error of a picture counts every byte: no byte is off by more than the
/// error tells, and where every byte is off by `d` the error is the square of
/// `d` for each.
pub proof fn rgb_error_counts_bytes(p: PlaneView, pixels: Seq<u8>, width: int, rows: int, d: int)
    requires
        0 <= width,
        0 <= rows,
    ensures
        rgb_error(p, pixels, width, rows) >= 0,
        forall|row: int, k: int|
            0 <= row < rows && 0 <= k < 3 * width ==> {
                let x = #[trigger] off_by(p, pixels, width, row, k);
                x * x <= rgb_error(p, pixels, width, rows)
            },
        (forall|row: int, k: int|
            0 <= row < rows && 0 <= k < 3 * width ==> quant::magnitude(
                #[trigger] off_by(p, pixels, width, row, k),
            ) == d) ==> rgb_error(p, pixels, width, rows) == 3 * width * rows * (d * d),
    decreases rows,
{
    if rows > 0 {
        rgb_error_counts_bytes(p, pixels, width, rows - 1, d);
        row_rgb_error_parts(p, pixels, width, rows - 1, width * 3, d);
        assert(3 * width * rows * (d * d) == 3 * width * (rows - 1) * (d * d) + width * 3 * (d * d))
            by (nonlinear_arith);
    } else {
        assert(3 * width * rows * (d * d) == 0) by (nonlinear_arith)
            requires
                rows == 0,
        ;
    }
}

/// The difference of pixel `c` of a row in brightness, in thousandths.
pub open spec fn dimmer_by(p: PlaneView, pixels: Seq<u8>, width: int, row: int, c: int) -> int {
    299 * off_by(p, pixels, width, row, 3 * c) + 587 * off_by(p, pixels, width, row, 3 * c + 1) + 114
        * off_by(p, pixels, width, row, 3 * c + 2)
}

proof fn row_y_error_parts(p: PlaneView, pixels: Seq<u8>, width: int, row: int, k: int, d: int)
    requires
        0 <= k,
    ensures
        row_y_error(p, pixels, width, row, k) >= 0,
        forall|j: int|
            0 <= j < k ==> {
                let x = #[trigger] dimmer_by(p, pixels, width, row, j);
                x * x <= row_y_error(p, pixels, width, row, k)
            },
        (forall|j: int|
            0 <= j < k ==> quant::magnitude(#[trigger] dimmer_by(p, pixels, width, row, j)) == d)
            ==> row_y_error(p, pixels, width, row, k) == k * (d * d),
    decreases k,
{
    if k > 0 {
        row_y_error_parts(p, pixels, width, row, k - 1, d);
        let x = dimmer_by(p, pixels, width, row, k - 1);
        assert(pixel_difference(p, pixels, width, row, k - 1) == -x);
        assert(quant::sq(-x) == x * x && x * x >= 0 && (quant::magnitude(x) == d ==> x * x == d * d))
            by (nonlinear_arith)
            requires
                quant::magnitude(x) == x || quant::magnitude(x) == -x,
        ;
        assert(k * (d * d) == (k - 1) * (d * d) + d * d) by (nonlinear_arith);
    } else {
        assert(k * (d * d) == 0) by (nonlinear_arith)
            requires
                k == 0,
        ;
    }
}

/// The error in brightness counts every pixel: none is off by more than the
/// error tells, and where every pixel is off by `d` thousandths the error is
/// the square of `d` for each.
pub proof fn y_error_counts_pixels(p: PlaneView, pixels: Seq<u8>, width: int, rows: int, d: int)
    requires
        0 <= width,
        0 <= rows,
    ensures
        y_error(p, pixels, width, rows) >= 0,
        forall|row: int, c: int|
            0 <= row < rows && 0 <= c < width ==> {
                let x = #[trigger] dimmer_by(p, pixels, width, row, c);
                x * x <= y_error(p, pixels, width, rows)
            },
        (forall|row: int, c: int|
            0 <= row < rows && 0 <= c < width ==> quant::magnitude(
                #[trigger] dimmer_by(p, pixels, width, row, c),
            ) == d) ==> y_error(p, pixels, width, rows) == width * rows * (d * d),
    decreases rows,
{
    if rows > 0 {
        y_error_counts_pixels(p, pixels, width, rows - 1, d);
        row_y_error_parts(p, pixels, width, rows - 1, width, d);
        assert(width * rows * (d * d) == width * (rows - 1) * (d * d) + width * (d * d))
            by (nonlinear_arith);
    } else {
        assert(width * rows * (d * d) == 0) by (nonlinear_arith)
            requires
                rows == 0,
        ;
    }
}

} // verus!
