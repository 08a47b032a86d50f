//! Where the macroblocks that are walked with their pixels stand, and what
//! they show.

use vstd::prelude::*;
use crate::codebook::PixelMode;
use crate::decoder::{self, Paint};
use crate::image::FrameView;
use crate::macroblocks::{
    self, MixedIntraCoding, MixedIntraEntry, MixedIntraMb, MixedIntraRgbBlock, RgbWalk,
};
use crate::vector::Mb;
use crate::yuv;

verus! {

/// A macroblock that is walked with its pixels stands where its number puts
/// it, row by row, and its coding is that of the chunk.
pub proof fn block_has_its_place(w: RgbWalk, e: MixedIntraEntry, b: MixedIntraRgbBlock)
    requires
        macroblocks::is_rgb_block(w, e, b),
        w.mb_cols > 0,
    ensures
        b.index == e.index,
        b.mb_col < w.mb_cols,
        b.mb_row * w.mb_cols + b.mb_col == e.index,
        b.pixel_col == 4 * b.mb_col,
        b.pixel_row == 4 * b.mb_row,
        b.coding == MixedIntraCoding::V1 <==> e.kind is V1,
{
    let n = e.index as int;
    let cols = w.mb_cols as int;
    assert((n / cols) * cols + n % cols == n) by (nonlinear_arith)
        requires
            cols > 0,
    ;
    assert(0 <= n % cols < cols) by (nonlinear_arith)
        requires
            cols > 0,
    ;
}

/// The pixels of a macroblock that is walked are those that a decoder draws
/// for it, channel by channel.
pub proof fn block_is_drawn(
    w: RgbWalk,
    e: MixedIntraEntry,
    b: MixedIntraRgbBlock,
    prev: Option<FrameView>,
    px: int,
    py: int,
    r: int,
    c: int,
    ch: int,
)
    requires
        macroblocks::is_rgb_block(w, e, b),
        0 <= r < 4,
        0 <= c < 4,
        0 <= ch < 3,
    ensures
        ({
            let a = Paint { mode: PixelMode::Yuv12, v4: w.v4, v1: w.v1, prev };
            let mb = match e.kind {
                MixedIntraMb::V1(i) => Mb::V1(i),
                MixedIntraMb::V4(x) => Mb::V4(x),
            };
            decoder::mb_row(a, mb, px, py, r)[3 * c + ch] == b.rgb[r][c][ch]
        }),
{
    assert((3 * c + ch) / 3 == c);
    assert((3 * c + ch) % 3 == ch);
    match e.kind {
        MixedIntraMb::V1(i) => {
            assert(b.rgb[r][c] == yuv::triple(yuv::v1_rgb(w.v1[i as int], r, c)));
        },
        MixedIntraMb::V4(x) => {
            assert(b.rgb[r][c] == yuv::triple(yuv::v4_rgb(macroblocks::quad_of(w.v4, x), r, c)));
        },
    }
}

/// The pixels of a macroblock can be had exactly where every index that it
/// names is within its codebook.
pub proof fn block_needs_its_entries(w: RgbWalk, kind: MixedIntraMb)
    ensures
        macroblocks::rgb_error(w, kind) is None <==> match kind {
            MixedIntraMb::V1(i) => i < w.v1.len(),
            MixedIntraMb::V4(x) => forall|k: int| 0 <= k < 4 ==> #[trigger] x[k] < w.v4.len(),
        },
{
    if let MixedIntraMb::V4(x) = kind {
        if macroblocks::rgb_error(w, kind) is None {
            assert forall|k: int| 0 <= k < 4 implies #[trigger] x[k] < w.v4.len() by {
                assert(k == 0 || k == 1 || k == 2 || k == 3);
            }
        }
    }
}

} // verus!
