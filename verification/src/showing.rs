//! What a decoded frame shows of its picture.

use vstd::prelude::*;
use crate::codebook::PixelMode;
use crate::decoder::{self, DecoderState, Paint};
use crate::drawing;
use crate::encoder;
use crate::options::{self, EncoderOptions};
use crate::planning;
use crate::pricing;
use crate::rolling::RollView;
use crate::roundtrip;
use crate::sampling::SourceView;
use crate::strips;
use crate::vector::Mb;

verus! {

/// Whether a picture can be encoded with a configuration.
pub open spec fn encodable(s: SourceView, o: EncoderOptions) -> bool {
    &&& 4 <= s.width <= 65535 && s.width % 4 == 0
    &&& 4 <= s.height <= 65535 && s.height % 4 == 0
    &&& 1 <= o.v4_entries <= 256
    &&& 1 <= o.v1_entries <= 256
    &&& 1 <= o.strip_count
}

/// What strip `i` of a frame that stands alone is drawn with.
pub open spec fn paint_of(s: SourceView, o: EncoderOptions, i: int) -> Paint {
    let l = encoder::layout_of(s.height as u32, o);
    let p = roundtrip::intra_plan_at(s, l, o, i);
    Paint { mode: s.mode, v4: p.v4, v1: p.v1, prev: None }
}

proof fn strip_fills(s: SourceView, o: EncoderOptions, i: int)
    requires
        encodable(s, o),
        0 <= i < encoder::layout_of(s.height as u32, o).len(),
    ensures
        ({
            let l = encoder::layout_of(s.height as u32, o);
            let p = roundtrip::intra_plan_at(s, l, o, i);
            let rows = (l[i].y_bottom - l[i].y_top) / 4;
            &&& rows >= 1
            &&& l[i].y_top + 4 * rows == l[i].y_bottom
            &&& l[i].y_bottom <= s.height
            &&& drawing::fills(
                paint_of(s, o, i),
                p.mbs,
                0,
                l[i].y_top as int,
                s.width / 4,
                rows,
                s.width,
                s.height,
            )
            &&& forall|k: int| 0 <= k < p.mbs.len() ==> !(#[trigger] p.mbs[k] is Skip)
            &&& p.mbs.len() == planning::mb_total(encoder::strip_of(s, l[i], None, o))
        }),
{
    let l = encoder::layout_of(s.height as u32, o);
    encoder::layout_fits(s.height as u32, o, i);
    let x = encoder::strip_of(s, l[i], None, o);
    let rows = (l[i].y_bottom - l[i].y_top) / 4;
    assert(planning::mb_total(x) >= 0) by (nonlinear_arith)
        requires
            planning::mb_total(x) == (s.width / 4) * rows,
            rows >= 0,
            s.width >= 0,
    ;
    planning::plan_is_in_range(x, o, None, None);
    let p = roundtrip::intra_plan_at(s, l, o, i);
    assert(rows * (s.width / 4) == (s.width / 4) * rows) by (nonlinear_arith);
}

proof fn picture_len(s: SourceView, o: EncoderOptions, n: int)
    requires
        encodable(s, o),
    ensures
        roundtrip::intra_picture(s, encoder::layout_of(s.height as u32, o), o, n).len() == s.width
            * decoder::mode_bpp(s.mode) * s.height,
    decreases n,
{
    let l = encoder::layout_of(s.height as u32, o);
    let bpp = decoder::mode_bpp(s.mode) as int;
    if n > 0 {
        picture_len(s, o, n - 1);
        let p = roundtrip::intra_plan_at(s, l, o, n - 1);
        drawing::drawn_mbs_len(
            roundtrip::intra_picture(s, l, o, n - 1),
            s.width * bpp,
            paint_of(s, o, n - 1),
            p.mbs,
            0,
            l[n - 1].y_top as int,
            s.width / 4,
            p.mbs.len(),
        );
    } else {
        assert(s.width * s.height * bpp == s.width * bpp * s.height && s.width * s.height * bpp >= 0)
            by (nonlinear_arith)
            requires
                s.width >= 0,
                s.height >= 0,
                bpp >= 0,
        ;
    }
}

proof fn one_strip_shows(s: SourceView, o: EncoderOptions, i: int, k: int, r: int, b: int)
    requires
        encodable(s, o),
        0 <= i < encoder::layout_of(s.height as u32, o).len(),
        ({
            let l = encoder::layout_of(s.height as u32, o);
            0 <= k < roundtrip::intra_plan_at(s, l, o, i).mbs.len()
        }),
        0 <= r < 4,
        0 <= b < 4 * decoder::mode_bpp(s.mode),
    ensures
        ({
            let l = encoder::layout_of(s.height as u32, o);
            let bpp = decoder::mode_bpp(s.mode) as int;
            let p = roundtrip::intra_plan_at(s, l, o, i);
            let px = drawing::left_of(0, s.width / 4, k);
            let py = drawing::top_of(l[i].y_top as int, s.width / 4, k);
            &&& 0 <= px && px + 4 <= s.width
            &&& l[i].y_top <= py && py + 4 <= l[i].y_bottom
            &&& roundtrip::intra_picture(s, l, o, i + 1)[(py + r) * (s.width * bpp) + (px * bpp + b)]
                == decoder::mb_row(paint_of(s, o, i), p.mbs[k], px, py, r)[b]
        }),
{
    let l = encoder::layout_of(s.height as u32, o);
    let p = roundtrip::intra_plan_at(s, l, o, i);
    let cols = s.width / 4;
    let rows = (l[i].y_bottom - l[i].y_top) / 4;
    strip_fills(s, o, i);
    drawing::place_inside(k, 0, l[i].y_top as int, cols, rows);
    let before = roundtrip::intra_picture(s, l, o, i);
    picture_len(s, o, i);
    drawing::strip_shows(
        before,
        paint_of(s, o, i),
        p.mbs,
        0,
        l[i].y_top as int,
        cols,
        rows,
        s.width,
        s.height,
        p.mbs.len(),
        k,
        r,
        b,
    );
}

proof fn strips_above_kept(s: SourceView, o: EncoderOptions, n: int, i: int, row: int, c: int)
    requires
        encodable(s, o),
        0 <= i < n <= encoder::layout_of(s.height as u32, o).len(),
        0 <= row < encoder::layout_of(s.height as u32, o)[i].y_bottom,
        0 <= c < s.width * decoder::mode_bpp(s.mode),
    ensures
        ({
            let l = encoder::layout_of(s.height as u32, o);
            let bpp = decoder::mode_bpp(s.mode) as int;
            roundtrip::intra_picture(s, l, o, n)[row * (s.width * bpp) + c]
                == roundtrip::intra_picture(s, l, o, i + 1)[row * (s.width * bpp) + c]
        }),
    decreases n,
{
    if i < n - 1 {
        strips_above_kept(s, o, n - 1, i, row, c);
        let l = encoder::layout_of(s.height as u32, o);
        let last = n - 1;
        strip_fills(s, o, last);
        strips::strips_tile(s.height as int / 4, o.strip_count as int);
        encoder::bottoms_ascend(l, i, last - 1);
        assert(l[last].y_top == l[last - 1].y_bottom);
        let before = roundtrip::intra_picture(s, l, o, last);
        picture_len(s, o, last);
        drawing::other_rows_kept(
            before,
            paint_of(s, o, last),
            roundtrip::intra_plan_at(s, l, o, last).mbs,
            0,
            l[last].y_top as int,
            s.width / 4,
            (l[last].y_bottom - l[last].y_top) / 4,
            s.width,
            s.height,
            roundtrip::intra_plan_at(s, l, o, last).mbs.len(),
            row,
            c,
        );
    }
}

/// A frame that stands alone shows every macroblock of every strip as its
/// plan codes it.
pub proof fn planned_is_shown(
    s: SourceView,
    o: EncoderOptions,
    n: int,
    i: int,
    k: int,
    r: int,
    b: int,
)
    requires
        encodable(s, o),
        0 <= i < n <= encoder::layout_of(s.height as u32, o).len(),
        ({
            let l = encoder::layout_of(s.height as u32, o);
            0 <= k < roundtrip::intra_plan_at(s, l, o, i).mbs.len()
        }),
        0 <= r < 4,
        0 <= b < 4 * decoder::mode_bpp(s.mode),
    ensures
        ({
            let l = encoder::layout_of(s.height as u32, o);
            let bpp = decoder::mode_bpp(s.mode) as int;
            let p = roundtrip::intra_plan_at(s, l, o, i);
            let px = drawing::left_of(0, s.width / 4, k);
            let py = drawing::top_of(l[i].y_top as int, s.width / 4, k);
            &&& 0 <= px && px + 4 <= s.width
            &&& l[i].y_top <= py && py + 4 <= l[i].y_bottom
            &&& roundtrip::intra_picture(s, l, o, n)[(py + r) * (s.width * bpp) + px * bpp + b]
                == decoder::mb_row(paint_of(s, o, i), p.mbs[k], px, py, r)[b]
        }),
{
    one_strip_shows(s, o, i, k, r, b);
    let l = encoder::layout_of(s.height as u32, o);
    let bpp = decoder::mode_bpp(s.mode) as int;
    let px = drawing::left_of(0, s.width / 4, k);
    let py = drawing::top_of(l[i].y_top as int, s.width / 4, k);
    let c = px * bpp + b;
    assert(0 <= c < s.width * bpp) by (nonlinear_arith)
        requires
            c == px * bpp + b,
            0 <= px,
            px + 4 <= s.width,
            0 <= b < 4 * bpp,
            bpp >= 1,
    ;
    strips_above_kept(s, o, n, i, py + r, c);
}

proof fn loss_of_same(a: Seq<u8>, b: Seq<u8>, s: SourceView, px: int, py: int)
    requires
        forall|r: int, c: int|
            0 <= r < 4 && 0 <= c < 4 ==> a[#[trigger] drawing::gray_at(s.width, py + r, px + c)]
                == b[drawing::gray_at(s.width, py + r, px + c)],
    ensures
        pricing::shown_loss(a, s, px, py) == pricing::shown_loss(b, s, px, py),
{
    assert forall|r: int, c: int| 0 <= r < 3 && 0 <= c < 3 implies #[trigger] pricing::square_shown(
        a,
        s,
        py + r,
        px + c,
    ) == pricing::square_shown(b, s, py + r, px + c) by {
        let w = s.width;
        assert(a[drawing::gray_at(w, py + r, px + c)] == b[drawing::gray_at(w, py + r, px + c)]);
        assert(a[drawing::gray_at(w, py + r, px + (c + 1))] == b[drawing::gray_at(
            w,
            py + r,
            px + (c + 1),
        )]);
        assert(a[drawing::gray_at(w, py + (r + 1), px + c)] == b[drawing::gray_at(
            w,
            py + (r + 1),
            px + c,
        )]);
        assert(a[drawing::gray_at(w, py + (r + 1), px + (c + 1))] == b[drawing::gray_at(
            w,
            py + (r + 1),
            px + (c + 1),
        )]);
    }
    assert(pricing::square_shown(a, s, py + 0, px + 0) == pricing::square_shown(b, s, py + 0, px + 0));
    assert(pricing::square_shown(a, s, py + 0, px + 2) == pricing::square_shown(b, s, py + 0, px + 2));
    assert(pricing::square_shown(a, s, py + 2, px + 0) == pricing::square_shown(b, s, py + 2, px + 0));
    assert(pricing::square_shown(a, s, py + 2, px + 2) == pricing::square_shown(b, s, py + 2, px + 2));
}

/// A decoded gray frame shows every macroblock of its picture as well as any
/// four entries of the strip's codebook would, but for what 24 bits are
/// worth.
#[verifier::rlimit(50)]
#[verifier::spinoff_prover]
pub proof fn decoded_gray_shown_well(
    st: DecoderState,
    pixels: Seq<u8>,
    width: u32,
    height: u32,
    o: EncoderOptions,
    r: RollView,
    i: int,
    k: int,
    y: [u8; 4],
    l: i64,
)
    requires
        roundtrip::state_whole(st),
        options::request_error(pixels.len(), width, height, PixelMode::Gray8, o) is None,
        encoder::run_frame(
            width,
            height,
            encoder::whole_intra_run(pixels, width, height, PixelMode::Gray8, o, r),
        ) is Ok,
        width <= 65535,
        height <= 65535,
        width * height * 3 <= usize::MAX,
        0 <= i < encoder::layout_of(height, o).len(),
        ({
            let s = encoder::picture(pixels, width, height, PixelMode::Gray8);
            let t = encoder::layout_of(height, o);
            0 <= k < roundtrip::intra_plan_at(s, t, o, i).mbs.len()
        }),
        o.rdo_lambda == Some(l),
        l >= 0,
        pricing::within(y, o.v4_entries as int),
    ensures
        ({
            let s = encoder::picture(pixels, width, height, PixelMode::Gray8);
            let t = encoder::layout_of(height, o);
            let run = encoder::whole_intra_run(pixels, width, height, PixelMode::Gray8, o, r);
            let bytes = encoder::run_frame(width, height, run)->Ok_0;
            let seen = decoder::decoded(st, bytes, None, None).1->Ok_0.planes[0].data;
            let px = drawing::left_of(0, width as int / 4, k);
            let py = drawing::top_of(t[i].y_top as int, width as int / 4, k);
            let other = decoder::draw_mb(seen, width as int, paint_of(s, o, i), Mb::V4(y), px, py);
            pricing::shown_loss(seen, s, px, py) * 65536 <= pricing::shown_loss(other, s, px, py)
                * 65536 + 24 * l
        }),
{
    let s = encoder::picture(pixels, width, height, PixelMode::Gray8);
    let t = encoder::layout_of(height, o);
    roundtrip::intra_decodes(st, pixels, width, height, PixelMode::Gray8, o, r, None);
    let seen = roundtrip::intra_picture(s, t, o, t.len() as int);
    let p = roundtrip::intra_plan_at(s, t, o, i);
    let a = paint_of(s, o, i);
    let px = drawing::left_of(0, width as int / 4, k);
    let py = drawing::top_of(t[i].y_top as int, width as int / 4, k);
    strip_fills(s, o, i);
    planned_is_shown(s, o, t.len() as int, i, k, 0, 0);
    picture_len(s, o, t.len() as int);
    pricing::plan_is_chosen(encoder::strip_of(s, t[i], None, o), o, None, None, k);
    let mb = p.mbs[k];
    assert(!(mb is Skip));
    let again = decoder::draw_mb(seen, s.width, a, mb, px, py);
    assert forall|q: int, c: int| 0 <= q < 4 && 0 <= c < 4 implies seen[#[trigger] drawing::gray_at(
        s.width,
        py + q,
        px + c,
    )] == again[drawing::gray_at(s.width, py + q, px + c)] by {
        planned_is_shown(s, o, t.len() as int, i, k, q, c);
        decoder::drawn_pixel(seen, a, mb, px, py, s.width, s.height, q, c);
    }
    loss_of_same(seen, again, s, px, py);
    pricing::gray_shown_well(s, o, p.v4, p.v1, seen, px, py, y, l);
}

} // verus!
