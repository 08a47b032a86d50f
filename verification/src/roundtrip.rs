//! What comes back when encoded frames are decoded.

use vstd::prelude::*;
use crate::codebook::{self, CodebookEntry, PixelMode, WhichCodebook};
use crate::decoder::{self, DecoderState, FrameWork, Paint};
use crate::encoder::{self, Run};
use crate::error::ErrorView;
use crate::header::{
    self, FrameHeader, FRAME_HEADER_SIZE, STRIP_HEADER_SIZE, STRIP_ID_INTER, STRIP_ID_INTRA,
};
use crate::image::{self, CinepakPixelFormat, FrameView, PlaneView};
use crate::measure;
use crate::options::{self, EncoderOptions};
use crate::planning::{self, PlanView, StripSource};
use crate::reading::{self, FrameReading};
use crate::reclaim;
use crate::rolling::{self, RollView, Update};
use crate::sampling::SourceView;
use crate::strips::{self, StripPlan};
use crate::vector::{self, Mb, VECTOR_CHUNK_INTRA};

verus! {

/// Whether drawing with one palette and with the other gives the same for a
/// macroblock.
spec fn entries_agree(a: Paint, b: Paint, mb: Mb) -> bool {
    match mb {
        Mb::V1(x) => codebook::coded(a.mode, a.v1[x as int]) == codebook::coded(a.mode, b.v1[x as int]),
        Mb::V4(x) => forall|k: int|
            0 <= k < 4 ==> codebook::coded(a.mode, a.v4[#[trigger] x[k] as int]) == codebook::coded(
                a.mode,
                b.v4[x[k] as int],
            ),
        Mb::Skip => true,
    }
}

proof fn row_same(a: Paint, b: Paint, mb: Mb, px: int, py: int, i: int)
    requires
        a.mode == b.mode,
        a.prev == b.prev,
        entries_agree(a, b, mb),
        0 <= i < 4,
    ensures
        decoder::mb_row(a, mb, px, py, i) == decoder::mb_row(b, mb, px, py, i),
{
    match mb {
        Mb::V1(x) => {
            assert(decoder::mb_row(a, mb, px, py, i) =~= decoder::mb_row(b, mb, px, py, i));
        },
        Mb::V4(x) => {
            assert(x[0] == x[0] && x[1] == x[1] && x[2] == x[2] && x[3] == x[3]);
            assert(decoder::mb_row(a, mb, px, py, i) =~= decoder::mb_row(b, mb, px, py, i));
        },
        Mb::Skip => {},
    }
}

proof fn rows_same(out: Seq<u8>, stride: int, a: Paint, b: Paint, mb: Mb, px: int, py: int, n: nat)
    requires
        a.mode == b.mode,
        a.prev == b.prev,
        entries_agree(a, b, mb),
        n <= 4,
    ensures
        decoder::draw_rows(out, stride, a, mb, px, py, n) == decoder::draw_rows(out, stride, b, mb, px, py, n),
    decreases n,
{
    if n > 0 {
        rows_same(out, stride, a, b, mb, px, py, (n - 1) as nat);
        row_same(a, b, mb, px, py, n - 1);
    }
}

proof fn mbs_same(
    out: Seq<u8>,
    stride: int,
    a: Paint,
    b: Paint,
    mbs: Seq<Mb>,
    x0: int,
    y0: int,
    cols: int,
    n: nat,
)
    requires
        a.mode == b.mode,
        a.prev == b.prev,
        n <= mbs.len(),
        forall|i: int| 0 <= i < n ==> entries_agree(a, b, #[trigger] mbs[i]),
    ensures
        decoder::draw_mbs(out, stride, a, mbs, x0, y0, cols, n) == decoder::draw_mbs(
            out,
            stride,
            b,
            mbs,
            x0,
            y0,
            cols,
            n,
        ),
    decreases n,
{
    if n > 0 {
        let i = n - 1;
        mbs_same(out, stride, a, b, mbs, x0, y0, cols, i as nat);
        assert(entries_agree(a, b, mbs[i]));
        rows_same(
            decoder::draw_mbs(out, stride, a, mbs, x0, y0, cols, i as nat),
            stride,
            a,
            b,
            mbs[i],
            x0 + i % cols * 4,
            y0 + i / cols * 4,
            4,
        );
    }
}

/// A picture with a strip drawn as its plan says.
pub open spec fn strip_drawn(
    canvas: Seq<u8>,
    s: SourceView,
    rows: StripPlan,
    p: PlanView,
    prev: Option<FrameView>,
) -> Seq<u8> {
    decoder::draw_mbs(
        canvas,
        s.width * decoder::mode_bpp(s.mode),
        Paint { mode: s.mode, v4: p.v4, v1: p.v1, prev },
        p.mbs,
        0,
        rows.y_top as int,
        s.width / 4,
        p.mbs.len(),
    )
}

/// A black picture.
pub open spec fn black(s: SourceView) -> Seq<u8> {
    Seq::new((s.width * s.height * decoder::mode_bpp(s.mode)) as nat, |k: int| 0u8)
}

/// A frame of the given pixels.
pub open spec fn frame_of(s: SourceView, data: Seq<u8>, pts: Option<i64>) -> FrameView {
    FrameView {
        width: s.width as u32,
        height: s.height as u32,
        pixel_format: decoder::mode_format(s.mode),
        pts,
        planes: seq![PlaneView { stride: (s.width * decoder::mode_bpp(s.mode)) as nat, data }],
    }
}

/// Whether a decoder's codebooks are whole.
pub open spec fn state_whole(d: DecoderState) -> bool {
    &&& d.v4 matches Some(cb) ==> cb.len() == 256
    &&& d.v1 matches Some(cb) ==> cb.len() == 256
}

/// Whether a decoder holds the codebook that the encoder takes it to hold.
pub open spec fn in_step(d: Seq<CodebookEntry>, held: Option<(Seq<CodebookEntry>, nat)>) -> bool {
    held matches Some((cb, n)) ==> forall|i: int| 0 <= i < n && i < 256 ==> #[trigger] d[i] == cb[i]
}

/// Whether a decoder holds both codebooks that the encoder takes it to hold.
pub open spec fn synchronised(v4: Seq<CodebookEntry>, v1: Seq<CodebookEntry>, r: RollView) -> bool {
    in_step(v4, r.v4) && in_step(v1, r.v1)
}

proof fn header_read(h: FrameHeader, body: Seq<u8>)
    requires
        h.strip_count > 0,
        h.width > 0,
        h.height > 0,
        h.width % 4 == 0,
        h.height % 4 == 0,
        FRAME_HEADER_SIZE <= h.frame_length < 16777216,
    ensures
        header::frame_header_bytes(h).len() == FRAME_HEADER_SIZE,
        header::frame_header(header::frame_header_bytes(h) + body) == Ok::<FrameHeader, ErrorView>(h),
{
    header::frame_header_round_trip(h);
    let b = header::frame_header_bytes(h);
    let all = b + body;
    assert(forall|i: int| 0 <= i < 10 ==> all[i] == b[i]);
}

/// What decoding a frame of strips gives.
pub(crate) proof fn frame_decodes(
    st: DecoderState,
    f: FrameReading,
    width: u32,
    height: u32,
    bytes: Seq<u8>,
    pts: Option<i64>,
)
    requires
        state_whole(st),
        reading::reading_sound(f),
        f.strips.len() == f.rows.len(),
        f.header == strips::frame_head(
            width,
            height,
            f.strips.len(),
            strips::joined(f.strips, f.strips.len() as int).len(),
        ),
        0 < width <= 65535,
        0 < height <= 65535,
        width % 4 == 0,
        height % 4 == 0,
        f.strips.len() <= 65535,
        width * height * 3 <= usize::MAX,
        strips::frame_bytes(width, height, f.strips) == Ok::<Seq<u8>, ErrorView>(bytes),
        f.prev == decoder::prev_of_size(st.prev, f.header),
    ensures
        ({
            let w = reading::reading_work(
                f,
                decoder::frame_start(st, FRAME_HEADER_SIZE as int),
                f.rows.len() as int,
            );
            let out = decoder::finished(f.header, w, pts);
            &&& decoder::decoded(st, bytes, pts, None) == (
                DecoderState { v4: Some(w.v4), v1: Some(w.v1), prev: Some(out) },
                Ok::<FrameView, ErrorView>(out),
            )
            &&& w.mode == Some(f.u4[0].mode)
            &&& w.v4.len() == 256
            &&& w.v1.len() == 256
        }),
{
    let n = f.strips.len() as int;
    let body = strips::joined(f.strips, n);
    let h = f.header;
    let head = header::frame_header_bytes(h);
    assert(h.width == width && h.height == height && h.strip_count == n);
    header_read(h, body);
    assert(bytes == head + body);
    assert(h.frame_length == bytes.len());
    assert(bytes.subrange(0, h.frame_length as int) =~= bytes);
    assert(h.width * h.height * 3 <= usize::MAX);
    let start = decoder::frame_start(st, FRAME_HEADER_SIZE as int);
    reading::frame_read(f, bytes, head, start);
}

/// The plan of strip `i` of a frame that stands alone.
pub open spec fn intra_plan_at(
    s: SourceView,
    layout: Seq<StripPlan>,
    o: EncoderOptions,
    i: int,
) -> PlanView {
    planning::strip_plan(encoder::strip_of(s, layout[i], None, o), o, None, None)
}

/// The first `n` strips of a frame that stands alone, drawn as planned.
pub open spec fn intra_picture(
    s: SourceView,
    layout: Seq<StripPlan>,
    o: EncoderOptions,
    n: int,
) -> Seq<u8>
    decreases n,
{
    if n <= 0 {
        black(s)
    } else {
        strip_drawn(
            intra_picture(s, layout, o, n - 1),
            s,
            layout[n - 1],
            intra_plan_at(s, layout, o, n - 1),
            None,
        )
    }
}

proof fn intra_run_strips(
    s: SourceView,
    layout: Seq<StripPlan>,
    o: EncoderOptions,
    r: RollView,
    n: int,
)
    requires
        0 <= n,
        encoder::intra_run(s, layout, o, r, n).error is None,
    ensures
        encoder::intra_run(s, layout, o, r, n).strips.len() == n,
        forall|i: int|
            0 <= i < n ==> strips::intra_strip(encoder::strip_of(s, layout[i], None, o), o) == Ok::<
                Seq<u8>,
                ErrorView,
            >(#[trigger] encoder::intra_run(s, layout, o, r, n).strips[i]),
    decreases n,
{
    if n > 0 {
        intra_run_strips(s, layout, o, r, n - 1);
        let before = encoder::intra_run(s, layout, o, r, n - 1).strips;
        let now = encoder::intra_run(s, layout, o, r, n).strips;
        assert forall|i: int| 0 <= i < n implies strips::intra_strip(
            encoder::strip_of(s, layout[i], None, o),
            o,
        ) == Ok::<Seq<u8>, ErrorView>(#[trigger] now[i]) by {
            if i < n - 1 {
                assert(now[i] == before[i]);
            }
        }
    }
}

/// What a decoder reads of a frame that stands alone.
pub open spec fn intra_reading(
    s: SourceView,
    layout: Seq<StripPlan>,
    o: EncoderOptions,
    strips: Seq<Seq<u8>>,
    width: u32,
    height: u32,
    prev: Option<FrameView>,
) -> FrameReading {
    let n = layout.len();
    FrameReading {
        header: strips::frame_head(width, height, strips.len(), strips::joined(strips, strips.len() as int).len()),
        rows: layout,
        intra: true,
        u4: Seq::new(
            n,
            |i: int|
                strips::v4_update(
                    encoder::strip_of(s, layout[i], None, o),
                    o,
                    intra_plan_at(s, layout, o, i),
                    false,
                    true,
                ),
        ),
        r4: Seq::new(n, |i: int| rolling::fresh_roll()),
        u1: Seq::new(
            n,
            |i: int|
                strips::v1_update(
                    encoder::strip_of(s, layout[i], None, o),
                    o,
                    intra_plan_at(s, layout, o, i),
                    false,
                    true,
                ),
        ),
        r1: Seq::new(n, |i: int| rolling::fresh_roll()),
        mbs: Seq::new(n, |i: int| intra_plan_at(s, layout, o, i).mbs),
        strips,
        prev,
    }
}

pub proof fn layout_sound(height: u32, o: EncoderOptions)
    requires
        height > 0,
        height % 4 == 0,
        o.strip_count > 0,
    ensures
        ({
            let l = encoder::layout_of(height, o);
            &&& 1 <= l.len() <= 65535
            &&& l[0].y_top == 0
            &&& forall|i: int|
                0 <= i < l.len() ==> (#[trigger] l[i]).y_top < l[i].y_bottom <= height
                    && l[i].y_top % 4 == 0 && l[i].y_bottom % 4 == 0 && (i > 0 ==> l[i].y_top > 0)
        }),
{
    let l = encoder::layout_of(height, o);
    strips::strips_tile(height as int / 4, o.strip_count as int);
    assert forall|i: int| 0 <= i < l.len() implies (#[trigger] l[i]).y_top < l[i].y_bottom <= height
        && l[i].y_top % 4 == 0 && l[i].y_bottom % 4 == 0 && (i > 0 ==> l[i].y_top > 0) by {
        crate::encoder::bottoms_ascend(l, i, l.len() - 1);
        if i > 0 {
            assert(l[i].y_top == l[i - 1].y_bottom);
            assert(l[i - 1].y_top < l[i - 1].y_bottom);
        }
    }
}

proof fn no_skip_has_none(mbs: Seq<Mb>)
    requires
        vector::no_skip(mbs),
    ensures
        !decoder::has_skip(mbs),
{
}

pub(crate) proof fn intra_script(x: StripSource, o: EncoderOptions, p: PlanView, r: RollView)
    ensures
        reading::script(
            strips::v4_update(x, o, p, false, true),
            r,
            strips::v1_update(x, o, p, false, true),
            r,
            true,
            p.mbs,
        ) == strips::intra_chunks(x.picture.mode, o, p),
{
    reveal(reading::script);
}

#[verifier::rlimit(50)]
#[verifier::spinoff_prover]
proof fn intra_strip_sound(
    s: SourceView,
    l: Seq<StripPlan>,
    o: EncoderOptions,
    strips: Seq<Seq<u8>>,
    width: u32,
    height: u32,
    prev: Option<FrameView>,
    i: int,
)
    requires
        0 < width <= 65535,
        0 < height <= 65535,
        s.width == width,
        s.height == height,
        options::options_error(o) is None,
        0 <= i < l.len(),
        l[i].y_top < l[i].y_bottom <= height,
        l[i].y_top % 4 == 0,
        l[i].y_bottom % 4 == 0,
        i == 0 ==> l[i].y_top == 0,
        i > 0 ==> l[i].y_top > 0,
        strips::intra_strip(encoder::strip_of(s, l[i], None, o), o) == Ok::<Seq<u8>, ErrorView>(strips[i]),
    ensures
        reading::strip_sound(intra_reading(s, l, o, strips, width, height, prev), i),
{
    let f = intra_reading(s, l, o, strips, width, height, prev);
    let x = encoder::strip_of(s, l[i], None, o);
    let p = intra_plan_at(s, l, o, i);
    let u4 = strips::v4_update(x, o, p, false, true);
    let u1 = strips::v1_update(x, o, p, false, true);
    let r = rolling::fresh_roll();
    let chunks = strips::intra_chunks(s.mode, o, p);
    intra_plan_sound(x, o, p);
    intra_script(x, o, p, r);
    strip_split(STRIP_ID_INTRA, l[i], width, chunks, strips[i]);
    assert(f.u4[i] == u4 && f.u1[i] == u1 && f.mbs[i] == p.mbs && f.r4[i] == r && f.r1[i] == r);
    assert(f.u4[0].mode == s.mode);
    assert(reading::reading_chunks(f, i) == chunks);
    assert(f.header.width == width && f.header.height == height);
}

pub(crate) proof fn intra_plan_sound(x: StripSource, o: EncoderOptions, p: PlanView)
    requires
        p == planning::strip_plan(x, o, None, None),
        x.prev is None,
        0 <= x.picture.width,
        x.top < x.bottom,
        options::options_error(o) is None,
    ensures
        vector::no_skip(p.mbs),
        !decoder::has_skip(p.mbs),
        p.mbs.len() == planning::mb_total(x),
{
    mb_total_positive(x);
    planning::plan_is_in_range(x, o, None, None);
    strips::plan_without_skip(x, o, None, None);
    no_skip_has_none(p.mbs);
}

pub(crate) proof fn strip_split(id: u16, rows: StripPlan, width: u32, chunks: Seq<u8>, bytes: Seq<u8>)
    requires
        strips::strip_bytes(id, rows, width, chunks) == Ok::<Seq<u8>, ErrorView>(bytes),
    ensures
        STRIP_HEADER_SIZE + chunks.len() <= 65535,
        bytes == header::strip_header_bytes(strips::strip_head(id, rows, width, chunks.len()))
            + chunks,
{
}

pub proof fn intra_reading_sound(
    pixels: Seq<u8>,
    width: u32,
    height: u32,
    mode: PixelMode,
    o: EncoderOptions,
    r: RollView,
    prev: Option<FrameView>,
)
    requires
        options::request_error(pixels.len(), width, height, mode, o) is None,
        width <= 65535,
        height <= 65535,
        encoder::whole_intra_run(pixels, width, height, mode, o, r).error is None,
    ensures
        ({
            let s = encoder::picture(pixels, width, height, mode);
            let l = encoder::layout_of(height, o);
            let strips = encoder::whole_intra_run(pixels, width, height, mode, o, r).strips;
            &&& strips.len() == l.len()
            &&& reading::reading_sound(intra_reading(s, l, o, strips, width, height, prev))
        }),
{
    let s = encoder::picture(pixels, width, height, mode);
    let l = encoder::layout_of(height, o);
    let n = l.len() as int;
    let strips = encoder::whole_intra_run(pixels, width, height, mode, o, r).strips;
    let f = intra_reading(s, l, o, strips, width, height, prev);
    layout_sound(height, o);
    intra_run_strips(s, l, o, r, n);
    assert forall|i: int| 0 <= i < n implies #[trigger] reading::strip_sound(f, i) by {
        assert(l[i].y_top < l[i].y_bottom);
        assert(strips::intra_strip(encoder::strip_of(s, l[i], None, o), o) == Ok::<Seq<u8>, ErrorView>(strips[i]));
        intra_strip_sound(s, l, o, strips, width, height, prev, i);
    }
}

pub(crate) proof fn mb_total_positive(x: StripSource)
    requires
        x.top <= x.bottom,
        x.picture.width >= 0,
    ensures
        planning::mb_total(x) >= 0,
{
    let a = (x.bottom - x.top) / 4;
    let b = x.picture.width / 4;
    assert(a * b >= 0) by (nonlinear_arith)
        requires
            a >= 0,
            b >= 0,
    ;
}

/// Whether the entries that a plan's macroblocks use are in a decoder's
/// codebooks.
pub open spec fn plan_held(
    mode: PixelMode,
    o: EncoderOptions,
    p: PlanView,
    v4: Seq<CodebookEntry>,
    v1: Seq<CodebookEntry>,
) -> bool {
    &&& forall|i: int|
        0 <= i < o.v4_entries && rolling::used_v4(p.mbs)[i] ==> #[trigger] v4[i] == codebook::coded(mode, p.v4[i])
    &&& forall|i: int|
        0 <= i < o.v1_entries && rolling::used_v1(p.mbs)[i] ==> #[trigger] v1[i] == codebook::coded(mode, p.v1[i])
}

pub(crate) proof fn plan_drawn(
    x: StripSource,
    o: EncoderOptions,
    p: PlanView,
    v4: Seq<CodebookEntry>,
    v1: Seq<CodebookEntry>,
    canvas: Seq<u8>,
    rows: StripPlan,
    prev: Option<FrameView>,
)
    requires
        planning::plan_in_range(x, o, p.mbs),
        plan_held(x.picture.mode, o, p, v4, v1),
        o.v4_entries <= 256,
        o.v1_entries <= 256,
    ensures
        decoder::draw_mbs(
            canvas,
            x.picture.width * decoder::mode_bpp(x.picture.mode),
            Paint { mode: x.picture.mode, v4, v1, prev },
            p.mbs,
            0,
            rows.y_top as int,
            x.picture.width / 4,
            p.mbs.len(),
        ) == strip_drawn(canvas, x.picture, rows, p, prev),
{
    let mode = x.picture.mode;
    let a = Paint { mode, v4, v1, prev };
    let b = Paint { mode, v4: p.v4, v1: p.v1, prev };
    assert forall|i: int| 0 <= i < p.mbs.len() implies entries_agree(a, b, #[trigger] p.mbs[i]) by {
        match p.mbs[i] {
            Mb::V1(k) => {
                assert(crate::rolling::mb_uses_v1(p.mbs[i], k as int));
                assert(rolling::used_v1(p.mbs)[k as int]);
                assert(v1[k as int] == codebook::coded(mode, p.v1[k as int]));
            },
            Mb::V4(k) => {
                assert forall|j: int| 0 <= j < 4 implies codebook::coded(mode, v4[#[trigger] k[j] as int])
                    == codebook::coded(mode, p.v4[k[j] as int]) by {
                    assert(crate::rolling::mb_uses_v4(p.mbs[i], k[j] as int));
                    assert(rolling::used_v4(p.mbs)[k[j] as int]);
                    assert(v4[k[j] as int] == codebook::coded(mode, p.v4[k[j] as int]));
                }
            },
            Mb::Skip => {},
        }
    }
    mbs_same(
        canvas,
        x.picture.width * decoder::mode_bpp(mode),
        a,
        b,
        p.mbs,
        0,
        rows.y_top as int,
        x.picture.width / 4,
        p.mbs.len(),
    );
}

pub(crate) proof fn draw_without_prev(
    out: Seq<u8>,
    stride: int,
    a: Paint,
    mbs: Seq<Mb>,
    x0: int,
    y0: int,
    cols: int,
    n: nat,
)
    requires
        n <= mbs.len(),
        vector::no_skip(mbs),
    ensures
        decoder::draw_mbs(out, stride, a, mbs, x0, y0, cols, n) == decoder::draw_mbs(
            out,
            stride,
            Paint { prev: None, ..a },
            mbs,
            x0,
            y0,
            cols,
            n,
        ),
    decreases n,
{
    if n > 0 {
        let i = n - 1;
        draw_without_prev(out, stride, a, mbs, x0, y0, cols, i as nat);
        let b = Paint { prev: None, ..a };
        let c = decoder::draw_mbs(out, stride, a, mbs, x0, y0, cols, i as nat);
        assert(!(mbs[i] is Skip));
        reveal_with_fuel(decoder::draw_rows, 5);
    }
}

proof fn intra_reading_picture(
    pixels: Seq<u8>,
    width: u32,
    height: u32,
    mode: PixelMode,
    o: EncoderOptions,
    r: RollView,
    prev: Option<FrameView>,
    start: FrameWork,
    n: int,
)
    requires
        options::request_error(pixels.len(), width, height, mode, o) is None,
        width <= 65535,
        height <= 65535,
        encoder::whole_intra_run(pixels, width, height, mode, o, r).error is None,
        start.v4.len() == 256,
        start.v1.len() == 256,
        start.mode is None,
        0 < n <= encoder::layout_of(height, o).len(),
    ensures
        ({
            let s = encoder::picture(pixels, width, height, mode);
            let l = encoder::layout_of(height, o);
            let strips = encoder::whole_intra_run(pixels, width, height, mode, o, r).strips;
            let w = reading::reading_work(
                intra_reading(s, l, o, strips, width, height, prev),
                start,
                n,
            );
            let run = encoder::intra_run(s, l, o, r, n);
            &&& w.out == intra_picture(s, l, o, n)
            &&& w.mode == Some(mode)
            &&& w.v4.len() == 256
            &&& w.v1.len() == 256
            &&& run.error is None && mode == PixelMode::Yuv12 ==> synchronised(
                w.v4,
                w.v1,
                run.roll,
            )
        }),
    decreases n,
{
    let s = encoder::picture(pixels, width, height, mode);
    let l = encoder::layout_of(height, o);
    let strips = encoder::whole_intra_run(pixels, width, height, mode, o, r).strips;
    let f = intra_reading(s, l, o, strips, width, height, prev);
    layout_sound(height, o);
    intra_run_strips(s, l, o, r, l.len() as int);
    let i = n - 1;
    if i > 0 {
        intra_reading_picture(pixels, width, height, mode, o, r, prev, start, i);
    }
    assert(l[i].y_top < l[i].y_bottom);
    intra_strip_picture(s, l, o, strips, width, height, prev, start, r, i);
}

pub(crate) proof fn forced_applied(u: Update, r: RollView, d: Seq<CodebookEntry>)
    requires
        u.force_full,
        u.n <= 256,
        d.len() == 256,
    ensures
        reading::applied(u, r, d).len() == 256,
        forall|i: int| 0 <= i < u.n ==> #[trigger] reading::applied(u, r, d)[i] == codebook::coded(u.mode, u.cb[i]),
{
}

#[verifier::rlimit(50)]
#[verifier::spinoff_prover]
proof fn intra_strip_picture(
    s: SourceView,
    l: Seq<StripPlan>,
    o: EncoderOptions,
    strips: Seq<Seq<u8>>,
    width: u32,
    height: u32,
    prev: Option<FrameView>,
    start: FrameWork,
    r: RollView,
    i: int,
)
    requires
        0 < width <= 65535,
        0 < height <= 65535,
        s.width == width,
        s.height == height,
        options::options_error(o) is None,
        0 <= i < l.len(),
        l[i].y_top < l[i].y_bottom <= height,
        i == 0 ==> start.mode is None,
        ({
            let w = reading::reading_work(intra_reading(s, l, o, strips, width, height, prev), start, i);
            &&& w.v4.len() == 256
            &&& w.v1.len() == 256
            &&& i > 0 ==> w.out == intra_picture(s, l, o, i) && w.mode is Some
        }),
    ensures
        ({
            let w = reading::reading_work(
                intra_reading(s, l, o, strips, width, height, prev),
                start,
                i + 1,
            );
            let run = encoder::intra_run(s, l, o, r, i + 1);
            &&& w.out == intra_picture(s, l, o, i + 1)
            &&& w.mode == Some(s.mode)
            &&& w.v4.len() == 256
            &&& w.v1.len() == 256
            &&& run.error is None && s.mode == PixelMode::Yuv12 ==> synchronised(
                w.v4,
                w.v1,
                run.roll,
            )
        }),
{
    let mode = s.mode;
    let f = intra_reading(s, l, o, strips, width, height, prev);
    let w0 = reading::reading_work(f, start, i);
    let w = reading::reading_work(f, start, i + 1);
    let x = encoder::strip_of(s, l[i], None, o);
    let p = intra_plan_at(s, l, o, i);
    mb_total_positive(x);
    planning::plan_is_in_range(x, o, None, None);
    strips::plan_without_skip(x, o, None, None);
    let u4 = strips::v4_update(x, o, p, false, true);
    let u1 = strips::v1_update(x, o, p, false, true);
    assert(f.u4[i] == u4 && f.u1[i] == u1 && f.mbs[i] == p.mbs);
    forced_applied(u4, rolling::fresh_roll(), w0.v4);
    forced_applied(u1, rolling::fresh_roll(), w0.v1);
    let canvas = if i == 0 {
        black(s)
    } else {
        intra_picture(s, l, o, i)
    };
    assert(black(s) =~= Seq::new(
        (f.header.width * f.header.height * decoder::mode_bpp(mode)) as nat,
        |k: int| 0u8,
    ));
    let stride = s.width * decoder::mode_bpp(mode);
    let a = Paint { mode, v4: w.v4, v1: w.v1, prev };
    draw_without_prev(
        canvas,
        stride,
        a,
        p.mbs,
        0,
        l[i].y_top as int,
        s.width / 4,
        p.mbs.len(),
    );
    plan_drawn(x, o, p, w.v4, w.v1, canvas, l[i], None);
    assert(f.header.width == s.width && f.header.height == s.height);
    assert(w.out == decoder::draw_mbs(
        canvas,
        stride,
        a,
        p.mbs,
        0,
        l[i].y_top as int,
        s.width / 4,
        p.mbs.len(),
    ));
    assert(canvas == intra_picture(s, l, o, i));
    assert(intra_picture(s, l, o, i + 1) == strip_drawn(
        intra_picture(s, l, o, i),
        s,
        l[i],
        p,
        None,
    ));
    let run = encoder::intra_run(s, l, o, r, i + 1);
    if run.error is None && s.mode == PixelMode::Yuv12 {
        assert(run.roll.v4 == Some((p.v4, o.v4_entries as nat)));
        assert(in_step(w.v4, run.roll.v4));
        assert(in_step(w.v1, run.roll.v1));
    }
}

proof fn intra_run_whole(
    s: SourceView,
    l: Seq<StripPlan>,
    o: EncoderOptions,
    r: RollView,
    n: int,
)
    requires
        options::options_error(o) is None,
        rolling::roll_wf(r),
        s.width >= 0,
        l == encoder::layout_of(s.height as u32, o),
        0 < s.height <= 0xffffffff,
        s.height % 4 == 0,
        n <= l.len(),
    ensures
        rolling::roll_wf(encoder::intra_run(s, l, o, r, n).roll),
    decreases n,
{
    if n > 0 {
        intra_run_whole(s, l, o, r, n - 1);
        layout_sound(s.height as u32, o);
        let x = encoder::strip_of(s, l[n - 1], None, o);
        assert(l[n - 1].y_top < l[n - 1].y_bottom);
        assert(planning::mb_total(x) >= 0) by (nonlinear_arith)
            requires
                planning::mb_total(x) == s.width / 4 * ((l[n - 1].y_bottom - l[n - 1].y_top) / 4),
                s.width >= 0,
                l[n - 1].y_top < l[n - 1].y_bottom,
        ;
        planning::plan_is_in_range(x, o, None, None);
    }
}

/// A frame that stands alone decodes in every decoder, to a frame of its own
/// size whose pixels are those of its plan, and the decoder then holds the
/// codebooks that the encoder takes it to hold.
pub proof fn intra_decodes(
    st: DecoderState,
    pixels: Seq<u8>,
    width: u32,
    height: u32,
    mode: PixelMode,
    o: EncoderOptions,
    r: RollView,
    pts: Option<i64>,
)
    requires
        state_whole(st),
        options::request_error(pixels.len(), width, height, mode, o) is None,
        encoder::run_frame(width, height, encoder::whole_intra_run(pixels, width, height, mode, o, r)) is Ok,
        width <= 65535,
        height <= 65535,
        width * height * 3 <= usize::MAX,
    ensures
        ({
            let s = encoder::picture(pixels, width, height, mode);
            let l = encoder::layout_of(height, o);
            let run = encoder::whole_intra_run(pixels, width, height, mode, o, r);
            let bytes = encoder::run_frame(width, height, run)->Ok_0;
            let out = frame_of(s, intra_picture(s, l, o, l.len() as int), pts);
            let d = decoder::decoded(st, bytes, pts, None);
            &&& d.1 == Ok::<FrameView, ErrorView>(out)
            &&& d.0.prev == Some(out)
            &&& d.0.v4 is Some && d.0.v1 is Some
            &&& state_whole(d.0)
            &&& mode == PixelMode::Yuv12 ==> synchronised(d.0.v4->0, d.0.v1->0, run.roll)
            &&& rolling::roll_wf(r) ==> rolling::roll_wf(run.roll)
        }),
{
    if rolling::roll_wf(r) {
        intra_run_whole(
            encoder::picture(pixels, width, height, mode),
            encoder::layout_of(height, o),
            o,
            r,
            encoder::layout_of(height, o).len() as int,
        );
    }
    let s = encoder::picture(pixels, width, height, mode);
    let l = encoder::layout_of(height, o);
    let n = l.len() as int;
    let run = encoder::whole_intra_run(pixels, width, height, mode, o, r);
    let bytes = encoder::run_frame(width, height, run)->Ok_0;
    layout_sound(height, o);
    let h = strips::frame_head(width, height, run.strips.len(), strips::joined(run.strips, run.strips.len() as int).len());
    let prev = decoder::prev_of_size(st.prev, h);
    let f = intra_reading(s, l, o, run.strips, width, height, prev);
    intra_reading_sound(pixels, width, height, mode, o, r, prev);
    frame_decodes(st, f, width, height, bytes, pts);
    let start = decoder::frame_start(st, FRAME_HEADER_SIZE as int);
    intra_reading_picture(pixels, width, height, mode, o, r, prev, start, n);
    let w = reading::reading_work(f, start, n);
    assert(decoder::finished(f.header, w, pts).planes =~= frame_of(
        s,
        intra_picture(s, l, o, n),
        pts,
    ).planes);
}

proof fn update_in_step(u: Update, r: RollView, d: Seq<CodebookEntry>)
    requires
        u.mode == PixelMode::Yuv12,
        u.n <= 256,
        u.cb.len() == 256,
        u.used.len() == 256,
        d.len() == 256,
        in_step(d, crate::rolling::held(r, u.which)),
    ensures
        reading::applied(u, r, d).len() == 256,
        in_step(reading::applied(u, r, d), Some((rolling::emitted(u, r).1, u.n))),
        forall|i: int|
            0 <= i < u.n && u.used[i] ==> #[trigger] reading::applied(u, r, d)[i] == u.cb[i],
{
    let a = reading::applied(u, r, d);
    let e = rolling::emitted(u, r).1;
    let prev = rolling::held_of_size(r, u.which, u.n);
    let slots = rolling::outdated(prev, u.cb, u.used, u.n as int);
    rolling::outdated_order(prev, u.cb, u.used, u.n as int);
    assert forall|i: int| 0 <= i < u.n && i < 256 implies #[trigger] a[i] == e[i] by {
        if prev is Some {
            assert(d[i] == prev->0[i]);
        }
    }
    assert forall|i: int| 0 <= i < u.n && u.used[i] implies #[trigger] a[i] == u.cb[i] by {
        rolling::used_entries_held(u, r, i);
        assert(a[i] == e[i]);
    }
}

proof fn emitted_len(u: Update, r: RollView)
    requires
        u.cb.len() == 256,
        rolling::roll_wf(r),
    ensures
        rolling::emitted(u, r).1.len() == 256,
{
}

proof fn renewed_len(s: Seq<u16>, slots: Seq<u8>, k: int)
    requires
        s.len() == 256,
    ensures
        crate::rolling::renewed(s, slots, k).len() == 256,
    decreases k,
{
    if k > 0 {
        renewed_len(s, slots, k - 1);
    }
}

pub(crate) proof fn inter_plan_whole(x: StripSource, o: EncoderOptions, r: RollView, seeding: bool)
    requires
        x.top <= x.bottom,
        x.picture.width >= 0,
        options::options_error(o) is None,
        rolling::roll_wf(r),
    ensures
        planning::plan_in_range(x, o, strips::inter_plan(x, o, r, seeding).0.mbs),
        strips::inter_plan(x, o, r, seeding).0.v4.len() == 256,
        strips::inter_plan(x, o, r, seeding).0.v1.len() == 256,
{
    let mode = x.picture.mode;
    let n4 = o.v4_entries as int;
    let n1 = o.v1_entries as int;
    let a = planning::kept_quads(x, planning::mb_total(x));
    let b = planning::kept_singles(x, planning::mb_total(x));
    let s4 = strips::strip_seed(a, mode, o, r, WhichCodebook::V4, n4, seeding).0;
    let s1 = strips::strip_seed(b, mode, o, r, WhichCodebook::V1, n1, seeding).0;
    seed_whole(a, mode, o, r, WhichCodebook::V4, n4, seeding);
    seed_whole(b, mode, o, r, WhichCodebook::V1, n1, seeding);
    mb_total_positive(x);
    planning::plan_is_in_range(x, o, s4, s1);
}

proof fn seed_whole(
    samples: Seq<CodebookEntry>,
    mode: PixelMode,
    o: EncoderOptions,
    r: RollView,
    which: WhichCodebook,
    n: int,
    seeding: bool,
)
    requires
        rolling::roll_wf(r),
    ensures
        strips::strip_seed(samples, mode, o, r, which, n, seeding).0 matches Some(s) ==> s.len() == 256,
{
    if let Some(cb) = rolling::held_of_size(r, which, n as nat) {
        if let Some(t) = o.stale_slot_threshold {
            let m = planning::metric_of(mode, o);
            reclaim::reclaimed_len(m, samples, cb, n, crate::rolling::stale(r, which), t);
        }
    }
}

/// The updates of a strip that builds on what came before, with the state
/// that each is made from.
pub open spec fn inter_updates(
    x: StripSource,
    o: EncoderOptions,
    r: RollView,
    selective: bool,
    seeding: bool,
) -> (Update, Update, RollView) {
    let (p, new4, new1) = strips::inter_plan(x, o, r, seeding);
    let u4 = strips::v4_update(x, o, p, selective, new4.len() > 0);
    let r4 = rolling::with_held(r, WhichCodebook::V4, rolling::emitted(u4, r).1, o.v4_entries as nat);
    (u4, strips::v1_update(x, o, p, selective, new1.len() > 0), r4)
}

pub(crate) proof fn inter_strip_parts(
    x: StripSource,
    o: EncoderOptions,
    r: RollView,
    selective: bool,
    seeding: bool,
)
    requires
        x.top <= x.bottom,
        x.picture.width >= 0,
        options::options_error(o) is None,
        rolling::roll_wf(r),
    ensures
        ({
            let (u4, u1, r4) = inter_updates(x, o, r, selective, seeding);
            let v = strips::inter_strip(x, o, r, selective, seeding);
            let p = strips::inter_plan(x, o, r, seeding).0;
            &&& v.bytes == strips::strip_bytes(
                STRIP_ID_INTER,
                crate::strips::rows_of(x),
                x.picture.width as u32,
                reading::script(u4, r, u1, r4, false, p.mbs),
            )
            &&& v.roll.v4 == Some((rolling::emitted(u4, r).1, o.v4_entries as nat))
            &&& v.roll.v1 == Some((rolling::emitted(u1, r4).1, o.v1_entries as nat))
            &&& rolling::roll_wf(v.roll)
            &&& rolling::roll_wf(r4)
        }),
{
    reveal(reading::script);
    reveal(strips::inter_strip);
    let (u4, u1, r4) = inter_updates(x, o, r, selective, seeding);
    let (p, new4, new1) = strips::inter_plan(x, o, r, seeding);
    inter_plan_whole(x, o, r, seeding);
    emitted_len(u4, r);
    emitted_len(u1, r4);
    renewed_len(r.v4_stale, new4, new4.len() as int);
    renewed_len(r.v1_stale, new1, new1.len() as int);
}

/// The circumstances of a frame that builds on what came before.
pub struct InterScene {
    pub source: SourceView,
    pub layout: Seq<StripPlan>,
    /// The plane that macroblocks are compared with.
    pub plane: Option<PlaneView>,
    pub options: EncoderOptions,
    pub roll: RollView,
    pub selective: bool,
    pub seeding: bool,
}

/// The frame after its first `n` strips.
pub open spec fn scene_run(c: InterScene, n: int) -> Run {
    encoder::inter_run(c.source, c.layout, c.plane, c.options, c.roll, c.selective, c.seeding, n)
}

/// Strip `i`.
pub open spec fn scene_strip(c: InterScene, i: int) -> StripSource {
    encoder::strip_of(c.source, c.layout[i], c.plane, c.options)
}

/// The plan of strip `i`.
pub open spec fn scene_plan(c: InterScene, i: int) -> PlanView {
    strips::inter_plan(scene_strip(c, i), c.options, scene_run(c, i).roll, c.seeding).0
}

/// The first `n` strips drawn as planned, over the frame `prev`.
pub open spec fn scene_picture(c: InterScene, prev: Option<FrameView>, n: int) -> Seq<u8>
    decreases n,
{
    if n <= 0 {
        black(c.source)
    } else {
        strip_drawn(
            scene_picture(c, prev, n - 1),
            c.source,
            c.layout[n - 1],
            scene_plan(c, n - 1),
            prev,
        )
    }
}

/// Whether a scene is one that the encoder meets.
pub open spec fn scene_ok(c: InterScene) -> bool {
    &&& 0 < c.source.width <= 65535
    &&& 0 < c.source.height <= 65535
    &&& c.source.width % 4 == 0
    &&& c.source.height % 4 == 0
    &&& c.source.mode == PixelMode::Yuv12
    &&& options::options_error(c.options) is None
    &&& c.layout == encoder::layout_of(c.source.height as u32, c.options)
    &&& rolling::roll_wf(c.roll)
}

pub proof fn scene_run_prefix(c: InterScene, i: int, n: int)
    requires
        scene_ok(c),
        0 <= i <= n <= c.layout.len(),
        scene_run(c, n).error is None,
    ensures
        scene_run(c, i).error is None,
        rolling::roll_wf(scene_run(c, i).roll),
        scene_run(c, i).strips.len() == i,
        scene_run(c, n).strips.len() == n,
        scene_run(c, i).strips == scene_run(c, n).strips.subrange(0, i),
    decreases n,
{
    if n == 0 {
        assert(scene_run(c, n).strips.subrange(0, 0) =~= scene_run(c, i).strips);
    } else {
        let m = n - 1;
        assert(scene_run(c, m).error is None);
        scene_run_prefix(c, if i < n {
            i
        } else {
            m
        }, m);
        layout_sound(c.source.height as u32, c.options);
        assert(c.layout[m].y_top < c.layout[m].y_bottom);
        if i < n {
            scene_run_prefix(c, m, m);
            assert(scene_run(c, n).strips.subrange(0, i) =~= scene_run(c, m).strips.subrange(0, i));
        } else {
            inter_strip_parts(
                scene_strip(c, m),
                c.options,
                scene_run(c, m).roll,
                c.selective,
                c.seeding,
            );
            assert(scene_run(c, n).strips.subrange(0, n) =~= scene_run(c, n).strips);
        }
    }
}

/// What a decoder reads of a frame that builds on what came before.
pub open spec fn scene_reading(
    c: InterScene,
    strips: Seq<Seq<u8>>,
    prev: Option<FrameView>,
) -> FrameReading {
    let n = c.layout.len();
    FrameReading {
        header: strips::frame_head(
            c.source.width as u32,
            c.source.height as u32,
            strips.len(),
            strips::joined(strips, strips.len() as int).len(),
        ),
        rows: c.layout,
        intra: false,
        u4: Seq::new(
            n,
            |i: int|
                inter_updates(
                    scene_strip(c, i),
                    c.options,
                    scene_run(c, i).roll,
                    c.selective,
                    c.seeding,
                ).0,
        ),
        r4: Seq::new(n, |i: int| scene_run(c, i).roll),
        u1: Seq::new(
            n,
            |i: int|
                inter_updates(
                    scene_strip(c, i),
                    c.options,
                    scene_run(c, i).roll,
                    c.selective,
                    c.seeding,
                ).1,
        ),
        r1: Seq::new(
            n,
            |i: int|
                inter_updates(
                    scene_strip(c, i),
                    c.options,
                    scene_run(c, i).roll,
                    c.selective,
                    c.seeding,
                ).2,
        ),
        mbs: Seq::new(n, |i: int| scene_plan(c, i).mbs),
        strips,
        prev,
    }
}

proof fn skips_need_plane(x: StripSource, o: EncoderOptions, mbs: Seq<Mb>)
    requires
        planning::plan_in_range(x, o, mbs),
        decoder::has_skip(mbs),
    ensures
        x.prev is Some,
{
    let i = choose|i: int| 0 <= i < mbs.len() && #[trigger] mbs[i] is Skip;
    assert(planning::skipped_at(x, i));
}

proof fn scene_strip_bytes(c: InterScene, strips: Seq<Seq<u8>>, i: int)
    requires
        scene_ok(c),
        0 <= i < c.layout.len(),
        scene_run(c, c.layout.len() as int).error is None,
        strips == scene_run(c, c.layout.len() as int).strips,
    ensures
        strips::inter_strip(
            scene_strip(c, i),
            c.options,
            scene_run(c, i).roll,
            c.selective,
            c.seeding,
        ).bytes == Ok::<Seq<u8>, ErrorView>(strips[i]),
        rolling::roll_wf(scene_run(c, i).roll),
        i < strips.len(),
{
    let n = c.layout.len() as int;
    scene_run_prefix(c, i, n);
    scene_run_prefix(c, i + 1, n);
    let v = strips::inter_strip(
        scene_strip(c, i),
        c.options,
        scene_run(c, i).roll,
        c.selective,
        c.seeding,
    );
    assert(scene_run(c, i + 1).strips[i] == strips[i]) by {
        assert(strips.subrange(0, i + 1)[i] == strips[i]);
    }
    assert(v.bytes is Ok);
    assert(scene_run(c, i + 1).strips == scene_run(c, i).strips.push(v.bytes->Ok_0));
}

/// Every strip of a frame that builds on what came before is made of its
/// updates and macroblocks.
#[verifier::rlimit(50)]
#[verifier::spinoff_prover]
pub proof fn scene_strip_sound(c: InterScene, strips: Seq<Seq<u8>>, prev: Option<FrameView>, i: int)
    requires
        scene_ok(c),
        0 <= i < c.layout.len(),
        scene_run(c, c.layout.len() as int).error is None,
        strips == scene_run(c, c.layout.len() as int).strips,
        c.plane is Some ==> prev is Some,
    ensures
        reading::strip_sound(scene_reading(c, strips, prev), i),
{
    let f = scene_reading(c, strips, prev);
    let x = scene_strip(c, i);
    let r = scene_run(c, i).roll;
    scene_strip_bytes(c, strips, i);
    layout_sound(c.source.height as u32, c.options);
    assert(c.layout[i].y_top < c.layout[i].y_bottom);
    let (u4, u1, r4) = inter_updates(x, c.options, r, c.selective, c.seeding);
    let p = scene_plan(c, i);
    inter_strip_parts(x, c.options, r, c.selective, c.seeding);
    inter_plan_whole(x, c.options, r, c.seeding);
    assert(f.u4[i] == u4 && f.u1[i] == u1 && f.r4[i] == r && f.r1[i] == r4 && f.mbs[i] == p.mbs);
    if decoder::has_skip(p.mbs) {
        skips_need_plane(x, c.options, p.mbs);
    }
    let chunks = reading::script(u4, r, u1, r4, false, p.mbs);
    assert(crate::strips::rows_of(x) == c.layout[i]);
    strip_split(STRIP_ID_INTER, c.layout[i], c.source.width as u32, chunks, strips[i]);
    assert(reading::reading_chunks(f, i) == chunks);
    assert(f.header.width == c.source.width && f.header.height == c.source.height);
    assert(f.u4[0].mode == u4.mode);
}

#[verifier::rlimit(50)]
#[verifier::spinoff_prover]
proof fn scene_strip_picture(
    c: InterScene,
    strips: Seq<Seq<u8>>,
    prev: Option<FrameView>,
    start: FrameWork,
    i: int,
)
    requires
        scene_ok(c),
        0 <= i < c.layout.len(),
        scene_run(c, c.layout.len() as int).error is None,
        strips == scene_run(c, c.layout.len() as int).strips,
        i == 0 ==> start.mode is None,
        ({
            let w = reading::reading_work(scene_reading(c, strips, prev), start, i);
            &&& w.v4.len() == 256
            &&& w.v1.len() == 256
            &&& i > 0 ==> w.out == scene_picture(c, prev, i) && w.mode is Some
            &&& synchronised(w.v4, w.v1, scene_run(c, i).roll)
        }),
    ensures
        ({
            let w = reading::reading_work(scene_reading(c, strips, prev), start, i + 1);
            &&& w.out == scene_picture(c, prev, i + 1)
            &&& w.mode == Some(PixelMode::Yuv12)
            &&& w.v4.len() == 256
            &&& w.v1.len() == 256
            &&& synchronised(w.v4, w.v1, scene_run(c, i + 1).roll)
        }),
{
    let n = c.layout.len() as int;
    let s = c.source;
    let o = c.options;
    let f = scene_reading(c, strips, prev);
    let w0 = reading::reading_work(f, start, i);
    let w = reading::reading_work(f, start, i + 1);
    let x = scene_strip(c, i);
    let r = scene_run(c, i).roll;
    layout_sound(c.source.height as u32, o);
    scene_run_prefix(c, i, n);
    scene_run_prefix(c, i + 1, n);
    assert(c.layout[i].y_top < c.layout[i].y_bottom);
    let (u4, u1, r4) = inter_updates(x, o, r, c.selective, c.seeding);
    let p = scene_plan(c, i);
    inter_strip_parts(x, o, r, c.selective, c.seeding);
    inter_plan_whole(x, o, r, c.seeding);
    assert(f.u4[i] == u4 && f.u1[i] == u1 && f.r4[i] == r && f.r1[i] == r4 && f.mbs[i] == p.mbs);
    assert(rolling::used_v4(p.mbs).len() == 256 && rolling::used_v1(p.mbs).len() == 256);
    update_in_step(u4, r, w0.v4);
    update_in_step(u1, r4, w0.v1);
    assert(w.v4 == reading::applied(u4, r, w0.v4) && w.v1 == reading::applied(u1, r4, w0.v1));
    let canvas = if i == 0 {
        black(s)
    } else {
        scene_picture(c, prev, i)
    };
    assert(f.header.width == s.width && f.header.height == s.height);
    assert(black(s) =~= Seq::new(
        (f.header.width * f.header.height * decoder::mode_bpp(PixelMode::Yuv12)) as nat,
        |k: int| 0u8,
    ));
    plan_drawn(x, o, p, w.v4, w.v1, canvas, c.layout[i], prev);
    assert(canvas == scene_picture(c, prev, i));
    assert(scene_picture(c, prev, i + 1) == strip_drawn(
        scene_picture(c, prev, i),
        s,
        c.layout[i],
        p,
        prev,
    ));
    let v = strips::inter_strip(x, o, r, c.selective, c.seeding);
    assert(scene_run(c, i + 1).roll == v.roll);
}

proof fn scene_reading_picture(
    c: InterScene,
    strips: Seq<Seq<u8>>,
    prev: Option<FrameView>,
    start: FrameWork,
    n: int,
)
    requires
        scene_ok(c),
        0 <= n <= c.layout.len(),
        scene_run(c, c.layout.len() as int).error is None,
        strips == scene_run(c, c.layout.len() as int).strips,
        start.mode is None,
        start.v4.len() == 256,
        start.v1.len() == 256,
        synchronised(start.v4, start.v1, c.roll),
    ensures
        ({
            let w = reading::reading_work(scene_reading(c, strips, prev), start, n);
            &&& n > 0 ==> w.out == scene_picture(c, prev, n) && w.mode == Some(PixelMode::Yuv12)
            &&& w.v4.len() == 256
            &&& w.v1.len() == 256
            &&& synchronised(w.v4, w.v1, scene_run(c, n).roll)
        }),
    decreases n,
{
    if n > 0 {
        scene_reading_picture(c, strips, prev, start, n - 1);
        scene_strip_picture(c, strips, prev, start, n - 1);
    }
}

/// A frame that builds on what came before decodes in every decoder that
/// holds what the encoder takes it to hold: to a frame of its own size whose
/// pixels are those of its plan, drawn over the decoder's previous frame. The
/// decoder then again holds what the encoder takes it to hold.
pub proof fn inter_decodes(st: DecoderState, c: InterScene, pts: Option<i64>)
    requires
        scene_ok(c),
        state_whole(st),
        synchronised(decoder::or_zero(st.v4), decoder::or_zero(st.v1), c.roll),
        st.prev matches Some(f) ==> f.pixel_format == CinepakPixelFormat::Rgb24,
        c.plane is Some ==> (st.prev matches Some(f) && f.width == c.source.width && f.height
            == c.source.height),
        c.source.width * c.source.height * 3 <= usize::MAX,
        encoder::run_frame(
            c.source.width as u32,
            c.source.height as u32,
            scene_run(c, c.layout.len() as int),
        ) is Ok,
    ensures
        ({
            let run = scene_run(c, c.layout.len() as int);
            let width = c.source.width as u32;
            let height = c.source.height as u32;
            let bytes = encoder::run_frame(width, height, run)->Ok_0;
            let prev = match st.prev {
                Some(f) => if f.width == width && f.height == height {
                    Some(f)
                } else {
                    None
                },
                None => None,
            };
            let out = frame_of(c.source, scene_picture(c, prev, c.layout.len() as int), pts);
            let d = decoder::decoded(st, bytes, pts, None);
            &&& d.1 == Ok::<FrameView, ErrorView>(out)
            &&& d.0.prev == Some(out)
            &&& d.0.v4 is Some && d.0.v1 is Some
            &&& state_whole(d.0)
            &&& synchronised(d.0.v4->0, d.0.v1->0, run.roll)
            &&& rolling::roll_wf(run.roll)
        }),
{
    let n = c.layout.len() as int;
    let run = scene_run(c, n);
    let width = c.source.width as u32;
    let height = c.source.height as u32;
    let bytes = encoder::run_frame(width, height, run)->Ok_0;
    layout_sound(height, c.options);
    scene_run_prefix(c, n, n);
    let h = strips::frame_head(
        width,
        height,
        run.strips.len(),
        strips::joined(run.strips, run.strips.len() as int).len(),
    );
    let prev = decoder::prev_of_size(st.prev, h);
    let f = scene_reading(c, run.strips, prev);
    assert(h.width == width && h.height == height);
    assert forall|i: int| 0 <= i < n implies #[trigger] reading::strip_sound(f, i) by {
        scene_strip_sound(c, run.strips, prev, i);
    }
    assert(f.u4[0].mode == PixelMode::Yuv12);
    assert(reading::reading_sound(f));
    frame_decodes(st, f, width, height, bytes, pts);
    let start = decoder::frame_start(st, FRAME_HEADER_SIZE as int);
    scene_reading_picture(c, run.strips, prev, start, n);
    let w = reading::reading_work(f, start, n);
    assert(decoder::finished(f.header, w, pts).planes =~= frame_of(
        c.source,
        scene_picture(c, prev, n),
        pts,
    ).planes);
}

/// Drawing keeps the size of a picture.
pub(crate) proof fn drawn_len(
    out: Seq<u8>,
    stride: int,
    a: Paint,
    mbs: Seq<Mb>,
    x0: int,
    y0: int,
    cols: int,
    n: nat,
)
    ensures
        decoder::draw_mbs(out, stride, a, mbs, x0, y0, cols, n).len() == out.len(),
    decreases n,
{
    if n > 0 {
        drawn_len(out, stride, a, mbs, x0, y0, cols, (n - 1) as nat);
        reveal_with_fuel(decoder::draw_rows, 5);
    }
}

proof fn intra_picture_len(s: SourceView, l: Seq<StripPlan>, o: EncoderOptions, n: int)
    ensures
        intra_picture(s, l, o, n).len() == black(s).len(),
    decreases n,
{
    if n > 0 {
        intra_picture_len(s, l, o, n - 1);
        let p = intra_plan_at(s, l, o, n - 1);
        drawn_len(
            intra_picture(s, l, o, n - 1),
            s.width * decoder::mode_bpp(s.mode),
            Paint { mode: s.mode, v4: p.v4, v1: p.v1, prev: None },
            p.mbs,
            0,
            l[n - 1].y_top as int,
            s.width / 4,
            p.mbs.len(),
        );
    }
}

proof fn scene_picture_len(c: InterScene, prev: Option<FrameView>, n: int)
    ensures
        scene_picture(c, prev, n).len() == black(c.source).len(),
    decreases n,
{
    if n > 0 {
        scene_picture_len(c, prev, n - 1);
        let p = scene_plan(c, n - 1);
        let s = c.source;
        drawn_len(
            scene_picture(c, prev, n - 1),
            s.width * decoder::mode_bpp(s.mode),
            Paint { mode: s.mode, v4: p.v4, v1: p.v1, prev },
            p.mbs,
            0,
            c.layout[n - 1].y_top as int,
            s.width / 4,
            p.mbs.len(),
        );
    }
}

/// A frame of all the pixels of a colour picture covers it.
pub(crate) proof fn whole_frame_covers(s: SourceView, data: Seq<u8>, pts: Option<i64>)
    requires
        s.mode == PixelMode::Yuv12,
        0 < s.width <= 0xffffffff,
        0 < s.height <= 0xffffffff,
        data.len() == black(s).len(),
    ensures
        measure::covers_rgb(frame_of(s, data, pts), s.width as u32, s.height as u32),
        image::packed(frame_of(s, data, pts)),
{
    let w = s.width;
    let h = s.height;
    assert(w * h * 3 == (h - 1) * (w * 3) + w * 3 && w * h * 3 == (w * 3) * h && w * h * 3 >= 0)
        by (nonlinear_arith)
        requires
            0 < w,
            0 < h,
    ;
}

/// What a decoder makes of a frame that stands alone can be measured.
pub proof fn intra_is_measured(
    st: DecoderState,
    rgb: Seq<u8>,
    width: u32,
    height: u32,
    o: EncoderOptions,
    r: RollView,
)
    requires
        state_whole(st),
        options::request_error(rgb.len(), width, height, PixelMode::Yuv12, o) is None,
        encoder::run_frame(
            width,
            height,
            encoder::whole_intra_run(rgb, width, height, PixelMode::Yuv12, o, r),
        ) is Ok,
        width <= 65535,
        height <= 65535,
        width * height * 3 <= usize::MAX,
    ensures
        measure::decoded_y_error(
            st,
            encoder::run_frame(
                width,
                height,
                encoder::whole_intra_run(rgb, width, height, PixelMode::Yuv12, o, r),
            )->Ok_0,
            rgb,
            width,
            height,
        ) is Ok,
{
    let s = encoder::picture(rgb, width, height, PixelMode::Yuv12);
    let l = encoder::layout_of(height, o);
    intra_decodes(st, rgb, width, height, PixelMode::Yuv12, o, r, None);
    intra_picture_len(s, l, o, l.len() as int);
    whole_frame_covers(s, intra_picture(s, l, o, l.len() as int), None);
}

/// What a decoder makes of a frame that builds on what came before can be
/// measured.
pub proof fn inter_is_measured(st: DecoderState, c: InterScene)
    requires
        scene_ok(c),
        state_whole(st),
        synchronised(decoder::or_zero(st.v4), decoder::or_zero(st.v1), c.roll),
        st.prev matches Some(f) ==> f.pixel_format == CinepakPixelFormat::Rgb24,
        c.plane is Some ==> (st.prev matches Some(f) && f.width == c.source.width && f.height
            == c.source.height),
        c.source.width * c.source.height * 3 <= usize::MAX,
        encoder::run_frame(
            c.source.width as u32,
            c.source.height as u32,
            scene_run(c, c.layout.len() as int),
        ) is Ok,
    ensures
        measure::decoded_y_error(
            st,
            encoder::run_frame(
                c.source.width as u32,
                c.source.height as u32,
                scene_run(c, c.layout.len() as int),
            )->Ok_0,
            c.source.pixels,
            c.source.width as u32,
            c.source.height as u32,
        ) is Ok,
{
    let n = c.layout.len() as int;
    inter_decodes(st, c, None);
    let f = decoder::decoded(
        st,
        encoder::run_frame(c.source.width as u32, c.source.height as u32, scene_run(c, n))->Ok_0,
        None,
        None,
    ).1->Ok_0;
    let prev = match st.prev {
        Some(g) => if g.width == c.source.width as u32 && g.height == c.source.height as u32 {
            Some(g)
        } else {
            None
        },
        None => None,
    };
    scene_picture_len(c, prev, n);
    whole_frame_covers(c.source, scene_picture(c, prev, n), None);
    assert(f == frame_of(c.source, scene_picture(c, prev, n), None));
}

} // verus!
