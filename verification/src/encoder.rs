//! The encoder for single frames.
//!
//! A frame is cut into horizontal strips. For each strip two codebooks are
//! made from its macroblocks of four by four pixels: V1, with one entry for
//! a macroblock, and V4, with one for each quarter. Every macroblock is then
//! coded with one V1 or four V4 entries, or skipped where it matches the
//! frame before.

use vstd::prelude::*;
use crate::codebook::PixelMode;
use crate::decoder;
use crate::error::{other, CinepakError, ErrorView, Result};
use crate::image::{self, CinepakFrame, CinepakPixelFormat, CinepakPlane, FrameView, PlaneView};
use crate::planning::{self, Strip, StripSource};
use crate::rolling::{self, RollView, RollingCodebooks};
use crate::sampling::{self, Source, SourceView};
use crate::strips::{
    self, assemble_frame, encode_inter_strip, encode_intra_strip, plan_strips, StripPlan,
};
use crate::text::{self, cat, cat_dec, lit};

use crate::options;
pub use crate::options::{
    validate_dims, validate_input_size, validate_opts, validate_request, EncoderOptions,
};
pub use crate::rate::{RateControlledFrame, TwoPassRateControl};
pub use crate::search::{
    encode_rgb24_best_rd_grid, encode_rgb24_best_rd_grid_3axis, encode_rgb24_best_strips,
    encode_rgb24_round6, encode_rgb24_round7,
};
pub use crate::session::{CinepakEncoder, FrameStats, RateStats};
pub use crate::stripwise::{encode_rgb24_per_strip_rd, encode_rgb24_round8};

verus! {

/// How far the strips of a frame have come.
#[verifier::ext_equal]
pub struct Run {
    pub strips: Seq<Seq<u8>>,
    /// What stopped the work.
    pub error: Option<ErrorView>,
    pub roll: RollView,
    pub used_v4: Seq<bool>,
    pub used_v1: Seq<bool>,
    pub reclaimed_v4: nat,
    pub reclaimed_v1: nat,
    /// Updates that had to be full ones because entries were given new
    /// values.
    pub forced: nat,
}

/// A frame before its first strip.
pub open spec fn start_run(r: RollView) -> Run {
    Run {
        strips: Seq::empty(),
        error: None,
        roll: r,
        used_v4: Seq::new(256, |i: int| false),
        used_v1: Seq::new(256, |i: int| false),
        reclaimed_v4: 0,
        reclaimed_v1: 0,
        forced: 0,
    }
}

/// A picture.
pub open spec fn picture(pixels: Seq<u8>, width: u32, height: u32, mode: PixelMode) -> SourceView {
    SourceView { pixels, width: width as int, height: height as int, mode }
}

/// A strip of a picture.
pub open spec fn strip_of(
    s: SourceView,
    rows: StripPlan,
    prev: Option<PlaneView>,
    o: EncoderOptions,
) -> StripSource {
    StripSource {
        picture: s,
        top: rows.y_top as int,
        bottom: rows.y_bottom as int,
        prev,
        threshold: o.skip_threshold,
    }
}

/// The frame after one more strip that stands alone.
pub open spec fn intra_step(s: SourceView, rows: StripPlan, o: EncoderOptions, run: Run) -> Run {
    let x = strip_of(s, rows, None, o);
    if run.error is Some {
        run
    } else {
        match strips::intra_strip(x, o) {
            Ok(b) => Run {
                strips: run.strips.push(b),
                roll: strips::intra_roll(x, o, run.roll),
                ..run
            },
            Err(e) => Run { error: Some(e), roll: strips::intra_roll(x, o, run.roll), ..run },
        }
    }
}

/// The frame after its first `n` strips that stand alone.
pub open spec fn intra_run(
    s: SourceView,
    layout: Seq<StripPlan>,
    o: EncoderOptions,
    r: RollView,
    n: int,
) -> Run
    decreases n,
{
    if n <= 0 {
        start_run(r)
    } else {
        intra_step(s, layout[n - 1], o, intra_run(s, layout, o, r, n - 1))
    }
}

/// Entries used in either of two sets of strips.
pub open spec fn either(a: Seq<bool>, b: Seq<bool>) -> Seq<bool> {
    Seq::new(256, |i: int| a[i] || b[i])
}

/// The frame after one more strip that builds on what came before.
pub open spec fn inter_step(
    s: SourceView,
    rows: StripPlan,
    prev: Option<PlaneView>,
    o: EncoderOptions,
    selective: bool,
    seeding: bool,
    run: Run,
) -> Run {
    if run.error is Some {
        run
    } else {
        let v = strips::inter_strip(strip_of(s, rows, prev, o), o, run.roll, selective, seeding);
        let next = Run {
            roll: v.roll,
            used_v4: either(run.used_v4, v.used_v4),
            used_v1: either(run.used_v1, v.used_v1),
            reclaimed_v4: run.reclaimed_v4 + v.reclaimed_v4.len(),
            reclaimed_v1: run.reclaimed_v1 + v.reclaimed_v1.len(),
            forced: run.forced + if v.reclaimed_v4.len() > 0 {
                1nat
            } else {
                0nat
            } + if v.reclaimed_v1.len() > 0 {
                1nat
            } else {
                0nat
            },
            ..run
        };
        match v.bytes {
            Ok(b) => Run { strips: run.strips.push(b), ..next },
            Err(e) => Run { error: Some(e), ..next },
        }
    }
}

/// The frame after its first `n` strips that build on what came before.
pub open spec fn inter_run(
    s: SourceView,
    layout: Seq<StripPlan>,
    prev: Option<PlaneView>,
    o: EncoderOptions,
    r: RollView,
    selective: bool,
    seeding: bool,
    n: int,
) -> Run
    decreases n,
{
    if n <= 0 {
        start_run(r)
    } else {
        inter_step(
            s,
            layout[n - 1],
            prev,
            o,
            selective,
            seeding,
            inter_run(s, layout, prev, o, r, selective, seeding, n - 1),
        )
    }
}

/// The frame that strips make, or what stopped the work.
pub open spec fn run_frame(width: u32, height: u32, run: Run) -> core::result::Result<
    Seq<u8>,
    ErrorView,
> {
    match run.error {
        Some(e) => Err(e),
        None => strips::frame_bytes(width, height, run.strips),
    }
}

/// The strips of a frame.
pub open spec fn layout_of(height: u32, o: EncoderOptions) -> Seq<StripPlan> {
    strips::strip_layout(height as int / 4, o.strip_count as int)
}

/// All the strips of a frame that stands alone.
pub open spec fn whole_intra_run(
    pixels: Seq<u8>,
    width: u32,
    height: u32,
    mode: PixelMode,
    o: EncoderOptions,
    r: RollView,
) -> Run {
    let layout = layout_of(height, o);
    intra_run(picture(pixels, width, height, mode), layout, o, r, layout.len() as int)
}

/// All the strips of a frame that builds on what came before.
pub open spec fn whole_inter_run(
    pixels: Seq<u8>,
    width: u32,
    height: u32,
    prev: Option<PlaneView>,
    o: EncoderOptions,
    r: RollView,
    selective: bool,
    seeding: bool,
) -> Run {
    let layout = layout_of(height, o);
    inter_run(
        picture(pixels, width, height, PixelMode::Yuv12),
        layout,
        prev,
        o,
        r,
        selective,
        seeding,
        layout.len() as int,
    )
}

/// A frame that stands alone, or why there is none.
pub open spec fn intra_frame(
    pixels: Seq<u8>,
    width: u32,
    height: u32,
    mode: PixelMode,
    o: EncoderOptions,
) -> core::result::Result<Seq<u8>, ErrorView> {
    match options::request_error(pixels.len(), width, height, mode, o) {
        Some(e) => Err(e),
        None => run_frame(
            width,
            height,
            whole_intra_run(pixels, width, height, mode, o, rolling::fresh_roll()),
        ),
    }
}

/// Message of a previous frame of another size.
pub open spec fn prev_size_differs(pw: u32, ph: u32, w: u32, h: u32) -> ErrorView {
    ErrorView::Other(
        "encoder: prev frame dims "@ + text::dec(pw as nat) + "x"@ + text::dec(ph as nat) + " != current "@
            + text::dec(w as nat) + "x"@ + text::dec(h as nat),
    )
}

/// Message of a previous frame without colour.
pub open spec fn prev_not_rgb() -> ErrorView {
    ErrorView::Other("encoder: encode_rgb24_inter requires Rgb24 prev frame"@)
}

/// A frame that builds on the previous one, or why there is none.
pub open spec fn inter_frame(
    pixels: Seq<u8>,
    prev: FrameView,
    width: u32,
    height: u32,
    o: EncoderOptions,
) -> core::result::Result<Seq<u8>, ErrorView> {
    if prev.width != width || prev.height != height {
        Err(prev_size_differs(prev.width, prev.height, width, height))
    } else if prev.pixel_format != CinepakPixelFormat::Rgb24 {
        Err(prev_not_rgb())
    } else {
        match options::request_error(pixels.len(), width, height, PixelMode::Yuv12, o) {
            Some(e) => Err(e),
            None => run_frame(
                width,
                height,
                whole_inter_run(
                    pixels,
                    width,
                    height,
                    Some(prev.planes[0]),
                    o,
                    rolling::fresh_roll(),
                    false,
                    false,
                ),
            ),
        }
    }
}

/// Whether the first plane of a frame has all the bytes of its picture.
pub open spec fn frame_covers(f: FrameView) -> bool {
    &&& f.planes.len() >= 1
    &&& sampling::plane_covers(
        f.planes[0],
        f.width as int,
        f.height as int,
        image::format_bpp(f.pixel_format) as int,
    )
}

/// The strips of a frame so far.
pub(crate) struct FrameRun {
    pub(crate) strips: Vec<Vec<u8>>,
    pub(crate) error: Option<CinepakError>,
    pub(crate) used_v4: [bool; 256],
    pub(crate) used_v1: [bool; 256],
    pub(crate) reclaimed_v4: usize,
    pub(crate) reclaimed_v1: usize,
    pub(crate) forced: usize,
}

/// What stopped the work.
pub open spec fn stop_view(e: Option<CinepakError>) -> Option<ErrorView> {
    match e {
        Some(x) => Some(x@),
        None => None,
    }
}

impl FrameRun {
    pub(crate) open spec fn shows(self, run: Run) -> bool {
        &&& strips::strip_views(self.strips@) == run.strips
        &&& stop_view(self.error) == run.error
        &&& self.used_v4@ == run.used_v4
        &&& self.used_v1@ == run.used_v1
        &&& self.reclaimed_v4 == run.reclaimed_v4
        &&& self.reclaimed_v1 == run.reclaimed_v1
        &&& self.forced == run.forced
    }

    fn start(Ghost(r): Ghost<RollView>) -> (out: Self)
        ensures
            out.shows(start_run(r)),
            out.strips@.len() == 0,
    {
        let out = FrameRun {
            strips: Vec::new(),
            error: None,
            used_v4: [false;256],
            used_v1: [false;256],
            reclaimed_v4: 0,
            reclaimed_v1: 0,
            forced: 0,
        };
        assert(strips::strip_views(out.strips@) =~= Seq::empty());
        assert(out.used_v4@ =~= start_run(r).used_v4);
        assert(out.used_v1@ =~= start_run(r).used_v1);
        out
    }

    /// The frame that the strips make.
    pub(crate) fn frame(self, width: u32, height: u32, Ghost(run): Ghost<Run>) -> (r: Result<
        Vec<u8>,
    >)
        requires
            self.shows(run),
            self.strips@.len() <= 65535,
        ensures
            strips::bytes_outcome(r) == run_frame(width, height, run),
            r matches Ok(v) ==> v@.len() <= 0xffffff,
    {
        match self.error {
            Some(e) => Err(e),
            None => assemble_frame(width, height, &self.strips),
        }
    }
}

pub proof fn layout_fits(height: u32, o: EncoderOptions, i: int)
    requires
        height > 0,
        height % 4 == 0,
        0 <= i < layout_of(height, o).len(),
    ensures
        layout_of(height, o)[i].y_top < layout_of(height, o)[i].y_bottom <= height,
        layout_of(height, o)[i].y_top % 4 == 0,
        layout_of(height, o)[i].y_bottom % 4 == 0,
{
    let rows = height as int / 4;
    strips::strips_tile(rows, o.strip_count as int);
    let s = layout_of(height, o);
    bottoms_ascend(s, i, s.len() - 1);
}

/// Later strips end lower.
pub proof fn bottoms_ascend(s: Seq<StripPlan>, i: int, j: int)
    requires
        0 <= i <= j < s.len(),
        forall|k: int| 0 < k < s.len() ==> (#[trigger] s[k]).y_top == s[k - 1].y_bottom,
        forall|k: int| 0 <= k < s.len() ==> (#[trigger] s[k]).y_top < s[k].y_bottom,
    ensures
        s[i].y_bottom <= s[j].y_bottom,
    decreases j - i,
{
    if i < j {
        bottoms_ascend(s, i, j - 1);
        assert(s[j].y_top == s[j - 1].y_bottom);
    }
}

/// Encodes the strips of a frame that stands alone.
pub(crate) fn run_intra(
    pixels: &[u8],
    width: u32,
    height: u32,
    mode: PixelMode,
    o: &EncoderOptions,
    roll: &mut RollingCodebooks,
) -> (r: FrameRun)
    requires
        options::request_error(pixels@.len(), width, height, mode, *o) is None,
        old(roll).wf(),
    ensures
        r.shows(whole_intra_run(pixels@, width, height, mode, *o, old(roll)@)),
        final(roll)@ == whole_intra_run(pixels@, width, height, mode, *o, old(roll)@).roll,
        final(roll).wf(),
        r.strips@.len() <= 65535,
{
    let ghost before = roll@;
    let layout = plan_strips((height / 4) as usize, o.strip_count as usize);
    let source = Source { pixels, width, height, mode };
    let ghost s = picture(pixels@, width, height, mode);
    let mut out = FrameRun::start(Ghost(before));
    let mut i: usize = 0;
    while i < layout.len()
        invariant
            options::request_error(pixels@.len(), width, height, mode, *o) is None,
            i <= layout@.len(),
            layout@ == layout_of(height, *o),
            source@ == s,
            s == picture(pixels@, width, height, mode),
            before == old(roll)@,
            roll.wf(),
            roll@ == intra_run(s, layout@, *o, before, i as int).roll,
            out.shows(intra_run(s, layout@, *o, before, i as int)),
            out.error is None,
            out.strips@.len() == i,
            layout@.len() <= 65535,
        decreases layout@.len() - i,
    {
        let rows = layout[i];
        proof {
            layout_fits(height, *o, i as int);
        }
        let strip = Strip {
            picture: source,
            top: rows.y_top,
            bottom: rows.y_bottom,
            prev: None,
            threshold: o.skip_threshold,
        };
        assert(strip@ == strip_of(s, rows, None, *o));
        let ghost prior = intra_run(s, layout@, *o, before, i as int);
        let ghost next = intra_run(s, layout@, *o, before, i + 1);
        match encode_intra_strip(&strip, o, roll) {
            Ok(b) => {
                out.strips.push(b);
                assert(strips::strip_views(out.strips@) =~= prior.strips.push(b@));
            },
            Err(e) => {
                out.error = Some(e);
                proof {
                    intra_run_stops(s, layout@, *o, before, i + 1, layout@.len() as int);
                }
                return out;
            },
        }
        i = i + 1;
    }
    out
}

proof fn intra_run_stops(
    s: SourceView,
    layout: Seq<StripPlan>,
    o: EncoderOptions,
    r: RollView,
    i: int,
    j: int,
)
    requires
        0 <= i <= j,
        intra_run(s, layout, o, r, i).error is Some,
    ensures
        intra_run(s, layout, o, r, j) == intra_run(s, layout, o, r, i),
    decreases j - i,
{
    if i < j {
        intra_run_stops(s, layout, o, r, i, j - 1);
    }
}

proof fn inter_run_stops(
    s: SourceView,
    layout: Seq<StripPlan>,
    prev: Option<PlaneView>,
    o: EncoderOptions,
    r: RollView,
    selective: bool,
    seeding: bool,
    i: int,
    j: int,
)
    requires
        0 <= i <= j,
        inter_run(s, layout, prev, o, r, selective, seeding, i).error is Some,
    ensures
        inter_run(s, layout, prev, o, r, selective, seeding, j) == inter_run(
            s,
            layout,
            prev,
            o,
            r,
            selective,
            seeding,
            i,
        ),
    decreases j - i,
{
    if i < j {
        inter_run_stops(s, layout, prev, o, r, selective, seeding, i, j - 1);
    }
}

fn merged(a: &[bool; 256], b: &[bool; 256]) -> (r: [bool; 256])
    ensures
        r@ == either(a@, b@),
{
    let mut out = *a;
    let mut i: usize = 0;
    while i < 256
        invariant
            i <= 256,
            out@.len() == 256,
            a@.len() == 256,
            b@.len() == 256,
            forall|j: int| 0 <= j < i ==> out@[j] == either(a@, b@)[j],
            forall|j: int| i <= j < 256 ==> out@[j] == a@[j],
        decreases 256 - i,
    {
        if b[i] {
            out[i] = true;
        }
        i = i + 1;
    }
    assert(out@ =~= either(a@, b@));
    out
}

/// Encodes the strips of a frame that builds on what came before.
#[verifier::rlimit(50)]
#[verifier::spinoff_prover]
pub(crate) fn run_inter(
    pixels: &[u8],
    width: u32,
    height: u32,
    prev: Option<&CinepakPlane>,
    o: &EncoderOptions,
    roll: &mut RollingCodebooks,
    selective: bool,
    seeding: bool,
) -> (r: FrameRun)
    requires
        options::request_error(pixels@.len(), width, height, PixelMode::Yuv12, *o) is None,
        prev matches Some(p) ==> sampling::plane_covers(p@, width as int, height as int, 3),
        old(roll).wf(),
    ensures
        r.shows(
            whole_inter_run(
                pixels@,
                width,
                height,
                crate::planning::plane_view(prev),
                *o,
                old(roll)@,
                selective,
                seeding,
            ),
        ),
        final(roll)@ == whole_inter_run(
            pixels@,
            width,
            height,
            crate::planning::plane_view(prev),
            *o,
            old(roll)@,
            selective,
            seeding,
        ).roll,
        final(roll).wf(),
        r.strips@.len() <= 65535,
{
    let ghost before = roll@;
    let ghost p = crate::planning::plane_view(prev);
    let layout = plan_strips((height / 4) as usize, o.strip_count as usize);
    let source = Source { pixels, width, height, mode: PixelMode::Yuv12 };
    let ghost s = picture(pixels@, width, height, PixelMode::Yuv12);
    let mut out = FrameRun::start(Ghost(before));
    let mut i: usize = 0;
    while i < layout.len()
        invariant
            options::request_error(pixels@.len(), width, height, PixelMode::Yuv12, *o) is None,
            prev matches Some(q) ==> sampling::plane_covers(q@, width as int, height as int, 3),
            p == crate::planning::plane_view(prev),
            i <= layout@.len(),
            layout@ == layout_of(height, *o),
            source@ == s,
            s == picture(pixels@, width, height, PixelMode::Yuv12),
            before == old(roll)@,
            roll.wf(),
            roll@ == inter_run(s, layout@, p, *o, before, selective, seeding, i as int).roll,
            out.shows(inter_run(s, layout@, p, *o, before, selective, seeding, i as int)),
            out.error is None,
            out.strips@.len() == i,
            out.reclaimed_v4 <= 256 * i,
            out.reclaimed_v1 <= 256 * i,
            out.forced <= 2 * i,
            layout@.len() <= 65535,
        decreases layout@.len() - i,
    {
        let rows = layout[i];
        proof {
            layout_fits(height, *o, i as int);
        }
        let strip = Strip {
            picture: source,
            top: rows.y_top,
            bottom: rows.y_bottom,
            prev,
            threshold: o.skip_threshold,
        };
        assert(strip@ == strip_of(s, rows, p, *o));
        let ghost prior = inter_run(s, layout@, p, *o, before, selective, seeding, i as int);
        let done = encode_inter_strip(&strip, o, roll, selective, seeding);
        out.used_v4 = merged(&out.used_v4, &done.used_v4);
        out.used_v1 = merged(&out.used_v1, &done.used_v1);
        out.reclaimed_v4 = out.reclaimed_v4 + done.reclaimed_v4.len();
        out.reclaimed_v1 = out.reclaimed_v1 + done.reclaimed_v1.len();
        if done.reclaimed_v4.len() > 0 {
            out.forced = out.forced + 1;
        }
        if done.reclaimed_v1.len() > 0 {
            out.forced = out.forced + 1;
        }
        match done.bytes {
            Ok(b) => {
                out.strips.push(b);
                assert(strips::strip_views(out.strips@) =~= prior.strips.push(b@));
            },
            Err(e) => {
                out.error = Some(e);
                proof {
                    inter_run_stops(
                        s,
                        layout@,
                        p,
                        *o,
                        before,
                        selective,
                        seeding,
                        i + 1,
                        layout@.len() as int,
                    );
                }
                return out;
            },
        }
        i = i + 1;
    }
    out
}

fn encode_intra_frame(
    pixels: &[u8],
    width: u32,
    height: u32,
    mode: PixelMode,
    o: &EncoderOptions,
) -> (r: Result<Vec<u8>>)
    ensures
        strips::bytes_outcome(r) == intra_frame(pixels@, width, height, mode, *o),
        r matches Ok(v) ==> v@.len() <= 0xffffff,
{
    if let Err(e) = validate_request(pixels, width, height, mode, o) {
        return Err(e);
    }
    let mut roll = RollingCodebooks::new();
    let ghost before = roll@;
    let run = run_intra(pixels, width, height, mode, o, &mut roll);
    run.frame(width, height, Ghost(whole_intra_run(pixels@, width, height, mode, *o, before)))
}

/// Encodes a colour frame that stands alone, from packed `R, G, B` bytes.
pub fn encode_rgb24(rgb: &[u8], width: u32, height: u32, opts: EncoderOptions) -> (r: Result<
    Vec<u8>,
>)
    ensures
        strips::bytes_outcome(r) == intra_frame(rgb@, width, height, PixelMode::Yuv12, opts),
        r matches Ok(v) ==> v@.len() <= 0xffffff,
{
    encode_intra_frame(rgb, width, height, PixelMode::Yuv12, &opts)
}

/// Encodes a gray frame that stands alone, from one byte per pixel.
pub fn encode_gray8(gray: &[u8], width: u32, height: u32, opts: EncoderOptions) -> (r: Result<
    Vec<u8>,
>)
    ensures
        strips::bytes_outcome(r) == intra_frame(gray@, width, height, PixelMode::Gray8, opts),
        r matches Ok(v) ==> v@.len() <= 0xffffff,
{
    encode_intra_frame(gray, width, height, PixelMode::Gray8, &opts)
}

pub(crate) fn prev_size_error(pw: u32, ph: u32, w: u32, h: u32) -> (r: CinepakError)
    ensures
        r@ == prev_size_differs(pw, ph, w, h),
{
    let text = cat_dec(lit("encoder: prev frame dims "), pw as u64);
    let text = cat_dec(cat(text, "x"), ph as u64);
    let text = cat_dec(cat(text, " != current "), w as u64);
    CinepakError::other(cat_dec(cat(text, "x"), h as u64))
}

/// Encodes a colour frame that may skip macroblocks of the previous frame.
/// Where it is read, the previous frame must hold all the bytes of its
/// picture.
pub fn encode_rgb24_inter(
    rgb: &[u8],
    prev: &CinepakFrame,
    width: u32,
    height: u32,
    opts: EncoderOptions,
) -> (r: Result<Vec<u8>>)
    requires
        prev.width == width && prev.height == height && prev.pixel_format
            == CinepakPixelFormat::Rgb24 && options::request_error(
            rgb@.len(),
            width,
            height,
            PixelMode::Yuv12,
            opts,
        ) is None ==> frame_covers(prev@),
    ensures
        strips::bytes_outcome(r) == inter_frame(rgb@, prev@, width, height, opts),
        r matches Ok(v) ==> v@.len() <= 0xffffff,
{
    if prev.width != width || prev.height != height {
        return Err(prev_size_error(prev.width, prev.height, width, height));
    }
    match prev.pixel_format {
        CinepakPixelFormat::Rgb24 => {},
        CinepakPixelFormat::Gray8 => {
            return Err(other("encoder: encode_rgb24_inter requires Rgb24 prev frame"));
        },
    }
    if let Err(e) = validate_request(rgb, width, height, PixelMode::Yuv12, &opts) {
        return Err(e);
    }
    let mut roll = RollingCodebooks::new();
    let plane = &prev.planes[0];
    assert(plane@ == prev@.planes[0]);
    let run = run_inter(rgb, width, height, Some(plane), &opts, &mut roll, false, false);
    run.frame(
        width,
        height,
        Ghost(
            whole_inter_run(
                rgb@,
                width,
                height,
                Some(prev@.planes[0]),
                opts,
                rolling::fresh_roll(),
                false,
                false,
            ),
        ),
    )
}

} // verus!
