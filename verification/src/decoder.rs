//! The decoder: from the bytes of a frame to its pixels.

use vstd::prelude::*;
use crate::bits::{self, part, read16};
use crate::codebook::{
    self, apply_codebook_chunk_with, Codebook, CodebookChunkKind, CodebookEntry, PixelMode,
    UpdateStyle, WhichCodebook, CHUNK_HEADER_SIZE,
};
use crate::error::{invalid, CinepakError, ErrorView, Result};
use crate::header::{
    self, frame_length_large_error, strip_overrun_error, strip_truncated_error, FrameHeader,
    RawStripHeader, StripHeader, FRAME_HEADER_SIZE, STRIP_HEADER_SIZE, STRIP_ID_INTRA,
};
use crate::image::{self, CinepakFrame, CinepakPixelFormat, CinepakPlane, FrameView, PlaneView};
use crate::text::{self, cat, cat_dec, cat_hex4, lit};
use crate::vector::{
    self, decode_vector_chunk, Mb, VECTOR_CHUNK_INTER, VECTOR_CHUNK_INTRA, VECTOR_CHUNK_V1_ONLY,
};
use crate::yuv::{self, yuv_to_rgb};

verus! {

/// How a variant of the format departs from it.
#[derive(Clone, Copy, Debug, PartialEq, Eq, Structural)]
pub struct DeviantConfig {
    /// Bytes between the frame header and the first strip header.
    pub extra_header_bytes: u8,
    /// By how much the frame length in the header falls short of the frame.
    pub frame_length_short_by: u8,
    /// Whether codebook chunks may end with bytes that are no whole entry.
    pub tolerate_codebook_pad: bool,
}

impl DeviantConfig {
    /// The variant of the Sega Saturn and the Sega CD.
    pub fn saturn() -> (r: Self)
        ensures
            r == (DeviantConfig {
                extra_header_bytes: 2,
                frame_length_short_by: 8,
                tolerate_codebook_pad: true,
            }),
    {
        DeviantConfig {
            extra_header_bytes: 2,
            frame_length_short_by: 8,
            tolerate_codebook_pad: true,
        }
    }

    /// The variant of Lemmings on the 3DO.
    pub fn lemmings_3do() -> (r: Self)
        ensures
            r == (DeviantConfig {
                extra_header_bytes: 6,
                frame_length_short_by: 8,
                tolerate_codebook_pad: true,
            }),
    {
        DeviantConfig {
            extra_header_bytes: 6,
            frame_length_short_by: 8,
            tolerate_codebook_pad: true,
        }
    }
}

/// What a decoder carries from one frame to the next.
pub struct DecoderState {
    /// V4 codebook of the last strip.
    pub v4: Option<Seq<CodebookEntry>>,
    /// V1 codebook of the last strip.
    pub v1: Option<Seq<CodebookEntry>>,
    /// The last frame.
    pub prev: Option<FrameView>,
}

/// What a strip's chunks have given so far.
pub struct ChunkState {
    pub v4: Seq<CodebookEntry>,
    pub v1: Seq<CodebookEntry>,
    /// Pixel mode of the strip's codebook chunks.
    pub mode: Option<PixelMode>,
    /// The strip's macroblocks.
    pub mbs: Option<Seq<Mb>>,
}

/// Message of a strip that ends inside a chunk header.
pub open spec fn chunk_header_short() -> ErrorView {
    ErrorView::InvalidData("strip chunk header truncated"@)
}

/// Message of a chunk that is shorter than its header.
pub open spec fn chunk_size_small(n: u16) -> ErrorView {
    ErrorView::InvalidData("chunk_size "@ + text::dec(n as nat) + " smaller than 4-byte header"@)
}

/// Message of a strip that ends inside a chunk.
pub open spec fn chunk_truncated(id: u16, size: u16, have: nat) -> ErrorView {
    ErrorView::InvalidData(
        "chunk 0x"@ + text::hex4(id) + " truncated: declared "@ + text::dec(size as nat) + ", have "@ + text::dec(
            have,
        ),
    )
}

/// Message of a selective update in a strip that stands on its own.
pub open spec fn selective_on_intra(id: u16) -> ErrorView {
    ErrorView::InvalidData("selective-update chunk 0x"@ + text::hex4(id) + " on intra strip"@)
}

/// Message of a strip with two vector chunks.
pub open spec fn two_vector_chunks() -> ErrorView {
    ErrorView::InvalidData("strip carries more than one vector chunk"@)
}

/// Message of an inter vector chunk in a strip that stands on its own.
pub open spec fn inter_on_intra() -> ErrorView {
    ErrorView::InvalidData("inter vector chunk 0x3100 on intra strip"@)
}

/// Message of a chunk whose id is not defined.
pub open spec fn unknown_chunk(id: u16) -> ErrorView {
    ErrorView::InvalidData("unknown strip chunk id 0x"@ + text::hex4(id))
}

/// Message of a strip without a vector chunk.
pub open spec fn no_vector_chunk() -> ErrorView {
    ErrorView::InvalidData("strip carries no vector chunk"@)
}

/// The effect of one codebook chunk.
pub open spec fn codebook_chunk(
    s: ChunkState,
    id: u16,
    kind: CodebookChunkKind,
    body: Seq<u8>,
    intra: bool,
    tolerate: bool,
) -> core::result::Result<ChunkState, ErrorView> {
    if intra && kind.style == UpdateStyle::Selective {
        Err(selective_on_intra(id))
    } else {
        let mode = match s.mode {
            Some(m) => codebook::unified(m, kind.mode),
            None => Ok(kind.mode),
        };
        match mode {
            Err(e) => Err(e),
            Ok(m) => match kind.which {
                WhichCodebook::V4 => {
                    let (cb, r) = codebook::codebook_update(kind, body, s.v4, tolerate);
                    match r {
                        Err(e) => Err(e),
                        Ok(_) => Ok(ChunkState { v4: cb, mode: Some(m), ..s }),
                    }
                },
                WhichCodebook::V1 => {
                    let (cb, r) = codebook::codebook_update(kind, body, s.v1, tolerate);
                    match r {
                        Err(e) => Err(e),
                        Ok(_) => Ok(ChunkState { v1: cb, mode: Some(m), ..s }),
                    }
                },
            },
        }
    }
}

/// The effect of one vector chunk.
pub open spec fn vector_chunk(
    s: ChunkState,
    id: u16,
    body: Seq<u8>,
    count: nat,
    intra: bool,
) -> core::result::Result<ChunkState, ErrorView> {
    if s.mbs is Some {
        Err(two_vector_chunks())
    } else if id == VECTOR_CHUNK_INTER && intra {
        Err(inter_on_intra())
    } else {
        match vector::vector_mbs(id, body, count) {
            Err(e) => Err(e),
            Ok(mbs) => Ok(ChunkState { mbs: Some(mbs), ..s }),
        }
    }
}

/// Whether the id is that of a vector chunk.
pub open spec fn is_vector_id(id: u16) -> bool {
    id == VECTOR_CHUNK_INTRA || id == VECTOR_CHUNK_INTER || id == VECTOR_CHUNK_V1_ONLY
}

/// The effect of a strip's chunks from offset `p` on.
pub open spec fn strip_chunks(
    payload: Seq<u8>,
    p: int,
    s: ChunkState,
    count: nat,
    intra: bool,
    tolerate: bool,
) -> core::result::Result<ChunkState, ErrorView>
    decreases payload.len() - p,
{
    let id = bits::be16(payload, p);
    let size = bits::be16(payload, p + 2);
    if p >= payload.len() {
        Ok(s)
    } else if payload.len() - p < CHUNK_HEADER_SIZE {
        Err(chunk_header_short())
    } else if size < CHUNK_HEADER_SIZE {
        Err(chunk_size_small(size))
    } else if payload.len() - p < size {
        Err(chunk_truncated(id, size, (payload.len() - p) as nat))
    } else {
        let body = payload.subrange(p + CHUNK_HEADER_SIZE, p + size);
        let next = match codebook::kind_of_id(id) {
            Some(kind) => codebook_chunk(s, id, kind, body, intra, tolerate),
            None => if is_vector_id(id) {
                vector_chunk(s, id, body, count, intra)
            } else {
                Err(unknown_chunk(id))
            },
        };
        match next {
            Err(e) => Err(e),
            Ok(s1) => strip_chunks(payload, p + size, s1, count, intra, tolerate),
        }
    }
}

/// The pixel mode of a strip: that of its codebook chunks, else the one of
/// the frame it continues, else colour.
pub open spec fn strip_mode(own: Option<PixelMode>, hint: Option<PixelMode>) -> PixelMode {
    match own {
        Some(m) => m,
        None => match hint {
            Some(m) => m,
            None => PixelMode::Yuv12,
        },
    }
}

/// `s` with `b` written over it from `off` on.
pub open spec fn splice(s: Seq<u8>, off: int, b: Seq<u8>) -> Seq<u8> {
    Seq::new(
        s.len(),
        |k: int|
            if off <= k < off + b.len() {
                b[k - off]
            } else {
                s[k]
            },
    )
}

/// Bytes per pixel.
pub open spec fn mode_bpp(m: PixelMode) -> nat {
    match m {
        PixelMode::Yuv12 => 3,
        PixelMode::Gray8 => 1,
    }
}

/// The pixel format of decoded frames.
pub open spec fn mode_format(m: PixelMode) -> CinepakPixelFormat {
    match m {
        PixelMode::Yuv12 => CinepakPixelFormat::Rgb24,
        PixelMode::Gray8 => CinepakPixelFormat::Gray8,
    }
}

/// Channel `c` of a colour.
pub open spec fn channel(p: (u8, u8, u8), c: int) -> u8 {
    if c == 0 {
        p.0
    } else if c == 1 {
        p.1
    } else {
        p.2
    }
}

/// Row `i` of a V1 macroblock as bytes.
pub open spec fn v1_row(m: PixelMode, e: CodebookEntry, i: int) -> Seq<u8> {
    match m {
        PixelMode::Yuv12 => Seq::new(12, |k: int| channel(yuv::v1_rgb(e, i, k / 3), k % 3)),
        PixelMode::Gray8 => Seq::new(4, |k: int| yuv::luma(e, i / 2 * 2 + k / 2)),
    }
}

/// Row `i` of a V4 macroblock as bytes.
pub open spec fn v4_row(m: PixelMode, quad: Seq<CodebookEntry>, i: int) -> Seq<u8> {
    match m {
        PixelMode::Yuv12 => Seq::new(12, |k: int| channel(yuv::v4_rgb(quad, i, k / 3), k % 3)),
        PixelMode::Gray8 => Seq::new(
            4,
            |k: int| yuv::luma(quad[i / 2 * 2 + k / 2], i % 2 * 2 + k % 2),
        ),
    }
}

/// Row `i` of a skipped macroblock: that of the previous frame, or zeros
/// where that has the other pixel format.
pub open spec fn skip_row(m: PixelMode, prev: FrameView, px: int, py: int, i: int) -> Seq<u8> {
    let bpp = mode_bpp(m);
    if prev.pixel_format == mode_format(m) {
        let off = (py + i) * prev.planes[0].stride + px * bpp;
        prev.planes[0].data.subrange(off, off + 4 * bpp)
    } else {
        Seq::new(4 * bpp, |k: int| 0u8)
    }
}

/// Everything that the pixels of a strip come from.
pub struct Paint {
    pub mode: PixelMode,
    pub v4: Seq<CodebookEntry>,
    pub v1: Seq<CodebookEntry>,
    pub prev: Option<FrameView>,
}

/// Row `i` of a macroblock whose top left corner is at `(px, py)`.
pub open spec fn mb_row(a: Paint, mb: Mb, px: int, py: int, i: int) -> Seq<u8> {
    match mb {
        Mb::V1(x) => v1_row(a.mode, a.v1[x as int], i),
        Mb::V4(x) => v4_row(
            a.mode,
            seq![
                a.v4[x[0] as int],
                a.v4[x[1] as int],
                a.v4[x[2] as int],
                a.v4[x[3] as int],
            ],
            i,
        ),
        Mb::Skip => skip_row(a.mode, a.prev->0, px, py, i),
    }
}

/// The picture with the first `n` rows of a macroblock drawn.
pub open spec fn draw_rows(
    out: Seq<u8>,
    stride: int,
    a: Paint,
    mb: Mb,
    px: int,
    py: int,
    n: nat,
) -> Seq<u8>
    decreases n,
{
    if n == 0 {
        out
    } else {
        splice(
            draw_rows(out, stride, a, mb, px, py, (n - 1) as nat),
            (py + n - 1) * stride + px * mode_bpp(a.mode),
            mb_row(a, mb, px, py, n - 1),
        )
    }
}

/// The picture with a macroblock drawn.
pub open spec fn draw_mb(
    out: Seq<u8>,
    stride: int,
    a: Paint,
    mb: Mb,
    px: int,
    py: int,
) -> Seq<u8> {
    draw_rows(out, stride, a, mb, px, py, 4)
}

/// The picture with the first `n` macroblocks of a strip drawn, in rows of
/// `cols` macroblocks from `(x0, y0)` on.
pub open spec fn draw_mbs(
    out: Seq<u8>,
    stride: int,
    a: Paint,
    mbs: Seq<Mb>,
    x0: int,
    y0: int,
    cols: int,
    n: nat,
) -> Seq<u8>
    decreases n,
{
    if n == 0 {
        out
    } else {
        let i = n - 1;
        draw_mb(
            draw_mbs(out, stride, a, mbs, x0, y0, cols, i as nat),
            stride,
            a,
            mbs[i],
            x0 + i % cols * 4,
            y0 + i / cols * 4,
        )
    }
}

/// Message of a skipped macroblock without a previous frame.
pub open spec fn skip_without_prev() -> ErrorView {
    ErrorView::InvalidData(
        "0x3100 skip macroblock on first frame (no previous reconstruction)"@,
    )
}

/// Whether the macroblocks need a previous frame.
pub open spec fn has_skip(mbs: Seq<Mb>) -> bool {
    exists|i: int| 0 <= i < mbs.len() && #[trigger] mbs[i] is Skip
}

/// Message of a strip that leaves the frame.
pub open spec fn strip_outside(
    i: int,
    x0: u16,
    x1: u16,
    y0: int,
    y1: int,
    w: u16,
    h: u16,
) -> ErrorView {
    ErrorView::InvalidData(
        "strip "@ + text::dec(i as nat) + " bounds ("@ + text::dec(x0 as nat) + ".."@ + text::dec(x1 as nat) + ", "@
            + text::dec(y0 as nat) + ".."@ + text::dec(y1 as nat) + ") exceed frame ("@ + text::dec(w as nat) + "x"@
            + text::dec(h as nat) + ")"@,
    )
}

/// Message of a strip whose edges are in the wrong order.
pub open spec fn strip_reversed(i: int, x0: u16, x1: u16, y0: int, y1: int) -> ErrorView {
    ErrorView::InvalidData(
        "strip "@ + text::dec(i as nat) + " bounds ("@ + text::dec(x0 as nat) + ".."@ + text::dec(x1 as nat) + ", "@
            + text::dec(y0 as nat) + ".."@ + text::dec(y1 as nat) + ") are reversed"@,
    )
}

/// Message of a strip that is not made of whole macroblocks.
pub open spec fn strip_misaligned(i: int, w: int, h: int) -> ErrorView {
    ErrorView::InvalidData(
        "strip "@ + text::dec(i as nat) + " dims ("@ + text::dec(w as nat) + "x"@ + text::dec(h as nat)
            + ") not multiples of 4"@,
    )
}

/// What is wrong with the place of a strip in its frame, if anything is.
pub open spec fn place_error(h: FrameHeader, raw: RawStripHeader, i: int, top: int, bottom: int) -> Option<
    ErrorView,
> {
    if raw.x_bottom > h.width || bottom > h.height {
        Some(strip_outside(i, raw.x_top, raw.x_bottom, top, bottom, h.width, h.height))
    } else if raw.x_bottom < raw.x_top || bottom < top {
        Some(strip_reversed(i, raw.x_top, raw.x_bottom, top, bottom))
    } else if (raw.x_bottom - raw.x_top) % 4 != 0 || (bottom - top) % 4 != 0 {
        Some(strip_misaligned(i, raw.x_bottom - raw.x_top, bottom - top))
    } else {
        None
    }
}

/// What a frame's strips have given so far.
pub struct FrameWork {
    pub v4: Seq<CodebookEntry>,
    pub v1: Seq<CodebookEntry>,
    /// Pixel mode of the frame.
    pub mode: Option<PixelMode>,
    /// The picture.
    pub out: Seq<u8>,
    /// Offset of the next strip.
    pub cursor: int,
    /// Bottom edge of the last strip.
    pub bottom: int,
}

/// The pixel mode that a frame without codebook chunks takes over.
pub open spec fn mode_hint(mode: Option<PixelMode>, prev: Option<FrameView>) -> Option<PixelMode> {
    match mode {
        Some(m) => Some(m),
        None => match prev {
            Some(p) => Some(
                match p.pixel_format {
                    CinepakPixelFormat::Gray8 => PixelMode::Gray8,
                    CinepakPixelFormat::Rgb24 => PixelMode::Yuv12,
                },
            ),
            None => None,
        },
    }
}

/// The effect of a strip's chunks and macroblocks, once its header is read.
#[verifier::opaque]
pub open spec fn strip_pixels(
    h: FrameHeader,
    raw: RawStripHeader,
    top: int,
    bottom: int,
    body: Seq<u8>,
    tolerate: bool,
    prev: Option<FrameView>,
    w: FrameWork,
) -> core::result::Result<FrameWork, ErrorView> {
    let cols = (raw.x_bottom - raw.x_top) / 4;
    let rows = (bottom - top) / 4;
    let start = ChunkState { v4: w.v4, v1: w.v1, mode: None, mbs: None };
    match strip_chunks(
        body,
        0,
        start,
        (rows * cols) as nat,
        raw.strip_id == STRIP_ID_INTRA,
        tolerate,
    ) {
        Err(e) => Err(e),
        Ok(s) => match s.mbs {
            None => Err(no_vector_chunk()),
            Some(mbs) => {
                let own = strip_mode(s.mode, mode_hint(w.mode, prev));
                let mode = match w.mode {
                    None => Ok(own),
                    Some(m) => codebook::unified(m, own),
                };
                match mode {
                    Err(e) => Err(e),
                    Ok(m) => if has_skip(mbs) && prev is None {
                        Err(skip_without_prev())
                    } else {
                        let canvas = if w.mode is None {
                            Seq::new((h.width * h.height * mode_bpp(m)) as nat, |k: int| 0u8)
                        } else {
                            w.out
                        };
                        let a = Paint { mode: m, v4: s.v4, v1: s.v1, prev };
                        Ok(
                            FrameWork {
                                v4: s.v4,
                                v1: s.v1,
                                mode: Some(m),
                                out: draw_mbs(
                                    canvas,
                                    h.width * mode_bpp(m),
                                    a,
                                    mbs,
                                    raw.x_top as int,
                                    top,
                                    cols,
                                    mbs.len(),
                                ),
                                ..w
                            },
                        )
                    },
                }
            },
        },
    }
}

/// The effect of strip `i` of a frame.
#[verifier::opaque]
pub open spec fn frame_strip(
    frame: Seq<u8>,
    h: FrameHeader,
    i: int,
    tolerate: bool,
    prev: Option<FrameView>,
    w: FrameWork,
) -> core::result::Result<FrameWork, ErrorView> {
    match header::strip_at(frame, w.cursor, i) {
        Err(e) => Err(e),
        Ok(raw) => {
            let (top, bottom) = header::place_strip(raw, i == 0, w.bottom);
            match place_error(h, raw, i, top, bottom) {
                Some(e) => Err(e),
                None => {
                    let body = frame.subrange(
                        w.cursor + STRIP_HEADER_SIZE,
                        w.cursor + raw.strip_size,
                    );
                    match strip_pixels(h, raw, top, bottom, body, tolerate, prev, w) {
                        Err(e) => Err(e),
                        Ok(w1) => Ok(
                            FrameWork { cursor: w.cursor + raw.strip_size, bottom, ..w1 },
                        ),
                    }
                },
            }
        },
    }
}

/// The effect of the strips of a frame from strip `i` on.
pub open spec fn frame_strips(
    frame: Seq<u8>,
    h: FrameHeader,
    i: int,
    tolerate: bool,
    prev: Option<FrameView>,
    w: FrameWork,
) -> core::result::Result<FrameWork, ErrorView>
    decreases h.strip_count - i,
{
    if i >= h.strip_count {
        Ok(w)
    } else {
        match frame_strip(frame, h, i, tolerate, prev, w) {
            Err(e) => Err(e),
            Ok(w1) => frame_strips(frame, h, i + 1, tolerate, prev, w1),
        }
    }
}

/// Message of a frame whose pixels no buffer can hold.
pub open spec fn frame_too_large(w: u16, h: u16) -> ErrorView {
    ErrorView::Unsupported(
        "frame of "@ + text::dec(w as nat) + "x"@ + text::dec(h as nat)
            + " pixels does not fit in memory"@,
    )
}

/// The codebook, or one of zeros.
pub open spec fn or_zero(cb: Option<Seq<CodebookEntry>>) -> Seq<CodebookEntry> {
    match cb {
        Some(c) => c,
        None => codebook::zero_codebook(),
    }
}

/// The previous frame, where it has the given size.
pub open spec fn prev_of_size(prev: Option<FrameView>, h: FrameHeader) -> Option<FrameView> {
    match prev {
        Some(p) => if p.width == h.width && p.height == h.height {
            Some(p)
        } else {
            None
        },
        None => None,
    }
}

/// The work on a frame before its first strip.
pub open spec fn frame_start(s: DecoderState, prefix: int) -> FrameWork {
    FrameWork {
        v4: or_zero(s.v4),
        v1: or_zero(s.v1),
        mode: None,
        out: Seq::empty(),
        cursor: prefix,
        bottom: 0,
    }
}

/// The finished frame.
pub open spec fn finished(h: FrameHeader, w: FrameWork, pts: Option<i64>) -> FrameView {
    let m = w.mode->0;
    FrameView {
        width: h.width as u32,
        height: h.height as u32,
        pixel_format: mode_format(m),
        pts,
        planes: seq![
            PlaneView { stride: (h.width * mode_bpp(m)) as nat, data: w.out },
        ],
    }
}

/// Decoding one frame: the state it leaves, and the frame or an error. An
/// error in the frame's header or length leaves the state as it was; a
/// later one forgets the codebooks, and the previous frame too where its
/// size differs.
pub open spec fn decoded(
    s: DecoderState,
    bytes: Seq<u8>,
    pts: Option<i64>,
    cfg: Option<DeviantConfig>,
) -> (DecoderState, core::result::Result<FrameView, ErrorView>) {
    match header::frame_header(bytes) {
        Err(e) => (s, Err(e)),
        Ok(h) => if cfg is None && h.frame_length > bytes.len() {
            (s, Err(header::frame_length_large(h.frame_length as nat, bytes.len())))
        } else if h.width * h.height * 3 > usize::MAX {
            (s, Err(frame_too_large(h.width, h.height)))
        } else {
            let frame = if cfg is None {
                bytes.subrange(0, h.frame_length as int)
            } else {
                bytes
            };
            let prefix = FRAME_HEADER_SIZE + match cfg {
                Some(c) => c.extra_header_bytes as int,
                None => 0,
            };
            let tolerate = match cfg {
                Some(c) => c.tolerate_codebook_pad,
                None => false,
            };
            let prev = prev_of_size(s.prev, h);
            match frame_strips(frame, h, 0, tolerate, prev, frame_start(s, prefix)) {
                Err(e) => (DecoderState { v4: None, v1: None, prev }, Err(e)),
                Ok(w) => {
                    let f = finished(h, w, pts);
                    (DecoderState { v4: Some(w.v4), v1: Some(w.v1), prev: Some(f) }, Ok(f))
                },
            }
        },
    }
}

/// A previous frame by its view.
pub open spec fn frame_view(f: Option<&CinepakFrame>) -> Option<FrameView> {
    match f {
        Some(f) => Some(f@),
        None => None,
    }
}

fn write_row(out: &mut Vec<u8>, off: usize, row: &[u8])
    requires
        off + row@.len() <= old(out)@.len(),
    ensures
        final(out)@ == splice(old(out)@, off as int, row@),
{
    let ghost before = out@;
    let total: usize = out.len();
    let mut k: usize = 0;
    assert(out@ =~= splice(before, off as int, row@.subrange(0, 0)));
    while k < row.len()
        invariant
            k <= row@.len(),
            off + row@.len() <= before.len(),
            before.len() == out@.len(),
            total == out@.len(),
            before == old(out)@,
            out@ == splice(before, off as int, row@.subrange(0, k as int)),
        decreases row@.len() - k,
    {
        let ghost prior = out@;
        let at: usize = off + k;
        out[at] = row[k];
        k = k + 1;
        assert(out@ =~= splice(before, off as int, row@.subrange(0, k as int))) by {
            assert forall|j: int| 0 <= j < before.len() implies #[trigger] out@[j] == splice(
                before,
                off as int,
                row@.subrange(0, k as int),
            )[j] by {
                if j != at {
                    assert(out@[j] == prior[j]);
                }
            }
        }
    }
    assert(row@.subrange(0, k as int) =~= row@);
}

/// A macroblock at `(px, py)` lies in a picture of the given size.
spec fn fits(px: int, py: int, w: int, h: int) -> bool {
    0 <= px && 0 <= py && px + 4 <= w && py + 4 <= h
}

/// The bytes of a macroblock's row lie in the picture.
proof fn row_fits(px: int, py: int, i: int, w: int, h: int, bpp: int)
    requires
        fits(px, py, w, h),
        0 <= i < 4,
        bpp == 1 || bpp == 3,
    ensures
        0 <= (py + i) * (w * bpp) + px * bpp,
        (py + i) * (w * bpp) + px * bpp + 4 * bpp <= w * bpp * h,
{
    let stride = w * bpp;
    assert(px * bpp + 4 * bpp <= stride) by (nonlinear_arith)
        requires
            px + 4 <= w,
            stride == w * bpp,
            bpp > 0,
    ;
    assert((py + i) * stride + stride <= stride * h) by (nonlinear_arith)
        requires
            py + i + 1 <= h,
            stride >= 0,
    ;
    assert((py + i) * stride >= 0) by (nonlinear_arith)
        requires
            py + i >= 0,
            stride >= 0,
    ;
    assert(px * bpp >= 0) by (nonlinear_arith)
        requires
            px >= 0,
            bpp > 0,
    ;
}

/// Draws four rows of a macroblock.
fn draw_four(
    r0: &[u8],
    r1: &[u8],
    r2: &[u8],
    r3: &[u8],
    px: usize,
    py: usize,
    out: &mut Vec<u8>,
    stride: usize,
    Ghost(a): Ghost<Paint>,
    Ghost(mb): Ghost<Mb>,
    Ghost(w): Ghost<int>,
    Ghost(h): Ghost<int>,
)
    requires
        fits(px as int, py as int, w, h),
        stride == w * mode_bpp(a.mode),
        old(out)@.len() == w * mode_bpp(a.mode) * h,
        r0@ == mb_row(a, mb, px as int, py as int, 0),
        r1@ == mb_row(a, mb, px as int, py as int, 1),
        r2@ == mb_row(a, mb, px as int, py as int, 2),
        r3@ == mb_row(a, mb, px as int, py as int, 3),
        r0@.len() == 4 * mode_bpp(a.mode),
        r1@.len() == 4 * mode_bpp(a.mode),
        r2@.len() == 4 * mode_bpp(a.mode),
        r3@.len() == 4 * mode_bpp(a.mode),
    ensures
        final(out)@ == draw_mb(old(out)@, stride as int, a, mb, px as int, py as int),
        final(out)@.len() == old(out)@.len(),
{
    let total: usize = out.len();
    let bpp: usize = r0.len() / 4;
    proof {
        row_fits(px as int, py as int, 0, w, h, bpp as int);
        row_fits(px as int, py as int, 1, w, h, bpp as int);
        row_fits(px as int, py as int, 2, w, h, bpp as int);
        row_fits(px as int, py as int, 3, w, h, bpp as int);
        assert((py + 1) * stride == py * stride + stride) by (nonlinear_arith);
        assert((py + 2) * stride == py * stride + 2 * stride) by (nonlinear_arith);
        assert((py + 3) * stride == py * stride + 3 * stride) by (nonlinear_arith);
        assert(py * stride >= 0 && px * bpp >= 0) by (nonlinear_arith);
        reveal_with_fuel(draw_rows, 5);
    }
    let off: usize = py * stride + px * bpp;
    write_row(out, off, r0);
    write_row(out, off + stride, r1);
    write_row(out, off + stride + stride, r2);
    write_row(out, off + stride + stride + stride, r3);
}

fn draw_v1_mb_rgb(
    e: &CodebookEntry,
    px: usize,
    py: usize,
    out: &mut Vec<u8>,
    stride: usize,
    Ghost(a): Ghost<Paint>,
    Ghost(mb): Ghost<Mb>,
    Ghost(w): Ghost<int>,
    Ghost(h): Ghost<int>,
)
    requires
        mb matches Mb::V1(x) && a.v1[x as int] == *e,
        a.mode == PixelMode::Yuv12,
        fits(px as int, py as int, w, h),
        stride == w * mode_bpp(a.mode),
        old(out)@.len() == w * mode_bpp(a.mode) * h,
    ensures
        final(out)@ == draw_mb(old(out)@, stride as int, a, mb, px as int, py as int),
        final(out)@.len() == old(out)@.len(),
{
    let tl = yuv_to_rgb(e.y0, e.u, e.v);
    let tr = yuv_to_rgb(e.y1, e.u, e.v);
    let bl = yuv_to_rgb(e.y2, e.u, e.v);
    let br = yuv_to_rgb(e.y3, e.u, e.v);
    let top = [tl.0, tl.1, tl.2, tl.0, tl.1, tl.2, tr.0, tr.1, tr.2, tr.0, tr.1, tr.2];
    let bot = [bl.0, bl.1, bl.2, bl.0, bl.1, bl.2, br.0, br.1, br.2, br.0, br.1, br.2];
    assert(top@ =~= v1_row(a.mode, *e, 0));
    assert(top@ =~= v1_row(a.mode, *e, 1));
    assert(bot@ =~= v1_row(a.mode, *e, 2));
    assert(bot@ =~= v1_row(a.mode, *e, 3));
    draw_four(
        top.as_slice(),
        top.as_slice(),
        bot.as_slice(),
        bot.as_slice(),
        px,
        py,
        out,
        stride,
        Ghost(a),
        Ghost(mb),
        Ghost(w),
        Ghost(h),
    );
}

/// One row of two V4 entries side by side, as bytes.
#[verifier::rlimit(50)]
#[verifier::spinoff_prover]
fn rgb_row(left: &CodebookEntry, right: &CodebookEntry, low: bool) -> (r: [u8; 12])
    ensures
        forall|k: int|
            0 <= k < 12 ==> #[trigger] r[k] == channel(
                crate::yuv::entry_rgb(
                    if k < 6 {
                        *left
                    } else {
                        *right
                    },
                    (if low {
                        2int
                    } else {
                        0
                    }) + k / 3 % 2,
                ),
                k % 3,
            ),
{
    let (a, b, c, d) = if low {
        (left.y2, left.y3, right.y2, right.y3)
    } else {
        (left.y0, left.y1, right.y0, right.y1)
    };
    let p0 = yuv_to_rgb(a, left.u, left.v);
    let p1 = yuv_to_rgb(b, left.u, left.v);
    let p2 = yuv_to_rgb(c, right.u, right.v);
    let p3 = yuv_to_rgb(d, right.u, right.v);
    [p0.0, p0.1, p0.2, p1.0, p1.1, p1.2, p2.0, p2.1, p2.2, p3.0, p3.1, p3.2]
}

fn draw_v4_mb_rgb(
    rs: [CodebookEntry; 4],
    px: usize,
    py: usize,
    out: &mut Vec<u8>,
    stride: usize,
    Ghost(a): Ghost<Paint>,
    Ghost(mb): Ghost<Mb>,
    Ghost(w): Ghost<int>,
    Ghost(h): Ghost<int>,
)
    requires
        mb matches Mb::V4(x) && forall|k: int| 0 <= k < 4 ==> a.v4[#[trigger] x[k] as int] == rs[k],
        a.mode == PixelMode::Yuv12,
        fits(px as int, py as int, w, h),
        stride == w * mode_bpp(a.mode),
        old(out)@.len() == w * mode_bpp(a.mode) * h,
    ensures
        final(out)@ == draw_mb(old(out)@, stride as int, a, mb, px as int, py as int),
        final(out)@.len() == old(out)@.len(),
{
    let r0 = rgb_row(&rs[0], &rs[1], false);
    let r1 = rgb_row(&rs[0], &rs[1], true);
    let r2 = rgb_row(&rs[2], &rs[3], false);
    let r3 = rgb_row(&rs[2], &rs[3], true);
    let ghost x = mb->V4_0;
    let ghost quad = seq![
        a.v4[x[0] as int],
        a.v4[x[1] as int],
        a.v4[x[2] as int],
        a.v4[x[3] as int],
    ];
    assert(quad =~= rs@);
    assert(r0@ =~= v4_row(a.mode, quad, 0));
    assert(r1@ =~= v4_row(a.mode, quad, 1));
    assert(r2@ =~= v4_row(a.mode, quad, 2));
    assert(r3@ =~= v4_row(a.mode, quad, 3));
    draw_four(
        r0.as_slice(),
        r1.as_slice(),
        r2.as_slice(),
        r3.as_slice(),
        px,
        py,
        out,
        stride,
        Ghost(a),
        Ghost(mb),
        Ghost(w),
        Ghost(h),
    );
}

fn draw_v1_mb_gray(
    e: &CodebookEntry,
    px: usize,
    py: usize,
    out: &mut Vec<u8>,
    stride: usize,
    Ghost(a): Ghost<Paint>,
    Ghost(mb): Ghost<Mb>,
    Ghost(w): Ghost<int>,
    Ghost(h): Ghost<int>,
)
    requires
        mb matches Mb::V1(x) && a.v1[x as int] == *e,
        a.mode == PixelMode::Gray8,
        fits(px as int, py as int, w, h),
        stride == w * mode_bpp(a.mode),
        old(out)@.len() == w * mode_bpp(a.mode) * h,
    ensures
        final(out)@ == draw_mb(old(out)@, stride as int, a, mb, px as int, py as int),
        final(out)@.len() == old(out)@.len(),
{
    let top = [e.y0, e.y0, e.y1, e.y1];
    let bot = [e.y2, e.y2, e.y3, e.y3];
    assert(top@ =~= v1_row(a.mode, *e, 0));
    assert(top@ =~= v1_row(a.mode, *e, 1));
    assert(bot@ =~= v1_row(a.mode, *e, 2));
    assert(bot@ =~= v1_row(a.mode, *e, 3));
    draw_four(
        top.as_slice(),
        top.as_slice(),
        bot.as_slice(),
        bot.as_slice(),
        px,
        py,
        out,
        stride,
        Ghost(a),
        Ghost(mb),
        Ghost(w),
        Ghost(h),
    );
}

fn draw_v4_mb_gray(
    rs: [CodebookEntry; 4],
    px: usize,
    py: usize,
    out: &mut Vec<u8>,
    stride: usize,
    Ghost(a): Ghost<Paint>,
    Ghost(mb): Ghost<Mb>,
    Ghost(w): Ghost<int>,
    Ghost(h): Ghost<int>,
)
    requires
        mb matches Mb::V4(x) && forall|k: int| 0 <= k < 4 ==> a.v4[#[trigger] x[k] as int] == rs[k],
        a.mode == PixelMode::Gray8,
        fits(px as int, py as int, w, h),
        stride == w * mode_bpp(a.mode),
        old(out)@.len() == w * mode_bpp(a.mode) * h,
    ensures
        final(out)@ == draw_mb(old(out)@, stride as int, a, mb, px as int, py as int),
        final(out)@.len() == old(out)@.len(),
{
    let r0 = [rs[0].y0, rs[0].y1, rs[1].y0, rs[1].y1];
    let r1 = [rs[0].y2, rs[0].y3, rs[1].y2, rs[1].y3];
    let r2 = [rs[2].y0, rs[2].y1, rs[3].y0, rs[3].y1];
    let r3 = [rs[2].y2, rs[2].y3, rs[3].y2, rs[3].y3];
    let ghost x = mb->V4_0;
    let ghost quad = seq![
        a.v4[x[0] as int],
        a.v4[x[1] as int],
        a.v4[x[2] as int],
        a.v4[x[3] as int],
    ];
    assert(quad =~= rs@);
    assert(r0@ =~= v4_row(a.mode, quad, 0));
    assert(r1@ =~= v4_row(a.mode, quad, 1));
    assert(r2@ =~= v4_row(a.mode, quad, 2));
    assert(r3@ =~= v4_row(a.mode, quad, 3));
    draw_four(
        r0.as_slice(),
        r1.as_slice(),
        r2.as_slice(),
        r3.as_slice(),
        px,
        py,
        out,
        stride,
        Ghost(a),
        Ghost(mb),
        Ghost(w),
        Ghost(h),
    );
}

/// The bytes of row `i` of the previous frame's macroblock.
fn prev_row<'p>(
    prev: &'p CinepakFrame,
    bpp: usize,
    px: usize,
    py: usize,
    i: usize,
    Ghost(m): Ghost<PixelMode>,
) -> (r: &'p [u8])
    requires
        image::packed(prev@),
        i < 4,
        prev@.pixel_format == mode_format(m),
        bpp == mode_bpp(m),
        fits(px as int, py as int, prev@.width as int, prev@.height as int),
    ensures
        r@ == skip_row(m, prev@, px as int, py as int, i as int),
        r@.len() == 4 * bpp,
{
    assert(prev@.planes[0] == prev.planes@[0]@);
    let stride: usize = prev.planes[0].stride;
    let total: usize = prev.planes[0].data.len();
    proof {
        row_fits(
            px as int,
            py as int,
            i as int,
            prev@.width as int,
            prev@.height as int,
            bpp as int,
        );
        assert((py + i) * stride >= 0 && px * bpp >= 0) by (nonlinear_arith);
    }
    let off: usize = (py + i) * stride + px * bpp;
    part(prev.planes[0].data.as_slice(), off, off + 4 * bpp)
}

fn copy_mb_from_prev_rgb(
    prev: &CinepakFrame,
    px: usize,
    py: usize,
    out: &mut Vec<u8>,
    stride: usize,
    Ghost(a): Ghost<Paint>,
)
    requires
        image::packed(prev@),
        a.mode == PixelMode::Yuv12,
        a.prev == Some(prev@),
        fits(px as int, py as int, prev@.width as int, prev@.height as int),
        stride == prev@.width * mode_bpp(a.mode),
        old(out)@.len() == prev@.width * mode_bpp(a.mode) * prev@.height,
    ensures
        final(out)@ == draw_mb(old(out)@, stride as int, a, Mb::Skip, px as int, py as int),
        final(out)@.len() == old(out)@.len(),
{
    let ghost w = prev@.width as int;
    let ghost h = prev@.height as int;
    if prev.pixel_format != CinepakPixelFormat::Rgb24 {
        let zero = [0u8;12];
        assert(zero@ =~= skip_row(a.mode, prev@, px as int, py as int, 0));
        assert(zero@ =~= skip_row(a.mode, prev@, px as int, py as int, 1));
        assert(zero@ =~= skip_row(a.mode, prev@, px as int, py as int, 2));
        assert(zero@ =~= skip_row(a.mode, prev@, px as int, py as int, 3));
        draw_four(
            zero.as_slice(),
            zero.as_slice(),
            zero.as_slice(),
            zero.as_slice(),
            px,
            py,
            out,
            stride,
            Ghost(a),
            Ghost(Mb::Skip),
            Ghost(w),
            Ghost(h),
        );
    } else {
        let r0 = prev_row(prev, 3, px, py, 0, Ghost(a.mode));
        let r1 = prev_row(prev, 3, px, py, 1, Ghost(a.mode));
        let r2 = prev_row(prev, 3, px, py, 2, Ghost(a.mode));
        let r3 = prev_row(prev, 3, px, py, 3, Ghost(a.mode));
        draw_four(
            r0,
            r1,
            r2,
            r3,
            px,
            py,
            out,
            stride,
            Ghost(a),
            Ghost(Mb::Skip),
            Ghost(w),
            Ghost(h),
        );
    }
}

fn copy_mb_from_prev_gray(
    prev: &CinepakFrame,
    px: usize,
    py: usize,
    out: &mut Vec<u8>,
    stride: usize,
    Ghost(a): Ghost<Paint>,
)
    requires
        image::packed(prev@),
        a.mode == PixelMode::Gray8,
        a.prev == Some(prev@),
        fits(px as int, py as int, prev@.width as int, prev@.height as int),
        stride == prev@.width * mode_bpp(a.mode),
        old(out)@.len() == prev@.width * mode_bpp(a.mode) * prev@.height,
    ensures
        final(out)@ == draw_mb(old(out)@, stride as int, a, Mb::Skip, px as int, py as int),
        final(out)@.len() == old(out)@.len(),
{
    let ghost w = prev@.width as int;
    let ghost h = prev@.height as int;
    if prev.pixel_format != CinepakPixelFormat::Gray8 {
        let zero = [0u8;4];
        assert(zero@ =~= skip_row(a.mode, prev@, px as int, py as int, 0));
        assert(zero@ =~= skip_row(a.mode, prev@, px as int, py as int, 1));
        assert(zero@ =~= skip_row(a.mode, prev@, px as int, py as int, 2));
        assert(zero@ =~= skip_row(a.mode, prev@, px as int, py as int, 3));
        draw_four(
            zero.as_slice(),
            zero.as_slice(),
            zero.as_slice(),
            zero.as_slice(),
            px,
            py,
            out,
            stride,
            Ghost(a),
            Ghost(Mb::Skip),
            Ghost(w),
            Ghost(h),
        );
    } else {
        let r0 = prev_row(prev, 1, px, py, 0, Ghost(a.mode));
        let r1 = prev_row(prev, 1, px, py, 1, Ghost(a.mode));
        let r2 = prev_row(prev, 1, px, py, 2, Ghost(a.mode));
        let r3 = prev_row(prev, 1, px, py, 3, Ghost(a.mode));
        draw_four(
            r0,
            r1,
            r2,
            r3,
            px,
            py,
            out,
            stride,
            Ghost(a),
            Ghost(Mb::Skip),
            Ghost(w),
            Ghost(h),
        );
    }
}

/// Where macroblock `i` of a strip lies.
proof fn mb_place(i: int, cols: int, rows: int)
    requires
        0 <= i < rows * cols,
        0 <= cols,
        0 <= rows,
    ensures
        cols > 0,
        0 <= i / cols < rows,
        0 <= i % cols < cols,
{
    assert(cols > 0) by (nonlinear_arith)
        requires
            0 <= i < rows * cols,
            0 <= cols,
    ;
    assert(0 <= i / cols < rows) by (nonlinear_arith)
        requires
            0 <= i < rows * cols,
            cols > 0,
    ;
    assert(0 <= i % cols < cols) by (nonlinear_arith)
        requires
            cols > 0,
    ;
}

/// The four entries that the indices of a V4 macroblock name.
fn quad_of(v4: &Codebook, x: [u8; 4]) -> (r: [CodebookEntry; 4])
    ensures
        forall|k: int| 0 <= k < 4 ==> v4@[#[trigger] x[k] as int] == r[k],
{
    [
        v4.entries[x[0] as usize],
        v4.entries[x[1] as usize],
        v4.entries[x[2] as usize],
        v4.entries[x[3] as usize],
    ]
}

/// A strip of `rows` by `cols` macroblocks at `(x0, y0)` lies in a picture
/// of the given size.
spec fn strip_fits(x0: int, y0: int, cols: int, rows: int, w: int, h: int) -> bool {
    0 <= x0 && 0 <= y0 && 0 <= cols && 0 <= rows && x0 + cols * 4 <= w && y0 + rows * 4 <= h
}

/// The previous frame, where there is one, is a packed picture of the given
/// size.
spec fn prev_fits(prev: Option<FrameView>, w: int, h: int) -> bool {
    prev matches Some(p) ==> image::packed(p) && p.width == w && p.height == h
}

fn render_strip_rgb(
    mbs: &Vec<Mb>,
    v4: &Codebook,
    v1: &Codebook,
    cols: usize,
    rows: usize,
    y_top: usize,
    x_top: usize,
    prev: Option<&CinepakFrame>,
    out: &mut Vec<u8>,
    stride: usize,
    Ghost(w): Ghost<int>,
    Ghost(h): Ghost<int>,
) -> (r: Result<()>)
    requires
        strip_fits(x_top as int, y_top as int, cols as int, rows as int, w, h),
        mbs@.len() == rows * cols,
        prev_fits(frame_view(prev), w, h),
        h <= u32::MAX,
        stride == w * 3,
        old(out)@.len() == w * 3 * h,
    ensures
        final(out)@.len() == old(out)@.len(),
        match r {
            Ok(_) => !(has_skip(mbs@) && prev is None) && final(out)@ == draw_mbs(
                old(out)@,
                stride as int,
                Paint { mode: PixelMode::Yuv12, v4: v4@, v1: v1@, prev: frame_view(prev) },
                mbs@,
                x_top as int,
                y_top as int,
                cols as int,
                mbs@.len(),
            ),
            Err(e) => has_skip(mbs@) && prev is None && e@ == skip_without_prev(),
        },
{
    let ghost a = Paint { mode: PixelMode::Yuv12, v4: v4@, v1: v1@, prev: frame_view(prev) };
    let ghost before = out@;
    let mut i: usize = 0;
    while i < mbs.len()
        invariant
            i <= mbs@.len(),
            mbs@.len() == rows * cols,
            strip_fits(x_top as int, y_top as int, cols as int, rows as int, w, h),
            w <= usize::MAX,
            h <= u32::MAX,
            prev_fits(frame_view(prev), w, h),
            stride == w * 3,
            out@.len() == w * 3 * h,
            before.len() == out@.len(),
            a == (Paint { mode: PixelMode::Yuv12, v4: v4@, v1: v1@, prev: frame_view(prev) }),
            before == old(out)@,
            prev is None ==> forall|j: int| 0 <= j < i ==> !(#[trigger] mbs@[j] is Skip),
            out@ == draw_mbs(
                before,
                stride as int,
                a,
                mbs@,
                x_top as int,
                y_top as int,
                cols as int,
                i as nat,
            ),
        decreases mbs@.len() - i,
    {
        proof {
            mb_place(i as int, cols as int, rows as int);
        }
        let px: usize = x_top + i % cols * 4;
        let py: usize = y_top + i / cols * 4;
        match mbs[i] {
            Mb::V1(x) => {
                draw_v1_mb_rgb(
                    &v1.entries[x as usize],
                    px,
                    py,
                    out,
                    stride,
                    Ghost(a),
                    Ghost(mbs@[i as int]),
                    Ghost(w),
                    Ghost(h),
                );
            },
            Mb::V4(x) => {
                draw_v4_mb_rgb(
                    quad_of(v4, x),
                    px,
                    py,
                    out,
                    stride,
                    Ghost(a),
                    Ghost(mbs@[i as int]),
                    Ghost(w),
                    Ghost(h),
                );
            },
            Mb::Skip => {
                match prev {
                    None => {
                        assert(mbs@[i as int] is Skip);
                        return Err(
                            invalid(
                                "0x3100 skip macroblock on first frame (no previous reconstruction)",
                            ),
                        );
                    },
                    Some(p) => {
                        copy_mb_from_prev_rgb(p, px, py, out, stride, Ghost(a));
                    },
                }
            },
        }
        i = i + 1;
    }
    Ok(())
}

fn render_strip_gray(
    mbs: &Vec<Mb>,
    v4: &Codebook,
    v1: &Codebook,
    cols: usize,
    rows: usize,
    y_top: usize,
    x_top: usize,
    prev: Option<&CinepakFrame>,
    out: &mut Vec<u8>,
    stride: usize,
    Ghost(w): Ghost<int>,
    Ghost(h): Ghost<int>,
) -> (r: Result<()>)
    requires
        strip_fits(x_top as int, y_top as int, cols as int, rows as int, w, h),
        mbs@.len() == rows * cols,
        prev_fits(frame_view(prev), w, h),
        h <= u32::MAX,
        stride == w,
        old(out)@.len() == w * h,
    ensures
        final(out)@.len() == old(out)@.len(),
        match r {
            Ok(_) => !(has_skip(mbs@) && prev is None) && final(out)@ == draw_mbs(
                old(out)@,
                stride as int,
                Paint { mode: PixelMode::Gray8, v4: v4@, v1: v1@, prev: frame_view(prev) },
                mbs@,
                x_top as int,
                y_top as int,
                cols as int,
                mbs@.len(),
            ),
            Err(e) => has_skip(mbs@) && prev is None && e@ == skip_without_prev(),
        },
{
    let ghost a = Paint { mode: PixelMode::Gray8, v4: v4@, v1: v1@, prev: frame_view(prev) };
    let ghost before = out@;
    let mut i: usize = 0;
    while i < mbs.len()
        invariant
            i <= mbs@.len(),
            mbs@.len() == rows * cols,
            strip_fits(x_top as int, y_top as int, cols as int, rows as int, w, h),
            w <= usize::MAX,
            h <= u32::MAX,
            prev_fits(frame_view(prev), w, h),
            stride == w,
            w * 1 == w,
            out@.len() == w * h,
            before.len() == out@.len(),
            a == (Paint { mode: PixelMode::Gray8, v4: v4@, v1: v1@, prev: frame_view(prev) }),
            before == old(out)@,
            prev is None ==> forall|j: int| 0 <= j < i ==> !(#[trigger] mbs@[j] is Skip),
            out@ == draw_mbs(
                before,
                stride as int,
                a,
                mbs@,
                x_top as int,
                y_top as int,
                cols as int,
                i as nat,
            ),
        decreases mbs@.len() - i,
    {
        proof {
            mb_place(i as int, cols as int, rows as int);
        }
        let px: usize = x_top + i % cols * 4;
        let py: usize = y_top + i / cols * 4;
        match mbs[i] {
            Mb::V1(x) => {
                draw_v1_mb_gray(
                    &v1.entries[x as usize],
                    px,
                    py,
                    out,
                    stride,
                    Ghost(a),
                    Ghost(mbs@[i as int]),
                    Ghost(w),
                    Ghost(h),
                );
            },
            Mb::V4(x) => {
                draw_v4_mb_gray(
                    quad_of(v4, x),
                    px,
                    py,
                    out,
                    stride,
                    Ghost(a),
                    Ghost(mbs@[i as int]),
                    Ghost(w),
                    Ghost(h),
                );
            },
            Mb::Skip => {
                match prev {
                    None => {
                        assert(mbs@[i as int] is Skip);
                        return Err(
                            invalid(
                                "0x3100 skip macroblock on first frame (no previous reconstruction)",
                            ),
                        );
                    },
                    Some(p) => {
                        copy_mb_from_prev_gray(p, px, py, out, stride, Ghost(a));
                    },
                }
            },
        }
        i = i + 1;
    }
    Ok(())
}

/// Draws the macroblocks of a strip.
fn render_strip(
    mbs: &Vec<Mb>,
    v4: &Codebook,
    v1: &Codebook,
    mode: PixelMode,
    cols: usize,
    rows: usize,
    y_top: usize,
    x_top: usize,
    width: usize,
    prev: Option<&CinepakFrame>,
    out: &mut Vec<u8>,
    Ghost(h): Ghost<int>,
) -> (r: Result<()>)
    requires
        strip_fits(x_top as int, y_top as int, cols as int, rows as int, width as int, h),
        mbs@.len() == rows * cols,
        width * 3 <= usize::MAX,
        h <= u32::MAX,
        prev_fits(frame_view(prev), width as int, h),
        old(out)@.len() == width * mode_bpp(mode) * h,
    ensures
        final(out)@.len() == old(out)@.len(),
        match r {
            Ok(_) => !(has_skip(mbs@) && prev is None) && final(out)@ == draw_mbs(
                old(out)@,
                width * mode_bpp(mode),
                Paint { mode, v4: v4@, v1: v1@, prev: frame_view(prev) },
                mbs@,
                x_top as int,
                y_top as int,
                cols as int,
                mbs@.len(),
            ),
            Err(e) => has_skip(mbs@) && prev is None && e@ == skip_without_prev(),
        },
{
    match mode {
        PixelMode::Yuv12 => render_strip_rgb(
            mbs,
            v4,
            v1,
            cols,
            rows,
            y_top,
            x_top,
            prev,
            out,
            width * 3,
            Ghost(width as int),
            Ghost(h),
        ),
        PixelMode::Gray8 => render_strip_gray(
            mbs,
            v4,
            v1,
            cols,
            rows,
            y_top,
            x_top,
            prev,
            out,
            width,
            Ghost(width as int),
            Ghost(h),
        ),
    }
}

/// The state of a strip's chunks held in variables.
spec fn chunk_state(v4: Codebook, v1: Codebook, mode: Option<PixelMode>, mbs: Option<Vec<Mb>>) -> ChunkState {
    ChunkState {
        v4: v4@,
        v1: v1@,
        mode,
        mbs: match mbs {
            Some(m) => Some(m@),
            None => None,
        },
    }
}

/// Walks a strip's chunks: applies the codebook chunks and decodes the
/// vector chunk. Gives the macroblocks and the strip's pixel mode.
fn decode_strip_chunks(
    payload: &[u8],
    v4: &mut Codebook,
    v1: &mut Codebook,
    mb_count: usize,
    is_intra: bool,
    tolerate_codebook_pad: bool,
    prev_mode_hint: Option<PixelMode>,
) -> (r: Result<(Vec<Mb>, PixelMode)>)
    ensures
        ({
            let start = ChunkState { v4: old(v4)@, v1: old(v1)@, mode: None, mbs: None };
            let end = strip_chunks(
                payload@,
                0,
                start,
                mb_count as nat,
                is_intra,
                tolerate_codebook_pad,
            );
            match r {
                Ok((mbs, m)) => {
                    &&& end matches Ok(s)
                    &&& s.v4 == final(v4)@
                    &&& s.v1 == final(v1)@
                    &&& s.mbs == Some(mbs@)
                    &&& m == strip_mode(s.mode, prev_mode_hint)
                    &&& mbs@.len() == mb_count
                },
                Err(e) => match end {
                    Ok(s) => s.mbs is None && e@ == no_vector_chunk(),
                    Err(e2) => e@ == e2,
                },
            }
        }),
{
    let mut p: usize = 0;
    let mut mode: Option<PixelMode> = None;
    let mut mbs: Option<Vec<Mb>> = None;
    let ghost end = strip_chunks(
        payload@,
        0,
        chunk_state(*v4, *v1, mode, mbs),
        mb_count as nat,
        is_intra,
        tolerate_codebook_pad,
    );
    while p < payload.len()
        invariant
            p <= payload@.len(),
            mbs matches Some(m) ==> m@.len() == mb_count,
            end == strip_chunks(
                payload@,
                0,
                ChunkState { v4: old(v4)@, v1: old(v1)@, mode: None, mbs: None },
                mb_count as nat,
                is_intra,
                tolerate_codebook_pad,
            ),
            end == strip_chunks(
                payload@,
                p as int,
                chunk_state(*v4, *v1, mode, mbs),
                mb_count as nat,
                is_intra,
                tolerate_codebook_pad,
            ),
        decreases payload@.len() - p,
    {
        let ghost s = chunk_state(*v4, *v1, mode, mbs);
        if payload.len() - p < CHUNK_HEADER_SIZE {
            return Err(invalid("strip chunk header truncated"));
        }
        let chunk_id: u16 = read16(payload, p);
        let declared: u16 = read16(payload, p + 2);
        let chunk_size: usize = declared as usize;
        if chunk_size < CHUNK_HEADER_SIZE {
            return Err(
                CinepakError::invalid(
                    cat(
                        cat_dec(lit("chunk_size "), declared as u64),
                        " smaller than 4-byte header",
                    ),
                ),
            );
        }
        if payload.len() - p < chunk_size {
            return Err(
                CinepakError::invalid(
                    cat_dec(
                        cat(
                            cat_dec(
                                cat(
                                    cat_hex4(lit("chunk 0x"), chunk_id),
                                    " truncated: declared ",
                                ),
                                declared as u64,
                            ),
                            ", have ",
                        ),
                        (payload.len() - p) as u64,
                    ),
                ),
            );
        }
        let body = part(payload, p + CHUNK_HEADER_SIZE, p + chunk_size);
        if let Some(kind) = CodebookChunkKind::from_id(chunk_id) {
            if is_intra && kind.style == UpdateStyle::Selective {
                return Err(
                    CinepakError::invalid(
                        cat(
                            cat_hex4(lit("selective-update chunk 0x"), chunk_id),
                            " on intra strip",
                        ),
                    ),
                );
            }
            let m = match mode {
                Some(m) => match m.unify(kind.mode) {
                    Ok(m) => m,
                    Err(e) => return Err(e),
                },
                None => kind.mode,
            };
            mode = Some(m);
            let applied = match kind.which {
                WhichCodebook::V4 => apply_codebook_chunk_with(
                    kind,
                    body,
                    v4,
                    tolerate_codebook_pad,
                ),
                WhichCodebook::V1 => apply_codebook_chunk_with(
                    kind,
                    body,
                    v1,
                    tolerate_codebook_pad,
                ),
            };
            match applied {
                Ok(_) => {},
                Err(e) => return Err(e),
            }
            assert(codebook_chunk(s, chunk_id, kind, body@, is_intra, tolerate_codebook_pad)
                == Ok::<ChunkState, ErrorView>(chunk_state(*v4, *v1, mode, mbs)));
        } else if chunk_id == VECTOR_CHUNK_INTRA || chunk_id == VECTOR_CHUNK_INTER || chunk_id
            == VECTOR_CHUNK_V1_ONLY {
            if mbs.is_some() {
                return Err(invalid("strip carries more than one vector chunk"));
            }
            if chunk_id == VECTOR_CHUNK_INTER && is_intra {
                return Err(invalid("inter vector chunk 0x3100 on intra strip"));
            }
            match decode_vector_chunk(chunk_id, body, mb_count) {
                Ok(m) => {
                    proof {
                        vector::vector_mbs_len(chunk_id, body@, mb_count as nat);
                    }
                    mbs = Some(m);
                },
                Err(e) => return Err(e),
            }
        } else {
            return Err(
                CinepakError::invalid(cat_hex4(lit("unknown strip chunk id 0x"), chunk_id)),
            );
        }
        p = p + chunk_size;
    }
    match mbs {
        None => Err(invalid("strip carries no vector chunk")),
        Some(m) => {
            let own = match mode {
                Some(m) => m,
                None => match prev_mode_hint {
                    Some(m) => m,
                    None => PixelMode::Yuv12,
                },
            };
            Ok((m, own))
        },
    }
}

/// Number of macroblocks of a strip of the given width.
fn strip_hdr_mb_count(s: &StripHeader, width: u32) -> (r: usize)
    requires
        s.actual_y_bottom - s.actual_y_top <= 65535,
        width <= 65535,
    ensures
        s.actual_y_bottom >= s.actual_y_top ==> r == (s.actual_y_bottom - s.actual_y_top) / 4 * (
        width as int / 4),
{
    let rows: u32 = s.height() / 4;
    let cols: u32 = width / 4;
    assert(rows * cols <= 16383 * 16383) by (nonlinear_arith)
        requires
            rows <= 16383,
            cols <= 16383,
    ;
    (rows * cols) as usize
}

/// The picture of a frame that is being decoded.
struct Picture {
    v4: Codebook,
    v1: Codebook,
    mode: Option<PixelMode>,
    out: Vec<u8>,
}

impl Picture {
    spec fn work(self, cursor: int, bottom: int) -> FrameWork {
        FrameWork {
            v4: self.v4@,
            v1: self.v1@,
            mode: self.mode,
            out: self.out@,
            cursor,
            bottom,
        }
    }

    /// The buffer has the size that the frame and its mode ask for.
    spec fn sized(self, h: FrameHeader) -> bool {
        self.mode matches Some(m) ==> self.out@.len() == h.width * mode_bpp(m) * h.height
    }
}

fn strip_outside_error(i: u16, raw: &RawStripHeader, y0: u32, y1: u32, w: u16, h: u16) -> (e:
    CinepakError)
    ensures
        e@ == strip_outside(i as int, raw.x_top, raw.x_bottom, y0 as int, y1 as int, w, h),
{
    let s = cat_dec(cat(cat_dec(lit("strip "), i as u64), " bounds ("), raw.x_top as u64);
    let s = cat_dec(cat(cat_dec(cat(s, ".."), raw.x_bottom as u64), ", "), y0 as u64);
    let s = cat_dec(cat(cat_dec(cat(s, ".."), y1 as u64), ") exceed frame ("), w as u64);
    CinepakError::invalid(cat(cat_dec(cat(s, "x"), h as u64), ")"))
}

fn strip_reversed_error(i: u16, raw: &RawStripHeader, y0: u32, y1: u32) -> (e: CinepakError)
    ensures
        e@ == strip_reversed(i as int, raw.x_top, raw.x_bottom, y0 as int, y1 as int),
{
    let s = cat_dec(cat(cat_dec(lit("strip "), i as u64), " bounds ("), raw.x_top as u64);
    let s = cat_dec(cat(cat_dec(cat(s, ".."), raw.x_bottom as u64), ", "), y0 as u64);
    CinepakError::invalid(cat(cat_dec(cat(s, ".."), y1 as u64), ") are reversed"))
}

fn strip_misaligned_error(i: u16, w: u32, h: u32) -> (e: CinepakError)
    ensures
        e@ == strip_misaligned(i as int, w as int, h as int),
{
    let s = cat_dec(cat(cat_dec(lit("strip "), i as u64), " dims ("), w as u64);
    CinepakError::invalid(cat(cat_dec(cat(s, "x"), h as u64), ") not multiples of 4"))
}

/// Reads the header of strip `index` and places the strip in the frame.
fn read_strip(frame: &[u8], header: &FrameHeader, cursor: usize, index: u16, bottom: u32) -> (r:
    Result<StripHeader>)
    requires
        bottom <= header.height,
    ensures
        ({
            let at = header::strip_at(frame@, cursor as int, index as int);
            match r {
                Ok(s) => {
                    &&& at == Ok::<RawStripHeader, ErrorView>(s.raw)
                    &&& (s.actual_y_top as int, s.actual_y_bottom as int) == header::place_strip(
                        s.raw,
                        index == 0,
                        bottom as int,
                    )
                    &&& place_error(
                        *header,
                        s.raw,
                        index as int,
                        s.actual_y_top as int,
                        s.actual_y_bottom as int,
                    ) is None
                },
                Err(e) => match at {
                    Err(e2) => e@ == e2,
                    Ok(raw) => ({
                        let (top, low) = header::place_strip(raw, index == 0, bottom as int);
                        place_error(*header, raw, index as int, top, low) == Some(e@)
                    }),
                },
            }
        }),
{
    if cursor > frame.len() || frame.len() - cursor < STRIP_HEADER_SIZE {
        return Err(strip_truncated_error(index));
    }
    let raw = match RawStripHeader::parse(part(frame, cursor, cursor + STRIP_HEADER_SIZE)) {
        Ok(r) => r,
        Err(e) => return Err(e),
    };
    if frame.len() - cursor < raw.strip_size as usize {
        return Err(strip_overrun_error(index, raw.strip_size as usize));
    }
    let strip = StripHeader::resolve(raw, index == 0, bottom);
    let top: u32 = strip.actual_y_top;
    let low: u32 = strip.actual_y_bottom;
    if raw.x_bottom > header.width || low > header.height as u32 {
        return Err(strip_outside_error(index, &raw, top, low, header.width, header.height));
    }
    if raw.x_bottom < raw.x_top || low < top {
        return Err(strip_reversed_error(index, &raw, top, low));
    }
    if (raw.x_bottom - raw.x_top) % 4 != 0 || (low - top) % 4 != 0 {
        return Err(strip_misaligned_error(index, (raw.x_bottom - raw.x_top) as u32, low - top));
    }
    Ok(strip)
}

fn zero_bytes(n: usize) -> (r: Vec<u8>)
    ensures
        r@ == Seq::new(n as nat, |k: int| 0u8),
{
    let r = vec![0u8; n];
    assert(r@ =~= Seq::new(n as nat, |k: int| 0u8));
    r
}

/// Decodes the chunks of a strip and draws its macroblocks.
fn paint_strip(
    header: &FrameHeader,
    strip: &StripHeader,
    body: &[u8],
    tolerate: bool,
    prev: Option<&CinepakFrame>,
    pic: &mut Picture,
    Ghost(cursor): Ghost<int>,
    Ghost(bottom): Ghost<int>,
) -> (r: Result<()>)
    requires
        header.width * header.height * 3 <= usize::MAX,
        place_error(
            *header,
            strip.raw,
            0,
            strip.actual_y_top as int,
            strip.actual_y_bottom as int,
        ) is None,
        prev_fits(frame_view(prev), header.width as int, header.height as int),
        old(pic).sized(*header),
    ensures
        final(pic).sized(*header),
        ({
            let s = strip_pixels(
                *header,
                strip.raw,
                strip.actual_y_top as int,
                strip.actual_y_bottom as int,
                body@,
                tolerate,
                frame_view(prev),
                old(pic).work(cursor, bottom),
            );
            match r {
                Ok(_) => s == Ok::<FrameWork, ErrorView>(final(pic).work(cursor, bottom))
                    && final(pic).mode is Some,
                Err(e) => s == Err::<FrameWork, ErrorView>(e@),
            }
        }),
{
    proof {
        reveal(strip_pixels);
    }
    let width: u32 = (strip.raw.x_bottom - strip.raw.x_top) as u32;
    let hint = match pic.mode {
        Some(m) => Some(m),
        None => match prev {
            Some(p) => Some(
                match p.pixel_format {
                    CinepakPixelFormat::Gray8 => PixelMode::Gray8,
                    CinepakPixelFormat::Rgb24 => PixelMode::Yuv12,
                },
            ),
            None => None,
        },
    };
    let (mbs, own) = match decode_strip_chunks(
        body,
        &mut pic.v4,
        &mut pic.v1,
        strip_hdr_mb_count(strip, width),
        strip.raw.is_intra(),
        tolerate,
        hint,
    ) {
        Ok(d) => d,
        Err(e) => return Err(e),
    };
    let mode = match pic.mode {
        None => own,
        Some(m) => match m.unify(own) {
            Ok(m) => m,
            Err(e) => return Err(e),
        },
    };
    let w: usize = header.width as usize;
    let h: usize = header.height as usize;
    assert(w * h * 1 <= usize::MAX && w * 3 <= usize::MAX) by (nonlinear_arith)
        requires
            w * h * 3 <= usize::MAX,
            w <= 65535,
            h >= 0,
    ;
    if pic.mode.is_none() {
        let bpp: usize = match mode {
            PixelMode::Yuv12 => 3,
            PixelMode::Gray8 => 1,
        };
        assert(w * h <= usize::MAX);
        pic.out = zero_bytes(w * h * bpp);
    }
    let was = pic.mode;
    pic.mode = Some(mode);
    assert(w * h * mode_bpp(mode) == w * mode_bpp(mode) * h) by (nonlinear_arith);
    let cols: usize = (width / 4) as usize;
    let rows: usize = ((strip.actual_y_bottom - strip.actual_y_top) / 4) as usize;
    render_strip(
        &mbs,
        &pic.v4,
        &pic.v1,
        mode,
        cols,
        rows,
        strip.actual_y_top as usize,
        strip.raw.x_top as usize,
        w,
        prev,
        &mut pic.out,
        Ghost(h as int),
    )
}

/// Decodes strip `i` of a frame. Gives the offset and the bottom edge that
/// it reached.
fn decode_strip(
    frame: &[u8],
    header: &FrameHeader,
    cursor: usize,
    i: u16,
    bottom: u32,
    tolerate: bool,
    prev: Option<&CinepakFrame>,
    pic: &mut Picture,
) -> (r: Result<(usize, u32)>)
    requires
        header.width * header.height * 3 <= usize::MAX,
        bottom <= header.height,
        prev_fits(frame_view(prev), header.width as int, header.height as int),
        old(pic).sized(*header),
    ensures
        final(pic).sized(*header),
        ({
            let end = frame_strip(
                frame@,
                *header,
                i as int,
                tolerate,
                frame_view(prev),
                old(pic).work(cursor as int, bottom as int),
            );
            match r {
                Ok((c, b)) => end == Ok::<FrameWork, ErrorView>(
                    final(pic).work(c as int, b as int),
                ) && final(pic).mode is Some && b <= header.height,
                Err(e) => end == Err::<FrameWork, ErrorView>(e@),
            }
        }),
{
    proof {
        reveal(frame_strip);
    }
    let strip = match read_strip(frame, header, cursor, i, bottom) {
        Ok(s) => s,
        Err(e) => return Err(e),
    };
    let size: usize = strip.raw.strip_size as usize;
    let total: usize = frame.len();
    assert(cursor + size <= total);
    let body = part(frame, cursor + STRIP_HEADER_SIZE, cursor + size);
    match paint_strip(
        header,
        &strip,
        body,
        tolerate,
        prev,
        pic,
        Ghost(cursor as int),
        Ghost(bottom as int),
    ) {
        Ok(_) => {},
        Err(e) => return Err(e),
    }
    Ok((cursor + size, strip.actual_y_bottom))
}

/// Decodes the strips of a frame. Gives the offset and the bottom edge that
/// the last strip reached.
fn decode_strips(
    frame: &[u8],
    header: &FrameHeader,
    prefix: usize,
    tolerate: bool,
    prev: Option<&CinepakFrame>,
    pic: &mut Picture,
) -> (r: Result<(usize, u32)>)
    requires
        header.width * header.height * 3 <= usize::MAX,
        header.strip_count > 0,
        prev_fits(frame_view(prev), header.width as int, header.height as int),
        old(pic).sized(*header),
    ensures
        ({
            let end = frame_strips(
                frame@,
                *header,
                0,
                tolerate,
                frame_view(prev),
                old(pic).work(prefix as int, 0),
            );
            match r {
                Ok((c, b)) => end == Ok::<FrameWork, ErrorView>(
                    final(pic).work(c as int, b as int),
                ) && final(pic).mode is Some && final(pic).sized(*header),
                Err(e) => end == Err::<FrameWork, ErrorView>(e@),
            }
        }),
{
    let mut cursor: usize = prefix;
    let mut bottom: u32 = 0;
    let mut i: u16 = 0;
    let ghost end = frame_strips(
        frame@,
        *header,
        0,
        tolerate,
        frame_view(prev),
        pic.work(prefix as int, 0),
    );
    while i < header.strip_count
        invariant
            i <= header.strip_count,
            i > 0 ==> pic.mode is Some,
            header.width * header.height * 3 <= usize::MAX,
            bottom <= header.height,
            pic.sized(*header),
            prev_fits(frame_view(prev), header.width as int, header.height as int),
            end == frame_strips(
                frame@,
                *header,
                0,
                tolerate,
                frame_view(prev),
                old(pic).work(prefix as int, 0),
            ),
            end == frame_strips(
                frame@,
                *header,
                i as int,
                tolerate,
                frame_view(prev),
                pic.work(cursor as int, bottom as int),
            ),
        decreases header.strip_count - i,
    {
        match decode_strip(frame, header, cursor, i, bottom, tolerate, prev, pic) {
            Ok(reached) => {
                cursor = reached.0;
                bottom = reached.1;
            },
            Err(e) => return Err(e),
        }
        i = i + 1;
    }
    Ok((cursor, bottom))
}

/// Decodes Cinepak frames. It keeps the codebooks of the last strip and the
/// last frame, which later frames may refer to.
pub struct CinepakDecoder {
    prev_v4: Option<Codebook>,
    prev_v1: Option<Codebook>,
    prev_frame: Option<CinepakFrame>,
}

impl View for CinepakDecoder {
    type V = DecoderState;

    closed spec fn view(&self) -> DecoderState {
        DecoderState {
            v4: match self.prev_v4 {
                Some(c) => Some(c@),
                None => None,
            },
            v1: match self.prev_v1 {
                Some(c) => Some(c@),
                None => None,
            },
            prev: match self.prev_frame {
                Some(f) => Some(f@),
                None => None,
            },
        }
    }
}

/// The state of a decoder that has seen no frame.
pub open spec fn fresh_decoder() -> DecoderState {
    DecoderState { v4: None, v1: None, prev: None }
}

impl Default for CinepakDecoder {
    fn default() -> (r: Self)
        ensures
            r.wf(),
            r@ == fresh_decoder(),
    {
        CinepakDecoder { prev_v4: None, prev_v1: None, prev_frame: None }
    }
}

impl Clone for CinepakDecoder {
    fn clone(&self) -> (r: Self)
        ensures
            r@ == self@,
    {
        CinepakDecoder {
            prev_v4: match &self.prev_v4 {
                Some(c) => Some(c.clone()),
                None => None,
            },
            prev_v1: match &self.prev_v1 {
                Some(c) => Some(c.clone()),
                None => None,
            },
            prev_frame: match &self.prev_frame {
                Some(f) => Some(f.clone()),
                None => None,
            },
        }
    }
}

impl CinepakDecoder {
    /// The frame kept is a packed picture.
    pub open spec fn wf(self) -> bool {
        self@.prev matches Some(p) ==> image::packed(p)
    }

    /// A decoder that has seen no frame.
    pub fn new() -> (r: Self)
        ensures
            r.wf(),
            r@ == fresh_decoder(),
    {
        CinepakDecoder { prev_v4: None, prev_v1: None, prev_frame: None }
    }

    /// Forgets everything.
    pub fn reset(&mut self)
        ensures
            final(self).wf(),
            final(self)@ == fresh_decoder(),
    {
        self.prev_v4 = None;
        self.prev_v1 = None;
        self.prev_frame = None;
    }

    /// Decodes a frame. The frame length in its header must not exceed the
    /// length of `bytes`; what follows the frame is not looked at.
    pub fn decode_frame(&mut self, bytes: &[u8], pts: Option<i64>) -> (r: Result<CinepakFrame>)
        requires
            old(self).wf(),
        ensures
            final(self).wf(),
            match r {
                Ok(f) => image::packed(f@) && decoded(old(self)@, bytes@, pts, None) == (
                    final(self)@,
                    Ok::<FrameView, ErrorView>(f@),
                ),
                Err(e) => decoded(old(self)@, bytes@, pts, None) == (
                    final(self)@,
                    Err::<FrameView, ErrorView>(e@),
                ),
            },
    {
        self.decode_frame_inner(bytes, pts, None)
    }

    /// Decodes a frame of a variant. All of `bytes` is the frame, whatever
    /// length its header gives.
    pub fn decode_deviant_frame(
        &mut self,
        bytes: &[u8],
        pts: Option<i64>,
        cfg: DeviantConfig,
    ) -> (r: Result<CinepakFrame>)
        requires
            old(self).wf(),
        ensures
            final(self).wf(),
            match r {
                Ok(f) => image::packed(f@) && decoded(old(self)@, bytes@, pts, Some(cfg)) == (
                    final(self)@,
                    Ok::<FrameView, ErrorView>(f@),
                ),
                Err(e) => decoded(old(self)@, bytes@, pts, Some(cfg)) == (
                    final(self)@,
                    Err::<FrameView, ErrorView>(e@),
                ),
            },
    {
        self.decode_frame_inner(bytes, pts, Some(cfg))
    }

    fn decode_frame_inner(
        &mut self,
        bytes: &[u8],
        pts: Option<i64>,
        deviant: Option<DeviantConfig>,
    ) -> (r: Result<CinepakFrame>)
        requires
            old(self).wf(),
        ensures
            final(self).wf(),
            match r {
                Ok(f) => image::packed(f@) && decoded(old(self)@, bytes@, pts, deviant) == (
                    final(self)@,
                    Ok::<FrameView, ErrorView>(f@),
                ),
                Err(e) => decoded(old(self)@, bytes@, pts, deviant) == (
                    final(self)@,
                    Err::<FrameView, ErrorView>(e@),
                ),
            },
    {
        let ghost before = self@;
        let header = match FrameHeader::parse(bytes) {
            Ok(h) => h,
            Err(e) => return Err(e),
        };
        let (frame, prefix, tolerate) = match deviant {
            Some(d) => (
                bytes,
                FRAME_HEADER_SIZE + d.extra_header_bytes as usize,
                d.tolerate_codebook_pad,
            ),
            None => {
                let n: usize = header.frame_length as usize;
                if n > bytes.len() {
                    return Err(frame_length_large_error(n, bytes.len()));
                }
                (part(bytes, 0, n), FRAME_HEADER_SIZE, false)
            },
        };
        assert(header.width * header.height <= 65535 * 65535) by (nonlinear_arith)
            requires
                header.width <= 65535,
                header.height <= 65535,
        ;
        if (header.width as u64) * (header.height as u64) * 3 > usize::MAX as u64 {
            let s = cat_dec(lit("frame of "), header.width as u64);
            let s = cat_dec(cat(s, "x"), header.height as u64);
            return Err(CinepakError::unsupported(cat(s, " pixels does not fit in memory")));
        }
        let w: u32 = header.width as u32;
        let h: u32 = header.height as u32;
        let keep = match &self.prev_frame {
            Some(p) => p.width == w && p.height == h,
            None => true,
        };
        if !keep {
            self.prev_frame = None;
        }
        let ghost prev = prev_of_size(before.prev, header);
        assert(self@.prev == prev);
        let v4 = match self.prev_v4.take() {
            Some(c) => c,
            None => Codebook::default(),
        };
        let v1 = match self.prev_v1.take() {
            Some(c) => c,
            None => Codebook::default(),
        };
        let mut pic = Picture { v4, v1, mode: None, out: Vec::new() };
        assert(pic.work(prefix as int, 0) == frame_start(before, prefix as int));
        let end = match decode_strips(
            frame,
            &header,
            prefix,
            tolerate,
            self.prev_frame.as_ref(),
            &mut pic,
        ) {
            Ok(end) => end,
            Err(e) => return Err(e),
        };
        let ghost done = pic.work(end.0 as int, end.1 as int);
        let (format, stride) = match pic.mode {
            Some(PixelMode::Gray8) => (CinepakPixelFormat::Gray8, header.width as usize),
            _ => (CinepakPixelFormat::Rgb24, (header.width as usize) * 3),
        };
        let mut planes: Vec<CinepakPlane> = Vec::new();
        planes.push(CinepakPlane { stride, data: pic.out });
        let f = CinepakFrame { width: w, height: h, pixel_format: format, pts, planes };
        assert(f@.planes =~= finished(header, done, pts).planes);
        self.prev_v4 = Some(pic.v4);
        self.prev_v1 = Some(pic.v1);
        self.prev_frame = Some(f.clone());
        Ok(f)
    }
}

/// A macroblock at `(px, py)` lies in a picture of `w` by `h` pixels, and
/// the previous frame has that size where there is one.
pub open spec fn drawable(a: Paint, mb: Mb, px: int, py: int, w: int, h: int) -> bool {
    &&& 0 <= px && 0 <= py && px + 4 <= w && py + 4 <= h
    &&& mb is Skip ==> (a.prev matches Some(p) && image::packed(p) && p.width == w && p.height == h)
}

proof fn mb_row_len(a: Paint, mb: Mb, px: int, py: int, w: int, h: int, i: int)
    requires
        drawable(a, mb, px, py, w, h),
        0 <= i < 4,
    ensures
        mb_row(a, mb, px, py, i).len() == 4 * mode_bpp(a.mode),
{
    if mb is Skip {
        row_fits(px, py, i, w, h, mode_bpp(a.mode) as int);
    }
}

/// Offset of row `i` of a macroblock at `(px, py)`.
pub open spec fn row_start(w: int, bpp: int, px: int, py: int, i: int) -> int {
    (py + i) * (w * bpp) + px * bpp
}

proof fn rows_apart(w: int, bpp: int, px: int, py: int, i: int, j: int)
    requires
        px + 4 <= w,
        bpp > 0,
        0 <= px,
        i < j,
    ensures
        row_start(w, bpp, px, py, i) + 4 * bpp <= row_start(w, bpp, px, py, j),
{
    let stride = w * bpp;
    assert(stride >= 4 * bpp) by (nonlinear_arith)
        requires
            w >= 4,
            stride == w * bpp,
            bpp > 0,
    ;
    assert((py + i) * stride + stride <= (py + j) * stride) by (nonlinear_arith)
        requires
            i + 1 <= j,
            stride >= 0,
    ;
}

proof fn draw_rows_effect(
    out: Seq<u8>,
    a: Paint,
    mb: Mb,
    px: int,
    py: int,
    w: int,
    h: int,
    n: nat,
    q: int,
)
    requires
        drawable(a, mb, px, py, w, h),
        out.len() == w * mode_bpp(a.mode) * h,
        n <= 4,
        0 <= q < out.len(),
    ensures
        ({
            let bpp = mode_bpp(a.mode) as int;
            let got = draw_rows(out, w * bpp, a, mb, px, py, n);
            &&& got.len() == out.len()
            &&& forall|i: int|
                0 <= i < n && #[trigger] row_start(w, bpp, px, py, i) <= q < row_start(
                    w,
                    bpp,
                    px,
                    py,
                    i,
                ) + 4 * bpp ==> got[q] == mb_row(a, mb, px, py, i)[q - row_start(
                    w,
                    bpp,
                    px,
                    py,
                    i,
                )]
            &&& (forall|i: int|
                0 <= i < n ==> !(#[trigger] row_start(w, bpp, px, py, i) <= q < row_start(
                    w,
                    bpp,
                    px,
                    py,
                    i,
                ) + 4 * bpp)) ==> got[q] == out[q]
        }),
    decreases n,
{
    let bpp = mode_bpp(a.mode) as int;
    if n > 0 {
        draw_rows_effect(out, a, mb, px, py, w, h, (n - 1) as nat, q);
        let last = n - 1;
        mb_row_len(a, mb, px, py, w, h, last);
        row_fits(px, py, last, w, h, bpp);
        let off = row_start(w, bpp, px, py, last);
        let got = draw_rows(out, w * bpp, a, mb, px, py, n);
        let prior = draw_rows(out, w * bpp, a, mb, px, py, last as nat);
        assert(got == splice(prior, off, mb_row(a, mb, px, py, last)));
        assert forall|i: int|
            0 <= i < n && #[trigger] row_start(w, bpp, px, py, i) <= q < row_start(
                w,
                bpp,
                px,
                py,
                i,
            ) + 4 * bpp implies got[q] == mb_row(a, mb, px, py, i)[q - row_start(
            w,
            bpp,
            px,
            py,
            i,
        )] by {
            if i < last {
                rows_apart(w, bpp, px, py, i, last);
                assert(got[q] == prior[q]);
            }
        }
    }
}

/// A drawn macroblock shows its rows: byte `k` of row `i` is where the
/// picture's row `py + i` has it.
pub proof fn drawn_pixel(
    out: Seq<u8>,
    a: Paint,
    mb: Mb,
    px: int,
    py: int,
    w: int,
    h: int,
    i: int,
    k: int,
)
    requires
        drawable(a, mb, px, py, w, h),
        out.len() == w * mode_bpp(a.mode) * h,
        0 <= i < 4,
        0 <= k < 4 * mode_bpp(a.mode),
    ensures
        draw_mb(out, w * mode_bpp(a.mode), a, mb, px, py)[row_start(
            w,
            mode_bpp(a.mode) as int,
            px,
            py,
            i,
        ) + k] == mb_row(a, mb, px, py, i)[k],
{
    let bpp = mode_bpp(a.mode) as int;
    row_fits(px, py, i, w, h, bpp);
    let q = row_start(w, bpp, px, py, i) + k;
    draw_rows_effect(out, a, mb, px, py, w, h, 4, q);
}

/// Drawing a macroblock changes nothing outside its four rows.
pub proof fn drawn_elsewhere(
    out: Seq<u8>,
    a: Paint,
    mb: Mb,
    px: int,
    py: int,
    w: int,
    h: int,
    q: int,
)
    requires
        drawable(a, mb, px, py, w, h),
        out.len() == w * mode_bpp(a.mode) * h,
        0 <= q < out.len(),
        forall|i: int|
            0 <= i < 4 ==> !(#[trigger] row_start(w, mode_bpp(a.mode) as int, px, py, i) <= q
                < row_start(w, mode_bpp(a.mode) as int, px, py, i) + 4 * mode_bpp(a.mode)),
    ensures
        draw_mb(out, w * mode_bpp(a.mode), a, mb, px, py)[q] == out[q],
{
    draw_rows_effect(out, a, mb, px, py, w, h, 4, q);
}

/// The decoder draws a V1 macroblock in colour as its expansion: the
/// channels of the pixel in row `i` and column `j` are those of
/// [`v1_rgb`].
pub proof fn v1_drawn_as_expanded(
    out: Seq<u8>,
    a: Paint,
    x: u8,
    px: int,
    py: int,
    w: int,
    h: int,
    i: int,
    j: int,
    c: int,
)
    requires
        a.mode == PixelMode::Yuv12,
        drawable(a, Mb::V1(x), px, py, w, h),
        out.len() == w * 3 * h,
        0 <= i < 4,
        0 <= j < 4,
        0 <= c < 3,
    ensures
        draw_mb(out, w * 3, a, Mb::V1(x), px, py)[(py + i) * (w * 3) + (px + j) * 3 + c]
            == channel(yuv::v1_rgb(a.v1[x as int], i, j), c),
{
    drawn_pixel(out, a, Mb::V1(x), px, py, w, h, i, 3 * j + c);
    assert((3 * j + c) / 3 == j && (3 * j + c) % 3 == c);
}

/// The decoder draws a V4 macroblock in colour as its expansion: the
/// channels of the pixel in row `i` and column `j` are those of
/// [`v4_rgb`].
pub proof fn v4_drawn_as_expanded(
    out: Seq<u8>,
    a: Paint,
    x: [u8; 4],
    px: int,
    py: int,
    w: int,
    h: int,
    i: int,
    j: int,
    c: int,
)
    requires
        a.mode == PixelMode::Yuv12,
        drawable(a, Mb::V4(x), px, py, w, h),
        out.len() == w * 3 * h,
        0 <= i < 4,
        0 <= j < 4,
        0 <= c < 3,
    ensures
        draw_mb(out, w * 3, a, Mb::V4(x), px, py)[(py + i) * (w * 3) + (px + j) * 3 + c]
            == channel(
            yuv::v4_rgb(
                seq![
                    a.v4[x[0] as int],
                    a.v4[x[1] as int],
                    a.v4[x[2] as int],
                    a.v4[x[3] as int],
                ],
                i,
                j,
            ),
            c,
        ),
{
    drawn_pixel(out, a, Mb::V4(x), px, py, w, h, i, 3 * j + c);
    assert((3 * j + c) / 3 == j && (3 * j + c) % 3 == c);
}

/// A skipped macroblock shows the previous frame, where that has the same
/// pixel format.
pub proof fn skip_shows_previous(
    out: Seq<u8>,
    a: Paint,
    px: int,
    py: int,
    w: int,
    h: int,
    i: int,
    k: int,
)
    requires
        drawable(a, Mb::Skip, px, py, w, h),
        a.prev->0.pixel_format == mode_format(a.mode),
        out.len() == w * mode_bpp(a.mode) * h,
        0 <= i < 4,
        0 <= k < 4 * mode_bpp(a.mode),
    ensures
        ({
            let q = row_start(w, mode_bpp(a.mode) as int, px, py, i) + k;
            draw_mb(out, w * mode_bpp(a.mode), a, Mb::Skip, px, py)[q]
                == a.prev->0.planes[0].data[q]
        }),
{
    let bpp = mode_bpp(a.mode) as int;
    row_fits(px, py, i, w, h, bpp);
    drawn_pixel(out, a, Mb::Skip, px, py, w, h, i, k);
}

/// A frame that decodes has the size that its header gives.
pub proof fn decoded_size(
    s: DecoderState,
    bytes: Seq<u8>,
    pts: Option<i64>,
    cfg: Option<DeviantConfig>,
)
    requires
        decoded(s, bytes, pts, cfg).1 is Ok,
    ensures
        header::frame_header(bytes) is Ok,
        decoded(s, bytes, pts, cfg).1->Ok_0.width == header::frame_header(bytes)->Ok_0.width,
        decoded(s, bytes, pts, cfg).1->Ok_0.height == header::frame_header(bytes)->Ok_0.height,
        decoded(s, bytes, pts, cfg).1->Ok_0.pts == pts,
        decoded(s, bytes, pts, cfg).0.prev == Some(decoded(s, bytes, pts, cfg).1->Ok_0),
{
}

/// A variant that departs in nothing decodes as the plain format, where the
/// header gives the whole length.
pub proof fn plain_variant(s: DecoderState, bytes: Seq<u8>, pts: Option<i64>, cfg: DeviantConfig)
    requires
        cfg.extra_header_bytes == 0,
        !cfg.tolerate_codebook_pad,
        header::frame_header(bytes) matches Ok(h) ==> h.frame_length == bytes.len(),
    ensures
        decoded(s, bytes, pts, Some(cfg)) == decoded(s, bytes, pts, None),
{
    assert(bytes.subrange(0, bytes.len() as int) =~= bytes);
}

/// What follows a frame in its buffer does not matter.
pub proof fn trailing_ignored(
    s: DecoderState,
    bytes: Seq<u8>,
    trailing: Seq<u8>,
    pts: Option<i64>,
)
    requires
        header::frame_header(bytes) matches Ok(h) && h.frame_length <= bytes.len(),
    ensures
        decoded(s, bytes + trailing, pts, None) == decoded(s, bytes, pts, None),
{
    let h = header::frame_header(bytes)->Ok_0;
    let all = bytes + trailing;
    assert(all.subrange(0, h.frame_length as int) =~= bytes.subrange(0, h.frame_length as int));
    assert(forall|i: int| 0 <= i < 10 ==> all[i] == bytes[i]);
}

/// A frame whose header is wrong, or longer than its buffer, leaves the
/// decoder as it was.
pub proof fn bad_header_keeps_state(
    s: DecoderState,
    bytes: Seq<u8>,
    pts: Option<i64>,
    cfg: Option<DeviantConfig>,
)
    requires
        match header::frame_header(bytes) {
            Err(_) => true,
            Ok(h) => cfg is None && h.frame_length > bytes.len(),
        },
    ensures
        decoded(s, bytes, pts, cfg).0 == s,
        decoded(s, bytes, pts, cfg).1 is Err,
{
}

} // verus!
