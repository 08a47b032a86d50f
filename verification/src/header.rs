//! Frame headers, strip headers and the walk over a frame's strips.
//!
//! A frame starts with ten bytes: a flag byte, a 24-bit frame length, and
//! the width, height and strip count as 16-bit numbers. Each strip starts
//! with twelve bytes: id, size, and the coordinates of its top, left,
//! bottom and right edge. All numbers are big-endian.

use vstd::prelude::*;
use crate::bits::{self, part, read16, read24};
use crate::error::{self, invalid, CinepakError, ErrorView, Result};
use crate::text::{self, cat, cat_dec, cat_hex4, lit};

verus! {

/// Bytes of a frame header.
pub const FRAME_HEADER_SIZE: usize = 10;

/// Bytes of a strip header.
pub const STRIP_HEADER_SIZE: usize = 12;

/// Id of a strip that stands on its own.
pub const STRIP_ID_INTRA: u16 = 0x1000;

/// Id of a strip that may refer to the previous frame.
pub const STRIP_ID_INTER: u16 = 0x1100;

/// The header of a frame.
#[derive(Clone, Copy, Debug, PartialEq, Eq, Structural)]
pub struct FrameHeader {
    /// Flag byte.
    pub flags: u8,
    /// Length of the frame in bytes, this header included; 24 bits are
    /// coded.
    pub frame_length: u32,
    /// Width in pixels.
    pub width: u16,
    /// Height in pixels.
    pub height: u16,
    /// Number of strips.
    pub strip_count: u16,
}

/// The header of a strip, as it is coded.
#[derive(Clone, Copy, Debug, PartialEq, Eq, Structural)]
pub struct RawStripHeader {
    /// [`STRIP_ID_INTRA`] or [`STRIP_ID_INTER`].
    pub strip_id: u16,
    /// Length of the strip in bytes, this header included.
    pub strip_size: u16,
    /// Top edge.
    pub y_top: u16,
    /// Left edge.
    pub x_top: u16,
    /// Bottom edge, exclusive, or the height: see [`StripHeader::resolve`].
    pub y_bottom: u16,
    /// Right edge, exclusive.
    pub x_bottom: u16,
}

/// The header of a strip with its vertical position in the frame.
#[derive(Clone, Copy, Debug, PartialEq, Eq, Structural)]
pub struct StripHeader {
    /// The header as it is coded.
    pub raw: RawStripHeader,
    /// Top edge in the frame.
    pub actual_y_top: u32,
    /// Bottom edge in the frame, exclusive.
    pub actual_y_bottom: u32,
}

/// Message of a buffer that ends inside a frame header.
pub open spec fn frame_header_short(len: nat) -> ErrorView {
    ErrorView::InvalidData("frame header truncated: need 10 bytes, got "@ + text::dec(len))
}

/// Message of a frame without strips.
pub open spec fn no_strips() -> ErrorView {
    ErrorView::InvalidData("strip_count must be ≥ 1"@)
}

/// Message of a frame without pixels.
pub open spec fn empty_frame(w: u16, h: u16) -> ErrorView {
    ErrorView::InvalidData(
        "width/height must be > 0 (got "@ + text::dec(w as nat) + "x"@ + text::dec(h as nat) + ")"@,
    )
}

/// Message of a frame that is not made of whole macroblocks.
pub open spec fn misaligned_frame(w: u16, h: u16) -> ErrorView {
    ErrorView::InvalidData(
        "width and height must be multiples of 4 (got "@ + text::dec(w as nat) + "x"@ + text::dec(h as nat)
            + ")"@,
    )
}

/// Message of a frame that is shorter than its header.
pub open spec fn frame_length_small(n: u32) -> ErrorView {
    ErrorView::InvalidData(
        "frame_length "@ + text::dec(n as nat) + " smaller than 10-byte header"@,
    )
}

/// Message of a frame that is longer than its buffer.
pub open spec fn frame_length_large(n: nat, len: nat) -> ErrorView {
    ErrorView::InvalidData("frame_length "@ + text::dec(n) + " exceeds buffer size "@ + text::dec(len))
}

/// Message of a buffer that ends inside a strip header.
pub open spec fn strip_header_short(len: nat) -> ErrorView {
    ErrorView::InvalidData("strip header truncated: need 12 bytes, got "@ + text::dec(len))
}

/// Message of a strip id that is not defined.
pub open spec fn unknown_strip_id(id: u16) -> ErrorView {
    ErrorView::InvalidData(
        "unknown strip_id 0x"@ + text::hex4(id)
            + "; only 0x1000 (intra) and 0x1100 (inter) are defined"@,
    )
}

/// Message of a strip that is shorter than its header.
pub open spec fn strip_size_small(n: u16) -> ErrorView {
    ErrorView::InvalidData("strip_size "@ + text::dec(n as nat) + " < 12 (own header size)"@)
}

/// Message of a frame that ends inside the header of strip `i`.
pub open spec fn strip_truncated(i: nat) -> ErrorView {
    ErrorView::InvalidData("strip "@ + text::dec(i) + " header truncated"@)
}

/// Message of a frame that ends inside strip `i`.
pub open spec fn strip_overrun(i: nat, size: nat) -> ErrorView {
    ErrorView::InvalidData(
        "strip "@ + text::dec(i) + " declared size "@ + text::dec(size) + " overruns frame"@,
    )
}

pub(crate) fn frame_length_large_error(n: usize, len: usize) -> (e: CinepakError)
    ensures
        e@ == frame_length_large(n as nat, len as nat),
{
    CinepakError::invalid(
        cat_dec(
            cat(cat_dec(lit("frame_length "), n as u64), " exceeds buffer size "),
            len as u64,
        ),
    )
}

pub(crate) fn strip_truncated_error(i: u16) -> (e: CinepakError)
    ensures
        e@ == strip_truncated(i as nat),
{
    CinepakError::invalid(cat(cat_dec(lit("strip "), i as u64), " header truncated"))
}

pub(crate) fn strip_overrun_error(i: u16, size: usize) -> (e: CinepakError)
    ensures
        e@ == strip_overrun(i as nat, size as nat),
{
    CinepakError::invalid(
        cat(
            cat_dec(cat(cat_dec(lit("strip "), i as u64), " declared size "), size as u64),
            " overruns frame",
        ),
    )
}

/// The fields of a frame header at the start of `b`.
pub open spec fn frame_fields(b: Seq<u8>) -> FrameHeader {
    FrameHeader {
        flags: b[0],
        frame_length: bits::be24(b, 1),
        width: bits::be16(b, 4),
        height: bits::be16(b, 6),
        strip_count: bits::be16(b, 8),
    }
}

/// The frame header at the start of `b`, or what is wrong with it.
pub open spec fn frame_header(b: Seq<u8>) -> core::result::Result<FrameHeader, ErrorView> {
    let h = frame_fields(b);
    if b.len() < FRAME_HEADER_SIZE {
        Err(frame_header_short(b.len()))
    } else if h.strip_count == 0 {
        Err(no_strips())
    } else if h.width == 0 || h.height == 0 {
        Err(empty_frame(h.width, h.height))
    } else if h.width % 4 != 0 || h.height % 4 != 0 {
        Err(misaligned_frame(h.width, h.height))
    } else if h.frame_length < FRAME_HEADER_SIZE {
        Err(frame_length_small(h.frame_length))
    } else {
        Ok(h)
    }
}

/// A frame header as bytes. Only the low 24 bits of the length are coded.
pub open spec fn frame_header_bytes(h: FrameHeader) -> Seq<u8> {
    seq![h.flags] + bits::be24_bytes(h.frame_length) + bits::be16_bytes(h.width) + bits::be16_bytes(h.height)
        + bits::be16_bytes(h.strip_count)
}

impl FrameHeader {
    /// Reads the header at the start of `buf`.
    pub fn parse(buf: &[u8]) -> (r: Result<Self>)
        ensures
            error::outcome(r) == frame_header(buf@),
    {
        if buf.len() < FRAME_HEADER_SIZE {
            return Err(
                CinepakError::invalid(
                    cat_dec(
                        lit("frame header truncated: need 10 bytes, got "),
                        buf.len() as u64,
                    ),
                ),
            );
        }
        let flags: u8 = buf[0];
        let frame_length: u32 = read24(buf, 1);
        let width: u16 = read16(buf, 4);
        let height: u16 = read16(buf, 6);
        let strip_count: u16 = read16(buf, 8);
        if strip_count == 0 {
            return Err(invalid("strip_count must be ≥ 1"));
        }
        if width == 0 || height == 0 {
            return Err(
                CinepakError::invalid(
                    cat(
                        cat_dec(
                            cat(cat_dec(lit("width/height must be > 0 (got "), width as u64), "x"),
                            height as u64,
                        ),
                        ")",
                    ),
                ),
            );
        }
        if width % 4 != 0 || height % 4 != 0 {
            return Err(
                CinepakError::invalid(
                    cat(
                        cat_dec(
                            cat(
                                cat_dec(
                                    lit("width and height must be multiples of 4 (got "),
                                    width as u64,
                                ),
                                "x",
                            ),
                            height as u64,
                        ),
                        ")",
                    ),
                ),
            );
        }
        if (frame_length as usize) < FRAME_HEADER_SIZE {
            return Err(
                CinepakError::invalid(
                    cat(
                        cat_dec(lit("frame_length "), frame_length as u64),
                        " smaller than 10-byte header",
                    ),
                ),
            );
        }
        Ok(FrameHeader { flags, frame_length, width, height, strip_count })
    }

    /// Writes the header. The length is cut to its low 24 bits.
    pub fn encode(&self, out: &mut [u8; FRAME_HEADER_SIZE])
        ensures
            final(out)@ == frame_header_bytes(*self),
    {
        out[0] = self.flags;
        out[1] = (self.frame_length / 65536 % 256) as u8;
        out[2] = (self.frame_length / 256 % 256) as u8;
        out[3] = (self.frame_length % 256) as u8;
        out[4] = (self.width / 256) as u8;
        out[5] = (self.width % 256) as u8;
        out[6] = (self.height / 256) as u8;
        out[7] = (self.height % 256) as u8;
        out[8] = (self.strip_count / 256) as u8;
        out[9] = (self.strip_count % 256) as u8;
        assert(out@ =~= frame_header_bytes(*self));
    }
}

/// The fields of a strip header at the start of `b`.
pub open spec fn strip_fields(b: Seq<u8>) -> RawStripHeader {
    RawStripHeader {
        strip_id: bits::be16(b, 0),
        strip_size: bits::be16(b, 2),
        y_top: bits::be16(b, 4),
        x_top: bits::be16(b, 6),
        y_bottom: bits::be16(b, 8),
        x_bottom: bits::be16(b, 10),
    }
}

/// The strip header at the start of `b`, or what is wrong with it.
pub open spec fn strip_header(b: Seq<u8>) -> core::result::Result<RawStripHeader, ErrorView> {
    let h = strip_fields(b);
    if b.len() < STRIP_HEADER_SIZE {
        Err(strip_header_short(b.len()))
    } else if h.strip_id != STRIP_ID_INTRA && h.strip_id != STRIP_ID_INTER {
        Err(unknown_strip_id(h.strip_id))
    } else if h.strip_size < STRIP_HEADER_SIZE {
        Err(strip_size_small(h.strip_size))
    } else {
        Ok(h)
    }
}

/// A strip header as bytes.
pub open spec fn strip_header_bytes(h: RawStripHeader) -> Seq<u8> {
    bits::be16_bytes(h.strip_id) + bits::be16_bytes(h.strip_size) + bits::be16_bytes(h.y_top) + bits::be16_bytes(h.x_top)
        + bits::be16_bytes(h.y_bottom) + bits::be16_bytes(h.x_bottom)
}

impl RawStripHeader {
    /// Reads the header at the start of `buf`.
    pub fn parse(buf: &[u8]) -> (r: Result<Self>)
        ensures
            error::outcome(r) == strip_header(buf@),
    {
        if buf.len() < STRIP_HEADER_SIZE {
            return Err(
                CinepakError::invalid(
                    cat_dec(
                        lit("strip header truncated: need 12 bytes, got "),
                        buf.len() as u64,
                    ),
                ),
            );
        }
        let strip_id: u16 = read16(buf, 0);
        let strip_size: u16 = read16(buf, 2);
        let y_top: u16 = read16(buf, 4);
        let x_top: u16 = read16(buf, 6);
        let y_bottom: u16 = read16(buf, 8);
        let x_bottom: u16 = read16(buf, 10);
        if strip_id != STRIP_ID_INTRA && strip_id != STRIP_ID_INTER {
            return Err(
                CinepakError::invalid(
                    cat(
                        cat_hex4(lit("unknown strip_id 0x"), strip_id),
                        "; only 0x1000 (intra) and 0x1100 (inter) are defined",
                    ),
                ),
            );
        }
        if (strip_size as usize) < STRIP_HEADER_SIZE {
            return Err(
                CinepakError::invalid(
                    cat(
                        cat_dec(lit("strip_size "), strip_size as u64),
                        " < 12 (own header size)",
                    ),
                ),
            );
        }
        Ok(RawStripHeader { strip_id, strip_size, y_top, x_top, y_bottom, x_bottom })
    }

    /// Writes the header.
    pub fn encode(&self, out: &mut [u8; STRIP_HEADER_SIZE])
        ensures
            final(out)@ == strip_header_bytes(*self),
    {
        out[0] = (self.strip_id / 256) as u8;
        out[1] = (self.strip_id % 256) as u8;
        out[2] = (self.strip_size / 256) as u8;
        out[3] = (self.strip_size % 256) as u8;
        out[4] = (self.y_top / 256) as u8;
        out[5] = (self.y_top % 256) as u8;
        out[6] = (self.x_top / 256) as u8;
        out[7] = (self.x_top % 256) as u8;
        out[8] = (self.y_bottom / 256) as u8;
        out[9] = (self.y_bottom % 256) as u8;
        out[10] = (self.x_bottom / 256) as u8;
        out[11] = (self.x_bottom % 256) as u8;
        assert(out@ =~= strip_header_bytes(*self));
    }

    /// Whether the strip stands on its own.
    pub fn is_intra(&self) -> (r: bool)
        ensures
            r == (self.strip_id == STRIP_ID_INTRA),
    {
        self.strip_id == STRIP_ID_INTRA
    }
}

/// The strip placed in its frame. A strip other than the first that gives
/// its top edge as zero continues below the previous strip, and its bottom
/// edge is then its height.
pub open spec fn place_strip(raw: RawStripHeader, is_first: bool, prev_y_bottom: int) -> (int, int) {
    if !is_first && raw.y_top == 0 {
        (prev_y_bottom, prev_y_bottom + raw.y_bottom)
    } else {
        (raw.y_top as int, raw.y_bottom as int)
    }
}

/// The header of a strip placed in its frame.
pub open spec fn resolved(raw: RawStripHeader, is_first: bool, prev_y_bottom: int) -> StripHeader {
    let (top, bottom) = place_strip(raw, is_first, prev_y_bottom);
    StripHeader { raw, actual_y_top: top as u32, actual_y_bottom: bottom as u32 }
}

impl StripHeader {
    /// Places a strip in its frame; see [`place_strip`].
    pub fn resolve(raw: RawStripHeader, is_first: bool, prev_y_bottom: u32) -> (r: Self)
        requires
            !is_first && raw.y_top == 0 ==> prev_y_bottom + raw.y_bottom <= u32::MAX,
        ensures
            r == resolved(raw, is_first, prev_y_bottom as int),
            (r.actual_y_top as int, r.actual_y_bottom as int) == place_strip(
                raw,
                is_first,
                prev_y_bottom as int,
            ),
    {
        if !is_first && raw.y_top == 0 {
            StripHeader {
                raw,
                actual_y_top: prev_y_bottom,
                actual_y_bottom: prev_y_bottom + (raw.y_bottom as u32),
            }
        } else {
            StripHeader {
                raw,
                actual_y_top: raw.y_top as u32,
                actual_y_bottom: raw.y_bottom as u32,
            }
        }
    }

    /// Height in pixels; zero where the bottom edge lies above the top edge.
    pub fn height(&self) -> (r: u32)
        ensures
            r == if self.actual_y_bottom >= self.actual_y_top {
                self.actual_y_bottom - self.actual_y_top
            } else {
                0
            },
    {
        self.actual_y_bottom.saturating_sub(self.actual_y_top)
    }

    /// Width in pixels; zero where the right edge lies left of the left edge.
    pub fn width(&self) -> (r: u32)
        ensures
            r == if self.raw.x_bottom >= self.raw.x_top {
                self.raw.x_bottom - self.raw.x_top
            } else {
                0
            },
    {
        (self.raw.x_bottom as u32).saturating_sub(self.raw.x_top as u32)
    }
}

/// One strip of a frame.
#[derive(Clone, Copy, Debug, PartialEq, Eq)]
pub struct StripEntry<'a> {
    /// Position of the strip in the frame, from zero.
    pub index: u16,
    /// The strip's header, placed in the frame.
    pub header: StripHeader,
    /// The strip's bytes after its header.
    pub payload: &'a [u8],
}

/// A [`StripEntry`] as mathematical values.
pub struct StripView {
    pub index: u16,
    pub header: StripHeader,
    pub payload: Seq<u8>,
}

impl<'a> View for StripEntry<'a> {
    type V = StripView;

    open spec fn view(&self) -> StripView {
        StripView { index: self.index, header: self.header, payload: self.payload@ }
    }
}

/// Where a walk over a frame's strips stands.
pub struct StripWalk {
    /// The bytes of the frame.
    pub frame: Seq<u8>,
    /// The frame's header.
    pub header: FrameHeader,
    /// Offset of the next strip.
    pub cursor: int,
    /// Index of the next strip.
    pub next: int,
    /// Bottom edge of the previous strip.
    pub prev_y_bottom: int,
    /// Whether the walk has met an error.
    pub fused: bool,
}

/// The walk over the strips of the frame at the start of `b`.
pub open spec fn strip_walk(b: Seq<u8>) -> core::result::Result<StripWalk, ErrorView> {
    match frame_header(b) {
        Err(e) => Err(e),
        Ok(h) => if h.frame_length > b.len() {
            Err(frame_length_large(h.frame_length as nat, b.len()))
        } else {
            Ok(
                StripWalk {
                    frame: b.subrange(0, h.frame_length as int),
                    header: h,
                    cursor: FRAME_HEADER_SIZE as int,
                    next: 0,
                    prev_y_bottom: 0,
                    fused: false,
                },
            )
        },
    }
}

/// The strip at `cursor`: its coded header, or what is wrong with it.
pub open spec fn strip_at(frame: Seq<u8>, cursor: int, i: int) -> core::result::Result<
    RawStripHeader,
    ErrorView,
> {
    if cursor + STRIP_HEADER_SIZE > frame.len() {
        Err(strip_truncated(i as nat))
    } else {
        match strip_header(frame.subrange(cursor, cursor + STRIP_HEADER_SIZE)) {
            Err(e) => Err(e),
            Ok(raw) => if cursor + raw.strip_size > frame.len() {
                Err(strip_overrun(i as nat, raw.strip_size as nat))
            } else {
                Ok(raw)
            },
        }
    }
}

/// What the walk yields next, and where it stands then.
pub open spec fn next_strip(w: StripWalk) -> (
    Option<core::result::Result<StripView, ErrorView>>,
    StripWalk,
) {
    if w.fused || w.next >= w.header.strip_count {
        (None, w)
    } else {
        match strip_at(w.frame, w.cursor, w.next) {
            Err(e) => (Some(Err(e)), StripWalk { fused: true, ..w }),
            Ok(raw) => {
                let header = resolved(raw, w.next == 0, w.prev_y_bottom);
                (
                    Some(
                        Ok(
                            StripView {
                                index: w.next as u16,
                                header,
                                payload: w.frame.subrange(
                                    w.cursor + STRIP_HEADER_SIZE,
                                    w.cursor + raw.strip_size,
                                ),
                            },
                        ),
                    ),
                    StripWalk {
                        cursor: w.cursor + raw.strip_size,
                        next: w.next + 1,
                        prev_y_bottom: place_strip(raw, w.next == 0, w.prev_y_bottom).1,
                        ..w
                    },
                )
            },
        }
    }
}

/// A walk over the strips of a frame, in order. It ends after the declared
/// number of strips or at the first error.
#[derive(Debug)]
pub struct FrameStrips<'a> {
    frame_bytes: &'a [u8],
    header: FrameHeader,
    cursor: usize,
    next_index: u16,
    prev_y_bottom: u32,
    fused: bool,
}

impl<'a> View for FrameStrips<'a> {
    type V = StripWalk;

    closed spec fn view(&self) -> StripWalk {
        StripWalk {
            frame: self.frame_bytes@,
            header: self.header,
            cursor: self.cursor as int,
            next: self.next_index as int,
            prev_y_bottom: self.prev_y_bottom as int,
            fused: self.fused,
        }
    }
}

impl<'a> FrameStrips<'a> {
    /// The cursor lies in the frame, and the strips walked over account for
    /// the bottom edge reached.
    pub open spec fn wf(self) -> bool {
        &&& 0 <= self@.cursor <= self@.frame.len()
        &&& 0 <= self@.next <= self@.header.strip_count
        &&& self@.prev_y_bottom <= self@.next * 65535
    }

    /// Starts a walk at the first strip of the frame in `bytes`.
    pub fn new(bytes: &'a [u8]) -> (r: Result<Self>)
        ensures
            match r {
                Ok(s) => s.wf() && strip_walk(bytes@) == Ok::<StripWalk, ErrorView>(s@),
                Err(e) => strip_walk(bytes@) == Err::<StripWalk, ErrorView>(e@),
            },
    {
        let header = match FrameHeader::parse(bytes) {
            Ok(h) => h,
            Err(e) => return Err(e),
        };
        let frame_len: usize = header.frame_length as usize;
        if frame_len > bytes.len() {
            return Err(frame_length_large_error(frame_len, bytes.len()));
        }
        Ok(
            FrameStrips {
                frame_bytes: part(bytes, 0, frame_len),
                header,
                cursor: FRAME_HEADER_SIZE,
                next_index: 0,
                prev_y_bottom: 0,
                fused: false,
            },
        )
    }

    /// The frame's header.
    pub fn header(&self) -> (r: &FrameHeader)
        ensures
            *r == self@.header,
    {
        &self.header
    }

    /// Number of declared strips that were not yielded yet.
    pub fn remaining(&self) -> (r: u16)
        requires
            self.wf(),
        ensures
            r == self@.header.strip_count - self@.next,
    {
        self.header.strip_count.saturating_sub(self.next_index)
    }

    /// The next strip, an error, or `None` where the walk has ended.
    pub fn next(&mut self) -> (r: Option<Result<StripEntry<'a>>>)
        requires
            old(self).wf(),
        ensures
            final(self).wf(),
            final(self)@ == next_strip(old(self)@).1,
            match r {
                None => next_strip(old(self)@).0 is None,
                Some(Ok(s)) => next_strip(old(self)@).0 == Some(
                    Ok::<StripView, ErrorView>(s@),
                ),
                Some(Err(e)) => next_strip(old(self)@).0 == Some(
                    Err::<StripView, ErrorView>(e@),
                ),
            },
    {
        if self.fused {
            return None;
        }
        if self.next_index >= self.header.strip_count {
            return None;
        }
        if self.frame_bytes.len() - self.cursor < STRIP_HEADER_SIZE {
            self.fused = true;
            return Some(Err(strip_truncated_error(self.next_index)));
        }
        let raw = match RawStripHeader::parse(
            part(self.frame_bytes, self.cursor, self.cursor + STRIP_HEADER_SIZE),
        ) {
            Ok(r) => r,
            Err(e) => {
                self.fused = true;
                return Some(Err(e));
            },
        };
        let strip_size: usize = raw.strip_size as usize;
        if self.frame_bytes.len() - self.cursor < strip_size {
            self.fused = true;
            return Some(Err(strip_overrun_error(self.next_index, strip_size)));
        }
        let is_first = self.next_index == 0;
        let header = StripHeader::resolve(raw, is_first, self.prev_y_bottom);
        let payload_start: usize = self.cursor + STRIP_HEADER_SIZE;
        let payload_end: usize = self.cursor + strip_size;
        let payload = part(self.frame_bytes, payload_start, payload_end);
        let entry = StripEntry { index: self.next_index, header, payload };
        self.prev_y_bottom = header.actual_y_bottom;
        self.cursor = payload_end;
        self.next_index = self.next_index + 1;
        Some(Ok(entry))
    }

    /// Bounds on the number of strips still to come.
    pub fn size_hint(&self) -> (r: (usize, Option<usize>))
        requires
            self.wf(),
        ensures
            r.0 == self@.header.strip_count - self@.next,
            r.1 == Some(r.0),
    {
        let r: usize = self.remaining() as usize;
        (r, Some(r))
    }
}

/// A frame header that is valid and whose length fits 24 bits reads back
/// from its bytes.
pub proof fn frame_header_round_trip(h: FrameHeader)
    requires
        h.strip_count > 0,
        h.width > 0,
        h.height > 0,
        h.width % 4 == 0,
        h.height % 4 == 0,
        FRAME_HEADER_SIZE <= h.frame_length < 16777216,
    ensures
        frame_header_bytes(h).len() == FRAME_HEADER_SIZE,
        frame_header(frame_header_bytes(h)) == Ok::<FrameHeader, ErrorView>(h),
{
}

/// A strip header that is valid reads back from its bytes.
pub proof fn strip_header_round_trip(h: RawStripHeader)
    requires
        h.strip_id == STRIP_ID_INTRA || h.strip_id == STRIP_ID_INTER,
        h.strip_size >= STRIP_HEADER_SIZE,
    ensures
        strip_header_bytes(h).len() == STRIP_HEADER_SIZE,
        strip_header(strip_header_bytes(h)) == Ok::<RawStripHeader, ErrorView>(h),
{
}

/// A walk that has met an error or yielded every strip stays where it is
/// and yields nothing more.
pub proof fn strip_walk_ends(w: StripWalk)
    requires
        w.fused || w.next >= w.header.strip_count,
    ensures
        next_strip(w).0 is None,
        next_strip(w).1 == w,
{
}

/// After an error the walk is over.
pub proof fn strip_walk_error_is_final(w: StripWalk)
    requires
        next_strip(w).0 matches Some(Err(_)),
    ensures
        next_strip(next_strip(w).1).0 is None,
{
}

/// Bytes of strips that a walk of `n` steps from `w` yields, headers not
/// counted; meaningful where the walk meets no error.
pub open spec fn payload_total(w: StripWalk, n: nat) -> int
    decreases n,
{
    if n == 0 {
        0
    } else {
        match next_strip(w).0 {
            Some(Ok(s)) => s.payload.len() + payload_total(next_strip(w).1, (n - 1) as nat),
            _ => 0,
        }
    }
}

/// Where a walk stands after `n` steps.
pub open spec fn walk_steps(w: StripWalk, n: nat) -> StripWalk
    decreases n,
{
    if n == 0 {
        w
    } else {
        walk_steps(next_strip(w).1, (n - 1) as nat)
    }
}

/// A walk of `n` steps without an error has moved over the payloads it
/// yielded and one header for each strip.
pub proof fn payload_total_covers(w: StripWalk, n: nat)
    requires
        !w.fused,
        0 <= w.next,
        0 <= w.cursor,
        w.next + n <= w.header.strip_count,
        !walk_steps(w, n).fused,
    ensures
        walk_steps(w, n).next == w.next + n,
        walk_steps(w, n).cursor == w.cursor + payload_total(w, n) + n * STRIP_HEADER_SIZE,
    decreases n,
{
    if n > 0 {
        let w1 = next_strip(w).1;
        if w1.fused {
            fused_stays(w1, (n - 1) as nat);
        }
        assert(!w1.fused);
        payload_total_covers(w1, (n - 1) as nat);
        assert(n * STRIP_HEADER_SIZE == (n - 1) * STRIP_HEADER_SIZE + STRIP_HEADER_SIZE)
            by (nonlinear_arith);
    }
}

proof fn fused_stays(w: StripWalk, n: nat)
    requires
        w.fused,
    ensures
        walk_steps(w, n).fused,
    decreases n,
{
    if n > 0 {
        fused_stays(next_strip(w).1, (n - 1) as nat);
    }
}

} // verus!
