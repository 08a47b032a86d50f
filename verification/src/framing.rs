//! What headers, chunks and requests are accepted, and what they say.

use vstd::prelude::*;
use crate::codebook::{self, CodebookEntry, PixelMode};
use crate::decoder::{self, ChunkState, DecoderState, DeviantConfig};
use crate::error::{self, ErrorView};
use crate::header::{self, FrameHeader, RawStripHeader};
use crate::image::{CinepakPixelFormat, FrameView};
use crate::inspection;
use crate::options::{self, EncoderOptions};
use crate::registry::{self, HandleState};
use crate::vector;

verus! {

/// A frame header of ten bytes is accepted where it has strips, and a size
/// made of whole macroblocks, and a length that covers it; its numbers stand
/// in its bytes.
pub proof fn frame_header_in_bytes(b: Seq<u8>)
    ensures
        header::frame_header(b) is Ok <==> {
            &&& b.len() >= 10
            &&& 65536 * b[1] + 256 * b[2] + b[3] >= 10
            &&& inspection::pair(b, 4) > 0 && inspection::pair(b, 4) % 4 == 0
            &&& inspection::pair(b, 6) > 0 && inspection::pair(b, 6) % 4 == 0
            &&& inspection::pair(b, 8) > 0
        },
        header::frame_header(b) matches Ok(h) ==> {
            &&& h.flags == b[0]
            &&& h.frame_length == 65536 * b[1] + 256 * b[2] + b[3]
            &&& h.width == inspection::pair(b, 4)
            &&& h.height == inspection::pair(b, 6)
            &&& h.strip_count == inspection::pair(b, 8)
        },
{
}

/// A strip header of twelve bytes is accepted where its id is one of the two,
/// and its size covers it; its numbers stand in its bytes.
pub proof fn strip_header_in_bytes(b: Seq<u8>)
    ensures
        header::strip_header(b) is Ok <==> {
            &&& b.len() >= 12
            &&& inspection::pair(b, 0) == 0x1000 || inspection::pair(b, 0) == 0x1100
            &&& inspection::pair(b, 2) >= 12
        },
        header::strip_header(b) matches Ok(h) ==> {
            &&& h.strip_id == inspection::pair(b, 0)
            &&& h.strip_size == inspection::pair(b, 2)
            &&& h.y_top == inspection::pair(b, 4)
            &&& h.x_top == inspection::pair(b, 6)
            &&& h.y_bottom == inspection::pair(b, 8)
            &&& h.x_bottom == inspection::pair(b, 10)
        },
{
}

/// A strip is accepted in its frame where its edges are in order, it does not
/// leave the frame, and it is made of whole macroblocks.
pub proof fn strip_place_accepted(h: FrameHeader, raw: RawStripHeader, i: int, top: int, bottom: int)
    ensures
        decoder::place_error(h, raw, i, top, bottom) is None <==> {
            &&& raw.x_top <= raw.x_bottom <= h.width
            &&& top <= bottom <= h.height
            &&& (raw.x_bottom - raw.x_top) % 4 == 0
            &&& (bottom - top) % 4 == 0
        },
{
}

/// Bytes of an entry by its mode.
pub open spec fn entry_size(m: PixelMode) -> int {
    if m == PixelMode::Gray8 {
        4
    } else {
        6
    }
}

/// A signed number as a byte.
pub open spec fn is_signed(v: i8, b: u8) -> bool {
    v == b || v == b - 256
}

/// A full update is accepted where it is made of whole entries, or need not
/// be, and has no more than 256; its entries, of four lumas and for colour
/// two signed chromas, take the first places, and the rest is kept. One that
/// is refused changes nothing.
pub proof fn full_update_in_bytes(
    m: PixelMode,
    payload: Seq<u8>,
    cb: Seq<CodebookEntry>,
    tolerate: bool,
    i: int,
)
    requires
        cb.len() == 256,
    ensures
        ({
            let size = entry_size(m);
            let n = payload.len() as int / size;
            let (out, r) = codebook::full_update(m, payload, cb, tolerate);
            &&& r is Ok <==> (payload.len() as int % size == 0 || tolerate) && n <= 256
            &&& r is Err ==> out == cb
            &&& r is Ok && n <= i < 256 ==> out[i] == cb[i]
            &&& r is Ok && 0 <= i < n ==> {
                &&& out[i].y0 == payload[size * i]
                &&& out[i].y1 == payload[size * i + 1]
                &&& out[i].y2 == payload[size * i + 2]
                &&& out[i].y3 == payload[size * i + 3]
                &&& m == PixelMode::Yuv12 ==> is_signed(out[i].u, payload[6 * i + 4]) && is_signed(
                    out[i].v,
                    payload[6 * i + 5],
                )
                &&& m == PixelMode::Gray8 ==> out[i].u == 0 && out[i].v == 0
            }
        }),
{
    let e = codebook::entry_bytes_len(m) as int;
    assert(i * e == entry_size(m) * i) by (nonlinear_arith)
        requires
            e == entry_size(m),
    ;
}

/// Whether a selective update is accepted does not depend on the codebook
/// that it changes.
pub proof fn selective_outcome_is_its_own(
    m: PixelMode,
    payload: Seq<u8>,
    p: int,
    base: int,
    a: Seq<CodebookEntry>,
    b: Seq<CodebookEntry>,
)
    ensures
        codebook::selective_update(m, payload, p, base, a).1 == codebook::selective_update(
            m,
            payload,
            p,
            base,
            b,
        ).1,
    decreases 288 - base,
{
    if p < payload.len() && base < 256 && payload.len() - p >= 4 {
        let flag = crate::bits::be32(payload, p);
        group_outcome_is_its_own(m, payload, flag, 0, p + 4, base, a, b);
        let x = codebook::selective_group(m, payload, flag, 0, p + 4, base, a);
        let y = codebook::selective_group(m, payload, flag, 0, p + 4, base, b);
        if x.2 {
            selective_outcome_is_its_own(m, payload, x.1, base + 32, x.0, y.0);
        }
    }
}

proof fn group_outcome_is_its_own(
    m: PixelMode,
    payload: Seq<u8>,
    flag: u32,
    bit: int,
    p: int,
    base: int,
    a: Seq<CodebookEntry>,
    b: Seq<CodebookEntry>,
)
    ensures
        codebook::selective_group(m, payload, flag, bit, p, base, a).1 == codebook::selective_group(
            m,
            payload,
            flag,
            bit,
            p,
            base,
            b,
        ).1,
        codebook::selective_group(m, payload, flag, bit, p, base, a).2 == codebook::selective_group(
            m,
            payload,
            flag,
            bit,
            p,
            base,
            b,
        ).2,
    decreases 32 - bit,
{
    if bit < 32 {
        if !crate::bits::bit_at(flag, bit) {
            group_outcome_is_its_own(m, payload, flag, bit + 1, p, base, a, b);
        } else if payload.len() - p >= codebook::entry_bytes_len(m) {
            group_outcome_is_its_own(
                m,
                payload,
                flag,
                bit + 1,
                p + codebook::entry_bytes_len(m),
                base,
                a.update(base + bit, codebook::entry_at(m, payload, p)),
                b.update(base + bit, codebook::entry_at(m, payload, p)),
            );
        }
    }
}

/// Two pixel modes go together only where they are the same.
pub proof fn modes_go_together(a: PixelMode, b: PixelMode)
    ensures
        codebook::unified(a, b) is Ok <==> a == b,
        codebook::unified(a, b) matches Ok(m) ==> m == a,
{
}

/// A frame that says nothing of its mode takes that of the frame before it,
/// and else colour; a strip takes that of its own codebooks first.
pub proof fn mode_taken_over(own: Option<PixelMode>, mode: Option<PixelMode>, prev: Option<FrameView>)
    ensures
        ({
            let m = decoder::strip_mode(own, decoder::mode_hint(mode, prev));
            &&& own is Some ==> m == own->0
            &&& own is None && mode is Some ==> m == mode->0
            &&& own is None && mode is None && prev is None ==> m == PixelMode::Yuv12
            &&& own is None && mode is None && prev is Some ==> (m == PixelMode::Gray8
                <==> (prev->0).pixel_format == CinepakPixelFormat::Gray8)
        }),
        decoder::mode_bpp(PixelMode::Yuv12) == 3 && decoder::mode_bpp(PixelMode::Gray8) == 1,
        decoder::mode_format(PixelMode::Yuv12) == CinepakPixelFormat::Rgb24,
        decoder::mode_format(PixelMode::Gray8) == CinepakPixelFormat::Gray8,
{
}

/// A codebook chunk changes the codebook that it is for and no other; in a
/// strip that stands alone it must not be selective, and its mode must be
/// that of the strip's codebook chunks before it.
pub proof fn codebook_chunk_effect(
    s: ChunkState,
    id: u16,
    kind: codebook::CodebookChunkKind,
    body: Seq<u8>,
    intra: bool,
    tolerate: bool,
)
    ensures
        ({
            let v4 = kind.which == codebook::WhichCodebook::V4;
            let u = codebook::codebook_update(
                kind,
                body,
                if v4 {
                    s.v4
                } else {
                    s.v1
                },
                tolerate,
            );
            let r = decoder::codebook_chunk(s, id, kind, body, intra, tolerate);
            &&& r is Ok <==> {
                &&& !(intra && kind.style == codebook::UpdateStyle::Selective)
                &&& s.mode is None || s.mode->0 == kind.mode
                &&& u.1 is Ok
            }
            &&& r matches Ok(n) ==> {
                &&& n.mode == Some(kind.mode)
                &&& n.mbs == s.mbs
                &&& v4 ==> n.v4 == u.0 && n.v1 == s.v1
                &&& !v4 ==> n.v1 == u.0 && n.v4 == s.v4
            }
        }),
{
}

/// A strip has one vector chunk, and one that stands alone none with skipped
/// macroblocks.
pub proof fn vector_chunk_effect(s: ChunkState, id: u16, body: Seq<u8>, count: nat, intra: bool)
    ensures
        ({
            let r = decoder::vector_chunk(s, id, body, count, intra);
            let mbs = vector::vector_mbs(id, body, count);
            &&& r is Ok <==> s.mbs is None && !(id == 0x3100 && intra) && mbs is Ok
            &&& r matches Ok(n) ==> n.mbs == Some(mbs->Ok_0) && n.v4 == s.v4 && n.v1 == s.v1 && n.mode
                == s.mode
        }),
{
}

/// The chunks of a strip follow one another, each with an id and a size of
/// two bytes in front, up to the strip's end.
pub proof fn chunks_follow(
    payload: Seq<u8>,
    p: int,
    s: ChunkState,
    count: nat,
    intra: bool,
    tolerate: bool,
)
    requires
        0 <= p <= payload.len(),
    ensures
        ({
            let r = decoder::strip_chunks(payload, p, s, count, intra, tolerate);
            let left = payload.len() - p;
            let id = inspection::pair(payload, p) as u16;
            let size = inspection::pair(payload, p + 2);
            let body = payload.subrange(p + 4, p + size);
            let known = codebook::kind_of_id(id);
            let vector = id == 0x3000 || id == 0x3100 || id == 0x3200;
            let one = if known is Some {
                decoder::codebook_chunk(s, id, known->0, body, intra, tolerate)
            } else {
                decoder::vector_chunk(s, id, body, count, intra)
            };
            &&& left == 0 ==> r == Ok::<ChunkState, ErrorView>(s)
            &&& left > 0 && r is Ok ==> {
                &&& 4 <= size <= left
                &&& known is Some || vector
                &&& one is Ok
            }
            &&& left >= 4 && 4 <= size <= left && (known is Some || vector) && one is Ok ==> r
                == decoder::strip_chunks(payload, p + size, one->Ok_0, count, intra, tolerate)
        }),
{
}

/// A request is accepted where the picture is made of whole macroblocks and
/// has all its bytes, three for a colour pixel and one for a gray one, and
/// the configuration has one to 256 entries in each codebook, a strip at
/// least, and a threshold that is not negative.
pub proof fn request_accepted(len: nat, width: u32, height: u32, mode: PixelMode, o: EncoderOptions)
    ensures
        options::request_error(len, width, height, mode, o) is None <==> {
            &&& width > 0 && width % 4 == 0
            &&& height > 0 && height % 4 == 0
            &&& 1 <= o.v4_entries <= 256
            &&& 1 <= o.v1_entries <= 256
            &&& o.strip_count >= 1
            &&& o.skip_threshold >= 0
            &&& mode == PixelMode::Yuv12 ==> width * height * 3 <= len
            &&& mode == PixelMode::Gray8 ==> width * height <= len
        },
{
}

/// A packet is taken for Cinepak where both headers are accepted, no spare
/// flag is set, the sides do not exceed 4096 pixels, and the first strip lies
/// within the frame's length.
pub proof fn packet_recognised(b: Seq<u8>)
    ensures
        registry::recognised(b) <==> {
            &&& b.len() >= 22
            &&& b[0] <= 1
            &&& 65536 * b[1] + 256 * b[2] + b[3] >= 22
            &&& 0 < inspection::pair(b, 4) <= 4096 && inspection::pair(b, 4) % 4 == 0
            &&& 0 < inspection::pair(b, 6) <= 4096 && inspection::pair(b, 6) % 4 == 0
            &&& inspection::pair(b, 8) > 0
            &&& inspection::pair(b, 10) == 0x1000 || inspection::pair(b, 10) == 0x1100
            &&& 12 <= inspection::pair(b, 12)
            &&& 10 + inspection::pair(b, 12) <= 65536 * b[1] + 256 * b[2] + b[3]
        },
{
    if b.len() >= 22 {
        let s = b.subrange(10, b.len() as int);
        assert(inspection::pair(s, 0) == inspection::pair(b, 10));
        assert(inspection::pair(s, 2) == inspection::pair(b, 12));
        strip_header_in_bytes(s);
        frame_header_in_bytes(b);
    }
}

/// A handle holds one packet at a time: a second one is refused and changes
/// nothing. Asked without one, it wants more, or is at its end where it was
/// told so, and changes nothing either; asked with one, it holds none then.
pub proof fn handle_holds_one_packet(st: HandleState, data: Seq<u8>, pts: Option<i64>)
    ensures
        registry::packet_sent(st, data, pts).1 is Ok <==> st.pending is None,
        st.pending is Some ==> registry::packet_sent(st, data, pts).0 == st,
        st.pending is None ==> registry::frame_requested(st).0 == st,
        st.pending is None && !st.eof ==> registry::frame_requested(st).1 is NeedMore,
        st.pending is None && st.eof ==> registry::frame_requested(st).1 is Eof,
        registry::frame_requested(st).0.pending is None,
        registry::frame_requested(st).0.eof == st.eof,
        st.pending is Some ==> !(registry::frame_requested(st).1 is NeedMore)
            && !(registry::frame_requested(st).1 is Eof),
{
}

/// What decoding leaves behind. A frame that was decoded is the one to build
/// on, with the time it was given, in one plane without gaps, and both
/// codebooks are kept. A frame whose header or length is refused changes
/// nothing. One that fails later costs the codebooks, and keeps the picture
/// before it only where that has its size.
pub proof fn decoding_leaves(
    s: DecoderState,
    bytes: Seq<u8>,
    pts: Option<i64>,
    cfg: Option<DeviantConfig>,
)
    ensures
        ({
            let (after, r) = decoder::decoded(s, bytes, pts, cfg);
            &&& r matches Ok(f) ==> {
                &&& after.prev == Some(f)
                &&& after.v4 is Some
                &&& after.v1 is Some
                &&& f.pts == pts
                &&& f.planes.len() == 1
                &&& f.pixel_format == CinepakPixelFormat::Gray8 ==> f.planes[0].stride == f.width
                &&& f.pixel_format == CinepakPixelFormat::Rgb24 ==> f.planes[0].stride == 3 * f.width
            }
            &&& header::frame_header(bytes) is Err ==> after == s && r is Err
            &&& header::frame_header(bytes) matches Ok(h) ==> {
                let refused = (cfg is None && h.frame_length > bytes.len()) || h.width * h.height * 3
                    > usize::MAX;
                &&& refused ==> after == s && r is Err
                &&& r matches Ok(f) ==> f.width == h.width && f.height == h.height
                &&& !refused && r is Err ==> {
                    &&& after.v4 is None
                    &&& after.v1 is None
                    &&& s.prev is None ==> after.prev is None
                    &&& s.prev matches Some(p) ==> after.prev == if p.width == h.width && p.height
                        == h.height {
                        Some(p)
                    } else {
                        None
                    }
                }
            }
        }),
{
    if let Ok(h) = header::frame_header(bytes) {
        assert(h.width * 3 == 3 * h.width);
    }
}

/// A fault of the size is told whatever else is wrong, and tells the size;
/// with sizes in order, a fault of the configuration is told whatever the
/// picture is, and else one of the bytes, which tells how many there are and
/// how many the picture takes.
pub proof fn faults_in_order(
    len: nat,
    width: u32,
    height: u32,
    mode: PixelMode,
    o: EncoderOptions,
    other_len: nat,
    other_width: u32,
    other_height: u32,
    other_mode: PixelMode,
)
    ensures
        ({
            let e = options::request_error(len, width, height, mode, o);
            let other = options::request_error(
                other_len,
                other_width,
                other_height,
                other_mode,
                o,
            );
            let sized = width > 0 && height > 0 && width % 4 == 0 && height % 4 == 0;
            let other_sized = other_width > 0 && other_height > 0 && other_width % 4 == 0
                && other_height % 4 == 0;
            let takes = width * height * if mode == PixelMode::Gray8 {
                1int
            } else {
                3int
            };
            &&& !sized ==> e == Some(options::bad_dims(width, height))
            &&& sized && other_sized && e is Some && other is Some && e != other ==> {
                &&& options::options_error(o) is None
                &&& e == Some(options::input_short(len, takes as nat))
            }
            &&& sized && other_sized && options::options_error(o) is Some ==> e == other
        }),
{
}

/// An error shows as the name of the codec, what kind of fault it is, where
/// it is one of data or of support, and its message.
pub proof fn error_is_displayed(e: ErrorView)
    ensures
        ({
            let shown = error::display(e);
            let (kind, message) = match e {
                ErrorView::InvalidData(m) => ("invalid data: "@, m),
                ErrorView::Unsupported(m) => ("unsupported: "@, m),
                ErrorView::Other(m) => (Seq::empty(), m),
            };
            shown == "cinepak: "@ + kind + message
        }),
{
    reveal_strlit("cinepak: invalid data: ");
    reveal_strlit("cinepak: unsupported: ");
    reveal_strlit("cinepak: ");
    reveal_strlit("invalid data: ");
    reveal_strlit("unsupported: ");
    assert("cinepak: invalid data: "@ =~= "cinepak: "@ + "invalid data: "@);
    assert("cinepak: unsupported: "@ =~= "cinepak: "@ + "unsupported: "@);
    assert("cinepak: "@ =~= "cinepak: "@ + Seq::<char>::empty());
}

} // verus!
