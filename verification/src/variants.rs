//! How the variants of the format relate to the plain one.

use vstd::prelude::*;
use crate::decoder::{self, DecoderState, DeviantConfig, FrameWork};
use crate::error::ErrorView;
use crate::header::{self, FrameHeader, RawStripHeader};
use crate::image::FrameView;

verus! {

/// Work that stands `d` bytes earlier.
pub open spec fn earlier(w: FrameWork, d: int) -> FrameWork {
    FrameWork { cursor: w.cursor - d, ..w }
}

/// An outcome whose work stands `d` bytes earlier.
pub open spec fn earlier_outcome(
    r: core::result::Result<FrameWork, ErrorView>,
    d: int,
) -> core::result::Result<FrameWork, ErrorView> {
    match r {
        Ok(w) => Ok(earlier(w, d)),
        Err(e) => Err(e),
    }
}

/// Whether what stands in `a` from `p` on stands in `b` as well, `d` bytes
/// earlier.
pub open spec fn same_from(a: Seq<u8>, b: Seq<u8>, p: int, d: int) -> bool {
    &&& 0 <= d <= p <= a.len()
    &&& a.len() == b.len() + d
    &&& forall|k: int| p - d <= k < b.len() ==> #[trigger] b[k] == a[k + d]
}

proof fn strip_drawn_earlier(
    h: FrameHeader,
    raw: RawStripHeader,
    top: int,
    bottom: int,
    body: Seq<u8>,
    tolerate: bool,
    prev: Option<FrameView>,
    w: FrameWork,
    d: int,
)
    ensures
        decoder::strip_pixels(h, raw, top, bottom, body, tolerate, prev, earlier(w, d))
            == earlier_outcome(
            decoder::strip_pixels(h, raw, top, bottom, body, tolerate, prev, w),
            d,
        ),
        decoder::strip_pixels(h, raw, top, bottom, body, tolerate, prev, w) matches Ok(w1)
            ==> w1.cursor == w.cursor,
{
    reveal(decoder::strip_pixels);
}

proof fn strip_earlier(
    a: Seq<u8>,
    b: Seq<u8>,
    h: FrameHeader,
    i: int,
    tolerate: bool,
    prev: Option<FrameView>,
    w: FrameWork,
    d: int,
)
    requires
        same_from(a, b, w.cursor, d),
    ensures
        decoder::frame_strip(b, h, i, tolerate, prev, earlier(w, d)) == earlier_outcome(
            decoder::frame_strip(a, h, i, tolerate, prev, w),
            d,
        ),
        decoder::frame_strip(a, h, i, tolerate, prev, w) matches Ok(w1) ==> same_from(
            a,
            b,
            w1.cursor,
            d,
        ),
{
    reveal(decoder::frame_strip);
    let p = w.cursor;
    if p + 12 <= a.len() {
        let x = a.subrange(p, p + 12);
        let y = b.subrange(p - d, p - d + 12);
        assert(x =~= y) by {
            assert forall|k: int| 0 <= k < x.len() implies x[k] == y[k] by {
                assert(b[p - d + k] == a[p - d + k + d]);
            }
        }
    }
    assert(header::strip_at(a, p, i) == header::strip_at(b, p - d, i));
    if let Ok(raw) = header::strip_at(a, p, i) {
        let (top, bottom) = header::place_strip(raw, i == 0, w.bottom);
        let x = a.subrange(p + 12, p + raw.strip_size);
        let y = b.subrange(p - d + 12, p - d + raw.strip_size);
        assert(x =~= y) by {
            assert forall|k: int| 0 <= k < x.len() implies x[k] == y[k] by {
                assert(b[p - d + 12 + k] == a[p - d + 12 + k + d]);
            }
        }
        strip_drawn_earlier(h, raw, top, bottom, x, tolerate, prev, w, d);
    }
}

proof fn strips_earlier(
    a: Seq<u8>,
    b: Seq<u8>,
    h: FrameHeader,
    i: int,
    tolerate: bool,
    prev: Option<FrameView>,
    w: FrameWork,
    d: int,
)
    requires
        same_from(a, b, w.cursor, d),
    ensures
        decoder::frame_strips(b, h, i, tolerate, prev, earlier(w, d)) == earlier_outcome(
            decoder::frame_strips(a, h, i, tolerate, prev, w),
            d,
        ),
    decreases h.strip_count - i,
{
    if i < h.strip_count {
        strip_earlier(a, b, h, i, tolerate, prev, w, d);
        if let Ok(w1) = decoder::frame_strip(a, h, i, tolerate, prev, w) {
            strips_earlier(a, b, h, i + 1, tolerate, prev, w1, d);
        }
    }
}

/// The extra bytes of a variant stand between the frame's header of ten bytes
/// and its first strip, and do not matter: without them the frame decodes
/// alike, in the variant that has none.
pub proof fn extra_bytes_do_not_matter(
    s: DecoderState,
    bytes: Seq<u8>,
    pts: Option<i64>,
    cfg: DeviantConfig,
)
    requires
        bytes.len() >= 10 + cfg.extra_header_bytes,
    ensures
        decoder::decoded(s, bytes, pts, Some(cfg)) == decoder::decoded(
            s,
            bytes.take(10) + bytes.skip(10 + cfg.extra_header_bytes),
            pts,
            Some(DeviantConfig { extra_header_bytes: 0, ..cfg }),
        ),
{
    let d = cfg.extra_header_bytes as int;
    let b = bytes.take(10) + bytes.skip(10 + d);
    assert(forall|k: int| 0 <= k < 10 ==> b[k] == bytes[k]);
    assert(header::frame_header(b) == header::frame_header(bytes));
    if let Ok(h) = header::frame_header(bytes) {
        let prev = decoder::prev_of_size(s.prev, h);
        let w = decoder::frame_start(s, 10 + d);
        assert(same_from(bytes, b, 10 + d, d));
        strips_earlier(bytes, b, h, 0, cfg.tolerate_codebook_pad, prev, w, d);
        assert(earlier(w, d) == decoder::frame_start(s, 10));
    }
}

/// Where a strip stands: a strip after the first whose top is zero stands
/// below the one before it, and its bottom is its height; any other stands
/// where its header says.
pub proof fn strip_placed(raw: RawStripHeader, before: int)
    ensures
        header::place_strip(raw, true, before) == (raw.y_top as int, raw.y_bottom as int),
        raw.y_top > 0 ==> header::place_strip(raw, false, before) == (
            raw.y_top as int,
            raw.y_bottom as int,
        ),
        raw.y_top == 0 ==> header::place_strip(raw, false, before) == (
            before,
            before + raw.y_bottom,
        ),
{
}

} // verus!
