//! How what is found of a frame agrees with what a decoder makes of it.

use vstd::prelude::*;
use crate::codebook::{self, UpdateStyle, WhichCodebook};
use crate::decoder::{self, ChunkState, DecoderState, FrameWork};
use crate::framing;
use crate::header::{self, FrameHeader};
use crate::image::FrameView;
use crate::inspection;
use crate::lint::{self, ChunkView, ChunkWalk, FrameNumbers, LintRule, StripPlace, StripsWalk};

verus! {

/// The rules about chunks without which a decoder cannot do.
pub open spec fn spoils_chunk(rule: LintRule) -> bool {
    ||| rule == LintRule::ChunkHeaderTruncated
    ||| rule == LintRule::ChunkSizeUnderHeader
    ||| rule == LintRule::ChunkOverrunsStrip
    ||| rule == LintRule::UnknownChunkId
    ||| rule == LintRule::SelectiveUpdateOnIntraStrip
    ||| rule == LintRule::CodebookPayloadMisaligned
    ||| rule == LintRule::CodebookTooManyEntries
    ||| rule == LintRule::SelectiveUpdatePayloadMalformed
}

/// The rules about strips without which a decoder cannot do.
pub open spec fn spoils_strip(rule: LintRule) -> bool {
    ||| rule == LintRule::StripHeaderTruncated
    ||| rule == LintRule::StripSizeUnderHeader
    ||| rule == LintRule::StripOverrunsFrame
    ||| rule == LintRule::UnknownStripId
    ||| rule == LintRule::StripHeightNotMultipleOf4
    ||| rule == LintRule::StripWidthNotMultipleOf4
    ||| rule == LintRule::StripOutsideFrame
}

/// The rules about a frame without which a decoder cannot do.
pub open spec fn spoils_frame(rule: LintRule) -> bool {
    ||| rule == LintRule::FrameHeaderTruncated
    ||| rule == LintRule::FrameLengthUnderHeader
    ||| rule == LintRule::FrameLengthOverrun
    ||| rule == LintRule::StripCountZero
    ||| rule == LintRule::FrameDimensionsZero
    ||| rule == LintRule::FrameWidthNotMultipleOf4
    ||| rule == LintRule::FrameHeightNotMultipleOf4
}

/// The rules without which a decoder cannot do.
pub open spec fn spoils(rule: LintRule) -> bool {
    spoils_chunk(rule) || spoils_strip(rule) || spoils_frame(rule)
}

proof fn accepted_codebook_breaks_nothing(
    p: StripPlace,
    w: ChunkWalk,
    c: ChunkView,
    k: codebook::CodebookChunkKind,
    s: ChunkState,
    intra: bool,
    rule: LintRule,
)
    requires
        spoils(rule),
        p.intra == Some(intra),
        !c.truncated,
        decoder::codebook_chunk(s, c.id, k, c.body, intra, false) is Ok,
        s.v4.len() == 256,
        s.v1.len() == 256,
    ensures
        !inspection::codebook_breaks(p, w, c, k, rule),
{
    framing::codebook_chunk_effect(s, c.id, k, c.body, intra, false);
    let cb = if k.which == WhichCodebook::V4 {
        s.v4
    } else {
        s.v1
    };
    if k.style == UpdateStyle::Full {
        framing::full_update_in_bytes(k.mode, c.body, cb, false, 0);
    } else {
        framing::selective_outcome_is_its_own(
            k.mode,
            c.body,
            0,
            0,
            cb,
            codebook::zero_codebook(),
        );
    }
}

proof fn codebook_stays_whole(
    s: ChunkState,
    id: u16,
    k: codebook::CodebookChunkKind,
    body: Seq<u8>,
    intra: bool,
)
    requires
        s.v4.len() == 256,
        s.v1.len() == 256,
    ensures
        decoder::codebook_chunk(s, id, k, body, intra, false) matches Ok(n) ==> n.v4.len() == 256
            && n.v1.len() == 256,
{
    selective_keeps_len(k.mode, body, 0, 0, s.v4);
    selective_keeps_len(k.mode, body, 0, 0, s.v1);
}

proof fn group_keeps_len(
    m: codebook::PixelMode,
    payload: Seq<u8>,
    flag: u32,
    bit: int,
    p: int,
    base: int,
    cb: Seq<codebook::CodebookEntry>,
)
    requires
        cb.len() == 256,
        0 <= base <= 224,
        0 <= bit,
    ensures
        codebook::selective_group(m, payload, flag, bit, p, base, cb).0.len() == 256,
    decreases 32 - bit,
{
    if bit < 32 {
        if !crate::bits::bit_at(flag, bit) {
            group_keeps_len(m, payload, flag, bit + 1, p, base, cb);
        } else if payload.len() - p >= codebook::entry_bytes_len(m) {
            group_keeps_len(
                m,
                payload,
                flag,
                bit + 1,
                p + codebook::entry_bytes_len(m),
                base,
                cb.update(base + bit, codebook::entry_at(m, payload, p)),
            );
        }
    }
}

proof fn selective_keeps_len(
    m: codebook::PixelMode,
    payload: Seq<u8>,
    p: int,
    base: int,
    cb: Seq<codebook::CodebookEntry>,
)
    requires
        cb.len() == 256,
        0 <= base,
        base % 32 == 0,
    ensures
        codebook::selective_update(m, payload, p, base, cb).0.len() == 256,
    decreases 288 - base,
{
    if p < payload.len() && base < 256 && payload.len() - p >= 4 {
        let flag = crate::bits::be32(payload, p);
        group_keeps_len(m, payload, flag, 0, p + 4, base, cb);
        let x = codebook::selective_group(m, payload, flag, 0, p + 4, base, cb);
        if x.2 {
            selective_keeps_len(m, payload, x.1, base + 32, x.0);
        }
    }
}

proof fn accepted_chunks_break_nothing(
    payload: Seq<u8>,
    place: StripPlace,
    w: ChunkWalk,
    s: ChunkState,
    count: nat,
    intra: bool,
    rule: LintRule,
)
    requires
        spoils(rule),
        place.intra == Some(intra),
        0 <= w.pos <= payload.len(),
        decoder::strip_chunks(payload, w.pos, s, count, intra, false) is Ok,
        s.v4.len() == 256,
        s.v1.len() == 256,
    ensures
        !inspection::finds(lint::strip_chunk_issues(payload, place, w).0, rule),
        decoder::strip_chunks(payload, w.pos, s, count, intra, false)->Ok_0.v4.len() == 256,
        decoder::strip_chunks(payload, w.pos, s, count, intra, false)->Ok_0.v1.len() == 256,
    decreases payload.len() - w.pos,
{
    framing::chunks_follow(payload, w.pos, s, count, intra, false);
    inspection::strip_chunk_findings(payload, place, w, rule);
    let left = payload.len() - w.pos;
    if left > 0 {
        let size = inspection::pair(payload, w.pos + 2);
        let id = inspection::pair(payload, w.pos) as u16;
        let body = payload.subrange(w.pos + 4, w.pos + size);
        let c = ChunkView { id, body, truncated: false };
        inspection::chunk_findings(place, w, c, rule);
        let next = lint::after_chunk(place, w, c, w.pos + size);
        match codebook::kind_of_id(id) {
            Some(k) => {
                let one = decoder::codebook_chunk(s, id, k, body, intra, false);
                accepted_codebook_breaks_nothing(place, w, c, k, s, intra, rule);
                codebook_stays_whole(s, id, k, body, intra);
                accepted_chunks_break_nothing(payload, place, next, one->Ok_0, count, intra, rule);
            },
            None => {
                let one = decoder::vector_chunk(s, id, body, count, intra);
                accepted_chunks_break_nothing(payload, place, next, one->Ok_0, count, intra, rule);
            },
        }
    }
}

/// Whether a walk over the strips stands where the decoder does.
pub open spec fn stands_with(w: StripsWalk, d: FrameWork) -> bool {
    &&& w.cursor == d.cursor
    &&& w.bottom == d.bottom
    &&& !w.truncated
}

proof fn accepted_strip_breaks_nothing(
    b: Seq<u8>,
    end: int,
    h: FrameHeader,
    f: FrameNumbers,
    i: int,
    prev: Option<FrameView>,
    d: FrameWork,
    w: StripsWalk,
    rule: LintRule,
)
    requires
        spoils(rule),
        0 <= end <= b.len(),
        0 <= i < 65536,
        f.width == h.width,
        f.height == h.height,
        stands_with(w, d),
        0 <= d.cursor,
        d.v4.len() == 256,
        d.v1.len() == 256,
        decoder::frame_strip(b.subrange(0, end), h, i, false, prev, d) is Ok,
    ensures
        ({
            let (s, n) = lint::strip_issues(b, end, f, i as u16, w);
            let e = decoder::frame_strip(b.subrange(0, end), h, i, false, prev, d)->Ok_0;
            &&& !inspection::finds(s, rule)
            &&& stands_with(n, e)
            &&& n.walked == w.walked + 1
            &&& e.cursor >= 0
            &&& e.v4.len() == 256
            &&& e.v1.len() == 256
        }),
{
    reveal(decoder::frame_strip);
    reveal(decoder::strip_pixels);
    let frame = b.subrange(0, end);
    let at = d.cursor;
    let head = frame.subrange(at, at + 12);
    framing::strip_header_in_bytes(head);
    let raw = header::strip_at(frame, at, i)->Ok_0;
    assert forall|k: int| 0 <= k < 12 implies head[k] == #[trigger] b[at + k] by {}
    assert(head[0] == b[at + 0] && head[1] == b[at + 1] && head[2] == b[at + 2] && head[3] == b[at
        + 3]);
    assert(head[4] == b[at + 4] && head[5] == b[at + 5] && head[6] == b[at + 6] && head[7] == b[at
        + 7]);
    assert(head[8] == b[at + 8] && head[9] == b[at + 9] && head[10] == b[at + 10] && head[11] == b[at
        + 11]);
    let (top, bottom) = header::place_strip(raw, i == 0, d.bottom);
    framing::strip_place_accepted(h, raw, i, top, bottom);
    inspection::strip_findings(b, end, f, i as u16, w, rule);
    let stop = at + raw.strip_size;
    let body = frame.subrange(at + 12, stop);
    assert(body =~= b.subrange(at + 12, stop));
    let intra = raw.strip_id == 0x1000;
    let count = ((bottom - top) / 4 * ((raw.x_bottom - raw.x_top) / 4)) as nat;
    let start = ChunkState { v4: d.v4, v1: d.v1, mode: None, mbs: None };
    accepted_chunks_break_nothing(
        body,
        StripPlace { strip: i as u16, intra: Some(intra), base: at + 12 },
        ChunkWalk {
            pos: 0,
            idx: 0,
            saw_v4: false,
            saw_v1: false,
            vector_at: None,
            modes: w.modes,
        },
        start,
        count,
        intra,
        rule,
    );
}

proof fn accepted_strips_break_nothing(
    b: Seq<u8>,
    end: int,
    h: FrameHeader,
    f: FrameNumbers,
    i: int,
    prev: Option<FrameView>,
    d: FrameWork,
    w: StripsWalk,
    rule: LintRule,
)
    requires
        spoils(rule),
        0 <= end <= b.len(),
        0 <= i <= h.strip_count,
        f.width == h.width,
        f.height == h.height,
        f.strip_count == h.strip_count,
        stands_with(w, d),
        0 <= d.cursor,
        d.v4.len() == 256,
        d.v1.len() == 256,
        decoder::frame_strips(b.subrange(0, end), h, i, false, prev, d) is Ok,
    ensures
        ({
            let (s, n) = lint::strips_issues(b, end, f, i, w);
            &&& !inspection::finds(s, rule)
            &&& n.walked == w.walked + (h.strip_count - i)
            &&& !n.truncated
        }),
    decreases h.strip_count - i,
{
    if i < h.strip_count {
        accepted_strip_breaks_nothing(b, end, h, f, i, prev, d, w, rule);
        let (s, n) = lint::strip_issues(b, end, f, i as u16, w);
        let e = decoder::frame_strip(b.subrange(0, end), h, i, false, prev, d)->Ok_0;
        accepted_strips_break_nothing(b, end, h, f, i + 1, prev, e, n, rule);
        let (rest, last) = lint::strips_issues(b, end, f, i + 1, n);
        inspection::finds_joined(s, rest, rule);
    }
}

/// A frame that decodes breaks none of the rules without which a decoder
/// cannot do, and all of its strips are looked at.
pub proof fn decoded_frame_breaks_nothing(
    st: DecoderState,
    b: Seq<u8>,
    pts: Option<i64>,
    rule: LintRule,
)
    requires
        decoder::decoded(st, b, pts, None).1 is Ok,
        st.v4 matches Some(cb) ==> cb.len() == 256,
        st.v1 matches Some(cb) ==> cb.len() == 256,
        spoils(rule),
    ensures
        !inspection::finds(lint::frame_report(b).issues, rule),
        lint::frame_report(b).strips_walked == 256 * b[8] + b[9],
{
    framing::frame_header_in_bytes(b);
    let h = header::frame_header(b)->Ok_0;
    let f = lint::frame_numbers(b);
    let end = h.frame_length as int;
    let prev = decoder::prev_of_size(st.prev, h);
    inspection::frame_findings(b, rule);
    assert(f.width * f.height != 0) by (nonlinear_arith)
        requires
            f.width > 0,
            f.height > 0,
    ;
    accepted_strips_break_nothing(
        b,
        end,
        h,
        f,
        0,
        prev,
        decoder::frame_start(st, 10),
        lint::strips_start(),
        rule,
    );
}

} // verus!
