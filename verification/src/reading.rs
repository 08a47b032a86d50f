//! What a decoder makes of what the encoder emits.

use vstd::prelude::*;
use crate::bits;
use crate::codebook::{
    self, CodebookChunkKind, CodebookEntry, PixelMode, UpdateStyle, WhichCodebook,
    CHUNK_HEADER_SIZE,
};
use crate::decoder::{self, ChunkState, FrameWork, Paint};
use crate::error::ErrorView;
use crate::header::{
    self, FrameHeader, RawStripHeader, FRAME_HEADER_SIZE, STRIP_HEADER_SIZE, STRIP_ID_INTER,
    STRIP_ID_INTRA,
};
use crate::image::FrameView;
use crate::rolling::{self, RollView, Update};
use crate::strips::{self, StripPlan};
use crate::vector::{self, Mb, VECTOR_CHUNK_INTER, VECTOR_CHUNK_INTRA};

verus! {

/// How an update is emitted.
pub enum Form {
    /// Not at all.
    Omitted,
    Full,
    Selective,
}

/// How an update is emitted.
pub open spec fn update_form(u: Update, r: RollView) -> Form {
    let prev = rolling::held_of_size(r, u.which, u.n);
    let slots = rolling::outdated(prev, u.cb, u.used, u.n as int);
    if u.force_full || !u.selective {
        Form::Full
    } else if prev is Some && slots.len() == 0 {
        Form::Omitted
    } else if prev is Some && crate::rolling::selective_size(u.mode, slots)
        < crate::rolling::full_size(u.mode, u.n) {
        Form::Selective
    } else {
        Form::Full
    }
}

/// The codebook that an update leaves in a decoder that held `d`.
pub open spec fn applied(u: Update, r: RollView, d: Seq<CodebookEntry>) -> Seq<CodebookEntry> {
    let slots = rolling::outdated(rolling::held_of_size(r, u.which, u.n), u.cb, u.used, u.n as int);
    match update_form(u, r) {
        Form::Omitted => d,
        Form::Full => Seq::new(
            256,
            |i: int|
                if i < u.n {
                    codebook::coded(u.mode, u.cb[i])
                } else {
                    d[i]
                },
        ),
        Form::Selective => Seq::new(
            256,
            |i: int|
                if slots.contains(i as u8) {
                    codebook::coded(u.mode, u.cb[i])
                } else {
                    d[i]
                },
        ),
    }
}

pub proof fn chunk_read(payload: Seq<u8>, p: int, id: u16, body: Seq<u8>)
    requires
        0 <= p,
        p + 4 + body.len() <= payload.len(),
        4 + body.len() <= 65535,
        payload.subrange(p, p + 4 + body.len()) == codebook::chunk_bytes(id, body),
    ensures
        bits::be16(payload, p) == id,
        bits::be16(payload, p + 2) == 4 + body.len(),
        payload.subrange(p + 4, p + 4 + body.len()) == body,
{
    let c = codebook::chunk_bytes(id, body);
    let t = payload.subrange(p, p + 4 + body.len());
    assert(c.len() == 4 + body.len());
    assert(payload[p] == t[0] && payload[p + 1] == t[1] && payload[p + 2] == t[2] && payload[p + 3]
        == t[3]);
    assert(t[0] == bits::be16_bytes(id)[0] && t[1] == bits::be16_bytes(id)[1]);
    let n = (CHUNK_HEADER_SIZE + body.len()) as u16;
    assert(t[2] == bits::be16_bytes(n)[0] && t[3] == bits::be16_bytes(n)[1]);
    assert(payload.subrange(p + 4, p + 4 + body.len()) =~= body) by {
        assert forall|i: int| 0 <= i < body.len() implies payload.subrange(
            p + 4,
            p + 4 + body.len(),
        )[i] == body[i] by {
            assert(t[4 + i] == c[4 + i]);
            assert(c[4 + i] == body[i]);
        }
    }
}

/// The state of a strip with one codebook replaced.
pub open spec fn with_codebook(
    s: ChunkState,
    which: WhichCodebook,
    cb: Seq<CodebookEntry>,
) -> ChunkState {
    match which {
        WhichCodebook::V4 => ChunkState { v4: cb, ..s },
        WhichCodebook::V1 => ChunkState { v1: cb, ..s },
    }
}

/// The codebook for `which`.
pub open spec fn codebook_of(s: ChunkState, which: WhichCodebook) -> Seq<CodebookEntry> {
    match which {
        WhichCodebook::V4 => s.v4,
        WhichCodebook::V1 => s.v1,
    }
}

/// The state of a strip after an update.
pub open spec fn after_update(u: Update, r: RollView, s: ChunkState) -> ChunkState {
    let t = with_codebook(s, u.which, applied(u, r, codebook_of(s, u.which)));
    ChunkState {
        mode: if update_form(u, r) is Omitted {
            s.mode
        } else {
            Some(u.mode)
        },
        ..t
    }
}

/// The payload of an update that is emitted.
pub open spec fn update_body(u: Update, r: RollView) -> Seq<u8> {
    let slots = rolling::outdated(rolling::held_of_size(r, u.which, u.n), u.cb, u.used, u.n as int);
    if update_form(u, r) is Selective {
        codebook::slot_groups(u.mode, u.cb, slots, codebook::group_count(slots))
    } else {
        codebook::entries_bytes(u.mode, u.cb, u.n)
    }
}

/// The kind of an update that is emitted.
pub open spec fn update_kind(u: Update, r: RollView) -> CodebookChunkKind {
    CodebookChunkKind {
        which: u.which,
        style: if update_form(u, r) is Selective {
            UpdateStyle::Selective
        } else {
            UpdateStyle::Full
        },
        mode: u.mode,
    }
}

pub proof fn emitted_bytes(u: Update, r: RollView)
    ensures
        rolling::emitted(u, r).0 == if update_form(u, r) is Omitted {
            Seq::empty()
        } else {
            codebook::chunk_bytes(codebook::kind_id(update_kind(u, r)), update_body(u, r))
        },
{
}

pub proof fn update_body_applied(u: Update, r: RollView, d: Seq<CodebookEntry>)
    requires
        !(update_form(u, r) is Omitted),
        u.n <= 256,
        d.len() == 256,
    ensures
        codebook::codebook_update(update_kind(u, r), update_body(u, r), d, false) == (
            applied(u, r, d),
            Ok::<(), ErrorView>(()),
        ),
{
    let slots = rolling::outdated(rolling::held_of_size(r, u.which, u.n), u.cb, u.used, u.n as int);
    if update_form(u, r) is Selective {
        rolling::outdated_order(rolling::held_of_size(r, u.which, u.n), u.cb, u.used, u.n as int);
        codebook::selective_round_trip(update_kind(u, r), u.cb, slots, d, false);
    } else {
        codebook::full_round_trip(update_kind(u, r), u.cb, u.n, d, false);
    }
}

/// A decoder that reads an update goes on after it, with the codebook that
/// the update leaves.
#[verifier::rlimit(50)]
#[verifier::spinoff_prover]
pub proof fn update_read(
    u: Update,
    r: RollView,
    payload: Seq<u8>,
    p: int,
    s: ChunkState,
    count: nat,
    intra: bool,
)
    requires
        u.n <= 256,
        s.v4.len() == 256,
        s.v1.len() == 256,
        s.mode is None || s.mode == Some(u.mode),
        intra ==> u.force_full,
        0 <= p,
        p + rolling::emitted(u, r).0.len() <= payload.len() <= 65535,
        payload.subrange(p, p + rolling::emitted(u, r).0.len()) == rolling::emitted(u, r).0,
    ensures
        decoder::strip_chunks(payload, p, s, count, intra, false) == decoder::strip_chunks(
            payload,
            p + rolling::emitted(u, r).0.len(),
            after_update(u, r, s),
            count,
            intra,
            false,
        ),
        after_update(u, r, s).v4.len() == 256,
        after_update(u, r, s).v1.len() == 256,
{
    emitted_bytes(u, r);
    if update_form(u, r) is Omitted {
        assert(after_update(u, r, s) == s);
    } else {
        let kind = update_kind(u, r);
        let body = update_body(u, r);
        let c = codebook::chunk_bytes(codebook::kind_id(kind), body);
        assert(c.len() == 4 + body.len());
        chunk_read(payload, p, codebook::kind_id(kind), body);
        codebook::kind_round_trip(kind);
        update_body_applied(u, r, codebook_of(s, u.which));
    }
}

/// The id of the vector chunk of a strip.
pub open spec fn vector_id(intra: bool) -> u16 {
    if intra {
        VECTOR_CHUNK_INTRA
    } else {
        VECTOR_CHUNK_INTER
    }
}

/// The payload of the vector chunk of a strip.
pub open spec fn vector_body(intra: bool, mbs: Seq<Mb>) -> Seq<u8> {
    if intra {
        vector::intra_bytes(mbs)
    } else {
        vector::inter_bytes(mbs, false)
    }
}

proof fn vector_read(payload: Seq<u8>, p: int, s: ChunkState, intra: bool, mbs: Seq<Mb>)
    requires
        s.mbs is None,
        intra ==> vector::no_skip(mbs),
        0 <= p,
        payload.len() <= 65535,
        p + 4 + vector_body(intra, mbs).len() == payload.len(),
        payload.subrange(p, payload.len() as int) == codebook::chunk_bytes(
            vector_id(intra),
            vector_body(intra, mbs),
        ),
    ensures
        decoder::strip_chunks(payload, p, s, mbs.len(), intra, false) == Ok::<ChunkState, ErrorView>(
            ChunkState { mbs: Some(mbs), ..s },
        ),
{
    let id = vector_id(intra);
    let body = vector_body(intra, mbs);
    chunk_read(payload, p, id, body);
    assert(codebook::kind_of_id(id) is None);
    assert(decoder::is_vector_id(id));
    assert(body + Seq::<u8>::empty() =~= body);
    if intra {
        vector::intra_round_trip(mbs, Seq::empty());
    } else {
        vector::inter_round_trip(mbs, Seq::empty());
    }
    assert(vector::vector_mbs(id, body, mbs.len()) == Ok::<Seq<Mb>, ErrorView>(mbs));
    let s1 = ChunkState { mbs: Some(mbs), ..s };
    assert(decoder::strip_chunks(payload, payload.len() as int, s1, mbs.len(), intra, false) == Ok::<
        ChunkState,
        ErrorView,
    >(s1));
}

/// The chunks of a strip: the two updates, then the macroblocks.
#[verifier::opaque]
pub open spec fn script(
    u4: Update,
    r4: RollView,
    u1: Update,
    r1: RollView,
    intra: bool,
    mbs: Seq<Mb>,
) -> Seq<u8> {
    rolling::emitted(u4, r4).0 + rolling::emitted(u1, r1).0 + codebook::chunk_bytes(vector_id(intra), vector_body(intra, mbs))
}

/// A decoder that reads a strip's chunks gets its macroblocks, and holds the
/// codebooks that the updates leave.
#[verifier::rlimit(50)]
#[verifier::spinoff_prover]
pub proof fn script_read(
    u4: Update,
    r4: RollView,
    u1: Update,
    r1: RollView,
    intra: bool,
    mbs: Seq<Mb>,
    s: ChunkState,
)
    requires
        u4.which == WhichCodebook::V4,
        u1.which == WhichCodebook::V1,
        u4.mode == u1.mode,
        u4.n <= 256,
        u1.n <= 256,
        intra ==> u4.force_full && u1.force_full && vector::no_skip(mbs),
        s.v4.len() == 256,
        s.v1.len() == 256,
        s.mode is None,
        s.mbs is None,
        script(u4, r4, u1, r1, intra, mbs).len() <= 65535,
    ensures
        decoder::strip_chunks(script(u4, r4, u1, r1, intra, mbs), 0, s, mbs.len(), intra, false) == Ok::<
            ChunkState,
            ErrorView,
        >(
            ChunkState {
                mbs: Some(mbs),
                ..after_update(u1, r1, after_update(u4, r4, s))
            },
        ),
{
    let e4 = rolling::emitted(u4, r4).0;
    let e1 = rolling::emitted(u1, r1).0;
    let v = codebook::chunk_bytes(vector_id(intra), vector_body(intra, mbs));
    reveal(script);
    let all = script(u4, r4, u1, r1, intra, mbs);
    assert(v.len() == 4 + vector_body(intra, mbs).len());
    assert(all.subrange(0, e4.len() as int) =~= e4);
    assert(all.subrange(e4.len() as int, (e4.len() + e1.len()) as int) =~= e1);
    assert(all.subrange((e4.len() + e1.len()) as int, all.len() as int) =~= v);
    let s4 = after_update(u4, r4, s);
    update_read(u4, r4, all, 0, s, mbs.len(), intra);
    update_read(u1, r1, all, e4.len() as int, s4, mbs.len(), intra);
    vector_read(all, (e4.len() + e1.len()) as int, after_update(u1, r1, s4), intra, mbs);
}

/// The work on a frame after a strip.
pub open spec fn strip_work(
    h: FrameHeader,
    rows: StripPlan,
    u4: Update,
    r4: RollView,
    u1: Update,
    r1: RollView,
    mbs: Seq<Mb>,
    prev: Option<FrameView>,
    w: FrameWork,
    size: int,
) -> FrameWork {
    let m = u4.mode;
    let v4 = applied(u4, r4, w.v4);
    let v1 = applied(u1, r1, w.v1);
    let canvas = if w.mode is None {
        Seq::new((h.width * h.height * decoder::mode_bpp(m)) as nat, |k: int| 0u8)
    } else {
        w.out
    };
    FrameWork {
        v4,
        v1,
        mode: Some(m),
        out: decoder::draw_mbs(
            canvas,
            h.width * decoder::mode_bpp(m),
            Paint { mode: m, v4, v1, prev },
            mbs,
            0,
            rows.y_top as int,
            h.width as int / 4,
            mbs.len(),
        ),
        cursor: w.cursor + size,
        bottom: rows.y_bottom as int,
    }
}

/// Whether a frame so far fits colour or gray strips of mode `m`: no strip
/// had another mode, and where no codebook update names the mode, the frame
/// before has it.
pub open spec fn mode_agrees(m: PixelMode, w: FrameWork, prev: Option<FrameView>) -> bool {
    match decoder::mode_hint(w.mode, prev) {
        Some(x) => x == m,
        None => m == PixelMode::Yuv12,
    }
}

proof fn strip_pixels_read(
    h: FrameHeader,
    raw: RawStripHeader,
    rows: StripPlan,
    u4: Update,
    r4: RollView,
    u1: Update,
    r1: RollView,
    mbs: Seq<Mb>,
    prev: Option<FrameView>,
    w: FrameWork,
)
    requires
        u4.which == WhichCodebook::V4,
        u1.which == WhichCodebook::V1,
        u4.mode == u1.mode,
        u4.n <= 256,
        u1.n <= 256,
        raw.x_top == 0,
        raw.x_bottom == h.width,
        raw.strip_id == STRIP_ID_INTRA || raw.strip_id == STRIP_ID_INTER,
        raw.strip_id == STRIP_ID_INTRA ==> u4.force_full && u1.force_full && vector::no_skip(mbs),
        w.v4.len() == 256,
        w.v1.len() == 256,
        w.mode is None || w.mode == Some(u4.mode),
        u4.force_full || mode_agrees(u4.mode, w, prev),
        decoder::has_skip(mbs) ==> prev is Some,
        mbs.len() == (rows.y_bottom - rows.y_top) / 4 * (h.width as int / 4),
        script(u4, r4, u1, r1, raw.strip_id == STRIP_ID_INTRA, mbs).len() <= 65535,
    ensures
        decoder::strip_pixels(
            h,
            raw,
            rows.y_top as int,
            rows.y_bottom as int,
            script(u4, r4, u1, r1, raw.strip_id == STRIP_ID_INTRA, mbs),
            false,
            prev,
            w,
        ) == Ok::<FrameWork, ErrorView>(
            FrameWork {
                cursor: w.cursor,
                bottom: w.bottom,
                ..strip_work(h, rows, u4, r4, u1, r1, mbs, prev, w, 0)
            },
        ),
{
    reveal(decoder::strip_pixels);
    let s = ChunkState { v4: w.v4, v1: w.v1, mode: None, mbs: None };
    script_read(u4, r4, u1, r1, raw.strip_id == STRIP_ID_INTRA, mbs, s);
    emitted_bytes(u4, r4);
}

/// What a decoder reads of a frame: the strips, and the work after each.
pub struct FrameReading {
    pub header: FrameHeader,
    pub rows: Seq<StripPlan>,
    pub intra: bool,
    pub u4: Seq<Update>,
    pub r4: Seq<RollView>,
    pub u1: Seq<Update>,
    pub r1: Seq<RollView>,
    pub mbs: Seq<Seq<Mb>>,
    pub strips: Seq<Seq<u8>>,
    pub prev: Option<FrameView>,
}

/// The chunks of strip `i`.
pub open spec fn reading_chunks(f: FrameReading, i: int) -> Seq<u8> {
    script(f.u4[i], f.r4[i], f.u1[i], f.r1[i], f.intra, f.mbs[i])
}

/// The work after the first `n` strips.
pub open spec fn reading_work(f: FrameReading, start: FrameWork, n: int) -> FrameWork
    decreases n,
{
    if n <= 0 {
        start
    } else {
        let i = n - 1;
        strip_work(
            f.header,
            f.rows[i],
            f.u4[i],
            f.r4[i],
            f.u1[i],
            f.r1[i],
            f.mbs[i],
            f.prev,
            reading_work(f, start, i),
            f.strips[i].len() as int,
        )
    }
}

/// Whether strip `i` was made of its updates and macroblocks and has its
/// place in the frame.
pub open spec fn strip_sound(f: FrameReading, i: int) -> bool {
    &&& f.u4[i].which == WhichCodebook::V4
    &&& f.u1[i].which == WhichCodebook::V1
    &&& f.u4[i].mode == f.u1[i].mode
    &&& f.u4[i].mode == f.u4[0].mode
    &&& f.u4[i].n <= 256
    &&& f.u1[i].n <= 256
    &&& f.intra ==> f.u4[i].force_full && f.u1[i].force_full && vector::no_skip(f.mbs[i])
    &&& decoder::has_skip(f.mbs[i]) ==> f.prev is Some
    &&& f.mbs[i].len() == (f.rows[i].y_bottom - f.rows[i].y_top) / 4 * (f.header.width as int / 4)
    &&& STRIP_HEADER_SIZE + reading_chunks(f, i).len() <= 65535
    &&& f.strips[i] == header::strip_header_bytes(
        strips::strip_head(
            if f.intra {
                STRIP_ID_INTRA
            } else {
                STRIP_ID_INTER
            },
            f.rows[i],
            f.header.width as u32,
            reading_chunks(f, i).len(),
        ),
    ) + reading_chunks(f, i)
    &&& f.rows[i].y_top < f.rows[i].y_bottom <= f.header.height
    &&& (f.rows[i].y_bottom - f.rows[i].y_top) % 4 == 0
    &&& i == 0 ==> f.rows[i].y_top == 0
    &&& i > 0 ==> f.rows[i].y_top > 0
}

/// Whether a frame was made of its strips.
pub open spec fn reading_sound(f: FrameReading) -> bool {
    &&& f.rows.len() == f.header.strip_count
    &&& f.rows.len() > 0
    &&& f.header.width % 4 == 0
    &&& f.intra || match f.prev {
        Some(p) => decoder::mode_hint(None, Some(p)) == Some(f.u4[0].mode),
        None => f.u4[0].mode == PixelMode::Yuv12,
    }
    &&& forall|i: int| 0 <= i < f.rows.len() ==> #[trigger] strip_sound(f, i)
}

proof fn applied_len(u: Update, r: RollView, d: Seq<CodebookEntry>)
    requires
        d.len() == 256,
    ensures
        applied(u, r, d).len() == 256,
{
}

proof fn reading_work_state(f: FrameReading, start: FrameWork, n: int)
    requires
        reading_sound(f),
        0 <= n <= f.rows.len(),
        start.v4.len() == 256,
        start.v1.len() == 256,
        start.mode is None,
    ensures
        reading_work(f, start, n).v4.len() == 256,
        reading_work(f, start, n).v1.len() == 256,
        reading_work(f, start, n).mode == if n == 0 {
            None
        } else {
            Some(f.u4[0].mode)
        },
        reading_work(f, start, n).cursor == start.cursor + strips::joined(f.strips, n).len(),
    decreases n,
{
    if n > 0 {
        reading_work_state(f, start, n - 1);
        assert(strip_sound(f, n - 1));
        let w = reading_work(f, start, n - 1);
        applied_len(f.u4[n - 1], f.r4[n - 1], w.v4);
        applied_len(f.u1[n - 1], f.r1[n - 1], w.v1);
    }
}

proof fn joined_part(strips: Seq<Seq<u8>>, n: int, i: int)
    requires
        0 <= i < n,
    ensures
        strips::joined(strips, i).len() + strips[i].len() <= strips::joined(strips, n).len(),
        strips::joined(strips, n).subrange(
            strips::joined(strips, i).len() as int,
            (strips::joined(strips, i).len() + strips[i].len()) as int,
        ) == strips[i],
    decreases n,
{
    let a = strips::joined(strips, i).len() as int;
    let b = (strips::joined(strips, i).len() + strips[i].len()) as int;
    if i == n - 1 {
        assert(strips::joined(strips, n).subrange(a, b) =~= strips[i]);
    } else {
        joined_part(strips, n - 1, i);
        assert(strips::joined(strips, n).subrange(a, b) =~= strips::joined(strips, n - 1).subrange(a, b));
    }
}

pub proof fn strip_in_frame(f: FrameReading, frame: Seq<u8>, head: Seq<u8>, i: int)
    requires
        reading_sound(f),
        0 <= i < f.rows.len(),
        head.len() == FRAME_HEADER_SIZE,
        frame == head + strips::joined(f.strips, f.rows.len() as int),
    ensures
        ({
            let p = FRAME_HEADER_SIZE + strips::joined(f.strips, i).len();
            let n = f.strips[i].len();
            &&& p + n <= frame.len()
            &&& frame.subrange(p as int, (p + n) as int) == f.strips[i]
        }),
{
    let n = f.rows.len() as int;
    joined_part(f.strips, n, i);
    let p = FRAME_HEADER_SIZE + strips::joined(f.strips, i).len();
    let len = f.strips[i].len();
    let body = strips::joined(f.strips, n);
    assert(frame.subrange(p as int, (p + len) as int) =~= body.subrange(
        strips::joined(f.strips, i).len() as int,
        (strips::joined(f.strips, i).len() + len) as int,
    ));
}

#[verifier::rlimit(50)]
#[verifier::spinoff_prover]
proof fn strip_step(f: FrameReading, frame: Seq<u8>, head: Seq<u8>, start: FrameWork, i: int)
    requires
        reading_sound(f),
        0 <= i < f.rows.len(),
        head.len() == FRAME_HEADER_SIZE,
        frame == head + strips::joined(f.strips, f.rows.len() as int),
        start.v4.len() == 256,
        start.v1.len() == 256,
        start.mode is None,
        start.cursor == FRAME_HEADER_SIZE,
    ensures
        decoder::frame_strip(frame, f.header, i, false, f.prev, reading_work(f, start, i)) == Ok::<
            FrameWork,
            ErrorView,
        >(reading_work(f, start, i + 1)),
{
    reveal(decoder::frame_strip);
    assert(strip_sound(f, i));
    reading_work_state(f, start, i);
    strip_in_frame(f, frame, head, i);
    let w = reading_work(f, start, i);
    let chunks = reading_chunks(f, i);
    let id = if f.intra {
        STRIP_ID_INTRA
    } else {
        STRIP_ID_INTER
    };
    let raw = strips::strip_head(id, f.rows[i], f.header.width as u32, chunks.len());
    header::strip_header_round_trip(raw);
    let bytes = f.strips[i];
    assert(bytes.len() == STRIP_HEADER_SIZE + chunks.len());
    let p = w.cursor;
    assert(frame.subrange(p, p + STRIP_HEADER_SIZE) =~= bytes.subrange(
        0,
        STRIP_HEADER_SIZE as int,
    )) by {
        let t = frame.subrange(p, p + bytes.len());
        assert(forall|k: int| 0 <= k < bytes.len() ==> frame[p + k] == #[trigger] t[k]);
    }
    assert(bytes.subrange(0, STRIP_HEADER_SIZE as int) =~= header::strip_header_bytes(raw));
    assert(frame.subrange(p + STRIP_HEADER_SIZE, p + raw.strip_size) =~= chunks) by {
        let t = frame.subrange(p, p + bytes.len());
        assert forall|k: int| 0 <= k < chunks.len() implies frame[p + 12 + k] == #[trigger] chunks[k] by {
            assert(frame[p + (12 + k)] == t[12 + k]);
            assert(bytes[12 + k] == chunks[k]);
        }
    }
    assert(header::strip_at(frame, p, i) == Ok::<RawStripHeader, ErrorView>(raw));
    assert(raw.y_top == f.rows[i].y_top && raw.y_bottom == f.rows[i].y_bottom);
    assert(header::place_strip(raw, i == 0, w.bottom) == (
        f.rows[i].y_top as int,
        f.rows[i].y_bottom as int,
    ));
    assert(decoder::place_error(
        f.header,
        raw,
        i,
        f.rows[i].y_top as int,
        f.rows[i].y_bottom as int,
    ) is None);
    strip_pixels_read(
        f.header,
        raw,
        f.rows[i],
        f.u4[i],
        f.r4[i],
        f.u1[i],
        f.r1[i],
        f.mbs[i],
        f.prev,
        w,
    );
}

proof fn strips_from(f: FrameReading, frame: Seq<u8>, head: Seq<u8>, start: FrameWork, i: int)
    requires
        reading_sound(f),
        0 <= i <= f.rows.len(),
        head.len() == FRAME_HEADER_SIZE,
        frame == head + strips::joined(f.strips, f.rows.len() as int),
        start.v4.len() == 256,
        start.v1.len() == 256,
        start.mode is None,
        start.cursor == FRAME_HEADER_SIZE,
    ensures
        decoder::frame_strips(frame, f.header, i, false, f.prev, reading_work(f, start, i)) == Ok::<
            FrameWork,
            ErrorView,
        >(reading_work(f, start, f.rows.len() as int)),
    decreases f.rows.len() - i,
{
    if i < f.rows.len() {
        strip_step(f, frame, head, start, i);
        strips_from(f, frame, head, start, i + 1);
    }
}

/// A decoder that reads a frame gets the work that its strips give.
pub proof fn frame_read(f: FrameReading, frame: Seq<u8>, head: Seq<u8>, start: FrameWork)
    requires
        reading_sound(f),
        head.len() == FRAME_HEADER_SIZE,
        frame == head + strips::joined(f.strips, f.rows.len() as int),
        start.v4.len() == 256,
        start.v1.len() == 256,
        start.mode is None,
        start.cursor == FRAME_HEADER_SIZE,
    ensures
        decoder::frame_strips(frame, f.header, 0, false, f.prev, start) == Ok::<FrameWork, ErrorView>(
            reading_work(f, start, f.rows.len() as int),
        ),
        reading_work(f, start, f.rows.len() as int).mode == Some(f.u4[0].mode),
        reading_work(f, start, f.rows.len() as int).v4.len() == 256,
        reading_work(f, start, f.rows.len() as int).v1.len() == 256,
{
    strips_from(f, frame, head, start, 0);
    reading_work_state(f, start, f.rows.len() as int);
}

} // verus!
