//! Encoded frames have no flaws.

use vstd::prelude::*;
use crate::bits;
use crate::codebook::{
    self, CodebookChunkKind, PixelMode, UpdateStyle, WhichCodebook, CHUNK_HEADER_SIZE,
};
use crate::decoder;
use crate::encoder;
use crate::error::ErrorView;
use crate::header::{
    self, RawStripHeader, FRAME_HEADER_SIZE, STRIP_HEADER_SIZE, STRIP_ID_INTER, STRIP_ID_INTRA,
};
use crate::image::{CinepakPixelFormat, FrameView};
use crate::lint::{
    self, ChunkView, ChunkWalk, FrameModes, FrameNumbers, IssueView, ReportView, StripPlace,
    StripsWalk,
};
use crate::options::{self, EncoderOptions};
use crate::reading::{self, Form, FrameReading};
use crate::rolling::{self, RollView, Update};
use crate::roundtrip::{self, InterScene};
use crate::strips;
use crate::vector::{self, Mb};

verus! {

/// Whether a walk may meet an update of the given kind without a finding.
spec fn expects(p: StripPlace, w: ChunkWalk, u: Update) -> bool {
    &&& w.vector_at is None
    &&& w.modes.mode matches Some((m, _)) ==> m == u.mode
    &&& match u.which {
        WhichCodebook::V4 => !w.saw_v4 && !w.saw_v1,
        WhichCodebook::V1 => !w.saw_v1,
    }
    &&& p.intra == Some(true) ==> u.force_full
    &&& 1 <= u.n <= 256
    &&& w.pos >= 0
    &&& w.idx >= 0
}

/// The walk after an update.
spec fn walked(p: StripPlace, w: ChunkWalk, u: Update, r: RollView) -> ChunkWalk {
    let len = rolling::emitted(u, r).0.len();
    if reading::update_form(u, r) is Omitted {
        w
    } else {
        ChunkWalk {
            pos: w.pos + len,
            idx: w.idx + 1,
            saw_v4: w.saw_v4 || u.which == WhichCodebook::V4,
            saw_v1: w.saw_v1 || u.which == WhichCodebook::V1,
            modes: lint::next_modes(p, w.modes, u.mode),
            ..w
        }
    }
}

proof fn update_has_no_issue(u: Update, r: RollView, p: StripPlace, w: ChunkWalk, c: ChunkView)
    requires
        expects(p, w, u),
        !(reading::update_form(u, r) is Omitted),
        c.id == codebook::kind_id(reading::update_kind(u, r)),
        c.body == reading::update_body(u, r),
        !c.truncated,
    ensures
        lint::chunk_issues(p, w, c) == Seq::<IssueView>::empty(),
{
    let kind = reading::update_kind(u, r);
    codebook::kind_round_trip(kind);
    reveal(lint::after_vector);
    reveal(lint::mode_mix);
    reveal(lint::flavour_issues);
    reveal(lint::full_issues);
    reveal(lint::selective_issues);
    let none = Seq::<IssueView>::empty();
    assert(lint::after_vector(p, w, "codebook chunk 0x"@, c.id) == none);
    assert(lint::mode_mix(p, w, c.id, kind.mode) == none);
    assert(lint::flavour_issues(p, w, kind.which) =~= none);
    if kind.style == UpdateStyle::Full {
        let es = codebook::entry_bytes_len(u.mode);
        codebook::entries_bytes_len(u.mode, u.cb, u.n);
        assert(c.body.len() == u.n * es);
        assert(c.body.len() % es == 0 && c.body.len() / es == u.n) by (nonlinear_arith)
            requires
                c.body.len() == u.n * es,
                es > 0,
        ;
        assert(c.body.len() > 0) by (nonlinear_arith)
            requires
                c.body.len() == u.n * es,
                es > 0,
                u.n >= 1,
        ;
        assert(lint::full_issues(p, w, c, kind.mode) =~= none);
    } else {
        reading::update_body_applied(u, r, codebook::zero_codebook());
        assert(lint::selective_issues(p, w, c, kind) =~= none);
    }
    assert(lint::codebook_issues(p, w, c, kind) =~= none);
}

/// A walk over an update goes on after it.
proof fn update_is_clean(u: Update, r: RollView, payload: Seq<u8>, p: StripPlace, w: ChunkWalk)
    requires
        expects(p, w, u),
        w.pos + rolling::emitted(u, r).0.len() <= payload.len() <= 65535,
        payload.subrange(w.pos, w.pos + rolling::emitted(u, r).0.len()) == rolling::emitted(u, r).0,
    ensures
        lint::strip_chunk_issues(payload, p, w) == lint::strip_chunk_issues(
            payload,
            p,
            walked(p, w, u, r),
        ),
{
    reading::emitted_bytes(u, r);
    if !(reading::update_form(u, r) is Omitted) {
        let kind = reading::update_kind(u, r);
        let body = reading::update_body(u, r);
        let id = codebook::kind_id(kind);
        assert(codebook::chunk_bytes(id, body).len() == 4 + body.len());
        reading::chunk_read(payload, w.pos, id, body);
        codebook::kind_round_trip(kind);
        let end = w.pos + 4 + body.len();
        let c = ChunkView { id, body, truncated: false };
        update_has_no_issue(u, r, p, w, c);
        let w1 = lint::after_chunk(p, w, c, end);
        assert(w1 == walked(p, w, u, r));
        let rest = lint::strip_chunk_issues(payload, p, w1);
        assert(Seq::<IssueView>::empty() + Seq::<IssueView>::empty() + rest.0 =~= rest.0);
        assert(lint::strip_chunk_issues(payload, p, w).0 =~= rest.0);
    }
}

/// The walk over a strip at its start.
spec fn strip_walk(modes: FrameModes) -> ChunkWalk {
    ChunkWalk { pos: 0, idx: 0, saw_v4: false, saw_v1: false, vector_at: None, modes }
}

/// The modes after a strip's updates.
spec fn modes_after(
    p: StripPlace,
    modes: FrameModes,
    u4: Update,
    r4: RollView,
    u1: Update,
    r1: RollView,
) -> FrameModes {
    walked(p, walked(p, strip_walk(modes), u4, r4), u1, r1).modes
}

/// A walk ends after the vector chunk.
proof fn vector_is_clean(payload: Seq<u8>, p: StripPlace, w: ChunkWalk, intra: bool, mbs: Seq<Mb>)
    requires
        w.vector_at is None,
        w.pos >= 0,
        payload.len() <= 65535,
        w.pos + 4 + reading::vector_body(intra, mbs).len() == payload.len(),
        payload.subrange(w.pos, payload.len() as int) == codebook::chunk_bytes(
            reading::vector_id(intra),
            reading::vector_body(intra, mbs),
        ),
    ensures
        lint::strip_chunk_issues(payload, p, w) == (Seq::<IssueView>::empty(), w.modes),
{
    let id = reading::vector_id(intra);
    let body = reading::vector_body(intra, mbs);
    reading::chunk_read(payload, w.pos, id, body);
    assert(codebook::kind_of_id(id) is None);
    assert(decoder::is_vector_id(id));
    let c = ChunkView { id, body, truncated: false };
    reveal(lint::after_vector);
    let none = Seq::<IssueView>::empty();
    assert(lint::chunk_issues(p, w, c) == none);
    let next = lint::after_chunk(p, w, c, payload.len() as int);
    assert(lint::strip_chunk_issues(payload, p, next) == (none, w.modes));
    assert(none + none + none =~= none);
    assert(lint::strip_chunk_issues(payload, p, w).0 =~= none);
}

#[verifier::rlimit(50)]
#[verifier::spinoff_prover]
proof fn strip_is_clean(
    u4: Update,
    r4: RollView,
    u1: Update,
    r1: RollView,
    intra: bool,
    mbs: Seq<Mb>,
    p: StripPlace,
    modes: FrameModes,
)
    requires
        u4.which == WhichCodebook::V4,
        u1.which == WhichCodebook::V1,
        u4.mode == u1.mode,
        1 <= u4.n <= 256,
        1 <= u1.n <= 256,
        p.intra == Some(intra),
        intra ==> u4.force_full && u1.force_full,
        modes.mode matches Some((m, _)) ==> m == u4.mode,
        reading::script(u4, r4, u1, r1, intra, mbs).len() <= 65535,
    ensures
        lint::strip_chunk_issues(
            reading::script(u4, r4, u1, r1, intra, mbs),
            p,
            strip_walk(modes),
        ) == (Seq::<IssueView>::empty(), modes_after(p, modes, u4, r4, u1, r1)),
        modes_after(p, modes, u4, r4, u1, r1).mode matches Some((m, _)) ==> m == u4.mode,
{
    let e4 = rolling::emitted(u4, r4).0;
    let e1 = rolling::emitted(u1, r1).0;
    let id = reading::vector_id(intra);
    let body = reading::vector_body(intra, mbs);
    let v = codebook::chunk_bytes(id, body);
    reveal(reading::script);
    let all = reading::script(u4, r4, u1, r1, intra, mbs);
    assert(v.len() == 4 + body.len());
    assert(all.subrange(0, e4.len() as int) =~= e4);
    assert(all.subrange(e4.len() as int, (e4.len() + e1.len()) as int) =~= e1);
    assert(all.subrange((e4.len() + e1.len()) as int, all.len() as int) =~= v);
    reading::emitted_bytes(u4, r4);
    reading::emitted_bytes(u1, r1);
    let w = strip_walk(modes);
    let wa = walked(p, w, u4, r4);
    let wb = walked(p, wa, u1, r1);
    update_is_clean(u4, r4, all, p, w);
    update_is_clean(u1, r1, all, p, wa);
    vector_is_clean(all, p, wb, intra, mbs);
}

/// Whether a frame's strips lie one below the other, down to its last row.
pub open spec fn tiles(f: FrameReading) -> bool {
    &&& f.header.width > 0
    &&& f.rows[f.rows.len() - 1].y_bottom == f.header.height
    &&& forall|i: int| 0 < i < f.rows.len() ==> (#[trigger] f.rows[i]).y_top == f.rows[i - 1].y_bottom
    &&& forall|i: int| 0 <= i < f.rows.len() ==> (#[trigger] f.u4[i]).n >= 1
    &&& forall|i: int| 0 <= i < f.rows.len() ==> (#[trigger] f.u1[i]).n >= 1
}

/// The numbers of the frame header.
spec fn numbers(f: FrameReading) -> FrameNumbers {
    FrameNumbers {
        flags: f.header.flags,
        frame_length: f.header.frame_length,
        width: f.header.width,
        height: f.header.height,
        strip_count: f.header.strip_count,
    }
}

/// The modes after the first `n` strips.
spec fn reading_modes(f: FrameReading, n: int) -> FrameModes
    decreases n,
{
    if n <= 0 {
        FrameModes { mode: None, mixed: false }
    } else {
        let i = n - 1;
        modes_after(place_of(f, i), reading_modes(f, i), f.u4[i], f.r4[i], f.u1[i], f.r1[i])
    }
}

/// Where strip `i` stands.
spec fn place_of(f: FrameReading, i: int) -> StripPlace {
    StripPlace {
        strip: i as u16,
        intra: Some(f.intra),
        base: FRAME_HEADER_SIZE + strips::joined(f.strips, i).len() + STRIP_HEADER_SIZE,
    }
}

/// The walk after the first `n` strips.
spec fn reading_walk(f: FrameReading, n: int) -> StripsWalk {
    StripsWalk {
        cursor: FRAME_HEADER_SIZE + strips::joined(f.strips, n).len(),
        bottom: if n <= 0 {
            0
        } else {
            f.rows[n - 1].y_bottom as int
        },
        sum: strips::joined(f.strips, n).len() as int,
        saw_intra: n > 0 && f.intra,
        saw_inter: n > 0 && !f.intra,
        regular: true,
        truncated: false,
        walked: n,
        modes: reading_modes(f, n),
    }
}

proof fn modes_agree(f: FrameReading, n: int)
    requires
        reading::reading_sound(f),
        tiles(f),
        0 <= n <= f.rows.len(),
    ensures
        reading_modes(f, n).mode matches Some((m, _)) ==> m == f.u4[0].mode,
    decreases n,
{
    if n > 0 {
        let i = n - 1;
        modes_agree(f, i);
        assert(reading::strip_sound(f, i));
        assert(f.u4[i].n >= 1 && f.u1[i].n >= 1);
        strip_is_clean(
            f.u4[i],
            f.r4[i],
            f.u1[i],
            f.r1[i],
            f.intra,
            f.mbs[i],
            place_of(f, i),
            reading_modes(f, i),
        );
    }
}

/// The header of strip `i`.
spec fn raw_of(f: FrameReading, i: int) -> RawStripHeader {
    strips::strip_head(
        if f.intra {
            STRIP_ID_INTRA
        } else {
            STRIP_ID_INTER
        },
        f.rows[i],
        f.header.width as u32,
        reading::reading_chunks(f, i).len(),
    )
}

proof fn strip_found(f: FrameReading, frame: Seq<u8>, head: Seq<u8>, i: int)
    requires
        reading::reading_sound(f),
        0 <= i < f.rows.len(),
        head.len() == FRAME_HEADER_SIZE,
        frame == head + strips::joined(f.strips, f.rows.len() as int),
    ensures
        ({
            let p = FRAME_HEADER_SIZE + strips::joined(f.strips, i).len();
            let n = f.strips[i].len();
            let raw = raw_of(f, i);
            &&& p + n <= frame.len()
            &&& n == STRIP_HEADER_SIZE + reading::reading_chunks(f, i).len()
            &&& raw.strip_size == n
            &&& header::strip_fields(frame.subrange(p as int, p + STRIP_HEADER_SIZE)) == raw
            &&& frame.subrange(p + STRIP_HEADER_SIZE, (p + n) as int) == reading::reading_chunks(
                f,
                i,
            )
        }),
{
    assert(reading::strip_sound(f, i));
    reading::strip_in_frame(f, frame, head, i);
    let chunks = reading::reading_chunks(f, i);
    let raw = raw_of(f, i);
    header::strip_header_round_trip(raw);
    let h = header::strip_header_bytes(raw);
    let bytes = f.strips[i];
    let p = FRAME_HEADER_SIZE + strips::joined(f.strips, i).len();
    let t = frame.subrange(p as int, (p + bytes.len()) as int);
    assert(t == bytes && bytes == h + chunks);
    assert(frame.subrange(p as int, p + STRIP_HEADER_SIZE) =~= h) by {
        assert forall|k: int| 0 <= k < STRIP_HEADER_SIZE implies frame.subrange(
            p as int,
            p + STRIP_HEADER_SIZE,
        )[k] == h[k] by {
            assert(frame[p + k] == t[k]);
        }
    }
    assert(frame.subrange(p + STRIP_HEADER_SIZE, (p + bytes.len()) as int) =~= chunks) by {
        assert forall|k: int| 0 <= k < chunks.len() implies frame.subrange(
            p + STRIP_HEADER_SIZE,
            (p + bytes.len()) as int,
        )[k] == chunks[k] by {
            assert(frame[p + (12 + k)] == t[12 + k]);
            assert(bytes[12 + k] == chunks[k]);
        }
    }
}

proof fn rect_is_clean(f: FrameReading, i: int)
    requires
        reading::reading_sound(f),
        tiles(f),
        0 <= i < f.rows.len(),
    ensures
        ({
            let raw = raw_of(f, i);
            let top = f.rows[i].y_top as int;
            let bottom = f.rows[i].y_bottom as int;
            &&& header::place_strip(raw, i == 0, reading_walk(f, i).bottom) == (top, bottom)
            &&& top == reading_walk(f, i).bottom
            &&& lint::rect_issues(
                numbers(f),
                raw,
                i as u16,
                reading_walk(f, i).cursor,
                top,
                bottom,
            ) == Seq::<IssueView>::empty()
        }),
{
    reveal(lint::rect_issues);
    assert(reading::strip_sound(f, i));
    let none = Seq::<IssueView>::empty();
    let raw = raw_of(f, i);
    let top = f.rows[i].y_top as int;
    let bottom = f.rows[i].y_bottom as int;
    assert(raw.y_top == top && raw.y_bottom == bottom);
    assert(raw.x_top == 0 && raw.x_bottom == f.header.width);
    assert(lint::rect_issues(
        numbers(f),
        raw,
        i as u16,
        reading_walk(f, i).cursor,
        top,
        bottom,
    ) =~= none);
}

#[verifier::rlimit(50)]
#[verifier::spinoff_prover]
proof fn strip_step_is_clean(f: FrameReading, frame: Seq<u8>, head: Seq<u8>, i: int)
    requires
        reading::reading_sound(f),
        tiles(f),
        0 <= i < f.rows.len(),
        head.len() == FRAME_HEADER_SIZE,
        frame == head + strips::joined(f.strips, f.rows.len() as int),
    ensures
        lint::strip_issues(frame, frame.len() as int, numbers(f), i as u16, reading_walk(f, i)) == (
            Seq::<IssueView>::empty(),
            reading_walk(f, i + 1),
        ),
{
    assert(reading::strip_sound(f, i));
    assert(f.u4[i].n >= 1 && f.u1[i].n >= 1);
    modes_agree(f, i);
    strip_found(f, frame, head, i);
    rect_is_clean(f, i);
    strip_is_clean(
        f.u4[i],
        f.r4[i],
        f.u1[i],
        f.r1[i],
        f.intra,
        f.mbs[i],
        place_of(f, i),
        reading_modes(f, i),
    );
    let none = Seq::<IssueView>::empty();
    let w = reading_walk(f, i);
    let p = w.cursor;
    let raw = raw_of(f, i);
    let n = f.strips[i].len();
    assert(lint::strip_id_issues(raw.strip_id, i as u16, p) == none);
    assert(none + none + none + none =~= none);
    assert(strips::joined(f.strips, i + 1).len() == strips::joined(f.strips, i).len() + n);
    assert(lint::strip_intra(raw.strip_id) == Some(f.intra));
    let first = i as u16 == 0u16;
    assert(first == (i == 0));
    reveal(lint::strip_issues);
    let t = lint::strip_issues(frame, frame.len() as int, numbers(f), i as u16, w);
    assert(t.0 == none);
    assert(t.1 == reading_walk(f, i + 1));
}

proof fn strips_are_clean(f: FrameReading, frame: Seq<u8>, head: Seq<u8>, i: int)
    requires
        reading::reading_sound(f),
        tiles(f),
        0 <= i <= f.rows.len(),
        head.len() == FRAME_HEADER_SIZE,
        frame == head + strips::joined(f.strips, f.rows.len() as int),
    ensures
        lint::strips_issues(frame, frame.len() as int, numbers(f), i, reading_walk(f, i)) == (
            Seq::<IssueView>::empty(),
            reading_walk(f, f.rows.len() as int),
        ),
    decreases f.rows.len() - i,
{
    if i < f.rows.len() {
        strip_step_is_clean(f, frame, head, i);
        strips_are_clean(f, frame, head, i + 1);
        assert(Seq::<IssueView>::empty() + Seq::<IssueView>::empty() =~= Seq::<IssueView>::empty());
    }
}

/// A frame made of its strips has no flaw.
pub(crate) proof fn frame_is_clean(f: FrameReading, frame: Seq<u8>)
    requires
        reading::reading_sound(f),
        tiles(f),
        f.header.flags == 0,
        f.header.width > 0,
        f.header.height > 0,
        f.header.height % 4 == 0,
        f.header.frame_length == frame.len() < 16777216,
        frame == header::frame_header_bytes(f.header) + strips::joined(
            f.strips,
            f.rows.len() as int,
        ),
    ensures
        lint::frame_report(frame).issues == Seq::<IssueView>::empty(),
        lint::frame_report(frame).strips_walked == f.rows.len(),
{
    reveal(lint::header_issues);
    reveal(lint::length_issues);
    reveal(lint::cross_issues);
    let head = header::frame_header_bytes(f.header);
    let n = f.rows.len() as int;
    header::frame_header_round_trip(f.header);
    assert(head.len() == FRAME_HEADER_SIZE);
    assert(forall|k: int| 0 <= k < 10 ==> frame[k] == head[k]);
    assert(header::frame_fields(head) == f.header);
    assert(lint::frame_numbers(frame) == numbers(f));
    strips_are_clean(f, frame, head, 0);
    assert(strips::joined(f.strips, 0).len() == 0);
    assert(lint::strips_start() == reading_walk(f, 0));
    let none = Seq::<IssueView>::empty();
    assert(lint::header_issues(numbers(f)) =~= none);
    assert(lint::length_issues(numbers(f), frame.len()) =~= none);
    assert(lint::cross_issues(numbers(f), reading_walk(f, n)) =~= none);
    assert(none + none + none + none =~= none);
    assert(lint::frame_report(frame).issues =~= none);
}

pub(crate) proof fn layout_tiles(height: u32, o: EncoderOptions)
    requires
        height > 0,
        height % 4 == 0,
        o.strip_count > 0,
    ensures
        ({
            let l = encoder::layout_of(height, o);
            &&& l.len() >= 1
            &&& l[l.len() - 1].y_bottom == height
            &&& forall|i: int| 0 < i < l.len() ==> (#[trigger] l[i]).y_top == l[i - 1].y_bottom
        }),
{
    strips::strips_tile(height as int / 4, o.strip_count as int);
}

pub(crate) proof fn put_together(width: u32, height: u32, strips: Seq<Seq<u8>>, bytes: Seq<u8>)
    requires
        strips::frame_bytes(width, height, strips) == Ok::<Seq<u8>, ErrorView>(bytes),
    ensures
        ({
            let n = strips.len();
            let body = strips::joined(strips, n as int);
            let h = strips::frame_head(width, height, n, body.len());
            &&& bytes == header::frame_header_bytes(h) + body
            &&& h.frame_length == bytes.len() < 16777216
        }),
{
}

/// An encoded frame that stands alone has no flaw.
pub proof fn intra_frame_is_clean(
    pixels: Seq<u8>,
    width: u32,
    height: u32,
    mode: PixelMode,
    o: EncoderOptions,
)
    requires
        encoder::intra_frame(pixels, width, height, mode, o) is Ok,
        width <= 65535,
        height <= 65535,
    ensures
        ({
            let report = lint::frame_report(
                encoder::intra_frame(pixels, width, height, mode, o)->Ok_0,
            );
            &&& report.issues == Seq::<IssueView>::empty()
            &&& report.strips_walked == encoder::layout_of(height, o).len()
        }),
{
    let r = rolling::fresh_roll();
    let run = encoder::whole_intra_run(pixels, width, height, mode, o, r);
    let bytes = encoder::intra_frame(pixels, width, height, mode, o)->Ok_0;
    let s = encoder::picture(pixels, width, height, mode);
    let l = encoder::layout_of(height, o);
    roundtrip::intra_reading_sound(pixels, width, height, mode, o, r, None);
    roundtrip::layout_sound(height, o);
    layout_tiles(height, o);
    let f = roundtrip::intra_reading(s, l, o, run.strips, width, height, None);
    assert(f.rows == l && f.header == strips::frame_head(
        width,
        height,
        l.len(),
        strips::joined(run.strips, l.len() as int).len(),
    ));
    assert(tiles(f)) by {
        assert forall|i: int| 0 <= i < l.len() implies (#[trigger] f.u4[i]).n >= 1 by {}
        assert forall|i: int| 0 <= i < l.len() implies (#[trigger] f.u1[i]).n >= 1 by {}
    }
    put_together(width, height, run.strips, bytes);
    frame_is_clean(f, bytes);
}

/// An encoded frame that builds on what came before has no flaw.
pub proof fn inter_frame_is_clean(c: InterScene)
    requires
        roundtrip::scene_ok(c),
        encoder::run_frame(
            c.source.width as u32,
            c.source.height as u32,
            roundtrip::scene_run(c, c.layout.len() as int),
        ) is Ok,
    ensures
        ({
            let report = lint::frame_report(
                encoder::run_frame(
                    c.source.width as u32,
                    c.source.height as u32,
                    roundtrip::scene_run(c, c.layout.len() as int),
                )->Ok_0,
            );
            &&& report.issues == Seq::<IssueView>::empty()
            &&& report.strips_walked == c.layout.len()
        }),
{
    let n = c.layout.len() as int;
    let run = roundtrip::scene_run(c, n);
    let width = c.source.width as u32;
    let height = c.source.height as u32;
    let bytes = encoder::run_frame(width, height, run)->Ok_0;
    let prev = Some(
        FrameView {
            width,
            height,
            pixel_format: CinepakPixelFormat::Rgb24,
            pts: None,
            planes: Seq::empty(),
        },
    );
    let f = roundtrip::scene_reading(c, run.strips, prev);
    roundtrip::layout_sound(height, c.options);
    layout_tiles(height, c.options);
    roundtrip::scene_run_prefix(c, n, n);
    assert forall|i: int| 0 <= i < n implies #[trigger] reading::strip_sound(f, i) by {
        roundtrip::scene_strip_sound(c, run.strips, prev, i);
    }
    assert(f.u4[0].mode == PixelMode::Yuv12);
    assert(reading::reading_sound(f));
    assert(tiles(f));
    put_together(width, height, run.strips, bytes);
    frame_is_clean(f, bytes);
}

} // verus!
