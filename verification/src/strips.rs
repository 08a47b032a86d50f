//! Strips as bytes, and frames made of them.

use vstd::prelude::*;
use crate::bits::{put16, put_bytes};
use crate::codebook::{
    self, encode_full_chunk, Codebook, CodebookChunkKind, CodebookEntry, PixelMode, UpdateStyle,
    WhichCodebook,
};
use crate::error::{self, CinepakError, ErrorView, Result};
use crate::header::{
    self, FrameHeader, RawStripHeader, FRAME_HEADER_SIZE, STRIP_HEADER_SIZE, STRIP_ID_INTER,
    STRIP_ID_INTRA,
};
use crate::options::EncoderOptions;
use crate::planning::{self, configured_metric, PlanView, Strip, StripSource};
use crate::reclaim::{self, reclaim_stale_slots};
use crate::rolling::{
    self, emit_codebook_chunk_one, used_v1_slots, used_v4_slots, RollView, RollingCodebooks, Update,
};
use crate::text::{self, cat, cat_dec_wide, lit};
use crate::training;
use crate::vector::{
    self, encode_inter_payload, encode_mixed_intra_payload, VECTOR_CHUNK_INTER, VECTOR_CHUNK_INTRA,
};

verus! {

/// The rows of pixels that a strip covers.
#[derive(Clone, Copy, Debug, PartialEq, Eq, Structural)]
pub struct StripPlan {
    /// First row.
    pub y_top: u32,
    /// Row after the last.
    pub y_bottom: u32,
}

/// Number of strips: as many as asked for, but at least one and no more than
/// there are rows of macroblocks.
pub open spec fn strip_number(mb_rows: int, requested: int) -> int {
    if requested < 1 || mb_rows < 1 {
        1
    } else if requested > mb_rows {
        mb_rows
    } else {
        requested
    }
}

/// Rows of macroblocks before strip `i` of `n`: as evenly shared as can be,
/// with the first strips taking the remainder.
pub open spec fn rows_before(mb_rows: int, n: int, i: int) -> int {
    i * (mb_rows / n) + if i < mb_rows % n {
        i
    } else {
        mb_rows % n
    }
}

/// Strip `i` of `n`.
pub open spec fn strip_rows(mb_rows: int, n: int, i: int) -> StripPlan {
    StripPlan {
        y_top: (4 * rows_before(mb_rows, n, i)) as u32,
        y_bottom: (4 * rows_before(mb_rows, n, i + 1)) as u32,
    }
}

/// The strips of a frame.
pub open spec fn strip_layout(mb_rows: int, requested: int) -> Seq<StripPlan> {
    let n = strip_number(mb_rows, requested);
    Seq::new(n as nat, |i: int| strip_rows(mb_rows, n, i))
}

pub(crate) proof fn rows_before_step(mb_rows: int, n: int, i: int)
    requires
        0 <= mb_rows,
        1 <= n,
        0 <= i < n,
    ensures
        rows_before(mb_rows, n, i + 1) == rows_before(mb_rows, n, i) + mb_rows / n + if i < mb_rows
            % n {
            1int
        } else {
            0int
        },
        0 <= mb_rows / n,
{
    assert((i + 1) * (mb_rows / n) == i * (mb_rows / n) + mb_rows / n) by (nonlinear_arith);
    assert(0 <= mb_rows / n) by (nonlinear_arith)
        requires
            0 <= mb_rows,
            1 <= n,
    ;
}

pub(crate) proof fn rows_before_bound(mb_rows: int, n: int, i: int)
    requires
        0 <= mb_rows,
        1 <= n,
        0 <= i <= n,
    ensures
        0 <= rows_before(mb_rows, n, i) <= mb_rows,
        i == n ==> rows_before(mb_rows, n, i) == mb_rows,
    decreases n - i,
{
    let q = mb_rows / n;
    let r = mb_rows % n;
    vstd::arithmetic::div_mod::lemma_fundamental_div_mod(mb_rows, n);
    assert(0 <= r < n) by (nonlinear_arith)
        requires
            r == mb_rows % n,
            1 <= n,
    ;
    assert(0 <= q) by (nonlinear_arith)
        requires
            q == mb_rows / n,
            0 <= mb_rows,
            1 <= n,
    ;
    assert(0 <= i * q <= n * q) by (nonlinear_arith)
        requires
            0 <= i <= n,
            0 <= q,
    ;
}

/// Strips tile a frame: the first starts at the top, each starts where the
/// one before ends, the last ends at the bottom, none is empty, and no two
/// differ by more than one row of macroblocks.
#[verifier::rlimit(50)]
#[verifier::spinoff_prover]
pub proof fn strips_tile(mb_rows: int, requested: int)
    requires
        1 <= mb_rows <= 0x3fffffff,
    ensures
        ({
            let s = strip_layout(mb_rows, requested);
            &&& s.len() >= 1
            &&& s[0].y_top == 0
            &&& s[s.len() - 1].y_bottom == 4 * mb_rows
            &&& forall|i: int| 0 < i < s.len() ==> (#[trigger] s[i]).y_top == s[i - 1].y_bottom
            &&& forall|i: int|
                0 <= i < s.len() ==> (#[trigger] s[i]).y_top < s[i].y_bottom && s[i].y_top % 4 == 0
                    && s[i].y_bottom % 4 == 0
            &&& forall|i: int, j: int|
                0 <= i < s.len() && 0 <= j < s.len() ==> (#[trigger] s[i]).y_bottom - s[i].y_top
                    <= (#[trigger] s[j]).y_bottom - s[j].y_top + 4
        }),
{
    let n = strip_number(mb_rows, requested);
    let s = strip_layout(mb_rows, requested);
    let q = mb_rows / n;
    assert(q >= 1) by (nonlinear_arith)
        requires
            q == mb_rows / n,
            1 <= n <= mb_rows,
    ;
    rows_before_bound(mb_rows, n, 0);
    rows_before_bound(mb_rows, n, n);
    assert(0 * q == 0);
    assert forall|i: int| 0 <= i < n implies (#[trigger] s[i]).y_top == 4 * rows_before(mb_rows, n, i)
        && s[i].y_bottom == 4 * rows_before(mb_rows, n, i + 1) && s[i].y_bottom - s[i].y_top == 4 * (
    q + if i < mb_rows % n {
        1int
    } else {
        0int
    }) by {
        rows_before_step(mb_rows, n, i);
        rows_before_bound(mb_rows, n, i);
        rows_before_bound(mb_rows, n, i + 1);
    }
    assert forall|i: int| 0 < i < s.len() implies (#[trigger] s[i]).y_top == s[i - 1].y_bottom by {
        assert(s[i - 1].y_bottom == 4 * rows_before(mb_rows, n, (i - 1) + 1));
    }
}

/// Shares the rows of macroblocks of a frame among strips.
pub fn plan_strips(mb_rows: usize, requested: usize) -> (r: Vec<StripPlan>)
    requires
        mb_rows <= 0x3fffffff,
    ensures
        r@ == strip_layout(mb_rows as int, requested as int),
{
    let n: usize = if requested < 1 || mb_rows < 1 {
        1
    } else if requested > mb_rows {
        mb_rows
    } else {
        requested
    };
    let base: usize = mb_rows / n;
    let rem: usize = mb_rows % n;
    let mut out: Vec<StripPlan> = Vec::new();
    let mut row: usize = 0;
    let mut i: usize = 0;
    proof {
        rows_before_bound(mb_rows as int, n as int, 0);
    }
    assert(0 * (mb_rows as int / n as int) == 0);
    while i < n
        invariant
            i <= n,
            1 <= n,
            n == strip_number(mb_rows as int, requested as int),
            mb_rows <= 0x3fffffff,
            base == mb_rows as int / n as int,
            rem == mb_rows as int % n as int,
            row == rows_before(mb_rows as int, n as int, i as int),
            out@.len() == i,
            forall|j: int|
                0 <= j < i ==> #[trigger] out@[j] == strip_rows(mb_rows as int, n as int, j),
        decreases n - i,
    {
        proof {
            rows_before_step(mb_rows as int, n as int, i as int);
            rows_before_bound(mb_rows as int, n as int, i as int);
            rows_before_bound(mb_rows as int, n as int, i + 1);
        }
        let rows: usize = if i < rem {
            base + 1
        } else {
            base
        };
        out.push(StripPlan { y_top: (4 * row) as u32, y_bottom: (4 * (row + rows)) as u32 });
        row = row + rows;
        i = i + 1;
    }
    assert(out@ =~= strip_layout(mb_rows as int, requested as int));
    out
}

/// Message of a strip that is too long.
pub open spec fn strip_too_long(n: nat) -> ErrorView {
    ErrorView::Other(
        "encoder: strip exceeds 16-bit strip_size budget ("@ + text::dec(n)
            + " > 65535); reduce codebook size or split into more strips"@,
    )
}

/// Message of a frame that is too long.
pub open spec fn frame_too_long(n: nat) -> ErrorView {
    ErrorView::Other(
        "encoder: frame_length exceeds 24-bit budget ("@ + text::dec(n) + " > 16777215)"@,
    )
}

/// The header of a strip with `len` bytes of chunks.
pub open spec fn strip_head(id: u16, s: StripPlan, width: u32, len: nat) -> RawStripHeader {
    RawStripHeader {
        strip_id: id,
        strip_size: (STRIP_HEADER_SIZE + len) as u16,
        y_top: s.y_top as u16,
        x_top: 0,
        y_bottom: s.y_bottom as u16,
        x_bottom: width as u16,
    }
}

/// A strip as bytes, unless it is too long for its length field.
pub open spec fn strip_bytes(id: u16, s: StripPlan, width: u32, chunks: Seq<u8>) -> core::result::Result<
    Seq<u8>,
    ErrorView,
> {
    if STRIP_HEADER_SIZE + chunks.len() > 65535 {
        Err(strip_too_long(STRIP_HEADER_SIZE as nat + chunks.len()))
    } else {
        Ok(header::strip_header_bytes(strip_head(id, s, width, chunks.len())) + chunks)
    }
}

/// The bytes behind an outcome.
pub open spec fn bytes_outcome(r: Result<Vec<u8>>) -> core::result::Result<Seq<u8>, ErrorView> {
    match r {
        Ok(v) => Ok(v@),
        Err(e) => Err(e@),
    }
}

/// Makes a strip of its chunks.
pub fn finalise_strip(id: u16, s: &StripPlan, width: u32, chunks: &[u8]) -> (r: Result<Vec<u8>>)
    ensures
        bytes_outcome(r) == strip_bytes(id, *s, width, chunks@),
        r matches Ok(v) ==> v@.len() <= 65535,
{
    let size: u128 = STRIP_HEADER_SIZE as u128 + chunks.len() as u128;
    if size > 65535 {
        let text = cat_dec_wide(lit("encoder: strip exceeds 16-bit strip_size budget ("), size);
        return Err(
            CinepakError::other(
                cat(text, " > 65535); reduce codebook size or split into more strips"),
            ),
        );
    }
    #[verifier::truncate]
    let y_top: u16 = s.y_top as u16;
    #[verifier::truncate]
    let y_bottom: u16 = s.y_bottom as u16;
    #[verifier::truncate]
    let x_bottom: u16 = width as u16;
    let raw = RawStripHeader {
        strip_id: id,
        strip_size: size as u16,
        y_top,
        x_top: 0,
        y_bottom,
        x_bottom,
    };
    let mut head = [0u8;STRIP_HEADER_SIZE];
    raw.encode(&mut head);
    let mut out: Vec<u8> = Vec::new();
    put_bytes(&mut out, head.as_slice());
    put_bytes(&mut out, chunks);
    assert(out@ =~= header::strip_header_bytes(raw) + chunks@);
    Ok(out)
}

/// Strips one after the other.
pub open spec fn joined(strips: Seq<Seq<u8>>, n: int) -> Seq<u8>
    decreases n,
{
    if n <= 0 {
        Seq::empty()
    } else {
        joined(strips, n - 1) + strips[n - 1]
    }
}

/// The header of a frame with `n` strips and `len` bytes of them.
pub open spec fn frame_head(width: u32, height: u32, n: nat, len: nat) -> FrameHeader {
    FrameHeader {
        flags: 0,
        frame_length: (FRAME_HEADER_SIZE + len) as u32,
        width: width as u16,
        height: height as u16,
        strip_count: n as u16,
    }
}

/// A frame as bytes, unless it is too long for its length field.
pub open spec fn frame_bytes(width: u32, height: u32, strips: Seq<Seq<u8>>) -> core::result::Result<
    Seq<u8>,
    ErrorView,
> {
    let body = joined(strips, strips.len() as int);
    if FRAME_HEADER_SIZE + body.len() > 0xffffff {
        Err(frame_too_long(FRAME_HEADER_SIZE as nat + body.len()))
    } else {
        Ok(header::frame_header_bytes(frame_head(width, height, strips.len(), body.len())) + body)
    }
}

/// The sequences behind a list of strips.
pub open spec fn strip_views(v: Seq<Vec<u8>>) -> Seq<Seq<u8>> {
    Seq::new(v.len(), |i: int| v[i]@)
}

fn join(strips: &Vec<Vec<u8>>) -> (r: Vec<u8>)
    ensures
        r@ == joined(strip_views(strips@), strips@.len() as int),
{
    let ghost v = strip_views(strips@);
    let mut out: Vec<u8> = Vec::new();
    let mut i: usize = 0;
    while i < strips.len()
        invariant
            i <= strips@.len(),
            v == strip_views(strips@),
            out@ == joined(v, i as int),
        decreases strips@.len() - i,
    {
        put_bytes(&mut out, strips[i].as_slice());
        i = i + 1;
    }
    out
}

/// Makes a frame of its strips.
pub fn assemble_frame(width: u32, height: u32, strips: &Vec<Vec<u8>>) -> (r: Result<Vec<u8>>)
    requires
        strips@.len() <= 65535,
    ensures
        bytes_outcome(r) == frame_bytes(width, height, strip_views(strips@)),
        r matches Ok(v) ==> v@.len() <= 0xffffff,
{
    let body = join(strips);
    let size: u128 = FRAME_HEADER_SIZE as u128 + body.len() as u128;
    if size > 0xffffff {
        let text = cat_dec_wide(lit("encoder: frame_length exceeds 24-bit budget ("), size);
        return Err(CinepakError::other(cat(text, " > 16777215)")));
    }
    #[verifier::truncate]
    let w: u16 = width as u16;
    #[verifier::truncate]
    let h: u16 = height as u16;
    let header = FrameHeader {
        flags: 0,
        frame_length: size as u32,
        width: w,
        height: h,
        strip_count: strips.len() as u16,
    };
    let mut head = [0u8;FRAME_HEADER_SIZE];
    header.encode(&mut head);
    let mut out: Vec<u8> = Vec::new();
    put_bytes(&mut out, head.as_slice());
    put_bytes(&mut out, body.as_slice());
    assert(out@ =~= header::frame_header_bytes(header) + body@);
    Ok(out)
}

fn put_vector_chunk(out: &mut Vec<u8>, id: u16, payload: &[u8])
    ensures
        final(out)@ == old(out)@ + codebook::chunk_bytes(id, payload@),
{
    let ghost before = out@;
    #[verifier::truncate]
    let size: u16 = (4u128 + payload.len() as u128) as u16;
    put16(out, id);
    put16(out, size);
    put_bytes(out, payload);
    assert(out@ =~= before + codebook::chunk_bytes(id, payload@));
}

/// The kind of a full update.
pub open spec fn full_kind(which: WhichCodebook, mode: PixelMode) -> CodebookChunkKind {
    CodebookChunkKind { which, style: UpdateStyle::Full, mode }
}

/// The chunks of a strip that stands alone: both codebooks in full, then the
/// macroblocks.
pub open spec fn intra_chunks(mode: PixelMode, o: EncoderOptions, p: PlanView) -> Seq<u8> {
    codebook::full_chunk(full_kind(WhichCodebook::V4, mode), p.v4, o.v4_entries as nat) + codebook::full_chunk(
        full_kind(WhichCodebook::V1, mode),
        p.v1,
        o.v1_entries as nat,
    ) + codebook::chunk_bytes(VECTOR_CHUNK_INTRA, vector::intra_bytes(p.mbs))
}

/// The rows of a strip.
pub open spec fn rows_of(x: StripSource) -> StripPlan {
    StripPlan { y_top: x.top as u32, y_bottom: x.bottom as u32 }
}

/// A strip that stands alone, as bytes.
pub open spec fn intra_strip(x: StripSource, o: EncoderOptions) -> core::result::Result<
    Seq<u8>,
    ErrorView,
> {
    strip_bytes(
        STRIP_ID_INTRA,
        rows_of(x),
        x.picture.width as u32,
        intra_chunks(x.picture.mode, o, planning::strip_plan(x, o, None, None)),
    )
}

/// The state of the codebooks after a strip that stands alone.
pub open spec fn intra_roll(x: StripSource, o: EncoderOptions, r: RollView) -> RollView {
    let p = planning::strip_plan(x, o, None, None);
    rolling::with_held(
        rolling::with_held(r, WhichCodebook::V4, p.v4, o.v4_entries as nat),
        WhichCodebook::V1,
        p.v1,
        o.v1_entries as nat,
    )
}

proof fn polished_without_skip(x: StripSource, o: EncoderOptions, p: PlanView, rounds: nat)
    requires
        x.prev is None,
        vector::no_skip(p.mbs),
    ensures
        vector::no_skip(planning::polished(x, o, p, rounds).mbs),
    decreases rounds,
{
    if rounds > 0 {
        let v4 = planning::fitted_v4(x, p.mbs, p.v4);
        let v1 = planning::fitted_v1(x, p.mbs, p.v1);
        reveal(planning::choice);
        polished_without_skip(
            x,
            o,
            PlanView { v4, v1, mbs: planning::choices(x, o, v4, v1) },
            (rounds - 1) as nat,
        );
    }
}

/// Without a previous frame no macroblock is skipped.
pub proof fn plan_without_skip(
    x: StripSource,
    o: EncoderOptions,
    seed4: Option<Seq<CodebookEntry>>,
    seed1: Option<Seq<CodebookEntry>>,
)
    requires
        x.prev is None,
    ensures
        vector::no_skip(planning::strip_plan(x, o, seed4, seed1).mbs),
{
    reveal(planning::strip_plan);
    reveal(planning::choice);
    let v4 = crate::planning::first_v4(x, o, seed4);
    let v1 = crate::planning::first_v1(x, o, seed1);
    polished_without_skip(
        x,
        o,
        PlanView { v4, v1, mbs: planning::choices(x, o, v4, v1) },
        o.pcl_max_iter as nat,
    );
}

/// Encodes a strip that stands alone.
pub fn encode_intra_strip(strip: &Strip, o: &EncoderOptions, roll: &mut RollingCodebooks) -> (r: Result<
    Vec<u8>,
>)
    requires
        planning::strip_fits(strip@),
        strip@.prev is None,
        1 <= o.v4_entries <= 256,
        1 <= o.v1_entries <= 256,
        old(roll).wf(),
    ensures
        bytes_outcome(r) == intra_strip(strip@, *o),
        final(roll)@ == intra_roll(strip@, *o, old(roll)@),
        final(roll).wf(),
        r matches Ok(v) ==> v@.len() <= 65535,
{
    let mode = strip.picture.mode;
    let plan = strip.build_codebooks_and_decisions(o, None, None);
    let mut chunks: Vec<u8> = Vec::new();
    encode_full_chunk(
        CodebookChunkKind { which: WhichCodebook::V4, style: UpdateStyle::Full, mode },
        &plan.v4_cb,
        o.v4_entries as usize,
        &mut chunks,
    );
    encode_full_chunk(
        CodebookChunkKind { which: WhichCodebook::V1, style: UpdateStyle::Full, mode },
        &plan.v1_cb,
        o.v1_entries as usize,
        &mut chunks,
    );
    let mut payload: Vec<u8> = Vec::new();
    proof {
        plan_without_skip(strip@, *o, None, None);
    }
    let _ = encode_mixed_intra_payload(plan.mbs.as_slice(), &mut payload);
    assert(payload@ =~= vector::intra_bytes(plan.mbs@));
    put_vector_chunk(&mut chunks, VECTOR_CHUNK_INTRA, payload.as_slice());
    assert(chunks@ =~= intra_chunks(mode, *o, plan@));
    let s = StripPlan { y_top: strip.top, y_bottom: strip.bottom };
    let width: u32 = strip.picture.width;
    roll.set(WhichCodebook::V4, plan.v4_cb, o.v4_entries as usize);
    roll.set(WhichCodebook::V1, plan.v1_cb, o.v1_entries as usize);
    finalise_strip(STRIP_ID_INTRA, &s, width, chunks.as_slice())
}

/// The former codebook that a strip starts from, and the entries in it that
/// were given new values.
pub open spec fn strip_seed(
    samples: Seq<CodebookEntry>,
    mode: PixelMode,
    o: EncoderOptions,
    r: RollView,
    which: WhichCodebook,
    n: int,
    seeding: bool,
) -> (Option<Seq<CodebookEntry>>, Seq<u8>) {
    match rolling::held_of_size(r, which, n as nat) {
        Some(cb) => if !seeding {
            (None, Seq::empty())
        } else {
            match o.stale_slot_threshold {
                Some(t) => {
                    let m = planning::metric_of(mode, o);
                    let c = reclaim::reclaimed(m, samples, cb, n, rolling::stale(r, which), t);
                    (Some(c.0), c.1)
                },
                None => (Some(cb), Seq::empty()),
            }
        },
        None => (None, Seq::empty()),
    }
}

/// The plan for a strip that builds on what came before, and the entries
/// that were given new values for it.
pub open spec fn inter_plan(x: StripSource, o: EncoderOptions, r: RollView, seeding: bool) -> (
    PlanView,
    Seq<u8>,
    Seq<u8>,
) {
    let mode = x.picture.mode;
    let (seed4, new4) = strip_seed(
        planning::kept_quads(x, planning::mb_total(x)),
        mode,
        o,
        r,
        WhichCodebook::V4,
        o.v4_entries as int,
        seeding,
    );
    let (seed1, new1) = strip_seed(
        planning::kept_singles(x, planning::mb_total(x)),
        mode,
        o,
        r,
        WhichCodebook::V1,
        o.v1_entries as int,
        seeding,
    );
    (planning::strip_plan(x, o, seed4, seed1), new4, new1)
}

/// What came of a strip that builds on what came before.
pub struct InterView {
    pub bytes: core::result::Result<Seq<u8>, ErrorView>,
    pub roll: RollView,
    pub used_v4: Seq<bool>,
    pub used_v1: Seq<bool>,
    pub reclaimed_v4: Seq<u8>,
    pub reclaimed_v1: Seq<u8>,
}

/// The V4 update of a strip.
pub open spec fn v4_update(
    x: StripSource,
    o: EncoderOptions,
    p: PlanView,
    selective: bool,
    force_full: bool,
) -> Update {
    Update {
        mode: x.picture.mode,
        which: WhichCodebook::V4,
        cb: p.v4,
        n: o.v4_entries as nat,
        selective,
        used: rolling::used_v4(p.mbs),
        force_full,
    }
}

/// The V1 update of a strip.
pub open spec fn v1_update(
    x: StripSource,
    o: EncoderOptions,
    p: PlanView,
    selective: bool,
    force_full: bool,
) -> Update {
    Update {
        mode: x.picture.mode,
        which: WhichCodebook::V1,
        cb: p.v1,
        n: o.v1_entries as nat,
        selective,
        used: rolling::used_v1(p.mbs),
        force_full,
    }
}

/// A strip that builds on what came before: codebook updates as needed, then
/// the macroblocks.
#[verifier::opaque]
pub open spec fn inter_strip(
    x: StripSource,
    o: EncoderOptions,
    r: RollView,
    selective: bool,
    seeding: bool,
) -> InterView {
    let (p, new4, new1) = inter_plan(x, o, r, seeding);
    let e4 = rolling::emitted(v4_update(x, o, p, selective, new4.len() > 0), r);
    let r4 = rolling::with_held(r, WhichCodebook::V4, e4.1, o.v4_entries as nat);
    let e1 = rolling::emitted(v1_update(x, o, p, selective, new1.len() > 0), r4);
    let r1 = rolling::with_held(r4, WhichCodebook::V1, e1.1, o.v1_entries as nat);
    let s4 = rolling::with_stale(
        r1,
        WhichCodebook::V4,
        rolling::renewed(rolling::stale(r1, WhichCodebook::V4), new4, new4.len() as int),
    );
    let s1 = rolling::with_stale(
        s4,
        WhichCodebook::V1,
        rolling::renewed(rolling::stale(s4, WhichCodebook::V1), new1, new1.len() as int),
    );
    InterView {
        bytes: strip_bytes(
            STRIP_ID_INTER,
            rows_of(x),
            x.picture.width as u32,
            e4.0 + e1.0 + codebook::chunk_bytes(VECTOR_CHUNK_INTER, vector::inter_bytes(p.mbs, false)),
        ),
        roll: s1,
        used_v4: rolling::used_v4(p.mbs),
        used_v1: rolling::used_v1(p.mbs),
        reclaimed_v4: new4,
        reclaimed_v1: new1,
    }
}

/// What came of a strip that builds on what came before.
pub struct InterStrip {
    pub bytes: Result<Vec<u8>>,
    pub used_v4: [bool; 256],
    pub used_v1: [bool; 256],
    pub reclaimed_v4: Vec<u8>,
    pub reclaimed_v1: Vec<u8>,
}

fn seed_for(
    samples: &[CodebookEntry],
    mode: PixelMode,
    o: &EncoderOptions,
    roll: &RollingCodebooks,
    which: WhichCodebook,
    n: usize,
    seeding: bool,
) -> (r: (Option<Codebook>, Vec<u8>))
    requires
        1 <= n <= 256,
        roll.wf(),
    ensures
        (rolling::owned_view(r.0), r.1@) == strip_seed(samples@, mode, *o, roll@, which, n as int, seeding),
        r.1@.len() <= 256,
{
    if !seeding {
        return (None, Vec::new());
    }
    match roll.get(which, n) {
        Some(cb) => {
            match o.stale_slot_threshold {
                Some(t) => {
                    let mut cb = cb;
                    let m = configured_metric(mode, o);
                    let s = roll.staleness(which);
                    let slots = reclaim_stale_slots(m, samples, &mut cb, n, &s, t);
                    (Some(cb), slots)
                },
                None => (Some(cb), Vec::new()),
            }
        },
        None => (None, Vec::new()),
    }
}

/// Encodes a strip that builds on what came before.
pub fn encode_inter_strip(
    strip: &Strip,
    o: &EncoderOptions,
    roll: &mut RollingCodebooks,
    selective_enabled: bool,
    cross_frame_seeding: bool,
) -> (r: InterStrip)
    requires
        planning::strip_fits(strip@),
        1 <= o.v4_entries <= 256,
        1 <= o.v1_entries <= 256,
        old(roll).wf(),
    ensures
        ({
            let v = inter_strip(strip@, *o, old(roll)@, selective_enabled, cross_frame_seeding);
            &&& bytes_outcome(r.bytes) == v.bytes
            &&& final(roll)@ == v.roll
            &&& r.used_v4@ == v.used_v4
            &&& r.used_v1@ == v.used_v1
            &&& r.reclaimed_v4@ == v.reclaimed_v4
            &&& r.reclaimed_v1@ == v.reclaimed_v1
        }),
        final(roll).wf(),
        r.reclaimed_v4@.len() <= 256,
        r.reclaimed_v1@.len() <= 256,
        r.bytes matches Ok(v) ==> v@.len() <= 65535,
{
    proof {
        reveal(inter_strip);
    }
    let mode = strip.picture.mode;
    let samples = strip.samples();
    let quads = samples.kept_quads(Ghost(strip@));
    let singles = samples.kept_singles(Ghost(strip@));
    let n4: usize = o.v4_entries as usize;
    let n1: usize = o.v1_entries as usize;
    let (seed4, new4) = seed_for(
        quads.as_slice(),
        mode,
        o,
        roll,
        WhichCodebook::V4,
        n4,
        cross_frame_seeding,
    );
    let (seed1, new1) = seed_for(
        singles.as_slice(),
        mode,
        o,
        roll,
        WhichCodebook::V1,
        n1,
        cross_frame_seeding,
    );
    let plan = strip.build_codebooks_and_decisions(o, seed4.as_ref(), seed1.as_ref());
    let v4_used = used_v4_slots(plan.mbs.as_slice());
    let v1_used = used_v1_slots(plan.mbs.as_slice());
    let mut chunks: Vec<u8> = Vec::new();
    emit_codebook_chunk_one(
        mode,
        WhichCodebook::V4,
        &plan.v4_cb,
        n4,
        roll,
        selective_enabled,
        &v4_used,
        new4.len() > 0,
        &mut chunks,
    );
    let ghost c4 = chunks@;
    emit_codebook_chunk_one(
        mode,
        WhichCodebook::V1,
        &plan.v1_cb,
        n1,
        roll,
        selective_enabled,
        &v1_used,
        new1.len() > 0,
        &mut chunks,
    );
    roll.reset_staleness(WhichCodebook::V4, new4.as_slice());
    roll.reset_staleness(WhichCodebook::V1, new1.as_slice());
    let mut payload: Vec<u8> = Vec::new();
    let _ = encode_inter_payload(plan.mbs.as_slice(), &mut payload);
    assert(payload@ =~= vector::inter_bytes(plan.mbs@, false));
    let ghost before = chunks@;
    put_vector_chunk(&mut chunks, VECTOR_CHUNK_INTER, payload.as_slice());
    assert(Seq::<u8>::empty() + c4 =~= c4);
    let s = StripPlan { y_top: strip.top, y_bottom: strip.bottom };
    let bytes = finalise_strip(STRIP_ID_INTER, &s, strip.picture.width, chunks.as_slice());
    InterStrip {
        bytes,
        used_v4: v4_used,
        used_v1: v1_used,
        reclaimed_v4: new4,
        reclaimed_v1: new1,
    }
}

} // verus!
