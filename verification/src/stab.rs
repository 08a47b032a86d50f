//! The sample table of a FILM file.

use vstd::prelude::*;
use crate::bits::{self, part, read32};
use crate::error::{self, invalid, CinepakError, ErrorView, Result};
use crate::film::{self, cat_tag, STAB_SIGNATURE};
use crate::text::{self, cat, cat_dec, lit};

verus! {

/// Bytes of a `STAB` chunk before its records.
pub const STAB_HEADER_SIZE: usize = 16;

/// Bytes of one sample record.
pub const SAMPLE_RECORD_SIZE: usize = 16;

/// The head of the sample table.
#[derive(Clone, Copy, Debug, PartialEq, Eq, Structural)]
pub struct StabHeader {
    /// Ticks in one second.
    pub base_frequency: u32,
    /// Number of records that follow.
    pub num_entries: u32,
}

/// Message of a chunk that ends inside its head.
pub open spec fn stab_short(len: nat) -> ErrorView {
    ErrorView::InvalidData("STAB: chunk header truncated ("@ + text::dec(len) + " < 16)"@)
}

/// Message of a chunk that is not the `STAB` chunk.
pub open spec fn stab_unsigned(t: [u8; 4]) -> ErrorView {
    ErrorView::InvalidData("STAB: expected 'STAB' signature, got "@ + film::tag_text(t))
}

/// Message of a table whose size is not a `usize`.
pub open spec fn stab_overflow(n: u32) -> ErrorView {
    ErrorView::InvalidData(
        "STAB: num_entries "@ + text::dec(n as nat) + " overflows record-table size"@,
    )
}

/// Message of a chunk whose size is not a `usize`.
pub open spec fn stab_extent() -> ErrorView {
    ErrorView::InvalidData("STAB: record-table extent overflows usize"@)
}

/// Message of a chunk that ends inside its records.
pub open spec fn stab_truncated(needed: nat, available: nat) -> ErrorView {
    ErrorView::InvalidData(
        "STAB: sample records truncated ("@ + text::dec(needed) + " needed, "@ + text::dec(available)
            + " available)"@,
    )
}

/// The head of the table in chunk `b` and the bytes of its records, or what
/// is wrong with it. The length field of the chunk has no say.
pub open spec fn stab_chunk(b: Seq<u8>) -> core::result::Result<(StabHeader, Seq<u8>), ErrorView> {
    let n = bits::be32(b, 12);
    if b.len() < STAB_HEADER_SIZE {
        Err(stab_short(b.len()))
    } else if bits::be32(b, 0) != STAB_SIGNATURE {
        Err(stab_unsigned(film::tag_at(b, 0)))
    } else if n * SAMPLE_RECORD_SIZE > usize::MAX {
        Err(stab_overflow(n))
    } else if STAB_HEADER_SIZE + n * SAMPLE_RECORD_SIZE > usize::MAX {
        Err(stab_extent())
    } else if b.len() < STAB_HEADER_SIZE + n * SAMPLE_RECORD_SIZE {
        Err(
            stab_truncated(
                (n * SAMPLE_RECORD_SIZE) as nat,
                (b.len() - STAB_HEADER_SIZE) as nat,
            ),
        )
    } else {
        Ok(
            (
                StabHeader { base_frequency: bits::be32(b, 8), num_entries: n },
                b.subrange(
                    STAB_HEADER_SIZE as int,
                    STAB_HEADER_SIZE + n * SAMPLE_RECORD_SIZE,
                ),
            ),
        )
    }
}

impl StabHeader {
    /// Reads the head of the chunk at the start of `chunk`; the slice holds
    /// the bytes of the records, and nothing after them.
    pub fn parse_chunk(chunk: &[u8]) -> (r: Result<(Self, &[u8])>)
        ensures
            match r {
                Ok((h, records)) => stab_chunk(chunk@) == Ok::<(StabHeader, Seq<u8>), ErrorView>(
                    (h, records@),
                ),
                Err(e) => stab_chunk(chunk@) == Err::<(StabHeader, Seq<u8>), ErrorView>(e@),
            },
    {
        if chunk.len() < STAB_HEADER_SIZE {
            return Err(
                CinepakError::invalid(
                    cat(
                        cat_dec(lit("STAB: chunk header truncated ("), chunk.len() as u64),
                        " < 16)",
                    ),
                ),
            );
        }
        if read32(chunk, 0) != STAB_SIGNATURE {
            return Err(
                CinepakError::invalid(
                    cat_tag(lit("STAB: expected 'STAB' signature, got "), chunk, 0),
                ),
            );
        }
        let base_frequency: u32 = read32(chunk, 8);
        let num_entries: u32 = read32(chunk, 12);
        let needed: usize = match (num_entries as usize).checked_mul(SAMPLE_RECORD_SIZE) {
            Some(n) => n,
            None => {
                return Err(
                    CinepakError::invalid(
                        cat(
                            cat_dec(lit("STAB: num_entries "), num_entries as u64),
                            " overflows record-table size",
                        ),
                    ),
                );
            },
        };
        let end: usize = match STAB_HEADER_SIZE.checked_add(needed) {
            Some(n) => n,
            None => {
                return Err(invalid("STAB: record-table extent overflows usize"));
            },
        };
        if chunk.len() < end {
            let text = cat_dec(lit("STAB: sample records truncated ("), needed as u64);
            let text = cat_dec(
                cat(text, " needed, "),
                (chunk.len() - STAB_HEADER_SIZE) as u64,
            );
            return Err(CinepakError::invalid(cat(text, " available)")));
        }
        Ok((StabHeader { base_frequency, num_entries }, part(chunk, STAB_HEADER_SIZE, end)))
    }
}

/// One record of the sample table.
#[derive(Clone, Copy, Debug, PartialEq, Eq, Structural)]
pub struct SampleRecord {
    /// Where the sample starts, counted from the end of the headers.
    pub sample_offset: u32,
    /// Bytes of the sample.
    pub sample_length: u32,
    /// All ones for audio; else the timestamp, with the top bit set for a
    /// frame that needs the one before it.
    pub sample_info_1: u32,
    /// Ticks to the next frame; one for audio.
    pub sample_info_2: u32,
}

/// Whether a record is for audio.
pub open spec fn audio(s: SampleRecord) -> bool {
    s.sample_info_1 == 0xffffffff
}

/// Whether a record is for a video frame that stands alone.
pub open spec fn key(s: SampleRecord) -> bool {
    s.sample_info_1 < 0x80000000
}

/// The timestamp of a video record.
pub open spec fn ticks(s: SampleRecord) -> u32 {
    (s.sample_info_1 % 0x80000000) as u32
}

/// The record in `b[i..]`.
pub open spec fn record_at(b: Seq<u8>, i: int) -> SampleRecord {
    SampleRecord {
        sample_offset: bits::be32(b, i),
        sample_length: bits::be32(b, i + 4),
        sample_info_1: bits::be32(b, i + 8),
        sample_info_2: bits::be32(b, i + 12),
    }
}

/// The first `n` records in `b`.
pub open spec fn records_in(b: Seq<u8>, n: nat) -> Seq<SampleRecord> {
    Seq::new(n, |i: int| record_at(b, SAMPLE_RECORD_SIZE * i))
}

impl SampleRecord {
    pub(crate) fn read(b: &[u8], i: usize) -> (r: Self)
        requires
            i + SAMPLE_RECORD_SIZE <= b@.len(),
        ensures
            r == record_at(b@, i as int),
    {
        let total: usize = b.len();
        assert(i + SAMPLE_RECORD_SIZE <= total);
        SampleRecord {
            sample_offset: read32(b, i),
            sample_length: read32(b, i + 4),
            sample_info_1: read32(b, i + 8),
            sample_info_2: read32(b, i + 12),
        }
    }

    /// Whether the sample is audio.
    pub fn is_audio(&self) -> (r: bool)
        ensures
            r == audio(*self),
    {
        self.sample_info_1 == 0xffffffff
    }

    /// Whether the sample is a video frame that stands alone.
    pub fn is_keyframe(&self) -> (r: bool)
        ensures
            r == key(*self),
            r ==> !audio(*self),
    {
        self.sample_info_1 < 0x80000000
    }

    /// The timestamp of a video sample.
    pub fn timestamp_ticks(&self) -> (r: Option<u32>)
        ensures
            r == if audio(*self) {
                None
            } else {
                Some(ticks(*self))
            },
    {
        if self.is_audio() {
            None
        } else {
            Some(self.sample_info_1 % 0x80000000)
        }
    }

    /// Ticks from a video sample to the next.
    pub fn next_frame_ticks(&self) -> (r: Option<u32>)
        ensures
            r == if audio(*self) {
                None
            } else {
                Some(self.sample_info_2)
            },
    {
        if self.is_audio() {
            None
        } else {
            Some(self.sample_info_2)
        }
    }

    /// Whether the sample is audio and its second word is one, as it must be.
    pub fn is_well_formed_audio(&self) -> (r: bool)
        ensures
            r == (audio(*self) && self.sample_info_2 == 1),
    {
        self.is_audio() && self.sample_info_2 == 1
    }
}

/// What a record is for.
#[derive(Clone, Copy, Debug, PartialEq, Eq, Structural)]
pub enum SampleKind {
    Audio { well_formed: bool },
    /// A frame that stands alone.
    VideoKeyframe { timestamp_ticks: u32, next_frame_ticks: u32 },
    /// A frame that needs the one before it.
    VideoInter { timestamp_ticks: u32, next_frame_ticks: u32 },
}

/// What record `s` is for.
pub open spec fn kind_of(s: SampleRecord) -> SampleKind {
    if audio(s) {
        SampleKind::Audio { well_formed: s.sample_info_2 == 1 }
    } else if key(s) {
        SampleKind::VideoKeyframe { timestamp_ticks: ticks(s), next_frame_ticks: s.sample_info_2 }
    } else {
        SampleKind::VideoInter { timestamp_ticks: ticks(s), next_frame_ticks: s.sample_info_2 }
    }
}

impl SampleKind {
    /// What a record is for.
    pub fn from_record(rec: SampleRecord) -> (r: Self)
        ensures
            r == kind_of(rec),
    {
        if rec.is_audio() {
            SampleKind::Audio { well_formed: rec.is_well_formed_audio() }
        } else {
            let timestamp_ticks: u32 = rec.sample_info_1 % 0x80000000;
            let next_frame_ticks: u32 = rec.sample_info_2;
            if rec.sample_info_1 < 0x80000000 {
                SampleKind::VideoKeyframe { timestamp_ticks, next_frame_ticks }
            } else {
                SampleKind::VideoInter { timestamp_ticks, next_frame_ticks }
            }
        }
    }

    /// Whether the kind is audio.
    pub fn is_audio(&self) -> (r: bool)
        ensures
            r == (*self is Audio),
    {
        matches!(self, SampleKind::Audio { .. })
    }

    /// Whether the kind is a frame that stands alone.
    pub fn is_keyframe(&self) -> (r: bool)
        ensures
            r == (*self is VideoKeyframe),
    {
        matches!(self, SampleKind::VideoKeyframe { .. })
    }

    /// Whether the kind is a frame.
    pub fn is_video(&self) -> (r: bool)
        ensures
            r == (*self is VideoKeyframe || *self is VideoInter),
    {
        matches!(self, SampleKind::VideoKeyframe { .. } | SampleKind::VideoInter { .. })
    }
}

/// A record with its place in the table and its kind.
#[derive(Clone, Copy, Debug, PartialEq, Eq, Structural)]
pub struct SampleRecordEntry {
    pub index: u32,
    pub record: SampleRecord,
    pub kind: SampleKind,
}

/// The entry of the record in `b[i..]`. An index beyond the range of `u32`
/// wraps.
pub open spec fn entry_of(b: Seq<u8>, i: int) -> SampleRecordEntry {
    SampleRecordEntry {
        index: (i / SAMPLE_RECORD_SIZE as int) as usize as u32,
        record: record_at(b, i),
        kind: kind_of(record_at(b, i)),
    }
}

/// A walk over the records of a table: all the bytes, and how many of them
/// it has passed.
pub struct SampleWalk {
    pub records: Seq<u8>,
    pub cursor: int,
}

/// One step of the walk.
pub open spec fn next_sample(s: SampleWalk) -> (SampleWalk, Option<SampleRecordEntry>) {
    if s.cursor + SAMPLE_RECORD_SIZE > s.records.len() {
        (s, None)
    } else {
        (
            SampleWalk { cursor: s.cursor + SAMPLE_RECORD_SIZE, ..s },
            Some(entry_of(s.records, s.cursor)),
        )
    }
}

/// The entries that the rest of the walk yields.
pub open spec fn samples_left(s: SampleWalk) -> Seq<SampleRecordEntry>
    decreases s.records.len() - s.cursor,
{
    if s.cursor + SAMPLE_RECORD_SIZE > s.records.len() {
        Seq::empty()
    } else {
        seq![entry_of(s.records, s.cursor)] + samples_left(next_sample(s).0)
    }
}

/// Message of bytes that end inside a record.
pub open spec fn samples_ragged(len: nat) -> ErrorView {
    ErrorView::InvalidData(
        "STAB sample-records slice length "@ + text::dec(len) + " not a multiple of 16"@,
    )
}

/// A walk over the records of a table.
#[derive(Clone, Debug)]
pub struct Samples<'a> {
    records: &'a [u8],
    cursor: usize,
}

impl<'a> View for Samples<'a> {
    type V = SampleWalk;

    closed spec fn view(&self) -> SampleWalk {
        SampleWalk { records: self.records@, cursor: self.cursor as int }
    }
}

impl<'a> Samples<'a> {
    /// The bytes and the cursor are made of whole records.
    pub open spec fn wf(self) -> bool {
        &&& 0 <= self@.cursor <= self@.records.len()
        &&& self@.records.len() % 16 == 0
        &&& self@.cursor % 16 == 0
    }

    /// Starts a walk over the records in `records`.
    pub fn new(records: &'a [u8]) -> (r: Result<Self>)
        ensures
            match r {
                Ok(s) => records@.len() % 16 == 0 && s.wf() && s@ == (SampleWalk {
                    records: records@,
                    cursor: 0,
                }),
                Err(e) => records@.len() % 16 != 0 && e@ == samples_ragged(records@.len()),
            },
    {
        if records.len() % SAMPLE_RECORD_SIZE != 0 {
            return Err(
                CinepakError::invalid(
                    cat(
                        cat_dec(lit("STAB sample-records slice length "), records.len() as u64),
                        " not a multiple of 16",
                    ),
                ),
            );
        }
        Ok(Samples { records, cursor: 0 })
    }

    /// Number of records not yet yielded. A number beyond the range of
    /// `u32` wraps.
    pub fn remaining(&self) -> (r: u32)
        requires
            self.wf(),
        ensures
            r == ((self@.records.len() - self@.cursor) / 16) as usize as u32,
    {
        #[verifier::truncate]
        (((self.records.len() - self.cursor) / SAMPLE_RECORD_SIZE) as u32)
    }

    /// Number of bytes passed.
    pub fn cursor(&self) -> (r: usize)
        ensures
            r == self@.cursor,
    {
        self.cursor
    }

    /// Place of the next record in the table. A number beyond the range of
    /// `u32` wraps.
    pub fn next_index(&self) -> (r: u32)
        ensures
            r == (self@.cursor / 16) as usize as u32,
    {
        #[verifier::truncate]
        ((self.cursor / SAMPLE_RECORD_SIZE) as u32)
    }

    /// The bytes of all the records.
    pub fn records_bytes(&self) -> (r: &'a [u8])
        ensures
            r@ == self@.records,
    {
        self.records
    }

    /// The next record, or `None` where the walk has ended.
    pub fn next(&mut self) -> (r: Option<SampleRecordEntry>)
        requires
            old(self).wf(),
        ensures
            final(self).wf(),
            next_sample(old(self)@) == (final(self)@, r),
    {
        if self.records.len() - self.cursor < SAMPLE_RECORD_SIZE {
            return None;
        }
        let record = SampleRecord::read(self.records, self.cursor);
        let entry = SampleRecordEntry {
            index: self.next_index(),
            record,
            kind: SampleKind::from_record(record),
        };
        self.cursor = self.cursor + SAMPLE_RECORD_SIZE;
        Some(entry)
    }

    /// Lower and upper bound on the records not yet yielded.
    pub fn size_hint(&self) -> (r: (usize, Option<usize>))
        requires
            self.wf(),
        ensures
            r == (
                ((self@.records.len() - self@.cursor) / 16) as usize as u32 as usize,
                Some(((self@.records.len() - self@.cursor) / 16) as usize as u32 as usize),
            ),
    {
        let n: usize = self.remaining() as usize;
        (n, Some(n))
    }

    /// Number of records not yet yielded.
    pub fn len(&self) -> (r: usize)
        requires
            self.wf(),
        ensures
            r == ((self@.records.len() - self@.cursor) / 16) as usize as u32,
    {
        self.remaining() as usize
    }
}

/// The kind of a record agrees with what the record says of itself.
pub proof fn kind_agrees(s: SampleRecord)
    ensures
        (kind_of(s) is Audio) == audio(s),
        (kind_of(s) is VideoKeyframe) == key(s),
        (kind_of(s) is VideoInter) == (!audio(s) && !key(s)),
        key(s) ==> !audio(s),
{
}

/// A walk yields the records of the table, one after the other, each with
/// its place and its kind, and then ends.
pub proof fn samples_walk_all(b: Seq<u8>, k: nat)
    requires
        b.len() % 16 == 0,
        16 * k <= b.len(),
    ensures
        samples_left(SampleWalk { records: b, cursor: 16 * k as int }) == Seq::new(
            (b.len() / 16 - k) as nat,
            |i: int| entry_of(b, 16 * (k + i)),
        ),
    decreases b.len() - 16 * k,
{
    let s = SampleWalk { records: b, cursor: 16 * k as int };
    let want = Seq::new((b.len() / 16 - k) as nat, |i: int| entry_of(b, 16 * (k + i)));
    if 16 * k == b.len() {
        assert(want =~= Seq::empty());
    } else {
        samples_walk_all(b, k + 1);
        let rest = Seq::new(
            (b.len() / 16 - (k + 1)) as nat,
            |i: int| entry_of(b, 16 * ((k + 1) + i)),
        );
        assert(want =~= seq![entry_of(b, 16 * k as int)] + rest);
    }
}

/// A walk that has ended stays ended.
pub proof fn samples_walk_ends(s: SampleWalk)
    requires
        next_sample(s).1 is None,
    ensures
        next_sample(s).0 == s,
{
}

} // verus!
