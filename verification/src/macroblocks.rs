//! Walks over the macroblocks of a vector chunk, one at a time.

use vstd::prelude::*;
use crate::bits::{self, read32, test_bit};
use crate::codebook::CodebookEntry;
use crate::error::{self, invalid, CinepakError, ErrorView, Result};
use crate::text::{self, cat, cat_dec, lit};
use crate::vector::{self, read_group, scan_word, v1_only_length_error, Coding, Mb};
use crate::yuv::{self, expand_v1_mb_rgb, expand_v4_mb_rgb};

verus! {

/// One macroblock of a V1-only chunk.
#[derive(Clone, Copy, Debug, PartialEq, Eq, Structural)]
pub struct V1MacroblockEntry {
    /// Position in the strip; the low 16 bits.
    pub index: u16,
    /// Index into the V1 codebook.
    pub codebook_index: u8,
}

/// Where a walk over a V1-only chunk stands.
pub struct V1Walk {
    pub payload: Seq<u8>,
    pub count: int,
    pub cursor: int,
}

/// What a walk over a V1-only chunk yields next, and where it stands then.
pub open spec fn next_v1(w: V1Walk) -> (Option<V1MacroblockEntry>, V1Walk) {
    if w.cursor >= w.count {
        (None, w)
    } else {
        (
            Some(
                V1MacroblockEntry {
                    index: (w.cursor as usize) as u16,
                    codebook_index: w.payload[w.cursor],
                },
            ),
            V1Walk { cursor: w.cursor + 1, ..w },
        )
    }
}

/// A walk over the macroblocks of a V1-only chunk.
#[derive(Debug)]
pub struct V1OnlyMacroblocks<'a> {
    payload: &'a [u8],
    mb_count: usize,
    cursor: usize,
}

impl<'a> View for V1OnlyMacroblocks<'a> {
    type V = V1Walk;

    closed spec fn view(&self) -> V1Walk {
        V1Walk {
            payload: self.payload@,
            count: self.mb_count as int,
            cursor: self.cursor as int,
        }
    }
}

impl<'a> V1OnlyMacroblocks<'a> {
    /// There is one index for each macroblock, and the walk lies in them.
    pub open spec fn wf(self) -> bool {
        0 <= self@.cursor <= self@.count == self@.payload.len()
    }

    /// Starts a walk; the payload must hold one byte for each macroblock.
    pub fn new(payload: &'a [u8], mb_count: usize) -> (r: Result<Self>)
        ensures
            match r {
                Ok(w) => payload@.len() == mb_count && w.wf() && w@ == (V1Walk {
                    payload: payload@,
                    count: mb_count as int,
                    cursor: 0,
                }),
                Err(e) => payload@.len() != mb_count && e@ == vector::v1_only_length(
                    payload@.len(),
                    mb_count as nat,
                ),
            },
    {
        if payload.len() != mb_count {
            return Err(v1_only_length_error(payload.len(), mb_count));
        }
        Ok(V1OnlyMacroblocks { payload, mb_count, cursor: 0 })
    }

    /// Number of macroblocks yielded so far, and of bytes read.
    pub fn cursor(&self) -> (r: usize)
        ensures
            r == self@.cursor,
    {
        self.cursor
    }

    /// Number of macroblocks still to come.
    pub fn remaining(&self) -> (r: usize)
        requires
            self.wf(),
        ensures
            r == self@.count - self@.cursor,
    {
        self.mb_count.saturating_sub(self.cursor)
    }

    /// Number of macroblocks in all.
    pub fn mb_count(&self) -> (r: usize)
        ensures
            r == self@.count,
    {
        self.mb_count
    }

    /// The payload that is walked over.
    pub fn payload(&self) -> (r: &'a [u8])
        ensures
            r@ == self@.payload,
    {
        self.payload
    }

    /// The next macroblock, or `None` at the end.
    pub fn next(&mut self) -> (r: Option<Result<V1MacroblockEntry>>)
        requires
            old(self).wf(),
        ensures
            final(self).wf(),
            final(self)@ == next_v1(old(self)@).1,
            match next_v1(old(self)@).0 {
                None => r is None,
                Some(e) => r matches Some(Ok(got)) && got == e,
            },
    {
        if self.cursor >= self.mb_count {
            return None;
        }
        let entry = V1MacroblockEntry {
            index: #[verifier::truncate]
            (self.cursor as u16),
            codebook_index: self.payload[self.cursor],
        };
        self.cursor = self.cursor + 1;
        Some(Ok(entry))
    }

    /// Bounds on the number of macroblocks still to come.
    pub fn size_hint(&self) -> (r: (usize, Option<usize>))
        requires
            self.wf(),
        ensures
            r.0 == self@.count - self@.cursor,
            r.1 == Some(r.0),
    {
        let remaining: usize = self.remaining();
        (remaining, Some(remaining))
    }

    /// Number of macroblocks still to come.
    pub fn len(&self) -> (r: usize)
        requires
            self.wf(),
        ensures
            r == self@.count - self@.cursor,
    {
        self.remaining()
    }
}

/// How one macroblock of an intra chunk is coded.
#[derive(Clone, Copy, Debug, PartialEq, Eq)]
pub enum MixedIntraMb {
    V1(u8),
    V4([u8; 4]),
}

/// One macroblock of an intra chunk.
#[derive(Clone, Copy, Debug, PartialEq, Eq)]
pub struct MixedIntraEntry {
    /// Position in the strip; the low 16 bits.
    pub index: u16,
    /// The macroblock's coding.
    pub kind: MixedIntraMb,
}

/// Where a walk over an intra chunk stands.
pub struct IntraWalk {
    pub payload: Seq<u8>,
    /// Macroblocks in all.
    pub count: int,
    /// Offset of the next byte.
    pub cursor: int,
    /// Index of the next macroblock.
    pub next: int,
    /// Codings of the current group's macroblocks that are still to come.
    pub kinds: Seq<Coding>,
    /// Whether the walk has met an error.
    pub fused: bool,
}

/// The walk over an intra chunk, at its start.
pub open spec fn intra_walk(payload: Seq<u8>, count: nat) -> IntraWalk {
    IntraWalk {
        payload,
        count: count as int,
        cursor: 0,
        next: 0,
        kinds: Seq::empty(),
        fused: false,
    }
}

/// The message that `what` is missing at a byte offset.
pub open spec fn at_byte(what: Seq<char>, p: int, len: nat) -> Seq<char> {
    what + " at byte "@ + text::dec(p as nat) + "/"@ + text::dec(len)
}

/// The message of an intra macroblock whose indices are missing.
pub open spec fn intra_walk_short(c: Coding, p: int, len: nat, mb: int) -> ErrorView {
    ErrorView::InvalidData(
        at_byte(
            match c {
                Coding::V4 => "0x3000 truncated mid-V4-index"@,
                _ => "0x3000 truncated mid-V1-index"@,
            },
            p,
            len,
        ) + " (mb "@ + text::dec(mb as nat) + ")"@,
    )
}

/// The intra coding of a macroblock.
pub open spec fn as_intra(mb: Mb) -> MixedIntraMb {
    match mb {
        Mb::V4(i) => MixedIntraMb::V4(i),
        Mb::V1(i) => MixedIntraMb::V1(i),
        Mb::Skip => MixedIntraMb::V1(0),
    }
}

/// What a walk over an intra chunk yields next, and where it stands then.
pub open spec fn next_intra(w: IntraWalk) -> (
    Option<core::result::Result<MixedIntraEntry, ErrorView>>,
    IntraWalk,
) {
    if w.fused || w.next >= w.count {
        (None, w)
    } else if w.kinds.len() == 0 && w.payload.len() - w.cursor < 4 {
        (
            Some(
                Err(
                    ErrorView::InvalidData(
                        at_byte("0x3000 truncated mid-flag-word"@, w.cursor, w.payload.len()),
                    ),
                ),
            ),
            IntraWalk { fused: true, ..w },
        )
    } else {
        let w = if w.kinds.len() == 0 {
            IntraWalk {
                kinds: vector::intra_kinds(
                    bits::be32(w.payload, w.cursor),
                    vector::intra_group_len((w.count - w.next) as nat),
                ),
                cursor: w.cursor + 4,
                ..w
            }
        } else {
            w
        };
        let c = w.kinds[0];
        let rest = w.kinds.subrange(1, w.kinds.len() as int);
        if w.payload.len() - w.cursor < vector::index_len(c) {
            (
                Some(Err(intra_walk_short(c, w.cursor, w.payload.len(), w.next))),
                IntraWalk { fused: true, kinds: rest, ..w },
            )
        } else {
            (
                Some(
                    Ok(
                        MixedIntraEntry {
                            index: (w.next as usize) as u16,
                            kind: as_intra(vector::mb_at(c, w.payload, w.cursor)),
                        },
                    ),
                ),
                IntraWalk {
                    kinds: rest,
                    cursor: w.cursor + vector::index_len(c),
                    next: w.next + 1,
                    ..w
                },
            )
        }
    }
}

/// A walk over the macroblocks of an intra chunk. It ends after the asked
/// number of macroblocks or at the first error.
#[derive(Debug)]
pub struct MixedIntraMacroblocks<'a> {
    payload: &'a [u8],
    mb_count: usize,
    cursor: usize,
    next_mb: usize,
    flag: u32,
    group_len: u8,
    group_cursor: u8,
    fused: bool,
}

impl<'a> View for MixedIntraMacroblocks<'a> {
    type V = IntraWalk;

    closed spec fn view(&self) -> IntraWalk {
        IntraWalk {
            payload: self.payload@,
            count: self.mb_count as int,
            cursor: self.cursor as int,
            next: self.next_mb as int,
            kinds: vector::intra_kinds(self.flag, self.group_len as nat).subrange(
                self.group_cursor as int,
                self.group_len as int,
            ),
            fused: self.fused,
        }
    }
}

pub(crate) fn at_byte_text(what: &str, p: usize, len: usize) -> (r: String)
    requires
        p <= len,
    ensures
        r@ == at_byte(what@, p as int, len as nat),
{
    cat_dec(cat(cat_dec(cat(lit(what), " at byte "), p as u64), "/"), len as u64)
}

impl<'a> MixedIntraMacroblocks<'a> {
    /// The walk lies in the payload and in the strip.
    pub closed spec fn wf(self) -> bool {
        &&& self.cursor <= self.payload@.len()
        &&& self.next_mb <= self.mb_count
        &&& self.group_cursor <= self.group_len <= 32
        &&& self.next_mb + (self.group_len - self.group_cursor) <= self.mb_count
    }

    /// What well-formedness says of the position.
    pub proof fn wf_position(self)
        requires
            self.wf(),
        ensures
            0 <= self@.cursor <= self@.payload.len(),
            0 <= self@.next <= self@.count,
    {
    }

    /// Starts a walk over `mb_count` macroblocks.
    pub fn new(payload: &'a [u8], mb_count: usize) -> (r: Self)
        ensures
            r.wf(),
            r@ == intra_walk(payload@, mb_count as nat),
    {
        let r = MixedIntraMacroblocks {
            payload,
            mb_count,
            cursor: 0,
            next_mb: 0,
            flag: 0,
            group_len: 0,
            group_cursor: 0,
            fused: false,
        };
        assert(r@.kinds =~= Seq::empty());
        r
    }

    /// Number of bytes read.
    pub fn cursor(&self) -> (r: usize)
        ensures
            r == self@.cursor,
    {
        self.cursor
    }

    /// Number of macroblocks that were not yielded yet.
    pub fn remaining(&self) -> (r: usize)
        requires
            self.wf(),
        ensures
            r == self@.count - self@.next,
    {
        self.mb_count.saturating_sub(self.next_mb)
    }

    /// Number of macroblocks in all.
    pub fn mb_count(&self) -> (r: usize)
        ensures
            r == self@.count,
    {
        self.mb_count
    }

    /// The payload that is walked over.
    pub fn payload(&self) -> (r: &'a [u8])
        ensures
            r@ == self@.payload,
    {
        self.payload
    }

    /// Reads the flag word of the next group.
    fn load_next_group(&mut self) -> (r: Result<()>)
        requires
            old(self).wf(),
            !old(self)@.fused,
            old(self)@.kinds.len() == 0,
            old(self)@.next < old(self)@.count,
        ensures
            final(self).wf(),
            match r {
                Ok(_) => old(self)@.payload.len() - old(self)@.cursor >= 4 && final(self)@ == (
                IntraWalk {
                    kinds: vector::intra_kinds(
                        bits::be32(old(self)@.payload, old(self)@.cursor),
                        vector::intra_group_len((old(self)@.count - old(self)@.next) as nat),
                    ),
                    cursor: old(self)@.cursor + 4,
                    ..old(self)@
                }),
                Err(e) => {
                    &&& old(self)@.payload.len() - old(self)@.cursor < 4
                    &&& final(self)@ == old(self)@
                    &&& e@ == ErrorView::InvalidData(
                        at_byte(
                            "0x3000 truncated mid-flag-word"@,
                            old(self)@.cursor,
                            old(self)@.payload.len(),
                        ),
                    )
                },
            },
    {
        if self.payload.len() - self.cursor < 4 {
            return Err(
                CinepakError::invalid(
                    at_byte_text(
                        "0x3000 truncated mid-flag-word",
                        self.cursor,
                        self.payload.len(),
                    ),
                ),
            );
        }
        let left: usize = self.mb_count - self.next_mb;
        self.flag = read32(self.payload, self.cursor);
        self.cursor = self.cursor + 4;
        self.group_len = if left < 32 {
            left as u8
        } else {
            32
        };
        self.group_cursor = 0;
        assert(self@.kinds =~= vector::intra_kinds(self.flag, self.group_len as nat));
        Ok(())
    }

    /// The next macroblock, an error, or `None` where the walk has ended.
    pub fn next(&mut self) -> (r: Option<Result<MixedIntraEntry>>)
        requires
            old(self).wf(),
        ensures
            final(self).wf(),
            final(self)@ == next_intra(old(self)@).1,
            match r {
                None => next_intra(old(self)@).0 is None,
                Some(got) => next_intra(old(self)@).0 == Some(error::outcome(got)),
            },
    {
        if self.fused {
            return None;
        }
        if self.next_mb >= self.mb_count {
            return None;
        }
        if self.group_cursor >= self.group_len {
            match self.load_next_group() {
                Err(e) => {
                    self.fused = true;
                    return Some(Err(e));
                },
                Ok(_) => {},
            }
        }
        let ghost w = self@;
        let is_v4 = test_bit(self.flag, self.group_cursor as u32);
        assert(w.kinds[0] == if is_v4 {
            Coding::V4
        } else {
            Coding::V1
        });
        self.group_cursor = self.group_cursor + 1;
        assert(self@.kinds =~= w.kinds.subrange(1, w.kinds.len() as int));
        let need: usize = if is_v4 {
            4
        } else {
            1
        };
        if self.payload.len() - self.cursor < need {
            self.fused = true;
            let what = if is_v4 {
                "0x3000 truncated mid-V4-index"
            } else {
                "0x3000 truncated mid-V1-index"
            };
            return Some(
                Err(
                    CinepakError::invalid(
                        cat(
                            cat_dec(
                                cat(
                                    at_byte_text(what, self.cursor, self.payload.len()),
                                    " (mb ",
                                ),
                                self.next_mb as u64,
                            ),
                            ")",
                        ),
                    ),
                ),
            );
        }
        let p: usize = self.cursor;
        let kind = if is_v4 {
            MixedIntraMb::V4(
                [self.payload[p], self.payload[p + 1], self.payload[p + 2], self.payload[p + 3]],
            )
        } else {
            MixedIntraMb::V1(self.payload[p])
        };
        self.cursor = p + need;
        let entry = MixedIntraEntry {
            index: #[verifier::truncate]
            (self.next_mb as u16),
            kind,
        };
        self.next_mb = self.next_mb + 1;
        Some(Ok(entry))
    }

    /// Bounds on the number of macroblocks still to come.
    pub fn size_hint(&self) -> (r: (usize, Option<usize>))
        requires
            self.wf(),
        ensures
            r.0 == if self@.fused {
                0
            } else {
                self@.count - self@.next
            },
            r.1 == Some(r.0),
    {
        if self.fused {
            return (0, Some(0));
        }
        let remaining: usize = self.remaining();
        (remaining, Some(remaining))
    }
}

/// Which codebook a macroblock's pixels come from.
#[derive(Clone, Copy, Debug, PartialEq, Eq, Structural)]
pub enum MixedIntraCoding {
    V1,
    V4,
}

/// One macroblock of an intra chunk with its place and its pixels.
#[derive(Clone, Copy, Debug, PartialEq, Eq)]
pub struct MixedIntraRgbBlock {
    /// Position in the strip; the low 16 bits.
    pub index: u16,
    /// Column in the strip's grid of macroblocks.
    pub mb_col: u16,
    /// Row in the strip's grid of macroblocks.
    pub mb_row: u16,
    /// Left edge in the strip.
    pub pixel_col: u32,
    /// Top edge in the strip.
    pub pixel_row: u32,
    /// Which codebook the pixels come from.
    pub coding: MixedIntraCoding,
    /// The pixels, as rows of colours.
    pub rgb: [[[u8; 3]; 4]; 4],
}

/// Where a walk over the pixels of an intra chunk stands.
pub struct RgbWalk {
    pub inner: IntraWalk,
    pub v1: Seq<CodebookEntry>,
    pub v4: Seq<CodebookEntry>,
    pub mb_cols: u16,
    pub fused: bool,
}

/// The message of an index that a codebook does not have.
pub open spec fn index_beyond(which: Seq<char>, i: u8, len: nat) -> ErrorView {
    ErrorView::InvalidData(
        "0x3000 "@ + which + " index "@ + text::dec(i as nat) + " exceeds codebook length "@ + text::dec(len),
    )
}

/// The first of the indices that the codebook does not have.
pub open spec fn first_beyond(idx: [u8; 4], len: nat) -> Option<u8> {
    if idx[0] >= len {
        Some(idx[0])
    } else if idx[1] >= len {
        Some(idx[1])
    } else if idx[2] >= len {
        Some(idx[2])
    } else if idx[3] >= len {
        Some(idx[3])
    } else {
        None
    }
}

/// What stops the pixels of a macroblock: an index that its codebook does
/// not have.
pub open spec fn rgb_error(w: RgbWalk, kind: MixedIntraMb) -> Option<ErrorView> {
    match kind {
        MixedIntraMb::V1(i) => if i >= w.v1.len() {
            Some(index_beyond("V1"@, i, w.v1.len()))
        } else {
            None
        },
        MixedIntraMb::V4(idx) => match first_beyond(idx, w.v4.len()) {
            Some(i) => Some(index_beyond("V4"@, i, w.v4.len())),
            None => None,
        },
    }
}

/// The four entries that the indices of a V4 macroblock name.
pub open spec fn quad_of(v4: Seq<CodebookEntry>, idx: [u8; 4]) -> Seq<CodebookEntry> {
    seq![v4[idx[0] as int], v4[idx[1] as int], v4[idx[2] as int], v4[idx[3] as int]]
}

/// Whether `b` is the macroblock `e` with its place and its pixels.
pub open spec fn is_rgb_block(w: RgbWalk, e: MixedIntraEntry, b: MixedIntraRgbBlock) -> bool {
    &&& b.index == e.index
    &&& b.mb_col == e.index % w.mb_cols
    &&& b.mb_row == e.index / w.mb_cols
    &&& b.pixel_col == 4 * b.mb_col
    &&& b.pixel_row == 4 * b.mb_row
    &&& match e.kind {
        MixedIntraMb::V1(i) => {
            &&& b.coding == MixedIntraCoding::V1
            &&& forall|r: int, c: int|
                0 <= r < 4 && 0 <= c < 4 ==> #[trigger] b.rgb[r][c] == yuv::triple(
                    yuv::v1_rgb(w.v1[i as int], r, c),
                )
        },
        MixedIntraMb::V4(idx) => {
            &&& b.coding == MixedIntraCoding::V4
            &&& forall|r: int, c: int|
                0 <= r < 4 && 0 <= c < 4 ==> #[trigger] b.rgb[r][c] == yuv::triple(
                    yuv::v4_rgb(quad_of(w.v4, idx), r, c),
                )
        },
    }
}

/// A walk over the macroblocks of an intra chunk with their pixels.
#[derive(Debug)]
pub struct MixedIntraRgbBlocks<'a> {
    inner: MixedIntraMacroblocks<'a>,
    v1: &'a [CodebookEntry],
    v4: &'a [CodebookEntry],
    mb_cols: u16,
    fused: bool,
}

impl<'a> View for MixedIntraRgbBlocks<'a> {
    type V = RgbWalk;

    closed spec fn view(&self) -> RgbWalk {
        RgbWalk {
            inner: self.inner@,
            v1: self.v1@,
            v4: self.v4@,
            mb_cols: self.mb_cols,
            fused: self.fused,
        }
    }
}

/// The message of a grid without columns.
pub open spec fn no_columns() -> ErrorView {
    ErrorView::InvalidData("0x3000 RGB walk requires a non-zero macroblock-grid width"@)
}

impl<'a> MixedIntraRgbBlocks<'a> {
    /// The walk over the macroblocks is in order and the grid has columns.
    pub closed spec fn wf(self) -> bool {
        self.inner.wf() && self.mb_cols > 0
    }

    /// Starts a walk over `mb_count` macroblocks in rows of `mb_cols`.
    pub fn new(
        payload: &'a [u8],
        v1: &'a [CodebookEntry],
        v4: &'a [CodebookEntry],
        mb_cols: u16,
        mb_count: usize,
    ) -> (r: Result<Self>)
        ensures
            match r {
                Ok(w) => mb_cols > 0 && w.wf() && w@ == (RgbWalk {
                    inner: intra_walk(payload@, mb_count as nat),
                    v1: v1@,
                    v4: v4@,
                    mb_cols,
                    fused: false,
                }),
                Err(e) => mb_cols == 0 && e@ == no_columns(),
            },
    {
        if mb_cols == 0 {
            return Err(invalid("0x3000 RGB walk requires a non-zero macroblock-grid width"));
        }
        Ok(
            MixedIntraRgbBlocks {
                inner: MixedIntraMacroblocks::new(payload, mb_count),
                v1,
                v4,
                mb_cols,
                fused: false,
            },
        )
    }

    /// Number of bytes read.
    pub fn cursor(&self) -> (r: usize)
        ensures
            r == self@.inner.cursor,
    {
        self.inner.cursor()
    }

    /// Number of macroblocks that were not read yet.
    pub fn remaining(&self) -> (r: usize)
        requires
            self.wf(),
        ensures
            r == self@.inner.count - self@.inner.next,
    {
        self.inner.remaining()
    }

    /// Number of macroblocks in all.
    pub fn mb_count(&self) -> (r: usize)
        ensures
            r == self@.inner.count,
    {
        self.inner.mb_count()
    }

    /// Columns of the grid.
    pub fn mb_cols(&self) -> (r: u16)
        ensures
            r == self@.mb_cols,
    {
        self.mb_cols
    }

    fn lookup(book: &[CodebookEntry], idx: u8, which: &str) -> (r: Result<CodebookEntry>)
        ensures
            error::outcome(r) == if idx < book@.len() {
                Ok::<CodebookEntry, ErrorView>(book@[idx as int])
            } else {
                Err(index_beyond(which@, idx, book@.len()))
            },
    {
        if (idx as usize) < book.len() {
            Ok(book[idx as usize])
        } else {
            Err(
                CinepakError::invalid(
                    cat_dec(
                        cat(
                            cat_dec(
                                cat(cat(lit("0x3000 "), which), " index "),
                                idx as u64,
                            ),
                            " exceeds codebook length ",
                        ),
                        book.len() as u64,
                    ),
                ),
            )
        }
    }

    fn lookup_quad(book: &[CodebookEntry], idx: [u8; 4]) -> (r: Result<[CodebookEntry; 4]>)
        ensures
            match r {
                Ok(q) => first_beyond(idx, book@.len()) is None && q@ == quad_of(book@, idx),
                Err(e) => first_beyond(idx, book@.len()) matches Some(i) && e@ == index_beyond(
                    "V4"@,
                    i,
                    book@.len(),
                ),
            },
    {
        let a = match Self::lookup(book, idx[0], "V4") {
            Ok(e) => e,
            Err(e) => return Err(e),
        };
        let b = match Self::lookup(book, idx[1], "V4") {
            Ok(e) => e,
            Err(e) => return Err(e),
        };
        let c = match Self::lookup(book, idx[2], "V4") {
            Ok(e) => e,
            Err(e) => return Err(e),
        };
        let d = match Self::lookup(book, idx[3], "V4") {
            Ok(e) => e,
            Err(e) => return Err(e),
        };
        let q = [a, b, c, d];
        assert(q@ =~= quad_of(book@, idx));
        Ok(q)
    }

    /// The next macroblock, an error, or `None` where the walk has ended.
    pub fn next(&mut self) -> (r: Option<Result<MixedIntraRgbBlock>>)
        requires
            old(self).wf(),
        ensures
            final(self).wf(),
            final(self)@.v1 == old(self)@.v1,
            final(self)@.v4 == old(self)@.v4,
            final(self)@.mb_cols == old(self)@.mb_cols,
            final(self)@.inner == if old(self)@.fused {
                old(self)@.inner
            } else {
                next_intra(old(self)@.inner).1
            },
            match r {
                None => {
                    &&& old(self)@.fused || next_intra(old(self)@.inner).0 is None
                    &&& final(self)@.fused == old(self)@.fused
                },
                Some(Ok(b)) => {
                    &&& !old(self)@.fused && !final(self)@.fused
                    &&& next_intra(old(self)@.inner).0 matches Some(Ok(e))
                    &&& rgb_error(old(self)@, e.kind) is None
                    &&& is_rgb_block(old(self)@, e, b)
                },
                Some(Err(err)) => {
                    &&& !old(self)@.fused && final(self)@.fused
                    &&& match next_intra(old(self)@.inner).0 {
                        Some(Ok(e)) => rgb_error(old(self)@, e.kind) == Some(err@),
                        Some(Err(e)) => err@ == e,
                        None => false,
                    }
                },
            },
    {
        if self.fused {
            return None;
        }
        let entry = match self.inner.next() {
            None => {
                return None;
            },
            Some(Ok(e)) => e,
            Some(Err(e)) => {
                self.fused = true;
                return Some(Err(e));
            },
        };
        let (coding, rgb) = match entry.kind {
            MixedIntraMb::V1(idx) => match Self::lookup(self.v1, idx, "V1") {
                Ok(e) => (MixedIntraCoding::V1, expand_v1_mb_rgb(&e)),
                Err(e) => {
                    self.fused = true;
                    return Some(Err(e));
                },
            },
            MixedIntraMb::V4(idx) => match Self::lookup_quad(self.v4, idx) {
                Ok(q) => (MixedIntraCoding::V4, expand_v4_mb_rgb(&q)),
                Err(e) => {
                    self.fused = true;
                    return Some(Err(e));
                },
            },
        };
        let mb_col: u16 = entry.index % self.mb_cols;
        let mb_row: u16 = entry.index / self.mb_cols;
        Some(
            Ok(
                MixedIntraRgbBlock {
                    index: entry.index,
                    mb_col,
                    mb_row,
                    pixel_col: 4 * (mb_col as u32),
                    pixel_row: 4 * (mb_row as u32),
                    coding,
                    rgb,
                },
            ),
        )
    }

    /// Bounds on the number of macroblocks still to come.
    pub fn size_hint(&self) -> (r: (usize, Option<usize>))
        requires
            self.wf(),
        ensures
            r.0 == if self@.fused || self@.inner.fused {
                0
            } else {
                self@.inner.count - self@.inner.next
            },
            r.1 == Some(r.0),
    {
        if self.fused {
            return (0, Some(0));
        }
        self.inner.size_hint()
    }
}

/// How one macroblock of an inter chunk is coded.
#[derive(Clone, Copy, Debug, PartialEq, Eq)]
pub enum InterMb {
    Skip,
    V1(u8),
    V4([u8; 4]),
}

/// One macroblock of an inter chunk.
#[derive(Clone, Copy, Debug, PartialEq, Eq)]
pub struct InterEntry {
    /// Position in the strip; the low 16 bits.
    pub index: u16,
    /// The macroblock's coding.
    pub kind: InterMb,
}

/// Where a walk over an inter chunk stands.
pub struct InterWalk {
    pub payload: Seq<u8>,
    /// Macroblocks in all.
    pub count: int,
    /// Offset of the next byte.
    pub cursor: int,
    /// Index of the next macroblock.
    pub next: int,
    /// The current group's macroblocks that are still to come.
    pub ready: Seq<Mb>,
    /// Whether the word read last opened a code.
    pub pending: bool,
    /// Whether the walk has met an error.
    pub fused: bool,
}

/// The walk over an inter chunk, at its start.
pub open spec fn inter_walk(payload: Seq<u8>, count: nat) -> InterWalk {
    InterWalk {
        payload,
        count: count as int,
        cursor: 0,
        next: 0,
        ready: Seq::empty(),
        pending: false,
        fused: false,
    }
}

/// The inter coding of a macroblock.
pub open spec fn as_inter(mb: Mb) -> InterMb {
    match mb {
        Mb::V4(i) => InterMb::V4(i),
        Mb::V1(i) => InterMb::V1(i),
        Mb::Skip => InterMb::Skip,
    }
}

/// The message of an inter macroblock whose indices are missing.
pub open spec fn inter_walk_short(c: Coding, p: int, len: nat) -> ErrorView {
    ErrorView::InvalidData(
        at_byte(
            match c {
                Coding::V4 => "0x3100 truncated mid-V4-index"@,
                _ => "0x3100 truncated mid-V1-index"@,
            },
            p,
            len,
        ),
    )
}

/// The walk with the next group read, or the error and the walk it leaves.
pub open spec fn load_inter(w: InterWalk) -> (InterWalk, Option<ErrorView>) {
    if w.payload.len() - w.cursor < 4 {
        (
            InterWalk { fused: true, ..w },
            Some(
                ErrorView::InvalidData(
                    at_byte("0x3100 truncated mid-flag-word"@, w.cursor, w.payload.len()),
                ),
            ),
        )
    } else {
        let (kinds, open_code) = vector::inter_kinds(
            bits::be32(w.payload, w.cursor),
            w.pending,
            (w.count - w.next) as nat,
        );
        let (mbs, q, missing) = vector::group_mbs(w.payload, w.cursor + 4, kinds, kinds.len());
        match missing {
            Some(c) => (
                InterWalk { fused: true, cursor: q, ..w },
                Some(inter_walk_short(c, q, w.payload.len())),
            ),
            None => (InterWalk { cursor: q, ready: mbs, pending: open_code, ..w }, None),
        }
    }
}

/// What a walk over an inter chunk yields next, and where it stands then.
pub open spec fn next_inter(w: InterWalk) -> (
    Option<core::result::Result<InterEntry, ErrorView>>,
    InterWalk,
) {
    if w.fused || w.next >= w.count {
        (None, w)
    } else {
        let (w1, error) = if w.ready.len() == 0 {
            load_inter(w)
        } else {
            (w, None)
        };
        match error {
            Some(e) => (Some(Err(e)), w1),
            None => (
                Some(
                    Ok(
                        InterEntry {
                            index: (w1.next as usize) as u16,
                            kind: as_inter(w1.ready[0]),
                        },
                    ),
                ),
                InterWalk {
                    ready: w1.ready.subrange(1, w1.ready.len() as int),
                    next: w1.next + 1,
                    ..w1
                },
            ),
        }
    }
}

/// A walk over the macroblocks of an inter chunk. It ends after the asked
/// number of macroblocks or at the first error.
#[derive(Debug)]
pub struct InterMacroblocks<'a> {
    payload: &'a [u8],
    mb_count: usize,
    cursor: usize,
    next_mb: usize,
    group: Vec<Mb>,
    group_cursor: usize,
    pending: bool,
    fused: bool,
}

impl<'a> View for InterMacroblocks<'a> {
    type V = InterWalk;

    closed spec fn view(&self) -> InterWalk {
        InterWalk {
            payload: self.payload@,
            count: self.mb_count as int,
            cursor: self.cursor as int,
            next: self.next_mb as int,
            ready: self.group@.subrange(self.group_cursor as int, self.group@.len() as int),
            pending: self.pending,
            fused: self.fused,
        }
    }
}

impl<'a> InterMacroblocks<'a> {
    /// The walk lies in the payload and in the strip, and a code that was
    /// opened belongs to a macroblock of the strip.
    pub closed spec fn wf(self) -> bool {
        &&& self.cursor <= self.payload@.len()
        &&& self.next_mb <= self.mb_count
        &&& self.group_cursor <= self.group@.len()
        &&& self.next_mb + (self.group@.len() - self.group_cursor) <= self.mb_count
        &&& self.pending ==> self.next_mb + (self.group@.len() - self.group_cursor)
            < self.mb_count
    }

    /// What well-formedness says of the position.
    pub proof fn wf_position(self)
        requires
            self.wf(),
        ensures
            0 <= self@.cursor <= self@.payload.len(),
            0 <= self@.next <= self@.count,
    {
    }

    /// Starts a walk over `mb_count` macroblocks.
    pub fn new(payload: &'a [u8], mb_count: usize) -> (r: Self)
        ensures
            r.wf(),
            r@ == inter_walk(payload@, mb_count as nat),
    {
        let r = InterMacroblocks {
            payload,
            mb_count,
            cursor: 0,
            next_mb: 0,
            group: Vec::new(),
            group_cursor: 0,
            pending: false,
            fused: false,
        };
        assert(r@.ready =~= Seq::empty());
        r
    }

    /// Number of bytes read.
    pub fn cursor(&self) -> (r: usize)
        ensures
            r == self@.cursor,
    {
        self.cursor
    }

    /// Number of macroblocks that were not yielded yet.
    pub fn remaining(&self) -> (r: usize)
        requires
            self.wf(),
        ensures
            r == self@.count - self@.next,
    {
        self.mb_count.saturating_sub(self.next_mb)
    }

    /// Number of macroblocks in all.
    pub fn mb_count(&self) -> (r: usize)
        ensures
            r == self@.count,
    {
        self.mb_count
    }

    /// The payload that is walked over.
    pub fn payload(&self) -> (r: &'a [u8])
        ensures
            r@ == self@.payload,
    {
        self.payload
    }

    /// Reads the flag word and the indices of the next group.
    fn load_next_group(&mut self) -> (r: Result<()>)
        requires
            old(self).wf(),
            !old(self)@.fused,
            old(self)@.ready.len() == 0,
            old(self)@.next < old(self)@.count,
        ensures
            final(self).wf(),
            final(self)@ == load_inter(old(self)@).0,
            match r {
                Ok(_) => load_inter(old(self)@).1 is None && final(self)@.ready.len() > 0,
                Err(e) => load_inter(old(self)@).1 == Some(e@),
            },
    {
        if self.payload.len() - self.cursor < 4 {
            self.fused = true;
            return Err(
                CinepakError::invalid(
                    at_byte_text(
                        "0x3100 truncated mid-flag-word",
                        self.cursor,
                        self.payload.len(),
                    ),
                ),
            );
        }
        let ghost w = self@;
        let left: usize = self.mb_count - self.next_mb;
        let flag: u32 = read32(self.payload, self.cursor);
        let (kinds, open_code) = scan_word(flag, self.pending, left);
        let mut p: usize = self.cursor + 4;
        let mut mbs: Vec<Mb> = Vec::new();
        proof {
            vector::inter_kinds_len(flag, self.pending, left as nat);
            vector::group_mbs_shape(self.payload@, p as int, kinds@, kinds@.len());
        }
        let missing = read_group(self.payload, &mut p, &kinds, &mut mbs);
        assert(mbs@ =~= vector::group_mbs(self.payload@, w.cursor + 4, kinds@, kinds@.len()).0);
        self.cursor = p;
        match missing {
            Some(c) => {
                self.fused = true;
                let what = match c {
                    Coding::V4 => "0x3100 truncated mid-V4-index",
                    _ => "0x3100 truncated mid-V1-index",
                };
                Err(CinepakError::invalid(at_byte_text(what, p, self.payload.len())))
            },
            None => {
                self.group = mbs;
                self.group_cursor = 0;
                self.pending = open_code;
                assert(self@.ready =~= mbs@);
                Ok(())
            },
        }
    }

    /// The next macroblock, an error, or `None` where the walk has ended.
    pub fn next(&mut self) -> (r: Option<Result<InterEntry>>)
        requires
            old(self).wf(),
        ensures
            final(self).wf(),
            final(self)@ == next_inter(old(self)@).1,
            match r {
                None => next_inter(old(self)@).0 is None,
                Some(got) => next_inter(old(self)@).0 == Some(error::outcome(got)),
            },
    {
        if self.fused {
            return None;
        }
        if self.next_mb >= self.mb_count {
            return None;
        }
        if self.group_cursor >= self.group.len() {
            match self.load_next_group() {
                Err(e) => {
                    return Some(Err(e));
                },
                Ok(_) => {},
            }
        }
        let ghost w = self@;
        let group_len: usize = self.group.len();
        assert(self.group_cursor < group_len);
        let kind = match self.group[self.group_cursor] {
            Mb::Skip => InterMb::Skip,
            Mb::V1(i) => InterMb::V1(i),
            Mb::V4(i) => InterMb::V4(i),
        };
        self.group_cursor = self.group_cursor + 1;
        let entry = InterEntry {
            index: #[verifier::truncate]
            (self.next_mb as u16),
            kind,
        };
        self.next_mb = self.next_mb + 1;
        assert(self@.ready =~= w.ready.subrange(1, w.ready.len() as int));
        Some(Ok(entry))
    }

    /// Bounds on the number of macroblocks still to come.
    pub fn size_hint(&self) -> (r: (usize, Option<usize>))
        requires
            self.wf(),
        ensures
            r.0 == if self@.fused {
                0
            } else {
                self@.count - self@.next
            },
            r.1 == Some(r.0),
    {
        if self.fused {
            return (0, Some(0));
        }
        let remaining: usize = self.remaining();
        (remaining, Some(remaining))
    }
}

/// The macroblocks that `n` steps of a walk over an intra chunk yield, or
/// the error that ends it.
pub open spec fn intra_yields(w: IntraWalk, n: nat) -> core::result::Result<
    Seq<MixedIntraEntry>,
    ErrorView,
>
    decreases n,
{
    if n == 0 {
        Ok(Seq::empty())
    } else {
        match next_intra(w).0 {
            None => Ok(Seq::empty()),
            Some(Err(e)) => Err(e),
            Some(Ok(e)) => match intra_yields(next_intra(w).1, (n - 1) as nat) {
                Err(e2) => Err(e2),
                Ok(s) => Ok(seq![e] + s),
            },
        }
    }
}

/// Macroblocks as the entries of an intra walk, from index `first` on.
pub open spec fn intra_entries(mbs: Seq<Mb>, first: int) -> Seq<MixedIntraEntry> {
    Seq::new(
        mbs.len(),
        |i: int|
            MixedIntraEntry { index: ((first + i) as usize) as u16, kind: as_intra(mbs[i]) },
    )
}

/// One step taken off the front of a group.
proof fn group_front(payload: Seq<u8>, p: int, kinds: Seq<Coding>, n: nat)
    requires
        0 < n <= kinds.len(),
    ensures
        payload.len() - p < vector::index_len(kinds[0]) ==> vector::group_mbs(payload, p, kinds, n) == (
            Seq::<Mb>::empty(),
            p,
            Some(kinds[0]),
        ),
        payload.len() - p >= vector::index_len(kinds[0]) ==> ({
            let rest = vector::group_mbs(
                payload,
                p + vector::index_len(kinds[0]),
                kinds.subrange(1, kinds.len() as int),
                (n - 1) as nat,
            );
            vector::group_mbs(payload, p, kinds, n) == (
                seq![vector::mb_at(kinds[0], payload, p)] + rest.0,
                rest.1,
                rest.2,
            )
        }),
    decreases n,
{
    let tail = kinds.subrange(1, kinds.len() as int);
    reveal_with_fuel(vector::group_mbs, 2);
    if n == 1 {
        assert(Seq::<Mb>::empty().push(vector::mb_at(kinds[0], payload, p)) =~= seq![
            vector::mb_at(kinds[0], payload, p),
        ] + Seq::<Mb>::empty());
    } else {
        group_front(payload, p, kinds, (n - 1) as nat);
        assert(kinds[n - 1] == tail[n - 2]);
        if payload.len() - p >= vector::index_len(kinds[0]) {
            let before = vector::group_mbs(payload, p + vector::index_len(kinds[0]), tail, (n - 2) as nat);
            let head = seq![vector::mb_at(kinds[0], payload, p)];
            if before.2 is None && payload.len() - before.1 >= vector::index_len(kinds[n - 1]) {
                let last = vector::mb_at(kinds[n - 1], payload, before.1);
                assert((head + before.0).push(last) =~= head + before.0.push(last));
            }
        }
    }
}

/// What is left of an intra chunk where a walk stands.
pub open spec fn intra_rest(w: IntraWalk) -> core::result::Result<Seq<Mb>, ErrorView> {
    let (mbs, q, missing) = vector::group_mbs(w.payload, w.cursor, w.kinds, w.kinds.len());
    match missing {
        Some(c) => Err(crate::vector::intra_short_index(c)),
        None => vector::prepend(
            mbs,
            vector::intra_mbs(w.payload, q, (w.count - w.next - w.kinds.len()) as nat),
        ),
    }
}

proof fn intra_yields_rest(w: IntraWalk)
    requires
        !w.fused,
        0 <= w.cursor <= w.payload.len(),
        0 <= w.next,
        w.next + w.kinds.len() <= w.count,
        forall|i: int| 0 <= i < w.kinds.len() ==> w.kinds[i] != Coding::Skip,
    ensures
        match intra_rest(w) {
            Ok(mbs) => intra_yields(w, (w.count - w.next) as nat) == Ok::<
                Seq<MixedIntraEntry>,
                ErrorView,
            >(intra_entries(mbs, w.next)),
            Err(_) => intra_yields(w, (w.count - w.next) as nat) is Err,
        },
    decreases w.count - w.next, (if w.kinds.len() == 0 {
            1int
        } else {
            0
        }),
{
    let n = (w.count - w.next) as nat;
    if n == 0 {
        assert(intra_entries(Seq::empty(), w.next) =~= Seq::empty());
        assert(Seq::<Mb>::empty() + Seq::<Mb>::empty() =~= Seq::<Mb>::empty());
    } else if w.kinds.len() == 0 {
        let whole = vector::intra_mbs(w.payload, w.cursor, n);
        if let Ok(s) = whole {
            assert(Seq::<Mb>::empty() + s =~= s);
        }
        if w.payload.len() - w.cursor >= 4 {
            let g = vector::intra_group_len(n);
            let w1 = IntraWalk {
                kinds: vector::intra_kinds(bits::be32(w.payload, w.cursor), g),
                cursor: w.cursor + 4,
                ..w
            };
            intra_yields_rest(w1);
            assert(next_intra(w) == next_intra(w1));
            assert(intra_yields(w, n) == intra_yields(w1, n));
        }
    } else {
        let c = w.kinds[0];
        let rest = w.kinds.subrange(1, w.kinds.len() as int);
        group_front(w.payload, w.cursor, w.kinds, w.kinds.len());
        if w.payload.len() - w.cursor >= vector::index_len(c) {
            let w1 = next_intra(w).1;
            assert forall|i: int| 0 <= i < w1.kinds.len() implies w1.kinds[i] != Coding::Skip by {
                assert(w1.kinds[i] == w.kinds[i + 1]);
            }
            intra_yields_rest(w1);
            let head = seq![vector::mb_at(c, w.payload, w.cursor)];
            let (mbs, q, missing) = vector::group_mbs(w1.payload, w1.cursor, w1.kinds, w1.kinds.len());
            if missing is None {
                let after = vector::intra_mbs(
                    w.payload,
                    q,
                    (w1.count - w1.next - w1.kinds.len()) as nat,
                );
                if let Ok(s) = after {
                    assert(head + mbs + s =~= head + (mbs + s));
                    let e = next_intra(w).0->0->Ok_0;
                    assert(intra_entries(head + (mbs + s), w.next) =~= seq![e]
                        + intra_entries(mbs + s, w1.next)) by {
                        assert forall|i: int| 0 <= i < 1 + (mbs + s).len() implies intra_entries(
                            head + (mbs + s),
                            w.next,
                        )[i] == (seq![e] + intra_entries(mbs + s, w1.next))[i] by {
                            if i > 0 {
                                assert(w.next + i == w1.next + (i - 1));
                            }
                        }
                    }
                }
            }
        }
    }
}

/// Walking an intra chunk to its end yields what decoding it at once gives:
/// the same macroblocks in the same order, or an error where that has one.
pub proof fn intra_walk_agrees(payload: Seq<u8>, count: nat)
    ensures
        match vector::intra_mbs(payload, 0, count) {
            Ok(mbs) => intra_yields(intra_walk(payload, count), count) == Ok::<
                Seq<MixedIntraEntry>,
                ErrorView,
            >(intra_entries(mbs, 0)),
            Err(_) => intra_yields(intra_walk(payload, count), count) is Err,
        },
{
    let w = intra_walk(payload, count);
    intra_yields_rest(w);
    if let Ok(s) = vector::intra_mbs(payload, 0, count) {
        assert(Seq::<Mb>::empty() + s =~= s);
    }
}

/// The macroblocks that `n` steps of a walk over an inter chunk yield, or
/// the error that ends it.
pub open spec fn inter_yields(w: InterWalk, n: nat) -> core::result::Result<
    Seq<InterEntry>,
    ErrorView,
>
    decreases n,
{
    if n == 0 {
        Ok(Seq::empty())
    } else {
        match next_inter(w).0 {
            None => Ok(Seq::empty()),
            Some(Err(e)) => Err(e),
            Some(Ok(e)) => match inter_yields(next_inter(w).1, (n - 1) as nat) {
                Err(e2) => Err(e2),
                Ok(s) => Ok(seq![e] + s),
            },
        }
    }
}

/// Macroblocks as the entries of an inter walk, from index `first` on.
pub open spec fn inter_entries(mbs: Seq<Mb>, first: int) -> Seq<InterEntry> {
    Seq::new(
        mbs.len(),
        |i: int| InterEntry { index: ((first + i) as usize) as u16, kind: as_inter(mbs[i]) },
    )
}

/// What is left of an inter chunk where a walk stands.
pub open spec fn inter_rest(w: InterWalk) -> core::result::Result<Seq<Mb>, ErrorView> {
    vector::prepend(
        w.ready,
        vector::inter_mbs(
            w.payload,
            w.cursor,
            w.pending,
            (w.count - w.next - w.ready.len()) as nat,
        ),
    )
}

proof fn inter_yields_rest(w: InterWalk)
    requires
        !w.fused,
        0 <= w.cursor <= w.payload.len(),
        0 <= w.next,
        w.next + w.ready.len() <= w.count,
    ensures
        match inter_rest(w) {
            Ok(mbs) => inter_yields(w, (w.count - w.next) as nat) == Ok::<
                Seq<InterEntry>,
                ErrorView,
            >(inter_entries(mbs, w.next)),
            Err(_) => inter_yields(w, (w.count - w.next) as nat) is Err,
        },
    decreases w.count - w.next, (if w.ready.len() == 0 {
            1int
        } else {
            0
        }),
{
    let n = (w.count - w.next) as nat;
    if n == 0 {
        assert(w.ready =~= Seq::empty());
        assert(inter_entries(Seq::empty(), w.next) =~= Seq::empty());
        assert(Seq::<Mb>::empty() + Seq::<Mb>::empty() =~= Seq::<Mb>::empty());
    } else if w.ready.len() == 0 {
        let whole = vector::inter_mbs(w.payload, w.cursor, w.pending, n);
        if let Ok(s) = whole {
            assert(w.ready + s =~= s);
        }
        if w.payload.len() - w.cursor >= 4 {
            let flag = bits::be32(w.payload, w.cursor);
            let (kinds, open_code) = vector::inter_kinds(flag, w.pending, n);
            vector::inter_kinds_len(flag, w.pending, n);
            vector::group_mbs_shape(w.payload, w.cursor + 4, kinds, kinds.len());
            let (w1, error) = load_inter(w);
            if error is None {
                inter_yields_rest(w1);
                assert(next_inter(w) == next_inter(w1));
                assert(inter_yields(w, n) == inter_yields(w1, n));
            }
        }
    } else {
        let w1 = next_inter(w).1;
        inter_yields_rest(w1);
        let e = next_inter(w).0->0->Ok_0;
        let head = seq![w.ready[0]];
        assert(w.ready =~= head + w1.ready);
        let after = vector::inter_mbs(
            w.payload,
            w.cursor,
            w.pending,
            (w.count - w.next - w.ready.len()) as nat,
        );
        if let Ok(s) = after {
            assert(w.ready + s =~= head + (w1.ready + s));
            assert(inter_entries(head + (w1.ready + s), w.next) =~= seq![e] + inter_entries(
                w1.ready + s,
                w1.next,
            )) by {
                assert forall|i: int| 0 <= i < 1 + (w1.ready + s).len() implies inter_entries(
                    head + (w1.ready + s),
                    w.next,
                )[i] == (seq![e] + inter_entries(w1.ready + s, w1.next))[i] by {
                    if i > 0 {
                        assert(w.next + i == w1.next + (i - 1));
                    }
                }
            }
        }
    }
}

/// Walking an inter chunk to its end yields what decoding it at once gives:
/// the same macroblocks in the same order, or an error where that has one.
pub proof fn inter_walk_agrees(payload: Seq<u8>, count: nat)
    ensures
        match vector::inter_mbs(payload, 0, false, count) {
            Ok(mbs) => inter_yields(inter_walk(payload, count), count) == Ok::<
                Seq<InterEntry>,
                ErrorView,
            >(inter_entries(mbs, 0)),
            Err(_) => inter_yields(inter_walk(payload, count), count) is Err,
        },
{
    let w = inter_walk(payload, count);
    inter_yields_rest(w);
    if let Ok(s) = vector::inter_mbs(payload, 0, false, count) {
        assert(Seq::<Mb>::empty() + s =~= s);
    }
}

/// The macroblocks that `n` steps of a walk over a V1-only chunk yield.
pub open spec fn v1_yields(w: V1Walk, n: nat) -> Seq<V1MacroblockEntry>
    decreases n,
{
    if n == 0 {
        Seq::empty()
    } else {
        match next_v1(w).0 {
            None => Seq::empty(),
            Some(e) => seq![e] + v1_yields(next_v1(w).1, (n - 1) as nat),
        }
    }
}

proof fn v1_yields_rest(w: V1Walk, n: nat)
    requires
        0 <= w.cursor,
        w.cursor + n == w.count == w.payload.len(),
    ensures
        v1_yields(w, n) == Seq::new(
            n,
            |i: int|
                V1MacroblockEntry {
                    index: ((w.cursor + i) as usize) as u16,
                    codebook_index: w.payload[w.cursor + i],
                },
        ),
    decreases n,
{
    let want = Seq::new(
        n,
        |i: int|
            V1MacroblockEntry {
                index: ((w.cursor + i) as usize) as u16,
                codebook_index: w.payload[w.cursor + i],
            },
    );
    if n == 0 {
        assert(want =~= Seq::empty());
    } else {
        let w1 = next_v1(w).1;
        v1_yields_rest(w1, (n - 1) as nat);
        assert forall|i: int| 0 <= i < n implies v1_yields(w, n)[i] == want[i] by {
            if i > 0 {
                assert(w1.cursor + (i - 1) == w.cursor + i);
            }
        }
        assert(v1_yields(w, n) =~= want);
    }
}

/// Walking a V1-only chunk to its end yields what decoding it at once
/// gives.
pub proof fn v1_walk_agrees(payload: Seq<u8>)
    ensures
        ({
            let w = V1Walk { payload, count: payload.len() as int, cursor: 0 };
            &&& vector::v1_only_mbs(payload, payload.len()) is Ok
            &&& v1_yields(w, payload.len()).len() == payload.len()
            &&& forall|i: int|
                0 <= i < payload.len() ==> {
                    &&& #[trigger] v1_yields(w, payload.len())[i].index == (i as usize) as u16
                    &&& vector::v1_only_mbs(payload, payload.len())->Ok_0[i] == Mb::V1(
                        v1_yields(w, payload.len())[i].codebook_index,
                    )
                }
        }),
{
    let w = V1Walk { payload, count: payload.len() as int, cursor: 0 };
    v1_yields_rest(w, payload.len());
}

/// A walk over an intra chunk that has met an error, or yielded every
/// macroblock, yields nothing more and stays where it is.
pub proof fn intra_walk_ends(w: IntraWalk)
    requires
        w.fused || w.next >= w.count,
    ensures
        next_intra(w) == (None::<core::result::Result<MixedIntraEntry, ErrorView>>, w),
{
}

/// After an error a walk over an intra chunk is over.
pub proof fn intra_walk_error_is_final(w: IntraWalk)
    requires
        next_intra(w).0 matches Some(Err(_)),
    ensures
        next_intra(next_intra(w).1).0 is None,
{
}

/// A walk over an inter chunk that has met an error, or yielded every
/// macroblock, yields nothing more and stays where it is.
pub proof fn inter_walk_ends(w: InterWalk)
    requires
        w.fused || w.next >= w.count,
    ensures
        next_inter(w) == (None::<core::result::Result<InterEntry, ErrorView>>, w),
{
}

/// After an error a walk over an inter chunk is over.
pub proof fn inter_walk_error_is_final(w: InterWalk)
    requires
        next_inter(w).0 matches Some(Err(_)),
    ensures
        next_inter(next_inter(w).1).0 is None,
{
}

} // verus!
