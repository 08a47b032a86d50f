//! Codebooks and the chunks that carry them.
//!
//! A codebook has 256 entries. A chunk either replaces the first entries
//! (full update) or a chosen set of them (selective update): groups of 32
//! slots, each with a flag word whose most significant bit stands for the
//! group's first slot, followed by the entries whose bits are set.

use vstd::prelude::*;
use crate::bits::{self, put16, put32, put_bytes, read32, set_bit, test_bit};
use crate::error::{self, invalid, CinepakError, ErrorView, Result};
use crate::text::{self, cat, cat_dec, lit};

verus! {

/// Bytes of a chunk header: a 16-bit id and a 16-bit size.
pub const CHUNK_HEADER_SIZE: usize = 4;

/// One codebook entry: the luminance of four pixels and one chrominance
/// pair.
#[derive(Clone, Copy, Debug, PartialEq, Eq, Structural)]
pub struct CodebookEntry {
    pub y0: u8,
    pub y1: u8,
    pub y2: u8,
    pub y3: u8,
    pub u: i8,
    pub v: i8,
}

impl Default for CodebookEntry {
    fn default() -> (r: Self)
        ensures
            r == zero_entry(),
    {
        CodebookEntry { y0: 0, y1: 0, y2: 0, y3: 0, u: 0, v: 0 }
    }
}

/// The entry whose components are all zero.
pub open spec fn zero_entry() -> CodebookEntry {
    CodebookEntry { y0: 0, y1: 0, y2: 0, y3: 0, u: 0, v: 0 }
}

impl CodebookEntry {
    /// A colour entry.
    pub fn from_yuv(y0: u8, y1: u8, y2: u8, y3: u8, u: i8, v: i8) -> (r: Self)
        ensures
            r == (CodebookEntry { y0, y1, y2, y3, u, v }),
    {
        CodebookEntry { y0, y1, y2, y3, u, v }
    }

    /// A grayscale entry.
    pub fn from_y(y0: u8, y1: u8, y2: u8, y3: u8) -> (r: Self)
        ensures
            r == (CodebookEntry { y0, y1, y2, y3, u: 0, v: 0 }),
    {
        CodebookEntry { y0, y1, y2, y3, u: 0, v: 0 }
    }
}

/// A codebook of 256 entries.
#[derive(Debug)]
pub struct Codebook {
    pub entries: [CodebookEntry; 256],
}

impl View for Codebook {
    type V = Seq<CodebookEntry>;

    open spec fn view(&self) -> Seq<CodebookEntry> {
        self.entries@
    }
}

impl Clone for Codebook {
    fn clone(&self) -> (r: Self)
        ensures
            r == *self,
    {
        Codebook { entries: self.entries }
    }
}

/// The codebook whose entries are all zero.
pub open spec fn zero_codebook() -> Seq<CodebookEntry> {
    Seq::new(256, |i: int| zero_entry())
}

impl Default for Codebook {
    fn default() -> (r: Self)
        ensures
            r@ == zero_codebook(),
    {
        let z = CodebookEntry { y0: 0, y1: 0, y2: 0, y3: 0, u: 0, v: 0 };
        let r = Codebook { entries: [z;256] };
        assert(r@ =~= zero_codebook());
        r
    }
}

/// Whether a strip holds colour or grayscale entries.
#[derive(Clone, Copy, Debug, PartialEq, Eq, Structural)]
pub enum PixelMode {
    /// Luminance and chrominance.
    Yuv12,
    /// Luminance only.
    Gray8,
}

/// Bytes of one coded entry.
pub open spec fn entry_bytes_len(m: PixelMode) -> nat {
    match m {
        PixelMode::Yuv12 => 6,
        PixelMode::Gray8 => 4,
    }
}

/// The name of a pixel mode.
pub open spec fn mode_name(m: PixelMode) -> Seq<char> {
    match m {
        PixelMode::Yuv12 => "Yuv12"@,
        PixelMode::Gray8 => "Gray8"@,
    }
}

/// Message of a frame that mixes pixel modes.
pub open spec fn mixed_modes(a: PixelMode, b: PixelMode) -> ErrorView {
    ErrorView::InvalidData(
        "mixed pixel modes in single frame ("@ + mode_name(a) + " and "@ + mode_name(b) + ")"@,
    )
}

/// The one mode that both agree on.
pub open spec fn unified(a: PixelMode, b: PixelMode) -> core::result::Result<
    PixelMode,
    ErrorView,
> {
    if a == b {
        Ok(a)
    } else {
        Err(mixed_modes(a, b))
    }
}

impl PixelMode {
    /// Bytes of one coded entry.
    pub fn entry_size(self) -> (r: usize)
        ensures
            r == entry_bytes_len(self),
    {
        match self {
            PixelMode::Yuv12 => 6,
            PixelMode::Gray8 => 4,
        }
    }

    /// The name of the mode.
    pub(crate) fn name(self) -> (r: &'static str)
        ensures
            r@ == mode_name(self),
    {
        match self {
            PixelMode::Yuv12 => "Yuv12",
            PixelMode::Gray8 => "Gray8",
        }
    }

    /// The mode that both agree on, or an error.
    pub fn unify(self, other: PixelMode) -> (r: Result<PixelMode>)
        ensures
            error::outcome(r) == unified(self, other),
    {
        if self != other {
            Err(
                CinepakError::invalid(
                    cat(
                        cat(
                            cat(
                                cat(lit("mixed pixel modes in single frame ("), self.name()),
                                " and ",
                            ),
                            other.name(),
                        ),
                        ")",
                    ),
                ),
            )
        } else {
            Ok(self)
        }
    }
}

/// Which of a strip's two codebooks.
#[derive(Clone, Copy, Debug, PartialEq, Eq, Structural)]
pub enum WhichCodebook {
    /// Entries for 2x2 blocks.
    V4,
    /// Entries for 4x4 blocks.
    V1,
}

/// How a chunk updates a codebook.
#[derive(Clone, Copy, Debug, PartialEq, Eq, Structural)]
pub enum UpdateStyle {
    /// The first entries are replaced.
    Full,
    /// Chosen entries are replaced.
    Selective,
}

/// What a codebook chunk's id says.
#[derive(Clone, Copy, Debug, PartialEq, Eq, Structural)]
pub struct CodebookChunkKind {
    pub which: WhichCodebook,
    pub style: UpdateStyle,
    pub mode: PixelMode,
}

/// The id of a codebook chunk: `0x2000`, plus `0x400` for grayscale, plus
/// `0x200` for the V1 codebook, plus `0x100` for a selective update.
pub open spec fn kind_id(k: CodebookChunkKind) -> u16 {
    (0x2000 + (if k.mode == PixelMode::Gray8 {
        0x400int
    } else {
        0
    }) + (if k.which == WhichCodebook::V1 {
        0x200int
    } else {
        0
    }) + (if k.style == UpdateStyle::Selective {
        0x100int
    } else {
        0
    })) as u16
}

/// What the id of a codebook chunk says; `None` where it is the id of none.
pub open spec fn kind_of_id(id: u16) -> Option<CodebookChunkKind> {
    let kind = |which: WhichCodebook, style: UpdateStyle, mode: PixelMode|
        Some(CodebookChunkKind { which, style, mode });
    if id == 0x2000 {
        kind(WhichCodebook::V4, UpdateStyle::Full, PixelMode::Yuv12)
    } else if id == 0x2100 {
        kind(WhichCodebook::V4, UpdateStyle::Selective, PixelMode::Yuv12)
    } else if id == 0x2200 {
        kind(WhichCodebook::V1, UpdateStyle::Full, PixelMode::Yuv12)
    } else if id == 0x2300 {
        kind(WhichCodebook::V1, UpdateStyle::Selective, PixelMode::Yuv12)
    } else if id == 0x2400 {
        kind(WhichCodebook::V4, UpdateStyle::Full, PixelMode::Gray8)
    } else if id == 0x2500 {
        kind(WhichCodebook::V4, UpdateStyle::Selective, PixelMode::Gray8)
    } else if id == 0x2600 {
        kind(WhichCodebook::V1, UpdateStyle::Full, PixelMode::Gray8)
    } else if id == 0x2700 {
        kind(WhichCodebook::V1, UpdateStyle::Selective, PixelMode::Gray8)
    } else {
        None
    }
}

impl CodebookChunkKind {
    /// What the id of a codebook chunk says; `None` for any other id.
    pub fn from_id(id: u16) -> (r: Option<Self>)
        ensures
            r == kind_of_id(id),
    {
        if id < 0x2000 || id > 0x2700 {
            return None;
        }
        if id % 256 != 0 {
            return None;
        }
        let selector: u16 = id / 256 - 0x20;
        let mode = if selector >= 4 {
            PixelMode::Gray8
        } else {
            PixelMode::Yuv12
        };
        let which = if selector / 2 % 2 == 1 {
            WhichCodebook::V1
        } else {
            WhichCodebook::V4
        };
        let style = if selector % 2 == 1 {
            UpdateStyle::Selective
        } else {
            UpdateStyle::Full
        };
        Some(CodebookChunkKind { which, style, mode })
    }

    /// The id of a chunk of this kind.
    pub fn to_id(self) -> (r: u16)
        ensures
            r == kind_id(self),
    {
        let mut id: u16 = 0x2000;
        if self.mode == PixelMode::Gray8 {
            id = id + 0x400;
        }
        if self.which == WhichCodebook::V1 {
            id = id + 0x200;
        }
        if self.style == UpdateStyle::Selective {
            id = id + 0x100;
        }
        id
    }
}

/// A byte read as a two's-complement number.
pub open spec fn signed(b: u8) -> i8 {
    if b < 128 {
        b as i8
    } else {
        (b - 256) as i8
    }
}

/// The two's-complement byte of a number.
pub open spec fn unsigned(v: i8) -> u8 {
    if v >= 0 {
        v as u8
    } else {
        (v + 256) as u8
    }
}

pub(crate) fn to_signed(b: u8) -> (r: i8)
    ensures
        r == signed(b),
{
    if b < 128 {
        b as i8
    } else {
        (b as i16 - 256) as i8
    }
}

pub(crate) fn to_unsigned(v: i8) -> (r: u8)
    ensures
        r == unsigned(v),
{
    if v >= 0 {
        v as u8
    } else {
        (v as i16 + 256) as u8
    }
}

/// The entry coded at `b[off..]`.
pub open spec fn entry_at(m: PixelMode, b: Seq<u8>, off: int) -> CodebookEntry {
    CodebookEntry {
        y0: b[off],
        y1: b[off + 1],
        y2: b[off + 2],
        y3: b[off + 3],
        u: if m == PixelMode::Yuv12 {
            signed(b[off + 4])
        } else {
            0
        },
        v: if m == PixelMode::Yuv12 {
            signed(b[off + 5])
        } else {
            0
        },
    }
}

/// An entry as bytes.
pub open spec fn entry_bytes(m: PixelMode, e: CodebookEntry) -> Seq<u8> {
    match m {
        PixelMode::Yuv12 => seq![e.y0, e.y1, e.y2, e.y3, unsigned(e.u), unsigned(e.v)],
        PixelMode::Gray8 => seq![e.y0, e.y1, e.y2, e.y3],
    }
}

/// What is left of an entry once it is coded: grayscale drops the
/// chrominance.
pub open spec fn coded(m: PixelMode, e: CodebookEntry) -> CodebookEntry {
    match m {
        PixelMode::Yuv12 => e,
        PixelMode::Gray8 => CodebookEntry { u: 0, v: 0, ..e },
    }
}

fn read_entry(mode: PixelMode, bytes: &[u8], off: usize) -> (r: CodebookEntry)
    requires
        off + entry_bytes_len(mode) <= bytes@.len(),
    ensures
        r == entry_at(mode, bytes@, off as int),
{
    match mode {
        PixelMode::Yuv12 => CodebookEntry {
            y0: bytes[off],
            y1: bytes[off + 1],
            y2: bytes[off + 2],
            y3: bytes[off + 3],
            u: to_signed(bytes[off + 4]),
            v: to_signed(bytes[off + 5]),
        },
        PixelMode::Gray8 => CodebookEntry {
            y0: bytes[off],
            y1: bytes[off + 1],
            y2: bytes[off + 2],
            y3: bytes[off + 3],
            u: 0,
            v: 0,
        },
    }
}

fn write_entry(mode: PixelMode, e: &CodebookEntry, out: &mut Vec<u8>)
    ensures
        final(out)@ == old(out)@ + entry_bytes(mode, *e),
{
    out.push(e.y0);
    out.push(e.y1);
    out.push(e.y2);
    out.push(e.y3);
    if let PixelMode::Yuv12 = mode {
        out.push(to_unsigned(e.u));
        out.push(to_unsigned(e.v));
    }
    assert(out@ =~= old(out)@ + entry_bytes(mode, *e));
}

/// Message of a full update that ends inside an entry.
pub open spec fn full_ragged(len: nat, es: nat) -> ErrorView {
    ErrorView::InvalidData(
        "full-replace codebook payload size "@ + text::dec(len) + " not a multiple of entry size "@
            + text::dec(es),
    )
}

/// Message of a full update with too many entries.
pub open spec fn full_overrun(n: nat) -> ErrorView {
    ErrorView::InvalidData(
        "full-replace codebook has "@ + text::dec(n) + " entries (> 256 max)"@,
    )
}

/// Message of a selective update with too many groups.
pub open spec fn selective_overrun() -> ErrorView {
    ErrorView::InvalidData("selective-update codebook overruns 256 slots"@)
}

/// Message of a selective update that ends inside a flag word.
pub open spec fn selective_short_flag() -> ErrorView {
    ErrorView::InvalidData("selective-update codebook truncated mid-flag-word"@)
}

/// Message of a selective update that ends inside an entry.
pub open spec fn selective_short_entry() -> ErrorView {
    ErrorView::InvalidData("selective-update codebook truncated mid-entry"@)
}

/// The codebook after its first `n` entries were replaced by those coded in
/// `payload`.
pub open spec fn replaced(
    m: PixelMode,
    payload: Seq<u8>,
    n: int,
    cb: Seq<CodebookEntry>,
) -> Seq<CodebookEntry> {
    Seq::new(
        cb.len(),
        |i: int|
            if i < n {
                entry_at(m, payload, i * entry_bytes_len(m))
            } else {
                cb[i]
            },
    )
}

/// The effect of a full update: the codebook it leaves, and its error if it
/// has one. `tolerate` accepts bytes after the last whole entry.
pub open spec fn full_update(
    m: PixelMode,
    payload: Seq<u8>,
    cb: Seq<CodebookEntry>,
    tolerate: bool,
) -> (Seq<CodebookEntry>, core::result::Result<(), ErrorView>) {
    let es = entry_bytes_len(m);
    let n = payload.len() / es;
    if payload.len() % es != 0 && !tolerate {
        (cb, Err(full_ragged(payload.len(), es)))
    } else if n > 256 {
        (cb, Err(full_overrun(n)))
    } else {
        (replaced(m, payload, n as int, cb), Ok(()))
    }
}

/// The effect of the slots `bit..32` of one group: the codebook, the offset
/// reached, and whether the payload held all the entries.
pub open spec fn selective_group(
    m: PixelMode,
    payload: Seq<u8>,
    flag: u32,
    bit: int,
    p: int,
    base: int,
    cb: Seq<CodebookEntry>,
) -> (Seq<CodebookEntry>, int, bool)
    decreases 32 - bit,
{
    if bit >= 32 {
        (cb, p, true)
    } else if !bits::bit_at(flag, bit) {
        selective_group(m, payload, flag, bit + 1, p, base, cb)
    } else if payload.len() - p < entry_bytes_len(m) {
        (cb, p, false)
    } else {
        selective_group(
            m,
            payload,
            flag,
            bit + 1,
            p + entry_bytes_len(m),
            base,
            cb.update(base + bit, entry_at(m, payload, p)),
        )
    }
}

/// The effect of a selective update from the group of slots that starts at
/// `base`: the codebook it leaves, and its error if it has one.
pub open spec fn selective_update(
    m: PixelMode,
    payload: Seq<u8>,
    p: int,
    base: int,
    cb: Seq<CodebookEntry>,
) -> (Seq<CodebookEntry>, core::result::Result<(), ErrorView>)
    decreases 288 - base,
{
    if p >= payload.len() {
        (cb, Ok(()))
    } else if base >= 256 {
        (cb, Err(selective_overrun()))
    } else if payload.len() - p < 4 {
        (cb, Err(selective_short_flag()))
    } else {
        let (cb1, p1, whole) = selective_group(m, payload, bits::be32(payload, p), 0, p + 4, base, cb);
        if !whole {
            (cb1, Err(selective_short_entry()))
        } else {
            selective_update(m, payload, p1, base + 32, cb1)
        }
    }
}

/// The effect of a codebook chunk: the codebook it leaves, and its error if
/// it has one.
pub open spec fn codebook_update(
    kind: CodebookChunkKind,
    payload: Seq<u8>,
    cb: Seq<CodebookEntry>,
    tolerate: bool,
) -> (Seq<CodebookEntry>, core::result::Result<(), ErrorView>) {
    match kind.style {
        UpdateStyle::Full => full_update(kind.mode, payload, cb, tolerate),
        UpdateStyle::Selective => selective_update(kind.mode, payload, 0, 0, cb),
    }
}

/// Applies a codebook chunk. A selective update that ends in an error
/// leaves the entries that it had already replaced.
pub fn apply_codebook_chunk(kind: CodebookChunkKind, payload: &[u8], cb: &mut Codebook) -> (r:
    Result<()>)
    ensures
        (final(cb)@, error::outcome(r)) == codebook_update(kind, payload@, old(cb)@, false),
{
    apply_codebook_chunk_with(kind, payload, cb, false)
}

/// Applies a codebook chunk; `tolerate_trailing` accepts bytes after the
/// last whole entry of a full update.
pub fn apply_codebook_chunk_with(
    kind: CodebookChunkKind,
    payload: &[u8],
    cb: &mut Codebook,
    tolerate_trailing: bool,
) -> (r: Result<()>)
    ensures
        (final(cb)@, error::outcome(r)) == codebook_update(kind, payload@, old(cb)@, tolerate_trailing),
{
    match kind.style {
        UpdateStyle::Full => apply_full(kind.mode, payload, cb, tolerate_trailing),
        UpdateStyle::Selective => apply_selective(kind.mode, payload, cb),
    }
}

fn apply_full(mode: PixelMode, payload: &[u8], cb: &mut Codebook, tolerate_trailing: bool) -> (r:
    Result<()>)
    ensures
        (final(cb)@, error::outcome(r)) == full_update(mode, payload@, old(cb)@, tolerate_trailing),
{
    let entry_size: usize = mode.entry_size();
    if payload.len() % entry_size != 0 && !tolerate_trailing {
        return Err(
            CinepakError::invalid(
                cat_dec(
                    cat(
                        cat_dec(
                            lit("full-replace codebook payload size "),
                            payload.len() as u64,
                        ),
                        " not a multiple of entry size ",
                    ),
                    entry_size as u64,
                ),
            ),
        );
    }
    let n: usize = payload.len() / entry_size;
    if n > 256 {
        return Err(
            CinepakError::invalid(
                cat(
                    cat_dec(lit("full-replace codebook has "), n as u64),
                    " entries (> 256 max)",
                ),
            ),
        );
    }
    let ghost before = cb@;
    let mut i: usize = 0;
    while i < n
        invariant
            i <= n <= 256,
            entry_size == entry_bytes_len(mode),
            n == payload@.len() / entry_bytes_len(mode),
            before.len() == 256,
            cb@ == replaced(mode, payload@, i as int, before),
        decreases n - i,
    {
        assert((i + 1) * entry_size <= payload@.len()) by (nonlinear_arith)
            requires
                i + 1 <= n,
                n == payload@.len() / (entry_size as nat),
                entry_size > 0,
        ;
        assert((i + 1) * entry_size == i * entry_size + entry_size) by (nonlinear_arith);
        cb.entries[i] = read_entry(mode, payload, i * entry_size);
        i = i + 1;
        assert(cb@ =~= replaced(mode, payload@, i as int, before));
    }
    assert(replaced(mode, payload@, 0, before) =~= before);
    Ok(())
}

fn apply_selective(mode: PixelMode, payload: &[u8], cb: &mut Codebook) -> (r: Result<()>)
    ensures
        (final(cb)@, error::outcome(r)) == selective_update(mode, payload@, 0, 0, old(cb)@),
{
    let entry_size: usize = mode.entry_size();
    let mut p: usize = 0;
    let mut base: usize = 0;
    let ghost before = cb@;
    while p < payload.len()
        invariant
            p <= payload@.len(),
            base <= 256,
            base % 32 == 0,
            before == old(cb)@,
            entry_size == entry_bytes_len(mode),
            selective_update(mode, payload@, 0, 0, before) == selective_update(
                mode,
                payload@,
                p as int,
                base as int,
                cb@,
            ),
        decreases 256 - base,
    {
        if base >= 256 {
            return Err(invalid("selective-update codebook overruns 256 slots"));
        }
        if payload.len() - p < 4 {
            return Err(invalid("selective-update codebook truncated mid-flag-word"));
        }
        let flag: u32 = read32(payload, p);
        let ghost group = selective_group(mode, payload@, flag, 0, p + 4, base as int, cb@);
        p = p + 4;
        let mut bit: usize = 0;
        while bit < 32
            invariant
                bit <= 32,
                p <= payload@.len(),
                base + 32 <= 256,
                before == old(cb)@,
                entry_size == entry_bytes_len(mode),
                group == selective_group(
                    mode,
                    payload@,
                    flag,
                    bit as int,
                    p as int,
                    base as int,
                    cb@,
                ),
                !group.2 ==> selective_update(mode, payload@, 0, 0, before) == (
                    group.0,
                    Err::<(), ErrorView>(selective_short_entry()),
                ),
            decreases 32 - bit,
        {
            if test_bit(flag, bit as u32) {
                if payload.len() - p < entry_size {
                    return Err(invalid("selective-update codebook truncated mid-entry"));
                }
                let ghost prior = cb@;
                cb.entries[base + bit] = read_entry(mode, payload, p);
                assert(cb@ =~= prior.update(base + bit, entry_at(mode, payload@, p as int)));
                p = p + entry_size;
            }
            bit = bit + 1;
        }
        base = base + 32;
    }
    Ok(())
}

/// The first `n` entries as bytes, one after the other.
pub open spec fn entries_bytes(m: PixelMode, cb: Seq<CodebookEntry>, n: nat) -> Seq<u8>
    decreases n,
{
    if n == 0 {
        Seq::empty()
    } else {
        entries_bytes(m, cb, (n - 1) as nat) + entry_bytes(m, cb[n - 1])
    }
}

/// A chunk: its id, its size, its payload.
pub open spec fn chunk_bytes(id: u16, payload: Seq<u8>) -> Seq<u8> {
    bits::be16_bytes(id) + bits::be16_bytes((CHUNK_HEADER_SIZE + payload.len()) as u16) + payload
}

/// A full update with the first `n` entries.
pub open spec fn full_chunk(kind: CodebookChunkKind, cb: Seq<CodebookEntry>, n: nat) -> Seq<u8> {
    chunk_bytes(kind_id(kind), entries_bytes(kind.mode, cb, n))
}

/// Appends a full update with the first `n` entries.
pub fn encode_full_chunk(kind: CodebookChunkKind, cb: &Codebook, n: usize, out: &mut Vec<u8>)
    requires
        n <= 256,
    ensures
        final(out)@ == old(out)@ + full_chunk(kind, cb@, n as nat),
{
    let ghost before = out@;
    let entry_size: usize = kind.mode.entry_size();
    proof {
        entries_bytes_len(kind.mode, cb@, n as nat);
        assert(n * entry_size <= 256 * 6) by (nonlinear_arith)
            requires
                n <= 256,
                entry_size <= 6,
        ;
    }
    let chunk_size: u16 = (CHUNK_HEADER_SIZE + n * entry_size) as u16;
    put16(out, kind.to_id());
    put16(out, chunk_size);
    let ghost head = out@;
    let mut i: usize = 0;
    while i < n
        invariant
            i <= n <= 256,
            out@ == head + entries_bytes(kind.mode, cb@, i as nat),
        decreases n - i,
    {
        write_entry(kind.mode, &cb.entries[i], out);
        i = i + 1;
        assert(out@ =~= head + entries_bytes(kind.mode, cb@, i as nat));
    }
    assert(out@ =~= before + full_chunk(kind, cb@, n as nat));
}

/// A chunk without payload, which leaves the codebook as it is.
pub open spec fn header_only_chunk(kind: CodebookChunkKind) -> Seq<u8> {
    chunk_bytes(kind_id(kind), Seq::empty())
}

/// Appends a chunk without payload.
pub fn encode_header_only_chunk(kind: CodebookChunkKind, out: &mut Vec<u8>)
    ensures
        final(out)@ == old(out)@ + header_only_chunk(kind),
{
    let ghost before = out@;
    put16(out, kind.to_id());
    put16(out, CHUNK_HEADER_SIZE as u16);
    assert(out@ =~= before + header_only_chunk(kind));
}

/// The flag word of the slots `32 * g..32 * g + n` of a selective update of
/// `slots`.
pub open spec fn slot_flags(slots: Seq<u8>, g: int, n: nat) -> u32
    decreases n,
{
    if n == 0 {
        0
    } else if slots.contains((32 * g + n - 1) as u8) {
        bits::with_bit(slot_flags(slots, g, (n - 1) as nat), n - 1)
    } else {
        slot_flags(slots, g, (n - 1) as nat)
    }
}

/// The entries of the slots `32 * g..32 * g + n` that are in `slots`.
pub open spec fn slot_entries(
    m: PixelMode,
    cb: Seq<CodebookEntry>,
    slots: Seq<u8>,
    g: int,
    n: nat,
) -> Seq<u8>
    decreases n,
{
    if n == 0 {
        Seq::empty()
    } else if slots.contains((32 * g + n - 1) as u8) {
        slot_entries(m, cb, slots, g, (n - 1) as nat) + entry_bytes(m, cb[32 * g + n - 1])
    } else {
        slot_entries(m, cb, slots, g, (n - 1) as nat)
    }
}

/// The groups before group `n` of a selective update of `slots`.
pub open spec fn slot_groups(m: PixelMode, cb: Seq<CodebookEntry>, slots: Seq<u8>, n: nat) -> Seq<
    u8,
>
    decreases n,
{
    if n == 0 {
        Seq::empty()
    } else {
        slot_groups(m, cb, slots, (n - 1) as nat) + bits::be32_bytes(slot_flags(slots, n - 1, 32))
            + slot_entries(m, cb, slots, n - 1, 32)
    }
}

/// Number of groups of a selective update: up to the last slot.
pub open spec fn group_count(slots: Seq<u8>) -> nat {
    if slots.len() == 0 {
        0
    } else {
        (slots.last() / 32 + 1) as nat
    }
}

/// Slots in strictly ascending order.
pub open spec fn ascending(slots: Seq<u8>) -> bool {
    forall|i: int, j: int| 0 <= i < j < slots.len() ==> slots[i] < slots[j]
}

/// A selective update of `slots`.
pub open spec fn selective_chunk(
    kind: CodebookChunkKind,
    cb: Seq<CodebookEntry>,
    slots: Seq<u8>,
) -> Seq<u8> {
    chunk_bytes(kind_id(kind), slot_groups(kind.mode, cb, slots, group_count(slots)))
}

/// Appends a selective update of `slots`, which must be ascending.
pub fn encode_selective_chunk(
    kind: CodebookChunkKind,
    cb: &Codebook,
    slots: &[u8],
    out: &mut Vec<u8>,
)
    requires
        ascending(slots@),
    ensures
        final(out)@ == old(out)@ + selective_chunk(kind, cb@, slots@),
{
    let ghost before = out@;
    let mut groups: usize = 0;
    if slots.len() > 0 {
        groups = (slots[slots.len() - 1] / 32) as usize + 1;
    }
    let mut body: Vec<u8> = Vec::new();
    let mut k: usize = 0;
    let mut g: usize = 0;
    proof {
        slot_groups_len(kind.mode, cb@, slots@, 0);
    }
    while g < groups
        invariant
            g <= groups,
            groups <= 8,
            groups == group_count(slots@),
            ascending(slots@),
            k <= slots@.len(),
            forall|i: int| 0 <= i < k ==> slots@[i] < 32 * g,
            forall|i: int| k <= i < slots@.len() ==> slots@[i] >= 32 * g,
            body@ == slot_groups(kind.mode, cb@, slots@, g as nat),
        decreases groups - g,
    {
        let mut flag: u32 = 0;
        let mut entries: Vec<u8> = Vec::new();
        let mut bit: usize = 0;
        while bit < 32
            invariant
                bit <= 32,
                g < 8,
                ascending(slots@),
                k <= slots@.len(),
                forall|i: int| 0 <= i < k ==> slots@[i] < 32 * g + bit,
                forall|i: int| k <= i < slots@.len() ==> slots@[i] >= 32 * g + bit,
                flag == slot_flags(slots@, g as int, bit as nat),
                entries@ == slot_entries(kind.mode, cb@, slots@, g as int, bit as nat),
            decreases 32 - bit,
        {
            let ghost slot = (32 * g + bit) as u8;
            if k < slots.len() && slots[k] as usize == 32 * g + bit {
                assert(slots@[k as int] == slot);
                assert(slots@.contains(slot));
                flag = set_bit(flag, bit as u32);
                write_entry(kind.mode, &cb.entries[32 * g + bit], &mut entries);
                k = k + 1;
            } else {
                assert(!slots@.contains(slot));
            }
            bit = bit + 1;
        }
        put32(&mut body, flag);
        put_bytes(&mut body, entries.as_slice());
        g = g + 1;
    }
    proof {
        slot_groups_len(kind.mode, cb@, slots@, group_count(slots@));
    }
    put16(out, kind.to_id());
    put16(out, (CHUNK_HEADER_SIZE + body.len()) as u16);
    put_bytes(out, body.as_slice());
    assert(out@ =~= before + selective_chunk(kind, cb@, slots@));
}

pub proof fn entries_bytes_len(m: PixelMode, cb: Seq<CodebookEntry>, n: nat)
    ensures
        entries_bytes(m, cb, n).len() == n * entry_bytes_len(m),
    decreases n,
{
    if n > 0 {
        entries_bytes_len(m, cb, (n - 1) as nat);
        assert(n * entry_bytes_len(m) == (n - 1) * entry_bytes_len(m) + entry_bytes_len(m))
            by (nonlinear_arith);
    } else {
        assert(0 * entry_bytes_len(m) == 0) by (nonlinear_arith);
    }
}

proof fn slot_entries_len(m: PixelMode, cb: Seq<CodebookEntry>, slots: Seq<u8>, g: int, n: nat)
    ensures
        slot_entries(m, cb, slots, g, n).len() <= n * 6,
    decreases n,
{
    if n > 0 {
        slot_entries_len(m, cb, slots, g, (n - 1) as nat);
    }
}

proof fn slot_groups_len(m: PixelMode, cb: Seq<CodebookEntry>, slots: Seq<u8>, n: nat)
    ensures
        slot_groups(m, cb, slots, n).len() <= n * 196,
    decreases n,
{
    if n > 0 {
        slot_groups_len(m, cb, slots, (n - 1) as nat);
        slot_entries_len(m, cb, slots, n - 1, 32);
    }
}

/// The number of slots among the first `k` that are below `v`.
spec fn slots_below(slots: Seq<u8>, v: int, k: int) -> int
    decreases k,
{
    if k <= 0 {
        0
    } else {
        slots_below(slots, v, k - 1) + if slots[k - 1] < v {
            1int
        } else {
            0int
        }
    }
}

proof fn slots_below_next(slots: Seq<u8>, v: int, k: int)
    requires
        0 <= k <= slots.len(),
        ascending(slots),
    ensures
        slots_below(slots, v + 1, k) == slots_below(slots, v, k) + if exists|j: int|
            0 <= j < k && slots[j] == v {
            1int
        } else {
            0int
        },
    decreases k,
{
    if k > 0 {
        slots_below_next(slots, v, k - 1);
        if slots[k - 1] == v {
            assert(!exists|j: int| 0 <= j < k - 1 && slots[j] == v);
        } else if exists|j: int| 0 <= j < k && slots[j] == v {
            let j = choose|j: int| 0 <= j < k && slots[j] == v;
            assert(0 <= j < k - 1 && slots[j] == v);
        }
    }
}

proof fn slots_below_ends(slots: Seq<u8>, v: int, k: int)
    requires
        0 <= k <= slots.len(),
    ensures
        v <= 0 ==> slots_below(slots, v, k) == 0,
        (forall|j: int| 0 <= j < k ==> slots[j] < v) ==> slots_below(slots, v, k) == k,
    decreases k,
{
    if k > 0 {
        slots_below_ends(slots, v, k - 1);
    }
}

proof fn slot_entries_counted(m: PixelMode, cb: Seq<CodebookEntry>, slots: Seq<u8>, g: int, n: nat)
    requires
        ascending(slots),
        0 <= g < 8,
        n <= 32,
    ensures
        slot_entries(m, cb, slots, g, n).len() == (slots_below(
            slots,
            32 * g + n,
            slots.len() as int,
        ) - slots_below(slots, 32 * g, slots.len() as int)) * entry_bytes_len(m),
    decreases n,
{
    let a = slots_below(slots, 32 * g, slots.len() as int);
    let b = slots_below(slots, 32 * g + n, slots.len() as int);
    let e = entry_bytes_len(m) as int;
    if n > 0 {
        slot_entries_counted(m, cb, slots, g, (n - 1) as nat);
        let v = 32 * g + n - 1;
        slots_below_next(slots, v, slots.len() as int);
        let before = slots_below(slots, v, slots.len() as int);
        if slots.contains(v as u8) {
            let j = choose|j: int| 0 <= j < slots.len() && slots[j] == v as u8;
            assert(slots[j] == v);
            assert(b == before + 1);
            assert((b - a) * e == (before - a) * e + e) by (nonlinear_arith)
                requires
                    b == before + 1,
            ;
        } else {
            assert(b == before) by {
                if exists|j: int| 0 <= j < slots.len() && slots[j] == v {
                    let j = choose|j: int| 0 <= j < slots.len() && slots[j] == v;
                    assert(slots[j] == v as u8);
                }
            }
        }
    } else {
        assert((b - a) * e == 0) by (nonlinear_arith)
            requires
                a == b,
        ;
    }
}

proof fn slot_groups_counted(m: PixelMode, cb: Seq<CodebookEntry>, slots: Seq<u8>, n: nat)
    requires
        ascending(slots),
        n <= 8,
    ensures
        slot_groups(m, cb, slots, n).len() == 4 * n + slots_below(
            slots,
            32 * n as int,
            slots.len() as int,
        ) * entry_bytes_len(m),
    decreases n,
{
    let e = entry_bytes_len(m) as int;
    if n > 0 {
        slot_groups_counted(m, cb, slots, (n - 1) as nat);
        slot_entries_counted(m, cb, slots, n - 1, 32);
        let a = slots_below(slots, 32 * (n - 1), slots.len() as int);
        let b = slots_below(slots, 32 * n as int, slots.len() as int);
        assert(b * e == a * e + (b - a) * e) by (nonlinear_arith);
    } else {
        slots_below_ends(slots, 0, slots.len() as int);
        assert(0 * e == 0);
    }
}

/// A selective update takes four bytes, four more for every group up to the
/// last slot, and those of its entries.
pub proof fn selective_len(m: PixelMode, cb: Seq<CodebookEntry>, slots: Seq<u8>)
    requires
        ascending(slots),
    ensures
        slot_groups(m, cb, slots, group_count(slots)).len() == 4 * group_count(slots) + slots.len()
            * entry_bytes_len(m),
{
    slot_groups_counted(m, cb, slots, group_count(slots));
    slots_below_ends(slots, 32 * group_count(slots) as int, slots.len() as int);
    if slots.len() > 0 {
        assert forall|j: int| 0 <= j < slots.len() implies slots[j] < 32 * group_count(slots) by {
            assert(slots[j] <= slots.last());
        }
    }
}

/// A codebook update takes no more bytes than a full one of 256 colour
/// entries with a flag word for every group.
pub proof fn update_len(kind: CodebookChunkKind, cb: Seq<CodebookEntry>, n: nat, slots: Seq<u8>)
    requires
        n <= 256,
    ensures
        full_chunk(kind, cb, n).len() <= 1572,
        selective_chunk(kind, cb, slots).len() <= 1572,
{
    entries_bytes_len(kind.mode, cb, n);
    assert(n * entry_bytes_len(kind.mode) <= 256 * 6) by (nonlinear_arith)
        requires
            n <= 256,
            entry_bytes_len(kind.mode) <= 6,
    ;
    slot_groups_len(kind.mode, cb, slots, group_count(slots));
}

/// The id of a kind reads back as that kind.
pub proof fn kind_round_trip(k: CodebookChunkKind)
    ensures
        kind_of_id(kind_id(k)) == Some(k),
{
}

/// An id that reads as a kind is that kind's id.
pub proof fn id_round_trip(id: u16)
    requires
        kind_of_id(id) is Some,
    ensures
        kind_id(kind_of_id(id)->0) == id,
{
}

/// A coded entry reads back as what coding keeps of it.
pub proof fn entry_round_trip(m: PixelMode, e: CodebookEntry, b: Seq<u8>, off: int)
    requires
        0 <= off,
        off + entry_bytes_len(m) <= b.len(),
        b.subrange(off, off + entry_bytes_len(m)) == entry_bytes(m, e),
    ensures
        entry_at(m, b, off) == coded(m, e),
{
    let t = b.subrange(off, off + entry_bytes_len(m));
    assert(b[off] == t[0] && b[off + 1] == t[1] && b[off + 2] == t[2] && b[off + 3] == t[3]);
    if m == PixelMode::Yuv12 {
        assert(b[off + 4] == t[4] && b[off + 5] == t[5]);
    }
}

proof fn entries_bytes_item(m: PixelMode, cb: Seq<CodebookEntry>, n: nat, i: int)
    requires
        0 <= i < n,
    ensures
        entries_bytes(m, cb, n).len() == n * entry_bytes_len(m),
        i * entry_bytes_len(m) + entry_bytes_len(m) <= n * entry_bytes_len(m),
        entries_bytes(m, cb, n).subrange(
            i * entry_bytes_len(m),
            i * entry_bytes_len(m) + entry_bytes_len(m),
        ) == entry_bytes(m, cb[i]),
    decreases n,
{
    let es = entry_bytes_len(m);
    entries_bytes_len(m, cb, n);
    entries_bytes_len(m, cb, (n - 1) as nat);
    assert(i * es + es <= n * es) by (nonlinear_arith)
        requires
            i + 1 <= n,
            es >= 0,
    ;
    assert(n * es == (n - 1) * es + es) by (nonlinear_arith);
    assert(0 <= i * es) by (nonlinear_arith)
        requires
            0 <= i,
            es >= 0,
    ;
    if i < n - 1 {
        entries_bytes_item(m, cb, (n - 1) as nat, i);
        assert(entries_bytes(m, cb, n).subrange(i * es, i * es + es) =~= entries_bytes(
            m,
            cb,
            (n - 1) as nat,
        ).subrange(i * es, i * es + es));
    } else {
        assert(entries_bytes(m, cb, n).subrange(i * es, i * es + es) =~= entry_bytes(m, cb[i]));
    }
}

/// Applying a full update that was encoded from a codebook's first `n`
/// entries replaces exactly those entries, and always succeeds.
pub proof fn full_round_trip(
    kind: CodebookChunkKind,
    cb: Seq<CodebookEntry>,
    n: nat,
    prior: Seq<CodebookEntry>,
    tolerate: bool,
)
    requires
        kind.style == UpdateStyle::Full,
        n <= 256,
        prior.len() == 256,
    ensures
        codebook_update(kind, entries_bytes(kind.mode, cb, n), prior, tolerate) == (
            Seq::new(
                256,
                |i: int|
                    if i < n {
                        coded(kind.mode, cb[i])
                    } else {
                        prior[i]
                    },
            ),
            Ok::<(), ErrorView>(()),
        ),
{
    let m = kind.mode;
    let es = entry_bytes_len(m);
    let b = entries_bytes(m, cb, n);
    entries_bytes_len(m, cb, n);
    assert((n * es) % es == 0 && (n * es) / es == n) by (nonlinear_arith)
        requires
            es > 0,
    ;
    let want = Seq::new(
        256,
        |i: int|
            if i < n {
                coded(m, cb[i])
            } else {
                prior[i]
            },
    );
    assert forall|i: int| 0 <= i < n implies entry_at(m, b, i * es) == coded(m, cb[i]) by {
        entries_bytes_item(m, cb, n, i);
        assert(0 <= i * es) by (nonlinear_arith)
            requires
                0 <= i,
                es >= 0,
        ;
        entry_round_trip(m, cb[i], b, i * es);
    }
    assert(replaced(m, b, n as int, prior) =~= want);
}

/// A chunk without payload leaves the codebook as it is.
pub proof fn header_only_keeps(kind: CodebookChunkKind, prior: Seq<CodebookEntry>, tolerate: bool)
    ensures
        codebook_update(kind, Seq::empty(), prior, tolerate) == (prior, Ok::<(), ErrorView>(())),
{
    assert(replaced(kind.mode, Seq::empty(), 0, prior) =~= prior);
}

/// A full update leaves every entry from its length on as it was.
pub proof fn full_keeps_rest(
    kind: CodebookChunkKind,
    payload: Seq<u8>,
    prior: Seq<CodebookEntry>,
    tolerate: bool,
    i: int,
)
    requires
        kind.style == UpdateStyle::Full,
        payload.len() / entry_bytes_len(kind.mode) <= i < prior.len(),
    ensures
        codebook_update(kind, payload, prior, tolerate).0[i] == prior[i],
{
}

proof fn slot_flags_bits(slots: Seq<u8>, g: int, n: nat, j: int)
    requires
        0 <= g < 8,
        n <= 32,
        0 <= j < 32,
    ensures
        bits::bit_at(slot_flags(slots, g, n), j) == (j < n && slots.contains((32 * g + j) as u8)),
    decreases n,
{
    if n == 0 {
        bits::zero_word_bits(j);
    } else {
        slot_flags_bits(slots, g, (n - 1) as nat, j);
        bits::with_bit_bits(slot_flags(slots, g, (n - 1) as nat), n - 1, j);
    }
}

proof fn slot_entries_prefix(
    m: PixelMode,
    cb: Seq<CodebookEntry>,
    slots: Seq<u8>,
    g: int,
    a: nat,
    b: nat,
)
    requires
        a <= b,
    ensures
        slot_entries(m, cb, slots, g, a).len() <= slot_entries(m, cb, slots, g, b).len(),
        slot_entries(m, cb, slots, g, b).subrange(
            0,
            slot_entries(m, cb, slots, g, a).len() as int,
        ) == slot_entries(m, cb, slots, g, a),
    decreases b,
{
    let sa = slot_entries(m, cb, slots, g, a);
    let sb = slot_entries(m, cb, slots, g, b);
    if a == b {
        assert(sb.subrange(0, sa.len() as int) =~= sa);
    } else {
        let sc = slot_entries(m, cb, slots, g, (b - 1) as nat);
        slot_entries_prefix(m, cb, slots, g, a, (b - 1) as nat);
        assert(sb.subrange(0, sa.len() as int) =~= sc.subrange(0, sa.len() as int));
    }
}

/// The codebook with the entries of `slots` below slot `n` replaced.
pub open spec fn slots_replaced(
    m: PixelMode,
    cb: Seq<CodebookEntry>,
    slots: Seq<u8>,
    n: int,
    prior: Seq<CodebookEntry>,
) -> Seq<CodebookEntry> {
    Seq::new(
        prior.len(),
        |i: int|
            if i < n && slots.contains(i as u8) {
                coded(m, cb[i])
            } else {
                prior[i]
            },
    )
}

proof fn selective_group_round_trip(
    m: PixelMode,
    cb: Seq<CodebookEntry>,
    slots: Seq<u8>,
    g: int,
    bit: nat,
    payload: Seq<u8>,
    start: int,
    prior: Seq<CodebookEntry>,
)
    requires
        0 <= g < 8,
        bit <= 32,
        prior.len() == 256,
        0 <= start,
        start + slot_entries(m, cb, slots, g, 32).len() <= payload.len(),
        payload.subrange(start, start + slot_entries(m, cb, slots, g, 32).len()) == slot_entries(
            m,
            cb,
            slots,
            g,
            32,
        ),
    ensures
        selective_group(
            m,
            payload,
            slot_flags(slots, g, 32),
            bit as int,
            start + slot_entries(m, cb, slots, g, bit).len(),
            32 * g,
            slots_replaced(m, cb, slots, 32 * g + bit, prior),
        ) == (
            slots_replaced(m, cb, slots, 32 * g + 32, prior),
            start + slot_entries(m, cb, slots, g, 32).len(),
            true,
        ),
    decreases 32 - bit,
{
    if bit < 32 {
        let flag = slot_flags(slots, g, 32);
        let cur = slots_replaced(m, cb, slots, 32 * g + bit, prior);
        let nxt = slots_replaced(m, cb, slots, 32 * g + bit + 1, prior);
        let all = slot_entries(m, cb, slots, g, 32);
        let p = start + slot_entries(m, cb, slots, g, bit).len();
        slot_flags_bits(slots, g, 32, bit as int);
        selective_group_round_trip(m, cb, slots, g, bit + 1, payload, start, prior);
        if slots.contains((32 * g + bit) as u8) {
            let es = entry_bytes_len(m);
            let upto = slot_entries(m, cb, slots, g, bit + 1);
            slot_entries_prefix(m, cb, slots, g, bit + 1, 32);
            assert(payload.subrange(p, p + es) =~= upto.subrange(
                upto.len() - es,
                upto.len() as int,
            )) by {
                assert forall|k: int| 0 <= k < es implies #[trigger] payload.subrange(p, p + es)[k]
                    == upto.subrange(upto.len() - es, upto.len() as int)[k] by {
                    assert(payload.subrange(start, start + all.len())[p - start + k] == all[p
                        - start + k]);
                    assert(all.subrange(0, upto.len() as int)[p - start + k] == upto[p - start
                        + k]);
                }
            }
            assert(upto.subrange(upto.len() - es, upto.len() as int) =~= entry_bytes(
                m,
                cb[32 * g + bit],
            ));
            entry_round_trip(m, cb[32 * g + bit], payload, p);
            assert(cur.update(32 * g + bit, entry_at(m, payload, p)) =~= nxt);
        } else {
            assert(cur =~= nxt);
        }
    }
}

proof fn slot_groups_prefix(
    m: PixelMode,
    cb: Seq<CodebookEntry>,
    slots: Seq<u8>,
    a: nat,
    b: nat,
)
    requires
        a <= b,
    ensures
        slot_groups(m, cb, slots, a).len() <= slot_groups(m, cb, slots, b).len(),
        slot_groups(m, cb, slots, b).subrange(0, slot_groups(m, cb, slots, a).len() as int)
            == slot_groups(m, cb, slots, a),
    decreases b,
{
    let sa = slot_groups(m, cb, slots, a);
    let sb = slot_groups(m, cb, slots, b);
    if a == b {
        assert(sb.subrange(0, sa.len() as int) =~= sa);
    } else {
        let sc = slot_groups(m, cb, slots, (b - 1) as nat);
        slot_groups_prefix(m, cb, slots, a, (b - 1) as nat);
        assert(sb.subrange(0, sa.len() as int) =~= sc.subrange(0, sa.len() as int));
    }
}

proof fn selective_update_round_trip(
    m: PixelMode,
    cb: Seq<CodebookEntry>,
    slots: Seq<u8>,
    g: nat,
    n: nat,
    prior: Seq<CodebookEntry>,
)
    requires
        g <= n <= 8,
        prior.len() == 256,
    ensures
        selective_update(
            m,
            slot_groups(m, cb, slots, n),
            slot_groups(m, cb, slots, g).len() as int,
            32 * (g as int),
            slots_replaced(m, cb, slots, 32 * (g as int), prior),
        ) == (slots_replaced(m, cb, slots, 32 * (n as int), prior), Ok::<(), ErrorView>(())),
    decreases n - g,
{
    if g < n {
        let all = slot_groups(m, cb, slots, n);
        let done = slot_groups(m, cb, slots, g);
        let upto = slot_groups(m, cb, slots, g + 1);
        let flag = slot_flags(slots, g as int, 32);
        let body = slot_entries(m, cb, slots, g as int, 32);
        let p = done.len() as int;
        slot_groups_prefix(m, cb, slots, g + 1, n);
        assert(all.subrange(p, p + 4) =~= bits::be32_bytes(flag)) by {
            assert forall|k: int| 0 <= k < 4 implies #[trigger] all.subrange(p, p + 4)[k] == bits::be32_bytes(
                flag,
            )[k] by {
                assert(all.subrange(0, upto.len() as int)[p + k] == upto[p + k]);
            }
        }
        bits::be32_round_trip(all, p, flag);
        assert(all.subrange(p + 4, p + 4 + body.len()) =~= body) by {
            assert forall|k: int| 0 <= k < body.len() implies #[trigger] all.subrange(
                p + 4,
                p + 4 + body.len(),
            )[k] == body[k] by {
                assert(all.subrange(0, upto.len() as int)[p + 4 + k] == upto[p + 4 + k]);
            }
        }
        selective_group_round_trip(m, cb, slots, g as int, 0, all, p + 4, prior);
        selective_update_round_trip(m, cb, slots, g + 1, n, prior);
    }
}

/// Applying a selective update that was encoded from a codebook replaces
/// exactly the chosen slots, leaves every other slot as it was, and always
/// succeeds.
pub proof fn selective_round_trip(
    kind: CodebookChunkKind,
    cb: Seq<CodebookEntry>,
    slots: Seq<u8>,
    prior: Seq<CodebookEntry>,
    tolerate: bool,
)
    requires
        kind.style == UpdateStyle::Selective,
        ascending(slots),
        prior.len() == 256,
    ensures
        codebook_update(
            kind,
            slot_groups(kind.mode, cb, slots, group_count(slots)),
            prior,
            tolerate,
        ) == (
            Seq::new(
                256,
                |i: int|
                    if slots.contains(i as u8) {
                        coded(kind.mode, cb[i])
                    } else {
                        prior[i]
                    },
            ),
            Ok::<(), ErrorView>(()),
        ),
{
    let m = kind.mode;
    let n = group_count(slots);
    let want = Seq::new(
        256,
        |i: int|
            if slots.contains(i as u8) {
                coded(m, cb[i])
            } else {
                prior[i]
            },
    );
    selective_update_round_trip(m, cb, slots, 0, n, prior);
    assert(slots_replaced(m, cb, slots, 0, prior) =~= prior);
    assert forall|i: int|
        #![trigger want[i]]
        0 <= i < 256 && slots.contains(i as u8) implies i < 32 * n by {
        let k = choose|k: int| 0 <= k < slots.len() && slots[k] == i as u8;
        assert(slots[k] <= slots.last());
    }
    assert(slots_replaced(m, cb, slots, 32 * (n as int), prior) =~= want);
}

} // verus!
