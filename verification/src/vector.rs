//! Vector chunks: which codebook entries a strip's macroblocks use.
//!
//! Three grammars exist. `0x3200` holds one V1 index per macroblock.
//! `0x3000` holds groups of up to 32 macroblocks, each with a flag word
//! (a set bit says V4) followed by the group's indices. `0x3100` codes each
//! macroblock as `0` (skip), `10` (V1) or `11` (V4) in a stream of flag
//! words; the indices of the macroblocks whose code ends in a word follow
//! that word. A code may begin in one word and end in the next.

use vstd::prelude::*;
use crate::bits::{self, put32, put_bytes, read32, set_bit, test_bit};
use crate::error::{invalid, other, CinepakError, ErrorView, Result};
use crate::text::{self, cat, cat_dec, cat_hex4, lit};

pub use crate::macroblocks::{
    InterEntry, InterMacroblocks, InterMb, MixedIntraCoding, MixedIntraEntry, MixedIntraMacroblocks,
    MixedIntraMb, MixedIntraRgbBlock, MixedIntraRgbBlocks, V1MacroblockEntry, V1OnlyMacroblocks,
};

verus! {

/// Vector chunk with V1 macroblocks only.
pub const VECTOR_CHUNK_V1_ONLY: u16 = 0x3200;

/// Vector chunk with V1 and V4 macroblocks.
pub const VECTOR_CHUNK_INTRA: u16 = 0x3000;

/// Vector chunk with skipped, V1 and V4 macroblocks.
pub const VECTOR_CHUNK_INTER: u16 = 0x3100;

/// How one macroblock is coded.
#[derive(Clone, Copy, Debug, PartialEq, Eq)]
pub enum Mb {
    /// The pixels of the previous frame.
    Skip,
    /// One V1 entry, each of its pixels doubled in both directions.
    V1(u8),
    /// Four V4 entries: top left, top right, bottom left, bottom right.
    V4([u8; 4]),
}

/// A macroblock's coding without its indices.
#[derive(Clone, Copy, Debug, PartialEq, Eq, Structural)]
pub enum Coding {
    Skip,
    V1,
    V4,
}

/// The coding of a macroblock.
pub open spec fn coding_of(mb: Mb) -> Coding {
    match mb {
        Mb::Skip => Coding::Skip,
        Mb::V1(_) => Coding::V1,
        Mb::V4(_) => Coding::V4,
    }
}

/// Index bytes of a macroblock.
pub open spec fn index_len(c: Coding) -> nat {
    match c {
        Coding::Skip => 0,
        Coding::V1 => 1,
        Coding::V4 => 4,
    }
}

/// The macroblock whose indices lie at `payload[p..]`.
pub open spec fn mb_at(c: Coding, payload: Seq<u8>, p: int) -> Mb {
    match c {
        Coding::Skip => Mb::Skip,
        Coding::V1 => Mb::V1(payload[p]),
        Coding::V4 => Mb::V4([payload[p], payload[p + 1], payload[p + 2], payload[p + 3]]),
    }
}

/// The first `n` macroblocks of a group whose codings are `kinds` and whose
/// indices start at `p`: those that are whole, the offset reached, and the
/// coding of the one whose indices are missing, if there is one.
pub open spec fn group_mbs(payload: Seq<u8>, p: int, kinds: Seq<Coding>, n: nat) -> (
    Seq<Mb>,
    int,
    Option<Coding>,
)
    decreases n,
{
    if n == 0 {
        (Seq::empty(), p, None)
    } else {
        let (mbs, q, missing) = group_mbs(payload, p, kinds, (n - 1) as nat);
        let c = kinds[n - 1];
        if missing is Some {
            (mbs, q, missing)
        } else if payload.len() - q < index_len(c) {
            (mbs, q, Some(c))
        } else {
            (mbs.push(mb_at(c, payload, q)), q + index_len(c), None)
        }
    }
}

/// Message of a vector chunk whose id is not defined.
pub open spec fn unknown_vector_chunk(id: u16) -> ErrorView {
    ErrorView::InvalidData("unknown vector chunk id 0x"@ + text::hex4(id))
}

/// Message of a V1-only chunk whose length is not the macroblock count.
pub open spec fn v1_only_length(len: nat, count: nat) -> ErrorView {
    ErrorView::InvalidData("0x3200 payload len "@ + text::dec(len) + " != mb_count "@ + text::dec(count))
}

/// Message of an intra chunk that ends inside a flag word.
pub open spec fn intra_short_flag() -> ErrorView {
    ErrorView::InvalidData("0x3000 truncated mid-flag-word"@)
}

/// Message of an intra chunk that ends inside the indices of a macroblock.
pub open spec fn intra_short_index(c: Coding) -> ErrorView {
    match c {
        Coding::V4 => ErrorView::InvalidData("0x3000 truncated mid-V4-index"@),
        _ => ErrorView::InvalidData("0x3000 truncated mid-V1-index"@),
    }
}

/// Message of an inter chunk that ends inside a flag word.
pub open spec fn inter_short_flag() -> ErrorView {
    ErrorView::InvalidData("0x3100 truncated mid-flag-word"@)
}

/// Message of an inter chunk that ends inside the indices of a macroblock.
pub open spec fn inter_short_index(c: Coding) -> ErrorView {
    match c {
        Coding::V4 => ErrorView::InvalidData("0x3100 truncated mid-V4-index"@),
        _ => ErrorView::InvalidData("0x3100 truncated mid-V1-index"@),
    }
}

/// `head` in front of the macroblocks of a successful result.
pub open spec fn prepend(head: Seq<Mb>, r: core::result::Result<Seq<Mb>, ErrorView>) -> core::result::Result<
    Seq<Mb>,
    ErrorView,
> {
    match r {
        Ok(s) => Ok(head + s),
        Err(e) => Err(e),
    }
}

/// The macroblocks of a V1-only chunk.
pub open spec fn v1_only_mbs(payload: Seq<u8>, count: nat) -> core::result::Result<
    Seq<Mb>,
    ErrorView,
> {
    if payload.len() != count {
        Err(v1_only_length(payload.len(), count))
    } else {
        Ok(payload.map_values(|b: u8| Mb::V1(b)))
    }
}

/// The codings of the first `n` macroblocks of an intra group.
pub open spec fn intra_kinds(flag: u32, n: nat) -> Seq<Coding> {
    Seq::new(
        n,
        |i: int|
            if bits::bit_at(flag, i) {
                Coding::V4
            } else {
                Coding::V1
            },
    )
}

/// Macroblocks in a group of an intra chunk with `count` macroblocks left.
pub open spec fn intra_group_len(count: nat) -> nat {
    if count < 32 {
        count
    } else {
        32
    }
}

/// The `count` macroblocks of an intra chunk from offset `p` on.
pub open spec fn intra_mbs(payload: Seq<u8>, p: int, count: nat) -> core::result::Result<
    Seq<Mb>,
    ErrorView,
>
    decreases count,
{
    if count == 0 {
        Ok(Seq::empty())
    } else if payload.len() - p < 4 {
        Err(intra_short_flag())
    } else {
        let n = intra_group_len(count);
        let (mbs, q, missing) = group_mbs(
            payload,
            p + 4,
            intra_kinds(bits::be32(payload, p), n),
            n,
        );
        match missing {
            Some(c) => Err(intra_short_index(c)),
            None => prepend(mbs, intra_mbs(payload, q, (count - n) as nat)),
        }
    }
}

/// The coding that a selector bit stands for.
pub open spec fn selected(v4: bool) -> Coding {
    if v4 {
        Coding::V4
    } else {
        Coding::V1
    }
}

/// The codings of at most `count` macroblocks whose codes lie in the bits
/// from `bit` on, and whether the last bit opens a code that the next word
/// ends.
pub open spec fn scan_codes(flag: u32, bit: int, count: nat) -> (Seq<Coding>, bool)
    decreases count,
{
    if count == 0 || bit >= 32 {
        (Seq::empty(), false)
    } else if !bits::bit_at(flag, bit) {
        let (s, open_code) = scan_codes(flag, bit + 1, (count - 1) as nat);
        (seq![Coding::Skip] + s, open_code)
    } else if bit + 1 >= 32 {
        (Seq::empty(), true)
    } else {
        let (s, open_code) = scan_codes(flag, bit + 2, (count - 1) as nat);
        (seq![selected(bits::bit_at(flag, bit + 1))] + s, open_code)
    }
}

/// The codings of the macroblocks whose codes end in one word, where
/// `pending` says that the word before opened a code; and whether this word
/// opens one.
pub open spec fn inter_kinds(flag: u32, pending: bool, count: nat) -> (Seq<Coding>, bool) {
    if pending && count > 0 {
        let (s, open_code) = scan_codes(flag, 1, (count - 1) as nat);
        (seq![selected(bits::bit_at(flag, 0))] + s, open_code)
    } else {
        scan_codes(flag, 0, count)
    }
}

proof fn scan_codes_len(flag: u32, bit: int, count: nat)
    ensures
        scan_codes(flag, bit, count).0.len() <= count,
        scan_codes(flag, bit, count).1 ==> scan_codes(flag, bit, count).0.len() < count,
        0 <= bit <= 30 && count > 0 ==> scan_codes(flag, bit, count).0.len() > 0,
        scan_codes(flag, bit, count).0.len() <= if bit < 32 {
            32 - bit
        } else {
            0
        },
    decreases count,
{
    if count > 0 && bit < 32 {
        scan_codes_len(flag, bit + 1, (count - 1) as nat);
        scan_codes_len(flag, bit + 2, (count - 1) as nat);
    }
}

pub(crate) proof fn inter_kinds_len(flag: u32, pending: bool, count: nat)
    ensures
        inter_kinds(flag, pending, count).0.len() <= count,
        inter_kinds(flag, pending, count).0.len() <= 32,
        inter_kinds(flag, pending, count).1 ==> inter_kinds(flag, pending, count).0.len() < count,
        count > 0 ==> inter_kinds(flag, pending, count).0.len() > 0,
{
    scan_codes_len(flag, 0, count);
    if count > 0 {
        scan_codes_len(flag, 1, (count - 1) as nat);
    }
}

/// The `count` macroblocks of an inter chunk from offset `p` on.
pub open spec fn inter_mbs(payload: Seq<u8>, p: int, pending: bool, count: nat) -> core::result::Result<
    Seq<Mb>,
    ErrorView,
>
    decreases count,
    via inter_mbs_decreases
{
    if count == 0 {
        Ok(Seq::empty())
    } else if payload.len() - p < 4 {
        Err(inter_short_flag())
    } else {
        let (kinds, open_code) = inter_kinds(bits::be32(payload, p), pending, count);
        let (mbs, q, missing) = group_mbs(payload, p + 4, kinds, kinds.len());
        match missing {
            Some(c) => Err(inter_short_index(c)),
            None => prepend(
                mbs,
                inter_mbs(payload, q, open_code, (count - kinds.len()) as nat),
            ),
        }
    }
}

#[via_fn]
proof fn inter_mbs_decreases(payload: Seq<u8>, p: int, pending: bool, count: nat) {
    inter_kinds_len(bits::be32(payload, p), pending, count);
}

/// The macroblocks of a vector chunk.
pub open spec fn vector_mbs(id: u16, payload: Seq<u8>, count: nat) -> core::result::Result<
    Seq<Mb>,
    ErrorView,
> {
    if id == VECTOR_CHUNK_V1_ONLY {
        v1_only_mbs(payload, count)
    } else if id == VECTOR_CHUNK_INTRA {
        intra_mbs(payload, 0, count)
    } else if id == VECTOR_CHUNK_INTER {
        inter_mbs(payload, 0, false, count)
    } else {
        Err(unknown_vector_chunk(id))
    }
}

/// A list of macroblocks with the vector replaced by its view.
pub open spec fn mbs_outcome(r: Result<Vec<Mb>>) -> core::result::Result<Seq<Mb>, ErrorView> {
    match r {
        Ok(v) => Ok(v@),
        Err(e) => Err(e@),
    }
}

/// Decodes a vector chunk for `mb_count` macroblocks. Bytes after the last
/// index of a `0x3000` or `0x3100` chunk are not looked at.
pub fn decode_vector_chunk(chunk_id: u16, payload: &[u8], mb_count: usize) -> (r: Result<Vec<Mb>>)
    ensures
        mbs_outcome(r) == vector_mbs(chunk_id, payload@, mb_count as nat),
{
    if chunk_id == VECTOR_CHUNK_V1_ONLY {
        decode_v1_only(payload, mb_count)
    } else if chunk_id == VECTOR_CHUNK_INTRA {
        decode_mixed_intra(payload, mb_count)
    } else if chunk_id == VECTOR_CHUNK_INTER {
        decode_inter(payload, mb_count)
    } else {
        Err(CinepakError::invalid(cat_hex4(lit("unknown vector chunk id 0x"), chunk_id)))
    }
}

pub(crate) fn v1_only_length_error(len: usize, mb_count: usize) -> (e: CinepakError)
    ensures
        e@ == v1_only_length(len as nat, mb_count as nat),
{
    CinepakError::invalid(
        cat_dec(
            cat(cat_dec(lit("0x3200 payload len "), len as u64), " != mb_count "),
            mb_count as u64,
        ),
    )
}

fn decode_v1_only(payload: &[u8], mb_count: usize) -> (r: Result<Vec<Mb>>)
    ensures
        mbs_outcome(r) == v1_only_mbs(payload@, mb_count as nat),
{
    if payload.len() != mb_count {
        return Err(v1_only_length_error(payload.len(), mb_count));
    }
    let mut out: Vec<Mb> = Vec::new();
    let mut i: usize = 0;
    while i < payload.len()
        invariant
            i <= payload@.len(),
            out@ == payload@.subrange(0, i as int).map_values(|b: u8| Mb::V1(b)),
        decreases payload@.len() - i,
    {
        out.push(Mb::V1(payload[i]));
        i = i + 1;
        assert(out@ =~= payload@.subrange(0, i as int).map_values(|b: u8| Mb::V1(b)));
    }
    assert(payload@.subrange(0, i as int) =~= payload@);
    Ok(out)
}

/// Reads the indices of one group and appends its macroblocks; returns the
/// coding of the macroblock whose indices are missing, if there is one.
pub(crate) fn read_group(payload: &[u8], p: &mut usize, kinds: &Vec<Coding>, out: &mut Vec<Mb>) -> (r: Option<
    Coding,
>)
    requires
        *old(p) <= payload@.len(),
    ensures
        *final(p) <= payload@.len(),
        ({
            let g = group_mbs(payload@, *old(p) as int, kinds@, kinds@.len());
            final(out)@ == old(out)@ + g.0 && *final(p) == g.1 && r == g.2
        }),
{
    let ghost start = *p as int;
    let ghost head = out@;
    let mut i: usize = 0;
    while i < kinds.len()
        invariant
            i <= kinds@.len(),
            *p <= payload@.len(),
            head == old(out)@,
            start == *old(p),
            out@ == head + group_mbs(payload@, start, kinds@, i as nat).0,
            *p == group_mbs(payload@, start, kinds@, i as nat).1,
            group_mbs(payload@, start, kinds@, i as nat).2 is None,
        decreases kinds@.len() - i,
    {
        let left: usize = payload.len() - *p;
        let missing = match kinds[i] {
            Coding::Skip => false,
            Coding::V1 => left < 1,
            Coding::V4 => left < 4,
        };
        if missing {
            proof {
                group_mbs_stops(payload@, start, kinds@, (i + 1) as nat, kinds@.len());
            }
            return Some(kinds[i]);
        }
        match kinds[i] {
            Coding::Skip => {
                out.push(Mb::Skip);
            },
            Coding::V1 => {
                out.push(Mb::V1(payload[*p]));
                *p = *p + 1;
            },
            Coding::V4 => {
                out.push(
                    Mb::V4([payload[*p], payload[*p + 1], payload[*p + 2], payload[*p + 3]]),
                );
                *p = *p + 4;
            },
        }
        i = i + 1;
        assert(out@ =~= head + group_mbs(payload@, start, kinds@, i as nat).0);
    }
    None
}

/// Once indices are missing, the group ends there.
pub(crate) proof fn group_mbs_stops(
    payload: Seq<u8>,
    p: int,
    kinds: Seq<Coding>,
    a: nat,
    b: nat,
)
    requires
        a <= b,
        group_mbs(payload, p, kinds, a).2 is Some,
    ensures
        group_mbs(payload, p, kinds, b) == group_mbs(payload, p, kinds, a),
    decreases b,
{
    if a < b {
        group_mbs_stops(payload, p, kinds, a, (b - 1) as nat);
    }
}

pub(crate) proof fn group_mbs_shape(payload: Seq<u8>, p: int, kinds: Seq<Coding>, n: nat)
    requires
        0 <= p <= payload.len(),
    ensures
        p <= group_mbs(payload, p, kinds, n).1 <= payload.len(),
        group_mbs(payload, p, kinds, n).0.len() <= n,
        group_mbs(payload, p, kinds, n).2 is None ==> group_mbs(payload, p, kinds, n).0.len() == n,
    decreases n,
{
    if n > 0 {
        group_mbs_shape(payload, p, kinds, (n - 1) as nat);
    }
}

fn decode_mixed_intra(payload: &[u8], mb_count: usize) -> (r: Result<Vec<Mb>>)
    ensures
        mbs_outcome(r) == intra_mbs(payload@, 0, mb_count as nat),
{
    let mut out: Vec<Mb> = Vec::new();
    let mut p: usize = 0;
    assert(prepend(out@, intra_mbs(payload@, 0, mb_count as nat)) =~= intra_mbs(
        payload@,
        0,
        mb_count as nat,
    )) by {
        prepend_nothing(intra_mbs(payload@, 0, mb_count as nat));
    }
    while out.len() < mb_count
        invariant
            p <= payload@.len(),
            out@.len() <= mb_count,
            intra_mbs(payload@, 0, mb_count as nat) == prepend(
                out@,
                intra_mbs(payload@, p as int, (mb_count - out@.len()) as nat),
            ),
        decreases mb_count - out@.len(),
    {
        if payload.len() - p < 4 {
            return Err(invalid("0x3000 truncated mid-flag-word"));
        }
        let ghost before = out@;
        let ghost start = p as int;
        let left: usize = mb_count - out.len();
        let n: usize = if left < 32 {
            left
        } else {
            32
        };
        let flag: u32 = read32(payload, p);
        p = p + 4;
        let mut kinds: Vec<Coding> = Vec::new();
        let mut bit: usize = 0;
        while bit < n
            invariant
                bit <= n <= 32,
                kinds@ == intra_kinds(flag, bit as nat),
            decreases n - bit,
        {
            kinds.push(
                if test_bit(flag, bit as u32) {
                    Coding::V4
                } else {
                    Coding::V1
                },
            );
            bit = bit + 1;
            assert(kinds@ =~= intra_kinds(flag, bit as nat));
        }
        proof {
            group_mbs_shape(payload@, start + 4, kinds@, n as nat);
        }
        match read_group(payload, &mut p, &kinds, &mut out) {
            Some(Coding::V4) => {
                return Err(invalid("0x3000 truncated mid-V4-index"));
            },
            Some(_) => {
                return Err(invalid("0x3000 truncated mid-V1-index"));
            },
            None => {},
        }
        proof {
            prepend_twice(
                before,
                group_mbs(payload@, start + 4, kinds@, n as nat).0,
                intra_mbs(payload@, p as int, (left - n) as nat),
            );
        }
    }
    assert(out@ + Seq::<Mb>::empty() =~= out@);
    Ok(out)
}

proof fn prepend_twice(a: Seq<Mb>, b: Seq<Mb>, r: core::result::Result<Seq<Mb>, ErrorView>)
    ensures
        prepend(a, prepend(b, r)) == prepend(a + b, r),
{
    if let Ok(s) = r {
        assert(a + (b + s) =~= a + b + s);
    }
}

proof fn prepend_nothing(r: core::result::Result<Seq<Mb>, ErrorView>)
    ensures
        prepend(Seq::empty(), r) == r,
{
    if let Ok(s) = r {
        assert(Seq::<Mb>::empty() + s =~= s);
    }
}

/// Reads the codings of the macroblocks whose codes end in one word, and
/// tells whether the word opens a code that the next one ends.
pub(crate) fn scan_word(flag: u32, pending: bool, count: usize) -> (r: (Vec<Coding>, bool))
    requires
        count > 0,
    ensures
        (r.0@, r.1) == inter_kinds(flag, pending, count as nat),
{
    let mut kinds: Vec<Coding> = Vec::new();
    let mut bit: usize = 0;
    let ghost want = inter_kinds(flag, pending, count as nat);
    if pending {
        kinds.push(
            if test_bit(flag, 0) {
                Coding::V4
            } else {
                Coding::V1
            },
        );
        bit = 1;
    }
    let mut open_code = false;
    assert(kinds@ + scan_codes(flag, bit as int, (count - kinds@.len()) as nat).0 =~= want.0);
    while kinds.len() < count && bit < 32 && !open_code
        invariant
            bit <= 32,
            kinds@.len() <= count,
            !open_code ==> want == (
                kinds@ + scan_codes(flag, bit as int, (count - kinds@.len()) as nat).0,
                scan_codes(flag, bit as int, (count - kinds@.len()) as nat).1,
            ),
            open_code ==> want == (kinds@, true),
        decreases 32 - bit,
    {
        let ghost before = kinds@;
        let ghost rest = scan_codes(flag, bit as int, (count - kinds@.len()) as nat);
        if !test_bit(flag, bit as u32) {
            kinds.push(Coding::Skip);
            bit = bit + 1;
            assert(before + rest.0 =~= kinds@ + scan_codes(
                flag,
                bit as int,
                (count - kinds@.len()) as nat,
            ).0);
        } else if bit + 1 >= 32 {
            open_code = true;
            bit = bit + 1;
            assert(before + rest.0 =~= kinds@);
        } else {
            kinds.push(
                if test_bit(flag, (bit + 1) as u32) {
                    Coding::V4
                } else {
                    Coding::V1
                },
            );
            bit = bit + 2;
            assert(before + rest.0 =~= kinds@ + scan_codes(
                flag,
                bit as int,
                (count - kinds@.len()) as nat,
            ).0);
        }
    }
    assert(kinds@ + Seq::<Coding>::empty() =~= kinds@);
    (kinds, open_code)
}

fn decode_inter(payload: &[u8], mb_count: usize) -> (r: Result<Vec<Mb>>)
    ensures
        mbs_outcome(r) == inter_mbs(payload@, 0, false, mb_count as nat),
{
    let mut out: Vec<Mb> = Vec::new();
    let mut p: usize = 0;
    let mut pending = false;
    proof {
        prepend_nothing(inter_mbs(payload@, 0, false, mb_count as nat));
    }
    assert(out@ =~= Seq::<Mb>::empty());
    while out.len() < mb_count
        invariant
            p <= payload@.len(),
            out@.len() <= mb_count,
            inter_mbs(payload@, 0, false, mb_count as nat) == prepend(
                out@,
                inter_mbs(payload@, p as int, pending, (mb_count - out@.len()) as nat),
            ),
        decreases mb_count - out@.len(),
    {
        if payload.len() - p < 4 {
            return Err(invalid("0x3100 truncated mid-flag-word"));
        }
        let ghost before = out@;
        let ghost start = p as int;
        let ghost was_pending = pending;
        let left: usize = mb_count - out.len();
        let flag: u32 = read32(payload, p);
        p = p + 4;
        let (kinds, open_code) = scan_word(flag, pending, left);
        proof {
            inter_kinds_len(flag, was_pending, left as nat);
            group_mbs_shape(payload@, start + 4, kinds@, kinds@.len());
        }
        match read_group(payload, &mut p, &kinds, &mut out) {
            Some(Coding::V4) => {
                return Err(invalid("0x3100 truncated mid-V4-index"));
            },
            Some(_) => {
                return Err(invalid("0x3100 truncated mid-V1-index"));
            },
            None => {},
        }
        pending = open_code;
        proof {
            prepend_twice(
                before,
                group_mbs(payload@, start + 4, kinds@, kinds@.len()).0,
                inter_mbs(payload@, p as int, pending, (left - kinds@.len()) as nat),
            );
        }
    }
    assert(out@ + Seq::<Mb>::empty() =~= out@);
    Ok(out)
}

/// The index bytes of a macroblock.
pub open spec fn mb_indices(mb: Mb) -> Seq<u8> {
    match mb {
        Mb::Skip => Seq::empty(),
        Mb::V1(i) => seq![i],
        Mb::V4(idx) => seq![idx[0], idx[1], idx[2], idx[3]],
    }
}

/// The index bytes of the first `n` macroblocks.
pub open spec fn indices_bytes(mbs: Seq<Mb>, n: nat) -> Seq<u8>
    decreases n,
{
    if n == 0 {
        Seq::empty()
    } else {
        indices_bytes(mbs, (n - 1) as nat) + mb_indices(mbs[n - 1])
    }
}

/// Number of V1 macroblocks in front of the first of another coding.
pub open spec fn leading_v1(mbs: Seq<Mb>) -> nat
    decreases mbs.len(),
{
    if mbs.len() > 0 && mbs[0] is V1 {
        1 + leading_v1(mbs.subrange(1, mbs.len() as int))
    } else {
        0
    }
}

proof fn leading_v1_stops(mbs: Seq<Mb>, i: int)
    requires
        0 <= i < mbs.len(),
        forall|j: int| 0 <= j < i ==> mbs[j] is V1,
        !(mbs[i] is V1),
    ensures
        leading_v1(mbs) == i,
    decreases i,
{
    if i > 0 {
        let rest = mbs.subrange(1, mbs.len() as int);
        assert forall|j: int| 0 <= j < i - 1 implies rest[j] is V1 by {
            assert(rest[j] == mbs[j + 1]);
        }
        leading_v1_stops(rest, i - 1);
    }
}

proof fn leading_v1_all(mbs: Seq<Mb>)
    requires
        forall|j: int| 0 <= j < mbs.len() ==> mbs[j] is V1,
    ensures
        leading_v1(mbs) == mbs.len(),
    decreases mbs.len(),
{
    if mbs.len() > 0 {
        let rest = mbs.subrange(1, mbs.len() as int);
        assert forall|j: int| 0 <= j < rest.len() implies rest[j] is V1 by {
            assert(rest[j] == mbs[j + 1]);
        }
        leading_v1_all(rest);
    }
}

/// Message of a macroblock that a V1-only chunk cannot hold.
pub open spec fn v1_only_rejects() -> ErrorView {
    ErrorView::Other("0x3200 encoder only accepts V1 macroblocks"@)
}

/// Appends the payload of a V1-only chunk. It succeeds where every
/// macroblock is V1; else the indices in front of the first other
/// macroblock were appended.
pub fn encode_v1_only_payload(mbs: &[Mb], out: &mut Vec<u8>) -> (r: Result<()>)
    ensures
        final(out)@ == old(out)@ + indices_bytes(mbs@, leading_v1(mbs@)),
        match r {
            Ok(_) => leading_v1(mbs@) == mbs@.len(),
            Err(e) => leading_v1(mbs@) < mbs@.len() && e@ == v1_only_rejects(),
        },
{
    let ghost head = out@;
    let mut i: usize = 0;
    while i < mbs.len()
        invariant
            i <= mbs@.len(),
            head == old(out)@,
            forall|j: int| 0 <= j < i ==> mbs@[j] is V1,
            out@ == head + indices_bytes(mbs@, i as nat),
        decreases mbs@.len() - i,
    {
        match mbs[i] {
            Mb::V1(idx) => {
                out.push(idx);
                assert(out@ =~= head + indices_bytes(mbs@, (i + 1) as nat));
            },
            _ => {
                proof {
                    leading_v1_stops(mbs@, i as int);
                }
                return Err(other("0x3200 encoder only accepts V1 macroblocks"));
            },
        }
        i = i + 1;
    }
    proof {
        leading_v1_all(mbs@);
    }
    Ok(())
}

/// The flag word of the first `n` macroblocks of an intra group.
pub open spec fn intra_flag(mbs: Seq<Mb>, n: nat) -> u32
    decreases n,
{
    if n == 0 {
        0
    } else if mbs[n - 1] is V4 {
        bits::with_bit(intra_flag(mbs, (n - 1) as nat), n - 1)
    } else {
        intra_flag(mbs, (n - 1) as nat)
    }
}

/// Whether none of the macroblocks is skipped.
pub open spec fn no_skip(mbs: Seq<Mb>) -> bool {
    forall|i: int| 0 <= i < mbs.len() ==> !(#[trigger] mbs[i] is Skip)
}

/// The groups of an intra chunk's payload, up to the first group with a
/// skipped macroblock.
pub open spec fn intra_bytes(mbs: Seq<Mb>) -> Seq<u8>
    decreases mbs.len(),
{
    let n = intra_group_len(mbs.len());
    let group = mbs.subrange(0, n as int);
    if mbs.len() == 0 || !no_skip(group) {
        Seq::empty()
    } else {
        bits::be32_bytes(intra_flag(group, n)) + indices_bytes(group, n) + intra_bytes(
            mbs.subrange(n as int, mbs.len() as int),
        )
    }
}

/// Message of a macroblock that an intra chunk cannot hold.
pub open spec fn intra_rejects() -> ErrorView {
    ErrorView::Other("0x3000 encoder rejects Skip macroblocks"@)
}

/// Appends the payload of an intra chunk. It succeeds where no macroblock
/// is skipped; else the groups in front of the first group with a skipped
/// macroblock were appended.
pub fn encode_mixed_intra_payload(mbs: &[Mb], out: &mut Vec<u8>) -> (r: Result<()>)
    ensures
        final(out)@ == old(out)@ + intra_bytes(mbs@),
        match r {
            Ok(_) => no_skip(mbs@),
            Err(e) => !no_skip(mbs@) && e@ == intra_rejects(),
        },
{
    let ghost head = out@;
    let total: usize = mbs.len();
    let mut i: usize = 0;
    assert(mbs@.subrange(0, mbs@.len() as int) =~= mbs@);
    while i < mbs.len()
        invariant
            i <= mbs@.len(),
            total == mbs@.len(),
            head == old(out)@,
            forall|j: int| 0 <= j < i ==> !(#[trigger] mbs@[j] is Skip),
            out@ + intra_bytes(mbs@.subrange(i as int, mbs@.len() as int)) == head + intra_bytes(
                mbs@,
            ),
        decreases mbs@.len() - i,
    {
        let ghost before = out@;
        let ghost rest = mbs@.subrange(i as int, mbs@.len() as int);
        let left: usize = mbs.len() - i;
        let n: usize = if left < 32 {
            left
        } else {
            32
        };
        let ghost group = rest.subrange(0, n as int);
        assert(forall|k: int| 0 <= k < n ==> group[k] == mbs@[i + k]);
        let mut flag: u32 = 0;
        let mut indices: Vec<u8> = Vec::new();
        let mut k: usize = 0;
        while k < n
            invariant
                k <= n <= 32,
                i + n <= total,
                total == mbs@.len(),
                group.len() == n,
                head == old(out)@,
                out@ == before,
                rest == mbs@.subrange(i as int, mbs@.len() as int),
                n == intra_group_len(rest.len()),
                group == rest.subrange(0, n as int),
                before + intra_bytes(rest) == head + intra_bytes(mbs@),
                forall|k: int| 0 <= k < n ==> group[k] == mbs@[i + k],
                forall|j: int| 0 <= j < i + k ==> !(#[trigger] mbs@[j] is Skip),
                flag == intra_flag(group, k as nat),
                indices@ == indices_bytes(group, k as nat),
            decreases n - k,
        {
            assert(group[k as int] == mbs@[i + k]);
            match mbs[i + k] {
                Mb::V4(idx) => {
                    flag = set_bit(flag, k as u32);
                    indices.push(idx[0]);
                    indices.push(idx[1]);
                    indices.push(idx[2]);
                    indices.push(idx[3]);
                    assert(indices@ =~= indices_bytes(group, (k + 1) as nat));
                },
                Mb::V1(idx) => {
                    indices.push(idx);
                    assert(indices@ =~= indices_bytes(group, (k + 1) as nat));
                },
                Mb::Skip => {
                    assert(group[k as int] is Skip);
                    assert(!no_skip(group));
                    assert(before + Seq::<u8>::empty() =~= before);
                    assert(mbs@[i + k] is Skip);
                    return Err(other("0x3000 encoder rejects Skip macroblocks"));
                },
            }
            k = k + 1;
        }
        assert(no_skip(group)) by {
            assert forall|j: int| 0 <= j < group.len() implies !(#[trigger] group[j] is Skip) by {
                assert(group[j] == mbs@[i + j]);
            }
        }
        put32(out, flag);
        put_bytes(out, indices.as_slice());
        let ghost tail = rest.subrange(n as int, rest.len() as int);
        assert(tail =~= mbs@.subrange(i + n, mbs@.len() as int));
        assert(before + intra_bytes(rest) =~= out@ + intra_bytes(tail));
        i = i + n;
    }
    assert(out@ + Seq::<u8>::empty() =~= out@);
    Ok(())
}

/// How many of the macroblocks have codes that end in the bits from `bit`
/// on, and whether the last bit opens the code of the next.
pub open spec fn codes_fit(mbs: Seq<Mb>, bit: int) -> (nat, bool)
    decreases mbs.len(),
{
    if mbs.len() == 0 || bit >= 32 {
        (0, false)
    } else {
        let rest = mbs.subrange(1, mbs.len() as int);
        if mbs[0] is Skip {
            let (n, open_code) = codes_fit(rest, bit + 1);
            (n + 1, open_code)
        } else if bit + 1 >= 32 {
            (0, true)
        } else {
            let (n, open_code) = codes_fit(rest, bit + 2);
            (n + 1, open_code)
        }
    }
}

/// The word `acc` with the codes of the macroblocks written from `bit` on.
pub open spec fn codes_flag(mbs: Seq<Mb>, bit: int, acc: u32) -> u32
    decreases mbs.len(),
{
    if mbs.len() == 0 || bit >= 32 {
        acc
    } else {
        let rest = mbs.subrange(1, mbs.len() as int);
        if mbs[0] is Skip {
            codes_flag(rest, bit + 1, acc)
        } else if bit + 1 >= 32 {
            bits::with_bit(acc, bit)
        } else if mbs[0] is V4 {
            codes_flag(rest, bit + 2, bits::with_bit(bits::with_bit(acc, bit), bit + 1))
        } else {
            codes_flag(rest, bit + 2, bits::with_bit(acc, bit))
        }
    }
}

/// How many macroblocks end in one word, where `pending` says that the word
/// before opened the code of the first; and whether this word opens one.
pub open spec fn inter_fit(mbs: Seq<Mb>, pending: bool) -> (nat, bool) {
    if pending && mbs.len() > 0 {
        let (n, open_code) = codes_fit(mbs.subrange(1, mbs.len() as int), 1);
        (n + 1, open_code)
    } else {
        codes_fit(mbs, 0)
    }
}

/// The flag word of one group.
pub open spec fn inter_flag(mbs: Seq<Mb>, pending: bool) -> u32 {
    if pending && mbs.len() > 0 {
        codes_flag(
            mbs.subrange(1, mbs.len() as int),
            1,
            if mbs[0] is V4 {
                bits::with_bit(0, 0)
            } else {
                0
            },
        )
    } else {
        codes_flag(mbs, 0, 0)
    }
}

proof fn codes_fit_len(mbs: Seq<Mb>, bit: int)
    ensures
        codes_fit(mbs, bit).0 <= mbs.len(),
        codes_fit(mbs, bit).1 ==> codes_fit(mbs, bit).0 < mbs.len(),
        0 <= bit <= 30 && mbs.len() > 0 ==> codes_fit(mbs, bit).0 > 0,
    decreases mbs.len(),
{
    if mbs.len() > 0 && bit < 32 {
        let rest = mbs.subrange(1, mbs.len() as int);
        codes_fit_len(rest, bit + 1);
        codes_fit_len(rest, bit + 2);
    }
}

proof fn inter_fit_len(mbs: Seq<Mb>, pending: bool)
    ensures
        inter_fit(mbs, pending).0 <= mbs.len(),
        inter_fit(mbs, pending).1 ==> inter_fit(mbs, pending).0 < mbs.len(),
        mbs.len() > 0 ==> inter_fit(mbs, pending).0 > 0,
{
    codes_fit_len(mbs, 0);
    if mbs.len() > 0 {
        codes_fit_len(mbs.subrange(1, mbs.len() as int), 1);
    }
}

/// The payload of an inter chunk.
pub open spec fn inter_bytes(mbs: Seq<Mb>, pending: bool) -> Seq<u8>
    decreases mbs.len(),
    via inter_bytes_decreases
{
    if mbs.len() == 0 {
        Seq::empty()
    } else {
        let (n, open_code) = inter_fit(mbs, pending);
        bits::be32_bytes(inter_flag(mbs, pending)) + indices_bytes(mbs, n) + inter_bytes(
            mbs.subrange(n as int, mbs.len() as int),
            open_code,
        )
    }
}

#[via_fn]
proof fn inter_bytes_decreases(mbs: Seq<Mb>, pending: bool) {
    inter_fit_len(mbs, pending);
}

/// Appends the payload of an inter chunk.
pub fn encode_inter_payload(mbs: &[Mb], out: &mut Vec<u8>) -> (r: Result<()>)
    ensures
        r is Ok,
        final(out)@ == old(out)@ + inter_bytes(mbs@, false),
{
    let ghost head = out@;
    let total: usize = mbs.len();
    let mut i: usize = 0;
    let mut pending = false;
    assert(mbs@.subrange(0, mbs@.len() as int) =~= mbs@);
    while i < mbs.len()
        invariant
            i <= mbs@.len(),
            total == mbs@.len(),
            head == old(out)@,
            out@ + inter_bytes(mbs@.subrange(i as int, mbs@.len() as int), pending) == head
                + inter_bytes(mbs@, false),
        decreases mbs@.len() - i,
    {
        let ghost before = out@;
        let ghost was_pending = pending;
        let ghost rest = mbs@.subrange(i as int, mbs@.len() as int);
        let ghost fit = inter_fit(rest, was_pending);
        proof {
            inter_fit_len(rest, was_pending);
        }
        let mut flag: u32 = 0;
        let mut bit: usize = 0;
        let mut n: usize = 0;
        let mut indices: Vec<u8> = Vec::new();
        if pending {
            assert(rest[0] == mbs@[i as int]);
            if let Mb::V4(_) = mbs[i] {
                flag = set_bit(flag, 0);
            }
            push_indices(&mbs[i], &mut indices);
            bit = 1;
            n = 1;
            assert(indices@ =~= indices_bytes(rest, 1)) by {
                reveal_with_fuel(indices_bytes, 2);
            }
        }
        let mut open_code = false;
        assert(rest.subrange(0, rest.len() as int) =~= rest);
        while i + n < mbs.len() && bit < 32 && !open_code
            invariant
                i + n <= total,
                total == mbs@.len(),
                bit <= 32,
                rest == mbs@.subrange(i as int, mbs@.len() as int),
                fit == inter_fit(rest, was_pending),
                indices@ == indices_bytes(rest, n as nat),
                !open_code ==> fit.0 == n + codes_fit(
                    rest.subrange(n as int, rest.len() as int),
                    bit as int,
                ).0,
                !open_code ==> fit.1 == codes_fit(
                    rest.subrange(n as int, rest.len() as int),
                    bit as int,
                ).1,
                !open_code ==> inter_flag(rest, was_pending) == codes_flag(
                    rest.subrange(n as int, rest.len() as int),
                    bit as int,
                    flag,
                ),
                open_code ==> fit == (n as nat, true) && inter_flag(rest, was_pending) == flag,
            decreases 32 - bit,
        {
            let ghost left = rest.subrange(n as int, rest.len() as int);
            assert(left[0] == mbs@[i + n]);
            assert(rest[n as int] == mbs@[i + n]);
            assert(left.subrange(1, left.len() as int) =~= rest.subrange(
                n + 1,
                rest.len() as int,
            ));
            match mbs[i + n] {
                Mb::Skip => {
                    bit = bit + 1;
                    n = n + 1;
                    assert(indices@ =~= indices_bytes(rest, n as nat));
                },
                _ => {
                    flag = set_bit(flag, bit as u32);
                    if bit + 1 >= 32 {
                        open_code = true;
                        bit = bit + 1;
                    } else {
                        if let Mb::V4(_) = mbs[i + n] {
                            flag = set_bit(flag, (bit + 1) as u32);
                        }
                        push_indices(&mbs[i + n], &mut indices);
                        bit = bit + 2;
                        n = n + 1;
                    }
                },
            }
        }
        put32(out, flag);
        put_bytes(out, indices.as_slice());
        let ghost tail = rest.subrange(n as int, rest.len() as int);
        assert(tail =~= mbs@.subrange(i + n, mbs@.len() as int));
        assert(before + inter_bytes(rest, was_pending) =~= out@ + inter_bytes(tail, open_code));
        i = i + n;
        pending = open_code;
    }
    assert(out@ + Seq::<u8>::empty() =~= out@);
    Ok(())
}

fn push_indices(mb: &Mb, out: &mut Vec<u8>)
    ensures
        final(out)@ == old(out)@ + mb_indices(*mb),
{
    let ghost head = out@;
    match mb {
        Mb::Skip => {},
        Mb::V1(i) => {
            out.push(*i);
        },
        Mb::V4(idx) => {
            out.push(idx[0]);
            out.push(idx[1]);
            out.push(idx[2]);
            out.push(idx[3]);
        },
    }
    assert(out@ =~= head + mb_indices(*mb));
}

/// The codings of a list of macroblocks.
pub open spec fn codings(mbs: Seq<Mb>) -> Seq<Coding> {
    mbs.map_values(|m: Mb| coding_of(m))
}

proof fn mb_round_trip(mb: Mb, payload: Seq<u8>, p: int)
    requires
        0 <= p,
        p + mb_indices(mb).len() <= payload.len(),
        payload.subrange(p, p + mb_indices(mb).len()) == mb_indices(mb),
    ensures
        mb_at(coding_of(mb), payload, p) == mb,
        mb_indices(mb).len() == index_len(coding_of(mb)),
{
    let t = payload.subrange(p, p + mb_indices(mb).len());
    match mb {
        Mb::Skip => {},
        Mb::V1(_) => {
            assert(payload[p] == t[0]);
        },
        Mb::V4(idx) => {
            assert(payload[p] == t[0] && payload[p + 1] == t[1] && payload[p + 2] == t[2]
                && payload[p + 3] == t[3]);
            assert([payload[p], payload[p + 1], payload[p + 2], payload[p + 3]]@ =~= idx@);
            assert([payload[p], payload[p + 1], payload[p + 2], payload[p + 3]] =~= idx);
        },
    }
}

proof fn group_round_trip(mbs: Seq<Mb>, kinds: Seq<Coding>, payload: Seq<u8>, p: int, n: nat)
    requires
        n <= mbs.len(),
        n <= kinds.len(),
        forall|i: int| 0 <= i < n ==> kinds[i] == coding_of(mbs[i]),
        0 <= p,
        p + indices_bytes(mbs, n).len() <= payload.len(),
        payload.subrange(p, p + indices_bytes(mbs, n).len()) == indices_bytes(mbs, n),
    ensures
        group_mbs(payload, p, kinds, n) == (
            mbs.subrange(0, n as int),
            p + indices_bytes(mbs, n).len(),
            None::<Coding>,
        ),
    decreases n,
{
    if n == 0 {
        assert(mbs.subrange(0, 0) =~= Seq::empty());
    } else {
        let all = indices_bytes(mbs, n);
        let head = indices_bytes(mbs, (n - 1) as nat);
        let last = mb_indices(mbs[n - 1]);
        let q = p + head.len();
        let t = payload.subrange(p, p + all.len());
        assert(payload.subrange(p, p + head.len()) =~= head) by {
            assert forall|k: int| 0 <= k < head.len() implies #[trigger] payload.subrange(
                p,
                p + head.len(),
            )[k] == head[k] by {
                assert(t[k] == all[k]);
            }
        }
        group_round_trip(mbs, kinds, payload, p, (n - 1) as nat);
        assert(payload.subrange(q, q + last.len()) =~= last) by {
            assert forall|k: int| 0 <= k < last.len() implies #[trigger] payload.subrange(
                q,
                q + last.len(),
            )[k] == last[k] by {
                assert(t[head.len() + k] == all[head.len() + k]);
            }
        }
        mb_round_trip(mbs[n - 1], payload, q);
        assert(mbs.subrange(0, n - 1).push(mbs[n - 1]) =~= mbs.subrange(0, n as int));
    }
}

/// Decoding the payload that a V1-only chunk gets gives the macroblocks
/// back.
pub proof fn v1_only_round_trip(mbs: Seq<Mb>)
    requires
        leading_v1(mbs) == mbs.len(),
    ensures
        v1_only_mbs(indices_bytes(mbs, mbs.len()), mbs.len()) == Ok::<Seq<Mb>, ErrorView>(mbs),
{
    let b = indices_bytes(mbs, mbs.len());
    leading_v1_means(mbs);
    v1_indices(mbs, mbs.len());
    assert(b.map_values(|b: u8| Mb::V1(b)) =~= mbs);
}

proof fn leading_v1_means(mbs: Seq<Mb>)
    ensures
        leading_v1(mbs) <= mbs.len(),
        forall|i: int| 0 <= i < leading_v1(mbs) ==> mbs[i] is V1,
    decreases mbs.len(),
{
    if mbs.len() > 0 && mbs[0] is V1 {
        let rest = mbs.subrange(1, mbs.len() as int);
        leading_v1_means(rest);
        assert forall|i: int| 0 <= i < leading_v1(mbs) implies mbs[i] is V1 by {
            if i > 0 {
                assert(rest[i - 1] == mbs[i]);
            }
        }
    }
}

proof fn v1_indices(mbs: Seq<Mb>, n: nat)
    requires
        n <= mbs.len(),
        forall|i: int| 0 <= i < n ==> mbs[i] is V1,
    ensures
        indices_bytes(mbs, n).len() == n,
        forall|i: int| 0 <= i < n ==> mbs[i] == Mb::V1(#[trigger] indices_bytes(mbs, n)[i]),
    decreases n,
{
    if n > 0 {
        v1_indices(mbs, (n - 1) as nat);
    }
}

proof fn intra_flag_bits(mbs: Seq<Mb>, n: nat, j: int)
    requires
        n <= 32,
        0 <= j < 32,
    ensures
        bits::bit_at(intra_flag(mbs, n), j) == (j < n && mbs[j] is V4),
    decreases n,
{
    if n == 0 {
        bits::zero_word_bits(j);
    } else {
        intra_flag_bits(mbs, (n - 1) as nat, j);
        bits::with_bit_bits(intra_flag(mbs, (n - 1) as nat), n - 1, j);
    }
}

proof fn intra_round_trip_at(mbs: Seq<Mb>, payload: Seq<u8>, p: int)
    requires
        no_skip(mbs),
        0 <= p,
        p + intra_bytes(mbs).len() <= payload.len(),
        payload.subrange(p, p + intra_bytes(mbs).len()) == intra_bytes(mbs),
    ensures
        intra_mbs(payload, p, mbs.len()) == Ok::<Seq<Mb>, ErrorView>(mbs),
    decreases mbs.len(),
{
    if mbs.len() == 0 {
        assert(mbs =~= Seq::empty());
    } else {
        let n = intra_group_len(mbs.len());
        let group = mbs.subrange(0, n as int);
        let rest = mbs.subrange(n as int, mbs.len() as int);
        let flag = intra_flag(group, n);
        let body = indices_bytes(group, n);
        let tail = intra_bytes(rest);
        let all = intra_bytes(mbs);
        let t = payload.subrange(p, p + all.len());
        assert(no_skip(group)) by {
            assert forall|i: int| 0 <= i < group.len() implies !(#[trigger] group[i] is Skip) by {
                assert(group[i] == mbs[i]);
            }
        }
        assert(no_skip(rest)) by {
            assert forall|i: int| 0 <= i < rest.len() implies !(#[trigger] rest[i] is Skip) by {
                assert(rest[i] == mbs[n + i]);
            }
        }
        assert(all == bits::be32_bytes(flag) + body + tail);
        assert(payload.subrange(p, p + 4) =~= bits::be32_bytes(flag)) by {
            assert forall|k: int| 0 <= k < 4 implies #[trigger] payload.subrange(p, p + 4)[k]
                == bits::be32_bytes(flag)[k] by {
                assert(t[k] == all[k]);
            }
        }
        bits::be32_round_trip(payload, p, flag);
        let kinds = intra_kinds(flag, n);
        assert forall|i: int| 0 <= i < n implies kinds[i] == coding_of(group[i]) by {
            intra_flag_bits(group, n, i);
            assert(!(group[i] is Skip));
        }
        let q = p + 4 + body.len();
        assert(payload.subrange(p + 4, q) =~= body) by {
            assert forall|k: int| 0 <= k < body.len() implies #[trigger] payload.subrange(
                p + 4,
                q,
            )[k] == body[k] by {
                assert(t[4 + k] == all[4 + k]);
            }
        }
        group_round_trip(group, kinds, payload, p + 4, n);
        assert(payload.subrange(q, q + tail.len()) =~= tail) by {
            assert forall|k: int| 0 <= k < tail.len() implies #[trigger] payload.subrange(
                q,
                q + tail.len(),
            )[k] == tail[k] by {
                assert(t[4 + body.len() + k] == all[4 + body.len() + k]);
            }
        }
        intra_round_trip_at(rest, payload, q);
        assert(group.subrange(0, n as int) =~= group);
        assert(group + rest =~= mbs);
    }
}

/// Decoding the payload that an intra chunk gets gives the macroblocks
/// back, whatever follows it.
pub proof fn intra_round_trip(mbs: Seq<Mb>, trailing: Seq<u8>)
    requires
        no_skip(mbs),
    ensures
        intra_mbs(intra_bytes(mbs) + trailing, 0, mbs.len()) == Ok::<Seq<Mb>, ErrorView>(mbs),
{
    let payload = intra_bytes(mbs) + trailing;
    assert(payload.subrange(0, intra_bytes(mbs).len() as int) =~= intra_bytes(mbs));
    intra_round_trip_at(mbs, payload, 0);
}

proof fn codes_flag_low(mbs: Seq<Mb>, bit: int, acc: u32, j: int)
    requires
        0 <= j < bit,
        j < 32,
    ensures
        bits::bit_at(codes_flag(mbs, bit, acc), j) == bits::bit_at(acc, j),
    decreases mbs.len(),
{
    if mbs.len() > 0 && bit < 32 {
        let rest = mbs.subrange(1, mbs.len() as int);
        bits::with_bit_bits(acc, bit, j);
        codes_flag_low(rest, bit + 1, acc, j);
        codes_flag_low(rest, bit + 2, bits::with_bit(acc, bit), j);
        if bit + 1 < 32 {
            bits::with_bit_bits(bits::with_bit(acc, bit), bit + 1, j);
            codes_flag_low(rest, bit + 2, bits::with_bit(bits::with_bit(acc, bit), bit + 1), j);
        }
    }
}

proof fn codes_round_trip(mbs: Seq<Mb>, bit: int, acc: u32)
    requires
        0 <= bit,
        forall|j: int| bit <= j < 32 ==> !#[trigger] bits::bit_at(acc, j),
    ensures
        ({
            let (n, open_code) = codes_fit(mbs, bit);
            scan_codes(codes_flag(mbs, bit, acc), bit, mbs.len()) == (
                codings(mbs.subrange(0, n as int)),
                open_code,
            )
        }),
    decreases mbs.len(),
{
    let (n, open_code) = codes_fit(mbs, bit);
    codes_fit_len(mbs, bit);
    let flag = codes_flag(mbs, bit, acc);
    if mbs.len() == 0 || bit >= 32 {
        assert(codings(mbs.subrange(0, 0)) =~= Seq::empty());
    } else {
        let rest = mbs.subrange(1, mbs.len() as int);
        assert(!bits::bit_at(acc, bit));
        if mbs[0] is Skip {
            codes_flag_low(rest, bit + 1, acc, bit);
            codes_fit_len(rest, bit + 1);
            codes_round_trip(rest, bit + 1, acc);
            assert(codings(mbs.subrange(0, n as int)) =~= seq![Coding::Skip] + codings(
                rest.subrange(0, n - 1),
            ));
        } else if bit + 1 >= 32 {
            bits::with_bit_bits(acc, bit, bit);
            assert(codings(mbs.subrange(0, 0)) =~= Seq::empty());
        } else {
            let a1 = bits::with_bit(acc, bit);
            let a2 = if mbs[0] is V4 {
                bits::with_bit(a1, bit + 1)
            } else {
                a1
            };
            assert(!bits::bit_at(acc, bit + 1));
            assert forall|j: int| 0 <= j < 32 implies #[trigger] bits::bit_at(a2, j) == (j == bit || (j
                == bit + 1 && mbs[0] is V4) || bits::bit_at(acc, j)) by {
                bits::with_bit_bits(acc, bit, j);
                bits::with_bit_bits(a1, bit + 1, j);
            }
            codes_flag_low(rest, bit + 2, a2, bit);
            codes_flag_low(rest, bit + 2, a2, bit + 1);
            codes_fit_len(rest, bit + 2);
            assert(bits::bit_at(a2, bit));
            assert(bits::bit_at(a2, bit + 1) == (mbs[0] is V4));
            codes_round_trip(rest, bit + 2, a2);
            assert(codings(mbs.subrange(0, n as int)) =~= seq![coding_of(mbs[0])] + codings(
                rest.subrange(0, n - 1),
            ));
        }
    }
}

proof fn inter_kinds_round_trip(mbs: Seq<Mb>, pending: bool)
    requires
        pending ==> mbs.len() > 0 && !(mbs[0] is Skip),
    ensures
        ({
            let (n, open_code) = inter_fit(mbs, pending);
            inter_kinds(inter_flag(mbs, pending), pending, mbs.len()) == (
                codings(mbs.subrange(0, n as int)),
                open_code,
            )
        }),
{
    assert forall|j: int| 0 <= j < 32 implies !#[trigger] bits::bit_at(0, j) by {
        bits::zero_word_bits(j);
    }
    if pending {
        let rest = mbs.subrange(1, mbs.len() as int);
        let acc = if mbs[0] is V4 {
            bits::with_bit(0, 0)
        } else {
            0
        };
        assert forall|j: int| 0 <= j < 32 implies #[trigger] bits::bit_at(acc, j) == (j == 0
            && mbs[0] is V4) by {
            bits::with_bit_bits(0, 0, j);
        }
        codes_round_trip(rest, 1, acc);
        codes_flag_low(rest, 1, acc, 0);
        codes_fit_len(rest, 1);
        let n = inter_fit(mbs, pending).0;
        assert(bits::bit_at(acc, 0) == (mbs[0] is V4));
        assert(codings(mbs.subrange(0, n as int)) =~= seq![coding_of(mbs[0])] + codings(
            rest.subrange(0, n - 1),
        ));
    } else {
        codes_round_trip(mbs, 0, 0);
    }
}

proof fn codes_fit_open(mbs: Seq<Mb>, bit: int)
    requires
        codes_fit(mbs, bit).1,
    ensures
        codes_fit(mbs, bit).0 < mbs.len(),
        !(mbs[codes_fit(mbs, bit).0 as int] is Skip),
    decreases mbs.len(),
{
    codes_fit_len(mbs, bit);
    if mbs.len() > 0 && bit < 32 {
        let rest = mbs.subrange(1, mbs.len() as int);
        if mbs[0] is Skip {
            codes_fit_open(rest, bit + 1);
        } else if bit + 1 < 32 {
            codes_fit_open(rest, bit + 2);
        }
    }
}

#[verifier::rlimit(50)]
#[verifier::spinoff_prover]
proof fn inter_round_trip_at(mbs: Seq<Mb>, pending: bool, payload: Seq<u8>, p: int)
    requires
        pending ==> mbs.len() > 0 && !(mbs[0] is Skip),
        0 <= p,
        p + inter_bytes(mbs, pending).len() <= payload.len(),
        payload.subrange(p, p + inter_bytes(mbs, pending).len()) == inter_bytes(mbs, pending),
    ensures
        inter_mbs(payload, p, pending, mbs.len()) == Ok::<Seq<Mb>, ErrorView>(mbs),
    decreases mbs.len(),
{
    if mbs.len() == 0 {
        assert(mbs =~= Seq::empty());
    } else {
        let (n, open_code) = inter_fit(mbs, pending);
        inter_fit_len(mbs, pending);
        let flag = inter_flag(mbs, pending);
        let rest = mbs.subrange(n as int, mbs.len() as int);
        let body = indices_bytes(mbs, n);
        let tail = inter_bytes(rest, open_code);
        let all = inter_bytes(mbs, pending);
        let t = payload.subrange(p, p + all.len());
        assert(all == bits::be32_bytes(flag) + body + tail);
        assert(payload.subrange(p, p + 4) =~= bits::be32_bytes(flag)) by {
            assert forall|k: int| 0 <= k < 4 implies #[trigger] payload.subrange(p, p + 4)[k]
                == bits::be32_bytes(flag)[k] by {
                assert(t[k] == all[k]);
            }
        }
        bits::be32_round_trip(payload, p, flag);
        inter_kinds_round_trip(mbs, pending);
        let kinds = inter_kinds(flag, pending, mbs.len()).0;
        let q = p + 4 + body.len();
        assert(payload.subrange(p + 4, q) =~= body) by {
            assert forall|k: int| 0 <= k < body.len() implies #[trigger] payload.subrange(
                p + 4,
                q,
            )[k] == body[k] by {
                assert(t[4 + k] == all[4 + k]);
            }
        }
        group_round_trip(mbs, kinds, payload, p + 4, n);
        assert(payload.subrange(q, q + tail.len()) =~= tail) by {
            assert forall|k: int| 0 <= k < tail.len() implies #[trigger] payload.subrange(
                q,
                q + tail.len(),
            )[k] == tail[k] by {
                assert(t[4 + body.len() + k] == all[4 + body.len() + k]);
            }
        }
        if open_code {
            if pending {
                codes_fit_open(mbs.subrange(1, mbs.len() as int), 1);
            } else {
                codes_fit_open(mbs, 0);
            }
            assert(rest[0] == mbs[n as int]);
        }
        inter_round_trip_at(rest, open_code, payload, q);
        assert(mbs.subrange(0, n as int) + rest =~= mbs);
    }
}

/// Decoding the payload that an inter chunk gets gives the macroblocks
/// back, whatever follows it.
pub proof fn inter_round_trip(mbs: Seq<Mb>, trailing: Seq<u8>)
    ensures
        inter_mbs(inter_bytes(mbs, false) + trailing, 0, false, mbs.len()) == Ok::<
            Seq<Mb>,
            ErrorView,
        >(mbs),
{
    let payload = inter_bytes(mbs, false) + trailing;
    assert(payload.subrange(0, inter_bytes(mbs, false).len() as int) =~= inter_bytes(mbs, false));
    inter_round_trip_at(mbs, false, payload, 0);
}

proof fn intra_mbs_len(payload: Seq<u8>, p: int, count: nat)
    requires
        0 <= p <= payload.len(),
        intra_mbs(payload, p, count) is Ok,
    ensures
        intra_mbs(payload, p, count)->Ok_0.len() == count,
        no_skip(intra_mbs(payload, p, count)->Ok_0),
    decreases count,
{
    if count > 0 {
        let n = intra_group_len(count);
        let kinds = intra_kinds(bits::be32(payload, p), n);
        let (mbs, q, missing) = group_mbs(payload, p + 4, kinds, n);
        group_mbs_shape(payload, p + 4, kinds, n);
        group_mbs_codings(payload, p + 4, kinds, n);
        intra_mbs_len(payload, q, (count - n) as nat);
        let rest = intra_mbs(payload, q, (count - n) as nat)->Ok_0;
        let all = mbs + rest;
        assert forall|i: int| 0 <= i < all.len() implies !(#[trigger] all[i] is Skip) by {
            if i < n {
                assert(coding_of(mbs[i]) == kinds[i]);
            } else {
                assert(all[i] == rest[i - n]);
            }
        }
    }
}

pub(crate) proof fn group_mbs_codings(payload: Seq<u8>, p: int, kinds: Seq<Coding>, n: nat)
    requires
        n <= kinds.len(),
        0 <= p <= payload.len(),
    ensures
        group_mbs(payload, p, kinds, n).0.len() <= n,
        forall|i: int|
            0 <= i < group_mbs(payload, p, kinds, n).0.len() ==> coding_of(
                #[trigger] group_mbs(payload, p, kinds, n).0[i],
            ) == kinds[i],
    decreases n,
{
    if n > 0 {
        group_mbs_codings(payload, p, kinds, (n - 1) as nat);
        group_mbs_shape(payload, p, kinds, (n - 1) as nat);
    }
}

proof fn inter_mbs_len(payload: Seq<u8>, p: int, pending: bool, count: nat)
    requires
        0 <= p <= payload.len(),
        inter_mbs(payload, p, pending, count) is Ok,
    ensures
        inter_mbs(payload, p, pending, count)->Ok_0.len() == count,
    decreases count,
{
    if count > 0 {
        let (kinds, open_code) = inter_kinds(bits::be32(payload, p), pending, count);
        let (mbs, q, missing) = group_mbs(payload, p + 4, kinds, kinds.len());
        inter_kinds_len(bits::be32(payload, p), pending, count);
        group_mbs_shape(payload, p + 4, kinds, kinds.len());
        inter_mbs_len(payload, q, open_code, (count - kinds.len()) as nat);
    }
}

/// A vector chunk that decodes has exactly the macroblocks asked for, and
/// only an inter chunk has skipped ones.
pub proof fn vector_mbs_len(id: u16, payload: Seq<u8>, count: nat)
    requires
        vector_mbs(id, payload, count) is Ok,
    ensures
        vector_mbs(id, payload, count)->Ok_0.len() == count,
        id != VECTOR_CHUNK_INTER ==> no_skip(vector_mbs(id, payload, count)->Ok_0),
{
    if id == VECTOR_CHUNK_INTRA {
        intra_mbs_len(payload, 0, count);
    } else if id == VECTOR_CHUNK_INTER {
        inter_mbs_len(payload, 0, false, count);
    }
}

proof fn indices_len(mbs: Seq<Mb>, n: nat)
    ensures
        indices_bytes(mbs, n).len() <= 4 * n,
    decreases n,
{
    if n > 0 {
        indices_len(mbs, (n - 1) as nat);
    }
}

/// The payload of an intra chunk takes no more than eight bytes for each
/// macroblock.
pub proof fn intra_bytes_len(mbs: Seq<Mb>)
    ensures
        intra_bytes(mbs).len() <= 8 * mbs.len(),
    decreases mbs.len(),
{
    if mbs.len() > 0 {
        let n = intra_group_len(mbs.len());
        indices_len(mbs.subrange(0, n as int), n);
        intra_bytes_len(mbs.subrange(n as int, mbs.len() as int));
    }
}

/// The payload of an inter chunk takes no more than eight bytes for each
/// macroblock.
pub proof fn inter_bytes_len(mbs: Seq<Mb>, pending: bool)
    ensures
        inter_bytes(mbs, pending).len() <= 8 * mbs.len(),
    decreases mbs.len(),
{
    if mbs.len() > 0 {
        let (n, open_code) = inter_fit(mbs, pending);
        inter_fit_len(mbs, pending);
        indices_len(mbs, n);
        inter_bytes_len(mbs.subrange(n as int, mbs.len() as int), open_code);
    }
}

/// Bytes of the indices of macroblocks: one for a V1 macroblock, four for a
/// V4 macroblock, none for a skipped one.
pub open spec fn index_total(mbs: Seq<Mb>) -> nat
    decreases mbs.len(),
{
    if mbs.len() == 0 {
        0
    } else {
        index_total(mbs.subrange(1, mbs.len() as int)) + match mbs[0] {
            Mb::Skip => 0nat,
            Mb::V1(_) => 1nat,
            Mb::V4(_) => 4nat,
        }
    }
}

/// Bits of the codes of macroblocks in an inter chunk: one for a skipped
/// macroblock, two for another.
pub open spec fn code_bits(mbs: Seq<Mb>) -> nat
    decreases mbs.len(),
{
    if mbs.len() == 0 {
        0
    } else {
        code_bits(mbs.subrange(1, mbs.len() as int)) + if mbs[0] is Skip {
            1nat
        } else {
            2nat
        }
    }
}

proof fn indices_add_up(mbs: Seq<Mb>, n: nat)
    requires
        n <= mbs.len(),
    ensures
        index_total(mbs) == indices_bytes(mbs, n).len() + index_total(
            mbs.subrange(n as int, mbs.len() as int),
        ),
    decreases n,
{
    if n == 0 {
        assert(mbs.subrange(0, mbs.len() as int) =~= mbs);
    } else {
        indices_add_up(mbs, (n - 1) as nat);
        let from = mbs.subrange(n - 1, mbs.len() as int);
        assert(from.subrange(1, from.len() as int) =~= mbs.subrange(n as int, mbs.len() as int));
    }
}

proof fn indices_of_front(mbs: Seq<Mb>, front: nat, n: nat)
    requires
        n <= front <= mbs.len(),
    ensures
        indices_bytes(mbs.subrange(0, front as int), n) == indices_bytes(mbs, n),
    decreases n,
{
    if n > 0 {
        indices_of_front(mbs, front, (n - 1) as nat);
    }
}

proof fn codes_fill_word(mbs: Seq<Mb>, bit: int)
    requires
        0 <= bit <= 32,
    ensures
        ({
            let (n, open_code) = codes_fit(mbs, bit);
            let after = mbs.subrange(n as int, mbs.len() as int);
            let filled = bit + code_bits(mbs) - code_bits(after);
            &&& n <= mbs.len()
            &&& filled <= 32
            &&& n < mbs.len() ==> filled == if open_code {
                31int
            } else {
                32int
            }
        }),
    decreases mbs.len(),
{
    codes_fit_len(mbs, bit);
    let (n, open_code) = codes_fit(mbs, bit);
    if mbs.len() == 0 || bit >= 32 || (!(mbs[0] is Skip) && bit + 1 >= 32) {
        assert(mbs.subrange(0, mbs.len() as int) =~= mbs);
    } else {
        let rest = mbs.subrange(1, mbs.len() as int);
        assert(rest.subrange(n - 1, rest.len() as int) =~= mbs.subrange(n as int, mbs.len() as int));
        if mbs[0] is Skip {
            codes_fill_word(rest, bit + 1);
        } else {
            codes_fill_word(rest, bit + 2);
        }
    }
}

#[verifier::rlimit(50)]
#[verifier::spinoff_prover]
proof fn inter_words(mbs: Seq<Mb>, pending: bool)
    requires
        pending ==> mbs.len() > 0 && !(mbs[0] is Skip),
    ensures
        inter_bytes(mbs, pending).len() == 4 * ((code_bits(mbs) - if pending {
            1int
        } else {
            0int
        } + 31) / 32) + index_total(mbs),
    decreases mbs.len(),
{
    if mbs.len() > 0 {
        let (n, open_code) = inter_fit(mbs, pending);
        let after = mbs.subrange(n as int, mbs.len() as int);
        inter_fit_len(mbs, pending);
        indices_add_up(mbs, n);
        if pending {
            let rest = mbs.subrange(1, mbs.len() as int);
            codes_fill_word(rest, 1);
            assert(rest.subrange(n - 1, rest.len() as int) =~= after);
            if open_code {
                codes_fit_open(rest, 1);
            }
        } else {
            codes_fill_word(mbs, 0);
            if open_code {
                codes_fit_open(mbs, 0);
            }
        }
        inter_words(after, open_code);
        assert(bits::be32_bytes(inter_flag(mbs, pending)).len() == 4);
    }
}

/// An inter chunk takes as few whole words as its codes, of one bit for a
/// skipped macroblock and two for another, fill, and the bytes of the
/// indices.
pub proof fn inter_takes(mbs: Seq<Mb>)
    ensures
        inter_bytes(mbs, false).len() == 4 * ((code_bits(mbs) + 31) / 32) + index_total(mbs),
{
    inter_words(mbs, false);
}

/// An intra chunk takes one word for every thirty-two macroblocks or part of
/// them, and the bytes of the indices.
pub proof fn intra_takes(mbs: Seq<Mb>)
    requires
        no_skip(mbs),
    ensures
        intra_bytes(mbs).len() == 4 * ((mbs.len() + 31) / 32) + index_total(mbs),
    decreases mbs.len(),
{
    if mbs.len() > 0 {
        let n = intra_group_len(mbs.len());
        let group = mbs.subrange(0, n as int);
        let after = mbs.subrange(n as int, mbs.len() as int);
        assert(no_skip(group));
        assert(no_skip(after));
        indices_of_front(mbs, n, n);
        indices_add_up(mbs, n);
        intra_takes(after);
        assert(bits::be32_bytes(intra_flag(group, n)).len() == 4);
    }
}

} // verus!
