//! Big-endian numbers and flag words.

use vstd::prelude::*;

verus! {

/// The big-endian 16-bit number at `s[i..i + 2]`.
pub open spec fn be16(s: Seq<u8>, i: int) -> u16 {
    (s[i] * 256 + s[i + 1]) as u16
}

/// The big-endian 24-bit number at `s[i..i + 3]`.
pub open spec fn be24(s: Seq<u8>, i: int) -> u32 {
    (s[i] * 65536 + s[i + 1] * 256 + s[i + 2]) as u32
}

/// The big-endian 32-bit number at `s[i..i + 4]`.
pub open spec fn be32(s: Seq<u8>, i: int) -> u32 {
    (s[i] * 16777216 + s[i + 1] * 65536 + s[i + 2] * 256 + s[i + 3]) as u32
}

/// `v` as two big-endian bytes.
pub open spec fn be16_bytes(v: u16) -> Seq<u8> {
    seq![(v / 256) as u8, (v % 256) as u8]
}

/// The low 24 bits of `v` as three big-endian bytes.
pub open spec fn be24_bytes(v: u32) -> Seq<u8> {
    seq![(v / 65536 % 256) as u8, (v / 256 % 256) as u8, (v % 256) as u8]
}

/// `v` as four big-endian bytes.
pub open spec fn be32_bytes(v: u32) -> Seq<u8> {
    seq![
        (v / 16777216) as u8,
        (v / 65536 % 256) as u8,
        (v / 256 % 256) as u8,
        (v % 256) as u8,
    ]
}

/// Bit `i` of a flag word, counted from the most significant bit.
pub open spec fn bit_at(flag: u32, i: int) -> bool {
    (flag >> ((31 - i) as u32)) & 1u32 == 1u32
}

/// The flag word with bit `i`, counted from the most significant bit, set.
pub open spec fn with_bit(flag: u32, i: int) -> u32 {
    flag | (1u32 << ((31 - i) as u32))
}

/// Reads a big-endian 16-bit number.
pub(crate) fn read16(s: &[u8], i: usize) -> (r: u16)
    requires
        i + 2 <= s@.len(),
    ensures
        r == be16(s@, i as int),
{
    (s[i] as u16) * 256 + (s[i + 1] as u16)
}

/// Reads a big-endian 24-bit number.
pub(crate) fn read24(s: &[u8], i: usize) -> (r: u32)
    requires
        i + 3 <= s@.len(),
    ensures
        r == be24(s@, i as int),
        r < 16777216,
{
    (s[i] as u32) * 65536 + (s[i + 1] as u32) * 256 + (s[i + 2] as u32)
}

/// Reads a big-endian 32-bit number.
pub(crate) fn read32(s: &[u8], i: usize) -> (r: u32)
    requires
        i + 4 <= s@.len(),
    ensures
        r == be32(s@, i as int),
{
    (s[i] as u32) * 16777216 + (s[i + 1] as u32) * 65536 + (s[i + 2] as u32) * 256 + (s[i
        + 3] as u32)
}

/// Appends `v` in big-endian order.
pub(crate) fn put16(out: &mut Vec<u8>, v: u16)
    ensures
        final(out)@ == old(out)@ + be16_bytes(v),
{
    out.push((v / 256) as u8);
    out.push((v % 256) as u8);
    assert(out@ =~= old(out)@ + be16_bytes(v));
}

/// Appends `v` in big-endian order.
pub(crate) fn put32(out: &mut Vec<u8>, v: u32)
    ensures
        final(out)@ == old(out)@ + be32_bytes(v),
{
    out.push((v / 16777216) as u8);
    out.push((v / 65536 % 256) as u8);
    out.push((v / 256 % 256) as u8);
    out.push((v % 256) as u8);
    assert(out@ =~= old(out)@ + be32_bytes(v));
}

/// Appends the bytes of `s`.
pub(crate) fn put_bytes(out: &mut Vec<u8>, s: &[u8])
    ensures
        final(out)@ == old(out)@ + s@,
{
    out.extend_from_slice(s);
    assert(out@ =~= old(out)@ + s@);
}

/// The part of `s` from `i` up to `j`.
pub(crate) fn part<'a>(s: &'a [u8], i: usize, j: usize) -> (r: &'a [u8])
    requires
        i <= j <= s@.len(),
    ensures
        r@ == s@.subrange(i as int, j as int),
{
    vstd::slice::slice_subrange(s, i, j)
}

/// Tests bit `i` of a flag word.
pub(crate) fn test_bit(flag: u32, i: u32) -> (r: bool)
    requires
        i < 32,
    ensures
        r == bit_at(flag, i as int),
{
    (flag >> (31 - i)) & 1u32 == 1u32
}

/// Sets bit `i` of a flag word.
pub(crate) fn set_bit(flag: u32, i: u32) -> (r: u32)
    requires
        i < 32,
    ensures
        r == with_bit(flag, i as int),
{
    flag | (1u32 << (31 - i))
}

/// Reading back a 16-bit number gives what was written, wherever it lies.
pub proof fn be16_round_trip(s: Seq<u8>, i: int, v: u16)
    requires
        0 <= i,
        i + 2 <= s.len(),
        s.subrange(i, i + 2) == be16_bytes(v),
    ensures
        be16(s, i) == v,
{
    let t = s.subrange(i, i + 2);
    assert(s[i] == t[0] && s[i + 1] == t[1]);
}

/// Reading back a 32-bit number gives what was written, wherever it lies.
pub proof fn be32_round_trip(s: Seq<u8>, i: int, v: u32)
    requires
        0 <= i,
        i + 4 <= s.len(),
        s.subrange(i, i + 4) == be32_bytes(v),
    ensures
        be32(s, i) == v,
{
    let t = s.subrange(i, i + 4);
    assert(s[i] == t[0] && s[i + 1] == t[1] && s[i + 2] == t[2] && s[i + 3] == t[3]);
}

/// No bit of the zero word is set.
pub proof fn zero_word_bits(i: int)
    requires
        0 <= i < 32,
    ensures
        !bit_at(0, i),
{
    let k = (31 - i) as u32;
    assert((0u32 >> k) & 1u32 == 0u32) by (bit_vector);
}

/// Setting a bit sets that bit and leaves the others.
pub proof fn with_bit_bits(flag: u32, i: int, j: int)
    requires
        0 <= i < 32,
        0 <= j < 32,
    ensures
        bit_at(with_bit(flag, i), j) == (i == j || bit_at(flag, j)),
{
    let a = (31 - i) as u32;
    let b = (31 - j) as u32;
    assert(((flag | (1u32 << a)) >> b) & 1u32 == 1u32 <==> (a == b || (flag >> b) & 1u32 == 1u32))
        by (bit_vector)
        requires
            a < 32,
            b < 32,
    ;
}

} // verus!
