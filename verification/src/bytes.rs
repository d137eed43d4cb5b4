//! Unsigned integers as big-endian bytes, the byte order of every number in
//! a Whisper file.

use vstd::prelude::*;

verus! {

/// The number that the four bytes of `s` from position `at` stand for, most
/// significant byte first.
pub open spec fn spec_u32_at(s: Seq<u8>, at: int) -> u32
    recommends
        0 <= at,
        at + 4 <= s.len(),
{
    (s[at] as int * 0x100_0000 + s[at + 1] as int * 0x1_0000 + s[at + 2] as int * 0x100 + s[at
        + 3] as int) as u32
}

/// The number that the eight bytes of `s` from position `at` stand for, most
/// significant byte first.
pub open spec fn spec_u64_at(s: Seq<u8>, at: int) -> u64
    recommends
        0 <= at,
        at + 8 <= s.len(),
{
    (spec_u32_at(s, at) as int * 0x1_0000_0000 + spec_u32_at(s, at + 4) as int) as u64
}

/// The four bytes that stand for `v`, most significant byte first.
pub open spec fn spec_u32_be_bytes(v: u32) -> Seq<u8> {
    seq![
        (v / 0x100_0000) as u8,
        ((v / 0x1_0000) % 0x100) as u8,
        ((v / 0x100) % 0x100) as u8,
        (v % 0x100) as u8,
    ]
}

/// The eight bytes that stand for `v`, most significant byte first.
pub open spec fn spec_u64_be_bytes(v: u64) -> Seq<u8> {
    spec_u32_be_bytes((v / 0x1_0000_0000) as u32) + spec_u32_be_bytes((v % 0x1_0000_0000) as u32)
}

/// Four bytes placed anywhere in a sequence read back as the number they
/// were made from.
pub proof fn lemma_u32_bytes_read_back(before: Seq<u8>, v: u32, after: Seq<u8>)
    ensures
        spec_u32_be_bytes(v).len() == 4,
        spec_u32_at(before + spec_u32_be_bytes(v) + after, before.len() as int) == v,
{
    let s = before + spec_u32_be_bytes(v) + after;
    let at = before.len() as int;
    assert(s[at] == spec_u32_be_bytes(v)[0]);
    assert(s[at + 1] == spec_u32_be_bytes(v)[1]);
    assert(s[at + 2] == spec_u32_be_bytes(v)[2]);
    assert(s[at + 3] == spec_u32_be_bytes(v)[3]);
}

/// The bytes made from the number that four bytes stand for are those four
/// bytes.
pub proof fn lemma_u32_read_gives_bytes(s: Seq<u8>, at: int)
    requires
        0 <= at,
        at + 4 <= s.len(),
    ensures
        spec_u32_be_bytes(spec_u32_at(s, at)) == s.subrange(at, at + 4),
{
    assert(spec_u32_be_bytes(spec_u32_at(s, at)) =~= s.subrange(at, at + 4));
}

/// Eight bytes placed anywhere in a sequence read back as the number they
/// were made from.
pub proof fn lemma_u64_bytes_read_back(before: Seq<u8>, v: u64, after: Seq<u8>)
    ensures
        spec_u64_be_bytes(v).len() == 8,
        spec_u64_at(before + spec_u64_be_bytes(v) + after, before.len() as int) == v,
{
    let hi = (v / 0x1_0000_0000) as u32;
    let lo = (v % 0x1_0000_0000) as u32;
    let s = before + spec_u64_be_bytes(v) + after;
    lemma_u32_bytes_read_back(before, hi, spec_u32_be_bytes(lo) + after);
    lemma_u32_bytes_read_back(before + spec_u32_be_bytes(hi), lo, after);
    assert(s =~= before + spec_u32_be_bytes(hi) + (spec_u32_be_bytes(lo) + after));
    assert(s =~= (before + spec_u32_be_bytes(hi)) + spec_u32_be_bytes(lo) + after);
}

/// The bytes made from the number that eight bytes stand for are those eight
/// bytes.
pub proof fn lemma_u64_read_gives_bytes(s: Seq<u8>, at: int)
    requires
        0 <= at,
        at + 8 <= s.len(),
    ensures
        spec_u64_be_bytes(spec_u64_at(s, at)) == s.subrange(at, at + 8),
{
    lemma_u32_read_gives_bytes(s, at);
    lemma_u32_read_gives_bytes(s, at + 4);
    assert(spec_u64_be_bytes(spec_u64_at(s, at)) =~= s.subrange(at, at + 8));
}

/// Reads the big-endian number in the four bytes of `input` from `at`.
pub fn read_u32_be(input: &[u8], at: usize) -> (v: u32)
    requires
        at + 4 <= input.len(),
    ensures
        v == spec_u32_at(input@, at as int),
{
    let b0 = input[at] as u32;
    let b1 = input[at + 1] as u32;
    let b2 = input[at + 2] as u32;
    let b3 = input[at + 3] as u32;
    assert(((b0 << 24) | (b1 << 16) | (b2 << 8) | b3) == b0 * 0x100_0000 + b1 * 0x1_0000 + b2
        * 0x100 + b3) by (bit_vector)
        requires
            b0 < 0x100,
            b1 < 0x100,
            b2 < 0x100,
            b3 < 0x100,
    ;
    (b0 << 24) | (b1 << 16) | (b2 << 8) | b3
}

/// Reads the big-endian number in the eight bytes of `input` from `at`.
pub fn read_u64_be(input: &[u8], at: usize) -> (v: u64)
    requires
        at + 8 <= input.len(),
    ensures
        v == spec_u64_at(input@, at as int),
{
    let hi = read_u32_be(input, at) as u64;
    let lo = read_u32_be(input, at + 4) as u64;
    assert(((hi << 32) | lo) == hi * 0x1_0000_0000 + lo) by (bit_vector)
        requires
            hi < 0x1_0000_0000,
            lo < 0x1_0000_0000,
    ;
    (hi << 32) | lo
}

/// Appends the four big-endian bytes of `v` to `buf`.
pub fn write_u32_be(buf: &mut Vec<u8>, v: u32)
    ensures
        final(buf)@ == old(buf)@ + spec_u32_be_bytes(v),
{
    assert((v >> 24) == v / 0x100_0000 && (v >> 24) < 0x100) by (bit_vector);
    assert(((v >> 16) & 0xff) == (v / 0x1_0000) % 0x100) by (bit_vector);
    assert(((v >> 8) & 0xff) == (v / 0x100) % 0x100) by (bit_vector);
    assert((v & 0xff) == v % 0x100) by (bit_vector);
    buf.push((v >> 24) as u8);
    buf.push(((v >> 16) & 0xff) as u8);
    buf.push(((v >> 8) & 0xff) as u8);
    buf.push((v & 0xff) as u8);
    assert(buf@ =~= old(buf)@ + spec_u32_be_bytes(v));
}

/// Appends the eight big-endian bytes of `v` to `buf`.
pub fn write_u64_be(buf: &mut Vec<u8>, v: u64)
    ensures
        final(buf)@ == old(buf)@ + spec_u64_be_bytes(v),
{
    assert((v >> 32) == v / 0x1_0000_0000 && (v >> 32) < 0x1_0000_0000) by (bit_vector);
    assert((v & 0xffff_ffff) == v % 0x1_0000_0000) by (bit_vector);
    write_u32_be(buf, (v >> 32) as u32);
    write_u32_be(buf, (v & 0xffff_ffff) as u32);
    assert(buf@ =~= old(buf)@ + spec_u64_be_bytes(v));
}

} // verus!
