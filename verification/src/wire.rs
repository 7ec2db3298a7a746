//! Big-endian byte-order conversions.
//!
//! Every multi-byte integer on the wire is big-endian. This module defines
//! the specification-level conversions between integers and byte sequences,
//! proves that they invert each other, and provides the executable readers
//! and writers the codec is built from.

use vstd::prelude::*;

verus! {

// ---------------------------------------------------------------------------
// Specification: big-endian bytes of an integer, and back
// ---------------------------------------------------------------------------

pub open spec fn spec_u16_to_be(x: u16) -> Seq<u8> {
    seq![((x >> 8) & 0xff) as u8, (x & 0xff) as u8]
}

pub open spec fn spec_u16_from_be(s: Seq<u8>) -> u16
    recommends
        s.len() == 2,
{
    (s[0] as u16) << 8 | (s[1] as u16)
}

pub open spec fn spec_u32_to_be(x: u32) -> Seq<u8> {
    seq![
        ((x >> 24) & 0xff) as u8,
        ((x >> 16) & 0xff) as u8,
        ((x >> 8) & 0xff) as u8,
        (x & 0xff) as u8,
    ]
}

pub open spec fn spec_u32_from_be(s: Seq<u8>) -> u32
    recommends
        s.len() == 4,
{
    (s[0] as u32) << 24 | (s[1] as u32) << 16 | (s[2] as u32) << 8 | (s[3] as u32)
}

pub open spec fn spec_u64_to_be(x: u64) -> Seq<u8> {
    seq![
        ((x >> 56) & 0xff) as u8,
        ((x >> 48) & 0xff) as u8,
        ((x >> 40) & 0xff) as u8,
        ((x >> 32) & 0xff) as u8,
        ((x >> 24) & 0xff) as u8,
        ((x >> 16) & 0xff) as u8,
        ((x >> 8) & 0xff) as u8,
        (x & 0xff) as u8,
    ]
}

pub open spec fn spec_u64_from_be(s: Seq<u8>) -> u64
    recommends
        s.len() == 8,
{
    (s[0] as u64) << 56 | (s[1] as u64) << 48 | (s[2] as u64) << 40 | (s[3] as u64) << 32
        | (s[4] as u64) << 24 | (s[5] as u64) << 16 | (s[6] as u64) << 8 | (s[7] as u64)
}

/// Signed values travel as their two's-complement bit pattern.
pub open spec fn spec_i32_to_be(x: i32) -> Seq<u8> {
    spec_u32_to_be(x as u32)
}

pub open spec fn spec_i32_from_be(s: Seq<u8>) -> i32
    recommends
        s.len() == 4,
{
    spec_u32_from_be(s) as i32
}

pub open spec fn spec_i64_to_be(x: i64) -> Seq<u8> {
    spec_u64_to_be(x as u64)
}

pub open spec fn spec_i64_from_be(s: Seq<u8>) -> i64
    recommends
        s.len() == 8,
{
    spec_u64_from_be(s) as i64
}

// ---------------------------------------------------------------------------
// Round-trip lemmas: reading back what was written yields the value
// ---------------------------------------------------------------------------

pub proof fn lemma_u16_be_round_trip(x: u16)
    ensures
        spec_u16_to_be(x).len() == 2,
        spec_u16_from_be(spec_u16_to_be(x)) == x,
{
    let b0 = ((x >> 8) & 0xff) as u8;
    let b1 = (x & 0xff) as u8;
    assert((b0 as u16) << 8 | (b1 as u16) == x) by (bit_vector)
        requires
            b0 == ((x >> 8) & 0xff) as u8 && b1 == (x & 0xff) as u8,
    ;
}

pub proof fn lemma_u32_be_round_trip(x: u32)
    ensures
        spec_u32_to_be(x).len() == 4,
        spec_u32_from_be(spec_u32_to_be(x)) == x,
{
    let b0 = ((x >> 24) & 0xff) as u8;
    let b1 = ((x >> 16) & 0xff) as u8;
    let b2 = ((x >> 8) & 0xff) as u8;
    let b3 = (x & 0xff) as u8;
    assert((b0 as u32) << 24 | (b1 as u32) << 16 | (b2 as u32) << 8 | (b3 as u32) == x)
        by (bit_vector)
        requires
            b0 == ((x >> 24) & 0xff) as u8 && b1 == ((x >> 16) & 0xff) as u8 && b2 == ((x >> 8)
                & 0xff) as u8 && b3 == (x & 0xff) as u8,
    ;
}

pub proof fn lemma_u64_be_round_trip(x: u64)
    ensures
        spec_u64_to_be(x).len() == 8,
        spec_u64_from_be(spec_u64_to_be(x)) == x,
{
    let b0 = ((x >> 56) & 0xff) as u8;
    let b1 = ((x >> 48) & 0xff) as u8;
    let b2 = ((x >> 40) & 0xff) as u8;
    let b3 = ((x >> 32) & 0xff) as u8;
    let b4 = ((x >> 24) & 0xff) as u8;
    let b5 = ((x >> 16) & 0xff) as u8;
    let b6 = ((x >> 8) & 0xff) as u8;
    let b7 = (x & 0xff) as u8;
    assert((b0 as u64) << 56 | (b1 as u64) << 48 | (b2 as u64) << 40 | (b3 as u64) << 32 | (
    b4 as u64) << 24 | (b5 as u64) << 16 | (b6 as u64) << 8 | (b7 as u64) == x) by (bit_vector)
        requires
            b0 == ((x >> 56) & 0xff) as u8 && b1 == ((x >> 48) & 0xff) as u8 && b2 == ((x >> 40)
                & 0xff) as u8 && b3 == ((x >> 32) & 0xff) as u8 && b4 == ((x >> 24) & 0xff) as u8
                && b5 == ((x >> 16) & 0xff) as u8 && b6 == ((x >> 8) & 0xff) as u8 && b7 == (x
                & 0xff) as u8,
    ;
}

pub proof fn lemma_i32_be_round_trip(x: i32)
    ensures
        spec_i32_to_be(x).len() == 4,
        spec_i32_from_be(spec_i32_to_be(x)) == x,
{
    lemma_u32_be_round_trip(x as u32);
    assert((x as u32) as i32 == x) by (bit_vector);
}

pub proof fn lemma_i64_be_round_trip(x: i64)
    ensures
        spec_i64_to_be(x).len() == 8,
        spec_i64_from_be(spec_i64_to_be(x)) == x,
{
    lemma_u64_be_round_trip(x as u64);
    assert((x as u64) as i64 == x) by (bit_vector);
}

// ---------------------------------------------------------------------------
// Executable readers
// ---------------------------------------------------------------------------

/// Reads a big-endian `u16` from the first 2 bytes.
pub fn read_u16(bytes: &[u8]) -> (r: u16)
    requires
        bytes@.len() >= 2,
    ensures
        r == spec_u16_from_be(bytes@.subrange(0, 2)),
{
    let r = (bytes[0] as u16) << 8 | (bytes[1] as u16);
    proof {
        let s = bytes@.subrange(0, 2);
        assert(s[0] == bytes@[0] && s[1] == bytes@[1]);
    }
    r
}

/// Reads a big-endian `u32` from the first 4 bytes.
pub fn read_u32(bytes: &[u8]) -> (r: u32)
    requires
        bytes@.len() >= 4,
    ensures
        r == spec_u32_from_be(bytes@.subrange(0, 4)),
{
    let r = (bytes[0] as u32) << 24 | (bytes[1] as u32) << 16 | (bytes[2] as u32) << 8 | (
    bytes[3] as u32);
    proof {
        let s = bytes@.subrange(0, 4);
        assert(s[0] == bytes@[0] && s[1] == bytes@[1] && s[2] == bytes@[2] && s[3] == bytes@[3]);
    }
    r
}

/// Reads a big-endian `i32` from the first 4 bytes.
pub fn read_i32(bytes: &[u8]) -> (r: i32)
    requires
        bytes@.len() >= 4,
    ensures
        r == spec_i32_from_be(bytes@.subrange(0, 4)),
{
    read_u32(bytes) as i32
}

/// Reads a big-endian `i64` from the first 8 bytes.
pub fn read_i64(bytes: &[u8]) -> (r: i64)
    requires
        bytes@.len() >= 8,
    ensures
        r == spec_i64_from_be(bytes@.subrange(0, 8)),
{
    let r = (bytes[0] as u64) << 56 | (bytes[1] as u64) << 48 | (bytes[2] as u64) << 40 | (
    bytes[3] as u64) << 32 | (bytes[4] as u64) << 24 | (bytes[5] as u64) << 16 | (
    bytes[6] as u64) << 8 | (bytes[7] as u64);
    proof {
        let s = bytes@.subrange(0, 8);
        assert(s[0] == bytes@[0] && s[1] == bytes@[1] && s[2] == bytes@[2] && s[3] == bytes@[3]
            && s[4] == bytes@[4] && s[5] == bytes@[5] && s[6] == bytes@[6] && s[7] == bytes@[7]);
    }
    r as i64
}

// ---------------------------------------------------------------------------
// Executable writers: append the big-endian bytes to a growing buffer
// ---------------------------------------------------------------------------

/// Appends the 2 big-endian bytes of `num` to `buf`.
pub fn write_u16(num: u16, buf: &mut Vec<u8>)
    ensures
        final(buf)@ == old(buf)@ + spec_u16_to_be(num),
{
    buf.push(((num >> 8) & 0xff) as u8);
    buf.push((num & 0xff) as u8);
    proof {
        assert(buf@ =~= old(buf)@ + spec_u16_to_be(num));
    }
}

/// Appends the 4 big-endian bytes of `num` to `buf`.
pub fn write_u32(num: u32, buf: &mut Vec<u8>)
    ensures
        final(buf)@ == old(buf)@ + spec_u32_to_be(num),
{
    buf.push(((num >> 24) & 0xff) as u8);
    buf.push(((num >> 16) & 0xff) as u8);
    buf.push(((num >> 8) & 0xff) as u8);
    buf.push((num & 0xff) as u8);
    proof {
        assert(buf@ =~= old(buf)@ + spec_u32_to_be(num));
    }
}

/// Appends the 4 big-endian bytes of `num` to `buf`.
pub fn write_i32(num: i32, buf: &mut Vec<u8>)
    ensures
        final(buf)@ == old(buf)@ + spec_i32_to_be(num),
{
    write_u32(num as u32, buf);
}

/// Appends the 8 big-endian bytes of `num` to `buf`.
pub fn write_i64(num: i64, buf: &mut Vec<u8>)
    ensures
        final(buf)@ == old(buf)@ + spec_i64_to_be(num),
{
    let w = num as u64;
    buf.push(((w >> 56) & 0xff) as u8);
    buf.push(((w >> 48) & 0xff) as u8);
    buf.push(((w >> 40) & 0xff) as u8);
    buf.push(((w >> 32) & 0xff) as u8);
    buf.push(((w >> 24) & 0xff) as u8);
    buf.push(((w >> 16) & 0xff) as u8);
    buf.push(((w >> 8) & 0xff) as u8);
    buf.push((w & 0xff) as u8);
    proof {
        assert(buf@ =~= old(buf)@ + spec_u64_to_be(w));
    }
}

} // verus!
