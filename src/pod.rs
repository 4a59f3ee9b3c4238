//! Plain-data types that can be stored in the arena as bytes.
use vstd::prelude::*;

use crate::align::is_power_of_two;

verus! {

/// A type whose values are copied in and out of the arena as a fixed number
/// of little-endian bytes and that owns no resources.
pub trait Pod: Copy + Sized {
    /// Number of bytes of one value.
    spec fn size() -> nat;

    /// Natural alignment of the type.
    spec fn align() -> nat;

    /// The bytes that stand for a value.
    spec fn encode(v: Self) -> Seq<u8>;

    /// The value that a run of `size()` bytes stands for.
    spec fn decode(b: Seq<u8>) -> Self;

    fn size_of() -> (r: usize)
        ensures
            r as nat == Self::size(),
            r > 0,
    ;

    fn align_of() -> (r: usize)
        ensures
            r as nat == Self::align(),
            is_power_of_two(r),
    ;

    /// Appends the bytes of `self` to `out`.
    fn push_bytes(&self, out: &mut Vec<u8>)
        ensures
            final(out)@ == old(out)@ + Self::encode(*self),
    ;

    /// Reads the value whose bytes start at `at`.
    fn read_bytes(b: &[u8], at: usize) -> (r: Self)
        requires
            at + Self::size() <= b@.len(),
        ensures
            r == Self::decode(b@.subrange(at as int, at + Self::size())),
    ;

    /// Decoding the bytes of a value gives the value back.
    proof fn lemma_round_trip(v: Self)
        ensures
            Self::encode(v).len() == Self::size(),
            Self::decode(Self::encode(v)) == v,
    ;
}

impl Pod for u8 {
    open spec fn size() -> nat {
        1
    }

    open spec fn align() -> nat {
        1
    }

    open spec fn encode(v: u8) -> Seq<u8> {
        seq![v]
    }

    open spec fn decode(b: Seq<u8>) -> u8 {
        b[0]
    }

    fn size_of() -> (r: usize) {
        1
    }

    fn align_of() -> (r: usize) {
        assert(1usize & 0usize == 0) by (bit_vector);
        1
    }

    fn push_bytes(&self, out: &mut Vec<u8>) {
        out.push(*self);
        assert(out@ =~= old(out)@ + seq![*self]);
    }

    fn read_bytes(b: &[u8], at: usize) -> (r: u8) {
        b[at]
    }

    proof fn lemma_round_trip(v: u8) {
    }
}

/// The four little-endian bytes of a 32-bit word.
pub open spec fn bytes_of_u32(v: u32) -> Seq<u8> {
    seq![(v & 0xff) as u8, ((v >> 8u32) & 0xff) as u8, ((v >> 16u32) & 0xff) as u8, ((v >> 24u32) & 0xff) as u8]
}

/// The 32-bit word of four little-endian bytes.
pub open spec fn u32_of_bytes(b: Seq<u8>) -> u32 {
    (b[0] as u32) | ((b[1] as u32) << 8u32) | ((b[2] as u32) << 16u32) | ((b[3] as u32) << 24u32)
}

/// The eight little-endian bytes of a 64-bit word.
pub open spec fn bytes_of_u64(v: u64) -> Seq<u8> {
    seq![
        (v & 0xff) as u8,
        ((v >> 8u64) & 0xff) as u8,
        ((v >> 16u64) & 0xff) as u8,
        ((v >> 24u64) & 0xff) as u8,
        ((v >> 32u64) & 0xff) as u8,
        ((v >> 40u64) & 0xff) as u8,
        ((v >> 48u64) & 0xff) as u8,
        ((v >> 56u64) & 0xff) as u8,
    ]
}

/// The 64-bit word of eight little-endian bytes.
pub open spec fn u64_of_bytes(b: Seq<u8>) -> u64 {
    (b[0] as u64) | ((b[1] as u64) << 8u64) | ((b[2] as u64) << 16u64) | ((b[3] as u64) << 24u64)
        | ((b[4] as u64) << 32u64) | ((b[5] as u64) << 40u64) | ((b[6] as u64) << 48u64) | ((
    b[7] as u64) << 56u64)
}

fn push_u32(v: u32, out: &mut Vec<u8>)
    ensures
        final(out)@ == old(out)@ + bytes_of_u32(v),
{
    out.push((v & 0xff) as u8);
    out.push(((v >> 8u32) & 0xff) as u8);
    out.push(((v >> 16u32) & 0xff) as u8);
    out.push(((v >> 24u32) & 0xff) as u8);
    assert(out@ =~= old(out)@ + bytes_of_u32(v));
}

fn read_u32(b: &[u8], at: usize) -> (r: u32)
    requires
        at + 4 <= b@.len(),
    ensures
        r == u32_of_bytes(b@.subrange(at as int, at + 4)),
{
    (b[at] as u32) | ((b[at + 1] as u32) << 8u32) | ((b[at + 2] as u32) << 16u32) | ((b[at
        + 3] as u32) << 24u32)
}

proof fn lemma_u32_round_trip(v: u32)
    ensures
        bytes_of_u32(v).len() == 4,
        u32_of_bytes(bytes_of_u32(v)) == v,
{
    let b = bytes_of_u32(v);
    let (b0, b1, b2, b3) = (b[0], b[1], b[2], b[3]);
    assert(((b0 as u32) | ((b1 as u32) << 8u32) | ((b2 as u32) << 16u32) | ((b3 as u32)
        << 24u32)) == v) by (bit_vector)
        requires
            b0 == (v & 0xff) as u8,
            b1 == ((v >> 8u32) & 0xff) as u8,
            b2 == ((v >> 16u32) & 0xff) as u8,
            b3 == ((v >> 24u32) & 0xff) as u8,
    ;
}

impl Pod for u32 {
    open spec fn size() -> nat {
        4
    }

    open spec fn align() -> nat {
        4
    }

    open spec fn encode(v: u32) -> Seq<u8> {
        bytes_of_u32(v)
    }

    open spec fn decode(b: Seq<u8>) -> u32 {
        u32_of_bytes(b)
    }

    fn size_of() -> (r: usize) {
        4
    }

    fn align_of() -> (r: usize) {
        assert(4usize & 3usize == 0) by (bit_vector);
        4
    }

    fn push_bytes(&self, out: &mut Vec<u8>) {
        push_u32(*self, out);
    }

    fn read_bytes(b: &[u8], at: usize) -> (r: u32) {
        read_u32(b, at)
    }

    proof fn lemma_round_trip(v: u32) {
        lemma_u32_round_trip(v);
    }
}

impl Pod for i32 {
    open spec fn size() -> nat {
        4
    }

    open spec fn align() -> nat {
        4
    }

    open spec fn encode(v: i32) -> Seq<u8> {
        bytes_of_u32(v as u32)
    }

    open spec fn decode(b: Seq<u8>) -> i32 {
        u32_of_bytes(b) as i32
    }

    fn size_of() -> (r: usize) {
        4
    }

    fn align_of() -> (r: usize) {
        assert(4usize & 3usize == 0) by (bit_vector);
        4
    }

    fn push_bytes(&self, out: &mut Vec<u8>) {
        push_u32(*self as u32, out);
    }

    fn read_bytes(b: &[u8], at: usize) -> (r: i32) {
        read_u32(b, at) as i32
    }

    proof fn lemma_round_trip(v: i32) {
        lemma_u32_round_trip(v as u32);
        assert(((v as u32) as i32) == v) by (bit_vector);
    }
}

impl Pod for u64 {
    open spec fn size() -> nat {
        8
    }

    open spec fn align() -> nat {
        8
    }

    open spec fn encode(v: u64) -> Seq<u8> {
        bytes_of_u64(v)
    }

    open spec fn decode(b: Seq<u8>) -> u64 {
        u64_of_bytes(b)
    }

    fn size_of() -> (r: usize) {
        8
    }

    fn align_of() -> (r: usize) {
        assert(8usize & 7usize == 0) by (bit_vector);
        8
    }

    fn push_bytes(&self, out: &mut Vec<u8>) {
        let v = *self;
        out.push((v & 0xff) as u8);
        out.push(((v >> 8u64) & 0xff) as u8);
        out.push(((v >> 16u64) & 0xff) as u8);
        out.push(((v >> 24u64) & 0xff) as u8);
        out.push(((v >> 32u64) & 0xff) as u8);
        out.push(((v >> 40u64) & 0xff) as u8);
        out.push(((v >> 48u64) & 0xff) as u8);
        out.push(((v >> 56u64) & 0xff) as u8);
        assert(out@ =~= old(out)@ + bytes_of_u64(v));
    }

    fn read_bytes(b: &[u8], at: usize) -> (r: u64) {
        (b[at] as u64) | ((b[at + 1] as u64) << 8u64) | ((b[at + 2] as u64) << 16u64) | ((b[at
            + 3] as u64) << 24u64) | ((b[at + 4] as u64) << 32u64) | ((b[at + 5] as u64) << 40u64)
            | ((b[at + 6] as u64) << 48u64) | ((b[at + 7] as u64) << 56u64)
    }

    proof fn lemma_round_trip(v: u64) {
        let b = bytes_of_u64(v);
        let (b0, b1, b2, b3, b4, b5, b6, b7) = (b[0], b[1], b[2], b[3], b[4], b[5], b[6], b[7]);
        assert(((b0 as u64) | ((b1 as u64) << 8u64) | ((b2 as u64) << 16u64) | ((b3 as u64)
            << 24u64) | ((b4 as u64) << 32u64) | ((b5 as u64) << 40u64) | ((b6 as u64) << 48u64)
            | ((b7 as u64) << 56u64)) == v) by (bit_vector)
            requires
                b0 == (v & 0xff) as u8,
                b1 == ((v >> 8u64) & 0xff) as u8,
                b2 == ((v >> 16u64) & 0xff) as u8,
                b3 == ((v >> 24u64) & 0xff) as u8,
                b4 == ((v >> 32u64) & 0xff) as u8,
                b5 == ((v >> 40u64) & 0xff) as u8,
                b6 == ((v >> 48u64) & 0xff) as u8,
                b7 == ((v >> 56u64) & 0xff) as u8,
        ;
    }
}

} // verus!
