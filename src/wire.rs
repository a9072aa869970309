//! Little-endian encoding of the fixed-width integers that the wire format uses.

use vstd::prelude::*;

verus! {

/// The eight little-endian bytes of `x`.
pub open spec fn le64(x: u64) -> Seq<u8> {
    seq![
        (x & 0xff) as u8,
        ((x >> 8u64) & 0xff) as u8,
        ((x >> 16u64) & 0xff) as u8,
        ((x >> 24u64) & 0xff) as u8,
        ((x >> 32u64) & 0xff) as u8,
        ((x >> 40u64) & 0xff) as u8,
        ((x >> 48u64) & 0xff) as u8,
        ((x >> 56u64) & 0xff) as u8,
    ]
}

/// The four little-endian bytes of `x`.
pub open spec fn le32(x: u32) -> Seq<u8> {
    seq![
        (x & 0xff) as u8,
        ((x >> 8u32) & 0xff) as u8,
        ((x >> 16u32) & 0xff) as u8,
        ((x >> 24u32) & 0xff) as u8,
    ]
}

/// The integer whose little-endian bytes are `s[0..8]`.
pub open spec fn from_le64(s: Seq<u8>) -> u64
    recommends
        s.len() >= 8,
{
    (s[0] as u64) | ((s[1] as u64) << 8u64) | ((s[2] as u64) << 16u64) | ((s[3] as u64) << 24u64)
        | ((s[4] as u64) << 32u64) | ((s[5] as u64) << 40u64) | ((s[6] as u64) << 48u64) | ((
    s[7] as u64) << 56u64)
}

/// The integer whose little-endian bytes are `s[0..4]`.
pub open spec fn from_le32(s: Seq<u8>) -> u32
    recommends
        s.len() >= 4,
{
    (s[0] as u32) | ((s[1] as u32) << 8u32) | ((s[2] as u32) << 16u32) | ((s[3] as u32) << 24u32)
}

/// Decoding the encoding of `x` gives `x` back.
pub proof fn lemma_le64_round_trip(x: u64)
    ensures
        from_le64(le64(x)) == x,
        le64(x).len() == 8,
{
    let s = le64(x);
    let b0 = (x & 0xff) as u8;
    let b1 = ((x >> 8u64) & 0xff) as u8;
    let b2 = ((x >> 16u64) & 0xff) as u8;
    let b3 = ((x >> 24u64) & 0xff) as u8;
    let b4 = ((x >> 32u64) & 0xff) as u8;
    let b5 = ((x >> 40u64) & 0xff) as u8;
    let b6 = ((x >> 48u64) & 0xff) as u8;
    let b7 = ((x >> 56u64) & 0xff) as u8;
    assert(s[0] == b0 && s[1] == b1 && s[2] == b2 && s[3] == b3);
    assert(s[4] == b4 && s[5] == b5 && s[6] == b6 && s[7] == b7);
    assert(((x & 0xff) as u8 as u64) | ((((x >> 8u64) & 0xff) as u8 as u64) << 8u64) | ((((x
        >> 16u64) & 0xff) as u8 as u64) << 16u64) | ((((x >> 24u64) & 0xff) as u8 as u64)
        << 24u64) | ((((x >> 32u64) & 0xff) as u8 as u64) << 32u64) | ((((x >> 40u64) & 0xff) as u8
        as u64) << 40u64) | ((((x >> 48u64) & 0xff) as u8 as u64) << 48u64) | ((((x >> 56u64)
        & 0xff) as u8 as u64) << 56u64) == x) by (bit_vector);
}

/// Eight bytes are the encoding of the integer they decode to.
pub proof fn lemma_le64_of_bytes(s: Seq<u8>)
    requires
        s.len() == 8,
    ensures
        le64(from_le64(s)) == s,
{
    let (b0, b1, b2, b3, b4, b5, b6, b7) = (s[0], s[1], s[2], s[3], s[4], s[5], s[6], s[7]);
    let x = from_le64(s);
    assert(x == (b0 as u64) | ((b1 as u64) << 8u64) | ((b2 as u64) << 16u64) | ((b3 as u64)
        << 24u64) | ((b4 as u64) << 32u64) | ((b5 as u64) << 40u64) | ((b6 as u64) << 48u64) | ((
    b7 as u64) << 56u64));
    assert((x & 0xff) as u8 == b0 && ((x >> 8u64) & 0xff) as u8 == b1 && ((x >> 16u64) & 0xff) as u8
        == b2 && ((x >> 24u64) & 0xff) as u8 == b3 && ((x >> 32u64) & 0xff) as u8 == b4 && ((x
        >> 40u64) & 0xff) as u8 == b5 && ((x >> 48u64) & 0xff) as u8 == b6 && ((x >> 56u64) & 0xff) as u8
        == b7) by (bit_vector)
        requires
            x == (b0 as u64) | ((b1 as u64) << 8u64) | ((b2 as u64) << 16u64) | ((b3 as u64)
                << 24u64) | ((b4 as u64) << 32u64) | ((b5 as u64) << 40u64) | ((b6 as u64)
                << 48u64) | ((b7 as u64) << 56u64),
    ;
    assert(le64(from_le64(s)) =~= s);
}

/// Decoding the encoding of `x` gives `x` back.
pub proof fn lemma_le32_round_trip(x: u32)
    ensures
        from_le32(le32(x)) == x,
        le32(x).len() == 4,
{
    let s = le32(x);
    assert(s[0] == (x & 0xff) as u8 && s[1] == ((x >> 8u32) & 0xff) as u8);
    assert(s[2] == ((x >> 16u32) & 0xff) as u8 && s[3] == ((x >> 24u32) & 0xff) as u8);
    assert(((x & 0xff) as u8 as u32) | ((((x >> 8u32) & 0xff) as u8 as u32) << 8u32) | ((((x
        >> 16u32) & 0xff) as u8 as u32) << 16u32) | ((((x >> 24u32) & 0xff) as u8 as u32) << 24u32)
        == x) by (bit_vector);
}

/// Appends the eight little-endian bytes of `x`.
pub fn push_u64(bytes: &mut Vec<u8>, x: u64)
    ensures
        final(bytes)@ == old(bytes)@ + le64(x),
{
    bytes.push((x & 0xff) as u8);
    bytes.push(((x >> 8u64) & 0xff) as u8);
    bytes.push(((x >> 16u64) & 0xff) as u8);
    bytes.push(((x >> 24u64) & 0xff) as u8);
    bytes.push(((x >> 32u64) & 0xff) as u8);
    bytes.push(((x >> 40u64) & 0xff) as u8);
    bytes.push(((x >> 48u64) & 0xff) as u8);
    bytes.push(((x >> 56u64) & 0xff) as u8);
    assert(final(bytes)@ =~= old(bytes)@ + le64(x));
}

/// Appends the four little-endian bytes of `x`.
pub fn push_u32(bytes: &mut Vec<u8>, x: u32)
    ensures
        final(bytes)@ == old(bytes)@ + le32(x),
{
    bytes.push((x & 0xff) as u8);
    bytes.push(((x >> 8u32) & 0xff) as u8);
    bytes.push(((x >> 16u32) & 0xff) as u8);
    bytes.push(((x >> 24u32) & 0xff) as u8);
    assert(final(bytes)@ =~= old(bytes)@ + le32(x));
}

/// Reads the little-endian integer at `buf[pos..pos + 8]`.
pub fn read_u64(buf: &[u8], pos: usize) -> (r: u64)
    requires
        pos + 8 <= buf@.len(),
    ensures
        r == from_le64(buf@.subrange(pos as int, pos + 8)),
{
    let s = Ghost(buf@.subrange(pos as int, pos + 8));
    assert(s@[0] == buf[pos as int] && s@[7] == buf[pos + 7]);
    (buf[pos] as u64) | ((buf[pos + 1] as u64) << 8u64) | ((buf[pos + 2] as u64) << 16u64) | ((
    buf[pos + 3] as u64) << 24u64) | ((buf[pos + 4] as u64) << 32u64) | ((buf[pos + 5] as u64)
        << 40u64) | ((buf[pos + 6] as u64) << 48u64) | ((buf[pos + 7] as u64) << 56u64)
}

/// Reads the little-endian integer at `buf[0..4]`.
pub fn read_u32(buf: &[u8]) -> (r: u32)
    requires
        4 <= buf@.len(),
    ensures
        r == from_le32(buf@),
{
    (buf[0] as u32) | ((buf[1] as u32) << 8u32) | ((buf[2] as u32) << 16u32) | ((buf[3] as u32)
        << 24u32)
}

} // verus!
