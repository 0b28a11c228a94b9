//! Syncsafe integers: the 28-bit length values used throughout an ID3v2
//! tag. Only the low seven bits of each byte are used, so the encoding can
//! never be mistaken for an MPEG sync pattern.

use vstd::prelude::*;

verus! {

/// The value that four syncsafe bytes stand for: each byte contributes
/// its low seven bits, most significant byte first, 28 bits in total.
pub open spec fn spec_syncsafe_decode(b: Seq<u8>) -> u32
    recommends
        b.len() == 4,
{
    (((b[0] & 0x7f) as u32) << 21) | (((b[1] & 0x7f) as u32) << 14) | (((b[2] & 0x7f) as u32)
        << 7) | ((b[3] & 0x7f) as u32)
}

/// The four syncsafe bytes that encode `n`: seven bits per byte, most
/// significant first. Bits at or above the 28th are dropped.
pub open spec fn spec_syncsafe_encode(n: u32) -> Seq<u8> {
    seq![
        ((n >> 21) & 0x7f) as u8,
        ((n >> 14) & 0x7f) as u8,
        ((n >> 7) & 0x7f) as u8,
        (n & 0x7f) as u8,
    ]
}

/// Encodes `total` as exactly four syncsafe bytes; values of 2^28 and
/// above silently lose their high bits.
pub fn as_syncsafe(total: u32) -> (r: Vec<u8>)
    ensures
        r@ == spec_syncsafe_encode(total),
{
    let mut result: Vec<u8> = Vec::new();
    result.push(((total >> 21) & 0x7f) as u8);
    result.push(((total >> 14) & 0x7f) as u8);
    result.push(((total >> 7) & 0x7f) as u8);
    result.push((total & 0x7f) as u8);
    proof {
        assert(result@ =~= spec_syncsafe_encode(total));
    }
    result
}

/// Reads the syncsafe value stored at `b[at .. at + 4]`.
pub fn decode_syncsafe(b: &[u8], at: usize) -> (r: u32)
    requires
        at + 4 <= b@.len(),
    ensures
        r == spec_syncsafe_decode(b@.subrange(at as int, at + 4)),
{
    let r = (((b[at] & 0x7f) as u32) << 21) | (((b[at + 1] & 0x7f) as u32) << 14) | (((b[at + 2]
        & 0x7f) as u32) << 7) | ((b[at + 3] & 0x7f) as u32);
    proof {
        let w = b@.subrange(at as int, at + 4);
        assert(w[0] == b@[at as int] && w[1] == b@[at + 1] && w[2] == b@[at + 2] && w[3] == b@[at
            + 3]);
    }
    r
}

/// A round trip through the syncsafe codec returns every 28-bit value
/// unchanged.
pub proof fn lemma_syncsafe_round_trip(n: u32)
    requires
        n < 0x1000_0000,
    ensures
        spec_syncsafe_decode(spec_syncsafe_encode(n)) == n,
{
    let b0 = ((n >> 21) & 0x7f) as u8;
    let b1 = ((n >> 14) & 0x7f) as u8;
    let b2 = ((n >> 7) & 0x7f) as u8;
    let b3 = (n & 0x7f) as u8;
    assert((((b0 & 0x7f) as u32) << 21) | (((b1 & 0x7f) as u32) << 14) | (((b2 & 0x7f) as u32)
        << 7) | ((b3 & 0x7f) as u32) == n) by (bit_vector)
        requires
            n < 0x1000_0000,
            b0 == ((n >> 21) & 0x7f) as u8,
            b1 == ((n >> 14) & 0x7f) as u8,
            b2 == ((n >> 7) & 0x7f) as u8,
            b3 == (n & 0x7f) as u8,
    ;
    assert(spec_syncsafe_encode(n)[0] == b0);
    assert(spec_syncsafe_encode(n)[1] == b1);
    assert(spec_syncsafe_encode(n)[2] == b2);
    assert(spec_syncsafe_encode(n)[3] == b3);
}

} // verus!
