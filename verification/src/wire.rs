//! Fixed-width integer fields as they appear on the wire: big-endian for
//! the tag format's plain size and flag fields, little-endian for UTF-16
//! code units.

use vstd::prelude::*;

verus! {

/// The 16-bit big-endian value stored at `b[at]` and `b[at + 1]`.
pub open spec fn spec_be_u16(b: Seq<u8>, at: int) -> u16
    recommends
        0 <= at,
        at + 2 <= b.len(),
{
    (((b[at] as u16) << 8) | (b[at + 1] as u16)) as u16
}

/// The 32-bit big-endian value stored at `b[at .. at + 4]`.
pub open spec fn spec_be_u32(b: Seq<u8>, at: int) -> u32
    recommends
        0 <= at,
        at + 4 <= b.len(),
{
    ((b[at] as u32) << 24) | ((b[at + 1] as u32) << 16) | ((b[at + 2] as u32) << 8) | (b[at
        + 3] as u32)
}

/// The 16-bit little-endian value stored at `b[at]` and `b[at + 1]`.
pub open spec fn spec_le_u16(b: Seq<u8>, at: int) -> u16
    recommends
        0 <= at,
        at + 2 <= b.len(),
{
    (((b[at + 1] as u16) << 8) | (b[at] as u16)) as u16
}

/// The two big-endian bytes of `v`, high byte first.
pub open spec fn spec_u16_be_bytes(v: u16) -> Seq<u8> {
    seq![(v >> 8) as u8, (v & 0xff) as u8]
}

/// The two little-endian bytes of `v`, low byte first.
pub open spec fn spec_u16_le_bytes(v: u16) -> Seq<u8> {
    seq![(v & 0xff) as u8, (v >> 8) as u8]
}

pub fn be_u16(b: &[u8], at: usize) -> (r: u16)
    requires
        at + 2 <= b@.len(),
    ensures
        r == spec_be_u16(b@, at as int),
{
    ((b[at] as u16) << 8) | (b[at + 1] as u16)
}

pub fn be_u32(b: &[u8], at: usize) -> (r: u32)
    requires
        at + 4 <= b@.len(),
    ensures
        r == spec_be_u32(b@, at as int),
{
    ((b[at] as u32) << 24) | ((b[at + 1] as u32) << 16) | ((b[at + 2] as u32) << 8) | (b[at
        + 3] as u32)
}

pub fn le_u16(b: &[u8], at: usize) -> (r: u16)
    requires
        at + 2 <= b@.len(),
    ensures
        r == spec_le_u16(b@, at as int),
{
    let _n: usize = b.len();
    ((b[at + 1] as u16) << 8) | (b[at] as u16)
}

/// Appends the two big-endian bytes of `v` to `out`.
pub fn push_be_u16(out: &mut Vec<u8>, v: u16)
    ensures
        final(out)@ == old(out)@ + spec_u16_be_bytes(v),
{
    out.push((v >> 8) as u8);
    out.push((v & 0xff) as u8);
    proof {
        assert(out@ =~= old(out)@ + spec_u16_be_bytes(v));
    }
}

/// Casting to `u32` keeps the value's low 32 bits.
pub proof fn lemma_trunc_u32(x: u64)
    ensures
        x as u32 == ((x as int) % 0x1_0000_0000) as u32,
{
    assert(x as u32 == (x % 0x1_0000_0000) as u32) by (bit_vector);
}

} // verus!
