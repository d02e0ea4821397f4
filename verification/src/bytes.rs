//! Little-endian integers at a byte offset.
use vstd::prelude::*;

verus! {

/// The 16-bit little-endian integer whose first byte is `b[at]`.
pub open spec fn le_u16(b: Seq<u8>, at: int) -> u16 {
    (b[at] + 0x100 * b[at + 1]) as u16
}

/// The 32-bit little-endian integer whose first byte is `b[at]`.
pub open spec fn le_u32(b: Seq<u8>, at: int) -> u32 {
    (le_u16(b, at) + 0x1_0000 * le_u16(b, at + 2)) as u32
}

/// The 64-bit little-endian integer whose first byte is `b[at]`.
pub open spec fn le_u64(b: Seq<u8>, at: int) -> u64 {
    (le_u32(b, at) + 0x1_0000_0000 * le_u32(b, at + 4)) as u64
}

/// A little-endian integer is worth the sum of its bytes, each 256 times the one
/// before it.
pub proof fn lemma_little_endian(b: Seq<u8>, at: int)
    ensures
        le_u16(b, at) == b[at]
            + 0x100 * b[at + 1],
        le_u32(b, at) == b[at]
            + 0x100 * b[at + 1]
            + 0x1_0000 * b[at + 2]
            + 0x100_0000 * b[at + 3],
        le_u64(b, at) == b[at]
            + 0x100 * b[at + 1]
            + 0x1_0000 * b[at + 2]
            + 0x100_0000 * b[at + 3]
            + 0x1_0000_0000 * b[at + 4]
            + 0x100_0000_0000 * b[at + 5]
            + 0x1_0000_0000_0000 * b[at + 6]
            + 0x100_0000_0000_0000 * b[at + 7],
{
}

/// The part of [`lemma_little_endian`] that speaks of two bytes.
pub(crate) proof fn lemma_le_u16(b: Seq<u8>, at: int)
    ensures
        le_u16(b, at) == b[at] + 0x100 * b[at + 1],
{
}

/// The part of [`lemma_little_endian`] that speaks of four bytes.
pub(crate) proof fn lemma_le_u32(b: Seq<u8>, at: int)
    ensures
        le_u32(b, at) == b[at] + 0x100 * b[at + 1] + 0x1_0000 * b[at + 2] + 0x100_0000 * b[at + 3],
{
}

/// The part of [`lemma_little_endian`] that speaks of eight bytes.
pub(crate) proof fn lemma_le_u64(b: Seq<u8>, at: int)
    ensures
        le_u64(b, at) == b[at] + 0x100 * b[at + 1] + 0x1_0000 * b[at + 2] + 0x100_0000 * b[at + 3]
            + 0x1_0000_0000 * b[at + 4] + 0x100_0000_0000 * b[at + 5] + 0x1_0000_0000_0000 * b[at
            + 6] + 0x100_0000_0000_0000 * b[at + 7],
{
}

/// Reads two bytes at `at`.
pub fn read_u16(b: &[u8], at: usize) -> (r: u16)
    requires
        at + 2 <= b.len(),
    ensures
        r == le_u16(b@, at as int),
        r == b@[at as int]
            + 0x100 * b@[at + 1],
{
    b[at] as u16 + 0x100 * b[at + 1] as u16
}

/// Reads four bytes at `at`.
pub fn read_u32(b: &[u8], at: usize) -> (r: u32)
    requires
        at + 4 <= b.len(),
    ensures
        r == le_u32(b@, at as int),
        r == b@[at as int]
            + 0x100 * b@[at + 1]
            + 0x1_0000 * b@[at + 2]
            + 0x100_0000 * b@[at + 3],
{
    read_u16(b, at) as u32 + 0x1_0000 * read_u16(b, at + 2) as u32
}

/// Reads eight bytes at `at`.
pub fn read_u64(b: &[u8], at: usize) -> (r: u64)
    requires
        at + 8 <= b.len(),
    ensures
        r == le_u64(b@, at as int),
        r == b@[at as int]
            + 0x100 * b@[at + 1]
            + 0x1_0000 * b@[at + 2]
            + 0x100_0000 * b@[at + 3]
            + 0x1_0000_0000 * b@[at + 4]
            + 0x100_0000_0000 * b@[at + 5]
            + 0x1_0000_0000_0000 * b@[at + 6]
            + 0x100_0000_0000_0000 * b@[at + 7],
{
    read_u32(b, at) as u64 + 0x1_0000_0000 * read_u32(b, at + 4) as u64
}

} // verus!
