//! Big-endian field readers over byte slices.

use vstd::prelude::*;

verus! {

/// The big-endian 16-bit value whose bytes sit at `pos` and `pos + 1` in `s`.
pub open spec fn be16(s: Seq<u8>, pos: int) -> int {
    s[pos] * 256 + s[pos + 1]
}

/// The big-endian 32-bit value whose bytes sit at `pos .. pos + 4` in `s`.
pub open spec fn be32(s: Seq<u8>, pos: int) -> int {
    s[pos] * 0x1000000 + s[pos + 1] * 0x10000 + s[pos + 2] * 256 + s[pos + 3]
}

/// Reads the byte at `pos`.
pub fn read_u8(bytes: &[u8], pos: usize) -> (r: u8)
    requires
        pos < bytes@.len(),
    ensures
        r == bytes@[pos as int],
{
    bytes[pos]
}

/// Reads the big-endian 16-bit value at `pos`.
pub fn read_u16(bytes: &[u8], pos: usize) -> (r: u16)
    requires
        pos + 2 <= bytes@.len(),
    ensures
        r == be16(bytes@, pos as int),
{
    let b0 = bytes[pos] as u16;
    let b1 = bytes[pos + 1] as u16;
    b0 * 256 + b1
}

/// Reads the big-endian 32-bit value at `pos`.
pub fn read_u32(bytes: &[u8], pos: usize) -> (r: u32)
    requires
        pos + 4 <= bytes@.len(),
    ensures
        r == be32(bytes@, pos as int),
{
    let b0 = bytes[pos] as u32;
    let b1 = bytes[pos + 1] as u32;
    let b2 = bytes[pos + 2] as u32;
    let b3 = bytes[pos + 3] as u32;
    b0 * 0x1000000 + b1 * 0x10000 + b2 * 256 + b3
}

} // verus!
