//! Big-endian integer fields read from a byte buffer.

use vstd::prelude::*;

verus! {

/// The 16-bit big-endian value stored at `addr`.
pub open spec fn be_word(mem: Seq<u8>, addr: int) -> int {
    mem[addr] * 0x100 + mem[addr + 1]
}

/// The 32-bit big-endian value stored at `addr`.
pub open spec fn be_long(mem: Seq<u8>, addr: int) -> int {
    mem[addr] * 0x100_0000 + mem[addr + 1] * 0x1_0000 + mem[addr + 2] * 0x100 + mem[addr + 3]
}

/// Reads the big-endian 32-bit value at `addr`.
pub fn read_long(mem: &[u8], addr: usize) -> (value: u32)
    requires
        addr + 4 <= mem@.len(),
    ensures
        value == be_long(mem@, addr as int),
{
    let b0: u8 = mem[addr];
    let b1: u8 = mem[addr + 1];
    let b2: u8 = mem[addr + 2];
    let b3: u8 = mem[addr + 3];
    assert(((b0 as u32) << 24) | ((b1 as u32) << 16) | ((b2 as u32) << 8) | (b3 as u32)
        == b0 * 0x100_0000 + b1 * 0x1_0000 + b2 * 0x100 + b3) by (bit_vector);
    ((b0 as u32) << 24) | ((b1 as u32) << 16) | ((b2 as u32) << 8) | (b3 as u32)
}

/// Reads the big-endian 16-bit value at `addr`.
pub fn read_word(mem: &[u8], addr: usize) -> (value: u16)
    requires
        addr + 2 <= mem@.len(),
    ensures
        value == be_word(mem@, addr as int),
{
    let b0: u8 = mem[addr];
    let b1: u8 = mem[addr + 1];
    assert(((b0 as u16) << 8) | (b1 as u16) == b0 * 0x100 + b1) by (bit_vector);
    ((b0 as u16) << 8) | (b1 as u16)
}

} // verus!
