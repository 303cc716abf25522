//! The block table of a container: one entry for each block of the disk,
//! giving the block's encoding and where its storage lies.

use vstd::prelude::*;
use crate::block::MODE_DICTIONARY;
use crate::bytes::be_long;
use crate::bytes::read_long;
use crate::error::ExtractError;

verus! {

/// The length of a block-table entry.
pub const ENTRY_LEN: usize = 4;

/// An entry of the block table: the block's mode, and the offset of its
/// storage from the base of the data region, which may be negative.
#[derive(Debug, Clone, Copy, PartialEq, Eq, Structural)]
pub struct BlockEntry {
    pub mode: u8,
    pub offset: i32,
}

/// The low 24 bits of `raw` read as a two's-complement number.
pub open spec fn signed_offset_spec(raw: u32) -> int {
    let low = raw % 0x100_0000;
    if low < 0x80_0000 {
        low as int
    } else {
        low - 0x100_0000
    }
}

/// The mode that `raw` names: its top byte.
pub open spec fn mode_spec(raw: u32) -> int {
    raw as int / 0x100_0000
}

/// The entry that `raw` encodes. A mode above 2 is refused.
pub open spec fn entry_spec(raw: u32) -> Result<BlockEntry, ExtractError> {
    if mode_spec(raw) > MODE_DICTIONARY {
        Err(ExtractError::UnsupportedBlockMode)
    } else {
        Ok(BlockEntry { mode: mode_spec(raw) as u8, offset: signed_offset_spec(raw) as i32 })
    }
}

/// Entry `index` of the table at `table_base`. An entry that does not lie
/// within `mem` is out of bounds.
pub open spec fn entry_at(mem: Seq<u8>, table_base: int, index: int) -> Result<
    BlockEntry,
    ExtractError,
> {
    let address = table_base + ENTRY_LEN * index;
    if address + ENTRY_LEN > mem.len() {
        Err(ExtractError::OutOfBounds)
    } else {
        entry_spec(be_long(mem, address) as u32)
    }
}

/// The first `count` entries of the table at `table_base`, or the error of
/// the first entry among them that has one.
pub open spec fn table_spec(mem: Seq<u8>, table_base: int, count: nat) -> Result<
    Seq<BlockEntry>,
    ExtractError,
>
    decreases count,
{
    if count == 0 {
        Ok(Seq::empty())
    } else {
        match table_spec(mem, table_base, (count - 1) as nat) {
            Err(e) => Err(e),
            Ok(entries) => match entry_at(mem, table_base, count - 1) {
                Err(e) => Err(e),
                Ok(entry) => Ok(entries.push(entry)),
            },
        }
    }
}

/// Whether every entry names a mode that a decoder exists for.
pub open spec fn modes_supported(entries: Seq<BlockEntry>) -> bool {
    forall|i: int| 0 <= i < entries.len() ==> (#[trigger] entries[i]).mode <= MODE_DICTIONARY
}

/// Sign-extends the 24-bit offset in the low bits of `raw`.
pub fn signed_offset(raw: u32) -> (offset: i32)
    ensures
        offset == signed_offset_spec(raw),
{
    let low: u32 = raw & 0x00ff_ffff;
    assert(raw & 0x00ff_ffff == raw % 0x100_0000) by (bit_vector);
    if low < 0x0080_0000 {
        low as i32
    } else {
        low as i32 - 0x0100_0000
    }
}

/// Splits a raw table entry into mode and signed offset.
pub fn parse_entry(raw: u32) -> (result: Result<BlockEntry, ExtractError>)
    ensures
        result == entry_spec(raw),
{
    let mode: u32 = raw >> 24;
    assert(raw >> 24 == raw / 0x100_0000) by (bit_vector);
    if mode > MODE_DICTIONARY as u32 {
        return Err(ExtractError::UnsupportedBlockMode);
    }
    Ok(BlockEntry { mode: mode as u8, offset: signed_offset(raw) })
}

/// Reads the `count` entries of the block table that starts `table_offset`
/// bytes after `location`.
pub fn read_block_table(mem: &[u8], location: usize, table_offset: u32, count: usize) -> (result:
    Result<Vec<BlockEntry>, ExtractError>)
    ensures
        match result {
            Ok(entries) => {
                &&& table_spec(mem@, location + table_offset, count as nat) == Ok::<
                    Seq<BlockEntry>,
                    ExtractError,
                >(entries@)
                &&& entries@.len() == count
                &&& modes_supported(entries@)
            },
            Err(e) => table_spec(mem@, location + table_offset, count as nat) == Err::<
                Seq<BlockEntry>,
                ExtractError,
            >(e),
        },
{
    let ghost table_base = location + table_offset;
    let mut entries: Vec<BlockEntry> = Vec::new();
    let mut i: usize = 0;
    while i < count
        invariant
            i <= count,
            table_base == location + table_offset,
            entries@.len() == i,
            modes_supported(entries@),
            table_spec(mem@, table_base, i as nat) == Ok::<Seq<BlockEntry>, ExtractError>(
                entries@,
            ),
        decreases count - i,
    {
        let address: u128 = location as u128 + table_offset as u128 + (ENTRY_LEN as u128) * (i as u128);
        if address + ENTRY_LEN as u128 > mem.len() as u128 {
            proof {
                lemma_table_error(mem@, table_base, i as nat, count as nat);
            }
            return Err(ExtractError::OutOfBounds);
        }
        match parse_entry(read_long(mem, address as usize)) {
            Ok(entry) => {
                entries.push(entry);
            },
            Err(e) => {
                proof {
                    lemma_table_error(mem@, table_base, i as nat, count as nat);
                }
                return Err(e);
            },
        }
        i = i + 1;
    }
    Ok(entries)
}

/// Where entry `index` has an error and no entry before it has one, every
/// table that reaches past `index` has that error.
pub proof fn lemma_table_error(mem: Seq<u8>, table_base: int, index: nat, count: nat)
    requires
        index < count,
        table_spec(mem, table_base, index) is Ok,
        entry_at(mem, table_base, index as int) is Err,
    ensures
        table_spec(mem, table_base, count) == Err::<Seq<BlockEntry>, ExtractError>(
            entry_at(mem, table_base, index as int)->Err_0,
        ),
    decreases count,
{
    if count > index + 1 {
        lemma_table_error(mem, table_base, index, (count - 1) as nat);
    }
}

} // verus!
