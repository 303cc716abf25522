//! Decoding one block of a disk image from its mode and storage offset.

use vstd::prelude::*;
use vstd::slice::slice_subrange;
use crate::decoded::BLOCK_SIZE;
use crate::decoded::block_result;
use crate::decoded::bytes_of;
use crate::decoded::repeated;
use crate::error::ExtractError;
use crate::expand::LOOKUP_LEN;
use crate::expand::expand;
use crate::expand::lemma_expand_len;
use crate::expand::expand_spec;
use crate::negate::negate_block;
use crate::negate::lemma_negate_round_trip;
use crate::negate::negate_spec;
use crate::negate::negated;
use crate::unpack::lemma_unpack_len;
use crate::unpack::unpack;
use crate::unpack::unpack_spec;

verus! {

/// The mode of a block stored negated.
pub const MODE_NEGATED: u8 = 0;

/// The mode of a run-length encoded block.
pub const MODE_PACKED: u8 = 1;

/// The mode of a block stored as a lookup table and a bit stream.
pub const MODE_DICTIONARY: u8 = 2;

/// A block of 512 zero bytes.
pub open spec fn zero_block() -> Seq<u8> {
    repeated(0, BLOCK_SIZE as nat)
}

/// The block that `storage` holds in the encoding that `mode` names.
pub open spec fn storage_spec(storage: Seq<u8>, mode: u8) -> Option<Seq<u8>> {
    if mode == MODE_NEGATED {
        negate_spec(storage)
    } else if mode == MODE_PACKED {
        bytes_of(unpack_spec(storage))
    } else {
        bytes_of(expand_spec(storage))
    }
}

/// The block that an entry with `mode` and `block_offset` stands for. Mode 0
/// at offset 0 is a block of zeros, whatever `mem` holds. Any other entry is
/// decoded from the storage that starts `block_offset` bytes from
/// `data_base`, which has to lie in `mem`.
pub open spec fn block_spec(mem: Seq<u8>, data_base: int, mode: u8, block_offset: int) -> Option<
    Seq<u8>,
> {
    if mode == MODE_NEGATED && block_offset == 0 {
        Some(zero_block())
    } else {
        let start = data_base + block_offset;
        if start < 0 || start > mem.len() {
            None
        } else {
            storage_spec(mem.subrange(start, mem.len() as int), mode)
        }
    }
}

/// Decodes the block at the start of `storage` in the encoding that `mode`
/// names.
pub fn decode_storage(storage: &[u8], mode: u8) -> (result: Result<Vec<u8>, ExtractError>)
    requires
        mode <= MODE_DICTIONARY,
    ensures
        block_result(result, storage_spec(storage@, mode)),
{
    if mode == MODE_NEGATED {
        negate_block(storage)
    } else if mode == MODE_PACKED {
        match unpack(storage) {
            Ok(decoded) => Ok(decoded.0),
            Err(e) => Err(e),
        }
    } else {
        match expand(storage) {
            Ok(decoded) => Ok(decoded.0),
            Err(e) => Err(e),
        }
    }
}

/// The address `location + data_offset + block_offset`, where it lies in a
/// buffer of `mem_len` bytes or just at its end.
fn storage_start(mem_len: usize, location: usize, data_offset: u32, block_offset: i32) -> (start:
    Option<usize>)
    ensures
        match start {
            Some(s) => s == location + data_offset + block_offset && s <= mem_len,
            None => location + data_offset + block_offset < 0 || location + data_offset
                + block_offset > mem_len,
        },
{
    let address: i128 = location as i128 + data_offset as i128 + block_offset as i128;
    if address < 0 || address > mem_len as i128 {
        None
    } else {
        Some(address as usize)
    }
}

/// Decodes the block of an entry whose data region starts `data_offset`
/// bytes after `location`.
pub fn block_at(
    mem: &[u8],
    location: usize,
    data_offset: u32,
    mode: u8,
    block_offset: i32,
) -> (result: Result<Vec<u8>, ExtractError>)
    requires
        mode <= MODE_DICTIONARY,
    ensures
        block_result(result, block_spec(mem@, location + data_offset, mode, block_offset as int)),
{
    if mode == MODE_NEGATED && block_offset == 0 {
        let mut block: Vec<u8> = Vec::new();
        while block.len() < BLOCK_SIZE
            invariant
                block@.len() <= BLOCK_SIZE,
                block@ == repeated(0, block@.len()),
            decreases BLOCK_SIZE - block@.len(),
        {
            block.push(0);
        }
        return Ok(block);
    }
    match storage_start(mem.len(), location, data_offset, block_offset) {
        Some(start) => decode_storage(slice_subrange(mem, start, mem.len()), mode),
        None => Err(ExtractError::OutOfBounds),
    }
}

/// Decodes one block: the entry's `mode` and `block_offset`, the latter
/// counted from `data_base`, decide what is read from `mem` and how.
pub fn extract_block(mem: &[u8], data_base: usize, mode: u8, block_offset: i32) -> (result: Result<
    Vec<u8>,
    ExtractError,
>)
    requires
        mode <= MODE_DICTIONARY,
    ensures
        block_result(result, block_spec(mem@, data_base as int, mode, block_offset as int)),
        mode == MODE_NEGATED && block_offset == 0 ==> result is Ok && result->Ok_0@
            == zero_block(),
        result is Ok ==> result->Ok_0@.len() == BLOCK_SIZE,
{
    let result = block_at(mem, data_base, 0, mode, block_offset);
    proof {
        lemma_block_len(mem@, data_base as int, mode, block_offset as int);
    }
    result
}

/// Every decoded block has 512 bytes.
pub proof fn lemma_block_len(mem: Seq<u8>, data_base: int, mode: u8, block_offset: int)
    ensures
        block_spec(mem, data_base, mode, block_offset) matches Some(block) ==> block.len()
            == BLOCK_SIZE,
{
    let start = data_base + block_offset;
    if 0 <= start <= mem.len() {
        let storage = mem.subrange(start, mem.len() as int);
        lemma_unpack_len(storage, 0, BLOCK_SIZE as nat);
        if storage.len() >= LOOKUP_LEN {
            lemma_expand_len(
                storage.subrange(0, LOOKUP_LEN as int),
                storage.subrange(LOOKUP_LEN as int, storage.len() as int),
                0,
                BLOCK_SIZE as nat,
            );
        }
    }
}

/// An entry of mode 0 at offset 0 stands for a block of zeros, whatever the
/// buffer holds and wherever the data region lies.
pub proof fn lemma_zero_entry(mem: Seq<u8>, data_base: int)
    ensures
        block_spec(mem, data_base, MODE_NEGATED, 0) == Some(zero_block()),
{
}

/// Round trip of a mode-0 entry: where the storage of an entry at a nonzero
/// offset holds the negation of a 512-byte block, the entry decodes to that
/// block.
pub proof fn lemma_negated_entry_round_trip(
    mem: Seq<u8>,
    data_base: int,
    block_offset: int,
    block: Seq<u8>,
)
    requires
        block.len() == BLOCK_SIZE,
        block_offset != 0,
        0 <= data_base + block_offset,
        data_base + block_offset + BLOCK_SIZE <= mem.len(),
        mem.subrange(data_base + block_offset, data_base + block_offset + BLOCK_SIZE) == negated(
            block,
        ),
    ensures
        block_spec(mem, data_base, MODE_NEGATED, block_offset) == Some(block),
{
    let start = data_base + block_offset;
    let storage = mem.subrange(start, mem.len() as int);
    assert(storage.subrange(0, BLOCK_SIZE as int) =~= mem.subrange(start, start + BLOCK_SIZE));
    lemma_negate_round_trip(block, storage);
}

} // verus!
