//! The negated encoding of a block: every byte stored as its arithmetic
//! negation.

use vstd::prelude::*;
use crate::decoded::BLOCK_SIZE;
use crate::decoded::block_result;
use crate::error::ExtractError;

verus! {

/// The arithmetic negation of a byte, modulo 256.
pub open spec fn negate_byte(byte: u8) -> u8 {
    if byte == 0 {
        0
    } else {
        (256 - byte) as u8
    }
}

/// Every byte of `bytes` negated.
pub open spec fn negated(bytes: Seq<u8>) -> Seq<u8> {
    Seq::new(bytes.len(), |i: int| negate_byte(bytes[i]))
}

/// The block stored negated at the start of `storage`: its first 512
/// bytes, each negated. There is none where `storage` is shorter.
pub open spec fn negate_spec(storage: Seq<u8>) -> Option<Seq<u8>> {
    if storage.len() < BLOCK_SIZE {
        None
    } else {
        Some(negated(storage.subrange(0, BLOCK_SIZE as int)))
    }
}

/// Decodes a block that is stored as the negation of its bytes.
pub fn negate_block(storage: &[u8]) -> (result: Result<Vec<u8>, ExtractError>)
    ensures
        block_result(result, negate_spec(storage@)),
{
    if storage.len() < BLOCK_SIZE {
        return Err(ExtractError::OutOfBounds);
    }
    let mut block: Vec<u8> = Vec::new();
    let mut i: usize = 0;
    while i < BLOCK_SIZE
        invariant
            i <= BLOCK_SIZE <= storage@.len(),
            block@.len() == i,
            forall|k: int| 0 <= k < i ==> block@[k] == negate_byte(#[trigger] storage@[k]),
        decreases BLOCK_SIZE - i,
    {
        block.push(0u8.wrapping_sub(storage[i]));
        i = i + 1;
    }
    assert(block@ =~= negated(storage@.subrange(0, BLOCK_SIZE as int)));
    Ok(block)
}

/// Negation is its own inverse: negating the bytes twice gives them back.
pub proof fn lemma_negated_twice(bytes: Seq<u8>)
    ensures
        negated(negated(bytes)) == bytes,
{
}

/// Round trip of the negated encoding: storage that starts with the
/// negation of a 512-byte block decodes to that block.
pub proof fn lemma_negate_round_trip(block: Seq<u8>, storage: Seq<u8>)
    requires
        block.len() == BLOCK_SIZE,
        storage.len() >= BLOCK_SIZE,
        storage.subrange(0, BLOCK_SIZE as int) == negated(block),
    ensures
        negate_spec(storage) == Some(block),
{
    lemma_negated_twice(block);
}

} // verus!
