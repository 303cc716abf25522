//! Reconstructing the disk image of a container: every block decoded, in
//! the order of the block table.

use vstd::prelude::*;
use vstd::slice::slice_subrange;
use crate::block::block_at;
use crate::block::block_spec;
use crate::block::lemma_block_len;
use crate::decoded::BLOCK_SIZE;
use crate::decoded::block_result;
use crate::error::ExtractError;
use crate::header::Descriptor;
use crate::header::HEADER_LEN;
use crate::header::descriptor_of;
use crate::header::header_spec;
use crate::header::parse_header;
use crate::table::BlockEntry;
use crate::table::modes_supported;
use crate::table::read_block_table;
use crate::table::table_spec;

verus! {

/// The blocks of `entries`, decoded and joined in their order. There is no
/// image where a block cannot be decoded.
pub open spec fn image_spec(mem: Seq<u8>, data_base: int, entries: Seq<BlockEntry>) -> Option<
    Seq<u8>,
>
    decreases entries.len(),
{
    if entries.len() == 0 {
        Some(Seq::empty())
    } else {
        let entry = entries.last();
        match image_spec(mem, data_base, entries.drop_last()) {
            None => None,
            Some(image) => match block_spec(mem, data_base, entry.mode, entry.offset as int) {
                None => None,
                Some(block) => Some(image + block),
            },
        }
    }
}

/// An image has 512 bytes for each entry.
pub proof fn lemma_image_len(mem: Seq<u8>, data_base: int, entries: Seq<BlockEntry>)
    ensures
        image_spec(mem, data_base, entries) matches Some(image) ==> image.len() == BLOCK_SIZE
            * entries.len(),
    decreases entries.len(),
{
    if entries.len() > 0 {
        let entry = entries.last();
        lemma_image_len(mem, data_base, entries.drop_last());
        lemma_block_len(mem, data_base, entry.mode, entry.offset as int);
    }
}

/// Where a block cannot be decoded, no longer table has an image.
pub proof fn lemma_image_fails(mem: Seq<u8>, data_base: int, entries: Seq<BlockEntry>, count: int)
    requires
        0 <= count <= entries.len(),
        image_spec(mem, data_base, entries.take(count)) is None,
    ensures
        image_spec(mem, data_base, entries) is None,
    decreases entries.len(),
{
    if count < entries.len() {
        assert(entries.drop_last().take(count) =~= entries.take(count));
        lemma_image_fails(mem, data_base, entries.drop_last(), count);
    } else {
        assert(entries.take(count) =~= entries);
    }
}

/// Decodes the blocks of `entries` into one image. The data region starts
/// `data_offset` bytes after `location`.
pub fn extract_disk(mem: &[u8], location: usize, data_offset: u32, entries: &Vec<BlockEntry>) -> (result:
    Result<Vec<u8>, ExtractError>)
    requires
        modes_supported(entries@),
    ensures
        block_result(result, image_spec(mem@, location + data_offset, entries@)),
        result is Ok ==> result->Ok_0@.len() == BLOCK_SIZE * entries@.len(),
{
    let ghost data_base = location + data_offset;
    let mut disk: Vec<u8> = Vec::new();
    let mut i: usize = 0;
    while i < entries.len()
        invariant
            i <= entries@.len(),
            data_base == location + data_offset,
            modes_supported(entries@),
            image_spec(mem@, data_base, entries@.take(i as int)) == Some(disk@),
        decreases entries@.len() - i,
    {
        let entry: BlockEntry = entries[i];
        proof {
            assert(entries@.take(i + 1).drop_last() =~= entries@.take(i as int));
        }
        match block_at(mem, location, data_offset, entry.mode, entry.offset) {
            Ok(block) => {
                let mut block = block;
                disk.append(&mut block);
            },
            Err(e) => {
                proof {
                    lemma_image_fails(mem@, data_base, entries@, i + 1);
                }
                return Err(e);
            },
        }
        i = i + 1;
    }
    proof {
        assert(entries@.take(i as int) =~= entries@);
        lemma_image_len(mem@, data_base, entries@);
    }
    Ok(disk)
}

/// The number of blocks of a disk of `disk_length` bytes.
pub open spec fn block_count(descriptor: Descriptor) -> nat {
    (descriptor.disk_length as int / BLOCK_SIZE as int) as nat
}

/// The fields of the header at `location`.
pub open spec fn descriptor_at(mem: Seq<u8>, location: int) -> Descriptor {
    descriptor_of(mem.subrange(location, location + HEADER_LEN))
}

/// What the bytes at `location` in `mem` stand for: no container; a
/// container whose header, block table or blocks are at fault; or a
/// container and its disk image.
pub open spec fn extract_spec(mem: Seq<u8>, location: int) -> Result<Option<Seq<u8>>, ExtractError> {
    match header_spec(mem.subrange(location, location + HEADER_LEN)) {
        Err(e) => Err(e),
        Ok(None) => Ok(None),
        Ok(Some(descriptor)) => match table_spec(
            mem,
            location + descriptor.block_table_offset,
            block_count(descriptor),
        ) {
            Err(e) => Err(e),
            Ok(entries) => match image_spec(
                mem,
                location + descriptor.data_region_offset,
                entries,
            ) {
                None => Err(ExtractError::OutOfBounds),
                Some(image) => Ok(Some(image)),
            },
        },
    }
}

/// `result` with the image, where it has one, as a sequence.
pub open spec fn viewed(result: Result<Option<Vec<u8>>, ExtractError>) -> Result<
    Option<Seq<u8>>,
    ExtractError,
> {
    match result {
        Ok(Some(image)) => Ok(Some(image@)),
        Ok(None) => Ok(None),
        Err(e) => Err(e),
    }
}

/// Looks for a container at `location` and reconstructs its disk image.
/// Returns `None` where the signature is missing.
pub fn try_extract(mem: &[u8], location: usize) -> (result: Result<Option<Vec<u8>>, ExtractError>)
    requires
        location + HEADER_LEN <= mem@.len(),
    ensures
        viewed(result) == extract_spec(mem@, location as int),
        result matches Ok(Some(image)) ==> image@.len() == descriptor_at(
            mem@,
            location as int,
        ).disk_length,
{
    assert(mem@.len() == mem.len());
    let header: &[u8] = slice_subrange(mem, location, location + HEADER_LEN);
    let descriptor: Descriptor = match parse_header(header) {
        Ok(Some(descriptor)) => descriptor,
        Ok(None) => {
            return Ok(None);
        },
        Err(e) => {
            return Err(e);
        },
    };
    let num_blocks: usize = descriptor.disk_length as usize / BLOCK_SIZE;
    let entries: Vec<BlockEntry> = match read_block_table(
        mem,
        location,
        descriptor.block_table_offset,
        num_blocks,
    ) {
        Ok(entries) => entries,
        Err(e) => {
            return Err(e);
        },
    };
    match extract_disk(mem, location, descriptor.data_region_offset, &entries) {
        Ok(image) => Ok(Some(image)),
        Err(e) => Err(e),
    }
}

} // verus!
