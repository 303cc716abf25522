//! The header of a disk container: its signature and the fields that
//! describe the disk.

use vstd::prelude::*;
use crate::bytes::be_long;
use crate::bytes::be_word;
use crate::bytes::read_long;
use crate::bytes::read_word;
use crate::error::ExtractError;

verus! {

/// The length of the window that a header is read from.
pub const HEADER_LEN: usize = 512;

/// The signature of a container, the text `EDisk Gary D`.
pub const EDISK_MAGIC: [u8; 12] = [
    0x45, 0x44, 0x69, 0x73, 0x6B, 0x20, 0x47, 0x61, 0x72, 0x79, 0x20, 0x44,
];

/// Where in the header the signature stands.
pub const MAGIC_AT: usize = 132;

/// Where in the header the block size stands.
pub const BLOCK_SIZE_AT: usize = 128;

/// Where in the header the version stands.
pub const VERSION_AT: usize = 130;

/// Where in the header the disk length stands.
pub const DISK_LENGTH_AT: usize = 144;

/// Where in the header the offset of the block table stands.
pub const BLOCK_TABLE_AT: usize = 156;

/// Where in the header the offset of the data region stands.
pub const DATA_REGION_AT: usize = 160;

/// The only block size that is supported.
pub const SUPPORTED_BLOCK_SIZE: u16 = 512;

/// The only version that is supported.
pub const SUPPORTED_VERSION: u16 = 1;

/// The fields of a container's header. Both offsets count from the start of
/// the container.
#[derive(Debug, Clone, Copy, PartialEq, Eq, Structural)]
pub struct Descriptor {
    pub block_size: u16,
    pub version: u16,
    pub disk_length: u32,
    pub block_table_offset: u32,
    pub data_region_offset: u32,
}

/// Whether `window` carries the signature.
pub open spec fn has_magic(window: Seq<u8>) -> bool {
    window.subrange(MAGIC_AT as int, MAGIC_AT + 12) == EDISK_MAGIC@
}

/// The fields as they stand in `window`.
pub open spec fn descriptor_of(window: Seq<u8>) -> Descriptor {
    Descriptor {
        block_size: be_word(window, BLOCK_SIZE_AT as int) as u16,
        version: be_word(window, VERSION_AT as int) as u16,
        disk_length: be_long(window, DISK_LENGTH_AT as int) as u32,
        block_table_offset: be_long(window, BLOCK_TABLE_AT as int) as u32,
        data_region_offset: be_long(window, DATA_REGION_AT as int) as u32,
    }
}

/// What a header window holds: no container where the signature is missing;
/// else a container, which is refused unless its version is 1, its block
/// size 512 and its length a whole number of blocks.
pub open spec fn header_spec(window: Seq<u8>) -> Result<Option<Descriptor>, ExtractError> {
    if !has_magic(window) {
        Ok(None)
    } else {
        let descriptor = descriptor_of(window);
        if descriptor.version != SUPPORTED_VERSION || descriptor.block_size
            != SUPPORTED_BLOCK_SIZE {
            Err(ExtractError::UnsupportedFormat)
        } else if descriptor.disk_length % (SUPPORTED_BLOCK_SIZE as u32) != 0 {
            Err(ExtractError::MalformedLength)
        } else {
            Ok(Some(descriptor))
        }
    }
}

/// Tells whether `window` carries the signature.
pub fn check_magic(window: &[u8]) -> (found: bool)
    requires
        window@.len() == HEADER_LEN,
    ensures
        found == has_magic(window@),
{
    let mut i: usize = 0;
    while i < 12
        invariant
            i <= 12,
            window@.len() == HEADER_LEN,
            forall|k: int| 0 <= k < i ==> window@[MAGIC_AT + k] == EDISK_MAGIC@[k],
        decreases 12 - i,
    {
        if window[MAGIC_AT + i] != EDISK_MAGIC[i] {
            assert(window@.subrange(MAGIC_AT as int, MAGIC_AT + 12)[i as int]
                != EDISK_MAGIC@[i as int]);
            return false;
        }
        i = i + 1;
    }
    assert(window@.subrange(MAGIC_AT as int, MAGIC_AT + 12) =~= EDISK_MAGIC@);
    true
}

/// Validates a header window and reads its fields.
pub fn parse_header(window: &[u8]) -> (result: Result<Option<Descriptor>, ExtractError>)
    requires
        window@.len() == HEADER_LEN,
    ensures
        result == header_spec(window@),
{
    if !check_magic(window) {
        return Ok(None);
    }
    let descriptor = Descriptor {
        block_size: read_word(window, BLOCK_SIZE_AT),
        version: read_word(window, VERSION_AT),
        disk_length: read_long(window, DISK_LENGTH_AT),
        block_table_offset: read_long(window, BLOCK_TABLE_AT),
        data_region_offset: read_long(window, DATA_REGION_AT),
    };
    if descriptor.version != SUPPORTED_VERSION || descriptor.block_size != SUPPORTED_BLOCK_SIZE {
        return Err(ExtractError::UnsupportedFormat);
    }
    if descriptor.disk_length % (SUPPORTED_BLOCK_SIZE as u32) != 0 {
        return Err(ExtractError::MalformedLength);
    }
    Ok(Some(descriptor))
}

} // verus!
