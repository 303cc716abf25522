//! The ways in which reconstructing a disk image can fail.

use vstd::prelude::*;

verus! {

/// A fatal condition met while processing one container.
#[derive(Debug, Clone, Copy, PartialEq, Eq, Structural)]
pub enum ExtractError {
    /// The container's version is not 1, or its block size is not 512.
    UnsupportedFormat,
    /// The disk length is not a whole number of blocks.
    MalformedLength,
    /// A block-table entry names a mode other than 0, 1 or 2.
    UnsupportedBlockMode,
    /// A storage address or a bit cursor lies outside the buffer.
    OutOfBounds,
}

impl ExtractError {
    /// A short description of the condition, for messages.
    pub fn describe(&self) -> (text: &'static str)
        ensures
            text@ == match *self {
                ExtractError::UnsupportedFormat => "unsupported version or block size"@,
                ExtractError::MalformedLength => "disk length is not in whole blocks"@,
                ExtractError::UnsupportedBlockMode => "unsupported block mode"@,
                ExtractError::OutOfBounds => "data lies outside the buffer"@,
            },
    {
        match self {
            ExtractError::UnsupportedFormat => "unsupported version or block size",
            ExtractError::MalformedLength => "disk length is not in whole blocks",
            ExtractError::UnsupportedBlockMode => "unsupported block mode",
            ExtractError::OutOfBounds => "data lies outside the buffer",
        }
    }
}

} // verus!
