//! Recovery of disk images embedded in a firmware ROM: header parsing,
//! block-table resolution and the three block encodings.

pub mod bitstream;
pub mod block;
pub mod bytes;
pub mod decoded;
pub mod disk;
pub mod error;
pub mod expand;
pub mod header;
pub mod negate;
pub mod scan;
pub mod table;
pub mod unpack;
