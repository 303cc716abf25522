//! What a block decoder yields, in contracts: the decoded bytes and, for a
//! decoder that consumes a stream, the offset at which it stopped.

use vstd::prelude::*;
use crate::error::ExtractError;

verus! {

/// The length of every decoded block.
pub const BLOCK_SIZE: usize = 512;

/// The output of a decoder that consumes a stream: the bytes decoded and the
/// offset in the stream at which decoding ended.
pub type Decoded = (Seq<u8>, int);

/// `result` carries the bytes of `expected`, or fails with `OutOfBounds`
/// where there are none.
pub open spec fn block_result(
    result: Result<Vec<u8>, ExtractError>,
    expected: Option<Seq<u8>>,
) -> bool {
    match expected {
        Some(bytes) => result is Ok && result->Ok_0@ == bytes,
        None => result == Err::<Vec<u8>, ExtractError>(ExtractError::OutOfBounds),
    }
}

/// `result` carries the bytes and the end offset of `expected`, or fails
/// with `OutOfBounds` where there are none.
pub open spec fn stream_result(
    result: Result<(Vec<u8>, usize), ExtractError>,
    expected: Option<Decoded>,
) -> bool {
    match expected {
        Some(decoded) => {
            &&& result is Ok
            &&& result->Ok_0.0@ == decoded.0
            &&& result->Ok_0.1 == decoded.1
        },
        None => result == Err::<(Vec<u8>, usize), ExtractError>(ExtractError::OutOfBounds),
    }
}

/// The bytes of `decoded`, without the end offset.
pub open spec fn bytes_of(decoded: Option<Decoded>) -> Option<Seq<u8>> {
    match decoded {
        Some(d) => Some(d.0),
        None => None,
    }
}

/// `prefix` followed by what `rest` decoded; nothing where `rest` failed.
pub open spec fn joined(prefix: Seq<u8>, rest: Option<Decoded>) -> Option<Decoded> {
    match rest {
        Some(d) => Some((prefix + d.0, d.1)),
        None => None,
    }
}

/// Joining nothing in front changes nothing.
pub proof fn lemma_joined_empty(rest: Option<Decoded>)
    ensures
        joined(Seq::empty(), rest) == rest,
{
}

/// Joining two prefixes one after the other joins their concatenation.
pub proof fn lemma_joined_twice(first: Seq<u8>, second: Seq<u8>, rest: Option<Decoded>)
    ensures
        joined(first, joined(second, rest)) == joined(first + second, rest),
{
}

/// `count` copies of `byte`.
pub open spec fn repeated(byte: u8, count: nat) -> Seq<u8> {
    Seq::new(count, |i: int| byte)
}

} // verus!
