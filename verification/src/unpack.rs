//! The run-length encoding of a block: a stream of literal and repeat runs.

use vstd::prelude::*;
use crate::decoded::BLOCK_SIZE;
use crate::decoded::Decoded;
use crate::decoded::bytes_of;
use crate::decoded::joined;
use crate::decoded::lemma_joined_empty;
use crate::decoded::lemma_joined_twice;
use crate::decoded::repeated;
use crate::decoded::stream_result;
use crate::error::ExtractError;

verus! {

/// What the run-length command stream that starts at `idx` in `storage`
/// expands to when `need` more bytes are wanted, and where in `storage` it
/// ends. The command `0x80` does nothing; a command below `0x80` copies the
/// `command + 1` bytes that follow it; a command above `0x80` repeats the one
/// byte that follows it `257 - command` times. Decoding ends as soon as no
/// byte is wanted any more. There is no expansion where the stream leaves
/// `storage`, or where a run gives more bytes than are wanted.
pub open spec fn unpack_from(storage: Seq<u8>, idx: int, need: nat) -> Option<Decoded>
    decreases need, storage.len() - idx,
{
    if need == 0 {
        Some((Seq::empty(), idx))
    } else if idx < 0 || idx >= storage.len() {
        None
    } else {
        let command = storage[idx];
        if command == 0x80 {
            unpack_from(storage, idx + 1, need)
        } else if command < 0x80 {
            let count = command + 1;
            if count > need || idx + 1 + count > storage.len() {
                None
            } else {
                joined(
                    storage.subrange(idx + 1, idx + 1 + count),
                    unpack_from(storage, idx + 1 + count, (need - count) as nat),
                )
            }
        } else {
            let count = 257 - command;
            if count > need || idx + 1 >= storage.len() {
                None
            } else {
                joined(
                    repeated(storage[idx + 1], count as nat),
                    unpack_from(storage, idx + 2, (need - count) as nat),
                )
            }
        }
    }
}

/// An expansion has as many bytes as were wanted.
pub proof fn lemma_unpack_len(storage: Seq<u8>, idx: int, need: nat)
    ensures
        unpack_from(storage, idx, need) matches Some(d) ==> d.0.len() == need,
    decreases need, storage.len() - idx,
{
    if need == 0 || idx < 0 || idx >= storage.len() {
    } else {
        let command = storage[idx];
        if command == 0x80 {
            lemma_unpack_len(storage, idx + 1, need);
        } else if command < 0x80 {
            let count = command + 1;
            if count <= need && idx + 1 + count <= storage.len() {
                lemma_unpack_len(storage, idx + 1 + count, (need - count) as nat);
            }
        } else {
            let count = 257 - command;
            if count <= need && idx + 1 < storage.len() {
                lemma_unpack_len(storage, idx + 2, (need - count) as nat);
            }
        }
    }
}

/// The block that the run-length stream at the start of `storage` expands
/// to, with the offset at which the stream ends.
pub open spec fn unpack_spec(storage: Seq<u8>) -> Option<Decoded> {
    unpack_from(storage, 0, BLOCK_SIZE as nat)
}

/// Decodes a run-length encoded block. Returns the block together with the
/// offset in `storage` just past the last command used.
pub fn unpack(storage: &[u8]) -> (result: Result<(Vec<u8>, usize), ExtractError>)
    ensures
        stream_result(result, unpack_spec(storage@)),
{
    let mut block: Vec<u8> = Vec::new();
    let mut idx: usize = 0;
    proof {
        lemma_joined_empty(unpack_spec(storage@));
    }
    while block.len() < BLOCK_SIZE
        invariant
            idx <= storage@.len(),
            block@.len() <= BLOCK_SIZE,
            unpack_spec(storage@) == joined(
                block@,
                unpack_from(storage@, idx as int, (BLOCK_SIZE - block@.len()) as nat),
            ),
        decreases BLOCK_SIZE - block@.len(), storage@.len() - idx,
    {
        let ghost done = block@;
        let ghost need = (BLOCK_SIZE - block@.len()) as nat;
        let ghost at = idx as int;
        if idx >= storage.len() {
            return Err(ExtractError::OutOfBounds);
        }
        let command: u8 = storage[idx];
        idx = idx + 1;
        if command < 0x80 {
            let count: usize = command as usize + 1;
            if count > BLOCK_SIZE - block.len() || count > storage.len() - idx {
                return Err(ExtractError::OutOfBounds);
            }
            let mut copied: usize = 0;
            while copied < count
                invariant
                    copied <= count,
                    idx + count <= storage.len() == storage@.len(),
                    block@ == done + storage@.subrange(idx as int, idx + copied),
                decreases count - copied,
            {
                block.push(storage[idx + copied]);
                copied = copied + 1;
            }
            idx = idx + count;
            proof {
                lemma_joined_twice(
                    done,
                    storage@.subrange(at + 1, at + 1 + count),
                    unpack_from(storage@, at + 1 + count, (need - count) as nat),
                );
            }
        } else if command > 0x80 {
            let count: usize = 257 - command as usize;
            if count > BLOCK_SIZE - block.len() || idx >= storage.len() {
                return Err(ExtractError::OutOfBounds);
            }
            let byte: u8 = storage[idx];
            idx = idx + 1;
            let mut copied: usize = 0;
            while copied < count
                invariant
                    copied <= count,
                    block@ == done + repeated(byte, copied as nat),
                decreases count - copied,
            {
                block.push(byte);
                copied = copied + 1;
            }
            proof {
                lemma_joined_twice(
                    done,
                    repeated(byte, count as nat),
                    unpack_from(storage@, at + 2, (need - count) as nat),
                );
            }
        }
    }
    Ok((block, idx))
}

/// A command of the run-length grammar, as an encoder chooses it.
pub enum Run {
    /// The command that gives no byte.
    Nop,
    /// A run of 1 to 128 bytes that are copied.
    Literal { bytes: Seq<u8> },
    /// One byte that is repeated 2 to 128 times.
    Repeat { byte: u8, count: nat },
}

impl Run {
    /// Whether the grammar has a command for this run.
    pub open spec fn valid(self) -> bool {
        match self {
            Run::Nop => true,
            Run::Literal { bytes } => 1 <= bytes.len() <= 128,
            Run::Repeat { byte, count } => 2 <= count <= 128,
        }
    }

    /// The command byte and what follows it.
    pub open spec fn encoding(self) -> Seq<u8> {
        match self {
            Run::Nop => seq![0x80u8],
            Run::Literal { bytes } => seq![(bytes.len() - 1) as u8] + bytes,
            Run::Repeat { byte, count } => seq![(257 - count) as u8, byte],
        }
    }

    /// The bytes that the run stands for.
    pub open spec fn expansion(self) -> Seq<u8> {
        match self {
            Run::Nop => Seq::empty(),
            Run::Literal { bytes } => bytes,
            Run::Repeat { byte, count } => repeated(byte, count),
        }
    }
}

/// Whether the grammar has a command for each of `runs`.
pub open spec fn runs_valid(runs: Seq<Run>) -> bool {
    forall|i: int| 0 <= i < runs.len() ==> (#[trigger] runs[i]).valid()
}

/// The command stream of `runs`.
pub open spec fn encode_runs(runs: Seq<Run>) -> Seq<u8>
    decreases runs.len(),
{
    if runs.len() == 0 {
        Seq::empty()
    } else {
        runs.first().encoding() + encode_runs(runs.drop_first())
    }
}

/// The bytes that `runs` stand for.
pub open spec fn expand_runs(runs: Seq<Run>) -> Seq<u8>
    decreases runs.len(),
{
    if runs.len() == 0 {
        Seq::empty()
    } else {
        runs.first().expansion() + expand_runs(runs.drop_first())
    }
}

/// Where `storage` holds the command stream of `runs` at `idx`, and `runs`
/// stand for exactly the bytes that are wanted, decoding from `idx` gives
/// those bytes.
pub proof fn lemma_unpack_runs(runs: Seq<Run>, storage: Seq<u8>, idx: int, need: nat)
    requires
        runs_valid(runs),
        expand_runs(runs).len() == need,
        0 <= idx,
        idx + encode_runs(runs).len() <= storage.len(),
        storage.subrange(idx, idx + encode_runs(runs).len()) == encode_runs(runs),
    ensures
        bytes_of(unpack_from(storage, idx, need)) == Some(expand_runs(runs)),
    decreases runs.len(),
{
    if need > 0 {
        let first = runs.first();
        let rest = runs.drop_first();
        let stream = encode_runs(runs);
        let head = first.encoding();
        let tail = encode_runs(rest);
        assert(runs_valid(rest));
        assert forall|k: int| 0 <= k < stream.len() implies storage[idx + k] == stream[k] by {}
        assert(storage[idx] == head[0]) by {
            assert(stream[0] == head[0]);
        }
        let next = idx + head.len();
        assert(storage.subrange(next, next + tail.len()) =~= tail) by {
            assert forall|k: int| 0 <= k < tail.len() implies storage[next + k] == tail[k] by {
                assert(stream[head.len() + k] == tail[k]);
            }
        }
        let left = (need - first.expansion().len()) as nat;
        lemma_unpack_runs(rest, storage, next, left);
        match first {
            Run::Nop => {},
            Run::Literal { bytes } => {
                assert(storage.subrange(idx + 1, idx + 1 + bytes.len()) =~= bytes) by {
                    assert forall|k: int| 0 <= k < bytes.len() implies storage[idx + 1 + k]
                        == bytes[k] by {
                        assert(stream[1 + k] == bytes[k]);
                    }
                }
            },
            Run::Repeat { byte, count } => {
                assert(storage[idx + 1] == byte) by {
                    assert(stream[1] == byte);
                }
            },
        }
    }
}

/// Round trip of the run-length encoding: storage that starts with the
/// command stream of runs that stand for a 512-byte block decodes to that
/// block, whatever follows the stream.
pub proof fn lemma_unpack_round_trip(runs: Seq<Run>, storage: Seq<u8>)
    requires
        runs_valid(runs),
        expand_runs(runs).len() == BLOCK_SIZE,
        encode_runs(runs).is_prefix_of(storage),
    ensures
        bytes_of(unpack_spec(storage)) == Some(expand_runs(runs)),
{
    lemma_unpack_runs(runs, storage, 0, BLOCK_SIZE as nat);
}

/// The plainest encoding of a block: four literal runs of 128 bytes.
pub open spec fn literal_runs(block: Seq<u8>) -> Seq<Run> {
    seq![
        Run::Literal { bytes: block.subrange(0, 128) },
        Run::Literal { bytes: block.subrange(128, 256) },
        Run::Literal { bytes: block.subrange(256, 384) },
        Run::Literal { bytes: block.subrange(384, 512) },
    ]
}

/// Every 512-byte block has a command stream, and storage that starts with
/// it decodes to the block.
pub proof fn lemma_literal_round_trip(block: Seq<u8>, storage: Seq<u8>)
    requires
        block.len() == BLOCK_SIZE,
        encode_runs(literal_runs(block)).is_prefix_of(storage),
    ensures
        bytes_of(unpack_spec(storage)) == Some(block),
{
    let runs = literal_runs(block);
    let second = runs.drop_first();
    let third = second.drop_first();
    let fourth = third.drop_first();
    assert(expand_runs(fourth.drop_first()) =~= Seq::<u8>::empty());
    assert(expand_runs(fourth) =~= block.subrange(384, 512));
    assert(expand_runs(third) =~= block.subrange(256, 512));
    assert(expand_runs(second) =~= block.subrange(128, 512));
    lemma_unpack_round_trip(runs, storage);
}

} // verus!
