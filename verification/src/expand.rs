//! The bit-packed dictionary encoding of a block.

use vstd::prelude::*;
use vstd::arithmetic::power2::lemma2_to64;
use vstd::arithmetic::power2::lemma_pow2_unfold;
use vstd::arithmetic::power2::pow2;
use vstd::slice::slice_subrange;
use crate::bitstream::BitStream;
use crate::bitstream::bit_at;
use crate::bitstream::bit_value;
use crate::bitstream::bits_at;
use crate::bitstream::holds_bits;
use crate::bitstream::lemma_pack_holds;
use crate::bitstream::pack_bits;
use crate::decoded::BLOCK_SIZE;
use crate::decoded::Decoded;
use crate::decoded::bytes_of;
use crate::decoded::joined;
use crate::decoded::lemma_joined_empty;
use crate::decoded::lemma_joined_twice;
use crate::decoded::stream_result;
use crate::error::ExtractError;

verus! {

/// The number of entries of the lookup table that precedes the bit stream.
pub const LOOKUP_LEN: usize = 16;

/// What `count` codes expand to, read from bit `pos` of `stream` on, and the
/// bit at which they end. A code is a flag bit and a value: after the flag 1
/// the value is four bits, an index into `lookup`; after the flag 0 it is
/// eight bits, the byte itself. There is no expansion where a code reaches
/// past the end of `stream`.
pub open spec fn expand_from(lookup: Seq<u8>, stream: Seq<u8>, pos: int, count: nat) -> Option<
    Decoded,
>
    decreases count,
{
    if count == 0 {
        Some((Seq::empty(), pos))
    } else if pos < 0 || pos >= 8 * stream.len() {
        None
    } else if bit_at(stream, pos) != 0 {
        if pos + 5 > 8 * stream.len() {
            None
        } else {
            joined(
                seq![lookup[bits_at(stream, pos + 1, 4)]],
                expand_from(lookup, stream, pos + 5, (count - 1) as nat),
            )
        }
    } else {
        if pos + 9 > 8 * stream.len() {
            None
        } else {
            joined(
                seq![bits_at(stream, pos + 1, 8) as u8],
                expand_from(lookup, stream, pos + 9, (count - 1) as nat),
            )
        }
    }
}

/// An expansion has one byte for each code.
pub proof fn lemma_expand_len(lookup: Seq<u8>, stream: Seq<u8>, pos: int, count: nat)
    ensures
        expand_from(lookup, stream, pos, count) matches Some(d) ==> d.0.len() == count,
    decreases count,
{
    if count == 0 || pos < 0 || pos >= 8 * stream.len() {
    } else if bit_at(stream, pos) != 0 {
        if pos + 5 <= 8 * stream.len() {
            lemma_expand_len(lookup, stream, pos + 5, (count - 1) as nat);
        }
    } else {
        if pos + 9 <= 8 * stream.len() {
            lemma_expand_len(lookup, stream, pos + 9, (count - 1) as nat);
        }
    }
}

/// The block that `storage` expands to, its first 16 bytes being the lookup
/// table and the rest the bit stream, with the offset in `storage` of the
/// first byte that no code reaches into.
pub open spec fn expand_spec(storage: Seq<u8>) -> Option<Decoded> {
    if storage.len() < LOOKUP_LEN {
        None
    } else {
        match expand_from(
            storage.subrange(0, LOOKUP_LEN as int),
            storage.subrange(LOOKUP_LEN as int, storage.len() as int),
            0,
            BLOCK_SIZE as nat,
        ) {
            Some(d) => Some((d.0, LOOKUP_LEN + (d.1 + 7) / 8)),
            None => None,
        }
    }
}

/// Decodes a block stored as a lookup table and a stream of codes. Returns
/// the block together with the offset in `storage` just past the last byte
/// that a code reaches into.
pub fn expand(storage: &[u8]) -> (result: Result<(Vec<u8>, usize), ExtractError>)
    ensures
        stream_result(result, expand_spec(storage@)),
{
    if storage.len() < LOOKUP_LEN {
        return Err(ExtractError::OutOfBounds);
    }
    let lookup: &[u8] = slice_subrange(storage, 0, LOOKUP_LEN);
    let mut stream = BitStream::from(slice_subrange(storage, LOOKUP_LEN, storage.len()));
    let mut block: Vec<u8> = Vec::new();
    let ghost codes = stream.bytes();
    proof {
        lemma_joined_empty(expand_from(lookup@, codes, 0, BLOCK_SIZE as nat));
    }
    while block.len() < BLOCK_SIZE
        invariant
            storage@.len() >= LOOKUP_LEN,
            lookup@ == storage@.subrange(0, LOOKUP_LEN as int),
            codes == storage@.subrange(LOOKUP_LEN as int, storage@.len() as int),
            stream.bytes() == codes,
            block@.len() <= BLOCK_SIZE,
            expand_from(lookup@, codes, 0, BLOCK_SIZE as nat) == joined(
                block@,
                expand_from(
                    lookup@,
                    codes,
                    stream.cursor() as int,
                    (BLOCK_SIZE - block@.len()) as nat,
                ),
            ),
        decreases BLOCK_SIZE - block@.len(),
    {
        let ghost done = block@;
        let ghost left = (BLOCK_SIZE - block@.len()) as nat;
        let flag: u32 = match stream.bit() {
            Ok(bit) => bit,
            Err(e) => {
                return Err(e);
            },
        };
        proof {
            lemma2_to64();
        }
        let byte: u8 = if flag != 0 {
            match stream.bits(4) {
                Ok(index) => lookup[index as usize],
                Err(e) => {
                    return Err(e);
                },
            }
        } else {
            match stream.bits(8) {
                Ok(value) => value as u8,
                Err(e) => {
                    return Err(e);
                },
            }
        };
        block.push(byte);
        proof {
            lemma_joined_twice(
                done,
                seq![byte],
                expand_from(lookup@, codes, stream.cursor() as int, (left - 1) as nat),
            );
        }
    }
    let end: usize = LOOKUP_LEN + stream.byte_idx();
    Ok((block, end))
}

/// A code of the bit stream, as an encoder chooses it.
pub enum Code {
    /// The flag 1 and the four-bit index of a lookup entry.
    Index { index: nat },
    /// The flag 0 and the eight bits of a byte.
    Literal { byte: u8 },
}

impl Code {
    /// Whether the index, where there is one, fits in four bits.
    pub open spec fn valid(self) -> bool {
        match self {
            Code::Index { index } => index < LOOKUP_LEN,
            Code::Literal { byte } => true,
        }
    }

    /// The bits of the code: the flag, then the value with its
    /// highest-order bit first.
    pub open spec fn bits(self) -> Seq<bool> {
        match self {
            Code::Index { index } => seq![true] + value_bits(index as int, 4),
            Code::Literal { byte } => seq![false] + value_bits(byte as int, 8),
        }
    }

    /// The byte that the code stands for.
    pub open spec fn byte(self, lookup: Seq<u8>) -> u8 {
        match self {
            Code::Index { index } => lookup[index as int],
            Code::Literal { byte } => byte,
        }
    }
}

/// The low `width` bits of `value`, the highest-order one first.
pub open spec fn value_bits(value: int, width: nat) -> Seq<bool>
    decreases width,
{
    if width == 0 {
        Seq::empty()
    } else {
        value_bits(value / 2, (width - 1) as nat).push(value % 2 == 1)
    }
}

/// Whether each of `codes` is valid.
pub open spec fn codes_valid(codes: Seq<Code>) -> bool {
    forall|i: int| 0 <= i < codes.len() ==> (#[trigger] codes[i]).valid()
}

/// The bits of `codes`, one code after the other.
pub open spec fn encode_codes(codes: Seq<Code>) -> Seq<bool>
    decreases codes.len(),
{
    if codes.len() == 0 {
        Seq::empty()
    } else {
        codes.first().bits() + encode_codes(codes.drop_first())
    }
}

/// The bytes that `codes` stand for.
pub open spec fn decode_codes(lookup: Seq<u8>, codes: Seq<Code>) -> Seq<u8> {
    Seq::new(codes.len(), |i: int| codes[i].byte(lookup))
}

proof fn lemma_value_bits_len(value: int, width: nat)
    ensures
        value_bits(value, width).len() == width,
    decreases width,
{
    if width > 0 {
        lemma_value_bits_len(value / 2, (width - 1) as nat);
    }
}

/// Reading back the bits of a value gives the value.
proof fn lemma_read_value(stream: Seq<u8>, pos: int, value: int, width: nat)
    requires
        0 <= value < pow2(width),
        holds_bits(stream, pos, value_bits(value, width)),
    ensures
        bits_at(stream, pos, width) == value,
    decreases width,
{
    if width == 0 {
        lemma2_to64();
    } else {
        let shorter = (width - 1) as nat;
        let front = value_bits(value / 2, shorter);
        lemma_value_bits_len(value / 2, shorter);
        lemma_pow2_unfold(width);
        assert(holds_bits(stream, pos, front));
        lemma_read_value(stream, pos, value / 2, shorter);
    }
}

/// Where `stream` holds the bits of `codes` from bit `pos` on, decoding as
/// many codes from `pos` gives the bytes that they stand for.
pub proof fn lemma_expand_codes(lookup: Seq<u8>, stream: Seq<u8>, pos: int, codes: Seq<Code>)
    requires
        codes_valid(codes),
        holds_bits(stream, pos, encode_codes(codes)),
    ensures
        bytes_of(expand_from(lookup, stream, pos, codes.len())) == Some(
            decode_codes(lookup, codes),
        ),
    decreases codes.len(),
{
    if codes.len() > 0 {
        let first = codes.first();
        let rest = codes.drop_first();
        let all = encode_codes(codes);
        let head = first.bits();
        let tail = encode_codes(rest);
        let value = match first {
            Code::Index { index } => index as int,
            Code::Literal { byte } => byte as int,
        };
        let width: nat = match first {
            Code::Index { index } => 4,
            Code::Literal { byte } => 8,
        };
        lemma2_to64();
        lemma_value_bits_len(value, width);
        assert(codes_valid(rest));
        assert(bit_at(stream, pos) == bit_value(head[0])) by {
            assert(bit_at(stream, pos + 0) == bit_value(all[0]));
        }
        assert(holds_bits(stream, pos + 1, value_bits(value, width))) by {
            let field = value_bits(value, width);
            assert forall|j: int| 0 <= j < field.len() implies #[trigger] bit_at(
                stream,
                pos + 1 + j,
            ) == bit_value(field[j]) by {
                assert(bit_at(stream, pos + (1 + j)) == bit_value(all[1 + j]));
            }
        }
        lemma_read_value(stream, pos + 1, value, width);
        let next = pos + 1 + width;
        assert(holds_bits(stream, next, tail)) by {
            assert forall|j: int| 0 <= j < tail.len() implies #[trigger] bit_at(stream, next + j)
                == bit_value(tail[j]) by {
                assert(bit_at(stream, pos + (head.len() + j)) == bit_value(all[head.len() + j]));
            }
        }
        lemma_expand_codes(lookup, stream, next, rest);
        assert(seq![first.byte(lookup)] + decode_codes(lookup, rest) =~= decode_codes(
            lookup,
            codes,
        ));
    }
}

/// Round trip of the dictionary encoding: storage made of a lookup table of
/// 16 bytes and a stream that holds the codes of a 512-byte block, five bits
/// for a byte of the table and nine for any byte, decodes to that block.
pub proof fn lemma_expand_round_trip(lookup: Seq<u8>, stream: Seq<u8>, codes: Seq<Code>)
    requires
        lookup.len() == LOOKUP_LEN,
        codes.len() == BLOCK_SIZE,
        codes_valid(codes),
        holds_bits(stream, 0, encode_codes(codes)),
    ensures
        bytes_of(expand_spec(lookup + stream)) == Some(decode_codes(lookup, codes)),
{
    let storage = lookup + stream;
    assert(storage.subrange(0, LOOKUP_LEN as int) =~= lookup);
    assert(storage.subrange(LOOKUP_LEN as int, storage.len() as int) =~= stream);
    lemma_expand_codes(lookup, stream, 0, codes);
}

/// Round trip through the packing encoder: the lookup table followed by the
/// packed bits of the codes of a 512-byte block decodes to that block.
pub proof fn lemma_expand_packed(lookup: Seq<u8>, codes: Seq<Code>)
    requires
        lookup.len() == LOOKUP_LEN,
        codes.len() == BLOCK_SIZE,
        codes_valid(codes),
    ensures
        bytes_of(expand_spec(lookup + pack_bits(encode_codes(codes)))) == Some(
            decode_codes(lookup, codes),
        ),
{
    lemma_pack_holds(encode_codes(codes));
    lemma_expand_round_trip(lookup, pack_bits(encode_codes(codes)), codes);
}

} // verus!
