//! A reader that hands out the bits of a byte buffer, most significant bit
//! of each byte first.

use vstd::prelude::*;
use vstd::arithmetic::power2::pow2;
use vstd::arithmetic::power2::lemma2_to64;
use vstd::arithmetic::power2::lemma_pow2_strictly_increases;
use vstd::arithmetic::power2::lemma_pow2_unfold;
use crate::error::ExtractError;

verus! {

/// Bit `n` of `byte`, counted from the most significant end (`n` in `0..8`).
pub open spec fn msb_bit(byte: u8, n: u8) -> u32 {
    ((byte >> ((7 - n) as u8)) & 1) as u32
}

/// Bit `k` of the buffer: bit `k % 8` of byte `k / 8`.
pub open spec fn bit_at(data: Seq<u8>, k: int) -> u32 {
    msb_bit(data[k / 8], (k % 8) as u8)
}

/// The value of the `n` bits that start at bit `pos`, the first of them
/// being the highest-order bit of the value.
pub open spec fn bits_at(data: Seq<u8>, pos: int, n: nat) -> int
    decreases n,
{
    if n == 0 {
        0
    } else {
        2 * bits_at(data, pos, (n - 1) as nat) + bit_at(data, pos + n - 1)
    }
}

/// An `n`-bit value is below `2^n`.
pub proof fn lemma_bits_at_bound(data: Seq<u8>, pos: int, n: nat)
    ensures
        0 <= bits_at(data, pos, n) < pow2(n),
    decreases n,
{
    if n == 0 {
        lemma2_to64();
    } else {
        lemma_bits_at_bound(data, pos, (n - 1) as nat);
        lemma_pow2_unfold(n);
        let byte = data[(pos + n - 1) / 8];
        let k = ((pos + n - 1) % 8) as u8;
        assert(((byte >> ((7 - k) as u8)) & 1) as u32 <= 1) by (bit_vector);
    }
}

/// A bit as a number.
pub open spec fn bit_value(bit: bool) -> u32 {
    if bit {
        1
    } else {
        0
    }
}

/// Whether `stream` holds `bits` from bit `pos` on, the most significant
/// bit of each byte first.
pub open spec fn holds_bits(stream: Seq<u8>, pos: int, bits: Seq<bool>) -> bool {
    &&& 0 <= pos
    &&& pos + bits.len() <= 8 * stream.len()
    &&& forall|j: int|
        0 <= j < bits.len() ==> #[trigger] bit_at(stream, pos + j) == bit_value(bits[j])
}

/// Bit `k` of `bits` as a number; 0 past their end.
pub open spec fn bit_or_zero(bits: Seq<bool>, k: int) -> u8 {
    if 0 <= k < bits.len() && bits[k] {
        1
    } else {
        0
    }
}

/// The byte made of eight bits, the first of them the most significant.
pub open spec fn byte_of_bits(b0: u8, b1: u8, b2: u8, b3: u8, b4: u8, b5: u8, b6: u8, b7: u8) -> u8 {
    (b0 << 7) | (b1 << 6) | (b2 << 5) | (b3 << 4) | (b4 << 3) | (b5 << 2) | (b6 << 1) | b7
}

/// Byte `i` of the packing of `bits`.
pub open spec fn packed_byte(bits: Seq<bool>, i: int) -> u8 {
    byte_of_bits(
        bit_or_zero(bits, 8 * i),
        bit_or_zero(bits, 8 * i + 1),
        bit_or_zero(bits, 8 * i + 2),
        bit_or_zero(bits, 8 * i + 3),
        bit_or_zero(bits, 8 * i + 4),
        bit_or_zero(bits, 8 * i + 5),
        bit_or_zero(bits, 8 * i + 6),
        bit_or_zero(bits, 8 * i + 7),
    )
}

/// `bits` packed into bytes, eight to a byte, the first of each eight the
/// most significant; the last byte is filled up with zeros.
pub open spec fn pack_bits(bits: Seq<bool>) -> Seq<u8> {
    Seq::new(((bits.len() + 7) / 8) as nat, |i: int| packed_byte(bits, i))
}

proof fn lemma_byte_of_bits(b0: u8, b1: u8, b2: u8, b3: u8, b4: u8, b5: u8, b6: u8, b7: u8)
    by (bit_vector)
    requires
        b0 <= 1,
        b1 <= 1,
        b2 <= 1,
        b3 <= 1,
        b4 <= 1,
        b5 <= 1,
        b6 <= 1,
        b7 <= 1,
    ensures
        (((b0 << 7) | (b1 << 6) | (b2 << 5) | (b3 << 4) | (b4 << 3) | (b5 << 2) | (b6 << 1) | b7)
            >> 7u8) & 1 == b0,
        (((b0 << 7) | (b1 << 6) | (b2 << 5) | (b3 << 4) | (b4 << 3) | (b5 << 2) | (b6 << 1) | b7)
            >> 6u8) & 1 == b1,
        (((b0 << 7) | (b1 << 6) | (b2 << 5) | (b3 << 4) | (b4 << 3) | (b5 << 2) | (b6 << 1) | b7)
            >> 5u8) & 1 == b2,
        (((b0 << 7) | (b1 << 6) | (b2 << 5) | (b3 << 4) | (b4 << 3) | (b5 << 2) | (b6 << 1) | b7)
            >> 4u8) & 1 == b3,
        (((b0 << 7) | (b1 << 6) | (b2 << 5) | (b3 << 4) | (b4 << 3) | (b5 << 2) | (b6 << 1) | b7)
            >> 3u8) & 1 == b4,
        (((b0 << 7) | (b1 << 6) | (b2 << 5) | (b3 << 4) | (b4 << 3) | (b5 << 2) | (b6 << 1) | b7)
            >> 2u8) & 1 == b5,
        (((b0 << 7) | (b1 << 6) | (b2 << 5) | (b3 << 4) | (b4 << 3) | (b5 << 2) | (b6 << 1) | b7)
            >> 1u8) & 1 == b6,
        (((b0 << 7) | (b1 << 6) | (b2 << 5) | (b3 << 4) | (b4 << 3) | (b5 << 2) | (b6 << 1) | b7)
            >> 0u8) & 1 == b7,
{
}

/// The packing of `bits` holds them from its first bit on.
pub proof fn lemma_pack_holds(bits: Seq<bool>)
    ensures
        holds_bits(pack_bits(bits), 0, bits),
{
    let stream = pack_bits(bits);
    assert forall|j: int| 0 <= j < bits.len() implies #[trigger] bit_at(stream, 0 + j)
        == bit_value(bits[j]) by {
        let i = j / 8;
        let n = j % 8;
        lemma_byte_of_bits(
            bit_or_zero(bits, 8 * i),
            bit_or_zero(bits, 8 * i + 1),
            bit_or_zero(bits, 8 * i + 2),
            bit_or_zero(bits, 8 * i + 3),
            bit_or_zero(bits, 8 * i + 4),
            bit_or_zero(bits, 8 * i + 5),
            bit_or_zero(bits, 8 * i + 6),
            bit_or_zero(bits, 8 * i + 7),
        );
        assert(bit_or_zero(bits, 8 * i + n) == bit_value(bits[j]));
    }
}

/// A byte buffer together with a bit cursor into it.
pub struct BitStream<'a> {
    byte_index: usize,
    bit_num: u8,
    data: &'a [u8],
}

impl<'a> BitStream<'a> {
    #[verifier::type_invariant]
    spec fn well_formed(self) -> bool {
        &&& self.byte_index <= self.data@.len()
        &&& self.bit_num < 8
        &&& self.byte_index == self.data@.len() ==> self.bit_num == 0
    }

    /// The bytes that the stream reads from.
    pub closed spec fn bytes(self) -> Seq<u8> {
        self.data@
    }

    /// The number of bits read so far.
    pub closed spec fn cursor(self) -> nat {
        (8 * self.byte_index + self.bit_num) as nat
    }

    /// A stream over `data` with its cursor at the first bit.
    pub fn from(data: &'a [u8]) -> (stream: BitStream<'a>)
        ensures
            stream.bytes() == data@,
            stream.cursor() == 0,
    {
        BitStream { byte_index: 0, bit_num: 0, data }
    }

    /// Reads the next bit and moves the cursor past it. At the end of the
    /// buffer nothing is read and the cursor stays.
    pub fn bit(&mut self) -> (result: Result<u32, ExtractError>)
        ensures
            final(self).bytes() == old(self).bytes(),
            old(self).cursor() <= 8 * old(self).bytes().len(),
            old(self).cursor() < 8 * old(self).bytes().len() ==> {
                &&& result == Ok::<u32, ExtractError>(
                    bit_at(old(self).bytes(), old(self).cursor() as int),
                )
                &&& final(self).cursor() == old(self).cursor() + 1
            },
            old(self).cursor() == 8 * old(self).bytes().len() ==> {
                &&& result == Err::<u32, ExtractError>(ExtractError::OutOfBounds)
                &&& final(self).cursor() == old(self).cursor()
            },
    {
        proof {
            use_type_invariant(&*self);
        }
        if self.byte_index >= self.data.len() {
            return Err(ExtractError::OutOfBounds);
        }
        let byte: u8 = self.data[self.byte_index];
        let shift: u8 = 7 - self.bit_num;
        let bit: u8 = (byte >> shift) & 1;
        if self.bit_num == 7 {
            self.bit_num = 0;
            self.byte_index = self.byte_index + 1;
        } else {
            self.bit_num = self.bit_num + 1;
        }
        Ok(bit as u32)
    }

    /// Reads `num_bits` bits, one after the other, into a value whose
    /// highest-order bit is the first bit read. Where the buffer ends
    /// before that many bits, the cursor is left at its end.
    pub fn bits(&mut self, num_bits: u8) -> (result: Result<u32, ExtractError>)
        requires
            num_bits <= 32,
        ensures
            final(self).bytes() == old(self).bytes(),
            old(self).cursor() + num_bits <= 8 * old(self).bytes().len() ==> {
                &&& result == Ok::<u32, ExtractError>(
                    bits_at(old(self).bytes(), old(self).cursor() as int, num_bits as nat) as u32,
                )
                &&& 0 <= bits_at(old(self).bytes(), old(self).cursor() as int, num_bits as nat)
                    < pow2(num_bits as nat)
                &&& final(self).cursor() == old(self).cursor() + num_bits
            },
            old(self).cursor() + num_bits > 8 * old(self).bytes().len() ==> {
                &&& result == Err::<u32, ExtractError>(ExtractError::OutOfBounds)
                &&& final(self).cursor() == 8 * old(self).bytes().len()
            },
    {
        let ghost start = self.cursor() as int;
        let ghost data = self.bytes();
        let mut res: u32 = 0;
        let mut i: u8 = 0;
        while i < num_bits
            invariant
                i <= num_bits <= 32,
                data == old(self).bytes(),
                start == old(self).cursor(),
                self.bytes() == data,
                self.cursor() == start + i,
                res == bits_at(data, start, i as nat),
            decreases num_bits - i,
        {
            let bit: u32 = match self.bit() {
                Ok(b) => b,
                Err(e) => {
                    return Err(e);
                },
            };
            proof {
                lemma_bits_at_bound(data, start, i as nat);
                lemma_bits_at_bound(data, start, (i + 1) as nat);
                lemma2_to64();
                if i < 31 {
                    lemma_pow2_strictly_increases(i as nat, 31);
                }
                if i + 1 < 32 {
                    lemma_pow2_strictly_increases((i + 1) as nat, 32);
                }
            }
            res = res * 2 + bit;
            i = i + 1;
        }
        proof {
            use_type_invariant(&*self);
            lemma_bits_at_bound(data, start, num_bits as nat);
        }
        Ok(res)
    }

    /// The number of bytes that the bits read so far reach into.
    pub fn byte_idx(&self) -> (index: usize)
        ensures
            index == (self.cursor() + 7) / 8,
            index <= self.bytes().len(),
    {
        proof {
            use_type_invariant(self);
            assert(self.data.len() == self.data@.len());
        }
        if self.bit_num == 0 {
            self.byte_index
        } else {
            self.byte_index + 1
        }
    }
}

} // verus!
