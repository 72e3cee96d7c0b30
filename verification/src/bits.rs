//! Bits of integers, and bytes put together from bits.

use vstd::prelude::*;

verus! {

/// Bit `i` of `x`; bit 0 is the least significant.
pub open spec fn bit_of(x: u32, i: u32) -> bool {
    (x >> i) & 1 == 1
}

/// `weight` where `bit` is set, 0 where it is not.
pub open spec fn weigh(bit: bool, weight: int) -> int {
    if bit {
        weight
    } else {
        0
    }
}

/// The byte whose bits are `bits[0..8]`, the first being the most significant.
pub open spec fn byte_from_msb_bits(bits: Seq<bool>) -> int
    recommends
        bits.len() == 8,
{
    weigh(bits[0], 128) + weigh(bits[1], 64) + weigh(bits[2], 32) + weigh(bits[3], 16) + weigh(
        bits[4],
        8,
    ) + weigh(bits[5], 4) + weigh(bits[6], 2) + weigh(bits[7], 1)
}

/// The byte whose bits are `bits[0..8]`, the first being the least significant.
pub open spec fn byte_from_lsb_bits(bits: Seq<bool>) -> int
    recommends
        bits.len() == 8,
{
    weigh(bits[0], 1) + weigh(bits[1], 2) + weigh(bits[2], 4) + weigh(bits[3], 8) + weigh(
        bits[4],
        16,
    ) + weigh(bits[5], 32) + weigh(bits[6], 64) + weigh(bits[7], 128)
}

/// The eight bits of a byte, least significant first.
pub open spec fn lsb_bits_of_byte(byte: u8) -> Seq<bool> {
    Seq::new(8, |i: int| bit_of(byte as u32, i as u32))
}

/// A value below 256 is the sum of the weights of its set bits.
pub proof fn lemma_byte_is_sum_of_bits(b: u32)
    requires
        b < 256,
    ensures
        b == weigh(bit_of(b, 0), 1) + weigh(bit_of(b, 1), 2) + weigh(bit_of(b, 2), 4) + weigh(
            bit_of(b, 3),
            8,
        ) + weigh(bit_of(b, 4), 16) + weigh(bit_of(b, 5), 32) + weigh(bit_of(b, 6), 64) + weigh(
            bit_of(b, 7),
            128,
        ),
{
    assert(b < 256 ==> b == (if (b >> 0) & 1 == 1 {
        1u32
    } else {
        0u32
    }) + (if (b >> 1) & 1 == 1 {
        2u32
    } else {
        0u32
    }) + (if (b >> 2) & 1 == 1 {
        4u32
    } else {
        0u32
    }) + (if (b >> 3) & 1 == 1 {
        8u32
    } else {
        0u32
    }) + (if (b >> 4) & 1 == 1 {
        16u32
    } else {
        0u32
    }) + (if (b >> 5) & 1 == 1 {
        32u32
    } else {
        0u32
    }) + (if (b >> 6) & 1 == 1 {
        64u32
    } else {
        0u32
    }) + (if (b >> 7) & 1 == 1 {
        128u32
    } else {
        0u32
    })) by (bit_vector);
}

/// Putting the bits of a byte together again gives the byte.
pub proof fn lemma_byte_from_its_bits(byte: u8)
    ensures
        byte_from_lsb_bits(lsb_bits_of_byte(byte)) == byte,
{
    lemma_byte_is_sum_of_bits(byte as u32);
}

/// Value of the first `n` of eight bits, the first being the least
/// significant.
pub open spec fn lsb_prefix_value(bits: Seq<bool>, n: int) -> int {
    weigh(n > 0 && bits[0], 1) + weigh(n > 1 && bits[1], 2) + weigh(n > 2 && bits[2], 4) + weigh(
        n > 3 && bits[3],
        8,
    ) + weigh(n > 4 && bits[4], 16) + weigh(n > 5 && bits[5], 32) + weigh(n > 6 && bits[6], 64)
        + weigh(n > 7 && bits[7], 128)
}

proof fn lemma_set_next_bit(byte: u8, i: u8)
    by (bit_vector)
    requires
        i < 8,
        byte < (1u8 << i),
    ensures
        (byte | (1u8 << i)) == byte + (1u8 << i),
        i == 0 ==> (1u8 << i) == 1,
        i == 1 ==> (1u8 << i) == 2,
        i == 2 ==> (1u8 << i) == 4,
        i == 3 ==> (1u8 << i) == 8,
        i == 4 ==> (1u8 << i) == 16,
        i == 5 ==> (1u8 << i) == 32,
        i == 6 ==> (1u8 << i) == 64,
        i == 7 ==> (1u8 << i) == 128,
{
}

/// Puts the eight bits from `start` on together into a byte, the first being
/// the least significant.
pub fn byte_from_bits(bits: &[bool], start: usize) -> (byte: u8)
    requires
        start + 8 <= bits.len(),
    ensures
        byte == byte_from_lsb_bits(bits@.subrange(start as int, start + 8)),
{
    let ghost octet = bits@.subrange(start as int, start + 8);
    let mut byte: u8 = 0;
    let mut i: u8 = 0;
    assert(0u8 < (1u8 << 0u8)) by (bit_vector);
    while i < 8
        invariant
            i <= 8,
            start + 8 <= bits.len(),
            octet == bits@.subrange(start as int, start + 8),
            byte == lsb_prefix_value(octet, i as int),
            i < 8 ==> byte < (1u8 << i),
        decreases 8 - i,
    {
        proof {
            lemma_set_next_bit(byte, i);
            assert(octet[i as int] == bits[start + i]);
        }
        if bits[start + i as usize] {
            byte = byte | (1u8 << i);
        }
        i += 1;
        proof {
            if i < 8 {
                assert(byte < (1u8 << i)) by (bit_vector)
                    requires
                        0 < i < 8,
                        byte < (1u8 << ((i - 1) as u8)) + (1u8 << ((i - 1) as u8)),
                ;
            }
        }
    }
    byte
}

} // verus!
