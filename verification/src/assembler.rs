//! Bytes from bits, least significant bit first.

use vstd::prelude::*;
use crate::bits::{bit_of, byte_from_lsb_bits, lemma_byte_from_its_bits, lsb_bits_of_byte};

verus! {

/// The bytes that a bit sequence holds: every eight bits make one byte, the
/// first bit being the least significant.
pub open spec fn assembled_bytes(bits: Seq<bool>) -> Seq<u8> {
    Seq::new(bits.len() / 8, |k: int| byte_from_lsb_bits(bits.subrange(8 * k, 8 * k + 8)) as u8)
}

/// The bits that are left once every whole byte is taken.
pub open spec fn leftover_bits(bits: Seq<bool>) -> Seq<bool> {
    bits.subrange(((bits.len() / 8) * 8) as int, bits.len() as int)
}

/// The assembler does not care where a bit stream is cut into pieces: the
/// bytes of the first piece, followed by the bytes of what it left over
/// together with the second piece, are the bytes of the two pieces taken as
/// one, and the same bits are left over.
pub proof fn lemma_assembler_block_split(first: Seq<bool>, second: Seq<bool>)
    ensures
        assembled_bytes(first) + assembled_bytes(leftover_bits(first) + second) == assembled_bytes(
            first + second,
        ),
        leftover_bits(leftover_bits(first) + second) == leftover_bits(first + second),
{
    let all = first + second;
    let k = (first.len() / 8) as int;
    let rest = leftover_bits(first) + second;
    assert(rest =~= all.subrange(8 * k, all.len() as int));
    let joined = assembled_bytes(first) + assembled_bytes(rest);
    assert(joined.len() == assembled_bytes(all).len());
    assert forall|j: int| 0 <= j < joined.len() implies joined[j] == assembled_bytes(all)[j] by {
        if j < k {
            assert(first.subrange(8 * j, 8 * j + 8) =~= all.subrange(8 * j, 8 * j + 8));
        } else {
            assert(rest.subrange(8 * (j - k), 8 * (j - k) + 8) =~= all.subrange(8 * j, 8 * j + 8));
        }
    }
    assert(joined =~= assembled_bytes(all));
    assert(leftover_bits(rest) =~= leftover_bits(all));
}

/// The bits of a byte sequence, each byte giving eight bits, least significant
/// first.
pub open spec fn expanded_bits(bytes: Seq<u8>) -> Seq<bool> {
    Seq::new(bytes.len() * 8, |p: int| crate::bits::bit_of(bytes[p / 8] as u32, (p % 8) as u32))
}

/// Expanding bytes into bits and assembling the bits again gives the bytes
/// back, and leaves no bit over.
pub proof fn lemma_assemble_expanded(bytes: Seq<u8>)
    ensures
        assembled_bytes(expanded_bits(bytes)) == bytes,
        leftover_bits(expanded_bits(bytes)).len() == 0,
{
    let bits = expanded_bits(bytes);
    assert(bits.len() / 8 == bytes.len());
    assert forall|k: int| 0 <= k < bytes.len() implies #[trigger] assembled_bytes(bits)[k]
        == bytes[k] by {
        let octet = bits.subrange(8 * k, 8 * k + 8);
        assert(octet =~= crate::bits::lsb_bits_of_byte(bytes[k])) by {
            assert forall|i: int| 0 <= i < 8 implies octet[i] == crate::bits::lsb_bits_of_byte(
                bytes[k],
            )[i] by {
                assert((8 * k + i) / 8 == k);
                assert((8 * k + i) % 8 == i);
            }
        }
        crate::bits::lemma_byte_from_its_bits(bytes[k]);
    }
    assert(assembled_bytes(bits) =~= bytes);
}

} // verus!
