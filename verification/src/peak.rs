//! The strongest element of a sequence, and the symbol that the strongest bin
//! of a spectrum stands for.

use vstd::prelude::*;
use vstd::arithmetic::power2::pow2;

verus! {

/// Index of the first greatest element of `values`, and 0 for an empty
/// sequence.
pub open spec fn first_max(values: Seq<int>) -> int
    decreases values.len(),
{
    if values.len() <= 1 {
        0
    } else {
        let earlier = first_max(values.drop_last());
        if values.last() > values[earlier] {
            values.len() - 1
        } else {
            earlier
        }
    }
}

/// `first_max` is a valid index, no element is greater than the one it picks,
/// and every element before that one is strictly smaller.
pub proof fn lemma_first_max(values: Seq<int>)
    requires
        values.len() > 0,
    ensures
        0 <= first_max(values) < values.len(),
        forall|i: int| 0 <= i < values.len() ==> #[trigger] values[i] <= values[first_max(values)],
        forall|i: int| 0 <= i < first_max(values) ==> #[trigger] values[i] < values[first_max(values)],
    decreases values.len(),
{
    if values.len() > 1 {
        let earlier = values.drop_last();
        lemma_first_max(earlier);
        let p = first_max(values);
        assert(values[first_max(earlier)] == earlier[first_max(earlier)]);
        assert forall|i: int| 0 <= i < values.len() implies #[trigger] values[i] <= values[p] by {
            if i < earlier.len() {
                assert(values[i] == earlier[i]);
            }
        }
        assert forall|i: int| 0 <= i < p implies #[trigger] values[i] < values[p] by {
            if i < earlier.len() {
                assert(values[i] == earlier[i]);
            }
        }
    }
}

/// Index of the strongest bin of a magnitude spectrum: the first bin that holds
/// the maximum, and bin 0 for an empty spectrum.
pub open spec fn peak_bin(magnitudes: Seq<u64>) -> int {
    first_max(magnitudes.map_values(|m: u64| m as int))
}

/// The strongest bin is a bin of the spectrum, no bin is stronger, and every
/// bin before it is strictly weaker.
pub proof fn lemma_peak_bin_is_first_strongest(magnitudes: Seq<u64>)
    requires
        magnitudes.len() > 0,
    ensures
        0 <= peak_bin(magnitudes) < magnitudes.len(),
        forall|i: int|
            0 <= i < magnitudes.len() ==> #[trigger] magnitudes[i] <= magnitudes[peak_bin(
                magnitudes,
            )],
        forall|i: int|
            0 <= i < peak_bin(magnitudes) ==> #[trigger] magnitudes[i] < magnitudes[peak_bin(
                magnitudes,
            )],
{
    let values = magnitudes.map_values(|m: u64| m as int);
    lemma_first_max(values);
    let p = first_max(values);
    assert(values[p] == magnitudes[p]);
    assert forall|i: int| 0 <= i < magnitudes.len() implies #[trigger] magnitudes[i]
        <= magnitudes[p] by {
        assert(values[i] == magnitudes[i]);
    }
    assert forall|i: int| 0 <= i < p implies #[trigger] magnitudes[i] < magnitudes[p] by {
        assert(values[i] == magnitudes[i]);
    }
}

/// Number of samples in one symbol at spreading factor `sf`.
pub open spec fn symbol_len(sf: u8) -> int {
    pow2(sf as nat) as int
}

/// The symbol length as a `usize`. Where `2^sf` is not representable the
/// greatest `usize` stands for it: no block is long enough to tell the two
/// apart.
pub open spec fn stored_symbol_len(sf: u8) -> usize {
    if symbol_len(sf) <= usize::MAX {
        symbol_len(sf) as usize
    } else {
        usize::MAX
    }
}

/// The symbol that a peak in bin `bin` stands for at spreading factor `sf`:
/// the bin index reduced to `sf` bits, and to the sixteen bits of a symbol.
pub open spec fn symbol_value(bin: int, sf: u8) -> int {
    (bin % symbol_len(sf)) % 0x1_0000
}

/// A symbol is less than `2^sf`, whatever the bin.
pub proof fn lemma_symbol_value_bound(bin: int, sf: u8)
    requires
        bin >= 0,
    ensures
        0 <= symbol_value(bin, sf) < symbol_len(sf),
        symbol_value(bin, sf) < 0x1_0000,
{
    vstd::arithmetic::power2::lemma_pow2_pos(sf as nat);
    vstd::arithmetic::div_mod::lemma_mod_bound(bin, symbol_len(sf));
}

} // verus!
