//! Where symbols begin: the window of greatest energy, and the windows that
//! follow it.

use vstd::prelude::*;
use crate::division::lemma_multiples_up_to;
use crate::peak::{first_max, lemma_first_max};
use crate::sample::{energy, IqSample};

verus! {

/// Distance between two candidate window starts of the preamble search: a
/// quarter of the window.
pub open spec fn sync_step(window: int) -> int {
    window / 4
}

/// Number of candidate windows of the preamble search in a block of `len`
/// samples. Candidates are the windows that fit into the block and start at a
/// multiple of `sync_step(window)`: the multiples up to `len - window`, the
/// window that ends with the block among them. Where the step is 0, the
/// window at the start of the block is the only one.
pub open spec fn candidate_count(len: int, window: int) -> int {
    if len < window {
        0
    } else if sync_step(window) == 0 {
        1
    } else {
        (len - window) / sync_step(window) + 1
    }
}

/// Energy of each candidate window, in the order of their starts.
pub open spec fn window_energies(samples: Seq<IqSample>, window: int) -> Seq<int> {
    Seq::new(
        candidate_count(samples.len() as int, window) as nat,
        |k: int| energy(samples, k * sync_step(window), k * sync_step(window) + window) as int,
    )
}

/// Where symbols begin: the start of the first candidate window of greatest
/// energy, and 0 where the block holds no candidate.
pub open spec fn preamble_offset(samples: Seq<IqSample>, window: int) -> int {
    first_max(window_energies(samples, window)) * sync_step(window)
}

/// Every window that fits into the block and starts at a multiple of the step
/// is a candidate: the one of index `start / sync_step(window)`.
pub proof fn lemma_aligned_window_is_candidate(len: int, window: int, start: int)
    requires
        sync_step(window) > 0,
        0 <= start,
        start + window <= len,
        start % sync_step(window) == 0,
    ensures
        0 <= start / sync_step(window) < candidate_count(len, window),
        (start / sync_step(window)) * sync_step(window) == start,
{
    let step = sync_step(window);
    let k = start / step;
    vstd::arithmetic::div_mod::lemma_fundamental_div_mod(start, step);
    vstd::arithmetic::div_mod::lemma_div_pos_is_pos(start, step);
    assert(k * step == step * k) by (nonlinear_arith);
    lemma_multiples_up_to(len - window, step, k);
}

/// A window that fits into the block, starts at a multiple of the step and
/// holds more energy than every other candidate is where symbols begin.
pub proof fn lemma_strongest_aligned_window_wins(samples: Seq<IqSample>, window: int, start: int)
    requires
        sync_step(window) > 0,
        0 <= start,
        start + window <= samples.len(),
        start % sync_step(window) == 0,
        forall|j: int|
            0 <= j < window_energies(samples, window).len() && j * sync_step(window) != start
                ==> #[trigger] window_energies(samples, window)[j] < energy(
                samples,
                start,
                start + window,
            ),
    ensures
        preamble_offset(samples, window) == start,
{
    let step = sync_step(window);
    let k = start / step;
    lemma_aligned_window_is_candidate(samples.len() as int, window, start);
    assert forall|j: int|
        0 <= j < window_energies(samples, window).len() && j != k implies #[trigger] window_energies(
        samples,
        window,
    )[j] < window_energies(samples, window)[k] by {
        if j * step == start {
            assert(j == k) by (nonlinear_arith)
                requires
                    j * step == k * step,
                    step > 0,
            ;
        }
    }
    lemma_strongest_window_wins(samples, window, k);
}

/// A candidate window that is stronger than every other candidate is where
/// symbols begin.
pub proof fn lemma_strongest_window_wins(samples: Seq<IqSample>, window: int, k: int)
    requires
        0 <= k < window_energies(samples, window).len(),
        forall|j: int|
            0 <= j < window_energies(samples, window).len() && j != k ==> #[trigger] window_energies(
                samples,
                window,
            )[j] < window_energies(samples, window)[k],
    ensures
        preamble_offset(samples, window) == k * sync_step(window),
{
    let energies = window_energies(samples, window);
    lemma_first_max(energies);
    let p = first_max(energies);
    if p != k {
        assert(energies[p] < energies[k]);
        assert(energies[k] <= energies[p]);
    }
}

/// The preamble offset is the start of a candidate window, no candidate has
/// more energy than the window there, and every candidate before it has less.
pub proof fn lemma_preamble_offset_is_first_strongest(samples: Seq<IqSample>, window: int)
    requires
        window_energies(samples, window).len() > 0,
    ensures
        ({
            let energies = window_energies(samples, window);
            let best = first_max(energies);
            &&& 0 <= best < energies.len()
            &&& preamble_offset(samples, window) == best * sync_step(window)
            &&& forall|j: int| 0 <= j < energies.len() ==> #[trigger] energies[j] <= energies[best]
            &&& forall|j: int| 0 <= j < best ==> #[trigger] energies[j] < energies[best]
        }),
{
    lemma_first_max(window_energies(samples, window));
}

/// Number of whole symbol windows between `offset` and the end of a block of
/// `len` samples.
pub open spec fn symbol_count(len: int, offset: int, window: int) -> int {
    if offset <= len {
        (len - offset) / window
    } else {
        0
    }
}

/// Start of symbol window `k` where symbols begin at `offset`.
pub open spec fn window_start(offset: int, k: int, window: int) -> int {
    offset + k * window
}

} // verus!
