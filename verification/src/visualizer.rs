//! Display-side bookkeeping: how a block is thinned out for plotting.

use vstd::prelude::*;
use vstd::arithmetic::power2::pow2;
use crate::constants::{SDR_CENTER_FREQUENCY, SDR_SAMPLE_RATE};

verus! {

/// Number of points that a plot shows at most.
pub const HISTORY_SIZE: usize = 2048;

/// Fewest samples from which a spectrum is shown.
pub const MIN_SPECTRUM_SAMPLES: usize = 64;

/// Every how many samples a plot of `len` samples takes one, so that about
/// `history` of them are shown: `len` over the number shown, and never less
/// than 1.
pub open spec fn plot_step(len: int, history: int) -> int {
    let shown = if history < len {
        history
    } else {
        len
    };
    let step = (if len < 1 {
        1
    } else {
        len
    }) / (if shown < 1 {
        1
    } else {
        shown
    });
    if step < 1 {
        1
    } else {
        step
    }
}

/// Number of points that a plot of `len` samples shows: every `step`-th
/// sample from the first on, up to `history` of them.
pub open spec fn plot_points(len: int, history: int) -> int {
    let every = (len + plot_step(len, history) - 1) / plot_step(len, history);
    if every < history {
        every
    } else {
        history
    }
}

/// Whether `p` is the smallest power of two that is not below `n`.
pub open spec fn is_next_power_of_two(n: int, p: int) -> bool {
    exists|e: nat| p == #[trigger] pow2(e) && n <= p && (e > 0 ==> pow2((e - 1) as nat) < n)
}

/// Whether every power of two below `2^e` is below `n`.
spec fn is_next_power_of_two_from(n: int, e: nat) -> bool {
    e > 0 && pow2((e - 1) as nat) < n
}

/// Where `2^(e-1)` is below `n`, the smallest power of two that is not below
/// `n` exists and is at least `2^e`.
proof fn lemma_power_above(n: int, e: nat)
    requires
        is_next_power_of_two_from(n, e),
    ensures
        exists|q: int| is_next_power_of_two(n, q) && q >= pow2(e),
    decreases 2 * n - pow2(e),
{
    vstd::arithmetic::power2::lemma_pow2_unfold(e);
    if pow2(e) >= n {
        assert(is_next_power_of_two(n, pow2(e) as int));
    } else {
        vstd::arithmetic::power2::lemma_pow2_unfold(e + 1);
        vstd::arithmetic::power2::lemma_pow2_pos(e);
        lemma_power_above(n, e + 1);
        let q = choose|q: int| is_next_power_of_two(n, q) && q >= pow2(e + 1);
        assert(is_next_power_of_two(n, q) && q >= pow2(e));
    }
}

/// Whether `size` is the size of the transform behind a spectrum plot of `len`
/// samples: the smallest power of two that holds them all, but no more than
/// `history`.
pub open spec fn is_spectrum_size(len: int, history: int, size: int) -> bool {
    exists|p: int|
        #[trigger] is_next_power_of_two(len, p) && size == (if p < history {
            p
        } else {
            history
        })
}

/// Whether a byte is a visible ASCII character or ASCII white space.
pub open spec fn is_text_byte(byte: u8) -> bool {
    0x21 <= byte <= 0x7E || byte == 0x20 || byte == 0x09 || byte == 0x0A || byte == 0x0C || byte
        == 0x0D
}

/// Whether decoded bytes are shown as text: there is at least one, and every
/// one is a visible ASCII character or ASCII white space.
pub open spec fn is_text(bytes: Seq<u8>) -> bool {
    bytes.len() > 0 && forall|i: int| 0 <= i < bytes.len() ==> is_text_byte(#[trigger] bytes[i])
}

/// Decides whether decoded bytes are shown as text.
pub fn is_printable_text(bytes: &[u8]) -> (printable: bool)
    ensures
        printable == is_text(bytes@),
{
    if bytes.len() == 0 {
        return false;
    }
    let mut i: usize = 0;
    while i < bytes.len()
        invariant
            i <= bytes.len(),
            forall|j: int| 0 <= j < i ==> is_text_byte(#[trigger] bytes[j]),
        decreases bytes.len() - i,
    {
        let byte: u8 = bytes[i];
        let graphic: bool = 0x21 <= byte && byte <= 0x7E;
        let space: bool = byte == 0x20 || byte == 0x09 || byte == 0x0A || byte == 0x0C || byte
            == 0x0D;
        if !(graphic || space) {
            return false;
        }
        i += 1;
    }
    true
}

pub struct SignalVisualizer {
    history_size: usize,
    sample_rate: u32,
    center_frequency: u32,
}

/// What a visualizer is set up with.
pub struct VisualizerConfig {
    pub history_size: usize,
    pub sample_rate: u32,
    pub center_frequency: u32,
}

impl View for SignalVisualizer {
    type V = VisualizerConfig;

    closed spec fn view(&self) -> VisualizerConfig {
        VisualizerConfig {
            history_size: self.history_size,
            sample_rate: self.sample_rate,
            center_frequency: self.center_frequency,
        }
    }
}

impl SignalVisualizer {
    pub fn new() -> (visualizer: Self)
        ensures
            visualizer@.history_size == HISTORY_SIZE,
            visualizer@.sample_rate == SDR_SAMPLE_RATE,
            visualizer@.center_frequency == SDR_CENTER_FREQUENCY,
    {
        SignalVisualizer {
            history_size: HISTORY_SIZE,
            sample_rate: SDR_SAMPLE_RATE,
            center_frequency: SDR_CENTER_FREQUENCY,
        }
    }

    pub fn history_size(&self) -> (n: usize)
        ensures
            n == self@.history_size,
    {
        self.history_size
    }

    pub fn sample_rate(&self) -> (rate: u32)
        ensures
            rate == self@.sample_rate,
    {
        self.sample_rate
    }

    pub fn center_frequency(&self) -> (frequency: u32)
        ensures
            frequency == self@.center_frequency,
    {
        self.center_frequency
    }

    /// Every how many samples a plot of a block of `len` samples takes one.
    pub fn step_for(&self, len: usize) -> (step: usize)
        ensures
            step == plot_step(len as int, self@.history_size as int),
            step >= 1,
    {
        let shown: usize = if self.history_size < len {
            self.history_size
        } else {
            len
        };
        let numerator: usize = if len < 1 {
            1
        } else {
            len
        };
        let denominator: usize = if shown < 1 {
            1
        } else {
            shown
        };
        let step: usize = numerator / denominator;
        if step < 1 {
            1
        } else {
            step
        }
    }

    /// Number of points that a plot of a block of `len` samples shows.
    pub fn points_for(&self, len: usize) -> (points: usize)
        ensures
            points == plot_points(len as int, self@.history_size as int),
            points <= self@.history_size,
            points <= len,
    {
        let step: usize = self.step_for(len);
        let whole: usize = len / step;
        let rest: usize = len % step;
        proof {
            let l = len as int;
            let s = step as int;
            let q = whole as int;
            let r = rest as int;
            vstd::arithmetic::div_mod::lemma_fundamental_div_mod(l, s);
            vstd::arithmetic::div_mod::lemma_mod_bound(l, s);
            assert(s * q + r == l);
            assert(q <= s * q) by (nonlinear_arith)
                requires
                    s >= 1,
                    q >= 0,
            ;
            if r == 0 {
                vstd::arithmetic::div_mod::lemma_fundamental_div_mod_converse(
                    l + s - 1,
                    s,
                    q,
                    s - 1,
                );
            } else {
                assert((q + 1) * s == s * q + s) by (nonlinear_arith);
                vstd::arithmetic::div_mod::lemma_fundamental_div_mod_converse(
                    l + s - 1,
                    s,
                    q + 1,
                    r - 1,
                );
            }
        }
        let every: usize = if rest == 0 {
            whole
        } else {
            whole + 1
        };
        if every < self.history_size {
            every
        } else {
            self.history_size
        }
    }
}

impl SignalVisualizer {
    /// The size of the transform behind a spectrum plot of a block of `len`
    /// samples, or `None` where the block is too short to show a spectrum.
    pub fn spectrum_size(&self, len: usize) -> (size: Option<usize>)
        ensures
            len < MIN_SPECTRUM_SAMPLES ==> size is None,
            len >= MIN_SPECTRUM_SAMPLES ==> size is Some && is_spectrum_size(
                len as int,
                self@.history_size as int,
                size->0 as int,
            ),
    {
        if len < MIN_SPECTRUM_SAMPLES {
            return None;
        }
        let history: usize = self.history_size;
        let mut power: usize = 1;
        let ghost mut e: nat = 0;
        proof {
            vstd::arithmetic::power2::lemma2_to64();
        }
        while power < len
            invariant
                power == pow2(e),
                power >= 1,
                e > 0 ==> pow2((e - 1) as nat) < len,
                history == self@.history_size,
                len >= MIN_SPECTRUM_SAMPLES,
            decreases 2 * len - power,
        {
            proof {
                vstd::arithmetic::power2::lemma_pow2_unfold(e + 1);
            }
            if power >= history || power > usize::MAX / 2 {
                proof {
                    let p = pow2(e + 1) as int;
                    assert(is_next_power_of_two_from(len as int, e + 1));
                    lemma_power_above(len as int, e + 1);
                    let q = choose|q: int| is_next_power_of_two(len as int, q) && q >= pow2(e + 1);
                    assert(is_next_power_of_two(len as int, q));
                }
                return Some(history);
            }
            power = power * 2;
            proof {
                e = e + 1;
            }
        }
        proof {
            assert(is_next_power_of_two(len as int, power as int));
        }
        if power < history {
            Some(power)
        } else {
            Some(history)
        }
    }
}

impl Default for SignalVisualizer {
    fn default() -> (visualizer: Self)
        ensures
            visualizer@.history_size == HISTORY_SIZE,
            visualizer@.sample_rate == SDR_SAMPLE_RATE,
            visualizer@.center_frequency == SDR_CENTER_FREQUENCY,
    {
        Self::new()
    }
}

} // verus!
