//! Chirp-spread-spectrum symbol decoder.
//!
//! A block is decoded in four steps: the window of greatest energy fixes where
//! symbols begin, each symbol-length window from there on is dechirped and
//! transformed, the strongest frequency bin of each window is its symbol, and
//! the symbols are packed into bytes. The transform works on real numbers and is
//! the caller's; everything around it is here.

use vstd::prelude::*;
use vstd::arithmetic::power2::pow2;
use vstd::string::StringExecFns;
use crate::angle::HALF_TURN;
use crate::bits::{bit_of, byte_from_msb_bits, lemma_byte_is_sum_of_bits};
use crate::chirp::{downchirp_phase, lemma_product_below_quarter_square};
use crate::packing::{
    bytes_of_stream, lemma_pad_byte_bits, lemma_push_symbol_bits, lemma_take_byte_bits,
    packed_symbols, packing_supported, stream_octet, symbol_bits, symbol_bytes, symbol_stream,
    top_byte, MAX_SPREADING_FACTOR, MIN_SPREADING_FACTOR,
};
use crate::peak::{
    first_max, lemma_first_max, lemma_symbol_value_bound, peak_bin, stored_symbol_len, symbol_len,
    symbol_value,
};
use crate::division::{lemma_multiples_up_to, lemma_windows_fit};
use crate::preamble::{
    preamble_offset, symbol_count, sync_step, window_energies, window_start,
};
use crate::sample::{
    energy, lemma_energy_of_prefix, lemma_power_squares_of_prefix, power_squares, IqSample,
};
use crate::snr::{estimate_of, lemma_estimate_fits, SnrEstimate};

verus! {

/// The symbol that `spectrum` yields for the window of `samples` that starts at
/// `start`: the peak of some spectrum that the call may return.
pub open spec fn symbol_from<F: Fn(&[IqSample], usize) -> Vec<u64>>(
    spectrum: F,
    samples: &[IqSample],
    start: usize,
    sf: u8,
    symbol: u16,
) -> bool {
    exists|magnitudes: Vec<u64>|
        #[trigger] call_ensures(spectrum, (samples, start), magnitudes) && symbol == symbol_value(
            peak_bin(magnitudes@),
            sf,
        )
}

/// Why a decode call did not deliver.
#[derive(Debug, Clone, Copy, PartialEq, Eq)]
pub enum DecodeError {
    /// The block held no samples.
    NoSamples,
    /// The decoder is set to a spreading factor whose symbols cannot be packed
    /// into bytes.
    UnsupportedSpreadingFactor(u8),
}

/// The decimal digit `d` as text.
pub open spec fn digit_text(d: int) -> Seq<char> {
    if d == 0 {
        "0"@
    } else if d == 1 {
        "1"@
    } else if d == 2 {
        "2"@
    } else if d == 3 {
        "3"@
    } else if d == 4 {
        "4"@
    } else if d == 5 {
        "5"@
    } else if d == 6 {
        "6"@
    } else if d == 7 {
        "7"@
    } else if d == 8 {
        "8"@
    } else {
        "9"@
    }
}

/// A spreading factor in decimal digits, without leading zeros.
pub open spec fn decimal_text(n: u8) -> Seq<char> {
    (if n >= 100 {
        digit_text(n as int / 100)
    } else {
        Seq::empty()
    }) + (if n >= 10 {
        digit_text((n as int / 10) % 10)
    } else {
        Seq::empty()
    }) + digit_text(n as int % 10)
}

/// The message that goes with an error.
pub open spec fn error_text(error: DecodeError) -> Seq<char> {
    match error {
        DecodeError::NoSamples => "No samples provided"@,
        DecodeError::UnsupportedSpreadingFactor(sf) => "Unsupported spreading factor: "@
            + decimal_text(sf),
    }
}

/// The decimal digit `d` as a string.
fn digit_str(d: u8) -> (text: &'static str)
    requires
        d < 10,
    ensures
        text@ == digit_text(d as int),
{
    if d == 0 {
        "0"
    } else if d == 1 {
        "1"
    } else if d == 2 {
        "2"
    } else if d == 3 {
        "3"
    } else if d == 4 {
        "4"
    } else if d == 5 {
        "5"
    } else if d == 6 {
        "6"
    } else if d == 7 {
        "7"
    } else if d == 8 {
        "8"
    } else {
        "9"
    }
}

impl DecodeError {
    /// The message that goes with the error: what went wrong, and for a
    /// spreading factor that cannot be packed, which one it is.
    pub fn message(&self) -> (text: String)
        ensures
            text@ == error_text(*self),
            *self == DecodeError::NoSamples ==> text@ == "No samples provided"@,
            *self matches DecodeError::UnsupportedSpreadingFactor(sf) ==> text@
                == "Unsupported spreading factor: "@ + decimal_text(sf),
    {
        match self {
            DecodeError::NoSamples => "No samples provided".to_string(),
            DecodeError::UnsupportedSpreadingFactor(sf) => {
                let n: u8 = *sf;
                let mut text: String = "Unsupported spreading factor: ".to_string();
                if n >= 100 {
                    text.append(digit_str(n / 100));
                }
                if n >= 10 {
                    text.append(digit_str((n / 10) % 10));
                }
                text.append(digit_str(n % 10));
                proof {
                    assert(text@ =~= "Unsupported spreading factor: "@ + decimal_text(n));
                }
                text
            },
        }
    }
}

/// What one decode call delivers.
pub struct DecodeResult {
    /// One symbol per whole symbol window after the preamble offset.
    pub symbols: Vec<u16>,
    /// The symbols as bytes; empty where the spreading factor cannot be packed.
    pub bytes: Vec<u8>,
    pub snr: SnrEstimate,
    /// Set where the symbols could not be packed into bytes.
    pub packing_error: Option<DecodeError>,
}

/// What a decoder is configured with.
pub struct DecoderConfig {
    pub spreading_factor: u8,
    pub bandwidth: u32,
}

pub struct HC12Decoder {
    spreading_factor: u8,
    bandwidth: u32,
    fft_size: usize,
}

impl View for HC12Decoder {
    type V = DecoderConfig;

    closed spec fn view(&self) -> DecoderConfig {
        DecoderConfig { spreading_factor: self.spreading_factor, bandwidth: self.bandwidth }
    }
}

/// `2^sf` as a `usize`, saturating.
fn symbol_size_for(sf: u8) -> (n: usize)
    ensures
        n == stored_symbol_len(sf),
        n >= 1,
{
    proof {
        vstd::arithmetic::power2::lemma2_to64();
        vstd::arithmetic::power2::lemma2_to64_rest();
        vstd::arithmetic::power2::lemma_pow2_pos(sf as nat);
    }
    if (sf as u32) < usize::BITS {
        proof {
            vstd::bits::lemma_usize_pow2_no_overflow(sf as nat);
            vstd::bits::lemma_usize_shl_is_mul(1usize, sf as usize);
        }
        1usize << (sf as usize)
    } else {
        proof {
            if sf as nat > usize::BITS as nat {
                vstd::arithmetic::power2::lemma_pow2_strictly_increases(
                    usize::BITS as nat,
                    sf as nat,
                );
            }
        }
        usize::MAX
    }
}

impl HC12Decoder {
    #[verifier::type_invariant]
    spec fn size_is_derived(self) -> bool {
        self.fft_size == stored_symbol_len(self.spreading_factor)
    }

    /// A decoder for symbols of `spreading_factor` bits on a channel of
    /// `bandwidth` Hz.
    pub fn new(spreading_factor: u8, bandwidth: u32) -> (decoder: Self)
        ensures
            decoder@.spreading_factor == spreading_factor,
            decoder@.bandwidth == bandwidth,
    {
        HC12Decoder { spreading_factor, bandwidth, fft_size: symbol_size_for(spreading_factor) }
    }

    pub fn spreading_factor(&self) -> (sf: u8)
        ensures
            sf == self@.spreading_factor,
    {
        self.spreading_factor
    }

    pub fn bandwidth(&self) -> (bw: u32)
        ensures
            bw == self@.bandwidth,
    {
        self.bandwidth
    }

    /// Samples per symbol, `2^spreading_factor`, which is also the size of the
    /// transform that turns a symbol window into a spectrum.
    pub fn fft_size(&self) -> (n: usize)
        ensures
            n == stored_symbol_len(self@.spreading_factor),
    {
        proof {
            use_type_invariant(self);
        }
        self.fft_size
    }

    /// Sets the spreading factor, clamped to the range that can be packed into
    /// bytes. The symbol size follows in the same step.
    pub fn set_spreading_factor(&mut self, sf: u8)
        ensures
            final(self)@.spreading_factor == (if sf < MIN_SPREADING_FACTOR {
                MIN_SPREADING_FACTOR
            } else if sf > MAX_SPREADING_FACTOR {
                MAX_SPREADING_FACTOR
            } else {
                sf
            }),
            final(self)@.bandwidth == old(self)@.bandwidth,
    {
        let clamped: u8 = if sf < MIN_SPREADING_FACTOR {
            MIN_SPREADING_FACTOR
        } else if sf > MAX_SPREADING_FACTOR {
            MAX_SPREADING_FACTOR
        } else {
            sf
        };
        *self = HC12Decoder {
            spreading_factor: clamped,
            bandwidth: self.bandwidth,
            fft_size: symbol_size_for(clamped),
        };
    }

    pub fn set_bandwidth(&mut self, bw: u32)
        ensures
            final(self)@.bandwidth == bw,
            final(self)@.spreading_factor == old(self)@.spreading_factor,
    {
        proof {
            use_type_invariant(&*self);
        }
        self.bandwidth = bw;
    }

    /// The symbol in a magnitude spectrum: the index of its strongest bin,
    /// reduced to the width of a symbol. `magnitudes` holds one value per
    /// frequency bin, in any unit in which a stronger bin has a greater value.
    pub fn fft_peak_detect(&self, magnitudes: &[u64]) -> (symbol: u16)
        ensures
            symbol == symbol_value(peak_bin(magnitudes@), self@.spreading_factor),
            symbol < symbol_len(self@.spreading_factor),
    {
        let ghost values = magnitudes@.map_values(|m: u64| m as int);
        let mut max_magnitude: u64 = 0;
        let mut peak: usize = 0;
        let mut i: usize = 0;
        while i < magnitudes.len()
            invariant
                i <= magnitudes.len(),
                values == magnitudes@.map_values(|m: u64| m as int),
                peak == first_max(values.take(i as int)),
                i > 0 ==> peak < i && max_magnitude == magnitudes[peak as int],
                i == 0 ==> max_magnitude == 0,
            decreases magnitudes.len() - i,
        {
            proof {
                let next = values.take(i + 1);
                assert(next.drop_last() =~= values.take(i as int));
                assert(next.last() == magnitudes[i as int]);
                if i > 0 {
                    assert(next[peak as int] == magnitudes[peak as int]);
                }
            }
            if magnitudes[i] > max_magnitude {
                max_magnitude = magnitudes[i];
                peak = i;
            }
            i += 1;
        }
        proof {
            assert(values.take(magnitudes.len() as int) =~= values);
            use_type_invariant(self);
            vstd::arithmetic::power2::lemma_pow2_pos(self.spreading_factor as nat);
            lemma_symbol_value_bound(peak as int, self.spreading_factor);
        }
        let bin: usize = if (self.spreading_factor as u32) < usize::BITS {
            proof {
                vstd::bits::lemma_usize_pow2_no_overflow(self.spreading_factor as nat);
            }
            peak % self.fft_size
        } else {
            proof {
                vstd::arithmetic::power2::lemma2_to64();
                vstd::arithmetic::power2::lemma2_to64_rest();
                if self.spreading_factor as nat > usize::BITS as nat {
                    vstd::arithmetic::power2::lemma_pow2_strictly_increases(
                        usize::BITS as nat,
                        self.spreading_factor as nat,
                    );
                }
                vstd::arithmetic::div_mod::lemma_small_mod(
                    peak as nat,
                    pow2(self.spreading_factor as nat),
                );
            }
            peak
        };
        (bin % 0x1_0000) as u16
    }

    /// Locates the preamble: slides a symbol-length window over the block in
    /// steps of a quarter symbol, as far as the window fits, and returns the
    /// start of the first window of greatest energy. This is a coarse estimate
    /// by energy alone, not a correlation against a known preamble, and a
    /// strong burst elsewhere in the block misleads it.
    pub fn detect_preamble(&self, samples: &[IqSample]) -> (offset: usize)
        ensures
            offset == preamble_offset(samples@, symbol_len(self@.spreading_factor)),
            offset <= samples.len(),
    {
        proof {
            use_type_invariant(self);
            vstd::arithmetic::power2::lemma_pow2_pos(self.spreading_factor as nat);
        }
        let len: usize = samples.len();
        let window: usize = self.fft_size;
        if len <= window {
            // At most the window at the start of the block fits.
            return 0;
        }
        let step: usize = window / 4;
        if step == 0 {
            return 0;
        }
        let limit: usize = len - window;
        let ghost w = window as int;
        let ghost energies = window_energies(samples@, w);
        let mut best_offset: usize = 0;
        let mut max_power: u128 = 0;
        let mut offset: usize = 0;
        let ghost mut k: int = 0;
        while offset <= limit
            invariant
                0 < w < len,
                w == window,
                len == samples.len(),
                step == sync_step(w),
                step > 0,
                limit == len - w,
                energies == window_energies(samples@, w),
                0 <= k <= energies.len(),
                offset == k * step,
                best_offset == first_max(energies.take(k)) * step,
                best_offset < len,
                0 <= first_max(energies.take(k)) <= k,
                k > 0 ==> first_max(energies.take(k)) < k,
                k > 0 ==> max_power == energies[first_max(energies.take(k))],
                k == 0 ==> max_power == 0,
            decreases energies.len() - k,
        {
            proof {
                lemma_multiples_up_to(limit as int, step as int, k);
            }
            let mut power: u128 = 0;
            let mut j: usize = offset;
            while j < offset + window
                invariant
                    offset <= j <= offset + window,
                    offset + window <= len,
                    len == samples.len(),
                    power == energy(samples@, offset as int, j as int),
                decreases offset + window - j,
            {
                proof {
                    crate::sample::lemma_energy_bound(samples@, offset as int, j as int);
                    assert((j - offset) * 0x8000_0000 <= usize::MAX * 0x8000_0000) by (nonlinear_arith)
                        requires
                            0 <= j - offset <= usize::MAX,
                    ;
                }
                power = power + samples[j].norm_sqr() as u128;
                j += 1;
            }
            proof {
                let next = energies.take(k + 1);
                assert(next.drop_last() =~= energies.take(k));
                assert(next.last() == energies[k]);
                assert(energies[k] == power);
                if k > 0 {
                    let p = first_max(energies.take(k));
                    assert(next[p] == energies[p]);
                }
                lemma_first_max(next);
                assert((k + 1) * step == k * step + step) by (nonlinear_arith);
            }
            if power > max_power {
                max_power = power;
                best_offset = offset;
            }
            offset += step;
            proof {
                k = k + 1;
            }
        }
        proof {
            lemma_multiples_up_to(limit as int, step as int, k);
            assert(energies.take(k) =~= energies);
        }
        best_offset
    }

    /// Extracts one symbol from each whole symbol-length window of `samples`,
    /// from `offset` on, window after window without overlap.
    ///
    /// `spectrum(samples, start)` is asked for the window that starts at
    /// `start`: it multiplies the `fft_size()` samples from there by the
    /// reference downchirp, transforms the product and returns the squared
    /// magnitude of every bin.
    pub fn extract_symbols<F: Fn(&[IqSample], usize) -> Vec<u64>>(
        &self,
        samples: &[IqSample],
        offset: usize,
        spectrum: F,
    ) -> (symbols: Vec<u16>)
        requires
            forall|k: int, start: usize|
                #![trigger window_start(offset as int, k, symbol_len(self@.spreading_factor)), call_requires(spectrum, (samples, start))]
                0 <= k < symbol_count(
                    samples.len() as int,
                    offset as int,
                    symbol_len(self@.spreading_factor),
                ) && start == window_start(offset as int, k, symbol_len(self@.spreading_factor))
                    ==> call_requires(spectrum, (samples, start)),
        ensures
            symbols.len() == symbol_count(
                samples.len() as int,
                offset as int,
                symbol_len(self@.spreading_factor),
            ),
            forall|k: int, start: usize|
                0 <= k < symbols.len() && start == window_start(
                    offset as int,
                    k,
                    symbol_len(self@.spreading_factor),
                ) ==> #[trigger] symbol_from(
                    spectrum,
                    samples,
                    start,
                    self@.spreading_factor,
                    symbols[k],
                ),
            forall|k: int|
                0 <= k < symbols.len() ==> #[trigger] symbols[k] < symbol_len(
                    self@.spreading_factor,
                ),
    {
        proof {
            use_type_invariant(self);
            vstd::arithmetic::power2::lemma_pow2_pos(self.spreading_factor as nat);
        }
        let len: usize = samples.len();
        let window: usize = self.fft_size;
        let mut symbols: Vec<u16> = Vec::new();
        if offset > len {
            return symbols;
        }
        if (self.spreading_factor as u32) >= usize::BITS {
            proof {
                vstd::arithmetic::power2::lemma2_to64();
                vstd::arithmetic::power2::lemma2_to64_rest();
                if self.spreading_factor as nat > usize::BITS as nat {
                    vstd::arithmetic::power2::lemma_pow2_strictly_increases(
                        usize::BITS as nat,
                        self.spreading_factor as nat,
                    );
                }
                vstd::arithmetic::div_mod::lemma_basic_div(
                    len - offset,
                    symbol_len(self.spreading_factor),
                );
            }
            return symbols;
        }
        proof {
            vstd::bits::lemma_usize_pow2_no_overflow(self.spreading_factor as nat);
        }
        if len - offset < window {
            proof {
                vstd::arithmetic::div_mod::lemma_basic_div(
                    len - offset,
                    symbol_len(self.spreading_factor),
                );
            }
            return symbols;
        }
        let ghost w = window as int;
        let ghost sf = self.spreading_factor;
        let mut pos: usize = offset;
        let ghost mut k: int = 0;
        proof {
            assert(w == symbol_len(self@.spreading_factor));
            assert forall|j: int, start: usize|
                0 <= j < symbol_count(len as int, offset as int, w) && start == #[trigger] window_start(
                    offset as int,
                    j,
                    w,
                ) implies #[trigger] call_requires(spectrum, (samples, start)) by {
                assert(start == window_start(
                    offset as int,
                    j,
                    symbol_len(self@.spreading_factor),
                ));
            }
        }
        while len - pos >= window
            invariant
                w == window,
                w == symbol_len(sf),
                w > 0,
                sf == self@.spreading_factor,
                len == samples.len(),
                offset <= pos <= len,
                k >= 0,
                pos == offset + k * w,
                symbols.len() == k,
                forall|j: int, start: usize|
                    #![trigger window_start(offset as int, j, w), call_requires(spectrum, (samples, start))]
                    0 <= j < symbol_count(len as int, offset as int, w) && start == window_start(
                        offset as int,
                        j,
                        w,
                    ) ==> call_requires(spectrum, (samples, start)),
                forall|j: int, start: usize|
                    0 <= j < k && start == offset + j * w ==> #[trigger] symbol_from(
                        spectrum,
                        samples,
                        start,
                        sf,
                        symbols[j],
                    ),
                forall|j: int| 0 <= j < k ==> #[trigger] symbols[j] < w,
            decreases len - pos,
        {
            proof {
                assert((k + 1) * w == k * w + w) by (nonlinear_arith);
                lemma_windows_fit(len - offset, w, k);
                assert(pos == window_start(offset as int, k, w));
            }
            let magnitudes = spectrum(samples, pos);
            let symbol: u16 = self.fft_peak_detect(magnitudes.as_slice());
            let ghost before = symbols@;
            symbols.push(symbol);
            proof {
                assert(call_ensures(spectrum, (samples, pos), magnitudes));
                assert(symbol_from(spectrum, samples, pos, sf, symbol));
                assert((k + 1) * w == k * w + w) by (nonlinear_arith);
                assert forall|j: int, start: usize|
                    0 <= j < k + 1 && start == offset + j * w implies #[trigger] symbol_from(
                    spectrum,
                    samples,
                    start,
                    sf,
                    symbols[j],
                ) by {
                    if j < k {
                        assert(symbols[j] == before[j]);
                        assert(symbol_from(spectrum, samples, start, sf, before[j]));
                    }
                }
            }
            pos += window;
            proof {
                k = k + 1;
            }
        }
        proof {
            vstd::arithmetic::div_mod::lemma_fundamental_div_mod_converse(
                len - offset,
                w,
                k,
                len - pos,
            );
        }
        symbols
    }

    /// Packs symbols of `sf` bits each into bytes without gaps: the bits of the
    /// symbols follow one another, most significant first, and every eight of
    /// them make a byte. A last group of fewer than eight bits is filled up
    /// with zeros on the right.
    pub fn pack_symbols_to_bytes(&self, symbols: &[u16], sf: u8) -> (bytes: Vec<u8>)
        requires
            sf <= 16,
        ensures
            bytes@ == packed_symbols(symbols@, sf as int),
    {
        let width: u32 = sf as u32;
        assert((1u32 << width) >= 1) by (bit_vector)
            requires
                width <= 16,
        ;
        let mask: u32 = (1u32 << width) - 1;
        let ghost w = sf as int;
        let mut bytes: Vec<u8> = Vec::new();
        let mut bit_buffer: u32 = 0;
        let mut bit_count: u32 = 0;
        let mut m: usize = 0;
        while m < symbols.len()
            invariant
                w == sf,
                width == sf,
                sf <= 16,
                mask + 1 == (1u32 << width),
                m <= symbols.len(),
                bit_count < 8,
                8 * bytes.len() + bit_count == symbol_stream(symbols@.take(m as int), w).len(),
                forall|i: int|
                    0 <= i < bit_count ==> #[trigger] bit_of(bit_buffer, i as u32) == symbol_stream(
                        symbols@.take(m as int),
                        w,
                    )[symbol_stream(symbols@.take(m as int), w).len() - 1 - i],
                forall|k: int|
                    0 <= k < bytes.len() ==> #[trigger] bytes[k] == byte_from_msb_bits(
                        stream_octet(symbol_stream(symbols@.take(m as int), w), k),
                    ),
            decreases symbols.len() - m,
        {
            let ghost before = symbol_stream(symbols@.take(m as int), w);
            let ghost stream = symbol_stream(symbols@.take(m + 1), w);
            let ghost old_buffer = bit_buffer;
            let symbol: u32 = symbols[m] as u32;
            bit_buffer = (bit_buffer << width) | (symbol & mask);
            bit_count += width;
            proof {
                assert(symbols@.take(m + 1).drop_last() =~= symbols@.take(m as int));
                assert(symbols@.take(m + 1).last() == symbols[m as int]);
                assert(stream == before + symbol_bits(symbols[m as int], w));
                assert forall|i: int| 0 <= i < bit_count implies #[trigger] bit_of(
                    bit_buffer,
                    i as u32,
                ) == stream[stream.len() - 1 - i] by {
                    lemma_push_symbol_bits(old_buffer, symbol, width, mask, i as u32);
                    if i >= w {
                        assert(bit_of(old_buffer, (i - w) as u32) == before[before.len() - 1 - (i
                            - w)]);
                    }
                }
                assert forall|k: int| 0 <= k < bytes.len() implies #[trigger] bytes[k]
                    == byte_from_msb_bits(stream_octet(stream, k)) by {
                    assert(stream_octet(stream, k) =~= stream_octet(before, k));
                }
            }
            while bit_count >= 8
                invariant
                    bit_count < 24,
                    stream == symbol_stream(symbols@.take(m + 1), w),
                    8 * bytes.len() + bit_count == stream.len(),
                    forall|i: int|
                        0 <= i < bit_count ==> #[trigger] bit_of(bit_buffer, i as u32)
                            == stream[stream.len() - 1 - i],
                    forall|k: int|
                        0 <= k < bytes.len() ==> #[trigger] bytes[k] == byte_from_msb_bits(
                            stream_octet(stream, k),
                        ),
                decreases bit_count,
            {
                let ghost full = bit_count;
                bit_count -= 8;
                let value: u32 = (bit_buffer >> bit_count) & 0xFF;
                proof {
                    lemma_take_byte_bits(bit_buffer, bit_count, 0);
                    lemma_take_byte_bits(bit_buffer, bit_count, 1);
                    lemma_take_byte_bits(bit_buffer, bit_count, 2);
                    lemma_take_byte_bits(bit_buffer, bit_count, 3);
                    lemma_take_byte_bits(bit_buffer, bit_count, 4);
                    lemma_take_byte_bits(bit_buffer, bit_count, 5);
                    lemma_take_byte_bits(bit_buffer, bit_count, 6);
                    lemma_take_byte_bits(bit_buffer, bit_count, 7);
                    lemma_byte_is_sum_of_bits(value);
                    let e = bytes.len() as int;
                    let octet = stream_octet(stream, e);
                    assert forall|j: int| 0 <= j < 8 implies octet[j] == bit_of(
                        value,
                        (7 - j) as u32,
                    ) by {
                        let i = bit_count + 7 - j;
                        assert(bit_of(bit_buffer, i as u32) == stream[stream.len() - 1 - i]);
                    }
                    assert(value == byte_from_msb_bits(octet));
                }
                let ghost earlier = bytes@;
                bytes.push(value as u8);
                proof {
                    assert forall|k: int| 0 <= k < bytes.len() implies #[trigger] bytes[k]
                        == byte_from_msb_bits(stream_octet(stream, k)) by {
                        if k < earlier.len() {
                            assert(bytes[k] == earlier[k]);
                        }
                    }
                }
            }
            m += 1;
        }
        let ghost stream = symbol_stream(symbols@, w);
        proof {
            assert(symbols@.take(m as int) =~= symbols@);
        }
        if bit_count > 0 {
            let value: u32 = (bit_buffer << (8 - bit_count)) & 0xFF;
            proof {
                lemma_pad_byte_bits(bit_buffer, bit_count, 0);
                lemma_pad_byte_bits(bit_buffer, bit_count, 1);
                lemma_pad_byte_bits(bit_buffer, bit_count, 2);
                lemma_pad_byte_bits(bit_buffer, bit_count, 3);
                lemma_pad_byte_bits(bit_buffer, bit_count, 4);
                lemma_pad_byte_bits(bit_buffer, bit_count, 5);
                lemma_pad_byte_bits(bit_buffer, bit_count, 6);
                lemma_pad_byte_bits(bit_buffer, bit_count, 7);
                lemma_byte_is_sum_of_bits(value);
                let e = bytes.len() as int;
                let octet = stream_octet(stream, e);
                assert forall|j: int| 0 <= j < 8 implies octet[j] == bit_of(
                    value,
                    (7 - j) as u32,
                ) by {
                    if j < bit_count {
                        let i = bit_count - 1 - j;
                        assert(bit_of(bit_buffer, i as u32) == stream[stream.len() - 1 - i]);
                    }
                }
                assert(value == byte_from_msb_bits(octet));
            }
            bytes.push(value as u8);
        }
        proof {
            assert(bytes@ =~= bytes_of_stream(stream));
        }
        bytes
    }

    /// Turns symbols into bytes. At spreading factor 7 the symbols are packed
    /// without gaps; at 8 each symbol is one byte; from 9 to 12 each symbol
    /// gives its eight most significant bits. No other spreading factor can be
    /// packed: the result is then empty, and `checked_symbols_to_bytes` tells
    /// the two apart.
    pub fn symbols_to_bytes(&self, symbols: &[u16]) -> (bytes: Vec<u8>)
        ensures
            bytes@ == symbol_bytes(symbols@, self@.spreading_factor),
    {
        let sf: u8 = self.spreading_factor;
        if sf == 7 {
            self.pack_symbols_to_bytes(symbols, 7)
        } else if 8 <= sf && sf <= MAX_SPREADING_FACTOR {
            let shift: u16 = (sf - 8) as u16;
            let mut bytes: Vec<u8> = Vec::with_capacity(symbols.len());
            let mut i: usize = 0;
            while i < symbols.len()
                invariant
                    8 <= sf <= MAX_SPREADING_FACTOR,
                    shift == sf - 8,
                    i <= symbols.len(),
                    bytes.len() == i,
                    forall|k: int| 0 <= k < i ==> #[trigger] bytes[k] == top_byte(symbols[k], sf),
                decreases symbols.len() - i,
            {
                let symbol: u16 = symbols[i];
                let value: u16 = (symbol >> shift) & 0xFF;
                assert((symbol >> shift) & 0xFF < 256) by (bit_vector);
                bytes.push(value as u8);
                i += 1;
            }
            proof {
                assert(bytes@ =~= symbols@.map_values(|symbol: u16| top_byte(symbol, sf)));
            }
            bytes
        } else {
            Vec::new()
        }
    }

    /// Like `symbols_to_bytes`, but a spreading factor that cannot be packed is
    /// an error instead of an empty result.
    pub fn checked_symbols_to_bytes(&self, symbols: &[u16]) -> (packed: Result<
        Vec<u8>,
        DecodeError,
    >)
        ensures
            packing_supported(self@.spreading_factor) ==> packed is Ok && packed->Ok_0@
                == symbol_bytes(symbols@, self@.spreading_factor),
            !packing_supported(self@.spreading_factor) ==> packed == Err::<Vec<u8>, DecodeError>(
                DecodeError::UnsupportedSpreadingFactor(self@.spreading_factor),
            ),
    {
        let sf: u8 = self.spreading_factor;
        if MIN_SPREADING_FACTOR <= sf && sf <= MAX_SPREADING_FACTOR {
            Ok(self.symbols_to_bytes(symbols))
        } else {
            Err(DecodeError::UnsupportedSpreadingFactor(sf))
        }
    }

    /// Sums up the powers of a block, and their squares, for the noise
    /// estimate.
    pub fn estimate_snr(&self, samples: &[IqSample]) -> (snr: SnrEstimate)
        ensures
            snr == estimate_of(samples@),
            snr.samples == samples.len(),
            snr.power_sum == energy(samples@, 0, samples.len() as int),
            snr.square_sum == power_squares(samples@, samples.len() as int),
    {
        let n: usize = samples.len();
        let mut sum: u128 = 0;
        let mut squares: u128 = 0;
        let mut i: usize = 0;
        while i < n
            invariant
                n == samples.len(),
                i <= n,
                sum == energy(samples@, 0, i as int),
                squares == power_squares(samples@, i as int),
            decreases n - i,
        {
            proof {
                lemma_estimate_fits(samples@.take(i + 1));
                assert(energy(samples@.take(i + 1), 0, i + 1) == energy(samples@, 0, i + 1)) by {
                    lemma_energy_of_prefix(samples@, i + 1, i + 1);
                }
                assert(power_squares(samples@.take(i + 1), i + 1) == power_squares(
                    samples@,
                    i + 1,
                )) by {
                    lemma_power_squares_of_prefix(samples@, i + 1, i + 1);
                }
            }
            let p: u128 = samples[i].norm_sqr() as u128;
            assert(p * p <= 0x8000_0000 * 0x8000_0000) by (nonlinear_arith)
                requires
                    0 <= p <= 0x8000_0000,
            ;
            sum = sum + p;
            squares = squares + p * p;
            i += 1;
        }
        SnrEstimate { samples: n as u64, power_sum: sum, square_sum: squares }
    }

    /// The phases of the reference downchirp, one per sample of a symbol, in
    /// units of `π / HALF_TURN`. A window is dechirped by multiplying sample
    /// `i` with `cos(phase[i]) - j sin(phase[i])`.
    pub fn generate_downchirp(&self) -> (chirp: Vec<i32>)
        requires
            self@.spreading_factor < 32,
        ensures
            chirp.len() == symbol_len(self@.spreading_factor),
            forall|i: int|
                0 <= i < chirp.len() ==> #[trigger] chirp[i] == downchirp_phase(
                    i,
                    symbol_len(self@.spreading_factor),
                ),
    {
        proof {
            use_type_invariant(self);
            vstd::arithmetic::power2::lemma2_to64();
            if self.spreading_factor < 31 {
                vstd::arithmetic::power2::lemma_pow2_strictly_increases(
                    self.spreading_factor as nat,
                    31,
                );
            }
            vstd::arithmetic::power2::lemma_pow2_pos(self.spreading_factor as nat);
        }
        let n: usize = self.fft_size;
        let size: u128 = n as u128;
        assert(size * size <= 0x8000_0000 * 0x8000_0000) by (nonlinear_arith)
            requires
                0 < size <= 0x8000_0000,
        ;
        assert(size * size > 0) by (nonlinear_arith)
            requires
                0 < size,
        ;
        let square: u128 = size * size;
        let mut chirp: Vec<i32> = Vec::with_capacity(n);
        let mut i: usize = 0;
        while i < n
            invariant
                n == symbol_len(self@.spreading_factor),
                size == n,
                square == size * size,
                0 < size <= 0x8000_0000,
                0 < square <= 0x8000_0000 * 0x8000_0000,
                i <= n,
                chirp.len() == i,
                forall|k: int| 0 <= k < i ==> #[trigger] chirp[k] == downchirp_phase(k, n as int),
            decreases n - i,
        {
            let a: u128 = i as u128;
            let b: u128 = (n - i) as u128;
            proof {
                lemma_product_below_quarter_square(a as int, b as int);
                assert(a * b >= 0) by (nonlinear_arith)
                    requires
                        a >= 0,
                        b >= 0,
                ;
                assert(a * b * 0x4000_0000 <= square * 0x1000_0000) by (nonlinear_arith)
                    requires
                        4 * (a * b) <= square,
                ;
                assert((a * b * 0x4000_0000) / (square as int) <= 0x1000_0000) by (nonlinear_arith)
                    requires
                        0 <= a * b * 0x4000_0000 <= square * 0x1000_0000,
                        square > 0,
                ;
                assert((a * b * 0x4000_0000) / (square as int) >= 0) by (nonlinear_arith)
                    requires
                        0 <= a * b * 0x4000_0000,
                        square > 0,
                ;
            }
            let phase: u128 = (a * b * (HALF_TURN as u128)) / square;
            chirp.push(phase as i32);
            i += 1;
        }
        chirp
    }

    /// Decodes one block: locates the preamble, extracts a symbol from every
    /// whole symbol window from there on, packs the symbols into bytes and
    /// sums up the powers for the noise estimate. Nothing of the block is
    /// kept.
    ///
    /// An empty block is an error. A spreading factor that cannot be packed is
    /// not: the symbols are delivered, the bytes are empty, and
    /// `packing_error` says why. `spectrum` is what `extract_symbols` asks for.
    pub fn decode<F: Fn(&[IqSample], usize) -> Vec<u64>>(
        &self,
        samples: &[IqSample],
        spectrum: F,
    ) -> (result: Result<DecodeResult, DecodeError>)
        requires
            forall|k: int, start: usize|
                #![trigger window_start(preamble_offset(samples@, symbol_len(self@.spreading_factor)), k, symbol_len(self@.spreading_factor)), call_requires(spectrum, (samples, start))]
                0 <= k < symbol_count(
                    samples.len() as int,
                    preamble_offset(samples@, symbol_len(self@.spreading_factor)),
                    symbol_len(self@.spreading_factor),
                ) && start == window_start(
                    preamble_offset(samples@, symbol_len(self@.spreading_factor)),
                    k,
                    symbol_len(self@.spreading_factor),
                ) ==> call_requires(spectrum, (samples, start)),
        ensures
            samples.len() == 0 ==> result is Err && result->Err_0 == DecodeError::NoSamples,
            samples.len() > 0 ==> result is Ok,
            result is Ok ==> ({
                let decoded = result->Ok_0;
                let sf = self@.spreading_factor;
                let offset = preamble_offset(samples@, symbol_len(sf));
                &&& decoded.symbols.len() == symbol_count(
                    samples.len() as int,
                    offset,
                    symbol_len(sf),
                )
                &&& forall|k: int, start: usize|
                    0 <= k < decoded.symbols.len() && start == window_start(
                        offset,
                        k,
                        symbol_len(sf),
                    ) ==> #[trigger] symbol_from(
                        spectrum,
                        samples,
                        start,
                        sf,
                        decoded.symbols[k],
                    )
                &&& forall|k: int|
                    0 <= k < decoded.symbols.len() ==> #[trigger] decoded.symbols[k] < symbol_len(
                        sf,
                    )
                &&& decoded.bytes@ == symbol_bytes(decoded.symbols@, sf)
                &&& decoded.snr == estimate_of(samples@)
                &&& decoded.packing_error == (if packing_supported(sf) {
                    None
                } else {
                    Some(DecodeError::UnsupportedSpreadingFactor(sf))
                })
            }),
    {
        if samples.len() == 0 {
            return Err(DecodeError::NoSamples);
        }
        let sync_offset: usize = self.detect_preamble(samples);
        let symbols: Vec<u16> = self.extract_symbols(samples, sync_offset, spectrum);
        let (bytes, packing_error) = match self.checked_symbols_to_bytes(symbols.as_slice()) {
            Ok(bytes) => (bytes, None),
            Err(e) => (Vec::new(), Some(e)),
        };
        let snr: SnrEstimate = self.estimate_snr(samples);
        Ok(DecodeResult { symbols, bytes, snr, packing_error })
    }
}

} // verus!
