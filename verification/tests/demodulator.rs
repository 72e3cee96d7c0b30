use hc12_sdr::angle::{FULL_TURN, HALF_TURN};
use hc12_sdr::demodulator::{DemodStats, GfskDemodulator};
use hc12_sdr::discriminator::{frequency_of_step, MAX_FREQUENCY, ONE};

/// The phase of a real-valued angle in the library's unit, as a capture front
/// end computes it.
fn phase_units(radians: f64) -> i32 {
    (radians / std::f64::consts::PI * HALF_TURN as f64).round() as i32
}

/// Phases of a tone of `frequency` Hz from an arctangent, sample by sample.
fn tone(frequency: f64, sample_rate: f64, len: usize) -> Vec<i32> {
    (1..=len)
        .map(|n| {
            let angle = 2.0 * std::f64::consts::PI * frequency * n as f64 / sample_rate;
            phase_units(angle.sin().atan2(angle.cos()))
        })
        .collect()
}

#[test]
fn frequency_formula_is_exact() {
    assert_eq!(frequency_of_step(1 << 20, 2_048_000, 5000), 13_107);
    assert_eq!(frequency_of_step(-(1 << 20), 2_048_000, 5000), -13_107);
    assert_eq!(frequency_of_step(5_242_880, 2_048_000, 5000), ONE);
    assert_eq!(frequency_of_step(-5_242_880, 2_048_000, 5000), -ONE);
    assert_eq!(frequency_of_step(HALF_TURN, 48_000, 2400), 655_360);
    assert_eq!(frequency_of_step(12_345, 48_000, 2400), 7);
    assert_eq!(frequency_of_step(-12_345, 48_000, 2400), -7);
    assert_eq!(frequency_of_step(0, 48_000, 2400), 0);
}

#[test]
fn frequency_stays_within_its_bound() {
    assert_eq!(frequency_of_step(HALF_TURN, u32::MAX, 1), 140_737_488_322_560);
    assert!(frequency_of_step(HALF_TURN, u32::MAX, 1) <= MAX_FREQUENCY);
    assert!(frequency_of_step(-HALF_TURN, u32::MAX, 1) >= -MAX_FREQUENCY);
}

#[test]
fn filter_has_between_five_and_sixty_four_taps() {
    // 2_048_000 / (2 * 5000 + 15_000) = 81: capped.
    assert_eq!(GfskDemodulator::new(2_048_000, 15_000, 5000).filter_taps(), 64);
    // 48_000 / (2 * 2400 + 1200) = 8.
    assert_eq!(GfskDemodulator::new(48_000, 1200, 2400).filter_taps(), 8);
    // 48_000 / (2 * 20_000 + 9600) = 0: raised.
    assert_eq!(GfskDemodulator::new(48_000, 9600, 20_000).filter_taps(), 5);
    assert_eq!(GfskDemodulator::new(250_000, 10_000, 20_000).filter_taps(), 5);
    assert_eq!(GfskDemodulator::new(1, 1, 1).filter_taps(), 5);
    assert_eq!(GfskDemodulator::new(u32::MAX, 1, 1).filter_taps(), 64);
}

#[test]
fn a_new_demodulator_is_empty() {
    let demodulator = GfskDemodulator::new(2_048_000, 15_000, 5000);
    assert_eq!(
        demodulator.get_stats(),
        DemodStats {
            samples_per_bit_numerator: 2_048_000,
            samples_per_bit_denominator: 15_000,
            bit_buffer_size: 0,
            byte_buffer_size: 0,
            deviation: 5000,
            bitrate: 15_000,
            signal_bandwidth: 25_000,
        }
    );
    assert!(demodulator.fm_demod_output.is_empty());
    assert!(demodulator.filtered_output.is_empty());
    assert!(demodulator.bit_decisions.is_empty());
}

#[test]
fn bandwidth_does_not_overflow() {
    let stats = GfskDemodulator::new(u32::MAX, u32::MAX, u32::MAX).get_stats();
    assert_eq!(stats.signal_bandwidth, 3 * (u32::MAX as u64));
}

#[test]
fn a_tone_at_the_deviation_gives_one() {
    let mut demodulator = GfskDemodulator::new(2_048_000, 15_000, 5000);
    // 5000 Hz at 2_048_000 samples per second is a step of 5_242_880 units.
    let phases: Vec<i32> = (1..=200i64)
        .map(|n| {
            let unwrapped = n * 5_242_880;
            ((unwrapped + HALF_TURN as i64).rem_euclid(FULL_TURN) - HALF_TURN as i64) as i32
        })
        .collect();
    let output = demodulator.fm_discriminator(phases);
    assert_eq!(output, vec![ONE; 200]);
    let filtered = demodulator.low_pass_filter(&output);
    for (i, value) in filtered.iter().enumerate() {
        let seen = (i as i128 + 1).min(64);
        assert_eq!(*value, seen * ONE as i128);
    }
}

#[test]
fn a_tone_below_the_carrier_gives_minus_one() {
    let mut demodulator = GfskDemodulator::new(2_048_000, 15_000, 5000);
    let phases: Vec<i32> = (1..=200i64)
        .map(|n| {
            let unwrapped = -n * 5_242_880;
            ((unwrapped + HALF_TURN as i64).rem_euclid(FULL_TURN) - HALF_TURN as i64) as i32
        })
        .collect();
    let output = demodulator.fm_discriminator(phases);
    assert_eq!(output, vec![-ONE; 200]);
    let filtered = demodulator.low_pass_filter(&output);
    assert_eq!(filtered[63..], vec![-64 * ONE as i128; 137][..]);
}

#[test]
fn a_tone_from_an_arctangent_converges_to_plus_and_minus_one() {
    for sign in [1.0f64, -1.0] {
        let mut demodulator = GfskDemodulator::new(2_048_000, 15_000, 5000);
        let taps = demodulator.filter_taps() as i64;
        let bits = demodulator.process(tone(sign * 5000.0, 2_048_000.0, 400));
        assert_eq!(demodulator.fm_demod_output.len(), 400);
        for value in &demodulator.fm_demod_output {
            let relative = *value as f64 / ONE as f64;
            assert!((relative - sign).abs() < 1e-3, "{relative}");
        }
        for value in &demodulator.filtered_output[taps as usize..] {
            let relative = *value as f64 / (taps * ONE) as f64;
            assert!((relative - sign).abs() < 1e-3, "{relative}");
        }
        // 400 samples at 136.53 samples per bit are two bits.
        assert_eq!(bits, vec![sign > 0.0; 2]);
        assert_eq!(demodulator.bit_decisions, bits);
        assert_eq!(demodulator.fm_demod_output(), &demodulator.fm_demod_output);
        assert_eq!(demodulator.filtered_output(), &demodulator.filtered_output);
        assert_eq!(demodulator.bit_decisions(), &bits);
    }
}

#[test]
fn a_rounded_tone_stays_within_the_tolerance() {
    // 2400 Hz at 48_000 samples per second is a step of 107_374_182.4 units,
    // which no whole number of units is. One angle unit is worth
    // 48_000 * ONE / (FULL_TURN * 2400) = 0 units of the output, so the
    // tolerance is the 1 of the rounding.
    for sign in [1i64, -1] {
        let mut demodulator = GfskDemodulator::new(48_000, 1200, 2400);
        let taps = demodulator.filter_taps();
        assert_eq!(taps, 8);
        let bits = demodulator.process(tone(sign as f64 * 2400.0, 48_000.0, 1000));
        for value in demodulator.fm_demod_output() {
            assert!((value - sign * ONE).abs() <= 1, "{value}");
        }
        for value in &demodulator.filtered_output()[taps - 1..] {
            assert!((value - (8 * sign * ONE) as i128).abs() <= 8, "{value}");
        }
        // 40 samples per bit: 25 bits, the first read off sample 20.
        assert_eq!(bits, vec![sign > 0; 25]);
    }
}

#[test]
fn the_last_phase_carries_over_to_the_next_block() {
    let phases: Vec<i32> = (0..300).map(|n| phase_units(((n * n) % 97) as f64 / 50.0 - 1.0)).collect();
    let mut whole = GfskDemodulator::new(48_000, 1200, 2400);
    let expected = whole.fm_discriminator(phases.clone());
    let mut parts = GfskDemodulator::new(48_000, 1200, 2400);
    let mut got = parts.fm_discriminator(phases[..1].to_vec());
    got.extend(parts.fm_discriminator(phases[1..120].to_vec()));
    got.extend(parts.fm_discriminator(Vec::new()));
    got.extend(parts.fm_discriminator(phases[120..].to_vec()));
    assert_eq!(got, expected);
}

#[test]
fn an_empty_block_gives_nothing() {
    let mut demodulator = GfskDemodulator::new(48_000, 1200, 2400);
    assert_eq!(demodulator.fm_discriminator(Vec::new()), Vec::<i64>::new());
    assert_eq!(demodulator.low_pass_filter(&[]), Vec::<i128>::new());
    assert_eq!(demodulator.recover_bits(&[]), Vec::<bool>::new());
    assert_eq!(demodulator.process(Vec::new()), Vec::<bool>::new());
    assert_eq!(demodulator.decode_bytes(&[]), None);
}

#[test]
fn the_first_step_is_taken_from_phase_zero() {
    let mut demodulator = GfskDemodulator::new(48_000, 1200, 2400);
    let output = demodulator.fm_discriminator(vec![12_345, 12_345, 0]);
    assert_eq!(output, vec![7, 0, -7]);
}

#[test]
fn filter_of_zeros_is_zero() {
    let mut demodulator = GfskDemodulator::new(48_000, 1200, 2400);
    assert_eq!(demodulator.low_pass_filter(&[0; 50]), vec![0; 50]);
}

#[test]
fn filter_sums_the_newest_samples() {
    let mut demodulator = GfskDemodulator::new(48_000, 9600, 20_000);
    assert_eq!(demodulator.filter_taps(), 5);
    let output = demodulator.low_pass_filter(&[1, 10, 100, 1000, 10_000, 100_000, 0, 0, 0, 0, 0]);
    assert_eq!(
        output,
        vec![1, 11, 111, 1111, 11_111, 111_110, 111_100, 111_000, 110_000, 100_000, 0]
    );
}

#[test]
fn filter_scales_with_its_input() {
    let input: Vec<i64> = (0..200).map(|n| (n * 37 % 101) - 50).collect();
    let mut plain = GfskDemodulator::new(48_000, 1200, 2400);
    let out = plain.low_pass_filter(&input);
    for factor in [-7i64, 0, 3, 1000] {
        let scaled: Vec<i64> = input.iter().map(|x| x * factor).collect();
        let mut other = GfskDemodulator::new(48_000, 1200, 2400);
        let got = other.low_pass_filter(&scaled);
        let expected: Vec<i128> = out.iter().map(|y| y * factor as i128).collect();
        assert_eq!(got, expected);
    }
}

#[test]
fn filter_adds_up_over_inputs() {
    let a: Vec<i64> = (0..100).map(|n| (n * 13 % 31) - 15).collect();
    let b: Vec<i64> = (0..100).map(|n| (n * n % 17) - 8).collect();
    let sum: Vec<i64> = a.iter().zip(&b).map(|(x, y)| x + y).collect();
    let out_a = GfskDemodulator::new(48_000, 1200, 2400).low_pass_filter(&a);
    let out_b = GfskDemodulator::new(48_000, 1200, 2400).low_pass_filter(&b);
    let out_sum = GfskDemodulator::new(48_000, 1200, 2400).low_pass_filter(&sum);
    let expected: Vec<i128> = out_a.iter().zip(&out_b).map(|(x, y)| x + y).collect();
    assert_eq!(out_sum, expected);
}

#[test]
fn filter_state_persists_across_blocks() {
    let input: Vec<i64> = (0..100).map(|n| (n * 29 % 53) - 26).collect();
    let whole = GfskDemodulator::new(48_000, 1200, 2400).low_pass_filter(&input);
    let mut parts = GfskDemodulator::new(48_000, 1200, 2400);
    let mut got = parts.low_pass_filter(&input[..3]);
    got.extend(parts.low_pass_filter(&input[3..40]));
    got.extend(parts.low_pass_filter(&input[40..]));
    assert_eq!(got, whole);
}

#[test]
fn filter_output_follows_a_shift_of_its_input() {
    let input: Vec<i64> = (0..100).map(|n| (n * 29 % 53) - 26).collect();
    let mut delayed = vec![5i64; 20];
    delayed.extend(&input);
    let plain = GfskDemodulator::new(48_000, 1200, 2400).low_pass_filter(&input);
    let shifted = GfskDemodulator::new(48_000, 1200, 2400).low_pass_filter(&delayed);
    // From the eighth sample on the eight taps hold input samples only.
    assert_eq!(shifted[27..], plain[7..]);
}

#[test]
fn a_delayed_input_gives_the_delayed_output() {
    let input: Vec<i64> = (0..100).map(|n| (n * 29 % 53) - 26).collect();
    let plain = GfskDemodulator::new(48_000, 1200, 2400).low_pass_filter(&input);
    for delay in [0usize, 1, 7, 8, 30] {
        let mut delayed = vec![0i64; delay];
        delayed.extend(&input);
        let late = GfskDemodulator::new(48_000, 1200, 2400).low_pass_filter(&delayed);
        assert_eq!(late[..delay], vec![0i128; delay][..]);
        assert_eq!(late[delay..], plain[..]);
    }
}

#[test]
fn filter_takes_the_largest_frequencies() {
    let mut demodulator = GfskDemodulator::new(u32::MAX, 1, 1);
    let output = demodulator.low_pass_filter(&[MAX_FREQUENCY; 100]);
    assert_eq!(output[63..], vec![64 * MAX_FREQUENCY as i128; 37][..]);
    let low = demodulator.low_pass_filter(&[-MAX_FREQUENCY; 64]);
    assert_eq!(low[63], -64 * MAX_FREQUENCY as i128);
}

#[test]
fn filter_takes_every_sample_there_is() {
    let mut demodulator = GfskDemodulator::new(u32::MAX, 1, 1);
    let output = demodulator.low_pass_filter(&[i64::MAX; 100]);
    assert_eq!(output[0], i64::MAX as i128);
    assert_eq!(output[63..], vec![64 * i64::MAX as i128; 37][..]);
    let low = demodulator.low_pass_filter(&[i64::MIN; 64]);
    assert_eq!(low[0], 63 * i64::MAX as i128 + i64::MIN as i128);
    assert_eq!(low[63], 64 * i64::MIN as i128);
    let mut other = GfskDemodulator::new(u32::MAX, 1, 1);
    let scaled = other.low_pass_filter(&[i64::MAX / 7; 100]);
    assert_eq!(scaled[63], 64 * (i64::MAX / 7) as i128);
}

#[test]
fn one_bit_per_bit_period() {
    let mut demodulator = GfskDemodulator::new(48_000, 9600, 20_000);
    // Five samples per bit; the middle sample is the third of each period.
    let filtered = [-1, -1, 9, -1, -1, 4, 4, -3, 4, 4, 0, 0, 0, 0, 0, 1, 1, 1];
    assert_eq!(demodulator.recover_bits(&filtered), vec![true, false, false]);
    assert_eq!(demodulator.get_stats().bit_buffer_size, 3);
    assert_eq!(demodulator.recover_bits(&[-5, -5]), vec![true]);
    assert_eq!(demodulator.get_stats().bit_buffer_size, 0);
}

#[test]
fn each_bit_is_the_middle_sample_of_its_period() {
    // 10 / 3 samples per bit: the periods are samples 0..4, 4..7, 7..10 and
    // 10..14, and their middle samples are 2, 5, 8 and 12.
    let mut marked = vec![-1i128; 14];
    marked[2] = 1;
    marked[8] = 1;
    let mut demodulator = GfskDemodulator::new(10, 3, 1);
    assert_eq!(demodulator.recover_bits(&marked), vec![true, false, true, false]);
    let mut others = vec![1i128; 14];
    for middle in [2, 5, 8, 12] {
        others[middle] = -1;
    }
    let mut demodulator = GfskDemodulator::new(10, 3, 1);
    assert_eq!(demodulator.recover_bits(&others), vec![false; 4]);
}

#[test]
fn a_period_cut_by_a_block_boundary_is_read_in_the_middle_all_the_same() {
    let mut marked = vec![-1i128; 14];
    marked[5] = 1;
    marked[12] = 1;
    let mut demodulator = GfskDemodulator::new(10, 3, 1);
    let mut bits = demodulator.recover_bits(&marked[..5]);
    bits.extend(demodulator.recover_bits(&marked[5..6]));
    bits.extend(demodulator.recover_bits(&marked[6..13]));
    bits.extend(demodulator.recover_bits(&marked[13..]));
    assert_eq!(bits, vec![false, true, false, true]);
}

#[test]
fn zero_is_not_above_the_threshold() {
    let mut demodulator = GfskDemodulator::new(2, 1, 1);
    assert_eq!(demodulator.recover_bits(&[7, 0, 7, 1, 7, -1]), vec![false, true, false]);
}

#[test]
fn one_sample_per_bit_reads_every_sample() {
    let mut demodulator = GfskDemodulator::new(9600, 9600, 2400);
    assert_eq!(demodulator.recover_bits(&[3, -3, 0, 8]), vec![true, false, false, true]);
}

#[test]
fn bit_clock_does_not_drift() {
    // 10 / 3 samples per bit.
    let mut demodulator = GfskDemodulator::new(10, 3, 1);
    let mut samples = 0u64;
    let mut bits = 0u64;
    for block in 0..1000usize {
        let len = block % 7;
        let emitted = demodulator.recover_bits(&vec![1i128; len]).len() as u64;
        samples += len as u64;
        bits += emitted;
        // bits = floor(samples * 3 / 10): never more than one bit period behind.
        assert_eq!(bits, samples * 3 / 10);
        assert!((demodulator.get_stats().bit_buffer_size as u64) * 3 < 10);
    }
    assert!(samples > 2900);
}

#[test]
fn each_bit_comes_within_a_sample_of_its_time() {
    // 2_048_000 / 15_000 = 136.53 samples per bit.
    let mut demodulator = GfskDemodulator::new(2_048_000, 15_000, 5000);
    let mut bits = 0u64;
    for sample in 1..=200_000u64 {
        let emitted = demodulator.recover_bits(&[1]).len() as u64;
        assert!(emitted <= 1);
        if emitted == 1 {
            bits += 1;
            // sample - 1 < bits * 2_048_000 / 15_000 <= sample
            assert!(bits * 2_048_000 <= sample * 15_000);
            assert!(bits * 2_048_000 > (sample - 1) * 15_000);
        }
    }
    assert_eq!(bits, 200_000 * 15_000 / 2_048_000);
}

#[test]
fn bytes_are_assembled_least_significant_bit_first() {
    let mut demodulator = GfskDemodulator::new(48_000, 1200, 2400);
    let bits = [true, false, false, false, false, false, true, false];
    assert_eq!(demodulator.decode_bytes(&bits), Some(vec![0x41]));
    assert_eq!(demodulator.get_stats().byte_buffer_size, 0);
}

#[test]
fn fewer_than_eight_bits_give_no_bytes_and_are_kept() {
    let mut demodulator = GfskDemodulator::new(48_000, 1200, 2400);
    assert_eq!(demodulator.decode_bytes(&[false, true, false]), None);
    assert_eq!(demodulator.get_stats().byte_buffer_size, 3);
    assert_eq!(demodulator.decode_bytes(&[false, false, false, true]), None);
    assert_eq!(demodulator.get_stats().byte_buffer_size, 7);
    // The eighth bit completes 0b0100_0010; two more are left over.
    assert_eq!(demodulator.decode_bytes(&[false, true, true]), Some(vec![0x42]));
    assert_eq!(demodulator.get_stats().byte_buffer_size, 2);
    let rest = [false, false, false, false, true, false];
    assert_eq!(demodulator.decode_bytes(&rest), Some(vec![0x43]));
    assert_eq!(demodulator.get_stats().byte_buffer_size, 0);
}

fn expand(bytes: &[u8]) -> Vec<bool> {
    bytes.iter().flat_map(|byte| (0..8).map(move |i| (byte >> i) & 1 == 1)).collect()
}

#[test]
fn expanding_and_assembling_gives_the_bytes_back() {
    let bytes: Vec<u8> = (0..=255u8).chain([0x48, 0x43, 0x31, 0x32]).collect();
    let mut demodulator = GfskDemodulator::new(48_000, 1200, 2400);
    assert_eq!(demodulator.decode_bytes(&expand(&bytes)), Some(bytes));
    assert_eq!(demodulator.get_stats().byte_buffer_size, 0);
}

#[test]
fn assembling_in_pieces_gives_the_same_bytes() {
    let bytes: Vec<u8> = (0..200u32).map(|n| (n * 73 % 251) as u8).collect();
    let bits = expand(&bytes);
    let mut demodulator = GfskDemodulator::new(48_000, 1200, 2400);
    let mut got = Vec::new();
    let mut at = 0usize;
    let mut len = 1usize;
    while at < bits.len() {
        let end = (at + len).min(bits.len());
        if let Some(part) = demodulator.decode_bytes(&bits[at..end]) {
            got.extend(part);
        }
        at = end;
        len = len % 13 + 1;
    }
    assert_eq!(got, bytes);
}

#[test]
fn a_keyed_stream_is_demodulated_to_its_bytes() {
    // 16 samples per bit, 5 filter taps, deviation 11 kHz.
    let sample_rate = 160_000u32;
    let mut demodulator = GfskDemodulator::new(sample_rate, 10_000, 11_000);
    assert_eq!(demodulator.filter_taps(), 5);
    let message = b"HC-12 says hello";
    let mut angle = 0.0f64;
    let mut phases = Vec::new();
    for bit in expand(message) {
        let frequency = if bit { 11_000.0 } else { -11_000.0 };
        for _ in 0..16 {
            angle += 2.0 * std::f64::consts::PI * frequency / sample_rate as f64;
            phases.push(phase_units(angle.sin().atan2(angle.cos())));
        }
    }
    let mut bytes = Vec::new();
    for block in phases.chunks(301) {
        let bits = demodulator.process(block.to_vec());
        assert_eq!(demodulator.fm_demod_output.len(), block.len());
        assert_eq!(demodulator.filtered_output.len(), block.len());
        assert_eq!(demodulator.bit_decisions, bits);
        if let Some(part) = demodulator.decode_bytes(&bits) {
            bytes.extend(part);
        }
    }
    assert_eq!(bytes, message.to_vec());
}
