use hc12_sdr::angle::HALF_TURN;
use hc12_sdr::hc12_decoder::HC12Decoder;
use hc12_sdr::sample::IqSample;
use num_complex::Complex32;
use rustfft::FftPlanner;

const FULL_SCALE: f32 = 20_000.0;

/// The reference downchirp as complex numbers, from the library's phases.
fn reference(decoder: &HC12Decoder) -> Vec<Complex32> {
    decoder
        .generate_downchirp()
        .iter()
        .map(|&units| {
            let phase = units as f32 / HALF_TURN as f32 * std::f32::consts::PI;
            Complex32::new(phase.cos(), -phase.sin())
        })
        .collect()
}

/// One symbol on the air: the conjugate of the reference, turned by the
/// symbol's tone.
fn transmit(symbol: u16, chirp: &[Complex32], amplitude: f32) -> Vec<IqSample> {
    let n = chirp.len();
    (0..n)
        .map(|i| {
            let turn = (symbol as usize * i % n) as f32 / n as f32;
            let tone = Complex32::from_polar(amplitude, 2.0 * std::f32::consts::PI * turn);
            let value = chirp[i].conj() * tone * FULL_SCALE;
            IqSample { re: value.re.round() as i16, im: value.im.round() as i16 }
        })
        .collect()
}

/// Decodes a block with a real transform behind the library's walk.
fn receive(decoder: &HC12Decoder, samples: &[IqSample]) -> (Vec<u16>, Vec<u8>) {
    let size = decoder.fft_size();
    let chirp = reference(decoder);
    let fft = FftPlanner::new().plan_fft_forward(size);
    let spectrum = |block: &[IqSample], start: usize| -> Vec<u64> {
        let mut buffer: Vec<Complex32> = block[start..start + size]
            .iter()
            .zip(chirp.iter())
            .map(|(s, d)| Complex32::new(s.re as f32, s.im as f32) * d)
            .collect();
        fft.process(&mut buffer);
        buffer.iter().map(|bin| bin.norm_sqr().to_bits() as u64).collect()
    };
    let result = decoder.decode(samples, spectrum).unwrap();
    assert_eq!(result.packing_error, None);
    (result.symbols, result.bytes)
}

/// A frame on the air: a loud symbol 0 for the receiver to find, the symbols
/// more quietly, and a quiet tail of a little more than one symbol.
fn frame(symbols: &[u16], chirp: &[Complex32]) -> Vec<IqSample> {
    let mut samples = transmit(0, chirp, 1.0);
    for &symbol in symbols {
        samples.extend(transmit(symbol, chirp, 0.25));
    }
    samples.extend(transmit(0, chirp, 0.25));
    samples.extend(transmit(0, chirp, 0.25).into_iter().take(10));
    samples
}

/// What a receiver makes of a frame: the preamble, the symbols, the tail.
fn framed(symbols: &[u16]) -> Vec<u16> {
    let mut expected = vec![0];
    expected.extend_from_slice(symbols);
    expected.push(0);
    expected
}

#[test]
fn symbols_cross_a_chirped_link_at_eight_bits() {
    let decoder = HC12Decoder::new(8, 125_000);
    let chirp = reference(&decoder);
    let message = b"HC-12 on the air";
    let sent: Vec<u16> = message.iter().map(|&b| b as u16).collect();
    let (symbols, bytes) = receive(&decoder, &frame(&sent, &chirp));
    assert_eq!(symbols, framed(&sent));
    assert_eq!(bytes, b"\0HC-12 on the air\0".to_vec());
}

#[test]
fn symbols_cross_a_chirped_link_at_seven_bits() {
    let decoder = HC12Decoder::new(7, 125_000);
    let chirp = reference(&decoder);
    let sent: Vec<u16> = vec![0x7F, 0x00, 0x55, 0x2A, 0x7F, 0x00, 0x55, 0x2A, 0x01, 0x40];
    let (symbols, bytes) = receive(&decoder, &frame(&sent, &chirp));
    assert_eq!(symbols, framed(&sent));
    // Twelve symbols of seven bits: ten bytes and four bits.
    assert_eq!(bytes, vec![0x01, 0xFC, 0x05, 0x55, 0x5F, 0xC0, 0x55, 0x54, 0x06, 0x00, 0x00]);
}

#[test]
fn symbols_cross_a_chirped_link_at_twelve_bits() {
    let decoder = HC12Decoder::new(12, 125_000);
    let chirp = reference(&decoder);
    let sent: Vec<u16> = vec![0x410, 0x420, 0x430, 0xFFF, 0x001];
    let (symbols, bytes) = receive(&decoder, &frame(&sent, &chirp));
    assert_eq!(symbols, framed(&sent));
    assert_eq!(bytes, vec![0x00, 0x41, 0x42, 0x43, 0xFF, 0x00, 0x00]);
}

#[test]
fn a_loud_preamble_sets_where_symbols_begin() {
    let decoder = HC12Decoder::new(8, 125_000);
    let chirp = reference(&decoder);
    // Three quarters of a symbol of near silence, a loud symbol, then quiet ones.
    let mut samples: Vec<IqSample> = (0..192).map(|i| IqSample { re: (i % 3) - 1, im: 0 }).collect();
    samples.extend(transmit(0x00, &chirp, 1.0));
    for symbol in [0x48u16, 0x43, 0x31, 0x32] {
        samples.extend(transmit(symbol, &chirp, 0.25));
    }
    // A quiet tail of a little more than one symbol.
    samples.extend(transmit(0x00, &chirp, 0.25));
    samples.extend(transmit(0x00, &chirp, 0.25).into_iter().take(10));
    assert_eq!(decoder.detect_preamble(&samples), 192);
    let (symbols, bytes) = receive(&decoder, &samples);
    assert_eq!(symbols, vec![0x00, 0x48, 0x43, 0x31, 0x32, 0x00]);
    assert_eq!(bytes, b"\0HC12\0".to_vec());
}
