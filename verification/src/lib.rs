//! Fixed-point demodulation and decoding of HC-12 transceiver traffic captured
//! as baseband IQ samples.
//!
//! Two receivers share this crate. [`demodulator`] recovers bits and bytes
//! from a frequency-shift-keyed stream; its stages are [`discriminator`],
//! [`filter`], [`slicer`] and [`assembler`]. [`hc12_decoder`] recovers symbols
//! and bytes from a chirp-spread-spectrum block; its parts are [`preamble`],
//! [`peak`], [`packing`], [`snr`] and [`chirp`].
//!
//! Everything here works on integers. Angles are binary fractions of a turn,
//! amplitudes are sixteen-bit fixed point, and every stage states its result
//! as a mathematical function of its input and of the state carried between
//! blocks. The caller supplies what needs real-valued mathematics: the phase
//! angle of each sample, and the magnitude spectrum of each dechirped symbol
//! window.

pub mod angle;
pub mod assembler;
pub mod bitrate;
pub mod bits;
pub mod chirp;
pub mod constants;
pub mod demodulator;
pub mod discriminator;
pub mod division;
pub mod filter;
pub mod hc12_decoder;
pub mod packing;
pub mod peak;
pub mod preamble;
pub mod rtlsdr;
pub mod sample;
pub mod sdr;
pub mod slicer;
pub mod snr;
pub mod visualizer;
