//! Receiver configuration as the user states it.

use vstd::prelude::*;

verus! {

/// Number of transfer buffers that a streaming read keeps in flight.
pub const TRANSFER_BUFFERS: u32 = 12;

/// Size of one transfer buffer in bytes.
pub const TRANSFER_BUFFER_LEN: u32 = 32 * 1024;

/// User-facing receiver configuration.
#[derive(Debug, Clone, Copy)]
pub struct SdrConfig {
    pub device_index: u32,
    pub center_frequency: u32,
    pub sample_rate_hz: u32,
    /// Tuner gain in dB; a negative value asks for automatic gain control.
    pub gain_db: i32,
}

impl SdrConfig {
    /// The manual tuner gain in tenths of a dB, the unit the tuner is
    /// programmed in, or `None` where the configuration asks for automatic
    /// gain control.
    pub fn tuner_gain_tenths(&self) -> (gain: Option<i64>)
        ensures
            self.gain_db < 0 ==> gain is None,
            self.gain_db >= 0 ==> gain == Some((self.gain_db * 10) as i64),
    {
        if self.gain_db < 0 {
            None
        } else {
            let db: i64 = self.gain_db as i64;
            Some(db * 10)
        }
    }
}

} // verus!
