//! Receiver defaults shared by the capture and display sides.

use vstd::prelude::*;

verus! {

/// Sample rate the receiver is configured for at start-up, in Hz.
pub const SDR_SAMPLE_RATE: u32 = 2_048_000;

/// Centre frequency the receiver is tuned to at start-up, in Hz.
pub const SDR_CENTER_FREQUENCY: u32 = 915_000_000;

} // verus!
