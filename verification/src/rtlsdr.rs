//! Capture side: the commands that steer the receiver thread, what that thread
//! does next in each round of its loop, and the conversion of the receiver's
//! raw byte stream into samples.

use vstd::prelude::*;
use crate::sample::IqSample;

verus! {

/// Number of sample blocks that the queue between capture and decoding holds.
/// A producer that finds the queue full waits until the consumer has taken a
/// block.
pub const QUEUE_CAPACITY: usize = 8;

/// Number of raw bytes that the capture loop reads in one round.
pub const READ_LEN: usize = 262_144;

/// Pause after a simulated block, in milliseconds.
pub const SIMULATION_PAUSE_MS: u32 = 100;

/// Pause after a failed read before the next attempt, in milliseconds.
pub const RETRY_PAUSE_MS: u32 = 10;

/// A request sent to the thread that owns the receiver.
#[derive(Debug, Clone, Copy, PartialEq, Eq)]
pub enum RTLSDRCommand {
    SetFrequency(u32),
    SetSampleRate(u32),
    Stop,
}

/// Where the capture loop gets its blocks from.
#[derive(Debug, Clone, Copy, PartialEq, Eq)]
pub enum SourceMode {
    /// A receiver was opened and is read from.
    Device,
    /// No receiver could be opened; blocks are made up.
    Simulation,
}

/// What the capture loop does in one round.
#[derive(Debug, Clone, Copy, PartialEq, Eq)]
pub enum CaptureAction {
    /// Leave the loop. The queue closes behind it and the consumer sees the
    /// end of the stream.
    Stop,
    /// Produce one block.
    Produce,
    /// Tune the receiver to a centre frequency in Hz, then produce one block.
    TuneAndProduce(u32),
    /// Set the receiver's sample rate in Hz, then produce one block.
    ResampleAndProduce(u32),
}

/// What becomes of the outcome of producing a block.
#[derive(Debug, Clone, Copy, PartialEq, Eq)]
pub enum BlockOutcome {
    /// Hand the block to the queue, then pause for so many milliseconds.
    Forward { pause_ms: u32 },
    /// There is no block; try again after so many milliseconds.
    Retry { pause_ms: u32 },
}

/// The action for one round of the capture loop, given the command that was
/// waiting, if any. A stop request is obeyed before anything else is done, in
/// either mode; a simulated source has nothing to tune.
pub open spec fn action_for(mode: SourceMode, command: Option<RTLSDRCommand>) -> CaptureAction {
    match command {
        Some(RTLSDRCommand::Stop) => CaptureAction::Stop,
        Some(RTLSDRCommand::SetFrequency(frequency)) => match mode {
            SourceMode::Device => CaptureAction::TuneAndProduce(frequency),
            SourceMode::Simulation => CaptureAction::Produce,
        },
        Some(RTLSDRCommand::SetSampleRate(rate)) => match mode {
            SourceMode::Device => CaptureAction::ResampleAndProduce(rate),
            SourceMode::Simulation => CaptureAction::Produce,
        },
        None => CaptureAction::Produce,
    }
}

/// Decides what the capture loop does in this round.
pub fn next_action(mode: SourceMode, command: Option<RTLSDRCommand>) -> (action: CaptureAction)
    ensures
        action == action_for(mode, command),
{
    match command {
        Some(RTLSDRCommand::Stop) => CaptureAction::Stop,
        Some(RTLSDRCommand::SetFrequency(frequency)) => match mode {
            SourceMode::Device => CaptureAction::TuneAndProduce(frequency),
            SourceMode::Simulation => CaptureAction::Produce,
        },
        Some(RTLSDRCommand::SetSampleRate(rate)) => match mode {
            SourceMode::Device => CaptureAction::ResampleAndProduce(rate),
            SourceMode::Simulation => CaptureAction::Produce,
        },
        None => CaptureAction::Produce,
    }
}

/// Whether the receiver counts as running once `action` is carried out: it
/// does while a device is read from and the loop has not been stopped.
pub fn running_after(mode: SourceMode, action: CaptureAction) -> (running: bool)
    ensures
        running == (mode == SourceMode::Device && action != CaptureAction::Stop),
{
    match mode {
        SourceMode::Device => match action {
            CaptureAction::Stop => false,
            _ => true,
        },
        SourceMode::Simulation => false,
    }
}

/// Decides what becomes of a round's block. A block that was produced is
/// always forwarded, none is dropped; a simulated source is slowed down to
/// ten blocks a second. A failed read is tried again after a short pause.
pub fn outcome_for(mode: SourceMode, produced: bool) -> (outcome: BlockOutcome)
    ensures
        produced && mode == SourceMode::Device ==> outcome == (BlockOutcome::Forward {
            pause_ms: 0,
        }),
        produced && mode == SourceMode::Simulation ==> outcome == (BlockOutcome::Forward {
            pause_ms: SIMULATION_PAUSE_MS,
        }),
        !produced ==> outcome == (BlockOutcome::Retry { pause_ms: RETRY_PAUSE_MS }),
{
    if produced {
        match mode {
            SourceMode::Device => BlockOutcome::Forward { pause_ms: 0 },
            SourceMode::Simulation => BlockOutcome::Forward { pause_ms: SIMULATION_PAUSE_MS },
        }
    } else {
        BlockOutcome::Retry { pause_ms: RETRY_PAUSE_MS }
    }
}

/// Full-scale amplitude of the samples that `convert_iq` produces.
pub const RAW_FULL_SCALE: i16 = 255;

/// The sample that a pair of raw unsigned bytes stands for. A raw byte `b`
/// carries the amplitude `(b - 127.5) / 127.5`; in units of `1 / 255` that
/// is the odd integer `2b - 255`.
pub open spec fn sample_of_bytes(i: u8, q: u8) -> IqSample {
    IqSample { re: (2 * i - 255) as i16, im: (2 * q - 255) as i16 }
}

/// Converts interleaved raw IQ bytes into samples. A trailing unpaired byte
/// is dropped.
pub fn convert_iq(buffer: &[u8]) -> (samples: Vec<IqSample>)
    ensures
        samples.len() == buffer.len() / 2,
        forall|k: int|
            0 <= k < samples.len() ==> #[trigger] samples[k] == sample_of_bytes(
                buffer[2 * k],
                buffer[2 * k + 1],
            ),
{
    let pairs: usize = buffer.len() / 2;
    let mut samples: Vec<IqSample> = Vec::with_capacity(pairs);
    let mut k: usize = 0;
    while k < pairs
        invariant
            pairs == buffer.len() / 2,
            k <= pairs,
            samples.len() == k,
            forall|j: int|
                0 <= j < k ==> #[trigger] samples[j] == sample_of_bytes(
                    buffer[2 * j],
                    buffer[2 * j + 1],
                ),
        decreases pairs - k,
    {
        let i: i16 = buffer[2 * k] as i16;
        let q: i16 = buffer[2 * k + 1] as i16;
        samples.push(IqSample { re: 2 * i - 255, im: 2 * q - 255 });
        k += 1;
    }
    samples
}

} // verus!
