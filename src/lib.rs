//! A polyphonic sample-playback voice engine.
//!
//! All audio arithmetic is done in integer fixed point: sample frames hold raw
//! PCM integers, playback positions and pitch ratios are fractions of
//! `POS_ONE`, envelope levels are fractions of `ENV_ONE`, and control values
//! are stored in thousandths of their unit.
use vstd::prelude::*;

pub mod envelope;
pub mod event;
pub mod frames;
pub mod param;
pub mod pitch;
pub mod sampler;

verus! {

/// The rate, in frames per second, at which the engine renders.
pub const OUTPUT_RATE: u64 = 44100;

/// One whole frame in the fixed-point position and pitch-ratio format.
pub const POS_ONE: u64 = 65536;

/// Full scale of an envelope level.
pub const ENV_ONE: u64 = 65536;

} // verus!
