//! A low-frequency oscillator (LFO) in fixed-point arithmetic.
//!
//! The oscillator maps a sample-tick counter to a normalized phase in one
//! waveform cycle and shapes that phase into an amplitude.  All signal
//! quantities (frequency in cycles per second, phase, gain, amplitude) are
//! fixed-point numbers scaled by [`SCALE`]: the real value `1.0` is stored
//! as `1_000_000`.  Every operation is exact integer arithmetic, so each
//! contract states the result in closed form.

use vstd::prelude::*;

pub mod math;
pub mod wave;
pub mod osc;

pub use wave::{sine, triangle, saw, pulse};
pub use osc::{Waveform, LFO};

verus! {

/// Fixed-point scale: the stored integer `SCALE` stands for the real value `1.0`.
pub const SCALE: i64 = 1_000_000;

/// Half of [`SCALE`]: the real value `0.5`, i.e. the midpoint of one cycle.
pub const HALF_SCALE: i64 = 500_000;

} // verus!
