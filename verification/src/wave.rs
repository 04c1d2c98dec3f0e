//! Waveform shapers: pure maps from a normalized phase to an amplitude.
//!
//! A phase is a fixed-point fraction of one cycle in `[0, SCALE)`; every
//! shaper returns an amplitude in `[-SCALE, SCALE]` (the real range
//! `[-1, 1]`).  Triangle, saw and pulse are exact piecewise-linear maps.
//! The sine shaper evaluates Bhaskara I's rational approximation of the
//! half-cycle sine, extended to a full cycle by odd symmetry; it is exact
//! at the start, the quarter-cycle peak and the half-cycle zero, and the
//! antisymmetry `sine(p) == -sine(p + 1/2 cycle)` holds exactly
//! ([`lemma_sine_half_cycle_antisymmetry`]).

use vstd::prelude::*;
use crate::{SCALE, HALF_SCALE};
use vstd::arithmetic::div_mod::{
    lemma_div_is_ordered,
    lemma_div_multiples_vanish,
    lemma_fundamental_div_mod_converse,
    lemma_small_mod,
};

verus! {

/// Amplitude of the rising half of the sine cycle at phase `q` into the half:
/// Bhaskara I's approximation `16x(pi-x) / (5 pi^2 - 4x(pi-x))` for
/// `x = 2 pi q / SCALE`, rewritten over the scaled phase.
pub open spec fn sine_half_amp(q: int) -> int
    recommends
        0 <= q <= HALF_SCALE,
{
    let w = q * (SCALE - 2 * q);
    (32 * w * SCALE) / (5 * SCALE * SCALE - 8 * w)
}

/// Amplitude of the sine waveform at phase `p`: the rising half on
/// `[0, SCALE/2)` and its negation, shifted by half a cycle, on the rest.
pub open spec fn sine_amp(p: int) -> int
    recommends
        0 <= p < SCALE,
{
    if p < HALF_SCALE {
        sine_half_amp(p)
    } else {
        -sine_half_amp(p - HALF_SCALE)
    }
}

/// Amplitude of the triangle waveform at phase `p`: a linear ramp from -1
/// up to +1 over the first half cycle, back down over the second.
pub open spec fn triangle_amp(p: int) -> int
    recommends
        0 <= p < SCALE,
{
    if p < HALF_SCALE {
        4 * p - SCALE
    } else {
        3 * SCALE - 4 * p
    }
}

/// Amplitude of a sawtooth waveform at phase `p`: a single linear ramp,
/// rising from -1 toward +1 when `ramp_up`, falling from +1 otherwise.
pub open spec fn saw_amp(p: int, ramp_up: bool) -> int
    recommends
        0 <= p < SCALE,
{
    if ramp_up {
        2 * p - SCALE
    } else {
        SCALE - 2 * p
    }
}

/// Amplitude of the pulse waveform at phase `p`: high (+1) on the first
/// `duty_ratio` of the cycle, low (-1) on the rest.  A duty ratio at or
/// below 0 degrades to a constant low, one at or above `SCALE` to a
/// constant high; neither is an error.
pub open spec fn pulse_amp(p: int, duty_ratio: int) -> int
    recommends
        0 <= p < SCALE,
{
    if p < duty_ratio {
        SCALE as int
    } else {
        -(SCALE as int)
    }
}

fn sine_half(q: u64) -> (a: i64)
    requires
        q < HALF_SCALE,
    ensures
        a == sine_half_amp(q as int),
        0 <= a <= SCALE,
{
    let su: u64 = 1_000_000;
    proof {
        // The numerator term q * (SCALE - 2q) peaks at the quarter cycle:
        // 8 * q * (SCALE - 2q) <= SCALE^2, since (4q - SCALE)^2 >= 0.
        assert(0 <= q * (su - 2 * q) && 8 * (q * (su - 2 * q)) <= 1_000_000_000_000)
            by (nonlinear_arith)
            requires
                0 <= q < 500_000,
                su == 1_000_000,
        ;
    }
    let w: u64 = q * (su - 2 * q);
    let num: u64 = 32 * w * su;
    let den: u64 = 5 * su * su - 8 * w;
    let a: u64 = num / den;
    proof {
        let ni: int = num as int;
        let di: int = den as int;
        let si: int = SCALE as int;
        assert(ni <= di * si);
        lemma_div_is_ordered(ni, di * si, di);
        lemma_div_multiples_vanish(si, di);
        assert(a <= SCALE);
    }
    a as i64
}

/// Sine shaper.  Exactly 0 at phase 0 and at the half cycle, exactly
/// `SCALE` at the quarter cycle and `-SCALE` at the three-quarter cycle.
pub fn sine(p: u64) -> (a: i64)
    requires
        p < SCALE,
    ensures
        a == sine_amp(p as int),
        -SCALE <= a <= SCALE,
{
    if p < 500_000 {
        sine_half(p)
    } else {
        -sine_half(p - 500_000)
    }
}

/// Triangle shaper.
pub fn triangle(p: u64) -> (a: i64)
    requires
        p < SCALE,
    ensures
        a == triangle_amp(p as int),
        -SCALE <= a <= SCALE,
{
    let pi: i64 = p as i64;
    if p < 500_000 {
        4 * pi - SCALE
    } else {
        3 * SCALE - 4 * pi
    }
}

/// Sawtooth shaper (both directions).
pub fn saw(p: u64, ramp_up: bool) -> (a: i64)
    requires
        p < SCALE,
    ensures
        a == saw_amp(p as int, ramp_up),
        -SCALE <= a <= SCALE,
{
    let pi: i64 = p as i64;
    if ramp_up {
        2 * pi - SCALE
    } else {
        SCALE - 2 * pi
    }
}

/// Pulse shaper with a per-call duty ratio.
pub fn pulse(p: u64, duty_ratio: i64) -> (a: i64)
    requires
        p < SCALE,
    ensures
        a == pulse_amp(p as int, duty_ratio as int),
        -SCALE <= a <= SCALE,
{
    if (p as i64) < duty_ratio {
        SCALE
    } else {
        -SCALE
    }
}

/// Law: the sine shape is antisymmetric under a half-cycle shift,
/// `sine(p) == -sine((p + 1/2) mod 1)` for every phase in the cycle.
pub proof fn lemma_sine_half_cycle_antisymmetry(p: int)
    requires
        0 <= p < SCALE,
    ensures
        sine_amp((p + HALF_SCALE) % (SCALE as int)) == -sine_amp(p),
{
    if p < HALF_SCALE {
        lemma_small_mod((p + HALF_SCALE) as nat, SCALE as nat);
    } else {
        lemma_fundamental_div_mod_converse(p + HALF_SCALE, SCALE as int, 1, p - HALF_SCALE);
    }
}

/// Law: the two saw directions are mirror images,
/// `saw_up(p) == -saw_down(p)` for every phase.
pub proof fn lemma_saw_mirror(p: int)
    ensures
        saw_amp(p, true) == -saw_amp(p, false),
{
}

} // verus!
