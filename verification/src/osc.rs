//! The oscillator: mutable state plus the per-sample stepping operation.
//!
//! Each stepping call maps the current tick counter to a normalized phase
//! `fract(freq * time_step / sample_rate + theta)` (floor-based fractional
//! part, so the phase is non-negative even for negative frequencies or
//! offsets), advances `time_step` by one modulo `sample_rate`, shapes the
//! phase into a raw amplitude, and applies the gain.  Two output
//! conventions are offered: [`LFO::produce_next_sample`] is bipolar
//! (range `[-gain, gain]`), [`LFO::next`] is unipolar (`0.5 * gain *
//! (raw + 1)`, range `[0, gain]` for a non-negative gain).
//!
//! The divisions in the phase and gain paths truncate to whole fixed-point
//! units; a sample rate that is not a whole number of samples per second
//! cannot be represented, which fixes the wrap-around point at an integer.

use vstd::prelude::*;
use crate::SCALE;
use crate::math::{tdiv, floor_div, euclid_mod, trunc_div};
use crate::wave::{sine_amp, triangle_amp, saw_amp, pulse_amp, sine, triangle, saw, pulse};
use vstd::arithmetic::div_mod::{
    lemma_div_is_ordered,
    lemma_div_multiples_vanish,
    lemma_fundamental_div_mod,
    lemma_fundamental_div_mod_converse,
    lemma_hoist_over_denominator,
    lemma_mod_bound,
    lemma_mod_multiples_vanish,
    lemma_mod_self_0,
    lemma_small_mod,
};
use vstd::arithmetic::mul::lemma_mul_is_commutative;

verus! {

/// The shape of one waveform cycle.  `Pulse` carries its duty ratio as a
/// fixed-point fraction of the cycle (scaled by [`SCALE`]).
#[derive(Clone, Copy, PartialEq, Eq, Structural, Debug)]
pub enum Waveform {
    Sine,
    Triangle,
    SawUp,
    SawDn,
    Pulse(i64),
}

/// Raw (pre-gain) amplitude of waveform `w` at phase `p`.
pub open spec fn wave_amp(w: Waveform, p: int) -> int
    recommends
        0 <= p < SCALE,
{
    match w {
        Waveform::Sine => sine_amp(p),
        Waveform::Triangle => triangle_amp(p),
        Waveform::SawUp => saw_amp(p, true),
        Waveform::SawDn => saw_amp(p, false),
        Waveform::Pulse(duty_ratio) => pulse_amp(p, duty_ratio as int),
    }
}

/// Normalized phase at tick `time_step`: the floor-based fractional part of
/// `freq * time_step / sample_rate + theta`, in fixed-point cycles.
pub open spec fn phase_val(freq: int, theta: int, time_step: int, sample_rate: int) -> int
    recommends
        sample_rate > 0,
{
    (freq * time_step / sample_rate + theta) % (SCALE as int)
}

/// The time index after one stepping call.
pub open spec fn step_time(time_step: int, sample_rate: int) -> int
    recommends
        sample_rate > 0,
{
    (time_step + 1) % sample_rate
}

/// The time index after `k` stepping calls starting from `time_step`.
pub open spec fn time_after(k: nat, time_step: int, sample_rate: int) -> int
    recommends
        sample_rate > 0,
    decreases k,
{
    if k == 0 {
        time_step
    } else {
        step_time(time_after((k - 1) as nat, time_step, sample_rate), sample_rate)
    }
}

/// Magnitude (absolute value) of an integer.
pub open spec fn mag(x: int) -> int {
    if x < 0 {
        -x
    } else {
        x
    }
}

/// Phase at tick `time_step`, computed exactly over widened integers.
pub fn phase_at(freq: i64, theta: i64, time_step: u64, sample_rate: u64) -> (p: u64)
    requires
        0 < sample_rate,
        time_step < sample_rate,
    ensures
        p == phase_val(freq as int, theta as int, time_step as int, sample_rate as int),
        p < SCALE,
{
    let fw: i128 = freq as i128;
    let tw: i128 = time_step as i128;
    proof {
        assert(-170141183460469231713240559642174554112 <= fw * tw
            <= 170141183460469231713240559642174554112) by (nonlinear_arith)
            requires
                -9223372036854775808 <= fw <= 9223372036854775807,
                0 <= tw <= 18446744073709551614,
        ;
    }
    let n: i128 = fw * tw;
    let q: i128 = floor_div(n, sample_rate);
    let x: i128 = q + (theta as i128);
    euclid_mod(x, 1_000_000)
}

/// Gain scaling, bipolar convention: `gain * a / SCALE`, truncated toward
/// zero, so the output magnitude never exceeds the gain magnitude.
pub fn apply_gain(gain: i32, a: i64) -> (r: i64)
    requires
        -SCALE <= a <= SCALE,
    ensures
        r == tdiv(gain * a, SCALE as int),
        -mag(gain as int) <= r <= mag(gain as int),
{
    let g: i64 = gain as i64;
    let mg: i64 = if gain < 0 {
        -(gain as i64)
    } else {
        gain as i64
    };
    proof {
        assert(-(mg * 1_000_000) <= g * a && g * a <= mg * 1_000_000) by (nonlinear_arith)
            requires
                -1_000_000 <= a <= 1_000_000,
                mg == mag(g as int),
                g == gain,
        ;
    }
    let prod: i64 = g * a;
    let r: i64 = trunc_div(prod, 1_000_000);
    proof {
        let si: int = SCALE as int;
        lemma_div_multiples_vanish(mg as int, si);
        if prod >= 0 {
            lemma_div_is_ordered(prod as int, si * mg, si);
        } else {
            lemma_div_is_ordered(-(prod as int), si * mg, si);
        }
    }
    r
}

/// Gain scaling, unipolar convention: `0.5 * gain * (a + 1)` in real terms,
/// i.e. `gain * (a + SCALE) / (2 * SCALE)` truncated toward zero; for a
/// non-negative gain the output lies in `[0, gain]`.
pub fn apply_gain_unipolar(gain: i32, a: i64) -> (r: i64)
    requires
        -SCALE <= a <= SCALE,
    ensures
        r == tdiv(gain * (a + SCALE), 2 * SCALE as int),
        -mag(gain as int) <= r <= mag(gain as int),
        gain >= 0 ==> 0 <= r <= gain,
{
    let g: i64 = gain as i64;
    let mg: i64 = if gain < 0 {
        -(gain as i64)
    } else {
        gain as i64
    };
    let lifted: i64 = a + SCALE;
    proof {
        assert(-(mg * 2_000_000) <= g * lifted && g * lifted <= mg * 2_000_000
            && (g >= 0 ==> 0 <= g * lifted && g * lifted <= g * 2_000_000)) by (nonlinear_arith)
            requires
                0 <= lifted <= 2_000_000,
                mg == mag(g as int),
                g == gain,
        ;
    }
    let prod: i64 = g * lifted;
    let r: i64 = trunc_div(prod, 2_000_000);
    proof {
        let d2: int = 2 * SCALE as int;
        lemma_div_multiples_vanish(mg as int, d2);
        if prod >= 0 {
            lemma_div_is_ordered(prod as int, d2 * mg, d2);
        } else {
            lemma_div_is_ordered(-(prod as int), d2 * mg, d2);
        }
        if gain >= 0 {
            lemma_div_multiples_vanish(g as int, d2);
            lemma_div_is_ordered(prod as int, d2 * g, d2);
        }
    }
    r
}

/// A low-frequency oscillator.  `freq` (cycles per second), `theta` (phase
/// offset in cycles) and `gain` are fixed-point values scaled by [`SCALE`];
/// `time_step` counts samples within the current second and always stays
/// below `sample_rate` (the well-formedness invariant [`LFO::wf`]).
pub struct LFO {
    pub waveform: Waveform,
    pub freq: i64,
    pub theta: i64,
    pub gain: i32,
    pub time_step: u64,
    pub sample_rate: u64,
}

impl LFO {
    /// Well-formedness: the sample rate is positive and the time index lies
    /// inside the current second.  Established by [`LFO::new`] and preserved
    /// by every operation.
    pub open spec fn wf(self) -> bool {
        0 < self.sample_rate && self.time_step < self.sample_rate
    }

    /// Constructs an oscillator at tick 0 with phase offset 0 and unit gain.
    /// A zero sample rate would make the time wrap-around meaningless, so it
    /// is clamped to 1 as a defensive floor.
    pub fn new(waveform: Waveform, freq: i64, sample_rate: u64) -> (lfo: LFO)
        ensures
            lfo.wf(),
            lfo.waveform == waveform,
            lfo.freq == freq,
            lfo.theta == 0,
            lfo.gain == SCALE,
            lfo.time_step == 0,
            lfo.sample_rate == if sample_rate == 0 { 1u64 } else { sample_rate },
    {
        let sr: u64 = if sample_rate == 0 {
            1
        } else {
            sample_rate
        };
        LFO {
            waveform,
            freq,
            theta: 0,
            gain: 1_000_000,
            time_step: 0,
            sample_rate: sr,
        }
    }

    /// Replaces the active waveform.  The time index is untouched, so the
    /// phase continues from its current value under the new shape.
    pub fn set_waveform(&mut self, waveform: Waveform)
        ensures
            final(self).waveform == waveform,
            final(self).freq == old(self).freq,
            final(self).theta == old(self).theta,
            final(self).gain == old(self).gain,
            final(self).time_step == old(self).time_step,
            final(self).sample_rate == old(self).sample_rate,
    {
        self.waveform = waveform;
    }

    /// Replaces the frequency; it takes effect on the next computed phase.
    pub fn set_freq(&mut self, freq: i64)
        ensures
            final(self).freq == freq,
            final(self).waveform == old(self).waveform,
            final(self).theta == old(self).theta,
            final(self).gain == old(self).gain,
            final(self).time_step == old(self).time_step,
            final(self).sample_rate == old(self).sample_rate,
    {
        self.freq = freq;
    }

    /// Replaces the phase offset (in fixed-point cycles, any range; the
    /// phase computation wraps it into the cycle).
    pub fn set_theta(&mut self, theta: i64)
        ensures
            final(self).theta == theta,
            final(self).waveform == old(self).waveform,
            final(self).freq == old(self).freq,
            final(self).gain == old(self).gain,
            final(self).time_step == old(self).time_step,
            final(self).sample_rate == old(self).sample_rate,
    {
        self.theta = theta;
    }

    /// Replaces the gain multiplier; not range-checked.
    pub fn set_gain(&mut self, gain: i32)
        ensures
            final(self).gain == gain,
            final(self).waveform == old(self).waveform,
            final(self).freq == old(self).freq,
            final(self).theta == old(self).theta,
            final(self).time_step == old(self).time_step,
            final(self).sample_rate == old(self).sample_rate,
    {
        self.gain = gain;
    }

    /// Restarts the cycle: the time index returns to 0, everything else is
    /// untouched.
    pub fn reset(&mut self)
        ensures
            final(self).time_step == 0,
            final(self).waveform == old(self).waveform,
            final(self).freq == old(self).freq,
            final(self).theta == old(self).theta,
            final(self).gain == old(self).gain,
            final(self).sample_rate == old(self).sample_rate,
    {
        self.time_step = 0;
    }

    /// The raw (pre-gain) stepping operation: shapes the phase of the
    /// current tick and advances the time index by one modulo the sample
    /// rate.
    pub fn generate(&mut self) -> (a: i64)
        requires
            old(self).wf(),
        ensures
            final(self).wf(),
            final(self).waveform == old(self).waveform,
            final(self).freq == old(self).freq,
            final(self).theta == old(self).theta,
            final(self).gain == old(self).gain,
            final(self).sample_rate == old(self).sample_rate,
            final(self).time_step == step_time(
                old(self).time_step as int,
                old(self).sample_rate as int,
            ),
            a == wave_amp(
                old(self).waveform,
                phase_val(
                    old(self).freq as int,
                    old(self).theta as int,
                    old(self).time_step as int,
                    old(self).sample_rate as int,
                ),
            ),
            -SCALE <= a <= SCALE,
    {
        let p: u64 = phase_at(self.freq, self.theta, self.time_step, self.sample_rate);
        self.time_step = (self.time_step + 1) % self.sample_rate;
        proof {
            lemma_mod_bound(old(self).time_step as int + 1, old(self).sample_rate as int);
        }
        match self.waveform {
            Waveform::Sine => sine(p),
            Waveform::Triangle => triangle(p),
            Waveform::SawUp => saw(p, true),
            Waveform::SawDn => saw(p, false),
            Waveform::Pulse(duty_ratio) => pulse(p, duty_ratio),
        }
    }

    /// The stepping operation, bipolar convention: one gain-scaled sample
    /// per call, and for every waveform, frequency and offset the output
    /// magnitude never exceeds the gain magnitude.
    pub fn produce_next_sample(&mut self) -> (r: i64)
        requires
            old(self).wf(),
        ensures
            final(self).wf(),
            final(self).waveform == old(self).waveform,
            final(self).freq == old(self).freq,
            final(self).theta == old(self).theta,
            final(self).gain == old(self).gain,
            final(self).sample_rate == old(self).sample_rate,
            final(self).time_step == step_time(
                old(self).time_step as int,
                old(self).sample_rate as int,
            ),
            r == tdiv(
                old(self).gain * wave_amp(
                    old(self).waveform,
                    phase_val(
                        old(self).freq as int,
                        old(self).theta as int,
                        old(self).time_step as int,
                        old(self).sample_rate as int,
                    ),
                ),
                SCALE as int,
            ),
            -mag(old(self).gain as int) <= r <= mag(old(self).gain as int),
    {
        let a: i64 = self.generate();
        apply_gain(self.gain, a)
    }

    /// The stepping operation, unipolar convention: `0.5 * gain * (raw + 1)`
    /// in real terms, staying in `[0, gain]` for a non-negative gain.
    pub fn next(&mut self) -> (r: i64)
        requires
            old(self).wf(),
        ensures
            final(self).wf(),
            final(self).waveform == old(self).waveform,
            final(self).freq == old(self).freq,
            final(self).theta == old(self).theta,
            final(self).gain == old(self).gain,
            final(self).sample_rate == old(self).sample_rate,
            final(self).time_step == step_time(
                old(self).time_step as int,
                old(self).sample_rate as int,
            ),
            r == tdiv(
                old(self).gain * (wave_amp(
                    old(self).waveform,
                    phase_val(
                        old(self).freq as int,
                        old(self).theta as int,
                        old(self).time_step as int,
                        old(self).sample_rate as int,
                    ),
                ) + SCALE),
                2 * SCALE as int,
            ),
            -mag(old(self).gain as int) <= r <= mag(old(self).gain as int),
            old(self).gain >= 0 ==> 0 <= r <= old(self).gain,
    {
        let a: i64 = self.generate();
        apply_gain_unipolar(self.gain, a)
    }
}

/// Law: the time index never drifts.  After `k` stepping calls from a tick
/// inside the second, the time index is exactly `(time_step + k) %
/// sample_rate`; with `k == sample_rate` calls from tick 0 (one full
/// second) it returns exactly to 0 ([`lemma_full_second_returns_to_zero`]).
pub proof fn lemma_time_index_no_drift(k: nat, time_step: int, sample_rate: int)
    requires
        0 < sample_rate,
        0 <= time_step < sample_rate,
    ensures
        time_after(k, time_step, sample_rate) == (time_step + k) % sample_rate,
    decreases k,
{
    if k == 0 {
        lemma_small_mod(time_step as nat, sample_rate as nat);
    } else {
        lemma_time_index_no_drift((k - 1) as nat, time_step, sample_rate);
        let prev: int = (time_step + (k - 1)) % sample_rate;
        lemma_mod_bound(time_step + (k - 1), sample_rate);
        lemma_fundamental_div_mod(time_step + (k - 1), sample_rate);
        lemma_mul_is_commutative(sample_rate, (time_step + (k - 1)) / sample_rate);
        let q: int = (time_step + (k - 1)) / sample_rate;
        if prev + 1 < sample_rate {
            lemma_small_mod((prev + 1) as nat, sample_rate as nat);
            lemma_fundamental_div_mod_converse(time_step + k, sample_rate, q, prev + 1);
        } else {
            lemma_mod_self_0(sample_rate);
            assert(time_step + k == (q + 1) * sample_rate + 0) by (nonlinear_arith)
                requires
                    time_step + (k - 1) == q * sample_rate + prev,
                    prev + 1 == sample_rate,
            ;
            lemma_fundamental_div_mod_converse(time_step + k, sample_rate, q + 1, 0);
        }
    }
}

/// Law: one full second of stepping calls returns the time index to zero.
pub proof fn lemma_full_second_returns_to_zero(sample_rate: int)
    requires
        0 < sample_rate,
    ensures
        time_after(sample_rate as nat, 0, sample_rate) == 0,
{
    lemma_time_index_no_drift(sample_rate as nat, 0, sample_rate);
    lemma_mod_self_0(sample_rate);
}

/// Law: the raw sample sequence is periodic.  Starting from tick 0, the
/// time index at call `k` is `time_after(k, 0, sample_rate)`, and for a
/// frequency of `f` whole cycles per second with `sample_rate == n * f`,
/// the raw amplitude produced at call `k + n` equals the one at call `k`.
pub proof fn lemma_sample_sequence_periodic(
    w: Waveform,
    theta: int,
    k: nat,
    sample_rate: int,
    n: int,
    f: int,
)
    requires
        0 < f,
        0 < n,
        sample_rate == n * f,
    ensures
        wave_amp(
            w,
            phase_val(f * SCALE, theta, time_after((k + n) as nat, 0, sample_rate), sample_rate),
        ) == wave_amp(
            w,
            phase_val(f * SCALE, theta, time_after(k, 0, sample_rate), sample_rate),
        ),
{
    assert(0 < sample_rate) by (nonlinear_arith)
        requires
            0 < f,
            0 < n,
            sample_rate == n * f,
    ;
    lemma_time_index_no_drift(k, 0, sample_rate);
    lemma_time_index_no_drift((k + n) as nat, 0, sample_rate);
    lemma_waveform_periodic(w, theta, k as int, sample_rate, n, f);
}

/// Law: periodicity of the raw waveform.  For a frequency of `f` whole
/// cycles per second where `f` divides the sample rate (`sample_rate == n *
/// f`), the phase — and so the raw amplitude of every waveform — repeats
/// with period `n` samples along the tick sequence `k % sample_rate`, the
/// trajectory of the time index from tick 0.
pub proof fn lemma_waveform_periodic(
    w: Waveform,
    theta: int,
    k: int,
    sample_rate: int,
    n: int,
    f: int,
)
    requires
        0 < f,
        0 < n,
        sample_rate == n * f,
        0 <= k,
    ensures
        phase_val(f * SCALE, theta, (k + n) % sample_rate, sample_rate) == phase_val(
            f * SCALE,
            theta,
            k % sample_rate,
            sample_rate,
        ),
        wave_amp(w, phase_val(f * SCALE, theta, (k + n) % sample_rate, sample_rate)) == wave_amp(
            w,
            phase_val(f * SCALE, theta, k % sample_rate, sample_rate),
        ),
{
    let freq: int = f * (SCALE as int);
    let r: int = sample_rate;
    let si: int = SCALE as int;
    assert(0 < r && n <= r && freq * n == si * r && freq * r == (f * si) * r) by (nonlinear_arith)
        requires
            0 < f,
            0 < n,
            r == n * f,
            freq == f * si,
            si == SCALE,
    ;
    let t: int = k % r;
    lemma_mod_bound(k, r);
    lemma_fundamental_div_mod(k, r);
    lemma_mul_is_commutative(r, k / r);
    if n == r {
        // One period is the whole second: the tick itself repeats.
        lemma_mod_multiples_vanish(1, k, r);
        assert(r * 1 + k == k + n);
    } else if t + n < r {
        // No tick wrap: the accumulator grows by freq * n / r == SCALE,
        // one whole cycle, which the fractional part discards.
        lemma_fundamental_div_mod_converse(k + n, r, k / r, t + n);
        lemma_hoist_over_denominator(freq * t, si, r as nat);
        assert(freq * (t + n) == freq * t + si * r) by (nonlinear_arith)
            requires
                freq * n == si * r,
        ;
        assert((freq * (t + n)) / r == freq * t / r + si);
        lemma_mod_multiples_vanish(1, freq * t / r + theta, si);
        assert(si * 1 + (freq * t / r + theta) == freq * t / r + si + theta);
    } else {
        // The tick wraps past the second: the accumulator changes by
        // (1 - f) * SCALE, a whole number of cycles, discarded as well.
        assert(k + n == (k / r + 1) * r + (t + n - r)) by (nonlinear_arith)
            requires
                k == (k / r) * r + t,
        ;
        lemma_fundamental_div_mod_converse(k + n, r, k / r + 1, t + n - r);
        lemma_hoist_over_denominator(freq * t, si - f * si, r as nat);
        assert(freq * (t + n - r) == freq * t + (si - f * si) * r) by (nonlinear_arith)
            requires
                freq * n == si * r,
                freq * r == (f * si) * r,
                freq == f * si,
        ;
        assert((freq * (t + n - r)) / r == freq * t / r + (si - f * si));
        lemma_mod_multiples_vanish(1 - f, freq * t / r + theta, si);
        assert(si * (1 - f) + (freq * t / r + theta) == freq * t / r + (si - f * si) + theta);
    }
}

} // verus!
