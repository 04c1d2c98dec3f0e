use lfo::{Waveform, LFO, SCALE};

const UNIT: i64 = 1_000_000;

fn run_unipolar(lfo: &mut LFO, count: usize) -> Vec<i64> {
    let mut out: Vec<i64> = Vec::with_capacity(count);
    for _ in 0..count {
        out.push(lfo.next());
    }
    out
}

fn run_bipolar(lfo: &mut LFO, count: usize) -> Vec<i64> {
    let mut out: Vec<i64> = Vec::with_capacity(count);
    for _ in 0..count {
        out.push(lfo.produce_next_sample());
    }
    out
}

#[test]
fn sine_10hz() {
    let mut lfo = LFO::new(Waveform::Sine, 10 * UNIT, 1000);
    let samples: Vec<i64> = run_unipolar(&mut lfo, 1001);
    for s in &samples {
        assert!(0 <= *s && *s <= UNIT);
    }
    // unit gain, raw 0 at phase 0: unipolar midpoint
    assert_eq!(samples[0], 500_000);
    // one second later the cycle starts over
    assert_eq!(samples[1000], samples[0]);
}

#[test]
fn triangle_3hz() {
    let mut lfo = LFO::new(Waveform::Triangle, 3 * UNIT, 1000);
    let samples: Vec<i64> = run_unipolar(&mut lfo, 1001);
    for s in &samples {
        assert!(0 <= *s && *s <= UNIT);
    }
    // raw -1 at phase 0 maps to the unipolar floor
    assert_eq!(samples[0], 0);
    assert_eq!(samples[1000], samples[0]);
}

#[test]
fn sawup_5hz() {
    let mut lfo = LFO::new(Waveform::SawUp, 5 * UNIT, 1000);
    let samples: Vec<i64> = run_unipolar(&mut lfo, 1001);
    for s in &samples {
        assert!(0 <= *s && *s <= UNIT);
    }
    assert_eq!(samples[0], 0);
    // 5 Hz at 1000 samples/s: each period is 200 samples and ramps up
    assert!(samples[199] > samples[100] && samples[100] > samples[1]);
    assert_eq!(samples[200], samples[0]);
}

#[test]
fn sawdn_5hz() {
    let mut lfo = LFO::new(Waveform::SawDn, 5 * UNIT, 1000);
    let samples: Vec<i64> = run_unipolar(&mut lfo, 1001);
    for s in &samples {
        assert!(0 <= *s && *s <= UNIT);
    }
    assert_eq!(samples[0], UNIT);
    assert!(samples[199] < samples[100] && samples[100] < samples[1]);
    assert_eq!(samples[200], samples[0]);
}

#[test]
fn pulse_25percent_5hz() {
    let mut lfo = LFO::new(Waveform::Pulse(250_000), 5 * UNIT, 1000);
    lfo.set_gain(500_000);
    let samples: Vec<i64> = run_unipolar(&mut lfo, 1001);
    // unipolar with gain 0.5: high quarter at 0.5, low rest at 0
    for (i, s) in samples.iter().enumerate() {
        let expected: i64 = if i % 200 < 50 { 500_000 } else { 0 };
        assert_eq!(*s, expected);
    }
}

#[test]
fn output_within_gain_bounds() {
    let gains: [i32; 6] = [1_000_000, -1_000_000, 500_000, -123_456, i32::MAX, i32::MIN];
    let waveforms: [Waveform; 5] = [
        Waveform::Sine,
        Waveform::Triangle,
        Waveform::SawUp,
        Waveform::SawDn,
        Waveform::Pulse(300_000),
    ];
    for g in gains {
        for w in waveforms {
            let mut lfo = LFO::new(w, 7_777_777, 48_000);
            lfo.set_gain(g);
            lfo.set_theta(-987_654_321);
            let mag: i64 = (g as i64).abs();
            for _ in 0..200usize {
                let r: i64 = lfo.produce_next_sample();
                assert!(-mag <= r && r <= mag);
            }
        }
    }
}

#[test]
fn raw_sequence_is_periodic() {
    // 10 Hz divides 1000 samples/s: period of 100 samples, exactly
    for w in [Waveform::Sine, Waveform::Triangle, Waveform::SawUp] {
        let mut lfo = LFO::new(w, 10 * UNIT, 1000);
        let mut raw: Vec<i64> = Vec::new();
        for _ in 0..300usize {
            raw.push(lfo.generate());
        }
        for k in 0..200usize {
            assert_eq!(raw[k + 100], raw[k]);
        }
    }
}

#[test]
fn full_second_returns_time_index_to_zero() {
    let mut lfo = LFO::new(Waveform::Sine, 3 * UNIT, 1000);
    assert_eq!(lfo.time_step, 0);
    lfo.produce_next_sample();
    assert_eq!(lfo.time_step, 1);
    for _ in 0..999usize {
        lfo.produce_next_sample();
    }
    assert_eq!(lfo.time_step, 0);
}

#[test]
fn sine_full_cycle_returns_to_start() {
    let mut lfo = LFO::new(Waveform::Sine, 10 * UNIT, 1000);
    let samples: Vec<i64> = run_bipolar(&mut lfo, 101);
    assert_eq!(samples[0], 0);
    assert_eq!(samples[100], samples[0]);
}

#[test]
fn pulse_half_duty_with_half_gain() {
    let mut lfo = LFO::new(Waveform::Pulse(500_000), 2 * UNIT, 1000);
    lfo.set_gain(500_000);
    let samples: Vec<i64> = run_bipolar(&mut lfo, 500);
    for (i, s) in samples.iter().enumerate() {
        let expected: i64 = if i < 250 { 500_000 } else { -500_000 };
        assert_eq!(*s, expected);
    }
}

#[test]
fn set_waveform_keeps_phase_continuous() {
    let mut lfo = LFO::new(Waveform::SawUp, UNIT, 1000);
    for _ in 0..500usize {
        lfo.produce_next_sample();
    }
    assert_eq!(lfo.time_step, 500);
    lfo.set_waveform(Waveform::Triangle);
    assert_eq!(lfo.time_step, 500);
    // phase 0.5 under the new shape: the triangle peak, not its trough
    assert_eq!(lfo.produce_next_sample(), UNIT);
}

#[test]
fn reset_restarts_the_cycle() {
    let mut lfo = LFO::new(Waveform::Triangle, 7 * UNIT, 1000);
    let first: i64 = lfo.produce_next_sample();
    for _ in 0..321usize {
        lfo.produce_next_sample();
    }
    lfo.reset();
    assert_eq!(lfo.time_step, 0);
    assert_eq!(lfo.produce_next_sample(), first);
}

#[test]
fn setters_take_effect() {
    let mut lfo = LFO::new(Waveform::SawUp, 0, 1000);
    // zero frequency: constant at the ramp start
    assert_eq!(lfo.produce_next_sample(), -UNIT);
    assert_eq!(lfo.produce_next_sample(), -UNIT);

    // a quarter-cycle offset puts the sine exactly at its peak
    lfo.set_waveform(Waveform::Sine);
    lfo.set_theta(250_000);
    assert_eq!(lfo.produce_next_sample(), UNIT);

    lfo.set_freq(10 * UNIT);
    lfo.set_theta(0);
    lfo.reset();
    lfo.set_gain(-UNIT as i32);
    lfo.set_waveform(Waveform::Pulse(500_000));
    // negative gain inverts the high pulse level
    assert_eq!(lfo.produce_next_sample(), -UNIT);
}

#[test]
fn negative_frequency_keeps_phase_in_cycle() {
    let mut lfo = LFO::new(Waveform::SawUp, -UNIT, 1000);
    assert_eq!(lfo.generate(), -UNIT);
    // tick 1: floor(-1_000_000 / 1000) = -1000, wrapped to 999_000
    assert_eq!(lfo.generate(), 998_000);
    for _ in 0..500usize {
        let a: i64 = lfo.generate();
        assert!(-SCALE <= a && a <= SCALE);
    }
}

#[test]
fn negative_theta_wraps_to_nonnegative_phase() {
    let mut lfo = LFO::new(Waveform::Sine, 0, 1000);
    lfo.set_theta(-250_000);
    // phase wraps to 0.75 of the cycle: the sine trough
    assert_eq!(lfo.produce_next_sample(), -UNIT);
}

#[test]
fn zero_sample_rate_is_clamped() {
    let mut lfo = LFO::new(Waveform::Triangle, 5 * UNIT, 0);
    assert_eq!(lfo.sample_rate, 1);
    let r: i64 = lfo.produce_next_sample();
    assert_eq!(r, -UNIT);
    assert_eq!(lfo.time_step, 0);
}

#[test]
fn unipolar_output_stays_nonnegative() {
    let mut lfo = LFO::new(Waveform::SawDn, 13 * UNIT, 4_410);
    for _ in 0..1000usize {
        let r: i64 = lfo.next();
        assert!(0 <= r && r <= UNIT);
    }
    lfo.set_gain(0);
    for _ in 0..100usize {
        assert_eq!(lfo.next(), 0);
    }
}
