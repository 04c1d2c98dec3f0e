use lfo::{pulse, saw, sine, triangle, SCALE};

const HIGH: i64 = 1_000_000;
const LOW: i64 = -1_000_000;

#[test]
fn sine_key_points_are_exact() {
    assert_eq!(sine(0), 0);
    assert_eq!(sine(250_000), HIGH);
    assert_eq!(sine(500_000), 0);
    assert_eq!(sine(750_000), LOW);
}

#[test]
fn sine_half_cycle_antisymmetry_sampled() {
    for k in 0..1000usize {
        let p: u64 = (k as u64) * 1000;
        let shifted: u64 = (p + 500_000) % 1_000_000;
        assert_eq!(sine(shifted), -sine(p));
    }
}

#[test]
fn sine_stays_within_unit_range() {
    for p in 0..1_000_000u64 {
        let a: i64 = sine(p);
        assert!(-SCALE <= a && a <= SCALE);
    }
}

#[test]
fn triangle_peak_and_trough() {
    assert_eq!(triangle(500_000), HIGH);
    assert_eq!(triangle(0), LOW);
    assert_eq!(triangle(250_000), 0);
    assert_eq!(triangle(750_000), 0);
}

#[test]
fn saw_directions_are_mirror_images() {
    for k in 0..1000usize {
        let p: u64 = (k as u64) * 1000;
        assert_eq!(saw(p, true), -saw(p, false));
    }
    assert_eq!(saw(0, true), LOW);
    assert_eq!(saw(0, false), HIGH);
    assert_eq!(saw(500_000, true), 0);
}

#[test]
fn pulse_quarter_duty_boundary() {
    for k in 0..1000usize {
        let p: u64 = (k as u64) * 1000;
        let expected: i64 = if p < 250_000 { HIGH } else { LOW };
        assert_eq!(pulse(p, 250_000), expected);
    }
    assert_eq!(pulse(249_999, 250_000), HIGH);
    assert_eq!(pulse(250_000, 250_000), LOW);
}

#[test]
fn pulse_degenerate_duty_ratios() {
    for k in 0..100usize {
        let p: u64 = (k as u64) * 10_000;
        assert_eq!(pulse(p, 0), LOW);
        assert_eq!(pulse(p, -123), LOW);
        assert_eq!(pulse(p, 1_000_000), HIGH);
        assert_eq!(pulse(p, 2_000_000), HIGH);
    }
}
