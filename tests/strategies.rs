use decay_consensus::lexical::str_less;
use decay_consensus::{ConfigError, Decay, Escalator, ExpDecay, LinearDecay, LinearEsc, StepDecay, Window};

#[test]
fn zero_parameters_are_refused() {
    assert_eq!(ExpDecay::new(0), Err(ConfigError::ZeroDuration));
    assert_eq!(LinearDecay::new(0), Err(ConfigError::ZeroDuration));
    assert_eq!(StepDecay::new(0), Err(ConfigError::ZeroDuration));
    assert_eq!(ExpDecay::new(5), Ok(ExpDecay(5)));
    assert_eq!(LinearDecay::new(5), Ok(LinearDecay(5)));
    assert_eq!(StepDecay::new(5), Ok(StepDecay(5)));
}

#[test]
fn exponential_decay_values() {
    let d = ExpDecay::new(1_000).unwrap();
    assert_eq!(d.weight(0), 1_000_000);
    assert_eq!(d.weight(1_000), 500_000);
    assert_eq!(d.weight(2_000), 250_000);
    // one half of a half-life: the square root of one half, rounded down
    assert_eq!(d.weight(500), 707_106);
    assert_eq!(d.weight(250), 840_896);
    assert_eq!(d.weight(1_500), 353_553);
    // between two sixty-fourths of a half-life
    assert_eq!(d.weight(7), 995_175);
    // far past the point where halving reaches zero, the weight stays positive
    assert_eq!(d.weight(100_000), 1);
    assert_eq!(d.weight(u64::MAX), 1);
}

#[test]
fn exponential_decay_on_sixty_fourths() {
    let d = ExpDecay::new(6_400).unwrap();
    assert_eq!(d.weight(100), 989_228);
    assert_eq!(d.weight(3_200), 707_106);
    assert_eq!(d.weight(6_300), 505_444);
    assert_eq!(d.weight(6_400), 500_000);
}

#[test]
fn exponential_decay_follows_the_curve() {
    for half_life in [1_000u64, 777, 60_000] {
        let d = ExpDecay::new(half_life).unwrap();
        let mut age: u64 = 0;
        while age < 3 * half_life {
            let exact = 1_000_000f64 * 0.5f64.powf(age as f64 / half_life as f64);
            let w = d.weight(age) as f64;
            assert!((w - exact).abs() <= 17.0, "age {} half-life {}: {} vs {}", age, half_life, w, exact);
            age += half_life / 97 + 1;
        }
    }
}

#[test]
fn exponential_decay_stays_in_unit_range() {
    let d = ExpDecay::new(750).unwrap();
    let mut age: u64 = 0;
    while age < 40_000 {
        let w = d.weight(age);
        assert!(w > 0 && w <= 1_000_000);
        age += 37;
    }
}

#[test]
fn linear_decay_values() {
    let d = LinearDecay::new(1_000).unwrap();
    assert_eq!(d.weight(0), 1_000_000);
    assert_eq!(d.weight(500), 500_000);
    assert_eq!(d.weight(899), 101_000);
    assert_eq!(d.weight(900), 100_000);
    assert_eq!(d.weight(950), 100_000);
    assert_eq!(d.weight(5_000), 100_000);
    assert_eq!(d.weight(u64::MAX), 100_000);
}

#[test]
fn step_decay_values() {
    let d = StepDecay::new(1_000).unwrap();
    assert_eq!(d.weight(0), 1_000_000);
    assert_eq!(d.weight(999), 1_000_000);
    assert_eq!(d.weight(1_000), 500_000);
    assert_eq!(d.weight(1_999), 500_000);
    assert_eq!(d.weight(2_500), 333_333);
    assert_eq!(d.weight(9_000), 100_000);
    // a million steps in, the weight stays at one part per million
    let fine = StepDecay::new(1).unwrap();
    assert_eq!(fine.weight(1_000_000), 1);
    assert_eq!(fine.weight(u64::MAX), 1);
    assert_eq!(fine.weight(999_998), 1);
    assert_eq!(fine.weight(1), 500_000);
}

#[test]
fn step_decay_never_grows() {
    let d = StepDecay::new(300).unwrap();
    let mut prev = d.weight(0);
    let mut age: u64 = 1;
    while age < 10_000 {
        let w = d.weight(age);
        assert!(w <= prev);
        prev = w;
        age += 13;
    }
}

#[test]
fn linear_escalator_values() {
    let e = LinearEsc::new(500_000, 100_000, 900_000);
    assert_eq!(e, LinearEsc { base: 500_000, slope: 100_000, cap: 900_000, floor: 0 });
    assert_eq!(e.threshold(0), 500_000);
    assert_eq!(e.threshold(2_000), 700_000);
    assert_eq!(e.threshold(2_500), 750_000);
    assert_eq!(e.threshold(10_000), 900_000);
}

#[test]
fn falling_escalator_stops_at_its_floor() {
    let e = LinearEsc::new(500_000, -300_000, 1_000_000);
    assert_eq!(e.threshold(1_000), 200_000);
    assert_eq!(e.threshold(3_000), 0);
    let floored = LinearEsc { base: 500_000, slope: -300_000, cap: 1_000_000, floor: 100_000 };
    assert_eq!(floored.threshold(3_000), 100_000);
}

#[test]
fn escalator_rounds_toward_negative_infinity() {
    let e = LinearEsc { base: 500_000, slope: -1, cap: 1_000_000, floor: 0 };
    assert_eq!(e.threshold(1), 499_999);
    let up = LinearEsc { base: 500_000, slope: 1, cap: 1_000_000, floor: 0 };
    assert_eq!(up.threshold(1), 500_000);
    assert_eq!(up.threshold(1_999), 500_001);
}

#[test]
fn window_clamps_clock_skew() {
    let w = Window { start: 10_000, duration: 1_000 };
    assert_eq!(w.elapsed_at(9_000), 0);
    assert!(w.is_open_at(9_000));
    assert_eq!(w.elapsed_at(10_400), 400);
    assert!(w.is_open_at(10_999));
    assert!(!w.is_open_at(11_000));
    let closed = Window { start: 10_000, duration: 0 };
    assert!(!closed.is_open_at(10_000));
}

#[test]
fn window_by_wall_clock() {
    let w = Window::starting_now(60_000);
    assert!(w.is_open());
    assert!(w.elapsed() < 60_000);
    let w = Window { start: 0, duration: 1 };
    assert!(!w.is_open());
    assert!(w.elapsed() > 0);
}

#[test]
fn dictionary_order() {
    assert!(str_less("alpha", "beta"));
    assert!(!str_less("beta", "alpha"));
    assert!(str_less("ab", "abc"));
    assert!(!str_less("abc", "ab"));
    assert!(!str_less("same", "same"));
    assert!(str_less("", "a"));
    assert!(str_less("B", "a"));
    assert!(str_less("zé", "zë"));
}
