use stat_latency::quantile::{exact_quantile, quantile_of_sorted, sorted_copy, BruteQuantileState, Level, Ratio};

fn value(r: Ratio) -> f64 {
    r.num as f64 / r.den as f64
}

fn level(num: u32, den: u32) -> Level {
    Level::new(num, den)
}

#[test]
fn empty_estimator_has_no_quantile() {
    let s = BruteQuantileState::new();
    assert_eq!(s.len(), 0);
    assert_eq!(s.quantile(level(0, 1)), None);
    assert_eq!(s.quantile(level(1, 2)), None);
    assert_eq!(s.quantile(level(1, 1)), None);
    assert_eq!(exact_quantile(&[], level(3, 4)), None);
}

#[test]
fn single_sample_is_every_quantile() {
    let mut s = BruteQuantileState::new();
    s.insert(5);
    for (n, d) in [(0u32, 1u32), (1, 4), (1, 2), (999, 1000), (1, 1), (7, 3)] {
        let r = s.quantile(level(n, d)).unwrap();
        assert_eq!(r.den, d);
        assert_eq!(r.num, 5 * d as i128);
        assert_eq!(value(r), 5.0);
    }
}

#[test]
fn one_to_five_known_quantiles() {
    let mut s = BruteQuantileState::new();
    for x in [4, 1, 5, 3, 2] {
        s.insert(x);
    }
    assert_eq!(s.len(), 5);
    assert_eq!(s.quantile(level(1, 2)), Some(Ratio { num: 6, den: 2 }));
    assert_eq!(s.quantile(level(0, 1)), Some(Ratio { num: 1, den: 1 }));
    assert_eq!(s.quantile(level(1, 1)), Some(Ratio { num: 5, den: 1 }));
    assert_eq!(s.quantile(level(1, 4)), Some(Ratio { num: 8, den: 4 }));
    assert_eq!(value(s.quantile(level(1, 2)).unwrap()), 3.0);
    assert_eq!(value(s.quantile(level(1, 4)).unwrap()), 2.0);
}

#[test]
fn interpolates_between_ranks() {
    // h = 4 * 0.1 = 0.4: 10 + (20 - 10) * 0.4 = 14
    let sorted = [10, 20, 30, 40, 50];
    assert_eq!(value(quantile_of_sorted(&sorted, level(1, 10))), 14.0);
    // h = 4 * 0.9 = 3.6: 40 + 10 * 0.6 = 46
    assert_eq!(value(quantile_of_sorted(&sorted, level(9, 10))), 46.0);
    // h = 1 * 0.3 = 0.3 over [0, 7]: 2.1
    let r = exact_quantile(&[7, 0], level(3, 10)).unwrap();
    assert_eq!(r, Ratio { num: 21, den: 10 });
}

#[test]
fn level_above_one_is_clamped() {
    let r = exact_quantile(&[3, 9, 1], level(5, 2)).unwrap();
    assert_eq!(value(r), 9.0);
}

#[test]
fn negative_and_extreme_samples() {
    let data = [i64::MIN, -1, i64::MAX];
    let r = exact_quantile(&data, level(1, 4)).unwrap();
    // h = 0.5 between i64::MIN and -1
    assert_eq!(r.den, 4);
    assert_eq!(r.num, (i64::MIN as i128) * 4 + ((-1i128) - (i64::MIN as i128)) * 2);
    let top = exact_quantile(&data, level(u32::MAX, u32::MAX)).unwrap();
    assert_eq!(top.num, i64::MAX as i128 * u32::MAX as i128);
}

#[test]
fn quantile_within_sample_range() {
    let data = [17, -3, 250, 42, 42, 8, 99, 0];
    let lo = *data.iter().min().unwrap() as f64;
    let hi = *data.iter().max().unwrap() as f64;
    for k in 0..=20u32 {
        let v = value(exact_quantile(&data, level(k, 20)).unwrap());
        assert!(lo <= v && v <= hi);
    }
}

#[test]
fn quantile_monotone_in_level() {
    let data = [5, 1, 9, 9, 2, 30, 7, 7, 100, -4];
    let mut prev = f64::NEG_INFINITY;
    for k in 0..=100u32 {
        let v = value(exact_quantile(&data, level(k, 100)).unwrap());
        assert!(prev <= v);
        prev = v;
    }
}

#[test]
fn sorted_copy_orders_samples() {
    let data = [3, -1, 2, 2, 0];
    assert_eq!(sorted_copy(&data), vec![-1, 0, 2, 2, 3]);
    assert_eq!(data, [3, -1, 2, 2, 0]);
}
