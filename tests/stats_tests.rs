use stat_latency::quantile::Ratio;
use stat_latency::stats::{statistics_from_sorted, statistics_from_vec, Statistics};

fn value(r: Option<Ratio>) -> f64 {
    let r = r.unwrap();
    r.num as f64 / r.den as f64
}

#[test]
fn empty_batch_is_undefined() {
    let s = statistics_from_vec(vec![]);
    assert_eq!(s.cnt, 0);
    assert_eq!(s.avg, None);
    assert_eq!(s.p10, None);
    assert_eq!(s.p50, None);
    assert_eq!(s.p999, None);
    assert_eq!(s.max, None);
    assert_eq!(statistics_from_sorted(&[]), s);
}

#[test]
fn ten_to_fifty() {
    let s: Statistics = statistics_from_vec(vec![30, 50, 10, 40, 20]);
    assert_eq!(s.cnt, 5);
    assert_eq!(s.avg, Some(3000));
    assert_eq!(s.max, Some(50));
    assert_eq!(value(s.p50), 30.0);
    // h = 0.4 and h = 3.6
    assert_eq!(value(s.p10), 14.0);
    assert_eq!(value(s.p90), 46.0);
    // h = 1.2, 3.2, 3.8, 3.96, 3.996
    assert_eq!(s.p30, Some(Ratio { num: 22000, den: 1000 }));
    assert_eq!(s.p80, Some(Ratio { num: 42000, den: 1000 }));
    assert_eq!(s.p95, Some(Ratio { num: 48000, den: 1000 }));
    assert_eq!(s.p99, Some(Ratio { num: 49600, den: 1000 }));
    assert_eq!(s.p999, Some(Ratio { num: 49960, den: 1000 }));
}

#[test]
fn average_of_one_and_two() {
    let s = statistics_from_vec(vec![1, 2]);
    assert_eq!(s.avg, Some(150));
}

#[test]
fn average_rounds_to_hundredths() {
    // 10 / 3 = 3.333...
    assert_eq!(statistics_from_vec(vec![3, 3, 4]).avg, Some(333));
    // 20 / 3 = 6.666...
    assert_eq!(statistics_from_vec(vec![6, 7, 7]).avg, Some(667));
    // 1 / 8 = 0.125: a half rounds away from zero
    assert_eq!(statistics_from_vec(vec![1, 0, 0, 0, 0, 0, 0, 0]).avg, Some(13));
    assert_eq!(statistics_from_vec(vec![-1, 0, 0, 0, 0, 0, 0, 0]).avg, Some(-13));
    // -10 / 3 = -3.333...
    assert_eq!(statistics_from_vec(vec![-3, -3, -4]).avg, Some(-333));
}

#[test]
fn average_of_extreme_samples() {
    let s = statistics_from_vec(vec![i64::MAX, i64::MAX]);
    assert_eq!(s.avg, Some(i64::MAX as i128 * 100));
    let s = statistics_from_vec(vec![i64::MIN, i64::MIN, i64::MIN]);
    assert_eq!(s.avg, Some(i64::MIN as i128 * 100));
}

#[test]
fn single_sample_summary() {
    let s = statistics_from_vec(vec![42]);
    assert_eq!(s.cnt, 1);
    assert_eq!(s.avg, Some(4200));
    assert_eq!(s.max, Some(42));
    for p in [s.p10, s.p30, s.p50, s.p80, s.p90, s.p95, s.p99, s.p999] {
        assert_eq!(value(p), 42.0);
    }
}

#[test]
fn sorted_input_is_not_sorted_again() {
    let sorted = statistics_from_sorted(&[1, 2, 3, 4]);
    assert_eq!(sorted, statistics_from_vec(vec![4, 3, 2, 1]));
    // read in the order given
    let unsorted = statistics_from_sorted(&[4, 3, 2, 1]);
    assert_eq!(unsorted.max, Some(1));
    assert_eq!(unsorted.cnt, 4);
}

#[test]
fn percentile_ladder_never_decreases() {
    let s = statistics_from_vec(vec![9, 1, 1, 300, 25, 4, 4, 4, 70, 12, 5000]);
    let ladder = [s.p10, s.p30, s.p50, s.p80, s.p90, s.p95, s.p99, s.p999];
    for w in ladder.windows(2) {
        assert!(value(w[0]) <= value(w[1]));
    }
    assert!(value(s.p999) <= s.max.unwrap() as f64);
}
