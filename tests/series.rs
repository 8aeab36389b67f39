use sysmon_core::{Point, RollingSeries};

fn values(pts: &[Point]) -> Vec<Option<i64>> {
    pts.iter().map(|p| p.value).collect()
}

fn times(pts: &[Point]) -> Vec<u64> {
    pts.iter().map(|p| p.t).collect()
}

#[test]
fn push_past_capacity_keeps_last_in_order() {
    let mut s = RollingSeries::new(3);
    for i in 0..10u64 {
        s.push(i, Some(i as i64 * 10));
    }
    assert_eq!(s.len(), 3);
    let pts = s.points_after(0);
    assert_eq!(times(&pts), vec![7, 8, 9]);
    assert_eq!(values(&pts), vec![Some(70), Some(80), Some(90)]);
}

#[test]
fn push_below_capacity_grows() {
    let mut s = RollingSeries::new(5);
    s.push(1, Some(1));
    s.push(2, Some(2));
    assert_eq!(s.len(), 2);
    assert_eq!(s.capacity_exec(), 5);
}

#[test]
fn zero_capacity_keeps_nothing() {
    let mut s = RollingSeries::new(0);
    s.push(1, Some(1));
    s.push(2, Some(2));
    assert_eq!(s.len(), 0);
    assert_eq!(s.last_y(), None);
}

#[test]
fn points_after_is_suffix_at_or_after_bound() {
    let mut s = RollingSeries::new(10);
    for t in [10u64, 20, 20, 30, 40] {
        s.push(t, Some(t as i64));
    }
    let pts = s.points_after(20);
    assert_eq!(times(&pts), vec![20, 20, 30, 40]);
    assert!(pts.iter().all(|p| p.t >= 20));
    assert!(s.points_after(41).is_empty());
    assert_eq!(s.points_after(0).len(), 5);
}

#[test]
fn points_after_keeps_no_data_samples() {
    let mut s = RollingSeries::new(10);
    s.push(1, Some(5));
    s.push(2, None);
    s.push(3, Some(7));
    let pts = s.points_after(2);
    assert_eq!(values(&pts), vec![None, Some(7)]);
}

#[test]
fn points_after_scaled_divides_toward_zero() {
    let mut s = RollingSeries::new(10);
    s.push(1, Some(3_400_000));
    s.push(2, Some(-7));
    s.push(3, None);
    s.push(4, Some(999));
    let pts = s.points_after_scaled(1, 1000);
    assert_eq!(values(&pts), vec![Some(3400), Some(0), None, Some(0)]);
    let pts = s.points_after_scaled(2, 2);
    assert_eq!(values(&pts), vec![Some(-3), None, Some(499)]);
}

#[test]
fn min_max_over_window() {
    let mut s = RollingSeries::new(10);
    for v in [10u64, 100, 1000] {
        s.push(v, Some(v as i64));
    }
    assert_eq!(s.min_max_y(50, 1000), Some((100, 1000)));
    assert_eq!(s.min_max_y(0, 10), Some((10, 10)));
}

#[test]
fn min_max_none_when_window_empty() {
    let mut s = RollingSeries::new(10);
    assert_eq!(s.min_max_y(0, 100), None);
    s.push(5, Some(1));
    assert_eq!(s.min_max_y(6, 100), None);
}

#[test]
fn min_max_skips_no_data() {
    let mut s = RollingSeries::new(10);
    s.push(1, None);
    s.push(2, None);
    assert_eq!(s.min_max_y(0, 10), None);
    s.push(3, Some(-4));
    assert_eq!(s.min_max_y(0, 10), Some((-4, -4)));
    assert_eq!(s.len(), 3);
}

#[test]
fn last_y_reports_newest() {
    let mut s = RollingSeries::new(2);
    assert_eq!(s.last_y(), None);
    s.push(1, Some(3));
    assert_eq!(s.last_y(), Some(3));
    s.push(2, None);
    assert_eq!(s.last_y(), None);
    assert_eq!(s.last_time(), Some(2));
}
