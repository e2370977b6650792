use plotter::data::Point;
use plotter::denoise::{denoise, should_apply_point, time_diff};

fn reading(height: u32, time: u64) -> Point {
    Point { height, time }
}

/// A cluster of `n` mutually close, pairwise distinct readings starting
/// at `t0` milliseconds, one second apart.
fn cluster(n: u64, t0: u64, height: u32) -> Vec<Point> {
    let mut points = vec![];
    for k in 0..n {
        points.push(reading(height + k as u32, t0 + 1000 * k));
    }
    points
}

#[test]
fn empty_sequence_stays_empty() {
    assert_eq!(denoise(&[]), vec![]);
}

#[test]
fn single_point_is_discarded() {
    assert_eq!(denoise(&[reading(5000, 100_000)]), vec![]);
}

#[test]
fn isolated_point_among_a_cluster_is_discarded() {
    let mut points = cluster(7, 0, 20_000);
    points.push(reading(20_000, 100_000_000));
    assert!(!should_apply_point(7, &points[7], &points));
    let out = denoise(&points);
    // The lone far reading is never kept. The scan for each cluster
    // member after the first reaches the far reading before wrapping
    // around, and stops there short of six matches; only the first
    // point, whose scan meets its six neighbors immediately, survives.
    assert_eq!(out, vec![points[0]]);
}

#[test]
fn plateau_of_seven_passes_unchanged() {
    let points = cluster(7, 50_000, 30_000);
    let once = denoise(&points);
    assert_eq!(once, points);
    let twice = denoise(&once);
    assert_eq!(twice, once);
}

#[test]
fn plateau_of_ten_passes_unchanged() {
    let points = cluster(10, 0, 1000);
    assert_eq!(denoise(&points), points);
}

#[test]
fn cluster_of_six_is_noise() {
    // Six readings give each point only five corroborating neighbors,
    // one short of confirmation.
    assert_eq!(denoise(&cluster(6, 0, 1000)), vec![]);
}

#[test]
fn identical_duplicates_do_not_corroborate() {
    let points = vec![reading(100, 1000); 7];
    assert_eq!(denoise(&points), vec![]);
}

#[test]
fn height_window_is_exclusive() {
    // Neighbors exactly a thousand feet away never corroborate.
    let mut points = vec![reading(0, 0)];
    for k in 1..8u64 {
        points.push(reading(1000, 1000 * k));
    }
    let out = denoise(&points);
    // The lone low reading is dropped; the seven high ones confirm
    // each other.
    assert_eq!(out[..], points[1..]);
}

#[test]
fn time_window_is_inclusive() {
    // Neighbors exactly ten seconds away still corroborate.
    let mut points = vec![];
    for k in 0..7u64 {
        let time = if k == 6 { 10_000 + k } else { k };
        points.push(reading(500, time));
    }
    // Readings at 0..5 ms and one at ten whole seconds: every pair is
    // within the window, so all are kept.
    assert_eq!(denoise(&points), points);
}

#[test]
fn time_diff_is_symmetric_whole_seconds() {
    assert_eq!(time_diff(10_000, 25_000), 15);
    assert_eq!(time_diff(25_000, 10_000), 15);
    assert_eq!(time_diff(1999, 1000), 0);
    assert_eq!(time_diff(7_000, 7_000), 0);
}
