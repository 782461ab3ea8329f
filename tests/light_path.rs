use glint::path::{Bounce, LightPath, PathEnd, PathStep};

/// Drives a path over the given outcomes; returns how it ended and how many
/// rays it traced.
fn drive(max_bounces: u64, bounces: &[Bounce]) -> (PathEnd, usize) {
    let mut path = LightPath::new(max_bounces);
    let mut step = path.next();
    let mut traced = 0;
    while step == PathStep::Trace {
        let bounce = bounces[traced];
        traced += 1;
        step = path.record(bounce);
    }
    match step {
        PathStep::End(end) => (end, traced),
        PathStep::Trace => unreachable!(),
    }
}

#[test]
fn zero_bounces_is_black_without_tracing() {
    let path = LightPath::new(0);
    assert_eq!(path.next(), PathStep::End(PathEnd::Black));
    assert_eq!(drive(0, &[]), (PathEnd::Black, 0));
}

#[test]
fn first_ray_missing_sees_sky() {
    assert_eq!(drive(1, &[Bounce::Miss]), (PathEnd::Sky, 1));
    assert_eq!(drive(50, &[Bounce::Miss]), (PathEnd::Sky, 1));
}

#[test]
fn absorbed_ray_is_black() {
    assert_eq!(drive(5, &[Bounce::Scattered, Bounce::Absorbed]), (PathEnd::Black, 2));
}

#[test]
fn escape_after_scatters_sees_sky() {
    let bounces = [Bounce::Scattered, Bounce::Scattered, Bounce::Miss];
    assert_eq!(drive(3, &bounces), (PathEnd::Sky, 3));
}

#[test]
fn budget_is_enforced_exactly() {
    let all_scatter = [Bounce::Scattered; 10];
    assert_eq!(drive(4, &all_scatter), (PathEnd::Black, 4));
    // one more bounce in the budget lets the escaping ray through
    let bounces = [Bounce::Scattered, Bounce::Scattered, Bounce::Miss];
    assert_eq!(drive(2, &bounces), (PathEnd::Black, 2));
    assert_eq!(drive(3, &bounces), (PathEnd::Sky, 3));
}

#[test]
fn record_scatter_spends_one_bounce() {
    let mut path = LightPath::new(3);
    assert_eq!(path.record(Bounce::Scattered), PathStep::Trace);
    assert_eq!(path.bounces_left, 2);
    assert_eq!(path.record(Bounce::Scattered), PathStep::Trace);
    assert_eq!(path.record(Bounce::Scattered), PathStep::End(PathEnd::Black));
    assert_eq!(path.bounces_left, 0);
}

#[test]
fn record_miss_keeps_budget() {
    let mut path = LightPath::new(3);
    assert_eq!(path.record(Bounce::Miss), PathStep::End(PathEnd::Sky));
    assert_eq!(path.bounces_left, 3);
    let mut path = LightPath::new(3);
    assert_eq!(path.record(Bounce::Absorbed), PathStep::End(PathEnd::Black));
    assert_eq!(path.bounces_left, 3);
}
