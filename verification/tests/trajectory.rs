use pitch_trail::trajectory::{FullPolicy, Point3, PushOutcome, TrailState, TrajectoryBuffer};

fn pt(n: i64) -> Point3 {
    Point3 { x: n, y: 10 * n, z: 100 * n }
}

#[test]
fn trail_fills_in_order() {
    let mut trail = TrajectoryBuffer::new(3, FullPolicy::EvictOldest);
    assert_eq!(trail.state(), TrailState::Empty);
    assert_eq!(trail.push_point(pt(1)), PushOutcome::Appended);
    assert_eq!(trail.state(), TrailState::Filling);
    assert_eq!(trail.push_point(pt(2)), PushOutcome::Appended);
    assert_eq!(trail.push_point(pt(3)), PushOutcome::Appended);
    assert_eq!(trail.state(), TrailState::Full);
    assert_eq!(trail.points(), &[pt(1), pt(2), pt(3)]);
    assert_eq!(trail.limit(), 3);
    assert_eq!(trail.policy(), FullPolicy::EvictOldest);
}

#[test]
fn evicting_trail_keeps_the_newest_points() {
    let limit = 5;
    for k in 1..=12 {
        let mut trail = TrajectoryBuffer::new(limit, FullPolicy::EvictOldest);
        for n in 1..=(limit as i64 + k) {
            trail.push_point(pt(n));
        }
        assert_eq!(trail.len(), limit);
        assert_eq!(trail.state(), TrailState::Full);
        for i in 0..limit {
            assert_eq!(trail.get(i), Some(pt(k + 1 + i as i64)));
        }
    }
}

#[test]
fn evicting_trail_reports_the_evicted_point() {
    let mut trail = TrajectoryBuffer::new(2, FullPolicy::EvictOldest);
    trail.push_point(pt(1));
    trail.push_point(pt(2));
    assert_eq!(trail.push_point(pt(3)), PushOutcome::Evicted(pt(1)));
    assert_eq!(trail.push_point(pt(4)), PushOutcome::Evicted(pt(2)));
    assert_eq!(trail.points(), &[pt(3), pt(4)]);
}

#[test]
fn resetting_trail_restarts_with_the_newest_point() {
    let limit = 4;
    let mut trail = TrajectoryBuffer::new(limit, FullPolicy::ResetOnFull);
    for n in 1..=limit as i64 {
        assert_eq!(trail.push_point(pt(n)), PushOutcome::Appended);
    }
    assert_eq!(trail.len(), limit);
    assert_eq!(trail.push_point(pt(5)), PushOutcome::Reset);
    assert_eq!(trail.len(), 1);
    assert_eq!(trail.points(), &[pt(5)]);
    assert_eq!(trail.state(), TrailState::Filling);
    assert_eq!(trail.push_point(pt(6)), PushOutcome::Appended);
    assert_eq!(trail.points(), &[pt(5), pt(6)]);
}

#[test]
fn trail_of_one_point() {
    let mut evicting = TrajectoryBuffer::new(1, FullPolicy::EvictOldest);
    evicting.push_point(pt(1));
    assert_eq!(evicting.state(), TrailState::Full);
    assert_eq!(evicting.push_point(pt(2)), PushOutcome::Evicted(pt(1)));
    assert_eq!(evicting.points(), &[pt(2)]);
    let mut resetting = TrajectoryBuffer::new(1, FullPolicy::ResetOnFull);
    resetting.push_point(pt(1));
    assert_eq!(resetting.push_point(pt(2)), PushOutcome::Reset);
    assert_eq!(resetting.points(), &[pt(2)]);
}

#[test]
fn last_and_get_read_the_trail() {
    let mut trail = TrajectoryBuffer::new(3, FullPolicy::EvictOldest);
    assert_eq!(trail.last(), None);
    assert_eq!(trail.get(0), None);
    trail.push_point(pt(7));
    trail.push_point(pt(8));
    assert_eq!(trail.last(), Some(pt(8)));
    assert_eq!(trail.get(0), Some(pt(7)));
    assert_eq!(trail.get(2), None);
}
