use pure_pursuit::{follow_path, run_pursuit, PathModel, Point, ITERATION_CAP};

fn at(x: i64, y: i64) -> Point {
    Point::new(x, y)
}

#[test]
fn empty_path_empty_trajectory() {
    let mut m = PathModel::new(10);
    let t = follow_path(&mut m, 30);
    assert!(t.is_empty());
}

#[test]
fn single_pose_pass() {
    let mut m = PathModel::new(10);
    m.add_control_point(at(5, 5));
    let t = follow_path(&mut m, 30);
    assert_eq!(t.len(), 1);
    assert_eq!((t[0].x, t[0].y), (5, 5));
    // The pass marked its goal pose as referenced.
    assert!(m.get_path_poses()[0].already_referenced);
}

#[test]
fn straight_path_monotone_x() {
    let mut m = PathModel::new(10_000);
    m.add_control_point(at(0, 0));
    m.add_control_point(at(100_000, 0));
    let t = follow_path(&mut m, 30_000);
    assert!(t.len() <= ITERATION_CAP);
    assert!(!t.is_empty());
    for w in t.windows(2) {
        assert!(w[1].x >= w[0].x);
    }
    for p in &t {
        assert_eq!(p.y, 0);
    }
    assert!(t.last().unwrap().x > 0);
}

#[test]
fn straight_path_first_steps_exact() {
    let mut m = PathModel::new(10_000);
    m.add_control_point(at(0, 0));
    m.add_control_point(at(100_000, 0));
    let t = follow_path(&mut m, 30_000);
    assert!(t.len() >= 3);
    // The first iteration pursues the start pose; then each iteration
    // covers one percent of the remaining displacement toward the next
    // pose.
    assert_eq!((t[0].x, t[0].y), (0, 0));
    assert_eq!((t[1].x, t[1].y), (100, 0));
    assert_eq!((t[2].x, t[2].y), (199, 0));
}

#[test]
fn goal_indices_non_decreasing_on_dense_path() {
    let mut m = PathModel::new(10_000);
    m.add_control_point(at(0, 0));
    m.add_control_point(at(100_000, 0));
    let run = run_pursuit(&mut m, 30_000, ITERATION_CAP);
    assert_eq!(run.goal_indices.len(), run.trajectory.len());
    for w in run.goal_indices.windows(2) {
        assert!(w[1] >= w[0]);
    }
}

#[test]
fn degenerate_small_radius_hits_cap() {
    let mut m = PathModel::new(10);
    m.add_control_point(at(0, 0));
    m.add_control_point(at(100, 0));
    let t = follow_path(&mut m, 5);
    // No new goal is ever eligible: the turtle pursues a stale goal until
    // the iteration cap is exhausted.
    assert_eq!(t.len(), ITERATION_CAP);
    for p in &t {
        assert_eq!((p.x, p.y), (0, 0));
    }
}

#[test]
fn negative_radius_finds_no_goal() {
    let mut m = PathModel::new(10);
    m.add_control_point(at(5, 5));
    let t = follow_path(&mut m, -1);
    assert_eq!(t.len(), 1);
    assert_eq!((t[0].x, t[0].y), (5, 5));
}

#[test]
fn custom_iteration_cap_bounds_trajectory() {
    let mut m = PathModel::new(10_000);
    m.add_control_point(at(0, 0));
    m.add_control_point(at(100_000, 0));
    let run = run_pursuit(&mut m, 30_000, 3);
    assert_eq!(run.trajectory.len(), 3);
}

#[test]
fn passes_are_stateless_per_tick() {
    let mut m = PathModel::new(10_000);
    m.add_control_point(at(0, 0));
    m.add_control_point(at(100_000, 0));
    let t1 = follow_path(&mut m, 30_000);
    let t2 = follow_path(&mut m, 30_000);
    // The referenced flags are cleared at the start of every pass, so a
    // pass over an unchanged path repeats exactly.
    assert_eq!(t1, t2);
}

#[test]
fn pass_preserves_path_data() {
    let mut m = PathModel::new(10);
    m.add_control_point(at(0, 0));
    m.add_control_point(at(30, 0));
    let before: Vec<(i64, i64)> = m.get_path_poses().iter().map(|p| (p.pose.x, p.pose.y)).collect();
    let controls_before = m.get_control_points().clone();
    let _ = follow_path(&mut m, 25);
    let after: Vec<(i64, i64)> = m.get_path_poses().iter().map(|p| (p.pose.x, p.pose.y)).collect();
    assert_eq!(before, after);
    assert_eq!(&controls_before, m.get_control_points());
}
