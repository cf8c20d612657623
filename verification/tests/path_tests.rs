use pure_pursuit::{PathModel, PathPose, Point, COORD_LIMIT};

fn pt(x: i64, y: i64) -> Point {
    Point::new(x, y)
}

fn pose_xy(p: &PathPose) -> (i64, i64) {
    (p.pose.x, p.pose.y)
}

fn all_coords(m: &PathModel) -> Vec<(i64, i64)> {
    m.get_path_poses().iter().map(pose_xy).collect()
}

#[test]
fn single_control_point() {
    let mut m = PathModel::new(10);
    m.add_control_point(pt(5, 5));
    assert_eq!(m.get_control_points().as_slice(), &[pt(5, 5)]);
    assert_eq!(all_coords(&m), vec![(5, 5)]);
    assert!(!m.get_path_poses()[0].already_referenced);
}

#[test]
fn two_points_interpolated() {
    let mut m = PathModel::new(10);
    m.add_control_point(pt(0, 0));
    m.add_control_point(pt(30, 0));
    assert_eq!(all_coords(&m), vec![(0, 0), (10, 0), (20, 0), (30, 0)]);
    assert_eq!(m.get_control_points().as_slice(), &[pt(0, 0), pt(30, 0)]);
}

#[test]
fn interpolation_spacing_with_short_tail() {
    let mut m = PathModel::new(10);
    m.add_control_point(pt(0, 0));
    m.add_control_point(pt(25, 0));
    let coords = all_coords(&m);
    assert_eq!(coords, vec![(0, 0), (10, 0), (20, 0), (25, 0)]);
    // Poses are spaced at the interpolation distance; only the final
    // sub-segment is shorter.
    assert_eq!(coords[1].0 - coords[0].0, 10);
    assert_eq!(coords[2].0 - coords[1].0, 10);
    assert!(coords[3].0 - coords[2].0 <= 10);
    assert!(coords[3].0 - coords[2].0 > 0);
}

#[test]
fn diagonal_exact_norm() {
    let mut m = PathModel::new(5);
    m.add_control_point(pt(0, 0));
    m.add_control_point(pt(3, 4));
    assert_eq!(all_coords(&m), vec![(0, 0), (3, 4)]);
}

#[test]
fn diagonal_truncated_offsets() {
    let mut m = PathModel::new(1);
    m.add_control_point(pt(0, 0));
    m.add_control_point(pt(3, 4));
    // Component offsets truncate toward zero, so the first in-fill pose
    // rounds back onto the anchor even though its arc length is one.
    assert_eq!(
        all_coords(&m),
        vec![(0, 0), (0, 0), (1, 1), (1, 2), (2, 3), (3, 4)]
    );
}

#[test]
fn duplicate_control_point_skips_interpolation() {
    let mut m = PathModel::new(10);
    m.add_control_point(pt(5, 5));
    m.add_control_point(pt(5, 5));
    assert_eq!(all_coords(&m), vec![(5, 5), (5, 5)]);
    assert_eq!(m.get_control_points().len(), 2);
}

#[test]
fn poses_cover_all_control_points() {
    let mut m = PathModel::new(10);
    let cps = [pt(0, 0), pt(30, 0), pt(30, 40), pt(-10, 40)];
    for c in cps {
        m.add_control_point(c);
    }
    let poses = all_coords(&m);
    assert!(poses.len() >= m.get_control_points().len());
    for c in m.get_control_points() {
        assert!(poses.contains(&(c.x, c.y)));
    }
}

#[test]
fn largest_coordinates() {
    let mut m = PathModel::new(COORD_LIMIT);
    m.add_control_point(pt(COORD_LIMIT, COORD_LIMIT));
    m.add_control_point(pt(-COORD_LIMIT, -COORD_LIMIT));
    let poses = all_coords(&m);
    assert_eq!(poses[0], (COORD_LIMIT, COORD_LIMIT));
    assert_eq!(*poses.last().unwrap(), (-COORD_LIMIT, -COORD_LIMIT));
    assert!(poses.len() >= 2);
}

#[test]
fn reset_clears_model() {
    let mut m = PathModel::new(10);
    m.add_control_point(pt(0, 0));
    m.add_control_point(pt(30, 0));
    m.reset();
    assert!(m.get_control_points().is_empty());
    assert!(m.get_path_poses().is_empty());
    // The model is usable again after a reset.
    m.add_control_point(pt(7, 7));
    assert_eq!(all_coords(&m), vec![(7, 7)]);
}

#[test]
fn pose_referenced_flag() {
    let mut p = PathPose::new(Point::new(1, 2));
    assert!(!p.already_referenced);
    p.set_referenced();
    assert!(p.already_referenced);
    assert_eq!((p.pose.x, p.pose.y), (1, 2));
}
