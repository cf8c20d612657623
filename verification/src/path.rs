use vstd::prelude::*;
use crate::geometry::{
    Point, COORD_LIMIT, in_bounds, coords, dist2, div_trunc, sqrt_floor,
    lemma_sqrt_floor, isqrt64, ceil_div, scale_component,
};
use vstd::arithmetic::div_mod::lemma_fundamental_div_mod;

verus! {

/// Target spacing between consecutive path poses, in coordinate units.
pub const POSE_INTERPOLATE_DISTANCE: i64 = 10;

/// A pose on the densified path: a coordinate plus a flag recording
/// whether it has been chosen as a pursuit goal in the current pass.
#[derive(Clone, Copy, PartialEq, Eq, Structural, Debug)]
pub struct PathPose {
    pub pose: Point,
    pub already_referenced: bool,
}

impl PathPose {
    pub fn new(pose: Point) -> (r: PathPose)
        ensures
            r.pose == pose,
            !r.already_referenced,
    {
        PathPose { pose, already_referenced: false }
    }

    pub fn set_referenced(&mut self)
        ensures
            final(self).pose == old(self).pose,
            final(self).already_referenced,
    {
        self.already_referenced = true;
    }
}

/// Number of in-fill poses for a span of length `norm` at spacing `d`:
/// the ceiling of `norm / d`.
pub open spec fn interp_count(norm: int, d: int) -> int {
    (norm + d - 1) / d
}

/// Arc length of the displacement between two points: the floor of its
/// Euclidean norm.
pub open spec fn span_norm(last: Point, target: Point) -> int {
    sqrt_floor(dist2(coords(last), coords(target)))
}

/// Coordinates of the `i`-th in-fill pose between `last` and `target`:
/// `last` offset by the displacement scaled to arc length `d * i`. The
/// component offsets truncate toward zero, so an in-fill pose lies within
/// one unit of the exact point on the real segment, never beyond it.
pub open spec fn infill_coords(last: Point, target: Point, d: int, i: int) -> (int, int) {
    let norm = span_norm(last, target);
    (last.x + div_trunc((target.x - last.x) * (d * i), norm),
        last.y + div_trunc((target.y - last.y) * (d * i), norm))
}

/// The `i`-th in-fill pose between `last` and `target` at spacing `d`.
pub open spec fn infill_pose(last: Point, target: Point, d: int, i: int) -> PathPose {
    let c = infill_coords(last, target, d, i);
    PathPose { pose: Point { x: c.0 as i64, y: c.1 as i64 }, already_referenced: false }
}

/// The pose sequence after appending control point `point` at spacing `d`:
/// the first point contributes only itself; a duplicate of the last stored
/// pose is appended without interpolation; otherwise, with `n` the ceiling
/// of `norm / d`, the in-fill poses at arc lengths `d * i` for `i` in
/// `1..n` are appended, and then the exact control point.
pub open spec fn poses_after_add(old_poses: Seq<PathPose>, d: int, point: Point) -> Seq<PathPose> {
    if old_poses.len() == 0 {
        old_poses.push(PathPose { pose: point, already_referenced: false })
    } else {
        let last = old_poses.last().pose;
        if last == point {
            old_poses.push(PathPose { pose: point, already_referenced: false })
        } else {
            let n = interp_count(span_norm(last, point), d);
            old_poses + Seq::new((n - 1) as nat, |i: int| infill_pose(last, point, d, i + 1))
                + seq![(PathPose { pose: point, already_referenced: false })]
        }
    }
}

/// The shared path model: the user-placed control points and the densified
/// pose sequence built from them.
pub struct PathModel {
    pub control_points: Vec<Point>,
    pub path_poses: Vec<PathPose>,
    pub interp_distance: i64,
    pub control_pose_index: Ghost<Seq<int>>,
}

impl PathModel {
    /// Well-formedness: the spacing is positive and bounded, every stored
    /// coordinate is in bounds, and each control point is matched, in
    /// order, by a pose with exactly its coordinate.
    pub open spec fn wf(&self) -> bool {
        &&& 1 <= self.interp_distance <= COORD_LIMIT
        &&& forall|i: int|
            0 <= i < self.path_poses@.len() ==> in_bounds(#[trigger] self.path_poses@[i].pose)
        &&& forall|k: int|
            0 <= k < self.control_points@.len() ==> in_bounds(#[trigger] self.control_points@[k])
        &&& self.control_pose_index@.len() == self.control_points@.len()
        &&& forall|k: int|
            0 <= k < self.control_points@.len() ==> 0 <= #[trigger] self.control_pose_index@[k]
                < self.path_poses@.len()
        &&& forall|k: int|
            0 <= k < self.control_points@.len()
                ==> self.path_poses@[#[trigger] self.control_pose_index@[k]].pose
                == self.control_points@[k]
        &&& forall|k1: int, k2: int|
            #![trigger self.control_pose_index@[k1], self.control_pose_index@[k2]]
            0 <= k1 < k2 < self.control_points@.len()
                ==> self.control_pose_index@[k1] < self.control_pose_index@[k2]
    }

    /// An empty path model with the given interpolation distance.
    pub fn new(interp_distance: i64) -> (m: PathModel)
        requires
            1 <= interp_distance <= COORD_LIMIT,
        ensures
            m.wf(),
            m.control_points@.len() == 0,
            m.path_poses@.len() == 0,
            m.interp_distance == interp_distance,
    {
        PathModel {
            control_points: Vec::new(),
            path_poses: Vec::new(),
            interp_distance,
            control_pose_index: Ghost(Seq::empty()),
        }
    }

    /// Clears both sequences atomically.
    pub fn reset(&mut self)
        requires
            old(self).wf(),
        ensures
            final(self).wf(),
            final(self).control_points@.len() == 0,
            final(self).path_poses@.len() == 0,
            final(self).interp_distance == old(self).interp_distance,
    {
        self.control_points.clear();
        self.path_poses.clear();
        self.control_pose_index = Ghost(Seq::empty());
    }

    /// The control points, for rendering.
    pub fn get_control_points(&self) -> (r: &Vec<Point>)
        ensures
            r@ == self.control_points@,
    {
        &self.control_points
    }

    /// The path poses, for rendering.
    pub fn get_path_poses(&self) -> (r: &Vec<PathPose>)
        ensures
            r@ == self.path_poses@,
    {
        &self.path_poses
    }

    /// Appends a control point and densifies the path up to it: the new
    /// pose sequence is exactly `poses_after_add` of the old one.
    #[verifier::loop_isolation(false)]
    pub fn add_control_point(&mut self, point: Point)
        requires
            old(self).wf(),
            in_bounds(point),
        ensures
            final(self).wf(),
            final(self).interp_distance == old(self).interp_distance,
            final(self).control_points@ == old(self).control_points@.push(point),
            final(self).path_poses@ == poses_after_add(
                old(self).path_poses@,
                old(self).interp_distance as int,
                point,
            ),
    {
        self.control_points.push(point);
        let ghost opp = old(self).path_poses@;
        let ghost d = self.interp_distance as int;

        if self.path_poses.len() == 0 {
            self.path_poses.push(PathPose::new(point));
            proof {
                self.control_pose_index@ = self.control_pose_index@.push(0);
                assert(self.path_poses@ =~= poses_after_add(opp, d, point));
            }
            return;
        }

        let lastp: Point = self.path_poses[self.path_poses.len() - 1].pose;
        assert(lastp == opp.last().pose);

        if lastp.x == point.x && lastp.y == point.y {
            self.path_poses.push(PathPose::new(point));
            proof {
                self.control_pose_index@ = self.control_pose_index@.push(opp.len() as int);
                assert(lastp == point);
                assert(self.path_poses@ =~= poses_after_add(opp, d, point));
            }
            return;
        }

        let dx: i64 = point.x - lastp.x;
        let dy: i64 = point.y - lastp.y;
        proof {
            assert(dx * dx <= 4_000_000_000_000_000_000 && dy * dy <= 4_000_000_000_000_000_000
                && dx * dx >= 0 && dy * dy >= 0 && (dx != 0 ==> dx * dx >= 1) && (dy != 0
                ==> dy * dy >= 1)) by (nonlinear_arith)
                requires
                    -2_000_000_000 <= dx <= 2_000_000_000,
                    -2_000_000_000 <= dy <= 2_000_000_000,
            ;
        }
        let norm2: i64 = dx * dx + dy * dy;
        assert(norm2 >= 1);
        let norm_u: u64 = isqrt64(norm2 as u64);
        proof {
            assert(norm_u as int * norm_u as int <= norm2 as int);
            assert(norm_u < 3_000_000_000) by (nonlinear_arith)
                requires
                    norm_u as int * norm_u as int <= 8_000_000_000_000_000_000,
                    norm_u >= 0,
            ;
            assert(norm_u >= 1) by {
                if norm_u == 0 {
                    assert((norm2 as int) < (norm_u as int + 1) * (norm_u as int + 1));
                    assert((norm_u as int + 1) * (norm_u as int + 1) == 1) by (nonlinear_arith)
                        requires
                            norm_u as int == 0,
                    ;
                    assert(false);
                }
            }
        }
        let norm: i64 = norm_u as i64;
        let ghost snorm = span_norm(lastp, point);
        proof {
            assert((lastp.x as int - point.x as int) * (lastp.x as int - point.x as int)
                == (dx as int) * (dx as int) && (lastp.y as int - point.y as int) * (lastp.y as int
                - point.y as int) == (dy as int) * (dy as int)) by (nonlinear_arith)
                requires
                    dx as int == point.x as int - lastp.x as int,
                    dy as int == point.y as int - lastp.y as int,
            ;
            assert(norm2 as int == dist2(coords(lastp), coords(point)));
            assert(norm as int == snorm);
        }
        let n: u64 = ceil_div(norm_u, self.interp_distance as u64);
        let ghost cnt = interp_count(snorm, d);
        let ghost dcnt = d * cnt;
        proof {
            assert(n as int == cnt);
            // d * (cnt - 1) < snorm <= d * cnt, from the fundamental property
            // of division applied to (snorm + d - 1) / d.
            lemma_fundamental_div_mod(snorm + d - 1, d);
            assert(d * (cnt - 1) == dcnt - d) by (nonlinear_arith)
                requires
                    dcnt == d * cnt,
            ;
            assert(dcnt - d < snorm <= dcnt);
            assert(cnt - 1 <= d * (cnt - 1)) by (nonlinear_arith)
                requires
                    d >= 1,
                    cnt >= 1,
            ;
            assert(n < 3_000_000_000);
        }

        let ghost base = self.path_poses@.len() as int;
        let mut i: u64 = 1;
        while i < n
            invariant
                1 <= i <= n,
                self.control_points@ == old(self).control_points@.push(point),
                self.control_pose_index@ == old(self).control_pose_index@,
                self.interp_distance == old(self).interp_distance,
                self.path_poses@.len() == base + i - 1,
                forall|j: int| 0 <= j < base ==> self.path_poses@[j] == opp[j],
                forall|j: int|
                    base <= j < base + i - 1 ==> self.path_poses@[j] == infill_pose(
                        lastp,
                        point,
                        d,
                        j - base + 1,
                    ),
                forall|j: int|
                    base <= j < base + i - 1 ==> in_bounds(#[trigger] self.path_poses@[j].pose),
            decreases n - i,
        {
            proof {
                assert(d * (i as int) <= d * (cnt - 1)) by (nonlinear_arith)
                    requires
                        d >= 1,
                        1 <= i as int <= cnt - 1,
                ;
            }
            let t: i64 = self.interp_distance * (i as i64);
            let ox: i64 = scale_component(dx, t, norm);
            let oy: i64 = scale_component(dy, t, norm);
            let p = Point { x: lastp.x + ox, y: lastp.y + oy };
            proof {
                assert(p == infill_pose(lastp, point, d, i as int).pose);
            }
            self.path_poses.push(PathPose::new(p));
            i = i + 1;
        }

        self.path_poses.push(PathPose::new(point));
        proof {
            self.control_pose_index@ = self.control_pose_index@.push(base + cnt - 1);
            let target = poses_after_add(opp, d, point);
            let newp = self.path_poses@;
            assert(newp.len() == base + cnt);
            assert(target.len() == base + cnt);
            assert forall|j: int| 0 <= j < newp.len() implies newp[j] == target[j] by {
                if j < base {
                    assert(newp[j] == opp[j]);
                    assert(target[j] == opp[j]);
                } else if j < base + cnt - 1 {
                    assert(newp[j] == infill_pose(lastp, point, d, j - base + 1));
                    assert(target[j] == infill_pose(lastp, point, d, j - base + 1));
                } else {
                    assert(j == base + cnt - 1);
                    assert(newp[j] == (PathPose { pose: point, already_referenced: false }));
                    assert(target[j] == (PathPose { pose: point, already_referenced: false }));
                }
            }
            assert(newp =~= target);
            let newc = self.control_points@;
            let newi = self.control_pose_index@;
            let oldi = old(self).control_pose_index@;
            assert forall|ii: int| 0 <= ii < newp.len() implies in_bounds(
                #[trigger] newp[ii].pose,
            ) by {
                if ii < base {
                    assert(newp[ii] == opp[ii]);
                    assert(in_bounds(opp[ii].pose));
                } else if ii < base + cnt - 1 {
                    assert(newp[ii] == infill_pose(lastp, point, d, ii - base + 1));
                }
            }
            assert forall|k: int| 0 <= k < newc.len() implies 0 <= #[trigger] newi[k]
                < newp.len() by {
                if k < newc.len() - 1 {
                    assert(newi[k] == oldi[k]);
                    assert(oldi[k] < base);
                }
            }
            assert forall|k: int| 0 <= k < newc.len() implies newp[#[trigger] newi[k]].pose
                == newc[k] by {
                if k < newc.len() - 1 {
                    assert(newi[k] == oldi[k]);
                    assert(newp[oldi[k]] == opp[oldi[k]]);
                } else {
                    assert(newi[k] == base + cnt - 1);
                }
            }
            assert forall|k1: int, k2: int|
                #![trigger newi[k1], newi[k2]]
                0 <= k1 < k2 < newc.len() implies newi[k1] < newi[k2] by {
                if k2 == newc.len() - 1 {
                    assert(newi[k1] == oldi[k1]);
                    assert(oldi[k1] < base);
                    assert(newi[k2] == base + cnt - 1);
                } else {
                    assert(newi[k1] == oldi[k1] && newi[k2] == oldi[k2]);
                }
            }
        }
    }
}

/// Law: in a well-formed model there are at least as many poses as control
/// points, and every control point is matched by a pose with exactly its
/// coordinate.
pub proof fn lemma_control_points_covered(m: &PathModel)
    requires
        m.wf(),
    ensures
        m.path_poses@.len() >= m.control_points@.len(),
        forall|k: int|
            #![trigger m.control_points@[k]]
            0 <= k < m.control_points@.len() ==> exists|i: int|
                0 <= i < m.path_poses@.len() && (#[trigger] m.path_poses@[i]).pose
                    == m.control_points@[k],
{
    let idx = m.control_pose_index@;
    if m.control_points@.len() > 0 {
        lemma_increasing_indices(idx, m.control_points@.len() - 1);
    }
    assert forall|k: int| #![trigger m.control_points@[k]] 0 <= k < m.control_points@.len()
        implies exists|i: int|
        0 <= i < m.path_poses@.len() && (#[trigger] m.path_poses@[i]).pose
            == m.control_points@[k] by {
        let i = idx[k];
        assert(0 <= i < m.path_poses@.len() && m.path_poses@[i].pose == m.control_points@[k]);
    }
}

/// A strictly increasing sequence of non-negative integers grows at least
/// as fast as its position.
proof fn lemma_increasing_indices(s: Seq<int>, k: int)
    requires
        forall|k1: int, k2: int|
            #![trigger s[k1], s[k2]]
            0 <= k1 < k2 < s.len() ==> s[k1] < s[k2],
        forall|j: int| 0 <= j < s.len() ==> #[trigger] s[j] >= 0,
        0 <= k < s.len(),
    ensures
        s[k] >= k,
    decreases k,
{
    if k > 0 {
        lemma_increasing_indices(s, k - 1);
    }
}

/// Law: along one span the poses sit at arc lengths exactly one spacing
/// apart — the anchor pose at zero, then in-fill poses at `d`, `2 * d`,
/// and so on — and the final sub-segment from the last in-fill pose to
/// the control point is positive and no longer than the spacing.
pub proof fn lemma_infill_spacing(last: Point, target: Point, d: int)
    requires
        1 <= d,
        in_bounds(last),
        in_bounds(target),
        last != target,
    ensures
        1 <= span_norm(last, target),
        1 <= interp_count(span_norm(last, target), d),
        forall|i: int|
            1 <= i < interp_count(span_norm(last, target), d) ==> (#[trigger] (d * i)) - d * (i - 1)
                == d,
        0 < span_norm(last, target) - d * (interp_count(span_norm(last, target), d) - 1) <= d,
{
    let n2 = dist2(coords(last), coords(target));
    assert(n2 >= 1) by (nonlinear_arith)
        requires
            n2 == (last.x - target.x) * (last.x - target.x) + (last.y - target.y) * (last.y
                - target.y),
            last.x != target.x || last.y != target.y,
    ;
    lemma_sqrt_floor(n2);
    let s = span_norm(last, target);
    assert(s >= 1) by {
        if s == 0 {
            assert(n2 < (0 + 1) * (0 + 1));
        }
    }
    let cnt = interp_count(s, d);
    lemma_fundamental_div_mod(s + d - 1, d);
    assert(d * cnt - d <= s - 1 && s <= d * cnt);
    assert(d * (cnt - 1) == d * cnt - d) by (nonlinear_arith);
    assert(cnt >= 1) by {
        if cnt <= 0 {
            assert(d * cnt <= 0) by (nonlinear_arith)
                requires
                    d >= 1,
                    cnt <= 0,
            ;
        }
    }
    assert forall|i: int| 1 <= i < cnt implies (#[trigger] (d * i)) - d * (i - 1) == d by {
        assert(d * i - d * (i - 1) == d) by (nonlinear_arith);
    }
}

} // verus!
