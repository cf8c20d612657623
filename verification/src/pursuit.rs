use vstd::prelude::*;
use crate::geometry::{Point, in_bounds, coords, dist2, div_trunc, scale_component};
use crate::path::{PathModel, PathPose};

verus! {

/// Divisor of the proportional gain applied each iteration: the follower
/// moves toward its goal by the displacement divided by this constant,
/// truncated toward zero — a coordinate gap smaller than the divisor
/// produces no movement, so callers pick units fine enough to resolve it.
pub const GAIN_DIVISOR: i64 = 100;

/// Default bound on the number of iterations of one following pass.
pub const ITERATION_CAP: usize = 10000;

/// Ghost state of one following pass after some number of iterations.
pub ghost struct PassState {
    /// Position of the follower.
    pub turtle: (int, int),
    /// Index of the pose currently pursued.
    pub goal: int,
    /// Which poses have been marked as referenced so far.
    pub flags: Seq<bool>,
    /// Follower positions recorded after each iteration.
    pub trajectory: Seq<(int, int)>,
    /// Goal index in effect at each iteration.
    pub goals: Seq<int>,
    /// Whether the pass has reached the final pose.
    pub done: bool,
}

/// The coordinates of each pose in a sequence.
pub open spec fn pose_coords(poses: Seq<PathPose>) -> Seq<(int, int)> {
    Seq::new(poses.len(), |i: int| coords(poses[i].pose))
}

/// The referenced flag of each pose in a sequence.
pub open spec fn pose_flags(poses: Seq<PathPose>) -> Seq<bool> {
    Seq::new(poses.len(), |i: int| poses[i].already_referenced)
}

/// Whether a pose lies strictly within the lookahead radius of the turtle.
pub open spec fn within_lookahead(p: (int, int), turtle: (int, int), r: int) -> bool {
    r >= 0 && dist2(p, turtle) < r * r
}

/// The first index at or after `i` of a pose within the lookahead radius
/// whose flag is clear; the tie-break is sequence order, not distance.
pub open spec fn find_goal_from(
    cs: Seq<(int, int)>,
    flags: Seq<bool>,
    turtle: (int, int),
    r: int,
    i: int,
) -> Option<int>
    decreases cs.len() - i,
{
    if i < 0 || i >= cs.len() {
        None
    } else if within_lookahead(cs[i], turtle, r) && !flags[i] {
        Some(i)
    } else {
        find_goal_from(cs, flags, turtle, r, i + 1)
    }
}

/// The initial state of a pass over a non-empty pose sequence: flags
/// cleared, turtle at the first pose, goal index zero.
pub open spec fn pass_init(cs: Seq<(int, int)>) -> PassState {
    PassState {
        turtle: cs[0],
        goal: 0,
        flags: Seq::new(cs.len(), |i: int| false),
        trajectory: Seq::empty(),
        goals: Seq::empty(),
        done: false,
    }
}

/// One iteration of a pass: search for the first eligible goal, marking
/// the prior goal (not the newly found one) when a new goal is selected;
/// advance the turtle toward the goal by the proportional gain; record the
/// position; stop once the goal pose coincides with the final pose.
pub open spec fn pass_step(cs: Seq<(int, int)>, r: int, s: PassState) -> PassState {
    if s.done {
        s
    } else {
        let picked = find_goal_from(cs, s.flags, s.turtle, r, 0);
        let flags1 = match picked {
            Some(_) => s.flags.update(s.goal, true),
            None => s.flags,
        };
        let goal1 = match picked {
            Some(i) => i,
            None => s.goal,
        };
        let tx = s.turtle.0 + div_trunc(cs[goal1].0 - s.turtle.0, GAIN_DIVISOR as int);
        let ty = s.turtle.1 + div_trunc(cs[goal1].1 - s.turtle.1, GAIN_DIVISOR as int);
        PassState {
            turtle: (tx, ty),
            goal: goal1,
            flags: flags1,
            trajectory: s.trajectory.push((tx, ty)),
            goals: s.goals.push(goal1),
            done: cs[goal1] == cs[cs.len() - 1],
        }
    }
}

/// The state of a pass after `k` iterations.
pub open spec fn pass_run(cs: Seq<(int, int)>, r: int, k: nat) -> PassState
    decreases k,
{
    if k == 0 {
        pass_init(cs)
    } else {
        pass_step(cs, r, pass_run(cs, r, (k - 1) as nat))
    }
}

/// What goal search returns: the first match in sequence order, with no
/// eligible pose before it; or no match at all.
pub proof fn lemma_find_goal_from(
    cs: Seq<(int, int)>,
    flags: Seq<bool>,
    turtle: (int, int),
    r: int,
    i: int,
)
    requires
        0 <= i <= cs.len(),
    ensures
        match find_goal_from(cs, flags, turtle, r, i) {
            Some(g) => i <= g < cs.len() && within_lookahead(cs[g], turtle, r) && !flags[g]
                && forall|m: int|
                i <= m < g ==> !(within_lookahead(#[trigger] cs[m], turtle, r) && !flags[m]),
            None => forall|m: int|
                i <= m < cs.len() ==> !(within_lookahead(#[trigger] cs[m], turtle, r)
                    && !flags[m]),
        },
    decreases cs.len() - i,
{
    if i < cs.len() {
        if !(within_lookahead(cs[i], turtle, r) && !flags[i]) {
            lemma_find_goal_from(cs, flags, turtle, r, i + 1);
        }
    }
}

/// Once a pass is done its state never changes again.
pub proof fn lemma_pass_run_frozen(cs: Seq<(int, int)>, r: int, j: nat, k: nat)
    requires
        j <= k,
        pass_run(cs, r, j).done,
    ensures
        pass_run(cs, r, k) == pass_run(cs, r, j),
    decreases k,
{
    if k > j {
        lemma_pass_run_frozen(cs, r, j, (k - 1) as nat);
    }
}

/// Law: goal selection never moves backward while every pose before the
/// current goal is already referenced or outside the lookahead radius. In
/// a pass where this holds at each iteration, the goal index is
/// non-decreasing across the iterations.
pub proof fn lemma_goal_non_decreasing(cs: Seq<(int, int)>, r: int, k: nat)
    requires
        forall|j: int|
            0 <= j < pass_run(cs, r, k).goal ==> pass_run(cs, r, k).flags[j]
                || !within_lookahead(#[trigger] cs[j], pass_run(cs, r, k).turtle, r),
    ensures
        pass_run(cs, r, (k + 1) as nat).goal >= pass_run(cs, r, k).goal,
{
    let s = pass_run(cs, r, k);
    assert(pass_run(cs, r, (k + 1) as nat) == pass_step(cs, r, s));
    if !s.done {
        lemma_find_goal_from(cs, s.flags, s.turtle, r, 0);
        match find_goal_from(cs, s.flags, s.turtle, r, 0) {
            Some(g) => {
                if g < s.goal {
                    assert(within_lookahead(cs[g], s.turtle, r) && !s.flags[g]);
                    assert(false);
                }
            },
            None => {},
        }
    }
}

/// Law: across one pass the goal index is non-decreasing, as long as at
/// each iteration every pose before the current goal is already referenced
/// or outside the lookahead radius (a dense path with an adequate radius).
pub proof fn lemma_goal_monotone_over_pass(cs: Seq<(int, int)>, r: int, k1: nat, k2: nat)
    requires
        k1 <= k2,
        forall|k: nat|
            #![trigger pass_run(cs, r, k)]
            k1 <= k < k2 ==> (forall|j: int|
                0 <= j < pass_run(cs, r, k).goal ==> pass_run(cs, r, k).flags[j]
                    || !within_lookahead(#[trigger] cs[j], pass_run(cs, r, k).turtle, r)),
    ensures
        pass_run(cs, r, k2).goal >= pass_run(cs, r, k1).goal,
    decreases k2 - k1,
{
    if k2 > k1 {
        lemma_goal_monotone_over_pass(cs, r, k1, (k2 - 1) as nat);
        lemma_goal_non_decreasing(cs, r, (k2 - 1) as nat);
    }
}

/// Whether `p` is strictly within radius `r` of `t`.
fn within_lookahead_check(p: Point, t: Point, r: i64) -> (b: bool)
    requires
        in_bounds(p),
        in_bounds(t),
    ensures
        b == within_lookahead(coords(p), coords(t), r as int),
{
    if r >= 0 {
        let dx: i128 = (p.x as i128) - (t.x as i128);
        let dy: i128 = (p.y as i128) - (t.y as i128);
        proof {
            assert(dx * dx >= 0 && dx * dx <= 16_000_000_000_000_000_000 && dy * dy >= 0 && dy
                * dy <= 16_000_000_000_000_000_000) by (nonlinear_arith)
                requires
                    -4_000_000_000 <= dx <= 4_000_000_000,
                    -4_000_000_000 <= dy <= 4_000_000_000,
            ;
            assert((r as i128) * (r as i128) >= 0 && (r as i128) * (r as i128)
                <= 0x4000_0000_0000_0000_0000_0000_0000_0000) by (nonlinear_arith)
                requires
                    -0x8000_0000_0000_0000 <= r as i128 <= 0x8000_0000_0000_0000,
            ;
        }
        let d2: i128 = dx * dx + dy * dy;
        let rr: i128 = (r as i128) * (r as i128);
        d2 < rr
    } else {
        false
    }
}

/// The first pose within the lookahead radius of the turtle whose flag is
/// clear, scanning in sequence order.
fn find_goal(poses: &Vec<PathPose>, turtle: Point, r: i64) -> (res: Option<usize>)
    requires
        forall|i: int| 0 <= i < poses@.len() ==> in_bounds(#[trigger] poses@[i].pose),
        in_bounds(turtle),
    ensures
        match res {
            Some(i) => i < poses@.len() && find_goal_from(
                pose_coords(poses@),
                pose_flags(poses@),
                coords(turtle),
                r as int,
                0,
            ) == Some(i as int),
            None => find_goal_from(
                pose_coords(poses@),
                pose_flags(poses@),
                coords(turtle),
                r as int,
                0,
            ) is None,
        },
{
    let ghost cs = pose_coords(poses@);
    let ghost fl = pose_flags(poses@);
    let mut i: usize = 0;
    while i < poses.len()
        invariant
            i <= poses@.len(),
            forall|ii: int| 0 <= ii < poses@.len() ==> in_bounds(#[trigger] poses@[ii].pose),
            in_bounds(turtle),
            cs == pose_coords(poses@),
            fl == pose_flags(poses@),
            find_goal_from(cs, fl, coords(turtle), r as int, 0) == find_goal_from(
                cs,
                fl,
                coords(turtle),
                r as int,
                i as int,
            ),
        decreases poses@.len() - i,
    {
        let p = poses[i];
        if within_lookahead_check(p.pose, turtle, r) && !p.already_referenced {
            assert(find_goal_from(cs, fl, coords(turtle), r as int, i as int) == Some(i as int));
            return Some(i);
        }
        assert(find_goal_from(cs, fl, coords(turtle), r as int, i as int) == find_goal_from(
            cs,
            fl,
            coords(turtle),
            r as int,
            i as int + 1,
        ));
        i = i + 1;
    }
    None
}

/// The outcome of one following pass: the follower positions after each
/// iteration, and the goal index pursued at each iteration (the latter is
/// what a renderer draws as the goal-selection line).
pub struct PursuitRun {
    pub trajectory: Vec<Point>,
    pub goal_indices: Vec<usize>,
}

/// Runs one bounded following pass over the model's poses: flags are
/// cleared, the turtle starts at the first pose, and each iteration
/// searches for a goal, advances the turtle, and stops once the goal pose
/// coincides with the final pose. The result is exactly the trajectory of
/// the `pass_run` state machine; an empty path yields an empty trajectory.
pub fn run_pursuit(model: &mut PathModel, lookahead_radius: i64, iteration_cap: usize) -> (run:
    PursuitRun)
    requires
        old(model).wf(),
    ensures
        final(model).wf(),
        final(model).control_points@ == old(model).control_points@,
        final(model).interp_distance == old(model).interp_distance,
        final(model).path_poses@.len() == old(model).path_poses@.len(),
        forall|i: int|
            0 <= i < old(model).path_poses@.len() ==> (#[trigger] final(model).path_poses@[i]).pose
                == old(model).path_poses@[i].pose,
        run.goal_indices@.len() == run.trajectory@.len(),
        run.trajectory@.len() <= iteration_cap,
        old(model).path_poses@.len() == 0 ==> run.trajectory@.len() == 0 && final(model).path_poses@ == old(model).path_poses@,
        old(model).path_poses@.len() > 0 ==> {
            let st = pass_run(
                pose_coords(old(model).path_poses@),
                lookahead_radius as int,
                iteration_cap as nat,
            );
            &&& run.trajectory@.len() == st.trajectory.len()
            &&& forall|i: int|
                0 <= i < st.trajectory.len() ==> coords(#[trigger] run.trajectory@[i])
                    == st.trajectory[i]
            &&& run.goal_indices@.len() == st.goals.len()
            &&& forall|i: int|
                0 <= i < st.goals.len() ==> #[trigger] run.goal_indices@[i] as int == st.goals[i]
            &&& forall|i: int|
                0 <= i < old(model).path_poses@.len() ==> (#[trigger] final(model).path_poses@[i]).already_referenced == st.flags[i]
        },
{
    let n: usize = model.path_poses.len();
    let mut trajectory: Vec<Point> = Vec::new();
    let mut goal_indices: Vec<usize> = Vec::new();
    if n == 0 {
        return PursuitRun { trajectory, goal_indices };
    }

    // Clear all the referenced markers from the previous pass.
    let mut j: usize = 0;
    while j < n
        invariant
            j <= n,
            model.control_points@ == old(model).control_points@,
            model.control_pose_index@ == old(model).control_pose_index@,
            model.interp_distance == old(model).interp_distance,
            model.path_poses@.len() == n,
            old(model).path_poses@.len() == n,
            forall|ii: int|
                0 <= ii < n ==> (#[trigger] model.path_poses@[ii]).pose == old(
                    model,
                ).path_poses@[ii].pose,
            forall|ii: int| 0 <= ii < j ==> !(#[trigger] model.path_poses@[ii]).already_referenced,
        decreases n - j,
    {
        let cleared = PathPose::new(model.path_poses[j].pose);
        model.path_poses.set(j, cleared);
        j = j + 1;
    }

    let ghost cs = pose_coords(model.path_poses@);
    let ghost rr = lookahead_radius as int;
    proof {
        assert(cs =~= pose_coords(old(model).path_poses@));
        assert(pose_flags(model.path_poses@) =~= pass_init(cs).flags);
    }

    let mut turtle: Point = model.path_poses[0].pose;
    let mut goal: usize = 0;
    let mut k: usize = 0;

    assert(coords(turtle) == pass_run(cs, rr, 0nat).turtle);

    while k < iteration_cap
        invariant_except_break
            k <= iteration_cap,
            n > 0,
            rr == lookahead_radius as int,
            old(model).path_poses@.len() == n,
            model.control_points@ == old(model).control_points@,
            model.control_pose_index@ == old(model).control_pose_index@,
            model.interp_distance == old(model).interp_distance,
            model.path_poses@.len() == n,
            forall|ii: int|
                0 <= ii < n ==> (#[trigger] model.path_poses@[ii]).pose == old(
                    model,
                ).path_poses@[ii].pose,
            forall|ii: int| 0 <= ii < n ==> in_bounds((#[trigger] model.path_poses@[ii]).pose),
            cs == pose_coords(model.path_poses@),
            in_bounds(turtle),
            (goal as int) < n,
            coords(turtle) == pass_run(cs, rr, k as nat).turtle,
            goal as int == pass_run(cs, rr, k as nat).goal,
            pose_flags(model.path_poses@) == pass_run(cs, rr, k as nat).flags,
            trajectory@.len() == k,
            trajectory@.len() == pass_run(cs, rr, k as nat).trajectory.len(),
            forall|ii: int|
                0 <= ii < k ==> coords(#[trigger] trajectory@[ii]) == pass_run(
                    cs,
                    rr,
                    k as nat,
                ).trajectory[ii],
            goal_indices@.len() == k,
            goal_indices@.len() == pass_run(cs, rr, k as nat).goals.len(),
            forall|ii: int|
                0 <= ii < k ==> (#[trigger] goal_indices@[ii]) as int == pass_run(
                    cs,
                    rr,
                    k as nat,
                ).goals[ii],
            !pass_run(cs, rr, k as nat).done,
        ensures
            model.control_points@ == old(model).control_points@,
            model.control_pose_index@ == old(model).control_pose_index@,
            model.interp_distance == old(model).interp_distance,
            model.path_poses@.len() == n,
            forall|ii: int|
                0 <= ii < n ==> (#[trigger] model.path_poses@[ii]).pose == old(
                    model,
                ).path_poses@[ii].pose,
            pose_flags(model.path_poses@) == pass_run(cs, rr, iteration_cap as nat).flags,
            trajectory@.len() == pass_run(cs, rr, iteration_cap as nat).trajectory.len(),
            trajectory@.len() <= iteration_cap,
            forall|ii: int|
                0 <= ii < trajectory@.len() ==> coords(#[trigger] trajectory@[ii]) == pass_run(
                    cs,
                    rr,
                    iteration_cap as nat,
                ).trajectory[ii],
            goal_indices@.len() == trajectory@.len(),
            goal_indices@.len() == pass_run(cs, rr, iteration_cap as nat).goals.len(),
            forall|ii: int|
                0 <= ii < goal_indices@.len() ==> (#[trigger] goal_indices@[ii]) as int == pass_run(
                    cs,
                    rr,
                    iteration_cap as nat,
                ).goals[ii],
        decreases iteration_cap - k,
    {
        let ghost st = pass_run(cs, rr, k as nat);
        let ghost st1 = pass_step(cs, rr, st);
        proof {
            assert(pass_run(cs, rr, (k + 1) as nat) == st1);
        }

        // Find the best goal for the turtle.
        let picked = find_goal(&model.path_poses, turtle, lookahead_radius);
        match picked {
            Some(i) => {
                // Mark the prior goal as referenced, then select the new one.
                let prior = model.path_poses[goal];
                model.path_poses.set(
                    goal,
                    PathPose { pose: prior.pose, already_referenced: true },
                );
                proof {
                    assert(pose_flags(model.path_poses@) =~= st.flags.update(st.goal, true));
                    assert(cs =~= pose_coords(model.path_poses@));
                }
                goal = i;
            },
            None => {},
        }
        proof {
            assert(goal as int == st1.goal);
            assert(pose_flags(model.path_poses@) == st1.flags);
        }

        // Move the turtle toward the goal by the proportional gain.
        let gp: Point = model.path_poses[goal].pose;
        proof {
            assert(coords(gp) == cs[goal as int]);
        }
        let mx: i64 = scale_component(gp.x - turtle.x, 1, GAIN_DIVISOR);
        let my: i64 = scale_component(gp.y - turtle.y, 1, GAIN_DIVISOR);
        proof {
            assert((gp.x - turtle.x) as int * 1 == gp.x - turtle.x);
            assert((gp.y - turtle.y) as int * 1 == gp.y - turtle.y);
        }
        turtle = Point { x: turtle.x + mx, y: turtle.y + my };
        trajectory.push(turtle);
        goal_indices.push(goal);
        k = k + 1;
        proof {
            assert(coords(turtle) == st1.turtle);
            assert(trajectory@.len() == st1.trajectory.len());
        }

        // If the goal is the last pose, the pass is complete.
        let last: Point = model.path_poses[n - 1].pose;
        if gp.x == last.x && gp.y == last.y {
            proof {
                assert(cs[goal as int] == cs[n - 1]);
                assert(st1.done);
                lemma_pass_run_frozen(cs, rr, k as nat, iteration_cap as nat);
            }
            break;
        }
        proof {
            assert(cs[goal as int] != cs[n - 1]);
            assert(!st1.done);
        }
    }

    proof {
        assert(pose_coords(old(model).path_poses@) =~= cs);
        // Well-formedness is preserved: only the referenced flags changed.
        assert forall|kk: int| 0 <= kk < model.control_points@.len() implies model.path_poses@[
            #[trigger] model.control_pose_index@[kk]].pose == model.control_points@[kk] by {
            let pi = model.control_pose_index@[kk];
            assert(model.path_poses@[pi].pose == old(model).path_poses@[pi].pose);
        }
        assert forall|ii: int| 0 <= ii < model.path_poses@.len() implies in_bounds(
            (#[trigger] model.path_poses@[ii]).pose,
        ) by {
            assert(model.path_poses@[ii].pose == old(model).path_poses@[ii].pose);
        }
        assert(model.wf());
    }
    PursuitRun { trajectory, goal_indices }
}

/// One following pass at the default iteration cap, returning only the
/// follower trajectory. An empty path yields an empty trajectory.
pub fn follow_path(model: &mut PathModel, lookahead_radius: i64) -> (trajectory: Vec<Point>)
    requires
        old(model).wf(),
    ensures
        final(model).wf(),
        final(model).control_points@ == old(model).control_points@,
        final(model).interp_distance == old(model).interp_distance,
        final(model).path_poses@.len() == old(model).path_poses@.len(),
        forall|i: int|
            0 <= i < old(model).path_poses@.len() ==> (#[trigger] final(model).path_poses@[i]).pose
                == old(model).path_poses@[i].pose,
        trajectory@.len() <= ITERATION_CAP,
        old(model).path_poses@.len() == 0 ==> trajectory@.len() == 0,
        old(model).path_poses@.len() > 0 ==> {
            let st = pass_run(
                pose_coords(old(model).path_poses@),
                lookahead_radius as int,
                ITERATION_CAP as nat,
            );
            &&& trajectory@.len() == st.trajectory.len()
            &&& forall|i: int|
                0 <= i < st.trajectory.len() ==> coords(#[trigger] trajectory@[i])
                    == st.trajectory[i]
            &&& forall|i: int|
                0 <= i < old(model).path_poses@.len() ==> (#[trigger] final(model).path_poses@[i]).already_referenced == st.flags[i]
        },
{
    let run = run_pursuit(model, lookahead_radius, ITERATION_CAP);
    run.trajectory
}

} // verus!
