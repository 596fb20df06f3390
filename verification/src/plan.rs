//! Which curves, and which pairs of curves, the narrow phase is to look at.
use vstd::prelude::*;
use crate::collision_detection::{
    collides, collision_list, combined, lemma_collision_list, near, CollisionDetection,
};
use crate::sweep::{lemma_concat_contains, lemma_push_contains};

verus! {

/// One piece of work for the narrow phase.
#[derive(Clone, Copy, Debug, PartialEq, Eq, Structural)]
pub enum Task {
    /// Look for the point where the curve at this index crosses itself.
    Loop(usize),
    /// Intersect the curve at the first index, in the first sequence, with the
    /// curve at the second index, in the second sequence.
    Pair(usize, usize),
}

/// The tasks that curve `i` gives rise to, from the collision list `row`:
/// with `is_self` its own loop test comes first; then one pair for each entry
/// of the list, in the list's order, and with `is_self` only for the entries
/// above `i`.
pub open spec fn curve_tasks(i: int, row: Seq<i32>, is_self: bool) -> Seq<Task>
    decreases row.len(),
{
    if row.len() == 0 {
        if is_self {
            seq![Task::Loop(i as usize)]
        } else {
            Seq::empty()
        }
    } else {
        let rest = curve_tasks(i, row.drop_last(), is_self);
        if !is_self || row.last() > i {
            rest.push(Task::Pair(i as usize, row.last() as usize))
        } else {
            rest
        }
    }
}

/// The tasks of the first `n` curves, curve after curve.
pub open spec fn planned(
    a: Seq<[i64; 4]>,
    b: Seq<[i64; 4]>,
    is_self: bool,
    tolerance: int,
    n: nat,
) -> Seq<Task>
    decreases n,
{
    if n == 0 {
        Seq::empty()
    } else {
        planned(a, b, is_self, tolerance, (n - 1) as nat) + curve_tasks(
            n - 1,
            collision_list(a, b, is_self, tolerance, n - 1),
            is_self,
        )
    }
}

/// Appends to `tasks` the work of the narrow phase, in the order in which it
/// is to be done.
///
/// The boxes are those of the curves' control polygons. With `is_self` the
/// first sequence is matched against itself: each curve is tested for a loop,
/// and each pair of near curves is listed once, under its smaller index.
pub fn get_intersections(
    bounds1: &Vec<[i64; 4]>,
    bounds2: &Vec<[i64; 4]>,
    is_self: bool,
    tolerance: i64,
    tasks: &mut Vec<Task>,
)
    requires
        combined(bounds1@, bounds2@, is_self).len() <= i32::MAX,
    ensures
        final(tasks)@ == old(tasks)@ + planned(
            bounds1@,
            bounds2@,
            is_self,
            tolerance as int,
            bounds1@.len(),
        ),
{
    let ghost start = tasks@;
    let ghost a = bounds1@;
    let ghost b = bounds2@;
    let ghost tol = tolerance as int;
    let collisions = CollisionDetection::find_bounds_collisions(
        bounds1,
        bounds2,
        is_self,
        tolerance,
    );
    let mut i: usize = 0;
    while i < bounds1.len()
        invariant
            i <= bounds1.len(),
            a == bounds1@,
            a.len() <= i32::MAX,
            collisions.len() == a.len(),
            forall|x: int|
                0 <= x < collisions.len() ==> (#[trigger] collisions[x])@ == collision_list(
                    a,
                    b,
                    is_self,
                    tol,
                    x,
                ),
            forall|x: int, j: i32|
                0 <= x < collisions.len() ==> (#[trigger] collisions[x]@.contains(j) <==> collides(
                    a,
                    b,
                    is_self,
                    tol,
                    x,
                    j as int,
                )),
            tasks@ == start + planned(a, b, is_self, tol, i as nat),
        decreases bounds1.len() - i,
    {
        let ghost done = tasks@;
        if is_self {
            tasks.push(Task::Loop(i));
        }
        let row = &collisions[i];
        let mut n: usize = 0;
        while n < row.len()
            invariant
                n <= row.len(),
                i < a.len() <= i32::MAX,
                forall|j: i32| #[trigger] row@.contains(j) ==> 0 <= j,
                tasks@ == done + curve_tasks(i as int, row@.take(n as int), is_self),
            decreases row.len() - n,
        {
            let index = row[n];
            assert(row@.take(n + 1).drop_last() =~= row@.take(n as int));
            if !is_self || index > i as i32 {
                tasks.push(Task::Pair(i, index as usize));
            }
            n += 1;
        }
        assert(row@.take(row@.len() as int) =~= row@);
        i += 1;
    }
}

/// What `task` must be to stand among the tasks of curve `i`.
pub open spec fn is_task_of(task: Task, i: int, row: Seq<i32>, is_self: bool) -> bool {
    match task {
        Task::Loop(curve) => is_self && curve == i,
        Task::Pair(first, second) => first == i && second <= i32::MAX && row.contains(second as i32)
            && (!is_self || second > i),
    }
}

/// The tasks of curve `i` are those that `is_task_of` admits.
proof fn lemma_curve_tasks(i: int, row: Seq<i32>, is_self: bool, task: Task)
    requires
        0 <= i <= i32::MAX,
        forall|k: int| 0 <= k < row.len() ==> 0 <= #[trigger] row[k],
    ensures
        curve_tasks(i, row, is_self).contains(task) <==> is_task_of(task, i, row, is_self),
    decreases row.len(),
{
    let tasks = curve_tasks(i, row, is_self);
    if row.len() == 0 {
        if is_self {
            assert(tasks[0] == Task::Loop(i as usize));
        }
    } else {
        let rest_row = row.drop_last();
        let rest = curve_tasks(i, rest_row, is_self);
        lemma_curve_tasks(i, rest_row, is_self, task);
        let added = Task::Pair(i as usize, row.last() as usize);
        lemma_push_contains(rest, added, task);
        lemma_push_contains(rest_row, row.last(), row.last());
        assert(row =~= rest_row.push(row.last()));
        if let Task::Pair(first, second) = task {
            if second <= i32::MAX {
                lemma_push_contains(rest_row, row.last(), second as i32);
            }
        }
    }
}

/// The plan holds a loop test for each curve when a sequence is matched
/// against itself, and none otherwise. It holds the pair of `first` and
/// `second` exactly when `second` stands in the collision list of `first`,
/// and, within one sequence, lies above it.
pub proof fn lemma_planned_tasks(
    a: Seq<[i64; 4]>,
    b: Seq<[i64; 4]>,
    is_self: bool,
    tolerance: int,
    n: nat,
    task: Task,
)
    requires
        n <= a.len(),
        combined(a, b, is_self).len() <= i32::MAX,
    ensures
        planned(a, b, is_self, tolerance, n).contains(task) <==> match task {
            Task::Loop(curve) => is_self && curve < n,
            Task::Pair(first, second) => first < n && second <= i32::MAX && collision_list(
                a,
                b,
                is_self,
                tolerance,
                first as int,
            ).contains(second as i32) && (!is_self || second > first),
        },
    decreases n,
{
    if n > 0 {
        let i = n - 1;
        let row = collision_list(a, b, is_self, tolerance, i);
        lemma_planned_tasks(a, b, is_self, tolerance, (n - 1) as nat, task);
        lemma_collision_list(a, b, is_self, tolerance, i);
        assert forall|k: int| 0 <= k < row.len() implies 0 <= #[trigger] row[k] by {
            assert(row.contains(row[k]));
        }
        lemma_curve_tasks(i, row, is_self, task);
        lemma_concat_contains(
            planned(a, b, is_self, tolerance, (n - 1) as nat),
            curve_tasks(i, row, is_self),
            task,
        );
    }
}

/// Every pair that the narrow phase is handed was paired by the broad phase:
/// the boxes of its two curves are near.
pub proof fn lemma_planned_pairs_are_near(
    a: Seq<[i64; 4]>,
    b: Seq<[i64; 4]>,
    is_self: bool,
    tolerance: int,
    first: usize,
    second: usize,
)
    requires
        combined(a, b, is_self).len() <= i32::MAX,
        planned(a, b, is_self, tolerance, a.len()).contains(Task::Pair(first, second)),
    ensures
        first < a.len(),
        second < (if is_self {
            a.len()
        } else {
            b.len()
        }),
        collision_list(a, b, is_self, tolerance, first as int).contains(second as i32),
        near(
            a[first as int],
            if is_self {
                a[second as int]
            } else {
                b[second as int]
            },
            tolerance,
        ),
{
    lemma_planned_tasks(a, b, is_self, tolerance, a.len(), Task::Pair(first, second));
    lemma_collision_list(a, b, is_self, tolerance, first as int);
}

/// Between two sequences the plan does not depend on which comes first: the
/// pair of `i` and `j` is planned for `a` against `b` exactly when the pair of
/// `j` and `i` is planned for `b` against `a`.
pub proof fn lemma_plan_is_symmetric(
    a: Seq<[i64; 4]>,
    b: Seq<[i64; 4]>,
    tolerance: int,
    i: usize,
    j: usize,
)
    requires
        a.len() + b.len() <= i32::MAX,
    ensures
        planned(a, b, false, tolerance, a.len()).contains(Task::Pair(i, j)) <==> planned(
            b,
            a,
            false,
            tolerance,
            b.len(),
        ).contains(Task::Pair(j, i)),
{
    lemma_planned_tasks(a, b, false, tolerance, a.len(), Task::Pair(i, j));
    lemma_planned_tasks(b, a, false, tolerance, b.len(), Task::Pair(j, i));
    if i < a.len() {
        lemma_collision_list(a, b, false, tolerance, i as int);
    }
    if j < b.len() {
        lemma_collision_list(b, a, false, tolerance, j as int);
    }
}

/// A sequence matched against itself plans no pair that the same sequence,
/// taken as two, would not plan: there each such pair stands both ways round.
pub proof fn lemma_self_plan_is_within_cross_plan(
    a: Seq<[i64; 4]>,
    tolerance: int,
    i: usize,
    j: usize,
)
    requires
        a.len() + a.len() <= i32::MAX,
        planned(a, a, true, tolerance, a.len()).contains(Task::Pair(i, j)),
    ensures
        i < j < a.len(),
        planned(a, a, false, tolerance, a.len()).contains(Task::Pair(i, j)),
        planned(a, a, false, tolerance, a.len()).contains(Task::Pair(j, i)),
{
    lemma_planned_tasks(a, a, true, tolerance, a.len(), Task::Pair(i, j));
    lemma_collision_list(a, a, true, tolerance, i as int);
    lemma_planned_tasks(a, a, false, tolerance, a.len(), Task::Pair(i, j));
    lemma_planned_tasks(a, a, false, tolerance, a.len(), Task::Pair(j, i));
    lemma_collision_list(a, a, false, tolerance, i as int);
    lemma_collision_list(a, a, false, tolerance, j as int);
}

/// A sequence taken as two plans each curve against itself, where the box of
/// the curve comes within the tolerance of itself: matched against itself it
/// plans a loop test of the curve in that pair's place.
pub proof fn lemma_cross_plan_pairs_each_curve_with_itself(a: Seq<[i64; 4]>, tolerance: int, i: usize)
    requires
        a.len() + a.len() <= i32::MAX,
        i < a.len(),
        near(a[i as int], a[i as int], tolerance),
    ensures
        planned(a, a, false, tolerance, a.len()).contains(Task::Pair(i, i)),
        planned(a, a, true, tolerance, a.len()).contains(Task::Loop(i)),
        !planned(a, a, true, tolerance, a.len()).contains(Task::Pair(i, i)),
{
    lemma_planned_tasks(a, a, false, tolerance, a.len(), Task::Pair(i, i));
    lemma_planned_tasks(a, a, true, tolerance, a.len(), Task::Loop(i));
    lemma_planned_tasks(a, a, true, tolerance, a.len(), Task::Pair(i, i));
    lemma_collision_list(a, a, false, tolerance, i as int);
}

} // verus!
