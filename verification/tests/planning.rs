//! The work that the broad phase hands to the narrow phase.
use intersections::{get_intersections, Task};

#[test]
fn tasks_of_two_sequences() {
    let a = vec![[0, 0, 10, 10], [20, 20, 30, 30], [100, 0, 110, 10]];
    let b = vec![[5, 5, 25, 25], [40, 40, 50, 50], [10, 10, 20, 20], [0, 11, 10, 20]];
    let mut tasks = Vec::new();
    get_intersections(&a, &b, false, 1, &mut tasks);
    assert_eq!(
        tasks,
        vec![Task::Pair(0, 0), Task::Pair(0, 2), Task::Pair(0, 3), Task::Pair(1, 0), Task::Pair(1, 2)]
    );
}

#[test]
fn tasks_of_one_sequence() {
    let a = vec![[0, 0, 10, 10], [5, 5, 15, 15], [12, 12, 20, 20], [0, 0, 1, 1]];
    let mut tasks = Vec::new();
    get_intersections(&a, &a, true, 0, &mut tasks);
    assert_eq!(
        tasks,
        vec![
            Task::Loop(0),
            Task::Pair(0, 1),
            Task::Pair(0, 3),
            Task::Loop(1),
            Task::Pair(1, 2),
            Task::Loop(2),
            Task::Loop(3),
        ]
    );
}

#[test]
fn tasks_are_appended() {
    let a = vec![[0, 0, 10, 10]];
    let mut tasks = vec![Task::Pair(7, 9), Task::Loop(3)];
    get_intersections(&a, &a, false, 0, &mut tasks);
    assert_eq!(tasks, vec![Task::Pair(7, 9), Task::Loop(3), Task::Pair(0, 0)]);
    get_intersections(&a, &a, true, 0, &mut tasks);
    assert_eq!(tasks, vec![Task::Pair(7, 9), Task::Loop(3), Task::Pair(0, 0), Task::Loop(0)]);
    get_intersections(&vec![], &a, false, 0, &mut tasks);
    assert_eq!(tasks.len(), 4);
}

fn pairs(a: &Vec<[i64; 4]>, b: &Vec<[i64; 4]>, is_self: bool, tolerance: i64) -> Vec<(usize, usize)> {
    let mut tasks = Vec::new();
    get_intersections(a, b, is_self, tolerance, &mut tasks);
    tasks
        .iter()
        .filter_map(|task| match task {
            Task::Pair(i, j) => Some((*i, *j)),
            Task::Loop(_) => None,
        })
        .collect()
}

#[test]
fn plan_of_two_sequences_does_not_depend_on_their_order() {
    let a = vec![[0, 0, 10, 10], [20, 20, 30, 30], [100, 0, 110, 10], [8, 8, 9, 9]];
    let b = vec![[5, 5, 25, 25], [40, 40, 50, 50], [10, 10, 20, 20], [0, 11, 10, 20]];
    let mut forward = pairs(&a, &b, false, 1);
    let mut backward: Vec<(usize, usize)> = pairs(&b, &a, false, 1).iter().map(|&(j, i)| (i, j)).collect();
    forward.sort();
    backward.sort();
    assert_eq!(forward, backward);
    assert_eq!(forward, vec![(0, 0), (0, 2), (0, 3), (1, 0), (1, 2), (3, 0), (3, 2)]);
}

#[test]
fn plan_of_one_sequence_lies_within_that_of_two() {
    let a = vec![[0, 0, 10, 10], [5, 5, 15, 15], [12, 12, 20, 20], [0, 0, 1, 1]];
    let own = pairs(&a, &a, true, 0);
    let cross = pairs(&a, &a, false, 0);
    assert_eq!(own, vec![(0, 1), (0, 3), (1, 2)]);
    for &(i, j) in &own {
        assert!(i < j);
        assert!(cross.contains(&(i, j)));
        assert!(cross.contains(&(j, i)));
    }
    assert_eq!(cross.len(), 2 * own.len() + a.len());
}

#[test]
fn every_planned_pair_was_paired_by_the_broad_phase() {
    let a = vec![[0, 0, 10, 10], [20, 20, 30, 30], [100, 0, 110, 10], [8, 8, 9, 9]];
    let b = vec![[5, 5, 25, 25], [40, 40, 50, 50], [10, 10, 20, 20], [0, 11, 10, 20]];
    for is_self in [false, true] {
        let lists = intersections::CollisionDetection::find_bounds_collisions(&a, &b, is_self, 2);
        for (i, j) in pairs(&a, &b, is_self, 2) {
            assert!(lists[i].contains(&(j as i32)));
        }
    }
}
