//! The broad phase on boxes and curves with integer coordinates.
use intersections::CollisionDetection;

#[test]
fn bounds_of_curves() {
    let curves = vec![[3, 9, -4, 7, 10, -2, 5, 5], [0, 0, 0, 0, 0, 0, 0, 0], [i64::MIN, i64::MAX, 0, 0, 1, 1, i64::MAX, i64::MIN]];
    let bounds = CollisionDetection::get_bounds(&curves);
    assert_eq!(bounds, vec![[-4, -2, 10, 9], [0, 0, 0, 0], [i64::MIN, i64::MIN, i64::MAX, i64::MAX]]);
    assert_eq!(CollisionDetection::get_bounds(&[]), Vec::<[i64; 4]>::new());
}

#[test]
fn binary_search_finds_the_last_entry_below() {
    let bounds = vec![[0, 0, 10, 0], [0, 0, 20, 0], [0, 0, 20, 0], [0, 0, 30, 0]];
    let indices = vec![0, 1, 2, 3];
    assert_eq!(CollisionDetection::binary_search(&indices, &bounds, 2, 5), None);
    assert_eq!(CollisionDetection::binary_search(&indices, &bounds, 2, 10), None);
    assert_eq!(CollisionDetection::binary_search(&indices, &bounds, 2, 11), Some(0));
    assert_eq!(CollisionDetection::binary_search(&indices, &bounds, 2, 20), Some(0));
    assert_eq!(CollisionDetection::binary_search(&indices, &bounds, 2, 21), Some(2));
    assert_eq!(CollisionDetection::binary_search(&indices, &bounds, 2, 30), Some(2));
    assert_eq!(CollisionDetection::binary_search(&indices, &bounds, 2, 31), Some(3));
    assert_eq!(CollisionDetection::binary_search(&indices, &bounds, 2, i64::MAX), Some(3));
    assert_eq!(CollisionDetection::binary_search(&indices, &bounds, 2, i64::MIN), None);
    assert_eq!(CollisionDetection::binary_search(&vec![], &bounds, 2, 31), None);
    // The list is taken in the order of `indices`, and by the coordinate asked for.
    let by_min_y = vec![[0, 7, 0, 0], [0, 3, 0, 0], [0, 5, 0, 0]];
    assert_eq!(CollisionDetection::binary_search(&vec![1, 2, 0], &by_min_y, 1, 6), Some(1));
    assert_eq!(CollisionDetection::binary_search(&vec![1, 2, 0], &by_min_y, 1, 3), None);
}

#[test]
fn boxes_of_two_sequences() {
    let a = vec![[0, 0, 10, 10], [20, 20, 30, 30], [100, 0, 110, 10]];
    let b = vec![[5, 5, 25, 25], [40, 40, 50, 50], [10, 10, 20, 20], [0, 11, 10, 20]];
    assert_eq!(
        CollisionDetection::find_bounds_collisions(&a, &b, false, 0),
        vec![vec![0, 2], vec![0, 2], vec![]]
    );
    assert_eq!(
        CollisionDetection::find_bounds_collisions(&a, &b, false, 1),
        vec![vec![0, 2, 3], vec![0, 2], vec![]]
    );
    assert_eq!(
        CollisionDetection::find_bounds_collisions(&b, &a, false, 1),
        vec![vec![0, 1], vec![], vec![0, 1], vec![0]]
    );
}

#[test]
fn tolerance_is_counted_on_each_side() {
    let a = vec![[0, 0, 10, 10]];
    let right = vec![[15, 0, 20, 10]];
    let above = vec![[0, 15, 10, 20]];
    let left = vec![[-20, 0, -5, 10]];
    let below = vec![[0, -20, 10, -5]];
    for other in [&right, &above, &left, &below] {
        assert_eq!(CollisionDetection::find_bounds_collisions(&a, other, false, 4), vec![Vec::<i32>::new()]);
        assert_eq!(CollisionDetection::find_bounds_collisions(&a, other, false, 5), vec![vec![0]]);
        assert_eq!(CollisionDetection::find_bounds_collisions(other, &a, false, 4), vec![Vec::<i32>::new()]);
        assert_eq!(CollisionDetection::find_bounds_collisions(other, &a, false, 5), vec![vec![0]]);
    }
}

#[test]
fn boxes_at_the_ends_of_the_range() {
    let a = vec![[i64::MIN, i64::MIN, i64::MIN, i64::MIN], [i64::MAX, i64::MAX, i64::MAX, i64::MAX]];
    let b = vec![[i64::MIN, i64::MIN, i64::MAX, i64::MAX], [0, 0, 0, 0]];
    assert_eq!(CollisionDetection::find_bounds_collisions(&a, &b, false, 0), vec![vec![0], vec![0]]);
    assert_eq!(
        CollisionDetection::find_bounds_collisions(&a, &b, false, i64::MAX),
        vec![vec![0], vec![0, 1]]
    );
    assert_eq!(
        CollisionDetection::find_bounds_collisions(&a, &a, true, i64::MAX),
        vec![vec![0], vec![1]]
    );
}

#[test]
fn boxes_that_come_in_no_order() {
    // The boxes come in no order of x, and the sweep meets the entries of a
    // list in another order than that of their indices.
    let a = vec![[100, 0, 110, 10], [2, 0, 60, 10]];
    let b = vec![[0, 0, 50, 10], [1, 0, 40, 10], [90, 0, 95, 10]];
    assert_eq!(
        CollisionDetection::find_bounds_collisions(&a, &b, false, 0),
        vec![vec![], vec![0, 1]]
    );
    assert_eq!(
        CollisionDetection::find_bounds_collisions(&a, &b, false, 5),
        vec![vec![2], vec![0, 1]]
    );
}

#[test]
fn boxes_of_one_sequence() {
    let a = vec![[0, 0, 10, 10], [5, 5, 15, 15], [12, 12, 20, 20], [0, 0, 1, 1]];
    // Matched against itself, each box is listed with itself.
    assert_eq!(
        CollisionDetection::find_bounds_collisions(&a, &a, true, 0),
        vec![vec![0, 1, 3], vec![0, 1, 2], vec![1, 2], vec![0, 3]]
    );
    // Against other boxes, the second sequence is only held against the first.
    let other = vec![[0, 0, 10, 10]];
    assert_eq!(
        CollisionDetection::find_bounds_collisions(&a, &other, true, 0),
        vec![vec![1, 3], vec![0, 2], vec![1], vec![0]]
    );
    // As two sequences each box meets its twin once.
    assert_eq!(
        CollisionDetection::find_bounds_collisions(&a, &a, false, 0),
        vec![vec![0, 1, 3], vec![0, 1, 2], vec![1, 2], vec![0, 3]]
    );
}

#[test]
fn boxes_that_end_before_they_begin() {
    // Such a box is near another only if it is on both axes, by the same test.
    let a = vec![[10, 0, 0, 10], [0, 0, 10, 10]];
    let b = vec![[5, 5, 6, 6], [12, 5, -2, 6], [11, 0, 20, 10]];
    assert_eq!(
        CollisionDetection::find_bounds_collisions(&a, &b, false, 0),
        vec![vec![], vec![0]]
    );
    assert_eq!(
        CollisionDetection::find_bounds_collisions(&a, &b, false, 1),
        vec![vec![], vec![0, 2]]
    );
    assert_eq!(
        CollisionDetection::find_bounds_collisions(&a, &b, false, 5),
        vec![vec![0], vec![0, 1, 2]]
    );
    assert_eq!(
        CollisionDetection::find_bounds_collisions(&a, &b, false, 12),
        vec![vec![0, 1, 2], vec![0, 1, 2]]
    );
}

#[test]
fn tolerance_below_zero() {
    let a = vec![[0, 0, 10, 10]];
    let b = vec![[8, 8, 20, 20], [0, 0, 10, 10], [3, 3, 4, 4]];
    assert_eq!(CollisionDetection::find_bounds_collisions(&a, &b, false, -2), vec![vec![0, 1, 2]]);
    assert_eq!(CollisionDetection::find_bounds_collisions(&a, &b, false, -3), vec![vec![1, 2]]);
    assert_eq!(CollisionDetection::find_bounds_collisions(&a, &b, false, -4), vec![vec![1, 2]]);
    assert_eq!(CollisionDetection::find_bounds_collisions(&a, &b, false, -5), vec![vec![1]]);
    assert_eq!(CollisionDetection::find_bounds_collisions(&a, &b, false, -10), vec![vec![1]]);
    assert_eq!(CollisionDetection::find_bounds_collisions(&a, &b, false, -11), vec![Vec::<i32>::new()]);
    assert_eq!(CollisionDetection::find_bounds_collisions(&a, &b, false, i64::MIN), vec![Vec::<i32>::new()]);
    assert_eq!(CollisionDetection::find_bounds_collisions(&a, &a, true, i64::MIN), vec![vec![0]]);
}

#[test]
fn no_boxes() {
    let none: Vec<[i64; 4]> = vec![];
    let some = vec![[0, 0, 1, 1]];
    assert_eq!(CollisionDetection::find_bounds_collisions(&none, &none, false, 0), Vec::<Vec<i32>>::new());
    assert_eq!(CollisionDetection::find_bounds_collisions(&none, &none, true, 0), Vec::<Vec<i32>>::new());
    assert_eq!(CollisionDetection::find_bounds_collisions(&none, &some, false, 0), Vec::<Vec<i32>>::new());
    assert_eq!(CollisionDetection::find_bounds_collisions(&some, &none, false, 0), vec![Vec::<i32>::new()]);
}

#[test]
fn curves_of_two_sequences_and_of_one() {
    let curves1 = vec![[0, 0, 4, 8, 8, 8, 10, 0], [20, 0, 20, 5, 25, 5, 25, 0]];
    let curves2 = vec![[9, 7, 12, 12, 14, 12, 15, 7], [11, 9, 12, 12, 14, 12, 15, 9], [26, 0, 30, 0, 30, 1, 26, 1]];
    assert_eq!(
        CollisionDetection::find_curve_bounds_collisions(&curves1, &curves2, false, 0),
        vec![vec![0], vec![]]
    );
    assert_eq!(
        CollisionDetection::find_curve_bounds_collisions(&curves1, &curves2, false, 1),
        vec![vec![0, 1], vec![2]]
    );
    assert_eq!(
        CollisionDetection::find_curve_bounds_collisions(&curves1, &curves2, true, 0),
        vec![vec![0], vec![1]]
    );
    assert_eq!(
        CollisionDetection::find_curve_bounds_collisions(&curves1, &curves2, true, 10),
        vec![vec![0, 1], vec![0, 1]]
    );
}

/// A small generator of boxes, to hold the sweep against the plain test of all pairs.
fn boxes(seed: u64, count: usize) -> Vec<[i64; 4]> {
    let mut state = seed;
    let mut next = move || {
        state = state.wrapping_mul(6364136223846793005).wrapping_add(1442695040888963407);
        ((state >> 33) % 41) as i64 - 20
    };
    (0..count)
        .map(|_| {
            let (x, y, w, h) = (next(), next(), next() % 7, next() % 7);
            [x, y, x + w, y + h]
        })
        .collect()
}

fn near(p: &[i64; 4], q: &[i64; 4], tolerance: i64) -> bool {
    p[2] + tolerance >= q[0] && q[2] + tolerance >= p[0] && p[3] + tolerance >= q[1] && q[3] + tolerance >= p[1]
}

#[test]
fn sweep_agrees_with_the_test_of_all_pairs() {
    for seed in 0..40u64 {
        let a = boxes(seed, (seed % 9) as usize);
        let b = boxes(seed + 1000, ((seed / 3) % 11) as usize);
        for tolerance in [0, 1, 3, -1, -4] {
            let expected: Vec<Vec<i32>> = a
                .iter()
                .map(|p| (0..b.len()).filter(|&j| near(p, &b[j], tolerance)).map(|j| j as i32).collect())
                .collect();
            assert_eq!(CollisionDetection::find_bounds_collisions(&a, &b, false, tolerance), expected);
            let own: Vec<Vec<i32>> = a
                .iter()
                .enumerate()
                .map(|(i, p)| {
                    (0..a.len()).filter(|&j| j == i || near(p, &a[j], tolerance)).map(|j| j as i32).collect()
                })
                .collect();
            assert_eq!(CollisionDetection::find_bounds_collisions(&a, &a, true, tolerance), own);
            let others: Vec<Vec<i32>> = a
                .iter()
                .enumerate()
                .map(|(i, p)| {
                    (0..a.len())
                        .filter(|&j| if j == i { a == b } else { near(p, &a[j], tolerance) })
                        .map(|j| j as i32)
                        .collect()
                })
                .collect();
            assert_eq!(CollisionDetection::find_bounds_collisions(&a, &b, true, tolerance), others);
        }
    }
}
