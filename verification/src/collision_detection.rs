//! Broad phase: pairing curves whose bounding boxes come close.
//!
//! For each curve of one sequence the broad phase lists the curves of another
//! sequence, or of the same one, whose boxes come within a tolerance of its
//! own. The boxes are visited by ascending least x. Meanwhile a list of active
//! boxes, ordered by greatest x, holds the visited boxes that one still to
//! come may reach: a box is paired with the active ones, and a search by
//! halving finds both the active boxes that have fallen out of reach and the
//! place of a new one.
//!
//! Coordinates are integers here. Numbers of another kind are handed over as
//! integers that keep their order, such as the ranks of binary64 numbers.
use vstd::prelude::*;
use crate::binary64::{rank_of, spec_is_nan, spec_le, Binary64};
use crate::sweep::{
    active_ok, combine, empty_rows, identity, lemma_all_visited, lemma_push_contains,
    lemma_rearranged_range, order_ok, rows_ok, same_bounds, sort_by_min_x, sort_rows, visit,
};

verus! {

/// A unit type that groups the functions of the broad phase.
pub struct CollisionDetection;

/// The smaller of two integers.
pub open spec fn min2(a: i64, b: i64) -> i64 {
    if b < a {
        b
    } else {
        a
    }
}

/// The larger of two integers.
pub open spec fn max2(a: i64, b: i64) -> i64 {
    if b > a {
        b
    } else {
        a
    }
}

/// The box `[min_x, min_y, max_x, max_y]` of the control polygon of `curve`,
/// which is given as `[p1x, p1y, c1x, c1y, c2x, c2y, p2x, p2y]`.
pub open spec fn bounds_of(curve: [i64; 8]) -> [i64; 4] {
    [
        min2(min2(min2(curve[0], curve[2]), curve[4]), curve[6]),
        min2(min2(min2(curve[1], curve[3]), curve[5]), curve[7]),
        max2(max2(max2(curve[0], curve[2]), curve[4]), curve[6]),
        max2(max2(max2(curve[1], curve[3]), curve[5]), curve[7]),
    ]
}

/// The boxes of the control polygons of `curves`, in the order of the curves.
pub open spec fn all_bounds(curves: Seq<[i64; 8]>) -> Seq<[i64; 4]> {
    Seq::new(curves.len(), |i: int| bounds_of(curves[i]))
}

/// The boxes that the sweep runs over: those of the first sequence alone when it
/// is matched against itself, those of the first followed by those of the
/// second otherwise.
pub open spec fn combined(a: Seq<[i64; 4]>, b: Seq<[i64; 4]>, is_self: bool) -> Seq<[i64; 4]> {
    if is_self {
        a
    } else {
        a + b
    }
}

/// Two boxes come within `tolerance` of each other on both axes.
pub open spec fn near(p: [i64; 4], q: [i64; 4], tolerance: int) -> bool {
    &&& p[2] + tolerance >= q[0]
    &&& q[2] + tolerance >= p[0]
    &&& p[3] + tolerance >= q[1]
    &&& q[3] + tolerance >= p[1]
}

/// The box of integers that stands for a box of binary64 numbers: each
/// number by its rank.
pub open spec fn ranks(p: [Binary64; 4]) -> [i64; 4] {
    [rank_of(p[0]) as i64, rank_of(p[1]) as i64, rank_of(p[2]) as i64, rank_of(p[3]) as i64]
}

/// Boxes of numbers are near, with no tolerance, as the boxes of their ranks
/// are: exactly when each begins no later than the other ends, on both axes.
pub proof fn lemma_near_by_ranks(p: [Binary64; 4], q: [Binary64; 4])
    requires
        forall|i: int| 0 <= i < 4 ==> !spec_is_nan(#[trigger] p[i]) && !spec_is_nan(#[trigger] q[i]),
    ensures
        near(ranks(p), ranks(q), 0) <==> spec_le(q[0], p[2]) && spec_le(p[0], q[2]) && spec_le(q[1], p[3])
            && spec_le(p[1], q[3]),
{
}

/// Whether index `j` belongs in the collision list of curve `i`.
///
/// Between two sequences, `j` indexes the second one and is listed when the
/// boxes are near. Within one sequence, every other near box is listed, and
/// `i` itself exactly when the two arguments hold the same boxes.
pub open spec fn collides(
    a: Seq<[i64; 4]>,
    b: Seq<[i64; 4]>,
    is_self: bool,
    tolerance: int,
    i: int,
    j: int,
) -> bool {
    if is_self {
        0 <= j < a.len() && if j == i {
            a == b
        } else {
            near(a[i], a[j], tolerance)
        }
    } else {
        0 <= j < b.len() && near(a[i], b[j], tolerance)
    }
}

/// Every entry is smaller than the one after it.
pub open spec fn strictly_ascending(row: Seq<i32>) -> bool {
    forall|p: int, q: int| 0 <= p < q < row.len() ==> row[p] < row[q]
}

/// The entries below `limit` of the collision list of curve `i`, ascending.
pub open spec fn collision_list_below(
    a: Seq<[i64; 4]>,
    b: Seq<[i64; 4]>,
    is_self: bool,
    tolerance: int,
    i: int,
    limit: nat,
) -> Seq<i32>
    decreases limit,
{
    if limit == 0 {
        Seq::empty()
    } else {
        let rest = collision_list_below(a, b, is_self, tolerance, i, (limit - 1) as nat);
        if collides(a, b, is_self, tolerance, i, limit - 1) {
            rest.push((limit - 1) as i32)
        } else {
            rest
        }
    }
}

/// The collision list of curve `i`: the indices that belong in it, ascending.
pub open spec fn collision_list(
    a: Seq<[i64; 4]>,
    b: Seq<[i64; 4]>,
    is_self: bool,
    tolerance: int,
    i: int,
) -> Seq<i32> {
    collision_list_below(
        a,
        b,
        is_self,
        tolerance,
        i,
        if is_self {
            a.len()
        } else {
            b.len()
        },
    )
}

/// A collision list is strictly ascending and holds exactly the indices that
/// belong in it.
pub proof fn lemma_collision_list(
    a: Seq<[i64; 4]>,
    b: Seq<[i64; 4]>,
    is_self: bool,
    tolerance: int,
    i: int,
)
    requires
        combined(a, b, is_self).len() <= i32::MAX,
    ensures
        strictly_ascending(collision_list(a, b, is_self, tolerance, i)),
        forall|j: i32|
            #[trigger] collision_list(a, b, is_self, tolerance, i).contains(j) <==> collides(
                a,
                b,
                is_self,
                tolerance,
                i,
                j as int,
            ),
{
    let limit: nat = if is_self {
        a.len()
    } else {
        b.len()
    };
    lemma_collision_list_below(a, b, is_self, tolerance, i, limit);
}

/// The part of a collision list below `limit` is strictly ascending and holds
/// exactly the indices below `limit` that belong in the list.
proof fn lemma_collision_list_below(
    a: Seq<[i64; 4]>,
    b: Seq<[i64; 4]>,
    is_self: bool,
    tolerance: int,
    i: int,
    limit: nat,
)
    requires
        limit <= i32::MAX,
    ensures
        strictly_ascending(collision_list_below(a, b, is_self, tolerance, i, limit)),
        forall|j: i32|
            #[trigger] collision_list_below(a, b, is_self, tolerance, i, limit).contains(j) <==> (j < limit
                && collides(a, b, is_self, tolerance, i, j as int)),
    decreases limit,
{
    let list = collision_list_below(a, b, is_self, tolerance, i, limit);
    if limit > 0 {
        let rest = collision_list_below(a, b, is_self, tolerance, i, (limit - 1) as nat);
        lemma_collision_list_below(a, b, is_self, tolerance, i, (limit - 1) as nat);
        let top = (limit - 1) as i32;
        if collides(a, b, is_self, tolerance, i, limit - 1) {
            assert forall|p: int, q: int| 0 <= p < q < list.len() implies list[p] < list[q] by {
                assert(rest.contains(rest[p]));
            }
            assert forall|j: i32| #[trigger] list.contains(j) <==> (j < limit && collides(
                a,
                b,
                is_self,
                tolerance,
                i,
                j as int,
            )) by {
                lemma_push_contains(rest, top, j);
                assert(rest.contains(j) <==> (j < limit - 1 && collides(
                    a,
                    b,
                    is_self,
                    tolerance,
                    i,
                    j as int,
                )));
            }
        }
    }
}

/// Two strictly ascending lists with the same entries are one list.
pub proof fn lemma_ascending_lists_agree(s: Seq<i32>, t: Seq<i32>)
    requires
        strictly_ascending(s),
        strictly_ascending(t),
        forall|v: i32|
            #![trigger s.contains(v)]
            #![trigger t.contains(v)]
            s.contains(v) <==> t.contains(v),
    ensures
        s == t,
    decreases s.len(),
{
    if s.len() == 0 {
        if t.len() > 0 {
            assert(t.contains(t[0]));
        }
    } else {
        assert(s.contains(s.last()));
        assert(t.contains(t.last()));
        let p = choose|p: int| 0 <= p < t.len() && t[p] == s.last();
        let q = choose|q: int| 0 <= q < s.len() && s[q] == t.last();
        assert(s.last() == t.last());
        let s0 = s.drop_last();
        let t0 = t.drop_last();
        assert forall|v: i32|
            #![trigger s0.contains(v)]
            #![trigger t0.contains(v)]
            s0.contains(v) <==> t0.contains(v) by {
            if s0.contains(v) {
                let k = choose|k: int| 0 <= k < s0.len() && s0[k] == v;
                assert(s[k] == v);
                assert(s.contains(v));
                let m = choose|m: int| 0 <= m < t.len() && t[m] == v;
                assert(t0[m] == v);
            }
            if t0.contains(v) {
                let k = choose|k: int| 0 <= k < t0.len() && t0[k] == v;
                assert(t[k] == v);
                assert(t.contains(v));
                let m = choose|m: int| 0 <= m < s.len() && s[m] == v;
                assert(s0[m] == v);
            }
        }
        lemma_ascending_lists_agree(s0, t0);
        assert(s =~= s0.push(s.last()));
    }
}

/// The entries of `indices` name boxes whose coordinate `coord` never decreases.
pub open spec fn ordered_by(indices: Seq<usize>, bounds: Seq<[i64; 4]>, coord: int) -> bool {
    forall|p: int, q: int|
        0 <= p <= q < indices.len() ==> bounds[indices[p] as int][coord] <= bounds[indices[q] as int][coord]
}

/// The smaller of two integers.
fn lesser(a: i64, b: i64) -> (r: i64)
    ensures
        r == min2(a, b),
{
    if b < a {
        b
    } else {
        a
    }
}

/// The larger of two integers.
fn greater(a: i64, b: i64) -> (r: i64)
    ensures
        r == max2(a, b),
{
    if b > a {
        b
    } else {
        a
    }
}

impl CollisionDetection {
    /// The box of the control polygon of every curve, in the order of the
    /// curves.
    pub fn get_bounds(curves: &[[i64; 8]]) -> (bounds: Vec<[i64; 4]>)
        ensures
            bounds@ == all_bounds(curves@),
    {
        let mut bounds: Vec<[i64; 4]> = Vec::new();
        let mut i: usize = 0;
        while i < curves.len()
            invariant
                i <= curves.len(),
                bounds.len() == i,
                forall|k: int| 0 <= k < i ==> #[trigger] bounds[k] == bounds_of(curves[k]),
            decreases curves.len() - i,
        {
            let v = &curves[i];
            let min_x = lesser(lesser(lesser(v[0], v[2]), v[4]), v[6]);
            let min_y = lesser(lesser(lesser(v[1], v[3]), v[5]), v[7]);
            let max_x = greater(greater(greater(v[0], v[2]), v[4]), v[6]);
            let max_y = greater(greater(greater(v[1], v[3]), v[5]), v[7]);
            let found = [min_x, min_y, max_x, max_y];
            bounds.push(found);
            i += 1;
        }
        bounds
    }

    /// For each curve of `curves1`, the ascending list of the curves whose
    /// control polygons come within `tolerance` of its own.
    ///
    /// Between two sequences the lists index `curves2`. With `is_self` the
    /// first sequence is matched against itself and `curves2` is not read:
    /// a list then holds its own curve and every near curve of `curves1`.
    pub fn find_curve_bounds_collisions(
        curves1: &Vec<[i64; 8]>,
        curves2: &Vec<[i64; 8]>,
        is_self: bool,
        tolerance: i64,
    ) -> (result: Vec<Vec<i32>>)
        requires
            curves1.len() + (if is_self {
                0
            } else {
                curves2.len() as int
            }) <= i32::MAX,
        ensures
            result.len() == curves1.len(),
            forall|i: int|
                0 <= i < result.len() ==> (#[trigger] result[i])@ == collision_list(
                    all_bounds(curves1@),
                    all_bounds(
                        if is_self {
                            curves1@
                        } else {
                            curves2@
                        },
                    ),
                    is_self,
                    tolerance as int,
                    i,
                ),
            forall|i: int| 0 <= i < result.len() ==> strictly_ascending(#[trigger] result[i]@),
    {
        let bounds1 = Self::get_bounds(curves1.as_slice());
        if is_self {
            Self::find_bounds_collisions(&bounds1, &bounds1, is_self, tolerance)
        } else {
            let bounds2 = Self::get_bounds(curves2.as_slice());
            Self::find_bounds_collisions(&bounds1, &bounds2, is_self, tolerance)
        }
    }

    /// For each box of `bounds_a`, the ascending list of the boxes that come
    /// within `tolerance` of it.
    ///
    /// Between two sequences the lists index `bounds_b`. With `is_self` the
    /// first sequence is matched against itself: a list then holds every other
    /// near box of `bounds_a`, and the box's own index exactly when `bounds_b`
    /// holds the same boxes as `bounds_a`.
    pub fn find_bounds_collisions(
        bounds_a: &Vec<[i64; 4]>,
        bounds_b: &Vec<[i64; 4]>,
        is_self: bool,
        tolerance: i64,
    ) -> (result: Vec<Vec<i32>>)
        requires
            combined(bounds_a@, bounds_b@, is_self).len() <= i32::MAX,
        ensures
            result.len() == bounds_a.len(),
            forall|i: int|
                0 <= i < result.len() ==> (#[trigger] result[i])@ == collision_list(
                    bounds_a@,
                    bounds_b@,
                    is_self,
                    tolerance as int,
                    i,
                ),
            forall|i: int| 0 <= i < result.len() ==> strictly_ascending(#[trigger] result[i]@),
            forall|i: int, j: i32|
                0 <= i < result.len() ==> (#[trigger] result[i]@.contains(j) <==> collides(
                    bounds_a@,
                    bounds_b@,
                    is_self,
                    tolerance as int,
                    i,
                    j as int,
                )),
    {
        let all = combine(bounds_a, bounds_b, is_self);
        let identical = is_self && same_bounds(bounds_a, bounds_b);
        let mut order = identity(all.len());
        let ghost plain = order@;
        sort_by_min_x(&mut order, &all);
        proof {
            lemma_rearranged_range(order@, plain);
        }
        let mut active: Vec<usize> = Vec::new();
        let mut rows = empty_rows(bounds_a.len());
        let ghost a = bounds_a@;
        let ghost b = bounds_b@;
        let ghost tol = tolerance as int;
        let mut k: usize = 0;
        while k < order.len()
            invariant
                k <= order.len(),
                all@ == combined(a, b, is_self),
                a == bounds_a@,
                tol == tolerance as int,
                all.len() <= i32::MAX,
                identical == (is_self && a == b),
                order_ok(all@, order@),
                active_ok(all@, order@, k as int, active@, tol),
                rows_ok(rows@, a, b, is_self, tol, order@, k as int, 0, active@, 0),
            decreases order.len() - k,
        {
            visit(
                &all,
                bounds_a.len(),
                is_self,
                identical,
                tolerance,
                order[k],
                &mut active,
                &mut rows,
                Ghost(a),
                Ghost(b),
                Ghost(order@),
                Ghost(k as int),
            );
            k += 1;
        }
        proof {
            lemma_all_visited(rows@, a, b, is_self, tol, all@, order@, active@);
        }
        sort_rows(&mut rows);
        proof {
            assert forall|x: int| 0 <= x < rows.len() implies (#[trigger] rows[x])@ == collision_list(
                a,
                b,
                is_self,
                tol,
                x,
            ) by {
                lemma_collision_list(a, b, is_self, tol, x);
                lemma_ascending_lists_agree(rows[x]@, collision_list(a, b, is_self, tol, x));
            }
        }
        rows
    }

    /// Finds where `value` cuts a list of boxes that is ordered by one coordinate.
    ///
    /// The result is the position of the last entry whose coordinate lies
    /// strictly below `value`, or `None` when no entry does. On a list that is
    /// not ordered the result is still a position of the list, and nothing
    /// more is said of it.
    pub fn binary_search(
        indices: &Vec<usize>,
        bounds: &Vec<[i64; 4]>,
        coord: usize,
        value: i64,
    ) -> (found: Option<usize>)
        requires
            coord < 4,
            forall|k: int| 0 <= k < indices.len() ==> indices[k] < bounds.len(),
        ensures
            found matches Some(last) ==> last < indices.len(),
            ordered_by(indices@, bounds@, coord as int) ==> forall|k: int|
                0 <= k < indices.len() ==> (bounds[indices[k] as int][coord as int] < value <==> (found matches Some(
                    last,
                ) && k <= last)),
    {
        let mut lo: usize = 0;
        let mut hi: usize = indices.len();
        while lo < hi
            invariant
                lo <= hi <= indices.len(),
                coord < 4,
                forall|k: int| 0 <= k < indices.len() ==> indices[k] < bounds.len(),
                ordered_by(indices@, bounds@, coord as int) ==> forall|k: int|
                    0 <= k < lo ==> bounds[indices[k] as int][coord as int] < value,
                ordered_by(indices@, bounds@, coord as int) ==> forall|k: int|
                    hi <= k < indices.len() ==> bounds[indices[k] as int][coord as int] >= value,
            decreases hi - lo,
        {
            let mid = lo + (hi - lo) / 2;
            if bounds[indices[mid]][coord] < value {
                lo = mid + 1;
            } else {
                hi = mid;
            }
        }
        if lo > 0 {
            Some(lo - 1)
        } else {
            None
        }
    }
}

} // verus!
