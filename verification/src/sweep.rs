//! The machinery of the sweep: the order the boxes are visited in, and what is
//! known of the active list and of the collision lists while it runs.
use vstd::prelude::*;
use crate::collision_detection::{
    collides, combined, near, ordered_by, strictly_ascending, CollisionDetection,
};

verus! {

/// `<[usize]>::sort_unstable_by_key` of std, keyed by the least x of the box
/// that an index names. The contract claims what std documents of it: the
/// slice ends up holding the same entries, in ascending order of their keys.
#[verifier::external_body]
pub(crate) fn sort_by_min_x(indices: &mut Vec<usize>, bounds: &Vec<[i64; 4]>)
    requires
        forall|k: int| 0 <= k < old(indices).len() ==> old(indices)[k] < bounds.len(),
    ensures
        final(indices)@.to_multiset() == old(indices)@.to_multiset(),
        ordered_by(final(indices)@, bounds@, 0),
{
    indices.sort_unstable_by_key(|i| bounds[*i][0]);
}

/// `<[i32]>::sort_unstable` of std. The contract claims what std documents of
/// it: the slice ends up holding the same entries, in ascending order.
#[verifier::external_body]
pub(crate) fn sort_ascending(row: &mut Vec<i32>)
    ensures
        final(row)@.to_multiset() == old(row)@.to_multiset(),
        forall|p: int, q: int| 0 <= p <= q < final(row).len() ==> final(row)[p] <= final(row)[q],
{
    row.sort_unstable();
}

/// The boxes of the sweep, gathered in one vector.
pub(crate) fn combine(a: &Vec<[i64; 4]>, b: &Vec<[i64; 4]>, is_self: bool) -> (all: Vec<[i64; 4]>)
    requires
        combined(a@, b@, is_self).len() <= usize::MAX,
    ensures
        all@ == combined(a@, b@, is_self),
{
    let mut all: Vec<[i64; 4]> = Vec::new();
    let mut i: usize = 0;
    while i < a.len()
        invariant
            i <= a.len(),
            all@ == a@.subrange(0, i as int),
        decreases a.len() - i,
    {
        all.push(a[i]);
        i += 1;
    }
    if !is_self {
        let mut j: usize = 0;
        while j < b.len()
            invariant
                j <= b.len(),
                all@ == a@ + b@.subrange(0, j as int),
            decreases b.len() - j,
        {
            all.push(b[j]);
            j += 1;
        }
    }
    all
}

/// Whether two vectors hold the same boxes.
pub(crate) fn same_bounds(a: &Vec<[i64; 4]>, b: &Vec<[i64; 4]>) -> (same: bool)
    ensures
        same == (a@ == b@),
{
    if a.len() != b.len() {
        return false;
    }
    let mut i: usize = 0;
    while i < a.len()
        invariant
            i <= a.len(),
            a.len() == b.len(),
            forall|k: int| 0 <= k < i ==> a[k] == b[k],
        decreases a.len() - i,
    {
        let p = &a[i];
        let q = &b[i];
        if p[0] != q[0] || p[1] != q[1] || p[2] != q[2] || p[3] != q[3] {
            return false;
        }
        i += 1;
    }
    assert(a@ =~= b@);
    true
}

/// The indices `0..n` in ascending order.
pub(crate) fn identity(n: usize) -> (order: Vec<usize>)
    ensures
        order.len() == n,
        forall|i: int| 0 <= i < n ==> order[i] == i,
{
    let mut order: Vec<usize> = Vec::new();
    let mut i: usize = 0;
    while i < n
        invariant
            i <= n,
            order.len() == i,
            forall|k: int| 0 <= k < i ==> order[k] == k,
        decreases n - i,
    {
        order.push(i);
        i += 1;
    }
    order
}

/// A sequence with the same entries as `0..n` names each index below `n` once.
pub(crate) proof fn lemma_rearranged_range(order: Seq<usize>, plain: Seq<usize>)
    requires
        forall|i: int| 0 <= i < plain.len() ==> plain[i] == i,
        order.to_multiset() == plain.to_multiset(),
    ensures
        order.len() == plain.len(),
        order.no_duplicates(),
        forall|p: int| 0 <= p < order.len() ==> order[p] < plain.len(),
        forall|x: usize| x < plain.len() ==> #[trigger] order.contains(x),
{
    broadcast use vstd::seq_lib::group_to_multiset_ensures;
    order.to_multiset_ensures();
    plain.to_multiset_ensures();
    plain.lemma_multiset_has_no_duplicates();
    order.lemma_multiset_has_no_duplicates_conv();
    assert forall|p: int| 0 <= p < order.len() implies order[p] < plain.len() by {
        assert(order.to_multiset().count(order[p]) > 0);
    }
    assert forall|x: usize| x < plain.len() implies #[trigger] order.contains(x) by {
        assert(plain[x as int] == x);
        assert(plain.to_multiset().count(x) > 0);
    }
}

/// `x` is one of the first `k` entries of `list`.
pub(crate) open spec fn among(list: Seq<usize>, k: int, x: int) -> bool {
    exists|p: int| 0 <= p < k && #[trigger] list[p] == x
}

/// The place in the combined boxes of entry `v` of a collision list.
pub(crate) open spec fn partner(first_len: int, is_self: bool, v: int) -> int {
    if is_self {
        v
    } else {
        first_len + v
    }
}

/// `order` visits every box once, by ascending least x.
pub(crate) open spec fn order_ok(all: Seq<[i64; 4]>, order: Seq<usize>) -> bool {
    &&& order.len() == all.len()
    &&& order.no_duplicates()
    &&& forall|p: int| 0 <= p < order.len() ==> #[trigger] order[p] < all.len()
    &&& forall|x: usize| x < all.len() ==> #[trigger] order.contains(x)
    &&& ordered_by(order, all, 0)
}

/// What holds of the active list when the first `k` boxes of `order` have been
/// visited: it holds visited boxes, each once, by ascending greatest x, and
/// every visited box that it lacks ends more than `tolerance` before any box
/// still to come begins.
pub(crate) open spec fn active_ok(
    all: Seq<[i64; 4]>,
    order: Seq<usize>,
    k: int,
    active: Seq<usize>,
    tolerance: int,
) -> bool {
    &&& forall|i: int| 0 <= i < active.len() ==> among(order, k, #[trigger] active[i] as int)
    &&& active.no_duplicates()
    &&& ordered_by(active, all, 2)
    &&& forall|p: int, q: int|
        0 <= p < k <= q < order.len() && !active.contains(#[trigger] order[p]) ==> all[order[p] as int][2]
            + tolerance < all[#[trigger] order[q] as int][0]
}

/// The pair of boxes `x` and `y` has been decided: both were visited before
/// step `k`, or one is the box `cur` of step `k` and the other is one of the
/// first `m` active boxes.
pub(crate) open spec fn settled(
    order: Seq<usize>,
    k: int,
    cur: int,
    active: Seq<usize>,
    m: int,
    x: int,
    y: int,
) -> bool {
    ||| among(order, k, x) && among(order, k, y)
    ||| x == cur && y != cur && among(active, m, y)
    ||| y == cur && x != cur && among(active, m, x)
}

/// What holds of the collision lists during the sweep: no list holds an entry
/// twice, and a list holds an entry exactly when it belongs there and the pair
/// has been decided.
pub(crate) open spec fn rows_ok(
    rows: Seq<Vec<i32>>,
    a: Seq<[i64; 4]>,
    b: Seq<[i64; 4]>,
    is_self: bool,
    tolerance: int,
    order: Seq<usize>,
    k: int,
    cur: int,
    active: Seq<usize>,
    m: int,
) -> bool {
    &&& rows.len() == a.len()
    &&& forall|x: int| 0 <= x < rows.len() ==> (#[trigger] rows[x])@.no_duplicates()
    &&& forall|x: int, v: i32|
        0 <= x < rows.len() ==> (#[trigger] rows[x]@.contains(v) <==> collides(
            a,
            b,
            is_self,
            tolerance,
            x,
            v as int,
        ) && settled(order, k, cur, active, m, x, partner(a.len() as int, is_self, v as int)))
}

/// Whether two boxes come within `tolerance` of each other on both axes.
pub(crate) fn is_near(p: &[i64; 4], q: &[i64; 4], tolerance: i64) -> (r: bool)
    ensures
        r == near(*p, *q, tolerance as int),
{
    let t = tolerance as i128;
    (p[2] as i128) + t >= (q[0] as i128) && (q[2] as i128) + t >= (p[0] as i128) && (p[3] as i128) + t >= (
    q[1] as i128) && (q[3] as i128) + t >= (p[1] as i128)
}

/// As many empty lists as the first sequence has boxes.
pub(crate) fn empty_rows(n: usize) -> (rows: Vec<Vec<i32>>)
    ensures
        rows.len() == n,
        forall|x: int| 0 <= x < n ==> (#[trigger] rows[x])@.len() == 0,
{
    let mut rows: Vec<Vec<i32>> = Vec::new();
    let mut i: usize = 0;
    while i < n
        invariant
            i <= n,
            rows.len() == i,
            forall|x: int| 0 <= x < i ==> (#[trigger] rows[x])@.len() == 0,
        decreases n - i,
    {
        rows.push(Vec::new());
        i += 1;
    }
    rows
}

/// Pushing `v` adds `v` to what a sequence contains, and nothing else.
pub(crate) proof fn lemma_push_contains<T>(s: Seq<T>, v: T, w: T)
    ensures
        s.push(v).contains(w) <==> (s.contains(w) || w == v),
{
    if s.contains(w) {
        let i = choose|i: int| 0 <= i < s.len() && s[i] == w;
        assert(s.push(v)[i] == w);
    }
    if w == v {
        assert(s.push(v)[s.len() as int] == w);
    }
    if s.push(v).contains(w) {
        let j = choose|j: int| 0 <= j < s.push(v).len() && s.push(v)[j] == w;
    }
}

/// A concatenation contains what its two parts contain.
pub(crate) proof fn lemma_concat_contains<T>(s: Seq<T>, t: Seq<T>, w: T)
    ensures
        (s + t).contains(w) <==> (s.contains(w) || t.contains(w)),
{
    if s.contains(w) {
        let i = choose|i: int| 0 <= i < s.len() && s[i] == w;
        assert((s + t)[i] == w);
    }
    if t.contains(w) {
        let i = choose|i: int| 0 <= i < t.len() && t[i] == w;
        assert((s + t)[s.len() + i] == w);
    }
    if (s + t).contains(w) {
        let j = choose|j: int| 0 <= j < (s + t).len() && (s + t)[j] == w;
    }
}

/// Pushing an entry that a sequence lacks keeps it free of repeats.
pub(crate) proof fn lemma_push_fresh(s: Seq<i32>, v: i32)
    requires
        s.no_duplicates(),
        !s.contains(v),
    ensures
        s.push(v).no_duplicates(),
{
    assert forall|i: int, j: int| 0 <= i < s.push(v).len() && 0 <= j < s.push(v).len() && i != j implies s.push(
        v,
    )[i] != s.push(v)[j] by {}
}

/// Appends `v` to list `x`, leaving the other lists as they are.
pub(crate) fn add_to(rows: &mut Vec<Vec<i32>>, x: usize, v: i32)
    requires
        x < old(rows).len(),
    ensures
        final(rows).len() == old(rows).len(),
        final(rows)[x as int]@ == old(rows)[x as int]@.push(v),
        forall|y: int| 0 <= y < old(rows).len() && y != x ==> final(rows)[y] == old(rows)[y],
{
    rows[x].push(v);
}

/// Pairs the box of step `k` with every active box, and lists each pair of
/// near boxes on the side, or sides, that keep a list.
pub(crate) fn pair_up(
    all: &Vec<[i64; 4]>,
    first_len: usize,
    is_self: bool,
    tolerance: i64,
    cur: usize,
    active: &Vec<usize>,
    rows: &mut Vec<Vec<i32>>,
    Ghost(a): Ghost<Seq<[i64; 4]>>,
    Ghost(b): Ghost<Seq<[i64; 4]>>,
    Ghost(order): Ghost<Seq<usize>>,
    Ghost(k): Ghost<int>,
)
    requires
        all@ == combined(a, b, is_self),
        all.len() <= i32::MAX,
        first_len == a.len(),
        order_ok(all@, order),
        0 <= k < order.len(),
        cur == order[k],
        active_ok(all@, order, k, active@, tolerance as int),
        rows_ok(old(rows)@, a, b, is_self, tolerance as int, order, k, cur as int, active@, 0),
    ensures
        rows_ok(
            final(rows)@,
            a,
            b,
            is_self,
            tolerance as int,
            order,
            k,
            cur as int,
            active@,
            active.len() as int,
        ),
{
    let cur_bounds = all[cur];
    let is_current_a = cur < first_len;
    let is_current_b = is_self || !is_current_a;
    let orig_index: i32 = if is_self {
        cur as i32
    } else if is_current_a {
        0
    } else {
        (cur - first_len) as i32
    };
    proof {
        assert(!among(order, k, cur as int));
    }
    let mut m: usize = 0;
    while m < active.len()
        invariant
            m <= active.len(),
            all@ == combined(a, b, is_self),
            all.len() <= i32::MAX,
            first_len == a.len(),
            order_ok(all@, order),
            0 <= k < order.len(),
            cur == order[k],
            cur_bounds == all[cur as int],
            is_current_a == (cur < first_len),
            is_current_b == (is_self || !is_current_a),
            orig_index as int == (if is_self {
                cur as int
            } else if is_current_a {
                0
            } else {
                cur - first_len
            }),
            !among(order, k, cur as int),
            active_ok(all@, order, k, active@, tolerance as int),
            rows_ok(rows@, a, b, is_self, tolerance as int, order, k, cur as int, active@, m as int),
        decreases active.len() - m,
    {
        let active_index = active[m];
        let active_bounds = all[active_index];
        let is_active_a = active_index < first_len;
        let is_active_b = is_self || active_index >= first_len;
        let ghost before = rows@;
        proof {
            assert(!among(active@, m as int, active_index as int)) by {
                if among(active@, m as int, active_index as int) {
                    let q = choose|q: int| 0 <= q < m && active@[q] == active_index as int;
                    assert(active@[q] == active@[m as int]);
                }
            }
        }
        let mut first_hit = false;
        let mut second_hit = false;
        let listed: i32 = if is_self {
            active_index as i32
        } else if is_active_a {
            0
        } else {
            (active_index - first_len) as i32
        };
        if ((is_current_a && is_active_b) || (is_current_b && is_active_a)) && is_near(
            &cur_bounds,
            &active_bounds,
            tolerance,
        ) {
            if is_current_a && is_active_b {
                proof {
                    lemma_push_fresh(before[cur as int]@, listed);
                }
                add_to(rows, cur, listed);
                first_hit = true;
            }
            if is_current_b && is_active_a {
                proof {
                    lemma_push_fresh(before[active_index as int]@, orig_index);
                }
                add_to(rows, active_index, orig_index);
                second_hit = true;
            }
        }
        proof {
            let after = rows@;
            assert forall|x: int| 0 <= x < after.len() implies (#[trigger] after[x])@.no_duplicates() by {}
            assert forall|x: int, v: i32| 0 <= x < after.len() implies (#[trigger] after[x]@.contains(v)
                <==> collides(a, b, is_self, tolerance as int, x, v as int) && settled(
                order,
                k,
                cur as int,
                active@,
                m + 1,
                x,
                partner(a.len() as int, is_self, v as int),
            )) by {
                let y = partner(a.len() as int, is_self, v as int);
                assert(among(active@, m + 1, y) <==> among(active@, m as int, y) || y == active_index) by {
                    if among(active@, m as int, y) {
                        let q = choose|q: int| 0 <= q < m && active@[q] == y;
                        assert(0 <= q < m + 1 && active@[q] == y);
                    }
                    if among(active@, m + 1, y) {
                        let q = choose|q: int| 0 <= q < m + 1 && active@[q] == y;
                    }
                }
                assert(among(active@, m + 1, x) <==> among(active@, m as int, x) || x == active_index) by {
                    if among(active@, m as int, x) {
                        let q = choose|q: int| 0 <= q < m && active@[q] == x;
                        assert(0 <= q < m + 1 && active@[q] == x);
                    }
                    if among(active@, m + 1, x) {
                        let q = choose|q: int| 0 <= q < m + 1 && active@[q] == x;
                    }
                }
                assert(before[x]@.contains(v) <==> collides(a, b, is_self, tolerance as int, x, v as int)
                    && settled(order, k, cur as int, active@, m as int, x, y));
                if x == cur && first_hit {
                    lemma_push_contains(before[x]@, listed, v);
                } else if x == active_index && second_hit {
                    lemma_push_contains(before[x]@, orig_index, v);
                }
            }
        }
        m += 1;
    }
}

/// Drops from the front of the active list every box that ends more than
/// `tolerance` before the box of step `k` begins.
pub(crate) fn prune(
    active: &mut Vec<usize>,
    all: &Vec<[i64; 4]>,
    cur: usize,
    tolerance: i64,
    Ghost(order): Ghost<Seq<usize>>,
    Ghost(k): Ghost<int>,
)
    requires
        order_ok(all@, order),
        0 <= k < order.len(),
        cur == order[k],
        active_ok(all@, order, k, old(active)@, tolerance as int),
    ensures
        active_ok(all@, order, k, final(active)@, tolerance as int),
        forall|i: int|
            0 <= i < final(active).len() ==> all[#[trigger] final(active)[i] as int][2] + tolerance
                >= all[cur as int][0],
{
    let ghost before = active@;
    proof {
        assert forall|i: int| 0 <= i < before.len() implies #[trigger] before[i] < all.len() by {
            let p = choose|p: int| 0 <= p < k && order[p] == before[i] as int;
            assert(order[p] < all.len());
        }
    }
    let threshold = (all[cur][0] as i128) - (tolerance as i128);
    let cut = if threshold > i64::MAX as i128 {
        active.len()
    } else if threshold < i64::MIN as i128 {
        0
    } else {
        match CollisionDetection::binary_search(active, all, 2, threshold as i64) {
            Some(last) => last + 1,
            None => 0,
        }
    };
    let kept = active.split_off(cut);
    *active = kept;
    proof {
        let after = active@;
        assert forall|i: int| 0 <= i < after.len() implies among(order, k, #[trigger] after[i] as int)
            && all[after[i] as int][2] + tolerance >= all[cur as int][0] by {}
        assert(after.no_duplicates());
        assert(ordered_by(after, all@, 2));
        assert forall|p: int, q: int|
            0 <= p < k <= q < order.len() && !after.contains(#[trigger] order[p]) implies all[order[p] as int][2]
                + tolerance < all[#[trigger] order[q] as int][0] by {
            if before.contains(order[p]) {
                let i = choose|i: int| 0 <= i < before.len() && before[i] == order[p];
                if i >= cut {
                    assert(after[i - cut] == order[p]);
                }
            }
        }
    }
}

/// Puts the box of step `k` into the active list, at the place that keeps the
/// list ordered by greatest x.
pub(crate) fn enlist(
    active: &mut Vec<usize>,
    all: &Vec<[i64; 4]>,
    cur: usize,
    Ghost(tolerance): Ghost<int>,
    Ghost(order): Ghost<Seq<usize>>,
    Ghost(k): Ghost<int>,
)
    requires
        order_ok(all@, order),
        0 <= k < order.len(),
        cur == order[k],
        active_ok(all@, order, k, old(active)@, tolerance),
    ensures
        active_ok(all@, order, k + 1, final(active)@, tolerance),
{
    let ghost before = active@;
    proof {
        assert forall|i: int| 0 <= i < before.len() implies #[trigger] before[i] < all.len() by {
            let p = choose|p: int| 0 <= p < k && order[p] == before[i] as int;
            assert(order[p] < all.len());
        }
    }
    let place = match CollisionDetection::binary_search(active, all, 2, all[cur][2]) {
        Some(last) => last + 1,
        None => 0,
    };
    active.insert(place, cur);
    proof {
        let after = active@;
        before.insert_ensures(place as int, cur);
        assert forall|i: int| 0 <= i < after.len() implies among(order, k + 1, #[trigger] after[i] as int) by {
            if i != place {
                let j = if i < place {
                    i
                } else {
                    i - 1
                };
                let p = choose|p: int| 0 <= p < k && order[p] == before[j] as int;
                assert(0 <= p < k + 1 && order[p] == after[i] as int);
            }
        }
        assert(!before.contains(cur)) by {
            if before.contains(cur) {
                let i = choose|i: int| 0 <= i < before.len() && before[i] == cur;
                let p = choose|p: int| 0 <= p < k && order[p] == before[i] as int;
                assert(order[p] == order[k]);
            }
        }
        assert(after.no_duplicates());
        assert(ordered_by(after, all@, 2));
        assert forall|p: int, q: int|
            0 <= p < k + 1 <= q < order.len() && !after.contains(#[trigger] order[p]) implies all[order[p] as int][2]
                + tolerance < all[#[trigger] order[q] as int][0] by {
            if p != k && before.contains(order[p]) {
                let i = choose|i: int| 0 <= i < before.len() && before[i] == order[p];
                let i_new = if i < place {
                    i
                } else {
                    i + 1
                };
                assert(after[i_new] == order[p]);
            }
        }
    }
}

/// A list without repeats, once sorted, is strictly ascending and holds what it held.
pub(crate) fn sort_row(row: &mut Vec<i32>)
    requires
        old(row)@.no_duplicates(),
    ensures
        crate::collision_detection::strictly_ascending(final(row)@),
        forall|v: i32| #[trigger] final(row)@.contains(v) <==> old(row)@.contains(v),
{
    let ghost before = row@;
    if row.len() > 0 {
        sort_ascending(row);
    }
    proof {
        let after = row@;
        broadcast use vstd::seq_lib::group_to_multiset_ensures;
        before.to_multiset_ensures();
        after.to_multiset_ensures();
        before.lemma_multiset_has_no_duplicates();
        after.lemma_multiset_has_no_duplicates_conv();
        assert forall|v: i32| #[trigger] after.contains(v) <==> before.contains(v) by {
            assert(after.contains(v) <==> after.to_multiset().count(v) > 0);
        }
    }
}

/// One step of the sweep, for the box `cur` that stands at place `k` of the
/// order: the active boxes that end too far before it are dropped, it is
/// paired with those that stay, it is listed with itself where the two
/// sequences are one, and it joins the active boxes.
pub(crate) fn visit(
    all: &Vec<[i64; 4]>,
    first_len: usize,
    is_self: bool,
    identical: bool,
    tolerance: i64,
    cur: usize,
    active: &mut Vec<usize>,
    rows: &mut Vec<Vec<i32>>,
    Ghost(a): Ghost<Seq<[i64; 4]>>,
    Ghost(b): Ghost<Seq<[i64; 4]>>,
    Ghost(order): Ghost<Seq<usize>>,
    Ghost(k): Ghost<int>,
)
    requires
        all@ == combined(a, b, is_self),
        all.len() <= i32::MAX,
        first_len == a.len(),
        identical == (is_self && a == b),
        order_ok(all@, order),
        0 <= k < order.len(),
        cur == order[k],
        active_ok(all@, order, k, old(active)@, tolerance as int),
        rows_ok(old(rows)@, a, b, is_self, tolerance as int, order, k, 0, old(active)@, 0),
    ensures
        active_ok(all@, order, k + 1, final(active)@, tolerance as int),
        rows_ok(final(rows)@, a, b, is_self, tolerance as int, order, k + 1, 0, final(active)@, 0),
{
    let ghost tol = tolerance as int;
    prune(active, all, cur, tolerance, Ghost(order), Ghost(k));
    pair_up(
        all,
        first_len,
        is_self,
        tolerance,
        cur,
        active,
        rows,
        Ghost(a),
        Ghost(b),
        Ghost(order),
        Ghost(k),
    );
    let ghost paired = rows@;
    proof {
        assert(!among(order, k, cur as int)) by {
            if among(order, k, cur as int) {
                let p = choose|p: int| 0 <= p < k && order[p] == cur as int;
                assert(order[p] == order[k]);
            }
        }
    }
    if identical && cur < first_len {
        proof {
            lemma_push_fresh(paired[cur as int]@, cur as i32);
        }
        add_to(rows, cur, cur as i32);
    }
    let ghost listed = rows@;
    let ghost pruned = active@;
    enlist(active, all, cur, Ghost(tol), Ghost(order), Ghost(k));
    proof {
        assert forall|x: int| 0 <= x < listed.len() implies (#[trigger] listed[x])@.no_duplicates() by {}
        assert forall|x: int, v: i32| 0 <= x < listed.len() implies (#[trigger] listed[x]@.contains(v)
            <==> collides(a, b, is_self, tol, x, v as int) && settled(
            order,
            k + 1,
            0,
            active@,
            0,
            x,
            partner(a.len() as int, is_self, v as int),
        )) by {
            let y = partner(a.len() as int, is_self, v as int);
            let len = pruned.len() as int;
            assert(paired[x]@.contains(v) <==> collides(a, b, is_self, tol, x, v as int) && settled(
                order,
                k,
                cur as int,
                pruned,
                len,
                x,
                y,
            ));
            if identical && x == cur {
                lemma_push_contains(paired[x]@, cur as i32, v);
            }
            assert(among(order, k + 1, x) <==> among(order, k, x) || x == cur) by {
                if among(order, k, x) {
                    let p = choose|p: int| 0 <= p < k && order[p] == x;
                    assert(0 <= p < k + 1 && order[p] == x);
                }
            }
            assert(among(order, k + 1, y) <==> among(order, k, y) || y == cur) by {
                if among(order, k, y) {
                    let p = choose|p: int| 0 <= p < k && order[p] == y;
                    assert(0 <= p < k + 1 && order[p] == y);
                }
            }
            assert forall|z: int| among(order, k, z) && near(all[cur as int], all[z], tol)
                implies among(pruned, len, z) by {
                let p = choose|p: int| 0 <= p < k && order[p] == z;
                if pruned.contains(order[p]) {
                    let i = choose|i: int| 0 <= i < pruned.len() && pruned[i] == order[p];
                    assert(pruned[i] == z);
                }
            }
            assert forall|z: int| among(pruned, len, z) implies among(order, k, z) by {
                let i = choose|i: int| 0 <= i < len && pruned[i] == z;
                assert(among(order, k, pruned[i] as int));
            }
        }
    }
}

/// Once every box has been visited, each list holds what belongs in it.
pub(crate) proof fn lemma_all_visited(
    rows: Seq<Vec<i32>>,
    a: Seq<[i64; 4]>,
    b: Seq<[i64; 4]>,
    is_self: bool,
    tolerance: int,
    all: Seq<[i64; 4]>,
    order: Seq<usize>,
    active: Seq<usize>,
)
    requires
        all == combined(a, b, is_self),
        all.len() <= i32::MAX,
        order_ok(all, order),
        rows_ok(rows, a, b, is_self, tolerance, order, order.len() as int, 0, active, 0),
    ensures
        rows.len() == a.len(),
        forall|x: int| 0 <= x < rows.len() ==> (#[trigger] rows[x])@.no_duplicates(),
        forall|x: int, v: i32|
            0 <= x < rows.len() ==> (#[trigger] rows[x]@.contains(v) <==> collides(
                a,
                b,
                is_self,
                tolerance,
                x,
                v as int,
            )),
{
    assert forall|x: int, v: i32| 0 <= x < rows.len() implies (#[trigger] rows[x]@.contains(v) <==> collides(
        a,
        b,
        is_self,
        tolerance,
        x,
        v as int,
    )) by {
        let y = partner(a.len() as int, is_self, v as int);
        if collides(a, b, is_self, tolerance, x, v as int) {
            assert(order.contains(x as usize));
            assert(order.contains(y as usize));
        }
    }
}

/// Sorts every list. Lists without repeats come out strictly ascending, with
/// the entries they held.
pub(crate) fn sort_rows(rows: &mut Vec<Vec<i32>>)
    requires
        forall|x: int| 0 <= x < old(rows).len() ==> (#[trigger] old(rows)[x])@.no_duplicates(),
    ensures
        final(rows).len() == old(rows).len(),
        forall|x: int| 0 <= x < final(rows).len() ==> strictly_ascending(#[trigger] final(rows)[x]@),
        forall|x: int, v: i32|
            0 <= x < final(rows).len() ==> (#[trigger] final(rows)[x]@.contains(v) <==> old(rows)[x]@.contains(
                v,
            )),
{
    let mut i: usize = 0;
    while i < rows.len()
        invariant
            i <= rows.len(),
            rows.len() == old(rows).len(),
            forall|x: int| i <= x < rows.len() ==> #[trigger] rows[x] == old(rows)[x],
            forall|x: int| i <= x < rows.len() ==> (#[trigger] old(rows)[x])@.no_duplicates(),
            forall|x: int| 0 <= x < i ==> strictly_ascending(#[trigger] rows[x]@),
            forall|x: int, v: i32|
                0 <= x < rows.len() ==> (#[trigger] rows[x]@.contains(v) <==> old(rows)[x]@.contains(v)),
        decreases rows.len() - i,
    {
        let ghost before = rows@;
        sort_row(&mut rows[i]);
        proof {
            assert forall|x: int| 0 <= x < rows.len() && x != i implies rows[x] == before[x] by {}
        }
        i += 1;
    }
}

} // verus!
