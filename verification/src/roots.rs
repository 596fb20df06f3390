//! The roots of a cubic, once computed: which are kept, and in what order.
use vstd::prelude::*;
use crate::binary64::{
    eq, ge, gt, lt, spec_eq, spec_is_nan, spec_le, spec_lt, Binary64, MINUS_ONE, ONE, ZERO,
};

verus! {

/// The real roots that a cubic has.
#[derive(Clone, Copy, Debug, PartialEq, Eq, Structural)]
pub enum Roots {
    /// Three, found by way of an angle.
    Three,
    /// One and, at a second place, two that coincide.
    OneAndDouble,
    /// One; the other two are not real.
    One,
}

/// The real roots of a reduced cubic, from its discriminant and from the
/// imaginary part that its two further roots have if the discriminant is not
/// below zero: three if the discriminant is below zero or no number; else one
/// if the imaginary part is not zero, and one and a double one if it is.
pub open spec fn spec_cubic_roots(discriminant: Binary64, imaginary: Binary64) -> Roots {
    if !spec_le(ZERO, discriminant) {
        Roots::Three
    } else if spec_eq(imaginary, ZERO) {
        Roots::OneAndDouble
    } else {
        Roots::One
    }
}

/// The real roots of a reduced cubic.
#[verifier::when_used_as_spec(spec_cubic_roots)]
pub fn cubic_roots(discriminant: Binary64, imaginary: Binary64) -> (roots: Roots)
    ensures
        roots == spec_cubic_roots(discriminant, imaginary),
{
    if !ge(discriminant, ZERO) {
        Roots::Three
    } else if eq(imaginary, ZERO) {
        Roots::OneAndDouble
    } else {
        Roots::One
    }
}

/// The sign of `x`: -1 if `x` is below zero, else 1.
pub fn sgn(x: Binary64) -> (sign: Binary64)
    ensures
        sign == (if spec_lt(x, ZERO) {
            MINUS_ONE
        } else {
            ONE
        }),
{
    if lt(x, ZERO) {
        MINUS_ONE
    } else {
        ONE
    }
}

/// `root`, or -1 in its place if it lies outside the range from 0 to 1.
pub open spec fn marked(root: Binary64) -> Binary64 {
    if spec_lt(root, ZERO) || spec_lt(ONE, root) {
        MINUS_ONE
    } else {
        root
    }
}

/// Puts -1 in the place of every root that lies outside the range from 0 to 1.
pub fn mark_outside(roots: Vec<Binary64>) -> (kept: Vec<Binary64>)
    ensures
        kept.len() == roots.len(),
        forall|i: int| 0 <= i < roots.len() ==> #[trigger] kept[i] == marked(roots[i]),
{
    let mut kept = roots;
    let mut i: usize = 0;
    while i < kept.len()
        invariant
            i <= kept.len(),
            kept.len() == roots.len(),
            forall|k: int| 0 <= k < i ==> #[trigger] kept[k] == marked(roots[k]),
            forall|k: int| i <= k < roots.len() ==> #[trigger] kept[k] == roots[k],
        decreases kept.len() - i,
    {
        if lt(kept[i], ZERO) || gt(kept[i], ONE) {
            kept.set(i, MINUS_ONE);
        }
        i += 1;
    }
    kept
}

/// Whether `x`, standing right before `y`, stands in the wrong place: `y` is
/// not negative, and `x` is greater than it or is negative.
pub open spec fn out_of_order(x: Binary64, y: Binary64) -> bool {
    (spec_le(ZERO, y) && spec_lt(y, x)) || (spec_lt(x, ZERO) && spec_le(ZERO, y))
}

/// No entry stands in the wrong place before the next one.
pub open spec fn settled(s: Seq<Binary64>) -> bool {
    forall|i: int| 0 <= i < s.len() - 1 ==> !out_of_order(#[trigger] s[i], s[i + 1])
}

/// Whether sorting never exchanges `x` and `y`: they are equal, or both are
/// negative.
pub open spec fn alike(x: Binary64, y: Binary64) -> bool {
    spec_eq(x, y) || (spec_lt(x, ZERO) && spec_lt(y, ZERO))
}

/// The entries of `s` that are like `z`, in their order.
pub open spec fn entries_like(s: Seq<Binary64>, z: Binary64) -> Seq<Binary64>
    decreases s.len(),
{
    if s.len() == 0 {
        Seq::empty()
    } else {
        let rest = entries_like(s.drop_last(), z);
        if alike(s.last(), z) {
            rest.push(s.last())
        } else {
            rest
        }
    }
}

/// How many entries of `s` would stand in the wrong place before `y`.
spec fn ahead(s: Seq<Binary64>, y: Binary64) -> nat
    decreases s.len(),
{
    if s.len() == 0 {
        0
    } else {
        ahead(s.drop_last(), y) + if out_of_order(s.last(), y) {
            1nat
        } else {
            0nat
        }
    }
}

/// How many pairs of entries of `s` stand in the wrong order.
spec fn disorder(s: Seq<Binary64>) -> nat
    decreases s.len(),
{
    if s.len() == 0 {
        0
    } else {
        disorder(s.drop_last()) + ahead(s.drop_last(), s.last())
    }
}

/// `s` with its entries at `i` and `i + 1` exchanged.
spec fn exchanged(s: Seq<Binary64>, i: int) -> Seq<Binary64> {
    s.update(i, s[i + 1]).update(i + 1, s[i])
}

/// Exchanging two neighbours does not change how many entries stand in the
/// wrong place before `y`.
proof fn lemma_ahead_exchanged(s: Seq<Binary64>, i: int, y: Binary64)
    requires
        0 <= i < s.len() - 1,
    ensures
        ahead(exchanged(s, i), y) == ahead(s, y),
    decreases s.len(),
{
    let t = exchanged(s, i);
    if i + 1 == s.len() - 1 {
        let r = s.drop_last().drop_last();
        assert(t.drop_last().drop_last() =~= r);
        assert(ahead(s, y) == ahead(s.drop_last(), y) + if out_of_order(s.last(), y) {
            1nat
        } else {
            0nat
        });
        assert(ahead(s.drop_last(), y) == ahead(r, y) + if out_of_order(s[i], y) {
            1nat
        } else {
            0nat
        });
        assert(ahead(t, y) == ahead(t.drop_last(), y) + if out_of_order(t.last(), y) {
            1nat
        } else {
            0nat
        });
        assert(ahead(t.drop_last(), y) == ahead(r, y) + if out_of_order(s[i + 1], y) {
            1nat
        } else {
            0nat
        });
    } else {
        assert(t.drop_last() =~= exchanged(s.drop_last(), i));
        lemma_ahead_exchanged(s.drop_last(), i, y);
    }
}

/// Exchanging two neighbours that are not both like `z` leaves the entries
/// like `z` as they were.
proof fn lemma_like_exchanged(s: Seq<Binary64>, i: int, z: Binary64)
    requires
        0 <= i < s.len() - 1,
        !(alike(s[i], z) && alike(s[i + 1], z)),
    ensures
        entries_like(exchanged(s, i), z) == entries_like(s, z),
    decreases s.len(),
{
    let t = exchanged(s, i);
    if i + 1 == s.len() - 1 {
        let r = s.drop_last().drop_last();
        assert(t.drop_last().drop_last() =~= r);
        let kept = entries_like(r, z);
        assert(entries_like(s.drop_last(), z) == if alike(s[i], z) {
            kept.push(s[i])
        } else {
            kept
        });
        assert(entries_like(t.drop_last(), z) == if alike(s[i + 1], z) {
            kept.push(s[i + 1])
        } else {
            kept
        });
        assert(entries_like(s, z) == if alike(s[i + 1], z) {
            entries_like(s.drop_last(), z).push(s[i + 1])
        } else {
            entries_like(s.drop_last(), z)
        });
        assert(entries_like(t, z) == if alike(s[i], z) {
            entries_like(t.drop_last(), z).push(s[i])
        } else {
            entries_like(t.drop_last(), z)
        });
    } else {
        assert(t.drop_last() =~= exchanged(s.drop_last(), i));
        lemma_like_exchanged(s.drop_last(), i, z);
    }
}

/// Exchanging two neighbours of which the first stands in the wrong place
/// before the second takes one pair out of the wrong order.
proof fn lemma_disorder_exchanged(s: Seq<Binary64>, i: int)
    requires
        0 <= i < s.len() - 1,
        out_of_order(s[i], s[i + 1]),
    ensures
        disorder(exchanged(s, i)) + 1 == disorder(s),
    decreases s.len(),
{
    let t = exchanged(s, i);
    if i + 1 == s.len() - 1 {
        let x = s[i];
        let y = s[i + 1];
        let r = s.drop_last().drop_last();
        assert(t.drop_last().drop_last() =~= r);
        assert(disorder(s) == disorder(s.drop_last()) + ahead(s.drop_last(), y));
        assert(disorder(t) == disorder(t.drop_last()) + ahead(t.drop_last(), x));
    } else {
        assert(t.drop_last() =~= exchanged(s.drop_last(), i));
        lemma_disorder_exchanged(s.drop_last(), i);
        lemma_ahead_exchanged(s.drop_last(), i, s.last());
    }
}

/// Where every entry is a number, no entry of a settled sequence stands in the
/// wrong place before any later one: the entries that are not negative ascend,
/// and no negative entry comes before one that is not negative.
pub proof fn lemma_settled_is_ordered(s: Seq<Binary64>, i: int, j: int)
    requires
        settled(s),
        forall|k: int| 0 <= k < s.len() ==> !spec_is_nan(#[trigger] s[k]),
        0 <= i < j < s.len(),
    ensures
        !out_of_order(s[i], s[j]),
    decreases j - i,
{
    if j > i + 1 {
        lemma_settled_is_ordered(s, i, j - 1);
    }
}

/// Sorts roots for use: those that are not negative come first, in ascending
/// order, and the negative ones, which mark roots that were discarded, come
/// last.
///
/// Neighbours are exchanged as long as one stands in the wrong place before
/// the next. The result holds the entries of `a`, and none of them stands in
/// the wrong place before the next. Entries that are equal, and entries that
/// are negative, keep the order they came in, and what is no number keeps its
/// place.
pub fn sort_special(a: Vec<Binary64>) -> (sorted: Vec<Binary64>)
    ensures
        sorted@.to_multiset() == a@.to_multiset(),
        settled(sorted@),
        forall|z: Binary64| #[trigger] entries_like(sorted@, z) == entries_like(a@, z),
        forall|i: int|
            0 <= i < a.len() && (spec_is_nan(a[i]) || spec_is_nan(#[trigger] sorted[i])) ==> sorted[i]
                == a[i],
{
    let ghost given = a@;
    let mut a = a;
    if a.len() < 2 {
        return a;
    }
    let mut flipped = true;
    while flipped
        invariant
            a.len() == given.len(),
            a.len() >= 2,
            a@.to_multiset() == given.to_multiset(),
            forall|z: Binary64| #[trigger] entries_like(a@, z) == entries_like(given, z),
            forall|k: int|
                0 <= k < a.len() && (spec_is_nan(given[k]) || spec_is_nan(#[trigger] a@[k])) ==> a@[k]
                    == given[k],
            !flipped ==> settled(a@),
        decreases disorder(a@), (if flipped { 1nat } else { 0nat }),
    {
        flipped = false;
        let ghost at_start = a@;
        let mut i: usize = 0;
        while i < a.len() - 1
            invariant
                i <= a.len() - 1,
                a.len() == given.len(),
                a.len() >= 2,
                a@.to_multiset() == given.to_multiset(),
                forall|z: Binary64| #[trigger] entries_like(a@, z) == entries_like(given, z),
                forall|k: int|
                    0 <= k < a.len() && (spec_is_nan(given[k]) || spec_is_nan(#[trigger] a@[k])) ==> a@[k]
                        == given[k],
                disorder(a@) <= disorder(at_start),
                flipped ==> disorder(a@) < disorder(at_start),
                !flipped ==> a@ == at_start,
                !flipped ==> forall|k: int| 0 <= k < i ==> !out_of_order(#[trigger] a@[k], a@[k + 1]),
            decreases a.len() - 1 - i,
        {
            let x = a[i];
            let y = a[i + 1];
            if (ge(y, ZERO) && gt(x, y)) || (lt(x, ZERO) && ge(y, ZERO)) {
                let ghost before = a@;
                a.set(i, y);
                a.set(i + 1, x);
                proof {
                    lemma_disorder_exchanged(before, i as int);
                    broadcast use vstd::multiset::group_multiset_axioms;
                    before.to_multiset_ensures();
                    vstd::seq_lib::to_multiset_update(before, i as int, y);
                    vstd::seq_lib::to_multiset_update(before.update(i as int, y), i + 1, x);
                    assert forall|z: Binary64| #[trigger] entries_like(a@, z) == entries_like(given, z) by {
                        lemma_like_exchanged(before, i as int, z);
                    }
                }
                flipped = true;
            }
            i += 1;
        }
    }
    a
}

} // verus!
