//! The convex hull of four distances over the parameter, and where a level
//! clips it.
use vstd::prelude::*;
use crate::binary64::{
    abs, absolute, eq, ge, gt, le, lt, spec_eq, spec_le, spec_lt, Binary64, HALF, ONE, ONE_THIRD, TWO,
    TWO_THIRDS, ZERO,
};

verus! {

/// A point of the plane of parameter and distance: the parameter first.
pub type Point = (Binary64, Binary64);

/// The two chains of the hull of the points `(0, dq0)`, `(1/3, dq1)`,
/// `(2/3, dq2)`, `(1, dq3)`, before it is known which lies above the other.
///
/// `product` is the product of the deviations of `dq1` and `dq2` from the
/// chord from the first point to the last, and `ratio` their quotient, the
/// first by the second. A negative product puts one inner point on each
/// chain. Otherwise both lie on the first chain, unless one deviates twice as
/// far as the other or more: then it hides the other.
pub open spec fn chains(
    dq0: Binary64,
    dq1: Binary64,
    dq2: Binary64,
    dq3: Binary64,
    product: Binary64,
    ratio: Binary64,
) -> (Seq<Point>, Seq<Point>) {
    let start = (ZERO, dq0);
    let low = (ONE_THIRD, dq1);
    let high = (TWO_THIRDS, dq2);
    let end = (ONE, dq3);
    if spec_lt(product, ZERO) {
        (seq![start, low, end], seq![start, high, end])
    } else if spec_le(TWO, absolute(ratio)) {
        (seq![start, low, end], seq![start, end])
    } else if spec_le(absolute(ratio), HALF) {
        (seq![start, high, end], seq![start, end])
    } else {
        (seq![start, low, high, end], seq![start, end])
    }
}

/// Whether the first chain lies below the chord: the first deviation that is
/// not zero is negative.
pub open spec fn is_below(dist1: Binary64, dist2: Binary64) -> bool {
    if spec_lt(ZERO, dist1) {
        false
    } else if spec_lt(dist1, ZERO) {
        true
    } else {
        spec_lt(dist2, ZERO)
    }
}

/// The hull of the four distances, as its upper chain and its lower chain.
pub open spec fn convex_hull(
    dq0: Binary64,
    dq1: Binary64,
    dq2: Binary64,
    dq3: Binary64,
    dist1: Binary64,
    dist2: Binary64,
    product: Binary64,
    ratio: Binary64,
) -> (Seq<Point>, Seq<Point>) {
    let found = chains(dq0, dq1, dq2, dq3, product, ratio);
    if is_below(dist1, dist2) {
        (found.1, found.0)
    } else {
        found
    }
}

/// Each chain of a hull runs from the first of the four points to the last,
/// over none, one or both of the others.
pub proof fn lemma_hull_ends(
    dq0: Binary64,
    dq1: Binary64,
    dq2: Binary64,
    dq3: Binary64,
    dist1: Binary64,
    dist2: Binary64,
    product: Binary64,
    ratio: Binary64,
)
    ensures
        ({
            let hull = convex_hull(dq0, dq1, dq2, dq3, dist1, dist2, product, ratio);
            &&& 2 <= hull.0.len() <= 4
            &&& 2 <= hull.1.len() <= 4
            &&& hull.0.first() == (ZERO, dq0)
            &&& hull.1.first() == (ZERO, dq0)
            &&& hull.0.last() == (ONE, dq3)
            &&& hull.1.last() == (ONE, dq3)
        }),
{
}

/// The convex hull of the points `(0, dq0)`, `(1/3, dq1)`, `(2/3, dq2)`,
/// `(1, dq3)`, as the chain above the chord from the first point to the last
/// and the chain below it, each from left to right.
///
/// `dist1` and `dist2` are the deviations of `dq1` and `dq2` from the chord,
/// `product` is their product and `ratio` the quotient of the first by the
/// second.
pub fn get_convex_hull(
    dq0: Binary64,
    dq1: Binary64,
    dq2: Binary64,
    dq3: Binary64,
    dist1: Binary64,
    dist2: Binary64,
    product: Binary64,
    ratio: Binary64,
) -> (hull: (Vec<Point>, Vec<Point>))
    ensures
        (hull.0@, hull.1@) == convex_hull(dq0, dq1, dq2, dq3, dist1, dist2, product, ratio),
{
    let start = (ZERO, dq0);
    let low = (ONE_THIRD, dq1);
    let high = (TWO_THIRDS, dq2);
    let end = (ONE, dq3);
    let mut first: Vec<Point> = Vec::new();
    let mut second: Vec<Point> = Vec::new();
    first.push(start);
    second.push(start);
    if lt(product, ZERO) {
        first.push(low);
        second.push(high);
    } else if ge(abs(ratio), TWO) {
        first.push(low);
    } else if le(abs(ratio), HALF) {
        first.push(high);
    } else {
        first.push(low);
        first.push(high);
    }
    first.push(end);
    second.push(end);
    if gt(dist1, ZERO) {
        (first, second)
    } else if lt(dist1, ZERO) {
        (second, first)
    } else if lt(dist2, ZERO) {
        (second, first)
    } else {
        (first, second)
    }
}

/// Where a chain of the hull comes to a level.
#[derive(Clone, Copy, Debug)]
pub enum Crossing {
    /// At the parameter of a vertex.
    At(Binary64),
    /// Between two vertices that follow each other: the level is reached on
    /// the way from `from` to `to`.
    Between { from: Point, to: Point, level: Binary64 },
    /// Nowhere.
    Nowhere,
}

/// Whether a vertex has come to the threshold: from below for the upper
/// chain, from above for the lower one.
pub open spec fn arrives(vertex: Point, is_top: bool, threshold: Binary64) -> bool {
    if is_top {
        spec_le(threshold, vertex.1)
    } else {
        spec_le(vertex.1, threshold)
    }
}

/// Where `part` first comes to `threshold` at or after its vertex `i`, which
/// is not its first.
pub open spec fn crossing_from(part: Seq<Point>, is_top: bool, threshold: Binary64, i: int) -> Crossing
    decreases part.len() - i,
{
    if i < 1 || i >= part.len() {
        Crossing::Nowhere
    } else if arrives(part[i], is_top, threshold) {
        if spec_eq(part[i].1, threshold) {
            Crossing::At(part[i].0)
        } else {
            Crossing::Between { from: part[i - 1], to: part[i], level: threshold }
        }
    } else {
        crossing_from(part, is_top, threshold, i + 1)
    }
}

/// Where a chain that begins beyond `threshold` first comes to it: at the
/// first vertex after the first that lies on the threshold or on the other
/// side of it.
pub fn clip_convex_hull_part(part: &Vec<Point>, is_top: bool, threshold: Binary64) -> (crossing: Crossing)
    ensures
        crossing == crossing_from(part@, is_top, threshold, 1),
{
    let mut i: usize = 1;
    while i < part.len()
        invariant
            1 <= i,
            crossing_from(part@, is_top, threshold, i as int) == crossing_from(part@, is_top, threshold, 1),
        decreases part.len() - i,
    {
        let current = part[i];
        if (is_top && ge(current.1, threshold)) || (!is_top && le(current.1, threshold)) {
            if eq(current.1, threshold) {
                return Crossing::At(current.0);
            }
            return Crossing::Between { from: part[i - 1], to: current, level: threshold };
        }
        i += 1;
    }
    Crossing::Nowhere
}

/// Where the hull is first clipped by the band from `d_min` to `d_max`.
///
/// A hull that begins below the band is clipped where its upper chain comes
/// to `d_min`; one that begins above it, where its lower chain comes to
/// `d_max`; one that begins inside it, at its first point.
pub open spec fn clip(top: Seq<Point>, bottom: Seq<Point>, d_min: Binary64, d_max: Binary64) -> Crossing {
    if spec_lt(top[0].1, d_min) {
        crossing_from(top, true, d_min, 1)
    } else if spec_lt(d_max, bottom[0].1) {
        crossing_from(bottom, false, d_max, 1)
    } else {
        Crossing::At(top[0].0)
    }
}

/// Where the hull is first clipped by the band from `d_min` to `d_max`.
pub fn clip_convex_hull(
    hull_top: &Vec<Point>,
    hull_bottom: &Vec<Point>,
    d_min: Binary64,
    d_max: Binary64,
) -> (crossing: Crossing)
    requires
        hull_top.len() > 0,
        hull_bottom.len() > 0 || lt(hull_top[0].1, d_min),
    ensures
        crossing == clip(hull_top@, hull_bottom@, d_min, d_max),
{
    if lt(hull_top[0].1, d_min) {
        clip_convex_hull_part(hull_top, true, d_min)
    } else if gt(hull_bottom[0].1, d_max) {
        clip_convex_hull_part(hull_bottom, false, d_max)
    } else {
        Crossing::At(hull_top[0].0)
    }
}

} // verus!
