//! One pair of curves: which way of intersecting applies to it, and what of
//! its outcome is kept.
use vstd::prelude::*;
use crate::binary64::{
    eq, ge, gt, is_machine_zero, is_zero, le, lt, spec_eq, spec_is_nan, spec_le, spec_lt, Binary64,
    MACHINE_EPSILON, MINUS_EPSILON, EPSILON, MINUS_MACHINE_EPSILON, MINUS_ONE, ONE,
    ONE_PLUS_MACHINE_EPSILON, ZERO,
};

verus! {

/// The least of `values`, found from the left: a later value takes the place
/// of an earlier one only when it is below it.
pub open spec fn least(values: Seq<Binary64>) -> Binary64
    decreases values.len(),
{
    if values.len() <= 1 {
        values[0]
    } else {
        let before = least(values.drop_last());
        if spec_lt(values.last(), before) {
            values.last()
        } else {
            before
        }
    }
}

/// The greatest of `values`, found from the left: a later value takes the
/// place of an earlier one only when it is above it.
pub open spec fn greatest(values: Seq<Binary64>) -> Binary64
    decreases values.len(),
{
    if values.len() <= 1 {
        values[0]
    } else {
        let before = greatest(values.drop_last());
        if spec_lt(before, values.last()) {
            values.last()
        } else {
            before
        }
    }
}

/// The least of `values`.
pub fn find_min(values: &[Binary64]) -> (found: Binary64)
    requires
        values.len() > 0,
    ensures
        found == least(values@),
{
    let mut found = values[0];
    let mut i: usize = 1;
    while i < values.len()
        invariant
            1 <= i <= values.len(),
            found == least(values@.take(i as int)),
        decreases values.len() - i,
    {
        assert(values@.take(i + 1).drop_last() =~= values@.take(i as int));
        if lt(values[i], found) {
            found = values[i];
        }
        i += 1;
    }
    assert(values@.take(values.len() as int) =~= values@);
    found
}

/// The greatest of `values`.
pub fn find_max(values: &[Binary64]) -> (found: Binary64)
    requires
        values.len() > 0,
    ensures
        found == greatest(values@),
{
    let mut found = values[0];
    let mut i: usize = 1;
    while i < values.len()
        invariant
            1 <= i <= values.len(),
            found == greatest(values@.take(i as int)),
        decreases values.len() - i,
    {
        assert(values@.take(i + 1).drop_last() =~= values@.take(i as int));
        if gt(values[i], found) {
            found = values[i];
        }
        i += 1;
    }
    assert(values@.take(values.len() as int) =~= values@);
    found
}

/// The least of numbers is one of them, and where none of them is a NaN it is
/// below or equal to each.
pub proof fn lemma_least(values: Seq<Binary64>)
    requires
        values.len() > 0,
    ensures
        values.contains(least(values)),
        (forall|i: int| 0 <= i < values.len() ==> !spec_is_nan(#[trigger] values[i])) ==> forall|i: int|
            0 <= i < values.len() ==> spec_le(least(values), #[trigger] values[i]),
    decreases values.len(),
{
    if values.len() > 1 {
        let front = values.drop_last();
        lemma_least(front);
        if forall|i: int| 0 <= i < values.len() ==> !spec_is_nan(#[trigger] values[i]) {
            assert forall|i: int| 0 <= i < front.len() implies !spec_is_nan(#[trigger] front[i]) by {}
            assert forall|i: int| 0 <= i < values.len() implies spec_le(least(values), #[trigger] values[i]) by {
                if i < front.len() {
                    assert(front[i] == values[i]);
                }
            }
        }
    }
}

/// The greatest of numbers is one of them, and where none of them is a NaN it
/// is above or equal to each.
pub proof fn lemma_greatest(values: Seq<Binary64>)
    requires
        values.len() > 0,
    ensures
        values.contains(greatest(values)),
        (forall|i: int| 0 <= i < values.len() ==> !spec_is_nan(#[trigger] values[i])) ==> forall|i: int|
            0 <= i < values.len() ==> spec_le(#[trigger] values[i], greatest(values)),
    decreases values.len(),
{
    if values.len() > 1 {
        let front = values.drop_last();
        lemma_greatest(front);
        if forall|i: int| 0 <= i < values.len() ==> !spec_is_nan(#[trigger] values[i]) {
            assert forall|i: int| 0 <= i < front.len() implies !spec_is_nan(#[trigger] front[i]) by {}
            assert forall|i: int| 0 <= i < values.len() implies spec_le(#[trigger] values[i], greatest(values)) by {
                if i < front.len() {
                    assert(front[i] == values[i]);
                }
            }
        }
    }
}

/// The way in which a pair of curves is intersected.
#[derive(Clone, Copy, Debug, PartialEq, Eq, Structural)]
pub enum Regime {
    /// The control polygons lie apart: the curves do not meet.
    Apart,
    /// Both curves are straight: their chords are intersected as lines.
    Lines,
    /// One curve is straight: its chord is intersected with the other curve.
    /// `line_first` tells whether the straight one is the first of the pair.
    LineAndCurve { line_first: bool },
    /// Neither curve is straight: the curves are clipped against each other.
    Curves,
}

/// The x coordinates of the four control points of `v`.
pub open spec fn xs(v: [Binary64; 8]) -> Seq<Binary64> {
    seq![v[0], v[2], v[4], v[6]]
}

/// The y coordinates of the four control points of `v`.
pub open spec fn ys(v: [Binary64; 8]) -> Seq<Binary64> {
    seq![v[1], v[3], v[5], v[7]]
}

/// The box `[min_x, min_y, max_x, max_y]` of the control polygon of `v`.
pub fn control_bounds(v: &[Binary64; 8]) -> (bounds: [Binary64; 4])
    ensures
        bounds[0] == least(xs(*v)),
        bounds[1] == least(ys(*v)),
        bounds[2] == greatest(xs(*v)),
        bounds[3] == greatest(ys(*v)),
{
    let x = [v[0], v[2], v[4], v[6]];
    let y = [v[1], v[3], v[5], v[7]];
    [find_min(x.as_slice()), find_min(y.as_slice()), find_max(x.as_slice()), find_max(y.as_slice())]
}

/// Whether two boxes share an inner point: each begins strictly before the
/// other ends, on both axes.
pub fn boxes_overlap(p: &[Binary64; 4], q: &[Binary64; 4]) -> (r: bool)
    ensures
        r == (lt(q[0], p[2]) && lt(p[0], q[2]) && lt(q[1], p[3]) && lt(p[1], q[3])),
{
    gt(p[2], q[0]) && lt(p[0], q[2]) && gt(p[3], q[1]) && lt(p[1], q[3])
}

/// Whether each control point of `v` is equal to the end point next to it, so
/// that the curve is its chord.
pub open spec fn spec_is_straight(v: [Binary64; 8]) -> bool {
    spec_eq(v[2], v[0]) && spec_eq(v[3], v[1]) && spec_eq(v[4], v[6]) && spec_eq(v[5], v[7])
}

/// Whether the curve `v` is its chord.
pub fn is_straight(v: &[Binary64; 8]) -> (r: bool)
    ensures
        r == spec_is_straight(*v),
{
    eq(v[2], v[0]) && eq(v[3], v[1]) && eq(v[4], v[6]) && eq(v[5], v[7])
}

/// Whether the box `grown` and the box of the control polygon of `v` share an
/// inner point.
pub open spec fn reaches(grown: [Binary64; 4], v: [Binary64; 8]) -> bool {
    &&& lt(least(xs(v)), grown[2])
    &&& lt(grown[0], greatest(xs(v)))
    &&& lt(least(ys(v)), grown[3])
    &&& lt(grown[1], greatest(ys(v)))
}

/// The way in which `v1` and `v2` are intersected, where `grown` is the box of
/// the control polygon of `v1`, widened on each side by 1e-12.
pub open spec fn spec_regime(v1: [Binary64; 8], v2: [Binary64; 8], grown: [Binary64; 4]) -> Regime {
    if !reaches(grown, v2) {
        Regime::Apart
    } else if spec_is_straight(v1) && spec_is_straight(v2) {
        Regime::Lines
    } else if spec_is_straight(v1) || spec_is_straight(v2) {
        Regime::LineAndCurve { line_first: spec_is_straight(v1) }
    } else {
        Regime::Curves
    }
}

/// The way in which `v1` and `v2` are intersected. `grown` is to be the box
/// of the control polygon of `v1`, widened on each side by 1e-12: the pair is
/// `Apart` unless that box and the box of `v2` share an inner point.
pub fn regime(v1: &[Binary64; 8], v2: &[Binary64; 8], grown: &[Binary64; 4]) -> (r: Regime)
    ensures
        r == spec_regime(*v1, *v2, *grown),
{
    let second = control_bounds(v2);
    if !boxes_overlap(grown, &second) {
        Regime::Apart
    } else {
        let straight1 = is_straight(v1);
        let straight2 = is_straight(v2);
        if straight1 && straight2 {
            Regime::Lines
        } else if straight1 || straight2 {
            Regime::LineAndCurve { line_first: straight1 }
        } else {
            Regime::Curves
        }
    }
}

/// The record of the point `(x, y)` in which two straight curves meet, or
/// `None` where the point is an end point of both: curves that share an end
/// do not count as meeting there. A record of two lines holds -1 in place of
/// the two parameters.
pub open spec fn spec_line_record(x: Binary64, y: Binary64, v1: [Binary64; 8], v2: [Binary64; 8]) -> Option<
    [Binary64; 6],
> {
    if is_end_of(x, y, v1) && is_end_of(x, y, v2) {
        None
    } else {
        Some([MINUS_ONE, x, y, MINUS_ONE, x, y])
    }
}

/// Whether `(x, y)` is equal to one of the two end points of `v`.
pub open spec fn is_end_of(x: Binary64, y: Binary64, v: [Binary64; 8]) -> bool {
    (spec_eq(x, v[0]) && spec_eq(y, v[1])) || (spec_eq(x, v[6]) && spec_eq(y, v[7]))
}

/// The record of the point in which two straight curves meet, if it counts.
pub fn line_record(x: Binary64, y: Binary64, v1: &[Binary64; 8], v2: &[Binary64; 8]) -> (record: Option<
    [Binary64; 6],
>)
    ensures
        record == spec_line_record(x, y, *v1, *v2),
{
    let on_first = (eq(x, v1[0]) && eq(y, v1[1])) || (eq(x, v1[6]) && eq(y, v1[7]));
    let on_second = (eq(x, v2[0]) && eq(y, v2[1])) || (eq(x, v2[6]) && eq(y, v2[7]));
    if on_first && on_second {
        None
    } else {
        Some([MINUS_ONE, x, y, MINUS_ONE, x, y])
    }
}

/// The record of a point `(x, y)` in which a straight curve meets a curve at
/// the parameter `t` of the curve. The straight one has no parameter and gets
/// -1; the columns of the first curve of the pair come first.
pub fn line_and_curve_record(t: Binary64, x: Binary64, y: Binary64, line_first: bool) -> (record: [Binary64; 6])
    ensures
        record == (if line_first {
            [MINUS_ONE, x, y, t, x, y]
        } else {
            [t, x, y, MINUS_ONE, x, y]
        }),
{
    if line_first {
        [MINUS_ONE, x, y, t, x, y]
    } else {
        [t, x, y, MINUS_ONE, x, y]
    }
}

/// Whether the place of a point on a line is measured along x: the line
/// reaches at least as far along x, by `dx`, as along y, by `dy`.
pub fn is_measured_along_x(dx: Binary64, dy: Binary64) -> (r: bool)
    ensures
        r == !spec_lt(crate::binary64::absolute(dx), crate::binary64::absolute(dy)),
{
    !lt(crate::binary64::abs(dx), crate::binary64::abs(dy))
}

/// Whether a root `t` of a curve against a line, found at the parameter `s`
/// of the line, is a point of both: each of the two is a number from 0 to 1.
pub fn is_on_both(t: Binary64, s: Binary64) -> (r: bool)
    ensures
        r == (spec_le(ZERO, t) && spec_le(t, ONE) && spec_le(ZERO, s) && spec_le(s, ONE)),
{
    le(ZERO, t) && le(t, ONE) && le(ZERO, s) && le(s, ONE)
}

/// Whether `u` lies strictly between -1.12e-16 and 1 + 1.12e-16.
pub open spec fn is_on_segment(u: Binary64) -> bool {
    spec_lt(MINUS_MACHINE_EPSILON, u) && spec_lt(u, ONE_PLUS_MACHINE_EPSILON)
}

/// `u`, brought into the range from 0 to 1.
pub open spec fn clamped(u: Binary64) -> Binary64 {
    if spec_le(u, ZERO) {
        ZERO
    } else if spec_le(ONE, u) {
        ONE
    } else {
        u
    }
}

/// Where on the first of two segments they meet, from the cross product of
/// their directions and the parameters `u1` and `u2` of the meeting point of
/// their lines: nowhere if the cross product lies within 1.12e-16 of zero, or
/// if a parameter is not on its segment; else at `u1`, brought into the range
/// from 0 to 1.
pub fn line_intersection(cross: Binary64, u1: Binary64, u2: Binary64) -> (t: Option<Binary64>)
    ensures
        t == (if !(spec_le(MINUS_MACHINE_EPSILON, cross) && spec_le(cross, MACHINE_EPSILON))
            && is_on_segment(u1) && is_on_segment(u2) {
            Some(clamped(u1))
        } else {
            None
        }),
{
    if !is_machine_zero(cross) {
        if lt(MINUS_MACHINE_EPSILON, u1) && lt(u1, ONE_PLUS_MACHINE_EPSILON) && lt(
            MINUS_MACHINE_EPSILON,
            u2,
        ) && lt(u2, ONE_PLUS_MACHINE_EPSILON) {
            let t = if le(u1, ZERO) {
                ZERO
            } else if ge(u1, ONE) {
                ONE
            } else {
                u1
            };
            return Some(t);
        }
    }
    None
}

/// Whether `t` lies strictly between 0 and 1.
pub open spec fn is_inside(t: Binary64) -> bool {
    spec_lt(ZERO, t) && spec_lt(t, ONE)
}

/// The two parameters at which a curve crosses itself, the smaller first, or
/// `None` if it does not.
///
/// `d1` is the leading coefficient of the curve's inflection polynomial,
/// `discriminant` that of the polynomial, and `t1` and `t2` are the two
/// parameters that follow from them. The curve has a loop only if `d1` does
/// not lie within 1e-12 of zero and the discriminant is not zero or more, and
/// it crosses itself only if both parameters lie inside the curve.
pub fn get_self_intersection(d1: Binary64, discriminant: Binary64, t1: Binary64, t2: Binary64) -> (found: Option<
    (Binary64, Binary64),
>)
    ensures
        found == (if (spec_le(MINUS_EPSILON, d1) && spec_le(d1, EPSILON)) || spec_le(ZERO, discriminant)
            || !(is_inside(t1) && is_inside(t2)) {
            None
        } else if spec_lt(t1, t2) {
            Some((t1, t2))
        } else {
            Some((t2, t1))
        }),
{
    if is_zero(d1) {
        return None;
    }
    if ge(discriminant, ZERO) {
        return None;
    }
    let t1_ok = gt(t1, ZERO) && lt(t1, ONE);
    let t2_ok = gt(t2, ZERO) && lt(t2, ONE);
    if !(t1_ok && t2_ok) {
        return None;
    }
    if lt(t1, t2) {
        Some((t1, t2))
    } else {
        Some((t2, t1))
    }
}

} // verus!
