//! A single curve: which formula gives its point or tangent at a parameter,
//! how a point's distance from a line is measured, and how wide its fat line
//! is.
use vstd::prelude::*;
use crate::binary64::{
    eq, gt, is_nan, is_zero, lt, spec_eq, spec_is_nan, spec_le, spec_lt, Binary64, CURVETIME_EPSILON,
    CURVETIME_MAX, EPSILON, MINUS_EPSILON, ONE, ZERO,
};

verus! {

/// 3/4
pub const THREE_QUARTERS: Binary64 = 0x3FE8_0000_0000_0000;

/// The binary64 number nearest to 4/9.
pub const FOUR_NINTHS: Binary64 = 0x3FDC_71C7_1C71_C71C;

/// The part of a curve that a parameter lies in.
#[derive(Clone, Copy, Debug, PartialEq, Eq, Structural)]
pub enum Zone {
    /// At the first end point: the value is that of the end.
    Start,
    /// At the last end point: the value is that of the end.
    End,
    /// Between the ends: the value is that of the polynomial.
    Inner,
}

/// The zone of the parameter `t`, or `None` if `t` is not a number from 0 to
/// 1. For a point, where `kind` is 0, the ends are the parameters 0 and 1
/// alone. For a tangent, a normal or a curvature, where it is not, an end
/// reaches 1e-8 into the curve.
pub open spec fn spec_evaluate(t: Binary64, kind: u8) -> Option<Zone> {
    if spec_is_nan(t) || spec_lt(t, ZERO) || spec_lt(ONE, t) {
        None
    } else if kind == 0 {
        if spec_eq(t, ZERO) {
            Some(Zone::Start)
        } else if spec_eq(t, ONE) {
            Some(Zone::End)
        } else {
            Some(Zone::Inner)
        }
    } else if spec_lt(t, CURVETIME_EPSILON) {
        Some(Zone::Start)
    } else if spec_lt(CURVETIME_MAX, t) {
        Some(Zone::End)
    } else {
        Some(Zone::Inner)
    }
}

/// Which formula gives a value of a curve at the parameter `t`, or `None` if
/// the curve has no value there. `kind` is 0 for the point, 1 for the
/// tangent, 2 for the normal and 3 for the curvature.
#[verifier::when_used_as_spec(spec_evaluate)]
pub fn evaluate(t: Binary64, kind: u8) -> (zone: Option<Zone>)
    ensures
        zone == spec_evaluate(t, kind),
        zone is None <==> spec_is_nan(t) || spec_lt(t, ZERO) || spec_lt(ONE, t),
{
    if is_nan(t) || lt(t, ZERO) || gt(t, ONE) {
        return None;
    }
    if kind == 0 {
        if eq(t, ZERO) {
            Some(Zone::Start)
        } else if eq(t, ONE) {
            Some(Zone::End)
        } else {
            Some(Zone::Inner)
        }
    } else if lt(t, CURVETIME_EPSILON) {
        Some(Zone::Start)
    } else if gt(t, CURVETIME_MAX) {
        Some(Zone::End)
    } else {
        Some(Zone::Inner)
    }
}

/// Which cuts give the part of a curve between the parameters `t1` and `t2`:
/// the curve is cut at `t1`, and what comes before is dropped, if `t1` is
/// above 0; what is left is cut at `t2`, and what comes after is dropped, if
/// `t2` is below 1.
pub fn split_cubic_bezier_part(t1: Binary64, t2: Binary64) -> (cuts: (bool, bool))
    ensures
        cuts.0 == spec_lt(ZERO, t1),
        cuts.1 == spec_lt(t2, ONE),
{
    (gt(t1, ZERO), lt(t2, ONE))
}

/// Whether a control point has collapsed onto its end point: both
/// differences, `dx` and `dy`, lie within 1e-12 of zero. The end point is
/// then taken in its place.
pub fn is_collapsed(dx: Binary64, dy: Binary64) -> (r: bool)
    ensures
        r == (spec_le(MINUS_EPSILON, dx) && spec_le(dx, EPSILON) && spec_le(MINUS_EPSILON, dy) && spec_le(
            dy,
            EPSILON,
        )),
{
    is_zero(dx) && is_zero(dy)
}

/// How the distance of a point from a line is measured, by the direction of
/// the line. The sign tells the side of the line the point lies on.
#[derive(Clone, Copy, Debug, PartialEq, Eq, Structural)]
pub enum Measure {
    /// The line runs up or down: the distance is `x - px` or, with
    /// `reversed`, `px - x`.
    AlongX { reversed: bool },
    /// The line runs left or right: the distance is `y - py` or, with
    /// `reversed`, `py - y`.
    AlongY { reversed: bool },
    /// The line is oblique: the cross product of the way to the point with
    /// the direction is divided by the length of the direction, which is
    /// scaled by `vy` if that is the greater component, else by `vx`.
    Oblique { by_y: bool },
}

/// How the distance from a line of the direction `(vx, vy)` is measured.
pub open spec fn spec_signed_distance(vx: Binary64, vy: Binary64) -> Measure {
    if spec_eq(vx, ZERO) {
        Measure::AlongX { reversed: !spec_lt(ZERO, vy) }
    } else if spec_eq(vy, ZERO) {
        Measure::AlongY { reversed: !spec_lt(vx, ZERO) }
    } else {
        Measure::Oblique { by_y: spec_lt(vx, vy) }
    }
}

/// How the distance from a line of the direction `(vx, vy)` is measured.
#[verifier::when_used_as_spec(spec_signed_distance)]
pub fn signed_distance(vx: Binary64, vy: Binary64) -> (measure: Measure)
    ensures
        measure == spec_signed_distance(vx, vy),
{
    if eq(vx, ZERO) {
        Measure::AlongX { reversed: !gt(vy, ZERO) }
    } else if eq(vy, ZERO) {
        Measure::AlongY { reversed: !lt(vx, ZERO) }
    } else {
        Measure::Oblique { by_y: gt(vy, vx) }
    }
}

/// The smaller of two numbers; where one is no number, the other.
pub open spec fn lower(a: Binary64, b: Binary64) -> Binary64 {
    if spec_is_nan(a) {
        b
    } else if spec_lt(b, a) {
        b
    } else {
        a
    }
}

/// The greater of two numbers; where one is no number, the other.
pub open spec fn upper(a: Binary64, b: Binary64) -> Binary64 {
    if spec_is_nan(a) {
        b
    } else if spec_lt(a, b) {
        b
    } else {
        a
    }
}

/// The fat line of a curve before scaling: the factor by which its width is
/// scaled, and the least and the greatest of zero and the distances `d1` and
/// `d2` of its two control points from its chord. `product` is the product
/// of the two distances: control points on the same side of the chord give
/// the factor 3/4, others 4/9.
pub fn get_fatline(d1: Binary64, d2: Binary64, product: Binary64) -> (line: (Binary64, Binary64, Binary64))
    ensures
        line.0 == (if spec_lt(ZERO, product) {
            THREE_QUARTERS
        } else {
            FOUR_NINTHS
        }),
        line.1 == lower(lower(d1, d2), ZERO),
        line.2 == upper(upper(d1, d2), ZERO),
{
    let factor = if gt(product, ZERO) {
        THREE_QUARTERS
    } else {
        FOUR_NINTHS
    };
    (factor, smaller(smaller(d1, d2), ZERO), greater(greater(d1, d2), ZERO))
}

/// The smaller of two numbers; where one is no number, the other.
fn smaller(a: Binary64, b: Binary64) -> (r: Binary64)
    ensures
        r == lower(a, b),
{
    if is_nan(a) {
        b
    } else if lt(b, a) {
        b
    } else {
        a
    }
}

/// The greater of two numbers; where one is no number, the other.
fn greater(a: Binary64, b: Binary64) -> (r: Binary64)
    ensures
        r == upper(a, b),
{
    if is_nan(a) {
        b
    } else if gt(b, a) {
        b
    } else {
        a
    }
}

} // verus!
