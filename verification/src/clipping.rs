//! Curve against curve: the bookkeeping of the clipping recursion.
//!
//! Clipping narrows the parameter window of one curve against the fat line of
//! the other, and then goes on with a part of the curve, with its two halves,
//! or with the roles of the two curves changed. The arithmetic of a step is
//! the caller's; which calls are still made, and which follow from a step, is
//! decided here.
use vstd::prelude::*;
use crate::binary64::{
    eq, ge, gt, is_nan, lt, spec_is_nan, spec_le, spec_lt, Binary64, CURVETIME_EPSILON,
    CURVETIME_MAX, FATLINE_EPSILON, FOUR_FIFTHS, ONE, ZERO,
};

verus! {

/// No call is worked on once this many have been made.
pub const CALL_LIMIT: u16 = 4096;

/// No call is worked on at this depth or beyond.
pub const DEPTH_LIMIT: u8 = 40;

/// One call of the clipping recursion.
#[derive(Clone, Copy, Debug)]
pub struct Frame {
    /// The curve that is clipped.
    pub first: [Binary64; 8],
    /// The curve whose fat line clips it.
    pub second: [Binary64; 8],
    /// Whether `first` is a part of the second curve of the pair.
    pub flip: bool,
    /// The depth of the call; the outermost call, once taken up, has depth 1.
    pub recursion: u8,
    /// The window of `first` within its whole curve.
    pub t_min: Binary64,
    pub t_max: Binary64,
    /// The window of `second` within its whole curve.
    pub u_min: Binary64,
    pub u_max: Binary64,
}

/// How a step goes on when the windows have not converged.
#[derive(Clone, Copy, Debug, PartialEq, Eq, Structural)]
pub enum Subdivision {
    /// The clip took away too little and the first curve has the wider
    /// window: go on with each half of its clipped part.
    SplitFirst,
    /// The clip took away too little and the second curve has the wider
    /// window: go on with each half of it.
    SplitSecond,
    /// Go on with the roles of the two curves changed.
    Swap,
    /// The window of the second curve has closed, to a width below 1e-9: go on
    /// in the same roles.
    Keep,
}

/// Whether all six distances are zero: the two control polygons lie on one
/// line, and clipping cannot tell where the curves meet.
pub fn is_collinear(
    d1: Binary64,
    d2: Binary64,
    dp0: Binary64,
    dp1: Binary64,
    dp2: Binary64,
    dp3: Binary64,
) -> (r: bool)
    ensures
        r == (eq(d1, ZERO) && eq(d2, ZERO) && eq(dp0, ZERO) && eq(dp1, ZERO) && eq(dp2, ZERO) && eq(
            dp3,
            ZERO,
        )),
{
    eq(d1, ZERO) && eq(d2, ZERO) && eq(dp0, ZERO) && eq(dp1, ZERO) && eq(dp2, ZERO) && eq(dp3, ZERO)
}

/// Whether the wider of the two windows is narrower than 1e-9. A width that
/// is a NaN is left out of the account; two such widths have not converged.
pub open spec fn spec_has_converged(u_span: Binary64, t_span: Binary64) -> bool {
    if spec_is_nan(u_span) {
        spec_lt(t_span, FATLINE_EPSILON)
    } else if spec_is_nan(t_span) {
        spec_lt(u_span, FATLINE_EPSILON)
    } else {
        spec_lt(u_span, FATLINE_EPSILON) && spec_lt(t_span, FATLINE_EPSILON)
    }
}

/// Whether the wider of the two windows is narrower than 1e-9.
#[verifier::when_used_as_spec(spec_has_converged)]
pub fn has_converged(u_span: Binary64, t_span: Binary64) -> (r: bool)
    ensures
        r == spec_has_converged(u_span, t_span),
{
    if is_nan(u_span) {
        lt(t_span, FATLINE_EPSILON)
    } else if is_nan(t_span) {
        lt(u_span, FATLINE_EPSILON)
    } else {
        lt(u_span, FATLINE_EPSILON) && lt(t_span, FATLINE_EPSILON)
    }
}

/// Whether `t` lies strictly between 1e-8 and 1 - 1e-8: on the curve, and not
/// within 1e-8 of an end of it.
pub open spec fn is_inner(t: Binary64) -> bool {
    spec_lt(CURVETIME_EPSILON, t) && spec_lt(t, CURVETIME_MAX)
}

/// Whether neither parameter comes within 1e-8 of an end of its curve. Only
/// such a pair of parameters is recorded as an intersection.
pub fn is_off_ends(t1: Binary64, t2: Binary64) -> (r: bool)
    ensures
        r == (is_inner(t1) && is_inner(t2)),
{
    lt(CURVETIME_EPSILON, t1) && lt(t1, CURVETIME_MAX) && lt(CURVETIME_EPSILON, t2) && lt(t2, CURVETIME_MAX)
}

/// How a step goes on, from three widths: `clip_span`, the part of the window
/// of the first curve that the clip left, as a share of that window; `t_span`,
/// the width of its window after the clip; `u_span`, the width of the window
/// of the second curve.
pub open spec fn spec_subdivision(clip_span: Binary64, t_span: Binary64, u_span: Binary64) -> Subdivision {
    if spec_lt(FOUR_FIFTHS, clip_span) {
        if spec_lt(u_span, t_span) {
            Subdivision::SplitFirst
        } else {
            Subdivision::SplitSecond
        }
    } else if spec_le(FATLINE_EPSILON, u_span) {
        Subdivision::Swap
    } else {
        Subdivision::Keep
    }
}

/// How a step goes on when the windows have not converged.
#[verifier::when_used_as_spec(spec_subdivision)]
pub fn subdivision(clip_span: Binary64, t_span: Binary64, u_span: Binary64) -> (r: Subdivision)
    ensures
        r == spec_subdivision(clip_span, t_span, u_span),
{
    if gt(clip_span, FOUR_FIFTHS) {
        if gt(t_span, u_span) {
            Subdivision::SplitFirst
        } else {
            Subdivision::SplitSecond
        }
    } else if ge(u_span, FATLINE_EPSILON) {
        Subdivision::Swap
    } else {
        Subdivision::Keep
    }
}

/// `frame`, one call deeper.
pub open spec fn deeper(frame: Frame) -> Frame {
    Frame {
        first: frame.first,
        second: frame.second,
        flip: frame.flip,
        recursion: (frame.recursion + 1) as u8,
        t_min: frame.t_min,
        t_max: frame.t_max,
        u_min: frame.u_min,
        u_max: frame.u_max,
    }
}

/// What taking up the next call comes to, from the calls that are pending
/// (the next one last) and the number of calls made so far: the call that is
/// worked on, if any, the calls still pending, and the calls made.
///
/// Each call that is reached counts. The call that brings the count to
/// `CALL_LIMIT` is not worked on, nor is any after it. A call that would stand
/// at depth `DEPTH_LIMIT` is passed over.
pub open spec fn take_up(pending: Seq<Frame>, calls: nat) -> (Option<Frame>, Seq<Frame>, nat)
    decreases pending.len(),
{
    if pending.len() == 0 {
        (None, pending, calls)
    } else if calls + 1 >= CALL_LIMIT {
        (None, Seq::empty(), CALL_LIMIT as nat)
    } else if pending.last().recursion + 1 >= DEPTH_LIMIT {
        take_up(pending.drop_last(), calls + 1)
    } else {
        (Some(deeper(pending.last())), pending.drop_last(), calls + 1)
    }
}

/// The calls that follow from `frame` when its windows have not converged, in
/// the order in which they are made.
///
/// `clipped` is the part of the first curve that the clip left, and
/// `t_min_new` to `t_max_new` its window. For `SplitFirst`, `left` and `right`
/// are the halves of `clipped` and `middle` is the middle of its window; for
/// `SplitSecond` they are the halves of the second curve and the middle of
/// its window; otherwise they are not read.
pub open spec fn children(
    frame: Frame,
    kind: Subdivision,
    clipped: [Binary64; 8],
    left: [Binary64; 8],
    right: [Binary64; 8],
    middle: Binary64,
    t_min_new: Binary64,
    t_max_new: Binary64,
) -> Seq<Frame> {
    match kind {
        Subdivision::SplitFirst => seq![
            Frame {
                first: frame.second,
                second: left,
                flip: !frame.flip,
                recursion: frame.recursion,
                t_min: frame.u_min,
                t_max: frame.u_max,
                u_min: t_min_new,
                u_max: middle,
            },
            Frame {
                first: frame.second,
                second: right,
                flip: !frame.flip,
                recursion: frame.recursion,
                t_min: frame.u_min,
                t_max: frame.u_max,
                u_min: middle,
                u_max: t_max_new,
            },
        ],
        Subdivision::SplitSecond => seq![
            Frame {
                first: left,
                second: clipped,
                flip: !frame.flip,
                recursion: frame.recursion,
                t_min: frame.u_min,
                t_max: middle,
                u_min: t_min_new,
                u_max: t_max_new,
            },
            Frame {
                first: right,
                second: clipped,
                flip: !frame.flip,
                recursion: frame.recursion,
                t_min: middle,
                t_max: frame.u_max,
                u_min: t_min_new,
                u_max: t_max_new,
            },
        ],
        Subdivision::Swap => seq![
            Frame {
                first: frame.second,
                second: clipped,
                flip: !frame.flip,
                recursion: frame.recursion,
                t_min: frame.u_min,
                t_max: frame.u_max,
                u_min: t_min_new,
                u_max: t_max_new,
            },
        ],
        Subdivision::Keep => seq![
            Frame {
                first: clipped,
                second: frame.second,
                flip: frame.flip,
                recursion: frame.recursion,
                t_min: t_min_new,
                t_max: t_max_new,
                u_min: frame.u_min,
                u_max: frame.u_max,
            },
        ],
    }
}

/// The calls of one clipping recursion that are still to be made, and the
/// count of those made.
pub struct Clipper {
    stack: Vec<Frame>,
    calls: u16,
}

impl Clipper {
    /// The calls still to be made; the next one stands last.
    pub closed spec fn pending(&self) -> Seq<Frame> {
        self.stack@
    }

    /// The number of calls made so far.
    pub closed spec fn calls(&self) -> nat {
        self.calls as nat
    }

    /// A recursion on the whole of two curves, with no call made yet.
    pub fn new(v1: [Binary64; 8], v2: [Binary64; 8], flip: bool) -> (clipper: Clipper)
        ensures
            clipper.calls() == 0,
            clipper.pending() == seq![
                Frame {
                    first: v1,
                    second: v2,
                    flip,
                    recursion: 0,
                    t_min: ZERO,
                    t_max: ONE,
                    u_min: ZERO,
                    u_max: ONE,
                },
            ],
    {
        let mut stack: Vec<Frame> = Vec::new();
        stack.push(
            Frame {
                first: v1,
                second: v2,
                flip,
                recursion: 0,
                t_min: ZERO,
                t_max: ONE,
                u_min: ZERO,
                u_max: ONE,
            },
        );
        Clipper { stack, calls: 0 }
    }

    /// Takes up the next call that is to be worked on, if there is one.
    ///
    /// A call that is handed out stands at a depth below `DEPTH_LIMIT`, and
    /// fewer than `CALL_LIMIT` calls have been made with it.
    pub fn next(&mut self) -> (frame: Option<Frame>)
        ensures
            (frame, final(self).pending(), final(self).calls()) == take_up(
                old(self).pending(),
                old(self).calls(),
            ),
            frame matches Some(f) ==> 1 <= f.recursion < DEPTH_LIMIT,
            frame is Some ==> old(self).calls() < final(self).calls() < CALL_LIMIT,
    {
        loop
            invariant
                take_up(self.pending(), self.calls()) == take_up(old(self).pending(), old(self).calls()),
                self.calls() >= old(self).calls(),
            decreases self.stack.len(),
        {
            match self.stack.pop() {
                None => {
                    return None;
                },
                Some(top) => {
                    if self.calls >= CALL_LIMIT - 1 {
                        self.stack.clear();
                        self.calls = CALL_LIMIT;
                        return None;
                    }
                    self.calls = self.calls + 1;
                    if top.recursion < DEPTH_LIMIT - 1 {
                        return Some(
                            Frame {
                                first: top.first,
                                second: top.second,
                                flip: top.flip,
                                recursion: top.recursion + 1,
                                t_min: top.t_min,
                                t_max: top.t_max,
                                u_min: top.u_min,
                                u_max: top.u_max,
                            },
                        );
                    }
                },
            }
        }
    }

    /// Puts the calls that follow from `frame` among the pending ones, so that
    /// they are taken up next and in their order.
    pub fn refine(
        &mut self,
        frame: &Frame,
        kind: Subdivision,
        clipped: [Binary64; 8],
        left: [Binary64; 8],
        right: [Binary64; 8],
        middle: Binary64,
        t_min_new: Binary64,
        t_max_new: Binary64,
    )
        ensures
            final(self).calls() == old(self).calls(),
            final(self).pending() == old(self).pending() + children(
                *frame,
                kind,
                clipped,
                left,
                right,
                middle,
                t_min_new,
                t_max_new,
            ).reverse(),
    {
        match kind {
            Subdivision::SplitFirst => {
                self.stack.push(
                    Frame {
                        first: frame.second,
                        second: right,
                        flip: !frame.flip,
                        recursion: frame.recursion,
                        t_min: frame.u_min,
                        t_max: frame.u_max,
                        u_min: middle,
                        u_max: t_max_new,
                    },
                );
                self.stack.push(
                    Frame {
                        first: frame.second,
                        second: left,
                        flip: !frame.flip,
                        recursion: frame.recursion,
                        t_min: frame.u_min,
                        t_max: frame.u_max,
                        u_min: t_min_new,
                        u_max: middle,
                    },
                );
            },
            Subdivision::SplitSecond => {
                self.stack.push(
                    Frame {
                        first: right,
                        second: clipped,
                        flip: !frame.flip,
                        recursion: frame.recursion,
                        t_min: middle,
                        t_max: frame.u_max,
                        u_min: t_min_new,
                        u_max: t_max_new,
                    },
                );
                self.stack.push(
                    Frame {
                        first: left,
                        second: clipped,
                        flip: !frame.flip,
                        recursion: frame.recursion,
                        t_min: frame.u_min,
                        t_max: middle,
                        u_min: t_min_new,
                        u_max: t_max_new,
                    },
                );
            },
            Subdivision::Swap => {
                self.stack.push(
                    Frame {
                        first: frame.second,
                        second: clipped,
                        flip: !frame.flip,
                        recursion: frame.recursion,
                        t_min: frame.u_min,
                        t_max: frame.u_max,
                        u_min: t_min_new,
                        u_max: t_max_new,
                    },
                );
            },
            Subdivision::Keep => {
                self.stack.push(
                    Frame {
                        first: clipped,
                        second: frame.second,
                        flip: frame.flip,
                        recursion: frame.recursion,
                        t_min: t_min_new,
                        t_max: t_max_new,
                        u_min: frame.u_min,
                        u_max: frame.u_max,
                    },
                );
            },
        }
    }
}

} // verus!
