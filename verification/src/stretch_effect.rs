//! The vocabulary of the overscroll stretch: where it is anchored and which
//! of its two implementations runs.

use crate::direction::{Axis, TextDirection};
use vstd::prelude::*;

verus! {

/// Where the stretch is anchored.
#[derive(Clone, Copy, Debug, PartialEq, Eq, Structural)]
pub enum StretchAlignment {
    TopCenter,
    BottomCenter,
    CenterStart,
    CenterEnd,
}

/// Which of the two implementations of the same effect is in use.
#[derive(Clone, Copy, Debug, PartialEq, Eq, Structural)]
pub enum StretchImplementation {
    /// A non-uniform mesh deformation, as Android does it; needs a shader
    /// filter.
    Shader,
    /// A plain uniform scale, anchored at the far edge so the content grows
    /// away from the one being pulled.
    UniformTransform,
}

/// A shader filter gets the real mesh deformation; without one the uniform
/// scale stands in.
pub open spec fn implementation_for(shader_filter_supported: bool) -> StretchImplementation {
    if shader_filter_supported {
        StretchImplementation::Shader
    } else {
        StretchImplementation::UniformTransform
    }
}

/// Which implementation runs, by whether the engine can run a shader filter.
pub fn stretch_implementation(shader_filter_supported: bool) -> (r: StretchImplementation)
    ensures
        r == implementation_for(shader_filter_supported),
{
    if shader_filter_supported {
        StretchImplementation::Shader
    } else {
        StretchImplementation::UniformTransform
    }
}

/// The anchor is the edge **opposite** the pull, so the content grows away
/// from the finger. The vertical axis has no reading direction to consult;
/// on the horizontal one start and end swap in right-to-left text.
/// `forward` is whether the strength is positive.
pub open spec fn alignment_for(axis: Axis, direction: TextDirection, forward: bool) -> StretchAlignment {
    match axis {
        Axis::Vertical => if forward {
            StretchAlignment::TopCenter
        } else {
            StretchAlignment::BottomCenter
        },
        Axis::Horizontal => match (direction, forward) {
            (TextDirection::Rtl, true) => StretchAlignment::CenterEnd,
            (TextDirection::Rtl, false) => StretchAlignment::CenterStart,
            (TextDirection::Ltr, true) => StretchAlignment::CenterStart,
            (TextDirection::Ltr, false) => StretchAlignment::CenterEnd,
        },
    }
}

/// Where the stretch is anchored.
pub fn stretch_alignment(axis: Axis, direction: TextDirection, forward: bool) -> (r: StretchAlignment)
    ensures
        r == alignment_for(axis, direction, forward),
{
    match axis {
        Axis::Vertical => {
            if forward {
                StretchAlignment::TopCenter
            } else {
                StretchAlignment::BottomCenter
            }
        },
        Axis::Horizontal => match (direction, forward) {
            (TextDirection::Rtl, true) => StretchAlignment::CenterEnd,
            (TextDirection::Rtl, false) => StretchAlignment::CenterStart,
            (TextDirection::Ltr, true) => StretchAlignment::CenterStart,
            (TextDirection::Ltr, false) => StretchAlignment::CenterEnd,
        },
    }
}

/// The anchor across the box from `a`.
pub open spec fn opposite_anchor(a: StretchAlignment) -> StretchAlignment {
    match a {
        StretchAlignment::TopCenter => StretchAlignment::BottomCenter,
        StretchAlignment::BottomCenter => StretchAlignment::TopCenter,
        StretchAlignment::CenterStart => StretchAlignment::CenterEnd,
        StretchAlignment::CenterEnd => StretchAlignment::CenterStart,
    }
}

/// **Pulling the other way anchors the other side**: the anchor lies on the
/// axis of the stretch; the opposite pull, and on the horizontal axis the
/// opposite reading direction, each move it to the opposite side; the
/// reading direction does not matter vertically; and a forward pull in
/// left-to-right or vertical content anchors at the top or the start.
pub proof fn lemma_the_opposite_pull_anchors_the_other_side(
    axis: Axis,
    direction: TextDirection,
    forward: bool,
)
    ensures
        alignment_for(axis, direction, !forward) == opposite_anchor(
            alignment_for(axis, direction, forward),
        ),
        (axis == Axis::Vertical) <==> (alignment_for(axis, direction, forward)
            == StretchAlignment::TopCenter || alignment_for(axis, direction, forward)
            == StretchAlignment::BottomCenter),
        axis == Axis::Vertical ==> alignment_for(axis, TextDirection::Ltr, forward) == alignment_for(
            axis,
            TextDirection::Rtl,
            forward,
        ),
        axis == Axis::Horizontal ==> alignment_for(axis, TextDirection::Rtl, forward)
            == opposite_anchor(alignment_for(axis, TextDirection::Ltr, forward)),
        alignment_for(Axis::Vertical, direction, true) == StretchAlignment::TopCenter,
        alignment_for(Axis::Horizontal, TextDirection::Ltr, true) == StretchAlignment::CenterStart,
{
}

} // verus!
