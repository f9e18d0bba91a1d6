//! Which render object a fill-the-rest sliver builds.

use vstd::prelude::*;

verus! {

/// Which of the three render objects a `SliverFillRemaining` builds.
#[derive(Clone, Copy, Debug, PartialEq, Eq, Structural)]
pub enum FillRemainingKind {
    /// The child scrolls, so it may be taller than what is left.
    WithScrollable,
    /// The child fills what is left and stops there.
    WithoutScrollable,
    /// The child also stretches into the space an overscroll opens up.
    WithoutScrollableAndFillingOverscroll,
}

/// A sliver that fills the rest of the viewport. Two booleans but **three**
/// render objects: `fill_overscroll` is only consulted when the body does not
/// scroll, since a child that scrolls has no fixed size to stretch.
#[derive(Clone, Copy, Debug, PartialEq, Eq, Structural)]
pub struct SliverFillRemaining {
    /// True by default: the child extends past the viewport and scrolls.
    pub has_scroll_body: bool,
    pub fill_overscroll: bool,
}

/// The render object the two flags choose.
pub open spec fn fill_kind(has_scroll_body: bool, fill_overscroll: bool) -> FillRemainingKind {
    if has_scroll_body {
        FillRemainingKind::WithScrollable
    } else if fill_overscroll {
        FillRemainingKind::WithoutScrollableAndFillingOverscroll
    } else {
        FillRemainingKind::WithoutScrollable
    }
}

impl SliverFillRemaining {
    pub fn new() -> (r: SliverFillRemaining)
        ensures
            r == (SliverFillRemaining { has_scroll_body: true, fill_overscroll: false }),
    {
        SliverFillRemaining { has_scroll_body: true, fill_overscroll: false }
    }

    pub fn without_scroll_body(self) -> (r: Self)
        ensures
            r == (SliverFillRemaining { has_scroll_body: false, ..self }),
    {
        SliverFillRemaining { has_scroll_body: false, ..self }
    }

    pub fn filling_overscroll(self) -> (r: Self)
        ensures
            r == (SliverFillRemaining { fill_overscroll: true, ..self }),
    {
        SliverFillRemaining { fill_overscroll: true, ..self }
    }

    /// A two-step choice rather than a four-way switch.
    pub fn kind(&self) -> (r: FillRemainingKind)
        ensures
            r == fill_kind(self.has_scroll_body, self.fill_overscroll),
    {
        if self.has_scroll_body {
            return FillRemainingKind::WithScrollable;
        }
        if self.fill_overscroll {
            FillRemainingKind::WithoutScrollableAndFillingOverscroll
        } else {
            FillRemainingKind::WithoutScrollable
        }
    }
}

/// While the body scrolls, asking to fill the overscroll changes nothing:
/// the four combinations give three render objects.
pub proof fn lemma_scrolling_body_ignores_overscroll(fill_overscroll: bool)
    ensures
        fill_kind(true, fill_overscroll) == FillRemainingKind::WithScrollable,
        fill_kind(true, fill_overscroll) == fill_kind(true, !fill_overscroll),
{
}

} // verus!
