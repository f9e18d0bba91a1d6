//! Which header a sliver header builds, from two independent questions.

use vstd::prelude::*;

verus! {

/// Which of the four render objects a persistent header builds.
#[derive(Clone, Copy, Debug, PartialEq, Eq, Structural)]
pub enum PersistentHeaderVariant {
    /// Scrolls away, and comes back only when the reader reaches the part of
    /// the list it lives in.
    Scrolling,
    /// Sticks at its minimum extent once it has shrunk.
    Pinned,
    /// Grows back the moment the reader reverses, from anywhere in the list.
    Floating,
    /// Both.
    FloatingPinned,
}

/// A persistent header's two flags, which are independent questions: that
/// is why there are four render objects rather than a spectrum. **`pinned`
/// asks what happens when the reader scrolls past it; `floating` asks what
/// happens when they turn round.**
#[derive(Clone, Copy, Debug, PartialEq, Eq, Structural)]
pub struct SliverPersistentHeader {
    pub pinned: bool,
    pub floating: bool,
}

impl Default for SliverPersistentHeader {
    fn default() -> (r: SliverPersistentHeader)
        ensures
            r == (SliverPersistentHeader { pinned: false, floating: false }),
    {
        SliverPersistentHeader::new()
    }
}

/// The render object the two flags choose.
pub open spec fn header_variant(pinned: bool, floating: bool) -> PersistentHeaderVariant {
    if floating && pinned {
        PersistentHeaderVariant::FloatingPinned
    } else if pinned {
        PersistentHeaderVariant::Pinned
    } else if floating {
        PersistentHeaderVariant::Floating
    } else {
        PersistentHeaderVariant::Scrolling
    }
}

impl SliverPersistentHeader {
    pub fn new() -> (r: SliverPersistentHeader)
        ensures
            r == (SliverPersistentHeader { pinned: false, floating: false }),
    {
        SliverPersistentHeader { pinned: false, floating: false }
    }

    pub fn with_flags(pinned: bool, floating: bool) -> (r: SliverPersistentHeader)
        ensures
            r == (SliverPersistentHeader { pinned, floating }),
    {
        SliverPersistentHeader { pinned, floating }
    }

    pub fn variant(&self) -> (r: PersistentHeaderVariant)
        ensures
            r == header_variant(self.pinned, self.floating),
    {
        match (self.floating, self.pinned) {
            (true, true) => PersistentHeaderVariant::FloatingPinned,
            (false, true) => PersistentHeaderVariant::Pinned,
            (true, false) => PersistentHeaderVariant::Floating,
            (false, false) => PersistentHeaderVariant::Scrolling,
        }
    }

    /// Snapping happens on the way back, and a header that does not come back
    /// on its own has no way back to snap along: the snap configuration is
    /// honoured only when the header floats.
    pub fn honours_snap_configuration(&self) -> (r: bool)
        ensures
            r == self.floating,
    {
        self.floating
    }
}

/// Every pair of flags chooses a different render object.
pub proof fn lemma_header_variants_distinct(p1: bool, f1: bool, p2: bool, f2: bool)
    requires
        (p1, f1) != (p2, f2),
    ensures
        header_variant(p1, f1) != header_variant(p2, f2),
{
}

/// The narrow case of a persistent header: no delegate, and no need to
/// predict the header's size, because it only has one.
#[derive(Clone, Copy, Debug, PartialEq, Eq, Structural)]
pub struct PinnedHeaderSliver;

impl Default for PinnedHeaderSliver {
    fn default() -> (r: PinnedHeaderSliver)
        ensures
            r == PinnedHeaderSliver,
    {
        PinnedHeaderSliver
    }
}

impl PinnedHeaderSliver {
    pub fn new() -> (r: PinnedHeaderSliver)
        ensures
            r == PinnedHeaderSliver,
    {
        PinnedHeaderSliver
    }
}

/// How a floating header comes back.
#[derive(Clone, Copy, Debug, PartialEq, Eq, Structural)]
pub enum FloatingHeaderSnapMode {
    /// It slides in over the content, which stays where it was.
    Overlay,
    /// It pushes the content down as it returns.
    Scroll,
}

impl Default for FloatingHeaderSnapMode {
    fn default() -> (r: FloatingHeaderSnapMode)
        ensures
            r == FloatingHeaderSnapMode::Overlay,
    {
        FloatingHeaderSnapMode::Overlay
    }
}

} // verus!
