//! The parts of a sliver clip that are not geometry: how the clip reacts to
//! what other slivers overlap, and the cache that builds the clip lazily.

use crate::intents::AxisDirection;
use vstd::prelude::*;

verus! {

/// How a sliver's clip reacts to the area other slivers overlap.
#[derive(Clone, Copy, Debug, PartialEq, Eq, Structural)]
pub enum ClipOverlapBehavior {
    /// The clip ignores the overlap; content there renders underneath a
    /// translucent pinned sliver. Not the same as no clip: the child is still
    /// clipped to the sliver's bounds.
    IgnoreOverlap,
    /// The clip's leading edge is truncated at the overlap boundary. The
    /// default.
    FollowEdge,
    /// The leading edge starts moving earlier, so that a rounded corner is
    /// never sheared off by the overlap boundary.
    PreserveShape,
}

impl Default for ClipOverlapBehavior {
    fn default() -> (r: ClipOverlapBehavior)
        ensures
            r == ClipOverlapBehavior::FollowEdge,
    {
        ClipOverlapBehavior::FollowEdge
    }
}

/// How a clip is drawn, if at all.
#[derive(Clone, Copy, Debug, PartialEq, Eq, Structural)]
pub enum ClipBehavior {
    /// No clip layer at all.
    NoClip,
    HardEdge,
    AntiAlias,
    AntiAliasWithSaveLayer,
}

/// The cache once something invalidated it: no clip, and one more
/// invalidation counted.
pub open spec fn invalidated<T>(c: ClipCacheView<T>) -> ClipCacheView<T> {
    ClipCacheView { clip: None, invalidations: (c.invalidations + 1) as usize }
}

/// Whether the next request for a clip with this behaviour builds one: only
/// a clip layer with nothing cached does.
pub open spec fn builds_next<T>(c: ClipCacheView<T>, clip_behavior: ClipBehavior) -> bool {
    clip_behavior != ClipBehavior::NoClip && c.clip is None
}

/// **The clip is built once and reused until something invalidates it**:
/// after an invalidation the cache holds no clip and has counted one more
/// invalidation, so the next request for any clip layer builds again.
pub proof fn lemma_an_invalidated_cache_builds_again<T>(c: ClipCacheView<T>, clip_behavior: ClipBehavior)
    requires
        c.invalidations < usize::MAX,
        clip_behavior != ClipBehavior::NoClip,
    ensures
        invalidated(c).clip is None,
        invalidated(c).invalidations == c.invalidations + 1,
        builds_next(invalidated(c), clip_behavior),
{
}

/// The clip cache shared by the sliver clips.
///
/// The clip is **not** recomputed when something writes to the render object.
/// It is thrown away and built lazily at the next paint or hit test: several
/// writes in one frame would each recompute a clip that only the last one
/// keeps, and a clip is only ever needed at paint time anyway.
#[derive(Clone, Copy, Debug, PartialEq)]
pub struct SliverClipCache<T> {
    clip: Option<T>,
    /// How many times the cached clip was invalidated.
    invalidations: usize,
}

/// The cache as the contracts see it.
pub struct ClipCacheView<T> {
    pub clip: Option<T>,
    pub invalidations: usize,
}

impl<T> View for SliverClipCache<T> {
    type V = ClipCacheView<T>;

    closed spec fn view(&self) -> ClipCacheView<T> {
        ClipCacheView { clip: self.clip, invalidations: self.invalidations }
    }
}

impl<T> Default for SliverClipCache<T> {
    fn default() -> (r: SliverClipCache<T>)
        ensures
            r@ == (ClipCacheView::<T> { clip: None, invalidations: 0 }),
    {
        SliverClipCache { clip: None, invalidations: 0 }
    }
}

impl<T: Copy> SliverClipCache<T> {
    pub fn new() -> (r: SliverClipCache<T>)
        ensures
            r@ == (ClipCacheView::<T> { clip: None, invalidations: 0 }),
    {
        SliverClipCache { clip: None, invalidations: 0 }
    }

    /// The clip to paint with. `ClipBehavior::NoClip` does not mean "clip to
    /// everything", it means **no clip layer at all**: the cache is cleared
    /// rather than filled and nothing is built. Otherwise the cached clip is
    /// used, and `build` runs only when there is none.
    pub fn get_clip<F: FnOnce() -> T>(&mut self, clip_behavior: ClipBehavior, build: F) -> (r:
        Option<T>)
        requires
            builds_next(old(self)@, clip_behavior) ==> build.requires(()),
        ensures
            final(self)@.invalidations == old(self)@.invalidations,
            final(self)@.clip == r,
            clip_behavior == ClipBehavior::NoClip ==> r is None,
            clip_behavior != ClipBehavior::NoClip && old(self)@.clip is Some ==> r == old(self)@.clip,
            builds_next(old(self)@, clip_behavior) ==> r is Some && build.ensures((), r->0),
    {
        if clip_behavior == ClipBehavior::NoClip {
            self.clip = None;
        } else if self.clip.is_none() {
            self.clip = Some(build());
        }
        self.clip
    }

    /// Throws the clip away, as a new layout does: the paint rect it was made
    /// from has just changed.
    pub fn mark_needs_clip(&mut self)
        requires
            old(self)@.invalidations < usize::MAX,
        ensures
            final(self)@ == invalidated(old(self)@),
    {
        self.clip = None;
        self.invalidations = self.invalidations + 1;
    }

    pub fn cached(&self) -> (r: Option<T>)
        ensures
            r == self@.clip,
    {
        self.clip
    }

    pub fn invalidations(&self) -> (r: usize)
        ensures
            r == self@.invalidations,
    {
        self.invalidations
    }
}

/// Which way a sliver grows relative to its axis direction.
#[derive(Clone, Copy, Debug, PartialEq, Eq, Structural)]
pub enum GrowthDirection {
    Forward,
    Reverse,
}

/// The direction opposite `d`.
pub open spec fn flipped(d: AxisDirection) -> AxisDirection {
    match d {
        AxisDirection::Up => AxisDirection::Down,
        AxisDirection::Down => AxisDirection::Up,
        AxisDirection::Left => AxisDirection::Right,
        AxisDirection::Right => AxisDirection::Left,
    }
}

/// The direction the content really runs: a reversed growth direction flips
/// the axis direction.
pub fn apply_growth_direction(axis_direction: AxisDirection, growth: GrowthDirection) -> (r:
    AxisDirection)
    ensures
        r == (match growth {
            GrowthDirection::Forward => axis_direction,
            GrowthDirection::Reverse => flipped(axis_direction),
        }),
{
    match growth {
        GrowthDirection::Forward => axis_direction,
        GrowthDirection::Reverse => match axis_direction {
            AxisDirection::Up => AxisDirection::Down,
            AxisDirection::Down => AxisDirection::Up,
            AxisDirection::Left => AxisDirection::Right,
            AxisDirection::Right => AxisDirection::Left,
        },
    }
}

/// An edge of a rectangle in painting coordinates.
#[derive(Clone, Copy, Debug, PartialEq, Eq, Structural)]
pub enum ClipEdge {
    Top,
    Bottom,
    Left,
    Right,
}

/// The edge of the clip that leads the scroll, and so moves to the overlap
/// origin. Painting coordinates always run down and right, so the top leads
/// when the content runs down, the bottom when it runs up, and so on; for
/// the two reversed directions (up, left) the origin is measured back from
/// the painted extent rather than forward from zero.
pub open spec fn leading_edge_of(d: AxisDirection) -> ClipEdge {
    match d {
        AxisDirection::Down => ClipEdge::Top,
        AxisDirection::Up => ClipEdge::Bottom,
        AxisDirection::Right => ClipEdge::Left,
        AxisDirection::Left => ClipEdge::Right,
    }
}

/// The leading edge of a sliver's clip, from its axis direction and growth
/// direction.
pub fn leading_edge(axis_direction: AxisDirection, growth: GrowthDirection) -> (r: ClipEdge)
    ensures
        r == leading_edge_of(
            match growth {
                GrowthDirection::Forward => axis_direction,
                GrowthDirection::Reverse => flipped(axis_direction),
            },
        ),
{
    match apply_growth_direction(axis_direction, growth) {
        AxisDirection::Down => ClipEdge::Top,
        AxisDirection::Up => ClipEdge::Bottom,
        AxisDirection::Right => ClipEdge::Left,
        AxisDirection::Left => ClipEdge::Right,
    }
}

/// Whether a direction runs along the vertical axis.
pub open spec fn runs_vertically(d: AxisDirection) -> bool {
    d == AxisDirection::Up || d == AxisDirection::Down
}

/// The edge across the rectangle from `e`.
pub open spec fn opposite_edge(e: ClipEdge) -> ClipEdge {
    match e {
        ClipEdge::Top => ClipEdge::Bottom,
        ClipEdge::Bottom => ClipEdge::Top,
        ClipEdge::Left => ClipEdge::Right,
        ClipEdge::Right => ClipEdge::Left,
    }
}

/// **A reversed growth direction turns the axis direction round**, for
/// every direction: it stays on the same axis, it is never the direction it
/// started as, and reversing twice gives it back.
pub proof fn lemma_reversing_turns_the_direction_round(d: AxisDirection)
    ensures
        flipped(d) != d,
        runs_vertically(flipped(d)) == runs_vertically(d),
        flipped(flipped(d)) == d,
{
}

/// **A reversed sliver leads from the opposite edge**: the leading edge lies
/// across the axis the content runs along, reversing the growth direction
/// moves it to the opposite edge, and content running down or right, the way
/// painting coordinates run, leads from the top or the left.
pub proof fn lemma_a_reversed_sliver_leads_from_the_opposite_edge(d: AxisDirection)
    ensures
        leading_edge_of(flipped(d)) == opposite_edge(leading_edge_of(d)),
        runs_vertically(d) <==> (leading_edge_of(d) == ClipEdge::Top || leading_edge_of(d)
            == ClipEdge::Bottom),
        leading_edge_of(AxisDirection::Down) == ClipEdge::Top,
        leading_edge_of(AxisDirection::Right) == ClipEdge::Left,
{
}

/// Whether the clip's leading edge is pulled in to the overlap: every
/// behaviour but ignoring it does.
pub fn clips_to_overlap(overlap: ClipOverlapBehavior) -> (r: bool)
    ensures
        r == (overlap != ClipOverlapBehavior::IgnoreOverlap),
{
    overlap != ClipOverlapBehavior::IgnoreOverlap
}

/// Whether a sliver reports an approximate paint clip to the compositor:
/// **nothing is culled when nothing is clipped**, so no clip layer means no
/// approximate clip either.
pub fn reports_approximate_clip(clip_behavior: ClipBehavior) -> (r: bool)
    ensures
        r == (clip_behavior != ClipBehavior::NoClip),
{
    clip_behavior != ClipBehavior::NoClip
}

/// The two settings of a sliver clip that are not geometry.
#[derive(Clone, Copy, Debug, PartialEq, Eq, Structural)]
pub struct ClipSettings {
    pub clip_behavior: ClipBehavior,
    pub clip_overlap: ClipOverlapBehavior,
}

impl ClipSettings {
    /// A rectangular sliver clip's defaults: a **hard edge**, since a
    /// rectangle has no diagonal edges to alias and anti-aliasing it would
    /// cost a save layer for nothing, following the overlap edge.
    pub fn for_rect() -> (r: ClipSettings)
        ensures
            r == (ClipSettings {
                clip_behavior: ClipBehavior::HardEdge,
                clip_overlap: ClipOverlapBehavior::FollowEdge,
            }),
    {
        ClipSettings {
            clip_behavior: ClipBehavior::HardEdge,
            clip_overlap: ClipOverlapBehavior::FollowEdge,
        }
    }

    /// A rounded sliver clip's defaults: **anti-aliased**, since its corners
    /// are curves, following the overlap edge.
    pub fn for_rounded_rect() -> (r: ClipSettings)
        ensures
            r == (ClipSettings {
                clip_behavior: ClipBehavior::AntiAlias,
                clip_overlap: ClipOverlapBehavior::FollowEdge,
            }),
    {
        ClipSettings {
            clip_behavior: ClipBehavior::AntiAlias,
            clip_overlap: ClipOverlapBehavior::FollowEdge,
        }
    }
}

} // verus!
