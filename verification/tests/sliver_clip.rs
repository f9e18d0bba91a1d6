use lib::sliver_clip::{ClipBehavior, ClipOverlapBehavior, SliverClipCache};
use lib::intents::AxisDirection;
use lib::sliver_clip::{
    apply_growth_direction, clips_to_overlap, leading_edge, reports_approximate_clip, ClipEdge,
    ClipSettings, GrowthDirection,
};

#[derive(Clone, Copy, Debug, PartialEq)]
struct Rect {
    left: f32,
    top: f32,
    right: f32,
    bottom: f32,
}

impl Rect {
    fn ltrb(left: f32, top: f32, right: f32, bottom: f32) -> Rect {
        Rect { left, top, right, bottom }
    }
}

#[test]
fn a_clip_none_sliver_asks_for_no_layer_at_all() {
    let mut cache: SliverClipCache<Rect> = SliverClipCache::new();
    let mut built = 0;
    let clip = cache.get_clip(ClipBehavior::NoClip, || {
        built += 1;
        Rect::ltrb(0.0, 0.0, 1.0, 1.0)
    });
    assert_eq!(clip, None);
    assert_eq!(built, 0, "the clip is not even computed");
}

#[test]
fn the_clip_is_built_once_and_reused_until_something_invalidates_it() {
    let mut cache: SliverClipCache<Rect> = SliverClipCache::new();
    let mut built = 0;
    {
        let mut build_once = |cache: &mut SliverClipCache<Rect>| {
            cache.get_clip(ClipBehavior::HardEdge, || {
                built += 1;
                Rect::ltrb(0.0, 0.0, 1.0, 1.0)
            })
        };
        assert!(build_once(&mut cache).is_some());
        assert!(build_once(&mut cache).is_some());
    }
    assert_eq!(built, 1);

    cache.mark_needs_clip();
    assert_eq!(cache.cached(), None);
    assert!(cache
        .get_clip(ClipBehavior::HardEdge, || {
            built += 1;
            Rect::ltrb(0.0, 0.0, 1.0, 1.0)
        })
        .is_some());
    assert_eq!(built, 2);
    assert_eq!(cache.invalidations(), 1);
}

#[test]
fn following_the_edge_is_the_default_overlap_behaviour() {
    assert_eq!(ClipOverlapBehavior::default(), ClipOverlapBehavior::FollowEdge);
}

#[test]
fn the_two_clip_shapes_default_to_different_clip_behaviours() {
    assert_eq!(ClipSettings::for_rect().clip_behavior, ClipBehavior::HardEdge);
    assert_eq!(ClipSettings::for_rounded_rect().clip_behavior, ClipBehavior::AntiAlias);
    assert_eq!(ClipSettings::for_rect().clip_overlap, ClipOverlapBehavior::FollowEdge);
    assert_eq!(ClipSettings::for_rounded_rect().clip_overlap, ClipOverlapBehavior::FollowEdge);
}

#[test]
fn a_reversed_growth_direction_flips_the_leading_edge() {
    assert_eq!(apply_growth_direction(AxisDirection::Down, GrowthDirection::Reverse), AxisDirection::Up);
    assert_eq!(
        leading_edge(AxisDirection::Down, GrowthDirection::Reverse),
        leading_edge(AxisDirection::Up, GrowthDirection::Forward)
    );
    assert_eq!(leading_edge(AxisDirection::Down, GrowthDirection::Forward), ClipEdge::Top);
    assert_eq!(leading_edge(AxisDirection::Up, GrowthDirection::Forward), ClipEdge::Bottom);
    assert_eq!(leading_edge(AxisDirection::Right, GrowthDirection::Forward), ClipEdge::Left);
    assert_eq!(leading_edge(AxisDirection::Left, GrowthDirection::Forward), ClipEdge::Right);
}

#[test]
fn nothing_is_reported_for_culling_when_nothing_is_clipped() {
    assert!(!reports_approximate_clip(ClipBehavior::NoClip));
    assert!(reports_approximate_clip(ClipBehavior::HardEdge));
    assert!(!clips_to_overlap(ClipOverlapBehavior::IgnoreOverlap));
    assert!(clips_to_overlap(ClipOverlapBehavior::PreserveShape));
}
