//! The slider's vocabulary: when the value bubble shows, what a gesture may
//! do, which end of a range is meant, and which shapes it draws with.

use crate::color::Color;
use vstd::prelude::*;

verus! {

/// When the bubble over the thumb is shown.
#[derive(Clone, Copy, Debug, PartialEq, Eq, Structural)]
pub enum ShowValueIndicator {
    /// Only when the slider has divisions. The default.
    OnlyForDiscrete,
    /// Only when it does not.
    OnlyForContinuous,
    /// The older name for `OnDrag`, kept because it is still accepted.
    Always,
    /// While a thumb is being dragged, whether or not there are divisions.
    OnDrag,
    AlwaysVisible,
    Never,
}

impl Default for ShowValueIndicator {
    fn default() -> (r: ShowValueIndicator)
        ensures
            r == ShowValueIndicator::OnlyForDiscrete,
    {
        ShowValueIndicator::OnlyForDiscrete
    }
}

/// Which end of a range slider is meant.
#[derive(Clone, Copy, Debug, PartialEq, Eq, Structural)]
pub enum Thumb {
    Start,
    End,
}

/// What a gesture on the slider is allowed to do.
#[derive(Clone, Copy, Debug, PartialEq, Eq, Structural)]
pub enum SliderInteraction {
    /// A tap jumps to the value under it, and a drag from anywhere slides.
    /// The default.
    TapAndSlide,
    TapOnly,
    SlideOnly,
    /// A drag slides only when it started on the thumb.
    SlideThumb,
}

impl Default for SliderInteraction {
    fn default() -> (r: SliderInteraction)
        ensures
            r == SliderInteraction::TapAndSlide,
    {
        SliderInteraction::TapAndSlide
    }
}

/// The thumb of the newer design: a tall rounded bar rather than a circle.
#[derive(Clone, Copy, Debug, PartialEq, Eq, Structural)]
pub struct HandleThumbShape;

impl HandleThumbShape {
    pub fn new() -> (r: HandleThumbShape)
        ensures
            r == HandleThumbShape,
    {
        HandleThumbShape
    }
}

/// The rectangle every track shape lays itself out in.
#[derive(Clone, Copy, Debug, PartialEq, Eq, Structural)]
pub struct BaseSliderTrackShape;

/// Square ends; the two segments meet at the thumb.
#[derive(Clone, Copy, Debug, PartialEq, Eq, Structural)]
pub struct RectangularSliderTrackShape;

impl RectangularSliderTrackShape {
    pub fn new() -> (r: RectangularSliderTrackShape)
        ensures
            r == RectangularSliderTrackShape,
    {
        RectangularSliderTrackShape
    }
}

/// Rounded ends, and an active half that is a touch taller.
#[derive(Clone, Copy, Debug, PartialEq, Eq, Structural)]
pub struct RoundedRectSliderTrackShape;

impl RoundedRectSliderTrackShape {
    pub fn new() -> (r: RoundedRectSliderTrackShape)
        ensures
            r == RoundedRectSliderTrackShape,
    {
        RoundedRectSliderTrackShape
    }

    /// Whether the value indicator needs to clear a rounded end.
    pub fn is_rounded(&self) -> (r: bool)
        ensures
            r,
    {
        true
    }
}

/// The newer track, which leaves a gap on each side of the thumb and marks
/// the far end with a stop indicator.
#[derive(Clone, Copy, Debug, PartialEq, Eq, Structural)]
pub struct GappedSliderTrackShape;

impl GappedSliderTrackShape {
    pub fn new() -> (r: GappedSliderTrackShape)
        ensures
            r == GappedSliderTrackShape,
    {
        GappedSliderTrackShape
    }

    pub fn is_rounded(&self) -> (r: bool)
        ensures
            r,
    {
        true
    }
}

/// The bar the thumb slides along.
#[derive(Clone, Copy, Debug, PartialEq, Eq, Structural)]
pub enum SliderTrackShape {
    Rectangular(RectangularSliderTrackShape),
    RoundedRect(RoundedRectSliderTrackShape),
    Gapped(GappedSliderTrackShape),
}

impl SliderTrackShape {
    /// Whether the track has rounded ends: the base shape does not, and only
    /// the two rounded shapes say otherwise.
    pub fn is_rounded(&self) -> (r: bool)
        ensures
            r == !(*self is Rectangular),
    {
        match self {
            SliderTrackShape::Rectangular(_) => false,
            SliderTrackShape::RoundedRect(shape) => shape.is_rounded(),
            SliderTrackShape::Gapped(shape) => shape.is_rounded(),
        }
    }
}

/// The theme a slider below it reads.
#[derive(Clone, Copy, Debug, PartialEq, Eq, Structural)]
pub struct SliderTheme;

/// A rounded rectangle over a small triangle pointing at the thumb.
#[derive(Clone, Copy, Debug, PartialEq, Eq, Structural)]
pub struct RectangularSliderValueIndicatorShape;

impl RectangularSliderValueIndicatorShape {
    pub fn new() -> (r: RectangularSliderValueIndicatorShape)
        ensures
            r == RectangularSliderValueIndicatorShape,
    {
        RectangularSliderValueIndicatorShape
    }
}

/// A rounded rectangle with no pointer.
#[derive(Clone, Copy, Debug, PartialEq, Eq, Structural)]
pub struct RoundedRectSliderValueIndicatorShape;

impl RoundedRectSliderValueIndicatorShape {
    pub fn new() -> (r: RoundedRectSliderValueIndicatorShape)
        ensures
            r == RoundedRectSliderValueIndicatorShape,
    {
        RoundedRectSliderValueIndicatorShape
    }
}

/// A drop with a fully round corner.
#[derive(Clone, Copy, Debug, PartialEq, Eq, Structural)]
pub struct DropSliderValueIndicatorShape;

impl DropSliderValueIndicatorShape {
    pub fn new() -> (r: DropSliderValueIndicatorShape)
        ensures
            r == DropSliderValueIndicatorShape,
    {
        DropSliderValueIndicatorShape
    }
}

/// A paddle whose top lobe spreads sideways as the label grows.
#[derive(Clone, Copy, Debug, PartialEq, Eq, Structural)]
pub struct PaddleSliderValueIndicatorShape;

impl PaddleSliderValueIndicatorShape {
    pub fn new() -> (r: PaddleSliderValueIndicatorShape)
        ensures
            r == PaddleSliderValueIndicatorShape,
    {
        PaddleSliderValueIndicatorShape
    }
}

/// The rectangular bubble of a range slider.
#[derive(Clone, Copy, Debug, PartialEq, Eq, Structural)]
pub struct RectangularRangeSliderValueIndicatorShape;

impl RectangularRangeSliderValueIndicatorShape {
    pub fn new() -> (r: RectangularRangeSliderValueIndicatorShape)
        ensures
            r == RectangularRangeSliderValueIndicatorShape,
    {
        RectangularRangeSliderValueIndicatorShape
    }
}

/// The paddle bubble of a range slider.
#[derive(Clone, Copy, Debug, PartialEq, Eq, Structural)]
pub struct PaddleRangeSliderValueIndicatorShape;

impl PaddleRangeSliderValueIndicatorShape {
    pub fn new() -> (r: PaddleRangeSliderValueIndicatorShape)
        ensures
            r == PaddleRangeSliderValueIndicatorShape,
    {
        PaddleRangeSliderValueIndicatorShape
    }
}

/// The rounded-rectangle bubble of a range slider.
#[derive(Clone, Copy, Debug, PartialEq, Eq, Structural)]
pub struct RoundedRectRangeSliderValueIndicatorShape;

/// The drop bubble of a range slider.
#[derive(Clone, Copy, Debug, PartialEq, Eq, Structural)]
pub struct DropRangeSliderValueIndicatorShape;

/// The bubble over a range slider's thumbs.
#[derive(Clone, Copy, Debug, PartialEq, Eq, Structural)]
pub enum RangeSliderValueIndicatorShape {
    Rectangular(RectangularRangeSliderValueIndicatorShape),
    Paddle(PaddleRangeSliderValueIndicatorShape),
    RoundedRect(RoundedRectRangeSliderValueIndicatorShape),
    Drop(DropRangeSliderValueIndicatorShape),
}

/// The colours and choices of a slider theme that follow from the three
/// primary colours: what a theme built from them sets, apart from the sizes.
#[derive(Clone, Copy, Debug, PartialEq, Eq, Structural)]
pub struct SliderColors {
    pub active_track_color: Color,
    pub inactive_track_color: Color,
    pub secondary_active_track_color: Color,
    pub disabled_active_track_color: Color,
    pub disabled_inactive_track_color: Color,
    pub disabled_secondary_active_track_color: Color,
    pub active_tick_mark_color: Color,
    pub inactive_tick_mark_color: Color,
    pub disabled_active_tick_mark_color: Color,
    pub disabled_inactive_tick_mark_color: Color,
    pub thumb_color: Color,
    pub overlapping_shape_stroke_color: Color,
    pub disabled_thumb_color: Color,
    pub overlay_color: Color,
    pub value_indicator_color: Color,
    pub value_indicator_stroke_color: Color,
    pub track_shape: SliderTrackShape,
    pub range_value_indicator_shape: RangeSliderValueIndicatorShape,
    pub show_value_indicator: ShowValueIndicator,
}

/// A colour with its alpha replaced.
pub open spec fn alpha_of(c: Color, alpha: u8) -> Color {
    Color((alpha * 0x100_0000 + c.0 % 0x100_0000) as u32)
}

/// The older design's defaults: the three primary colours at fixed
/// opacities, white where the thumbs of a range overlap, the rounded track,
/// the paddle bubble, and a value indicator only for discrete sliders.
pub fn primary_color_defaults(primary: Color, dark: Color, light: Color) -> (r: SliderColors)
    ensures
        r.active_track_color == alpha_of(primary, 0xff),
        r.inactive_track_color == alpha_of(primary, 0x3d),
        r.secondary_active_track_color == alpha_of(primary, 0x8a),
        r.disabled_active_track_color == alpha_of(dark, 0x52),
        r.disabled_inactive_track_color == alpha_of(dark, 0x1f),
        r.disabled_secondary_active_track_color == alpha_of(dark, 0x1f),
        r.active_tick_mark_color == alpha_of(light, 0x8a),
        r.inactive_tick_mark_color == alpha_of(primary, 0x8a),
        r.disabled_active_tick_mark_color == alpha_of(light, 0x1f),
        r.disabled_inactive_tick_mark_color == alpha_of(dark, 0x1f),
        r.thumb_color == alpha_of(primary, 0xff),
        r.overlapping_shape_stroke_color == Color(Color::WHITE),
        r.disabled_thumb_color == alpha_of(dark, 0x52),
        r.overlay_color == alpha_of(primary, 0x1f),
        r.value_indicator_color == alpha_of(primary, 0xff),
        r.value_indicator_stroke_color == alpha_of(primary, 0xff),
        r.track_shape == SliderTrackShape::RoundedRect(RoundedRectSliderTrackShape),
        r.range_value_indicator_shape == RangeSliderValueIndicatorShape::Paddle(
            PaddleRangeSliderValueIndicatorShape,
        ),
        r.show_value_indicator == ShowValueIndicator::OnlyForDiscrete,
{
    SliderColors {
        active_track_color: primary.with_alpha(0xff),
        inactive_track_color: primary.with_alpha(0x3d),
        secondary_active_track_color: primary.with_alpha(0x8a),
        disabled_active_track_color: dark.with_alpha(0x52),
        disabled_inactive_track_color: dark.with_alpha(0x1f),
        disabled_secondary_active_track_color: dark.with_alpha(0x1f),
        active_tick_mark_color: light.with_alpha(0x8a),
        inactive_tick_mark_color: primary.with_alpha(0x8a),
        disabled_active_tick_mark_color: light.with_alpha(0x1f),
        disabled_inactive_tick_mark_color: dark.with_alpha(0x1f),
        thumb_color: primary.with_alpha(0xff),
        overlapping_shape_stroke_color: Color(Color::WHITE),
        disabled_thumb_color: dark.with_alpha(0x52),
        overlay_color: primary.with_alpha(0x1f),
        value_indicator_color: primary.with_alpha(0xff),
        value_indicator_stroke_color: primary.with_alpha(0xff),
        track_shape: SliderTrackShape::RoundedRect(RoundedRectSliderTrackShape::new()),
        range_value_indicator_shape: RangeSliderValueIndicatorShape::Paddle(
            PaddleRangeSliderValueIndicatorShape::new(),
        ),
        show_value_indicator: ShowValueIndicator::OnlyForDiscrete,
    }
}

} // verus!
