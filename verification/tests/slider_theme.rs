use lib::color::Color;
use lib::slider_theme::{primary_color_defaults, 
    GappedSliderTrackShape, RectangularSliderTrackShape, RoundedRectSliderTrackShape, ShowValueIndicator,
    SliderInteraction, SliderTrackShape,
};

#[test]
fn only_the_two_rounded_tracks_report_themselves_rounded() {
    assert!(
        !SliderTrackShape::Rectangular(RectangularSliderTrackShape::new()).is_rounded(),
        "the base shape is not rounded, and the rectangular track does not override it"
    );
    assert!(SliderTrackShape::RoundedRect(RoundedRectSliderTrackShape::new()).is_rounded());
    assert!(SliderTrackShape::Gapped(GappedSliderTrackShape::new()).is_rounded());
}

#[test]
fn the_bubble_shows_for_discrete_sliders_and_a_tap_jumps_by_default() {
    assert_eq!(ShowValueIndicator::default(), ShowValueIndicator::OnlyForDiscrete);
    assert_eq!(SliderInteraction::default(), SliderInteraction::TapAndSlide);
}

#[test]
fn the_material_two_defaults_are_the_primary_colours_at_upstreams_alphas() {
    let theme = primary_color_defaults(
        Color::argb(0xff, 0x21, 0x96, 0xf3),
        Color::argb(0xff, 0x19, 0x76, 0xd2),
        Color::argb(0xff, 0xbb, 0xde, 0xfb),
    );
    assert_eq!(theme.active_track_color.alpha(), 0xff);
    assert_eq!(theme.inactive_track_color.alpha(), 0x3d);
    assert_eq!(theme.active_track_color.red(), theme.inactive_track_color.red());
    assert_eq!(theme.overlapping_shape_stroke_color, Color(Color::WHITE));
    assert_eq!(theme.show_value_indicator, ShowValueIndicator::OnlyForDiscrete);
}

#[test]
fn a_colour_with_a_new_alpha_keeps_its_red_green_and_blue() {
    assert_eq!(Color(0xff21_96f3).with_alpha(0x3d), Color(0x3d21_96f3));
    assert_eq!(Color(0x0000_0000).with_alpha(0xff), Color(0xff00_0000));
    let theme = primary_color_defaults(Color(0xff21_96f3), Color(0xff19_76d2), Color(0xffbb_defb));
    assert_eq!(theme.disabled_active_track_color, Color(0x5219_76d2));
    assert_eq!(theme.active_tick_mark_color, Color(0x8abb_defb));
}

#[test]
fn a_colour_is_its_four_channels_from_the_top() {
    let c = Color::argb(0x12, 0x34, 0x56, 0x78);
    assert_eq!(c, Color(0x1234_5678));
    assert_eq!((c.alpha(), c.red(), c.green(), c.blue()), (0x12, 0x34, 0x56, 0x78));
}
