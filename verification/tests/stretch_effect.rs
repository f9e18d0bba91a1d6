use lib::direction::{Axis, TextDirection};
use lib::stretch_effect::{stretch_alignment, stretch_implementation, StretchAlignment, StretchImplementation};

#[test]
fn the_same_effect_has_two_implementations_chosen_at_runtime() {
    assert_eq!(stretch_implementation(true), StretchImplementation::Shader);
    assert_eq!(stretch_implementation(false), StretchImplementation::UniformTransform);
}

#[test]
fn the_anchor_is_the_edge_opposite_the_pull() {
    assert_eq!(stretch_alignment(Axis::Vertical, TextDirection::Ltr, true), StretchAlignment::TopCenter);
    assert_eq!(stretch_alignment(Axis::Vertical, TextDirection::Rtl, false), StretchAlignment::BottomCenter);
    assert_eq!(stretch_alignment(Axis::Horizontal, TextDirection::Ltr, true), StretchAlignment::CenterStart);
    assert_eq!(stretch_alignment(Axis::Horizontal, TextDirection::Rtl, true), StretchAlignment::CenterEnd);
    assert_eq!(stretch_alignment(Axis::Horizontal, TextDirection::Ltr, false), StretchAlignment::CenterEnd);
    assert_eq!(stretch_alignment(Axis::Horizontal, TextDirection::Rtl, false), StretchAlignment::CenterStart);
}
