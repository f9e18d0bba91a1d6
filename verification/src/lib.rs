//! Widget, gesture and diagnostics logic of a UI toolkit: shortcuts and key
//! handling, slotted and table children, stack-trace parsing, the count of
//! consecutive taps, the flattened rows of a tree sliver, the tab selection,
//! and the small decision tables behind a set of sliver and material widgets.

pub mod text;
pub mod stack_frame;
pub mod table;
pub mod keyboard;
pub mod intents;
pub mod diagnostics;
pub mod shortcuts;
pub mod slotted;
pub mod small_widgets;
pub mod snapshot_widget;
pub mod tap_and_drag;
pub mod color;
pub mod direction;
pub mod snack_bar;
pub mod stepper;
pub mod sliver_headers;
pub mod sliver_fill;
pub mod stretch_effect;
pub mod tabs;
pub mod sliver_tree;
pub mod sliver_clip;
pub mod slider_theme;
