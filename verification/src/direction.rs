//! Which way a widget's main axis runs, and which way text reads.

use vstd::prelude::*;

verus! {

/// Which way a widget's main axis runs.
#[derive(Clone, Copy, Debug, PartialEq, Eq, Structural)]
pub enum Axis {
    Horizontal,
    Vertical,
}

impl Default for Axis {
    fn default() -> (r: Axis)
        ensures
            r == Axis::Horizontal,
    {
        Axis::Horizontal
    }
}

/// Which way text, and so a horizontal layout, reads.
#[derive(Clone, Copy, Debug, PartialEq, Eq, Structural)]
pub enum TextDirection {
    Rtl,
    Ltr,
}

impl Default for TextDirection {
    fn default() -> (r: TextDirection)
        ensures
            r == TextDirection::Ltr,
    {
        TextDirection::Ltr
    }
}

} // verus!
