//! A named value as a diagnostics dump shows it.

use vstd::prelude::*;

verus! {

/// The value of a diagnostics property.
#[derive(Clone, Debug, PartialEq, Eq)]
pub enum PropertyValue {
    Text(String),
}

/// A named value in a diagnostics dump.
#[derive(Clone, Debug, PartialEq, Eq)]
pub struct DiagnosticsProperty {
    pub name: Option<String>,
    pub value: PropertyValue,
}

impl DiagnosticsProperty {
    pub fn new(name: Option<String>, value: PropertyValue) -> (r: DiagnosticsProperty)
        ensures
            r.name == name,
            r.value == value,
    {
        DiagnosticsProperty { name, value }
    }
}

} // verus!
