//! The one error of the library.

use vstd::prelude::*;

verus! {

/// An attribute could not be had: its file was missing or unreadable, or its text was
/// not a value of the expected kind. The cause is not kept.
#[derive(Debug, Clone, Copy, PartialEq, Eq, Structural)]
pub struct PowerError;

impl PowerError {
    /// A fixed, human-readable name for the error.
    pub fn description(&self) -> (r: &'static str)
        ensures
            r@ == "PowerError"@,
    {
        "PowerError"
    }
}

} // verus!
