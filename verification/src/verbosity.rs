//! How much of an item's documentation is shown.

use vstd::prelude::*;

verus! {

/// Controls the verbosity level of documentation display.
#[derive(Debug, Clone, Copy, PartialEq, Eq, Structural)]
pub enum Verbosity {
    Minimal,
    Brief,
    Full,
}

impl Verbosity {
    pub fn is_full(self) -> (r: bool)
        ensures
            r == (self == Verbosity::Full),
    {
        matches!(self, Verbosity::Full)
    }
}

impl Default for Verbosity {
    /// For a human reader the full documentation is the default.
    fn default() -> (r: Verbosity)
        ensures
            r == Verbosity::Full,
    {
        Verbosity::Full
    }
}

} // verus!
