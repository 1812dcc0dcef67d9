//! The failures that the link store reports.
use vstd::prelude::*;

verus! {

/// Why an operation on links did not succeed.
#[derive(Clone, Copy, Debug, PartialEq, Eq, Structural)]
pub enum LinkError {
    /// The key-value backend could not be reached, or a read or write on it failed.
    BackendUnavailable,
    /// The atomic increment of the shared counter failed, so no code was assigned.
    CounterIncrementFailed,
    /// A code held a symbol outside the alphabet, or stood for a value out of range.
    InvalidCode,
    /// No link is stored under the code.
    NotFound,
}

} // verus!
