//! What the strict operations report.

use vstd::prelude::*;

verus! {

/// A failure of one of the strict codec operations.
#[derive(Clone, Copy, Debug, PartialEq, Eq, Structural)]
pub enum GPError {
    /// The input is empty, or shorter than its first byte says the
    /// variable-length integer is.
    MalformedHeader,
    /// What follows a frame's header is not as long as the header says.
    LengthMismatch,
    /// The value does not fit in the width asked for.
    OverflowOnTrivial,
}

} // verus!
