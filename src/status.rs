use vstd::prelude::*;

verus! {

/// Outcome of a firmware call that did not succeed.
#[derive(Clone, Copy, Debug, PartialEq, Eq, Structural)]
pub enum Status {
    /// No input is queued (a non-blocking read found nothing).
    NotReady,
    /// The user cancelled the operation.
    Aborted,
    /// A required resource (font, glyph, random source) is missing.
    NotFound,
    /// Any other failure, carrying the firmware's status code.
    Failure(usize),
}

} // verus!
