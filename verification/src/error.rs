//! The ways in which a launch can fail.

use vstd::prelude::*;

verus! {

/// Why a launch stopped before the handoff. Every one of them is final: the
/// launcher reports it and exits with a nonzero status.
#[derive(Clone, Copy, Debug, PartialEq, Eq, Structural)]
pub enum LaunchError {
    /// The bundle root or the invocation's alias cannot be determined.
    Resolution,
    /// No loader, no application name, or no runnable target was found.
    NotFound,
    /// A file could not be read or written, or a header is cut short or is
    /// not that of a binary object.
    Io,
}

/// The view of a text that was found, or of the error in its place.
pub open spec fn text_result(r: Result<String, LaunchError>) -> Result<Seq<char>, LaunchError> {
    match r {
        Ok(text) => Ok(text@),
        Err(e) => Err(e),
    }
}

} // verus!
