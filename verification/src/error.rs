//! The ways in which a run can fail.

use vstd::prelude::*;

verus! {

/// Why a run ended without its result.
#[derive(Clone, Copy, Debug, PartialEq, Eq, Structural)]
pub enum Error {
    /// A directory or file could not be read, or the environment file could
    /// not be written.
    Io,
    /// The remote repository could not be cloned.
    Acquisition,
    /// The user cancelled a selection or a prompt.
    InteractionAborted,
}

} // verus!
