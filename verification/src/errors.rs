//! The error taxonomy the library reports to its callers.

use vstd::prelude::*;

verus! {

/// Why a command could not do its work.
#[derive(Debug, Clone, Copy, PartialEq, Eq, Structural)]
pub enum RpError {
    /// The user's home directory could not be determined.
    Environment,
    /// A directory could not be created or removed.
    Io,
    /// An external process failed to launch or exited with an error.
    ExternalProcess,
    /// Interactive input was out of range or not a number.
    Validation,
}

} // verus!
