//! The error taxonomy shared by every operation of the library.

use vstd::prelude::*;

verus! {

/// One distinguishable error kind per failure mode; no failure is swallowed.
#[derive(Clone, Copy, Debug, PartialEq, Eq, Structural)]
pub enum NfsError {
    /// A file, version or key is absent.
    NotFound,
    /// A sibling already uses the requested name.
    AlreadyExists,
    /// A stale record or a stale version basis was handed in.
    Conflict,
    /// The capability check on a directory key failed.
    AccessDenied,
    /// The backing store could not honour the request.
    StorageFailure,
    /// A read past the end of the content was requested.
    RangeError,
    /// The operation is not defined for this key, e.g. version history
    /// of an unversioned directory.
    InvalidOperation,
}

} // verus!
