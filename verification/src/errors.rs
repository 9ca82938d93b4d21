//! The error taxonomy of the core: per-item recoverable conditions and
//! structural failures, as the engines report them.

use vstd::prelude::*;

verus! {

#[derive(Clone, Copy, PartialEq, Eq, Structural, Debug)]
pub enum VcsError {
    /// No repository was found; non-fatal to the process.
    NotARepository,
    /// A staged path does not lie under the repository root; the file
    /// is skipped, staging continues.
    PathOutsideRepository,
    /// A file could not be read; the file is skipped, staging continues.
    UnreadableFile,
    /// A revision string failed to resolve; only that operation aborts.
    AmbiguousRevision,
    /// HEAD or a required reference is absent; fatal to the command.
    MissingReference,
    /// An underlying object-store or filesystem failure; propagated.
    StoreFailure,
}

} // verus!
