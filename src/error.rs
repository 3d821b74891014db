//! The ways in which parsing an identifier can fail.
use vstd::prelude::*;

verus! {

/// Why a raw identifier, or one of its parts, was rejected.
#[derive(Clone, Copy, Debug, PartialEq, Eq, PartialOrd, Ord, Hash, Structural)]
pub enum FmriError {
    /// An `@` in a package name or a publisher.
    InvalidCharacter,
    /// The package name is empty once its slashes are stripped.
    EmptyPackageName,
    /// `pkg://` is not the first token, or no `/` ends the publisher.
    MalformedPublisherClause,
    /// A component, build or branch slot is not a dotted run of integers.
    InvalidSegment,
    /// A version clause whose structure is broken in another way.
    MalformedVersionClause,
}

} // verus!
