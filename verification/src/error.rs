//! Typed failure outcomes of the tree core. Every fallible operation
//! returns one of these values to its immediate caller; nothing here
//! panics, retries or logs.

use vstd::prelude::*;

verus! {

/// The failure cases of proof generation, decoding and reconstruction.
#[derive(Clone, Copy, Debug, PartialEq, Eq, Structural)]
pub enum MerkleError {
    /// A leaf index at or beyond the current leaf count was requested.
    IndexOutOfBounds,
    /// The requested leaf itself has no known hash yet.
    NotReady,
    /// The leaf is known, but a sibling or ancestor needed for its proof
    /// is still unknown.
    IncompleteData,
    /// A range proof was requested with `end <= start`.
    InvalidRange,
    /// An encoded hash element did not have exactly 33 bytes.
    InvalidByteLength,
    /// An encoded hash element began with a discriminant other than 0 or 1.
    InvalidDiscriminant,
    /// A subtree list does not tile the leaf index space contiguously.
    TilingViolation,
}

} // verus!
