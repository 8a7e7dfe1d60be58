//! The recoverable failure conditions the registry and the tree report.

use vstd::prelude::*;

verus! {

/// Why an operation was rejected. Every condition is local and
/// recoverable by the caller; no operation that reports one has mutated
/// any state.
#[derive(Clone, Copy, Debug, PartialEq, Eq, Structural)]
pub enum Error {
    /// A proof's byte length or shape is not the wire form.
    MalformedProof,
    /// A recomputed root disagrees with the expected root: the proof is
    /// stale, or names the wrong slot or value.
    ProofMismatch,
    /// The attestation oracle rejected the submission.
    InvalidAttestation,
    /// The attested root no longer equals the registry's current root.
    StaleOrInvalidRoot,
}

} // verus!
