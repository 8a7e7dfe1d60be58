//! An anonymous-membership contribution protocol.
//!
//! A fixed-depth sparse Merkle tree holds participant commitments; a
//! registry advances the tree root as contributors are added and removed,
//! and accepts opaque contribution values gated by an attestation that a
//! membership check ran against the current root.

use vstd::prelude::*;

pub mod checker;
pub mod errors;
pub mod hash;
pub mod merkle;
pub mod registry;

verus! {

} // verus!
