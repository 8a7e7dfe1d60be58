//! The gated membership check that runs inside the attestation oracle,
//! and the public commitment it emits.

use vstd::prelude::*;

use crate::hash::digest_eq;
use crate::hash::sha256;
use crate::hash::sha256_of;
use crate::merkle::decode_proof;
use crate::merkle::fold_root;
use crate::merkle::verify_root;
use crate::merkle::MerkleProof;
use crate::merkle::DEPTH;
use crate::merkle::PROOF_BYTES;

verus! {

/// What a prospective contributor hands the attestation oracle: all of
/// it stays private to the oracle except the contribution value.
#[derive(Clone, Debug, PartialEq, Eq)]
pub struct PasswordRequest {
    pub merkle_proof_bytes: Vec<u8>,
    pub index: usize,
    pub leaf_hash: [u8; 32],
    pub secret: [u8; 32],
    pub contribution: [u8; 32],
}

/// The sole authenticated output of the checker computation: the root the
/// membership proof resolved to, and the opaque contribution bound to it.
#[derive(Clone, Copy, Debug, PartialEq, Eq)]
pub struct Commitment {
    pub merkle_root: [u8; 32],
    pub contribution: [u8; 32],
}

impl Commitment {
    /// The wire form: the two digests concatenated, root first.
    pub fn to_bytes(&self) -> (r: Vec<u8>)
        ensures
            r@ == self.merkle_root@ + self.contribution@,
    {
        let mut bytes: Vec<u8> = Vec::with_capacity(64);
        let mut i: usize = 0;
        while i < 32
            invariant
                i <= 32,
                bytes@ =~= self.merkle_root@.take(i as int),
            decreases 32 - i,
        {
            bytes.push(self.merkle_root[i]);
            i = i + 1;
        }
        let mut j: usize = 0;
        while j < 32
            invariant
                j <= 32,
                bytes@ =~= self.merkle_root@ + self.contribution@.take(j as int),
            decreases 32 - j,
        {
            bytes.push(self.contribution[j]);
            j = j + 1;
        }
        proof {
            assert(bytes@ =~= self.merkle_root@ + self.contribution@);
        }
        bytes
    }

    /// Parse the wire form: exactly two concatenated 32-byte digests.
    pub fn from_bytes(bytes: &Vec<u8>) -> (r: Option<Commitment>)
        ensures
            bytes@.len() == 64 ==> (r matches Some(c) && c.merkle_root@ == bytes@.subrange(0, 32)
                && c.contribution@ == bytes@.subrange(32, 64)),
            bytes@.len() != 64 ==> r is None,
    {
        if bytes.len() != 64 {
            return None;
        }
        let mut merkle_root: [u8; 32] = [0u8; 32];
        let mut contribution: [u8; 32] = [0u8; 32];
        let mut i: usize = 0;
        while i < 32
            invariant
                i <= 32,
                bytes@.len() == 64,
                forall|k: int| 0 <= k < i ==> merkle_root@[k] == bytes@[k],
            decreases 32 - i,
        {
            merkle_root[i] = bytes[i];
            i = i + 1;
        }
        let mut j: usize = 0;
        while j < 32
            invariant
                j <= 32,
                bytes@.len() == 64,
                forall|k: int| 0 <= k < j ==> contribution@[k] == bytes@[32 + k],
            decreases 32 - j,
        {
            contribution[j] = bytes[32 + j];
            j = j + 1;
        }
        proof {
            assert(merkle_root@ =~= bytes@.subrange(0, 32));
            assert(contribution@ =~= bytes@.subrange(32, 64));
        }
        Some(Commitment { merkle_root, contribution })
    }
}

/// The checker predicate: the request's secret must hash to the claimed
/// leaf digest, and the membership proof must be well formed. When both
/// hold, the commitment binds the root the proof resolves to and the
/// request's contribution value; when either fails the computation
/// declines and no attestation is produced.
pub fn check_password(request: &PasswordRequest) -> (r: Option<Commitment>)
    ensures
        r is Some <==> (sha256_of(request.secret@) == request.leaf_hash@
            && request.merkle_proof_bytes@.len() == PROOF_BYTES),
        r matches Some(c) ==> (c.merkle_root@ == fold_root(
            decode_proof(request.merkle_proof_bytes@),
            request.index as nat,
            request.leaf_hash@,
        ) && c.contribution == request.contribution),
{
    let secret_hash = sha256(request.secret.as_slice());
    if !digest_eq(&secret_hash, &request.leaf_hash) {
        return None;
    }
    let proof = match MerkleProof::from_bytes(&request.merkle_proof_bytes) {
        Ok(p) => p,
        Err(_) => {
            return None;
        },
    };
    let root = verify_root(&proof, request.index, &request.leaf_hash, DEPTH).unwrap();
    Some(Commitment { merkle_root: root, contribution: request.contribution })
}

} // verus!
