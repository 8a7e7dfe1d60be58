//! The contributor registry: the state machine that owns the accepted
//! root, the next unallocated slot, and the accepted contributions.

use vstd::prelude::*;

use crate::checker::Commitment;
use crate::errors::Error;
use crate::hash::digest_eq;
use crate::hash::hash_pair;
use crate::hash::zero_digest;
use crate::hash::zero_digest_value;
use crate::merkle::decode_proof;
use crate::merkle::fold_root;
use crate::merkle::lemma_all_zero_root;
use crate::merkle::lemma_substitution;
use crate::merkle::proof_siblings;
use crate::merkle::tree_root;
use crate::merkle::verify_root;
use crate::merkle::zero_subtree;
use crate::merkle::MerkleProof;
use crate::merkle::DEPTH;
use crate::merkle::PROOF_BYTES;

verus! {

/// What adding a contributor answers, as a function of the state read and
/// the proof handed in: the proof must have the wire length, and folding
/// the zero digest at the next unallocated slot through it must reproduce
/// the current root.
pub open spec fn add_outcome(root: Seq<u8>, count: nat, proof_bytes: Seq<u8>) -> Result<
    (),
    Error,
> {
    if proof_bytes.len() != PROOF_BYTES {
        Err(Error::MalformedProof)
    } else if fold_root(decode_proof(proof_bytes), count, zero_digest()) != root {
        Err(Error::ProofMismatch)
    } else {
        Ok(())
    }
}

/// The root an accepted insertion advances to: the same sibling path,
/// re-folded with the contributor's digest in place of the zero leaf.
pub open spec fn add_new_root(count: nat, proof_bytes: Seq<u8>, contributor: Seq<u8>) -> Seq<
    u8,
> {
    fold_root(decode_proof(proof_bytes), count, contributor)
}

/// What removing a contributor answers: the proof must have the wire
/// length, a slot must be allocated, and folding the contributor's digest
/// at the last allocated slot through the proof must reproduce the
/// current root.
pub open spec fn remove_outcome(
    root: Seq<u8>,
    count: nat,
    proof_bytes: Seq<u8>,
    contributor: Seq<u8>,
) -> Result<(), Error> {
    if proof_bytes.len() != PROOF_BYTES {
        Err(Error::MalformedProof)
    } else if !(count > 0 && fold_root(decode_proof(proof_bytes), (count - 1) as nat, contributor)
        == root) {
        Err(Error::ProofMismatch)
    } else {
        Ok(())
    }
}

/// The root an accepted removal falls back to: the same sibling path,
/// re-folded with the zero digest in the vacated slot.
pub open spec fn remove_new_root(count: nat, proof_bytes: Seq<u8>) -> Seq<u8> {
    fold_root(decode_proof(proof_bytes), (count - 1) as nat, zero_digest())
}

/// What recording a contribution answers, as a function of the current
/// root and the oracle's answer: `None` means the oracle rejected the
/// attestation; a commitment is accepted exactly when it was attested
/// against the current root.
pub open spec fn contribution_outcome(root: Seq<u8>, attestation: Option<Commitment>) -> Result<
    (),
    Error,
> {
    match attestation {
        None => Err(Error::InvalidAttestation),
        Some(c) => if c.merkle_root@ == root {
            Ok(())
        } else {
            Err(Error::StaleOrInvalidRoot)
        },
    }
}

/// The registry state: the accepted root, the next unallocated leaf
/// slot, and the accepted contributions in order.
pub struct State {
    merkle_hash: [u8; 32],
    leaves_count: usize,
    contributions: Vec<[u8; 32]>,
}

impl State {
    /// The accepted root digest.
    pub closed spec fn spec_root(&self) -> Seq<u8> {
        self.merkle_hash@
    }

    /// The next unallocated slot index.
    pub closed spec fn spec_count(&self) -> nat {
        self.leaves_count as nat
    }

    /// The accepted contributions, oldest first.
    pub closed spec fn spec_contributions(&self) -> Seq<Seq<u8>> {
        Seq::new(self.contributions@.len(), |i: int| self.contributions@[i]@)
    }

    /// A fresh registry: every leaf slot zero, so the root is the root of
    /// the empty tree; no slot allocated, no contribution recorded.
    pub fn new() -> (s: State)
        ensures
            s.spec_root() == tree_root(Seq::<Seq<u8>>::empty()),
            s.spec_root() == zero_subtree(DEPTH as nat),
            s.spec_count() == 0,
            s.spec_contributions() == Seq::<Seq<u8>>::empty(),
    {
        let mut z: [u8; 32] = zero_digest_value();
        let mut level: usize = 0;
        while level < DEPTH
            invariant
                level <= DEPTH,
                z@ == zero_subtree(level as nat),
            decreases DEPTH - level,
        {
            z = hash_pair(&z, &z);
            level = level + 1;
        }
        proof {
            lemma_all_zero_root(Seq::<Seq<u8>>::empty());
        }
        let s = State { merkle_hash: z, leaves_count: 0, contributions: Vec::new() };
        proof {
            assert(s.spec_contributions() =~= Seq::<Seq<u8>>::empty());
        }
        s
    }

    /// The accepted root digest.
    pub fn merkle_hash(&self) -> (r: [u8; 32])
        ensures
            r@ == self.spec_root(),
    {
        self.merkle_hash
    }

    /// The next unallocated slot index.
    pub fn leaves_count(&self) -> (r: usize)
        ensures
            r == self.spec_count(),
    {
        self.leaves_count
    }

    /// The accepted contributions, oldest first.
    pub fn contributions(&self) -> (r: &Vec<[u8; 32]>)
        ensures
            Seq::new(r@.len(), |i: int| r@[i]@) == self.spec_contributions(),
    {
        &self.contributions
    }

    /// Allocate the next leaf slot to a contributor. The proof must show
    /// the slot currently empty under the current root; the same sibling
    /// path then computes the advanced root with the contributor's digest
    /// in the slot. A failed call mutates nothing.
    pub fn add_contributor(&mut self, merkle_proof: Vec<u8>, contributor: [u8; 32]) -> (r: Result<
        (),
        Error,
    >)
        requires
            old(self).spec_count() < usize::MAX,
        ensures
            r == add_outcome(old(self).spec_root(), old(self).spec_count(), merkle_proof@),
            r is Ok ==> (final(self).spec_root() == add_new_root(
                old(self).spec_count(),
                merkle_proof@,
                contributor@,
            ) && final(self).spec_count() == old(self).spec_count() + 1 && final(self).spec_contributions() == old(self).spec_contributions()),
            r is Err ==> *final(self) == *old(self),
    {
        let proof = match MerkleProof::from_bytes(&merkle_proof) {
            Ok(p) => p,
            Err(e) => {
                return Err(e);
            },
        };
        let zero = zero_digest_value();
        let root = verify_root(&proof, self.leaves_count, &zero, DEPTH).unwrap();
        if !digest_eq(&root, &self.merkle_hash) {
            return Err(Error::ProofMismatch);
        }
        let new_root = verify_root(&proof, self.leaves_count, &contributor, DEPTH).unwrap();
        self.merkle_hash = new_root;
        self.leaves_count = self.leaves_count + 1;
        Ok(())
    }

    /// Free the most recently allocated slot. The proof must show the
    /// contributor's digest in that slot under the current root; the same
    /// sibling path then computes the fallen-back root with the slot
    /// returned to zero, and the slot counter steps back, so the vacated
    /// slot is the next one allocated. A failed call mutates nothing.
    pub fn remove_contributor(
        &mut self,
        merkle_proof: Vec<u8>,
        contributor: [u8; 32],
    ) -> (r: Result<(), Error>)
        ensures
            r == remove_outcome(
                old(self).spec_root(),
                old(self).spec_count(),
                merkle_proof@,
                contributor@,
            ),
            r is Ok ==> (final(self).spec_root() == remove_new_root(
                old(self).spec_count(),
                merkle_proof@,
            ) && final(self).spec_count() == old(self).spec_count() - 1 && final(self).spec_contributions() == old(self).spec_contributions()),
            r is Err ==> *final(self) == *old(self),
    {
        let proof = match MerkleProof::from_bytes(&merkle_proof) {
            Ok(p) => p,
            Err(e) => {
                return Err(e);
            },
        };
        if self.leaves_count == 0 {
            return Err(Error::ProofMismatch);
        }
        let slot = self.leaves_count - 1;
        let root = verify_root(&proof, slot, &contributor, DEPTH).unwrap();
        if !digest_eq(&root, &self.merkle_hash) {
            return Err(Error::ProofMismatch);
        }
        let zero = zero_digest_value();
        let new_root = verify_root(&proof, slot, &zero, DEPTH).unwrap();
        self.merkle_hash = new_root;
        self.leaves_count = slot;
        Ok(())
    }

    /// Record a contribution. The oracle's answer arrives as
    /// `attestation`: `None` when it rejected the submission, otherwise
    /// the commitment the attested checker computation published. The
    /// commitment must be bound to the current root, else the proof went
    /// stale; acceptance appends the contribution and moves nothing else.
    pub fn add_contribution(
        &mut self,
        attestation: Option<Commitment>,
        contribution: [u8; 32],
    ) -> (r: Result<(), Error>)
        ensures
            r == contribution_outcome(old(self).spec_root(), attestation),
            r is Ok ==> (final(self).spec_root() == old(self).spec_root() && final(self).spec_count() == old(self).spec_count() && final(self).spec_contributions() == old(self).spec_contributions().push(contribution@)),
            r is Err ==> *final(self) == *old(self),
    {
        let commitment = match attestation {
            None => {
                return Err(Error::InvalidAttestation);
            },
            Some(c) => c,
        };
        if !digest_eq(&commitment.merkle_root, &self.merkle_hash) {
            return Err(Error::StaleOrInvalidRoot);
        }
        let ghost pre = self.spec_contributions();
        self.contributions.push(contribution);
        proof {
            assert(self.spec_contributions() =~= pre.push(contribution@));
        }
        Ok(())
    }
}

/// Sequential allocation: whenever the registry's root is the root of the
/// tree over the already-allocated leaves and the handed-in proof is the
/// wire form of the next slot's own sibling path, the insertion is
/// accepted, and the advanced root is the root of the tree grown by the
/// new contributor — the same path validates the old root and computes
/// the new one.
pub proof fn lemma_sequential_allocation(
    leaves: Seq<Seq<u8>>,
    proof_bytes: Seq<u8>,
    contributor: Seq<u8>,
)
    requires
        leaves.len() < vstd::arithmetic::power2::pow2(DEPTH as nat),
        proof_bytes.len() == PROOF_BYTES,
        decode_proof(proof_bytes) == proof_siblings(leaves, leaves.len()),
    ensures
        add_outcome(tree_root(leaves), leaves.len(), proof_bytes) == Ok::<(), Error>(()),
        add_new_root(leaves.len(), proof_bytes, contributor) == tree_root(leaves.push(contributor)),
{
    lemma_substitution(leaves, contributor);
}

/// Removal undone: a removal that was accepted can be undone at once by
/// an insertion with the same proof and the same contributor, and the
/// insertion restores exactly the root the removal started from.
pub proof fn lemma_remove_then_add_restores(
    root: Seq<u8>,
    count: nat,
    proof_bytes: Seq<u8>,
    contributor: Seq<u8>,
)
    requires
        remove_outcome(root, count, proof_bytes, contributor) == Ok::<(), Error>(()),
    ensures
        add_outcome(remove_new_root(count, proof_bytes), (count - 1) as nat, proof_bytes)
            == Ok::<(), Error>(()),
        add_new_root((count - 1) as nat, proof_bytes, contributor) == root,
{
}

/// Stale commitments are rejected: a commitment attested against any root
/// other than the registry's current root is turned away as stale, and
/// only the matching root is accepted.
pub proof fn lemma_stale_root_rejected(root: Seq<u8>, c: Commitment)
    ensures
        c.merkle_root@ != root ==> contribution_outcome(root, Some(c)) == Err::<(), Error>(
            Error::StaleOrInvalidRoot,
        ),
        c.merkle_root@ == root ==> contribution_outcome(root, Some(c)) == Ok::<(), Error>(()),
{
}

} // verus!
