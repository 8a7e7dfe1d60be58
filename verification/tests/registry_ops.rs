use password_checker::checker::Commitment;
use password_checker::errors::Error;
use password_checker::hash::leaf_hash;
use password_checker::merkle::SparseMerkleTree;
use password_checker::merkle::PROOF_BYTES;
use password_checker::registry::State;

fn contributor(name: &[u8]) -> [u8; 32] {
    // The tree stores the doubly hashed secret: the inner hash is the
    // secret itself, the outer one its public leaf identity.
    leaf_hash(&leaf_hash(name))
}

#[test]
fn sequential_allocation_succeeds_in_order() {
    let mut state = State::new();
    let mut leaves: Vec<[u8; 32]> = Vec::new();
    for (i, name) in [b"a" as &[u8], b"b", b"c"].iter().enumerate() {
        let c = contributor(name);
        let tree = SparseMerkleTree::build(leaves.clone());
        let proof = tree.proof_for(i).to_bytes();
        assert_eq!(state.add_contributor(proof, c), Ok(()));
        leaves.push(c);
        assert_eq!(state.leaves_count(), i + 1);
        assert_eq!(
            state.merkle_hash(),
            SparseMerkleTree::build(leaves.clone()).root()
        );
    }
}

#[test]
fn stale_proof_fails_with_proof_mismatch() {
    let mut state = State::new();
    let empty_tree = SparseMerkleTree::build(Vec::new());
    let proof = empty_tree.proof_for(0).to_bytes();
    assert_eq!(state.add_contributor(proof.clone(), contributor(b"a")), Ok(()));
    // The same proof was computed against the pre-update root: the root
    // has moved, so it no longer validates.
    let count_before = state.leaves_count();
    let root_before = state.merkle_hash();
    assert_eq!(
        state.add_contributor(proof, contributor(b"b")),
        Err(Error::ProofMismatch)
    );
    assert_eq!(state.leaves_count(), count_before);
    assert_eq!(state.merkle_hash(), root_before);
}

#[test]
fn malformed_proof_rejected_by_registry() {
    let mut state = State::new();
    assert_eq!(
        state.add_contributor(vec![0u8; 31], contributor(b"a")),
        Err(Error::MalformedProof)
    );
    assert_eq!(
        state.remove_contributor(vec![0u8; PROOF_BYTES + 1], contributor(b"a")),
        Err(Error::MalformedProof)
    );
    assert_eq!(state.leaves_count(), 0);
}

#[test]
fn remove_then_add_restores_prior_root() {
    let mut state = State::new();
    let a = contributor(b"a");
    let b = contributor(b"b");
    let empty = SparseMerkleTree::build(Vec::new());
    assert_eq!(state.add_contributor(empty.proof_for(0).to_bytes(), a), Ok(()));
    let one = SparseMerkleTree::build(vec![a]);
    assert_eq!(state.add_contributor(one.proof_for(1).to_bytes(), b), Ok(()));

    let root_before = state.merkle_hash();
    let two = SparseMerkleTree::build(vec![a, b]);
    let proof = two.proof_for(1).to_bytes();
    assert_eq!(state.remove_contributor(proof.clone(), b), Ok(()));
    assert_eq!(state.leaves_count(), 1);
    assert_eq!(state.merkle_hash(), one.root());

    assert_eq!(state.add_contributor(proof, b), Ok(()));
    assert_eq!(state.leaves_count(), 2);
    assert_eq!(state.merkle_hash(), root_before);
}

#[test]
fn remove_from_empty_registry_rejected() {
    let mut state = State::new();
    let empty = SparseMerkleTree::build(Vec::new());
    let proof = empty.proof_for(0).to_bytes();
    assert_eq!(
        state.remove_contributor(proof, contributor(b"a")),
        Err(Error::ProofMismatch)
    );
}

#[test]
fn remove_with_wrong_contributor_rejected() {
    let mut state = State::new();
    let a = contributor(b"a");
    let empty = SparseMerkleTree::build(Vec::new());
    assert_eq!(state.add_contributor(empty.proof_for(0).to_bytes(), a), Ok(()));
    let one = SparseMerkleTree::build(vec![a]);
    let proof = one.proof_for(0).to_bytes();
    assert_eq!(
        state.remove_contributor(proof, contributor(b"someone else")),
        Err(Error::ProofMismatch)
    );
    assert_eq!(state.leaves_count(), 1);
}

#[test]
fn contribution_accepted_against_current_root() {
    let mut state = State::new();
    let value = leaf_hash(b"hello");
    let commitment = Commitment {
        merkle_root: state.merkle_hash(),
        contribution: value,
    };
    assert_eq!(state.add_contribution(Some(commitment), value), Ok(()));
    assert_eq!(state.contributions().as_slice(), &[value]);
}

#[test]
fn contribution_without_attestation_rejected() {
    let mut state = State::new();
    assert_eq!(
        state.add_contribution(None, leaf_hash(b"hello")),
        Err(Error::InvalidAttestation)
    );
    assert!(state.contributions().is_empty());
}

#[test]
fn contribution_against_advanced_root_rejected() {
    let mut state = State::new();
    let value = leaf_hash(b"hello");
    // Attested against the current root ...
    let commitment = Commitment {
        merkle_root: state.merkle_hash(),
        contribution: value,
    };
    // ... but the root advances before submission.
    let empty = SparseMerkleTree::build(Vec::new());
    assert_eq!(
        state.add_contributor(empty.proof_for(0).to_bytes(), contributor(b"a")),
        Ok(())
    );
    assert_eq!(
        state.add_contribution(Some(commitment), value),
        Err(Error::StaleOrInvalidRoot)
    );
    assert!(state.contributions().is_empty());
}
