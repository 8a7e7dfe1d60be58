use password_checker::checker::check_password;
use password_checker::checker::Commitment;
use password_checker::checker::PasswordRequest;
use password_checker::hash::leaf_hash;
use password_checker::merkle::SparseMerkleTree;
use password_checker::registry::State;

#[test]
fn checker_scenario_four_members() {
    // Four real members among 255 slots: the tree stores the doubly
    // hashed secrets, padded with zero leaves.
    let secrets = [
        leaf_hash(b"a"),
        leaf_hash(b"b"),
        leaf_hash(b"c"),
        leaf_hash(b"d"),
    ];
    let mut leaves: Vec<[u8; 32]> = secrets.iter().map(|s| leaf_hash(s)).collect();
    for _ in 0..251 {
        leaves.push([0u8; 32]);
    }
    assert_eq!(leaves.len(), 255);
    let tree = SparseMerkleTree::build(leaves);
    let root = tree.root();
    let contribution = leaf_hash(b"hello");

    let request = PasswordRequest {
        merkle_proof_bytes: tree.proof_for(0).to_bytes(),
        index: 0,
        leaf_hash: leaf_hash(&secrets[0]),
        secret: secrets[0],
        contribution,
    };
    let commitment = check_password(&request).unwrap();
    assert_eq!(commitment.merkle_root, root);
    assert_eq!(commitment.contribution, contribution);
}

#[test]
fn checker_declines_wrong_secret() {
    let secrets = [leaf_hash(b"a"), leaf_hash(b"b")];
    let leaves: Vec<[u8; 32]> = secrets.iter().map(|s| leaf_hash(s)).collect();
    let tree = SparseMerkleTree::build(leaves);
    let request = PasswordRequest {
        merkle_proof_bytes: tree.proof_for(0).to_bytes(),
        index: 0,
        leaf_hash: leaf_hash(&secrets[0]),
        secret: leaf_hash(b"z"),
        contribution: leaf_hash(b"hello"),
    };
    assert!(check_password(&request).is_none());
}

#[test]
fn checker_declines_malformed_proof() {
    let secret = leaf_hash(b"a");
    let request = PasswordRequest {
        merkle_proof_bytes: vec![0u8; 100],
        index: 0,
        leaf_hash: leaf_hash(&secret),
        secret,
        contribution: leaf_hash(b"hello"),
    };
    assert!(check_password(&request).is_none());
}

#[test]
fn checker_commitment_feeds_registry() {
    // End to end: register one contributor, prove membership against the
    // advanced root, and submit the attested contribution.
    let mut state = State::new();
    let secret = leaf_hash(b"a");
    let member = leaf_hash(&secret);
    let empty = SparseMerkleTree::build(Vec::new());
    assert_eq!(state.add_contributor(empty.proof_for(0).to_bytes(), member), Ok(()));

    let tree = SparseMerkleTree::build(vec![member]);
    assert_eq!(tree.root(), state.merkle_hash());

    let contribution = leaf_hash(b"my contribution");
    let request = PasswordRequest {
        merkle_proof_bytes: tree.proof_for(0).to_bytes(),
        index: 0,
        leaf_hash: member,
        secret,
        contribution,
    };
    let commitment = check_password(&request).unwrap();
    assert_eq!(state.add_contribution(Some(commitment), contribution), Ok(()));
    assert_eq!(state.contributions().as_slice(), &[contribution]);
}

#[test]
fn commitment_wire_round_trip() {
    let c = Commitment {
        merkle_root: leaf_hash(b"root"),
        contribution: leaf_hash(b"value"),
    };
    let bytes = c.to_bytes();
    assert_eq!(bytes.len(), 64);
    assert_eq!(Commitment::from_bytes(&bytes), Some(c));
    assert_eq!(Commitment::from_bytes(&vec![0u8; 63]), None);
    assert_eq!(Commitment::from_bytes(&vec![0u8; 65]), None);
}
