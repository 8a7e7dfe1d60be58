use password_checker::hash::leaf_hash;
use sha2::Digest;
use password_checker::merkle::verify_root;
use password_checker::merkle::MerkleProof;
use password_checker::merkle::SparseMerkleTree;
use password_checker::merkle::DEPTH;
use password_checker::merkle::PROOF_BYTES;
use password_checker::errors::Error;
use password_checker::registry::State;

const SHA256_ABC: [u8; 32] = [
    0xba, 0x78, 0x16, 0xbf, 0x8f, 0x01, 0xcf, 0xea, 0x41, 0x41, 0x40, 0xde, 0x5d, 0xae, 0x22,
    0x23, 0xb0, 0x03, 0x61, 0xa3, 0x96, 0x17, 0x7a, 0x9c, 0xb4, 0x10, 0xff, 0x61, 0xf2, 0x00,
    0x15, 0xad,
];

#[test]
fn sha256_known_vector() {
    assert_eq!(leaf_hash(b"abc"), SHA256_ABC);
}

#[test]
fn sha256_matches_reference_implementation() {
    let expected: [u8; 32] = sha2::Sha256::digest(b"hello world").into();
    assert_eq!(leaf_hash(b"hello world"), expected);
}

#[test]
fn all_zero_trees_share_one_root() {
    let from_new = State::new().merkle_hash();
    let empty = SparseMerkleTree::build(Vec::new()).root();
    let one_zero = SparseMerkleTree::build(vec![[0u8; 32]]).root();
    let many_zero = SparseMerkleTree::build(vec![[0u8; 32]; 255]).root();
    assert_eq!(from_new, empty);
    assert_eq!(from_new, one_zero);
    assert_eq!(from_new, many_zero);
}

#[test]
fn nonzero_leaf_changes_root() {
    let zero_root = SparseMerkleTree::build(Vec::new()).root();
    let x = leaf_hash(b"x");
    assert_ne!(SparseMerkleTree::build(vec![x]).root(), zero_root);
    assert_ne!(SparseMerkleTree::build(vec![[0u8; 32], x]).root(), zero_root);
    assert_ne!(
        SparseMerkleTree::build(vec![[0u8; 32], [0u8; 32], [0u8; 32], x]).root(),
        zero_root
    );
}

#[test]
fn round_trip_every_defined_leaf() {
    let leaves = vec![
        leaf_hash(b"a"),
        leaf_hash(b"b"),
        leaf_hash(b"c"),
        leaf_hash(b"d"),
    ];
    let tree = SparseMerkleTree::build(leaves);
    let root = tree.root();
    for i in 0..4usize {
        let proof = tree.proof_for(i);
        let got = verify_root(&proof, i, &tree.leaf(i), DEPTH).unwrap();
        assert_eq!(got, root);
    }
}

#[test]
fn round_trip_empty_slot() {
    let tree = SparseMerkleTree::build(vec![leaf_hash(b"a"), leaf_hash(b"b")]);
    let root = tree.root();
    let proof = tree.proof_for(7);
    assert_eq!(tree.leaf(7), [0u8; 32]);
    let got = verify_root(&proof, 7, &tree.leaf(7), DEPTH).unwrap();
    assert_eq!(got, root);
}

#[test]
fn proof_wire_round_trip() {
    let tree = SparseMerkleTree::build(vec![leaf_hash(b"a")]);
    let proof = tree.proof_for(0);
    let bytes = proof.to_bytes();
    assert_eq!(bytes.len(), PROOF_BYTES);
    let parsed = MerkleProof::from_bytes(&bytes).unwrap();
    assert_eq!(parsed.to_bytes(), bytes);
    let root = verify_root(&parsed, 0, &tree.leaf(0), DEPTH).unwrap();
    assert_eq!(root, tree.root());
}

#[test]
fn malformed_proof_bytes_rejected() {
    let short = vec![0u8; PROOF_BYTES - 1];
    let long = vec![0u8; PROOF_BYTES + 32];
    assert_eq!(
        MerkleProof::from_bytes(&short).unwrap_err(),
        Error::MalformedProof
    );
    assert_eq!(
        MerkleProof::from_bytes(&long).unwrap_err(),
        Error::MalformedProof
    );
}

#[test]
fn wrong_depth_proof_rejected() {
    let tree = SparseMerkleTree::build(vec![leaf_hash(b"a")]);
    let proof = tree.proof_for(0);
    let leaf = tree.leaf(0);
    assert_eq!(
        verify_root(&proof, 0, &leaf, DEPTH - 1).unwrap_err(),
        Error::MalformedProof
    );
}

#[test]
fn wrong_leaf_gives_other_root() {
    let tree = SparseMerkleTree::build(vec![leaf_hash(b"a"), leaf_hash(b"b")]);
    let proof = tree.proof_for(0);
    let wrong = leaf_hash(b"not the leaf");
    let got = verify_root(&proof, 0, &wrong, DEPTH).unwrap();
    assert_ne!(got, tree.root());
}
