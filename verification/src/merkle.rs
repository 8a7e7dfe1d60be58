//! The fixed-depth sparse Merkle tree: the spec-level model of node
//! digests, proof encoding, root recomputation from a sibling path, and
//! the materialized tree with proof generation.

use vstd::prelude::*;

use crate::errors::Error;
use crate::hash::combine;
use crate::hash::hash_pair;
use crate::hash::zero_digest;
use crate::hash::zero_digest_value;
use crate::hash::DIGEST_LEN;

verus! {

/// Number of levels between a leaf and the root.
pub const DEPTH: usize = 256;

/// Byte length of an encoded proof: one digest per level.
pub const PROOF_BYTES: usize = 8192;

/// Digest of the all-zero subtree of the given height: a leaf slot's zero
/// digest at height 0, the combination of two zero subtrees above it.
pub open spec fn zero_subtree(level: nat) -> Seq<u8>
    decreases level,
{
    if level == 0 {
        zero_digest()
    } else {
        combine(zero_subtree((level - 1) as nat), zero_subtree((level - 1) as nat))
    }
}

/// Digest of the subtree of height `level` whose leftmost leaf slot is
/// `pos * 2^level`, over a tree whose allocated leaf prefix is `leaves`
/// and whose every later slot holds the zero digest.
pub open spec fn node_hash(leaves: Seq<Seq<u8>>, level: nat, pos: nat) -> Seq<u8>
    decreases level,
{
    if level == 0 {
        if pos < leaves.len() {
            leaves[pos as int]
        } else {
            zero_digest()
        }
    } else {
        combine(
            node_hash(leaves, (level - 1) as nat, 2 * pos),
            node_hash(leaves, (level - 1) as nat, 2 * pos + 1),
        )
    }
}

/// Root of the depth-256 sparse tree over the allocated leaf prefix.
pub open spec fn tree_root(leaves: Seq<Seq<u8>>) -> Seq<u8> {
    node_hash(leaves, DEPTH as nat, 0)
}

/// The digest at leaf slot `i`: the stored digest inside the allocated
/// prefix, the zero digest beyond it.
pub open spec fn leaf_at(leaves: Seq<Seq<u8>>, i: nat) -> Seq<u8> {
    if i < leaves.len() {
        leaves[i as int]
    } else {
        zero_digest()
    }
}

/// Fold a claimed leaf digest up through a sibling path, lowest level
/// first; each bit of `index`, low to high, says on which side the
/// current digest stands.
pub open spec fn fold_root(siblings: Seq<Seq<u8>>, index: nat, leaf: Seq<u8>) -> Seq<u8>
    decreases siblings.len(),
{
    if siblings.len() == 0 {
        leaf
    } else {
        let step = if index % 2 == 1 {
            combine(siblings[0], leaf)
        } else {
            combine(leaf, siblings[0])
        };
        fold_root(siblings.drop_first(), index / 2, step)
    }
}

/// A slot position's ancestor position after `n` halvings.
pub open spec fn halve_n(index: nat, n: nat) -> nat
    decreases n,
{
    if n == 0 {
        index
    } else {
        halve_n(index / 2, (n - 1) as nat)
    }
}

/// The position paired with `pos` under one parent.
pub open spec fn flip_low_bit(pos: nat) -> nat {
    if pos % 2 == 0 {
        pos + 1
    } else {
        (pos - 1) as nat
    }
}

/// The sibling digests along a slot's path, from `level` upward for
/// `remaining` levels; `pos` is the slot's ancestor position at `level`.
pub open spec fn siblings_from(leaves: Seq<Seq<u8>>, level: nat, pos: nat, remaining: nat) -> Seq<
    Seq<u8>,
>
    decreases remaining,
{
    if remaining == 0 {
        Seq::empty()
    } else {
        seq![node_hash(leaves, level, flip_low_bit(pos))] + siblings_from(
            leaves,
            level + 1,
            pos / 2,
            (remaining - 1) as nat,
        )
    }
}

/// The full sibling path of a leaf slot, leaf level first.
pub open spec fn proof_siblings(leaves: Seq<Seq<u8>>, index: nat) -> Seq<Seq<u8>> {
    siblings_from(leaves, 0, index, DEPTH as nat)
}

/// The sibling digests an encoded proof carries: the `k`th 32-byte slice.
pub open spec fn decode_proof(bytes: Seq<u8>) -> Seq<Seq<u8>> {
    Seq::new(DEPTH as nat, |k: int| bytes.subrange(32 * k, 32 * k + 32))
}

/// An ordered sibling-digest path from a leaf slot to the root, one
/// digest per level.
#[derive(Clone, Debug)]
pub struct MerkleProof {
    siblings: Vec<[u8; 32]>,
}

impl View for MerkleProof {
    type V = Seq<Seq<u8>>;

    closed spec fn view(&self) -> Seq<Seq<u8>> {
        Seq::new(self.siblings@.len(), |k: int| self.siblings@[k]@)
    }
}

impl MerkleProof {
    /// Every proof this system accepts carries exactly one digest per
    /// tree level.
    pub open spec fn wf(&self) -> bool {
        self@.len() == DEPTH
    }

    /// Parse the wire form: the concatenation of 256 32-byte digests,
    /// leaf level first. Any other length is malformed.
    pub fn from_bytes(bytes: &Vec<u8>) -> (r: Result<MerkleProof, Error>)
        ensures
            bytes@.len() == PROOF_BYTES ==> (r matches Ok(p) && p@ == decode_proof(bytes@)
                && p.wf()),
            bytes@.len() != PROOF_BYTES ==> r == Err::<MerkleProof, Error>(Error::MalformedProof),
    {
        if bytes.len() != PROOF_BYTES {
            return Err(Error::MalformedProof);
        }
        let mut siblings: Vec<[u8; 32]> = Vec::with_capacity(DEPTH);
        let mut k: usize = 0;
        while k < DEPTH
            invariant
                k <= DEPTH,
                bytes@.len() == PROOF_BYTES,
                siblings@.len() == k,
                forall|j: int|
                    0 <= j < k ==> #[trigger] siblings@[j]@ == bytes@.subrange(32 * j, 32 * j + 32),
            decreases DEPTH - k,
        {
            let mut d: [u8; 32] = zero_digest_value();
            let mut i: usize = 0;
            while i < DIGEST_LEN
                invariant
                    i <= DIGEST_LEN,
                    k < DEPTH,
                    bytes@.len() == PROOF_BYTES,
                    forall|j: int| 0 <= j < i ==> d@[j] == bytes@[32 * k + j],
                decreases DIGEST_LEN - i,
            {
                d[i] = bytes[32 * k + i];
                i = i + 1;
            }
            proof {
                assert(d@ =~= bytes@.subrange(32 * (k as int), 32 * (k as int) + 32));
            }
            siblings.push(d);
            k = k + 1;
        }
        let p = MerkleProof { siblings };
        proof {
            assert(p@ =~= decode_proof(bytes@));
        }
        Ok(p)
    }

    /// The wire form: the 256 sibling digests concatenated, leaf level
    /// first.
    pub fn to_bytes(&self) -> (r: Vec<u8>)
        requires
            self.wf(),
        ensures
            r@.len() == PROOF_BYTES,
            decode_proof(r@) == self@,
    {
        let mut bytes: Vec<u8> = Vec::with_capacity(PROOF_BYTES);
        let mut k: usize = 0;
        while k < DEPTH
            invariant
                k <= DEPTH,
                self.wf(),
                bytes@.len() == 32 * k,
                forall|j: int|
                    0 <= j < k ==> #[trigger] self@[j] == bytes@.subrange(32 * j, 32 * j + 32),
            decreases DEPTH - k,
        {
            let d = &self.siblings[k];
            let mut i: usize = 0;
            while i < DIGEST_LEN
                invariant
                    i <= DIGEST_LEN,
                    k < DEPTH,
                    self.wf(),
                    d == &self.siblings@[k as int],
                    bytes@.len() == 32 * k + i,
                    forall|j: int|
                        0 <= j < k ==> #[trigger] self@[j] == bytes@.subrange(32 * j, 32 * j + 32),
                    forall|j: int| 0 <= j < i ==> bytes@[32 * k + j] == d@[j],
                decreases DIGEST_LEN - i,
            {
                bytes.push(d[i]);
                i = i + 1;
            }
            proof {
                assert(self@[k as int] =~= bytes@.subrange(32 * (k as int), 32 * (k as int) + 32));
                assert(forall|j: int|
                    0 <= j < k ==> #[trigger] self@[j] == bytes@.subrange(32 * j, 32 * j + 32));
            }
            k = k + 1;
        }
        proof {
            assert(decode_proof(bytes@) =~= self@);
        }
        bytes
    }

    /// Number of sibling digests carried.
    pub fn len(&self) -> (r: usize)
        ensures
            r == self@.len(),
    {
        self.siblings.len()
    }
}

proof fn lemma_halve_outer(index: nat, n: nat)
    ensures
        halve_n(index, n) / 2 == halve_n(index, n + 1),
    decreases n,
{
    if n == 0 {
        assert(halve_n(index, 1) == halve_n(index / 2, 0));
    } else {
        lemma_halve_outer(index / 2, (n - 1) as nat);
        assert(halve_n(index, n) == halve_n(index / 2, (n - 1) as nat));
        assert(halve_n(index, n + 1) == halve_n(index / 2, n));
    }
}

proof fn lemma_halve_to_zero(index: nat, n: nat)
    requires
        index < vstd::arithmetic::power2::pow2(n),
    ensures
        halve_n(index, n) == 0,
    decreases n,
{
    if n == 0 {
        vstd::arithmetic::power2::lemma2_to64();
        assert(index == 0);
    } else {
        vstd::arithmetic::power2::lemma_pow2_unfold(n);
        assert(index / 2 < vstd::arithmetic::power2::pow2((n - 1) as nat));
        lemma_halve_to_zero(index / 2, (n - 1) as nat);
        assert(halve_n(index, n) == halve_n(index / 2, (n - 1) as nat));
    }
}

proof fn lemma_siblings_from_len(leaves: Seq<Seq<u8>>, level: nat, pos: nat, remaining: nat)
    ensures
        siblings_from(leaves, level, pos, remaining).len() == remaining,
    decreases remaining,
{
    if remaining > 0 {
        lemma_siblings_from_len(leaves, level + 1, pos / 2, (remaining - 1) as nat);
    }
}

/// Any index an executable caller can hold is a valid slot position.
pub proof fn lemma_usize_index_in_range(index: usize)
    ensures
        (index as nat) < vstd::arithmetic::power2::pow2(DEPTH as nat),
{
    vstd::arithmetic::power2::lemma2_to64();
    vstd::arithmetic::power2::lemma_pow2_strictly_increases(64, DEPTH as nat);
    assert(index as nat <= usize::MAX as nat);
    assert(usize::MAX as nat <= u64::MAX as nat);
}

proof fn lemma_fold_path(leaves: Seq<Seq<u8>>, level: nat, pos: nat, remaining: nat)
    ensures
        fold_root(siblings_from(leaves, level, pos, remaining), pos, node_hash(leaves, level, pos))
            == node_hash(leaves, level + remaining, halve_n(pos, remaining)),
    decreases remaining,
{
    if remaining > 0 {
        let sibs = siblings_from(leaves, level, pos, remaining);
        let rest = siblings_from(leaves, level + 1, pos / 2, (remaining - 1) as nat);
        assert(sibs[0] == node_hash(leaves, level, flip_low_bit(pos)));
        assert(sibs.drop_first() =~= rest);
        let step = if pos % 2 == 1 {
            combine(sibs[0], node_hash(leaves, level, pos))
        } else {
            combine(node_hash(leaves, level, pos), sibs[0])
        };
        if pos % 2 == 1 {
            assert(flip_low_bit(pos) == 2 * (pos / 2));
            assert(pos == 2 * (pos / 2) + 1);
            assert(step == node_hash(leaves, level + 1, pos / 2));
        } else {
            assert(pos == 2 * (pos / 2));
            assert(flip_low_bit(pos) == 2 * (pos / 2) + 1);
            assert(step == node_hash(leaves, level + 1, pos / 2));
        }
        lemma_fold_path(leaves, level + 1, pos / 2, (remaining - 1) as nat);
    }
}

/// Round trip: folding the leaf digest at any slot up through that slot's
/// own sibling path reproduces the tree root.
pub proof fn lemma_round_trip(leaves: Seq<Seq<u8>>, index: nat)
    requires
        index < vstd::arithmetic::power2::pow2(DEPTH as nat),
    ensures
        fold_root(proof_siblings(leaves, index), index, leaf_at(leaves, index)) == tree_root(
            leaves,
        ),
{
    lemma_fold_path(leaves, 0, index, DEPTH as nat);
    lemma_halve_to_zero(index, DEPTH as nat);
}

proof fn lemma_node_hash_agree(
    l1: Seq<Seq<u8>>,
    l2: Seq<Seq<u8>>,
    index: nat,
    level: nat,
    pos: nat,
)
    requires
        forall|i: nat| i != index ==> #[trigger] leaf_at(l1, i) == leaf_at(l2, i),
        pos != halve_n(index, level),
    ensures
        node_hash(l1, level, pos) == node_hash(l2, level, pos),
    decreases level,
{
    if level == 0 {
        assert(leaf_at(l1, pos) == leaf_at(l2, pos));
        assert(node_hash(l1, 0, pos) == leaf_at(l1, pos));
        assert(node_hash(l2, 0, pos) == leaf_at(l2, pos));
    } else {
        lemma_halve_outer(index, (level - 1) as nat);
        let h = halve_n(index, (level - 1) as nat);
        assert(h / 2 == halve_n(index, level));
        assert(2 * pos != h && 2 * pos + 1 != h);
        lemma_node_hash_agree(l1, l2, index, (level - 1) as nat, 2 * pos);
        lemma_node_hash_agree(l1, l2, index, (level - 1) as nat, 2 * pos + 1);
    }
}

proof fn lemma_siblings_from_agree(
    l1: Seq<Seq<u8>>,
    l2: Seq<Seq<u8>>,
    index: nat,
    level: nat,
    remaining: nat,
)
    requires
        forall|i: nat| i != index ==> #[trigger] leaf_at(l1, i) == leaf_at(l2, i),
    ensures
        siblings_from(l1, level, halve_n(index, level), remaining) == siblings_from(
            l2,
            level,
            halve_n(index, level),
            remaining,
        ),
    decreases remaining,
{
    if remaining > 0 {
        let pos = halve_n(index, level);
        assert(flip_low_bit(pos) != pos);
        lemma_node_hash_agree(l1, l2, index, level, flip_low_bit(pos));
        lemma_halve_outer(index, level);
        lemma_siblings_from_agree(l1, l2, index, level + 1, (remaining - 1) as nat);
        assert(siblings_from(l1, level, pos, remaining) =~= siblings_from(
            l2,
            level,
            pos,
            remaining,
        ));
    } else {
        assert(siblings_from(l1, level, halve_n(index, level), 0) =~= siblings_from(
            l2,
            level,
            halve_n(index, level),
            0,
        ));
    }
}

/// Two trees that can differ only at one leaf slot give that slot the
/// same sibling path.
pub proof fn lemma_siblings_ignore_own_slot(l1: Seq<Seq<u8>>, l2: Seq<Seq<u8>>, index: nat)
    requires
        forall|i: nat| i != index ==> #[trigger] leaf_at(l1, i) == leaf_at(l2, i),
    ensures
        proof_siblings(l1, index) == proof_siblings(l2, index),
{
    lemma_siblings_from_agree(l1, l2, index, 0, DEPTH as nat);
}

/// Substitution: the sibling path of the first unallocated slot both
/// reproduces the current root when the slot is read as zero, and gives
/// the root of the grown tree when the slot is read as the new leaf. One
/// proof therefore validates the old root and computes the new one.
pub proof fn lemma_substitution(leaves: Seq<Seq<u8>>, value: Seq<u8>)
    requires
        leaves.len() < vstd::arithmetic::power2::pow2(DEPTH as nat),
    ensures
        fold_root(proof_siblings(leaves, leaves.len()), leaves.len(), zero_digest()) == tree_root(
            leaves,
        ),
        fold_root(proof_siblings(leaves, leaves.len()), leaves.len(), value) == tree_root(
            leaves.push(value),
        ),
{
    let n = leaves.len();
    lemma_round_trip(leaves, n);
    assert(leaf_at(leaves, n) == zero_digest());
    let grown = leaves.push(value);
    assert forall|i: nat| i != n implies #[trigger] leaf_at(leaves, i) == leaf_at(grown, i) by {
        if i < n {
            assert(grown[i as int] == leaves[i as int]);
        }
    }
    lemma_siblings_ignore_own_slot(leaves, grown, n);
    lemma_round_trip(grown, n);
    assert(leaf_at(grown, n) == value);
}

proof fn lemma_zero_node(leaves: Seq<Seq<u8>>, level: nat, pos: nat)
    requires
        forall|i: int| 0 <= i < leaves.len() ==> leaves[i] == zero_digest(),
    ensures
        node_hash(leaves, level, pos) == zero_subtree(level),
    decreases level,
{
    if level > 0 {
        lemma_zero_node(leaves, (level - 1) as nat, 2 * pos);
        lemma_zero_node(leaves, (level - 1) as nat, 2 * pos + 1);
    }
}

/// Every tree whose allocated leaves are all zero has one root: the
/// all-zero subtree digest of the full depth.
pub proof fn lemma_all_zero_root(leaves: Seq<Seq<u8>>)
    requires
        forall|i: int| 0 <= i < leaves.len() ==> leaves[i] == zero_digest(),
    ensures
        tree_root(leaves) == zero_subtree(DEPTH as nat),
{
    lemma_zero_node(leaves, DEPTH as nat, 0);
}

/// Recompute from a sibling path the root a claimed leaf digest at a
/// given slot would produce. Consults no tree: the result is a pure
/// function of the proof, the index and the claimed leaf.
pub fn verify_root(proof: &MerkleProof, index: usize, claimed_leaf: &[u8; 32], depth: usize) -> (r:
    Result<[u8; 32], Error>)
    ensures
        proof@.len() == depth ==> (r matches Ok(d) && d@ == fold_root(
            proof@,
            index as nat,
            claimed_leaf@,
        )),
        proof@.len() != depth ==> r == Err::<[u8; 32], Error>(Error::MalformedProof),
{
    if proof.len() != depth {
        return Err(Error::MalformedProof);
    }
    Ok(fold_siblings(&proof.siblings, index, claimed_leaf))
}

/// The fold itself: walk the sibling path from the leaf level upward.
fn fold_siblings(siblings: &Vec<[u8; 32]>, index: usize, leaf: &[u8; 32]) -> (r: [u8; 32])
    ensures
        r@ == fold_root(
            Seq::new(siblings@.len(), |k: int| siblings@[k]@),
            index as nat,
            leaf@,
        ),
{
    let ghost all: Seq<Seq<u8>> = Seq::new(siblings@.len(), |k: int| siblings@[k]@);
    let mut acc: [u8; 32] = *leaf;
    let mut idx: usize = index;
    let mut k: usize = 0;
    proof {
        assert(all.skip(0) =~= all);
    }
    while k < siblings.len()
        invariant
            k <= siblings@.len(),
            all == Seq::new(siblings@.len(), |k: int| siblings@[k]@),
            fold_root(all.skip(k as int), idx as nat, acc@) == fold_root(
                all,
                index as nat,
                leaf@,
            ),
        decreases siblings@.len() - k,
    {
        let ghost rest = all.skip(k as int);
        let sib = &siblings[k];
        if idx % 2 == 1 {
            acc = hash_pair(sib, &acc);
        } else {
            acc = hash_pair(&acc, sib);
        }
        idx = idx / 2;
        proof {
            assert(rest[0] == all[k as int]);
            assert(rest.drop_first() =~= all.skip(k as int + 1));
        }
        k = k + 1;
    }
    proof {
        assert(all.skip(all.len() as int) =~= Seq::<Seq<u8>>::empty());
    }
    acc
}

/// Compute one tree level from the one below it. `nodes` holds the
/// digests of the occupied prefix of the lower level; everything beyond
/// it is an all-zero subtree.
fn level_up(
    nodes: &Vec<[u8; 32]>,
    z: &[u8; 32],
    Ghost(lv): Ghost<Seq<Seq<u8>>>,
    Ghost(level): Ghost<nat>,
) -> (next: Vec<[u8; 32]>)
    requires
        z@ == zero_subtree(level),
        forall|p: int| 0 <= p < nodes@.len() ==> #[trigger] nodes@[p]@ == node_hash(
            lv,
            level,
            p as nat,
        ),
        forall|p: nat|
            p >= nodes@.len() ==> #[trigger] node_hash(lv, level, p) == zero_subtree(level),
    ensures
        next@.len() == (nodes@.len() + 1) / 2,
        forall|p: int| 0 <= p < next@.len() ==> #[trigger] next@[p]@ == node_hash(
            lv,
            level + 1,
            p as nat,
        ),
        forall|p: nat|
            p >= next@.len() ==> #[trigger] node_hash(lv, level + 1, p) == zero_subtree(level + 1),
{
    let len = nodes.len();
    let half = len / 2 + len % 2;
    let mut next: Vec<[u8; 32]> = Vec::with_capacity(half);
    let mut p: usize = 0;
    while p < half
        invariant
            p <= half,
            half == (len + 1) / 2,
            len == nodes@.len(),
            z@ == zero_subtree(level),
            forall|q: int| 0 <= q < nodes@.len() ==> #[trigger] nodes@[q]@ == node_hash(
                lv,
                level,
                q as nat,
            ),
            forall|q: nat|
                q >= nodes@.len() ==> #[trigger] node_hash(lv, level, q) == zero_subtree(level),
            next@.len() == p,
            forall|q: int| 0 <= q < p ==> #[trigger] next@[q]@ == node_hash(
                lv,
                level + 1,
                q as nat,
            ),
        decreases half - p,
    {
        let node = if 2 * p + 1 < len {
            hash_pair(&nodes[2 * p], &nodes[2 * p + 1])
        } else {
            hash_pair(&nodes[2 * p], z)
        };
        proof {
            if 2 * p + 1 >= len {
                assert(node_hash(lv, level, 2 * (p as nat) + 1) == zero_subtree(level));
            }
            assert(node@ == node_hash(lv, level + 1, p as nat));
        }
        next.push(node);
        p = p + 1;
    }
    proof {
        assert forall|q: nat| q >= next@.len() implies #[trigger] node_hash(lv, level + 1, q)
            == zero_subtree(level + 1) by {
            assert(2 * q >= nodes@.len());
            assert(node_hash(lv, level, 2 * q) == zero_subtree(level));
            assert(node_hash(lv, level, 2 * q + 1) == zero_subtree(level));
        }
    }
    next
}

/// Root of the sparse tree over an allocated leaf prefix, computed level
/// by level; unoccupied siblings are all-zero subtrees.
fn compute_root(leaves: &Vec<[u8; 32]>) -> (r: [u8; 32])
    ensures
        r@ == tree_root(Seq::new(leaves@.len(), |i: int| leaves@[i]@)),
{
    let ghost lv: Seq<Seq<u8>> = Seq::new(leaves@.len(), |i: int| leaves@[i]@);
    let mut nodes: Vec<[u8; 32]> = Vec::with_capacity(leaves.len());
    let mut i: usize = 0;
    while i < leaves.len()
        invariant
            i <= leaves@.len(),
            nodes@.len() == i,
            forall|j: int| 0 <= j < i ==> nodes@[j] == leaves@[j],
        decreases leaves@.len() - i,
    {
        nodes.push(leaves[i]);
        i = i + 1;
    }
    let mut z: [u8; 32] = zero_digest_value();
    let mut level: usize = 0;
    while level < DEPTH
        invariant
            level <= DEPTH,
            z@ == zero_subtree(level as nat),
            forall|p: int| 0 <= p < nodes@.len() ==> #[trigger] nodes@[p]@ == node_hash(
                lv,
                level as nat,
                p as nat,
            ),
            forall|p: nat|
                p >= nodes@.len() ==> #[trigger] node_hash(lv, level as nat, p) == zero_subtree(
                    level as nat,
                ),
        decreases DEPTH - level,
    {
        let ghost pre_level = level as nat;
        nodes = level_up(&nodes, &z, Ghost(lv), Ghost(level as nat));
        z = hash_pair(&z, &z);
        level = level + 1;
        proof {
            assert(level as nat == pre_level + 1);
            assert forall|p: nat| p >= nodes@.len() implies #[trigger] node_hash(
                lv,
                level as nat,
                p,
            ) == zero_subtree(level as nat) by {
                assert(node_hash(lv, pre_level + 1, p) == zero_subtree(pre_level + 1));
            }
        }
    }
    if nodes.len() > 0 {
        nodes[0]
    } else {
        proof {
            assert(node_hash(lv, DEPTH as nat, 0) == zero_subtree(DEPTH as nat));
        }
        z
    }
}

/// The sparse Merkle tree as materialized state: the allocated leaf
/// prefix and its root. Every slot beyond the prefix holds the zero
/// digest.
pub struct SparseMerkleTree {
    leaves: Vec<[u8; 32]>,
    root: [u8; 32],
}

impl View for SparseMerkleTree {
    type V = Seq<Seq<u8>>;

    closed spec fn view(&self) -> Seq<Seq<u8>> {
        Seq::new(self.leaves@.len(), |i: int| self.leaves@[i]@)
    }
}

impl SparseMerkleTree {
    #[verifier::type_invariant]
    spec fn inv(self) -> bool {
        self.root@ == tree_root(self@)
    }

    /// Build the tree over an ordered leaf prefix; every later slot is
    /// zero-padded.
    pub fn build(leaves: Vec<[u8; 32]>) -> (t: SparseMerkleTree)
        ensures
            t@ == Seq::new(leaves@.len(), |i: int| leaves@[i]@),
    {
        let root = compute_root(&leaves);
        SparseMerkleTree { leaves, root }
    }

    /// The root digest, a pure function of all leaf slots.
    pub fn root(&self) -> (r: [u8; 32])
        ensures
            r@ == tree_root(self@),
    {
        proof {
            use_type_invariant(self);
        }
        self.root
    }

    /// Number of allocated leaf slots.
    pub fn leaves_len(&self) -> (r: usize)
        ensures
            r == self@.len(),
    {
        self.leaves.len()
    }

    /// The digest at a leaf slot: the stored digest inside the allocated
    /// prefix, the zero digest beyond it.
    pub fn leaf(&self, index: usize) -> (r: [u8; 32])
        ensures
            r@ == leaf_at(self@, index as nat),
    {
        if index < self.leaves.len() {
            self.leaves[index]
        } else {
            zero_digest_value()
        }
    }

    /// The sibling path from a leaf slot to the root, one digest per
    /// level; it depends only on the current tree contents.
    pub fn proof_for(&self, index: usize) -> (p: MerkleProof)
        ensures
            p@ == proof_siblings(self@, index as nat),
            p.wf(),
    {
        let ghost lv = self@;
        let mut sibs: Vec<[u8; 32]> = Vec::with_capacity(DEPTH);
        let mut nodes: Vec<[u8; 32]> = Vec::with_capacity(self.leaves.len());
        let mut i: usize = 0;
        while i < self.leaves.len()
            invariant
                i <= self.leaves@.len(),
                nodes@.len() == i,
                forall|j: int| 0 <= j < i ==> nodes@[j] == self.leaves@[j],
            decreases self.leaves@.len() - i,
        {
            nodes.push(self.leaves[i]);
            i = i + 1;
        }
        let mut z: [u8; 32] = zero_digest_value();
        let mut idx: usize = index;
        let mut level: usize = 0;
        proof {
            assert(Seq::new(sibs@.len(), |k: int| sibs@[k]@) + siblings_from(
                lv,
                0,
                index as nat,
                DEPTH as nat,
            ) =~= proof_siblings(lv, index as nat));
        }
        while level < DEPTH
            invariant
                level <= DEPTH,
                sibs@.len() == level,
                idx as nat == halve_n(index as nat, level as nat),
                z@ == zero_subtree(level as nat),
                forall|p: int| 0 <= p < nodes@.len() ==> #[trigger] nodes@[p]@ == node_hash(
                    lv,
                    level as nat,
                    p as nat,
                ),
                forall|p: nat|
                    p >= nodes@.len() ==> #[trigger] node_hash(lv, level as nat, p)
                        == zero_subtree(level as nat),
                Seq::new(sibs@.len(), |k: int| sibs@[k]@) + siblings_from(
                    lv,
                    level as nat,
                    idx as nat,
                    (DEPTH - level) as nat,
                ) == proof_siblings(lv, index as nat),
            decreases DEPTH - level,
        {
            let ghost pre_sibs = Seq::new(sibs@.len(), |k: int| sibs@[k]@);
            let sp = if idx % 2 == 0 {
                idx + 1
            } else {
                idx - 1
            };
            proof {
                assert(sp as nat == flip_low_bit(idx as nat));
            }
            let sib = if sp < nodes.len() {
                nodes[sp]
            } else {
                proof {
                    assert(node_hash(lv, level as nat, sp as nat) == zero_subtree(level as nat));
                }
                z
            };
            proof {
                assert(sib@ == node_hash(lv, level as nat, flip_low_bit(idx as nat)));
            }
            sibs.push(sib);
            proof {
                let rest = siblings_from(
                    lv,
                    level as nat,
                    idx as nat,
                    (DEPTH - level) as nat,
                );
                assert(rest[0] == node_hash(lv, level as nat, flip_low_bit(idx as nat)));
                assert(Seq::new(sibs@.len(), |k: int| sibs@[k]@) =~= pre_sibs.push(rest[0]));
                assert(Seq::new(sibs@.len(), |k: int| sibs@[k]@) + siblings_from(
                    lv,
                    level as nat + 1,
                    idx as nat / 2,
                    (DEPTH - level - 1) as nat,
                ) =~= pre_sibs + rest);
                lemma_halve_outer(index as nat, level as nat);
            }
            nodes = level_up(&nodes, &z, Ghost(lv), Ghost(level as nat));
            z = hash_pair(&z, &z);
            idx = idx / 2;
            level = level + 1;
        }
        proof {
            lemma_siblings_from_len(lv, 0, index as nat, DEPTH as nat);
            assert(siblings_from(lv, DEPTH as nat, idx as nat, 0) =~= Seq::<Seq<u8>>::empty());
            assert(Seq::new(sibs@.len(), |k: int| sibs@[k]@) =~= proof_siblings(
                lv,
                index as nat,
            ));
        }
        MerkleProof { siblings: sibs }
    }
}

} // verus!
