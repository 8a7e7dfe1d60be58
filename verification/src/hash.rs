//! The fixed hash function: SHA-256, used both to derive leaf identities
//! and as the Merkle internal-node combiner.

use vstd::prelude::*;

verus! {

/// Number of bytes in a digest.
pub const DIGEST_LEN: usize = 32;

/// What SHA-256 returns on a byte sequence. The digest is a function of
/// the input bytes alone.
pub uninterp spec fn sha256_of(data: Seq<u8>) -> Seq<u8>;

/// Relies on sha2::Sha256 (through its Digest trait): one SHA-256 digest
/// of `data`, 32 bytes.
#[verifier::external_body]
pub fn sha256(data: &[u8]) -> (r: [u8; 32])
    ensures
        r@ == sha256_of(data@),
{
    let mut h = <sha2::Sha256 as sha2::digest::Digest>::new();
    sha2::digest::Digest::update(&mut h, data);
    sha2::digest::Digest::finalize(h).into()
}

/// The public identity of a leaf value: the hash function applied once to
/// its raw bytes.
pub fn leaf_hash(value: &[u8]) -> (r: [u8; 32])
    ensures
        r@ == sha256_of(value@),
{
    sha256(value)
}

/// The Merkle combiner: the digest of the 64-byte concatenation of the
/// two child digests.
pub open spec fn combine(left: Seq<u8>, right: Seq<u8>) -> Seq<u8> {
    sha256_of(left + right)
}

/// Hash an internal node from its two children.
pub fn hash_pair(left: &[u8; 32], right: &[u8; 32]) -> (r: [u8; 32])
    ensures
        r@ == combine(left@, right@),
{
    let mut buf: Vec<u8> = Vec::with_capacity(64);
    let mut i: usize = 0;
    while i < 32
        invariant
            i <= 32,
            buf@ =~= left@.take(i as int),
        decreases 32 - i,
    {
        buf.push(left[i]);
        i = i + 1;
    }
    let mut j: usize = 0;
    while j < 32
        invariant
            j <= 32,
            buf@ =~= left@ + right@.take(j as int),
        decreases 32 - j,
    {
        buf.push(right[j]);
        j = j + 1;
    }
    proof {
        assert(buf@ =~= left@ + right@);
    }
    sha256(buf.as_slice())
}

/// The digest stored in every unallocated leaf slot: all zero bytes.
pub open spec fn zero_digest() -> Seq<u8> {
    Seq::new(32, |i: int| 0u8)
}

/// The all-zero digest as a value.
pub fn zero_digest_value() -> (r: [u8; 32])
    ensures
        r@ == zero_digest(),
{
    let z: [u8; 32] = [0u8; 32];
    proof {
        broadcast use vstd::array::group_array_axioms;

        assert(z@ =~= zero_digest());
    }
    z
}

/// Byte-for-byte equality of two digests.
pub fn digest_eq(a: &[u8; 32], b: &[u8; 32]) -> (r: bool)
    ensures
        r <==> a@ == b@,
{
    let mut i: usize = 0;
    while i < 32
        invariant
            i <= 32,
            forall|k: int| 0 <= k < i ==> a@[k] == b@[k],
        decreases 32 - i,
    {
        if a[i] != b[i] {
            return false;
        }
        i = i + 1;
    }
    proof {
        assert(a@ =~= b@);
    }
    true
}

} // verus!
