//! Digests of leaves and inner nodes, built on one digest primitive.
use vstd::prelude::*;

verus! {

/// The digest algorithms a tree can be built with.
#[derive(Clone, Copy, Debug, PartialEq, Eq, PartialOrd, Ord, Hash)]
pub enum HashAlgorithm {
    /// SHA-1, for compatibility with existing trees only.
    Sha1ForLegacyUseOnly,
    /// SHA-256.
    Sha256,
    /// SHA-384.
    Sha384,
    /// SHA-512.
    Sha512,
    /// SHA-512 truncated to 256 bits.
    Sha512_256,
}

/// Inputs to the digest primitive must be shorter than this many bytes.
pub const MAX_DIGEST_INPUT: u64 = 0x2000_0000_0000_0000;

/// The tag byte that prefixes the input of a leaf digest.
pub const LEAF_TAG: u8 = 0;

/// The tag byte that prefixes the input of an inner node digest.
pub const NODE_TAG: u8 = 1;

/// What the digest primitive returns for `data` under `alg`.
pub uninterp spec fn digest_of(alg: HashAlgorithm, data: Seq<u8>) -> Seq<u8>;

/// The length of a finished digest under `alg`.
pub open spec fn output_len(alg: HashAlgorithm) -> nat {
    match alg {
        HashAlgorithm::Sha1ForLegacyUseOnly => 20,
        HashAlgorithm::Sha256 => 32,
        HashAlgorithm::Sha384 => 48,
        HashAlgorithm::Sha512 => 64,
        HashAlgorithm::Sha512_256 => 32,
    }
}

/// Relies on `ring::digest::digest`: the digest of `data` under the chosen
/// algorithm, which depends on the algorithm and the bytes alone, and has the
/// algorithm's output length. It panics only on inputs of 2^61 bytes or more.
#[verifier::external_body]
fn digest_bytes(alg: HashAlgorithm, data: &[u8]) -> (r: Vec<u8>)
    requires
        data@.len() < MAX_DIGEST_INPUT,
    ensures
        r@ == digest_of(alg, data@),
        r@.len() == output_len(alg),
{
    let algorithm: &'static ring::digest::Algorithm = match alg {
        HashAlgorithm::Sha1ForLegacyUseOnly => &ring::digest::SHA1_FOR_LEGACY_USE_ONLY,
        HashAlgorithm::Sha256 => &ring::digest::SHA256,
        HashAlgorithm::Sha384 => &ring::digest::SHA384,
        HashAlgorithm::Sha512 => &ring::digest::SHA512,
        HashAlgorithm::Sha512_256 => &ring::digest::SHA512_256,
    };
    ring::digest::digest(algorithm, data).as_ref().to_vec()
}

/// The digest of a tree with no leaves.
pub open spec fn empty_hash(alg: HashAlgorithm) -> Seq<u8> {
    digest_of(alg, Seq::empty())
}

/// The digest of a leaf holding `value`.
pub open spec fn leaf_hash(alg: HashAlgorithm, value: Seq<u8>) -> Seq<u8> {
    digest_of(alg, seq![LEAF_TAG] + value)
}

/// The digest of an inner node whose children have digests `left` and `right`.
pub open spec fn node_hash(alg: HashAlgorithm, left: Seq<u8>, right: Seq<u8>) -> Seq<u8> {
    digest_of(alg, seq![NODE_TAG] + left + right)
}

/// Whether two distinct inputs have the same digest under `alg`.
pub open spec fn has_collision(alg: HashAlgorithm) -> bool {
    exists|x: Seq<u8>, y: Seq<u8>| x != y && digest_of(alg, x) == digest_of(alg, y)
}

/// Byte-wise equality of two byte strings.
pub fn bytes_eq(a: &[u8], b: &[u8]) -> (r: bool)
    ensures
        r == (a@ == b@),
{
    if a.len() != b.len() {
        return false;
    }
    let mut i: usize = 0;
    while i < a.len()
        invariant
            a@.len() == b@.len(),
            i <= a@.len(),
            a@.subrange(0, i as int) == b@.subrange(0, i as int),
        decreases a@.len() - i,
    {
        if a[i] != b[i] {
            assert(a@[i as int] == a@.subrange(0, i as int + 1)[i as int]);
            return false;
        }
        assert(a@.subrange(0, i as int + 1) == a@.subrange(0, i as int).push(a@[i as int]));
        assert(b@.subrange(0, i as int + 1) == b@.subrange(0, i as int).push(b@[i as int]));
        i = i + 1;
    }
    assert(a@ == a@.subrange(0, i as int));
    assert(b@ == b@.subrange(0, i as int));
    true
}

/// Appends the bytes of `src` to `dst`.
fn append_bytes(dst: &mut Vec<u8>, src: &[u8])
    ensures
        final(dst)@ == old(dst)@ + src@,
{
    let mut i: usize = 0;
    while i < src.len()
        invariant
            i <= src@.len(),
            dst@ == old(dst)@ + src@.subrange(0, i as int),
        decreases src@.len() - i,
    {
        dst.push(src[i]);
        assert(src@.subrange(0, i as int + 1) == src@.subrange(0, i as int).push(src@[i as int]));
        i = i + 1;
    }
    assert(src@ == src@.subrange(0, i as int));
}

/// The digest of a tree with no leaves.
pub fn hash_empty(alg: HashAlgorithm) -> (r: Vec<u8>)
    ensures
        r@ == empty_hash(alg),
        r@.len() == output_len(alg),
{
    let data: Vec<u8> = Vec::new();
    digest_bytes(alg, data.as_slice())
}

/// The digest of a leaf holding `value`.
pub fn hash_leaf(alg: HashAlgorithm, value: &[u8]) -> (r: Vec<u8>)
    requires
        value@.len() + 1 < MAX_DIGEST_INPUT,
    ensures
        r@ == leaf_hash(alg, value@),
        r@.len() == output_len(alg),
{
    let mut data: Vec<u8> = Vec::new();
    data.push(LEAF_TAG);
    append_bytes(&mut data, value);
    assert(data@ == seq![LEAF_TAG] + value@);
    digest_bytes(alg, data.as_slice())
}

/// The digest of an inner node whose children have digests `left` and `right`.
pub fn hash_nodes(alg: HashAlgorithm, left: &[u8], right: &[u8]) -> (r: Vec<u8>)
    requires
        left@.len() + right@.len() + 1 < MAX_DIGEST_INPUT,
    ensures
        r@ == node_hash(alg, left@, right@),
        r@.len() == output_len(alg),
{
    let mut data: Vec<u8> = Vec::new();
    data.push(NODE_TAG);
    append_bytes(&mut data, left);
    append_bytes(&mut data, right);
    assert(data@ == seq![NODE_TAG] + left@ + right@);
    digest_bytes(alg, data.as_slice())
}

} // verus!
