//! Inclusion proofs: a chain of digests from one leaf up to the root.
use vstd::prelude::*;
use crate::hashutils::{
    bytes_eq, hash_nodes, node_hash, output_len, HashAlgorithm, MAX_DIGEST_INPUT,
};

use crate::tree::{copy_bytes, Tree, TreeView};

verus! {

/// Tags a value with the branch of a [`Tree`] it comes from.
#[derive(Clone, Debug, PartialEq, Eq, PartialOrd, Ord, Hash)]
pub enum Positioned<T> {
    /// The value comes from the left branch.
    Left(T),
    /// The value comes from the right branch.
    Right(T),
}

/// One level of an inclusion proof: the digest of a node, the digest of the
/// child under which the value is not located (tagged with its side), and the
/// lemma of the child under which it is.
#[derive(Debug, PartialEq, Eq, PartialOrd, Ord, Hash)]
pub struct Lemma {
    /// The digest of this node.
    pub node_hash: Vec<u8>,
    /// The digest of the sibling branch, tagged with its side.
    pub sibling_hash: Option<Positioned<Vec<u8>>>,
    /// The lemma of the branch that holds the value.
    pub sub_lemma: Option<Box<Lemma>>,
}

/// The mathematical value of a [`Lemma`].
pub ghost struct LemmaView {
    pub node_hash: Seq<u8>,
    pub sibling_hash: Option<Positioned<Seq<u8>>>,
    pub sub_lemma: Option<Box<LemmaView>>,
}

/// The view of a tagged byte string.
pub open spec fn positioned_view(p: Positioned<Vec<u8>>) -> Positioned<Seq<u8>> {
    match p {
        Positioned::Left(h) => Positioned::Left(h@),
        Positioned::Right(h) => Positioned::Right(h@),
    }
}

impl View for Lemma {
    type V = LemmaView;

    open spec fn view(&self) -> LemmaView
        decreases self,
    {
        LemmaView {
            node_hash: self.node_hash@,
            sibling_hash: match self.sibling_hash {
                None => None,
                Some(p) => Some(positioned_view(p)),
            },
            sub_lemma: match self.sub_lemma {
                None => None,
                Some(sub) => Some(Box::new((*sub).view())),
            },
        }
    }
}

/// The view of an optional lemma.
pub open spec fn opt_view(l: Option<Lemma>) -> Option<LemmaView> {
    match l {
        None => None,
        Some(l) => Some(l@),
    }
}

/// The lemma that proves the leftmost leaf of `t` with digest `needle`, or
/// `None` where no leaf carries that digest. The left branch is searched first.
pub open spec fn find_lemma(t: TreeView, needle: Seq<u8>) -> Option<LemmaView>
    decreases t,
{
    match t {
        TreeView::Empty { .. } => None,
        TreeView::Leaf { hash, .. } => if hash == needle {
            Some(LemmaView { node_hash: hash, sibling_hash: None, sub_lemma: None })
        } else {
            None
        },
        TreeView::Node { hash, left, right } => match find_lemma(*left, needle) {
            Some(sub) => Some(
                LemmaView {
                    node_hash: hash,
                    sibling_hash: Some(Positioned::Right(right.hash())),
                    sub_lemma: Some(Box::new(sub)),
                },
            ),
            None => match find_lemma(*right, needle) {
                Some(sub) => Some(
                    LemmaView {
                        node_hash: hash,
                        sibling_hash: Some(Positioned::Left(left.hash())),
                        sub_lemma: Some(Box::new(sub)),
                    },
                ),
                None => None,
            },
        },
    }
}

/// Whether two digests are short enough to be combined by the digest primitive.
pub open spec fn combinable(left: Seq<u8>, right: Seq<u8>) -> bool {
    left.len() + right.len() + 1 < MAX_DIGEST_INPUT
}

/// Whether `left` and `right` combine to `parent`.
pub open spec fn combines_to(
    alg: HashAlgorithm,
    left: Seq<u8>,
    right: Seq<u8>,
    parent: Seq<u8>,
) -> bool {
    combinable(left, right) && node_hash(alg, left, right) == parent
}

/// Whether each level of the chain `l` is consistent: a terminal level has
/// neither sibling nor sub-lemma, and an inner level's digest is the
/// combination, in the order its sibling's tag gives, of the sibling digest
/// and the sub-lemma's digest. Digests too long for the digest primitive to
/// combine make a level inconsistent.
pub open spec fn lemma_valid(alg: HashAlgorithm, l: LemmaView) -> bool
    decreases l,
{
    match l.sub_lemma {
        None => l.sibling_hash is None,
        Some(sub) => match l.sibling_hash {
            None => false,
            Some(Positioned::Left(h)) => combines_to(alg, h, sub.node_hash, l.node_hash)
                && lemma_valid(alg, *sub),
            Some(Positioned::Right(h)) => combines_to(alg, sub.node_hash, h, l.node_hash)
                && lemma_valid(alg, *sub),
        },
    }
}

/// Whether a proof with root digest `root_hash` and chain `l` holds against
/// the root digest `root`.
pub open spec fn proof_valid(
    alg: HashAlgorithm,
    root_hash: Seq<u8>,
    l: LemmaView,
    root: Seq<u8>,
) -> bool {
    &&& root_hash == root
    &&& l.node_hash == root
    &&& lemma_valid(alg, l)
}

/// A lemma is found for `needle` exactly when some leaf carries it.
pub proof fn lemma_find_iff_contains(t: TreeView, needle: Seq<u8>)
    ensures
        find_lemma(t, needle) is Some == t.contains_hash(needle),
    decreases t,
{
    if let TreeView::Node { left, right, .. } = t {
        lemma_find_iff_contains(*left, needle);
        lemma_find_iff_contains(*right, needle);
    }
}

/// A lemma found in a well-formed tree carries the tree's digest at its top
/// and is a consistent chain.
pub proof fn lemma_found_is_valid(alg: HashAlgorithm, t: TreeView, needle: Seq<u8>)
    requires
        t.wf(alg),
        find_lemma(t, needle) is Some,
    ensures
        find_lemma(t, needle)->0.node_hash == t.hash(),
        lemma_valid(alg, find_lemma(t, needle)->0),
    decreases t,
{
    if let TreeView::Node { left, right, .. } = t {
        assert(output_len(alg) <= 64);
        assert(left.wf(alg) && right.wf(alg));
        assert(left.hash().len() == output_len(alg));
        assert(right.hash().len() == output_len(alg));
        assert(combinable(left.hash(), right.hash()));
        if find_lemma(*left, needle) is Some {
            lemma_found_is_valid(alg, *left, needle);
        } else {
            lemma_found_is_valid(alg, *right, needle);
        }
    }
}

/// Whether `a + b + 1` is below the digest primitive's input limit.
fn fits_digest_input(a: usize, b: usize) -> (r: bool)
    ensures
        r == (a + b + 1 < MAX_DIGEST_INPUT),
{
    let a64 = a as u64;
    let b64 = b as u64;
    a64 < MAX_DIGEST_INPUT && b64 < MAX_DIGEST_INPUT - 1 - a64
}

impl Clone for Lemma {
    /// A deep copy of this lemma chain.
    fn clone(&self) -> (r: Lemma)
        ensures
            r@ == self@,
        decreases self,
    {
        let sibling_hash = match &self.sibling_hash {
            None => None,
            Some(Positioned::Left(h)) => Some(Positioned::Left(copy_bytes(h.as_slice()))),
            Some(Positioned::Right(h)) => Some(Positioned::Right(copy_bytes(h.as_slice()))),
        };
        let sub_lemma = match &self.sub_lemma {
            None => None,
            Some(sub) => Some(Box::new((**sub).clone())),
        };
        Lemma { node_hash: copy_bytes(self.node_hash.as_slice()), sibling_hash, sub_lemma }
    }
}

impl Lemma {
    /// Attempts to generate a proof that a value with digest `needle` is a
    /// member of `tree`.
    pub fn new(tree: &Tree, needle: &[u8]) -> (r: Option<Lemma>)
        ensures
            opt_view(r) == find_lemma(tree@, needle@),
        decreases tree@.depth() * 2 + 1,
    {
        match tree {
            Tree::Empty { .. } => None,
            Tree::Leaf { hash, .. } => Lemma::new_leaf_proof(hash.as_slice(), needle),
            Tree::Node { hash, left, right } => Lemma::new_tree_proof(
                hash.as_slice(),
                needle,
                left,
                right,
            ),
        }
    }

    /// The terminal lemma of a leaf with digest `hash`, where it is `needle`.
    pub fn new_leaf_proof(hash: &[u8], needle: &[u8]) -> (r: Option<Lemma>)
        ensures
            opt_view(r) == (if hash@ == needle@ {
                Some(LemmaView { node_hash: hash@, sibling_hash: None, sub_lemma: None })
            } else {
                None
            }),
    {
        if bytes_eq(hash, needle) {
            Some(Lemma { node_hash: copy_bytes(hash), sibling_hash: None, sub_lemma: None })
        } else {
            None
        }
    }

    /// The lemma of `needle` in the inner node with digest `hash` over `left`
    /// and `right`, searching `left` first.
    pub fn new_tree_proof(hash: &[u8], needle: &[u8], left: &Tree, right: &Tree) -> (r: Option<
        Lemma,
    >)
        ensures
            opt_view(r) == find_lemma(
                TreeView::Node { hash: hash@, left: Box::new(left@), right: Box::new(right@) },
                needle@,
            ),
        decreases (TreeView::Node { hash: hash@, left: Box::new(left@), right: Box::new(right@) }).depth() * 2,
    {
        match Lemma::new(left, needle) {
            Some(sub) => Some(
                Lemma {
                    node_hash: copy_bytes(hash),
                    sibling_hash: Some(Positioned::Right(copy_bytes(right.hash().as_slice()))),
                    sub_lemma: Some(Box::new(sub)),
                },
            ),
            None => match Lemma::new(right, needle) {
                Some(sub) => Some(
                    Lemma {
                        node_hash: copy_bytes(hash),
                        sibling_hash: Some(Positioned::Left(copy_bytes(left.hash().as_slice()))),
                        sub_lemma: Some(Box::new(sub)),
                    },
                ),
                None => None,
            },
        }
    }
}

/// An inclusion proof: the fact that `value` is a member of a Merkle tree with
/// root digest `root_hash`, built with the digest algorithm `algorithm`.
///
/// Proofs compare by root digest first, then by value, then by lemma chain.
#[derive(Clone, Debug, PartialEq, Eq, PartialOrd, Ord, Hash)]
pub struct Proof<T> {
    /// The digest of the root of the tree.
    pub root_hash: Vec<u8>,
    /// The value this proof is about.
    pub value: T,
    /// The first level of the proof.
    pub lemma: Lemma,
    /// The digest algorithm the tree was built with.
    pub algorithm: HashAlgorithm,
}

/// A proof without its algorithm, in the shape that is carried between
/// processes; the algorithm is supplied again when it is turned back into a
/// [`Proof`].
#[derive(Clone, Debug, PartialEq, Eq, PartialOrd, Ord, Hash)]
pub struct ProofData<T> {
    /// The digest of the root of the tree.
    pub root_hash: Vec<u8>,
    /// The first level of the proof.
    pub lemma: Lemma,
    /// The value this proof is about.
    pub value: T,
}

impl<T> Proof<T> {
    /// Whether this proof holds against the root digest `root`.
    pub open spec fn valid_for(&self, root: Seq<u8>) -> bool {
        proof_valid(self.algorithm, self.root_hash@, self.lemma@, root)
    }

    /// Puts a proof together from its parts.
    pub fn new(algorithm: HashAlgorithm, root_hash: Vec<u8>, lemma: Lemma, value: T) -> (r: Self)
        ensures
            r.algorithm == algorithm,
            r.root_hash == root_hash,
            r.lemma == lemma,
            r.value == value,
    {
        Proof { root_hash, value, lemma, algorithm }
    }

    /// Checks that this proof is well formed and that it proves membership
    /// under the root digest `root_hash`.
    pub fn validate(&self, root_hash: &[u8]) -> (r: bool)
        ensures
            r == self.valid_for(root_hash@),
    {
        if !bytes_eq(self.root_hash.as_slice(), root_hash) || !bytes_eq(
            self.lemma.node_hash.as_slice(),
            root_hash,
        ) {
            return false;
        }
        self.validate_lemma(&self.lemma)
    }

    fn validate_lemma(&self, lemma: &Lemma) -> (r: bool)
        ensures
            r == lemma_valid(self.algorithm, lemma@),
        decreases lemma,
    {
        match &lemma.sub_lemma {
            None => lemma.sibling_hash.is_none(),
            Some(sub) => match &lemma.sibling_hash {
                None => false,
                Some(Positioned::Left(hash)) => {
                    assert(lemma@.sibling_hash == Some(Positioned::Left(hash@)));
                    assert(lemma@.sub_lemma == Some(Box::new((**sub)@)));
                    if !fits_digest_input(hash.len(), sub.node_hash.len()) {
                        return false;
                    }
                    let combined = hash_nodes(
                        self.algorithm,
                        hash.as_slice(),
                        sub.node_hash.as_slice(),
                    );
                    let hashes_match = bytes_eq(combined.as_slice(), lemma.node_hash.as_slice());
                    hashes_match && self.validate_lemma(sub)
                },
                Some(Positioned::Right(hash)) => {
                    assert(lemma@.sibling_hash == Some(Positioned::Right(hash@)));
                    assert(lemma@.sub_lemma == Some(Box::new((**sub)@)));
                    if !fits_digest_input(sub.node_hash.len(), hash.len()) {
                        return false;
                    }
                    let combined = hash_nodes(
                        self.algorithm,
                        sub.node_hash.as_slice(),
                        hash.as_slice(),
                    );
                    let hashes_match = bytes_eq(combined.as_slice(), lemma.node_hash.as_slice());
                    hashes_match && self.validate_lemma(sub)
                },
            },
        }
    }

    /// The proof's data, without the algorithm.
    pub fn into_data(self) -> (r: ProofData<T>)
        ensures
            r.root_hash == self.root_hash,
            r.lemma == self.lemma,
            r.value == self.value,
    {
        ProofData { root_hash: self.root_hash, lemma: self.lemma, value: self.value }
    }
}

impl<T> ProofData<T> {
    /// The proof made of this data and the given algorithm.
    pub fn into_proof(self, algorithm: HashAlgorithm) -> (r: Proof<T>)
        ensures
            r.algorithm == algorithm,
            r.root_hash == self.root_hash,
            r.lemma == self.lemma,
            r.value == self.value,
    {
        Proof { root_hash: self.root_hash, value: self.value, lemma: self.lemma, algorithm }
    }
}

} // verus!
