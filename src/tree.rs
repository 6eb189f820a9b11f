//! The immutable binary tree of digests that a Merkle tree is made of.
use vstd::prelude::*;
use crate::hashutils::{
    empty_hash, hash_empty, hash_leaf, hash_nodes, leaf_hash, node_hash, output_len,
    HashAlgorithm, MAX_DIGEST_INPUT,
};

verus! {

/// A binary tree whose nodes carry digests and whose leaves carry values.
#[derive(Debug)]
pub enum Tree {
    /// A tree with no leaves, carrying the digest of nothing.
    Empty { hash: Vec<u8> },
    /// A single value and its leaf digest.
    Leaf { hash: Vec<u8>, value: Vec<u8> },
    /// An inner node and the digest of its two children's digests.
    Node { hash: Vec<u8>, left: Box<Tree>, right: Box<Tree> },
}

/// The mathematical value of a [`Tree`].
pub ghost enum TreeView {
    Empty { hash: Seq<u8> },
    Leaf { hash: Seq<u8>, value: Seq<u8> },
    Node { hash: Seq<u8>, left: Box<TreeView>, right: Box<TreeView> },
}

impl View for Tree {
    type V = TreeView;

    open spec fn view(&self) -> TreeView
        decreases self,
    {
        match self {
            Tree::Empty { hash } => TreeView::Empty { hash: hash@ },
            Tree::Leaf { hash, value } => TreeView::Leaf { hash: hash@, value: value@ },
            Tree::Node { hash, left, right } => TreeView::Node {
                hash: hash@,
                left: Box::new((**left).view()),
                right: Box::new((**right).view()),
            },
        }
    }
}

impl TreeView {
    /// The digest at the top of this tree.
    pub open spec fn hash(self) -> Seq<u8> {
        match self {
            TreeView::Empty { hash } => hash,
            TreeView::Leaf { hash, .. } => hash,
            TreeView::Node { hash, .. } => hash,
        }
    }

    /// Every digest in the tree is the one its content calls for, and has the
    /// algorithm's output length.
    pub open spec fn wf(self, alg: HashAlgorithm) -> bool
        decreases self,
    {
        &&& self.hash().len() == output_len(alg)
        &&& match self {
            TreeView::Empty { hash } => hash == empty_hash(alg),
            TreeView::Leaf { hash, value } => hash == leaf_hash(alg, value),
            TreeView::Node { hash, left, right } => {
                &&& hash == node_hash(alg, left.hash(), right.hash())
                &&& left.wf(alg)
                &&& right.wf(alg)
            },
        }
    }

    /// The number of edges on the longest path from the top to a leaf.
    pub open spec fn depth(self) -> nat
        decreases self,
    {
        match self {
            TreeView::Node { left, right, .. } => {
                let l = left.depth();
                let r = right.depth();
                1 + if l < r { r } else { l }
            },
            _ => 0,
        }
    }

    /// The values of the leaves, from left to right.
    pub open spec fn leaves(self) -> Seq<Seq<u8>>
        decreases self,
    {
        match self {
            TreeView::Empty { .. } => Seq::empty(),
            TreeView::Leaf { value, .. } => seq![value],
            TreeView::Node { left, right, .. } => left.leaves() + right.leaves(),
        }
    }

    /// Whether some leaf of the tree carries the digest `needle`.
    pub open spec fn contains_hash(self, needle: Seq<u8>) -> bool
        decreases self,
    {
        match self {
            TreeView::Empty { .. } => false,
            TreeView::Leaf { hash, .. } => hash == needle,
            TreeView::Node { left, right, .. } => left.contains_hash(needle)
                || right.contains_hash(needle),
        }
    }

    /// Whether some leaf of the tree carries `value`.
    pub open spec fn contains_value(self, value: Seq<u8>) -> bool
        decreases self,
    {
        match self {
            TreeView::Empty { .. } => false,
            TreeView::Leaf { value: v, .. } => v == value,
            TreeView::Node { left, right, .. } => left.contains_value(value)
                || right.contains_value(value),
        }
    }
}

/// The inner node over `left` and `right`.
pub open spec fn join(alg: HashAlgorithm, left: TreeView, right: TreeView) -> TreeView {
    TreeView::Node {
        hash: node_hash(alg, left.hash(), right.hash()),
        left: Box::new(left),
        right: Box::new(right),
    }
}

/// The leaf that holds `value`.
pub open spec fn leaf(alg: HashAlgorithm, value: Seq<u8>) -> TreeView {
    TreeView::Leaf { hash: leaf_hash(alg, value), value }
}

/// A copy of a byte string.
pub fn copy_bytes(b: &[u8]) -> (r: Vec<u8>)
    ensures
        r@ == b@,
{
    let mut r: Vec<u8> = Vec::with_capacity(b.len());
    let mut i: usize = 0;
    while i < b.len()
        invariant
            i <= b@.len(),
            r@ == b@.subrange(0, i as int),
        decreases b@.len() - i,
    {
        r.push(b[i]);
        assert(b@.subrange(0, i as int + 1) == b@.subrange(0, i as int).push(b@[i as int]));
        i = i + 1;
    }
    assert(b@ == b@.subrange(0, i as int));
    r
}

impl Tree {
    /// The tree with no leaves.
    pub fn empty(alg: HashAlgorithm) -> (r: Tree)
        ensures
            r@ == (TreeView::Empty { hash: empty_hash(alg) }),
            r@.wf(alg),
    {
        Tree::Empty { hash: hash_empty(alg) }
    }

    /// The leaf that holds `value`.
    pub fn new_leaf(alg: HashAlgorithm, value: Vec<u8>) -> (r: Tree)
        requires
            value@.len() + 1 < MAX_DIGEST_INPUT,
        ensures
            r@ == leaf(alg, value@),
            r@.wf(alg),
    {
        let hash = hash_leaf(alg, value.as_slice());
        Tree::Leaf { hash, value }
    }

    /// The inner node over `left` and `right`.
    pub fn new_node(alg: HashAlgorithm, left: Tree, right: Tree) -> (r: Tree)
        requires
            left@.wf(alg),
            right@.wf(alg),
        ensures
            r@ == join(alg, left@, right@),
            r@.wf(alg),
    {
        let hash = hash_nodes(alg, left.hash().as_slice(), right.hash().as_slice());
        Tree::Node { hash, left: Box::new(left), right: Box::new(right) }
    }

    /// The digest at the top of this tree.
    pub fn hash(&self) -> (r: &Vec<u8>)
        ensures
            r@ == self@.hash(),
    {
        match self {
            Tree::Empty { hash } => hash,
            Tree::Leaf { hash, .. } => hash,
            Tree::Node { hash, .. } => hash,
        }
    }

    /// Appends copies of the leaf values of this tree to `out`, from left to
    /// right.
    pub fn push_leaves(&self, out: &mut Vec<Vec<u8>>)
        ensures
            final(out)@.map_values(|v: Vec<u8>| v@) == old(out)@.map_values(|v: Vec<u8>| v@)
                + self@.leaves(),
        decreases self,
    {
        match self {
            Tree::Empty { .. } => {
                assert(out@.map_values(|v: Vec<u8>| v@) =~= out@.map_values(|v: Vec<u8>| v@)
                    + self@.leaves());
            },
            Tree::Leaf { value, .. } => {
                out.push(copy_bytes(value.as_slice()));
                assert(out@.map_values(|v: Vec<u8>| v@) =~= old(out)@.map_values(|v: Vec<u8>| v@)
                    + self@.leaves());
            },
            Tree::Node { left, right, .. } => {
                (**left).push_leaves(out);
                (**right).push_leaves(out);
                assert(out@.map_values(|v: Vec<u8>| v@) =~= old(out)@.map_values(|v: Vec<u8>| v@)
                    + self@.leaves());
            },
        }
    }

    /// A deep copy of this tree.
    pub fn duplicate(&self) -> (r: Tree)
        ensures
            r@ == self@,
        decreases self,
    {
        match self {
            Tree::Empty { hash } => Tree::Empty { hash: copy_bytes(hash.as_slice()) },
            Tree::Leaf { hash, value } => Tree::Leaf {
                hash: copy_bytes(hash.as_slice()),
                value: copy_bytes(value.as_slice()),
            },
            Tree::Node { hash, left, right } => {
                let l = (**left).duplicate();
                let r = (**right).duplicate();
                Tree::Node { hash: copy_bytes(hash.as_slice()), left: Box::new(l), right: Box::new(r) }
            },
        }
    }
}

} // verus!
