//! Properties of trees and proofs that relate several operations.
use vstd::prelude::*;
use crate::hashutils::{
    digest_of, empty_hash, has_collision, leaf_hash, node_hash, output_len, HashAlgorithm,
    LEAF_TAG, NODE_TAG,
};
use crate::inclusion::{
    find_lemma, lemma_find_iff_contains, lemma_found_is_valid, lemma_valid, proof_valid,
    LemmaView, Positioned,
};
use crate::merkletree::{
    build_levels, build_tree, lemma_build_tree_contains, leaf_level, merkle_root, next_level,
    MerkleTree,
};
use crate::tree::{join, leaf, TreeView};

verus! {

/// Building twice from the same values with the same algorithm gives the same
/// root digest.
pub proof fn lemma_build_deterministic(t1: MerkleTree, t2: MerkleTree)
    requires
        t1.wf(),
        t2.wf(),
        t1.spec_algorithm() == t2.spec_algorithm(),
        t1.spec_values() == t2.spec_values(),
    ensures
        t1.spec_root().hash() == t2.spec_root().hash(),
{
}

/// Every value of a tree has a proof, and that proof holds against the tree's
/// root digest.
pub proof fn lemma_member_has_valid_proof(t: MerkleTree, v: Seq<u8>)
    requires
        t.wf(),
        t.spec_values().contains(v),
    ensures
        find_lemma(t.spec_root(), leaf_hash(t.spec_algorithm(), v)) is Some,
        proof_valid(
            t.spec_algorithm(),
            merkle_root(t.spec_algorithm(), t.spec_values()),
            find_lemma(t.spec_root(), leaf_hash(t.spec_algorithm(), v))->0,
            merkle_root(t.spec_algorithm(), t.spec_values()),
        ),
{
    let alg = t.spec_algorithm();
    let s = t.spec_values();
    let h = leaf_hash(alg, v);
    let i = choose|i: int| 0 <= i < s.len() && s[i] == v;
    assert(leaf_hash(alg, s[i]) == h);
    lemma_build_tree_contains(alg, s, h);
    lemma_find_iff_contains(t.spec_root(), h);
    lemma_found_is_valid(alg, t.spec_root(), h);
}

/// A value whose leaf digest differs from that of every value of the tree
/// has no proof.
pub proof fn lemma_absent_has_no_proof(t: MerkleTree, v: Seq<u8>)
    requires
        t.wf(),
        forall|i: int|
            0 <= i < t.spec_values().len() ==> leaf_hash(t.spec_algorithm(), #[trigger] t.spec_values()[i])
                != leaf_hash(t.spec_algorithm(), v),
    ensures
        find_lemma(t.spec_root(), leaf_hash(t.spec_algorithm(), v)) is None,
{
    let alg = t.spec_algorithm();
    lemma_build_tree_contains(alg, t.spec_values(), leaf_hash(alg, v));
    lemma_find_iff_contains(t.spec_root(), leaf_hash(alg, v));
}

/// A proof whose root digest, or whose top node digest, differs from the root
/// it is checked against does not hold.
pub proof fn lemma_wrong_root_rejected(
    alg: HashAlgorithm,
    root_hash: Seq<u8>,
    l: LemmaView,
    root: Seq<u8>,
)
    requires
        root_hash != root || l.node_hash != root,
    ensures
        !proof_valid(alg, root_hash, l, root),
{
}

/// Whether two lemma chains have the same levels and the same sibling sides.
pub open spec fn same_shape(l1: LemmaView, l2: LemmaView) -> bool
    decreases l1,
{
    match (l1.sub_lemma, l2.sub_lemma) {
        (None, None) => l1.sibling_hash is None && l2.sibling_hash is None,
        (Some(s1), Some(s2)) => match (l1.sibling_hash, l2.sibling_hash) {
            (Some(Positioned::Left(_)), Some(Positioned::Left(_))) => same_shape(*s1, *s2),
            (Some(Positioned::Right(_)), Some(Positioned::Right(_))) => same_shape(*s1, *s2),
            _ => false,
        },
        _ => false,
    }
}

/// Whether every digest in the chain has the algorithm's output length.
pub open spec fn sized(alg: HashAlgorithm, l: LemmaView) -> bool
    decreases l,
{
    &&& l.node_hash.len() == output_len(alg)
    &&& match l.sibling_hash {
        Some(Positioned::Left(h)) => h.len() == output_len(alg),
        Some(Positioned::Right(h)) => h.len() == output_len(alg),
        None => true,
    }
    &&& match l.sub_lemma {
        Some(sub) => sized(alg, *sub),
        None => true,
    }
}

proof fn lemma_split_node_input(alg: HashAlgorithm, a1: Seq<u8>, b1: Seq<u8>, a2: Seq<u8>, b2: Seq<u8>)
    requires
        a1.len() == a2.len(),
        seq![NODE_TAG] + a1 + b1 == seq![NODE_TAG] + a2 + b2,
    ensures
        a1 == a2,
        b1 == b2,
{
    let x1 = seq![NODE_TAG] + a1 + b1;
    let x2 = seq![NODE_TAG] + a2 + b2;
    assert(a1 =~= x1.subrange(1, 1 + a1.len() as int));
    assert(a2 =~= x2.subrange(1, 1 + a2.len() as int));
    assert(b1 =~= x1.subrange(1 + a1.len() as int, x1.len() as int));
    assert(b2 =~= x2.subrange(1 + a2.len() as int, x2.len() as int));
}

/// Two different lemma chains of the same shape and digest lengths that both
/// hold under the same top digest exist only where the digest has a
/// collision: changing a digest of a valid chain makes it fail, unless a
/// collision is found.
pub proof fn lemma_tampered_chain_needs_collision(alg: HashAlgorithm, l1: LemmaView, l2: LemmaView)
    requires
        lemma_valid(alg, l1),
        lemma_valid(alg, l2),
        sized(alg, l1),
        sized(alg, l2),
        same_shape(l1, l2),
        l1.node_hash == l2.node_hash,
        l1 != l2,
    ensures
        has_collision(alg),
    decreases l1,
{
    match (l1.sub_lemma, l2.sub_lemma) {
        (Some(s1), Some(s2)) => {
            let (a1, b1, a2, b2) = match (l1.sibling_hash, l2.sibling_hash) {
                (Some(Positioned::Left(h1)), Some(Positioned::Left(h2))) => (
                    h1,
                    s1.node_hash,
                    h2,
                    s2.node_hash,
                ),
                (Some(Positioned::Right(h1)), Some(Positioned::Right(h2))) => (
                    s1.node_hash,
                    h1,
                    s2.node_hash,
                    h2,
                ),
                _ => (Seq::empty(), Seq::empty(), Seq::empty(), Seq::empty()),
            };
            let x1 = seq![NODE_TAG] + a1 + b1;
            let x2 = seq![NODE_TAG] + a2 + b2;
            assert(digest_of(alg, x1) == digest_of(alg, x2));
            if x1 != x2 {
                assert(x1 != x2 && digest_of(alg, x1) == digest_of(alg, x2));
            } else {
                lemma_split_node_input(alg, a1, b1, a2, b2);
                assert(l1.sibling_hash == l2.sibling_hash);
                assert(s1.node_hash == s2.node_hash);
                if *s1 == *s2 {
                    assert(l1 == l2);
                }
                lemma_tampered_chain_needs_collision(alg, *s1, *s2);
            }
        },
        _ => {
            assert(l1 == l2);
        },
    }
}

/// The same level with the side tag of its sibling digest swapped.
pub open spec fn flip_side(l: LemmaView) -> LemmaView {
    LemmaView {
        sibling_hash: match l.sibling_hash {
            Some(Positioned::Left(h)) => Some(Positioned::Right(h)),
            Some(Positioned::Right(h)) => Some(Positioned::Left(h)),
            None => None,
        },
        ..l
    }
}

/// Swapping the side tag of a sibling digest in a valid chain makes the chain
/// fail, unless the digest has a collision or the two digests combined at
/// that level are equal.
pub proof fn lemma_flipped_side_needs_collision(alg: HashAlgorithm, l: LemmaView)
    requires
        lemma_valid(alg, l),
        lemma_valid(alg, flip_side(l)),
        sized(alg, l),
        l.sub_lemma is Some,
    ensures
        has_collision(alg) || l.sibling_hash == Some(Positioned::Left(l.sub_lemma->0.node_hash))
            || l.sibling_hash == Some(Positioned::Right(l.sub_lemma->0.node_hash)),
{
    let sub = l.sub_lemma->0;
    let s = sub.node_hash;
    assert(sized(alg, *sub));
    assert(s.len() == output_len(alg));
    if let Some(Positioned::Left(h)) = l.sibling_hash {
        let x1 = seq![NODE_TAG] + h + s;
        let x2 = seq![NODE_TAG] + s + h;
        assert(digest_of(alg, x1) == digest_of(alg, x2));
        if x1 != x2 {
            assert(x1 != x2 && digest_of(alg, x1) == digest_of(alg, x2));
        } else {
            lemma_split_node_input(alg, h, s, s, h);
        }
    } else if let Some(Positioned::Right(h)) = l.sibling_hash {
        let x1 = seq![NODE_TAG] + s + h;
        let x2 = seq![NODE_TAG] + h + s;
        assert(digest_of(alg, x1) == digest_of(alg, x2));
        if x1 != x2 {
            assert(x1 != x2 && digest_of(alg, x1) == digest_of(alg, x2));
        } else {
            lemma_split_node_input(alg, s, h, h, s);
        }
    }
}

/// The root of the tree of two leaves is the node over them.
proof fn lemma_two_leaves(alg: HashAlgorithm, a: Seq<u8>, b: Seq<u8>)
    ensures
        build_tree(alg, seq![a, b]) == join(alg, leaf(alg, a), leaf(alg, b)),
{
    let ls = leaf_level(alg, seq![a, b]);
    assert(ls =~= seq![leaf(alg, a), leaf(alg, b)]);
    let n = next_level(alg, ls);
    assert(ls.subrange(2, 2) =~= Seq::<TreeView>::empty());
    assert(next_level(alg, ls.subrange(2, 2)) =~= Seq::<TreeView>::empty());
    assert(n == seq![join(alg, ls[0], ls[1])] + next_level(alg, ls.subrange(2, 2)));
    assert(n =~= seq![join(alg, leaf(alg, a), leaf(alg, b))]);
    assert(build_levels(alg, n) == n[0]);
    assert(build_levels(alg, ls) == build_levels(alg, n));
}

/// Swapping two distinct values changes the root digest, unless the digest
/// has a collision.
pub proof fn lemma_order_sensitive(t1: MerkleTree, t2: MerkleTree, a: Seq<u8>, b: Seq<u8>)
    requires
        t1.wf(),
        t2.wf(),
        t1.spec_algorithm() == t2.spec_algorithm(),
        t1.spec_values() == seq![a, b],
        t2.spec_values() == seq![b, a],
        a != b,
    ensures
        t1.spec_root().hash() != t2.spec_root().hash() || has_collision(t1.spec_algorithm()),
{
    let alg = t1.spec_algorithm();
    lemma_two_leaves(alg, a, b);
    lemma_two_leaves(alg, b, a);
    let ha = leaf_hash(alg, a);
    let hb = leaf_hash(alg, b);
    let r1 = t1.spec_root();
    if let TreeView::Node { left, right, .. } = r1 {
        assert(left.wf(alg));
        assert(ha.len() == output_len(alg));
        assert(right.wf(alg));
        assert(hb.len() == output_len(alg));
    }
    if t1.spec_root().hash() == t2.spec_root().hash() {
        let x1 = seq![NODE_TAG] + ha + hb;
        let x2 = seq![NODE_TAG] + hb + ha;
        assert(digest_of(alg, x1) == digest_of(alg, x2));
        if x1 != x2 {
            assert(x1 != x2 && digest_of(alg, x1) == digest_of(alg, x2));
        } else {
            lemma_split_node_input(alg, ha, hb, hb, ha);
            let y1 = seq![LEAF_TAG] + a;
            let y2 = seq![LEAF_TAG] + b;
            assert(a =~= y1.subrange(1, y1.len() as int));
            assert(b =~= y2.subrange(1, y2.len() as int));
            assert(y1 != y2 && digest_of(alg, y1) == digest_of(alg, y2));
        }
    }
}

/// With three values the third is paired with a copy of itself, so the tree
/// is the one built from the same values with the third repeated.
pub proof fn lemma_odd_level_duplicates_last(alg: HashAlgorithm, a: Seq<u8>, b: Seq<u8>, c: Seq<u8>)
    ensures
        build_tree(alg, seq![a, b, c]) == join(
            alg,
            join(alg, leaf(alg, a), leaf(alg, b)),
            join(alg, leaf(alg, c), leaf(alg, c)),
        ),
        merkle_root(alg, seq![a, b, c]) == node_hash(
            alg,
            node_hash(alg, leaf_hash(alg, a), leaf_hash(alg, b)),
            node_hash(alg, leaf_hash(alg, c), leaf_hash(alg, c)),
        ),
        merkle_root(alg, seq![a, b, c]) == merkle_root(alg, seq![a, b, c, c]),
{
    let la = leaf(alg, a);
    let lb = leaf(alg, b);
    let lc = leaf(alg, c);
    let ab = join(alg, la, lb);
    let cc = join(alg, lc, lc);
    let top = join(alg, ab, cc);
    let ls3 = leaf_level(alg, seq![a, b, c]);
    assert(ls3 =~= seq![la, lb, lc]);
    assert(ls3.subrange(2, 3) =~= seq![lc]);
    assert(next_level(alg, seq![lc]) =~= seq![cc]);
    assert(next_level(alg, ls3) == seq![ab] + next_level(alg, ls3.subrange(2, 3)));
    assert(next_level(alg, ls3) =~= seq![ab, cc]);
    let ls4 = leaf_level(alg, seq![a, b, c, c]);
    assert(ls4 =~= seq![la, lb, lc, lc]);
    assert(ls4.subrange(2, 4) =~= seq![lc, lc]);
    assert(seq![lc, lc].subrange(2, 2) =~= Seq::<TreeView>::empty());
    assert(next_level(alg, seq![lc, lc].subrange(2, 2)) =~= Seq::<TreeView>::empty());
    assert(next_level(alg, seq![lc, lc]) == seq![cc] + next_level(alg, seq![lc, lc].subrange(2, 2)));
    assert(next_level(alg, ls4) == seq![ab] + next_level(alg, ls4.subrange(2, 4)));
    assert(next_level(alg, seq![lc, lc]) =~= seq![cc]);
    assert(next_level(alg, ls4) =~= seq![ab, cc]);
    let two = seq![ab, cc];
    assert(two.subrange(2, 2) =~= Seq::<TreeView>::empty());
    assert(next_level(alg, two.subrange(2, 2)) =~= Seq::<TreeView>::empty());
    assert(next_level(alg, two) == seq![top] + next_level(alg, two.subrange(2, 2)));
    assert(next_level(alg, two) =~= seq![top]);
    assert(build_levels(alg, seq![top]) == top);
    assert(build_levels(alg, two) == top);
}

/// The tree of no values has the digest of nothing at its root, and no
/// digest has a proof in it.
pub proof fn lemma_empty_tree(alg: HashAlgorithm, needle: Seq<u8>)
    ensures
        merkle_root(alg, Seq::empty()) == empty_hash(alg),
        find_lemma(build_tree(alg, Seq::empty()), needle) is None,
{
}

} // verus!
