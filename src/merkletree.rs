//! The Merkle tree: construction from a sequence of values, its root digest,
//! and the generation of inclusion proofs.
use vstd::prelude::*;
use vstd::arithmetic::power2::{lemma_pow2_unfold, pow2};
use crate::hashutils::{empty_hash, hash_leaf, leaf_hash, HashAlgorithm, MAX_DIGEST_INPUT};
use crate::inclusion::{find_lemma, lemma_find_iff_contains, Lemma, Proof};
use crate::tree::{copy_bytes, join, leaf, Tree, TreeView};

verus! {

/// The trees one level up from `ts`: adjacent pairs are joined from the left,
/// and a last tree without a partner is joined with a copy of itself.
pub open spec fn next_level(alg: HashAlgorithm, ts: Seq<TreeView>) -> Seq<TreeView>
    decreases ts.len(),
{
    if ts.len() == 0 {
        Seq::empty()
    } else if ts.len() == 1 {
        seq![join(alg, ts[0], ts[0])]
    } else {
        seq![join(alg, ts[0], ts[1])] + next_level(alg, ts.subrange(2, ts.len() as int))
    }
}

/// The tree that repeated pairing makes of the non-empty level `ts`.
pub open spec fn build_levels(alg: HashAlgorithm, ts: Seq<TreeView>) -> TreeView
    decreases ts.len(),
    via build_levels_decreases
{
    if ts.len() <= 1 {
        ts[0]
    } else {
        build_levels(alg, next_level(alg, ts))
    }
}

#[via_fn]
proof fn build_levels_decreases(alg: HashAlgorithm, ts: Seq<TreeView>) {
    if ts.len() > 1 {
        lemma_next_level(alg, ts);
    }
}

/// The leaves of the values `s`, in order.
pub open spec fn leaf_level(alg: HashAlgorithm, s: Seq<Seq<u8>>) -> Seq<TreeView> {
    s.map_values(|v: Seq<u8>| leaf(alg, v))
}

/// The tree built from the values `s`.
pub open spec fn build_tree(alg: HashAlgorithm, s: Seq<Seq<u8>>) -> TreeView {
    if s.len() == 0 {
        TreeView::Empty { hash: empty_hash(alg) }
    } else {
        build_levels(alg, leaf_level(alg, s))
    }
}

/// The root digest of the tree built from the values `s`.
pub open spec fn merkle_root(alg: HashAlgorithm, s: Seq<Seq<u8>>) -> Seq<u8> {
    build_tree(alg, s).hash()
}

/// The number of pairing rounds that reduce `n` trees to one: the ceiling of
/// the base-2 logarithm of `n` for `n > 1`, and 0 otherwise.
pub open spec fn tree_height(n: nat) -> nat
    decreases n,
{
    if n <= 1 {
        0
    } else {
        1 + tree_height(((n + 1) / 2) as nat)
    }
}

/// The height of `n > 1` leaves is the ceiling of the base-2 logarithm of
/// `n`: the least `h` with `n <= 2^h`.
pub proof fn lemma_tree_height_is_ceil_log2(n: nat)
    requires
        n > 1,
    ensures
        n <= pow2(tree_height(n)),
        pow2((tree_height(n) - 1) as nat) < n,
    decreases n,
{
    let m = ((n + 1) / 2) as nat;
    let h = tree_height(n);
    lemma_pow2_unfold(h);
    if m > 1 {
        lemma_tree_height_is_ceil_log2(m);
        lemma_pow2_unfold(tree_height(m));
    } else {
        assert(h == 1);
        assert(pow2(0) == 1) by {
            vstd::arithmetic::power2::lemma_pow2(0);
            vstd::arithmetic::power::lemma_pow0(2);
        }
    }
}

/// Whether some tree of the level `ts` has a leaf with digest `h`.
pub open spec fn level_contains(ts: Seq<TreeView>, h: Seq<u8>) -> bool {
    exists|i: int| 0 <= i < ts.len() && #[trigger] ts[i].contains_hash(h)
}

proof fn lemma_level_contains_concat(a: Seq<TreeView>, b: Seq<TreeView>, h: Seq<u8>)
    ensures
        level_contains(a + b, h) == (level_contains(a, h) || level_contains(b, h)),
{
    let ab = a + b;
    if level_contains(ab, h) {
        let i = choose|i: int| 0 <= i < ab.len() && #[trigger] ab[i].contains_hash(h);
        if i < a.len() {
            assert(a[i].contains_hash(h));
        } else {
            assert(b[i - a.len()].contains_hash(h));
        }
    }
    if level_contains(a, h) {
        let i = choose|i: int| 0 <= i < a.len() && #[trigger] a[i].contains_hash(h);
        assert(ab[i].contains_hash(h));
    }
    if level_contains(b, h) {
        let i = choose|i: int| 0 <= i < b.len() && #[trigger] b[i].contains_hash(h);
        assert(ab[i + a.len()].contains_hash(h));
    }
}

/// One pairing round halves the level, rounding up, and keeps the leaf digests.
pub proof fn lemma_next_level(alg: HashAlgorithm, ts: Seq<TreeView>)
    ensures
        next_level(alg, ts).len() == (ts.len() + 1) / 2,
        forall|h: Seq<u8>| level_contains(next_level(alg, ts), h) == level_contains(ts, h),
    decreases ts.len(),
{
    if ts.len() == 0 {
    } else if ts.len() == 1 {
        assert forall|h: Seq<u8>| level_contains(next_level(alg, ts), h) == level_contains(ts, h) by {
            let n = next_level(alg, ts);
            if level_contains(ts, h) {
                assert(ts[0].contains_hash(h));
                assert(n[0].contains_hash(h));
            }
            if level_contains(n, h) {
                assert(n[0].contains_hash(h));
                assert(ts[0].contains_hash(h));
            }
        }
    } else {
        let rest = ts.subrange(2, ts.len() as int);
        lemma_next_level(alg, rest);
        let head = seq![join(alg, ts[0], ts[1])];
        assert forall|h: Seq<u8>| level_contains(next_level(alg, ts), h) == level_contains(ts, h) by {
            lemma_level_contains_concat(head, next_level(alg, rest), h);
            let pair = ts.subrange(0, 2);
            assert(ts == pair + rest);
            lemma_level_contains_concat(pair, rest, h);
            if level_contains(pair, h) {
                let i = choose|i: int| 0 <= i < pair.len() && #[trigger] pair[i].contains_hash(h);
                assert(head[0].contains_hash(h));
            }
            if level_contains(head, h) {
                assert(head[0].contains_hash(h));
                if ts[0].contains_hash(h) {
                    assert(pair[0].contains_hash(h));
                } else {
                    assert(pair[1].contains_hash(h));
                }
            }
        }
    }
}

/// The tree built from a non-empty level has exactly that level's leaf digests.
pub proof fn lemma_build_levels_contains(alg: HashAlgorithm, ts: Seq<TreeView>)
    requires
        ts.len() >= 1,
    ensures
        forall|h: Seq<u8>| build_levels(alg, ts).contains_hash(h) == level_contains(ts, h),
    decreases ts.len(),
{
    if ts.len() <= 1 {
        assert forall|h: Seq<u8>| build_levels(alg, ts).contains_hash(h) == level_contains(ts, h) by {
            if build_levels(alg, ts).contains_hash(h) {
                assert(ts[0].contains_hash(h));
            }
        }
    } else {
        lemma_next_level(alg, ts);
        lemma_build_levels_contains(alg, next_level(alg, ts));
    }
}

/// The tree built from `s` has a leaf with digest `h` exactly when some value
/// of `s` has leaf digest `h`.
pub proof fn lemma_build_tree_contains(alg: HashAlgorithm, s: Seq<Seq<u8>>, h: Seq<u8>)
    ensures
        build_tree(alg, s).contains_hash(h) == (exists|i: int|
            0 <= i < s.len() && #[trigger] crate::hashutils::leaf_hash(alg, s[i]) == h),
{
    if s.len() > 0 {
        let ls = leaf_level(alg, s);
        lemma_build_levels_contains(alg, ls);
        if level_contains(ls, h) {
            let i = choose|i: int| 0 <= i < ls.len() && #[trigger] ls[i].contains_hash(h);
            assert(crate::hashutils::leaf_hash(alg, s[i]) == h);
        }
        if exists|i: int| 0 <= i < s.len() && #[trigger] crate::hashutils::leaf_hash(alg, s[i]) == h {
            let i = choose|i: int| 0 <= i < s.len() && #[trigger] crate::hashutils::leaf_hash(alg, s[i]) == h;
            assert(ls[i].contains_hash(h));
        }
    }
}

/// The leaf values of the trees `ts`, from left to right.
pub open spec fn flat(ts: Seq<TreeView>) -> Seq<Seq<u8>>
    decreases ts.len(),
{
    if ts.len() == 0 {
        Seq::empty()
    } else {
        ts[0].leaves() + flat(ts.subrange(1, ts.len() as int))
    }
}

proof fn lemma_flat_concat(a: Seq<TreeView>, b: Seq<TreeView>)
    ensures
        flat(a + b) == flat(a) + flat(b),
    decreases a.len(),
{
    if a.len() == 0 {
        assert(a + b =~= b);
        assert(flat(a) + flat(b) =~= flat(b));
    } else {
        let rest = a.subrange(1, a.len() as int);
        lemma_flat_concat(rest, b);
        assert((a + b).subrange(1, (a + b).len() as int) =~= rest + b);
        assert(flat(a + b) =~= flat(a) + flat(b));
    }
}

proof fn lemma_flat_single(t: TreeView)
    ensures
        flat(seq![t]) == t.leaves(),
{
    assert(seq![t].subrange(1, 1) =~= Seq::<TreeView>::empty());
    assert(flat(seq![t].subrange(1, 1)) == Seq::<Seq<u8>>::empty());
    assert(flat(seq![t]) =~= t.leaves());
}

/// A pairing round keeps the leaf values of a level as a prefix.
proof fn lemma_next_level_prefix(alg: HashAlgorithm, ts: Seq<TreeView>)
    ensures
        flat(ts).len() <= flat(next_level(alg, ts)).len(),
        flat(next_level(alg, ts)).subrange(0, flat(ts).len() as int) == flat(ts),
    decreases ts.len(),
{
    if ts.len() == 0 {
        assert(flat(ts).subrange(0, 0) =~= flat(ts));
    } else if ts.len() == 1 {
        lemma_flat_single(ts[0]);
        lemma_flat_single(join(alg, ts[0], ts[0]));
        assert(ts =~= seq![ts[0]]);
        assert(flat(next_level(alg, ts)).subrange(0, flat(ts).len() as int) =~= flat(ts));
    } else {
        let rest = ts.subrange(2, ts.len() as int);
        lemma_next_level_prefix(alg, rest);
        let j = join(alg, ts[0], ts[1]);
        lemma_flat_concat(seq![j], next_level(alg, rest));
        lemma_flat_single(j);
        let pair = seq![ts[0], ts[1]];
        assert(ts =~= pair + rest);
        lemma_flat_concat(pair, rest);
        lemma_flat_concat(seq![ts[0]], seq![ts[1]]);
        assert(pair =~= seq![ts[0]] + seq![ts[1]]);
        lemma_flat_single(ts[0]);
        lemma_flat_single(ts[1]);
        assert(flat(next_level(alg, ts)).subrange(0, flat(ts).len() as int) =~= flat(ts));
    }
}

/// The tree built from a non-empty level starts with that level's leaf values.
proof fn lemma_build_levels_prefix(alg: HashAlgorithm, ts: Seq<TreeView>)
    requires
        ts.len() >= 1,
    ensures
        flat(ts).len() <= build_levels(alg, ts).leaves().len(),
        build_levels(alg, ts).leaves().subrange(0, flat(ts).len() as int) == flat(ts),
    decreases ts.len(),
{
    if ts.len() == 1 {
        assert(ts =~= seq![ts[0]]);
        lemma_flat_single(ts[0]);
        assert(ts[0].leaves().subrange(0, ts[0].leaves().len() as int) =~= ts[0].leaves());
    } else {
        lemma_next_level(alg, ts);
        lemma_next_level_prefix(alg, ts);
        lemma_build_levels_prefix(alg, next_level(alg, ts));
        let all = build_levels(alg, ts).leaves();
        let mid = flat(next_level(alg, ts));
        assert(all.subrange(0, flat(ts).len() as int) =~= mid.subrange(0, flat(ts).len() as int));
    }
}

proof fn lemma_flat_leaf_level(alg: HashAlgorithm, s: Seq<Seq<u8>>)
    ensures
        flat(leaf_level(alg, s)) == s,
    decreases s.len(),
{
    if s.len() > 0 {
        let rest = s.subrange(1, s.len() as int);
        lemma_flat_leaf_level(alg, rest);
        assert(leaf_level(alg, s).subrange(1, s.len() as int) =~= leaf_level(alg, rest));
        assert(flat(leaf_level(alg, s)) =~= s);
    }
}

/// The leaves of the tree built from `s` start with the values of `s`, in
/// order; what follows them are the copies made for odd levels.
pub proof fn lemma_build_tree_leaves(alg: HashAlgorithm, s: Seq<Seq<u8>>)
    ensures
        s.len() <= build_tree(alg, s).leaves().len(),
        build_tree(alg, s).leaves().subrange(0, s.len() as int) == s,
{
    if s.len() == 0 {
        assert(build_tree(alg, s).leaves().subrange(0, 0) =~= s);
    } else {
        lemma_flat_leaf_level(alg, s);
        lemma_build_levels_prefix(alg, leaf_level(alg, s));
    }
}

/// The views of a sequence of trees.
pub open spec fn tree_views(ts: Seq<Tree>) -> Seq<TreeView> {
    ts.map_values(|t: Tree| t@)
}

/// The views of a sequence of byte strings.
pub open spec fn byte_views(vs: Seq<Vec<u8>>) -> Seq<Seq<u8>> {
    vs.map_values(|v: Vec<u8>| v@)
}

proof fn lemma_tree_height_bound(n: nat)
    ensures
        tree_height(n) <= n,
    decreases n,
{
    if n > 1 {
        lemma_tree_height_bound(((n + 1) / 2) as nat);
    }
}

/// A Merkle tree: a binary tree of digests over an ordered sequence of values,
/// fixed once it is built.
pub struct MerkleTree {
    algorithm: HashAlgorithm,
    root: Tree,
    height: usize,
    count: usize,
    values: Ghost<Seq<Seq<u8>>>,
}

impl MerkleTree {
    /// The digest algorithm the tree is built with.
    pub closed spec fn spec_algorithm(&self) -> HashAlgorithm {
        self.algorithm
    }

    /// The values the tree is built from, in order.
    pub closed spec fn spec_values(&self) -> Seq<Seq<u8>> {
        self.values@
    }

    /// The tree of digests.
    pub closed spec fn spec_root(&self) -> TreeView {
        self.root@
    }

    /// The number of pairing rounds from the leaves to the root.
    pub closed spec fn spec_height(&self) -> nat {
        self.height as nat
    }

    /// The number of values.
    pub closed spec fn spec_count(&self) -> nat {
        self.count as nat
    }

    /// The tree of digests is the one built from the values, every digest in
    /// it is sound, and the height and count are those of the values.
    pub open spec fn wf(&self) -> bool {
        &&& self.spec_root() == build_tree(self.spec_algorithm(), self.spec_values())
        &&& self.spec_root().wf(self.spec_algorithm())
        &&& self.spec_count() == self.spec_values().len()
        &&& self.spec_height() == tree_height(self.spec_values().len())
    }

    /// Builds the tree of `values` with the digest algorithm `algorithm`.
    pub fn from_vec(algorithm: HashAlgorithm, values: Vec<Vec<u8>>) -> (r: MerkleTree)
        requires
            forall|i: int| 0 <= i < values.len() ==> #[trigger] values[i]@.len() + 1 < MAX_DIGEST_INPUT,
        ensures
            r.wf(),
            r.spec_algorithm() == algorithm,
            r.spec_values() == byte_views(values@),
            r.spec_root() == build_tree(algorithm, byte_views(values@)),
            r.spec_count() == values.len(),
            r.spec_height() == tree_height(values.len() as nat),
    {
        let ghost vals = byte_views(values@);
        if values.len() == 0 {
            let root = Tree::empty(algorithm);
            return MerkleTree { algorithm, root, height: 0, count: 0, values: Ghost(vals) };
        }
        let count = values.len();
        let mut cur: Vec<Tree> = Vec::with_capacity(count);
        let mut i: usize = 0;
        while i < count
            invariant
                count == values.len(),
                vals == byte_views(values@),
                forall|j: int| 0 <= j < values.len() ==> #[trigger] values[j]@.len() + 1 < MAX_DIGEST_INPUT,
                i <= count,
                cur.len() == i,
                tree_views(cur@) == leaf_level(algorithm, vals).subrange(0, i as int),
                forall|j: int| 0 <= j < cur.len() ==> (#[trigger] cur[j])@.wf(algorithm),
            decreases count - i,
        {
            let v = copy_bytes(values[i].as_slice());
            let t = Tree::new_leaf(algorithm, v);
            cur.push(t);
            assert(tree_views(cur@) =~= leaf_level(algorithm, vals).subrange(0, i as int + 1));
            i = i + 1;
        }
        assert(tree_views(cur@) =~= leaf_level(algorithm, vals));
        let ghost target = build_levels(algorithm, leaf_level(algorithm, vals));
        let mut height: usize = 0;
        proof {
            lemma_tree_height_bound(count as nat);
        }
        while cur.len() > 1
            invariant
                cur.len() >= 1,
                forall|j: int| 0 <= j < cur.len() ==> (#[trigger] cur[j])@.wf(algorithm),
                build_levels(algorithm, tree_views(cur@)) == target,
                height + tree_height(cur.len() as nat) == tree_height(count as nat),
                tree_height(count as nat) <= count,
            decreases cur.len(),
        {
            let ghost start = tree_views(cur@);
            let mut next: Vec<Tree> = Vec::new();
            while cur.len() > 0
                invariant
                    forall|j: int| 0 <= j < cur.len() ==> (#[trigger] cur[j])@.wf(algorithm),
                    forall|j: int| 0 <= j < next.len() ==> (#[trigger] next[j])@.wf(algorithm),
                    next_level(algorithm, start) == tree_views(next@) + next_level(
                        algorithm,
                        tree_views(cur@),
                    ),
                decreases cur.len(),
            {
                let ghost before = tree_views(cur@);
                if cur.len() == 1 {
                    let only = cur.remove(0);
                    let copy = only.duplicate();
                    let node = Tree::new_node(algorithm, only, copy);
                    next.push(node);
                    assert(tree_views(cur@) =~= Seq::<TreeView>::empty());
                    assert(next_level(algorithm, before) =~= seq![node@]);
                } else {
                    let left = cur.remove(0);
                    let right = cur.remove(0);
                    let node = Tree::new_node(algorithm, left, right);
                    next.push(node);
                    assert(tree_views(cur@) =~= before.subrange(2, before.len() as int));
                    assert(next_level(algorithm, before) =~= seq![node@] + next_level(
                        algorithm,
                        tree_views(cur@),
                    ));
                }
                assert(tree_views(next@) =~= tree_views(next@.drop_last()).push(next@.last()@));
            }
            assert(tree_views(cur@) =~= Seq::<TreeView>::empty());
            assert(tree_views(next@) =~= next_level(algorithm, start));
            proof {
                lemma_next_level(algorithm, start);
            }
            height = height + 1;
            cur = next;
        }
        let root = cur.remove(0);
        MerkleTree { algorithm, root, height, count, values: Ghost(vals) }
    }

    /// The digest at the root of the tree.
    pub fn root_hash(&self) -> (r: &Vec<u8>)
        requires
            self.wf(),
        ensures
            r@ == merkle_root(self.spec_algorithm(), self.spec_values()),
    {
        self.root.hash()
    }

    /// The digest algorithm of the tree.
    pub fn algorithm(&self) -> (r: HashAlgorithm)
        ensures
            r == self.spec_algorithm(),
    {
        self.algorithm
    }

    /// The number of pairing rounds from the leaves to the root.
    pub fn height(&self) -> (r: usize)
        requires
            self.wf(),
        ensures
            r == tree_height(self.spec_values().len()),
    {
        self.height
    }

    /// The number of values in the tree.
    pub fn count(&self) -> (r: usize)
        requires
            self.wf(),
        ensures
            r == self.spec_values().len(),
    {
        self.count
    }

    /// Whether the tree holds no values.
    pub fn is_empty(&self) -> (r: bool)
        requires
            self.wf(),
        ensures
            r == (self.spec_values().len() == 0),
    {
        self.count == 0
    }

    /// The values of the tree, from left to right.
    pub fn values(&self) -> (r: Vec<Vec<u8>>)
        requires
            self.wf(),
        ensures
            byte_views(r@) == self.spec_values(),
    {
        let mut all: Vec<Vec<u8>> = Vec::new();
        self.root.push_leaves(&mut all);
        proof {
            lemma_build_tree_leaves(self.algorithm, self.values@);
            assert(byte_views(all@) =~= self.root@.leaves());
        }
        let mut r: Vec<Vec<u8>> = Vec::with_capacity(self.count);
        let mut i: usize = 0;
        while i < self.count
            invariant
                self.wf(),
                i <= self.count,
                self.count <= all.len(),
                byte_views(all@).subrange(0, self.count as int) == self.values@,
                byte_views(r@) == self.values@.subrange(0, i as int),
            decreases self.count - i,
        {
            let v = copy_bytes(all[i].as_slice());
            assert(byte_views(all@)[i as int] == all@[i as int]@);
            assert(byte_views(all@).subrange(0, self.count as int)[i as int] == self.values@[i as int]);
            let ghost before = r@;
            r.push(v);
            assert(byte_views(r@) =~= byte_views(before).push(v@));
            assert(byte_views(r@) =~= self.values@.subrange(0, i as int + 1));
            i = i + 1;
        }
        assert(self.values@.subrange(0, i as int) =~= self.values@);
        r
    }

    /// Generates an inclusion proof of `value`, or `None` where no value of
    /// the tree has the leaf digest of `value`.
    pub fn gen_proof(&self, value: Vec<u8>) -> (r: Option<Proof<Vec<u8>>>)
        requires
            self.wf(),
            value@.len() + 1 < MAX_DIGEST_INPUT,
        ensures
            r is Some == (exists|i: int|
                0 <= i < self.spec_values().len() && #[trigger] leaf_hash(
                    self.spec_algorithm(),
                    self.spec_values()[i],
                ) == leaf_hash(self.spec_algorithm(), value@)),
            r is None ==> find_lemma(
                self.spec_root(),
                leaf_hash(self.spec_algorithm(), value@),
            ) is None,
            r matches Some(p) ==> {
                &&& find_lemma(self.spec_root(), leaf_hash(self.spec_algorithm(), value@))
                    == Some(p.lemma@)
                &&& p.root_hash@ == merkle_root(self.spec_algorithm(), self.spec_values())
                &&& p.value@ == value@
                &&& p.algorithm == self.spec_algorithm()
            },
    {
        let needle = hash_leaf(self.algorithm, value.as_slice());
        proof {
            lemma_find_iff_contains(self.root@, needle@);
            lemma_build_tree_contains(self.algorithm, self.values@, needle@);
        }
        match Lemma::new(&self.root, needle.as_slice()) {
            None => None,
            Some(lemma) => {
                let root_hash = copy_bytes(self.root.hash().as_slice());
                Some(Proof::new(self.algorithm, root_hash, lemma, value))
            },
        }
    }
}

} // verus!
