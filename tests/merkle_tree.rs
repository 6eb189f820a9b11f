use merkle::{
    bytes_eq, hash_empty, hash_leaf, hash_nodes, HashAlgorithm, Lemma, MerkleTree,
    Positioned, Proof, ProofData, Tree,
};

fn sha256(data: &[u8]) -> Vec<u8> {
    ring::digest::digest(&ring::digest::SHA256, data).as_ref().to_vec()
}

fn h_leaf(v: &[u8]) -> Vec<u8> {
    let mut d = vec![0u8];
    d.extend_from_slice(v);
    sha256(&d)
}

fn h_node(l: &[u8], r: &[u8]) -> Vec<u8> {
    let mut d = vec![1u8];
    d.extend_from_slice(l);
    d.extend_from_slice(r);
    sha256(&d)
}

fn values(items: &[&str]) -> Vec<Vec<u8>> {
    items.iter().map(|s| s.as_bytes().to_vec()).collect()
}

fn tree_of(items: &[&str]) -> MerkleTree {
    MerkleTree::from_vec(HashAlgorithm::Sha256, values(items))
}

fn sibling_bytes(l: &Lemma) -> Vec<u8> {
    match l.sibling_hash.as_ref().unwrap() {
        Positioned::Left(h) => h.clone(),
        Positioned::Right(h) => h.clone(),
    }
}

#[test]
fn four_values_proof_chain() {
    let t = tree_of(&["a", "b", "c", "d"]);
    let (ha, hb, hc, hd) = (h_leaf(b"a"), h_leaf(b"b"), h_leaf(b"c"), h_leaf(b"d"));
    let n1 = h_node(&ha, &hb);
    let n2 = h_node(&hc, &hd);
    let root = h_node(&n1, &n2);
    assert_eq!(t.root_hash(), &root);

    let p = t.gen_proof(b"c".to_vec()).unwrap();
    assert_eq!(p.root_hash, root);
    assert_eq!(p.value, b"c".to_vec());
    assert_eq!(p.lemma.node_hash, root);
    assert_eq!(p.lemma.sibling_hash, Some(Positioned::Left(n1.clone())));
    let l1 = p.lemma.sub_lemma.as_ref().unwrap();
    assert_eq!(l1.node_hash, n2);
    assert_eq!(l1.sibling_hash, Some(Positioned::Right(hd.clone())));
    let l2 = l1.sub_lemma.as_ref().unwrap();
    assert_eq!(l2.node_hash, hc);
    assert_eq!(l2.sibling_hash, None);
    assert!(l2.sub_lemma.is_none());
    assert!(p.validate(&root));
}

#[test]
fn flipping_a_side_tag_fails_validation() {
    let t = tree_of(&["a", "b", "c", "d"]);
    let root = t.root_hash().clone();
    let p = t.gen_proof(b"c".to_vec()).unwrap();

    let mut top = p.clone();
    top.lemma.sibling_hash = Some(Positioned::Right(sibling_bytes(&p.lemma)));
    assert!(!top.validate(&root));

    let mut inner = p.clone();
    let sub = inner.lemma.sub_lemma.as_mut().unwrap();
    let h = sibling_bytes(sub);
    sub.sibling_hash = Some(Positioned::Left(h));
    assert!(!inner.validate(&root));
}

#[test]
fn empty_tree_has_sentinel_root_and_no_proofs() {
    let t = tree_of(&[]);
    assert_eq!(t.root_hash(), &sha256(&[]));
    assert_eq!(t.count(), 0);
    assert_eq!(t.height(), 0);
    assert!(t.is_empty());
    assert!(t.gen_proof(b"a".to_vec()).is_none());
    assert!(t.gen_proof(Vec::new()).is_none());
}

#[test]
fn building_twice_gives_the_same_root() {
    let t1 = tree_of(&["x", "y", "z", "w", "v"]);
    let t2 = tree_of(&["x", "y", "z", "w", "v"]);
    assert_eq!(t1.root_hash(), t2.root_hash());
}

#[test]
fn every_member_has_a_valid_proof() {
    let items = ["one", "two", "three", "four", "five", "six", "seven"];
    let t = tree_of(&items);
    let root = t.root_hash().clone();
    for item in items.iter() {
        let p = t.gen_proof(item.as_bytes().to_vec()).unwrap();
        assert_eq!(p.value, item.as_bytes().to_vec());
        assert!(p.validate(&root));
    }
}

#[test]
fn absent_value_has_no_proof() {
    let t = tree_of(&["a", "b", "c"]);
    assert!(t.gen_proof(b"z".to_vec()).is_none());
    assert!(t.gen_proof(b"ab".to_vec()).is_none());
}

#[test]
fn tampering_any_digest_byte_fails_validation() {
    let t = tree_of(&["a", "b", "c", "d", "e"]);
    let root = t.root_hash().clone();
    let p = t.gen_proof(b"d".to_vec()).unwrap();
    assert!(p.validate(&root));

    for i in 0..root.len() {
        let mut q = p.clone();
        q.root_hash[i] ^= 1;
        assert!(!q.validate(&root));
    }

    let mut depth = 0;
    loop {
        let mut q = p.clone();
        let mut level = &mut q.lemma;
        for _ in 0..depth {
            level = level.sub_lemma.as_mut().unwrap();
        }
        level.node_hash[0] ^= 0x80;
        let last = level.sub_lemma.is_none();
        assert!(!q.validate(&root));

        if !last {
            let mut q = p.clone();
            let mut level = &mut q.lemma;
            for _ in 0..depth {
                level = level.sub_lemma.as_mut().unwrap();
            }
            match level.sibling_hash.as_mut().unwrap() {
                Positioned::Left(h) => h[5] ^= 4,
                Positioned::Right(h) => h[5] ^= 4,
            }
            assert!(!q.validate(&root));
        }
        if last {
            break;
        }
        depth += 1;
    }
    assert_eq!(depth, 3);
}

#[test]
fn validating_against_another_root_fails() {
    let t = tree_of(&["a", "b"]);
    let other = tree_of(&["a", "c"]);
    let p = t.gen_proof(b"a".to_vec()).unwrap();
    assert!(!p.validate(other.root_hash()));
}

#[test]
fn swapping_two_values_changes_the_root() {
    let ab = tree_of(&["a", "b"]);
    let ba = tree_of(&["b", "a"]);
    assert_ne!(ab.root_hash(), ba.root_hash());
    assert_eq!(ab.root_hash(), &h_node(&h_leaf(b"a"), &h_leaf(b"b")));
}

#[test]
fn odd_level_pairs_last_node_with_itself() {
    let t = tree_of(&["a", "b", "c"]);
    let (ha, hb, hc) = (h_leaf(b"a"), h_leaf(b"b"), h_leaf(b"c"));
    let expected = h_node(&h_node(&ha, &hb), &h_node(&hc, &hc));
    assert_eq!(t.root_hash(), &expected);
    let padded = tree_of(&["a", "b", "c", "c"]);
    assert_eq!(t.root_hash(), padded.root_hash());

    let p = t.gen_proof(b"c".to_vec()).unwrap();
    let sub = p.lemma.sub_lemma.as_ref().unwrap();
    assert_eq!(sub.sibling_hash, Some(Positioned::Right(hc.clone())));
    assert!(p.validate(&expected));
}

#[test]
fn five_values_duplicate_at_two_levels() {
    let t = tree_of(&["a", "b", "c", "d", "e"]);
    let h: Vec<Vec<u8>> = ["a", "b", "c", "d", "e"].iter().map(|s| h_leaf(s.as_bytes())).collect();
    let ee = h_node(&h[4], &h[4]);
    let left = h_node(&h_node(&h[0], &h[1]), &h_node(&h[2], &h[3]));
    let right = h_node(&ee, &ee);
    assert_eq!(t.root_hash(), &h_node(&left, &right));
}

#[test]
fn height_and_count_follow_the_leaf_count() {
    let cases: [(usize, usize); 8] = [(1, 0), (2, 1), (3, 2), (4, 2), (5, 3), (8, 3), (9, 4), (16, 4)];
    for (n, height) in cases.iter() {
        let vals: Vec<Vec<u8>> = (0..*n).map(|i| vec![i as u8]).collect();
        let t = MerkleTree::from_vec(HashAlgorithm::Sha256, vals);
        assert_eq!(t.count(), *n);
        assert_eq!(t.height(), *height);
        assert!(!t.is_empty());
    }
}

#[test]
fn single_value_tree() {
    let t = tree_of(&["only"]);
    let h = h_leaf(b"only");
    assert_eq!(t.root_hash(), &h);
    let p = t.gen_proof(b"only".to_vec()).unwrap();
    assert_eq!(p.lemma.node_hash, h);
    assert!(p.lemma.sibling_hash.is_none());
    assert!(p.lemma.sub_lemma.is_none());
    assert!(p.validate(&h));
}

#[test]
fn duplicate_values_prove_the_left_occurrence() {
    let t = tree_of(&["a", "a"]);
    let p = t.gen_proof(b"a".to_vec()).unwrap();
    assert_eq!(p.lemma.sibling_hash, Some(Positioned::Right(h_leaf(b"a"))));
}

#[test]
fn dangling_sub_lemma_is_invalid() {
    let leaf = h_leaf(b"a");
    let sub = Lemma { node_hash: leaf.clone(), sibling_hash: None, sub_lemma: None };
    let top = Lemma { node_hash: leaf.clone(), sibling_hash: None, sub_lemma: Some(Box::new(sub)) };
    let p = Proof::new(HashAlgorithm::Sha256, leaf.clone(), top, b"a".to_vec());
    assert!(!p.validate(&leaf));

    let lone = Lemma {
        node_hash: leaf.clone(),
        sibling_hash: Some(Positioned::Left(leaf.clone())),
        sub_lemma: None,
    };
    let q = Proof::new(HashAlgorithm::Sha256, leaf.clone(), lone, b"a".to_vec());
    assert!(!q.validate(&leaf));
}

#[test]
fn proof_under_another_algorithm_fails() {
    let t = tree_of(&["a", "b", "c"]);
    let root = t.root_hash().clone();
    let p = t.gen_proof(b"b".to_vec()).unwrap();
    let q = p.clone().into_data().into_proof(HashAlgorithm::Sha512);
    assert!(!q.validate(&root));
}

#[test]
fn proof_data_round_trip() {
    let t = tree_of(&["a", "b", "c"]);
    let p = t.gen_proof(b"b".to_vec()).unwrap();
    let data: ProofData<Vec<u8>> = p.clone().into_data();
    assert_eq!(data.root_hash, p.root_hash);
    assert_eq!(data.lemma, p.lemma);
    assert_eq!(data.value, p.value);
    let back = data.into_proof(HashAlgorithm::Sha256);
    assert_eq!(back, p);
    assert!(back.validate(t.root_hash()));
}

#[test]
fn proofs_order_by_root_then_value_then_lemma() {
    let t = tree_of(&["a", "b", "c", "d"]);
    let pa = t.gen_proof(b"a".to_vec()).unwrap();
    let pb = t.gen_proof(b"b".to_vec()).unwrap();
    assert!(pa < pb);
    assert_ne!(pa, pb);
    assert_eq!(pa.clone(), pa);

    let mut low_root = pb.clone();
    low_root.root_hash = vec![0u8; 32];
    assert!(low_root < pa);

    let mut same_value = pa.clone();
    same_value.lemma.sibling_hash = Some(Positioned::Right(vec![0xffu8; 32]));
    assert!(pa < same_value);
}

#[test]
fn lemma_clone_is_deep_and_equal() {
    let t = tree_of(&["a", "b", "c", "d"]);
    let p = t.gen_proof(b"d".to_vec()).unwrap();
    let mut copy = p.lemma.clone();
    assert_eq!(copy, p.lemma);
    copy.sub_lemma.as_mut().unwrap().node_hash[0] ^= 1;
    assert_ne!(copy, p.lemma);
}

#[test]
fn lemma_search_in_tree() {
    let a = Tree::new_leaf(HashAlgorithm::Sha256, b"a".to_vec());
    let b = Tree::new_leaf(HashAlgorithm::Sha256, b"b".to_vec());
    let node = Tree::new_node(HashAlgorithm::Sha256, a, b);
    let hb = h_leaf(b"b");
    let l = Lemma::new(&node, &hb).unwrap();
    assert_eq!(&l.node_hash, node.hash());
    assert_eq!(l.sibling_hash, Some(Positioned::Left(h_leaf(b"a"))));
    assert!(Lemma::new(&node, &h_leaf(b"q")).is_none());
    assert!(Lemma::new(&Tree::empty(HashAlgorithm::Sha256), &hb).is_none());

    let leaf = Lemma::new_leaf_proof(&hb, &hb).unwrap();
    assert_eq!(leaf.node_hash, hb);
    assert!(Lemma::new_leaf_proof(&hb, &h_leaf(b"a")).is_none());

    let left = Tree::new_leaf(HashAlgorithm::Sha256, b"a".to_vec());
    let right = Tree::new_leaf(HashAlgorithm::Sha256, b"b".to_vec());
    let top = h_node(&h_leaf(b"a"), &hb);
    let found = Lemma::new_tree_proof(&top, &h_leaf(b"a"), &left, &right).unwrap();
    assert_eq!(found.sibling_hash, Some(Positioned::Right(hb.clone())));
}

#[test]
fn digest_helpers_match_the_primitive() {
    assert_eq!(hash_empty(HashAlgorithm::Sha256), sha256(&[]));
    let leaf = hash_leaf(HashAlgorithm::Sha256, b"abc");
    assert_eq!(leaf, h_leaf(b"abc"));
    assert_ne!(leaf, b"abc".to_vec());
    assert_ne!(leaf, sha256(b"abc"));
    let node = hash_nodes(HashAlgorithm::Sha256, &leaf, &leaf);
    assert_eq!(node, h_node(&leaf, &leaf));
    assert!(bytes_eq(b"ab", b"ab"));
    assert!(!bytes_eq(b"ab", b"ac"));
    assert!(!bytes_eq(b"ab", b"abc"));
}

#[test]
fn digest_lengths_follow_the_algorithm() {
    let cases = [
        (HashAlgorithm::Sha1ForLegacyUseOnly, 20usize),
        (HashAlgorithm::Sha256, 32),
        (HashAlgorithm::Sha384, 48),
        (HashAlgorithm::Sha512, 64),
        (HashAlgorithm::Sha512_256, 32),
    ];
    for (alg, len) in cases.iter() {
        let t = MerkleTree::from_vec(*alg, values(&["a", "b", "c"]));
        assert_eq!(t.root_hash().len(), *len);
        assert_eq!(t.algorithm(), *alg);
        let p = t.gen_proof(b"c".to_vec()).unwrap();
        assert!(p.validate(t.root_hash()));
    }
    let sha512 = ring::digest::digest(&ring::digest::SHA512, &[0u8, b'x']);
    assert_eq!(hash_leaf(HashAlgorithm::Sha512, b"x"), sha512.as_ref().to_vec());
}

#[test]
fn values_come_back_in_order_without_padding() {
    let t = tree_of(&["a", "b", "c"]);
    assert_eq!(t.values(), values(&["a", "b", "c"]));
    let five = tree_of(&["e", "d", "c", "b", "a"]);
    assert_eq!(five.values(), values(&["e", "d", "c", "b", "a"]));
    assert!(tree_of(&[]).values().is_empty());
}

#[test]
fn tree_leaves_include_odd_level_copies() {
    let t = Tree::new_node(
        HashAlgorithm::Sha256,
        Tree::new_leaf(HashAlgorithm::Sha256, b"c".to_vec()),
        Tree::new_leaf(HashAlgorithm::Sha256, b"c".to_vec()),
    );
    let mut out = vec![b"z".to_vec()];
    t.push_leaves(&mut out);
    assert_eq!(out, values(&["z", "c", "c"]));
    let copy = t.duplicate();
    assert_eq!(copy.hash(), t.hash());
    assert_eq!(t.hash(), &h_node(&h_leaf(b"c"), &h_leaf(b"c")));
}
