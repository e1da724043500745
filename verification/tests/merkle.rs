use attesta::merkle::{MerkleTree, Node, Sha256Hasher, TreeHasher, TREE_DEPTH};

fn leaf(n: u8) -> Node {
    let mut l = [0u8; 32];
    l[0] = n;
    l
}

/// Reference root: naive full rebuild, level by level.
fn naive_root(leaves: &[Node]) -> Node {
    let hasher = Sha256Hasher;
    let mut zeros = vec![hasher.empty_leaf()];
    for d in 0..TREE_DEPTH {
        let z = zeros[d];
        zeros.push(hasher.hash_pair(&z, &z));
    }
    let mut level = leaves.to_vec();
    for depth in 0..TREE_DEPTH {
        if level.is_empty() {
            return zeros[TREE_DEPTH];
        }
        let mut next = Vec::with_capacity(level.len().div_ceil(2));
        for pair in level.chunks(2) {
            let left = pair[0];
            let right = if pair.len() == 2 { pair[1] } else { zeros[depth] };
            next.push(hasher.hash_pair(&left, &right));
        }
        level = next;
    }
    level[0]
}

#[test]
fn empty_tree_has_stable_root() {
    let t = MerkleTree::new(Sha256Hasher);
    assert_eq!(t.root(), t.empty_root(TREE_DEPTH));
}

#[test]
fn incremental_root_matches_naive_rebuild() {
    let mut t = MerkleTree::new(Sha256Hasher);
    let mut leaves = Vec::new();
    for n in 1..=9u8 {
        leaves.push(leaf(n));
        t.append(leaf(n));
        assert_eq!(t.root(), naive_root(&leaves), "diverged at {n} leaves");
    }
}

#[test]
fn paths_verify_against_root() {
    let mut t = MerkleTree::new(Sha256Hasher);
    for n in 1..=5u8 {
        t.append(leaf(n));
    }
    let root = t.root();
    for i in 0..5 {
        let path = t.path(i).expect("path exists");
        assert_eq!(path.len(), TREE_DEPTH);
        assert!(t.verify_path(leaf(i as u8 + 1), &path, root), "leaf {i} failed");
    }
}

#[test]
fn old_paths_still_verify_after_later_appends() {
    let mut t = MerkleTree::new(Sha256Hasher);
    for n in 1..=3u8 {
        t.append(leaf(n));
    }
    t.append(leaf(4));
    let root = t.root();
    // Paths must be re-fetched against the new root and still verify.
    for i in 0..4 {
        let path = t.path(i).expect("path exists");
        assert!(t.verify_path(leaf(i as u8 + 1), &path, root));
    }
}

#[test]
fn path_for_missing_leaf_is_none() {
    let t = MerkleTree::new(Sha256Hasher);
    assert!(t.path(0).is_none());
}

#[test]
fn appending_changes_root() {
    let mut t = MerkleTree::new(Sha256Hasher);
    t.append(leaf(1));
    let r1 = t.root();
    t.append(leaf(2));
    assert_ne!(r1, t.root());
}

#[test]
fn from_leaves_matches_appends() {
    let leaves: Vec<Node> = (1..=6u8).map(leaf).collect();
    let t1 = MerkleTree::from_leaves(Sha256Hasher, leaves.clone());
    let mut t2 = MerkleTree::new(Sha256Hasher);
    for l in leaves {
        t2.append(l);
    }
    assert_eq!(t1.root(), t2.root());
    assert_eq!(t1.len(), t2.len());
}

#[test]
fn append_returns_consecutive_indexes() {
    let mut t = MerkleTree::new(Sha256Hasher);
    assert!(t.is_empty());
    assert_eq!(t.append(leaf(7)), 0);
    assert_eq!(t.append(leaf(8)), 1);
    assert_eq!(t.len(), 2);
    assert!(!t.is_empty());
    assert_eq!(t.leaf(1), leaf(8));
}

#[test]
fn verify_path_rejects_wrong_leaf_and_wrong_root() {
    let mut t = MerkleTree::new(Sha256Hasher);
    for n in 1..=3u8 {
        t.append(leaf(n));
    }
    let root = t.root();
    let path = t.path(1).unwrap();
    assert!(!t.verify_path(leaf(9), &path, root));
    assert!(!t.verify_path(leaf(2), &path, leaf(0)));
    // A path for a leaf elsewhere does not verify this leaf either.
    let other = t.path(0).unwrap();
    assert!(!t.verify_path(leaf(2), &other, root));
}

#[test]
fn path_siblings_are_positioned() {
    let mut t = MerkleTree::new(Sha256Hasher);
    for n in 1..=3u8 {
        t.append(leaf(n));
    }
    let path = t.path(2).unwrap();
    // Leaf 2 is a left child whose right sibling is the empty leaf.
    assert!(path[0].sibling_on_right);
    assert_eq!(path[0].sibling, Sha256Hasher.empty_leaf());
    // Its parent is a right child of the node over leaves 0 and 1.
    assert!(!path[1].sibling_on_right);
    let h = Sha256Hasher;
    assert_eq!(path[1].sibling, h.hash_pair(&leaf(1), &leaf(2)));
}

#[test]
fn empty_root_levels_chain() {
    let t = MerkleTree::new(Sha256Hasher);
    let h = Sha256Hasher;
    assert_eq!(t.empty_root(0), [0u8; 32]);
    let z0 = t.empty_root(0);
    assert_eq!(t.empty_root(1), h.hash_pair(&z0, &z0));
}

#[test]
fn sha256_pair_hash_known_value() {
    // SHA-256 of 64 zero bytes.
    let h = Sha256Hasher.hash_pair(&[0u8; 32], &[0u8; 32]);
    assert_eq!(
        attesta::tree_service::hex0x(&h),
        "0xf5a5fd42d16a20302798ef6ed309979b43003d2320d9f0e8ea9831a92759fb4b"
    );
}
