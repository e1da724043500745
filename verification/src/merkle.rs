//! Incremental append-only Merkle tree over note commitments.
//!
//! The hash function is pluggable through [`TreeHasher`]; the shipped
//! [`Sha256Hasher`] is a placeholder for the circuit's Poseidon hash.
//!
//! The tree caches every internal level, so `append` costs O(depth),
//! `root` is O(1), and `path` is O(depth). Its meaning is given by
//! [`node_at`], the naive full-tree definition: the node at depth `d`,
//! position `i` is the leaf itself at depth 0 (or the empty leaf past the
//! end), and the hash of its two children above. Every cached node, the
//! root, and every served path are proved equal to that definition.

use vstd::prelude::*;
use crate::codec::{sha256, sha256_of};

verus! {

broadcast use vstd::array::group_array_axioms;

/// Depth of the commitment tree.
pub const TREE_DEPTH: usize = 32;

/// A tree node: a 32-byte hash (or leaf commitment).
pub type Node = [u8; 32];

/// The hash that combines two child nodes, and the value of an empty leaf.
pub trait TreeHasher: Sized + Send + Sync {
    /// The parent of `left` and `right` under this hasher.
    spec fn spec_hash_pair(&self, left: Seq<u8>, right: Seq<u8>) -> Seq<u8>;

    /// The value standing for an absent leaf.
    spec fn spec_empty_leaf(&self) -> Seq<u8>;

    fn hash_pair(&self, left: &Node, right: &Node) -> (parent: Node)
        ensures
            parent@ == self.spec_hash_pair(left@, right@),
    ;

    /// Deterministic value for an empty subtree leaf.
    fn empty_leaf(&self) -> (leaf: Node)
        ensures
            leaf@ == self.spec_empty_leaf(),
    ;
}

/// Placeholder hasher: SHA-256 over the concatenated children.
#[derive(Debug, Default, Clone, Copy)]
pub struct Sha256Hasher;

impl TreeHasher for Sha256Hasher {
    open spec fn spec_hash_pair(&self, left: Seq<u8>, right: Seq<u8>) -> Seq<u8> {
        sha256_of(left + right)
    }

    open spec fn spec_empty_leaf(&self) -> Seq<u8> {
        Seq::new(32, |i: int| 0u8)
    }

    fn hash_pair(&self, left: &Node, right: &Node) -> (parent: Node) {
        let mut data: Vec<u8> = Vec::with_capacity(64);
        for i in 0..32
            invariant
                data@ == left@.take(i as int),
        {
            data.push(left[i]);
            assert(data@ == left@.take(i + 1));
        }
        for i in 0..32
            invariant
                data@ == left@ + right@.take(i as int),
        {
            data.push(right[i]);
            assert(data@ == left@ + right@.take(i + 1));
        }
        assert(right@.take(32) == right@);
        sha256(data.as_slice())
    }

    fn empty_leaf(&self) -> (leaf: Node) {
        let mut leaf = [0u8; 32];
        for i in 0..32
            invariant
                forall|k: int| 0 <= k < i ==> leaf@[k] == 0u8,
        {
            leaf[i] = 0;
        }
        assert(leaf@ =~= Seq::new(32, |i: int| 0u8));
        leaf
    }
}

/// A sibling on the path from a leaf to the root.
#[derive(Debug, Clone, PartialEq, Eq)]
pub struct PathElement {
    pub sibling: Node,
    /// True if the sibling is on the right (i.e. our node is a left child).
    pub sibling_on_right: bool,
}

// ---------------------------------------------------------------------------
// The mathematical tree
// ---------------------------------------------------------------------------

/// Root of an empty subtree of depth `d`.
pub open spec fn zero_node<H: TreeHasher>(h: H, d: nat) -> Seq<u8>
    decreases d,
{
    if d == 0 {
        h.spec_empty_leaf()
    } else {
        let z = zero_node(h, (d - 1) as nat);
        h.spec_hash_pair(z, z)
    }
}

/// The node at depth `d`, position `i` of the full tree over `leaves`
/// (depth 0 = leaves; positions past the last leaf hold empty leaves).
pub open spec fn node_at<H: TreeHasher>(h: H, leaves: Seq<Seq<u8>>, d: nat, i: nat) -> Seq<u8>
    decreases d,
{
    if d == 0 {
        if i < leaves.len() {
            leaves[i as int]
        } else {
            h.spec_empty_leaf()
        }
    } else {
        h.spec_hash_pair(
            node_at(h, leaves, (d - 1) as nat, 2 * i),
            node_at(h, leaves, (d - 1) as nat, 2 * i + 1),
        )
    }
}

/// Root of the depth-32 tree over `leaves`.
pub open spec fn root_of<H: TreeHasher>(h: H, leaves: Seq<Seq<u8>>) -> Seq<u8> {
    node_at(h, leaves, TREE_DEPTH as nat, 0)
}

/// Number of leaves a tree of depth `d` holds.
pub open spec fn capacity(d: nat) -> nat
    decreases d,
{
    if d == 0 {
        1
    } else {
        2 * capacity((d - 1) as nat)
    }
}

/// Leaves a depth-32 tree holds (2^32).
pub open spec fn tree_capacity() -> nat {
    capacity(TREE_DEPTH as nat)
}

/// Number of populated nodes at depth `d` when the tree holds `n` leaves.
pub open spec fn level_len(n: nat, d: nat) -> nat
    decreases d,
{
    if d == 0 {
        n
    } else {
        ((level_len(n, (d - 1) as nat) + 1) / 2) as nat
    }
}

/// Position at depth `d` of the ancestor of leaf `i`.
pub open spec fn ancestor(i: nat, d: nat) -> nat
    decreases d,
{
    if d == 0 {
        i
    } else {
        ancestor(i, (d - 1) as nat) / 2
    }
}

/// Position of the other child of the same parent.
pub open spec fn sibling_index(i: nat) -> nat {
    if i % 2 == 0 {
        i + 1
    } else {
        (i - 1) as nat
    }
}

/// `path` is the Merkle path the tree over `leaves` serves for leaf `index`:
/// at every depth, the sibling of the leaf's ancestor and which side it is on.
pub open spec fn is_path_of<H: TreeHasher>(
    h: H,
    leaves: Seq<Seq<u8>>,
    index: nat,
    path: Seq<PathElement>,
) -> bool {
    &&& path.len() == TREE_DEPTH
    &&& forall|d: int|
        0 <= d < TREE_DEPTH ==> {
            &&& (#[trigger] path[d]).sibling@ == node_at(
                h,
                leaves,
                d as nat,
                sibling_index(ancestor(index, d as nat)),
            )
            &&& path[d].sibling_on_right == (ancestor(index, d as nat) % 2 == 0)
        }
}

/// The node obtained by hashing `leaf` up along `path`.
pub open spec fn fold_path<H: TreeHasher>(h: H, leaf: Seq<u8>, path: Seq<PathElement>) -> Seq<u8>
    decreases path.len(),
{
    if path.len() == 0 {
        leaf
    } else {
        let below = fold_path(h, leaf, path.drop_last());
        let el = path.last();
        if el.sibling_on_right {
            h.spec_hash_pair(below, el.sibling@)
        } else {
            h.spec_hash_pair(el.sibling@, below)
        }
    }
}

// ---------------------------------------------------------------------------
// Lemmas about the mathematical tree
// ---------------------------------------------------------------------------

/// Past the populated region, every node is the root of an empty subtree.
pub proof fn lemma_empty_region<H: TreeHasher>(h: H, leaves: Seq<Seq<u8>>, d: nat, i: nat)
    requires
        i >= level_len(leaves.len(), d),
    ensures
        node_at(h, leaves, d, i) == zero_node(h, d),
    decreases d,
{
    if d > 0 {
        lemma_empty_region(h, leaves, (d - 1) as nat, 2 * i);
        lemma_empty_region(h, leaves, (d - 1) as nat, 2 * i + 1);
    }
}

/// Appending a leaf changes only the nodes on the new leaf's own path.
pub proof fn lemma_append_frame<H: TreeHasher>(
    h: H,
    leaves: Seq<Seq<u8>>,
    leaf: Seq<u8>,
    d: nat,
    i: nat,
)
    requires
        i != ancestor(leaves.len(), d),
    ensures
        node_at(h, leaves.push(leaf), d, i) == node_at(h, leaves, d, i),
    decreases d,
{
    if d > 0 {
        let a = ancestor(leaves.len(), (d - 1) as nat);
        assert(2 * i != a && 2 * i + 1 != a);
        lemma_append_frame(h, leaves, leaf, (d - 1) as nat, 2 * i);
        lemma_append_frame(h, leaves, leaf, (d - 1) as nat, 2 * i + 1);
    }
}

/// How level sizes grow as leaves are added.
pub proof fn lemma_level_len(n: nat, d: nat)
    ensures
        level_len(n + 1, d) == ancestor(n, d) + 1,
        level_len(0, d) == 0,
        ancestor(n + 1, d) == ancestor(n, d) || ancestor(n + 1, d) == ancestor(n, d) + 1,
        level_len(n, d) == ancestor(n, d) || level_len(n, d) == ancestor(n, d) + 1,
    decreases d, n,
{
    if d > 0 {
        lemma_level_len(n, (d - 1) as nat);
        if n > 0 {
            lemma_level_len((n - 1) as nat, (d - 1) as nat);
            lemma_level_len((n - 1) as nat, d);
        }
    }
}

/// Ancestors of existing leaves lie inside the populated region.
pub proof fn lemma_ancestor_in_range(i: nat, n: nat, d: nat)
    requires
        i < n,
    ensures
        ancestor(i, d) < level_len(n, d),
    decreases d,
{
    if d > 0 {
        lemma_ancestor_in_range(i, n, (d - 1) as nat);
    }
}

/// A tree at capacity has at most `c` nodes at depth `d` when
/// `n <= c * 2^d`.
pub proof fn lemma_level_len_bound(n: nat, d: nat, c: nat)
    requires
        n <= c * capacity(d),
    ensures
        level_len(n, d) <= c,
    decreases d,
{
    if d == 0 {
        assert(c * capacity(d) == c) by (nonlinear_arith)
            requires
                capacity(d) == 1,
        ;
    } else {
        assert(c * capacity(d) == (2 * c) * capacity((d - 1) as nat)) by (nonlinear_arith)
            requires
                capacity(d) == 2 * capacity((d - 1) as nat),
        ;
        lemma_level_len_bound(n, (d - 1) as nat, 2 * c);
    }
}

/// The value of the tree's capacity.
pub proof fn lemma_tree_capacity()
    ensures
        tree_capacity() == 0x1_0000_0000,
{
    reveal_with_fuel(capacity, 33);
}

/// A tree within capacity has at most one node at the top.
pub proof fn lemma_top_level(n: nat)
    requires
        n <= tree_capacity(),
    ensures
        level_len(n, TREE_DEPTH as nat) <= 1,
        n > 0 ==> level_len(n, TREE_DEPTH as nat) == 1,
{
    lemma_level_len_bound(n, TREE_DEPTH as nat, 1);
    if n > 0 {
        lemma_ancestor_in_range(0, n, TREE_DEPTH as nat);
    }
}

/// Hashing a leaf up along the first `k` elements of its path gives its
/// ancestor at depth `k`.
pub proof fn lemma_fold_prefix<H: TreeHasher>(
    h: H,
    leaves: Seq<Seq<u8>>,
    index: nat,
    path: Seq<PathElement>,
    k: nat,
)
    requires
        index < leaves.len(),
        is_path_of(h, leaves, index, path),
        k <= TREE_DEPTH,
    ensures
        fold_path(h, leaves[index as int], path.take(k as int)) == node_at(
            h,
            leaves,
            k,
            ancestor(index, k),
        ),
    decreases k,
{
    if k > 0 {
        let km = (k - 1) as nat;
        lemma_fold_prefix(h, leaves, index, path, km);
        assert(path.take(k as int).drop_last() == path.take(km as int));
        let a = ancestor(index, km);
        let el = path[km as int];
        assert(path.take(k as int).last() == el);
        if a % 2 == 0 {
            assert(2 * (a / 2) == a);
        } else {
            assert(2 * (a / 2) == a - 1);
        }
    }
}

// ---------------------------------------------------------------------------
// Laws
// ---------------------------------------------------------------------------

/// Every served path verifies: hashing leaf `index` up along the path the
/// tree serves for it yields the tree's root, for every leaf of a tree
/// within capacity.
pub proof fn law_served_paths_verify<H: TreeHasher>(
    h: H,
    leaves: Seq<Seq<u8>>,
    index: nat,
    path: Seq<PathElement>,
)
    requires
        index < leaves.len(),
        leaves.len() <= tree_capacity(),
        is_path_of(h, leaves, index, path),
    ensures
        fold_path(h, leaves[index as int], path) == root_of(h, leaves),
{
    lemma_fold_prefix(h, leaves, index, path, TREE_DEPTH as nat);
    assert(path.take(TREE_DEPTH as int) == path);
    lemma_ancestor_in_range(index, leaves.len(), TREE_DEPTH as nat);
    lemma_top_level(leaves.len());
}

/// The root of an empty tree is the root of an empty subtree of full depth.
pub proof fn law_empty_root<H: TreeHasher>(h: H)
    ensures
        root_of(h, Seq::<Seq<u8>>::empty()) == zero_node(h, TREE_DEPTH as nat),
{
    lemma_level_len(0, TREE_DEPTH as nat);
    lemma_empty_region(h, Seq::<Seq<u8>>::empty(), TREE_DEPTH as nat, 0);
}

/// The shipped hasher: the parent of two nodes is the SHA-256 digest of the
/// left node's bytes followed by the right node's, and an empty leaf is 32
/// zero bytes.
pub proof fn law_sha256_hasher(left: Seq<u8>, right: Seq<u8>)
    ensures
        Sha256Hasher.spec_hash_pair(left, right) == sha256_of(left + right),
        Sha256Hasher.spec_empty_leaf().len() == 32,
        forall|i: int| 0 <= i < 32 ==> Sha256Hasher.spec_empty_leaf()[i] == 0u8,
{
}

/// In a tree over the shipped hasher, every internal node is the SHA-256
/// digest of its left child followed by its right child; in particular the
/// parent of the first two leaves is the digest of their concatenation.
pub proof fn law_sha256_tree_nodes(leaves: Seq<Seq<u8>>, d: nat, i: nat)
    requires
        d > 0,
    ensures
        node_at(Sha256Hasher, leaves, d, i) == sha256_of(
            node_at(Sha256Hasher, leaves, (d - 1) as nat, 2 * i) + node_at(
                Sha256Hasher,
                leaves,
                (d - 1) as nat,
                2 * i + 1,
            ),
        ),
        leaves.len() >= 2 ==> node_at(Sha256Hasher, leaves, 1, 0) == sha256_of(leaves[0] + leaves[1]),
{
    law_sha256_hasher(
        node_at(Sha256Hasher, leaves, (d - 1) as nat, 2 * i),
        node_at(Sha256Hasher, leaves, (d - 1) as nat, 2 * i + 1),
    );
    if leaves.len() >= 2 {
        assert(node_at(Sha256Hasher, leaves, 0, 0) == leaves[0]);
        assert(node_at(Sha256Hasher, leaves, 0, 1) == leaves[1]);
        law_sha256_hasher(leaves[0], leaves[1]);
    }
}

/// Two hashers that compute the same pair hash and empty leaf agree on
/// every node of the tree.
pub proof fn lemma_same_hash_same_nodes<H: TreeHasher>(h1: H, h2: H, leaves: Seq<Seq<u8>>, d: nat, i: nat)
    requires
        forall|l: Seq<u8>, r: Seq<u8>| #[trigger] h1.spec_hash_pair(l, r) == h2.spec_hash_pair(l, r),
        h1.spec_empty_leaf() == h2.spec_empty_leaf(),
    ensures
        node_at(h1, leaves, d, i) == node_at(h2, leaves, d, i),
    decreases d,
{
    if d > 0 {
        lemma_same_hash_same_nodes(h1, h2, leaves, (d - 1) as nat, 2 * i);
        lemma_same_hash_same_nodes(h1, h2, leaves, (d - 1) as nat, 2 * i + 1);
    }
}

/// Trees built with two hashers that compute the same functions have the
/// same root, the same empty-subtree roots, and serve the same paths.
pub proof fn law_same_hash_same_tree<H: TreeHasher>(h1: H, h2: H, leaves: Seq<Seq<u8>>)
    requires
        forall|l: Seq<u8>, r: Seq<u8>| #[trigger] h1.spec_hash_pair(l, r) == h2.spec_hash_pair(l, r),
        h1.spec_empty_leaf() == h2.spec_empty_leaf(),
    ensures
        root_of(h1, leaves) == root_of(h2, leaves),
        forall|d: nat| #[trigger] zero_node(h1, d) == zero_node(h2, d),
        forall|index: nat, path: Seq<PathElement>|
            #[trigger] is_path_of(h1, leaves, index, path) <==> is_path_of(h2, leaves, index, path),
{
    lemma_same_hash_same_nodes(h1, h2, leaves, TREE_DEPTH as nat, 0);
    assert forall|d: nat| #[trigger] zero_node(h1, d) == zero_node(h2, d) by {
        lemma_same_zero_nodes(h1, h2, d);
    }
    assert forall|index: nat, path: Seq<PathElement>|
        #[trigger] is_path_of(h1, leaves, index, path) <==> is_path_of(h2, leaves, index, path) by {
        assert forall|d: int| 0 <= d < TREE_DEPTH implies #[trigger] node_at(
            h1,
            leaves,
            d as nat,
            sibling_index(ancestor(index, d as nat)),
        ) == node_at(h2, leaves, d as nat, sibling_index(ancestor(index, d as nat))) by {
            lemma_same_hash_same_nodes(
                h1,
                h2,
                leaves,
                d as nat,
                sibling_index(ancestor(index, d as nat)),
            );
        }
    }
}

proof fn lemma_same_zero_nodes<H: TreeHasher>(h1: H, h2: H, d: nat)
    requires
        forall|l: Seq<u8>, r: Seq<u8>| #[trigger] h1.spec_hash_pair(l, r) == h2.spec_hash_pair(l, r),
        h1.spec_empty_leaf() == h2.spec_empty_leaf(),
    ensures
        zero_node(h1, d) == zero_node(h2, d),
    decreases d,
{
    if d > 0 {
        lemma_same_zero_nodes(h1, h2, (d - 1) as nat);
    }
}

/// The number of leaves after `k` appends: one more per append.
pub proof fn law_appended_len(start: Seq<Seq<u8>>, leaves: Seq<Node>)
    ensures
        appended(start, leaves).len() == start.len() + leaves.len(),
    decreases leaves.len(),
{
    if leaves.len() > 0 {
        law_appended_len(start, leaves.drop_last());
    }
}

/// The leaves after appending `leaves`, one at a time, to `start`.
pub open spec fn appended(start: Seq<Seq<u8>>, leaves: Seq<Node>) -> Seq<Seq<u8>>
    decreases leaves.len(),
{
    if leaves.len() == 0 {
        start
    } else {
        appended(start, leaves.drop_last()).push(leaves.last()@)
    }
}

/// Building a tree from a list of leaves gives the same leaves (hence the
/// same root) as appending them one by one to an empty tree.
pub proof fn law_from_leaves_matches_appends(leaves: Seq<Node>)
    ensures
        appended(Seq::empty(), leaves) == node_views(leaves),
    decreases leaves.len(),
{
    if leaves.len() > 0 {
        law_from_leaves_matches_appends(leaves.drop_last());
        assert(node_views(leaves) =~= node_views(leaves.drop_last()).push(leaves.last()@));
    }
}

// ---------------------------------------------------------------------------
// The incremental tree
// ---------------------------------------------------------------------------

/// Incremental Merkle tree with cached levels.
///
/// `levels[0]` holds the leaves; `levels[d]` holds the populated nodes at
/// depth `d`. Nodes to the right of the populated region are roots of empty
/// subtrees (`zeros[d]`) and are never materialized.
pub struct MerkleTree<H: TreeHasher = Sha256Hasher> {
    hasher: H,
    levels: Vec<Vec<Node>>,
    /// zeros[d] = root of an empty subtree of depth d.
    zeros: Vec<Node>,
}

pub open spec fn node_views(nodes: Seq<Node>) -> Seq<Seq<u8>> {
    nodes.map_values(|n: Node| n@)
}

impl<H: TreeHasher> View for MerkleTree<H> {
    type V = Seq<Seq<u8>>;

    /// The leaves, in order of appending.
    closed spec fn view(&self) -> Seq<Seq<u8>> {
        node_views(self.levels@[0]@)
    }
}

impl<H: TreeHasher> MerkleTree<H> {
    /// The hasher the tree was built with.
    pub closed spec fn hasher(&self) -> H {
        self.hasher
    }

    /// Every cached node equals the node of the full tree at its place.
    pub closed spec fn well_formed(&self) -> bool {
        let n = self.levels@[0]@.len();
        &&& self.levels@.len() == TREE_DEPTH + 1
        &&& self.zeros@.len() == TREE_DEPTH + 1
        &&& n <= tree_capacity()
        &&& forall|d: int|
            0 <= d <= TREE_DEPTH ==> #[trigger] self.zeros@[d]@ == zero_node(self.hasher, d as nat)
        &&& forall|d: int|
            0 <= d <= TREE_DEPTH ==> #[trigger] self.levels@[d]@.len() == level_len(n, d as nat)
        &&& forall|d: int, j: int|
            0 <= d <= TREE_DEPTH && 0 <= j < self.levels@[d]@.len() ==> #[trigger] self.levels@[d]@[j]@
                == node_at(self.hasher, self@, d as nat, j as nat)
    }

    pub fn new(hasher: H) -> (tree: Self)
        ensures
            tree.well_formed(),
            tree@ == Seq::<Seq<u8>>::empty(),
            tree.hasher() == hasher,
    {
        let mut zeros: Vec<Node> = Vec::with_capacity(TREE_DEPTH + 1);
        zeros.push(hasher.empty_leaf());
        for d in 0..TREE_DEPTH
            invariant
                zeros@.len() == d + 1,
                forall|k: int| 0 <= k <= d ==> #[trigger] zeros@[k]@ == zero_node(hasher, k as nat),
        {
            let z = zeros[d];
            zeros.push(hasher.hash_pair(&z, &z));
        }
        let mut levels: Vec<Vec<Node>> = Vec::new();
        for d in 0..TREE_DEPTH + 1
            invariant
                levels@.len() == d,
                forall|k: int| 0 <= k < d ==> (#[trigger] levels@[k])@.len() == 0,
        {
            levels.push(Vec::new());
        }
        let tree = MerkleTree { hasher, levels, zeros };
        proof {
            assert(tree@ == Seq::<Seq<u8>>::empty());
            assert forall|d: int| 0 <= d <= TREE_DEPTH implies #[trigger] tree.levels@[d]@.len()
                == level_len(0, d as nat) by {
                lemma_level_len(0, d as nat);
            }
        }
        tree
    }

    pub fn from_leaves(hasher: H, leaves: Vec<Node>) -> (tree: Self)
        requires
            leaves@.len() <= tree_capacity(),
        ensures
            tree.well_formed(),
            tree@ == node_views(leaves@),
            tree.hasher() == hasher,
    {
        let mut tree = Self::new(hasher);
        for i in 0..leaves.len()
            invariant
                tree.well_formed(),
                tree.hasher() == hasher,
                tree@ == node_views(leaves@.take(i as int)),
                leaves@.len() <= tree_capacity(),
        {
            tree.append(leaves[i]);
            assert(leaves@.take(i + 1) == leaves@.take(i as int).push(leaves@[i as int]));
        }
        assert(leaves@.take(leaves@.len() as int) == leaves@);
        tree
    }

    /// Append a leaf and update the cached ancestors up to the root.
    /// Returns the new leaf's index.
    pub fn append(&mut self, leaf: Node) -> (index: usize)
        requires
            old(self).well_formed(),
            old(self)@.len() < tree_capacity(),
        ensures
            final(self).well_formed(),
            final(self)@ == old(self)@.push(leaf@),
            final(self).hasher() == old(self).hasher(),
            index == old(self)@.len(),
    {
        let ghost old_leaves = self@;
        let ghost h = self.hasher;
        let index = self.levels[0].len();
        self.levels[0].push(leaf);
        let ghost new_leaves = old_leaves.push(leaf@);
        proof {
            assert(self@ == new_leaves);
            lemma_level_len(index as nat, 0);
        }
        let mut idx = index;
        for depth in 0..TREE_DEPTH
            invariant
                self.hasher == h,
                self.levels@.len() == TREE_DEPTH + 1,
                self.zeros == old(self).zeros,
                self.zeros@.len() == TREE_DEPTH + 1,
                self@ == new_leaves,
                old_leaves.len() == index,
                new_leaves == old_leaves.push(leaf@),
                index < tree_capacity(),
                forall|d: int|
                    0 <= d <= TREE_DEPTH ==> #[trigger] self.zeros@[d]@ == zero_node(h, d as nat),
                idx == ancestor(index as nat, depth as nat),
                forall|d: int|
                    0 <= d <= depth ==> #[trigger] self.levels@[d]@.len() == level_len(
                        (index + 1) as nat,
                        d as nat,
                    ),
                forall|d: int|
                    depth < d <= TREE_DEPTH ==> #[trigger] self.levels@[d]@.len() == level_len(
                        index as nat,
                        d as nat,
                    ),
                forall|d: int, j: int|
                    0 <= d <= depth && 0 <= j < self.levels@[d]@.len() ==> #[trigger] self.levels@[d]@[j]@
                        == node_at(h, new_leaves, d as nat, j as nat),
                forall|d: int, j: int|
                    depth < d <= TREE_DEPTH && 0 <= j < self.levels@[d]@.len()
                        ==> #[trigger] self.levels@[d]@[j]@ == node_at(
                        h,
                        old_leaves,
                        d as nat,
                        j as nat,
                    ),
        {
            proof {
                lemma_level_len(index as nat, depth as nat);
                lemma_level_len(index as nat, (depth + 1) as nat);
            }
            let parent_idx = idx / 2;
            let left_idx = 2 * parent_idx;
            let right_idx = left_idx + 1;
            let left = self.levels[depth][left_idx];
            let right = if right_idx < self.levels[depth].len() {
                self.levels[depth][right_idx]
            } else {
                proof {
                    lemma_empty_region(h, new_leaves, depth as nat, right_idx as nat);
                }
                self.zeros[depth]
            };
            let parent = self.hasher.hash_pair(&left, &right);
            assert(parent@ == node_at(h, new_leaves, (depth + 1) as nat, parent_idx as nat));
            let ghost before = self.levels@;
            if parent_idx == self.levels[depth + 1].len() {
                self.levels[depth + 1].push(parent);
            } else {
                self.levels[depth + 1][parent_idx] = parent;
            }
            proof {
                assert forall|j: int|
                    0 <= j < self.levels@[depth + 1]@.len() implies #[trigger] self.levels@[depth
                    + 1]@[j]@ == node_at(h, new_leaves, (depth + 1) as nat, j as nat) by {
                    if j != parent_idx {
                        lemma_append_frame(h, old_leaves, leaf@, (depth + 1) as nat, j as nat);
                        assert(self.levels@[depth + 1]@[j] == before[depth + 1]@[j]);
                    }
                }
                assert forall|d: int| #![trigger self.levels@[d]]
                    0 <= d <= TREE_DEPTH && d != depth + 1 implies self.levels@[d] == before[d] by {}
            }
            idx = parent_idx;
        }
        index
    }

    pub fn len(&self) -> (n: usize)
        requires
            self.well_formed(),
        ensures
            n == self@.len(),
            n <= tree_capacity(),
    {
        self.levels[0].len()
    }

    pub fn is_empty(&self) -> (empty: bool)
        requires
            self.well_formed(),
        ensures
            empty == (self@.len() == 0),
    {
        self.levels[0].len() == 0
    }

    pub fn root(&self) -> (root: Node)
        requires
            self.well_formed(),
        ensures
            root@ == root_of(self.hasher(), self@),
    {
        proof {
            lemma_top_level(self@.len());
        }
        if self.levels[TREE_DEPTH].len() > 0 {
            self.levels[TREE_DEPTH][0]
        } else {
            proof {
                lemma_empty_region(self.hasher, self@, TREE_DEPTH as nat, 0);
            }
            self.zeros[TREE_DEPTH]
        }
    }

    /// A well-formed tree holds at most `tree_capacity()` leaves.
    pub proof fn lemma_within_capacity(&self)
        requires
            self.well_formed(),
        ensures
            self@.len() <= tree_capacity(),
    {
    }

    /// The leaf at `index`.
    pub fn leaf(&self, index: usize) -> (leaf: Node)
        requires
            self.well_formed(),
            index < self@.len(),
        ensures
            leaf@ == self@[index as int],
    {
        self.levels[0][index]
    }

    /// Root of an empty subtree of the given depth.
    pub fn empty_root(&self, depth: usize) -> (root: Node)
        requires
            self.well_formed(),
            depth <= TREE_DEPTH,
        ensures
            root@ == zero_node(self.hasher(), depth as nat),
    {
        self.zeros[depth]
    }

    /// Merkle path (bottom-up siblings) for the leaf at `index`.
    pub fn path(&self, index: usize) -> (path: Option<Vec<PathElement>>)
        requires
            self.well_formed(),
        ensures
            index >= self@.len() ==> path is None,
            index < self@.len() ==> (path matches Some(p) && is_path_of(
                self.hasher(),
                self@,
                index as nat,
                p@,
            )),
    {
        if index >= self.levels[0].len() {
            return None;
        }
        let ghost h = self.hasher;
        let ghost leaves = self@;
        let mut path: Vec<PathElement> = Vec::with_capacity(TREE_DEPTH);
        let mut idx = index;
        for depth in 0..TREE_DEPTH
            invariant
                self.well_formed(),
                h == self.hasher,
                leaves == self@,
                index < leaves.len(),
                idx == ancestor(index as nat, depth as nat),
                path@.len() == depth,
                forall|d: int|
                    0 <= d < depth ==> {
                        &&& (#[trigger] path@[d]).sibling@ == node_at(
                            h,
                            leaves,
                            d as nat,
                            sibling_index(ancestor(index as nat, d as nat)),
                        )
                        &&& path@[d].sibling_on_right == (ancestor(index as nat, d as nat) % 2 == 0)
                    },
        {
            let sib_idx = idx ^ 1;
            proof {
                assert(idx % 2 == 0 ==> idx ^ 1 == idx + 1) by (bit_vector);
                assert(idx % 2 == 1 ==> idx ^ 1 == idx - 1) by (bit_vector);
                assert(sib_idx == sibling_index(idx as nat));
            }
            let sibling = if sib_idx < self.levels[depth].len() {
                self.levels[depth][sib_idx]
            } else {
                proof {
                    lemma_empty_region(h, leaves, depth as nat, sib_idx as nat);
                }
                self.zeros[depth]
            };
            path.push(PathElement { sibling, sibling_on_right: idx % 2 == 0 });
            idx = idx / 2;
        }
        Some(path)
    }

    /// Recompute the root from a leaf and its path, and compare it with
    /// `root`.
    pub fn verify_path(&self, leaf: Node, path: &[PathElement], root: Node) -> (ok: bool)
        ensures
            ok == (fold_path(self.hasher(), leaf@, path@) == root@),
    {
        let mut node = leaf;
        for i in 0..path.len()
            invariant
                node@ == fold_path(self.hasher, leaf@, path@.take(i as int)),
        {
            let el = &path[i];
            assert(path@.take(i + 1).drop_last() == path@.take(i as int));
            node = if el.sibling_on_right {
                self.hasher.hash_pair(&node, &el.sibling)
            } else {
                self.hasher.hash_pair(&el.sibling, &node)
            };
        }
        assert(path@.take(path@.len() as int) == path@);
        nodes_equal(&node, &root)
    }
}

/// Byte-wise equality of two nodes.
pub fn nodes_equal(a: &Node, b: &Node) -> (eq: bool)
    ensures
        eq == (a@ == b@),
{
    for i in 0..32
        invariant
            forall|k: int| 0 <= k < i ==> a@[k] == b@[k],
    {
        if a[i] != b[i] {
            return false;
        }
    }
    assert(a@ =~= b@);
    true
}

} // verus!
