//! The per-pool tree the API serves: a cached incremental Merkle tree that
//! is topped up with newly indexed leaves, an index from commitment to leaf,
//! and the answers of the tree endpoints (paths, current and historical
//! roots).
//!
//! Leaves must arrive contiguously; a gap means the indexer is mid-backfill
//! (or missed events), and the tree stops before it rather than appending
//! leaves at wrong positions.

use vstd::prelude::*;
use std::collections::HashMap;
use crate::api_error::{concat_str, ApiError};
use crate::codec::{decode_hex0x, encode_hex0x, hex0x_encoding, hex_decoding, strip_0x};
use crate::merkle::{
    ancestor, is_path_of, lemma_tree_capacity, node_at, nodes_equal, root_of, sibling_index,
    tree_capacity, MerkleTree, Node, Sha256Hasher, TREE_DEPTH,
};

verus! {

broadcast use {vstd::std_specs::hash::group_hash_axioms, vstd::array::group_array_axioms};

/// Leaves a depth-32 tree holds.
pub const TREE_CAPACITY: u64 = 0x1_0000_0000;

/// Key under which a commitment is indexed: its first 16 bytes.
pub open spec fn key_of(bytes: Seq<u8>, k: nat) -> u128
    decreases k,
{
    if k == 0 {
        0
    } else {
        ((key_of(bytes, (k - 1) as nat) << 8u128) | (bytes[k - 1] as u128)) as u128
    }
}

pub open spec fn commitment_key(node: Seq<u8>) -> u128 {
    key_of(node, 16)
}

fn lookup_key(node: &Node) -> (k: u128)
    ensures
        k == commitment_key(node@),
{
    let mut acc: u128 = 0;
    for i in 0..16
        invariant
            acc == key_of(node@, i as nat),
    {
        acc = (acc << 8u128) | (node[i] as u128);
    }
    acc
}

/// The cached tree of one pool.
pub struct PoolTree {
    tree: MerkleTree<Sha256Hasher>,
    /// Leaf indexes by commitment key, in increasing order.
    index_by_commitment: HashMap<u128, Vec<usize>>,
    /// Ledger the newest indexed leaf was observed at.
    anchored_ledger: i64,
}

impl View for PoolTree {
    /// The leaves, in order.
    type V = Seq<Seq<u8>>;

    closed spec fn view(&self) -> Seq<Seq<u8>> {
        self.tree@
    }
}

/// A row that does not carry the next leaf index, or that arrives when the
/// tree is full: a gap, where a top-up stops.
pub open spec fn row_gap(n: int, row: (i64, Vec<u8>, i64)) -> bool {
    row.0 != n || n >= tree_capacity()
}

/// A row at the right index whose commitment is not 32 bytes.
pub open spec fn row_corrupt(n: int, row: (i64, Vec<u8>, i64)) -> bool {
    !row_gap(n, row) && row.1@.len() != 32
}

/// A row that becomes the next leaf.
pub open spec fn row_fits(n: int, row: (i64, Vec<u8>, i64)) -> bool {
    !row_gap(n, row) && row.1@.len() == 32
}

/// The anchor after accepting the first `k` rows.
pub open spec fn anchored_after(a: i64, rows: Seq<(i64, Vec<u8>, i64)>, k: nat) -> i64
    decreases k,
{
    if k == 0 {
        a
    } else {
        let m = anchored_after(a, rows, (k - 1) as nat);
        if rows[k - 1].2 > m {
            rows[k - 1].2
        } else {
            m
        }
    }
}

/// After a top-up, the anchor is the newest ledger seen: at least the
/// previous anchor and every appended row's ledger, and equal to one of
/// them.
pub proof fn law_anchor_is_newest(a: i64, rows: Seq<(i64, Vec<u8>, i64)>, k: nat)
    requires
        k <= rows.len(),
    ensures
        anchored_after(a, rows, k) >= a,
        forall|j: int| 0 <= j < k ==> anchored_after(a, rows, k) >= #[trigger] rows[j].2,
        anchored_after(a, rows, k) == a || exists|j: int| 0 <= j < k && anchored_after(a, rows, k) == #[trigger] rows[j].2,
    decreases k,
{
    if k > 0 {
        law_anchor_is_newest(a, rows, (k - 1) as nat);
        let m = anchored_after(a, rows, (k - 1) as nat);
        if !(rows[k - 1].2 > m) && m != a {
            let j = choose|j: int| 0 <= j < k - 1 && m == #[trigger] rows[j].2;
            assert(anchored_after(a, rows, k) == rows[j].2);
        }
    }
}

/// `json` is the served rendering of the path of leaf `index`.
pub open spec fn is_json_path_of(leaves: Seq<Seq<u8>>, index: nat, json: Seq<PathElementJson>) -> bool {
    &&& json.len() == TREE_DEPTH
    &&& forall|d: int|
        0 <= d < TREE_DEPTH ==> {
            &&& (#[trigger] json[d]).sibling@ == hex0x_encoding(
                node_at(Sha256Hasher, leaves, d as nat, sibling_index(ancestor(index, d as nat))),
            )
            &&& json[d].sibling_on_right == (ancestor(index, d as nat) % 2 == 0)
        }
}

/// A path element as served: `0x`-hex sibling.
pub struct PathElementJson {
    pub sibling: String,
    pub sibling_on_right: bool,
}

/// Answer of the path endpoint.
pub struct PathResponse {
    pub pool: String,
    pub leaf_index: i64,
    pub root: String,
    /// Tree size when this path was computed.
    pub leaf_count: i64,
    /// Ledger the newest indexed leaf was observed at.
    pub anchored_ledger: i64,
    pub path: Vec<PathElementJson>,
}

/// Answer of the root endpoint.
pub struct RootResponse {
    pub pool: String,
    pub root: String,
    pub leaf_count: i64,
    pub anchored_ledger: i64,
}

/// Query of the path endpoint.
pub struct PathQuery {
    /// 0x-hex commitment whose path is requested.
    pub commitment: String,
}

/// Query of the root endpoint.
pub struct RootQuery {
    /// Return the newest root anchored at or before this ledger.
    pub at_ledger: Option<i64>,
    /// Return the root the tree had at this leaf count (or the newest
    /// earlier one).
    pub at_leaf_count: Option<i64>,
}

/// Which root the root endpoint is asked for.
pub enum RootLookup {
    /// The current root.
    Current,
    /// The newest root anchored at or before this ledger.
    AtLedger(i64),
    /// The root the tree had at this leaf count (or the newest earlier one).
    AtLeafCount(i64),
}

/// The index holds every leaf under its key, and only valid leaves, in
/// increasing order.
pub open spec fn index_complete(index: Map<u128, Vec<usize>>, leaves: Seq<Seq<u8>>) -> bool {
    &&& forall|i: int|
        0 <= i < leaves.len() ==> #[trigger] index.contains_key(commitment_key(leaves[i]))
            && index[commitment_key(leaves[i])]@.contains(i as usize)
    &&& forall|p: u128|
        #[trigger] index.contains_key(p) ==> {
            &&& forall|k: int|
                0 <= k < index[p]@.len() ==> #[trigger] index[p]@[k] < leaves.len()
                    && commitment_key(leaves[index[p]@[k] as int]) == p
            &&& forall|a: int, b: int|
                0 <= a < b < index[p]@.len() ==> #[trigger] index[p]@[a] < #[trigger] index[p]@[b]
        }
}

/// Which leaf a commitment maps to: the last leaf holding it.
pub open spec fn last_leaf_of(leaves: Seq<Seq<u8>>, c: Seq<u8>, i: int) -> bool {
    &&& 0 <= i < leaves.len()
    &&& leaves[i] == c
    &&& forall|j: int| i < j < leaves.len() ==> leaves[j] != c
}

impl PoolTree {
    pub closed spec fn well_formed(&self) -> bool {
        &&& self.tree.well_formed()
        &&& index_complete(self.index_by_commitment@, self.tree@)
    }

    /// Ledger the newest indexed leaf was observed at.
    pub closed spec fn anchored(&self) -> i64 {
        self.anchored_ledger
    }

    pub fn new() -> (t: Self)
        ensures
            t.well_formed(),
            t@ == Seq::<Seq<u8>>::empty(),
            t.anchored() == 0,
    {
        PoolTree {
            tree: MerkleTree::new(Sha256Hasher),
            index_by_commitment: HashMap::new(),
            anchored_ledger: 0,
        }
    }

    pub fn len(&self) -> (n: usize)
        requires
            self.well_formed(),
        ensures
            n == self@.len(),
    {
        self.tree.len()
    }

    /// The last leaf holding `commitment`.
    pub fn lookup(&self, commitment: &Node) -> (r: Option<usize>)
        requires
            self.well_formed(),
        ensures
            match r {
                Some(i) => last_leaf_of(self@, commitment@, i as int),
                None => forall|j: int| 0 <= j < self@.len() ==> self@[j] != commitment@,
            },
    {
        let key = lookup_key(commitment);
        proof {
            self.tree.lemma_within_capacity();
            lemma_tree_capacity();
        }
        match self.index_by_commitment.get(&key) {
            None => {
                assert forall|j: int| 0 <= j < self@.len() implies self@[j] != commitment@ by {
                    if self@[j] == commitment@ {
                        assert(self.index_by_commitment@.contains_key(commitment_key(self@[j])));
                    }
                }
                None
            },
            Some(candidates) => {
                let ghost idx = self.index_by_commitment@;
                assert(idx.contains_key(key));
                let mut k = candidates.len();
                while k > 0
                    invariant
                        self@.len() <= tree_capacity(),
                        tree_capacity() == 0x1_0000_0000,
                        forall|m: int| 0 <= m < candidates@.len() ==> #[trigger] candidates@[m] < self@.len(),
                        self.well_formed(),
                        idx == self.index_by_commitment@,
                        idx.contains_key(key),
                        candidates@ == idx[key]@,
                        key == commitment_key(commitment@),
                        k <= candidates@.len(),
                        forall|m: int| k <= m < candidates@.len() ==> self@[#[trigger] candidates@[m] as int] != commitment@,
                    decreases k,
                {
                    k = k - 1;
                    let i = candidates[k];
                    assert(i < self@.len());
                    let leaf = self.tree.leaf(i);
                    if nodes_equal(&leaf, commitment) {
                        assert forall|j: int| i < j < self@.len() implies self@[j] != commitment@ by {
                            if self@[j] == commitment@ {
                                assert(idx.contains_key(commitment_key(self@[j])));
                                assert(idx[key]@.contains(j as usize));
                                let m = choose|m: int| 0 <= m < idx[key]@.len() && idx[key]@[m] == j as usize;
                                assert(candidates@[m] == j as usize);
                                assert(candidates@[k as int] == i);
                                if m <= k {
                                    if m < k {
                                        assert(idx[key]@[m] < idx[key]@[k as int]);
                                    }
                                }
                            }
                        }
                        return Some(i);
                    }
                }
                assert forall|j: int| 0 <= j < self@.len() implies self@[j] != commitment@ by {
                    if self@[j] == commitment@ {
                        assert(index_complete(idx, self@));
                        assert(idx.contains_key(commitment_key(self@[j])));
                        assert(commitment_key(self@[j]) == key);
                        assert(idx[key]@.contains(j as usize));
                        let m = choose|m: int| 0 <= m < idx[key]@.len() && idx[key]@[m] == j as usize;
                        assert(candidates@[m] == j as usize);
                        assert(self@[candidates@[m] as int] != commitment@);
                    }
                }
                None
            },
        }
    }

    fn append_leaf(&mut self, node: Node) -> (index: usize)
        requires
            old(self).well_formed(),
            old(self)@.len() < tree_capacity(),
        ensures
            final(self).well_formed(),
            final(self)@ == old(self)@.push(node@),
            final(self).anchored() == old(self).anchored(),
            index == old(self)@.len(),
    {
        let ghost old_leaves = self@;
        let ghost old_idx = self.index_by_commitment@;
        let index = self.tree.append(node);
        let key = lookup_key(&node);
        let mut list = match self.index_by_commitment.remove(&key) {
            Some(v) => v,
            None => Vec::new(),
        };
        let ghost old_list = list@;
        list.push(index);
        self.index_by_commitment.insert(key, list);
        proof {
            let leaves = self@;
            let idx = self.index_by_commitment@;
            assert(leaves == old_leaves.push(node@));
            assert forall|i: int| 0 <= i < leaves.len() implies #[trigger] idx.contains_key(commitment_key(leaves[i]))
                && idx[commitment_key(leaves[i])]@.contains(i as usize) by {
                if i < old_leaves.len() {
                    assert(leaves[i] == old_leaves[i]);
                    assert(old_idx.contains_key(commitment_key(old_leaves[i])));
                    if commitment_key(leaves[i]) == key {
                        let m = choose|m: int| 0 <= m < old_list.len() && old_list[m] == i as usize;
                        assert(idx[key]@[m] == i as usize);
                    }
                } else {
                    assert(idx[key]@[old_list.len() as int] == index);
                }
            }
            assert forall|p: u128| #[trigger] idx.contains_key(p) implies {
                &&& forall|k: int|
                    0 <= k < idx[p]@.len() ==> #[trigger] idx[p]@[k] < leaves.len()
                        && commitment_key(leaves[idx[p]@[k] as int]) == p
                &&& forall|a: int, b: int|
                    0 <= a < b < idx[p]@.len() ==> #[trigger] idx[p]@[a] < #[trigger] idx[p]@[b]
            } by {
                if p != key {
                    assert(old_idx.contains_key(p));
                    assert(idx[p] == old_idx[p]);
                    assert forall|k: int| 0 <= k < idx[p]@.len() implies #[trigger] idx[p]@[k] < leaves.len()
                        && commitment_key(leaves[idx[p]@[k] as int]) == p by {
                        assert(old_idx[p]@[k] < old_leaves.len());
                        assert(leaves[idx[p]@[k] as int] == old_leaves[idx[p]@[k] as int]);
                    }
                } else {
                    assert forall|k: int| 0 <= k < idx[p]@.len() implies #[trigger] idx[p]@[k] < leaves.len()
                        && commitment_key(leaves[idx[p]@[k] as int]) == p by {
                        if k < old_list.len() {
                            assert(idx[p]@[k] == old_list[k]);
                            assert(old_idx.contains_key(key));
                            assert(old_list[k] < old_leaves.len());
                            assert(leaves[idx[p]@[k] as int] == old_leaves[idx[p]@[k] as int]);
                        }
                    }
                    assert forall|a: int, b: int| 0 <= a < b < idx[p]@.len() implies #[trigger] idx[p]@[a] < #[trigger] idx[p]@[b] by {
                        assert(old_list.len() > 0 ==> old_idx.contains_key(key));
                        if b < old_list.len() {
                            assert(idx[p]@[a] == old_list[a]);
                        } else {
                            assert(old_list[a] < old_leaves.len());
                        }
                    }
                }
            }
        }
        index
    }

    /// Top up the tree with rows `(leaf_index, commitment, ledger)` read in
    /// leaf order. Rows are appended while each one carries the next leaf
    /// index (and the tree has room); the first that does not is a gap and
    /// ends the top-up. A row at the right index whose commitment is not 32
    /// bytes is an error; the leaves appended before it stay. Returns, per
    /// appended leaf (also when it meets the error), the history record
    /// `(leaf_count, root, ledger)` of the root after appending it, so that
    /// every appended leaf gets its root persisted.
    pub fn absorb_leaves(&mut self, rows: &Vec<(i64, Vec<u8>, i64)>) -> (r: (
        Vec<(i64, Vec<u8>, i64)>,
        Result<(), ApiError>,
    ))
        requires
            old(self).well_formed(),
        ensures
            final(self).well_formed(),
            ({
                let n0 = old(self)@.len() as int;
                let k = final(self)@.len() - n0;
                &&& 0 <= k <= rows@.len()
                &&& final(self)@ == old(self)@ + Seq::new(k as nat, |j: int| rows@[j].1@)
                &&& forall|j: int| 0 <= j < k ==> #[trigger] row_fits(n0 + j, rows@[j])
                &&& final(self).anchored() == anchored_after(old(self).anchored(), rows@, k as nat)
                &&& final(self).anchored() >= old(self).anchored()
                &&& forall|j: int| 0 <= j < k ==> final(self).anchored() >= #[trigger] rows@[j].2
                &&& (final(self).anchored() == old(self).anchored() || exists|j: int|
                    0 <= j < k && final(self).anchored() == #[trigger] rows@[j].2)
                &&& r.0@.len() == k
                &&& forall|j: int|
                    0 <= j < k ==> {
                        &&& (#[trigger] r.0@[j]).0 == n0 + j + 1
                        &&& r.0@[j].1@ == root_of(Sha256Hasher, final(self)@.take(n0 + j + 1))
                        &&& r.0@[j].2 == rows@[j].2
                    }
                &&& match r.1 {
                    Ok(_) => k < rows@.len() ==> row_gap(n0 + k, rows@[k]),
                    Err(e) => {
                        &&& k < rows@.len()
                        &&& row_corrupt(n0 + k, rows@[k])
                        &&& e.status == 400
                        &&& e.message@ == "corrupt commitment in index"@
                    },
                }
            }),
    {
        let ghost old_leaves = self@;
        let ghost n0 = old_leaves.len() as int;
        let ghost a0 = self.anchored_ledger;
        let mut new_roots: Vec<(i64, Vec<u8>, i64)> = Vec::new();
        let mut j: usize = 0;
        let mut corrupt = false;
        while j < rows.len()
            invariant_except_break
                !corrupt,
            invariant
                self.well_formed(),
                j <= rows@.len(),
                self@.len() == n0 + j,
                self@ == old_leaves + Seq::new(j as nat, |m: int| rows@[m].1@),
                forall|m: int| 0 <= m < j ==> #[trigger] row_fits(n0 + m, rows@[m]),
                self.anchored_ledger == anchored_after(a0, rows@, j as nat),
                new_roots@.len() == j,
                forall|m: int|
                    0 <= m < j ==> {
                        &&& (#[trigger] new_roots@[m]).0 == n0 + m + 1
                        &&& new_roots@[m].1@ == root_of(Sha256Hasher, self@.take(n0 + m + 1))
                        &&& new_roots@[m].2 == rows@[m].2
                    },
            ensures
                j <= rows@.len(),
                !corrupt ==> (j < rows@.len() ==> row_gap(n0 + j, rows@[j as int])),
                corrupt ==> j < rows@.len() && row_corrupt(n0 + j, rows@[j as int]),
                self.well_formed(),
                self@ == old_leaves + Seq::new(j as nat, |m: int| rows@[m].1@),
                forall|m: int| 0 <= m < j ==> #[trigger] row_fits(n0 + m, rows@[m]),
                self.anchored_ledger == anchored_after(a0, rows@, j as nat),
                new_roots@.len() == j,
                forall|m: int|
                    0 <= m < j ==> {
                        &&& (#[trigger] new_roots@[m]).0 == n0 + m + 1
                        &&& new_roots@[m].1@ == root_of(Sha256Hasher, self@.take(n0 + m + 1))
                        &&& new_roots@[m].2 == rows@[m].2
                    },
            decreases rows@.len() - j,
        {
            let row = &rows[j];
            let n = self.tree.len();
            if n as u64 >= TREE_CAPACITY || row.0 != n as i64 {
                proof {
                    lemma_tree_capacity();
                }
                break;
            }
            proof {
                lemma_tree_capacity();
            }
            if row.1.len() != 32 {
                assert(row_corrupt(n0 + j, rows@[j as int]));
                corrupt = true;
                break;
            }
            let mut node = [0u8; 32];
            for b in 0..32
                invariant
                    row.1@.len() == 32,
                    forall|q: int| 0 <= q < b ==> node@[q] == row.1@[q],
            {
                node[b] = row.1[b];
            }
            assert(node@ =~= row.1@);
            let ghost before = self@;
            self.append_leaf(node);
            if row.2 > self.anchored_ledger {
                self.anchored_ledger = row.2;
            }
            let root = self.tree.root();
            let mut root_bytes: Vec<u8> = Vec::with_capacity(32);
            for b in 0..32
                invariant
                    root_bytes@ == root@.take(b as int),
            {
                root_bytes.push(root[b]);
                assert(root_bytes@ == root@.take(b + 1));
            }
            assert(root@.take(32) == root@);
            assert(self@ == old_leaves + Seq::new((j + 1) as nat, |m: int| rows@[m].1@));
            assert(self@.take(n0 + j + 1) == self@);
            let ghost prev_roots = new_roots@;
            new_roots.push(((n as u64 + 1) as i64, root_bytes, row.2));
            assert forall|m: int| 0 <= m < j implies (#[trigger] new_roots@[m]).1@ == root_of(
                Sha256Hasher,
                self@.take(n0 + m + 1),
            ) by {
                assert(self@.take(n0 + m + 1) == before.take(n0 + m + 1));
                assert(new_roots@[m] == prev_roots[m]);
            }
            j = j + 1;
        }
        proof {
            law_anchor_is_newest(a0, rows@, j as nat);
        }
        if corrupt {
            return (new_roots, Err(ApiError::bad_request("corrupt commitment in index")));
        }
        (new_roots, Ok(()))
    }

    /// Fail with 404 when the pool has no leaves at all.
    pub fn require_nonempty(&self, pool: &str) -> (r: Result<(), ApiError>)
        requires
            self.well_formed(),
        ensures
            r is Ok <==> self@.len() > 0,
            r matches Err(e) ==> e.status == 404 && e.message@ == "unknown or empty pool: "@ + pool@,
    {
        if self.tree.is_empty() {
            let msg = concat_str("unknown or empty pool: ", pool);
            Err(ApiError::not_found(msg.as_str()))
        } else {
            Ok(())
        }
    }

    /// Answer of the path endpoint for `commitment`: the path of the last
    /// leaf holding it, with the current root and anchor.
    pub fn path_response(&self, pool: String, commitment: &Node) -> (r: Result<PathResponse, ApiError>)
        requires
            self.well_formed(),
        ensures
            match r {
                Ok(resp) => {
                    &&& last_leaf_of(self@, commitment@, resp.leaf_index as int)
                    &&& resp.pool@ == pool@
                    &&& resp.root@ == hex0x_encoding(root_of(Sha256Hasher, self@))
                    &&& resp.leaf_count == self@.len()
                    &&& resp.anchored_ledger == self.anchored()
                    &&& is_json_path_of(self@, resp.leaf_index as nat, resp.path@)
                },
                Err(e) => {
                    &&& forall|j: int| 0 <= j < self@.len() ==> self@[j] != commitment@
                    &&& e.status == 404
                    &&& e.message@ == "commitment not found in tree"@
                },
            },
    {
        let leaf_index = match self.lookup(commitment) {
            Some(i) => i,
            None => return Err(ApiError::not_found("commitment not found in tree")),
        };
        let path = match self.tree.path(leaf_index) {
            Some(p) => p,
            None => return Err(ApiError::not_found("commitment not found in tree")),
        };
        let mut json: Vec<PathElementJson> = Vec::with_capacity(TREE_DEPTH);
        for d in 0..TREE_DEPTH
            invariant
                path@.len() == TREE_DEPTH,
                is_path_of(Sha256Hasher, self@, leaf_index as nat, path@),
                json@.len() == d,
                forall|q: int|
                    0 <= q < d ==> {
                        &&& (#[trigger] json@[q]).sibling@ == hex0x_encoding(path@[q].sibling@)
                        &&& json@[q].sibling_on_right == path@[q].sibling_on_right
                    },
        {
            let el = &path[d];
            json.push(
                PathElementJson {
                    sibling: encode_hex0x(vstd::array::array_as_slice(&el.sibling)),
                    sibling_on_right: el.sibling_on_right,
                },
            );
        }
        proof {
            lemma_tree_capacity();
        }
        let root = self.tree.root();
        Ok(
            PathResponse {
                pool,
                leaf_index: leaf_index as i64,
                root: encode_hex0x(vstd::array::array_as_slice(&root)),
                leaf_count: self.tree.len() as i64,
                anchored_ledger: self.anchored_ledger,
                path: json,
            },
        )
    }

    /// Answer of the root endpoint without a history parameter.
    pub fn root_response(&self, pool: String) -> (resp: RootResponse)
        requires
            self.well_formed(),
        ensures
            resp.pool@ == pool@,
            resp.root@ == hex0x_encoding(root_of(Sha256Hasher, self@)),
            resp.leaf_count == self@.len(),
            resp.anchored_ledger == self.anchored(),
    {
        proof {
            lemma_tree_capacity();
        }
        let root = self.tree.root();
        RootResponse {
            pool,
            root: encode_hex0x(vstd::array::array_as_slice(&root)),
            leaf_count: self.tree.len() as i64,
            anchored_ledger: self.anchored_ledger,
        }
    }
}

/// `0x`-hex of a node.
pub fn hex0x(node: &Node) -> (text: String)
    ensures
        text@ == hex0x_encoding(node@),
{
    encode_hex0x(vstd::array::array_as_slice(node))
}

/// Parse the `0x`-hex commitment of a path request.
pub fn parse_node(text: &str) -> (r: Result<Node, ApiError>)
    ensures
        match hex_decoding(strip_0x(text@)) {
            Some(b) => if b.len() == 32 {
                r matches Ok(n) && n@ == b
            } else {
                r matches Err(e) && e.status == 400 && e.message@ == "commitment must be 32 bytes"@
            },
            None => r matches Err(e) && e.status == 400 && e.message@ == "commitment must be 0x-hex"@,
        },
{
    let bytes = match decode_hex0x(text) {
        Some(b) => b,
        None => return Err(ApiError::bad_request("commitment must be 0x-hex")),
    };
    if bytes.len() != 32 {
        return Err(ApiError::bad_request("commitment must be 32 bytes"));
    }
    let mut node = [0u8; 32];
    for b in 0..32
        invariant
            bytes@.len() == 32,
            forall|q: int| 0 <= q < b ==> node@[q] == bytes@[q],
    {
        node[b] = bytes[b];
    }
    assert(node@ =~= bytes@);
    Ok(node)
}

/// Which root a root request asks for; `at_ledger` and `at_leaf_count`
/// exclude each other.
pub fn root_lookup(at_ledger: Option<i64>, at_leaf_count: Option<i64>) -> (r: Result<RootLookup, ApiError>)
    ensures
        match (at_ledger, at_leaf_count) {
            (Some(_), Some(_)) => r matches Err(e) && e.status == 400
                && e.message@ == "at_ledger and at_leaf_count are mutually exclusive"@,
            (Some(l), None) => r matches Ok(RootLookup::AtLedger(x)) && x == l,
            (None, Some(c)) => r matches Ok(RootLookup::AtLeafCount(x)) && x == c,
            (None, None) => r matches Ok(RootLookup::Current),
        },
{
    match (at_ledger, at_leaf_count) {
        (Some(_), Some(_)) => Err(
            ApiError::bad_request("at_ledger and at_leaf_count are mutually exclusive"),
        ),
        (Some(l), None) => Ok(RootLookup::AtLedger(l)),
        (None, Some(c)) => Ok(RootLookup::AtLeafCount(c)),
        (None, None) => Ok(RootLookup::Current),
    }
}

/// Answer of the root endpoint from a history row `(root, leaf_count,
/// ledger)`, if one was found.
pub fn history_root_response(pool: String, row: Option<(Vec<u8>, i64, i64)>) -> (r: Result<
    RootResponse,
    ApiError,
>)
    ensures
        match row {
            None => r matches Err(e) && e.status == 404
                && e.message@ == "no root recorded at or before that point"@,
            Some((root, leaf_count, ledger)) => if root@.len() == 32 {
                r matches Ok(resp) && resp.pool@ == pool@ && resp.root@ == hex0x_encoding(root@)
                    && resp.leaf_count == leaf_count && resp.anchored_ledger == ledger
            } else {
                r matches Err(e) && e.status == 400 && e.message@ == "corrupt root in history"@
            },
        },
{
    match row {
        None => Err(ApiError::not_found("no root recorded at or before that point")),
        Some((root, leaf_count, ledger)) => {
            if root.len() != 32 {
                return Err(ApiError::bad_request("corrupt root in history"));
            }
            Ok(
                RootResponse {
                    pool,
                    root: encode_hex0x(root.as_slice()),
                    leaf_count,
                    anchored_ledger: ledger,
                },
            )
        },
    }
}

/// Split a list of triples into three lists.
pub fn unzip3<A, B, C>(v: Vec<(A, B, C)>) -> (r: (Vec<A>, Vec<B>, Vec<C>))
    ensures
        r.0@.len() == v@.len(),
        r.1@.len() == v@.len(),
        r.2@.len() == v@.len(),
        forall|i: int|
            0 <= i < v@.len() ==> r.0@[i] == (#[trigger] v@[i]).0 && r.1@[i] == v@[i].1 && r.2@[i]
                == v@[i].2,
{
    let ghost all = v@;
    let mut a: Vec<A> = Vec::with_capacity(v.len());
    let mut b: Vec<B> = Vec::with_capacity(v.len());
    let mut c: Vec<C> = Vec::with_capacity(v.len());
    for t in it: v.into_iter()
        invariant
            it.seq() == all,
            a@.len() == it.index(),
            b@.len() == it.index(),
            c@.len() == it.index(),
            forall|i: int|
                0 <= i < it.index() ==> a@[i] == (#[trigger] all[i]).0 && b@[i] == all[i].1
                    && c@[i] == all[i].2,
    {
        let (x, y, z) = t;
        a.push(x);
        b.push(y);
        c.push(z);
    }
    (a, b, c)
}

} // verus!
