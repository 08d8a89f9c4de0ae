//! Mutable diffs over a `TreeSync`.
//!
//! A `TreeSyncDiff` takes the node array of a `TreeSync` snapshot and
//! applies the protocol's staged mutations: add, remove and update
//! leaves, install update paths, derive path secrets, and compute the
//! parent and tree hashes. Finishing a diff produces a
//! `StagedTreeSyncDiff` that a `TreeSync` merges.

use vstd::prelude::*;
use crate::node::{
    TreeSyncNode, TreeSyncNodeV, Node, NodeV, ParentNode, ParentNodeV, LeafNode, KeyPackage,
};
use crate::treesync::{
    TreeSync, StagedTreeSyncDiff, nodes_view, blank_slot, tree_shape_ok, tree_wf,
    duplicate_nodes, lemma_nodes_view_update, parent_unmerged_ok, unmerged_entry_ok, unmerged_ok,
};
use crate::tree_math::{
    node_level, is_below, direct_path, path_from, seq_to_nat, direct_path_indices,
    MAX_NODE_WIDTH, lemma_direct_path_membership, lemma_path_from_levels, lemma_odd_level,
};

verus! {

/// Structural failures of the array-tree layer.
#[derive(Debug, PartialEq, Eq)]
pub enum MlsBinaryTreeDiffError {
    /// A node or leaf index lies outside the tree.
    OutOfBounds,
    /// The operation would shrink the tree below one leaf.
    TreeTooSmall,
    /// The operation would grow the tree beyond the supported width.
    TreeTooLarge,
}

/// Failures of TreeSync diff operations.
#[derive(Debug, PartialEq, Eq)]
pub enum TreeSyncDiffError {
    /// An internal invariant was broken; callers should treat this as a bug.
    LibraryError,
    /// The given path does not match the length of the leaf's direct path.
    PathLengthError,
    /// The key package carries no parent-hash extension.
    MissingParentHash,
    /// The declared parent hash differs from the computed one.
    ParentHashMismatch,
    /// Tree-wide parent-hash verification failed.
    InvalidParentHash,
    /// An unmerged-leaves entry pointed at a blank leaf.
    BlankUnmergedLeaf,
    /// A derived public key differs from the one stored in the tree.
    PublicKeyMismatch,
    /// No private key matches the sender's copath resolution.
    NoPrivateKeyFound,
    /// A node had an unexpected kind for its slot.
    NodeTypeError,
    /// A failure of the array-tree layer.
    TreeDiffError(MlsBinaryTreeDiffError),
}

/// A slot on the direct path of node `x` in a tree of width `w`.
pub open spec fn on_direct_path(x: nat, i: int, w: nat) -> bool {
    0 <= i < w && node_level(i as nat) > node_level(x) && is_below(x, i as nat)
}

/// A slot with its cached hash dropped.
pub open spec fn erase_slot_hash(t: TreeSyncNodeV) -> TreeSyncNodeV {
    TreeSyncNodeV { tree_hash: Option::None, ..t }
}

/// Overwrite every direct-path slot of `x`: blank it entirely, or only
/// drop its cached hash.
pub open spec fn spec_path_overwrite(ts: Seq<TreeSyncNodeV>, x: nat, blank: bool) -> Seq<
    TreeSyncNodeV,
> {
    Seq::new(
        ts.len(),
        |i: int|
            if on_direct_path(x, i, ts.len()) {
                if blank {
                    blank_slot()
                } else {
                    erase_slot_hash(ts[i])
                }
            } else {
                ts[i]
            },
    )
}

/// A mutable diff over a `TreeSync`: the working node array and the
/// owner's leaf index.
pub struct TreeSyncDiff {
    pub nodes: Vec<TreeSyncNode>,
    pub own_leaf_index: u32,
}

impl TreeSyncDiff {
    /// The slot views of the working array.
    pub open spec fn ts(&self) -> Seq<TreeSyncNodeV> {
        nodes_view(self.nodes@)
    }

    /// The node-array width.
    pub open spec fn width(&self) -> nat {
        self.nodes@.len()
    }

    /// The owner's leaf index.
    pub open spec fn own(&self) -> nat {
        self.own_leaf_index as nat
    }

    /// The number of leaves.
    pub open spec fn leaf_cnt(&self) -> nat {
        ((self.width() + 1) / 2) as nat
    }

    /// Structural invariant of the working array.
    pub open spec fn wf(&self) -> bool {
        tree_wf(self.ts(), self.own())
    }

    /// The owner's leaf index.
    pub fn own_leaf_index(&self) -> (r: u32)
        ensures
            r == self.own_leaf_index,
    {
        self.own_leaf_index
    }

    /// The number of leaves in the working array.
    pub fn leaf_count(&self) -> (r: u32)
        requires
            tree_shape_ok(self.ts()),
        ensures
            r as nat == self.leaf_cnt(),
    {
        ((self.nodes.len() - 1) / 2 + 1) as u32
    }

    /// Export the working array as plain optional nodes, without cached
    /// hashes or slot bookkeeping.
    pub fn export_nodes(&self) -> (r: Vec<Option<Node>>)
        ensures
            r@.len() == self.width(),
            forall|i: int|
                0 <= i < r@.len() ==> crate::node::opt_node_view(#[trigger] r@[i])
                    == self.ts()[i].node,
    {
        let mut r: Vec<Option<Node>> = Vec::new();
        let mut i: usize = 0;
        while i < self.nodes.len()
            invariant
                i <= self.nodes.len(),
                r@.len() == i,
                forall|j: int|
                    0 <= j < i ==> crate::node::opt_node_view(#[trigger] r@[j]) == self.ts()[j].node,
            decreases self.nodes.len() - i,
        {
            let n = match &self.nodes[i].node {
                Option::None => Option::None,
                Option::Some(n) => Option::Some(n.duplicate()),
            };
            r.push(n);
            i = i + 1;
        }
        r
    }

    /// Replace one slot of the working array.
    fn set_slot(&mut self, idx: usize, slot: TreeSyncNode)
        requires
            idx < old(self).width(),
        ensures
            final(self).ts() == old(self).ts().update(idx as int, slot@),
            final(self).width() == old(self).width(),
            final(self).own_leaf_index == old(self).own_leaf_index,
    {
        let ghost pre = self.nodes@;
        self.nodes[idx] = slot;
        proof {
            lemma_nodes_view_update(pre, idx as int, self.nodes@[idx as int]);
            assert(self.nodes@ =~= pre.update(idx as int, self.nodes@[idx as int]));
        }
    }

    /// Overwrite every slot on the direct path of node `x`: blank the
    /// slot entirely (`blank` set), or only drop its cached tree hash.
    fn overwrite_direct_path(&mut self, x: usize, blank: bool)
        requires
            x < old(self).width(),
            old(self).width() <= MAX_NODE_WIDTH,
        ensures
            final(self).ts() == spec_path_overwrite(old(self).ts(), x as nat, blank),
            final(self).width() == old(self).width(),
            final(self).own_leaf_index == old(self).own_leaf_index,
    {
        let w = self.nodes.len();
        let ghost orig = self.ts();
        let dp = direct_path_indices(x, w);
        proof {
            lemma_path_from_levels(x as nat, (node_level(x as nat) + 1) as nat, w as nat);
            assert(seq_to_nat(dp@).len() == dp@.len());
            let d = path_from(x as nat, (node_level(x as nat) + 1) as nat, w as nat);
            assert(seq_to_nat(dp@) == d);
            assert forall|i: int, j: int| 0 <= i < j < dp@.len() implies node_level(
                #[trigger] dp@[i] as nat,
            ) < node_level(#[trigger] dp@[j] as nat) by {
                assert(d[i] == seq_to_nat(dp@)[i] == dp@[i] as nat);
                assert(d[j] == seq_to_nat(dp@)[j] == dp@[j] as nat);
            }
        }
        let mut k: usize = 0;
        while k < dp.len()
            invariant
                seq_to_nat(dp@) == direct_path(x as nat, old(self).width()),
                forall|i: int| 0 <= i < dp@.len() ==> dp@[i] < old(self).width(),
                forall|i: int, j: int|
                    0 <= i < j < dp@.len() ==> node_level(#[trigger] dp@[i] as nat) < node_level(
                        #[trigger] dp@[j] as nat,
                    ),
                k <= dp@.len(),
                orig == old(self).ts(),
                self.width() == old(self).width(),
                self.own_leaf_index == old(self).own_leaf_index,
                x < old(self).width() <= MAX_NODE_WIDTH,
                forall|j: int|
                    0 <= j < k ==> self.ts()[#[trigger] dp@[j] as int] == (if blank {
                        blank_slot()
                    } else {
                        erase_slot_hash(orig[dp@[j] as int])
                    }),
                forall|j: int| k <= j < dp@.len() ==> self.ts()[#[trigger] dp@[j] as int] == orig[dp@[j] as int],
                forall|i: int|
                    0 <= i < old(self).width() && !direct_path(x as nat, old(self).width()).contains(
                        i as nat,
                    ) ==> self.ts()[i] == orig[i],
            decreases dp@.len() - k,
        {
            let p = dp[k];
            let ghost pre = self.nodes@;
            proof {
                assert(seq_to_nat(dp@)[k as int] == dp@[k as int] as nat);
                assert(direct_path(x as nat, old(self).width()).contains(dp@[k as int] as nat));
                // the slot is still untouched, and distinct from every
                // other path slot (levels differ)
                assert(self.ts()[p as int] == orig[p as int]);
            }
            if blank {
                self.nodes[p] = TreeSyncNode::blank();
            } else {
                let slot = &mut self.nodes[p];
                slot.erase_tree_hash();
            }
            proof {
                lemma_nodes_view_update(pre, p as int, self.nodes@[p as int]);
                assert(self.nodes@ =~= pre.update(p as int, self.nodes@[p as int]));
                assert(self.ts() == nodes_view(pre).update(p as int, self.ts()[p as int]));
                if blank {
                    assert(self.ts()[p as int] == blank_slot());
                } else {
                    assert(self.ts()[p as int] == erase_slot_hash(orig[p as int]));
                }
                assert forall|j: int| 0 <= j < dp@.len() && j != k implies dp@[j] != dp@[k as int] by {
                    if j < k {
                        assert(node_level(dp@[j] as nat) < node_level(dp@[k as int] as nat));
                    } else {
                        assert(node_level(dp@[k as int] as nat) < node_level(dp@[j] as nat));
                    }
                }
            }
            k = k + 1;
        }
        proof {
            let w = old(self).width();
            let d = direct_path(x as nat, w);
            assert forall|i: int| 0 <= i < w implies self.ts()[i] == spec_path_overwrite(
                orig,
                x as nat,
                blank,
            )[i] by {
                lemma_direct_path_membership(x as nat, w, i as nat);
                if on_direct_path(x as nat, i, w) {
                    assert(d.contains(i as nat));
                    let j = choose|j: int| 0 <= j < d.len() && #[trigger] d[j] == i as nat;
                    assert(seq_to_nat(dp@)[j] == dp@[j] as nat);
                    assert(dp@[j] as int == i);
                } else {
                    assert(!d.contains(i as nat));
                }
            }
            assert(self.ts() =~= spec_path_overwrite(orig, x as nat, blank));
        }
    }
}

} // verus!

verus! {

/// The working array after trimming: while the rightmost leaf is blank,
/// drop it together with its parent slot, invalidating the cached hashes
/// of its remaining ancestors.
pub open spec fn spec_trim(ts: Seq<TreeSyncNodeV>) -> Seq<TreeSyncNodeV>
    decreases ts.len(),
{
    if ts.len() <= 1 {
        ts
    } else if ts[ts.len() - 1].node is Some {
        ts
    } else {
        spec_trim(spec_path_overwrite(ts, (ts.len() - 1) as nat, false).take(ts.len() - 2))
    }
}

/// The largest blank leaf index below `n`, if any.
pub open spec fn spec_last_blank_upto(ts: Seq<TreeSyncNodeV>, n: nat) -> Option<nat>
    decreases n,
{
    if n == 0 {
        Option::None
    } else if ts[2 * (n - 1)].node is None {
        Option::Some((n - 1) as nat)
    } else {
        spec_last_blank_upto(ts, (n - 1) as nat)
    }
}

/// The leaf slot an added member fills: the last blank leaf.
pub open spec fn spec_free_leaf(ts: Seq<TreeSyncNodeV>) -> Option<nat> {
    spec_last_blank_upto(ts, ((ts.len() + 1) / 2) as nat)
}

/// The working array before an add fills its slot: unchanged if a blank
/// leaf is reused, extended by a blank parent and a blank leaf otherwise.
pub open spec fn spec_add_base(ts: Seq<TreeSyncNodeV>) -> Seq<TreeSyncNodeV> {
    match spec_free_leaf(ts) {
        Option::Some(_) => ts,
        Option::None => ts + seq![blank_slot(), blank_slot()],
    }
}

/// The leaf index an added member receives.
pub open spec fn spec_add_index(ts: Seq<TreeSyncNodeV>) -> nat {
    match spec_free_leaf(ts) {
        Option::Some(i) => i,
        Option::None => ((ts.len() + 1) / 2) as nat,
    }
}

/// A direct-path slot after an add: a parent node records the new leaf
/// in its unmerged leaves; every slot loses its cached hash.
pub open spec fn spec_add_bump(t: TreeSyncNodeV, u: u32) -> TreeSyncNodeV {
    match t.node {
        Option::Some(NodeV::ParentNode(p)) => TreeSyncNodeV {
            node: Option::Some(
                NodeV::ParentNode(ParentNodeV { unmerged_leaves: p.unmerged_leaves.push(u), ..p }),
            ),
            tree_hash: Option::None,
        },
        _ => TreeSyncNodeV { node: t.node, tree_hash: Option::None },
    }
}

/// The working array after adding a leaf holding `kp`.
pub open spec fn spec_add_leaf(ts: Seq<TreeSyncNodeV>, kp: crate::node::KeyPackageV) -> Seq<
    TreeSyncNodeV,
> {
    let i = spec_add_index(ts);
    let base = spec_add_base(ts).update(
        2 * (i as int),
        TreeSyncNodeV {
            node: Option::Some(
                NodeV::LeafNode(
                    crate::node::LeafNodeV { key_package: kp, private_key: Option::None },
                ),
            ),
            tree_hash: Option::None,
        },
    );
    Seq::new(
        base.len(),
        |p: int|
            if on_direct_path(2 * i, p, base.len()) {
                spec_add_bump(base[p], i as u32)
            } else {
                base[p]
            },
    )
}

/// The working array after blanking leaf `i`: the leaf and its direct
/// path are blanked, then the tree is trimmed.
pub open spec fn spec_blank_leaf(ts: Seq<TreeSyncNodeV>, i: nat) -> Seq<TreeSyncNodeV> {
    spec_trim(spec_path_overwrite(ts.update(2 * (i as int), blank_slot()), 2 * i, true))
}

impl TreeSync {
    /// Open a diff over this snapshot: a working copy of the node array.
    pub fn empty_diff(&self) -> (r: TreeSyncDiff)
        ensures
            r.ts() == self.ts(),
            r.own_leaf_index == self.own_leaf_index,
    {
        TreeSyncDiff { nodes: duplicate_nodes(&self.nodes), own_leaf_index: self.own_leaf_index }
    }
}

impl TreeSyncDiff {
    /// Replace leaf `leaf_index` and blank every slot on its direct
    /// path, dropping the cached hashes there. Fails if the index lies
    /// outside the tree.
    pub fn update_leaf(&mut self, leaf_node: LeafNode, leaf_index: u32) -> (r: Result<
        (),
        TreeSyncDiffError,
    >)
        requires
            tree_shape_ok(old(self).ts()),
        ensures
            final(self).own_leaf_index == old(self).own_leaf_index,
            r is Ok <==> (leaf_index as nat) < old(self).leaf_cnt(),
            r is Err ==> final(self).ts() == old(self).ts(),
            r is Ok ==> final(self).ts() == spec_path_overwrite(
                old(self).ts(),
                2 * (leaf_index as nat),
                true,
            ).update(
                2 * (leaf_index as int),
                TreeSyncNodeV {
                    node: Option::Some(NodeV::LeafNode(leaf_node@)),
                    tree_hash: Option::None,
                },
            ),
            r is Ok ==> forall|i: int|
                on_direct_path(2 * (leaf_index as nat), i, final(self).width())
                    ==> final(self).ts()[i] == blank_slot(),
            r is Ok ==> tree_shape_ok(final(self).ts()),
    {
        let n = self.leaf_count();
        if leaf_index >= n {
            return Result::Err(
                TreeSyncDiffError::TreeDiffError(MlsBinaryTreeDiffError::OutOfBounds),
            );
        }
        let idx = 2 * (leaf_index as usize);
        self.overwrite_direct_path(idx, true);
        let ghost mid = self.nodes@;
        self.nodes[idx] = TreeSyncNode::from_node(Node::LeafNode(leaf_node));
        proof {
            lemma_nodes_view_update(mid, idx as int, self.nodes@[idx as int]);
            assert(self.nodes@ =~= mid.update(idx as int, self.nodes@[idx as int]));
            assert forall|i: int|
                on_direct_path(2 * (leaf_index as nat), i, self.width()) implies self.ts()[i]
                == blank_slot() by {
                assert(node_level(i as nat) > 0);
            }
        }
        Result::Ok(())
    }

    /// While the rightmost leaf is blank, remove it and its parent slot,
    /// dropping the cached hashes of its remaining ancestors. Fails only
    /// when the whole tree is blank and a single blank leaf remains.
    pub fn trim_tree(&mut self) -> (r: Result<(), TreeSyncDiffError>)
        requires
            tree_shape_ok(old(self).ts()),
        ensures
            final(self).ts() == spec_trim(old(self).ts()),
            final(self).own_leaf_index == old(self).own_leaf_index,
            tree_shape_ok(final(self).ts()),
            r is Ok <==> spec_trim(old(self).ts()).last().node is Some,
    {
        loop
            invariant
                tree_shape_ok(self.ts()),
                self.own_leaf_index == old(self).own_leaf_index,
                spec_trim(self.ts()) == spec_trim(old(self).ts()),
            decreases self.nodes.len(),
        {
            let w = self.nodes.len();
            if w == 1 {
                if self.nodes[0].node.is_some() {
                    return Result::Ok(());
                } else {
                    return Result::Err(
                        TreeSyncDiffError::TreeDiffError(MlsBinaryTreeDiffError::TreeTooSmall),
                    );
                }
            }
            let last_blank = self.nodes[w - 1].node.is_none();
            if !last_blank {
                return Result::Ok(());
            }
            self.overwrite_direct_path(w - 1, false);
            let ghost mid = self.ts();
            self.nodes.truncate(w - 2);
            proof {
                assert(self.ts() =~= mid.take(w - 2));
                assert forall|i: int|
                    0 <= i < self.ts().len() implies match #[trigger] self.ts()[i].node {
                    Option::Some(NodeV::LeafNode(_)) => i % 2 == 0,
                    Option::Some(NodeV::ParentNode(_)) => i % 2 == 1,
                    Option::None => true,
                } by {
                    assert(self.ts()[i] == mid[i]);
                }
            }
        }
    }

    /// Blank leaf `leaf_index` and its direct path, then trim the tree.
    /// Fails on an index outside the tree, or when blanking would leave
    /// no leaf at all.
    pub fn blank_leaf(&mut self, leaf_index: u32) -> (r: Result<(), TreeSyncDiffError>)
        requires
            tree_shape_ok(old(self).ts()),
        ensures
            final(self).own_leaf_index == old(self).own_leaf_index,
            (leaf_index as nat) >= old(self).leaf_cnt()
                ==> r is Err && final(self).ts() == old(self).ts(),
            (leaf_index as nat) < old(self).leaf_cnt() ==> final(self).ts() == spec_blank_leaf(
                old(self).ts(),
                leaf_index as nat,
            ) && tree_shape_ok(final(self).ts()),
            r is Ok <==> (leaf_index as nat) < old(self).leaf_cnt() && spec_blank_leaf(
                old(self).ts(),
                leaf_index as nat,
            ).last().node is Some,
    {
        let n = self.leaf_count();
        if leaf_index >= n {
            return Result::Err(
                TreeSyncDiffError::TreeDiffError(MlsBinaryTreeDiffError::OutOfBounds),
            );
        }
        let idx = 2 * (leaf_index as usize);
        let ghost orig = self.nodes@;
        self.nodes[idx] = TreeSyncNode::blank();
        proof {
            lemma_nodes_view_update(orig, idx as int, self.nodes@[idx as int]);
            assert(self.nodes@ =~= orig.update(idx as int, self.nodes@[idx as int]));
            assert(self.ts() =~= nodes_view(orig).update(idx as int, blank_slot()));
        }
        self.overwrite_direct_path(idx, true);
        self.trim_tree()
    }
}

} // verus!

verus! {

impl TreeSyncDiff {
    /// Add a new leaf holding `key_package`: fill the last blank leaf
    /// slot, or extend the tree by a blank parent and a new leaf slot.
    /// Every node on the new leaf's direct path records the new leaf
    /// index in its unmerged leaves and loses its cached tree hash.
    /// Returns the new leaf's index.
    pub fn add_leaf(&mut self, key_package: KeyPackage) -> (r: Result<u32, TreeSyncDiffError>)
        requires
            tree_shape_ok(old(self).ts()),
        ensures
            final(self).own_leaf_index == old(self).own_leaf_index,
            r is Ok <==> (spec_free_leaf(old(self).ts()) is Some || old(self).width() + 2
                <= MAX_NODE_WIDTH),
            r is Err ==> final(self).ts() == old(self).ts(),
            r is Ok ==> (r->Ok_0 as nat) == spec_add_index(old(self).ts()),
            r is Ok ==> final(self).ts() == spec_add_leaf(old(self).ts(), key_package@),
            r is Ok ==> tree_shape_ok(final(self).ts()),
    {
        let ghost orig = self.ts();
        let n = self.leaf_count();
        // find the last blank leaf slot
        let mut free: Option<u32> = Option::None;
        let mut i: u32 = 0;
        while i < n
            invariant
                tree_shape_ok(self.ts()),
                orig == self.ts(),
                n as nat == self.leaf_cnt(),
                i <= n,
                (match free {
                    Option::Some(f) => Option::<nat>::Some(f as nat),
                    Option::None => Option::<nat>::None,
                }) == spec_last_blank_upto(self.ts(), i as nat),
                free is Some ==> free->0 < i,
            decreases n - i,
        {
            if self.nodes[2 * (i as usize)].node.is_none() {
                free = Option::Some(i);
            }
            i = i + 1;
        }
        // fill the free slot, or extend the tree
        let leaf_index: u32;
        match free {
            Option::Some(f) => {
                leaf_index = f;
            },
            Option::None => {
                if self.nodes.len() + 2 > MAX_NODE_WIDTH {
                    return Result::Err(
                        TreeSyncDiffError::TreeDiffError(MlsBinaryTreeDiffError::TreeTooLarge),
                    );
                }
                leaf_index = n;
                self.nodes.push(TreeSyncNode::blank());
                self.nodes.push(TreeSyncNode::blank());
                proof {
                    assert(self.ts() =~= spec_add_base(orig));
                }
            },
        }
        proof {
            assert(self.ts() == spec_add_base(orig));
            assert(leaf_index as nat == spec_add_index(orig));
            assert(2 * (leaf_index as nat) < self.width());
        }
        let idx = 2 * (leaf_index as usize);
        let ghost mid0 = self.nodes@;
        let leaf = LeafNode { key_package, private_key: Option::None };
        self.nodes[idx] = TreeSyncNode::from_node(Node::LeafNode(leaf));
        proof {
            lemma_nodes_view_update(mid0, idx as int, self.nodes@[idx as int]);
            assert(self.nodes@ =~= mid0.update(idx as int, self.nodes@[idx as int]));
        }
        let ghost base = self.ts();
        let w = self.nodes.len();
        // record the new leaf along its direct path and drop cached hashes
        let dp = direct_path_indices(idx, w);
        proof {
            lemma_path_from_levels(idx as nat, (node_level(idx as nat) + 1) as nat, w as nat);
            let d = path_from(idx as nat, (node_level(idx as nat) + 1) as nat, w as nat);
            assert(seq_to_nat(dp@) == d);
            assert forall|a: int, b: int| 0 <= a < b < dp@.len() implies node_level(
                #[trigger] dp@[a] as nat,
            ) < node_level(#[trigger] dp@[b] as nat) by {
                assert(d[a] == seq_to_nat(dp@)[a] == dp@[a] as nat);
                assert(d[b] == seq_to_nat(dp@)[b] == dp@[b] as nat);
            }
        }
        let mut k: usize = 0;
        while k < dp.len()
            invariant
                seq_to_nat(dp@) == direct_path(idx as nat, base.len()),
                forall|a: int| 0 <= a < dp@.len() ==> dp@[a] < base.len(),
                forall|a: int, b: int|
                    0 <= a < b < dp@.len() ==> node_level(#[trigger] dp@[a] as nat) < node_level(
                        #[trigger] dp@[b] as nat,
                    ),
                k <= dp@.len(),
                self.width() == base.len(),
                base.len() == w,
                w <= MAX_NODE_WIDTH,
                idx < w,
                self.own_leaf_index == old(self).own_leaf_index,
                leaf_index as nat == spec_add_index(orig),
                idx == 2 * (leaf_index as int),
                forall|j: int|
                    0 <= j < k ==> self.ts()[#[trigger] dp@[j] as int] == spec_add_bump(
                        base[dp@[j] as int],
                        leaf_index,
                    ),
                forall|j: int|
                    k <= j < dp@.len() ==> self.ts()[#[trigger] dp@[j] as int] == base[dp@[j] as int],
                forall|p: int|
                    0 <= p < w && !direct_path(idx as nat, base.len()).contains(p as nat)
                        ==> self.ts()[p] == base[p],
            decreases dp@.len() - k,
        {
            let p = dp[k];
            let ghost pre = self.nodes@;
            proof {
                assert(seq_to_nat(dp@)[k as int] == dp@[k as int] as nat);
                assert(direct_path(idx as nat, base.len()).contains(dp@[k as int] as nat));
                assert(self.ts()[p as int] == base[p as int]);
            }
            let slot = &mut self.nodes[p];
            match &mut slot.node {
                Option::Some(Node::ParentNode(pn)) => {
                    pn.add_unmerged_leaf(leaf_index);
                },
                _ => {
                },
            }
            slot.erase_tree_hash();
            proof {
                lemma_nodes_view_update(pre, p as int, self.nodes@[p as int]);
                assert(self.nodes@ =~= pre.update(p as int, self.nodes@[p as int]));
                assert(self.ts()[p as int] == spec_add_bump(base[p as int], leaf_index));
                assert forall|j: int| 0 <= j < dp@.len() && j != k implies dp@[j] != dp@[k as int] by {
                    if j < k {
                        assert(node_level(dp@[j] as nat) < node_level(dp@[k as int] as nat));
                    } else {
                        assert(node_level(dp@[k as int] as nat) < node_level(dp@[j] as nat));
                    }
                }
            }
            k = k + 1;
        }
        proof {
            let d = direct_path(idx as nat, base.len());
            assert forall|p: int| 0 <= p < w implies self.ts()[p] == spec_add_leaf(
                orig,
                key_package@,
            )[p] by {
                lemma_direct_path_membership(idx as nat, base.len(), p as nat);
                if on_direct_path(idx as nat, p, base.len()) {
                    assert(d.contains(p as nat));
                    let j = choose|j: int| 0 <= j < d.len() && #[trigger] d[j] == p as nat;
                    assert(seq_to_nat(dp@)[j] == dp@[j] as nat);
                    assert(dp@[j] as int == p);
                } else {
                    assert(!d.contains(p as nat));
                }
            }
            assert(self.ts() =~= spec_add_leaf(orig, key_package@));
            // shape is preserved: the new leaf sits at an even slot and
            // path slots keep their node kind
            assert forall|p: int|
                0 <= p < self.ts().len() implies match #[trigger] self.ts()[p].node {
                Option::Some(NodeV::LeafNode(_)) => p % 2 == 0,
                Option::Some(NodeV::ParentNode(_)) => p % 2 == 1,
                Option::None => true,
            } by {
                if on_direct_path(idx as nat, p, base.len()) {
                    assert(self.ts()[p] == spec_add_bump(base[p], leaf_index));
                }
            }
        }
        Result::Ok(leaf_index)
    }
}

} // verus!

verus! {

/// The public key stored at leaf `u` (meaningful for a non-blank leaf).
pub open spec fn spec_leaf_pk(ts: Seq<TreeSyncNodeV>, u: u32) -> Seq<u8> {
    crate::node::node_public_key(ts[2 * (u as int)].node->0)
}

/// Public keys of a parent node's unmerged leaves, in recording order,
/// with the excluded leaves removed.
pub open spec fn spec_unmerged_keys(ts: Seq<TreeSyncNodeV>, ul: Seq<u32>, excluded: Seq<u32>) -> Seq<
    Seq<u8>,
>
    decreases ul.len(),
{
    if ul.len() == 0 {
        Seq::empty()
    } else {
        (if excluded.contains(ul[0]) {
            Seq::<Seq<u8>>::empty()
        } else {
            seq![spec_leaf_pk(ts, ul[0])]
        }) + spec_unmerged_keys(ts, ul.drop_first(), excluded)
    }
}

/// The resolution of node `x`: a non-blank leaf contributes its public
/// key unless excluded; a non-blank parent contributes its key and its
/// unmerged leaves' keys; a blank parent concatenates the resolutions of
/// its children; a blank leaf contributes nothing.
pub open spec fn spec_resolution(
    ts: Seq<TreeSyncNodeV>,
    x: nat,
    excluded: Seq<u32>,
) -> Seq<Seq<u8>>
    decreases node_level(x),
    via spec_resolution_decreases
{
    match ts[x as int].node {
        Option::Some(NodeV::LeafNode(l)) => if excluded.contains((x / 2) as u32) {
            Seq::empty()
        } else {
            seq![l.key_package.public_key]
        },
        Option::Some(NodeV::ParentNode(p)) => seq![p.public_key] + spec_unmerged_keys(
            ts,
            p.unmerged_leaves,
            excluded,
        ),
        Option::None => if x % 2 == 0 {
            Seq::empty()
        } else {
            spec_resolution(ts, crate::tree_math::left_child(x), excluded) + spec_resolution(
                ts,
                crate::tree_math::right_child(x, ts.len()),
                excluded,
            )
        },
    }
}

#[via_fn]
proof fn spec_resolution_decreases(ts: Seq<TreeSyncNodeV>, x: nat, excluded: Seq<u32>) {
    match ts[x as int].node {
        Option::None => {
            if x % 2 != 0 {
                lemma_odd_level(x);
                crate::tree_math::lemma_left_child(x);
                crate::tree_math::lemma_right_child_level_bound(
                    x,
                    (node_level(x) - 1) as nat,
                    ts.len(),
                );
            }
        },
        _ => {},
    }
}

/// Every entry of an unmerged-leaves list points at a non-blank leaf
/// inside the tree.
pub open spec fn unmerged_entries_in_tree(ts: Seq<TreeSyncNodeV>, ul: Seq<u32>) -> bool {
    forall|j: int|
        0 <= j < ul.len() ==> 2 * ((#[trigger] ul[j]) as int) < ts.len() && ts[2 * (
        ul[j] as int)].node matches Option::Some(NodeV::LeafNode(_))
}

impl TreeSyncDiff {
    /// The resolution of node `x`, leaving out the public keys of the
    /// excluded leaves.
    pub fn resolution(&self, x: usize, excluded: &Vec<u32>) -> (r: Result<
        Vec<Vec<u8>>,
        TreeSyncDiffError,
    >)
        requires
            self.wf(),
            x < self.width(),
        ensures
            r is Ok,
            r is Ok ==> (r->Ok_0).deep_view() == spec_resolution(self.ts(), x as nat, excluded@),
        decreases node_level(x as nat),
    {
        match &self.nodes[x].node {
            Option::Some(Node::LeafNode(l)) => {
                proof {
                    assert(self.ts()[x as int].node matches Option::Some(NodeV::LeafNode(_)));
                    assert(x % 2 == 0);
                    assert(x as nat / 2 == (x / 2) as nat);
                }
                let mut out: Vec<Vec<u8>> = Vec::new();
                if !crate::codec::u32s_contains(excluded, (x / 2) as u32) {
                    out.push(crate::codec::copy_bytes(&l.key_package.public_key));
                }
                proof {
                    assert(out.deep_view() =~~= spec_resolution(self.ts(), x as nat, excluded@));
                }
                Result::Ok(out)
            },
            Option::Some(Node::ParentNode(p)) => {
                proof {
                    assert(self.ts()[x as int].node matches Option::Some(NodeV::ParentNode(_)));
                    assert(parent_unmerged_ok(self.ts(), x as int));
                }
                let mut out: Vec<Vec<u8>> = Vec::new();
                out.push(crate::codec::copy_bytes(&p.public_key));
                let ghost ul = p.unmerged_leaves@;
                proof {
                    assert(out.deep_view() =~~= seq![p.public_key@] + spec_unmerged_keys(
                        self.ts(),
                        ul.take(0),
                        excluded@,
                    ));
                }
                let mut j: usize = 0;
                while j < p.unmerged_leaves.len()
                    invariant
                        self.wf(),
                        x < self.width(),
                        self.ts()[x as int].node == Option::Some(NodeV::ParentNode(p@)),
                        ul == p.unmerged_leaves@,
                        j <= ul.len(),
                        out.deep_view() == seq![p.public_key@] + spec_unmerged_keys(
                            self.ts(),
                            ul.take(j as int),
                            excluded@,
                        ),
                    decreases ul.len() - j,
                {
                    let u = p.unmerged_leaves[j];
                    let ghost pre_deep = out.deep_view();
                    proof {
                        assert(parent_unmerged_ok(self.ts(), x as int));
                        assert(self.ts()[x as int].node->0 == NodeV::ParentNode(p@));
                        assert(p@.unmerged_leaves == ul);
                        assert(p@.unmerged_leaves[j as int] == ul[j as int]);
                        assert(unmerged_entry_ok(self.ts(), x as int, ul[j as int]));
                        assert(2 * (u as int) < self.width());
                        lemma_unmerged_keys_snoc(self.ts(), ul, excluded@, j as int);
                    }
                    if !crate::codec::u32s_contains(excluded, u) {
                        match &self.nodes[2 * (u as usize)].node {
                            Option::Some(Node::LeafNode(l)) => {
                                out.push(crate::codec::copy_bytes(&l.key_package.public_key));
                                proof {
                                    assert(self.ts()[2 * (u as int)]
                                        == self.nodes@[2 * (u as int)]@);
                                    assert(spec_leaf_pk(self.ts(), ul[j as int])
                                        == l.key_package.public_key@);
                                    assert(out.deep_view() =~~= pre_deep.push(
                                        l.key_package.public_key@,
                                    ));
                                    assert(out.deep_view() =~~= seq![p.public_key@]
                                        + spec_unmerged_keys(
                                        self.ts(),
                                        ul.take(j as int + 1),
                                        excluded@,
                                    ));
                                }
                            },
                            _ => {
                                proof {
                                    assert(false);
                                }
                                return Result::Err(TreeSyncDiffError::BlankUnmergedLeaf);
                            },
                        }
                    } else {
                        proof {
                            assert(out.deep_view() =~~= seq![p.public_key@] + spec_unmerged_keys(
                                self.ts(),
                                ul.take(j as int + 1),
                                excluded@,
                            ));
                        }
                    }
                    j = j + 1;
                }
                proof {
                    assert(ul.take(ul.len() as int) =~= ul);
                    assert(out.deep_view() =~~= spec_resolution(self.ts(), x as nat, excluded@));
                }
                Result::Ok(out)
            },
            Option::None => {
                if x % 2 == 0 {
                    let out: Vec<Vec<u8>> = Vec::new();
                    proof {
                        assert(out.deep_view() =~= spec_resolution(
                            self.ts(),
                            x as nat,
                            excluded@,
                        ));
                    }
                    Result::Ok(out)
                } else {
                    proof {
                        lemma_odd_level(x as nat);
                        crate::tree_math::lemma_left_child(x as nat);
                        assert(self.width() % 2 == 1);
                        lemma_odd_level((self.width() - 1) as nat);
                        assert(x != self.width() - 1);
                    }
                    let lc = crate::tree_math::left_child_index(x);
                    let rc = crate::tree_math::right_child_index(x, self.nodes.len());
                    proof {
                        crate::tree_math::lemma_right_child_level_bound(
                            x as nat,
                            (node_level(x as nat) - 1) as nat,
                            self.width(),
                        );
                    }
                    let left = self.resolution(lc, excluded)?;
                    let mut right = self.resolution(rc, excluded)?;
                    let mut out = left;
                    let ghost lv = out.deep_view();
                    let ghost rv = right.deep_view();
                    out.append(&mut right);
                    proof {
                        assert(out.deep_view() =~~= lv + rv);
                        assert(out.deep_view() =~~= spec_resolution(
                            self.ts(),
                            x as nat,
                            excluded@,
                        ));
                    }
                    Result::Ok(out)
                }
            },
        }
    }
}

/// Extending the scanned prefix of an unmerged-leaves list by one entry
/// appends that entry's contribution.
pub proof fn lemma_unmerged_keys_snoc(
    ts: Seq<TreeSyncNodeV>,
    ul: Seq<u32>,
    excluded: Seq<u32>,
    j: int,
)
    requires
        0 <= j < ul.len(),
    ensures
        spec_unmerged_keys(ts, ul.take(j + 1), excluded) == spec_unmerged_keys(
            ts,
            ul.take(j),
            excluded,
        ) + (if excluded.contains(ul[j]) {
            Seq::<Seq<u8>>::empty()
        } else {
            seq![spec_leaf_pk(ts, ul[j])]
        }),
    decreases j,
{
    let head = if excluded.contains(ul[0]) {
        Seq::<Seq<u8>>::empty()
    } else {
        seq![spec_leaf_pk(ts, ul[0])]
    };
    let tail_j = if excluded.contains(ul[j]) {
        Seq::<Seq<u8>>::empty()
    } else {
        seq![spec_leaf_pk(ts, ul[j])]
    };
    if j == 0 {
        assert(ul.take(1).drop_first() =~= Seq::<u32>::empty());
        assert(ul.take(1)[0] == ul[0]);
        assert(spec_unmerged_keys(ts, ul.take(1), excluded) == head + spec_unmerged_keys(
            ts,
            ul.take(1).drop_first(),
            excluded,
        ));
        assert(head + Seq::<Seq<u8>>::empty() =~= head);
        assert(spec_unmerged_keys(ts, ul.take(0), excluded) =~= Seq::<Seq<u8>>::empty());
        assert(Seq::<Seq<u8>>::empty() + head =~= head);
    } else {
        let t = ul.drop_first();
        lemma_unmerged_keys_snoc(ts, t, excluded, j - 1);
        assert(ul.take(j + 1).drop_first() =~= t.take(j));
        assert(ul.take(j).drop_first() =~= t.take(j - 1));
        assert(ul.take(j + 1)[0] == ul[0]);
        assert(ul.take(j)[0] == ul[0]);
        assert(t[j - 1] == ul[j]);
        assert(spec_unmerged_keys(ts, ul.take(j + 1), excluded) == head + spec_unmerged_keys(
            ts,
            t.take(j),
            excluded,
        ));
        assert(spec_unmerged_keys(ts, ul.take(j), excluded) == head + spec_unmerged_keys(
            ts,
            t.take(j - 1),
            excluded,
        ));
        assert(head + (spec_unmerged_keys(ts, t.take(j - 1), excluded) + tail_j) =~= (head
            + spec_unmerged_keys(ts, t.take(j - 1), excluded)) + tail_j);
    }
}

} // verus!

verus! {

/// Index of the first occurrence of `v`, or a negative value.
pub open spec fn spec_find_first(s: Seq<Seq<u8>>, v: Seq<u8>) -> int
    decreases s.len(),
{
    if s.len() == 0 {
        -1
    } else if s[0] == v {
        0
    } else {
        let r = spec_find_first(s.drop_first(), v);
        if r < 0 {
            -1
        } else {
            r + 1
        }
    }
}

/// Remove the first occurrence of `v`, if any.
pub open spec fn spec_remove_first(s: Seq<Seq<u8>>, v: Seq<u8>) -> Seq<Seq<u8>> {
    if spec_find_first(s, v) >= 0 {
        s.remove(spec_find_first(s, v))
    } else {
        s
    }
}

/// The resolution after removing, for each unmerged leaf in order, the
/// first occurrence of that leaf's public key.
pub open spec fn spec_filter_resolution(
    ts: Seq<TreeSyncNodeV>,
    ul: Seq<u32>,
    res: Seq<Seq<u8>>,
) -> Seq<Seq<u8>>
    decreases ul.len(),
{
    if ul.len() == 0 {
        res
    } else {
        spec_filter_resolution(ts, ul.drop_first(), spec_remove_first(res, spec_leaf_pk(ts, ul[0])))
    }
}

/// `spec_find_first` characterised: a found index is the first match.
pub proof fn lemma_find_first(s: Seq<Seq<u8>>, v: Seq<u8>)
    ensures
        spec_find_first(s, v) >= 0 ==> 0 <= spec_find_first(s, v) < s.len() && s[spec_find_first(
            s,
            v,
        )] == v && (forall|j: int| 0 <= j < spec_find_first(s, v) ==> s[j] != v),
        spec_find_first(s, v) < 0 ==> !s.contains(v),
    decreases s.len(),
{
    if s.len() == 0 {
    } else if s[0] == v {
    } else {
        lemma_find_first(s.drop_first(), v);
        let r = spec_find_first(s.drop_first(), v);
        if r >= 0 {
            assert(s[r + 1] == s.drop_first()[r]);
            assert forall|j: int| 0 <= j < r + 1 implies s[j] != v by {
                if j > 0 {
                    assert(s[j] == s.drop_first()[j - 1]);
                }
            }
        } else {
            if s.contains(v) {
                let j = choose|j: int| 0 <= j < s.len() && #[trigger] s[j] == v;
                assert(s.drop_first()[j - 1] == v);
                assert(s.drop_first().contains(v));
            }
        }
    }
}

impl TreeSyncDiff {
    /// Remove from `resolution` the public key of each of the given
    /// parent node's unmerged leaves (first occurrence, in recording
    /// order).
    pub fn filter_resolution(&self, parent_node: &ParentNode, resolution: &mut Vec<Vec<u8>>) -> (r:
        Result<(), TreeSyncDiffError>)
        requires
            tree_shape_ok(self.ts()),
            unmerged_entries_in_tree(self.ts(), parent_node@.unmerged_leaves),
        ensures
            r is Ok,
            final(resolution).deep_view() == spec_filter_resolution(
                self.ts(),
                parent_node@.unmerged_leaves,
                old(resolution).deep_view(),
            ),
    {
        let ghost ul = parent_node@.unmerged_leaves;
        let mut j: usize = 0;
        proof {
            assert(ul.skip(0) =~= ul);
        }
        while j < parent_node.unmerged_leaves.len()
            invariant
                tree_shape_ok(self.ts()),
                unmerged_entries_in_tree(self.ts(), ul),
                ul == parent_node@.unmerged_leaves,
                j <= ul.len(),
                spec_filter_resolution(self.ts(), ul.skip(j as int), resolution.deep_view())
                    == spec_filter_resolution(self.ts(), ul, old(resolution).deep_view()),
            decreases ul.len() - j,
        {
            let u = parent_node.unmerged_leaves[j];
            proof {
                assert(2 * (ul[j as int] as int) < self.ts().len());
            }
            let leaf_slot = &self.nodes[2 * (u as usize)];
            let ghost pre = resolution.deep_view();
            match &leaf_slot.node {
                Option::Some(Node::LeafNode(l)) => {
                    // find and remove the first occurrence of the leaf's key
                    let pk = &l.key_package.public_key;
                    proof {
                        assert(self.ts()[2 * (u as int)] == self.nodes@[2 * (u as int)]@);
                        assert(spec_leaf_pk(self.ts(), u) == pk@);
                        lemma_find_first(pre, pk@);
                    }
                    let mut i: usize = 0;
                    let mut found: bool = false;
                    while i < resolution.len() && !found
                        invariant
                            resolution.deep_view() == pre,
                            i <= pre.len(),
                            !found ==> forall|t: int| 0 <= t < i ==> pre[t] != pk@,
                            found ==> i < pre.len() && pre[i as int] == pk@ && (forall|t: int|
                                0 <= t < i ==> pre[t] != pk@),
                            pk@ == spec_leaf_pk(self.ts(), u),
                        decreases pre.len() - i + (if found { 0int } else { 1int }),
                    {
                        let eq = crate::codec::bytes_eq(&resolution[i], pk);
                        proof {
                            assert(pre[i as int] == resolution@[i as int]@);
                        }
                        if eq {
                            found = true;
                        } else {
                            i = i + 1;
                        }
                    }
                    proof {
                        lemma_find_first(pre, pk@);
                    }
                    if found {
                        resolution.remove(i);
                        proof {
                            assert(spec_find_first(pre, pk@) == i as int);
                            assert(resolution.deep_view() =~~= pre.remove(i as int));
                            assert(resolution.deep_view() == spec_remove_first(pre, pk@));
                        }
                    } else {
                        proof {
                            assert(forall|t: int| 0 <= t < pre.len() ==> pre[t] != pk@);
                            if spec_find_first(pre, pk@) >= 0 {
                                assert(pre[spec_find_first(pre, pk@)] == pk@);
                                assert(false);
                            }
                            assert(resolution.deep_view() == spec_remove_first(pre, pk@));
                        }
                    }
                },
                _ => {
                    proof {
                        assert(false);
                    }
                    return Result::Err(TreeSyncDiffError::LibraryError);
                },
            }
            proof {
                assert(ul.skip(j as int).drop_first() =~= ul.skip(j as int + 1));
                assert(ul.skip(j as int)[0] == ul[j as int]);
                assert(spec_filter_resolution(
                    self.ts(),
                    ul.skip(j as int),
                    pre,
                ) == spec_filter_resolution(
                    self.ts(),
                    ul.skip(j as int + 1),
                    spec_remove_first(pre, spec_leaf_pk(self.ts(), ul[j as int])),
                ));
            }
            j = j + 1;
        }
        proof {
            assert(ul.skip(ul.len() as int) =~= Seq::<u32>::empty());
        }
        Result::Ok(())
    }

    /// The resolutions of the copath of leaf `leaf_index`: for the leaf
    /// and each direct-path node below the root, the resolution of its
    /// sibling. A single-leaf tree has no copath.
    pub fn copath_resolutions(&self, leaf_index: u32, excluded: &Vec<u32>) -> (r: Result<
        Vec<Vec<Vec<u8>>>,
        TreeSyncDiffError,
    >)
        requires
            self.wf(),
        ensures
            r is Ok <==> (leaf_index as nat) < self.leaf_cnt(),
            r is Ok ==> (r->Ok_0).deep_view() == spec_copath_resolutions(
                self.ts(),
                2 * (leaf_index as nat),
                excluded@,
            ),
            r is Ok ==> (r->Ok_0)@.len() == spec_copath_width(
                2 * (leaf_index as nat),
                self.width(),
            ),
    {
        let n = self.leaf_count();
        if leaf_index >= n {
            return Result::Err(
                TreeSyncDiffError::TreeDiffError(MlsBinaryTreeDiffError::OutOfBounds),
            );
        }
        let w = self.nodes.len();
        let x = 2 * (leaf_index as usize);
        let root = crate::tree_math::exec_root(w);
        if x == root {
            let out: Vec<Vec<Vec<u8>>> = Vec::new();
            proof {
                assert(out.deep_view() =~~= spec_copath_resolutions(
                    self.ts(),
                    2 * (leaf_index as nat),
                    excluded@,
                ));
            }
            return Result::Ok(out);
        }
        // the full path: the leaf itself, then its direct path without
        // the root
        let dp = direct_path_indices(x, w);
        proof {
            crate::tree_math::lemma_direct_path_root(x as nat, w as nat);
            assert(seq_to_nat(dp@).len() == dp@.len());
        }
        let mut full_path: Vec<usize> = Vec::new();
        full_path.push(x);
        let last = dp.len() - 1;
        let mut t: usize = 0;
        while t < last
            invariant
                last == dp@.len() - 1,
                t <= last,
                seq_to_nat(dp@) == direct_path(x as nat, w as nat),
                full_path@.len() == t + 1,
                full_path@[0] == x,
                forall|i: int| 1 <= i <= t ==> full_path@[i] == dp@[i - 1],
            decreases last - t,
        {
            full_path.push(dp[t]);
            t = t + 1;
        }
        proof {
            assert(seq_to_nat(full_path@) =~= spec_full_path(x as nat, w as nat));
            // no full-path entry is the root: levels strictly increase
            // along the direct path, and only the last entry is the root
            lemma_path_from_levels(x as nat, (node_level(x as nat) + 1) as nat, w as nat);
            let d = path_from(x as nat, (node_level(x as nat) + 1) as nat, w as nat);
            assert(d == direct_path(x as nat, w as nat));
            assert(d[d.len() - 1] == crate::tree_math::root_index(w as nat));
            assert forall|i: int|
                0 <= i < full_path@.len() implies (#[trigger] full_path@[i]) < w && (
            full_path@[i] as nat) != crate::tree_math::root_index(w as nat) by {
                if i >= 1 {
                    assert(full_path@[i] == dp@[i - 1]);
                    assert(seq_to_nat(dp@)[i - 1] == dp@[i - 1] as nat);
                    assert(d[i - 1] == dp@[i - 1] as nat);
                    assert(i - 1 < d.len() - 1);
                    assert(node_level(d[i - 1]) < node_level(d[d.len() - 1]));
                }
            }
        }
        // resolve the sibling of every full-path node
        let mut out: Vec<Vec<Vec<u8>>> = Vec::new();
        let mut k: usize = 0;
        while k < full_path.len()
            invariant
                self.wf(),
                x < w == self.width(),
                w % 2 == 1,
                x as nat != crate::tree_math::root_index(w as nat),
                seq_to_nat(full_path@) == spec_full_path(x as nat, w as nat),
                full_path@.len() == spec_full_path(x as nat, w as nat).len(),
                k <= full_path@.len(),
                out.deep_view() =~~= spec_full_path(x as nat, w as nat).take(k as int).map_values(
                    |y: nat| spec_resolution(self.ts(), crate::tree_math::sibling(y, w as nat), excluded@),
                ),
                forall|i: int|
                    0 <= i < full_path@.len() ==> (#[trigger] full_path@[i]) < w && (
                    full_path@[i] as nat) != crate::tree_math::root_index(w as nat),
            decreases full_path@.len() - k,
        {
            let y = full_path[k];
            let sib = crate::tree_math::sibling_index(y, w);
            let res = self.resolution(sib, excluded)?;
            let ghost pre = out.deep_view();
            out.push(res);
            proof {
                let fp = spec_full_path(x as nat, w as nat);
                assert(seq_to_nat(full_path@)[k as int] == full_path@[k as int] as nat);
                assert(fp[k as int] == y as nat);
                assert(out.deep_view() =~~= pre.push(
                    spec_resolution(self.ts(), crate::tree_math::sibling(y as nat, w as nat), excluded@),
                ));
                assert(fp.take(k as int + 1) =~= fp.take(k as int).push(fp[k as int]));
                assert(out.deep_view() =~~= fp.take(k as int + 1).map_values(
                    |z: nat| spec_resolution(self.ts(), crate::tree_math::sibling(z, w as nat), excluded@),
                ));
            }
            k = k + 1;
        }
        proof {
            let fp = spec_full_path(x as nat, w as nat);
            assert(fp.take(fp.len() as int) =~= fp);
            assert(out.deep_view() =~~= spec_copath_resolutions(
                self.ts(),
                2 * (leaf_index as nat),
                excluded@,
            ));
        }
        Result::Ok(out)
    }
}

/// The nodes whose siblings form the copath of node `x`: `x` itself,
/// then its direct path with the root dropped.
pub open spec fn spec_full_path(x: nat, w: nat) -> Seq<nat> {
    seq![x] + direct_path(x, w).drop_last()
}

/// The number of copath entries of node `x`.
pub open spec fn spec_copath_width(x: nat, w: nat) -> nat {
    if x == crate::tree_math::root_index(w) {
        0
    } else {
        direct_path(x, w).len()
    }
}

/// The copath resolutions of node `x`: the resolution of the sibling of
/// every full-path entry.
pub open spec fn spec_copath_resolutions(
    ts: Seq<TreeSyncNodeV>,
    x: nat,
    excluded: Seq<u32>,
) -> Seq<Seq<Seq<u8>>> {
    if x == crate::tree_math::root_index(ts.len()) {
        Seq::empty()
    } else {
        spec_full_path(x, ts.len()).map_values(
            |y: nat| spec_resolution(ts, crate::tree_math::sibling(y, ts.len()), excluded),
        )
    }
}

} // verus!

verus! {

/// View of a parent-node vector.
pub open spec fn paths_view(p: Seq<ParentNode>) -> Seq<ParentNodeV> {
    p.map_values(|n: ParentNode| n@)
}

/// The parent hash stored into path entry `i` during the top-down
/// traversal: the entry below the root gets the empty hash, and each
/// entry below that gets the hash of the entry above it over that
/// entry's filtered copath resolution. Index `-1` stands for the leaf
/// itself, so `spec_ph_in(.., -1)` is the leaf's parent hash.
#[verifier::opaque]
pub open spec fn spec_ph_in<P: crate::crypto::CryptoProvider>(
    provider: P,
    ciphersuite: u16,
    ts: Seq<TreeSyncNodeV>,
    path: Seq<ParentNodeV>,
    res: Seq<Seq<Seq<u8>>>,
    i: int,
) -> Seq<u8>
    decreases path.len() - i,
{
    if i >= path.len() - 1 {
        Seq::empty()
    } else {
        crate::node::spec_parent_hash(
            provider,
            ciphersuite,
            spec_ph_in(provider, ciphersuite, ts, path, res, i + 1),
            spec_filter_resolution(ts, path[i + 1].unmerged_leaves, res[i + 1]),
        )
    }
}

/// Mapping a path-entry update through the view.
pub proof fn lemma_paths_view_update(s: Seq<ParentNode>, p: int, v: ParentNode)
    requires
        0 <= p < s.len(),
    ensures
        paths_view(s.update(p, v)) == paths_view(s).update(p, v@),
{
    assert(paths_view(s.update(p, v)) =~= paths_view(s).update(p, v@));
}

impl TreeSyncDiff {
    /// Stamp the parent hashes into `path`, assumed to be the new direct
    /// path of leaf `leaf_index`, walking top-down: each entry records
    /// the hash of the chain above it, computed over its filtered copath
    /// resolution. Returns the hash for the leaf itself. Fails when the
    /// path length does not match the leaf's copath.
    pub fn set_parent_hashes<P: crate::crypto::CryptoProvider>(
        &self,
        provider: &P,
        ciphersuite: u16,
        path: &mut Vec<ParentNode>,
        leaf_index: u32,
    ) -> (r: Result<Vec<u8>, TreeSyncDiffError>)
        requires
            self.wf(),
            (leaf_index as nat) < self.leaf_cnt(),
            forall|i: int|
                0 <= i < old(path)@.len() ==> unmerged_entries_in_tree(
                    self.ts(),
                    (#[trigger] old(path)@[i])@.unmerged_leaves,
                ),
        ensures
            r is Ok <==> old(path)@.len() == spec_copath_width(
                2 * (leaf_index as nat),
                self.width(),
            ),
            r is Err ==> final(path)@ == old(path)@ && r == Result::<Vec<u8>, TreeSyncDiffError>::Err(
                TreeSyncDiffError::PathLengthError,
            ),
            r is Ok ==> {
                let pv = paths_view(old(path)@);
                let res = spec_copath_resolutions(
                    self.ts(),
                    2 * (leaf_index as nat),
                    Seq::empty(),
                );
                &&& final(path)@.len() == old(path)@.len()
                &&& forall|i: int|
                    0 <= i < final(path)@.len() ==> (#[trigger] final(path)@[i])@ == (ParentNodeV {
                        parent_hash: spec_ph_in(*provider, ciphersuite, self.ts(), pv, res, i),
                        ..pv[i]
                    })
                &&& (r->Ok_0)@ == spec_ph_in(*provider, ciphersuite, self.ts(), pv, res, -1)
            },
    {
        let ghost pv = paths_view(path@);
        let excluded: Vec<u32> = Vec::new();
        proof {
            assert(excluded@ =~= Seq::<u32>::empty());
        }
        let copath_res_r = self.copath_resolutions(leaf_index, &excluded);
        let mut copath_res = match copath_res_r {
            Result::Ok(c) => c,
            Result::Err(_) => {
                proof {
                    assert(false);
                }
                return Result::Err(TreeSyncDiffError::LibraryError);
            },
        };
        let ghost resv = copath_res.deep_view();
        if path.len() != copath_res.len() {
            return Result::Err(TreeSyncDiffError::PathLengthError);
        }
        let mut prev: Vec<u8> = Vec::new();
        proof {
            reveal(spec_ph_in);
            assert(prev@ =~= Seq::<u8>::empty());
            assert(prev@ == spec_ph_in(
                *provider,
                ciphersuite,
                self.ts(),
                pv,
                resv,
                path@.len() - 1,
            ));
        }
        let mut i: usize = path.len();
        while i > 0
            invariant
                self.wf(),
                i <= path@.len(),
                path@.len() == pv.len(),
                copath_res@.len() == pv.len(),
                resv.len() == pv.len(),
                prev@ == spec_ph_in(*provider, ciphersuite, self.ts(), pv, resv, i as int - 1),
                forall|j: int| 0 <= j < i ==> (#[trigger] path@[j])@ == pv[j],
                forall|j: int|
                    i <= j < path@.len() ==> (#[trigger] path@[j])@ == (ParentNodeV {
                        parent_hash: spec_ph_in(
                            *provider,
                            ciphersuite,
                            self.ts(),
                            pv,
                            resv,
                            j,
                        ),
                        ..pv[j]
                    }),
                forall|j: int|
                    0 <= j < i ==> #[trigger] copath_res@[j].deep_view() == resv[j],
                forall|j: int|
                    0 <= j < pv.len() ==> unmerged_entries_in_tree(
                        self.ts(),
                        (#[trigger] pv[j]).unmerged_leaves,
                    ),
            decreases i,
        {
            i = i - 1;
            // stamp the chain hash computed so far into this entry
            let ph_copy = crate::codec::copy_bytes(&prev);
            let ghost path_pre = path@;
            let entry = &mut path[i];
            entry.set_parent_hash(ph_copy);
            proof {
                lemma_paths_view_update(path_pre, i as int, path@[i as int]);
                assert(path@ =~= path_pre.update(i as int, path@[i as int]));
                assert(path@[i as int]@ == (ParentNodeV { parent_hash: prev@, ..pv[i as int] }));
            }
            // filter this entry's unmerged leaves out of its resolution
            let fr = self.filter_resolution(&path[i], &mut copath_res[i]);
            proof {
                assert(fr is Ok);
                assert(copath_res@[i as int].deep_view() == spec_filter_resolution(
                    self.ts(),
                    pv[i as int].unmerged_leaves,
                    resv[i as int],
                ));
            }
            // hash this entry over its filtered resolution
            let mut input: Vec<u8> = Vec::new();
            crate::codec::append_enc_bytes(&mut input, &prev);
            crate::codec::append_enc_bytes_list(&mut input, &copath_res[i]);
            proof {
                assert(input@ =~= crate::node::spec_parent_hash_input(
                    prev@,
                    copath_res@[i as int].deep_view(),
                ));
            }
            prev = provider.hash(ciphersuite, &input);
            proof {
                reveal(spec_ph_in);
                assert(prev@ == spec_ph_in(
                    *provider,
                    ciphersuite,
                    self.ts(),
                    pv,
                    resv,
                    i as int - 1,
                ));
            }
        }
        Result::Ok(prev)
    }
}

} // verus!

verus! {

/// The subtree hash reads only node contents: trees that agree on every
/// slot's node agree on every subtree hash.
pub proof fn lemma_subtree_hash_frame<P: crate::crypto::CryptoProvider>(
    provider: P,
    ciphersuite: u16,
    ts1: Seq<TreeSyncNodeV>,
    ts2: Seq<TreeSyncNodeV>,
    x: nat,
)
    requires
        ts1.len() == ts2.len(),
        ts1.len() % 2 == 1,
        x < ts1.len(),
        forall|i: int| 0 <= i < ts1.len() ==> (#[trigger] ts1[i]).node == ts2[i].node,
    ensures
        crate::treesync::spec_subtree_hash(provider, ciphersuite, ts1, x)
            == crate::treesync::spec_subtree_hash(provider, ciphersuite, ts2, x),
    decreases node_level(x),
{
    reveal(crate::treesync::spec_subtree_hash);
    if x % 2 == 0 {
    } else {
        lemma_odd_level(x);
        crate::tree_math::lemma_left_child(x);
        lemma_odd_level((ts1.len() - 1) as nat);
        assert(x != ts1.len() - 1);
        crate::tree_math::lemma_right_child(x, ts1.len());
        lemma_subtree_hash_frame(provider, ciphersuite, ts1, ts2, crate::tree_math::left_child(x));
        lemma_subtree_hash_frame(
            provider,
            ciphersuite,
            ts1,
            ts2,
            crate::tree_math::right_child(x, ts1.len()),
        );
    }
}

/// Caching one correct subtree hash keeps every cached hash correct.
pub proof fn lemma_cache_ok_after_recache<P: crate::crypto::CryptoProvider>(
    provider: P,
    ciphersuite: u16,
    pre: Seq<TreeSyncNodeV>,
    post: Seq<TreeSyncNodeV>,
    x: int,
    h: Seq<u8>,
)
    requires
        pre.len() == post.len(),
        pre.len() % 2 == 1,
        0 <= x < pre.len(),
        crate::treesync::cache_ok(provider, ciphersuite, pre),
        forall|i: int| 0 <= i < pre.len() ==> (#[trigger] post[i]).node == pre[i].node,
        forall|i: int| 0 <= i < pre.len() && i != x ==> (#[trigger] post[i]).tree_hash == pre[i].tree_hash,
        post[x].tree_hash == Option::Some(h),
        h == crate::treesync::spec_subtree_hash(provider, ciphersuite, pre, x as nat),
    ensures
        crate::treesync::cache_ok(provider, ciphersuite, post),
{
    assert forall|i: int|
        0 <= i < post.len() && #[trigger] post[i].tree_hash is Some implies post[i].tree_hash->0
        == crate::treesync::spec_subtree_hash(provider, ciphersuite, post, i as nat) by {
        lemma_subtree_hash_frame(provider, ciphersuite, pre, post, i as nat);
    }
}

impl TreeSyncDiff {
    /// Compute (and cache) the tree hash of the subtree rooted at slot
    /// `x`. Cached hashes of unchanged subtrees are reused.
    /// Compute and cache the hash of one slot from its position and the
    /// child hashes.
    #[verifier::rlimit(100)]
    #[verifier::spinoff_prover]
    fn recache_slot<P: crate::crypto::CryptoProvider>(
        &mut self,
        provider: &P,
        ciphersuite: u16,
        x: usize,
        leaf_index: Option<u32>,
        node_index: u64,
        left_hash: Vec<u8>,
        right_hash: Vec<u8>,
    ) -> (r: Vec<u8>)
        requires
            old(self).width() % 2 == 1,
            crate::treesync::cache_ok(*provider, ciphersuite, old(self).ts()),
            x < old(self).width(),
            crate::node::spec_node_hash(
                *provider,
                ciphersuite,
                leaf_index,
                node_index,
                old(self).ts()[x as int].node,
                left_hash@,
                right_hash@,
            ) == crate::treesync::spec_subtree_hash(
                *provider,
                ciphersuite,
                old(self).ts(),
                x as nat,
            ),
        ensures
            r@ == crate::treesync::spec_subtree_hash(
                *provider,
                ciphersuite,
                old(self).ts(),
                x as nat,
            ),
            final(self).width() == old(self).width(),
            final(self).own_leaf_index == old(self).own_leaf_index,
            forall|i: int|
                0 <= i < final(self).width() ==> (#[trigger] final(self).ts()[i]).node == old(
                    self,
                ).ts()[i].node,
            forall|i: int|
                0 <= i < final(self).width() && i != x ==> (#[trigger] final(self).ts()[i]).tree_hash
                    == old(self).ts()[i].tree_hash,
            crate::treesync::cache_ok(*provider, ciphersuite, final(self).ts()),
    {
        let ghost pre = self.ts();
        let ghost nodes_pre = self.nodes@;
        let slot = &mut self.nodes[x];
        let r = slot.compute_tree_hash(
            provider,
            ciphersuite,
            leaf_index,
            node_index,
            left_hash,
            right_hash,
        );
        proof {
            lemma_nodes_view_update(nodes_pre, x as int, self.nodes@[x as int]);
            assert(self.nodes@ =~= nodes_pre.update(x as int, self.nodes@[x as int]));
            assert(r@ == crate::treesync::spec_subtree_hash(*provider, ciphersuite, pre, x as nat));
            lemma_cache_ok_after_recache(*provider, ciphersuite, pre, self.ts(), x as int, r@);
        }
        r
    }

    /// Compute (and cache) the tree hash of the subtree rooted at slot
    /// `x`. Cached hashes of unchanged subtrees are reused.
    #[verifier::rlimit(100)]
    #[verifier::spinoff_prover]
    pub fn set_tree_hash<P: crate::crypto::CryptoProvider>(
        &mut self,
        provider: &P,
        ciphersuite: u16,
        x: usize,
    ) -> (r: Vec<u8>)
        requires
            old(self).width() % 2 == 1,
            old(self).width() <= MAX_NODE_WIDTH,
            crate::treesync::cache_ok(*provider, ciphersuite, old(self).ts()),
            x < old(self).width(),
        ensures
            r@ == crate::treesync::spec_subtree_hash(
                *provider,
                ciphersuite,
                old(self).ts(),
                x as nat,
            ),
            final(self).width() == old(self).width(),
            final(self).own_leaf_index == old(self).own_leaf_index,
            forall|i: int|
                0 <= i < final(self).width() ==> (#[trigger] final(self).ts()[i]).node == old(
                    self,
                ).ts()[i].node,
            crate::treesync::cache_ok(*provider, ciphersuite, final(self).ts()),
        decreases node_level(x as nat),
    {
        proof {
            reveal(crate::treesync::spec_subtree_hash);
        }
        let ghost pre = self.ts();
        if x % 2 == 0 {
            let li = (x / 2) as u32;
            self.recache_slot(provider, ciphersuite, x, Option::Some(li), 0, Vec::new(), Vec::new())
        } else {
            // reuse a cached hash if one is present
            let cached = match &self.nodes[x].tree_hash {
                Option::Some(h) => Option::Some(crate::codec::copy_bytes(h)),
                Option::None => Option::None,
            };
            match cached {
                Option::Some(h) => {
                    proof {
                        assert(self.ts()[x as int].tree_hash is Some);
                    }
                    h
                },
                Option::None => {
                    proof {
                        lemma_odd_level(x as nat);
                        crate::tree_math::lemma_left_child(x as nat);
                        lemma_odd_level((self.width() - 1) as nat);
                        assert(x != self.width() - 1);
                        crate::tree_math::lemma_right_child(x as nat, self.width());
                    }
                    let lc = crate::tree_math::left_child_index(x);
                    let rc = crate::tree_math::right_child_index(x, self.nodes.len());
                    proof {
                        crate::tree_math::lemma_right_child_level_bound(
                            x as nat,
                            (node_level(x as nat) - 1) as nat,
                            self.width(),
                        );
                    }
                    let lh = self.set_tree_hash(provider, ciphersuite, lc);
                    let ghost mid = self.ts();
                    let rh = self.set_tree_hash(provider, ciphersuite, rc);
                    let ghost mid2 = self.ts();
                    proof {
                        lemma_subtree_hash_frame(*provider, ciphersuite, pre, mid, rc as nat);
                        lemma_subtree_hash_frame(*provider, ciphersuite, pre, mid2, x as nat);
                    }
                    proof {
                        assert(crate::node::spec_node_hash(
                            *provider,
                            ciphersuite,
                            Option::<u32>::None,
                            x as u64,
                            mid2[x as int].node,
                            lh@,
                            rh@,
                        ) == crate::treesync::spec_subtree_hash(
                            *provider,
                            ciphersuite,
                            mid2,
                            x as nat,
                        ));
                    }
                    let r = self.recache_slot(
                        provider,
                        ciphersuite,
                        x,
                        Option::None,
                        x as u64,
                        lh,
                        rh,
                    );
                    proof {
                        assert(r@ == crate::treesync::spec_subtree_hash(
                            *provider,
                            ciphersuite,
                            pre,
                            x as nat,
                        ));
                    }
                    r
                },
            }
        }
    }

    /// The tree hash of the whole working array, caching as it goes.
    pub fn compute_tree_hash<P: crate::crypto::CryptoProvider>(
        &mut self,
        provider: &P,
        ciphersuite: u16,
    ) -> (r: Vec<u8>)
        requires
            old(self).wf(),
            crate::treesync::cache_ok(*provider, ciphersuite, old(self).ts()),
        ensures
            r@ == crate::treesync::spec_subtree_hash(
                *provider,
                ciphersuite,
                old(self).ts(),
                crate::tree_math::root_index(old(self).width()),
            ),
            final(self).width() == old(self).width(),
            final(self).own_leaf_index == old(self).own_leaf_index,
            forall|i: int|
                0 <= i < final(self).width() ==> (#[trigger] final(self).ts()[i]).node == old(
                    self,
                ).ts()[i].node,
            final(self).wf(),
            crate::treesync::cache_ok(*provider, ciphersuite, final(self).ts()),
    {
        let root = crate::tree_math::exec_root(self.nodes.len());
        let r = self.set_tree_hash(provider, ciphersuite, root);
        proof {
            crate::treesync::lemma_wf_nodes_only(old(self).ts(), self.ts(), self.own());
        }
        r
    }

    /// Finish this diff: compute the new tree hash and produce the
    /// staged, merge-able record.
    pub fn into_staged_diff<P: crate::crypto::CryptoProvider>(
        self,
        provider: &P,
        ciphersuite: u16,
    ) -> (r: StagedTreeSyncDiff)
        requires
            self.wf(),
            crate::treesync::cache_ok(*provider, ciphersuite, self.ts()),
        ensures
            r.new_tree_hash@ == crate::treesync::spec_subtree_hash(
                *provider,
                ciphersuite,
                self.ts(),
                crate::tree_math::root_index(self.width()),
            ),
            nodes_view(r.diff@).len() == self.width(),
            forall|i: int|
                0 <= i < self.width() ==> (#[trigger] nodes_view(r.diff@)[i]).node
                    == self.ts()[i].node,
            tree_wf(nodes_view(r.diff@), self.own()),
            crate::treesync::cache_ok(*provider, ciphersuite, nodes_view(r.diff@)),
    {
        let mut d = self;
        let new_tree_hash = d.compute_tree_hash(provider, ciphersuite);
        StagedTreeSyncDiff { diff: d.nodes, new_tree_hash }
    }
}

} // verus!

verus! {

impl TreeSyncDiff {
    /// Install `path` as the direct path of leaf `leaf_index`: slot `j`
    /// of the direct path receives path entry `j`, with no cached hash.
    /// Fails when the path length does not match.
    pub fn set_direct_path(&mut self, leaf_index: u32, path: &Vec<ParentNode>) -> (r: Result<
        (),
        TreeSyncDiffError,
    >)
        requires
            tree_shape_ok(old(self).ts()),
            (leaf_index as nat) < old(self).leaf_cnt(),
        ensures
            final(self).own_leaf_index == old(self).own_leaf_index,
            final(self).width() == old(self).width(),
            r is Ok <==> path@.len() == direct_path(
                2 * (leaf_index as nat),
                old(self).width(),
            ).len(),
            r is Err ==> final(self).ts() == old(self).ts() && r == Result::<
                (),
                TreeSyncDiffError,
            >::Err(TreeSyncDiffError::PathLengthError),
            r is Ok ==> {
                let dp = direct_path(2 * (leaf_index as nat), old(self).width());
                &&& forall|j: int|
                    0 <= j < dp.len() ==> final(self).ts()[#[trigger] dp[j] as int]
                        == (TreeSyncNodeV {
                        node: Option::Some(NodeV::ParentNode(paths_view(path@)[j])),
                        tree_hash: Option::None,
                    })
                &&& forall|i: int|
                    0 <= i < old(self).width() && !dp.contains(i as nat) ==> final(self).ts()[i]
                        == old(self).ts()[i]
            },
    {
        let w = self.nodes.len();
        let x = 2 * (leaf_index as usize);
        let ghost orig = self.ts();
        let dp = direct_path_indices(x, w);
        proof {
            lemma_path_from_levels(x as nat, (node_level(x as nat) + 1) as nat, w as nat);
            let d = path_from(x as nat, (node_level(x as nat) + 1) as nat, w as nat);
            assert(seq_to_nat(dp@) == d);
            assert forall|a: int, b: int| 0 <= a < b < dp@.len() implies node_level(
                #[trigger] dp@[a] as nat,
            ) < node_level(#[trigger] dp@[b] as nat) by {
                assert(d[a] == seq_to_nat(dp@)[a] == dp@[a] as nat);
                assert(d[b] == seq_to_nat(dp@)[b] == dp@[b] as nat);
            }
        }
        if path.len() != dp.len() {
            return Result::Err(TreeSyncDiffError::PathLengthError);
        }
        let mut k: usize = 0;
        while k < dp.len()
            invariant
                seq_to_nat(dp@) == direct_path(x as nat, old(self).width()),
                forall|a: int| 0 <= a < dp@.len() ==> dp@[a] < old(self).width(),
                forall|a: int, b: int|
                    0 <= a < b < dp@.len() ==> node_level(#[trigger] dp@[a] as nat) < node_level(
                        #[trigger] dp@[b] as nat,
                    ),
                k <= dp@.len(),
                path@.len() == dp@.len(),
                orig == old(self).ts(),
                self.width() == old(self).width(),
                self.own_leaf_index == old(self).own_leaf_index,
                x < old(self).width() <= MAX_NODE_WIDTH,
                forall|j: int|
                    0 <= j < k ==> self.ts()[#[trigger] dp@[j] as int] == (TreeSyncNodeV {
                        node: Option::Some(NodeV::ParentNode(paths_view(path@)[j])),
                        tree_hash: Option::None,
                    }),
                forall|j: int|
                    k <= j < dp@.len() ==> self.ts()[#[trigger] dp@[j] as int] == orig[dp@[j] as int],
                forall|i: int|
                    0 <= i < old(self).width() && !direct_path(x as nat, old(self).width()).contains(
                        i as nat,
                    ) ==> self.ts()[i] == orig[i],
            decreases dp@.len() - k,
        {
            let p = dp[k];
            let ghost pre = self.nodes@;
            proof {
                assert(seq_to_nat(dp@)[k as int] == dp@[k as int] as nat);
                assert(direct_path(x as nat, old(self).width()).contains(dp@[k as int] as nat));
            }
            self.nodes[p] = TreeSyncNode::from_node(Node::ParentNode(path[k].duplicate()));
            proof {
                lemma_nodes_view_update(pre, p as int, self.nodes@[p as int]);
                assert(self.nodes@ =~= pre.update(p as int, self.nodes@[p as int]));
                assert(self.ts()[p as int] == (TreeSyncNodeV {
                    node: Option::Some(NodeV::ParentNode(paths_view(path@)[k as int])),
                    tree_hash: Option::None,
                }));
                assert forall|j: int| 0 <= j < dp@.len() && j != k implies dp@[j] != dp@[k as int] by {
                    if j < k {
                        assert(node_level(dp@[j] as nat) < node_level(dp@[k as int] as nat));
                    } else {
                        assert(node_level(dp@[k as int] as nat) < node_level(dp@[j] as nat));
                    }
                }
            }
            k = k + 1;
        }
        proof {
            let d = direct_path(x as nat, old(self).width());
            assert forall|j: int|
                0 <= j < d.len() implies self.ts()[#[trigger] d[j] as int] == (TreeSyncNodeV {
                node: Option::Some(NodeV::ParentNode(paths_view(path@)[j])),
                tree_hash: Option::None,
            }) by {
                assert(seq_to_nat(dp@)[j] == dp@[j] as nat);
                assert(d[j] == dp@[j] as nat);
            }
        }
        Result::Ok(())
    }

    /// Compute the parent hashes over `path`, install it as the direct
    /// path of leaf `leaf_index`, and return the leaf's parent hash.
    pub fn process_update_path<P: crate::crypto::CryptoProvider>(
        &mut self,
        provider: &P,
        ciphersuite: u16,
        leaf_index: u32,
        path: Vec<ParentNode>,
    ) -> (r: Result<Vec<u8>, TreeSyncDiffError>)
        requires
            old(self).wf(),
            (leaf_index as nat) < old(self).leaf_cnt(),
            forall|i: int|
                0 <= i < path@.len() ==> unmerged_entries_in_tree(
                    old(self).ts(),
                    (#[trigger] path@[i])@.unmerged_leaves,
                ),
        ensures
            final(self).own_leaf_index == old(self).own_leaf_index,
            final(self).width() == old(self).width(),
            r is Ok <==> path@.len() == direct_path(
                2 * (leaf_index as nat),
                old(self).width(),
            ).len(),
            r is Err ==> final(self).ts() == old(self).ts() && r == Result::<
                Vec<u8>,
                TreeSyncDiffError,
            >::Err(TreeSyncDiffError::PathLengthError),
            r is Ok ==> {
                let pv = paths_view(path@);
                let res = spec_copath_resolutions(
                    old(self).ts(),
                    2 * (leaf_index as nat),
                    Seq::empty(),
                );
                let dp = direct_path(2 * (leaf_index as nat), old(self).width());
                &&& (r->Ok_0)@ == spec_ph_in(*provider, ciphersuite, old(self).ts(), pv, res, -1)
                &&& forall|j: int|
                    0 <= j < dp.len() ==> final(self).ts()[#[trigger] dp[j] as int]
                        == (TreeSyncNodeV {
                        node: Option::Some(
                            NodeV::ParentNode(
                                ParentNodeV {
                                    parent_hash: spec_ph_in(
                                        *provider,
                                        ciphersuite,
                                        old(self).ts(),
                                        pv,
                                        res,
                                        j,
                                    ),
                                    ..pv[j]
                                },
                            ),
                        ),
                        tree_hash: Option::None,
                    })
                &&& forall|i: int|
                    0 <= i < old(self).width() && !dp.contains(i as nat) ==> final(self).ts()[i]
                        == old(self).ts()[i]
            },
    {
        let ghost pv = paths_view(path@);
        let mut path = path;
        // copath width and direct-path length agree, so a mismatch in
        // either reports the same failure
        proof {
            lemma_copath_width_is_direct_path_len(
                2 * (leaf_index as nat),
                old(self).width(),
            );
        }
        let parent_hash = self.set_parent_hashes(provider, ciphersuite, &mut path, leaf_index)?;
        let r = self.set_direct_path(leaf_index, &path);
        proof {
            assert(r is Ok);
        }
        Result::Ok(parent_hash)
    }
}

/// The copath of a leaf inside the tree has exactly one entry per
/// direct-path node.
pub proof fn lemma_copath_width_is_direct_path_len(x: nat, w: nat)
    requires
        w % 2 == 1,
        w >= 1,
        x < w,
        x % 2 == 0,
    ensures
        spec_copath_width(x, w) == direct_path(x, w).len(),
{
    crate::tree_math::lemma_direct_path_root(x, w);
    if x == crate::tree_math::root_index(w) {
        assert(direct_path(x, w) == Seq::<nat>::empty());
    } else {
        assert(spec_copath_width(x, w) == direct_path(x, w).len());
    }
}

} // verus!

verus! {

/// A received path with every entry's unmerged leaves cleared.
pub open spec fn spec_cleared_path(p: Seq<ParentNodeV>) -> Seq<ParentNodeV> {
    Seq::new(p.len(), |j: int| ParentNodeV { unmerged_leaves: Seq::empty(), ..p[j] })
}

/// The parent-node views of a freshly derived direct path.
pub open spec fn spec_derived_path<P: crate::crypto::CryptoProvider>(
    provider: P,
    ciphersuite: u16,
    s1: Seq<u8>,
    len: nat,
) -> Seq<ParentNodeV> {
    Seq::new(len, |k: int| crate::node::spec_derived_parent_node(provider, ciphersuite, s1, k as nat))
}

impl TreeSyncDiff {
    /// Create a fresh update path for the owner's leaf: derive one key
    /// pair per direct-path level from the payload's leaf secret, stamp
    /// the parent hashes, sign the key package, and install leaf and
    /// path. Returns the signed bundle, the plaintext path nodes for the
    /// copath encryption, and the commit secret.
    pub fn apply_own_update_path<P: crate::crypto::CryptoProvider>(
        &mut self,
        provider: &P,
        ciphersuite: u16,
        key_package_bundle_payload: crate::node::KeyPackageBundlePayload,
        credential_bundle: &Vec<u8>,
    ) -> (r: Result<
        (crate::node::KeyPackageBundle, Vec<crate::node::PlainUpdatePathNode>, crate::node::CommitSecret),
        TreeSyncDiffError,
    >)
        requires
            old(self).wf(),
        ensures
            r is Ok,
            final(self).own_leaf_index == old(self).own_leaf_index,
            final(self).width() == old(self).width(),
            r is Ok ==> {
                let own = old(self).own();
                let w = old(self).width();
                let s1 = provider.spec_derive_path_secret(
                    ciphersuite,
                    key_package_bundle_payload.leaf_secret@,
                );
                let len = direct_path(2 * own, w).len();
                let pv = spec_derived_path(*provider, ciphersuite, s1, len);
                let res = spec_copath_resolutions(old(self).ts(), 2 * own, Seq::empty());
                let ph = spec_ph_in(*provider, ciphersuite, old(self).ts(), pv, res, -1);
                let kp = crate::node::KeyPackageV {
                    public_key: key_package_bundle_payload.public_key@,
                    credential: key_package_bundle_payload.credential@,
                    parent_hash: Option::Some(ph),
                    signature: provider.spec_sign(
                        ciphersuite,
                        crate::node::spec_key_package_payload(
                            crate::node::KeyPackageV {
                                public_key: key_package_bundle_payload.public_key@,
                                credential: key_package_bundle_payload.credential@,
                                parent_hash: Option::Some(ph),
                                signature: Seq::empty(),
                            },
                        ),
                        credential_bundle@,
                    ),
                };
                let bundle = r->Ok_0.0;
                let update_nodes = r->Ok_0.1;
                let commit = r->Ok_0.2;
                &&& bundle.key_package@ == kp
                &&& bundle.private_key@ == key_package_bundle_payload.private_key@
                &&& bundle.leaf_secret@ == key_package_bundle_payload.leaf_secret@
                &&& commit.secret@ == crate::node::spec_secret_chain(
                    *provider,
                    ciphersuite,
                    s1,
                    len,
                )
                &&& update_nodes@.len() == len
                &&& forall|k: int|
                    0 <= k < len ==> (#[trigger] update_nodes@[k]).public_key@
                        == provider.spec_derive_public(
                        ciphersuite,
                        crate::node::spec_secret_chain(*provider, ciphersuite, s1, k as nat),
                    ) && update_nodes@[k].path_secret@ == crate::node::spec_secret_chain(
                        *provider,
                        ciphersuite,
                        s1,
                        k as nat,
                    )
                &&& final(self).ts()[2 * (own as int)] == (TreeSyncNodeV {
                    node: Option::Some(
                        NodeV::LeafNode(
                            crate::node::LeafNodeV { key_package: kp, private_key: Option::None },
                        ),
                    ),
                    tree_hash: Option::None,
                })
                &&& forall|j: int|
                    0 <= j < len ==> final(self).ts()[#[trigger] direct_path(2 * own, w)[j] as int]
                        == (TreeSyncNodeV {
                        node: Option::Some(
                            NodeV::ParentNode(
                                ParentNodeV {
                                    parent_hash: spec_ph_in(
                                        *provider,
                                        ciphersuite,
                                        old(self).ts(),
                                        pv,
                                        res,
                                        j,
                                    ),
                                    ..pv[j]
                                },
                            ),
                        ),
                        tree_hash: Option::None,
                    })
                &&& forall|i: int|
                    0 <= i < w && i != 2 * own && !direct_path(2 * own, w).contains(i as nat)
                        ==> final(self).ts()[i] == old(self).ts()[i]
            },
    {
        let mut payload = key_package_bundle_payload;
        let ghost own = self.own();
        let ghost w = self.width();
        let path_secret = provider.derive_path_secret(ciphersuite, &payload.leaf_secret);
        let ghost s1 = path_secret@;
        let own_node = 2 * (self.own_leaf_index as usize);
        let dp = direct_path_indices(own_node, self.nodes.len());
        let path_length = dp.len();
        proof {
            assert(seq_to_nat(dp@).len() == direct_path(2 * own, w).len());
        }
        let (path, update_nodes, commit_secret) = ParentNode::derive_path(
            provider,
            ciphersuite,
            path_secret,
            path_length,
        );
        proof {
            assert(paths_view(path@) =~= spec_derived_path(
                *provider,
                ciphersuite,
                s1,
                direct_path(2 * own, w).len(),
            ));
            assert forall|i: int|
                0 <= i < path@.len() implies unmerged_entries_in_tree(
                self.ts(),
                (#[trigger] path@[i])@.unmerged_leaves,
            ) by {
                assert(path@[i]@.unmerged_leaves.len() == 0);
            }
        }
        let parent_hash = match self.process_update_path(
            provider,
            ciphersuite,
            self.own_leaf_index,
            path,
        ) {
            Result::Ok(h) => h,
            Result::Err(_) => {
                proof {
                    assert(false);
                }
                return Result::Err(TreeSyncDiffError::LibraryError);
            },
        };
        payload.update_parent_hash(&parent_hash);
        let bundle = payload.sign(provider, ciphersuite, credential_bundle);
        // the owner's new leaf holds the signed key package; the private
        // key stays in the returned bundle
        let leaf = LeafNode {
            key_package: bundle.key_package.duplicate(),
            private_key: Option::None,
        };
        let ghost mid = self.nodes@;
        self.nodes[own_node] = TreeSyncNode::from_node(Node::LeafNode(leaf));
        proof {
            lemma_nodes_view_update(mid, own_node as int, self.nodes@[own_node as int]);
            assert(self.nodes@ =~= mid.update(own_node as int, self.nodes@[own_node as int]));
            assert forall|j: int|
                0 <= j < direct_path(2 * own, w).len() implies 2 * (own as int) != (
            #[trigger] direct_path(2 * own, w)[j]) as int by {
                lemma_path_from_levels(2 * own, (node_level(2 * own) + 1) as nat, w);
            }
        }
        Result::Ok((bundle, update_nodes, commit_secret))
    }
}

} // verus!

verus! {

impl TreeSyncDiff {
    /// Re-create the owner's update path from an already-signed bundle,
    /// in the course of applying the owner's own commit: derive the same
    /// path, recompute the parent hash, and check it against the
    /// bundle's parent-hash extension. On success the owner's leaf is
    /// replaced by the bundle's leaf, private key included, and the
    /// commit secret is returned.
    #[verifier::rlimit(100)]
    #[verifier::spinoff_prover]
    pub fn re_apply_own_update_path<P: crate::crypto::CryptoProvider>(
        &mut self,
        provider: &P,
        ciphersuite: u16,
        key_package_bundle: &crate::node::KeyPackageBundle,
    ) -> (r: Result<crate::node::CommitSecret, TreeSyncDiffError>)
        requires
            old(self).wf(),
        ensures
            final(self).own_leaf_index == old(self).own_leaf_index,
            final(self).width() == old(self).width(),
            ({
                let own = old(self).own();
                let w = old(self).width();
                let s1 = provider.spec_derive_path_secret(
                    ciphersuite,
                    key_package_bundle.leaf_secret@,
                );
                let len = direct_path(2 * own, w).len();
                let pv = spec_derived_path(*provider, ciphersuite, s1, len);
                let res = spec_copath_resolutions(old(self).ts(), 2 * own, Seq::empty());
                let ph = spec_ph_in(*provider, ciphersuite, old(self).ts(), pv, res, -1);
                &&& (r is Ok <==> key_package_bundle.key_package@.parent_hash == Option::Some(ph))
                &&& (key_package_bundle.key_package@.parent_hash is None ==> r == Result::<
                    crate::node::CommitSecret,
                    TreeSyncDiffError,
                >::Err(TreeSyncDiffError::MissingParentHash))
                &&& (key_package_bundle.key_package@.parent_hash is Some
                    && key_package_bundle.key_package@.parent_hash != Option::Some(ph) ==> r
                    == Result::<crate::node::CommitSecret, TreeSyncDiffError>::Err(
                    TreeSyncDiffError::ParentHashMismatch,
                ))
                &&& (r is Ok ==> (r->Ok_0).secret@ == crate::node::spec_secret_chain(
                    *provider,
                    ciphersuite,
                    s1,
                    len,
                ))
                &&& forall|j: int|
                    0 <= j < len ==> final(self).ts()[#[trigger] direct_path(2 * own, w)[j] as int]
                        == (TreeSyncNodeV {
                        node: Option::Some(
                            NodeV::ParentNode(
                                ParentNodeV {
                                    parent_hash: spec_ph_in(
                                        *provider,
                                        ciphersuite,
                                        old(self).ts(),
                                        pv,
                                        res,
                                        j,
                                    ),
                                    ..pv[j]
                                },
                            ),
                        ),
                        tree_hash: Option::None,
                    })
                &&& (r is Ok ==> final(self).ts()[2 * (own as int)] == (TreeSyncNodeV {
                    node: Option::Some(
                        NodeV::LeafNode(
                            crate::node::LeafNodeV {
                                key_package: key_package_bundle.key_package@,
                                private_key: Option::Some(key_package_bundle.private_key@),
                            },
                        ),
                    ),
                    tree_hash: Option::None,
                }))
                &&& (r is Err ==> final(self).ts()[2 * (own as int)] == old(self).ts()[2 * (
                own as int)])
                &&& forall|i: int|
                    0 <= i < w && i != 2 * own && !direct_path(2 * own, w).contains(i as nat)
                        ==> final(self).ts()[i] == old(self).ts()[i]
            }),
    {
        let ghost own = self.own();
        let ghost w = self.width();
        let path_secret = provider.derive_path_secret(ciphersuite, &key_package_bundle.leaf_secret);
        let ghost s1 = path_secret@;
        let own_node = 2 * (self.own_leaf_index as usize);
        let dp = direct_path_indices(own_node, self.nodes.len());
        let path_length = dp.len();
        proof {
            assert(seq_to_nat(dp@).len() == direct_path(2 * own, w).len());
        }
        let (path, _update_nodes, commit_secret) = ParentNode::derive_path(
            provider,
            ciphersuite,
            path_secret,
            path_length,
        );
        proof {
            assert(paths_view(path@) =~= spec_derived_path(
                *provider,
                ciphersuite,
                s1,
                direct_path(2 * own, w).len(),
            ));
            assert forall|i: int|
                0 <= i < path@.len() implies unmerged_entries_in_tree(
                self.ts(),
                (#[trigger] path@[i])@.unmerged_leaves,
            ) by {
                assert(path@[i]@.unmerged_leaves.len() == 0);
            }
        }
        let parent_hash = match self.process_update_path(
            provider,
            ciphersuite,
            self.own_leaf_index,
            path,
        ) {
            Result::Ok(h) => h,
            Result::Err(_) => {
                proof {
                    assert(false);
                }
                return Result::Err(TreeSyncDiffError::LibraryError);
            },
        };
        proof {
            assert forall|j: int|
                0 <= j < direct_path(2 * own, w).len() implies 2 * (own as int) != (
            #[trigger] direct_path(2 * own, w)[j]) as int by {
                lemma_path_from_levels(2 * own, (node_level(2 * own) + 1) as nat, w);
            }
        }
        // the recomputed parent hash must match the bundle's extension
        match &key_package_bundle.key_package.parent_hash {
            Option::None => Result::Err(TreeSyncDiffError::MissingParentHash),
            Option::Some(declared) => {
                if !crate::codec::bytes_eq(declared, &parent_hash) {
                    return Result::Err(TreeSyncDiffError::ParentHashMismatch);
                }
                let leaf = LeafNode {
                    key_package: key_package_bundle.key_package.duplicate(),
                    private_key: Option::Some(
                        crate::codec::copy_bytes(&key_package_bundle.private_key),
                    ),
                };
                let ghost mid = self.nodes@;
                self.nodes[own_node] = TreeSyncNode::from_node(Node::LeafNode(leaf));
                proof {
                    lemma_nodes_view_update(mid, own_node as int, self.nodes@[own_node as int]);
                    assert(self.nodes@ =~= mid.update(
                        own_node as int,
                        self.nodes@[own_node as int],
                    ));
                }
                Result::Ok(commit_secret)
            },
        }
    }

    /// Install an update path received from the sender at
    /// `sender_leaf_index`: the path nodes' unmerged leaves are cleared,
    /// the parent hashes are recomputed and checked against the sender
    /// key package's parent-hash extension, and the sender's leaf is
    /// replaced.
    #[verifier::rlimit(100)]
    #[verifier::spinoff_prover]
    pub fn apply_received_update_path<P: crate::crypto::CryptoProvider>(
        &mut self,
        provider: &P,
        ciphersuite: u16,
        sender_leaf_index: u32,
        key_package: &KeyPackage,
        path: Vec<ParentNode>,
    ) -> (r: Result<(), TreeSyncDiffError>)
        requires
            old(self).wf(),
        ensures
            final(self).own_leaf_index == old(self).own_leaf_index,
            final(self).width() == old(self).width(),
            (sender_leaf_index as nat) >= old(self).leaf_cnt() || path@.len() != direct_path(
                2 * (sender_leaf_index as nat),
                old(self).width(),
            ).len() ==> r is Err && final(self).ts() == old(self).ts(),
            (sender_leaf_index as nat) >= old(self).leaf_cnt() ==> r == Result::<
                (),
                TreeSyncDiffError,
            >::Err(TreeSyncDiffError::TreeDiffError(MlsBinaryTreeDiffError::OutOfBounds)),
            (sender_leaf_index as nat) < old(self).leaf_cnt() && path@.len() != direct_path(
                2 * (sender_leaf_index as nat),
                old(self).width(),
            ).len() ==> r == Result::<(), TreeSyncDiffError>::Err(
                TreeSyncDiffError::PathLengthError,
            ),
            ({
                let sender = sender_leaf_index as nat;
                let w = old(self).width();
                let len = direct_path(2 * sender, w).len();
                let pv = spec_cleared_path(paths_view(path@));
                let res = spec_copath_resolutions(old(self).ts(), 2 * sender, Seq::empty());
                let ph = spec_ph_in(*provider, ciphersuite, old(self).ts(), pv, res, -1);
                sender < old(self).leaf_cnt() && path@.len() == len ==> {
                    &&& (r is Ok <==> key_package@.parent_hash == Option::Some(ph))
                    &&& (key_package@.parent_hash is None ==> r == Result::<
                        (),
                        TreeSyncDiffError,
                    >::Err(TreeSyncDiffError::MissingParentHash))
                    &&& (key_package@.parent_hash is Some && key_package@.parent_hash
                        != Option::Some(ph) ==> r == Result::<(), TreeSyncDiffError>::Err(
                        TreeSyncDiffError::ParentHashMismatch,
                    ))
                    &&& forall|j: int|
                        0 <= j < len ==> final(self).ts()[#[trigger] direct_path(
                            2 * sender,
                            w,
                        )[j] as int] == (TreeSyncNodeV {
                            node: Option::Some(
                                NodeV::ParentNode(
                                    ParentNodeV {
                                        parent_hash: spec_ph_in(
                                            *provider,
                                            ciphersuite,
                                            old(self).ts(),
                                            pv,
                                            res,
                                            j,
                                        ),
                                        ..pv[j]
                                    },
                                ),
                            ),
                            tree_hash: Option::None,
                        })
                    &&& (r is Ok ==> final(self).ts()[2 * (sender as int)] == (TreeSyncNodeV {
                        node: Option::Some(
                            NodeV::LeafNode(
                                crate::node::LeafNodeV {
                                    key_package: key_package@,
                                    private_key: Option::None,
                                },
                            ),
                        ),
                        tree_hash: Option::None,
                    }))
                    &&& (r is Err ==> final(self).ts()[2 * (sender as int)] == old(self).ts()[2 * (
                    sender as int)])
                    &&& forall|i: int|
                        0 <= i < w && i != 2 * sender && !direct_path(2 * sender, w).contains(
                            i as nat,
                        ) ==> final(self).ts()[i] == old(self).ts()[i]
                }
            }),
    {
        let ghost w = self.width();
        let n = self.leaf_count();
        if sender_leaf_index >= n {
            return Result::Err(
                TreeSyncDiffError::TreeDiffError(MlsBinaryTreeDiffError::OutOfBounds),
            );
        }
        // a sender's fresh path merges the unmerged leaves below it
        let mut cleared: Vec<ParentNode> = Vec::new();
        let mut j: usize = 0;
        while j < path.len()
            invariant
                j <= path@.len(),
                cleared@.len() == j,
                forall|t: int|
                    0 <= t < j ==> (#[trigger] cleared@[t])@ == (ParentNodeV {
                        unmerged_leaves: Seq::empty(),
                        ..paths_view(path@)[t]
                    }),
            decreases path@.len() - j,
        {
            let src = &path[j];
            let node = ParentNode {
                public_key: crate::codec::copy_bytes(&src.public_key),
                private_key: crate::codec::copy_opt_bytes(&src.private_key),
                parent_hash: crate::codec::copy_bytes(&src.parent_hash),
                unmerged_leaves: Vec::new(),
            };
            proof {
                assert(node@.unmerged_leaves =~= Seq::<u32>::empty());
            }
            cleared.push(node);
            j = j + 1;
        }
        let ghost pv = paths_view(cleared@);
        proof {
            assert(pv =~= spec_cleared_path(paths_view(path@)));
            assert forall|i: int|
                0 <= i < cleared@.len() implies unmerged_entries_in_tree(
                self.ts(),
                (#[trigger] cleared@[i])@.unmerged_leaves,
            ) by {
                assert(cleared@[i]@.unmerged_leaves.len() == 0);
            }
        }
        let sender = sender_leaf_index;
        let parent_hash = self.process_update_path(provider, ciphersuite, sender, cleared)?;
        proof {
            let w0 = old(self).width();
            let sn = sender as nat;
            let res = spec_copath_resolutions(old(self).ts(), 2 * sn, Seq::empty());
            assert(parent_hash@ == spec_ph_in(
                *provider,
                ciphersuite,
                old(self).ts(),
                pv,
                res,
                -1,
            ));
            assert(forall|j: int|
                0 <= j < direct_path(2 * sn, w0).len() ==> self.ts()[#[trigger] direct_path(
                    2 * sn,
                    w0,
                )[j] as int] == (TreeSyncNodeV {
                    node: Option::Some(
                        NodeV::ParentNode(
                            ParentNodeV {
                                parent_hash: spec_ph_in(
                                    *provider,
                                    ciphersuite,
                                    old(self).ts(),
                                    pv,
                                    res,
                                    j,
                                ),
                                ..pv[j]
                            },
                        ),
                    ),
                    tree_hash: Option::None,
                }));
            assert forall|t: int|
                0 <= t < direct_path(2 * (sender as nat), w).len() implies 2 * (sender as int) != (
            #[trigger] direct_path(2 * (sender as nat), w)[t]) as int by {
                lemma_path_from_levels(
                    2 * (sender as nat),
                    (node_level(2 * (sender as nat)) + 1) as nat,
                    w,
                );
            }
        }
        // the sender's declared parent hash must match the computed one
        match &key_package.parent_hash {
            Option::None => Result::Err(TreeSyncDiffError::MissingParentHash),
            Option::Some(declared) => {
                if !crate::codec::bytes_eq(declared, &parent_hash) {
                    return Result::Err(TreeSyncDiffError::ParentHashMismatch);
                }
                let leaf = LeafNode {
                    key_package: key_package.duplicate(),
                    private_key: Option::None,
                };
                let idx = 2 * (sender as usize);
                let ghost mid_ts = self.ts();
                self.set_slot(idx, TreeSyncNode::from_node(Node::LeafNode(leaf)));
                proof {
                    let w0 = old(self).width();
                    let sn = sender as nat;
                    let res = spec_copath_resolutions(old(self).ts(), 2 * sn, Seq::empty());
                    assert forall|j: int|
                        0 <= j < direct_path(2 * sn, w0).len() implies self.ts()[
                        #[trigger] direct_path(2 * sn, w0)[j] as int] == (TreeSyncNodeV {
                        node: Option::Some(
                            NodeV::ParentNode(
                                ParentNodeV {
                                    parent_hash: spec_ph_in(
                                        *provider,
                                        ciphersuite,
                                        old(self).ts(),
                                        pv,
                                        res,
                                        j,
                                    ),
                                    ..pv[j]
                                },
                            ),
                        ),
                        tree_hash: Option::None,
                    }) by {
                        let d = direct_path(2 * sn, w0);
                        assert(d.contains(d[j]));
                        lemma_direct_path_membership(2 * sn, w0, d[j]);
                        assert(d[j] < w0);
                        assert(2 * (sender as int) != d[j] as int);
                        assert(self.ts()[d[j] as int] == mid_ts[d[j] as int]);
                    }
                }
                Result::Ok(())
            },
        }
    }
}

} // verus!

verus! {

/// A parent node on the subtree path advances the secret derivation:
/// it is non-blank and does not list the owner among its unmerged
/// leaves.
pub open spec fn spec_sps_advances(ts: Seq<TreeSyncNodeV>, x: nat, own: u32) -> bool {
    match ts[x as int].node {
        Option::Some(NodeV::ParentNode(pn)) => !pn.unmerged_leaves.contains(own),
        _ => false,
    }
}

/// The path secret entering step `k` of the subtree-path walk.
pub open spec fn spec_sps_secret<P: crate::crypto::CryptoProvider>(
    provider: P,
    ciphersuite: u16,
    ts: Seq<TreeSyncNodeV>,
    idxs: Seq<nat>,
    own: u32,
    s0: Seq<u8>,
    k: int,
) -> Seq<u8>
    decreases k,
{
    if k <= 0 {
        s0
    } else {
        let prev = spec_sps_secret(provider, ciphersuite, ts, idxs, own, s0, k - 1);
        if spec_sps_advances(ts, idxs[k - 1], own) {
            provider.spec_derive_path_secret(ciphersuite, prev)
        } else {
            prev
        }
    }
}

/// Every advancing node's stored public key matches the derived one.
pub open spec fn spec_sps_all_ok<P: crate::crypto::CryptoProvider>(
    provider: P,
    ciphersuite: u16,
    ts: Seq<TreeSyncNodeV>,
    idxs: Seq<nat>,
    own: u32,
    s0: Seq<u8>,
) -> bool {
    forall|k: int|
        0 <= k < idxs.len() && spec_sps_advances(ts, #[trigger] idxs[k], own)
            ==> crate::node::node_public_key(ts[idxs[k] as int].node->0)
            == provider.spec_derive_public(
            ciphersuite,
            spec_sps_secret(provider, ciphersuite, ts, idxs, own, s0, k),
        )
}

impl TreeSyncDiff {
    /// The zero-based position, in leaf `leaf_index_1`'s direct path, of
    /// the lowest ancestor that also contains leaf `leaf_index_2`.
    pub fn subtree_root_position(&self, leaf_index_1: u32, leaf_index_2: u32) -> (r: Result<
        usize,
        TreeSyncDiffError,
    >)
        requires
            tree_shape_ok(self.ts()),
        ensures
            r is Ok <==> (leaf_index_1 as nat) < self.leaf_cnt() && (leaf_index_2 as nat)
                < self.leaf_cnt() && 2 * (leaf_index_1 as nat) != crate::tree_math::root_index(
                self.width(),
            ),
            r is Ok ==> {
                let dp = direct_path(2 * (leaf_index_1 as nat), self.width());
                let k = r->Ok_0 as int;
                &&& k < dp.len()
                &&& is_below(2 * (leaf_index_2 as nat), dp[k])
                &&& forall|t: int| 0 <= t < k ==> !is_below(2 * (leaf_index_2 as nat), #[trigger] dp[t])
            },
            (leaf_index_1 as nat) >= self.leaf_cnt() || (leaf_index_2 as nat) >= self.leaf_cnt()
                ==> r == Result::<usize, TreeSyncDiffError>::Err(
                TreeSyncDiffError::TreeDiffError(MlsBinaryTreeDiffError::OutOfBounds),
            ),
            (leaf_index_1 as nat) < self.leaf_cnt() && (leaf_index_2 as nat) < self.leaf_cnt()
                && 2 * (leaf_index_1 as nat) == crate::tree_math::root_index(self.width())
                ==> r == Result::<usize, TreeSyncDiffError>::Err(TreeSyncDiffError::LibraryError),
    {
        let n = self.leaf_count();
        if leaf_index_1 >= n || leaf_index_2 >= n {
            return Result::Err(
                TreeSyncDiffError::TreeDiffError(MlsBinaryTreeDiffError::OutOfBounds),
            );
        }
        let w = self.nodes.len();
        let x = 2 * (leaf_index_1 as usize);
        let y = 2 * (leaf_index_2 as usize);
        let root = crate::tree_math::exec_root(w);
        if x == root {
            return Result::Err(TreeSyncDiffError::LibraryError);
        }
        let dp = direct_path_indices(x, w);
        proof {
            crate::tree_math::lemma_direct_path_root(x as nat, w as nat);
            crate::tree_math::lemma_root_facts(w as nat);
        }
        let mut k: usize = 0;
        while k < dp.len()
            invariant
                tree_shape_ok(self.ts()),
                w == self.width(),
                seq_to_nat(dp@) == direct_path(x as nat, w as nat),
                forall|i: int| 0 <= i < dp@.len() ==> dp@[i] < w,
                y < w <= MAX_NODE_WIDTH,
                y == 2 * (leaf_index_2 as int),
                x == 2 * (leaf_index_1 as int),
                (leaf_index_1 as nat) < self.leaf_cnt(),
                (leaf_index_2 as nat) < self.leaf_cnt(),
                x as nat != crate::tree_math::root_index(w as nat),
                k <= dp@.len(),
                forall|t: int|
                    0 <= t < k ==> !is_below(y as nat, #[trigger] seq_to_nat(dp@)[t]),
            decreases dp@.len() - k,
        {
            proof {
                assert(seq_to_nat(dp@)[k as int] == dp@[k as int] as nat);
            }
            if crate::tree_math::is_below_check(y, dp[k]) {
                proof {
                    let d = direct_path(x as nat, w as nat);
                    assert forall|t: int| 0 <= t < k implies !is_below(y as nat, #[trigger] d[t]) by {
                        assert(seq_to_nat(dp@)[t] == d[t]);
                    }
                }
                return Result::Ok(k);
            }
            k = k + 1;
        }
        // the root is on the direct path and contains every node
        proof {
            crate::tree_math::lemma_direct_path_root(x as nat, w as nat);
            crate::tree_math::lemma_root_facts(w as nat);
            let d = direct_path(x as nat, w as nat);
            assert(d.last() == crate::tree_math::root_index(w as nat));
            assert(!is_below(y as nat, d[d.len() - 1]));
            assert(node_level(d[d.len() - 1]) == crate::tree_math::floor_log2(w as nat));
            assert(crate::tree_math::ancestor(
                y as nat,
                crate::tree_math::floor_log2(w as nat),
            ) == crate::tree_math::root_index(w as nat));
            assert(false);
        }
        Result::Err(TreeSyncDiffError::LibraryError)
    }

    /// The suffix of leaf `leaf_index_1`'s direct path that starts at
    /// the subtree root shared with leaf `leaf_index_2`.
    pub fn subtree_path(&self, leaf_index_1: u32, leaf_index_2: u32) -> (r: Result<
        Vec<usize>,
        TreeSyncDiffError,
    >)
        requires
            tree_shape_ok(self.ts()),
        ensures
            r is Ok <==> (leaf_index_1 as nat) < self.leaf_cnt() && (leaf_index_2 as nat)
                < self.leaf_cnt() && 2 * (leaf_index_1 as nat) != crate::tree_math::root_index(
                self.width(),
            ),
            r is Ok ==> exists|pos: int|
                0 <= pos < direct_path(2 * (leaf_index_1 as nat), self.width()).len()
                    && seq_to_nat((r->Ok_0)@) == direct_path(
                    2 * (leaf_index_1 as nat),
                    self.width(),
                ).skip(pos) && is_below(
                    2 * (leaf_index_2 as nat),
                    #[trigger] direct_path(2 * (leaf_index_1 as nat), self.width())[pos],
                ) && (forall|t: int|
                    0 <= t < pos ==> !is_below(
                        2 * (leaf_index_2 as nat),
                        #[trigger] direct_path(2 * (leaf_index_1 as nat), self.width())[t],
                    )),
            (leaf_index_1 as nat) >= self.leaf_cnt() || (leaf_index_2 as nat) >= self.leaf_cnt()
                ==> r == Result::<Vec<usize>, TreeSyncDiffError>::Err(
                TreeSyncDiffError::TreeDiffError(MlsBinaryTreeDiffError::OutOfBounds),
            ),
            (leaf_index_1 as nat) < self.leaf_cnt() && (leaf_index_2 as nat) < self.leaf_cnt()
                && 2 * (leaf_index_1 as nat) == crate::tree_math::root_index(self.width())
                ==> r == Result::<Vec<usize>, TreeSyncDiffError>::Err(
                TreeSyncDiffError::LibraryError,
            ),
    {
        let pos = self.subtree_root_position(leaf_index_1, leaf_index_2)?;
        let w = self.nodes.len();
        let x = 2 * (leaf_index_1 as usize);
        let dp = direct_path_indices(x, w);
        let mut out: Vec<usize> = Vec::new();
        let mut k: usize = pos;
        proof {
            assert(pos < dp@.len());
        }
        while k < dp.len()
            invariant
                seq_to_nat(dp@) == direct_path(x as nat, w as nat),
                pos <= k <= dp@.len(),
                out@.len() == k - pos,
                forall|t: int| 0 <= t < out@.len() ==> out@[t] == dp@[pos + t],
            decreases dp@.len() - k,
        {
            out.push(dp[k]);
            k = k + 1;
        }
        proof {
            assert(seq_to_nat(out@) =~= direct_path(x as nat, w as nat).skip(pos as int));
            assert(seq_to_nat(dp@)[pos as int] == dp@[pos as int] as nat);
        }
        Result::Ok(out)
    }

    /// Walk the subtree path between the owner and the sender, deriving
    /// one key pair per non-blank parent node that does not list the
    /// owner as unmerged. The derived public key must match the stored
    /// one; the derived private key is stored on the node. Returns the
    /// final path secret as the commit secret.
    #[verifier::rlimit(100)]
    #[verifier::spinoff_prover]
    pub fn set_path_secrets<P: crate::crypto::CryptoProvider>(
        &mut self,
        provider: &P,
        ciphersuite: u16,
        path_secret: Vec<u8>,
        sender_index: u32,
    ) -> (r: Result<crate::node::CommitSecret, TreeSyncDiffError>)
        requires
            old(self).wf(),
        ensures
            final(self).own_leaf_index == old(self).own_leaf_index,
            final(self).width() == old(self).width(),
            r is Ok <==> (sender_index as nat) < old(self).leaf_cnt() && 2 * old(self).own()
                != crate::tree_math::root_index(old(self).width()) && (exists|pos: int|
                0 <= pos < direct_path(2 * old(self).own(), old(self).width()).len()
                    && is_below(
                    2 * (sender_index as nat),
                    #[trigger] direct_path(2 * old(self).own(), old(self).width())[pos],
                ) && (forall|t: int|
                    0 <= t < pos ==> !is_below(
                        2 * (sender_index as nat),
                        #[trigger] direct_path(2 * old(self).own(), old(self).width())[t],
                    )) && spec_sps_all_ok(
                    *provider,
                    ciphersuite,
                    old(self).ts(),
                    direct_path(2 * old(self).own(), old(self).width()).skip(pos),
                    old(self).own_leaf_index,
                    path_secret@,
                )),
            r is Ok ==> exists|pos: int|
                #![trigger direct_path(2 * old(self).own(), old(self).width()).skip(pos)]
                {
                    let idxs = direct_path(2 * old(self).own(), old(self).width()).skip(pos);
                    &&& 0 <= pos < direct_path(2 * old(self).own(), old(self).width()).len()
                    &&& is_below(
                        2 * (sender_index as nat),
                        direct_path(2 * old(self).own(), old(self).width())[pos],
                    )
                    &&& (forall|t: int|
                        0 <= t < pos ==> !is_below(
                            2 * (sender_index as nat),
                            #[trigger] direct_path(2 * old(self).own(), old(self).width())[t],
                        ))
                    &&& (r->Ok_0).secret@ == spec_sps_secret(
                        *provider,
                        ciphersuite,
                        old(self).ts(),
                        idxs,
                        old(self).own_leaf_index,
                        path_secret@,
                        idxs.len() as int,
                    )
                    &&& forall|k: int|
                        0 <= k < idxs.len() && spec_sps_advances(
                            old(self).ts(),
                            #[trigger] idxs[k],
                            old(self).own_leaf_index,
                        ) ==> final(self).ts()[idxs[k] as int] == (TreeSyncNodeV {
                            node: Option::Some(
                                NodeV::ParentNode(
                                    ParentNodeV {
                                        private_key: Option::Some(
                                            provider.spec_derive_private(
                                                ciphersuite,
                                                spec_sps_secret(
                                                    *provider,
                                                    ciphersuite,
                                                    old(self).ts(),
                                                    idxs,
                                                    old(self).own_leaf_index,
                                                    path_secret@,
                                                    k,
                                                ),
                                            ),
                                        ),
                                        ..old(self).ts()[idxs[k] as int].node->0->ParentNode_0
                                    },
                                ),
                            ),
                            ..old(self).ts()[idxs[k] as int]
                        })
                    &&& forall|i: int|
                        0 <= i < old(self).width() && !idxs.contains(i as nat)
                            ==> final(self).ts()[i] == old(self).ts()[i]
                },
            r is Err ==> forall|i: int|
                0 <= i < old(self).width() && !direct_path(
                    2 * old(self).own(),
                    old(self).width(),
                ).contains(i as nat) ==> final(self).ts()[i] == old(self).ts()[i],
            (sender_index as nat) >= old(self).leaf_cnt() ==> r == Result::<
                crate::node::CommitSecret,
                TreeSyncDiffError,
            >::Err(TreeSyncDiffError::TreeDiffError(MlsBinaryTreeDiffError::OutOfBounds)),
            (sender_index as nat) < old(self).leaf_cnt() && 2 * old(self).own()
                == crate::tree_math::root_index(old(self).width()) ==> r == Result::<
                crate::node::CommitSecret,
                TreeSyncDiffError,
            >::Err(TreeSyncDiffError::LibraryError),
            (sender_index as nat) < old(self).leaf_cnt() && 2 * old(self).own()
                != crate::tree_math::root_index(old(self).width()) && r is Err ==> r == Result::<
                crate::node::CommitSecret,
                TreeSyncDiffError,
            >::Err(TreeSyncDiffError::PublicKeyMismatch),
    {
        let own = self.own_leaf_index;
        let subtree = match self.subtree_path(own, sender_index) {
            Result::Ok(v) => v,
            Result::Err(e) => {
                return Result::Err(e);
            },
        };
        let ghost pos = choose|pos: int|
            0 <= pos < direct_path(2 * old(self).own(), old(self).width()).len()
                && seq_to_nat(subtree@) == direct_path(
                2 * old(self).own(),
                old(self).width(),
            ).skip(pos) && is_below(
                2 * (sender_index as nat),
                #[trigger] direct_path(2 * old(self).own(), old(self).width())[pos],
            ) && (forall|t: int|
                0 <= t < pos ==> !is_below(
                    2 * (sender_index as nat),
                    #[trigger] direct_path(2 * old(self).own(), old(self).width())[t],
                ));
        let ghost idxs = direct_path(2 * old(self).own(), old(self).width()).skip(pos);
        let ghost ts0 = old(self).ts();
        let mut secret = path_secret;
        let ghost s0 = secret@;
        let mut k: usize = 0;
        proof {
            // subtree-path entries are direct-path entries: in the tree
            // and odd
            crate::tree_math::lemma_path_from_levels(
                2 * old(self).own(),
                (node_level(2 * old(self).own()) + 1) as nat,
                old(self).width(),
            );
            assert forall|t: int| 0 <= t < idxs.len() implies #[trigger] idxs[t] < old(
                self,
            ).width() && idxs[t] % 2 == 1 by {
                let d = direct_path(2 * old(self).own(), old(self).width());
                assert(idxs[t] == d[pos + t]);
                assert(d.contains(d[pos + t]));
                lemma_direct_path_membership(
                    2 * old(self).own(),
                    old(self).width(),
                    d[pos + t],
                );
                lemma_odd_level(d[pos + t]);
            }
        }
        while k < subtree.len()
            invariant
                old(self).wf(),
                self.width() == old(self).width(),
                self.own_leaf_index == old(self).own_leaf_index,
                own == old(self).own_leaf_index,
                ts0 == old(self).ts(),
                s0 == path_secret@,
                seq_to_nat(subtree@) == idxs,
                (sender_index as nat) < old(self).leaf_cnt(),
                2 * old(self).own() != crate::tree_math::root_index(old(self).width()),
                0 <= pos < direct_path(2 * old(self).own(), old(self).width()).len(),
                idxs == direct_path(2 * old(self).own(), old(self).width()).skip(pos),
                is_below(
                    2 * (sender_index as nat),
                    direct_path(2 * old(self).own(), old(self).width())[pos],
                ),
                forall|t: int|
                    0 <= t < pos ==> !is_below(
                        2 * (sender_index as nat),
                        #[trigger] direct_path(2 * old(self).own(), old(self).width())[t],
                    ),
                k <= idxs.len(),
                forall|t: int| 0 <= t < idxs.len() ==> #[trigger] idxs[t] < old(self).width()
                    && idxs[t] % 2 == 1,
                secret@ == spec_sps_secret(
                    *provider,
                    ciphersuite,
                    ts0,
                    idxs,
                    own,
                    s0,
                    k as int,
                ),
                forall|t: int|
                    0 <= t < k && spec_sps_advances(ts0, #[trigger] idxs[t], own) ==> self.ts()[
                    idxs[t] as int] == (TreeSyncNodeV {
                        node: Option::Some(
                            NodeV::ParentNode(
                                ParentNodeV {
                                    private_key: Option::Some(
                                        provider.spec_derive_private(
                                            ciphersuite,
                                            spec_sps_secret(
                                                *provider,
                                                ciphersuite,
                                                ts0,
                                                idxs,
                                                own,
                                                s0,
                                                t,
                                            ),
                                        ),
                                    ),
                                    ..ts0[idxs[t] as int].node->0->ParentNode_0
                                },
                            ),
                        ),
                        ..ts0[idxs[t] as int]
                    }),
                forall|t: int|
                    0 <= t < k && spec_sps_advances(ts0, #[trigger] idxs[t], own)
                        ==> crate::node::node_public_key(ts0[idxs[t] as int].node->0)
                        == provider.spec_derive_public(
                        ciphersuite,
                        spec_sps_secret(*provider, ciphersuite, ts0, idxs, own, s0, t),
                    ),
                forall|t: int|
                    k <= t < idxs.len() ==> self.ts()[#[trigger] idxs[t] as int] == ts0[idxs[t] as int],
                forall|i: int|
                    0 <= i < old(self).width() && !idxs.contains(i as nat) ==> self.ts()[i]
                        == ts0[i],
                forall|t1: int, t2: int|
                    0 <= t1 < t2 < idxs.len() ==> #[trigger] idxs[t1] != #[trigger] idxs[t2],
            decreases idxs.len() - k,
        {
            let p = subtree[k];
            proof {
                assert(seq_to_nat(subtree@)[k as int] == subtree@[k as int] as nat);
                assert(idxs[k as int] == p as nat);
                assert(idxs.contains(idxs[k as int]));
            }
            let advances = match &self.nodes[p].node {
                Option::Some(Node::ParentNode(pn)) => !crate::codec::u32s_contains(
                    &pn.unmerged_leaves,
                    own,
                ),
                Option::Some(Node::LeafNode(_)) => {
                    proof {
                        assert(self.ts()[p as int] == ts0[p as int]);
                        assert(false);
                    }
                    false
                },
                Option::None => false,
            };
            proof {
                assert(self.ts()[p as int] == ts0[p as int]);
                assert(advances == spec_sps_advances(ts0, idxs[k as int], own));
            }
            if advances {
                let (public_key, private_key) = provider.derive_key_pair(ciphersuite, &secret);
                let matches_stored = match &self.nodes[p].node {
                    Option::Some(Node::ParentNode(pn)) => crate::codec::bytes_eq(
                        &pn.public_key,
                        &public_key,
                    ),
                    _ => false,
                };
                if !matches_stored {
                    proof {
                        // the derived key disagrees with the stored one,
                        // so the walk cannot succeed from the unique
                        // subtree-root position
                        let d = direct_path(2 * old(self).own(), old(self).width());
                        assert(crate::node::node_public_key(ts0[p as int].node->0)
                            != provider.spec_derive_public(
                            ciphersuite,
                            spec_sps_secret(
                                *provider,
                                ciphersuite,
                                ts0,
                                idxs,
                                own,
                                s0,
                                k as int,
                            ),
                        ));
                        assert(!spec_sps_all_ok(*provider, ciphersuite, ts0, idxs, own, s0));
                        assert forall|pos2: int|
                            0 <= pos2 < d.len() && is_below(2 * (sender_index as nat), d[pos2])
                                && (forall|t: int|
                                0 <= t < pos2 ==> !is_below(
                                    2 * (sender_index as nat),
                                    #[trigger] d[t],
                                )) implies pos2 == pos by {
                            if pos2 < pos {
                                assert(!is_below(2 * (sender_index as nat), d[pos2]));
                            } else if pos2 > pos {
                                assert(!is_below(2 * (sender_index as nat), d[pos]));
                            }
                        }
                    }
                    return Result::Err(TreeSyncDiffError::PublicKeyMismatch);
                }
                let ghost pre_nodes = self.nodes@;
                let slot = &mut self.nodes[p];
                match &mut slot.node {
                    Option::Some(Node::ParentNode(pn)) => {
                        pn.set_private_key(private_key);
                    },
                    _ => {
                    },
                }
                proof {
                    lemma_nodes_view_update(pre_nodes, p as int, self.nodes@[p as int]);
                    assert(self.nodes@ =~= pre_nodes.update(p as int, self.nodes@[p as int]));
                }
                secret = provider.derive_path_secret(ciphersuite, &secret);
            }
            k = k + 1;
        }
        proof {
            assert(spec_sps_all_ok(*provider, ciphersuite, ts0, idxs, own, s0));
            assert(direct_path(2 * old(self).own(), old(self).width()).skip(pos) == idxs);
        }
        Result::Ok(crate::node::CommitSecret { secret })
    }
}

} // verus!

verus! {

/// The first node among `refs` that holds a private key whose public
/// key occurs in `res`: the index into `refs` and the position of the
/// first occurrence in `res`.
pub open spec fn spec_key_search(
    ts: Seq<TreeSyncNodeV>,
    refs: Seq<nat>,
    res: Seq<Seq<u8>>,
    k: int,
) -> Option<(int, int)>
    decreases refs.len() - k,
{
    if k < 0 || k >= refs.len() {
        Option::None
    } else {
        match ts[refs[k] as int].node {
            Option::Some(n) => if crate::node::node_private_key(n) is Some && spec_find_first(
                res,
                crate::node::node_public_key(n),
            ) >= 0 {
                Option::Some((k, spec_find_first(res, crate::node::node_public_key(n))))
            } else {
                spec_key_search(ts, refs, res, k + 1)
            },
            Option::None => spec_key_search(ts, refs, res, k + 1),
        }
    }
}

/// The child of `lca` on the side of leaf node `x`: the subtree whose
/// resolution the sender encrypted to.
pub open spec fn spec_lca_child(x: nat, lca: nat, w: nat) -> nat {
    if x < lca {
        crate::tree_math::left_child(lca)
    } else {
        crate::tree_math::right_child(lca, w)
    }
}

/// The own-key search walks the owner's leaf and then its direct path.
pub open spec fn spec_own_refs(own: nat, w: nat) -> Seq<nat> {
    seq![2 * own] + direct_path(2 * own, w)
}

impl TreeSyncDiff {
    /// Find a private key for decrypting a path secret sent by
    /// `sender_leaf_index`: resolve the sender's copath node in the
    /// owner's direct path, filter the excluded leaves, and return the
    /// first held private key whose public key occurs in that
    /// resolution, together with its position there.
    #[verifier::rlimit(100)]
    #[verifier::spinoff_prover]
    pub fn decryption_key(&self, sender_leaf_index: u32, excluded: &Vec<u32>) -> (r: Result<
        (&Vec<u8>, usize),
        TreeSyncDiffError,
    >)
        requires
            self.wf(),
        ensures
            ({
                let own = self.own();
                let w = self.width();
                let d = direct_path(2 * own, w);
                (sender_leaf_index as nat) < self.leaf_cnt() && 2 * own != crate::tree_math::root_index(w)
                    ==> exists|pos: int|
                    #![trigger d[pos]]
                    {
                        let scn = spec_lca_child(2 * own, d[pos], w);
                        let res = spec_resolution(self.ts(), scn, excluded@);
                        let found = spec_key_search(self.ts(), spec_own_refs(own, w), res, 0);
                        &&& 0 <= pos < d.len()
                        &&& is_below(2 * (sender_leaf_index as nat), d[pos])
                        &&& (forall|t: int|
                            0 <= t < pos ==> !is_below(
                                2 * (sender_leaf_index as nat),
                                #[trigger] d[t],
                            ))
                        &&& (r is Ok <==> found is Some)
                        &&& (found is Some ==> {
                            let refs = spec_own_refs(own, w);
                            &&& (r->Ok_0).0@ == crate::node::node_private_key(
                                self.ts()[refs[(found->0).0] as int].node->0,
                            )->0
                            &&& (r->Ok_0).1 as int == (found->0).1
                        })
                    }
            }),
            !((sender_leaf_index as nat) < self.leaf_cnt() && 2 * self.own()
                != crate::tree_math::root_index(self.width())) ==> r is Err,
    {
        let own = self.own_leaf_index;
        let w = self.nodes.len();
        let pos2 = match self.subtree_root_position(own, sender_leaf_index) {
            Result::Ok(p) => p,
            Result::Err(e) => {
                return Result::Err(e);
            },
        };
        let dp = direct_path_indices(2 * (own as usize), w);
        proof {
            assert(seq_to_nat(dp@).len() == dp@.len());
            crate::tree_math::lemma_path_from_len(
                2 * self.own(),
                (node_level(2 * self.own()) + 1) as nat,
                self.width(),
            );
            crate::tree_math::lemma_log2_bounds(self.width());
            vstd::arithmetic::power2::lemma2_to64();
            if crate::tree_math::floor_log2(self.width()) > 30 {
                vstd::arithmetic::power2::lemma_pow2_strictly_increases(
                    30,
                    crate::tree_math::floor_log2(self.width()),
                );
                assert(false);
            }
            assert(dp@.len() <= 31);
        }
        let lca = dp[pos2];
        proof {
            assert(seq_to_nat(dp@)[pos2 as int] == dp@[pos2 as int] as nat);
            lemma_odd_level(lca as nat);
            lemma_odd_level((w - 1) as nat);
            assert(direct_path(2 * self.own(), self.width())[pos2 as int] == lca as nat);
            let d = direct_path(2 * self.own(), self.width());
            assert(d.contains(d[pos2 as int]));
            lemma_direct_path_membership(2 * self.own(), self.width(), d[pos2 as int]);
        }
        let y = 2 * (own as usize);
        let scn = if y < lca {
            crate::tree_math::left_child_index(lca)
        } else {
            crate::tree_math::right_child_index(lca, w)
        };
        let res = match self.resolution(scn, excluded) {
            Result::Ok(v) => v,
            Result::Err(_) => {
                proof {
                    assert(false);
                }
                return Result::Err(TreeSyncDiffError::LibraryError);
            },
        };
        let ghost resv = res.deep_view();
        let ghost refs = spec_own_refs(self.own(), self.width());
        // walk the owner's leaf and direct path for a usable key
        let total = dp.len();
        let mut k: usize = 0;
        while k <= total
            invariant
                self.wf(),
                w == self.width(),
                own == self.own_leaf_index,
                seq_to_nat(dp@) == direct_path(2 * self.own(), self.width()),
                refs == spec_own_refs(self.own(), self.width()),
                refs.len() == dp@.len() + 1,
                total == dp@.len(),
                total <= 31,
                forall|t: int| 0 <= t < dp@.len() ==> dp@[t] < w,
                k <= refs.len(),
                resv == res.deep_view(),
                (sender_leaf_index as nat) < self.leaf_cnt(),
                2 * self.own() != crate::tree_math::root_index(self.width()),
                0 <= pos2 < dp@.len(),
                is_below(
                    2 * (sender_leaf_index as nat),
                    direct_path(2 * self.own(), self.width())[pos2 as int],
                ),
                forall|t: int|
                    0 <= t < pos2 ==> !is_below(
                        2 * (sender_leaf_index as nat),
                        #[trigger] direct_path(2 * self.own(), self.width())[t],
                    ),
                lca as nat == direct_path(2 * self.own(), self.width())[pos2 as int],
                scn as nat == spec_lca_child(2 * self.own(), lca as nat, self.width()),
                resv == spec_resolution(
                    self.ts(),
                    spec_lca_child(2 * self.own(), lca as nat, self.width()),
                    excluded@,
                ),
                spec_key_search(self.ts(), refs, resv, 0) == spec_key_search(
                    self.ts(),
                    refs,
                    resv,
                    k as int,
                ),
            decreases refs.len() - k,
        {
            let p: usize = if k == 0 {
                2 * (own as usize)
            } else {
                dp[k - 1]
            };
            proof {
                if k > 0 {
                    assert(seq_to_nat(dp@)[k - 1] == dp@[k - 1] as nat);
                }
                assert(refs[k as int] == p as nat);
            }
            match &self.nodes[p].node {
                Option::Some(n) => {
                    match n.private_key() {
                        Option::Some(sk) => {
                            let pk = n.public_key();
                            proof {
                                assert(self.ts()[p as int] == self.nodes@[p as int]@);
                                lemma_find_first(resv, pk@);
                            }
                            // search the resolution for this public key
                            let mut i: usize = 0;
                            let mut found: bool = false;
                            while i < res.len() && !found
                                invariant
                                    res.deep_view() == resv,
                                    i <= resv.len(),
                                    !found ==> forall|t: int| 0 <= t < i ==> resv[t] != pk@,
                                    found ==> i < resv.len() && resv[i as int] == pk@ && (
                                    forall|t: int| 0 <= t < i ==> resv[t] != pk@),
                                decreases resv.len() - i + (if found {
                                    0int
                                } else {
                                    1int
                                }),
                            {
                                let eq = crate::codec::bytes_eq(&res[i], pk);
                                proof {
                                    assert(resv[i as int] == res@[i as int]@);
                                }
                                if eq {
                                    found = true;
                                } else {
                                    i = i + 1;
                                }
                            }
                            proof {
                                lemma_find_first(resv, pk@);
                            }
                            if found {
                                proof {
                                    assert(spec_find_first(resv, pk@) == i as int);
                                    assert(spec_key_search(self.ts(), refs, resv, k as int)
                                        == Option::Some((k as int, i as int)));
                                }
                                return Result::Ok((sk, i));
                            }
                            proof {
                                if spec_find_first(resv, pk@) >= 0 {
                                    assert(resv[spec_find_first(resv, pk@)] == pk@);
                                    assert(false);
                                }
                            }
                        },
                        Option::None => {
                        },
                    }
                },
                Option::None => {
                },
            }
            k = k + 1;
        }
        proof {
            assert(spec_key_search(self.ts(), refs, resv, refs.len() as int) is None);
        }
        Result::Err(TreeSyncDiffError::NoPrivateKeyFound)
    }
}

} // verus!

verus! {

/// The parent hash a node presents: a leaf presents its key package's
/// parent-hash extension, a parent node its stored parent hash.
pub open spec fn spec_node_ph(n: NodeV) -> Option<Seq<u8>> {
    match n {
        NodeV::LeafNode(l) => l.key_package.parent_hash,
        NodeV::ParentNode(p) => Option::Some(p.parent_hash),
    }
}

/// Descend from `r` through blank slots via left children until a
/// non-blank slot or a leaf is reached.
pub open spec fn spec_descend(ts: Seq<TreeSyncNodeV>, r: nat) -> nat
    decreases node_level(r),
    via spec_descend_decreases
{
    if ts[r as int].node is Some || r % 2 == 0 {
        r
    } else {
        spec_descend(ts, crate::tree_math::left_child(r))
    }
}

#[via_fn]
proof fn spec_descend_decreases(ts: Seq<TreeSyncNodeV>, r: nat) {
    if !(ts[r as int].node is Some || r % 2 == 0) {
        lemma_odd_level(r);
        crate::tree_math::lemma_left_child(r);
    }
}

/// One parent node passes verification: its left child presents the
/// hash of this node over the filtered right-child resolution, or the
/// non-blank left-descendant of its right child presents the hash over
/// the filtered left-child resolution.
pub open spec fn spec_vph_case_a<P: crate::crypto::CryptoProvider>(
    provider: P,
    ciphersuite: u16,
    ts: Seq<TreeSyncNodeV>,
    x: nat,
) -> bool {
    let pn = ts[x as int].node->0->ParentNode_0;
    let lc = crate::tree_math::left_child(x);
    let rc = crate::tree_math::right_child(x, ts.len());
    ts[lc as int].node is Some && spec_node_ph(ts[lc as int].node->0) == Option::Some(
        crate::node::spec_parent_hash(
            provider,
            ciphersuite,
            pn.parent_hash,
            spec_filter_resolution(
                ts,
                pn.unmerged_leaves,
                spec_resolution(ts, rc, Seq::empty()),
            ),
        ),
    )
}

/// The fallback check against the right child's non-blank
/// left-descendant.
pub open spec fn spec_vph_case_b<P: crate::crypto::CryptoProvider>(
    provider: P,
    ciphersuite: u16,
    ts: Seq<TreeSyncNodeV>,
    x: nat,
) -> bool {
    let pn = ts[x as int].node->0->ParentNode_0;
    let lc = crate::tree_math::left_child(x);
    let rc = crate::tree_math::right_child(x, ts.len());
    let rb = spec_descend(ts, rc);
    ts[rb as int].node is Some && spec_node_ph(ts[rb as int].node->0) == Option::Some(
        crate::node::spec_parent_hash(
            provider,
            ciphersuite,
            pn.parent_hash,
            spec_filter_resolution(
                ts,
                pn.unmerged_leaves,
                spec_resolution(ts, lc, Seq::empty()),
            ),
        ),
    )
}

pub open spec fn spec_vph_node_ok<P: crate::crypto::CryptoProvider>(
    provider: P,
    ciphersuite: u16,
    ts: Seq<TreeSyncNodeV>,
    x: nat,
) -> bool {
    spec_vph_case_a(provider, ciphersuite, ts, x) || spec_vph_case_b(provider, ciphersuite, ts, x)
}

/// Every non-blank parent node passes verification.
pub open spec fn spec_verify_ok<P: crate::crypto::CryptoProvider>(
    provider: P,
    ciphersuite: u16,
    ts: Seq<TreeSyncNodeV>,
) -> bool {
    forall|x: int|
        0 <= x < ts.len() && ((#[trigger] ts[x]).node matches Option::Some(NodeV::ParentNode(_)))
            ==> spec_vph_node_ok(provider, ciphersuite, ts, x as nat)
}

impl Node {
    /// The parent hash this node presents.
    pub fn parent_hash_opt(&self) -> (r: Option<&Vec<u8>>)
        ensures
            r is Some <==> spec_node_ph(self@) is Some,
            r is Some ==> r->0@ == spec_node_ph(self@)->0,
    {
        match self {
            Node::LeafNode(l) => match &l.key_package.parent_hash {
                Option::None => Option::None,
                Option::Some(ph) => Option::Some(ph),
            },
            Node::ParentNode(p) => Option::Some(&p.parent_hash),
        }
    }
}

impl TreeSyncDiff {
    /// Compute one verification hash: this node's stored parent hash
    /// over the given resolution, filtered by its unmerged leaves.
    fn vph_expected<P: crate::crypto::CryptoProvider>(
        &self,
        provider: &P,
        ciphersuite: u16,
        x: usize,
        resolution: Vec<Vec<u8>>,
    ) -> (r: Vec<u8>)
        requires
            self.wf(),
            x < self.width(),
            self.ts()[x as int].node matches Option::Some(NodeV::ParentNode(_)),
        ensures
            r@ == crate::node::spec_parent_hash(
                *provider,
                ciphersuite,
                self.ts()[x as int].node->0->ParentNode_0.parent_hash,
                spec_filter_resolution(
                    self.ts(),
                    self.ts()[x as int].node->0->ParentNode_0.unmerged_leaves,
                    resolution.deep_view(),
                ),
            ),
    {
        let mut res = resolution;
        let ghost res0 = res.deep_view();
        match &self.nodes[x].node {
            Option::Some(Node::ParentNode(pn)) => {
                proof {
                    assert(self.ts()[x as int] == self.nodes@[x as int]@);
                    assert(parent_unmerged_ok(self.ts(), x as int));
                    assert forall|j: int|
                        0 <= j < pn@.unmerged_leaves.len() implies 2 * ((
                    #[trigger] pn@.unmerged_leaves[j]) as int) < self.ts().len() && self.ts()[2 * (
                    pn@.unmerged_leaves[j] as int)].node matches Option::Some(
                        NodeV::LeafNode(_),
                    ) by {
                        assert(unmerged_entry_ok(self.ts(), x as int, pn@.unmerged_leaves[j]));
                    }
                }
                let fr = self.filter_resolution(pn, &mut res);
                proof {
                    assert(fr is Ok);
                }
                let mut input: Vec<u8> = Vec::new();
                crate::codec::append_enc_bytes(&mut input, &pn.parent_hash);
                crate::codec::append_enc_bytes_list(&mut input, &res);
                proof {
                    assert(input@ =~= crate::node::spec_parent_hash_input(
                        pn.parent_hash@,
                        res.deep_view(),
                    ));
                }
                provider.hash(ciphersuite, &input)
            },
            _ => {
                proof {
                    assert(false);
                }
                Vec::new()
            },
        }
    }

    /// Check the left-child form of the parent-hash condition at `x`.
    #[verifier::rlimit(100)]
    #[verifier::spinoff_prover]
    fn vph_case_a<P: crate::crypto::CryptoProvider>(
        &self,
        provider: &P,
        ciphersuite: u16,
        x: usize,
    ) -> (r: bool)
        requires
            self.wf(),
            x < self.width(),
            self.ts()[x as int].node matches Option::Some(NodeV::ParentNode(_)),
        ensures
            r == spec_vph_case_a(*provider, ciphersuite, self.ts(), x as nat),
    {
        let w = self.nodes.len();
        let excluded: Vec<u32> = Vec::new();
        proof {
            assert(excluded@ =~= Seq::<u32>::empty());
            assert(self.ts()[x as int] == self.nodes@[x as int]@);
            lemma_odd_level(x as nat);
            lemma_odd_level((w - 1) as nat);
            assert(x % 2 == 1);
            assert(x != w - 1);
        }
        let lc = crate::tree_math::left_child_index(x);
        let rc = crate::tree_math::right_child_index(x, w);
        let left_nonblank = match &self.nodes[lc].node {
            Option::Some(_) => true,
            Option::None => false,
        };
        proof {
            assert(self.ts()[lc as int] == self.nodes@[lc as int]@);
        }
        if !left_nonblank {
            return false;
        }
        let rres = match self.resolution(rc, &excluded) {
            Result::Ok(v) => v,
            Result::Err(_) => {
                proof {
                    assert(false);
                }
                return false;
            },
        };
        let expected = self.vph_expected(provider, ciphersuite, x, rres);
        match &self.nodes[lc].node {
            Option::Some(n) => {
                match n.parent_hash_opt() {
                    Option::Some(lph) => crate::codec::bytes_eq(lph, &expected),
                    Option::None => false,
                }
            },
            Option::None => false,
        }
    }

    /// Check the right-descendant form of the parent-hash condition at
    /// `x`.
    #[verifier::rlimit(100)]
    #[verifier::spinoff_prover]
    fn vph_case_b<P: crate::crypto::CryptoProvider>(
        &self,
        provider: &P,
        ciphersuite: u16,
        x: usize,
    ) -> (r: bool)
        requires
            self.wf(),
            x < self.width(),
            self.ts()[x as int].node matches Option::Some(NodeV::ParentNode(_)),
        ensures
            r == spec_vph_case_b(*provider, ciphersuite, self.ts(), x as nat),
    {
        let w = self.nodes.len();
        let excluded: Vec<u32> = Vec::new();
        proof {
            assert(excluded@ =~= Seq::<u32>::empty());
            assert(self.ts()[x as int] == self.nodes@[x as int]@);
            lemma_odd_level(x as nat);
            lemma_odd_level((w - 1) as nat);
            assert(x % 2 == 1);
            assert(x != w - 1);
        }
        let lc = crate::tree_math::left_child_index(x);
        let rc = crate::tree_math::right_child_index(x, w);
        let mut rb = rc;
        loop
            invariant
                self.wf(),
                w == self.width(),
                rb < w,
                spec_descend(self.ts(), rb as nat) == spec_descend(self.ts(), rc as nat),
            ensures
                rb < w,
                self.ts()[rb as int].node is Some || rb % 2 == 0,
                spec_descend(self.ts(), rb as nat) == spec_descend(self.ts(), rc as nat),
            decreases node_level(rb as nat),
        {
            let blank = match &self.nodes[rb].node {
                Option::None => true,
                Option::Some(_) => false,
            };
            proof {
                assert(self.ts()[rb as int] == self.nodes@[rb as int]@);
            }
            if !blank || rb % 2 == 0 {
                break ;
            }
            proof {
                lemma_odd_level(rb as nat);
                crate::tree_math::lemma_left_child(rb as nat);
            }
            rb = crate::tree_math::left_child_index(rb);
        }
        proof {
            assert(rb as nat == spec_descend(self.ts(), rc as nat));
            assert(self.ts()[rb as int] == self.nodes@[rb as int]@);
        }
        let right_nonblank = match &self.nodes[rb].node {
            Option::Some(_) => true,
            Option::None => false,
        };
        if !right_nonblank {
            return false;
        }
        let lres = match self.resolution(lc, &excluded) {
            Result::Ok(v) => v,
            Result::Err(_) => {
                proof {
                    assert(false);
                }
                return false;
            },
        };
        let expected = self.vph_expected(provider, ciphersuite, x, lres);
        match &self.nodes[rb].node {
            Option::Some(n) => {
                match n.parent_hash_opt() {
                    Option::Some(rph) => crate::codec::bytes_eq(rph, &expected),
                    Option::None => false,
                }
            },
            Option::None => false,
        }
    }

    /// Check the parent-hash condition of the non-blank parent node at
    /// slot `x`.
    fn vph_check_node<P: crate::crypto::CryptoProvider>(
        &self,
        provider: &P,
        ciphersuite: u16,
        x: usize,
    ) -> (r: bool)
        requires
            self.wf(),
            x < self.width(),
            self.ts()[x as int].node matches Option::Some(NodeV::ParentNode(_)),
        ensures
            r == spec_vph_node_ok(*provider, ciphersuite, self.ts(), x as nat),
    {
        if self.vph_case_a(provider, ciphersuite, x) {
            true
        } else {
            self.vph_case_b(provider, ciphersuite, x)
        }
    }

    /// Verify the parent-hash chain of every non-blank parent node in
    /// the tree.
    pub fn verify_parent_hashes<P: crate::crypto::CryptoProvider>(
        &self,
        provider: &P,
        ciphersuite: u16,
    ) -> (r: Result<(), TreeSyncDiffError>)
        requires
            self.wf(),
        ensures
            r is Ok <==> spec_verify_ok(*provider, ciphersuite, self.ts()),
    {
        let w = self.nodes.len();
        let mut x: usize = 0;
        while x < w
            invariant
                self.wf(),
                w == self.width(),
                x <= w,
                forall|t: int|
                    0 <= t < x && ((#[trigger] self.ts()[t]).node matches Option::Some(
                        NodeV::ParentNode(_),
                    )) ==> spec_vph_node_ok(*provider, ciphersuite, self.ts(), t as nat),
            decreases w - x,
        {
            let is_parent = match &self.nodes[x].node {
                Option::Some(Node::ParentNode(_)) => true,
                _ => false,
            };
            proof {
                assert(self.ts()[x as int] == self.nodes@[x as int]@);
            }
            if is_parent {
                if !self.vph_check_node(provider, ciphersuite, x) {
                    return Result::Err(TreeSyncDiffError::InvalidParentHash);
                }
            }
            x = x + 1;
        }
        Result::Ok(())
    }
}

} // verus!
