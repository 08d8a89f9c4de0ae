//! The `TreeSync` snapshot and its structural invariants.
//!
//! A `TreeSync` is an immutable ratchet-tree state: the node array in the
//! MLS array representation, the local participant's leaf index, and the
//! tree hash of the snapshot. Mutation happens through a `TreeSyncDiff`,
//! which is staged into a `StagedTreeSyncDiff` and merged back.
//!
//! The invariants maintained throughout:
//! - the array width is odd and leaves sit at even slots;
//! - private keys live only in the owner's leaf and on the owner's
//!   direct path;
//! - every unmerged-leaves entry points at a non-blank leaf below the
//!   recording parent node;
//! - every cached tree hash is the canonical hash of its subtree.

use vstd::prelude::*;
use crate::node::{
    TreeSyncNode, TreeSyncNodeV, NodeV, Node, KeyPackage, slot_has_private_key, spec_node_hash,
};
use crate::crypto::CryptoProvider;
use crate::tree_math::{
    node_level, is_below, left_child, right_child, MAX_NODE_WIDTH, lemma_left_child,
    lemma_right_child_level_bound, lemma_odd_level,
};

verus! {

/// View of a node vector as a sequence of slot views.
pub open spec fn nodes_view(s: Seq<TreeSyncNode>) -> Seq<TreeSyncNodeV> {
    s.map_values(|t: TreeSyncNode| t@)
}

/// The blank slot view.
pub open spec fn blank_slot() -> TreeSyncNodeV {
    TreeSyncNodeV { node: Option::None, tree_hash: Option::None }
}

/// Leaves at even slots, parent nodes at odd slots.
pub open spec fn slot_kind_ok(ts: Seq<TreeSyncNodeV>) -> bool {
    forall|i: int|
        0 <= i < ts.len() ==> match #[trigger] ts[i].node {
            Option::Some(NodeV::LeafNode(_)) => i % 2 == 0,
            Option::Some(NodeV::ParentNode(_)) => i % 2 == 1,
            Option::None => true,
        }
}

/// The array shape of a left-balanced binary tree.
pub open spec fn tree_shape_ok(ts: Seq<TreeSyncNodeV>) -> bool {
    &&& ts.len() % 2 == 1
    &&& ts.len() <= MAX_NODE_WIDTH
    &&& slot_kind_ok(ts)
}

/// Private keys live only in the owner's leaf and strictly along the
/// owner's direct path.
pub open spec fn private_keys_ok(ts: Seq<TreeSyncNodeV>, own: nat) -> bool {
    forall|i: int|
        0 <= i < ts.len() && slot_has_private_key(#[trigger] ts[i]) ==> (i == 2 * own || (i % 2
            == 1 && is_below(2 * own, i as nat)))
}

/// One unmerged-leaves entry: a non-blank leaf below the recording node.
pub open spec fn unmerged_entry_ok(ts: Seq<TreeSyncNodeV>, i: int, u: u32) -> bool {
    &&& 2 * (u as int) < ts.len()
    &&& ts[2 * (u as int)].node matches Option::Some(NodeV::LeafNode(_))
    &&& is_below(2 * (u as nat), i as nat)
}

/// All unmerged-leaves entries of the node at slot `i` are sound.
pub open spec fn parent_unmerged_ok(ts: Seq<TreeSyncNodeV>, i: int) -> bool {
    match ts[i].node {
        Option::Some(NodeV::ParentNode(p)) => forall|j: int|
            0 <= j < p.unmerged_leaves.len() ==> unmerged_entry_ok(
                ts,
                i,
                #[trigger] p.unmerged_leaves[j],
            ),
        _ => true,
    }
}

/// The unmerged-leaves invariant over the whole tree.
pub open spec fn unmerged_ok(ts: Seq<TreeSyncNodeV>) -> bool {
    forall|i: int| 0 <= i < ts.len() ==> #[trigger] parent_unmerged_ok(ts, i)
}

/// The rightmost leaf of a committed tree is non-blank.
pub open spec fn rightmost_nonblank(ts: Seq<TreeSyncNodeV>) -> bool {
    ts.len() >= 1 && ts[ts.len() - 1].node is Some
}

/// The full structural invariant of a tree with owner `own`.
pub open spec fn tree_wf(ts: Seq<TreeSyncNodeV>, own: nat) -> bool {
    &&& tree_shape_ok(ts)
    &&& 2 * own < ts.len()
    &&& private_keys_ok(ts, own)
    &&& unmerged_ok(ts)
}

/// The canonical tree hash of the subtree rooted at slot `x`: a leaf
/// hashes its position and content; a parent additionally hashes both
/// child hashes. Private keys and cached hashes contribute nothing.
#[verifier::opaque]
pub open spec fn spec_subtree_hash<P: CryptoProvider>(
    provider: P,
    ciphersuite: u16,
    ts: Seq<TreeSyncNodeV>,
    x: nat,
) -> Seq<u8>
    decreases node_level(x),
    via spec_subtree_hash_decreases::<P>
{
    if x % 2 == 0 {
        spec_node_hash(
            provider,
            ciphersuite,
            Option::Some((x / 2) as u32),
            0,
            ts[x as int].node,
            Seq::empty(),
            Seq::empty(),
        )
    } else {
        spec_node_hash(
            provider,
            ciphersuite,
            Option::None,
            x as u64,
            ts[x as int].node,
            spec_subtree_hash(provider, ciphersuite, ts, left_child(x)),
            spec_subtree_hash(provider, ciphersuite, ts, right_child(x, ts.len())),
        )
    }
}

#[via_fn]
proof fn spec_subtree_hash_decreases<P: CryptoProvider>(
    provider: P,
    ciphersuite: u16,
    ts: Seq<TreeSyncNodeV>,
    x: nat,
) {
    if x % 2 != 0 {
        lemma_odd_level(x);
        lemma_left_child(x);
        lemma_right_child_level_bound(x, (node_level(x) - 1) as nat, ts.len());
    }
}

/// Every cached hash in the tree is the canonical hash of its subtree.
pub open spec fn cache_ok<P: CryptoProvider>(
    provider: P,
    ciphersuite: u16,
    ts: Seq<TreeSyncNodeV>,
) -> bool {
    forall|i: int|
        0 <= i < ts.len() && #[trigger] ts[i].tree_hash is Some ==> ts[i].tree_hash->0
            == spec_subtree_hash(provider, ciphersuite, ts, i as nat)
}

/// A tree with no cached hashes at all satisfies `cache_ok` for every
/// provider.
pub proof fn lemma_cache_ok_when_empty<P: CryptoProvider>(
    provider: P,
    ciphersuite: u16,
    ts: Seq<TreeSyncNodeV>,
)
    requires
        forall|i: int| 0 <= i < ts.len() ==> #[trigger] ts[i].tree_hash is None,
    ensures
        cache_ok(provider, ciphersuite, ts),
{
}

/// The structural invariant reads only node contents: trees that agree
/// on every slot's node satisfy it together.
pub proof fn lemma_wf_nodes_only(ts1: Seq<TreeSyncNodeV>, ts2: Seq<TreeSyncNodeV>, own: nat)
    requires
        tree_wf(ts1, own),
        ts2.len() == ts1.len(),
        forall|i: int| 0 <= i < ts2.len() ==> (#[trigger] ts2[i]).node == ts1[i].node,
    ensures
        tree_wf(ts2, own),
{
    assert forall|i: int|
        0 <= i < ts2.len() && slot_has_private_key(#[trigger] ts2[i]) implies (i == 2 * own || (i
        % 2 == 1 && is_below(2 * own, i as nat))) by {
        assert(slot_has_private_key(ts1[i]));
    }
    assert forall|i: int| 0 <= i < ts2.len() implies #[trigger] parent_unmerged_ok(ts2, i) by {
        assert(parent_unmerged_ok(ts1, i));
        match ts2[i].node {
            Option::Some(NodeV::ParentNode(p)) => {
                assert forall|j: int|
                    0 <= j < p.unmerged_leaves.len() implies unmerged_entry_ok(
                    ts2,
                    i,
                    #[trigger] p.unmerged_leaves[j],
                ) by {
                    assert(unmerged_entry_ok(ts1, i, p.unmerged_leaves[j]));
                }
            },
            _ => {},
        }
    }
}

/// Mapping a slot update through the view.
pub proof fn lemma_nodes_view_update(s: Seq<TreeSyncNode>, p: int, v: TreeSyncNode)
    requires
        0 <= p < s.len(),
    ensures
        nodes_view(s.update(p, v)) == nodes_view(s).update(p, v@),
{
    assert(nodes_view(s.update(p, v)) =~= nodes_view(s).update(p, v@));
}

/// Copy a node vector slot by slot.
pub fn duplicate_nodes(v: &Vec<TreeSyncNode>) -> (r: Vec<TreeSyncNode>)
    ensures
        nodes_view(r@) == nodes_view(v@),
        r@.len() == v@.len(),
{
    let mut r: Vec<TreeSyncNode> = Vec::new();
    let mut i: usize = 0;
    while i < v.len()
        invariant
            i <= v.len(),
            r@.len() == i,
            forall|j: int| 0 <= j < i ==> #[trigger] r@[j]@ == v@[j]@,
        decreases v.len() - i,
    {
        r.push(v[i].duplicate());
        i = i + 1;
    }
    proof {
        assert(nodes_view(r@) =~= nodes_view(v@));
    }
    r
}

/// An immutable snapshot of the group's ratchet tree, together with the
/// local participant's leaf index and the snapshot's tree hash.
pub struct TreeSync {
    pub nodes: Vec<TreeSyncNode>,
    pub own_leaf_index: u32,
    pub tree_hash: Vec<u8>,
}

impl TreeSync {
    /// The slot views of this snapshot.
    pub open spec fn ts(&self) -> Seq<TreeSyncNodeV> {
        nodes_view(self.nodes@)
    }

    /// The node-array width.
    pub open spec fn width(&self) -> nat {
        self.nodes@.len()
    }

    /// The owner's leaf index.
    pub open spec fn own(&self) -> nat {
        self.own_leaf_index as nat
    }

    /// Structural invariant of a committed snapshot.
    pub open spec fn wf(&self) -> bool {
        &&& tree_wf(self.ts(), self.own())
        &&& rightmost_nonblank(self.ts())
    }

    /// A fresh group of one member: the creator's own leaf, holding the
    /// private key matching its key package.
    pub fn new(key_package: KeyPackage, private_key: Vec<u8>) -> (r: TreeSync)
        ensures
            r.wf(),
            r.width() == 1,
            r.own() == 0,
            r.ts()[0].node == Option::Some(
                NodeV::LeafNode(
                    crate::node::LeafNodeV {
                        key_package: key_package@,
                        private_key: Option::Some(private_key@),
                    },
                ),
            ),
            r.ts()[0].tree_hash is None,
    {
        let leaf = crate::node::LeafNode { key_package, private_key: Option::Some(private_key) };
        let mut nodes: Vec<TreeSyncNode> = Vec::new();
        nodes.push(TreeSyncNode::from_node(Node::LeafNode(leaf)));
        let r = TreeSync { nodes, own_leaf_index: 0, tree_hash: Vec::new() };
        proof {
            assert(r.ts().len() == 1);
            assert(forall|i: int| 0 <= i < 1 ==> #[trigger] parent_unmerged_ok(r.ts(), i));
        }
        r
    }

    /// The number of leaves.
    pub fn leaf_count(&self) -> (r: u32)
        requires
            tree_shape_ok(self.ts()),
        ensures
            r as nat == (self.width() + 1) / 2,
    {
        ((self.nodes.len() - 1) / 2 + 1) as u32
    }

    /// The stored tree hash of this snapshot.
    pub fn tree_hash(&self) -> (r: &Vec<u8>)
        ensures
            r@ == self.tree_hash@,
    {
        &self.tree_hash
    }

    /// Merge a staged diff, producing the next snapshot.
    pub fn merge_diff(&self, staged: StagedTreeSyncDiff) -> (r: TreeSync)
        ensures
            r.ts() == nodes_view(staged.diff@),
            r.own() == self.own(),
            r.tree_hash@ == staged.new_tree_hash@,
    {
        let (diff, new_tree_hash) = staged.into_parts();
        TreeSync { nodes: diff, own_leaf_index: self.own_leaf_index, tree_hash: new_tree_hash }
    }

    /// Export the node array of this snapshot.
    pub fn export_nodes(&self) -> (r: Vec<TreeSyncNode>)
        ensures
            nodes_view(r@) == self.ts(),
    {
        duplicate_nodes(&self.nodes)
    }
}

/// An immutable, merge-able record of a finished diff: the new node
/// array and the new tree hash.
pub struct StagedTreeSyncDiff {
    pub diff: Vec<TreeSyncNode>,
    pub new_tree_hash: Vec<u8>,
}

impl StagedTreeSyncDiff {
    /// Surrender the parts of this staged diff.
    pub fn into_parts(self) -> (r: (Vec<TreeSyncNode>, Vec<u8>))
        ensures
            r.0 == self.diff,
            r.1 == self.new_tree_hash,
    {
        (self.diff, self.new_tree_hash)
    }
}

} // verus!
