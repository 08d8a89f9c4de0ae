//! Library-wide laws: invariant preservation of the tree mutators, and
//! determinism of the tree hash. Each law is stated over the same spec
//! functions that the executable operations' contracts use.

use vstd::prelude::*;
use crate::node::{NodeV, LeafNodeV, KeyPackageV, TreeSyncNodeV, slot_has_private_key};
use crate::treesync::{
    tree_shape_ok, tree_wf, parent_unmerged_ok, unmerged_entry_ok, blank_slot, spec_subtree_hash,
};
use crate::diff::{
    spec_path_overwrite, on_direct_path, spec_trim, spec_add_leaf, spec_add_base, spec_add_index,
    spec_add_bump, spec_free_leaf, spec_last_blank_upto, spec_blank_leaf,
};
use crate::tree_math::{is_below, root_index, lemma_root_facts, lemma_odd_level};
use crate::crypto::CryptoProvider;

verus! {

/// Tree-hash determinism: the canonical tree hash reads only the node
/// contents, so two trees that agree on every slot's node — whatever
/// their cached hashes or held private keys — have the same tree hash.
pub proof fn lemma_tree_hash_deterministic<P: CryptoProvider>(
    provider: P,
    ciphersuite: u16,
    ts1: Seq<TreeSyncNodeV>,
    ts2: Seq<TreeSyncNodeV>,
)
    requires
        ts1.len() == ts2.len(),
        ts1.len() % 2 == 1,
        ts1.len() >= 1,
        forall|i: int| 0 <= i < ts1.len() ==> (#[trigger] ts1[i]).node == ts2[i].node,
    ensures
        spec_subtree_hash(provider, ciphersuite, ts1, root_index(ts1.len()))
            == spec_subtree_hash(provider, ciphersuite, ts2, root_index(ts2.len())),
{
    lemma_root_facts(ts1.len());
    crate::diff::lemma_subtree_hash_frame(
        provider,
        ciphersuite,
        ts1,
        ts2,
        root_index(ts1.len()),
    );
}

/// Updating a leaf preserves the structural invariant, as long as a
/// leaf carrying a private key is only installed at the owner's index.
pub proof fn lemma_update_leaf_wf(ts: Seq<TreeSyncNodeV>, own: nat, i: nat, leaf: LeafNodeV)
    requires
        tree_wf(ts, own),
        2 * i < ts.len(),
        leaf.private_key is Some ==> i == own,
    ensures
        tree_wf(
            spec_path_overwrite(ts, 2 * i, true).update(
                2 * (i as int),
                TreeSyncNodeV {
                    node: Option::Some(NodeV::LeafNode(leaf)),
                    tree_hash: Option::None,
                },
            ),
            own,
        ),
{
    let mid = spec_path_overwrite(ts, 2 * i, true);
    let ts2 = mid.update(
        2 * (i as int),
        TreeSyncNodeV { node: Option::Some(NodeV::LeafNode(leaf)), tree_hash: Option::None },
    );
    assert forall|p: int|
        0 <= p < ts2.len() implies match (#[trigger] ts2[p]).node {
        Option::Some(NodeV::LeafNode(_)) => p % 2 == 0,
        Option::Some(NodeV::ParentNode(_)) => p % 2 == 1,
        Option::None => true,
    } by {}
    assert forall|p: int|
        0 <= p < ts2.len() && slot_has_private_key(#[trigger] ts2[p]) implies (p == 2 * own || (p
        % 2 == 1 && is_below(2 * own, p as nat))) by {
        if p != 2 * (i as int) && !on_direct_path(2 * i, p, ts.len()) {
            assert(ts2[p] == ts[p]);
        }
    }
    assert forall|p: int| 0 <= p < ts2.len() implies #[trigger] parent_unmerged_ok(ts2, p) by {
        assert(parent_unmerged_ok(ts, p));
        match ts2[p].node {
            Option::Some(NodeV::ParentNode(pn)) => {
                assert(ts2[p] == ts[p]);
                assert forall|j: int|
                    0 <= j < pn.unmerged_leaves.len() implies unmerged_entry_ok(
                    ts2,
                    p,
                    #[trigger] pn.unmerged_leaves[j],
                ) by {
                    assert(unmerged_entry_ok(ts, p, pn.unmerged_leaves[j]));
                    let u = pn.unmerged_leaves[j];
                    if 2 * (u as int) != 2 * (i as int) {
                        assert(!on_direct_path(2 * i, 2 * (u as int), ts.len())) by {
                            lemma_odd_level(2 * (u as nat));
                        }
                        assert(ts2[2 * (u as int)] == ts[2 * (u as int)]);
                    }
                }
            },
            _ => {},
        }
    }
}

/// No leaf below `m` is blank, so the scan finds no free slot.
pub proof fn lemma_no_blank_upto(ts: Seq<TreeSyncNodeV>, m: nat)
    requires
        forall|j: int| 0 <= j < m ==> (#[trigger] ts[2 * j]).node is Some,
    ensures
        spec_last_blank_upto(ts, m) is None,
    decreases m,
{
    if m > 0 {
        lemma_no_blank_upto(ts, (m - 1) as nat);
    }
}

/// Exactly leaf `i` is blank below `m`, so the scan finds `i`.
pub proof fn lemma_single_blank_upto(ts: Seq<TreeSyncNodeV>, m: nat, i: nat)
    requires
        i < m,
        ts[2 * (i as int)].node is None,
        forall|j: int| 0 <= j < m && j != i ==> (#[trigger] ts[2 * j]).node is Some,
    ensures
        spec_last_blank_upto(ts, m) == Option::Some(i),
    decreases m,
{
    if m - 1 == i {
    } else {
        lemma_single_blank_upto(ts, (m - 1) as nat, i);
    }
}

} // verus!

verus! {

/// A found free slot lies below the scan bound.
pub proof fn lemma_last_blank_bound(ts: Seq<TreeSyncNodeV>, m: nat)
    ensures
        spec_last_blank_upto(ts, m) is Some ==> spec_last_blank_upto(ts, m)->0 < m,
    decreases m,
{
    if m > 0 {
        lemma_last_blank_bound(ts, (m - 1) as nat);
    }
}

/// Adding a leaf preserves the structural invariant: the new leaf holds
/// no private key, and every direct-path node that records it as
/// unmerged is one of its ancestors.
pub proof fn lemma_add_leaf_wf(ts: Seq<TreeSyncNodeV>, own: nat, kp: KeyPackageV)
    requires
        tree_wf(ts, own),
        spec_free_leaf(ts) is None ==> ts.len() + 2 <= crate::tree_math::MAX_NODE_WIDTH,
    ensures
        tree_wf(spec_add_leaf(ts, kp), own),
{
    let idx = spec_add_index(ts);
    let base0 = spec_add_base(ts);
    lemma_last_blank_bound(ts, ((ts.len() + 1) / 2) as nat);
    assert(2 * idx < base0.len());
    let base = base0.update(
        2 * (idx as int),
        TreeSyncNodeV {
            node: Option::Some(
                NodeV::LeafNode(LeafNodeV { key_package: kp, private_key: Option::None }),
            ),
            tree_hash: Option::None,
        },
    );
    let ts2 = spec_add_leaf(ts, kp);
    assert(ts2.len() == base.len());
    assert forall|p: int|
        0 <= p < ts2.len() implies match (#[trigger] ts2[p]).node {
        Option::Some(NodeV::LeafNode(_)) => p % 2 == 0,
        Option::Some(NodeV::ParentNode(_)) => p % 2 == 1,
        Option::None => true,
    } by {
        if on_direct_path(2 * idx, p, base.len()) {
            assert(ts2[p] == spec_add_bump(base[p], idx as u32));
        }
    }
    assert forall|p: int|
        0 <= p < ts2.len() && slot_has_private_key(#[trigger] ts2[p]) implies (p == 2 * own || (p
        % 2 == 1 && is_below(2 * own, p as nat))) by {
        if on_direct_path(2 * idx, p, base.len()) {
            assert(ts2[p] == spec_add_bump(base[p], idx as u32));
            assert(slot_has_private_key(base[p]));
        }
        if p < ts.len() && p != 2 * (idx as int) {
            assert(slot_has_private_key(ts[p]));
        }
    }
    assert forall|p: int| 0 <= p < ts2.len() implies #[trigger] parent_unmerged_ok(ts2, p) by {
        if p < ts.len() {
            assert(parent_unmerged_ok(ts, p));
        }
        match ts2[p].node {
            Option::Some(NodeV::ParentNode(pn)) => {
                assert forall|j: int|
                    0 <= j < pn.unmerged_leaves.len() implies unmerged_entry_ok(
                    ts2,
                    p,
                    #[trigger] pn.unmerged_leaves[j],
                ) by {
                    let u = pn.unmerged_leaves[j];
                    if on_direct_path(2 * idx, p, base.len()) {
                        assert(ts2[p] == spec_add_bump(base[p], idx as u32));
                        if j < pn.unmerged_leaves.len() - 1 || !(base[p].node matches Option::Some(
                            NodeV::ParentNode(_),
                        )) {
                        }
                        // the entry is either inherited or the new leaf
                        let old_pn = base[p].node->0->ParentNode_0;
                        assert(p < ts.len() && base[p] == ts[p]);
                        if j < old_pn.unmerged_leaves.len() {
                            assert(u == old_pn.unmerged_leaves[j]);
                            assert(unmerged_entry_ok(ts, p, u));
                            assert(2 * (u as int) < ts2.len());
                            if 2 * (u as int) != 2 * (idx as int) {
                                assert(!on_direct_path(2 * idx, 2 * (u as int), base.len())) by {
                                    lemma_odd_level(2 * (u as nat));
                                }
                                assert(ts2[2 * (u as int)] == base[2 * (u as int)]);
                                assert(base[2 * (u as int)] == ts[2 * (u as int)]);
                            } else {
                                assert(ts2[2 * (u as int)] == base[2 * (u as int)]);
                            }
                        } else {
                            assert(u == idx as u32);
                            assert(2 * (u as nat) == 2 * idx);
                            assert(!on_direct_path(2 * idx, 2 * (idx as int), base.len())) by {
                                lemma_odd_level(2 * idx);
                            }
                            assert(ts2[2 * (u as int)] == base[2 * (u as int)]);
                            assert(is_below(2 * (u as nat), p as nat));
                        }
                    } else {
                        assert(ts2[p] == base[p]);
                        assert(p < ts.len() && base[p] == ts[p]);
                        assert(unmerged_entry_ok(ts, p, u));
                        if 2 * (u as int) != 2 * (idx as int) {
                            assert(!on_direct_path(2 * idx, 2 * (u as int), base.len())) by {
                                lemma_odd_level(2 * (u as nat));
                            }
                            assert(ts2[2 * (u as int)] == base[2 * (u as int)] && base[2 * (
                            u as int)] == ts[2 * (u as int)]);
                        } else {
                            assert(!on_direct_path(2 * idx, 2 * (u as int), base.len())) by {
                                lemma_odd_level(2 * (u as nat));
                            }
                            assert(ts2[2 * (u as int)] == base[2 * (u as int)]);
                        }
                    }
                }
            },
            _ => {},
        }
    }
}

/// Trimming preserves the structural invariant, and never removes the
/// owner's non-blank leaf.
pub proof fn lemma_trim_wf(ts: Seq<TreeSyncNodeV>, own: nat)
    requires
        tree_wf(ts, own),
        ts[2 * (own as int)].node is Some,
    ensures
        tree_wf(spec_trim(ts), own),
        spec_trim(ts)[2 * (own as int)] == ts[2 * (own as int)],
    decreases ts.len(),
{
    if ts.len() <= 1 || ts[ts.len() - 1].node is Some {
    } else {
        let w = ts.len();
        let er = spec_path_overwrite(ts, (w - 1) as nat, false);
        let mid = er.take(w - 2);
        assert(2 * own != w - 1);
        assert(2 * own < w - 2) by {
            lemma_odd_level((w - 2) as nat);
        }
        assert(!on_direct_path((w - 1) as nat, 2 * (own as int), w)) by {
            lemma_odd_level(2 * own);
        }
        assert(mid[2 * (own as int)] == ts[2 * (own as int)]);
        assert forall|p: int|
            0 <= p < mid.len() implies (#[trigger] mid[p]).node == ts[p].node by {}
        assert forall|p: int|
            0 <= p < mid.len() implies match (#[trigger] mid[p]).node {
            Option::Some(NodeV::LeafNode(_)) => p % 2 == 0,
            Option::Some(NodeV::ParentNode(_)) => p % 2 == 1,
            Option::None => true,
        } by {}
        assert forall|p: int|
            0 <= p < mid.len() && slot_has_private_key(#[trigger] mid[p]) implies (p == 2 * own
            || (p % 2 == 1 && is_below(2 * own, p as nat))) by {
            assert(slot_has_private_key(ts[p]));
        }
        assert forall|p: int| 0 <= p < mid.len() implies #[trigger] parent_unmerged_ok(
            mid,
            p,
        ) by {
            assert(parent_unmerged_ok(ts, p));
            match mid[p].node {
                Option::Some(NodeV::ParentNode(pn)) => {
                    assert(ts[p].node == mid[p].node);
                    assert forall|j: int|
                        0 <= j < pn.unmerged_leaves.len() implies unmerged_entry_ok(
                        mid,
                        p,
                        #[trigger] pn.unmerged_leaves[j],
                    ) by {
                        let u = pn.unmerged_leaves[j];
                        assert(unmerged_entry_ok(ts, p, u));
                        assert(2 * (u as int) != w - 1);
                        assert(2 * (u as int) != w - 2) by {
                            lemma_odd_level((w - 2) as nat);
                            lemma_odd_level(2 * (u as nat));
                        }
                        assert(2 * (u as int) < w - 2);
                        assert(mid[2 * (u as int)].node == ts[2 * (u as int)].node);
                    }
                },
                _ => {},
            }
        }
        lemma_trim_wf(mid, own);
    }
}

/// Blanking a leaf other than the owner's preserves the structural
/// invariant: every node that records the blanked leaf as unmerged is
/// one of its ancestors and is itself blanked, and the trim that
/// follows cannot reach the owner's non-blank leaf.
pub proof fn lemma_blank_leaf_wf(ts: Seq<TreeSyncNodeV>, own: nat, i: nat)
    requires
        tree_wf(ts, own),
        2 * i < ts.len(),
        i != own,
        ts[2 * (own as int)].node is Some,
    ensures
        tree_wf(spec_blank_leaf(ts, i), own),
    decreases ts.len(),
{
    let upd = ts.update(2 * (i as int), blank_slot());
    let mid = spec_path_overwrite(upd, 2 * i, true);
    assert forall|p: int|
        0 <= p < mid.len() implies match (#[trigger] mid[p]).node {
        Option::Some(NodeV::LeafNode(_)) => p % 2 == 0,
        Option::Some(NodeV::ParentNode(_)) => p % 2 == 1,
        Option::None => true,
    } by {}
    assert forall|p: int|
        0 <= p < mid.len() && slot_has_private_key(#[trigger] mid[p]) implies (p == 2 * own || (p
        % 2 == 1 && is_below(2 * own, p as nat))) by {
        if p != 2 * (i as int) && !on_direct_path(2 * i, p, ts.len()) {
            assert(mid[p] == ts[p]);
            assert(slot_has_private_key(ts[p]));
        }
    }
    assert forall|p: int| 0 <= p < mid.len() implies #[trigger] parent_unmerged_ok(mid, p) by {
        assert(parent_unmerged_ok(ts, p));
        match mid[p].node {
            Option::Some(NodeV::ParentNode(pn)) => {
                assert(!on_direct_path(2 * i, p, ts.len()));
                assert(p != 2 * (i as int));
                assert(mid[p] == ts[p]);
                assert forall|j: int|
                    0 <= j < pn.unmerged_leaves.len() implies unmerged_entry_ok(
                    mid,
                    p,
                    #[trigger] pn.unmerged_leaves[j],
                ) by {
                    let u = pn.unmerged_leaves[j];
                    assert(unmerged_entry_ok(ts, p, u));
                    if u as nat == i {
                        // a recording node is an ancestor of the blanked
                        // leaf, hence on its blanked direct path
                        lemma_odd_level(p as nat);
                        lemma_odd_level(2 * i);
                        assert(on_direct_path(2 * i, p, ts.len()));
                        assert(false);
                    }
                    assert(!on_direct_path(2 * i, 2 * (u as int), ts.len())) by {
                        lemma_odd_level(2 * (u as nat));
                    }
                    assert(mid[2 * (u as int)] == ts[2 * (u as int)]);
                }
            },
            _ => {},
        }
    }
    assert(2 * own != 2 * i);
    assert(!on_direct_path(2 * i, 2 * (own as int), ts.len())) by {
        lemma_odd_level(2 * own);
    }
    assert(mid[2 * (own as int)] == ts[2 * (own as int)]);
    lemma_trim_wf(mid, own);
}

} // verus!

verus! {

/// Blanking any leaf of a fully occupied tree and then adding a member
/// reuses exactly that leaf index — it is the rightmost blank at that
/// moment — and leaves the leaf count unchanged.
pub proof fn lemma_blank_then_add_reuses_index(
    ts: Seq<TreeSyncNodeV>,
    i: nat,
    kp: KeyPackageV,
)
    requires
        tree_shape_ok(ts),
        ts.len() >= 3,
        forall|j: int| 0 <= j < (ts.len() + 1) / 2 ==> (#[trigger] ts[2 * j]).node is Some,
        i < ((ts.len() + 1) / 2) as nat,
    ensures
        spec_add_index(spec_blank_leaf(ts, i)) == i,
        (spec_add_leaf(spec_blank_leaf(ts, i), kp).len() + 1) / 2 == (ts.len() + 1) / 2,
{
    let n = ((ts.len() + 1) / 2) as nat;
    let w = ts.len();
    let upd = ts.update(2 * (i as int), blank_slot());
    let mid = spec_path_overwrite(upd, 2 * i, true);
    // leaf slots after blanking: exactly leaf i is blank
    assert forall|j: int| 0 <= j < n && j != i implies (#[trigger] mid[2 * j]).node is Some by {
        assert(!on_direct_path(2 * i, 2 * j, w)) by {
            lemma_odd_level(2 * (j as nat));
        }
        assert(mid[2 * j] == ts[2 * j]);
    }
    assert(!on_direct_path(2 * i, 2 * (i as int), w)) by {
        lemma_odd_level(2 * i);
    }
    assert(mid[2 * (i as int)].node is None);
    if i + 1 == n {
        // the blanked leaf is the rightmost: the trim removes exactly
        // this leaf and its parent slot, and stops at leaf n - 2
        assert(mid[w - 1].node is None);
        let er = spec_path_overwrite(mid, (w - 1) as nat, false);
        let mid2 = er.take(w - 2);
        assert(spec_trim(mid) == spec_trim(mid2));
        assert forall|j: int| 0 <= j < n - 1 implies (#[trigger] mid2[2 * j]).node is Some by {
            assert(mid2[2 * j].node == mid[2 * j].node);
        }
        if w - 2 == 1 {
            assert(spec_trim(mid2) == mid2);
        } else {
            assert(mid2[w - 3].node is Some) by {
                assert(w - 3 == 2 * ((n - 2) as int));
                assert(mid[2 * ((n - 2) as int)].node is Some);
                assert(mid2[w - 3].node == mid[w - 3].node);
            }
            assert(spec_trim(mid2) == mid2);
        }
        let tr = spec_blank_leaf(ts, i);
        assert(tr == mid2);
        lemma_no_blank_upto(tr, ((tr.len() + 1) / 2) as nat);
        assert(spec_free_leaf(tr) is None);
        assert(spec_add_index(tr) == ((tr.len() + 1) / 2) as nat);
        assert(((tr.len() + 1) / 2) as nat == i);
    } else {
        // an interior leaf: the rightmost leaf stays occupied and the
        // trim is a no-op, so the scan finds exactly leaf i
        assert(mid[w - 1].node is Some) by {
            assert(w - 1 == 2 * ((n - 1) as int));
        }
        assert(spec_trim(mid) == mid);
        let tr = spec_blank_leaf(ts, i);
        assert(tr == mid);
        lemma_single_blank_upto(tr, n, i);
        assert(spec_free_leaf(tr) == Option::Some(i));
        assert(spec_add_index(tr) == i);
    }
}

} // verus!

verus! {

/// Adding a leaf records it along its direct path: every slot on the
/// new leaf's direct path loses its cached tree hash, and a non-blank
/// parent there additionally gains exactly the new leaf index at the
/// end of its unmerged leaves. Every other slot, apart from the filled
/// leaf slot itself, stays as it was.
pub proof fn lemma_add_leaf_records_unmerged(ts: Seq<TreeSyncNodeV>, kp: KeyPackageV)
    requires
        tree_shape_ok(ts),
        spec_free_leaf(ts) is None ==> ts.len() + 2 <= crate::tree_math::MAX_NODE_WIDTH,
    ensures
        ({
            let i = spec_add_index(ts);
            let base = spec_add_base(ts).update(
                2 * (i as int),
                TreeSyncNodeV {
                    node: Option::Some(
                        NodeV::LeafNode(LeafNodeV { key_package: kp, private_key: Option::None }),
                    ),
                    tree_hash: Option::None,
                },
            );
            let r = spec_add_leaf(ts, kp);
            &&& r.len() == base.len()
            &&& forall|p: int|
                on_direct_path(2 * i, p, base.len()) ==> (#[trigger] r[p]).tree_hash is None && (
                match base[p].node {
                    Option::Some(NodeV::ParentNode(pn)) => r[p].node == Option::Some(
                        NodeV::ParentNode(
                            crate::node::ParentNodeV {
                                unmerged_leaves: pn.unmerged_leaves.push(i as u32),
                                ..pn
                            },
                        ),
                    ),
                    _ => r[p].node == base[p].node,
                })
            &&& forall|p: int|
                0 <= p < base.len() && !on_direct_path(2 * i, p, base.len()) ==> (#[trigger] r[p])
                    == base[p]
        }),
{
    let i = spec_add_index(ts);
    let base = spec_add_base(ts).update(
        2 * (i as int),
        TreeSyncNodeV {
            node: Option::Some(
                NodeV::LeafNode(LeafNodeV { key_package: kp, private_key: Option::None }),
            ),
            tree_hash: Option::None,
        },
    );
    let r = spec_add_leaf(ts, kp);
    assert forall|p: int| on_direct_path(2 * i, p, base.len()) implies (#[trigger] r[p]).tree_hash
        is None && (match base[p].node {
        Option::Some(NodeV::ParentNode(pn)) => r[p].node == Option::Some(
            NodeV::ParentNode(
                crate::node::ParentNodeV {
                    unmerged_leaves: pn.unmerged_leaves.push(i as u32),
                    ..pn
                },
            ),
        ),
        _ => r[p].node == base[p].node,
    }) by {
        assert(r[p] == spec_add_bump(base[p], i as u32));
    }
}

} // verus!
