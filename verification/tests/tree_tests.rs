use treesync::crypto::{CryptoProvider, ReferenceCryptoProvider};
use treesync::diff::TreeSyncDiffError;
use treesync::node::{
    KeyPackage, KeyPackageBundlePayload, LeafNode, Node, ParentNode, TreeSyncNode,
};
use treesync::treesync::TreeSync;

const CS: u16 = 1;

fn kp(tag: u8) -> KeyPackage {
    KeyPackage {
        public_key: vec![10, tag],
        credential: vec![20, tag],
        parent_hash: None,
        signature: vec![30, tag],
    }
}

fn provider() -> ReferenceCryptoProvider {
    ReferenceCryptoProvider
}

/// A group with the given number of members; the creator sits at leaf 0
/// and holds its private key.
fn group(n: u32) -> TreeSync {
    let prov = provider();
    let ts = TreeSync::new(kp(0), vec![40, 0]);
    if n == 1 {
        return ts;
    }
    let mut diff = ts.empty_diff();
    for i in 1..n {
        let got = diff.add_leaf(kp(i as u8)).expect("add_leaf");
        assert_eq!(got, i);
    }
    let staged = diff.into_staged_diff(&prov, CS);
    ts.merge_diff(staged)
}

#[test]
fn single_leaf_tree() {
    let prov = provider();
    let ts = group(1);
    let diff = ts.empty_diff();
    assert_eq!(diff.leaf_count(), 1);
    // a single-leaf tree has no copath
    let cop = diff.copath_resolutions(0, &vec![]).expect("copath");
    assert_eq!(cop.len(), 0);
    // the update path is empty and the commit secret is one derivation
    // step from the leaf secret
    let mut diff = ts.empty_diff();
    let payload = KeyPackageBundlePayload {
        public_key: vec![9],
        credential: vec![8],
        parent_hash: None,
        private_key: vec![7],
        leaf_secret: vec![5],
    };
    let (_bundle, update_nodes, commit) = diff
        .apply_own_update_path(&prov, CS, payload, &vec![1])
        .expect("apply_own_update_path");
    assert_eq!(update_nodes.len(), 0);
    assert_eq!(commit.secret, prov.derive_path_secret(CS, &vec![5]));
}

#[test]
fn add_then_remove() {
    // start with one leaf; the added member gets index 1; blanking it
    // trims the tree back to a single leaf
    let ts = group(1);
    let mut diff = ts.empty_diff();
    assert_eq!(diff.add_leaf(kp(1)).expect("add_leaf"), 1);
    assert_eq!(diff.leaf_count(), 2);
    diff.blank_leaf(1).expect("blank_leaf");
    assert_eq!(diff.leaf_count(), 1);
}

#[test]
fn blank_then_add_reuses_rightmost_blank() {
    // with every leaf occupied, blanking a leaf and adding a member
    // reuses exactly that index, and the leaf count is unchanged
    let ts = group(4);
    let mut diff = ts.empty_diff();
    diff.blank_leaf(1).expect("blank_leaf");
    assert_eq!(diff.add_leaf(kp(9)).expect("add_leaf"), 1);
    assert_eq!(diff.leaf_count(), 4);
}

#[test]
fn update_leaf_blanks_direct_path() {
    let ts = group(4);
    let mut diff = ts.empty_diff();
    let leaf = LeafNode { key_package: kp(7), private_key: None };
    diff.update_leaf(leaf, 1).expect("update_leaf");
    // leaf 1 sits at slot 2; its direct path in a 7-slot tree is the
    // slots 1 and 3, which must now be blank
    let nodes = diff.export_nodes();
    assert_eq!(nodes.len(), 7);
    assert!(nodes[1].is_none());
    assert!(nodes[3].is_none());
    match &nodes[2] {
        Some(Node::LeafNode(l)) => assert_eq!(l.key_package.public_key, vec![10, 7]),
        _ => panic!("leaf 1 must hold the new key package"),
    }
}

#[test]
fn update_leaf_out_of_range() {
    let ts = group(2);
    let mut diff = ts.empty_diff();
    let leaf = LeafNode { key_package: kp(7), private_key: None };
    assert!(matches!(
        diff.update_leaf(leaf, 2),
        Err(TreeSyncDiffError::TreeDiffError(_))
    ));
}

#[test]
fn own_update_path_verifies() {
    // the parent-hash round trip: a diff produced by
    // apply_own_update_path passes verify_parent_hashes
    let prov = provider();
    let ts = group(4);
    let mut diff = ts.empty_diff();
    let payload = KeyPackageBundlePayload {
        public_key: vec![9],
        credential: vec![8],
        parent_hash: None,
        private_key: vec![7],
        leaf_secret: vec![5],
    };
    let (bundle, update_nodes, _commit) = diff
        .apply_own_update_path(&prov, CS, payload, &vec![1])
        .expect("apply_own_update_path");
    assert_eq!(update_nodes.len(), 2);
    assert!(bundle.key_package.parent_hash.is_some());
    diff.verify_parent_hashes(&prov, CS).expect("verify_parent_hashes");
}

#[test]
fn tampered_parent_hash_fails_verification() {
    let prov = provider();
    let ts = group(4);
    let mut diff = ts.empty_diff();
    let payload = KeyPackageBundlePayload {
        public_key: vec![9],
        credential: vec![8],
        parent_hash: None,
        private_key: vec![7],
        leaf_secret: vec![5],
    };
    diff.apply_own_update_path(&prov, CS, payload, &vec![1])
        .expect("apply_own_update_path");
    // corrupt the stored parent hash of the node just above the leaf
    match &mut diff.nodes[1].node {
        Some(Node::ParentNode(pn)) => pn.parent_hash = vec![99, 99],
        _ => panic!("slot 1 must hold a parent node"),
    }
    assert!(matches!(
        diff.verify_parent_hashes(&prov, CS),
        Err(TreeSyncDiffError::InvalidParentHash)
    ));
}

#[test]
fn received_update_path_and_decryption_key() {
    // sender A at leaf 0 creates an update path; receiver B at leaf 1
    // finds its decryption key at the advertised position, decrypts the
    // right path secret, and ends with the same commit secret
    let prov = provider();
    let ts_a = group(4);
    let mut diff_a = ts_a.empty_diff();
    let payload = KeyPackageBundlePayload {
        public_key: vec![9],
        credential: vec![8],
        parent_hash: None,
        private_key: vec![7],
        leaf_secret: vec![5],
    };
    let (bundle, update_nodes, commit_a) = diff_a
        .apply_own_update_path(&prov, CS, payload, &vec![1])
        .expect("apply_own_update_path");
    let copath_res_a = diff_a.copath_resolutions(0, &vec![]).expect("copath");

    // B's copy of the tree before the update, with B's own private key
    // in its leaf
    let mut nodes_b = ts_a.export_nodes();
    nodes_b[2] = TreeSyncNode {
        node: Some(Node::LeafNode(LeafNode {
            key_package: kp(1),
            private_key: Some(vec![40, 1]),
        })),
        tree_hash: None,
    };
    let ts_b = TreeSync { nodes: nodes_b, own_leaf_index: 1, tree_hash: vec![] };
    let mut diff_b = ts_b.empty_diff();

    // B picks the HPKE key it would decrypt A's ciphertext with: its
    // own leaf key, at position 0 of A's copath resolution for B's
    // subtree
    let pos_in_path = diff_b.subtree_root_position(1, 0).expect("position");
    assert_eq!(pos_in_path, 0);
    {
        let (sk, pos) = diff_b.decryption_key(0, &vec![]).expect("decryption_key");
        assert_eq!(pos, 0);
        assert_eq!(sk, &vec![40, 1]);
        // the matching public key sits at the advertised position of
        // A's copath resolution for that level
        assert_eq!(copath_res_a[0][pos], vec![10, 1]);
    }

    // B installs A's public path and derives the shared secrets
    let path: Vec<ParentNode> = update_nodes
        .iter()
        .map(|n| ParentNode {
            public_key: n.public_key.clone(),
            private_key: None,
            parent_hash: vec![],
            unmerged_leaves: vec![],
        })
        .collect();
    diff_b
        .apply_received_update_path(&prov, CS, 0, &bundle.key_package, path)
        .expect("apply_received_update_path");
    diff_b.verify_parent_hashes(&prov, CS).expect("verify after receive");
    let commit_b = diff_b
        .set_path_secrets(&prov, CS, update_nodes[0].path_secret.clone(), 0)
        .expect("set_path_secrets");
    assert_eq!(commit_a.secret, commit_b.secret);
}

#[test]
fn received_update_path_wrong_parent_hash() {
    let prov = provider();
    let ts = group(4);
    let mut diff_b = {
        let nodes = ts.export_nodes();
        TreeSync { nodes, own_leaf_index: 1, tree_hash: vec![] }.empty_diff()
    };
    // a key package without the parent-hash extension is rejected
    let path = vec![
        ParentNode {
            public_key: vec![1],
            private_key: None,
            parent_hash: vec![],
            unmerged_leaves: vec![],
        },
        ParentNode {
            public_key: vec![2],
            private_key: None,
            parent_hash: vec![],
            unmerged_leaves: vec![],
        },
    ];
    assert!(matches!(
        diff_b.apply_received_update_path(&prov, CS, 0, &kp(0), path),
        Err(TreeSyncDiffError::MissingParentHash)
    ));
    // a key package with the wrong parent hash is rejected too
    let mut wrong = kp(0);
    wrong.parent_hash = Some(vec![1, 2, 3]);
    let path = vec![
        ParentNode {
            public_key: vec![1],
            private_key: None,
            parent_hash: vec![],
            unmerged_leaves: vec![],
        },
        ParentNode {
            public_key: vec![2],
            private_key: None,
            parent_hash: vec![],
            unmerged_leaves: vec![],
        },
    ];
    assert!(matches!(
        diff_b.apply_received_update_path(&prov, CS, 0, &wrong, path),
        Err(TreeSyncDiffError::ParentHashMismatch)
    ));
}

#[test]
fn re_apply_own_update_path_round_trip() {
    let prov = provider();
    let ts = group(4);
    // create the path once
    let mut diff1 = ts.empty_diff();
    let payload = KeyPackageBundlePayload {
        public_key: vec![9],
        credential: vec![8],
        parent_hash: None,
        private_key: vec![7],
        leaf_secret: vec![5],
    };
    let (bundle, _nodes, commit1) = diff1
        .apply_own_update_path(&prov, CS, payload, &vec![1])
        .expect("apply_own_update_path");
    // re-create it from the signed bundle on a fresh diff
    let mut diff2 = ts.empty_diff();
    let commit2 = diff2
        .re_apply_own_update_path(&prov, CS, &bundle)
        .expect("re_apply_own_update_path");
    assert_eq!(commit1.secret, commit2.secret);
}

#[test]
fn set_path_secrets_public_key_mismatch() {
    let prov = provider();
    let ts = group(4);
    let mut diff_a = ts.empty_diff();
    let payload = KeyPackageBundlePayload {
        public_key: vec![9],
        credential: vec![8],
        parent_hash: None,
        private_key: vec![7],
        leaf_secret: vec![5],
    };
    let (bundle, update_nodes, _commit) = diff_a
        .apply_own_update_path(&prov, CS, payload, &vec![1])
        .expect("apply_own_update_path");
    let mut diff_b = {
        let nodes = ts.export_nodes();
        TreeSync { nodes, own_leaf_index: 1, tree_hash: vec![] }.empty_diff()
    };
    let path: Vec<ParentNode> = update_nodes
        .iter()
        .map(|n| ParentNode {
            public_key: n.public_key.clone(),
            private_key: None,
            parent_hash: vec![],
            unmerged_leaves: vec![],
        })
        .collect();
    diff_b
        .apply_received_update_path(&prov, CS, 0, &bundle.key_package, path)
        .expect("apply_received_update_path");
    // a wrong starting secret derives the wrong public keys
    assert!(matches!(
        diff_b.set_path_secrets(&prov, CS, vec![255], 0),
        Err(TreeSyncDiffError::PublicKeyMismatch)
    ));
}

#[test]
fn unmerged_leaves_filtering() {
    // an update covering the subtree of {A, B} stays verifiable after a
    // later add records the new member as unmerged on the refreshed node
    let prov = provider();
    let ts = group(3);
    let mut diff = ts.empty_diff();
    let payload = KeyPackageBundlePayload {
        public_key: vec![9],
        credential: vec![8],
        parent_hash: None,
        private_key: vec![7],
        leaf_secret: vec![5],
    };
    diff.apply_own_update_path(&prov, CS, payload, &vec![1])
        .expect("apply_own_update_path");
    diff.verify_parent_hashes(&prov, CS).expect("verify before add");
    let idx = diff.add_leaf(kp(3)).expect("add_leaf");
    assert_eq!(idx, 3);
    // the refreshed node above the root path records the new leaf
    match &diff.nodes[3].node {
        Some(Node::ParentNode(pn)) => assert_eq!(pn.unmerged_leaves, vec![3]),
        other => panic!("slot 3 must hold a parent node, got {:?}", other.is_some()),
    }
    // filtering removes the unmerged leaf before hashing, so the old
    // parent hashes still verify
    diff.verify_parent_hashes(&prov, CS).expect("verify after add");
}

#[test]
fn decryption_key_not_found() {
    let ts = group(4);
    // leaf 1 was added from a bare key package and holds no private key
    let diff = {
        let nodes = ts.export_nodes();
        TreeSync { nodes, own_leaf_index: 1, tree_hash: vec![] }.empty_diff()
    };
    assert!(matches!(
        diff.decryption_key(0, &vec![]),
        Err(TreeSyncDiffError::NoPrivateKeyFound)
    ));
}

#[test]
fn tree_hash_deterministic() {
    // the tree hash reads only node contents: recomputing on an
    // untouched copy gives the same bytes, and an update changes them
    let prov = provider();
    let ts = group(3);
    let h1 = ts.empty_diff().compute_tree_hash(&prov, CS);
    let h2 = ts.empty_diff().compute_tree_hash(&prov, CS);
    assert_eq!(h1, h2);
    let mut diff = ts.empty_diff();
    let leaf = LeafNode { key_package: kp(9), private_key: None };
    diff.update_leaf(leaf, 1).expect("update_leaf");
    let h3 = diff.compute_tree_hash(&prov, CS);
    assert_ne!(h1, h3);
    // dropping the diff and recomputing on the original still gives the
    // original hash
    let h4 = ts.empty_diff().compute_tree_hash(&prov, CS);
    assert_eq!(h1, h4);
}

#[test]
fn staged_diff_merge_carries_tree_hash() {
    let prov = provider();
    let ts = group(2);
    let mut diff = ts.empty_diff();
    let expected = diff.compute_tree_hash(&prov, CS);
    let staged = diff.into_staged_diff(&prov, CS);
    let merged = ts.merge_diff(staged);
    assert_eq!(merged.tree_hash(), &expected);
    assert_eq!(merged.own_leaf_index, 0);
    assert_eq!(merged.leaf_count(), 2);
}

#[test]
fn received_update_path_wrong_length() {
    let prov = provider();
    let ts = group(4);
    let mut diff_b = {
        let nodes = ts.export_nodes();
        TreeSync { nodes, own_leaf_index: 1, tree_hash: vec![] }.empty_diff()
    };
    // leaf 0's direct path has two nodes; a one-node path is refused
    let path = vec![ParentNode {
        public_key: vec![1],
        private_key: None,
        parent_hash: vec![],
        unmerged_leaves: vec![],
    }];
    assert!(matches!(
        diff_b.apply_received_update_path(&prov, CS, 0, &kp(0), path),
        Err(TreeSyncDiffError::PathLengthError)
    ));
}

#[test]
fn subtree_root_position_single_leaf() {
    // a single-leaf tree has no direct path to search
    let ts = group(1);
    let diff = ts.empty_diff();
    assert!(matches!(
        diff.subtree_root_position(0, 0),
        Err(TreeSyncDiffError::LibraryError)
    ));
}
