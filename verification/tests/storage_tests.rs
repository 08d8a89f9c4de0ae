use treesync::storage::{proposal_queue_refs_label, MemoryKeyStore, MemoryKeyStoreError, CURRENT_VERSION};

#[test]
fn write_read_delete_round_trip() {
    // for a sample of labels: write followed by read returns the value;
    // delete followed by read returns absence
    let mut store = MemoryKeyStore::new();
    let gid = vec![1, 2, 3];

    store.write_tree(&gid, vec![10]);
    assert_eq!(store.treesync(&gid), Some(vec![10]));

    store.write_context(&gid, vec![11]);
    assert_eq!(store.group_context(&gid), Some(vec![11]));

    store.write_interim_transcript_hash(&gid, vec![12]);
    assert_eq!(store.interim_transcript_hash(&gid), Some(vec![12]));

    store.write_confirmation_tag(&gid, vec![13]);
    assert_eq!(store.confirmation_tag(&gid), Some(vec![13]));

    let href = vec![9, 9];
    store.write_key_package(&href, vec![14]);
    assert_eq!(store.key_package(&href), Some(vec![14]));
    store.delete_key_package(&href);
    assert_eq!(store.key_package(&href), None);

    store.write_psk(&gid, vec![15]);
    assert_eq!(store.psk(&gid), Some(vec![15]));
    store.delete_psk(&gid);
    assert_eq!(store.psk(&gid), None);

    store.write_signature_key_pair(&gid, vec![16]);
    assert_eq!(store.signature_key_pair(&gid), Some(vec![16]));
    store.delete_signature_key_pair(&gid);
    assert_eq!(store.signature_key_pair(&gid), None);

    store.write_encryption_key_pair(&gid, vec![17]);
    assert_eq!(store.encryption_key_pair(&gid), Some(vec![17]));
    store.delete_encryption_key_pair(&gid);
    assert_eq!(store.encryption_key_pair(&gid), None);

    store.write_group_state(&gid, vec![18]);
    assert_eq!(store.group_state(&gid), Some(vec![18]));
    store.delete_group_state(&gid);
    assert_eq!(store.group_state(&gid), None);

    store.write_message_secrets(&gid, vec![19]);
    assert_eq!(store.message_secrets(&gid), Some(vec![19]));
    store.delete_message_secrets(&gid);
    assert_eq!(store.message_secrets(&gid), None);

    store.write_resumption_psk_store(&gid, vec![20]);
    assert_eq!(store.resumption_psk_store(&gid), Some(vec![20]));
    store.delete_all_resumption_psk_secrets(&gid);
    assert_eq!(store.resumption_psk_store(&gid), None);

    store.write_group_epoch_secrets(&gid, vec![21]);
    assert_eq!(store.group_epoch_secrets(&gid), Some(vec![21]));
    store.delete_group_epoch_secrets(&gid);
    assert_eq!(store.group_epoch_secrets(&gid), None);

    store.write_mls_join_config(&gid, vec![22]);
    assert_eq!(store.mls_group_join_config(&gid), Some(vec![22]));

    // writes are idempotent overwrites
    store.write_tree(&gid, vec![23]);
    assert_eq!(store.treesync(&gid), Some(vec![23]));

    // deleting an absent key succeeds silently
    store.delete_group_state(&vec![7, 7, 7]);
}

#[test]
fn own_leaf_index_and_ratchet_tree_flag() {
    let mut store = MemoryKeyStore::new();
    let gid = vec![4];
    assert_eq!(store.own_leaf_index(&gid), None);
    store.write_own_leaf_index(&gid, 7);
    assert_eq!(store.own_leaf_index(&gid), Some(7));
    store.delete_own_leaf_index(&gid);
    assert_eq!(store.own_leaf_index(&gid), None);

    assert_eq!(store.use_ratchet_tree_extension(&gid), None);
    store.set_use_ratchet_tree_extension(&gid, true);
    assert_eq!(store.use_ratchet_tree_extension(&gid), Some(true));
    store.set_use_ratchet_tree_extension(&gid, false);
    assert_eq!(store.use_ratchet_tree_extension(&gid), Some(false));
    store.delete_use_ratchet_tree_extension(&gid);
    assert_eq!(store.use_ratchet_tree_extension(&gid), None);
}

#[test]
fn aad_absent_is_empty() {
    let mut store = MemoryKeyStore::new();
    let gid = vec![5];
    assert_eq!(store.aad(&gid), Vec::<u8>::new());
    store.write_aad(&gid, vec![1, 2]);
    assert_eq!(store.aad(&gid), vec![1, 2]);
}

#[test]
fn epoch_key_pairs_round_trip() {
    let mut store = MemoryKeyStore::new();
    let gid = vec![6];
    let epoch = vec![0, 1];
    // a missing entry is an error, not an empty list
    assert!(matches!(
        store.encryption_epoch_key_pairs(&gid, &epoch, 0),
        Err(MemoryKeyStoreError::NotFound)
    ));
    store.write_encryption_epoch_key_pairs(&gid, &epoch, 0, &vec![vec![1], vec![2]]);
    assert_eq!(
        store.encryption_epoch_key_pairs(&gid, &epoch, 0).expect("key pairs"),
        vec![vec![1], vec![2]]
    );
    // the leaf index is part of the sub-key
    assert!(store.encryption_epoch_key_pairs(&gid, &epoch, 1).is_err());
    store.delete_encryption_epoch_key_pairs(&gid, &epoch, 0);
    assert!(store.encryption_epoch_key_pairs(&gid, &epoch, 0).is_err());
}

#[test]
fn proposal_queue_keeps_insertion_order() {
    let mut store = MemoryKeyStore::new();
    let gid = vec![9];
    let r1 = vec![101];
    let r2 = vec![102];
    store.queue_proposal(&gid, &r1, vec![201]).expect("queue first");
    assert_eq!(
        store.queued_proposal_refs(&gid).expect("refs"),
        vec![vec![101]]
    );
    store.queue_proposal(&gid, &r2, vec![202]).expect("queue second");
    assert_eq!(
        store.queued_proposal_refs(&gid).expect("refs"),
        vec![vec![101], vec![102]]
    );
    let proposals = store.queued_proposals(&gid).expect("proposals");
    assert_eq!(
        proposals,
        vec![(vec![101], vec![201]), (vec![102], vec![202])]
    );
    // clearing the queue entry leaves the reference list in place
    store.clear_proposal_queue(&gid);
    assert_eq!(
        store.queued_proposal_refs(&gid).expect("refs"),
        vec![vec![101], vec![102]]
    );
}

#[test]
fn own_leaf_node_log() {
    let mut store = MemoryKeyStore::new();
    let gid = vec![10];
    assert_eq!(store.own_leaf_nodes(&gid).expect("log"), Vec::<Vec<u8>>::new());
    store.append_own_leaf_node(&gid, vec![1]).expect("append");
    store.append_own_leaf_node(&gid, vec![2]).expect("append");
    assert_eq!(store.own_leaf_nodes(&gid).expect("log"), vec![vec![1], vec![2]]);
    store.clear_own_leaf_nodes(&gid);
    assert_eq!(store.own_leaf_nodes(&gid).expect("log"), Vec::<Vec<u8>>::new());
}

#[test]
fn version_mismatch_reads_absence() {
    // writing under one version and reading under another returns
    // absence, not an error
    let mut store = MemoryKeyStore::new();
    let label = vec![75, 101, 121]; // arbitrary label bytes
    let sub = vec![1];
    store.write(&label, &sub, vec![42], 1);
    assert_eq!(store.read(&label, &sub, 2), None);
    assert_eq!(store.read(&label, &sub, 1), Some(vec![42]));
    assert_eq!(CURRENT_VERSION, 1);
}

use treesync::kv::{HashMapKv, KvGetError, KvInsertError, KvStore, KvStoreStorage, Update};

#[test]
fn backend_get_insert_delete() {
    let mut kv = HashMapKv::new();
    assert!(matches!(kv.get(&vec![1]), Err(KvGetError::NotFound(_))));
    kv.insert(vec![1], vec![10]).expect("insert");
    assert_eq!(kv.get(&vec![1]).expect("get"), vec![10]);
    // a second insertion under the same key reports the old value
    match kv.insert(vec![1], vec![11]) {
        Err(KvInsertError::AlreadyExists(k, v)) => {
            assert_eq!(k, vec![1]);
            assert_eq!(v, vec![10]);
        },
        _ => panic!("insert over an existing key must fail"),
    }
    kv.delete(&vec![1]).expect("delete");
    assert!(matches!(kv.get(&vec![1]), Err(KvGetError::NotFound(_))));
}

#[test]
fn facade_queue_and_read() {
    let mut storage = KvStoreStorage { store: HashMapKv::new() };
    let gid = vec![1];
    storage.queue_proposal(&gid, &vec![101], vec![201]).expect("queue");
    storage.queue_proposal(&gid, &vec![102], vec![202]).expect("queue");
    assert_eq!(
        storage.get_queued_proposal_refs(&gid).expect("refs"),
        vec![vec![101], vec![102]]
    );
    assert_eq!(
        storage.get_queued_proposals(&gid).expect("proposals"),
        vec![vec![201], vec![202]]
    );
}

#[test]
fn undecodable_list_is_a_serialization_error() {
    let mut store = MemoryKeyStore::new();
    let gid = vec![11];
    // bytes that decode as no list of byte strings
    store.write(&proposal_queue_refs_label(), &gid, vec![0xff, 0xfe], CURRENT_VERSION);
    assert!(matches!(
        store.queued_proposal_refs(&gid),
        Err(MemoryKeyStoreError::SerializationError)
    ));
}

#[test]
fn facade_applies_update_batches() {
    let mut storage = KvStoreStorage { store: HashMapKv::new() };
    let gid = vec![2];
    let updates = vec![
        Update::QueueProposal(gid.clone(), vec![111], vec![211]),
        Update::QueueProposal(gid.clone(), vec![112], vec![212]),
    ];
    storage.apply_updates(updates).expect("apply_updates");
    assert_eq!(
        storage.get_queued_proposal_refs(&gid).expect("refs"),
        vec![vec![111], vec![112]]
    );
    assert_eq!(
        storage.get_queued_proposals(&gid).expect("proposals"),
        vec![vec![211], vec![212]]
    );
}

#[test]
fn non_canonical_list_bytes_are_rejected() {
    // a stored list must be exactly the canonical encoding: extra
    // whitespace is rejected rather than silently re-encoded
    let mut store = MemoryKeyStore::new();
    let gid = vec![12];
    store.write(&proposal_queue_refs_label(), &gid, vec![91, 32, 93], CURRENT_VERSION);
    assert!(matches!(
        store.queued_proposal_refs(&gid),
        Err(MemoryKeyStoreError::SerializationError)
    ));
}
