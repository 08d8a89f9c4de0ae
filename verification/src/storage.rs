//! The versioned, labelled storage provider.
//!
//! A `MemoryKeyStore` maps composed storage keys — an ASCII label, a
//! caller-supplied serialized sub-key, and a big-endian version suffix —
//! to serialized values, all plain bytes. Typed operations pair each
//! entity with its well-known label. Lists (the proposal-reference queue
//! and the own-leaf-node log) are stored JSON-encoded and grown by
//! `append`.

use vstd::prelude::*;
use crate::codec::{be16, append_be16, append_bytes, copy_bytes, bytes_eq, enc_bytes, append_enc_bytes};

verus! {

/// The storage-schema version this provider reads and writes.
pub const CURRENT_VERSION: u16 = 1;

/// Errors of the storage provider.
#[derive(Debug, PartialEq, Eq)]
pub enum MemoryKeyStoreError {
    /// The store does not accept raw serialized values here.
    UnsupportedValueTypeBytes,
    /// The operation is not supported by this store.
    UnsupportedMethod,
    /// A stored value could not be decoded.
    SerializationError,
    /// A value was missing where one is required.
    NotFound,
}

/// The name for what `serde_json::to_vec` returns on a list of byte
/// strings.
pub uninterp spec fn byte_lists_json(l: Seq<Seq<u8>>) -> Seq<u8>;

/// Relies on `serde_json::to_vec`: the encoding is a function of the
/// list alone; serializing a vector of byte vectors cannot fail (no
/// non-string map keys, no fallible `Serialize` impls are involved), so
/// the fallback branch is unreachable.
#[verifier::external_body]
pub(crate) fn encode_byte_lists(l: &Vec<Vec<u8>>) -> (r: Vec<u8>)
    ensures
        r@ == byte_lists_json(l.deep_view()),
{
    serde_json::to_vec(l).unwrap_or_default()
}

/// Relies on `serde_json::from_slice`: parsing what `to_vec` produced
/// for a list of byte strings returns exactly that list. This also
/// relies on distinct lists serializing to distinct JSON text, which
/// holds since the encoding spells out every element digit by digit.
#[verifier::external_body]
pub(crate) fn decode_byte_lists(b: &Vec<u8>) -> (r: Option<Vec<Vec<u8>>>)
    ensures
        forall|l: Seq<Seq<u8>>| b@ == #[trigger] byte_lists_json(l) ==> r is Some
            && r->0.deep_view() == l,
{
    serde_json::from_slice::<Vec<Vec<u8>>>(b.as_slice()).ok()
}

/// Decode a stored list strictly: the bytes must be exactly the
/// canonical encoding of some list. Values this store writes always
/// are; anything else is rejected rather than silently re-encoded.
pub(crate) fn decode_canonical_byte_lists(bytes: &Vec<u8>) -> (r: Option<Vec<Vec<u8>>>)
    ensures
        r is Some <==> exists|l: Seq<Seq<u8>>| bytes@ == #[trigger] byte_lists_json(l),
        r is Some ==> bytes@ == byte_lists_json(r->0.deep_view()),
        forall|l: Seq<Seq<u8>>|
            bytes@ == #[trigger] byte_lists_json(l) ==> r is Some && r->0.deep_view() == l,
{
    match decode_byte_lists(bytes) {
        Option::None => Option::None,
        Option::Some(list) => {
            let re = encode_byte_lists(&list);
            if crate::codec::bytes_eq(bytes, &re) {
                proof {
                    assert(bytes@ == byte_lists_json(list.deep_view()));
                }
                Option::Some(list)
            } else {
                proof {
                    if exists|l: Seq<Seq<u8>>| bytes@ == #[trigger] byte_lists_json(l) {
                        let l = choose|l: Seq<Seq<u8>>| bytes@ == #[trigger] byte_lists_json(l);
                        assert(list.deep_view() == l);
                        assert(false);
                    }
                }
                Option::None
            }
        },
    }
}

/// A composed storage key: label, serialized sub-key, big-endian
/// version.
pub open spec fn spec_storage_key(label: Seq<u8>, sub_key: Seq<u8>, version: u16) -> Seq<u8> {
    label + sub_key + be16(version)
}

/// Keys at distinct positions of the entry list are distinct.
pub open spec fn entries_unique(s: Seq<(Vec<u8>, Vec<u8>)>) -> bool {
    forall|i: int, j: int|
        0 <= i < j < s.len() ==> (#[trigger] s[i]).0@ != (#[trigger] s[j]).0@
}

/// The map contents of an entry list.
pub open spec fn entries_map(s: Seq<(Vec<u8>, Vec<u8>)>) -> Map<Seq<u8>, Seq<u8>> {
    Map::new(
        |k: Seq<u8>| exists|i: int| 0 <= i < s.len() && (#[trigger] s[i]).0@ == k,
        |k: Seq<u8>|
            s[choose|i: int| 0 <= i < s.len() && (#[trigger] s[i]).0@ == k].1@,
    )
}

/// The in-memory key-value store behind the provider: an association
/// list with unique keys, modelled as a map from keys to values.
pub struct MemoryKeyStore {
    pub entries: Vec<(Vec<u8>, Vec<u8>)>,
}

impl MemoryKeyStore {
    /// The store's contents as a map.
    pub open spec fn contents(&self) -> Map<Seq<u8>, Seq<u8>> {
        entries_map(self.entries@)
    }

    /// Structural invariant: one entry per key.
    pub open spec fn wf(&self) -> bool {
        entries_unique(self.entries@)
    }

    /// An empty store.
    pub fn new() -> (r: MemoryKeyStore)
        ensures
            r.wf(),
            r.contents() == Map::<Seq<u8>, Seq<u8>>::empty(),
    {
        let r = MemoryKeyStore { entries: Vec::new() };
        proof {
            assert(r.contents() =~= Map::<Seq<u8>, Seq<u8>>::empty());
        }
        r
    }

    /// The position of a raw key, if present.
    fn find_index(&self, key: &Vec<u8>) -> (r: Option<usize>)
        requires
            self.wf(),
        ensures
            r is Some ==> (r->0 as int) < self.entries@.len() && self.entries@[r->0 as int].0@
                == key@,
            r is None ==> !self.contents().contains_key(key@),
    {
        let mut i: usize = 0;
        while i < self.entries.len()
            invariant
                self.wf(),
                i <= self.entries@.len(),
                forall|t: int| 0 <= t < i ==> (#[trigger] self.entries@[t]).0@ != key@,
            decreases self.entries@.len() - i,
        {
            if bytes_eq(&self.entries[i].0, key) {
                return Option::Some(i);
            }
            i = i + 1;
        }
        proof {
            if self.contents().contains_key(key@) {
                let t = choose|t: int|
                    0 <= t < self.entries@.len() && (#[trigger] self.entries@[t]).0@ == key@;
                assert(false);
            }
        }
        Option::None
    }

    /// Insert or overwrite the value under a raw key.
    fn insert_raw(&mut self, key: Vec<u8>, value: Vec<u8>)
        requires
            old(self).wf(),
        ensures
            final(self).wf(),
            final(self).contents() == old(self).contents().insert(key@, value@),
    {
        let idx = self.find_index(&key);
        let ghost pre = self.entries@;
        match idx {
            Option::Some(i) => {
                self.entries[i] = (key, value);
                proof {
                    assert(self.entries@ =~= pre.update(i as int, self.entries@[i as int]));
                    assert forall|a: int, b: int|
                        0 <= a < b < self.entries@.len() implies (#[trigger] self.entries@[a]).0@
                        != (#[trigger] self.entries@[b]).0@ by {
                        assert(pre[a].0@ != pre[b].0@);
                    }
                    lemma_entries_map_update(pre, i as int, self.entries@[i as int]);
                }
            },
            Option::None => {
                self.entries.push((key, value));
                proof {
                    assert forall|a: int, b: int|
                        0 <= a < b < self.entries@.len() implies (#[trigger] self.entries@[a]).0@
                        != (#[trigger] self.entries@[b]).0@ by {
                        if b < pre.len() {
                            assert(pre[a].0@ != pre[b].0@);
                        } else {
                            assert(self.entries@[b].0@ == key@);
                            assert(!entries_map(pre).contains_key(key@));
                        }
                    }
                    lemma_entries_map_push(pre, self.entries@[pre.len() as int]);
                }
            },
        }
    }

    /// Look up the value under a raw key.
    fn get_raw(&self, key: &Vec<u8>) -> (r: Option<&Vec<u8>>)
        requires
            self.wf(),
        ensures
            r is Some <==> self.contents().contains_key(key@),
            r is Some ==> r->0@ == self.contents()[key@],
    {
        let idx = self.find_index(key);
        match idx {
            Option::Some(i) => {
                proof {
                    lemma_entries_map_at(self.entries@, i as int);
                }
                Option::Some(&self.entries[i].1)
            },
            Option::None => Option::None,
        }
    }

    /// Remove the entry under a raw key; removing an absent key is a
    /// no-op.
    fn remove_raw(&mut self, key: &Vec<u8>)
        requires
            old(self).wf(),
        ensures
            final(self).wf(),
            final(self).contents() == old(self).contents().remove(key@),
    {
        let idx = self.find_index(key);
        let ghost pre = self.entries@;
        match idx {
            Option::Some(i) => {
                self.entries.remove(i);
                proof {
                    assert(self.entries@ =~= pre.remove(i as int));
                    assert forall|a: int, b: int|
                        0 <= a < b < self.entries@.len() implies (#[trigger] self.entries@[a]).0@
                        != (#[trigger] self.entries@[b]).0@ by {
                        let a0 = if a < i { a } else { a + 1 };
                        let b0 = if b < i { b } else { b + 1 };
                        assert(self.entries@[a] == pre[a0]);
                        assert(self.entries@[b] == pre[b0]);
                        assert(pre[a0].0@ != pre[b0].0@);
                    }
                    lemma_entries_map_remove(pre, i as int);
                }
            },
            Option::None => {
                proof {
                    assert(self.contents() =~= old(self).contents().remove(key@));
                }
            },
        }
    }
}

/// Updating the entry at a position with the same key updates the map
/// at that key.
pub proof fn lemma_entries_map_update(s: Seq<(Vec<u8>, Vec<u8>)>, i: int, e: (Vec<u8>, Vec<u8>))
    requires
        entries_unique(s),
        0 <= i < s.len(),
        e.0@ == s[i].0@,
    ensures
        entries_map(s.update(i, e)) == entries_map(s).insert(e.0@, e.1@),
{
    let s2 = s.update(i, e);
    assert forall|k: Seq<u8>| true implies #[trigger] entries_map(s2).contains_key(k)
        == entries_map(s).insert(e.0@, e.1@).contains_key(k) by {
        if entries_map(s2).contains_key(k) {
            let t = choose|t: int| 0 <= t < s2.len() && (#[trigger] s2[t]).0@ == k;
            assert(s[t].0@ == k || k == e.0@);
        }
        if entries_map(s).insert(e.0@, e.1@).contains_key(k) {
            if k == e.0@ {
                assert(s2[i].0@ == k);
            } else {
                let t = choose|t: int| 0 <= t < s.len() && (#[trigger] s[t]).0@ == k;
                assert(s2[t].0@ == k);
            }
        }
    }
    assert forall|k: Seq<u8>| entries_map(s2).contains_key(k) implies entries_map(s2)[k]
        == entries_map(s).insert(e.0@, e.1@)[k] by {
        let t = choose|t: int| 0 <= t < s2.len() && (#[trigger] s2[t]).0@ == k;
        if k == e.0@ {
            assert(t == i);
            assert(entries_map(s2)[k] == s2[t].1@);
        } else {
            assert(t != i);
            assert(s[t].0@ == k);
            let t2 = choose|t2: int| 0 <= t2 < s.len() && (#[trigger] s[t2]).0@ == k;
            assert(t2 == t);
            assert(entries_map(s2)[k] == s2[t].1@);
            assert(entries_map(s)[k] == s[t2].1@);
        }
    }
    assert(entries_map(s2) =~= entries_map(s).insert(e.0@, e.1@));
}

/// Appending a fresh key inserts it into the map.
pub proof fn lemma_entries_map_push(s: Seq<(Vec<u8>, Vec<u8>)>, e: (Vec<u8>, Vec<u8>))
    requires
        entries_unique(s),
        !entries_map(s).contains_key(e.0@),
    ensures
        entries_map(s.push(e)) == entries_map(s).insert(e.0@, e.1@),
{
    let s2 = s.push(e);
    assert forall|k: Seq<u8>| true implies #[trigger] entries_map(s2).contains_key(k)
        == entries_map(s).insert(e.0@, e.1@).contains_key(k) by {
        if entries_map(s2).contains_key(k) {
            let t = choose|t: int| 0 <= t < s2.len() && (#[trigger] s2[t]).0@ == k;
            if t < s.len() {
                assert(s[t].0@ == k);
            }
        }
        if entries_map(s).insert(e.0@, e.1@).contains_key(k) {
            if k == e.0@ {
                assert(s2[s.len() as int].0@ == k);
            } else {
                let t = choose|t: int| 0 <= t < s.len() && (#[trigger] s[t]).0@ == k;
                assert(s2[t].0@ == k);
            }
        }
    }
    assert forall|k: Seq<u8>| entries_map(s2).contains_key(k) implies entries_map(s2)[k]
        == entries_map(s).insert(e.0@, e.1@)[k] by {
        let t = choose|t: int| 0 <= t < s2.len() && (#[trigger] s2[t]).0@ == k;
        if k == e.0@ {
            if t < s.len() {
                assert(s[t].0@ == e.0@);
                assert(entries_map(s).contains_key(e.0@));
                assert(false);
            }
            assert(entries_map(s2)[k] == s2[t].1@);
        } else {
            assert(t < s.len());
            assert(s[t].0@ == k);
            let t2 = choose|t2: int| 0 <= t2 < s.len() && (#[trigger] s[t2]).0@ == k;
            assert(t2 == t || (s[t2].0@ == s[t].0@ && t2 != t));
            assert(t2 == t);
            assert(entries_map(s2)[k] == s2[t].1@);
        }
    }
    assert(entries_map(s2) =~= entries_map(s).insert(e.0@, e.1@));
}

/// The entry at a position gives the map's value at its key.
pub proof fn lemma_entries_map_at(s: Seq<(Vec<u8>, Vec<u8>)>, i: int)
    requires
        entries_unique(s),
        0 <= i < s.len(),
    ensures
        entries_map(s).contains_key(s[i].0@),
        entries_map(s)[s[i].0@] == s[i].1@,
{
    let k = s[i].0@;
    assert(s[i].0@ == k);
    let t = choose|t: int| 0 <= t < s.len() && (#[trigger] s[t]).0@ == k;
    assert(t == i);
}

/// Removing an entry removes its key from the map.
pub proof fn lemma_entries_map_remove(s: Seq<(Vec<u8>, Vec<u8>)>, i: int)
    requires
        entries_unique(s),
        0 <= i < s.len(),
    ensures
        entries_map(s.remove(i)) == entries_map(s).remove(s[i].0@),
{
    let s2 = s.remove(i);
    assert forall|k: Seq<u8>| true implies #[trigger] entries_map(s2).contains_key(k)
        == entries_map(s).remove(s[i].0@).contains_key(k) by {
        if entries_map(s2).contains_key(k) {
            let t = choose|t: int| 0 <= t < s2.len() && (#[trigger] s2[t]).0@ == k;
            let t0 = if t < i { t } else { t + 1 };
            assert(s[t0].0@ == k);
            assert(t0 != i);
        }
        if entries_map(s).remove(s[i].0@).contains_key(k) {
            assert(k != s[i].0@);
            let t = choose|t: int| 0 <= t < s.len() && (#[trigger] s[t]).0@ == k;
            assert(t != i);
            let t2 = if t < i { t } else { t - 1 };
            assert(s2[t2].0@ == k);
        }
    }
    assert forall|k: Seq<u8>| entries_map(s2).contains_key(k) implies entries_map(s2)[k]
        == entries_map(s).remove(s[i].0@)[k] by {
        let t = choose|t: int| 0 <= t < s2.len() && (#[trigger] s2[t]).0@ == k;
        let t0 = if t < i { t } else { t + 1 };
        assert(s[t0].0@ == k);
        assert(t0 != i);
        assert(k != s[i].0@);
        let t2 = choose|t2: int| 0 <= t2 < s.len() && (#[trigger] s[t2]).0@ == k;
        assert(t2 == t0);
        assert(entries_map(s2)[k] == s2[t].1@);
        assert(entries_map(s)[k] == s[t0].1@);
    }
    assert(entries_map(s2) =~= entries_map(s).remove(s[i].0@));
}

} // verus!

verus! {

/// The ASCII label `"KeyPackage"`.
pub open spec fn spec_key_package_label() -> Seq<u8> {
    seq![75u8, 101u8, 121u8, 80u8, 97u8, 99u8, 107u8, 97u8, 103u8, 101u8]
}

/// The ASCII label `"KeyPackage"` as bytes.
pub fn key_package_label() -> (r: Vec<u8>)
    ensures
        r@ == spec_key_package_label(),
{
    let mut v: Vec<u8> = Vec::new();
    v.push(75u8);
    v.push(101u8);
    v.push(121u8);
    v.push(80u8);
    v.push(97u8);
    v.push(99u8);
    v.push(107u8);
    v.push(97u8);
    v.push(103u8);
    v.push(101u8);
    proof {
        assert(v@ =~= spec_key_package_label());
    }
    v
}

/// The ASCII label `"Psk"`.
pub open spec fn spec_psk_label() -> Seq<u8> {
    seq![80u8, 115u8, 107u8]
}

/// The ASCII label `"Psk"` as bytes.
pub fn psk_label() -> (r: Vec<u8>)
    ensures
        r@ == spec_psk_label(),
{
    let mut v: Vec<u8> = Vec::new();
    v.push(80u8);
    v.push(115u8);
    v.push(107u8);
    proof {
        assert(v@ =~= spec_psk_label());
    }
    v
}

/// The ASCII label `"EncryptionKeyPair"`.
pub open spec fn spec_encryption_key_pair_label() -> Seq<u8> {
    seq![69u8, 110u8, 99u8, 114u8, 121u8, 112u8, 116u8, 105u8, 111u8, 110u8, 75u8, 101u8, 121u8, 80u8, 97u8, 105u8, 114u8]
}

/// The ASCII label `"EncryptionKeyPair"` as bytes.
pub fn encryption_key_pair_label() -> (r: Vec<u8>)
    ensures
        r@ == spec_encryption_key_pair_label(),
{
    let mut v: Vec<u8> = Vec::new();
    v.push(69u8);
    v.push(110u8);
    v.push(99u8);
    v.push(114u8);
    v.push(121u8);
    v.push(112u8);
    v.push(116u8);
    v.push(105u8);
    v.push(111u8);
    v.push(110u8);
    v.push(75u8);
    v.push(101u8);
    v.push(121u8);
    v.push(80u8);
    v.push(97u8);
    v.push(105u8);
    v.push(114u8);
    proof {
        assert(v@ =~= spec_encryption_key_pair_label());
    }
    v
}

/// The ASCII label `"SignatureKeyPair"`.
pub open spec fn spec_signature_key_pair_label() -> Seq<u8> {
    seq![83u8, 105u8, 103u8, 110u8, 97u8, 116u8, 117u8, 114u8, 101u8, 75u8, 101u8, 121u8, 80u8, 97u8, 105u8, 114u8]
}

/// The ASCII label `"SignatureKeyPair"` as bytes.
pub fn signature_key_pair_label() -> (r: Vec<u8>)
    ensures
        r@ == spec_signature_key_pair_label(),
{
    let mut v: Vec<u8> = Vec::new();
    v.push(83u8);
    v.push(105u8);
    v.push(103u8);
    v.push(110u8);
    v.push(97u8);
    v.push(116u8);
    v.push(117u8);
    v.push(114u8);
    v.push(101u8);
    v.push(75u8);
    v.push(101u8);
    v.push(121u8);
    v.push(80u8);
    v.push(97u8);
    v.push(105u8);
    v.push(114u8);
    proof {
        assert(v@ =~= spec_signature_key_pair_label());
    }
    v
}

/// The ASCII label `"EpochKeyPairs"`.
pub open spec fn spec_epoch_key_pairs_label() -> Seq<u8> {
    seq![69u8, 112u8, 111u8, 99u8, 104u8, 75u8, 101u8, 121u8, 80u8, 97u8, 105u8, 114u8, 115u8]
}

/// The ASCII label `"EpochKeyPairs"` as bytes.
pub fn epoch_key_pairs_label() -> (r: Vec<u8>)
    ensures
        r@ == spec_epoch_key_pairs_label(),
{
    let mut v: Vec<u8> = Vec::new();
    v.push(69u8);
    v.push(112u8);
    v.push(111u8);
    v.push(99u8);
    v.push(104u8);
    v.push(75u8);
    v.push(101u8);
    v.push(121u8);
    v.push(80u8);
    v.push(97u8);
    v.push(105u8);
    v.push(114u8);
    v.push(115u8);
    proof {
        assert(v@ =~= spec_epoch_key_pairs_label());
    }
    v
}

/// The ASCII label `"Tree"`.
pub open spec fn spec_tree_label() -> Seq<u8> {
    seq![84u8, 114u8, 101u8, 101u8]
}

/// The ASCII label `"Tree"` as bytes.
pub fn tree_label() -> (r: Vec<u8>)
    ensures
        r@ == spec_tree_label(),
{
    let mut v: Vec<u8> = Vec::new();
    v.push(84u8);
    v.push(114u8);
    v.push(101u8);
    v.push(101u8);
    proof {
        assert(v@ =~= spec_tree_label());
    }
    v
}

/// The ASCII label `"GroupContext"`.
pub open spec fn spec_group_context_label() -> Seq<u8> {
    seq![71u8, 114u8, 111u8, 117u8, 112u8, 67u8, 111u8, 110u8, 116u8, 101u8, 120u8, 116u8]
}

/// The ASCII label `"GroupContext"` as bytes.
pub fn group_context_label() -> (r: Vec<u8>)
    ensures
        r@ == spec_group_context_label(),
{
    let mut v: Vec<u8> = Vec::new();
    v.push(71u8);
    v.push(114u8);
    v.push(111u8);
    v.push(117u8);
    v.push(112u8);
    v.push(67u8);
    v.push(111u8);
    v.push(110u8);
    v.push(116u8);
    v.push(101u8);
    v.push(120u8);
    v.push(116u8);
    proof {
        assert(v@ =~= spec_group_context_label());
    }
    v
}

/// The ASCII label `"InterimTranscriptHash"`.
pub open spec fn spec_interim_transcript_hash_label() -> Seq<u8> {
    seq![73u8, 110u8, 116u8, 101u8, 114u8, 105u8, 109u8, 84u8, 114u8, 97u8, 110u8, 115u8, 99u8, 114u8, 105u8, 112u8, 116u8, 72u8, 97u8, 115u8, 104u8]
}

/// The ASCII label `"InterimTranscriptHash"` as bytes.
pub fn interim_transcript_hash_label() -> (r: Vec<u8>)
    ensures
        r@ == spec_interim_transcript_hash_label(),
{
    let mut v: Vec<u8> = Vec::new();
    v.push(73u8);
    v.push(110u8);
    v.push(116u8);
    v.push(101u8);
    v.push(114u8);
    v.push(105u8);
    v.push(109u8);
    v.push(84u8);
    v.push(114u8);
    v.push(97u8);
    v.push(110u8);
    v.push(115u8);
    v.push(99u8);
    v.push(114u8);
    v.push(105u8);
    v.push(112u8);
    v.push(116u8);
    v.push(72u8);
    v.push(97u8);
    v.push(115u8);
    v.push(104u8);
    proof {
        assert(v@ =~= spec_interim_transcript_hash_label());
    }
    v
}

/// The ASCII label `"ConfirmationTag"`.
pub open spec fn spec_confirmation_tag_label() -> Seq<u8> {
    seq![67u8, 111u8, 110u8, 102u8, 105u8, 114u8, 109u8, 97u8, 116u8, 105u8, 111u8, 110u8, 84u8, 97u8, 103u8]
}

/// The ASCII label `"ConfirmationTag"` as bytes.
pub fn confirmation_tag_label() -> (r: Vec<u8>)
    ensures
        r@ == spec_confirmation_tag_label(),
{
    let mut v: Vec<u8> = Vec::new();
    v.push(67u8);
    v.push(111u8);
    v.push(110u8);
    v.push(102u8);
    v.push(105u8);
    v.push(114u8);
    v.push(109u8);
    v.push(97u8);
    v.push(116u8);
    v.push(105u8);
    v.push(111u8);
    v.push(110u8);
    v.push(84u8);
    v.push(97u8);
    v.push(103u8);
    proof {
        assert(v@ =~= spec_confirmation_tag_label());
    }
    v
}

/// The ASCII label `"OwnLeafNodeIndex"`.
pub open spec fn spec_own_leaf_node_index_label() -> Seq<u8> {
    seq![79u8, 119u8, 110u8, 76u8, 101u8, 97u8, 102u8, 78u8, 111u8, 100u8, 101u8, 73u8, 110u8, 100u8, 101u8, 120u8]
}

/// The ASCII label `"OwnLeafNodeIndex"` as bytes.
pub fn own_leaf_node_index_label() -> (r: Vec<u8>)
    ensures
        r@ == spec_own_leaf_node_index_label(),
{
    let mut v: Vec<u8> = Vec::new();
    v.push(79u8);
    v.push(119u8);
    v.push(110u8);
    v.push(76u8);
    v.push(101u8);
    v.push(97u8);
    v.push(102u8);
    v.push(78u8);
    v.push(111u8);
    v.push(100u8);
    v.push(101u8);
    v.push(73u8);
    v.push(110u8);
    v.push(100u8);
    v.push(101u8);
    v.push(120u8);
    proof {
        assert(v@ =~= spec_own_leaf_node_index_label());
    }
    v
}

/// The ASCII label `"EpochSecrets"`.
pub open spec fn spec_epoch_secrets_label() -> Seq<u8> {
    seq![69u8, 112u8, 111u8, 99u8, 104u8, 83u8, 101u8, 99u8, 114u8, 101u8, 116u8, 115u8]
}

/// The ASCII label `"EpochSecrets"` as bytes.
pub fn epoch_secrets_label() -> (r: Vec<u8>)
    ensures
        r@ == spec_epoch_secrets_label(),
{
    let mut v: Vec<u8> = Vec::new();
    v.push(69u8);
    v.push(112u8);
    v.push(111u8);
    v.push(99u8);
    v.push(104u8);
    v.push(83u8);
    v.push(101u8);
    v.push(99u8);
    v.push(114u8);
    v.push(101u8);
    v.push(116u8);
    v.push(115u8);
    proof {
        assert(v@ =~= spec_epoch_secrets_label());
    }
    v
}

/// The ASCII label `"ResumptionPsk"`.
pub open spec fn spec_resumption_psk_store_label() -> Seq<u8> {
    seq![82u8, 101u8, 115u8, 117u8, 109u8, 112u8, 116u8, 105u8, 111u8, 110u8, 80u8, 115u8, 107u8]
}

/// The ASCII label `"ResumptionPsk"` as bytes.
pub fn resumption_psk_store_label() -> (r: Vec<u8>)
    ensures
        r@ == spec_resumption_psk_store_label(),
{
    let mut v: Vec<u8> = Vec::new();
    v.push(82u8);
    v.push(101u8);
    v.push(115u8);
    v.push(117u8);
    v.push(109u8);
    v.push(112u8);
    v.push(116u8);
    v.push(105u8);
    v.push(111u8);
    v.push(110u8);
    v.push(80u8);
    v.push(115u8);
    v.push(107u8);
    proof {
        assert(v@ =~= spec_resumption_psk_store_label());
    }
    v
}

/// The ASCII label `"MessageSecrets"`.
pub open spec fn spec_message_secrets_label() -> Seq<u8> {
    seq![77u8, 101u8, 115u8, 115u8, 97u8, 103u8, 101u8, 83u8, 101u8, 99u8, 114u8, 101u8, 116u8, 115u8]
}

/// The ASCII label `"MessageSecrets"` as bytes.
pub fn message_secrets_label() -> (r: Vec<u8>)
    ensures
        r@ == spec_message_secrets_label(),
{
    let mut v: Vec<u8> = Vec::new();
    v.push(77u8);
    v.push(101u8);
    v.push(115u8);
    v.push(115u8);
    v.push(97u8);
    v.push(103u8);
    v.push(101u8);
    v.push(83u8);
    v.push(101u8);
    v.push(99u8);
    v.push(114u8);
    v.push(101u8);
    v.push(116u8);
    v.push(115u8);
    proof {
        assert(v@ =~= spec_message_secrets_label());
    }
    v
}

/// The ASCII label `"UseRatchetTree"`.
pub open spec fn spec_use_ratchet_tree_label() -> Seq<u8> {
    seq![85u8, 115u8, 101u8, 82u8, 97u8, 116u8, 99u8, 104u8, 101u8, 116u8, 84u8, 114u8, 101u8, 101u8]
}

/// The ASCII label `"UseRatchetTree"` as bytes.
pub fn use_ratchet_tree_label() -> (r: Vec<u8>)
    ensures
        r@ == spec_use_ratchet_tree_label(),
{
    let mut v: Vec<u8> = Vec::new();
    v.push(85u8);
    v.push(115u8);
    v.push(101u8);
    v.push(82u8);
    v.push(97u8);
    v.push(116u8);
    v.push(99u8);
    v.push(104u8);
    v.push(101u8);
    v.push(116u8);
    v.push(84u8);
    v.push(114u8);
    v.push(101u8);
    v.push(101u8);
    proof {
        assert(v@ =~= spec_use_ratchet_tree_label());
    }
    v
}

/// The ASCII label `"MlsGroupJoinConfig"`.
pub open spec fn spec_join_config_label() -> Seq<u8> {
    seq![77u8, 108u8, 115u8, 71u8, 114u8, 111u8, 117u8, 112u8, 74u8, 111u8, 105u8, 110u8, 67u8, 111u8, 110u8, 102u8, 105u8, 103u8]
}

/// The ASCII label `"MlsGroupJoinConfig"` as bytes.
pub fn join_config_label() -> (r: Vec<u8>)
    ensures
        r@ == spec_join_config_label(),
{
    let mut v: Vec<u8> = Vec::new();
    v.push(77u8);
    v.push(108u8);
    v.push(115u8);
    v.push(71u8);
    v.push(114u8);
    v.push(111u8);
    v.push(117u8);
    v.push(112u8);
    v.push(74u8);
    v.push(111u8);
    v.push(105u8);
    v.push(110u8);
    v.push(67u8);
    v.push(111u8);
    v.push(110u8);
    v.push(102u8);
    v.push(105u8);
    v.push(103u8);
    proof {
        assert(v@ =~= spec_join_config_label());
    }
    v
}

/// The ASCII label `"OwnLeafNodes"`.
pub open spec fn spec_own_leaf_nodes_label() -> Seq<u8> {
    seq![79u8, 119u8, 110u8, 76u8, 101u8, 97u8, 102u8, 78u8, 111u8, 100u8, 101u8, 115u8]
}

/// The ASCII label `"OwnLeafNodes"` as bytes.
pub fn own_leaf_nodes_label() -> (r: Vec<u8>)
    ensures
        r@ == spec_own_leaf_nodes_label(),
{
    let mut v: Vec<u8> = Vec::new();
    v.push(79u8);
    v.push(119u8);
    v.push(110u8);
    v.push(76u8);
    v.push(101u8);
    v.push(97u8);
    v.push(102u8);
    v.push(78u8);
    v.push(111u8);
    v.push(100u8);
    v.push(101u8);
    v.push(115u8);
    proof {
        assert(v@ =~= spec_own_leaf_nodes_label());
    }
    v
}

/// The ASCII label `"AAD"`.
pub open spec fn spec_aad_label() -> Seq<u8> {
    seq![65u8, 65u8, 68u8]
}

/// The ASCII label `"AAD"` as bytes.
pub fn aad_label() -> (r: Vec<u8>)
    ensures
        r@ == spec_aad_label(),
{
    let mut v: Vec<u8> = Vec::new();
    v.push(65u8);
    v.push(65u8);
    v.push(68u8);
    proof {
        assert(v@ =~= spec_aad_label());
    }
    v
}

/// The ASCII label `"GroupState"`.
pub open spec fn spec_group_state_label() -> Seq<u8> {
    seq![71u8, 114u8, 111u8, 117u8, 112u8, 83u8, 116u8, 97u8, 116u8, 101u8]
}

/// The ASCII label `"GroupState"` as bytes.
pub fn group_state_label() -> (r: Vec<u8>)
    ensures
        r@ == spec_group_state_label(),
{
    let mut v: Vec<u8> = Vec::new();
    v.push(71u8);
    v.push(114u8);
    v.push(111u8);
    v.push(117u8);
    v.push(112u8);
    v.push(83u8);
    v.push(116u8);
    v.push(97u8);
    v.push(116u8);
    v.push(101u8);
    proof {
        assert(v@ =~= spec_group_state_label());
    }
    v
}

/// The ASCII label `"QueuedProposal"`.
pub open spec fn spec_queued_proposal_label() -> Seq<u8> {
    seq![81u8, 117u8, 101u8, 117u8, 101u8, 100u8, 80u8, 114u8, 111u8, 112u8, 111u8, 115u8, 97u8, 108u8]
}

/// The ASCII label `"QueuedProposal"` as bytes.
pub fn queued_proposal_label() -> (r: Vec<u8>)
    ensures
        r@ == spec_queued_proposal_label(),
{
    let mut v: Vec<u8> = Vec::new();
    v.push(81u8);
    v.push(117u8);
    v.push(101u8);
    v.push(117u8);
    v.push(101u8);
    v.push(100u8);
    v.push(80u8);
    v.push(114u8);
    v.push(111u8);
    v.push(112u8);
    v.push(111u8);
    v.push(115u8);
    v.push(97u8);
    v.push(108u8);
    proof {
        assert(v@ =~= spec_queued_proposal_label());
    }
    v
}

/// The ASCII label `"ProposalQueueRefs"`.
pub open spec fn spec_proposal_queue_refs_label() -> Seq<u8> {
    seq![80u8, 114u8, 111u8, 112u8, 111u8, 115u8, 97u8, 108u8, 81u8, 117u8, 101u8, 117u8, 101u8, 82u8, 101u8, 102u8, 115u8]
}

/// The ASCII label `"ProposalQueueRefs"` as bytes.
pub fn proposal_queue_refs_label() -> (r: Vec<u8>)
    ensures
        r@ == spec_proposal_queue_refs_label(),
{
    let mut v: Vec<u8> = Vec::new();
    v.push(80u8);
    v.push(114u8);
    v.push(111u8);
    v.push(112u8);
    v.push(111u8);
    v.push(115u8);
    v.push(97u8);
    v.push(108u8);
    v.push(81u8);
    v.push(117u8);
    v.push(101u8);
    v.push(117u8);
    v.push(101u8);
    v.push(82u8);
    v.push(101u8);
    v.push(102u8);
    v.push(115u8);
    proof {
        assert(v@ =~= spec_proposal_queue_refs_label());
    }
    v
}
} // verus!

verus! {

impl MemoryKeyStore {
    /// Compose a storage key from label, sub-key and version.
    fn storage_key(label: &Vec<u8>, sub_key: &Vec<u8>, version: u16) -> (r: Vec<u8>)
        ensures
            r@ == spec_storage_key(label@, sub_key@, version),
    {
        let mut out: Vec<u8> = Vec::new();
        append_bytes(&mut out, label);
        append_bytes(&mut out, sub_key);
        append_be16(&mut out, version);
        proof {
            assert(out@ =~= spec_storage_key(label@, sub_key@, version));
        }
        out
    }

    /// Overwrite the value under a label and sub-key; writes are
    /// idempotent and report no prior presence.
    pub fn write(&mut self, label: &Vec<u8>, sub_key: &Vec<u8>, value: Vec<u8>, version: u16)
        requires
            old(self).wf(),
        ensures
            final(self).wf(),
            final(self).contents() == old(self).contents().insert(
                spec_storage_key(label@, sub_key@, version),
                value@,
            ),
    {
        let key = Self::storage_key(label, sub_key, version);
        self.insert_raw(key, value);
    }

    /// Read the value under a label and sub-key; an absent key gives
    /// `None`.
    pub fn read(&self, label: &Vec<u8>, sub_key: &Vec<u8>, version: u16) -> (r: Option<Vec<u8>>)
        requires
            self.wf(),
        ensures
            r is Some <==> self.contents().contains_key(
                spec_storage_key(label@, sub_key@, version),
            ),
            r is Some ==> r->0@ == self.contents()[spec_storage_key(label@, sub_key@, version)],
    {
        let key = Self::storage_key(label, sub_key, version);
        match self.get_raw(&key) {
            Option::Some(v) => Option::Some(copy_bytes(v)),
            Option::None => Option::None,
        }
    }

    /// Delete the entry under a label and sub-key; deleting an absent
    /// key succeeds silently.
    pub fn delete(&mut self, label: &Vec<u8>, sub_key: &Vec<u8>, version: u16)
        requires
            old(self).wf(),
        ensures
            final(self).wf(),
            final(self).contents() == old(self).contents().remove(
                spec_storage_key(label@, sub_key@, version),
            ),
    {
        let key = Self::storage_key(label, sub_key, version);
        self.remove_raw(&key);
    }

    /// Treat the stored value as a list: an absent key starts from the
    /// empty list; the element is pushed and the list stored back in
    /// place. Fails exactly when the stored bytes are no canonical list
    /// encoding.
    pub fn append(
        &mut self,
        label: &Vec<u8>,
        sub_key: &Vec<u8>,
        element: Vec<u8>,
        version: u16,
    ) -> (r: Result<(), MemoryKeyStoreError>)
        requires
            old(self).wf(),
        ensures
            final(self).wf(),
            r is Err ==> final(self).contents() == old(self).contents() && r == Result::<
                (),
                MemoryKeyStoreError,
            >::Err(MemoryKeyStoreError::SerializationError),
            ({
                let sk = spec_storage_key(label@, sub_key@, version);
                &&& (r is Ok <==> !old(self).contents().contains_key(sk) || (exists|
                    l: Seq<Seq<u8>>,
                |
                    old(self).contents()[sk] == #[trigger] byte_lists_json(l)))
                &&& (!old(self).contents().contains_key(sk) ==> r is Ok && final(self).contents()
                    == old(self).contents().insert(
                    sk,
                    byte_lists_json(seq![element@]),
                ))
                &&& (old(self).contents().contains_key(sk) ==> (forall|l: Seq<Seq<u8>>|
                    old(self).contents()[sk] == #[trigger] byte_lists_json(l) ==> r is Ok
                        && final(self).contents() == old(self).contents().insert(
                        sk,
                        byte_lists_json(l.push(element@)),
                    )))
            }),
    {
        let key = Self::storage_key(label, sub_key, version);
        let ghost sk = spec_storage_key(label@, sub_key@, version);
        let stored = self.get_raw(&key);
        let mut list: Vec<Vec<u8>> = Vec::new();
        match stored {
            Option::None => {
                proof {
                    assert(list.deep_view() =~= Seq::<Seq<u8>>::empty());
                }
            },
            Option::Some(bytes) => {
                match decode_canonical_byte_lists(bytes) {
                    Option::Some(l) => {
                        list = l;
                    },
                    Option::None => {
                        return Result::Err(MemoryKeyStoreError::SerializationError);
                    },
                }
            },
        }
        let ghost pre_list = list.deep_view();
        list.push(element);
        proof {
            assert(list.deep_view() =~~= pre_list.push(element@));
            if !old(self).contents().contains_key(sk) {
                assert(pre_list.push(element@) =~= seq![element@]);
            }
        }
        let encoded = encode_byte_lists(&list);
        self.insert_raw(key, encoded);
        Result::Ok(())
    }

    /// Read the stored list under a label and sub-key; an absent key
    /// gives the empty list. Fails exactly when the stored bytes are no
    /// canonical list encoding.
    pub fn read_list(&self, label: &Vec<u8>, sub_key: &Vec<u8>, version: u16) -> (r: Result<
        Vec<Vec<u8>>,
        MemoryKeyStoreError,
    >)
        requires
            self.wf(),
        ensures
            ({
                let sk = spec_storage_key(label@, sub_key@, version);
                &&& (r is Ok <==> !self.contents().contains_key(sk) || (exists|l: Seq<Seq<u8>>|
                    self.contents()[sk] == #[trigger] byte_lists_json(l)))
                &&& (!self.contents().contains_key(sk) ==> r is Ok && (r->Ok_0).deep_view()
                    == Seq::<Seq<u8>>::empty())
                &&& (self.contents().contains_key(sk) ==> (forall|l: Seq<Seq<u8>>|
                    self.contents()[sk] == #[trigger] byte_lists_json(l) ==> r is Ok && (
                    r->Ok_0).deep_view() == l))
                &&& (r is Err ==> r == Result::<Vec<Vec<u8>>, MemoryKeyStoreError>::Err(
                    MemoryKeyStoreError::SerializationError,
                ))
            }),
    {
        let key = Self::storage_key(label, sub_key, version);
        match self.get_raw(&key) {
            Option::None => {
                let out: Vec<Vec<u8>> = Vec::new();
                proof {
                    assert(out.deep_view() =~= Seq::<Seq<u8>>::empty());
                }
                Result::Ok(out)
            },
            Option::Some(bytes) => {
                match decode_canonical_byte_lists(bytes) {
                    Option::Some(l) => Result::Ok(l),
                    Option::None => Result::Err(MemoryKeyStoreError::SerializationError),
                }
            },
        }
    }
}

/// Writing then reading the same label, sub-key and version returns the
/// written value; deleting then reading finds nothing. Stated over the
/// map model that `write`, `read` and `delete` are specified with.
pub proof fn lemma_storage_roundtrip(
    m: Map<Seq<u8>, Seq<u8>>,
    label: Seq<u8>,
    sub_key: Seq<u8>,
    version: u16,
    value: Seq<u8>,
)
    ensures
        m.insert(spec_storage_key(label, sub_key, version), value).contains_key(
            spec_storage_key(label, sub_key, version),
        ),
        m.insert(spec_storage_key(label, sub_key, version), value)[spec_storage_key(
            label,
            sub_key,
            version,
        )] == value,
        !m.remove(spec_storage_key(label, sub_key, version)).contains_key(
            spec_storage_key(label, sub_key, version),
        ),
{
}

/// Version isolation: the same label and sub-key under two different
/// versions compose to two different storage keys, so a write under one
/// version leaves reads under the other exactly as they were.
pub proof fn lemma_version_isolation(
    m: Map<Seq<u8>, Seq<u8>>,
    label: Seq<u8>,
    sub_key: Seq<u8>,
    v1: u16,
    v2: u16,
    value: Seq<u8>,
)
    requires
        v1 != v2,
    ensures
        spec_storage_key(label, sub_key, v1) != spec_storage_key(label, sub_key, v2),
        m.insert(spec_storage_key(label, sub_key, v1), value).contains_key(
            spec_storage_key(label, sub_key, v2),
        ) == m.contains_key(spec_storage_key(label, sub_key, v2)),
        m.contains_key(spec_storage_key(label, sub_key, v2)) ==> m.insert(
            spec_storage_key(label, sub_key, v1),
            value,
        )[spec_storage_key(label, sub_key, v2)] == m[spec_storage_key(label, sub_key, v2)],
{
    let k1 = spec_storage_key(label, sub_key, v1);
    let k2 = spec_storage_key(label, sub_key, v2);
    if k1 == k2 {
        let n = label.len() + sub_key.len();
        assert(k1[n as int] == (v1 / 256) as u8);
        assert(k1[n as int + 1] == (v1 % 256) as u8);
        assert(k2[n as int] == (v2 / 256) as u8);
        assert(k2[n as int + 1] == (v2 % 256) as u8);
        assert(v1 / 256 == v2 / 256 && v1 % 256 == v2 % 256);
        assert(v1 == v2);
        assert(false);
    }
}

} // verus!

verus! {

impl MemoryKeyStore {
    /// Store the serialized key package under its key-package hash reference.
    pub fn write_key_package(&mut self, sub_key: &Vec<u8>, value: Vec<u8>)
        requires
            old(self).wf(),
        ensures
            final(self).wf(),
            final(self).contents() == old(self).contents().insert(
                spec_storage_key(spec_key_package_label(), sub_key@, CURRENT_VERSION),
                value@,
            ),
    {
        self.write(&key_package_label(), sub_key, value, CURRENT_VERSION)
    }

    /// Read the serialized key package stored under the key-package hash reference, if any.
    pub fn key_package(&self, sub_key: &Vec<u8>) -> (r: Option<Vec<u8>>)
        requires
            self.wf(),
        ensures
            r is Some <==> self.contents().contains_key(
                spec_storage_key(spec_key_package_label(), sub_key@, CURRENT_VERSION),
            ),
            r is Some ==> r->0@ == self.contents()[spec_storage_key(
                spec_key_package_label(),
                sub_key@,
                CURRENT_VERSION,
            )],
    {
        self.read(&key_package_label(), sub_key, CURRENT_VERSION)
    }

    /// Delete the serialized key package stored under the key-package hash reference.
    pub fn delete_key_package(&mut self, sub_key: &Vec<u8>)
        requires
            old(self).wf(),
        ensures
            final(self).wf(),
            final(self).contents() == old(self).contents().remove(
                spec_storage_key(spec_key_package_label(), sub_key@, CURRENT_VERSION),
            ),
    {
        self.delete(&key_package_label(), sub_key, CURRENT_VERSION)
    }

    /// Store the serialized PSK bundle under its serialized PSK id.
    pub fn write_psk(&mut self, sub_key: &Vec<u8>, value: Vec<u8>)
        requires
            old(self).wf(),
        ensures
            final(self).wf(),
            final(self).contents() == old(self).contents().insert(
                spec_storage_key(spec_psk_label(), sub_key@, CURRENT_VERSION),
                value@,
            ),
    {
        self.write(&psk_label(), sub_key, value, CURRENT_VERSION)
    }

    /// Read the serialized PSK bundle stored under the serialized PSK id, if any.
    pub fn psk(&self, sub_key: &Vec<u8>) -> (r: Option<Vec<u8>>)
        requires
            self.wf(),
        ensures
            r is Some <==> self.contents().contains_key(
                spec_storage_key(spec_psk_label(), sub_key@, CURRENT_VERSION),
            ),
            r is Some ==> r->0@ == self.contents()[spec_storage_key(
                spec_psk_label(),
                sub_key@,
                CURRENT_VERSION,
            )],
    {
        self.read(&psk_label(), sub_key, CURRENT_VERSION)
    }

    /// Delete the serialized PSK bundle stored under the serialized PSK id.
    pub fn delete_psk(&mut self, sub_key: &Vec<u8>)
        requires
            old(self).wf(),
        ensures
            final(self).wf(),
            final(self).contents() == old(self).contents().remove(
                spec_storage_key(spec_psk_label(), sub_key@, CURRENT_VERSION),
            ),
    {
        self.delete(&psk_label(), sub_key, CURRENT_VERSION)
    }

    /// Store the serialized HPKE key pair under its serialized HPKE public key.
    pub fn write_encryption_key_pair(&mut self, sub_key: &Vec<u8>, value: Vec<u8>)
        requires
            old(self).wf(),
        ensures
            final(self).wf(),
            final(self).contents() == old(self).contents().insert(
                spec_storage_key(spec_encryption_key_pair_label(), sub_key@, CURRENT_VERSION),
                value@,
            ),
    {
        self.write(&encryption_key_pair_label(), sub_key, value, CURRENT_VERSION)
    }

    /// Read the serialized HPKE key pair stored under the serialized HPKE public key, if any.
    pub fn encryption_key_pair(&self, sub_key: &Vec<u8>) -> (r: Option<Vec<u8>>)
        requires
            self.wf(),
        ensures
            r is Some <==> self.contents().contains_key(
                spec_storage_key(spec_encryption_key_pair_label(), sub_key@, CURRENT_VERSION),
            ),
            r is Some ==> r->0@ == self.contents()[spec_storage_key(
                spec_encryption_key_pair_label(),
                sub_key@,
                CURRENT_VERSION,
            )],
    {
        self.read(&encryption_key_pair_label(), sub_key, CURRENT_VERSION)
    }

    /// Delete the serialized HPKE key pair stored under the serialized HPKE public key.
    pub fn delete_encryption_key_pair(&mut self, sub_key: &Vec<u8>)
        requires
            old(self).wf(),
        ensures
            final(self).wf(),
            final(self).contents() == old(self).contents().remove(
                spec_storage_key(spec_encryption_key_pair_label(), sub_key@, CURRENT_VERSION),
            ),
    {
        self.delete(&encryption_key_pair_label(), sub_key, CURRENT_VERSION)
    }

    /// Store the serialized signature key pair under its serialized signature public key.
    pub fn write_signature_key_pair(&mut self, sub_key: &Vec<u8>, value: Vec<u8>)
        requires
            old(self).wf(),
        ensures
            final(self).wf(),
            final(self).contents() == old(self).contents().insert(
                spec_storage_key(spec_signature_key_pair_label(), sub_key@, CURRENT_VERSION),
                value@,
            ),
    {
        self.write(&signature_key_pair_label(), sub_key, value, CURRENT_VERSION)
    }

    /// Read the serialized signature key pair stored under the serialized signature public key, if any.
    pub fn signature_key_pair(&self, sub_key: &Vec<u8>) -> (r: Option<Vec<u8>>)
        requires
            self.wf(),
        ensures
            r is Some <==> self.contents().contains_key(
                spec_storage_key(spec_signature_key_pair_label(), sub_key@, CURRENT_VERSION),
            ),
            r is Some ==> r->0@ == self.contents()[spec_storage_key(
                spec_signature_key_pair_label(),
                sub_key@,
                CURRENT_VERSION,
            )],
    {
        self.read(&signature_key_pair_label(), sub_key, CURRENT_VERSION)
    }

    /// Delete the serialized signature key pair stored under the serialized signature public key.
    pub fn delete_signature_key_pair(&mut self, sub_key: &Vec<u8>)
        requires
            old(self).wf(),
        ensures
            final(self).wf(),
            final(self).contents() == old(self).contents().remove(
                spec_storage_key(spec_signature_key_pair_label(), sub_key@, CURRENT_VERSION),
            ),
    {
        self.delete(&signature_key_pair_label(), sub_key, CURRENT_VERSION)
    }

    /// Store the serialized ratchet tree under its serialized group id.
    pub fn write_tree(&mut self, sub_key: &Vec<u8>, value: Vec<u8>)
        requires
            old(self).wf(),
        ensures
            final(self).wf(),
            final(self).contents() == old(self).contents().insert(
                spec_storage_key(spec_tree_label(), sub_key@, CURRENT_VERSION),
                value@,
            ),
    {
        self.write(&tree_label(), sub_key, value, CURRENT_VERSION)
    }

    /// Read the serialized ratchet tree stored under the serialized group id, if any.
    pub fn treesync(&self, sub_key: &Vec<u8>) -> (r: Option<Vec<u8>>)
        requires
            self.wf(),
        ensures
            r is Some <==> self.contents().contains_key(
                spec_storage_key(spec_tree_label(), sub_key@, CURRENT_VERSION),
            ),
            r is Some ==> r->0@ == self.contents()[spec_storage_key(
                spec_tree_label(),
                sub_key@,
                CURRENT_VERSION,
            )],
    {
        self.read(&tree_label(), sub_key, CURRENT_VERSION)
    }

    /// Store the serialized group context under its serialized group id.
    pub fn write_context(&mut self, sub_key: &Vec<u8>, value: Vec<u8>)
        requires
            old(self).wf(),
        ensures
            final(self).wf(),
            final(self).contents() == old(self).contents().insert(
                spec_storage_key(spec_group_context_label(), sub_key@, CURRENT_VERSION),
                value@,
            ),
    {
        self.write(&group_context_label(), sub_key, value, CURRENT_VERSION)
    }

    /// Read the serialized group context stored under the serialized group id, if any.
    pub fn group_context(&self, sub_key: &Vec<u8>) -> (r: Option<Vec<u8>>)
        requires
            self.wf(),
        ensures
            r is Some <==> self.contents().contains_key(
                spec_storage_key(spec_group_context_label(), sub_key@, CURRENT_VERSION),
            ),
            r is Some ==> r->0@ == self.contents()[spec_storage_key(
                spec_group_context_label(),
                sub_key@,
                CURRENT_VERSION,
            )],
    {
        self.read(&group_context_label(), sub_key, CURRENT_VERSION)
    }

    /// Store the interim transcript hash bytes under its serialized group id.
    pub fn write_interim_transcript_hash(&mut self, sub_key: &Vec<u8>, value: Vec<u8>)
        requires
            old(self).wf(),
        ensures
            final(self).wf(),
            final(self).contents() == old(self).contents().insert(
                spec_storage_key(spec_interim_transcript_hash_label(), sub_key@, CURRENT_VERSION),
                value@,
            ),
    {
        self.write(&interim_transcript_hash_label(), sub_key, value, CURRENT_VERSION)
    }

    /// Read the interim transcript hash bytes stored under the serialized group id, if any.
    pub fn interim_transcript_hash(&self, sub_key: &Vec<u8>) -> (r: Option<Vec<u8>>)
        requires
            self.wf(),
        ensures
            r is Some <==> self.contents().contains_key(
                spec_storage_key(spec_interim_transcript_hash_label(), sub_key@, CURRENT_VERSION),
            ),
            r is Some ==> r->0@ == self.contents()[spec_storage_key(
                spec_interim_transcript_hash_label(),
                sub_key@,
                CURRENT_VERSION,
            )],
    {
        self.read(&interim_transcript_hash_label(), sub_key, CURRENT_VERSION)
    }

    /// Store the confirmation tag bytes under its serialized group id.
    pub fn write_confirmation_tag(&mut self, sub_key: &Vec<u8>, value: Vec<u8>)
        requires
            old(self).wf(),
        ensures
            final(self).wf(),
            final(self).contents() == old(self).contents().insert(
                spec_storage_key(spec_confirmation_tag_label(), sub_key@, CURRENT_VERSION),
                value@,
            ),
    {
        self.write(&confirmation_tag_label(), sub_key, value, CURRENT_VERSION)
    }

    /// Read the confirmation tag bytes stored under the serialized group id, if any.
    pub fn confirmation_tag(&self, sub_key: &Vec<u8>) -> (r: Option<Vec<u8>>)
        requires
            self.wf(),
        ensures
            r is Some <==> self.contents().contains_key(
                spec_storage_key(spec_confirmation_tag_label(), sub_key@, CURRENT_VERSION),
            ),
            r is Some ==> r->0@ == self.contents()[spec_storage_key(
                spec_confirmation_tag_label(),
                sub_key@,
                CURRENT_VERSION,
            )],
    {
        self.read(&confirmation_tag_label(), sub_key, CURRENT_VERSION)
    }

    /// Store the serialized group state under its serialized group id.
    pub fn write_group_state(&mut self, sub_key: &Vec<u8>, value: Vec<u8>)
        requires
            old(self).wf(),
        ensures
            final(self).wf(),
            final(self).contents() == old(self).contents().insert(
                spec_storage_key(spec_group_state_label(), sub_key@, CURRENT_VERSION),
                value@,
            ),
    {
        self.write(&group_state_label(), sub_key, value, CURRENT_VERSION)
    }

    /// Read the serialized group state stored under the serialized group id, if any.
    pub fn group_state(&self, sub_key: &Vec<u8>) -> (r: Option<Vec<u8>>)
        requires
            self.wf(),
        ensures
            r is Some <==> self.contents().contains_key(
                spec_storage_key(spec_group_state_label(), sub_key@, CURRENT_VERSION),
            ),
            r is Some ==> r->0@ == self.contents()[spec_storage_key(
                spec_group_state_label(),
                sub_key@,
                CURRENT_VERSION,
            )],
    {
        self.read(&group_state_label(), sub_key, CURRENT_VERSION)
    }

    /// Delete the serialized group state stored under the serialized group id.
    pub fn delete_group_state(&mut self, sub_key: &Vec<u8>)
        requires
            old(self).wf(),
        ensures
            final(self).wf(),
            final(self).contents() == old(self).contents().remove(
                spec_storage_key(spec_group_state_label(), sub_key@, CURRENT_VERSION),
            ),
    {
        self.delete(&group_state_label(), sub_key, CURRENT_VERSION)
    }

    /// Store the serialized message secrets under its serialized group id.
    pub fn write_message_secrets(&mut self, sub_key: &Vec<u8>, value: Vec<u8>)
        requires
            old(self).wf(),
        ensures
            final(self).wf(),
            final(self).contents() == old(self).contents().insert(
                spec_storage_key(spec_message_secrets_label(), sub_key@, CURRENT_VERSION),
                value@,
            ),
    {
        self.write(&message_secrets_label(), sub_key, value, CURRENT_VERSION)
    }

    /// Read the serialized message secrets stored under the serialized group id, if any.
    pub fn message_secrets(&self, sub_key: &Vec<u8>) -> (r: Option<Vec<u8>>)
        requires
            self.wf(),
        ensures
            r is Some <==> self.contents().contains_key(
                spec_storage_key(spec_message_secrets_label(), sub_key@, CURRENT_VERSION),
            ),
            r is Some ==> r->0@ == self.contents()[spec_storage_key(
                spec_message_secrets_label(),
                sub_key@,
                CURRENT_VERSION,
            )],
    {
        self.read(&message_secrets_label(), sub_key, CURRENT_VERSION)
    }

    /// Delete the serialized message secrets stored under the serialized group id.
    pub fn delete_message_secrets(&mut self, sub_key: &Vec<u8>)
        requires
            old(self).wf(),
        ensures
            final(self).wf(),
            final(self).contents() == old(self).contents().remove(
                spec_storage_key(spec_message_secrets_label(), sub_key@, CURRENT_VERSION),
            ),
    {
        self.delete(&message_secrets_label(), sub_key, CURRENT_VERSION)
    }

    /// Store the serialized resumption-PSK store under its serialized group id.
    pub fn write_resumption_psk_store(&mut self, sub_key: &Vec<u8>, value: Vec<u8>)
        requires
            old(self).wf(),
        ensures
            final(self).wf(),
            final(self).contents() == old(self).contents().insert(
                spec_storage_key(spec_resumption_psk_store_label(), sub_key@, CURRENT_VERSION),
                value@,
            ),
    {
        self.write(&resumption_psk_store_label(), sub_key, value, CURRENT_VERSION)
    }

    /// Read the serialized resumption-PSK store stored under the serialized group id, if any.
    pub fn resumption_psk_store(&self, sub_key: &Vec<u8>) -> (r: Option<Vec<u8>>)
        requires
            self.wf(),
        ensures
            r is Some <==> self.contents().contains_key(
                spec_storage_key(spec_resumption_psk_store_label(), sub_key@, CURRENT_VERSION),
            ),
            r is Some ==> r->0@ == self.contents()[spec_storage_key(
                spec_resumption_psk_store_label(),
                sub_key@,
                CURRENT_VERSION,
            )],
    {
        self.read(&resumption_psk_store_label(), sub_key, CURRENT_VERSION)
    }

    /// Delete the serialized resumption-PSK store stored under the serialized group id.
    pub fn delete_all_resumption_psk_secrets(&mut self, sub_key: &Vec<u8>)
        requires
            old(self).wf(),
        ensures
            final(self).wf(),
            final(self).contents() == old(self).contents().remove(
                spec_storage_key(spec_resumption_psk_store_label(), sub_key@, CURRENT_VERSION),
            ),
    {
        self.delete(&resumption_psk_store_label(), sub_key, CURRENT_VERSION)
    }

    /// Store the serialized group epoch secrets under its serialized group id.
    pub fn write_group_epoch_secrets(&mut self, sub_key: &Vec<u8>, value: Vec<u8>)
        requires
            old(self).wf(),
        ensures
            final(self).wf(),
            final(self).contents() == old(self).contents().insert(
                spec_storage_key(spec_epoch_secrets_label(), sub_key@, CURRENT_VERSION),
                value@,
            ),
    {
        self.write(&epoch_secrets_label(), sub_key, value, CURRENT_VERSION)
    }

    /// Read the serialized group epoch secrets stored under the serialized group id, if any.
    pub fn group_epoch_secrets(&self, sub_key: &Vec<u8>) -> (r: Option<Vec<u8>>)
        requires
            self.wf(),
        ensures
            r is Some <==> self.contents().contains_key(
                spec_storage_key(spec_epoch_secrets_label(), sub_key@, CURRENT_VERSION),
            ),
            r is Some ==> r->0@ == self.contents()[spec_storage_key(
                spec_epoch_secrets_label(),
                sub_key@,
                CURRENT_VERSION,
            )],
    {
        self.read(&epoch_secrets_label(), sub_key, CURRENT_VERSION)
    }

    /// Delete the serialized group epoch secrets stored under the serialized group id.
    pub fn delete_group_epoch_secrets(&mut self, sub_key: &Vec<u8>)
        requires
            old(self).wf(),
        ensures
            final(self).wf(),
            final(self).contents() == old(self).contents().remove(
                spec_storage_key(spec_epoch_secrets_label(), sub_key@, CURRENT_VERSION),
            ),
    {
        self.delete(&epoch_secrets_label(), sub_key, CURRENT_VERSION)
    }

    /// Store the serialized join configuration under its serialized group id.
    pub fn write_mls_join_config(&mut self, sub_key: &Vec<u8>, value: Vec<u8>)
        requires
            old(self).wf(),
        ensures
            final(self).wf(),
            final(self).contents() == old(self).contents().insert(
                spec_storage_key(spec_join_config_label(), sub_key@, CURRENT_VERSION),
                value@,
            ),
    {
        self.write(&join_config_label(), sub_key, value, CURRENT_VERSION)
    }

    /// Read the serialized join configuration stored under the serialized group id, if any.
    pub fn mls_group_join_config(&self, sub_key: &Vec<u8>) -> (r: Option<Vec<u8>>)
        requires
            self.wf(),
        ensures
            r is Some <==> self.contents().contains_key(
                spec_storage_key(spec_join_config_label(), sub_key@, CURRENT_VERSION),
            ),
            r is Some ==> r->0@ == self.contents()[spec_storage_key(
                spec_join_config_label(),
                sub_key@,
                CURRENT_VERSION,
            )],
    {
        self.read(&join_config_label(), sub_key, CURRENT_VERSION)
    }
}

} // verus!

verus! {

/// The composed sub-key of an epoch's key-pair list: group id, epoch
/// key and leaf index, each delimited.
pub open spec fn spec_epoch_key_pairs_id(group_id: Seq<u8>, epoch: Seq<u8>, leaf_index: u32) -> Seq<
    u8,
> {
    enc_bytes(group_id) + enc_bytes(epoch) + crate::codec::be32(leaf_index)
}

/// The composed sub-key of a queued proposal: group id and proposal
/// reference, each delimited.
pub open spec fn spec_proposal_id(group_id: Seq<u8>, proposal_ref: Seq<u8>) -> Seq<u8> {
    enc_bytes(group_id) + enc_bytes(proposal_ref)
}

/// The full storage key of a queued proposal. Kept opaque so that
/// quantified contracts over many references stay tractable.
#[verifier::opaque]
pub open spec fn spec_proposal_key_of(group_id: Seq<u8>, proposal_ref: Seq<u8>) -> Seq<u8> {
    spec_storage_key(
        spec_queued_proposal_label(),
        spec_proposal_id(group_id, proposal_ref),
        CURRENT_VERSION,
    )
}

impl MemoryKeyStore {
    fn epoch_key_pairs_id(group_id: &Vec<u8>, epoch: &Vec<u8>, leaf_index: u32) -> (r: Vec<u8>)
        ensures
            r@ == spec_epoch_key_pairs_id(group_id@, epoch@, leaf_index),
    {
        let mut out: Vec<u8> = Vec::new();
        append_enc_bytes(&mut out, group_id);
        append_enc_bytes(&mut out, epoch);
        crate::codec::append_be32(&mut out, leaf_index);
        proof {
            assert(out@ =~= spec_epoch_key_pairs_id(group_id@, epoch@, leaf_index));
        }
        out
    }

    fn proposal_id(group_id: &Vec<u8>, proposal_ref: &Vec<u8>) -> (r: Vec<u8>)
        ensures
            r@ == spec_proposal_id(group_id@, proposal_ref@),
    {
        let mut out: Vec<u8> = Vec::new();
        append_enc_bytes(&mut out, group_id);
        append_enc_bytes(&mut out, proposal_ref);
        proof {
            assert(out@ =~= spec_proposal_id(group_id@, proposal_ref@));
        }
        out
    }

    /// Store an epoch's HPKE key pairs, serialized one per entry, under
    /// the group, epoch and leaf position.
    pub fn write_encryption_epoch_key_pairs(
        &mut self,
        group_id: &Vec<u8>,
        epoch: &Vec<u8>,
        leaf_index: u32,
        key_pairs: &Vec<Vec<u8>>,
    )
        requires
            old(self).wf(),
        ensures
            final(self).wf(),
            final(self).contents() == old(self).contents().insert(
                spec_storage_key(
                    spec_epoch_key_pairs_label(),
                    spec_epoch_key_pairs_id(group_id@, epoch@, leaf_index),
                    CURRENT_VERSION,
                ),
                byte_lists_json(key_pairs.deep_view()),
            ),
    {
        let sub = Self::epoch_key_pairs_id(group_id, epoch, leaf_index);
        let value = encode_byte_lists(key_pairs);
        self.write(&epoch_key_pairs_label(), &sub, value, CURRENT_VERSION)
    }

    /// Read an epoch's HPKE key pairs; a missing entry is an error, as
    /// an epoch's decryption window must have been provisioned.
    pub fn encryption_epoch_key_pairs(
        &self,
        group_id: &Vec<u8>,
        epoch: &Vec<u8>,
        leaf_index: u32,
    ) -> (r: Result<Vec<Vec<u8>>, MemoryKeyStoreError>)
        requires
            self.wf(),
        ensures
            ({
                let sk = spec_storage_key(
                    spec_epoch_key_pairs_label(),
                    spec_epoch_key_pairs_id(group_id@, epoch@, leaf_index),
                    CURRENT_VERSION,
                );
                &&& (!self.contents().contains_key(sk) ==> r is Err)
                &&& (self.contents().contains_key(sk) ==> (forall|l: Seq<Seq<u8>>|
                    self.contents()[sk] == #[trigger] byte_lists_json(l) ==> r is Ok && (
                    r->Ok_0).deep_view() == l))
            }),
    {
        let sub = Self::epoch_key_pairs_id(group_id, epoch, leaf_index);
        match self.read(&epoch_key_pairs_label(), &sub, CURRENT_VERSION) {
            Option::None => Result::Err(MemoryKeyStoreError::NotFound),
            Option::Some(bytes) => {
                match decode_byte_lists(&bytes) {
                    Option::Some(l) => Result::Ok(l),
                    Option::None => Result::Err(MemoryKeyStoreError::SerializationError),
                }
            },
        }
    }

    /// Delete an epoch's HPKE key pairs once its decryption window
    /// closes.
    pub fn delete_encryption_epoch_key_pairs(
        &mut self,
        group_id: &Vec<u8>,
        epoch: &Vec<u8>,
        leaf_index: u32,
    )
        requires
            old(self).wf(),
        ensures
            final(self).wf(),
            final(self).contents() == old(self).contents().remove(
                spec_storage_key(
                    spec_epoch_key_pairs_label(),
                    spec_epoch_key_pairs_id(group_id@, epoch@, leaf_index),
                    CURRENT_VERSION,
                ),
            ),
    {
        let sub = Self::epoch_key_pairs_id(group_id, epoch, leaf_index);
        self.delete(&epoch_key_pairs_label(), &sub, CURRENT_VERSION)
    }

    /// Queue a proposal: store it under the group and its reference, and
    /// append the reference to the group's proposal-reference list. The
    /// two writes are not atomic.
    pub fn queue_proposal(
        &mut self,
        group_id: &Vec<u8>,
        proposal_ref: &Vec<u8>,
        proposal: Vec<u8>,
    ) -> (r: Result<(), MemoryKeyStoreError>)
        requires
            old(self).wf(),
        ensures
            final(self).wf(),
            ({
                let pk = spec_storage_key(
                    spec_queued_proposal_label(),
                    spec_proposal_id(group_id@, proposal_ref@),
                    CURRENT_VERSION,
                );
                let rk = spec_storage_key(
                    spec_proposal_queue_refs_label(),
                    group_id@,
                    CURRENT_VERSION,
                );
                let mid = old(self).contents().insert(pk, proposal@);
                &&& (!mid.contains_key(rk) ==> r is Ok && final(self).contents() == mid.insert(
                    rk,
                    byte_lists_json(seq![proposal_ref@]),
                ))
                &&& (mid.contains_key(rk) ==> (forall|l: Seq<Seq<u8>>|
                    mid[rk] == #[trigger] byte_lists_json(l) ==> r is Ok
                        && final(self).contents() == mid.insert(
                        rk,
                        byte_lists_json(l.push(proposal_ref@)),
                    )))
                &&& (r is Ok <==> !mid.contains_key(rk) || (exists|l: Seq<Seq<u8>>|
                    mid[rk] == #[trigger] byte_lists_json(l)))
                &&& (r is Err ==> final(self).contents() == mid && r == Result::<
                    (),
                    MemoryKeyStoreError,
                >::Err(MemoryKeyStoreError::SerializationError))
            }),
    {
        let sub = Self::proposal_id(group_id, proposal_ref);
        self.write(&queued_proposal_label(), &sub, proposal, CURRENT_VERSION);
        self.append(
            &proposal_queue_refs_label(),
            group_id,
            crate::codec::copy_bytes(proposal_ref),
            CURRENT_VERSION,
        )
    }

    /// The group's queued proposal references, in insertion order.
    pub fn queued_proposal_refs(&self, group_id: &Vec<u8>) -> (r: Result<
        Vec<Vec<u8>>,
        MemoryKeyStoreError,
    >)
        requires
            self.wf(),
        ensures
            ({
                let rk = spec_storage_key(
                    spec_proposal_queue_refs_label(),
                    group_id@,
                    CURRENT_VERSION,
                );
                &&& (r is Ok <==> !self.contents().contains_key(rk) || (exists|l: Seq<Seq<u8>>|
                    self.contents()[rk] == #[trigger] byte_lists_json(l)))
                &&& (!self.contents().contains_key(rk) ==> r is Ok && (r->Ok_0).deep_view()
                    == Seq::<Seq<u8>>::empty())
                &&& (self.contents().contains_key(rk) ==> (forall|l: Seq<Seq<u8>>|
                    self.contents()[rk] == #[trigger] byte_lists_json(l) ==> r is Ok && (
                    r->Ok_0).deep_view() == l))
                &&& (r is Err ==> r == Result::<Vec<Vec<u8>>, MemoryKeyStoreError>::Err(
                    MemoryKeyStoreError::SerializationError,
                ))
            }),
    {
        self.read_list(&proposal_queue_refs_label(), group_id, CURRENT_VERSION)
    }

    /// The group's queued proposals, paired with their references, in
    /// insertion order: exactly the stored reference list, each entry
    /// with its stored proposal. A reference whose proposal is missing
    /// is an error.
    #[verifier::rlimit(100)]
    #[verifier::spinoff_prover]
    pub fn queued_proposals(&self, group_id: &Vec<u8>) -> (r: Result<
        Vec<(Vec<u8>, Vec<u8>)>,
        MemoryKeyStoreError,
    >)
        requires
            self.wf(),
        ensures
            ({
                let rk = spec_storage_key(
                    spec_proposal_queue_refs_label(),
                    group_id@,
                    CURRENT_VERSION,
                );
                &&& (!self.contents().contains_key(rk) ==> r is Ok && (r->Ok_0)@.len() == 0)
                &&& (self.contents().contains_key(rk) ==> (forall|l: Seq<Seq<u8>>|
                    self.contents()[rk] == #[trigger] byte_lists_json(l) ==> {
                        &&& (r is Ok <==> (forall|i: int|
                            0 <= i < l.len() ==> self.contents().contains_key(
                                #[trigger] spec_proposal_key_of(group_id@, l[i]),
                            )))
                        &&& (r is Ok ==> (r->Ok_0)@.len() == l.len() && (forall|i: int|
                            0 <= i < l.len() ==> (#[trigger] (r->Ok_0)@[i]).0@ == l[i] && (
                            r->Ok_0)@[i].1@ == self.contents()[spec_proposal_key_of(
                                group_id@,
                                l[i],
                            )]))
                    }))
                &&& (r matches Result::Err(MemoryKeyStoreError::SerializationError)
                    ==> self.contents().contains_key(rk) && !(exists|l: Seq<Seq<u8>>|
                    self.contents()[rk] == #[trigger] byte_lists_json(l)))
                &&& (r is Err ==> r == Result::<Vec<(Vec<u8>, Vec<u8>)>, MemoryKeyStoreError>::Err(
                    MemoryKeyStoreError::SerializationError,
                ) || r == Result::<Vec<(Vec<u8>, Vec<u8>)>, MemoryKeyStoreError>::Err(
                    MemoryKeyStoreError::NotFound,
                ))
            }),
    {
        let refs = match self.queued_proposal_refs(group_id) {
            Result::Ok(v) => v,
            Result::Err(e) => {
                return Result::Err(e);
            },
        };
        let ghost refsv = refs.deep_view();
        let mut out: Vec<(Vec<u8>, Vec<u8>)> = Vec::new();
        let mut i: usize = 0;
        while i < refs.len()
            invariant
                self.wf(),
                refsv == refs.deep_view(),
                i <= refsv.len(),
                out@.len() == i,
                refsv.len() > 0 ==> self.contents().contains_key(
                    spec_storage_key(
                        spec_proposal_queue_refs_label(),
                        group_id@,
                        CURRENT_VERSION,
                    ),
                ),
                forall|l: Seq<Seq<u8>>|
                    self.contents()[spec_storage_key(
                        spec_proposal_queue_refs_label(),
                        group_id@,
                        CURRENT_VERSION,
                    )] == #[trigger] byte_lists_json(l) && self.contents().contains_key(
                        spec_storage_key(
                            spec_proposal_queue_refs_label(),
                            group_id@,
                            CURRENT_VERSION,
                        ),
                    ) ==> refsv == l,
                forall|t: int|
                    0 <= t < i ==> self.contents().contains_key(
                        #[trigger] spec_proposal_key_of(group_id@, refsv[t]),
                    ),
                forall|t: int|
                    0 <= t < i ==> (#[trigger] out@[t]).0@ == refsv[t] && out@[t].1@
                        == self.contents()[spec_proposal_key_of(group_id@, refsv[t])],
            decreases refsv.len() - i,
        {
            let pref = crate::codec::copy_bytes(&refs[i]);
            proof {
                assert(refsv[i as int] == refs@[i as int]@);
            }
            match self.read_queued_proposal(group_id, &pref) {
                Option::None => {
                    return Result::Err(MemoryKeyStoreError::NotFound);
                },
                Option::Some(p) => {
                    out.push((pref, p));
                },
            }
            i = i + 1;
        }
        Result::Ok(out)
    }

    /// Look up one queued proposal by group and reference.
    fn read_queued_proposal(&self, group_id: &Vec<u8>, proposal_ref: &Vec<u8>) -> (r: Option<
        Vec<u8>,
    >)
        requires
            self.wf(),
        ensures
            r is Some <==> self.contents().contains_key(
                spec_proposal_key_of(group_id@, proposal_ref@),
            ),
            r is Some ==> r->0@ == self.contents()[spec_proposal_key_of(
                group_id@,
                proposal_ref@,
            )],
    {
        proof {
            reveal(spec_proposal_key_of);
        }
        let sub = Self::proposal_id(group_id, proposal_ref);
        self.read(&queued_proposal_label(), &sub, CURRENT_VERSION)
    }

    /// Remove the group's queued-proposal entry; the reference list
    /// stays as it is.
    pub fn clear_proposal_queue(&mut self, group_id: &Vec<u8>)
        requires
            old(self).wf(),
        ensures
            final(self).wf(),
            final(self).contents() == old(self).contents().remove(
                spec_storage_key(spec_queued_proposal_label(), group_id@, CURRENT_VERSION),
            ),
    {
        self.delete(&queued_proposal_label(), group_id, CURRENT_VERSION)
    }

    /// Append one serialized leaf node to the group's own-leaf-node log.
    pub fn append_own_leaf_node(&mut self, group_id: &Vec<u8>, leaf_node: Vec<u8>) -> (r: Result<
        (),
        MemoryKeyStoreError,
    >)
        requires
            old(self).wf(),
        ensures
            final(self).wf(),
            r is Err ==> final(self).contents() == old(self).contents() && r == Result::<
                (),
                MemoryKeyStoreError,
            >::Err(MemoryKeyStoreError::SerializationError),
            ({
                let sk = spec_storage_key(spec_own_leaf_nodes_label(), group_id@, CURRENT_VERSION);
                &&& (r is Ok <==> !old(self).contents().contains_key(sk) || (exists|
                    l: Seq<Seq<u8>>,
                |
                    old(self).contents()[sk] == #[trigger] byte_lists_json(l)))
                &&& (!old(self).contents().contains_key(sk) ==> r is Ok && final(self).contents()
                    == old(self).contents().insert(
                    sk,
                    byte_lists_json(seq![leaf_node@]),
                ))
                &&& (old(self).contents().contains_key(sk) ==> (forall|l: Seq<Seq<u8>>|
                    old(self).contents()[sk] == #[trigger] byte_lists_json(l) ==> r is Ok
                        && final(self).contents() == old(self).contents().insert(
                        sk,
                        byte_lists_json(l.push(leaf_node@)),
                    )))
            }),
    {
        self.append(&own_leaf_nodes_label(), group_id, leaf_node, CURRENT_VERSION)
    }

    /// The group's own-leaf-node log, in insertion order.
    pub fn own_leaf_nodes(&self, group_id: &Vec<u8>) -> (r: Result<
        Vec<Vec<u8>>,
        MemoryKeyStoreError,
    >)
        requires
            self.wf(),
        ensures
            ({
                let sk = spec_storage_key(spec_own_leaf_nodes_label(), group_id@, CURRENT_VERSION);
                &&& (r is Ok <==> !self.contents().contains_key(sk) || (exists|l: Seq<Seq<u8>>|
                    self.contents()[sk] == #[trigger] byte_lists_json(l)))
                &&& (!self.contents().contains_key(sk) ==> r is Ok && (r->Ok_0).deep_view()
                    == Seq::<Seq<u8>>::empty())
                &&& (self.contents().contains_key(sk) ==> (forall|l: Seq<Seq<u8>>|
                    self.contents()[sk] == #[trigger] byte_lists_json(l) ==> r is Ok && (
                    r->Ok_0).deep_view() == l))
                &&& (r is Err ==> r == Result::<Vec<Vec<u8>>, MemoryKeyStoreError>::Err(
                    MemoryKeyStoreError::SerializationError,
                ))
            }),
    {
        self.read_list(&own_leaf_nodes_label(), group_id, CURRENT_VERSION)
    }

    /// Clear the group's own-leaf-node log.
    pub fn clear_own_leaf_nodes(&mut self, group_id: &Vec<u8>)
        requires
            old(self).wf(),
        ensures
            final(self).wf(),
            final(self).contents() == old(self).contents().remove(
                spec_storage_key(spec_own_leaf_nodes_label(), group_id@, CURRENT_VERSION),
            ),
    {
        self.delete(&own_leaf_nodes_label(), group_id, CURRENT_VERSION)
    }

    /// Store the group's pending additional authenticated data.
    pub fn write_aad(&mut self, group_id: &Vec<u8>, aad: Vec<u8>)
        requires
            old(self).wf(),
        ensures
            final(self).wf(),
            final(self).contents() == old(self).contents().insert(
                spec_storage_key(spec_aad_label(), group_id@, CURRENT_VERSION),
                aad@,
            ),
    {
        self.write(&aad_label(), group_id, aad, CURRENT_VERSION)
    }

    /// The group's pending additional authenticated data; absent means
    /// empty.
    pub fn aad(&self, group_id: &Vec<u8>) -> (r: Vec<u8>)
        requires
            self.wf(),
        ensures
            self.contents().contains_key(
                spec_storage_key(spec_aad_label(), group_id@, CURRENT_VERSION),
            ) ==> r@ == self.contents()[spec_storage_key(
                spec_aad_label(),
                group_id@,
                CURRENT_VERSION,
            )],
            !self.contents().contains_key(
                spec_storage_key(spec_aad_label(), group_id@, CURRENT_VERSION),
            ) ==> r@ == Seq::<u8>::empty(),
    {
        match self.read(&aad_label(), group_id, CURRENT_VERSION) {
            Option::Some(v) => v,
            Option::None => {
                let out: Vec<u8> = Vec::new();
                proof {
                    assert(out@ =~= Seq::<u8>::empty());
                }
                out
            },
        }
    }

    /// Record the local participant's leaf index for the group.
    pub fn write_own_leaf_index(&mut self, group_id: &Vec<u8>, own_leaf_index: u32)
        requires
            old(self).wf(),
        ensures
            final(self).wf(),
            final(self).contents() == old(self).contents().insert(
                spec_storage_key(spec_own_leaf_node_index_label(), group_id@, CURRENT_VERSION),
                crate::codec::be32(own_leaf_index),
            ),
    {
        let mut value: Vec<u8> = Vec::new();
        crate::codec::append_be32(&mut value, own_leaf_index);
        proof {
            assert(value@ =~= crate::codec::be32(own_leaf_index));
        }
        self.write(&own_leaf_node_index_label(), group_id, value, CURRENT_VERSION)
    }

    /// The local participant's leaf index for the group, if recorded.
    pub fn own_leaf_index(&self, group_id: &Vec<u8>) -> (r: Option<u32>)
        requires
            self.wf(),
        ensures
            ({
                let sk = spec_storage_key(
                    spec_own_leaf_node_index_label(),
                    group_id@,
                    CURRENT_VERSION,
                );
                &&& (!self.contents().contains_key(sk) ==> r is None)
                &&& (self.contents().contains_key(sk) ==> (forall|v: u32|
                    self.contents()[sk] == #[trigger] crate::codec::be32(v) ==> r
                        == Option::Some(v)))
            }),
    {
        match self.read(&own_leaf_node_index_label(), group_id, CURRENT_VERSION) {
            Option::None => Option::None,
            Option::Some(b) => {
                if b.len() != 4 {
                    proof {
                        assert forall|v: u32| b@ != crate::codec::be32(v) by {}
                    }
                    return Option::None;
                }
                let v: u32 = (b[0] as u32) * 0x100_0000 + (b[1] as u32) * 0x1_0000 + (
                b[2] as u32) * 0x100 + (b[3] as u32);
                proof {
                    assert forall|v2: u32| b@ == crate::codec::be32(v2) implies v == v2 by {
                        assert(b@[0] == (v2 / 0x100_0000) as u8);
                        assert(b@[1] == ((v2 / 0x1_0000) % 256) as u8);
                        assert(b@[2] == ((v2 / 256) % 256) as u8);
                        assert(b@[3] == (v2 % 256) as u8);
                        assert(v == (v2 / 0x100_0000) * 0x100_0000 + ((v2 / 0x1_0000) % 256)
                            * 0x1_0000 + ((v2 / 256) % 256) * 0x100 + (v2 % 256));
                        assert(v2 == (v2 / 0x100_0000) * 0x100_0000 + ((v2 / 0x1_0000) % 256)
                            * 0x1_0000 + ((v2 / 256) % 256) * 0x100 + (v2 % 256)) by (bit_vector);
                    }
                }
                Option::Some(v)
            },
        }
    }

    /// Forget the recorded leaf index for the group.
    pub fn delete_own_leaf_index(&mut self, group_id: &Vec<u8>)
        requires
            old(self).wf(),
        ensures
            final(self).wf(),
            final(self).contents() == old(self).contents().remove(
                spec_storage_key(spec_own_leaf_node_index_label(), group_id@, CURRENT_VERSION),
            ),
    {
        self.delete(&own_leaf_node_index_label(), group_id, CURRENT_VERSION)
    }

    /// Record whether the group sends the ratchet tree as an extension.
    pub fn set_use_ratchet_tree_extension(&mut self, group_id: &Vec<u8>, value: bool)
        requires
            old(self).wf(),
        ensures
            final(self).wf(),
            final(self).contents() == old(self).contents().insert(
                spec_storage_key(spec_use_ratchet_tree_label(), group_id@, CURRENT_VERSION),
                seq![if value { 1u8 } else { 0u8 }],
            ),
    {
        let mut v: Vec<u8> = Vec::new();
        if value {
            v.push(1u8);
        } else {
            v.push(0u8);
        }
        proof {
            assert(v@ =~= seq![if value { 1u8 } else { 0u8 }]);
        }
        self.write(&use_ratchet_tree_label(), group_id, v, CURRENT_VERSION)
    }

    /// Whether the group sends the ratchet tree as an extension, if
    /// recorded.
    pub fn use_ratchet_tree_extension(&self, group_id: &Vec<u8>) -> (r: Option<bool>)
        requires
            self.wf(),
        ensures
            ({
                let sk = spec_storage_key(
                    spec_use_ratchet_tree_label(),
                    group_id@,
                    CURRENT_VERSION,
                );
                &&& (!self.contents().contains_key(sk) ==> r is None)
                &&& (self.contents().contains_key(sk) ==> (forall|b: bool|
                    self.contents()[sk] == seq![if b { 1u8 } else { 0u8 }] ==> r
                        == Option::Some(b)))
            }),
    {
        match self.read(&use_ratchet_tree_label(), group_id, CURRENT_VERSION) {
            Option::None => Option::None,
            Option::Some(v) => {
                if v.len() == 1 && v[0] == 1u8 {
                    Option::Some(true)
                } else if v.len() == 1 && v[0] == 0u8 {
                    Option::Some(false)
                } else {
                    Option::None
                }
            },
        }
    }

    /// Forget whether the group sends the ratchet tree as an extension.
    pub fn delete_use_ratchet_tree_extension(&mut self, group_id: &Vec<u8>)
        requires
            old(self).wf(),
        ensures
            final(self).wf(),
            final(self).contents() == old(self).contents().remove(
                spec_storage_key(spec_use_ratchet_tree_label(), group_id@, CURRENT_VERSION),
            ),
    {
        self.delete(&use_ratchet_tree_label(), group_id, CURRENT_VERSION)
    }
}

} // verus!
