//! A storage facade over a pluggable key-value backend.
//!
//! `KvStore` is the backend contract that deployments implement; an
//! in-memory backend is provided. `KvStoreStorage` wraps a backend and
//! stores the proposal queue under domain-prefixed keys: the proposal
//! itself under the group and its reference, and the group's
//! reference list as one JSON-encoded entry. The backend's `insert`
//! reports a key that already exists, so queueing the same proposal
//! reference twice fails rather than overwriting the proposal.

use vstd::prelude::*;
use crate::codec::{enc_bytes, append_enc_bytes, bytes_eq, copy_bytes};
use crate::storage::byte_lists_json;

verus! {

/// Stands in for an internal error that never occurs: the in-memory
/// backend constructs no value of it. An uninhabited enum would say
/// this in the type itself, but Verus requires every datatype to have
/// a variant, so a unit struct stands in.
#[derive(Debug)]
pub struct Infallible;

/// Failure of a backend lookup.
#[derive(Debug)]
pub enum KvGetError<InternalError> {
    /// The key is not present; the key is returned.
    NotFound(Vec<u8>),
    /// The backend failed on its own account.
    Internal(InternalError),
}

/// Failure of a backend insertion.
#[derive(Debug)]
pub enum KvInsertError<InternalError> {
    /// The key already holds a value; key and old value are returned.
    AlreadyExists(Vec<u8>, Vec<u8>),
    /// The backend failed on its own account.
    Internal(InternalError),
}

/// Failure of a backend deletion.
#[derive(Debug)]
pub enum KvDeleteError<InternalError> {
    /// The key is not present; the key is returned.
    NotFound(Vec<u8>),
    /// The backend failed on its own account.
    Internal(InternalError),
}

/// The backend contract: a byte-keyed map with fallible get, insert and
/// delete. Deployments implement it; every impl must meet these
/// contracts.
pub trait KvStore: Sized {
    /// The backend's own internal error type.
    type InternalError;

    /// The backend's contents as a map.
    spec fn kv(&self) -> Map<Seq<u8>, Seq<u8>>;

    /// The backend's own structural invariant.
    spec fn valid(&self) -> bool;

    fn get(&self, key: &Vec<u8>) -> (r: Result<Vec<u8>, KvGetError<Self::InternalError>>)
        requires
            self.valid(),
        ensures
            r is Ok ==> self.kv().contains_key(key@) && (r->Ok_0)@ == self.kv()[key@],
            r matches Result::Err(KvGetError::NotFound(k)) ==> !self.kv().contains_key(key@)
                && k@ == key@,
    ;

    fn insert(&mut self, key: Vec<u8>, value: Vec<u8>) -> (r: Result<
        (),
        KvInsertError<Self::InternalError>,
    >)
        requires
            old(self).valid(),
        ensures
            final(self).valid(),
            r is Ok ==> !old(self).kv().contains_key(key@) && final(self).kv() == old(
                self,
            ).kv().insert(key@, value@),
            r matches Result::Err(KvInsertError::AlreadyExists(k, v)) ==> old(
                self,
            ).kv().contains_key(key@) && final(self).kv() == old(self).kv() && k@ == key@ && v@
                == old(self).kv()[key@],
            r matches Result::Err(KvInsertError::Internal(_)) ==> final(self).kv() == old(
                self,
            ).kv(),
    ;

    fn delete(&mut self, key: &Vec<u8>) -> (r: Result<(), KvDeleteError<Self::InternalError>>)
        requires
            old(self).valid(),
        ensures
            final(self).valid(),
            r is Ok ==> old(self).kv().contains_key(key@) && final(self).kv() == old(
                self,
            ).kv().remove(key@),
            r matches Result::Err(KvDeleteError::NotFound(k)) ==> !old(self).kv().contains_key(
                key@,
            ) && final(self).kv() == old(self).kv() && k@ == key@,
            r matches Result::Err(KvDeleteError::Internal(_)) ==> final(self).kv() == old(
                self,
            ).kv(),
    ;
}

/// The in-memory backend: an association list with unique keys.
pub struct HashMapKv {
    pub entries: Vec<(Vec<u8>, Vec<u8>)>,
}

impl HashMapKv {
    /// Structural invariant: one entry per key.
    pub open spec fn wf(&self) -> bool {
        crate::storage::entries_unique(self.entries@)
    }

    /// An empty backend.
    pub fn new() -> (r: HashMapKv)
        ensures
            r.wf(),
            r.kv() == Map::<Seq<u8>, Seq<u8>>::empty(),
    {
        let r = HashMapKv { entries: Vec::new() };
        proof {
            assert(r.kv() =~= Map::<Seq<u8>, Seq<u8>>::empty());
        }
        r
    }

    fn position(&self, key: &Vec<u8>) -> (r: Option<usize>)
        requires
            self.wf(),
        ensures
            r is Some ==> (r->0 as int) < self.entries@.len() && self.entries@[r->0 as int].0@
                == key@,
            r is None ==> !self.kv().contains_key(key@),
    {
        let mut i: usize = 0;
        while i < self.entries.len()
            invariant
                self.wf(),
                i <= self.entries@.len(),
                forall|t: int| 0 <= t < i ==> (#[trigger] self.entries@[t]).0@ != key@,
            decreases self.entries@.len() - i,
        {
            if bytes_eq(&self.entries[i].0, key) {
                return Option::Some(i);
            }
            i = i + 1;
        }
        proof {
            if self.kv().contains_key(key@) {
                let t = choose|t: int|
                    0 <= t < self.entries@.len() && (#[trigger] self.entries@[t]).0@ == key@;
                assert(false);
            }
        }
        Option::None
    }
}

impl KvStore for HashMapKv {
    type InternalError = Infallible;

    open spec fn kv(&self) -> Map<Seq<u8>, Seq<u8>> {
        crate::storage::entries_map(self.entries@)
    }

    open spec fn valid(&self) -> bool {
        self.wf()
    }

    fn get(&self, key: &Vec<u8>) -> (r: Result<Vec<u8>, KvGetError<Infallible>>) {
        match self.position(key) {
            Option::Some(i) => {
                proof {
                    crate::storage::lemma_entries_map_at(self.entries@, i as int);
                }
                Result::Ok(copy_bytes(&self.entries[i].1))
            },
            Option::None => Result::Err(KvGetError::NotFound(copy_bytes(key))),
        }
    }

    fn insert(&mut self, key: Vec<u8>, value: Vec<u8>) -> (r: Result<
        (),
        KvInsertError<Infallible>,
    >) {
        let ghost pre = self.entries@;
        match self.position(&key) {
            Option::Some(i) => {
                proof {
                    crate::storage::lemma_entries_map_at(self.entries@, i as int);
                }
                let old_value = copy_bytes(&self.entries[i].1);
                Result::Err(KvInsertError::AlreadyExists(key, old_value))
            },
            Option::None => {
                self.entries.push((key, value));
                proof {
                    assert forall|a: int, b: int|
                        0 <= a < b < self.entries@.len() implies (#[trigger] self.entries@[a]).0@
                        != (#[trigger] self.entries@[b]).0@ by {
                        if b < pre.len() {
                            assert(pre[a].0@ != pre[b].0@);
                        }
                    }
                    crate::storage::lemma_entries_map_push(pre, self.entries@[pre.len() as int]);
                }
                Result::Ok(())
            },
        }
    }

    fn delete(&mut self, key: &Vec<u8>) -> (r: Result<(), KvDeleteError<Infallible>>) {
        let ghost pre = self.entries@;
        match self.position(key) {
            Option::Some(i) => {
                proof {
                    crate::storage::lemma_entries_map_at(self.entries@, i as int);
                }
                self.entries.remove(i);
                proof {
                    assert(self.entries@ =~= pre.remove(i as int));
                    assert forall|a: int, b: int|
                        0 <= a < b < self.entries@.len() implies (#[trigger] self.entries@[a]).0@
                        != (#[trigger] self.entries@[b]).0@ by {
                        let a0 = if a < i { a } else { a + 1 };
                        let b0 = if b < i { b } else { b + 1 };
                        assert(self.entries@[a] == pre[a0]);
                        assert(self.entries@[b] == pre[b0]);
                        assert(pre[a0].0@ != pre[b0].0@);
                    }
                    crate::storage::lemma_entries_map_remove(pre, i as int);
                }
                Result::Ok(())
            },
            Option::None => Result::Err(KvDeleteError::NotFound(copy_bytes(key))),
        }
    }
}

/// Why a read through the facade failed.
#[derive(Debug)]
pub enum KvStorageGetError<InternalError> {
    /// The composed key is not present.
    NotFound(Vec<u8>),
    /// A stored value could not be decoded.
    ValueDecodeError,
    /// The backend failed.
    KvGetError(KvGetError<InternalError>),
}

/// Why an update through the facade failed.
#[derive(Debug)]
pub enum KvStorageUpdateError<InternalError> {
    /// A value could not be re-encoded or decoded.
    ValueDecodeError,
    /// The backend refused the insertion.
    KvInsertError(KvInsertError<InternalError>),
    /// Reading the current state failed.
    GetError(KvGetError<InternalError>),
}

/// The domain-prefixed key of a queued proposal. Kept opaque so that
/// quantified contracts over many references stay tractable.
#[verifier::opaque]
pub open spec fn spec_kv_proposal_key(group_id: Seq<u8>, proposal_ref: Seq<u8>) -> Seq<u8> {
    seq![0u8, 0u8] + enc_bytes(group_id) + enc_bytes(proposal_ref)
}

/// The domain-prefixed key of a group's proposal-reference list.
#[verifier::opaque]
pub open spec fn spec_kv_refs_key(group_id: Seq<u8>) -> Seq<u8> {
    seq![0u8, 1u8] + enc_bytes(group_id)
}

/// A storage facade over a `KvStore` backend.
pub struct KvStoreStorage<S: KvStore> {
    pub store: S,
}

impl<S: KvStore> KvStoreStorage<S> {
    /// The backing map.
    pub open spec fn kv(&self) -> Map<Seq<u8>, Seq<u8>> {
        self.store.kv()
    }

    fn proposal_key(group_id: &Vec<u8>, proposal_ref: &Vec<u8>) -> (r: Vec<u8>)
        ensures
            r@ == spec_kv_proposal_key(group_id@, proposal_ref@),
    {
        let mut out: Vec<u8> = Vec::new();
        out.push(0u8);
        out.push(0u8);
        append_enc_bytes(&mut out, group_id);
        append_enc_bytes(&mut out, proposal_ref);
        proof {
            reveal(spec_kv_proposal_key);
            assert(out@ =~= spec_kv_proposal_key(group_id@, proposal_ref@));
        }
        out
    }

    fn refs_key(group_id: &Vec<u8>) -> (r: Vec<u8>)
        ensures
            r@ == spec_kv_refs_key(group_id@),
    {
        let mut out: Vec<u8> = Vec::new();
        out.push(0u8);
        out.push(1u8);
        append_enc_bytes(&mut out, group_id);
        proof {
            reveal(spec_kv_refs_key);
            assert(out@ =~= spec_kv_refs_key(group_id@));
        }
        out
    }

    /// The group's queued proposal references; an absent list is a
    /// `NotFound` error.
    pub fn get_queued_proposal_refs(&self, group_id: &Vec<u8>) -> (r: Result<
        Vec<Vec<u8>>,
        KvStorageGetError<S::InternalError>,
    >)
        requires
            self.store.valid(),
        ensures
            r is Ok ==> self.kv().contains_key(spec_kv_refs_key(group_id@)) && (exists|
                l: Seq<Seq<u8>>,
            |
                self.kv()[spec_kv_refs_key(group_id@)] == #[trigger] byte_lists_json(l)) && (
            forall|l: Seq<Seq<u8>>|
                self.kv()[spec_kv_refs_key(group_id@)] == #[trigger] byte_lists_json(l) ==> (
                r->Ok_0).deep_view() == l),
            r matches Result::Err(KvStorageGetError::NotFound(_)) ==> !self.kv().contains_key(
                spec_kv_refs_key(group_id@),
            ),
            r matches Result::Err(KvStorageGetError::ValueDecodeError) ==> self.kv().contains_key(
                spec_kv_refs_key(group_id@),
            ) && !(exists|l: Seq<Seq<u8>>|
                self.kv()[spec_kv_refs_key(group_id@)] == #[trigger] byte_lists_json(l)),
    {
        let key = Self::refs_key(group_id);
        match self.store.get(&key) {
            Result::Ok(bytes) => {
                match crate::storage::decode_canonical_byte_lists(&bytes) {
                    Option::Some(l) => Result::Ok(l),
                    Option::None => Result::Err(KvStorageGetError::ValueDecodeError),
                }
            },
            Result::Err(KvGetError::NotFound(k)) => Result::Err(KvStorageGetError::NotFound(k)),
            Result::Err(e) => Result::Err(KvStorageGetError::KvGetError(e)),
        }
    }

    /// The group's queued proposals, in reference order; a missing
    /// proposal is a `NotFound` error.
    #[verifier::rlimit(100)]
    #[verifier::spinoff_prover]
    pub fn get_queued_proposals(&self, group_id: &Vec<u8>) -> (r: Result<
        Vec<Vec<u8>>,
        KvStorageGetError<S::InternalError>,
    >)
        requires
            self.store.valid(),
        ensures
            r is Ok ==> self.kv().contains_key(spec_kv_refs_key(group_id@)),
            r is Ok ==> forall|l: Seq<Seq<u8>>|
                self.kv()[spec_kv_refs_key(group_id@)] == #[trigger] byte_lists_json(l) ==> (
                r->Ok_0)@.len() == l.len() && (forall|i: int|
                    0 <= i < l.len() ==> self.kv().contains_key(
                        #[trigger] spec_kv_proposal_key(group_id@, l[i]),
                    ) && (r->Ok_0)@[i]@ == self.kv()[spec_kv_proposal_key(group_id@, l[i])]),
            r matches Result::Err(KvStorageGetError::ValueDecodeError) ==> self.kv().contains_key(
                spec_kv_refs_key(group_id@),
            ) && !(exists|l: Seq<Seq<u8>>|
                self.kv()[spec_kv_refs_key(group_id@)] == #[trigger] byte_lists_json(l)),
            r matches Result::Err(KvStorageGetError::NotFound(_)) ==> !self.kv().contains_key(
                spec_kv_refs_key(group_id@),
            ) || (forall|l: Seq<Seq<u8>>|
                self.kv()[spec_kv_refs_key(group_id@)] == #[trigger] byte_lists_json(l) ==> (
                exists|i: int|
                    0 <= i < l.len() && !self.kv().contains_key(
                        #[trigger] spec_kv_proposal_key(group_id@, l[i]),
                    ))),
    {
        let refs = self.get_queued_proposal_refs(group_id)?;
        let ghost refsv = refs.deep_view();
        let mut out: Vec<Vec<u8>> = Vec::new();
        let mut i: usize = 0;
        while i < refs.len()
            invariant
                self.store.valid(),
                refsv == refs.deep_view(),
                i <= refsv.len(),
                out@.len() == i,
                self.kv().contains_key(spec_kv_refs_key(group_id@)),
                forall|l: Seq<Seq<u8>>|
                    self.kv()[spec_kv_refs_key(group_id@)] == #[trigger] byte_lists_json(l)
                        ==> refsv == l,
                forall|t: int|
                    0 <= t < i ==> self.kv().contains_key(
                        #[trigger] spec_kv_proposal_key(group_id@, refsv[t]),
                    ) && out@[t]@ == self.kv()[spec_kv_proposal_key(group_id@, refsv[t])],
            decreases refsv.len() - i,
        {
            let key = Self::proposal_key(group_id, &refs[i]);
            match self.store.get(&key) {
                Result::Ok(p) => {
                    out.push(p);
                    proof {
                        assert(refsv[i as int] == refs@[i as int]@);
                        assert(out@[i as int]@ == self.kv()[spec_kv_proposal_key(
                            group_id@,
                            refsv[i as int],
                        )]);
                    }
                },
                Result::Err(KvGetError::NotFound(k)) => {
                    proof {
                        assert(refsv[i as int] == refs@[i as int]@);
                        assert(!self.kv().contains_key(
                            spec_kv_proposal_key(group_id@, refsv[i as int]),
                        ));
                        let rkv = self.kv()[spec_kv_refs_key(group_id@)];
                        assert forall|l: Seq<Seq<u8>>|
                            rkv == #[trigger] byte_lists_json(l) implies (exists|t: int|
                            0 <= t < l.len() && !self.kv().contains_key(
                                #[trigger] spec_kv_proposal_key(group_id@, l[t]),
                            )) by {
                            assert(refsv == l);
                            assert(l[i as int] == refsv[i as int]);
                            assert((i as int) < l.len() && !self.kv().contains_key(
                                spec_kv_proposal_key(group_id@, l[i as int]),
                            ));
                        }
                    }
                    return Result::Err(KvStorageGetError::NotFound(k));
                },
                Result::Err(e) => {
                    return Result::Err(KvStorageGetError::KvGetError(e));
                },
            }
            i = i + 1;
        }
        Result::Ok(out)
    }

    /// Queue a proposal: extend the group's reference list (starting
    /// from the empty list when absent) and store the proposal itself.
    /// The extended list replaces the old entry; the proposal insertion
    /// still refuses an existing reference.
    #[verifier::rlimit(100)]
    #[verifier::spinoff_prover]
    pub fn queue_proposal(
        &mut self,
        group_id: &Vec<u8>,
        proposal_ref: &Vec<u8>,
        proposal: Vec<u8>,
    ) -> (r: Result<(), KvStorageUpdateError<S::InternalError>>)
        requires
            old(self).store.valid(),
        ensures
            final(self).store.valid(),
            ({
                let rk = spec_kv_refs_key(group_id@);
                let pk = spec_kv_proposal_key(group_id@, proposal_ref@);
                &&& (r is Ok && !old(self).kv().contains_key(rk)
                    ==> final(self).kv() == old(self).kv().insert(
                    rk,
                    byte_lists_json(seq![proposal_ref@]),
                ).insert(pk, proposal@))
                &&& (old(self).kv().contains_key(rk) ==> (forall|l: Seq<Seq<u8>>|
                    old(self).kv()[rk] == #[trigger] byte_lists_json(l)
                        ==> (r is Ok ==> final(self).kv() == old(self).kv().insert(
                        rk,
                        byte_lists_json(l.push(proposal_ref@)),
                    ).insert(pk, proposal@))))
                &&& (r matches Result::Err(KvStorageUpdateError::ValueDecodeError)
                    ==> old(self).kv().contains_key(rk) && !(exists|l: Seq<Seq<u8>>|
                    old(self).kv()[rk] == #[trigger] byte_lists_json(l)) && final(self).kv()
                    == old(self).kv())
                &&& (r is Ok ==> !old(self).kv().contains_key(rk) || (exists|l: Seq<Seq<u8>>|
                    old(self).kv()[rk] == #[trigger] byte_lists_json(l)))
            }),
    {
        let refs_key = Self::refs_key(group_id);
        let proposal_key = Self::proposal_key(group_id, proposal_ref);
        let ghost m0 = self.kv();
        let ghost rk = spec_kv_refs_key(group_id@);
        let ghost pk = spec_kv_proposal_key(group_id@, proposal_ref@);
        let mut refs: Vec<Vec<u8>> = Vec::new();
        let ghost was_present: bool;
        match self.store.get(&refs_key) {
            Result::Ok(bytes) => {
                proof {
                    was_present = true;
                }
                match crate::storage::decode_canonical_byte_lists(&bytes) {
                    Option::Some(l) => {
                        refs = l;
                    },
                    Option::None => {
                        return Result::Err(KvStorageUpdateError::ValueDecodeError);
                    },
                }
            },
            Result::Err(KvGetError::NotFound(_)) => {
                proof {
                    was_present = false;
                }
            },
            Result::Err(e) => {
                return Result::Err(KvStorageUpdateError::GetError(e));
            },
        }
        proof {
            assert(was_present ==> m0.contains_key(rk) && m0[rk] == byte_lists_json(
                refs.deep_view(),
            ));
            assert(!was_present ==> !m0.contains_key(rk));
        }
        let ghost pre_refs = refs.deep_view();
        refs.push(copy_bytes(proposal_ref));
        proof {
            assert(refs.deep_view() =~~= pre_refs.push(proposal_ref@));
            if !was_present {
                assert(pre_refs.push(proposal_ref@) =~= seq![proposal_ref@]);
            }
        }
        let encoded = crate::storage::encode_byte_lists(&refs);
        // the backend's insert refuses existing keys, so the old list
        // entry is dropped before the extended list is stored
        match self.store.delete(&refs_key) {
            _ => {},
        }
        match self.store.insert(refs_key, encoded) {
            Result::Ok(()) => {},
            Result::Err(e) => {
                return Result::Err(KvStorageUpdateError::KvInsertError(e));
            },
        }
        proof {
            assert(self.kv() =~= m0.insert(rk, byte_lists_json(pre_refs.push(proposal_ref@))));
        }
        match self.store.insert(proposal_key, proposal) {
            Result::Ok(()) => Result::Ok(()),
            Result::Err(e) => Result::Err(KvStorageUpdateError::KvInsertError(e)),
        }
    }

}

} // verus!

verus! {

/// One staged storage mutation; queueing a proposal is the one kind.
pub enum Update {
    /// Queue a proposal: group id, proposal reference, proposal.
    QueueProposal(Vec<u8>, Vec<u8>, Vec<u8>),
}

/// View of an update: group id, proposal reference, proposal.
pub open spec fn update_view(u: Update) -> (Seq<u8>, Seq<u8>, Seq<u8>) {
    match u {
        Update::QueueProposal(g, r, p) => (g@, r@, p@),
    }
}

impl Update {
    /// Field-by-field copy.
    pub fn duplicate(&self) -> (r: Update)
        ensures
            update_view(r) == update_view(*self),
    {
        match self {
            Update::QueueProposal(g, pr, p) => Update::QueueProposal(
                copy_bytes(g),
                copy_bytes(pr),
                copy_bytes(p),
            ),
        }
    }
}

/// One successful queue step at the map level: the reference list is
/// started or extended, and the proposal stored.
pub open spec fn spec_queue_step(
    m: Map<Seq<u8>, Seq<u8>>,
    gid: Seq<u8>,
    pref: Seq<u8>,
    prop: Seq<u8>,
    m2: Map<Seq<u8>, Seq<u8>>,
) -> bool {
    let rk = spec_kv_refs_key(gid);
    let pk = spec_kv_proposal_key(gid, pref);
    (!m.contains_key(rk) && m2 == m.insert(rk, byte_lists_json(seq![pref])).insert(pk, prop)) || (
    exists|l: Seq<Seq<u8>>|
        m[rk] == #[trigger] byte_lists_json(l) && m.contains_key(rk) && m2 == m.insert(
            rk,
            byte_lists_json(l.push(pref)),
        ).insert(pk, prop))
}

/// `m2` is reached from `m` by applying every update in order, each
/// step succeeding.
pub open spec fn spec_updates_applied(
    m: Map<Seq<u8>, Seq<u8>>,
    us: Seq<(Seq<u8>, Seq<u8>, Seq<u8>)>,
    m2: Map<Seq<u8>, Seq<u8>>,
) -> bool
    decreases us.len(),
{
    if us.len() == 0 {
        m2 == m
    } else {
        exists|mid: Map<Seq<u8>, Seq<u8>>|
            #[trigger] spec_queue_step(m, us[0].0, us[0].1, us[0].2, mid)
                && spec_updates_applied(mid, us.drop_first(), m2)
    }
}

/// Extending an applied prefix by one successful step applies the
/// extended prefix.
pub proof fn lemma_updates_applied_snoc(
    m: Map<Seq<u8>, Seq<u8>>,
    us: Seq<(Seq<u8>, Seq<u8>, Seq<u8>)>,
    mid: Map<Seq<u8>, Seq<u8>>,
    u: (Seq<u8>, Seq<u8>, Seq<u8>),
    m2: Map<Seq<u8>, Seq<u8>>,
)
    requires
        spec_updates_applied(m, us, mid),
        spec_queue_step(mid, u.0, u.1, u.2, m2),
    ensures
        spec_updates_applied(m, us.push(u), m2),
    decreases us.len(),
{
    if us.len() == 0 {
        assert(mid == m);
        assert(us.push(u)[0] == u);
        assert(us.push(u).drop_first() =~= Seq::<(Seq<u8>, Seq<u8>, Seq<u8>)>::empty());
        assert(spec_queue_step(m, us.push(u)[0].0, us.push(u)[0].1, us.push(u)[0].2, m2));
        assert(spec_updates_applied(m2, us.push(u).drop_first(), m2));
    } else {
        let mid1 = choose|mid1: Map<Seq<u8>, Seq<u8>>|
            #[trigger] spec_queue_step(m, us[0].0, us[0].1, us[0].2, mid1)
                && spec_updates_applied(mid1, us.drop_first(), mid);
        lemma_updates_applied_snoc(mid1, us.drop_first(), mid, u, m2);
        assert(us.push(u)[0] == us[0]);
        assert(us.push(u).drop_first() =~= us.drop_first().push(u));
        assert(spec_queue_step(m, us.push(u)[0].0, us.push(u)[0].1, us.push(u)[0].2, mid1));
    }
}

impl<S: KvStore> KvStoreStorage<S> {
    /// Apply one staged update.
    pub fn apply_update(&mut self, update: Update) -> (r: Result<
        (),
        KvStorageUpdateError<S::InternalError>,
    >)
        requires
            old(self).store.valid(),
        ensures
            final(self).store.valid(),
            r is Ok ==> spec_queue_step(
                old(self).kv(),
                update_view(update).0,
                update_view(update).1,
                update_view(update).2,
                final(self).kv(),
            ),
    {
        match update {
            Update::QueueProposal(g, pr, p) => {
                let r = self.queue_proposal(&g, &pr, p);
                proof {
                    if r is Ok {
                        let rk = spec_kv_refs_key(g@);
                        if old(self).kv().contains_key(rk) {
                            let l = choose|l: Seq<Seq<u8>>|
                                old(self).kv()[rk] == #[trigger] byte_lists_json(l);
                            assert(spec_queue_step(old(self).kv(), g@, pr@, p@, self.kv()));
                        }
                    }
                }
                r
            },
        }
    }

    /// Apply a batch of staged updates in order, stopping at the first
    /// failure.
    pub fn apply_updates(&mut self, updates: Vec<Update>) -> (r: Result<
        (),
        KvStorageUpdateError<S::InternalError>,
    >)
        requires
            old(self).store.valid(),
        ensures
            final(self).store.valid(),
            r is Ok ==> spec_updates_applied(
                old(self).kv(),
                updates@.map_values(|u: Update| update_view(u)),
                final(self).kv(),
            ),
    {
        let ghost m0 = self.kv();
        let ghost uv = updates@.map_values(|u: Update| update_view(u));
        proof {
            assert(uv.take(0) =~= Seq::<(Seq<u8>, Seq<u8>, Seq<u8>)>::empty());
        }
        let mut k: usize = 0;
        while k < updates.len()
            invariant
                self.store.valid(),
                uv == updates@.map_values(|u: Update| update_view(u)),
                k <= uv.len(),
                spec_updates_applied(m0, uv.take(k as int), self.kv()),
            decreases uv.len() - k,
        {
            let u = updates[k].duplicate();
            let ghost pre = self.kv();
            match self.apply_update(u) {
                Result::Ok(()) => {},
                Result::Err(e) => {
                    return Result::Err(e);
                },
            }
            proof {
                assert(uv[k as int] == update_view(updates@[k as int]));
                lemma_updates_applied_snoc(m0, uv.take(k as int), pre, uv[k as int], self.kv());
                assert(uv.take(k as int + 1) =~= uv.take(k as int).push(uv[k as int]));
            }
            k = k + 1;
        }
        proof {
            assert(uv.take(uv.len() as int) =~= uv);
        }
        Result::Ok(())
    }
}

} // verus!
