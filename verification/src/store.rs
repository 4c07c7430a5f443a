use vstd::prelude::*;
use crate::error::ContractError;
use crate::msg::{IndexedEncryptedKeyshare, KeyshareView, shares_view};
use crate::state::{
    IdentityRecord, KeyshareEntry, RecordView, entries_view, ks_has, ks_idx, ks_set,
    ks_unique,
};
use crate::text::{
    chars_lt, lemma_chars_lt_irreflexive, lemma_chars_lt_transitive, lemma_chars_lt_trichotomy,
    string_lt,
};

verus! {

/// Whether `s` holds a record keyed by `id`.
pub open spec fn has_id(s: Seq<RecordView>, id: Seq<char>) -> bool {
    exists|i: int| 0 <= i < s.len() && s[i].identity == id
}

/// The position of the record keyed by `id`; unique while the store is
/// sorted.
pub open spec fn idx_of(s: Seq<RecordView>, id: Seq<char>) -> int {
    choose|i: int| 0 <= i < s.len() && s[i].identity == id
}

/// The record keyed by `id`.
pub open spec fn record_of(s: Seq<RecordView>, id: Seq<char>) -> RecordView {
    s[idx_of(s, id)]
}

/// Records stand in strictly ascending identity order, so identities are
/// unique and `list_all` needs no sorting step.
pub open spec fn sorted_by_identity(s: Seq<RecordView>) -> bool {
    forall|i: int, j: int|
        0 <= i < j < s.len() ==> chars_lt(#[trigger] s[i].identity, #[trigger] s[j].identity)
}

/// A position holding `id` in a sorted store is the position `idx_of` picks.
pub proof fn lemma_sorted_unique_idx(s: Seq<RecordView>, id: Seq<char>, i: int)
    requires
        sorted_by_identity(s),
        0 <= i < s.len(),
        s[i].identity == id,
    ensures
        has_id(s, id),
        idx_of(s, id) == i,
{
    assert(has_id(s, id));
    let j = idx_of(s, id);
    assert(0 <= j < s.len() && s[j].identity == id);
    if i != j {
        lemma_chars_lt_irreflexive(id);
    }
}

/// Inserting a record between its strict lower and upper neighbours keeps
/// the store sorted.
pub proof fn lemma_sorted_insert(s: Seq<RecordView>, i: int, rec: RecordView)
    requires
        sorted_by_identity(s),
        0 <= i <= s.len(),
        forall|j: int| 0 <= j < i ==> chars_lt(#[trigger] s[j].identity, rec.identity),
        forall|j: int| i <= j < s.len() ==> chars_lt(rec.identity, #[trigger] s[j].identity),
    ensures
        sorted_by_identity(s.insert(i, rec)),
{
    let t = s.insert(i, rec);
    assert forall|p: int, q: int| 0 <= p < q < t.len() implies chars_lt(
        t[p].identity,
        t[q].identity,
    ) by {
        if p < i {
            assert(t[p] == s[p]);
        } else if p == i {
            assert(t[p] == rec);
        } else {
            assert(t[p] == s[p - 1]);
        }
        if q < i {
            assert(t[q] == s[q]);
        } else if q == i {
            assert(t[q] == rec);
        } else {
            assert(t[q] == s[q - 1]);
        }
    }
}

/// Replacing a record by one with the same identity keeps the store sorted.
pub proof fn lemma_sorted_update_same_id(s: Seq<RecordView>, i: int, rec: RecordView)
    requires
        sorted_by_identity(s),
        0 <= i < s.len(),
        rec.identity == s[i].identity,
    ensures
        sorted_by_identity(s.update(i, rec)),
{
}

/// The position of the entry carrying `requester`, if one exists.
fn find_entry(v: &Vec<KeyshareEntry>, requester: &String) -> (r: Option<usize>)
    ensures
        match r {
            Some(j) => j < v@.len() && entries_view(v@)[j as int].0 == requester@,
            None => !ks_has(entries_view(v@), requester@),
        },
{
    let mut j: usize = 0;
    while j < v.len()
        invariant
            j <= v.len(),
            forall|k: int| 0 <= k < j ==> (#[trigger] entries_view(v@)[k]).0 != requester@,
        decreases v.len() - j,
    {
        if v[j].requester == *requester {
            return Some(j);
        }
        j = j + 1;
    }
    None
}

/// The durable identity-record store.
pub struct RecordStore {
    records: Vec<IdentityRecord>,
}

impl View for RecordStore {
    type V = Seq<RecordView>;

    closed spec fn view(&self) -> Seq<RecordView> {
        self.records@.map_values(|r: IdentityRecord| r@)
    }
}

impl RecordStore {
    /// Well-formedness: sorted, and every record's keyshare requesters are
    /// pairwise distinct.
    pub open spec fn wf(&self) -> bool {
        &&& sorted_by_identity(self@)
        &&& forall|i: int| 0 <= i < self@.len() ==> ks_unique(#[trigger] self@[i].keyshares)
    }

    /// An empty store.
    pub fn new() -> (s: Self)
        ensures
            s.wf(),
            s@ == Seq::<RecordView>::empty(),
    {
        let s = RecordStore { records: Vec::new() };
        proof {
            assert(s@ =~= Seq::<RecordView>::empty());
        }
        s
    }

    /// The position of the record keyed by `identity`, if one exists.
    fn find(&self, identity: &String) -> (r: Option<usize>)
        ensures
            match r {
                Some(i) => i < self@.len() && self@[i as int].identity == identity@,
                None => !has_id(self@, identity@),
            },
    {
        let mut i: usize = 0;
        while i < self.records.len()
            invariant
                i <= self.records.len(),
                self@.len() == self.records@.len(),
                forall|j: int| 0 <= j < i ==> (#[trigger] self@[j]).identity != identity@,
            decreases self.records.len() - i,
        {
            if self.records[i].identity == *identity {
                return Some(i);
            }
            i = i + 1;
        }
        None
    }

    /// Loads the record under `identity`, or fails with `RecordNotFound`.
    pub fn get(&self, identity: &String) -> (r: Result<IdentityRecord, ContractError>)
        requires
            self.wf(),
        ensures
            match r {
                Ok(rec) => has_id(self@, identity@) && rec@ == record_of(self@, identity@),
                Err(e) => e is RecordNotFound && !has_id(self@, identity@),
            },
    {
        match self.find(identity) {
            Some(i) => {
                proof {
                    lemma_sorted_unique_idx(self@, identity@, i as int);
                }
                Ok(self.records[i].clone())
            },
            None => Err(ContractError::RecordNotFound),
        }
    }

    /// Unconditional upsert keyed by the record's identity: an existing
    /// record of the same identity is overwritten in place; otherwise the
    /// record enters at its sorted position.
    pub fn create(&mut self, record: IdentityRecord)
        requires
            old(self).wf(),
            ks_unique(record@.keyshares),
        ensures
            final(self).wf(),
            has_id(old(self)@, record@.identity) ==> final(self)@ == old(self)@.update(
                idx_of(old(self)@, record@.identity),
                record@,
            ),
            !has_id(old(self)@, record@.identity) ==> exists|i: int|
                0 <= i <= old(self)@.len() && final(self)@ == old(self)@.insert(i, record@),
    {
        let ghost pre = self@;
        let mut i: usize = 0;
        while i < self.records.len() && string_lt(&self.records[i].identity, &record.identity)
            invariant
                i <= self.records.len(),
                self@.len() == self.records@.len(),
                forall|j: int|
                    0 <= j < i ==> chars_lt((#[trigger] self@[j]).identity, record@.identity),
            decreases self.records.len() - i,
        {
            i = i + 1;
        }
        if i < self.records.len() && self.records[i].identity == record.identity {
            proof {
                lemma_sorted_unique_idx(pre, record@.identity, i as int);
            }
            self.records.remove(i);
            self.records.insert(i, record);
            proof {
                assert(self@ =~= pre.update(i as int, record@));
                lemma_sorted_update_same_id(pre, i as int, record@);
            }
        } else {
            proof {
                if i < pre.len() {
                    lemma_chars_lt_trichotomy(pre[i as int].identity, record@.identity);
                }
                assert forall|j: int| i <= j < pre.len() implies chars_lt(
                    record@.identity,
                    (#[trigger] pre[j]).identity,
                ) by {
                    if j > i {
                        assert(chars_lt(pre[i as int].identity, pre[j].identity));
                        lemma_chars_lt_transitive(
                            record@.identity,
                            pre[i as int].identity,
                            pre[j].identity,
                        );
                    }
                }
                assert forall|j: int| 0 <= j < pre.len() implies (#[trigger] pre[j]).identity
                    != record@.identity by {
                    lemma_chars_lt_irreflexive(record@.identity);
                }
                assert(!has_id(pre, record@.identity));
            }
            self.records.insert(i, record);
            proof {
                assert(self@ =~= pre.insert(i as int, record@));
                lemma_sorted_insert(pre, i as int, record@);
                assert(0 <= i as int <= pre.len() && self@ == pre.insert(i as int, record@));
            }
        }
    }

    /// Overwrites the record's ciphertext and stamps the submission time, or
    /// fails with `RecordNotFound`.
    pub fn update_data(&mut self, identity: &String, data: String, now: u64) -> (r: Result<
        (),
        ContractError,
    >)
        requires
            old(self).wf(),
        ensures
            final(self).wf(),
            match r {
                Ok(_) => has_id(old(self)@, identity@) && final(self)@ == old(self)@.update(
                    idx_of(old(self)@, identity@),
                    RecordView {
                        encrypted_data: data@,
                        last_submission: now,
                        ..record_of(old(self)@, identity@)
                    },
                ),
                Err(e) => e is RecordNotFound && !has_id(old(self)@, identity@) && final(self)@
                    == old(self)@,
            },
    {
        let ghost pre = self@;
        match self.find(identity) {
            Some(i) => {
                proof {
                    lemma_sorted_unique_idx(pre, identity@, i as int);
                }
                let mut rec = self.records.remove(i);
                rec.encrypted_data = data;
                rec.last_submission = now;
                self.records.insert(i, rec);
                proof {
                    assert(self@ =~= pre.update(
                        i as int,
                        RecordView {
                            encrypted_data: data@,
                            last_submission: now,
                            ..record_of(pre, identity@)
                        },
                    ));
                    lemma_sorted_update_same_id(pre, i as int, self@[i as int]);
                    assert(sorted_by_identity(self@));
                }
                Ok(())
            },
            None => Err(ContractError::RecordNotFound),
        }
    }

    /// Fully replaces the fragment sequence stored for `requester` on the
    /// record under `identity`, or fails with `RecordNotFound`.
    pub fn submit_keyshares(
        &mut self,
        identity: &String,
        requester: &String,
        fragments: Vec<IndexedEncryptedKeyshare>,
    ) -> (r: Result<(), ContractError>)
        requires
            old(self).wf(),
        ensures
            final(self).wf(),
            match r {
                Ok(_) => has_id(old(self)@, identity@) && final(self)@ == old(self)@.update(
                    idx_of(old(self)@, identity@),
                    RecordView {
                        keyshares: ks_set(
                            record_of(old(self)@, identity@).keyshares,
                            requester@,
                            shares_view(fragments@),
                        ),
                        ..record_of(old(self)@, identity@)
                    },
                ),
                Err(e) => e is RecordNotFound && !has_id(old(self)@, identity@) && final(self)@
                    == old(self)@,
            },
    {
        let ghost pre = self@;
        match self.find(identity) {
            Some(i) => {
                proof {
                    lemma_sorted_unique_idx(pre, identity@, i as int);
                }
                let mut rec = self.records.remove(i);
                let ghost prev = rec@.keyshares;
                let entry = KeyshareEntry { requester: requester.clone(), shares: fragments };
                match find_entry(&rec.private_keyshares, requester) {
                    Some(j) => {
                        proof {
                            assert(ks_has(prev, requester@));
                            let j0 = ks_idx(prev, requester@);
                            assert(0 <= j0 < prev.len() && prev[j0].0 == requester@);
                            assert(ks_unique(prev));
                            assert(j0 == j as int);
                        }
                        rec.private_keyshares.remove(j);
                        rec.private_keyshares.insert(j, entry);
                        proof {
                            assert(rec@.keyshares =~= ks_set(
                                prev,
                                requester@,
                                shares_view(fragments@),
                            ));
                        }
                    },
                    None => {
                        rec.private_keyshares.push(entry);
                        proof {
                            assert(rec@.keyshares =~= ks_set(
                                prev,
                                requester@,
                                shares_view(fragments@),
                            ));
                        }
                    },
                }
                proof {
                    assert(ks_unique(rec@.keyshares));
                }
                self.records.insert(i, rec);
                proof {
                    assert(self@ =~= pre.update(
                        i as int,
                        RecordView {
                            keyshares: ks_set(
                                record_of(pre, identity@).keyshares,
                                requester@,
                                shares_view(fragments@),
                            ),
                            ..record_of(pre, identity@)
                        },
                    ));
                    lemma_sorted_update_same_id(pre, i as int, self@[i as int]);
                }
                Ok(())
            },
            None => Err(ContractError::RecordNotFound),
        }
    }

    /// Every record, in the store's ascending identity order.
    pub fn list_all(&self) -> (r: Vec<IdentityRecord>)
        ensures
            r@.len() == self@.len(),
            forall|i: int| 0 <= i < self@.len() ==> (#[trigger] r@[i])@ == self@[i],
    {
        let mut r: Vec<IdentityRecord> = Vec::new();
        let mut i: usize = 0;
        while i < self.records.len()
            invariant
                i <= self.records.len(),
                self@.len() == self.records@.len(),
                r@.len() == i,
                forall|j: int| 0 <= j < i ==> (#[trigger] r@[j])@ == self@[j],
            decreases self.records.len() - i,
        {
            r.push(self.records[i].clone());
            i = i + 1;
        }
        r
    }

    /// Rebuilds a store from records already in ascending identity order
    /// with well-formed keyshare entries, as `list_all` hands them out.
    pub fn from_records(records: Vec<IdentityRecord>) -> (s: Self)
        requires
            sorted_by_identity(records@.map_values(|r: IdentityRecord| r@)),
            forall|i: int| 0 <= i < records@.len() ==> ks_unique((#[trigger] records@[i])@.keyshares),
        ensures
            s.wf(),
            s@ == records@.map_values(|r: IdentityRecord| r@),
    {
        let s = RecordStore { records };
        proof {
            assert(forall|i: int| 0 <= i < s@.len() ==> (#[trigger] s@[i]).keyshares
                == s.records@[i]@.keyshares);
        }
        s
    }
}


} // verus!
