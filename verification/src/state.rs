use vstd::prelude::*;
use crate::msg::{IndexedEncryptedKeyshare, KeyshareView, clone_shares, shares_view};

verus! {

/// One requester's keyshare fragments inside a record. The original store
/// keys these by requester in a hash map; here they sit in a vector whose
/// requester strings are kept unique, in insertion order.
#[derive(Debug)]
pub struct KeyshareEntry {
    pub requester: String,
    pub shares: Vec<IndexedEncryptedKeyshare>,
}

impl View for KeyshareEntry {
    type V = (Seq<char>, Seq<KeyshareView>);

    open spec fn view(&self) -> (Seq<char>, Seq<KeyshareView>) {
        (self.requester@, shares_view(self.shares@))
    }
}

impl Clone for KeyshareEntry {
    fn clone(&self) -> (r: Self)
        ensures
            r@ == self@,
    {
        KeyshareEntry { requester: self.requester.clone(), shares: clone_shares(&self.shares) }
    }
}

/// The views of a record's keyshare entries, in order.
pub open spec fn entries_view(s: Seq<KeyshareEntry>) -> Seq<(Seq<char>, Seq<KeyshareView>)> {
    s.map_values(|e: KeyshareEntry| e@)
}

/// Whether some entry carries `requester`.
pub open spec fn ks_has(s: Seq<(Seq<char>, Seq<KeyshareView>)>, requester: Seq<char>) -> bool {
    exists|i: int| 0 <= i < s.len() && s[i].0 == requester
}

/// The index of the entry carrying `requester` (unique when the entry
/// requesters are distinct).
pub open spec fn ks_idx(s: Seq<(Seq<char>, Seq<KeyshareView>)>, requester: Seq<char>) -> int {
    choose|i: int| 0 <= i < s.len() && s[i].0 == requester
}

/// The entry sequence after writing `shares` under `requester`: a full
/// replacement when the requester already owns an entry, else a new entry at
/// the end.
pub open spec fn ks_set(
    s: Seq<(Seq<char>, Seq<KeyshareView>)>,
    requester: Seq<char>,
    shares: Seq<KeyshareView>,
) -> Seq<(Seq<char>, Seq<KeyshareView>)> {
    if ks_has(s, requester) {
        s.update(ks_idx(s, requester), (requester, shares))
    } else {
        s.push((requester, shares))
    }
}

/// Entry requesters are pairwise distinct.
pub open spec fn ks_unique(s: Seq<(Seq<char>, Seq<KeyshareView>)>) -> bool {
    forall|i: int, j: int| 0 <= i < j < s.len() ==> s[i].0 != s[j].0
}

/// A stored identity record.
#[derive(Debug)]
pub struct IdentityRecord {
    /// The identity string this record is keyed by; immutable once assigned.
    pub identity: String,
    /// Snapshot of the encryption public key at record-creation time.
    pub pubkey: String,
    /// The principal allowed to request keyshares for this record.
    pub creator: String,
    /// Latest opaque ciphertext submitted by any caller; overwritten in place.
    pub encrypted_data: String,
    /// Timestamp, in seconds, of the latest `encrypted_data` write.
    pub last_submission: u64,
    /// Per-requester keyshare fragments; each requester owns one entry.
    pub private_keyshares: Vec<KeyshareEntry>,
}

/// What a record abstracts to.
#[verifier::ext_equal]
pub struct RecordView {
    pub identity: Seq<char>,
    pub pubkey: Seq<char>,
    pub creator: Seq<char>,
    pub encrypted_data: Seq<char>,
    pub last_submission: u64,
    pub keyshares: Seq<(Seq<char>, Seq<KeyshareView>)>,
}

impl View for IdentityRecord {
    type V = RecordView;

    open spec fn view(&self) -> RecordView {
        RecordView {
            identity: self.identity@,
            pubkey: self.pubkey@,
            creator: self.creator@,
            encrypted_data: self.encrypted_data@,
            last_submission: self.last_submission,
            keyshares: entries_view(self.private_keyshares@),
        }
    }
}

/// Copies a record's keyshare entries, preserving every entry's view.
pub fn clone_entries(v: &Vec<KeyshareEntry>) -> (r: Vec<KeyshareEntry>)
    ensures
        entries_view(r@) == entries_view(v@),
{
    let mut r: Vec<KeyshareEntry> = Vec::new();
    let mut i: usize = 0;
    while i < v.len()
        invariant
            i <= v.len(),
            r@.len() == i,
            forall|j: int| 0 <= j < i ==> (#[trigger] r@[j])@ == v@[j]@,
        decreases v.len() - i,
    {
        r.push(v[i].clone());
        i = i + 1;
    }
    proof {
        assert(entries_view(r@) =~= entries_view(v@));
    }
    r
}

impl Clone for IdentityRecord {
    fn clone(&self) -> (r: Self)
        ensures
            r@ == self@,
    {
        let r = IdentityRecord {
            identity: self.identity.clone(),
            pubkey: self.pubkey.clone(),
            creator: self.creator.clone(),
            encrypted_data: self.encrypted_data.clone(),
            last_submission: self.last_submission,
            private_keyshares: clone_entries(&self.private_keyshares),
        };
        proof {
            assert(r@ =~= self@);
        }
        r
    }
}

/// An outstanding request awaiting its single reply.
#[derive(Debug)]
pub struct PendingRequest {
    /// The principal that initiated the request.
    pub creator: String,
    /// The principal to be granted control of the resulting identity record;
    /// equals `creator` for keyshare requests.
    pub authorized_address: String,
}

/// What a pending request abstracts to.
#[verifier::ext_equal]
pub struct PendingView {
    pub creator: Seq<char>,
    pub authorized_address: Seq<char>,
}

impl View for PendingRequest {
    type V = PendingView;

    open spec fn view(&self) -> PendingView {
        PendingView { creator: self.creator@, authorized_address: self.authorized_address@ }
    }
}

impl Clone for PendingRequest {
    fn clone(&self) -> (r: Self)
        ensures
            r@ == self@,
    {
        PendingRequest {
            creator: self.creator.clone(),
            authorized_address: self.authorized_address.clone(),
        }
    }
}

} // verus!
