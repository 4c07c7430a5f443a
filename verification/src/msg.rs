use vstd::prelude::*;
use crate::state::IdentityRecord;

verus! {

/// Instantiation input: the encryption public key the contract starts with.
#[derive(Debug)]
pub struct InstantiateMsg {
    pub pubkey: String,
}

/// The operations an external caller can trigger.
#[derive(Debug)]
pub enum ExecuteMsg {
    UpdatePubkey { pubkey: String },
    RequestPrivateKeyshare { identity: String, secp_pubkey: String },
    RequestIdentity { authorized_address: String },
    StoreEncryptedData { identity: String, data: String },
    ExecuteContractPrivateMsg { identity: String, private_decryption_key: PrivateDecryptionKey },
}

/// A batch of keyshare fragments submitted for one requester.
#[derive(Debug)]
pub struct PrivateDecryptionKey {
    pub requester: String,
    pub private_keyshares: Vec<IndexedEncryptedKeyshare>,
}

/// One opaque threshold-keyshare fragment together with its index.
#[derive(Debug)]
pub struct IndexedEncryptedKeyshare {
    pub encrypted_keyshare_value: String,
    pub encrypted_keyshare_index: i64,
}

/// What a keyshare fragment abstracts to: its payload characters and index.
#[verifier::ext_equal]
pub struct KeyshareView {
    pub value: Seq<char>,
    pub index: i64,
}

impl View for IndexedEncryptedKeyshare {
    type V = KeyshareView;

    open spec fn view(&self) -> KeyshareView {
        KeyshareView { value: self.encrypted_keyshare_value@, index: self.encrypted_keyshare_index }
    }
}

/// The views of a sequence of keyshare fragments, in order.
pub open spec fn shares_view(s: Seq<IndexedEncryptedKeyshare>) -> Seq<KeyshareView> {
    s.map_values(|k: IndexedEncryptedKeyshare| k@)
}

impl Clone for IndexedEncryptedKeyshare {
    fn clone(&self) -> (r: Self)
        ensures
            r@ == self@,
    {
        IndexedEncryptedKeyshare {
            encrypted_keyshare_value: self.encrypted_keyshare_value.clone(),
            encrypted_keyshare_index: self.encrypted_keyshare_index,
        }
    }
}

/// Copies a fragment sequence, preserving every fragment's view.
pub fn clone_shares(v: &Vec<IndexedEncryptedKeyshare>) -> (r: Vec<IndexedEncryptedKeyshare>)
    ensures
        shares_view(r@) == shares_view(v@),
{
    let mut r: Vec<IndexedEncryptedKeyshare> = Vec::new();
    let mut i: usize = 0;
    while i < v.len()
        invariant
            i <= v.len(),
            r@.len() == i,
            forall|j: int| 0 <= j < i ==> (#[trigger] r@[j])@ == v@[j]@,
        decreases v.len() - i,
    {
        r.push(v[i].clone());
        i = i + 1;
    }
    proof {
        assert(shares_view(r@) =~= shares_view(v@));
    }
    r
}

/// The queries the contract answers.
#[derive(Debug)]
pub enum QueryMsg {
    GetIdentity { identity: String },
    GetAllIdentity {},
}

/// Queries addressed to the external module itself.
#[derive(Debug)]
pub enum PepQuery {
    QueryPubkeyRequest {},
}

/// Answer to `GetIdentity`: the record under the requested identity.
#[derive(Debug)]
pub struct IdentityResponse {
    pub record: IdentityRecord,
}

/// Answer to `GetAllIdentity`: every record, ascending by identity.
#[derive(Debug)]
pub struct AllIdentitiesResponse {
    pub records: Vec<IdentityRecord>,
}

/// The shape of an identity-creation reply once decoded: the new identity.
#[derive(Debug)]
pub struct PepResponseWrapper {
    pub identity: String,
}

} // verus!
