use vstd::prelude::*;
use crate::error::ContractError;
use crate::msg::{
    AllIdentitiesResponse, ExecuteMsg, IdentityResponse, InstantiateMsg, KeyshareView,
    PrivateDecryptionKey, QueryMsg, shares_view,
};
use crate::pending::{
    PendingTracker, ids_increasing, pending_at, pending_has, pending_idx,
};
use crate::state::{IdentityRecord, PendingRequest, PendingView, RecordView, ks_set, ks_unique};
use crate::store::{RecordStore, has_id, idx_of, record_of, sorted_by_identity};
use crate::text::{make_req_tag, req_tag};
use crate::timegate::{due, is_due};

verus! {

/// The plain facts about the invocation environment a handler needs: the
/// block time in seconds, the contract's own address, and the caller.
pub struct EnvInfo {
    pub now: u64,
    pub contract_address: String,
    pub sender: String,
}

/// The outbound call a request handler asks the host environment to run
/// against the external module, tagged with the correlation id whose reply
/// it must carry.
#[derive(Debug)]
pub enum OutboundCall {
    RequestIdentity { reply_id: u64, creator: String, req_id: String },
    RequestDecryptionKey { reply_id: u64, creator: String, identity: String, secp_pubkey: String },
}

/// One reply payload, decoded against the two known response shapes by the
/// caller: the identity carried by an identity-creation response if the
/// payload parses as one, and whether it parses as a keyshare-request
/// acknowledgement.
#[derive(Debug)]
pub struct ReplyPayload {
    pub identity_response: Option<String>,
    pub keyshare_ack: bool,
}

/// What a successfully correlated reply did.
#[derive(Debug)]
pub enum ReplyAction {
    IdentityStored { identity: String },
    KeyshareAcknowledged,
}

/// The whole contract state: record store, pending-request tracker, the
/// process-wide encryption public key, and the requester recorded by the
/// most recent keyshare request.
pub struct ContractState {
    store: RecordStore,
    tracker: PendingTracker,
    pubkey: String,
    requester: Option<String>,
}

/// What the contract state abstracts to.
#[verifier::ext_equal]
pub struct StateView {
    pub records: Seq<RecordView>,
    pub counter: u64,
    pub pending: Seq<(u64, PendingView)>,
    pub pubkey: Seq<char>,
    pub requester: Option<Seq<char>>,
}

impl View for ContractState {
    type V = StateView;

    closed spec fn view(&self) -> StateView {
        StateView {
            records: self.store@,
            counter: self.tracker@.counter,
            pending: self.tracker@.entries,
            pubkey: self.pubkey@,
            requester: match self.requester {
                Option::Some(ref r) => Option::Some(r@),
                Option::None => Option::None,
            },
        }
    }
}

impl ContractState {
    /// Well-formedness of the whole state: the store and tracker invariants.
    pub closed spec fn wf(&self) -> bool {
        self.store.wf() && self.tracker.wf()
    }
}

/// Sets up a fresh contract: empty store, counter at zero, nothing
/// pending, the supplied public key, no requester recorded yet.
pub fn instantiate(msg: InstantiateMsg) -> (st: ContractState)
    ensures
        st.wf(),
        st@ == (StateView {
            records: Seq::<RecordView>::empty(),
            counter: 0,
            pending: Seq::<(u64, PendingView)>::empty(),
            pubkey: msg.pubkey@,
            requester: Option::<Seq<char>>::None,
        }),
{
    let st = ContractState {
        store: RecordStore::new(),
        tracker: PendingTracker::new(),
        pubkey: msg.pubkey,
        requester: None,
    };
    proof {
        assert(st@ =~= StateView {
            records: Seq::<RecordView>::empty(),
            counter: 0,
            pending: Seq::<(u64, PendingView)>::empty(),
            pubkey: msg.pubkey@,
            requester: Option::<Seq<char>>::None,
        });
    }
    st
}

/// After an `UpdatePubkey`: only the process-wide public key changed.
pub open spec fn update_pubkey_post(
    pre: StateView,
    post: StateView,
    pubkey: Seq<char>,
    r: Result<Option<OutboundCall>, ContractError>,
) -> bool {
    &&& r matches Ok(c) && c is None
    &&& post == (StateView { pubkey, ..pre })
}

/// Replaces the process-wide encryption public key; no access control.
pub fn update_pubkey(st: &mut ContractState, pubkey: String) -> (r: Result<
    Option<OutboundCall>,
    ContractError,
>)
    requires
        old(st).wf(),
    ensures
        final(st).wf(),
        update_pubkey_post(old(st)@, final(st)@, pubkey@, r),
{
    let ghost pre = st@;
    st.pubkey = pubkey;
    proof {
        assert(st@ =~= StateView { pubkey: st@.pubkey, ..pre });
    }
    Ok(None)
}

/// After a `StoreEncryptedData`: the record's ciphertext is replaced and its
/// submission time stamped iff the record exists, else `RecordNotFound` and
/// nothing changed.
pub open spec fn store_data_post(
    pre: StateView,
    post: StateView,
    identity: Seq<char>,
    data: Seq<char>,
    now: u64,
    r: Result<Option<OutboundCall>, ContractError>,
) -> bool {
    match r {
        Ok(c) => {
            &&& c is None
            &&& has_id(pre.records, identity)
            &&& post == (StateView {
                records: pre.records.update(
                    idx_of(pre.records, identity),
                    RecordView {
                        encrypted_data: data,
                        last_submission: now,
                        ..record_of(pre.records, identity)
                    },
                ),
                ..pre
            })
        },
        Err(e) => e is RecordNotFound && !has_id(pre.records, identity) && post == pre,
    }
}

/// Overwrites a record's ciphertext and stamps the current time; any caller
/// may do this to any record.
pub fn store_encrypted_data(st: &mut ContractState, identity: &String, data: String, now: u64) -> (r:
    Result<Option<OutboundCall>, ContractError>)
    requires
        old(st).wf(),
    ensures
        final(st).wf(),
        store_data_post(old(st)@, final(st)@, identity@, data@, now, r),
{
    let ghost pre = st@;
    match st.store.update_data(identity, data, now) {
        Ok(_) => {
            proof {
                assert(st@ =~= StateView { records: st@.records, ..pre });
            }
            Ok(None)
        },
        Err(e) => {
            proof {
                assert(st@ =~= pre);
            }
            Err(e)
        },
    }
}

/// After an `ExecuteContractPrivateMsg`: the fragments fully replace the
/// stored entry of the requester recorded by the most recent keyshare
/// request — never of the submitting caller — iff the record exists and
/// such a requester is recorded, checked in that order; else the matching
/// error and no change.
pub open spec fn private_keys_post(
    pre: StateView,
    post: StateView,
    identity: Seq<char>,
    shares: Seq<KeyshareView>,
    r: Result<Option<OutboundCall>, ContractError>,
) -> bool {
    match r {
        Ok(c) => {
            &&& c is None
            &&& pre.requester matches Some(req)
            &&& has_id(pre.records, identity)
            &&& post == (StateView {
                records: pre.records.update(
                    idx_of(pre.records, identity),
                    RecordView {
                        keyshares: ks_set(
                            record_of(pre.records, identity).keyshares,
                            pre.requester.unwrap(),
                            shares,
                        ),
                        ..record_of(pre.records, identity)
                    },
                ),
                ..pre
            })
        },
        Err(e) => {
            &&& post == pre
            &&& if !has_id(pre.records, identity) {
                e is RecordNotFound
            } else {
                pre.requester is None && e is RequesterNotSet
            }
        },
    }
}

/// Stores submitted keyshare fragments on a record, under the requester
/// recorded by the most recent keyshare request. The record is loaded
/// first, so a missing record is reported even when no requester is
/// recorded.
pub fn execute_private_keys(
    st: &mut ContractState,
    identity: &String,
    dec_keys: PrivateDecryptionKey,
) -> (r: Result<Option<OutboundCall>, ContractError>)
    requires
        old(st).wf(),
    ensures
        final(st).wf(),
        private_keys_post(
            old(st)@,
            final(st)@,
            identity@,
            shares_view(dec_keys.private_keyshares@),
            r,
        ),
{
    let ghost pre = st@;
    match st.store.get(identity) {
        Ok(_) => {},
        Err(e) => {
            return Err(e);
        },
    }
    let req = match &st.requester {
        Some(r) => r.clone(),
        None => {
            return Err(ContractError::RequesterNotSet);
        },
    };
    match st.store.submit_keyshares(identity, &req, dec_keys.private_keyshares) {
        Ok(_) => {
            proof {
                assert(st@ =~= StateView { records: st@.records, ..pre });
            }
            Ok(None)
        },
        Err(e) => {
            proof {
                assert(false);
            }
            Err(e)
        },
    }
}

/// After a `RequestPrivateKeyshare`: success exactly when the caller is the
/// record's creator and the cooldown has strictly elapsed. On success one
/// correlation id is allocated, the pending entry carries the caller as
/// both creator and authorized address, the caller's keyshare slot is
/// reserved empty, the caller is recorded as the process-wide requester,
/// and the outbound call carries the contract address, the identity and the
/// caller's encryption public key. On failure the matching error is
/// returned and nothing changed.
/// The condition under which a keyshare request allocates a correlation
/// id: the record exists, the caller is its creator, and the cooldown has
/// strictly elapsed.
pub open spec fn keyshare_request_would_allocate(
    pre: StateView,
    sender: Seq<char>,
    identity: Seq<char>,
    now: u64,
) -> bool {
    &&& has_id(pre.records, identity)
    &&& record_of(pre.records, identity).creator == sender
    &&& due(record_of(pre.records, identity).last_submission, now)
}

pub open spec fn keyshare_request_post(
    pre: StateView,
    post: StateView,
    sender: Seq<char>,
    contract_address: Seq<char>,
    now: u64,
    identity: Seq<char>,
    secp_pubkey: Seq<char>,
    r: Result<Option<OutboundCall>, ContractError>,
) -> bool {
    match r {
        Ok(c) => {
            &&& keyshare_request_would_allocate(pre, sender, identity, now)
            &&& c matches Some(call)
            &&& call matches OutboundCall::RequestDecryptionKey {
                reply_id,
                creator,
                identity: out_identity,
                secp_pubkey: out_pubkey,
            }
            &&& reply_id == pre.counter + 1
            &&& creator@ == contract_address
            &&& out_identity@ == identity
            &&& out_pubkey@ == secp_pubkey
            &&& post == (StateView {
                records: pre.records.update(
                    idx_of(pre.records, identity),
                    RecordView {
                        keyshares: ks_set(
                            record_of(pre.records, identity).keyshares,
                            sender,
                            Seq::<KeyshareView>::empty(),
                        ),
                        ..record_of(pre.records, identity)
                    },
                ),
                counter: reply_id,
                pending: pre.pending.push(
                    (reply_id, PendingView { creator: sender, authorized_address: sender }),
                ),
                requester: Option::Some(sender),
                ..pre
            })
        },
        Err(e) => {
            &&& post == pre
            &&& if !has_id(pre.records, identity) {
                e is RecordNotFound
            } else if record_of(pre.records, identity).creator != sender {
                e is Unauthorized
            } else {
                !due(record_of(pre.records, identity).last_submission, now) && e is NotYetDue
            }
        },
    }
}

/// Requests a new decryption keyshare for a record: authorization and time
/// gate first, then correlation-id allocation, slot reservation, and the
/// outbound call.
pub fn execute_request_keyshare(
    st: &mut ContractState,
    env: &EnvInfo,
    identity: String,
    secp_pubkey: String,
) -> (r: Result<Option<OutboundCall>, ContractError>)
    requires
        old(st).wf(),
        keyshare_request_would_allocate(old(st)@, env.sender@, identity@, env.now) ==> old(
            st,
        )@.counter < u64::MAX,
    ensures
        final(st).wf(),
        keyshare_request_post(
            old(st)@,
            final(st)@,
            env.sender@,
            env.contract_address@,
            env.now,
            identity@,
            secp_pubkey@,
            r,
        ),
{
    let ghost pre = st@;
    let rec = match st.store.get(&identity) {
        Ok(rec) => rec,
        Err(e) => {
            return Err(e);
        },
    };
    if !(env.sender == rec.creator) {
        return Err(ContractError::Unauthorized);
    }
    if !is_due(rec.last_submission, env.now) {
        return Err(ContractError::NotYetDue);
    }
    let id = st.tracker.allocate(env.sender.clone(), env.sender.clone());
    match st.store.submit_keyshares(&identity, &env.sender, Vec::new()) {
        Ok(_) => {},
        Err(e) => {
            proof {
                assert(false);
            }
            return Err(e);
        },
    }
    st.requester = Some(env.sender.clone());
    let call = OutboundCall::RequestDecryptionKey {
        reply_id: id,
        creator: env.contract_address.clone(),
        identity,
        secp_pubkey,
    };
    proof {
        assert(shares_view(Seq::<crate::msg::IndexedEncryptedKeyshare>::empty())
            =~= Seq::<KeyshareView>::empty());
        assert(st@ =~= StateView {
            records: pre.records.update(
                idx_of(pre.records, rec@.identity),
                RecordView {
                    keyshares: ks_set(
                        record_of(pre.records, rec@.identity).keyshares,
                        env.sender@,
                        Seq::<KeyshareView>::empty(),
                    ),
                    ..record_of(pre.records, rec@.identity)
                },
            ),
            counter: id,
            pending: pre.pending.push(
                (id, PendingView { creator: env.sender@, authorized_address: env.sender@ }),
            ),
            requester: Option::Some(env.sender@),
            ..pre
        });
    }
    Ok(Some(call))
}

/// After a `RequestIdentity`: one correlation id is allocated, the pending
/// entry pairs the caller with the authorized address, and the outbound
/// call carries the contract address and the tag
/// `"req-{sender}-{correlation id}"`. Nothing else changes; the request
/// cannot fail.
pub open spec fn identity_request_post(
    pre: StateView,
    post: StateView,
    sender: Seq<char>,
    contract_address: Seq<char>,
    authorized_address: Seq<char>,
    r: Result<Option<OutboundCall>, ContractError>,
) -> bool {
    &&& r matches Ok(c)
    &&& c matches Some(call)
    &&& call matches OutboundCall::RequestIdentity { reply_id, creator, req_id }
    &&& reply_id == pre.counter + 1
    &&& creator@ == contract_address
    &&& req_id@ == req_tag(sender, reply_id)
    &&& post == (StateView {
        counter: reply_id,
        pending: pre.pending.push(
            (reply_id, PendingView { creator: sender, authorized_address }),
        ),
        ..pre
    })
}

/// Requests creation of a new identity on behalf of `authorized_address`.
pub fn execute_request_identity(
    st: &mut ContractState,
    env: &EnvInfo,
    authorized_address: String,
) -> (r: Result<Option<OutboundCall>, ContractError>)
    requires
        old(st).wf(),
        old(st)@.counter < u64::MAX,
    ensures
        final(st).wf(),
        identity_request_post(
            old(st)@,
            final(st)@,
            env.sender@,
            env.contract_address@,
            authorized_address@,
            r,
        ),
{
    let ghost pre = st@;
    let id = st.tracker.allocate(env.sender.clone(), authorized_address);
    let tag = make_req_tag(&env.sender, id);
    let call = OutboundCall::RequestIdentity {
        reply_id: id,
        creator: env.contract_address.clone(),
        req_id: tag,
    };
    proof {
        assert(st@ =~= StateView {
            counter: id,
            pending: pre.pending.push(
                (id, st@.pending[pre.pending.len() as int].1),
            ),
            ..pre
        });
    }
    Ok(Some(call))
}

/// Routes an operation to its handler.
pub fn execute(st: &mut ContractState, env: &EnvInfo, msg: ExecuteMsg) -> (r: Result<
    Option<OutboundCall>,
    ContractError,
>)
    requires
        old(st).wf(),
        match msg {
            ExecuteMsg::RequestPrivateKeyshare { identity, .. } => keyshare_request_would_allocate(
                old(st)@,
                env.sender@,
                identity@,
                env.now,
            ) ==> old(st)@.counter < u64::MAX,
            ExecuteMsg::RequestIdentity { .. } => old(st)@.counter < u64::MAX,
            _ => true,
        },
    ensures
        final(st).wf(),
        match msg {
            ExecuteMsg::UpdatePubkey { pubkey } => update_pubkey_post(
                old(st)@,
                final(st)@,
                pubkey@,
                r,
            ),
            ExecuteMsg::RequestPrivateKeyshare { identity, secp_pubkey } => keyshare_request_post(
                old(st)@,
                final(st)@,
                env.sender@,
                env.contract_address@,
                env.now,
                identity@,
                secp_pubkey@,
                r,
            ),
            ExecuteMsg::RequestIdentity { authorized_address } => identity_request_post(
                old(st)@,
                final(st)@,
                env.sender@,
                env.contract_address@,
                authorized_address@,
                r,
            ),
            ExecuteMsg::StoreEncryptedData { identity, data } => store_data_post(
                old(st)@,
                final(st)@,
                identity@,
                data@,
                env.now,
                r,
            ),
            ExecuteMsg::ExecuteContractPrivateMsg { identity, private_decryption_key } => private_keys_post(
                old(st)@,
                final(st)@,
                identity@,
                shares_view(private_decryption_key.private_keyshares@),
                r,
            ),
        },
{
    match msg {
        ExecuteMsg::UpdatePubkey { pubkey } => update_pubkey(st, pubkey),
        ExecuteMsg::RequestPrivateKeyshare { identity, secp_pubkey } => execute_request_keyshare(
            st,
            env,
            identity,
            secp_pubkey,
        ),
        ExecuteMsg::RequestIdentity { authorized_address } => execute_request_identity(
            st,
            env,
            authorized_address,
        ),
        ExecuteMsg::StoreEncryptedData { identity, data } => store_encrypted_data(
            st,
            &identity,
            data,
            env.now,
        ),
        ExecuteMsg::ExecuteContractPrivateMsg { identity, private_decryption_key } => execute_private_keys(
            st,
            &identity,
            private_decryption_key,
        ),
    }
}

/// Whether a reply payload takes the identity-creation shape with a
/// non-empty identity; tried first, so an ambiguous payload resolves here.
pub open spec fn is_identity_payload(p: ReplyPayload) -> bool {
    match p.identity_response {
        Option::Some(name) => name@.len() > 0,
        Option::None => false,
    }
}

/// The identity a payload's identity-creation shape carries.
pub open spec fn payload_identity(p: ReplyPayload) -> Seq<char> {
    match p.identity_response {
        Option::Some(name) => name@,
        Option::None => Seq::empty(),
    }
}

/// The record an identity-creation reply writes: the new identity, the
/// public key in effect now, the authorized address of the pending request
/// as creator, empty ciphertext, no keyshares, submission time zero.
pub open spec fn fresh_record(
    identity: Seq<char>,
    pubkey: Seq<char>,
    creator: Seq<char>,
) -> RecordView {
    RecordView {
        identity,
        pubkey,
        creator,
        encrypted_data: Seq::empty(),
        last_submission: 0,
        keyshares: Seq::empty(),
    }
}

/// The reply correlator. Checks run in this order: an unknown or consumed
/// correlation id is `PendingRequestNotFound`, whatever the call result; a
/// failed external call on a known id is `ReplyError`, the entry left
/// untouched; an empty payload list is `ReplyMissingData`; then the first
/// payload is matched against the identity-creation shape and the
/// keyshare-acknowledgement shape, in that order. Only the
/// identity-creation path mutates state, upserting the fresh record and
/// consuming the pending entry; the acknowledgement path deliberately
/// leaves the pending entry in place.
pub fn reply(
    st: &mut ContractState,
    reply_id: u64,
    result: Result<Vec<ReplyPayload>, String>,
) -> (r: Result<ReplyAction, ContractError>)
    requires
        old(st).wf(),
    ensures
        final(st).wf(),
        !pending_has(old(st)@.pending, reply_id) ==> final(st)@ == old(st)@ && (r matches Err(e)
            && e matches ContractError::PendingRequestNotFound { id } && id == reply_id),
        result matches Err(detail) ==> pending_has(old(st)@.pending, reply_id) ==> final(st)@
            == old(st)@ && (r matches Err(e) && e matches ContractError::ReplyError { error }
            && error@ == detail@),
        result matches Ok(payloads) ==> pending_has(old(st)@.pending, reply_id) ==> {
            &&& payloads@.len() == 0 ==> final(st)@ == old(st)@ && (r matches Err(e)
                && e is ReplyMissingData)
            &&& payloads@.len() > 0 ==> {
                &&& is_identity_payload(payloads@[0]) ==> {
                    &&& r matches Ok(a) && a matches ReplyAction::IdentityStored { identity }
                        && identity@ == payload_identity(payloads@[0])
                    &&& final(st)@.counter == old(st)@.counter
                    &&& final(st)@.pubkey == old(st)@.pubkey
                    &&& final(st)@.requester == old(st)@.requester
                    &&& final(st)@.pending == old(st)@.pending.remove(
                        pending_idx(old(st)@.pending, reply_id),
                    )
                    &&& has_id(old(st)@.records, payload_identity(payloads@[0]))
                        ==> final(st)@.records == old(st)@.records.update(
                        idx_of(old(st)@.records, payload_identity(payloads@[0])),
                        fresh_record(
                            payload_identity(payloads@[0]),
                            old(st)@.pubkey,
                            pending_at(old(st)@.pending, reply_id).authorized_address,
                        ),
                    )
                    &&& !has_id(old(st)@.records, payload_identity(payloads@[0]))
                        ==> exists|i: int|
                        0 <= i <= old(st)@.records.len() && final(st)@.records
                            == old(st)@.records.insert(
                        i,
                        fresh_record(
                            payload_identity(payloads@[0]),
                            old(st)@.pubkey,
                            pending_at(old(st)@.pending, reply_id).authorized_address,
                        ),
                    )
                }
                &&& !is_identity_payload(payloads@[0]) && payloads@[0].keyshare_ack
                    ==> final(st)@ == old(st)@ && (r matches Ok(a)
                    && a is KeyshareAcknowledged)
                &&& !is_identity_payload(payloads@[0]) && !payloads@[0].keyshare_ack
                    ==> final(st)@ == old(st)@ && (r matches Err(e)
                    && e is UnrecognizedResponse)
            }
        },
{
    let ghost pre = st@;
    let pend = match st.tracker.take(reply_id) {
        Ok(p) => p,
        Err(e) => {
            return Err(e);
        },
    };
    let payloads = match result {
        Ok(p) => p,
        Err(detail) => {
            return Err(ContractError::ReplyError { error: detail });
        },
    };
    if payloads.len() == 0 {
        return Err(ContractError::ReplyMissingData);
    }
    let p = &payloads[0];
    let mut identity_name: Option<String> = None;
    match &p.identity_response {
        Some(name) => {
            if !name.as_str().is_empty() {
                identity_name = Some(name.clone());
            }
        },
        None => {},
    }
    match identity_name {
        Some(name) => {
            let record = IdentityRecord {
                identity: name.clone(),
                pubkey: st.pubkey.clone(),
                creator: pend.authorized_address,
                encrypted_data: String::new(),
                last_submission: 0,
                private_keyshares: Vec::new(),
            };
            proof {
                assert(record@ =~= fresh_record(
                    payload_identity(payloads@[0]),
                    pre.pubkey,
                    pending_at(pre.pending, reply_id).authorized_address,
                ));
                assert(ks_unique(record@.keyshares));
            }
            st.store.create(record);
            st.tracker.remove(reply_id);
            Ok(ReplyAction::IdentityStored { identity: name })
        },
        None => {
            if p.keyshare_ack {
                proof {
                    assert(st@ =~= pre);
                }
                Ok(ReplyAction::KeyshareAcknowledged)
            } else {
                proof {
                    assert(st@ =~= pre);
                }
                Err(ContractError::UnrecognizedResponse)
            }
        },
    }
}

/// A plain, storable image of the whole contract state, for a host
/// environment that persists state between invocations: records ascending
/// by identity, pending entries oldest first, the counter, the public key,
/// and the recorded requester.
pub struct StateParts {
    pub records: Vec<IdentityRecord>,
    pub pending: Vec<(u64, PendingRequest)>,
    pub counter: u64,
    pub pubkey: String,
    pub requester: Option<String>,
}

/// Takes a storable image of the state.
pub fn state_to_parts(st: &ContractState) -> (p: StateParts)
    requires
        st.wf(),
    ensures
        p.records@.len() == st@.records.len(),
        forall|i: int| 0 <= i < st@.records.len() ==> (#[trigger] p.records@[i])@
            == st@.records[i],
        p.pending@.len() == st@.pending.len(),
        forall|i: int| 0 <= i < st@.pending.len() ==> ((#[trigger] p.pending@[i]).0,
            p.pending@[i].1@) == st@.pending[i],
        p.counter == st@.counter,
        p.pubkey@ == st@.pubkey,
        st@.requester matches Some(rq) ==> p.requester matches Some(pr) && pr@ == rq,
        st@.requester is None ==> p.requester is None,
{
    let requester = match &st.requester {
        Some(r) => Some(r.clone()),
        None => None,
    };
    StateParts {
        records: st.store.list_all(),
        pending: st.tracker.entries_list(),
        counter: st.tracker.counter_value(),
        pubkey: st.pubkey.clone(),
        requester,
    }
}

/// Rebuilds the state from a storable image, as `state_to_parts` produced
/// it: records sorted with distinct keyshare requesters, pending ids
/// strictly increasing and bounded by the counter.
pub fn state_from_parts(p: StateParts) -> (st: ContractState)
    requires
        sorted_by_identity(p.records@.map_values(|r: IdentityRecord| r@)),
        forall|i: int| 0 <= i < p.records@.len() ==> ks_unique(
            (#[trigger] p.records@[i])@.keyshares,
        ),
        ids_increasing(p.pending@.map_values(|q: (u64, PendingRequest)| (q.0, q.1@))),
        forall|i: int| 0 <= i < p.pending@.len() ==> (#[trigger] p.pending@[i]).0 <= p.counter,
    ensures
        st.wf(),
        st@.records == p.records@.map_values(|r: IdentityRecord| r@),
        st@.pending == p.pending@.map_values(|q: (u64, PendingRequest)| (q.0, q.1@)),
        st@.counter == p.counter,
        st@.pubkey == p.pubkey@,
        p.requester matches Some(pr) ==> st@.requester matches Some(rq) && rq == pr@,
        p.requester is None ==> st@.requester is None,
{
    let StateParts { records, pending, counter, pubkey, requester } = p;
    ContractState {
        store: RecordStore::from_records(records),
        tracker: PendingTracker::from_entries(counter, pending),
        pubkey,
        requester,
    }
}

/// Answer to a query.
#[derive(Debug)]
pub enum QueryAnswer {
    Identity(IdentityResponse),
    AllIdentities(AllIdentitiesResponse),
}

/// Loads one record for a query, or fails with `RecordNotFound`.
pub fn query_identity(st: &ContractState, identity: &String) -> (r: Result<
    IdentityResponse,
    ContractError,
>)
    requires
        st.wf(),
    ensures
        match r {
            Ok(resp) => has_id(st@.records, identity@) && resp.record@ == record_of(
                st@.records,
                identity@,
            ),
            Err(e) => e is RecordNotFound && !has_id(st@.records, identity@),
        },
{
    match st.store.get(identity) {
        Ok(record) => Ok(IdentityResponse { record }),
        Err(e) => Err(e),
    }
}

/// Lists every record, ascending by identity string.
pub fn query_all_identities(st: &ContractState) -> (r: AllIdentitiesResponse)
    requires
        st.wf(),
    ensures
        r.records@.len() == st@.records.len(),
        forall|i: int| 0 <= i < st@.records.len() ==> (#[trigger] r.records@[i])@
            == st@.records[i],
        sorted_by_identity(st@.records),
{
    AllIdentitiesResponse { records: st.store.list_all() }
}

/// Routes a query to its handler. Queries never touch pending state.
pub fn query(st: &ContractState, msg: QueryMsg) -> (r: Result<QueryAnswer, ContractError>)
    requires
        st.wf(),
    ensures
        match msg {
            QueryMsg::GetIdentity { identity } => match r {
                Ok(a) => a matches QueryAnswer::Identity(resp) && has_id(st@.records, identity@)
                    && resp.record@ == record_of(st@.records, identity@),
                Err(e) => e is RecordNotFound && !has_id(st@.records, identity@),
            },
            QueryMsg::GetAllIdentity {  } => r matches Ok(a)
                && a matches QueryAnswer::AllIdentities(resp) && resp.records@.len()
                == st@.records.len() && (forall|i: int|
                0 <= i < st@.records.len() ==> (#[trigger] resp.records@[i])@ == st@.records[i])
                && sorted_by_identity(st@.records),
        },
{
    match msg {
        QueryMsg::GetIdentity { identity } => match query_identity(st, &identity) {
            Ok(resp) => Ok(QueryAnswer::Identity(resp)),
            Err(e) => Err(e),
        },
        QueryMsg::GetAllIdentity {} => Ok(QueryAnswer::AllIdentities(query_all_identities(st))),
    }
}

} // verus!
