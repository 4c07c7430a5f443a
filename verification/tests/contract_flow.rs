use pep_contract::contract::{
    execute, instantiate, query, query_identity, reply, EnvInfo, OutboundCall, QueryAnswer,
    ReplyAction, ReplyPayload,
};
use pep_contract::error::ContractError;
use pep_contract::msg::{ExecuteMsg, InstantiateMsg, IndexedEncryptedKeyshare, PrivateDecryptionKey, QueryMsg};
use pep_contract::timegate::{is_due, COOLDOWN_SECONDS};

fn fresh(pubkey: &str) -> pep_contract::contract::ContractState {
    instantiate(InstantiateMsg { pubkey: pubkey.to_string() })
}

fn env(sender: &str, now: u64) -> EnvInfo {
    EnvInfo { now, contract_address: "contract".to_string(), sender: sender.to_string() }
}

fn identity_payload(name: &str) -> ReplyPayload {
    ReplyPayload { identity_response: Some(name.to_string()), keyshare_ack: false }
}

fn ack_payload() -> ReplyPayload {
    ReplyPayload { identity_response: None, keyshare_ack: true }
}

#[test]
fn time_gate_strict_boundary() {
    assert_eq!(COOLDOWN_SECONDS, 2_592_000);
    assert!(!is_due(0, 2_592_000));
    assert!(is_due(0, 2_592_001));
    assert!(!is_due(5, 2_592_005));
    assert!(is_due(5, 2_592_006));
    assert!(!is_due(u64::MAX, u64::MAX));
}

#[test]
fn empty_store_lists_nothing() {
    let st = fresh("pk");
    match query(&st, QueryMsg::GetAllIdentity {}).unwrap() {
        QueryAnswer::AllIdentities(resp) => assert!(resp.records.is_empty()),
        _ => panic!("wrong answer shape"),
    }
}

#[test]
fn identity_request_and_reply_round_trip() {
    let mut st = fresh("pk");
    let call = execute(
        &mut st,
        &env("A", 0),
        ExecuteMsg::RequestIdentity { authorized_address: "B".to_string() },
    )
    .unwrap()
    .unwrap();
    match call {
        OutboundCall::RequestIdentity { reply_id, creator, req_id } => {
            assert_eq!(reply_id, 1);
            assert_eq!(creator, "contract");
            assert_eq!(req_id, "req-A-1");
        }
        _ => panic!("wrong outbound call"),
    }
    match reply(&mut st, 1, Ok(vec![identity_payload("id1")])).unwrap() {
        ReplyAction::IdentityStored { identity } => assert_eq!(identity, "id1"),
        _ => panic!("expected identity stored"),
    }
    let resp = query_identity(&st, &"id1".to_string()).unwrap();
    assert_eq!(resp.record.identity, "id1");
    assert_eq!(resp.record.creator, "B");
    assert_eq!(resp.record.pubkey, "pk");
    assert_eq!(resp.record.encrypted_data, "");
    assert_eq!(resp.record.last_submission, 0);
    assert!(resp.record.private_keyshares.is_empty());
    // The pending entry was consumed: replaying the same correlation id fails.
    let err = reply(&mut st, 1, Ok(vec![identity_payload("id1")])).unwrap_err();
    assert_eq!(err, ContractError::PendingRequestNotFound { id: 1 });
}

#[test]
fn unknown_correlation_id_is_rejected() {
    let mut st = fresh("pk");
    let err = reply(&mut st, 7, Ok(vec![identity_payload("idx")])).unwrap_err();
    assert_eq!(err, ContractError::PendingRequestNotFound { id: 7 });
}

#[test]
fn keyshare_request_authorization_and_time_gate() {
    let mut st = fresh("pk");
    execute(&mut st, &env("A", 0), ExecuteMsg::RequestIdentity {
        authorized_address: "B".to_string(),
    })
    .unwrap();
    reply(&mut st, 1, Ok(vec![identity_payload("id1")])).unwrap();

    // Exactly at the cooldown boundary: still not due.
    let err = execute(&mut st, &env("B", 2_592_000), ExecuteMsg::RequestPrivateKeyshare {
        identity: "id1".to_string(),
        secp_pubkey: "spk".to_string(),
    })
    .unwrap_err();
    assert_eq!(err, ContractError::NotYetDue);

    // Right sender needed, whatever the clock says.
    let err = execute(&mut st, &env("C", 2_592_001), ExecuteMsg::RequestPrivateKeyshare {
        identity: "id1".to_string(),
        secp_pubkey: "spk".to_string(),
    })
    .unwrap_err();
    assert_eq!(err, ContractError::Unauthorized);

    // Unknown record.
    let err = execute(&mut st, &env("B", 2_592_001), ExecuteMsg::RequestPrivateKeyshare {
        identity: "nope".to_string(),
        secp_pubkey: "spk".to_string(),
    })
    .unwrap_err();
    assert_eq!(err, ContractError::RecordNotFound);

    // One second past the boundary, by the creator: succeeds and reserves
    // an empty keyshare slot for the requester.
    let call = execute(&mut st, &env("B", 2_592_001), ExecuteMsg::RequestPrivateKeyshare {
        identity: "id1".to_string(),
        secp_pubkey: "spk".to_string(),
    })
    .unwrap()
    .unwrap();
    match call {
        OutboundCall::RequestDecryptionKey { reply_id, creator, identity, secp_pubkey } => {
            assert_eq!(reply_id, 2);
            assert_eq!(creator, "contract");
            assert_eq!(identity, "id1");
            assert_eq!(secp_pubkey, "spk");
        }
        _ => panic!("wrong outbound call"),
    }
    let resp = query_identity(&st, &"id1".to_string()).unwrap();
    assert_eq!(resp.record.private_keyshares.len(), 1);
    assert_eq!(resp.record.private_keyshares[0].requester, "B");
    assert!(resp.record.private_keyshares[0].shares.is_empty());
}

#[test]
fn keyshare_acknowledgement_keeps_pending_entry_and_records() {
    let mut st = fresh("pk");
    execute(&mut st, &env("A", 0), ExecuteMsg::RequestIdentity {
        authorized_address: "B".to_string(),
    })
    .unwrap();
    reply(&mut st, 1, Ok(vec![identity_payload("id1")])).unwrap();
    execute(&mut st, &env("B", 2_592_001), ExecuteMsg::RequestPrivateKeyshare {
        identity: "id1".to_string(),
        secp_pubkey: "spk".to_string(),
    })
    .unwrap();

    match reply(&mut st, 2, Ok(vec![ack_payload()])).unwrap() {
        ReplyAction::KeyshareAcknowledged => {}
        _ => panic!("expected acknowledgement"),
    }
    // Records are untouched by the acknowledgement.
    let resp = query_identity(&st, &"id1".to_string()).unwrap();
    assert_eq!(resp.record.private_keyshares.len(), 1);
    assert!(resp.record.private_keyshares[0].shares.is_empty());
    // The pending entry was deliberately left in place: the same id can be
    // acknowledged again.
    match reply(&mut st, 2, Ok(vec![ack_payload()])).unwrap() {
        ReplyAction::KeyshareAcknowledged => {}
        _ => panic!("expected acknowledgement"),
    }
}

#[test]
fn reply_error_paths() {
    let mut st = fresh("pk");
    execute(&mut st, &env("A", 0), ExecuteMsg::RequestIdentity {
        authorized_address: "B".to_string(),
    })
    .unwrap();

    // A failed external call on a known id reports the failure detail and
    // leaves the entry alone.
    let err = reply(&mut st, 1, Err("boom".to_string())).unwrap_err();
    assert_eq!(err, ContractError::ReplyError { error: "boom".to_string() });

    // A successful call with no payload at all.
    let err = reply(&mut st, 1, Ok(vec![])).unwrap_err();
    assert_eq!(err, ContractError::ReplyMissingData);

    // A payload matching neither shape.
    let err = reply(
        &mut st,
        1,
        Ok(vec![ReplyPayload { identity_response: None, keyshare_ack: false }]),
    )
    .unwrap_err();
    assert_eq!(err, ContractError::UnrecognizedResponse);

    // An identity response with an empty identity falls through; with no
    // acknowledgement shape either, it is unrecognized.
    let err = reply(
        &mut st,
        1,
        Ok(vec![ReplyPayload { identity_response: Some(String::new()), keyshare_ack: false }]),
    )
    .unwrap_err();
    assert_eq!(err, ContractError::UnrecognizedResponse);

    // After all those failures the entry is still pending and usable.
    match reply(&mut st, 1, Ok(vec![identity_payload("id1")])).unwrap() {
        ReplyAction::IdentityStored { identity } => assert_eq!(identity, "id1"),
        _ => panic!("expected identity stored"),
    }
}

#[test]
fn ambiguous_payload_resolves_to_identity_shape() {
    let mut st = fresh("pk");
    execute(&mut st, &env("A", 0), ExecuteMsg::RequestIdentity {
        authorized_address: "B".to_string(),
    })
    .unwrap();
    let both = ReplyPayload { identity_response: Some("id9".to_string()), keyshare_ack: true };
    match reply(&mut st, 1, Ok(vec![both])).unwrap() {
        ReplyAction::IdentityStored { identity } => assert_eq!(identity, "id9"),
        _ => panic!("identity shape must win"),
    }
}

#[test]
fn empty_identity_with_ack_shape_acknowledges() {
    let mut st = fresh("pk");
    execute(&mut st, &env("A", 0), ExecuteMsg::RequestIdentity {
        authorized_address: "B".to_string(),
    })
    .unwrap();
    let p = ReplyPayload { identity_response: Some(String::new()), keyshare_ack: true };
    match reply(&mut st, 1, Ok(vec![p])).unwrap() {
        ReplyAction::KeyshareAcknowledged => {}
        _ => panic!("expected acknowledgement"),
    }
}

#[test]
fn store_encrypted_data_updates_record() {
    let mut st = fresh("pk");
    execute(&mut st, &env("A", 0), ExecuteMsg::RequestIdentity {
        authorized_address: "B".to_string(),
    })
    .unwrap();
    reply(&mut st, 1, Ok(vec![identity_payload("id1")])).unwrap();

    let err = execute(&mut st, &env("X", 42), ExecuteMsg::StoreEncryptedData {
        identity: "missing".to_string(),
        data: "cipher".to_string(),
    })
    .unwrap_err();
    assert_eq!(err, ContractError::RecordNotFound);

    // No access control: any caller may overwrite any record's ciphertext.
    execute(&mut st, &env("X", 42), ExecuteMsg::StoreEncryptedData {
        identity: "id1".to_string(),
        data: "cipher".to_string(),
    })
    .unwrap();
    let resp = query_identity(&st, &"id1".to_string()).unwrap();
    assert_eq!(resp.record.encrypted_data, "cipher");
    assert_eq!(resp.record.last_submission, 42);
}

#[test]
fn private_keys_need_a_recorded_requester() {
    let mut st = fresh("pk");
    execute(&mut st, &env("A", 0), ExecuteMsg::RequestIdentity {
        authorized_address: "B".to_string(),
    })
    .unwrap();
    reply(&mut st, 1, Ok(vec![identity_payload("id1")])).unwrap();
    let err = execute(&mut st, &env("B", 0), ExecuteMsg::ExecuteContractPrivateMsg {
        identity: "id1".to_string(),
        private_decryption_key: PrivateDecryptionKey {
            requester: "B".to_string(),
            private_keyshares: vec![],
        },
    })
    .unwrap_err();
    assert_eq!(err, ContractError::RequesterNotSet);
}

#[test]
fn private_keys_replace_the_requesters_entry() {
    let mut st = fresh("pk");
    execute(&mut st, &env("A", 0), ExecuteMsg::RequestIdentity {
        authorized_address: "B".to_string(),
    })
    .unwrap();
    reply(&mut st, 1, Ok(vec![identity_payload("id1")])).unwrap();
    execute(&mut st, &env("B", 2_592_001), ExecuteMsg::RequestPrivateKeyshare {
        identity: "id1".to_string(),
        secp_pubkey: "spk".to_string(),
    })
    .unwrap();

    let share = |v: &str, i: i64| IndexedEncryptedKeyshare {
        encrypted_keyshare_value: v.to_string(),
        encrypted_keyshare_index: i,
    };
    execute(&mut st, &env("anyone", 0), ExecuteMsg::ExecuteContractPrivateMsg {
        identity: "id1".to_string(),
        private_decryption_key: PrivateDecryptionKey {
            requester: "B".to_string(),
            private_keyshares: vec![share("s1", 1), share("s2", 2)],
        },
    })
    .unwrap();
    let resp = query_identity(&st, &"id1".to_string()).unwrap();
    assert_eq!(resp.record.private_keyshares.len(), 1);
    assert_eq!(resp.record.private_keyshares[0].requester, "B");
    assert_eq!(resp.record.private_keyshares[0].shares.len(), 2);
    assert_eq!(resp.record.private_keyshares[0].shares[0].encrypted_keyshare_value, "s1");
    assert_eq!(resp.record.private_keyshares[0].shares[1].encrypted_keyshare_index, 2);

    // A later submission fully replaces, never merges.
    execute(&mut st, &env("anyone", 0), ExecuteMsg::ExecuteContractPrivateMsg {
        identity: "id1".to_string(),
        private_decryption_key: PrivateDecryptionKey {
            requester: "B".to_string(),
            private_keyshares: vec![share("s3", 7)],
        },
    })
    .unwrap();
    let resp = query_identity(&st, &"id1".to_string()).unwrap();
    assert_eq!(resp.record.private_keyshares.len(), 1);
    assert_eq!(resp.record.private_keyshares[0].shares.len(), 1);
    assert_eq!(resp.record.private_keyshares[0].shares[0].encrypted_keyshare_value, "s3");
}

#[test]
fn list_all_returns_ascending_identities() {
    let mut st = fresh("pk");
    for (k, name) in ["z", "a", "m"].iter().enumerate() {
        execute(&mut st, &env("A", 0), ExecuteMsg::RequestIdentity {
            authorized_address: "B".to_string(),
        })
        .unwrap();
        reply(&mut st, (k + 1) as u64, Ok(vec![identity_payload(name)])).unwrap();
    }
    match query(&st, QueryMsg::GetAllIdentity {}).unwrap() {
        QueryAnswer::AllIdentities(resp) => {
            let names: Vec<&str> = resp.records.iter().map(|r| r.identity.as_str()).collect();
            assert_eq!(names, vec!["a", "m", "z"]);
        }
        _ => panic!("wrong answer shape"),
    }
}

#[test]
fn correlation_ids_count_up_from_one() {
    let mut st = fresh("pk");
    for expected in 1..=3u64 {
        let call = execute(&mut st, &env("A", 0), ExecuteMsg::RequestIdentity {
            authorized_address: "B".to_string(),
        })
        .unwrap()
        .unwrap();
        match call {
            OutboundCall::RequestIdentity { reply_id, .. } => assert_eq!(reply_id, expected),
            _ => panic!("wrong outbound call"),
        }
    }
}

#[test]
fn identity_record_snapshots_current_pubkey() {
    let mut st = fresh("pk1");
    execute(&mut st, &env("A", 0), ExecuteMsg::RequestIdentity {
        authorized_address: "B".to_string(),
    })
    .unwrap();
    reply(&mut st, 1, Ok(vec![identity_payload("early")])).unwrap();

    execute(&mut st, &env("A", 0), ExecuteMsg::RequestIdentity {
        authorized_address: "B".to_string(),
    })
    .unwrap();
    execute(&mut st, &env("A", 0), ExecuteMsg::UpdatePubkey { pubkey: "pk2".to_string() })
        .unwrap();
    reply(&mut st, 2, Ok(vec![identity_payload("late")])).unwrap();

    // The key is read at reply time; earlier records keep their snapshot.
    assert_eq!(query_identity(&st, &"early".to_string()).unwrap().record.pubkey, "pk1");
    assert_eq!(query_identity(&st, &"late".to_string()).unwrap().record.pubkey, "pk2");
}

#[test]
fn identity_reply_overwrites_existing_record() {
    let mut st = fresh("pk");
    execute(&mut st, &env("A", 0), ExecuteMsg::RequestIdentity {
        authorized_address: "B".to_string(),
    })
    .unwrap();
    reply(&mut st, 1, Ok(vec![identity_payload("id1")])).unwrap();
    execute(&mut st, &env("X", 9), ExecuteMsg::StoreEncryptedData {
        identity: "id1".to_string(),
        data: "cipher".to_string(),
    })
    .unwrap();

    // A second identity reply for the same identity string overwrites the
    // whole record, resetting ciphertext and submission time.
    execute(&mut st, &env("A", 0), ExecuteMsg::RequestIdentity {
        authorized_address: "C".to_string(),
    })
    .unwrap();
    reply(&mut st, 2, Ok(vec![identity_payload("id1")])).unwrap();
    let resp = query_identity(&st, &"id1".to_string()).unwrap();
    assert_eq!(resp.record.creator, "C");
    assert_eq!(resp.record.encrypted_data, "");
    assert_eq!(resp.record.last_submission, 0);
    match query(&st, QueryMsg::GetAllIdentity {}).unwrap() {
        QueryAnswer::AllIdentities(resp) => assert_eq!(resp.records.len(), 1),
        _ => panic!("wrong answer shape"),
    }
}

#[test]
fn request_tag_renders_multi_digit_ids() {
    let mut st = fresh("pk");
    let mut last_tag = String::new();
    for _ in 0..12 {
        let call = execute(&mut st, &env("A", 0), ExecuteMsg::RequestIdentity {
            authorized_address: "B".to_string(),
        })
        .unwrap()
        .unwrap();
        match call {
            OutboundCall::RequestIdentity { req_id, .. } => last_tag = req_id,
            _ => panic!("wrong outbound call"),
        }
    }
    assert_eq!(last_tag, "req-A-12");
}

#[test]
fn identities_order_lexicographically() {
    let mut st = fresh("pk");
    for (k, name) in ["b", "ab", "aa"].iter().enumerate() {
        execute(&mut st, &env("A", 0), ExecuteMsg::RequestIdentity {
            authorized_address: "B".to_string(),
        })
        .unwrap();
        reply(&mut st, (k + 1) as u64, Ok(vec![identity_payload(name)])).unwrap();
    }
    match query(&st, QueryMsg::GetAllIdentity {}).unwrap() {
        QueryAnswer::AllIdentities(resp) => {
            let names: Vec<&str> = resp.records.iter().map(|r| r.identity.as_str()).collect();
            assert_eq!(names, vec!["aa", "ab", "b"]);
        }
        _ => panic!("wrong answer shape"),
    }
}

#[test]
fn unknown_id_beats_failed_result() {
    // The pending lookup comes first: an unknown correlation id is reported
    // even when the call result itself is a failure.
    let mut st = fresh("pk");
    let err = reply(&mut st, 5, Err("boom".to_string())).unwrap_err();
    assert_eq!(err, ContractError::PendingRequestNotFound { id: 5 });
}

#[test]
fn private_keys_check_record_before_requester() {
    // The record is loaded first: a missing record is reported even when no
    // requester has been recorded yet.
    let mut st = fresh("pk");
    let err = execute(&mut st, &env("B", 0), ExecuteMsg::ExecuteContractPrivateMsg {
        identity: "missing".to_string(),
        private_decryption_key: PrivateDecryptionKey {
            requester: "B".to_string(),
            private_keyshares: vec![],
        },
    })
    .unwrap_err();
    assert_eq!(err, ContractError::RecordNotFound);
}
