use oxide_auth_kv::authorizer::CodeAuthorizer;
use oxide_auth_kv::errors::AuthError;
use oxide_auth_kv::issuer::TokenIssuer;
use oxide_auth_kv::records::ClientRecord;
use oxide_auth_kv::records::Grant;
use oxide_auth_kv::records::TokenRecord;
use oxide_auth_kv::records::TokenType;
use oxide_auth_kv::registrar::ClientRegistrar;
use oxide_auth_kv::store::MemStore;
use oxide_auth_kv::store::StoredValue;
use oxide_auth_kv::tags::HexTagger;
use oxide_auth_kv::typed::TypedRecordStore;

fn grant(client: &str, until: i64) -> Grant {
    Grant {
        client_id: client.to_string(),
        owner_id: "owner".to_string(),
        scope: "default".to_string(),
        redirect_uri: "https://client.example/endpoint".to_string(),
        until,
    }
}

fn tagging_store() -> TypedRecordStore {
    let mut ts = TypedRecordStore::new(MemStore::new());
    ts.set_u64("usage", 0);
    ts
}

#[test]
fn scenario_register_and_find() {
    let ts = TypedRecordStore::new(MemStore::new());
    let mut registrar = ClientRegistrar::new(ts);
    let record = ClientRecord { client_id: "c1".to_string(), data: vec![1, 2, 3] };
    registrar.register(record);
    let found = registrar.find_client_by_id("c1").unwrap();
    assert_eq!(found.client_id, "c1".to_string());
    assert_eq!(found.data, vec![1, 2, 3]);
    assert_eq!(registrar.find_client_by_id("c2").unwrap_err(), AuthError::NotFound);
}

#[test]
fn scenario_code_single_use() {
    let mut auth = CodeAuthorizer::new(tagging_store(), HexTagger);
    let g = grant("c1", 77);
    let code = auth.authorize(g.clone()).unwrap();
    assert!(!code.is_empty());
    let extracted = auth.extract(&code).unwrap();
    assert_eq!(extracted, g);
    assert_eq!(auth.extract(&code).unwrap_err(), AuthError::NotFound);
    assert_eq!(auth.extract(&code).unwrap_err(), AuthError::NotFound);
}

#[test]
fn scenario_refresh_rotates() {
    let mut issuer = TokenIssuer::new(tagging_store(), HexTagger, None);
    let g = grant("c1", 500);
    let issued = issuer.issue(g.clone()).unwrap();
    let a1 = issued.token.clone();
    let r1 = issued.refresh.clone().unwrap();
    assert_ne!(a1, r1);
    assert_eq!(issued.until, 500);
    assert_eq!(issued.token_type, TokenType::Bearer);

    let refreshed = issuer.refresh(&r1, g.clone()).unwrap();
    let a2 = refreshed.token.clone();
    let r2 = refreshed.refresh.clone().unwrap();
    assert_ne!(a2, a1);
    assert_ne!(r2, r1);
    assert_ne!(a2, r2);

    assert_eq!(issuer.recover_token(&a1).unwrap(), None);
    assert_eq!(issuer.recover_refresh(&r1).unwrap(), None);
    assert_eq!(issuer.recover_token(&a2).unwrap(), Some(g.clone()));
    assert_eq!(issuer.recover_refresh(&r2).unwrap(), Some(g));
}

#[test]
fn scenario_many_codes_distinct() {
    let mut auth = CodeAuthorizer::new(tagging_store(), HexTagger);
    let mut codes: Vec<String> = Vec::new();
    for i in 0..100 {
        let g = grant(&format!("client-{}", i), i as i64);
        codes.push(auth.authorize(g).unwrap());
    }
    for i in 0..codes.len() {
        for j in 0..i {
            assert_ne!(codes[i], codes[j]);
        }
    }
    // every code still redeems to its own grant
    for (i, code) in codes.iter().enumerate() {
        let g = auth.extract(code).unwrap();
        assert_eq!(g.client_id, format!("client-{}", i));
    }
}

#[test]
fn issued_pair_distinct_and_recoverable() {
    let mut issuer = TokenIssuer::new(tagging_store(), HexTagger, None);
    let g = grant("c9", 1234);
    let issued = issuer.issue(g.clone()).unwrap();
    let access = issued.token.clone();
    let refresh = issued.refresh.clone().unwrap();
    assert_ne!(access, refresh);
    assert_eq!(issuer.recover_token(&access).unwrap(), Some(g.clone()));
    assert_eq!(issuer.recover_refresh(&refresh).unwrap(), Some(g));
}

#[test]
fn refresh_unknown_token_not_found_and_leaves_store_untouched() {
    let mut issuer = TokenIssuer::new(tagging_store(), HexTagger, None);
    let g = grant("c1", 1);
    assert_eq!(issuer.refresh("missing", g.clone()).unwrap_err(), AuthError::NotFound);
    // the counter was not advanced by the failed call: the next issuance
    // still mints from counter value zero
    let issued = issuer.issue(g).unwrap();
    assert_eq!(issued.token, "0000000000000000".to_string());
    assert_eq!(issued.refresh.unwrap(), "0000000000000001".to_string());
}

#[test]
fn refresh_conflict_on_mismatched_record() {
    let mut ms = MemStore::new();
    let g = grant("c1", 9);
    let record = TokenRecord {
        access: "a-key".to_string(),
        refresh: Some("other".to_string()),
        grant: g.clone(),
    };
    ms.set("r-key", StoredValue::TokenEntry(record));
    let mut ts = TypedRecordStore::new(ms);
    ts.set_u64("usage", 0);
    let mut issuer = TokenIssuer::new(ts, HexTagger, None);
    assert_eq!(issuer.refresh("r-key", g.clone()).unwrap_err(), AuthError::Conflict);
    // the conflicting record was left in place and the counter untouched
    let issued = issuer.issue(g).unwrap();
    assert_eq!(issued.token, "0000000000000000".to_string());
}

#[test]
fn refresh_conflict_on_record_without_refresh() {
    let mut ms = MemStore::new();
    let g = grant("c1", 9);
    let record = TokenRecord { access: "a-key".to_string(), refresh: None, grant: g.clone() };
    ms.set("r-key", StoredValue::TokenEntry(record));
    let mut ts = TypedRecordStore::new(ms);
    ts.set_u64("usage", 0);
    let mut issuer = TokenIssuer::new(ts, HexTagger, None);
    assert_eq!(issuer.refresh("r-key", g).unwrap_err(), AuthError::Conflict);
}

#[test]
fn issue_applies_configured_lifetime() {
    let mut issuer = TokenIssuer::new(tagging_store(), HexTagger, Some(3600));
    let g = grant("c1", 1);
    let issued = issuer.issue_at(g.clone(), 1000).unwrap();
    assert_eq!(issued.until, 4600);
    let recovered = issuer.recover_token(&issued.token).unwrap().unwrap();
    assert_eq!(recovered.until, 4600);
    assert_eq!(recovered.client_id, "c1".to_string());

    let refreshed = issuer.refresh_at(&issued.refresh.unwrap(), g, 2000).unwrap();
    assert_eq!(refreshed.until, 5600);
}

#[test]
fn issue_without_lifetime_keeps_expiry() {
    let mut issuer = TokenIssuer::new(tagging_store(), HexTagger, None);
    let g = grant("c1", 424242);
    let issued = issuer.issue_at(g, 1000).unwrap();
    assert_eq!(issued.until, 424242);
}

#[test]
fn lifetime_saturates_at_largest_timestamp() {
    let mut issuer = TokenIssuer::new(tagging_store(), HexTagger, Some(100));
    let g = grant("c1", 0);
    let issued = issuer.issue_at(g, i64::MAX - 10).unwrap();
    assert_eq!(issued.until, i64::MAX);
}

#[test]
fn registrar_list_returns_all() {
    let ts = TypedRecordStore::new(MemStore::new());
    let mut registrar = ClientRegistrar::new(ts);
    registrar.register(ClientRecord { client_id: "c1".to_string(), data: vec![1] });
    registrar.register(ClientRecord { client_id: "c2".to_string(), data: vec![2] });
    let mut listed = registrar.list().unwrap();
    listed.sort_by(|a, b| a.client_id.cmp(&b.client_id));
    assert_eq!(listed.len(), 2);
    assert_eq!(listed[0].client_id, "c1".to_string());
    assert_eq!(listed[1].client_id, "c2".to_string());
}

#[test]
fn registrar_last_write_wins() {
    let ts = TypedRecordStore::new(MemStore::new());
    let mut registrar = ClientRegistrar::new(ts);
    registrar.register(ClientRecord { client_id: "c1".to_string(), data: vec![1] });
    registrar.register(ClientRecord { client_id: "c1".to_string(), data: vec![2] });
    assert_eq!(registrar.find_client_by_id("c1").unwrap().data, vec![2]);
    assert_eq!(registrar.list().unwrap().len(), 1);
}

#[test]
fn registrar_listing_fails_on_malformed_entry() {
    let mut ms = MemStore::new();
    ms.set("c1", StoredValue::Bytes(vec![0]));
    let registrar = ClientRegistrar::new(TypedRecordStore::new(ms));
    assert_eq!(registrar.list().unwrap_err(), AuthError::SerializationError);
    assert_eq!(registrar.find_client_by_id("c1").unwrap_err(), AuthError::SerializationError);
}

#[test]
fn extract_fails_on_malformed_entry_and_keeps_it() {
    let mut ms = MemStore::new();
    ms.set("code-x", StoredValue::Bytes(vec![7]));
    let mut ts = TypedRecordStore::new(ms);
    ts.set_u64("usage", 0);
    let mut auth = CodeAuthorizer::new(ts, HexTagger);
    assert_eq!(auth.extract("code-x").unwrap_err(), AuthError::SerializationError);
    // the malformed entry is left in place, so a second attempt sees it again
    assert_eq!(auth.extract("code-x").unwrap_err(), AuthError::SerializationError);
}

#[test]
fn recover_fails_on_malformed_entry() {
    let mut ms = MemStore::new();
    let g = grant("c1", 3);
    ms.set("t", StoredValue::GrantEntry(g));
    let issuer = TokenIssuer::new(TypedRecordStore::new(ms), HexTagger, None);
    assert_eq!(issuer.recover_token("t").unwrap_err(), AuthError::SerializationError);
    assert_eq!(issuer.recover_refresh("t").unwrap_err(), AuthError::SerializationError);
    assert_eq!(issuer.recover_token("absent").unwrap(), None);
}
