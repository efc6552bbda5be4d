use oxide_auth_kv::authorizer::CodeAuthorizer;
use oxide_auth_kv::errors::AuthError;
use oxide_auth_kv::issuer::TokenIssuer;
use oxide_auth_kv::records::Grant;
use oxide_auth_kv::store::MemStore;
use oxide_auth_kv::store::StoredValue;
use oxide_auth_kv::tags::HexTagger;
use oxide_auth_kv::tags::TagGenerator;
use oxide_auth_kv::tags::hex_string;
use oxide_auth_kv::tags::next_tags;
use oxide_auth_kv::tags::wrapping_add_u64;
use oxide_auth_kv::typed::TypedRecordStore;
use oxide_auth_kv::web::WebError;

fn grant(client: &str, until: i64) -> Grant {
    Grant {
        client_id: client.to_string(),
        owner_id: "owner".to_string(),
        scope: "default".to_string(),
        redirect_uri: "https://client.example/endpoint".to_string(),
        until,
    }
}

#[test]
fn counter_round_trip() {
    let mut ts = TypedRecordStore::new(MemStore::new());
    ts.set_u64("usage", 5);
    assert_eq!(ts.get_u64("usage").unwrap(), 5);
    ts.set_u64("usage", u64::MAX);
    assert_eq!(ts.get_u64("usage").unwrap(), u64::MAX);
}

#[test]
fn counter_decodes_big_endian_exactly() {
    let mut ms = MemStore::new();
    ms.set("usage", StoredValue::Bytes(vec![1, 2, 3, 4, 5, 6, 7, 8]));
    let ts = TypedRecordStore::new(ms);
    assert_eq!(ts.get_u64("usage").unwrap(), 0x0102030405060708);
}

#[test]
fn counter_wrong_length_is_serialization_error() {
    let mut ms = MemStore::new();
    ms.set("usage", StoredValue::Bytes(vec![1, 2, 3]));
    let mut ts = TypedRecordStore::new(ms);
    assert_eq!(ts.get_u64("usage").unwrap_err(), AuthError::SerializationError);
    assert_eq!(next_tags(&mut ts, 1).unwrap_err(), AuthError::SerializationError);
}

#[test]
fn counter_missing_is_not_found() {
    let mut ts = TypedRecordStore::new(MemStore::new());
    assert_eq!(ts.get_u64("usage").unwrap_err(), AuthError::NotFound);
    assert_eq!(next_tags(&mut ts, 1).unwrap_err(), AuthError::NotFound);

    let mut auth = CodeAuthorizer::new(TypedRecordStore::new(MemStore::new()), HexTagger);
    assert_eq!(auth.authorize(grant("c1", 0)).unwrap_err(), AuthError::NotFound);

    let mut issuer = TokenIssuer::new(TypedRecordStore::new(MemStore::new()), HexTagger, None);
    assert_eq!(issuer.issue(grant("c1", 0)).unwrap_err(), AuthError::NotFound);
}

#[test]
fn next_tags_returns_consecutive_values_and_advances() {
    let mut ts = TypedRecordStore::new(MemStore::new());
    ts.set_u64("usage", 0);
    assert_eq!(next_tags(&mut ts, 5).unwrap(), vec![0, 1, 2, 3, 4]);
    assert_eq!(next_tags(&mut ts, 3).unwrap(), vec![5, 6, 7]);
    assert_eq!(ts.get_u64("usage").unwrap(), 8);
    assert_eq!(next_tags(&mut ts, 0).unwrap(), Vec::<u64>::new());
    assert_eq!(ts.get_u64("usage").unwrap(), 8);
}

#[test]
fn next_tags_wraps_around() {
    let mut ts = TypedRecordStore::new(MemStore::new());
    ts.set_u64("usage", u64::MAX);
    assert_eq!(next_tags(&mut ts, 2).unwrap(), vec![u64::MAX, 0]);
    assert_eq!(ts.get_u64("usage").unwrap(), 1);
}

#[test]
fn wrapping_add_wraps() {
    assert_eq!(wrapping_add_u64(3, 4), 7);
    assert_eq!(wrapping_add_u64(u64::MAX, 1), 0);
    assert_eq!(wrapping_add_u64(u64::MAX, 5), 4);
}

#[test]
fn hex_tag_renders_exactly() {
    assert_eq!(hex_string(0), "0000000000000000".to_string());
    assert_eq!(hex_string(255), "00000000000000ff".to_string());
    assert_eq!(hex_string(0x0123456789abcdef), "0123456789abcdef".to_string());
    assert_eq!(hex_string(u64::MAX), "ffffffffffffffff".to_string());
}

#[test]
fn hex_tagger_uses_counter_value() {
    let g = grant("c1", 0);
    let t1 = HexTagger.tag(1, &g).unwrap();
    let t2 = HexTagger.tag(2, &g).unwrap();
    assert_eq!(t1, "0000000000000001".to_string());
    assert_eq!(t2, "0000000000000002".to_string());
    assert_ne!(t1, t2);
}

#[test]
fn store_get_set_delete() {
    let mut ms = MemStore::new();
    assert_eq!(ms.get("k").unwrap_err(), AuthError::NotFound);
    ms.set("k", StoredValue::Bytes(vec![1]));
    match ms.get("k").unwrap() {
        StoredValue::Bytes(b) => assert_eq!(b, vec![1]),
        _ => panic!("wrong variant"),
    }
    ms.set("k", StoredValue::Bytes(vec![2]));
    match ms.remove("k").unwrap() {
        StoredValue::Bytes(b) => assert_eq!(b, vec![2]),
        _ => panic!("wrong variant"),
    }
    assert_eq!(ms.get("k").unwrap_err(), AuthError::NotFound);
    ms.delete("k");
    ms.set("a", StoredValue::Bytes(vec![1]));
    ms.set("b", StoredValue::Bytes(vec![2]));
    let mut keys = ms.list_keys();
    keys.sort();
    assert_eq!(keys, vec!["a".to_string(), "b".to_string()]);
}

#[test]
fn web_error_renders_its_message() {
    let message: String = WebError::Encoding.into();
    assert_eq!(message, "WebError::Encoding".to_string());
}
