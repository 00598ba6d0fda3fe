use jpaste::config::Config;
use jpaste::db::{Db, InMemoryDb};
use jpaste::persistent::{redis_key, PersistentStore, EXPIRY_SECONDS};
use jpaste::utils::{random_id, ID_SIZE};

#[test]
fn round_trip_store_then_retrieve() {
    let mut db = InMemoryDb::init();
    let id = db.set(b"hello".to_vec());
    assert_eq!(db.get(&id), Some(b"hello".to_vec()));
}

#[test]
fn round_trip_is_binary_safe() {
    let mut db = InMemoryDb::init();
    let id = db.set(vec![253, 254, 255]);
    assert_eq!(db.get(&id), Some(vec![253, 254, 255]));
}

#[test]
fn retrieve_of_never_issued_identifier_is_none() {
    let mut db = InMemoryDb::init();
    assert_eq!(db.get("AAAAAAAA"), None);
    let id = db.set(b"x".to_vec());
    let other: String = id.chars().rev().collect::<String>() + "x";
    assert_eq!(db.get(&other), None, "a different identifier finds nothing");
}

#[test]
fn many_distinct_stores_are_independent() {
    let mut db = InMemoryDb::init();
    let mut stored: Vec<(String, Vec<u8>)> = Vec::new();
    for i in 0..100 {
        let payload = format!("payload-{}", i).into_bytes();
        let id = db.set(payload.clone());
        stored.push((id, payload));
    }
    assert_eq!(db.len(), 100, "one record per store");
    for (id, payload) in &stored {
        assert_eq!(
            db.get(id),
            Some(payload.clone()),
            "each record is independently retrievable"
        );
    }
}

#[test]
fn random_id_has_the_documented_shape() {
    for _ in 0..50 {
        let id = random_id();
        assert_eq!(id.len(), ID_SIZE);
        assert!(id.chars().all(|c| c.is_ascii_alphanumeric()));
    }
}

#[test]
fn redis_key_is_namespaced() {
    let k = redis_key("AbCd1234");
    assert_eq!(k.as_str(), "jpaste:AbCd1234");
}

#[test]
fn persistent_record_is_retrievable_within_the_window() {
    let mut store = PersistentStore::init();
    let id = store.set(b"hello".to_vec(), 1000);
    assert_eq!(store.get(&id, 1000), Some(b"hello".to_vec()));
    assert_eq!(
        store.get(&id, 1000 + EXPIRY_SECONDS - 1),
        Some(b"hello".to_vec()),
        "still present just before the window ends"
    );
}

#[test]
fn persistent_record_expires_after_its_window() {
    let mut store = PersistentStore::init();
    let id = store.set(b"hello".to_vec(), 1000);
    assert_eq!(
        store.get(&id, 1000 + EXPIRY_SECONDS),
        None,
        "gone once the retention window has elapsed"
    );
    assert_eq!(store.get(&id, u64::MAX), None);
}

#[test]
fn persistent_retrieval_of_unknown_identifier_is_none() {
    let store = PersistentStore::init();
    assert_eq!(store.get("AAAAAAAA", 0), None);
}

#[test]
fn expiry_window_is_thirty_days() {
    assert_eq!(EXPIRY_SECONDS, 60 * 60 * 24 * 30);
}

#[test]
fn config_resolve_uses_defaults_where_nothing_is_supplied() {
    let c = Config::resolve(None, None, None, None);
    assert_eq!(c.redis_url.as_str(), "redis://127.0.0.1/");
    assert_eq!(c.jpaste_public_url.as_str(), "http://127.0.0.1");
    assert_eq!(c.jpaste_localhost_ip.as_str(), "127.0.0.1");
    assert_eq!(c.jpaste_localhost_port.as_str(), "3030");
}

#[test]
fn config_resolve_prefers_supplied_values() {
    let c = Config::resolve(
        Some("redis://10.0.0.1/".to_string()),
        Some("https://paste.example".to_string()),
        Some("0.0.0.0".to_string()),
        Some("8080".to_string()),
    );
    assert_eq!(c.redis_url.as_str(), "redis://10.0.0.1/");
    assert_eq!(c.jpaste_public_url.as_str(), "https://paste.example");
    assert_eq!(c.jpaste_localhost_ip.as_str(), "0.0.0.0");
    assert_eq!(c.jpaste_localhost_port.as_str(), "8080");
}
