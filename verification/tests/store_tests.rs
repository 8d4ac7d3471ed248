use async_session::cookie_store::{CookieStore, CookieStoreError};
use async_session::memory_store::{MemoryStore, MemoryStoreError};
use async_session::session::Session;
use async_session::value::Value;

#[test]
fn creating_a_new_session_with_no_expiry() {
    let store = MemoryStore::new();
    let mut store = store;
    let mut session = Session::new();
    session.insert_value("key", Value::Str("Hello".to_string()));
    let cloned = session.clone();
    let cookie_value = store.store_session(&mut session).unwrap().unwrap();
    let loaded_session = store.load_session(&cookie_value).unwrap().unwrap();
    assert_eq!(cloned.id(), loaded_session.id());
    assert_eq!("Hello", &loaded_session.get_string("key").unwrap());
    assert!(!loaded_session.is_expired());
    assert!(loaded_session.validate().is_some());
}

#[test]
fn updating_a_session() {
    let mut store = MemoryStore::new();
    let mut session = Session::new();

    session.insert_value("key", Value::Str("value".to_string()));
    let cookie_value = store.store_session(&mut session).unwrap().unwrap();

    let mut session = store.load_session(&cookie_value).unwrap().unwrap();
    session.insert_value("key", Value::Str("other value".to_string()));

    assert_eq!(store.store_session(&mut session).unwrap(), None);
    let session = store.load_session(&cookie_value).unwrap().unwrap();
    assert_eq!(&session.get_string("key").unwrap(), "other value");
}

#[test]
fn updating_a_session_extending_expiry() {
    let mut store = MemoryStore::new();
    let mut session = Session::new();
    session.set_expiry(1_000);
    let original_expires = session.expiry().unwrap();
    let cookie_value = store.store_session(&mut session).unwrap().unwrap();

    let mut session = store.load_session_at(&cookie_value, 500).unwrap().unwrap();

    assert_eq!(session.expiry().unwrap(), original_expires);
    session.set_expiry(3_000);
    let new_expires = session.expiry().unwrap();
    assert_eq!(None, store.store_session(&mut session).unwrap());

    let session = store.load_session_at(&cookie_value, 500).unwrap().unwrap();
    assert_eq!(session.expiry().unwrap(), new_expires);

    assert_eq!(None, store.load_session_at(&cookie_value, 4_000).unwrap());
    assert_eq!(store.count(), 0, "the expired entry was evicted on read");
}

#[test]
fn creating_a_new_session_with_expiry() {
    let mut store = MemoryStore::new();
    let mut session = Session::new();
    session.expire_in(10);
    session.insert_value("key", Value::Str("value".to_string()));
    let cloned = session.clone();

    let cookie_value = store.store_session(&mut session).unwrap().unwrap();

    let loaded_session = store.load_session(&cookie_value).unwrap().unwrap();
    assert_eq!(cloned.id(), loaded_session.id());
    assert_eq!("value", &loaded_session.get_string("key").unwrap());

    assert!(!loaded_session.is_expired());

    let far_future = i64::MAX - 1;
    assert_eq!(
        None,
        store.load_session_at(&cookie_value, far_future).unwrap()
    );
}

#[test]
fn destroying_a_single_session() {
    let mut store = MemoryStore::new();
    for _ in 0..3 {
        store.store_session(&mut Session::new()).unwrap();
    }

    let cookie = store.store_session(&mut Session::new()).unwrap().unwrap();
    assert_eq!(4, store.count());
    let session = store.load_session(&cookie).unwrap().unwrap();
    store.destroy_session(&session).unwrap();
    assert_eq!(None, store.load_session(&cookie).unwrap());
    assert_eq!(3, store.count());

    // attempting to destroy the session again is not an error
    assert!(store.destroy_session(&session).is_ok());
    assert_eq!(3, store.count());
}

#[test]
fn clearing_the_whole_store() {
    let mut store = MemoryStore::new();
    for _ in 0..3 {
        store.store_session(&mut Session::new()).unwrap();
    }

    assert_eq!(3, store.count());
    store.clear_store().unwrap();
    assert_eq!(0, store.count());
}

#[test]
fn memory_store_scenario_round_trip() {
    let mut store = MemoryStore::new();

    let mut session = Session::new();
    session.insert_value("user_id", Value::Int(1));
    assert!(session.data_changed());

    let cookie_value = store.store_session(&mut session).unwrap().unwrap();
    assert!(!session.data_changed());

    let session = store.load_session(&cookie_value).unwrap().unwrap();
    assert_eq!(session.get_i64("user_id"), Some(1));
    assert!(!session.data_changed());
}

#[test]
fn memory_store_rejects_bad_base64() {
    let mut store = MemoryStore::new();
    let err = store.load_session("@@@not-base64@@@").unwrap_err();
    assert!(matches!(err, MemoryStoreError::Base64));
}

#[test]
fn memory_store_cleanup_evicts_expired_entries() {
    let mut store = MemoryStore::new();
    let mut live = Session::new();
    let live_cookie = store.store_session(&mut live).unwrap().unwrap();
    let mut dying = Session::new();
    dying.set_expiry(100);
    store.store_session(&mut dying).unwrap();
    assert_eq!(2, store.count());

    store.cleanup_at(50);
    assert_eq!(2, store.count());

    store.cleanup_at(200);
    assert_eq!(1, store.count());
    assert!(store.load_session(&live_cookie).unwrap().is_some());
}

#[test]
fn lib_creating_a_new_session_with_no_expiry() {
    let store = CookieStore::new();
    let mut session = Session::new();
    session.insert_value("key", Value::Str("Hello".to_string()));
    let cloned = session.clone();
    let cookie_value = store.store_session(&session).unwrap().unwrap();
    let loaded_session = store.load_session(&cookie_value).unwrap().unwrap();
    assert_eq!(cloned.id(), loaded_session.id());
    assert_eq!("Hello", &loaded_session.get_string("key").unwrap());
    assert!(!loaded_session.is_expired());
    assert!(loaded_session.validate().is_some());
}

#[test]
fn lib_updating_a_session() {
    let store = CookieStore::new();
    let mut session = Session::new();

    session.insert_value("key", Value::Str("value".to_string()));
    let cookie_value = store.store_session(&session).unwrap().unwrap();

    let mut session = store.load_session(&cookie_value).unwrap().unwrap();
    session.insert_value("key", Value::Str("other value".to_string()));

    let new_cookie_value = store.store_session(&session).unwrap().unwrap();
    let session = store.load_session(&new_cookie_value).unwrap().unwrap();
    assert_eq!(&session.get_string("key").unwrap(), "other value");
}

#[test]
fn lib_updating_a_session_extending_expiry() {
    let store = CookieStore::new();
    let mut session = Session::new();
    session.set_expiry(1_000);
    let original_expires = session.expiry().unwrap();
    let cookie_value = store.store_session(&session).unwrap().unwrap();

    let mut session = store.load_session_at(&cookie_value, 500).unwrap().unwrap();

    assert_eq!(session.expiry().unwrap(), original_expires);
    session.set_expiry(3_000);
    let new_expires = session.expiry().unwrap();
    let cookie_value = store.store_session(&session).unwrap().unwrap();

    let session = store.load_session_at(&cookie_value, 500).unwrap().unwrap();
    assert_eq!(session.expiry().unwrap(), new_expires);

    assert_eq!(None, store.load_session_at(&cookie_value, 4_000).unwrap());
}

#[test]
fn lib_creating_a_new_session_with_expiry() {
    let store = CookieStore::new();
    let mut session = Session::new();
    session.expire_in(10);
    session.insert_value("key", Value::Str("value".to_string()));
    let cloned = session.clone();

    let cookie_value = store.store_session(&session).unwrap().unwrap();

    let loaded_session = store.load_session(&cookie_value).unwrap().unwrap();
    assert_eq!(cloned.id(), loaded_session.id());
    assert_eq!("value", &loaded_session.get_string("key").unwrap());

    assert!(!loaded_session.is_expired());

    let far_future = i64::MAX - 1;
    assert_eq!(
        None,
        store.load_session_at(&cookie_value, far_future).unwrap()
    );
}

#[test]
fn cookie_store_round_trips_every_value_shape() {
    let store = CookieStore::new();
    let mut session = Session::new();
    session.insert_value("null", Value::Null);
    session.insert_value("yes", Value::Bool(true));
    session.insert_value("no", Value::Bool(false));
    session.insert_value("negative", Value::Int(-42));
    session.insert_value("text", Value::Str("hé🦀 — 日本語".to_string()));
    session.insert_value("", Value::Str(String::new()));
    session.set_expiry(-7);

    let cookie_value = store.store_session(&session).unwrap().unwrap();
    let loaded = store.load_session_at(&cookie_value, -100).unwrap().unwrap();

    assert_eq!(loaded.id(), session.id());
    assert_eq!(loaded.expiry(), Some(-7));
    assert_eq!(loaded.get_value("null"), Some(Value::Null));
    assert_eq!(loaded.get_bool("yes"), Some(true));
    assert_eq!(loaded.get_bool("no"), Some(false));
    assert_eq!(loaded.get_i64("negative"), Some(-42));
    assert_eq!(
        loaded.get_string("text"),
        Some("hé🦀 — 日本語".to_string())
    );
    assert_eq!(loaded.get_string(""), Some(String::new()));
    assert_eq!(loaded.len(), 6);
    assert!(!loaded.data_changed());
    assert_eq!(loaded.into_cookie_value(), None);
}

#[test]
fn cookie_store_rejects_bad_base64() {
    let store = CookieStore::new();
    let err = store.load_session("@@@not-base64@@@").unwrap_err();
    assert!(matches!(err, CookieStoreError::Base64));
}

#[test]
fn cookie_store_rejects_malformed_bytes() {
    let store = CookieStore::new();
    // "aGVsbG8=" is valid base64 for "hello", which is no session
    let err = store.load_session("aGVsbG8=").unwrap_err();
    assert!(matches!(err, CookieStoreError::Deserialize));
}

#[test]
fn cookie_store_destroy_and_clear_are_no_ops() {
    let store = CookieStore::new();
    let mut session = Session::new();
    assert!(store.destroy_session(&session).is_ok());
    assert!(store.destroy_session(&session).is_ok());
    assert!(store.clear_store().is_ok());
    // the cookie value issued earlier still loads: nothing was removed
    session.insert_value("key", Value::Int(5));
    let cookie_value = store.store_session(&session).unwrap().unwrap();
    assert!(store.clear_store().is_ok());
    let loaded = store.load_session(&cookie_value).unwrap().unwrap();
    assert_eq!(loaded.get_i64("key"), Some(5));
}

#[test]
fn memory_store_is_keyed_by_id_not_by_cookie_value() {
    let mut store = MemoryStore::new();
    let mut session = Session::new();
    let id = session.id().to_string();
    let cookie_value = store.store_session(&mut session).unwrap().unwrap();
    // the id itself is not accepted as a cookie value
    let by_id = store.load_session(&id).unwrap();
    assert!(by_id.is_none() || by_id.unwrap().id() != id);
    // the cookie value is
    assert_eq!(store.load_session(&cookie_value).unwrap().unwrap().id(), id);
}
