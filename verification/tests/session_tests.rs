use async_session::session::Session;
use async_session::value::Value;
use std::collections::HashSet;

#[test]
fn fresh_session_has_no_expiry_and_a_cookie_value() {
    let session = Session::new();
    assert_eq!(None, session.expiry());
    assert!(!session.data_changed());
    assert!(!session.is_destroyed());
    assert!(session.is_empty());
    assert!(session.into_cookie_value().is_some());
}

#[test]
fn id_matches_cookie_value_derivation() {
    let session = Session::new();
    let id = session.id().to_string();
    let cookie_value = session.into_cookie_value().unwrap();
    assert_eq!(id, Session::id_from_cookie_value(&cookie_value).unwrap());
}

#[test]
fn derive_id_is_deterministic_and_rejects_bad_base64() {
    let session = Session::new();
    let cookie_value = session.into_cookie_value().unwrap();
    let a = Session::id_from_cookie_value(&cookie_value).unwrap();
    let b = Session::id_from_cookie_value(&cookie_value).unwrap();
    assert_eq!(a, b);
    assert!(Session::id_from_cookie_value("@@@not-base64@@@").is_err());
}

#[test]
fn ids_are_collision_free_over_many_sessions() {
    let mut ids: HashSet<String> = HashSet::new();
    for _ in 0..10_000 {
        let session = Session::new();
        ids.insert(session.id().to_string());
    }
    assert_eq!(ids.len(), 10_000);
}

#[test]
fn id_is_a_digest_not_the_secret() {
    let session = Session::new();
    let id = session.id().to_string();
    // base64 of a 256-bit digest is 44 characters with padding
    assert_eq!(id.len(), 44);
    let cookie_value = session.into_cookie_value().unwrap();
    assert_ne!(id, cookie_value);
}

#[test]
fn change_tracking_follows_the_data() {
    let mut session = Session::new();
    assert!(!session.data_changed(), "new session is not changed");

    session.insert_value("key", Value::Int(1));
    assert!(session.data_changed());

    session.reset_data_changed();
    assert_eq!(session.get_i64("key"), Some(1));
    assert!(!session.data_changed());

    session.insert_value("key", Value::Int(2));
    assert!(session.data_changed());
    assert_eq!(session.get_i64("key"), Some(2));

    session.insert_value("key", Value::Int(1));
    assert!(
        session.data_changed(),
        "reverting the data still counts as a change"
    );

    session.reset_data_changed();
    session.remove("nonexistent key");
    assert!(!session.data_changed());
    session.remove("key");
    assert!(session.data_changed());
}

#[test]
fn inserting_an_equal_value_is_a_no_op_on_the_tracker() {
    let mut session = Session::new();
    session.insert_value("key", Value::Str("stable".to_string()));
    session.reset_data_changed();
    session.insert_value("key", Value::Str("stable".to_string()));
    assert!(!session.data_changed());
}

#[test]
fn removing_an_absent_key_never_marks_a_change() {
    let mut session = Session::new();
    session.remove("missing");
    assert!(!session.data_changed());
    session.insert_value("present", Value::Bool(true));
    session.reset_data_changed();
    session.remove("present");
    assert!(session.data_changed());
    assert_eq!(session.get_value("present"), None);
}

#[test]
fn take_value_returns_what_was_there() {
    let mut session = Session::new();
    session.insert_value("key", Value::Str("value".to_string()));
    let took = session.take_value("key").unwrap();
    assert_eq!(took, Value::Str("value".to_string()));
    assert!(session.get_value("key").is_none());
    assert_eq!(session.len(), 0);
    assert_eq!(session.take_value("key"), None);
}

#[test]
fn typed_getters_swallow_shape_mismatches() {
    let mut session = Session::new();
    session.insert_value("n", Value::Int(7));
    session.insert_value("s", Value::Str("seven".to_string()));
    session.insert_value("b", Value::Bool(false));
    session.insert_value("z", Value::Null);
    assert_eq!(session.get_i64("n"), Some(7));
    assert_eq!(session.get_string("s"), Some("seven".to_string()));
    assert_eq!(session.get_bool("b"), Some(false));
    assert_eq!(session.get_i64("s"), None);
    assert_eq!(session.get_string("n"), None);
    assert_eq!(session.get_bool("z"), None);
    assert_eq!(session.get_i64("missing"), None);
    assert_eq!(session.len(), 4);
}

#[test]
fn regenerate_rotates_the_identity() {
    let mut session = Session::new();
    let old_id = session.id().to_string();
    session.insert_value("kept", Value::Int(9));
    session.regenerate();
    assert!(session.id() != old_id);
    let new_id = session.id().to_string();
    assert_eq!(session.get_i64("kept"), Some(9));
    let cookie_value = session.into_cookie_value().unwrap();
    assert_eq!(
        new_id,
        Session::id_from_cookie_value(&cookie_value).unwrap()
    );
}

#[test]
fn set_cookie_value_feeds_into_cookie_value() {
    let mut session = Session::new();
    session.set_cookie_value("hello".to_string());
    let cookie_value = session.into_cookie_value().unwrap();
    assert_eq!(cookie_value, "hello".to_string());
}

#[test]
fn the_cookie_value_is_taken_at_most_once() {
    let mut session = Session::new();
    assert!(session.take_cookie_value().is_some());
    assert!(session.take_cookie_value().is_none());
}

#[test]
fn expiry_is_absolute_and_strictly_in_the_past() {
    let mut session = Session::new();
    assert!(!session.is_expired());
    session.set_expiry(0);
    assert!(session.is_expired(), "an expiry at the epoch has passed");
    assert!(!session.is_expired_at(0), "not expired at its own instant");
    assert!(session.is_expired_at(1));
    assert!(!session.is_expired_at(-5));
}

#[test]
fn expire_in_sets_a_future_expiry() {
    let mut session = Session::new();
    assert_eq!(None, session.expiry());
    session.expire_in(100);
    assert!(session.expiry().is_some());
    assert!(!session.is_expired());
}

#[test]
fn expire_in_at_saturates_at_the_largest_timestamp() {
    let mut session = Session::new();
    session.expire_in_at(i64::MAX - 5, 100);
    assert_eq!(session.expiry(), Some(i64::MAX));
    session.expire_in_at(1000, 50);
    assert_eq!(session.expiry(), Some(1050));
}

#[test]
fn expires_in_counts_whole_seconds() {
    let mut session = Session::new();
    assert_eq!(session.expires_in_at(0), None);
    session.set_expiry(1000);
    assert_eq!(session.expires_in_at(400), Some(600));
    assert_eq!(session.expires_in_at(1000), Some(0));
    assert_eq!(session.expires_in_at(1001), None);
    session.expire_in(123);
    let expires_in = session.expires_in().unwrap();
    assert!(123 - expires_in < 2);
}

#[test]
fn validate_discards_expired_sessions() {
    let session = Session::new();
    let mut session = session.validate().unwrap();
    session.expire_in(100);
    let mut session = session.validate().unwrap();
    session.set_expiry(1);
    assert!(session.validate_at(2).is_none());
}

#[test]
fn destroy_only_sets_the_flag() {
    let mut session = Session::new();
    assert!(!session.is_destroyed());
    session.destroy();
    assert!(session.is_destroyed());
}

#[test]
fn from_parts_rehydrates_without_a_cookie_value() {
    let data = vec![
        ("a".to_string(), Value::Int(1)),
        ("b".to_string(), Value::Str("two".to_string())),
    ];
    let session = Session::from_parts("some-id".to_string(), data, Some(42));
    assert_eq!(session.id(), "some-id");
    assert_eq!(session.expiry(), Some(42));
    assert_eq!(session.get_i64("a"), Some(1));
    assert!(!session.data_changed());
    assert_eq!(session.into_cookie_value(), None);
}

#[test]
fn sessions_compare_by_id_alone() {
    let a = Session::new();
    let b = a.clone();
    let c = Session::new();
    assert!(a == b);
    assert!(a != c);
}
