use rule_builder::cookie::extract_session_id;
use rule_builder::session::{SESSION_DURATION_SECS, Session, SessionStore};

#[test]
fn a_new_session_expires_one_duration_after_creation() {
    let s = Session::new("alice".to_string(), 1_000);
    assert_eq!(s.username, "alice".to_string());
    assert_eq!(s.created_at, 1_000);
    assert_eq!(s.expires_at, 1_000 + SESSION_DURATION_SECS);
}

#[test]
fn expiry_boundary() {
    let s = Session::new("alice".to_string(), 1_000);
    assert!(!s.is_expired(1_000));
    assert!(!s.is_expired(1_000 + SESSION_DURATION_SECS - 1));
    assert!(s.is_expired(1_000 + SESSION_DURATION_SECS));
    assert!(s.is_expired(1_000 + SESSION_DURATION_SECS + 1));
}

#[test]
fn created_session_is_retrievable_until_expiry_and_absent_after() {
    let mut store = SessionStore::new();
    let t = 50_000;
    let sid = store.create_session("bob".to_string(), t);
    let got = store.get_session(&sid, t + SESSION_DURATION_SECS - 1);
    assert_eq!(got.map(|s| s.username), Some("bob".to_string()));
    assert!(store.get_session(&sid, t + SESSION_DURATION_SECS).is_none());
    // The expired entry was evicted on lookup.
    assert!(store.get_session(&sid, t).is_none());
}

#[test]
fn unknown_session_id_finds_nothing() {
    let mut store = SessionStore::new();
    assert!(store.get_session("nope", 0).is_none());
}

#[test]
fn deleted_session_is_gone() {
    let mut store = SessionStore::new();
    let sid = store.create_session("carol".to_string(), 10);
    store.delete_session(&sid);
    assert!(store.get_session(&sid, 11).is_none());
}

#[test]
fn cleanup_evicts_only_expired_sessions() {
    let mut store = SessionStore::new();
    let old_sid = store.create_session("old".to_string(), 0);
    let new_sid = store.create_session("new".to_string(), 10_000);
    store.cleanup_expired(SESSION_DURATION_SECS);
    assert!(store.get_session(&old_sid, 10_000).is_none());
    let kept = store.get_session(&new_sid, 10_000);
    assert_eq!(kept.map(|s| s.username), Some("new".to_string()));
}

#[test]
fn session_ids_differ_between_sessions() {
    let mut store = SessionStore::new();
    let a = store.create_session("a".to_string(), 0);
    let b = store.create_session("b".to_string(), 0);
    assert_ne!(a, b);
}

#[test]
fn cookie_header_with_one_cookie() {
    assert_eq!(extract_session_id("session_id=abc123"), Some("abc123".to_string()));
}

#[test]
fn cookie_header_with_several_cookies_and_spaces() {
    assert_eq!(
        extract_session_id("theme=dark; session_id=xyz; lang=en"),
        Some("xyz".to_string())
    );
    assert_eq!(extract_session_id("  session_id=trimmed  "), Some("trimmed".to_string()));
}

#[test]
fn cookie_header_without_the_session_cookie() {
    assert_eq!(extract_session_id("theme=dark; lang=en"), None);
    assert_eq!(extract_session_id(""), None);
    assert_eq!(extract_session_id("session_id"), None);
    assert_eq!(extract_session_id("session_idx=1"), None);
}

#[test]
fn cookie_value_keeps_later_equals_signs() {
    assert_eq!(extract_session_id("session_id=a=b"), Some("a=b".to_string()));
}
