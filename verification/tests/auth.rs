use rustlock::auth::{authentication_outcome, Auth};
use rustlock::secret::Secret;

#[test]
fn test_auth_creation() {
    let auth = Auth::new("test-service".to_string());
    assert_eq!(auth.service_name(), "test-service");

    // Test username retrieval
    let username = auth.get_username();
    assert!(!username.is_empty());
}

#[test]
fn test_pam_authentication_creation() {
    let auth = Auth::new("login".to_string());
    assert_eq!(auth.service_name(), "login");
}

#[test]
fn empty_password_is_rejected() {
    let auth = Auth::new("login".to_string());
    assert_eq!(auth.authenticate(&Secret::new(""), true), Ok(false));
    assert_eq!(auth.authenticate(&Secret::new(""), false), Ok(false));
}

#[test]
fn pam_verdict_decides_a_non_empty_password() {
    let auth = Auth::new("login".to_string());
    assert_eq!(auth.authenticate(&Secret::new("hunter2"), true), Ok(true));
    assert_eq!(auth.authenticate(&Secret::new("hunter2"), false), Ok(false));
}

#[test]
fn missing_username_is_an_error() {
    let outcome = authentication_outcome("", &Secret::new("pw"), true);
    assert_eq!(outcome, Err("Could not determine current username".to_string()));
    assert_eq!(authentication_outcome("alice", &Secret::new("pw"), true), Ok(true));
    assert_eq!(authentication_outcome("alice", &Secret::new("pw"), false), Ok(false));
    assert_eq!(authentication_outcome("alice", &Secret::new(""), true), Ok(false));
}

#[test]
fn secret_keeps_its_text() {
    let s = Secret::new("abc");
    assert_eq!(s.as_str(), "abc");
    assert!(!s.is_empty());
    assert!(Secret::new("").is_empty());
}
