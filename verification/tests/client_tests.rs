use rcan_testing::capstack::CapStack;
use rcan_testing::connect::{AuthClient, AuthFailed, LoginAttempts, LoginStep, MAX_FAIL};
use rcan_testing::id_db::{turso_url, EndPointStatus, FrenProxy};

#[test]
fn auth_client_starts_unauthenticated() {
    let c = AuthClient::new("endpoint", 7u8, "token".to_string());
    assert!(!c.connected());
    assert_eq!(*c.endpoint(), "endpoint");
    assert_eq!(*c.target(), 7);
    assert_eq!(c.rcan(), "token");
}

#[test]
fn auth_reply_one_authenticates() {
    let mut c = AuthClient::new((), 1u8, String::new());
    assert_eq!(c.finish_auth(0), Err(AuthFailed::Refused));
    assert!(!c.connected());
    assert_eq!(c.finish_auth(2), Err(AuthFailed::Refused));
    assert!(!c.connected());
    assert_eq!(c.finish_auth(1), Ok(()));
    assert!(c.connected());
}

#[test]
fn login_gives_up_after_five_failures() {
    assert_eq!(MAX_FAIL, 5);
    let mut a = LoginAttempts::new();
    for _ in 0..4 {
        assert_eq!(a.record(false), LoginStep::Retry);
    }
    assert_eq!(a.record(false), LoginStep::GiveUp);
    let mut b = LoginAttempts::new();
    assert_eq!(b.record(false), LoginStep::Retry);
    assert_eq!(b.record(true), LoginStep::Done);
}

#[test]
fn cap_stack_keeps_order() {
    let s = CapStack::new(1u32, 2u32);
    assert_eq!(s.items(), &vec![1, 2]);
    s.check("key");
    assert_eq!(s.into_items(), vec![1, 2]);
    assert_eq!(CapStack::from_items(vec![3u8]).items(), &vec![3]);
}

#[test]
fn persistent_records() {
    let p = FrenProxy::pending("abc".to_string());
    assert_eq!(p.id, "abc");
    assert_eq!(p.status, EndPointStatus::Pending);
    assert!(p.nickname.is_none());
    assert!(p.secret.is_none());
    assert_eq!(turso_url("/tmp/x.db"), "turso:/tmp/x.db");
}
