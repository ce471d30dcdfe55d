use rcan_testing::irpc::{editor_gate, EditorStep};
use rcan_testing::auth::{
    auth_verdict, check_rcan, handshake_after_lookup, handshake_step, AuthVerdict, HandshakeOutcome, HandshakeStep,
    RcanError, ALPN, REJECT_CODE,
};
use rcan_testing::capset::Caps;
use rcan_testing::id_store::{plan_new_fren, Fren, FrenStore, Status, StoreReply, StoreRequest};
use rcan_testing::irpc::info_reply;
use rcan_testing::token::{Expiry, RcanInfo};

fn key(n: u8) -> [u8; 32] {
    *iroh::SecretKey::from_bytes(&[n; 32]).public().as_bytes()
}

fn raw(n: u8) -> [u8; 32] {
    let mut k = [0u8; 32];
    k[0] = n;
    k
}

fn bad_key() -> [u8; 32] {
    (2u8..=255).map(raw).find(|k| iroh::PublicKey::from_bytes(k).is_err()).expect("some bytes are not a point")
}

fn rcan(issuer: [u8; 32], audience: [u8; 32], caps: Caps, expires: Expiry) -> RcanInfo {
    RcanInfo { issuer, audience, caps, expires, token: vec![7, 7] }
}

fn fren_with(id: [u8; 32], caps: Caps, expires: Expiry) -> Fren {
    let mut f = Fren::new(id, 42);
    f.rcan = Some(rcan(key(1), id, caps, expires));
    f
}

#[test]
fn expiry_is_inclusive() {
    assert!(Expiry::Never.is_valid_at(u64::MAX));
    assert!(Expiry::At(100).is_valid_at(100));
    assert!(Expiry::At(100).is_valid_at(0));
    assert!(!Expiry::At(100).is_valid_at(101));
}

#[test]
fn new_fren_is_seen_without_rcan() {
    let f = Fren::new(raw(3), 99);
    assert_eq!(f.id, raw(3));
    assert_eq!(f.status, Status::Seen);
    assert_eq!(f.created, 99);
    assert!(f.rcan.is_none());
    assert!(!f.can_info());
    assert!(!f.can_sign());
}

#[test]
fn fren_permissions_follow_rcan() {
    let f = fren_with(raw(1), Caps::issue(), Expiry::Never);
    assert!(f.can_info());
    assert!(f.can_sign());
    assert!(f.permits(&Caps::info()));
    let g = fren_with(raw(1), Caps::info(), Expiry::Never);
    assert!(g.can_info());
    assert!(!g.can_sign());
    let h = fren_with(raw(1), Caps::status(), Expiry::Never);
    assert!(!h.can_info());
}

#[test]
fn store_read_after_write() {
    let mut s = FrenStore::new();
    assert!(s.get(&raw(5)).is_none());
    s.set(raw(5), Fren::new(raw(5), 1));
    s.set(raw(2), Fren::new(raw(2), 2));
    assert_eq!(s.get(&raw(5)).unwrap().created, 1);
    assert_eq!(s.get(&raw(2)).unwrap().created, 2);
    s.set(raw(5), Fren::new(raw(5), 3));
    assert_eq!(s.get(&raw(5)).unwrap().created, 3);
    assert_eq!(s.list().len(), 2);
    s.remove(&raw(5));
    assert!(s.get(&raw(5)).is_none());
    assert_eq!(s.get(&raw(2)).unwrap().created, 2);
    s.remove(&raw(9));
    assert_eq!(s.list().len(), 1);
}

#[test]
fn store_lists_in_key_order() {
    let mut s = FrenStore::new();
    for n in [9u8, 1, 200, 4, 1] {
        s.set(raw(n), Fren::new(raw(n), n as i64));
    }
    let ids: Vec<u8> = s.list().iter().map(|f| f.id[0]).collect();
    assert_eq!(ids, vec![1, 4, 9, 200]);
}

#[test]
fn store_check_needs_a_valid_rcan() {
    let mut s = FrenStore::new();
    s.set(raw(1), fren_with(raw(1), Caps::info(), Expiry::At(1000)));
    s.set(raw(2), Fren::new(raw(2), 0));
    assert!(s.check(&raw(1), 1000));
    assert!(!s.check(&raw(1), 1001));
    assert!(!s.check(&raw(2), 0));
    assert!(!s.check(&raw(3), 0));
}

#[test]
fn store_handles_requests() {
    let mut s = FrenStore::new();
    assert!(matches!(s.handle(StoreRequest::Put(raw(1), fren_with(raw(1), Caps::all(), Expiry::Never)), 5), StoreReply::Done));
    assert!(matches!(s.handle(StoreRequest::Get(raw(1)), 5), StoreReply::Found(Some(f)) if f.id == raw(1)));
    assert!(matches!(s.handle(StoreRequest::Check(raw(1)), 5), StoreReply::Valid(true)));
    assert!(matches!(s.handle(StoreRequest::Check(raw(2)), 5), StoreReply::Valid(false)));
    assert!(matches!(s.handle(StoreRequest::List, 5), StoreReply::Listed(v) if v.len() == 1));
    assert!(matches!(s.handle(StoreRequest::Remove(raw(1)), 5), StoreReply::Done));
    assert!(matches!(s.handle(StoreRequest::Get(raw(1)), 5), StoreReply::Found(None)));
}

#[test]
fn new_fren_does_not_replace_a_known_one() {
    let existing = Some(Fren::new(raw(1), 1));
    assert!(plan_new_fren(&existing, raw(1), rcan(key(1), raw(1), Caps::info(), Expiry::Never), 2).is_none());
    let planned = plan_new_fren(&None, raw(1), rcan(key(1), raw(1), Caps::info(), Expiry::Never), 2).unwrap();
    assert_eq!(planned.id, raw(1));
    assert_eq!(planned.created, 2);
    assert_eq!(planned.status, Status::Seen);
    assert!(planned.can_info());
}

#[test]
fn rcan_check() {
    let me = key(1);
    let peer = key(2);
    let good = rcan(me, peer, Caps::info(), Expiry::At(50));
    assert_eq!(check_rcan(&good, &peer, &me, 50), Ok(()));
    assert_eq!(check_rcan(&good, &peer, &me, 51), Err(RcanError::Refused));
    assert_eq!(check_rcan(&good, &key(3), &me, 10), Err(RcanError::Refused));
    assert_eq!(check_rcan(&good, &peer, &key(3), 10), Err(RcanError::Refused));
    let bad = rcan(me, bad_key(), Caps::info(), Expiry::Never);
    assert_eq!(check_rcan(&bad, &peer, &me, 10), Err(RcanError::BadKey));
    let bad_issuer = rcan(bad_key(), peer, Caps::info(), Expiry::Never);
    assert_eq!(check_rcan(&bad_issuer, &peer, &me, 10), Err(RcanError::BadKey));
}

#[test]
fn auth_verdicts() {
    let me = key(1);
    let peer = key(2);
    let good = rcan(me, peer, Caps::info(), Expiry::Never);
    assert_eq!(auth_verdict(Some(&good), &peer, &me, 0), AuthVerdict::Admit);
    assert_eq!(auth_verdict(Some(&good), &key(4), &me, 0), AuthVerdict::Refuse);
    assert_eq!(auth_verdict(None, &peer, &me, 0), AuthVerdict::Forget);
    assert_eq!(AuthVerdict::Admit.reply(), 1);
    assert_eq!(AuthVerdict::Refuse.reply(), 0);
    assert_eq!(AuthVerdict::Forget.reply(), 0);
}

#[test]
fn handshake_decisions() {
    assert_eq!(&ALPN, b"rcan/auth/0");
    assert!(matches!(handshake_step(b"rcan/auth/0", false), HandshakeStep::Decided(HandshakeOutcome::Accept)));
    assert!(matches!(handshake_step(b"rcan/editor/0", true), HandshakeStep::Decided(HandshakeOutcome::Accept)));
    assert!(matches!(handshake_step(b"rcan/editor/0", false), HandshakeStep::LookupPeer));
    assert!(matches!(handshake_after_lookup(true), HandshakeOutcome::Accept));
    match handshake_after_lookup(false) {
        HandshakeOutcome::Reject { error_code, reason } => {
            assert_eq!(error_code, 55);
            assert_eq!(error_code, REJECT_CODE);
            assert_eq!(reason, b"unauthenticated".to_vec());
        }
        HandshakeOutcome::Accept => panic!("unknown peer accepted"),
    }
}

#[test]
fn editor_answers_info_by_permission() {
    assert_eq!(&rcan_testing::irpc::ALPN, b"rcan/editor/0");
    let f = fren_with(raw(1), Caps::issue(), Expiry::Never);
    assert_eq!(info_reply(&f, "fnord".to_string()), Ok("fnord".to_string()));
    let g = fren_with(raw(1), Caps::status(), Expiry::Never);
    assert_eq!(info_reply(&g, "fnord".to_string()), Err("No info permission".to_string()));
    assert_eq!(info_reply(&Fren::new(raw(1), 0), "x".to_string()), Err("No info permission".to_string()));
}

#[test]
fn admitted_peer_then_passes_check() {
    let me = key(1);
    let peer = key(2);
    let presented = rcan(me, peer, Caps::info(), Expiry::At(100));
    assert_eq!(auth_verdict(Some(&presented), &peer, &me, 10), AuthVerdict::Admit);
    let mut store = FrenStore::new();
    let existing = store.get(&peer);
    let planned = plan_new_fren(&existing, peer, presented, 7).unwrap();
    store.set(peer, planned);
    assert!(store.check(&peer, 10));
    assert!(store.check(&peer, 100));
    assert!(!store.check(&peer, 101));
    // a second admission keeps the first record
    let again = rcan(me, peer, Caps::all(), Expiry::Never);
    assert!(plan_new_fren(&store.get(&peer), peer, again, 8).is_none());
    assert_eq!(store.get(&peer).unwrap().created, 7);
}

#[test]
fn editor_gate_closes_unchecked_peers() {
    assert!(matches!(editor_gate(true), EditorStep::Serve));
    match editor_gate(false) {
        EditorStep::Close { code, reason } => {
            assert_eq!(code, 1);
            assert_eq!(reason, b"invalid message".to_vec());
        }
        EditorStep::Serve => panic!("unchecked peer served"),
    }
}
