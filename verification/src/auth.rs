//! Admitting peers: checking a presented rcan and deciding on a handshake.

use vstd::prelude::*;

use crate::text::{bytes_equal, same_key};
use crate::token::{RcanInfo, RcanModel};

verus! {

/// ALPN of the rcan authentication service: `rcan/auth/0`.
pub const ALPN: [u8; 11] = [114, 99, 97, 110, 47, 97, 117, 116, 104, 47, 48];

/// `iroh::KeyParsingError`, the error of bytes that are not a public key.
#[verifier::external_type_specification]
#[verifier::external_body]
pub struct ExKeyParsingError(iroh::KeyParsingError);

/// Whether `iroh::PublicKey::from_bytes` accepts `bytes` (they decompress to a
/// valid Ed25519 curve point).
pub uninterp spec fn public_key_accepts(bytes: Seq<u8>) -> bool;

/// Calls `iroh::PublicKey::from_bytes` and hands back the key's bytes. The
/// contract claims that acceptance is a function of the bytes and, as the
/// source shows (the key keeps the compressed point it was given), that an
/// accepted key has exactly the given bytes.
#[verifier::external_body]
fn public_key_from_bytes(bytes: &[u8; 32]) -> (r: Result<[u8; 32], iroh::KeyParsingError>)
    ensures
        r is Ok <==> public_key_accepts(bytes@),
        r matches Ok(k) ==> k@ == bytes@,
{
    match iroh::PublicKey::from_bytes(bytes) {
        Ok(k) => Ok(*k.as_bytes()),
        Err(e) => Err(e),
    }
}

/// Why a presented rcan is not accepted.
#[derive(Clone, Copy, Debug, PartialEq, Eq, Structural)]
pub enum RcanError {
    /// Expired, or not issued by us to the peer that presented it.
    Refused,
    /// A key in it is not a valid public key.
    BadKey,
}

/// The outcome of checking an rcan presented by `remote` to us (`my_id`) at
/// unix time `now`: it must still be valid, addressed to `remote`, and issued
/// by us; its keys are parsed as public keys on the way.
pub open spec fn check_rcan_spec(r: RcanModel, remote: Seq<u8>, my_id: Seq<u8>, now: u64) -> Result<(), RcanError> {
    if !r.expires.valid_at(now) {
        Err(RcanError::Refused)
    } else if !public_key_accepts(r.audience) {
        Err(RcanError::BadKey)
    } else if r.audience != remote {
        Err(RcanError::Refused)
    } else if !public_key_accepts(r.issuer) {
        Err(RcanError::BadKey)
    } else if r.issuer != my_id {
        Err(RcanError::Refused)
    } else {
        Ok(())
    }
}

/// The rcan is valid at `now`, addressed to `remote` and issued by `my_id`.
pub open spec fn rcan_accepted(r: RcanModel, remote: Seq<u8>, my_id: Seq<u8>, now: u64) -> bool {
    r.expires.valid_at(now) && r.audience == remote && r.issuer == my_id
}

/// An rcan is accepted exactly when it is valid at `now`, its audience is the
/// peer that presented it and its issuer is us, and both keys are valid public
/// keys. Any refusal for a bad key comes from a key that is not one.
pub proof fn lemma_check_rcan_exactly(r: RcanModel, remote: Seq<u8>, my_id: Seq<u8>, now: u64)
    ensures
        check_rcan_spec(r, remote, my_id, now) is Ok <==> (r.expires.valid_at(now) && r.audience == remote
            && r.issuer == my_id && public_key_accepts(remote) && public_key_accepts(my_id)),
        check_rcan_spec(r, remote, my_id, now) == Err::<(), RcanError>(RcanError::BadKey) ==> !public_key_accepts(
            r.audience,
        ) || !public_key_accepts(r.issuer),
        !r.expires.valid_at(now) ==> check_rcan_spec(r, remote, my_id, now) == Err::<(), RcanError>(
            RcanError::Refused,
        ),
{
}

/// Checks an rcan presented by `remote` to us (`my_id`) at unix time `now_secs`.
pub fn check_rcan(rcan: &RcanInfo, remote: &[u8; 32], my_id: &[u8; 32], now_secs: u64) -> (r: Result<(), RcanError>)
    ensures
        r == check_rcan_spec(rcan@, remote@, my_id@, now_secs),
        r is Ok ==> rcan_accepted(rcan@, remote@, my_id@, now_secs),
        public_key_accepts(rcan@.audience) && public_key_accepts(rcan@.issuer) ==> (r is Ok <==> rcan_accepted(
            rcan@,
            remote@,
            my_id@,
            now_secs,
        )),
{
    if rcan.expires.is_valid_at(now_secs) {
        let pubkey = match public_key_from_bytes(&rcan.audience) {
            Ok(k) => k,
            Err(_) => return Err(RcanError::BadKey),
        };
        if same_key(remote, &pubkey) {
            let target = match public_key_from_bytes(&rcan.issuer) {
                Ok(k) => k,
                Err(_) => return Err(RcanError::BadKey),
            };
            if same_key(&target, my_id) {
                return Ok(());
            }
        }
    }
    Err(RcanError::Refused)
}

/// What the authentication service does with a presented rcan.
#[derive(Clone, Copy, Debug, PartialEq, Eq, Structural)]
pub enum AuthVerdict {
    /// Record the peer with its rcan and answer 1.
    Admit,
    /// Answer 0.
    Refuse,
    /// The rcan did not decode: forget the peer and answer 0.
    Forget,
}

impl AuthVerdict {
    /// The byte answered to the peer.
    pub fn reply(&self) -> (r: u8)
        ensures
            r == (if *self == AuthVerdict::Admit { 1u8 } else { 0u8 }),
    {
        match self {
            AuthVerdict::Admit => 1,
            _ => 0,
        }
    }
}

/// The verdict on what `remote` presented: `None` when it did not decode as an rcan.
pub fn auth_verdict(decoded: Option<&RcanInfo>, remote: &[u8; 32], my_id: &[u8; 32], now_secs: u64) -> (r: AuthVerdict)
    ensures
        match decoded {
            None => r == AuthVerdict::Forget,
            Some(x) => r == (if check_rcan_spec(x@, remote@, my_id@, now_secs) is Ok {
                AuthVerdict::Admit
            } else {
                AuthVerdict::Refuse
            }),
        },
{
    match decoded {
        Some(d) => match check_rcan(d, remote, my_id, now_secs) {
            Ok(_) => AuthVerdict::Admit,
            Err(_) => AuthVerdict::Refuse,
        },
        None => AuthVerdict::Forget,
    }
}

/// The answer to a finished handshake.
#[derive(Debug)]
pub enum HandshakeOutcome {
    Accept,
    Reject { error_code: u32, reason: Vec<u8> },
}

/// The first decision on a finished handshake.
#[derive(Debug)]
pub enum HandshakeStep {
    Decided(HandshakeOutcome),
    /// Ask the store whether the peer is known, then call [`handshake_after_lookup`].
    LookupPeer,
}

/// The reason given when an unknown peer is turned away: `unauthenticated`.
pub open spec fn unauthenticated() -> Seq<u8> {
    seq![117u8, 110, 97, 117, 116, 104, 101, 110, 116, 105, 99, 97, 116, 101, 100]
}

/// The error code given when an unknown peer is turned away.
pub const REJECT_CODE: u32 = 55;

/// Connections to the authentication service and outgoing connections are
/// accepted at once; any other incoming connection waits on a lookup of the peer.
pub fn handshake_step(alpn: &[u8], is_client: bool) -> (r: HandshakeStep)
    ensures
        (alpn@ == ALPN@ || is_client) ==> r matches HandshakeStep::Decided(HandshakeOutcome::Accept),
        !(alpn@ == ALPN@ || is_client) ==> r is LookupPeer,
{
    if bytes_equal(alpn, ALPN.as_slice()) {
        return HandshakeStep::Decided(HandshakeOutcome::Accept);
    }
    if is_client {
        return HandshakeStep::Decided(HandshakeOutcome::Accept);
    }
    HandshakeStep::LookupPeer
}

/// A known peer is accepted; an unknown one is rejected with code 55 and the
/// reason `unauthenticated`.
pub fn handshake_after_lookup(known: bool) -> (r: HandshakeOutcome)
    ensures
        known ==> r is Accept,
        !known ==> (r matches HandshakeOutcome::Reject { error_code, reason } && error_code == REJECT_CODE
            && reason@ == unauthenticated()),
{
    if known {
        HandshakeOutcome::Accept
    } else {
        let reason = vec![117u8, 110, 97, 117, 116, 104, 101, 110, 116, 105, 99, 97, 116, 101, 100];
        assert(reason@ =~= unauthenticated());
        HandshakeOutcome::Reject { error_code: REJECT_CODE, reason }
    }
}

} // verus!

verus! {

/// A peer that the authentication service admits, and that the store did not
/// know before, passes the editor's check as long as its rcan stays valid: the
/// store then holds it with the rcan it presented.
pub proof fn lemma_admitted_peer_passes_check(
    m: Map<Seq<u8>, crate::id_store::FrenModel>,
    r: RcanModel,
    remote: Seq<u8>,
    my_id: Seq<u8>,
    now: u64,
    later: u64,
    created: i64,
)
    requires
        check_rcan_spec(r, remote, my_id, now) is Ok,
        !m.contains_key(remote),
        r.expires.valid_at(later),
    ensures
        crate::id_store::check_spec(crate::id_store::after_new_fren(m, remote, r, created), remote, now),
        crate::id_store::check_spec(crate::id_store::after_new_fren(m, remote, r, created), remote, later),
{
}

} // verus!
