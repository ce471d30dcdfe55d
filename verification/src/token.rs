//! What the library reads of an rcan: who issued it, for whom, what it grants,
//! and until when.

use vstd::prelude::*;

use crate::caps::CapModel;
use crate::capset::Caps;

verus! {

/// When an rcan stops being valid.
#[derive(Clone, Copy, Debug, PartialEq, Eq, Structural)]
pub enum Expiry {
    /// Never expires.
    Never,
    /// Valid up to and including this unix time, in seconds.
    At(u64),
}

impl Expiry {
    /// Whether an rcan with this expiry is valid at unix time `now` (seconds).
    pub open spec fn valid_at(self, now: u64) -> bool {
        match self {
            Expiry::Never => true,
            Expiry::At(expiry) => expiry >= now,
        }
    }

    /// Whether an rcan with this expiry is valid at unix time `now_secs`.
    pub fn is_valid_at(&self, now_secs: u64) -> (r: bool)
        ensures
            r == self.valid_at(now_secs),
    {
        match self {
            Expiry::Never => true,
            Expiry::At(expiry) => *expiry >= now_secs,
        }
    }
}

/// An expiry of `Never` is valid at every time; one `At(t)` is valid at the
/// times up to and including `t`, and at no later time.
pub proof fn lemma_valid_at_exactly(e: Expiry, now: u64)
    ensures
        e is Never ==> e.valid_at(now),
        e matches Expiry::At(t) ==> (e.valid_at(now) <==> now <= t),
{
}

/// An rcan valid at some time is valid at every earlier time.
pub proof fn lemma_valid_earlier(e: Expiry, earlier: u64, later: u64)
    requires
        earlier <= later,
        e.valid_at(later),
    ensures
        e.valid_at(earlier),
{
}

/// The parts of an rcan that the library decides on, and its encoded bytes
/// (which the library carries but does not read).
#[derive(Debug, Clone)]
pub struct RcanInfo {
    /// The issuer's public key.
    pub issuer: [u8; 32],
    /// The audience's public key.
    pub audience: [u8; 32],
    /// The capabilities it grants.
    pub caps: Caps,
    /// When it expires.
    pub expires: Expiry,
    /// The encoded rcan.
    pub token: Vec<u8>,
}

/// The value of an [`RcanInfo`].
pub struct RcanModel {
    pub issuer: Seq<u8>,
    pub audience: Seq<u8>,
    pub caps: Seq<CapModel>,
    pub expires: Expiry,
    pub token: Seq<u8>,
}

impl View for RcanInfo {
    type V = RcanModel;

    open spec fn view(&self) -> RcanModel {
        RcanModel {
            issuer: self.issuer@,
            audience: self.audience@,
            caps: self.caps@,
            expires: self.expires,
            token: self.token@,
        }
    }
}

/// A copy of `bytes`.
pub fn copy_bytes(bytes: &Vec<u8>) -> (r: Vec<u8>)
    ensures
        r@ == bytes@,
{
    let mut r: Vec<u8> = Vec::new();
    let n = bytes.len();
    let mut i: usize = 0;
    while i < n
        invariant
            n == bytes@.len(),
            i <= n,
            r@ =~= bytes@.take(i as int),
        decreases n - i,
    {
        r.push(bytes[i]);
        assert(bytes@.take(i + 1) =~= bytes@.take(i as int).push(bytes@[i as int]));
        i = i + 1;
    }
    assert(bytes@.take(n as int) =~= bytes@);
    r
}

impl RcanInfo {
    /// A copy with the same value.
    pub fn duplicate(&self) -> (r: RcanInfo)
        ensures
            r@ == self@,
    {
        RcanInfo {
            issuer: self.issuer,
            audience: self.audience,
            caps: self.caps.duplicate(),
            expires: self.expires,
            token: copy_bytes(&self.token),
        }
    }
}

} // verus!
