//! The client side of authentication: presenting an rcan and retrying.

use vstd::prelude::*;

verus! {

/// How many failed attempts a login makes before it gives up.
pub const MAX_FAIL: i32 = 5;

/// A client of the authentication service of the endpoint `target`, reached
/// through `endpoint`, presenting the encoded rcan `rcan`.
#[derive(Debug)]
pub struct AuthClient<E, K> {
    endpoint: E,
    target: K,
    rcan: String,
    authed: bool,
}

/// Why an authentication attempt failed.
#[derive(Clone, Copy, Debug, PartialEq, Eq, Structural)]
pub enum AuthFailed {
    /// The service answered something other than 1.
    Refused,
}

impl<E, K> AuthClient<E, K> {
    pub closed spec fn spec_endpoint(&self) -> E {
        self.endpoint
    }

    pub closed spec fn spec_target(&self) -> K {
        self.target
    }

    pub closed spec fn spec_rcan(&self) -> Seq<char> {
        self.rcan@
    }

    pub closed spec fn spec_authed(&self) -> bool {
        self.authed
    }

    /// A client that has not authenticated yet.
    pub fn new(endpoint: E, target: K, rcan: String) -> (r: Self)
        ensures
            r.spec_endpoint() == endpoint,
            r.spec_target() == target,
            r.spec_rcan() == rcan@,
            !r.spec_authed(),
    {
        AuthClient { endpoint, target, rcan, authed: false }
    }

    /// The endpoint the client connects through.
    pub fn endpoint(&self) -> (r: &E)
        ensures
            *r == self.spec_endpoint(),
    {
        &self.endpoint
    }

    /// The endpoint the client authenticates to.
    pub fn target(&self) -> (r: &K)
        ensures
            *r == self.spec_target(),
    {
        &self.target
    }

    /// The encoded rcan the client presents.
    pub fn rcan(&self) -> (r: &String)
        ensures
            r@ == self.spec_rcan(),
    {
        &self.rcan
    }

    /// Whether the client has authenticated.
    pub fn connected(&self) -> (r: bool)
        ensures
            r == self.spec_authed(),
    {
        self.authed
    }

    /// Takes the service's one-byte answer: 1 authenticates the client, any
    /// other answer is a failure and changes nothing.
    pub fn finish_auth(&mut self, reply: u8) -> (r: Result<(), AuthFailed>)
        ensures
            final(self).spec_endpoint() == old(self).spec_endpoint(),
            final(self).spec_target() == old(self).spec_target(),
            final(self).spec_rcan() == old(self).spec_rcan(),
            reply == 1 ==> r is Ok && final(self).spec_authed(),
            reply != 1 ==> r == Err::<(), AuthFailed>(AuthFailed::Refused) && final(self).spec_authed() == old(
                self,
            ).spec_authed(),
    {
        if reply == 1 {
            self.authed = true;
            Ok(())
        } else {
            Err(AuthFailed::Refused)
        }
    }
}

/// What a login does after an attempt.
#[derive(Clone, Copy, Debug, PartialEq, Eq, Structural)]
pub enum LoginStep {
    /// The attempt succeeded.
    Done,
    /// The attempt failed; try again.
    Retry,
    /// The attempt failed for the last allowed time.
    GiveUp,
}

/// The failed attempts of one login.
#[derive(Debug)]
pub struct LoginAttempts {
    failures: i32,
}

/// The failure count and step after an attempt that succeeded (`ok`) or not.
pub open spec fn login_step_spec(failures: i32, ok: bool) -> (i32, LoginStep) {
    if ok {
        (failures, LoginStep::Done)
    } else if failures + 1 >= MAX_FAIL {
        (MAX_FAIL, LoginStep::GiveUp)
    } else {
        ((failures + 1) as i32, LoginStep::Retry)
    }
}

/// The failure count and last step after `n` failed attempts from the start.
pub open spec fn after_failures(n: nat) -> (i32, LoginStep)
    decreases n,
{
    if n == 0 {
        (0, LoginStep::Retry)
    } else {
        login_step_spec(after_failures((n - 1) as nat).0, false)
    }
}

impl LoginAttempts {
    #[verifier::type_invariant]
    closed spec fn bounded(self) -> bool {
        0 <= self.failures <= MAX_FAIL
    }

    pub closed spec fn failures(&self) -> i32 {
        self.failures
    }

    /// A login that has not failed yet.
    pub fn new() -> (r: LoginAttempts)
        ensures
            r.failures() == 0,
    {
        LoginAttempts { failures: 0 }
    }

    /// Records an attempt and says what to do next.
    pub fn record(&mut self, ok: bool) -> (r: LoginStep)
        ensures
            (final(self).failures(), r) == login_step_spec(old(self).failures(), ok),
    {
        proof {
            use_type_invariant(&*self);
        }
        if ok {
            return LoginStep::Done;
        }
        if self.failures + 1 >= MAX_FAIL {
            self.failures = MAX_FAIL;
            LoginStep::GiveUp
        } else {
            self.failures = self.failures + 1;
            LoginStep::Retry
        }
    }
}

/// A successful attempt ends the login, however many attempts failed before
/// it; a failed attempt never ends it successfully, and a failure that leaves
/// fewer than `MAX_FAIL` (five) failures is retried.
pub proof fn lemma_login_step(failures: i32)
    requires
        0 <= failures <= MAX_FAIL,
    ensures
        MAX_FAIL == 5,
        login_step_spec(failures, true) == (failures, LoginStep::Done),
        login_step_spec(failures, false).1 != LoginStep::Done,
        failures + 1 < MAX_FAIL ==> login_step_spec(failures, false).0 == failures + 1
            && login_step_spec(failures, false).1 == LoginStep::Retry,
        failures + 1 >= MAX_FAIL ==> login_step_spec(failures, false).1 == LoginStep::GiveUp,
{
}

/// A login retries after each of its first four failures and gives up at the
/// fifth: it makes at most `MAX_FAIL` attempts.
pub proof fn lemma_login_gives_up_at_max(n: nat)
    requires
        1 <= n <= MAX_FAIL,
    ensures
        after_failures(n).0 == n,
        (after_failures(n).1 == LoginStep::GiveUp) == (n == MAX_FAIL),
        after_failures(n).1 != LoginStep::Done,
    decreases n,
{
    assert(after_failures(0).0 == 0);
    if n > 1 {
        lemma_login_gives_up_at_max((n - 1) as nat);
    }
    assert(after_failures(n) == login_step_spec(after_failures((n - 1) as nat).0, false));
}

} // verus!
