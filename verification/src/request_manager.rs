//! The rate-limited request client, as far as it decides: what to do with the
//! status of each response, and how long to wait.
//!
//! The caller builds a fresh request for every attempt, puts the header of
//! [`RequestManager::authorization`] on it, sends it and reports the status.
//! A throttled call is tried again for ever; its delay starts at half a second
//! and doubles with every further throttled attempt. A delay of about a second
//! or more is also kept as the cool-down that every later call starts with,
//! until some call succeeds.

use crate::text::join;
use vstd::prelude::*;

verus! {

/// The delay after the first throttled attempt of a call, in milliseconds.
pub const FIRST_WAIT_MS: u64 = 500;

/// The least delay, in milliseconds, that is kept as the cool-down of later
/// calls.
pub const KEPT_FROM_MS: u64 = 950;

/// The status of a throttled request.
pub const TOO_MANY_REQUESTS: u16 = 429;

/// The state that all calls share.
#[derive(Debug, Clone, PartialEq, Eq)]
pub struct RequestManager {
    /// The value of the `Authorization` header of every request.
    pub authorization: String,
    /// The cool-down in seconds that a call starts with.
    pub backoff_secs: u64,
}

/// The state of one call.
#[derive(Debug, Clone, Copy, PartialEq, Eq)]
pub struct Call {
    /// The delay in milliseconds after the next throttled attempt.
    pub wait_ms: u64,
    /// How many responses the call has had.
    pub attempts: u64,
}

/// What to do after a response.
#[derive(Debug, Clone, Copy, PartialEq, Eq)]
pub enum Verdict {
    /// The call has succeeded: hand the response to the caller.
    Success,
    /// The request was throttled: wait for so many milliseconds and send a
    /// fresh request.
    Retry(u64),
    /// The request was refused: the run ends.
    Failure,
}

/// A status of the class 2xx.
pub open spec fn is_success(status: u16) -> bool {
    200 <= status < 300
}

/// Twice a delay, or the greatest delay where that is less.
pub open spec fn doubled(ms: u64) -> u64 {
    if ms <= u64::MAX / 2 {
        (2 * ms) as u64
    } else {
        u64::MAX
    }
}

/// A delay in whole seconds, a half rounded up.
pub open spec fn whole_seconds(ms: u64) -> u64 {
    ((ms + 500) / 1000) as u64
}

/// One more than a count, or the greatest count.
pub open spec fn one_more(n: u64) -> u64 {
    if n < u64::MAX {
        (n + 1) as u64
    } else {
        n
    }
}

/// The cool-down, the state of the call and the verdict after a response.
///
/// Success ends the call and resets the cool-down. A throttled attempt waits
/// for the delay of the call and doubles it; a delay from [`KEPT_FROM_MS`] on
/// raises the cool-down to that delay in whole seconds, and never lowers it.
/// Any other status ends the call as a failure and changes nothing else.
pub open spec fn respond(backoff: u64, call: Call, status: u16) -> (u64, Call, Verdict) {
    let counted = Call { attempts: one_more(call.attempts), ..call };
    if is_success(status) {
        (0, counted, Verdict::Success)
    } else if status == TOO_MANY_REQUESTS {
        (
            if call.wait_ms >= KEPT_FROM_MS && whole_seconds(call.wait_ms) > backoff {
                whole_seconds(call.wait_ms)
            } else {
                backoff
            },
            Call { wait_ms: doubled(call.wait_ms), ..counted },
            Verdict::Retry(call.wait_ms),
        )
    } else {
        (backoff, counted, Verdict::Failure)
    }
}

impl RequestManager {
    /// The client of an API key: it authenticates as `Token` and the key, and
    /// starts without a cool-down.
    pub fn new(authorization: &str) -> (r: RequestManager)
        ensures
            r.authorization@ == "Token "@ + authorization@,
            r.backoff_secs == 0,
    {
        RequestManager { authorization: join("Token ", authorization), backoff_secs: 0 }
    }

    /// Starts a call. Returns its state and the seconds to wait before its
    /// first attempt, which are the cool-down.
    pub fn begin(&self) -> (r: (Call, u64))
        ensures
            r.0 == (Call { wait_ms: FIRST_WAIT_MS, attempts: 0 }),
            r.1 == self.backoff_secs,
    {
        (Call { wait_ms: FIRST_WAIT_MS, attempts: 0 }, self.backoff_secs)
    }

    /// Takes the status of a response and says what to do.
    pub fn on_response(&mut self, call: &mut Call, status: u16) -> (r: Verdict)
        ensures
            (final(self).backoff_secs, *final(call), r) == respond(
                old(self).backoff_secs,
                *old(call),
                status,
            ),
            final(self).authorization == old(self).authorization,
    {
        if call.attempts < u64::MAX {
            call.attempts = call.attempts + 1;
        }
        if 200 <= status && status < 300 {
            self.backoff_secs = 0;
            Verdict::Success
        } else if status == TOO_MANY_REQUESTS {
            let wait = call.wait_ms;
            if wait >= KEPT_FROM_MS {
                let secs = if wait % 1000 >= 500 {
                    wait / 1000 + 1
                } else {
                    wait / 1000
                };
                assert(secs == whole_seconds(wait));
                if secs > self.backoff_secs {
                    self.backoff_secs = secs;
                }
            }
            call.wait_ms = if wait <= u64::MAX / 2 {
                2 * wait
            } else {
                u64::MAX
            };
            Verdict::Retry(wait)
        } else {
            Verdict::Failure
        }
    }
}

/// The delay after the throttled attempt number `i` of a call, counted from 0.
pub open spec fn wait_at(i: nat) -> u64
    decreases i,
{
    if i == 0 {
        FIRST_WAIT_MS
    } else {
        doubled(wait_at((i - 1) as nat))
    }
}

/// Two to the power of `i`.
pub open spec fn two_to(i: nat) -> nat
    decreases i,
{
    if i == 0 {
        1
    } else {
        2 * two_to((i - 1) as nat)
    }
}

/// Doubling. The delay after throttled attempt `i` is half a second doubled
/// `i` times, and each delay is twice the one before, for as long as that
/// many milliseconds can be counted; from there on the delay stays at the
/// greatest one.
pub proof fn lemma_delays_double(i: nat)
    ensures
        FIRST_WAIT_MS * two_to(i) <= u64::MAX ==> wait_at(i) == FIRST_WAIT_MS * two_to(i),
        2 * wait_at(i) <= u64::MAX ==> wait_at(i + 1) == 2 * wait_at(i),
        2 * wait_at(i) > u64::MAX ==> wait_at(i + 1) == u64::MAX,
        wait_at(0) == FIRST_WAIT_MS,
    decreases i,
{
    assert(wait_at(i + 1) == doubled(wait_at(i)));
    if i > 0 {
        lemma_delays_double((i - 1) as nat);
        assert(two_to(i) == 2 * two_to((i - 1) as nat));
        assert(wait_at(i) == doubled(wait_at((i - 1) as nat)));
    }
}

/// The cool-down and the state of a call after `n` throttled attempts in a
/// row.
pub open spec fn throttled(backoff: u64, call: Call, n: nat) -> (u64, Call)
    decreases n,
{
    if n == 0 {
        (backoff, call)
    } else {
        let before = throttled(backoff, call, (n - 1) as nat);
        let after = respond(before.0, before.1, TOO_MANY_REQUESTS);
        (after.0, after.1)
    }
}

/// Backoff of a call that is throttled `n` times and then succeeds, whatever
/// the cool-down was when it began.
///
/// The call makes exactly `n + 1` attempts. Attempt `i` is answered with a
/// retry after the delay `wait_at(i)`, which is half a second for the first
/// and twice the one before for every further one, as far as milliseconds
/// can be counted. The delays never decrease, and neither does the cool-down
/// while the call is throttled. The success comes without a delay and resets
/// the cool-down, so the next call begins without waiting.
pub proof fn lemma_backoff(backoff: u64, n: nat, last: u16)
    requires
        is_success(last),
        n < u64::MAX,
    ensures
        forall|i: nat|
            i < n ==> (#[trigger] respond(
                throttled(backoff, Call { wait_ms: FIRST_WAIT_MS, attempts: 0 }, i).0,
                throttled(backoff, Call { wait_ms: FIRST_WAIT_MS, attempts: 0 }, i).1,
                TOO_MANY_REQUESTS,
            )).2 == Verdict::Retry(wait_at(i)),
        forall|i: nat| wait_at(i) <= #[trigger] wait_at(i + 1),
        wait_at(0) == FIRST_WAIT_MS,
        forall|i: nat| 2 * wait_at(i) <= u64::MAX ==> #[trigger] wait_at(i + 1) == 2 * wait_at(i),
        forall|i: nat|
            i < n ==> throttled(backoff, Call { wait_ms: FIRST_WAIT_MS, attempts: 0 }, i).0
                <= (#[trigger] throttled(
                backoff,
                Call { wait_ms: FIRST_WAIT_MS, attempts: 0 },
                i + 1,
            )).0,
        ({
            let state = throttled(backoff, Call { wait_ms: FIRST_WAIT_MS, attempts: 0 }, n);
            let end = respond(state.0, state.1, last);
            &&& end.2 == Verdict::Success
            &&& end.1.attempts == n + 1
            &&& end.0 == 0
        }),
{
    let fresh = Call { wait_ms: FIRST_WAIT_MS, attempts: 0 };
    assert forall|i: nat| i < n implies (#[trigger] respond(
        throttled(backoff, fresh, i).0,
        throttled(backoff, fresh, i).1,
        TOO_MANY_REQUESTS,
    )).2 == Verdict::Retry(wait_at(i)) by {
        lemma_throttled(backoff, i);
    }
    assert forall|i: nat| wait_at(i) <= #[trigger] wait_at(i + 1) by {
        assert(wait_at(i + 1) == doubled(wait_at(i)));
    }
    assert forall|i: nat| 2 * wait_at(i) <= u64::MAX implies #[trigger] wait_at(i + 1) == 2
        * wait_at(i) by {
        lemma_delays_double(i);
    }
    assert forall|i: nat| i < n implies throttled(backoff, fresh, i).0 <= (#[trigger] throttled(
        backoff,
        fresh,
        i + 1,
    )).0 by {
        assert(throttled(backoff, fresh, i + 1).0 == respond(
            throttled(backoff, fresh, i).0,
            throttled(backoff, fresh, i).1,
            TOO_MANY_REQUESTS,
        ).0);
    }
    lemma_throttled(backoff, n);
}

/// After `n` throttled attempts a call has had `n` responses and waits for
/// `wait_at(n)` next.
pub proof fn lemma_throttled(backoff: u64, n: nat)
    requires
        n < u64::MAX,
    ensures
        throttled(backoff, Call { wait_ms: FIRST_WAIT_MS, attempts: 0 }, n).1 == (Call {
            wait_ms: wait_at(n),
            attempts: n as u64,
        }),
    decreases n,
{
    if n > 0 {
        lemma_throttled(backoff, (n - 1) as nat);
    }
}

} // verus!
