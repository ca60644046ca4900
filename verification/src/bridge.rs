//! The execution bridge's interrupt race, and the client session state.
//!
//! The bridge runs every blocking call as a race: the operation is
//! driven to completion while a poller checks for an external interrupt
//! on a fixed interval. Whichever finishes first wins; an interrupt
//! abandons the operation and the caller unwinds, while the client and
//! every handle stay usable. The race itself is run by the runtime
//! outside this crate; the decision — who won, and when an interrupt is
//! observed — is the pure function verified here, over a common clock
//! in which polls happen at one poll interval, two intervals, and so
//! on.

use vstd::prelude::*;
use vstd::arithmetic::div_mod::{lemma_fundamental_div_mod, lemma_mod_bound};

verus! {

/// When the poller first observes an interrupt that arrives at time
/// `t`, with polls at `p`, `2p`, `3p`, ...: the first poll at or after
/// the arrival, and never before the first poll.
pub open spec fn first_poll_at(t: int, p: int) -> int {
    if t <= p {
        p
    } else {
        ((t + p - 1) / p) * p
    }
}

/// Who won the race.
#[derive(Debug, Clone, Copy, PartialEq, Eq, Structural)]
pub enum RaceOutcome {
    /// The operation finished first; its result stands.
    Completed,
    /// The poller observed the interrupt first; the operation was
    /// abandoned and the caller unwinds.
    Interrupted {
        /// The poll tick at which the interrupt was observed.
        observed_at: u64,
    },
}

/// An interrupt is observed at the first poll after it arrives: at
/// most one poll interval of latency, and never before the arrival.
pub proof fn lemma_interrupt_latency(t: int, p: int)
    requires
        p >= 1,
        t >= 0,
    ensures
        t <= first_poll_at(t, p),
        first_poll_at(t, p) <= t + p,
        first_poll_at(t, p) >= p,
{
    if t > p {
        lemma_fundamental_div_mod(t + p - 1, p);
        lemma_mod_bound(t + p - 1, p);
        let q = (t + p - 1) / p;
        let r = (t + p - 1) % p;
        assert(t + p - 1 == p * q + r);
        assert(0 <= r < p);
        assert(first_poll_at(t, p) == q * p);
        assert(q * p == p * q) by (nonlinear_arith);
        assert(p * q == t + p - 1 - r);
    }
}

/// Decide the race from the timeline: when the operation would finish,
/// when (if ever) the interrupt arrives, and the poll interval. The
/// interrupt wins exactly when some poll observes it strictly before
/// the operation finishes; a tie goes to the operation.
pub fn race_outcome(op_done_at: u64, interrupt_at: Option<u64>, poll_every: u64) -> (r:
    RaceOutcome)
    requires
        1 <= poll_every <= 0x7fff_ffff_ffff_ffff,
        op_done_at <= 0x7fff_ffff_ffff_ffff,
        interrupt_at is Some ==> interrupt_at->0 <= 0x7fff_ffff_ffff_ffff,
    ensures
        match interrupt_at {
            Option::None => r is Completed,
            Option::Some(t) => {
                let obs = first_poll_at(t as int, poll_every as int);
                if obs < op_done_at {
                    r == (RaceOutcome::Interrupted { observed_at: obs as u64 })
                } else {
                    r is Completed
                }
            },
        },
{
    match interrupt_at {
        Option::None => RaceOutcome::Completed,
        Option::Some(t) => {
            let obs: u64 = if t <= poll_every {
                poll_every
            } else {
                proof {
                    let x = t as int + poll_every as int - 1;
                    let p = poll_every as int;
                    lemma_fundamental_div_mod(x, p);
                    lemma_mod_bound(x, p);
                    assert(x == p * (x / p) + x % p);
                    assert((x / p) * p == p * (x / p)) by (nonlinear_arith);
                    assert((x / p) * p <= x);
                }
                ((t + poll_every - 1) / poll_every) * poll_every
            };
            proof {
                lemma_interrupt_latency(t as int, poll_every as int);
            }
            if obs < op_done_at {
                RaceOutcome::Interrupted { observed_at: obs }
            } else {
                RaceOutcome::Completed
            }
        },
    }
}

/// Client session authentication. A user token can be set and later
/// cleared; an admin deploy key, once set, is never unset and is not
/// touched by user-token changes.
#[derive(Debug, PartialEq, Eq)]
pub struct ClientAuth {
    /// The user token, absent when logged out.
    pub user_token: Option<String>,
    /// The admin deploy key; setting it is one-way.
    pub admin_token: Option<String>,
}

impl ClientAuth {
    /// A fresh session: no user token, no admin key.
    pub fn new() -> (a: ClientAuth)
        ensures
            a.user_token is None,
            a.admin_token is None,
    {
        ClientAuth { user_token: None, admin_token: None }
    }

    /// Set the user token, or clear it by passing nothing; the admin
    /// key is untouched either way.
    pub fn set_auth(&mut self, token: Option<String>)
        ensures
            final(self).user_token == token,
            final(self).admin_token == old(self).admin_token,
    {
        self.user_token = token;
    }

    /// Set the admin deploy key. One-way: nothing in this session ever
    /// clears it again. The user token is untouched.
    pub fn set_admin_auth(&mut self, token: String)
        ensures
            final(self).admin_token == Some(token),
            final(self).user_token == old(self).user_token,
    {
        self.admin_token = Some(token);
    }
}

} // verus!
