use vstd::prelude::*;

use crate::assoc::{has_key, set_val, val_of};
use crate::entities::{GoogleRefreshResp, UserV};
use crate::store::{State, StateV};

verus! {

/// Seconds before expiry at which a credential refresh is attempted.
pub const REFRESH_MARGIN_SECS: u64 = 60;

/// The least delay before retrying after a failed refresh exchange, so a
/// zero-length computed wait cannot become a tight retry loop.
pub const MIN_RETRY_DELAY_SECS: u64 = 5;

/// The wait until sixty seconds before expiry, clamped to zero when that
/// moment has passed.
pub open spec fn spec_refresh_delay(expires_at: u64, now: u64) -> u64 {
    if expires_at >= now + REFRESH_MARGIN_SECS {
        (expires_at - now - REFRESH_MARGIN_SECS) as u64
    } else {
        0
    }
}

/// Computes the refresh task's wait for an account expiring at
/// `expires_at`.
pub fn refresh_delay(expires_at: u64, now: u64) -> (r: u64)
    ensures
        r == spec_refresh_delay(expires_at, now),
{
    let after_now = if expires_at >= now {
        expires_at - now
    } else {
        0
    };
    if after_now >= REFRESH_MARGIN_SECS {
        after_now - REFRESH_MARGIN_SECS
    } else {
        0
    }
}

/// What one refresh attempt decided: how many coalesced persistence writes
/// to request (one per applied refresh, zero otherwise) and, after a
/// failure, how long to wait before the retry.
#[derive(Debug, Clone, Copy)]
pub struct RefreshOutcome {
    pub persist_requests: u64,
    pub retry_in: Option<u64>,
}

impl State {
    /// Finishes one refresh attempt. A successful exchange replaces the
    /// account's access token and expiry and requests exactly one
    /// coalesced persistence write; a failed one changes nothing and asks
    /// the loop to wait at least the minimum retry delay; an account that
    /// vanished ends its loop with no action.
    pub fn complete_refresh(
        &mut self,
        token: &String,
        exchange: Option<GoogleRefreshResp>,
        now: u64,
    ) -> (r: RefreshOutcome)
        requires
            old(self)@.wf(),
            now < 0x4000_0000_0000_0000,
            exchange matches Some(g) ==> g.expires_in < 0x4000_0000_0000_0000,
        ensures
            final(self)@.wf(),
            !has_key(old(self)@.users, token@) ==> final(self)@ == old(self)@
                && r.persist_requests == 0 && r.retry_in is None,
            has_key(old(self)@.users, token@) && exchange is Some ==> ({
                let g = exchange.unwrap();
                let u0 = val_of(old(self)@.users, token@);
                let u1 = UserV {
                    access_token: g.access_token@,
                    expires_at: (g.expires_in + now) as u64,
                    ..u0
                };
                &&& final(self)@ == (StateV {
                    users: set_val(old(self)@.users, token@, u1),
                    ..old(self)@
                })
                &&& r.persist_requests == 1
                &&& r.retry_in is None
            }),
            has_key(old(self)@.users, token@) && exchange is None ==> ({
                let u0 = val_of(old(self)@.users, token@);
                &&& final(self)@ == old(self)@
                &&& r.persist_requests == 0
                &&& r.retry_in == Some(
                    if spec_refresh_delay(u0.expires_at, now) >= MIN_RETRY_DELAY_SECS {
                        spec_refresh_delay(u0.expires_at, now)
                    } else {
                        MIN_RETRY_DELAY_SECS
                    },
                )
            }),
    {
        let expires_at = match self.check_auth(token) {
            Some(u) => u.expires_at,
            None => {
                proof {
                    assert(self@ =~= old(self)@);
                }
                return RefreshOutcome { persist_requests: 0, retry_in: None };
            },
        };
        match exchange {
            Some(g) => {
                let applied = self.apply_refresh(token, g.access_token, g.expires_in, now);
                proof {
                    assert(applied is Ok);
                }
                RefreshOutcome { persist_requests: 1, retry_in: None }
            },
            None => {
                let d = refresh_delay(expires_at, now);
                let wait = if d >= MIN_RETRY_DELAY_SECS {
                    d
                } else {
                    MIN_RETRY_DELAY_SECS
                };
                proof {
                    assert(self@ =~= old(self)@);
                }
                RefreshOutcome { persist_requests: 0, retry_in: Some(wait) }
            },
        }
    }
}

} // verus!
