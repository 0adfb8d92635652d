use vstd::prelude::*;

use crate::assoc::{
    assoc_contains, assoc_find, assoc_remove, assoc_set, has_key, remove_key, set_val,
    unique_keys, val_of,
};
use crate::broadcast::{
    account_targets, all_targets, Envelope, EnvelopeV, Outbound, OutboundV, SseEvent, SseEventV,
    Subscriber, SubscriberV,
};
use crate::entities::{
    GoogleWebhook, GoogleWebhookV, Patient, PatientV, Secrets, Session, SessionV, SettingsV, User,
    UserV,
};
use crate::remote::{RemoteEvent, RemoteEventV};
use crate::support::generate_token;

verus! {

/// Why a store operation was refused. `Conflict` is a case-insensitive
/// patient-name collision; `NotFound` a dangling identity; `Unauthorized`
/// a token or code the store does not know.
#[derive(Debug, Clone, Copy, PartialEq, Eq, Structural)]
pub enum StoreError {
    Conflict,
    NotFound,
    Unauthorized,
}

/// The mathematical state of the coordination layer: every collection the
/// coordinator owns, plus the broadcast sequence counter.
#[verifier::ext_equal]
pub ghost struct StateV {
    pub patients: Seq<PatientV>,
    pub sessions: Seq<SessionV>,
    pub users: Seq<(Seq<char>, UserV)>,
    pub calendar_webhooks: Seq<(Seq<char>, GoogleWebhookV)>,
    pub sse_tokens: Seq<(Seq<char>, Seq<char>)>,
    pub auth_codes: Seq<(Seq<char>, Seq<char>)>,
    pub event_caches: Seq<(Seq<char>, Seq<RemoteEventV>)>,
    pub sse: Seq<SubscriberV>,
    pub ack: u64,
    pub next_subscriber_id: u64,
}

impl StateV {
    /// The store's structural invariant: every keyed collection denotes a
    /// map (keys pairwise distinct), exactly one account exists per
    /// distinct external email, and subscriber identifiers are pairwise
    /// distinct and below the allocation counter.
    pub open spec fn wf(self) -> bool {
        &&& unique_keys(self.users)
        &&& unique_keys(self.calendar_webhooks)
        &&& unique_keys(self.sse_tokens)
        &&& unique_keys(self.auth_codes)
        &&& unique_keys(self.event_caches)
        &&& (forall|i: int, j: int|
            0 <= i < j < self.users.len() ==> self.users[i].1.user_info.email
                != self.users[j].1.user_info.email)
        &&& (forall|i: int, j: int|
            0 <= i < j < self.sse.len() ==> self.sse[i].id != self.sse[j].id)
        &&& (forall|i: int| 0 <= i < self.sse.len() ==> self.sse[i].id < self.next_subscriber_id)
    }

    /// The same state with the broadcast counter advanced once.
    pub open spec fn bumped(self) -> StateV {
        StateV { ack: (self.ack + 1) as u64, ..self }
    }
}

/// What one global broadcast does: the envelope carries the current
/// counter and goes to every subscriber; the counter advances.
pub open spec fn spec_broadcast(s: StateV, payload: SseEventV) -> (StateV, OutboundV) {
    (
        s.bumped(),
        OutboundV {
            envelope: EnvelopeV { payload: payload, ack: s.ack, socket_ack: None },
            targets: all_targets(s.sse),
        },
    )
}

/// What one account-scoped broadcast does.
pub open spec fn spec_broadcast_to(s: StateV, payload: SseEventV, token: Seq<char>) -> (
    StateV,
    OutboundV,
) {
    (
        s.bumped(),
        OutboundV {
            envelope: EnvelopeV { payload: payload, ack: s.ack, socket_ack: None },
            targets: account_targets(s.sse, token),
        },
    )
}

/// The state coordinator's data. All reads and writes go through one
/// instance; the surrounding runtime serializes them behind one
/// reader-writer lock and, after each mutation, enqueues a coalesced
/// persistence request.
#[derive(Debug)]
pub struct State {
    pub patients: Vec<Patient>,
    pub sessions: Vec<Session>,
    pub users: Vec<(String, User)>,
    pub calendar_webhooks: Vec<(String, GoogleWebhook)>,
    pub sse_tokens: Vec<(String, String)>,
    pub auth_codes: Vec<(String, String)>,
    pub event_caches: Vec<(String, Vec<RemoteEvent>)>,
    pub sse: Vec<Subscriber>,
    pub secrets: Secrets,
    pub ack: u64,
    pub next_subscriber_id: u64,
}

impl View for State {
    type V = StateV;

    open spec fn view(&self) -> StateV {
        StateV {
            patients: self.patients.deep_view(),
            sessions: self.sessions.deep_view(),
            users: self.users.deep_view(),
            calendar_webhooks: self.calendar_webhooks.deep_view(),
            sse_tokens: self.sse_tokens.deep_view(),
            auth_codes: self.auth_codes.deep_view(),
            event_caches: self.event_caches.deep_view(),
            sse: self.sse.deep_view(),
            ack: self.ack,
            next_subscriber_id: self.next_subscriber_id,
        }
    }
}

impl State {
    /// An empty store; loading from a missing snapshot yields this.
    pub fn empty(secrets: Secrets) -> (r: State)
        ensures
            r@.wf(),
            r@.patients.len() == 0,
            r@.sessions.len() == 0,
            r@.users.len() == 0,
            r@.calendar_webhooks.len() == 0,
            r@.sse_tokens.len() == 0,
            r@.auth_codes.len() == 0,
            r@.event_caches.len() == 0,
            r@.sse.len() == 0,
            r@.ack == 0,
            r@.next_subscriber_id == 0,
    {
        State {
            patients: Vec::new(),
            sessions: Vec::new(),
            users: Vec::new(),
            calendar_webhooks: Vec::new(),
            sse_tokens: Vec::new(),
            auth_codes: Vec::new(),
            event_caches: Vec::new(),
            sse: Vec::new(),
            secrets,
            ack: 0,
            next_subscriber_id: 0,
        }
    }

    /// The identifiers of every live subscriber.
    fn collect_all_targets(&self) -> (r: Vec<u64>)
        ensures
            r@ == all_targets(self@.sse),
    {
        let ghost sv = self@.sse;
        let mut out: Vec<u64> = Vec::new();
        let mut i: usize = 0;
        while i < self.sse.len()
            invariant
                sv == self@.sse,
                sv.len() == self.sse@.len(),
                i <= self.sse@.len(),
                out@ =~= all_targets(sv.take(i as int)),
            decreases self.sse@.len() - i,
        {
            out.push(self.sse[i].id);
            proof {
                assert(sv.take(i as int + 1)[i as int] == sv[i as int]);
                assert(sv[i as int] == self.sse@[i as int]@);
                assert(out@ =~= all_targets(sv.take(i as int + 1)));
            }
            i = i + 1;
        }
        proof {
            assert(sv.take(sv.len() as int) =~= sv);
        }
        out
    }

    /// The identifiers of the subscribers that belong to the given account.
    fn collect_account_targets(&self, token: &String) -> (r: Vec<u64>)
        ensures
            r@ == account_targets(self@.sse, token@),
    {
        let ghost sv = self@.sse;
        let ghost p = |s: SubscriberV| s.token == token@;
        let mut out: Vec<u64> = Vec::new();
        let mut i: usize = 0;
        while i < self.sse.len()
            invariant
                sv == self@.sse,
                sv.len() == self.sse@.len(),
                i <= self.sse@.len(),
                p == (|s: SubscriberV| s.token == token@),
                out@ =~= sv.take(i as int).filter(p).map_values(|s: SubscriberV| s.id),
            decreases self.sse@.len() - i,
        {
            proof {
                assert(sv.take(i as int + 1).drop_last() =~= sv.take(i as int));
                assert(sv.take(i as int + 1).last() == sv[i as int]);
                assert(sv[i as int] == self.sse@[i as int]@);
            }
            if self.sse[i].token.eq(token) {
                out.push(self.sse[i].id);
                proof {
                    reveal(Seq::filter);
                    assert(p(sv[i as int]));
                    assert(sv.take(i as int + 1).filter(p) == sv.take(i as int).filter(p).push(
                        sv[i as int],
                    ));
                    assert(out@ =~= sv.take(i as int + 1).filter(p).map_values(
                        |s: SubscriberV| s.id,
                    ));
                }
            } else {
                proof {
                    reveal(Seq::filter);
                    assert(!p(sv[i as int]));
                    assert(sv.take(i as int + 1).filter(p) == sv.take(i as int).filter(p));
                }
            }
            i = i + 1;
        }
        proof {
            assert(sv.take(sv.len() as int) =~= sv);
            assert(account_targets(sv, token@) == sv.filter(p).map_values(|s: SubscriberV| s.id));
        }
        out
    }

    /// Stamps the event with a fresh sequence number for delivery to every
    /// subscriber. The number is the store's current counter, which is
    /// then advanced: sequence numbers strictly increase and never repeat.
    pub fn broadcast(&mut self, payload: SseEvent) -> (r: Outbound)
        requires
            old(self)@.ack < u64::MAX,
        ensures
            final(self)@ == old(self)@.bumped(),
            r@.envelope == (EnvelopeV {
                payload: payload@,
                ack: old(self)@.ack,
                socket_ack: None,
            }),
            r@.targets == all_targets(old(self)@.sse),
    {
        let targets = self.collect_all_targets();
        let ack = self.ack;
        self.ack = self.ack + 1;
        let r = Outbound { envelope: Envelope { payload, ack, socket_ack: None }, targets };
        proof {
            assert(self@ =~= old(self)@.bumped());
        }
        r
    }

    /// Like `broadcast`, but carries the originating collaboration
    /// channel's identifier so that channel can suppress its own echo.
    pub fn broadcast_socket(&mut self, payload: SseEvent, socket_ack: u64) -> (r: Outbound)
        requires
            old(self)@.ack < u64::MAX,
        ensures
            final(self)@ == old(self)@.bumped(),
            r@.envelope == (EnvelopeV {
                payload: payload@,
                ack: old(self)@.ack,
                socket_ack: Some(socket_ack),
            }),
            r@.targets == all_targets(old(self)@.sse),
    {
        let targets = self.collect_all_targets();
        let ack = self.ack;
        self.ack = self.ack + 1;
        let r = Outbound {
            envelope: Envelope { payload, ack, socket_ack: Some(socket_ack) },
            targets,
        };
        proof {
            assert(self@ =~= old(self)@.bumped());
        }
        r
    }

    /// Like `broadcast`, but scoped to the subscribers of one account.
    pub fn broadcast_to(&mut self, payload: SseEvent, token: &String) -> (r: Outbound)
        requires
            old(self)@.ack < u64::MAX,
        ensures
            final(self)@ == old(self)@.bumped(),
            r@.envelope == (EnvelopeV {
                payload: payload@,
                ack: old(self)@.ack,
                socket_ack: None,
            }),
            r@.targets == account_targets(old(self)@.sse, token@),
    {
        let targets = self.collect_account_targets(token);
        let ack = self.ack;
        self.ack = self.ack + 1;
        let r = Outbound { envelope: Envelope { payload, ack, socket_ack: None }, targets };
        proof {
            assert(self@ =~= old(self)@.bumped());
        }
        r
    }

    /// A pure read: is this bearer token a known account's?
    pub fn auth_token(&self, token: &String) -> (r: bool)
        requires
            self@.wf(),
        ensures
            r == has_key(self@.users, token@),
    {
        assoc_contains(&self.users, token)
    }

    /// A pure read: the account behind a bearer token, if any.
    pub fn check_auth(&self, token: &String) -> (r: Option<&User>)
        requires
            self@.wf(),
        ensures
            r is Some <==> has_key(self@.users, token@),
            r is Some ==> r.unwrap()@ == val_of(self@.users, token@),
    {
        assoc_find(&self.users, token)
    }

    /// Binds a fresh verification code to an authenticated account; the
    /// runtime expires it after a fixed delay via `remove_code`.
    pub fn new_code(&mut self, token: &String) -> (r: String)
        requires
            old(self)@.wf(),
        ensures
            final(self)@.wf(),
            final(self)@ == (StateV {
                auth_codes: set_val(old(self)@.auth_codes, r@, token@),
                ..old(self)@
            }),
    {
        let code = generate_token();
        let returned = code.clone();
        let ghost gc = code@;
        assoc_set(&mut self.auth_codes, code, token.clone());
        proof {
            crate::assoc::lemma_set_val_unique(old(self)@.auth_codes, gc, token@);
            assert(self@ =~= (StateV {
                auth_codes: set_val(old(self)@.auth_codes, gc, token@),
                ..old(self)@
            }));
        }
        returned
    }

    /// Drops a verification code, typically because it expired unused.
    pub fn remove_code(&mut self, code: &String)
        requires
            old(self)@.wf(),
        ensures
            final(self)@.wf(),
            final(self)@ == (StateV {
                auth_codes: remove_key(old(self)@.auth_codes, code@),
                ..old(self)@
            }),
    {
        assoc_remove(&mut self.auth_codes, code);
        proof {
            crate::assoc::lemma_remove_key_unique(old(self)@.auth_codes, code@);
            assert(self@ =~= (StateV {
                auth_codes: remove_key(old(self)@.auth_codes, code@),
                ..old(self)@
            }));
        }
    }

    /// Redeems a verification code: returns its account token and unbinds
    /// it, or nothing when the code is unknown.
    pub fn take_auth_code(&mut self, code: &String) -> (r: Option<String>)
        requires
            old(self)@.wf(),
        ensures
            final(self)@.wf(),
            r is Some <==> has_key(old(self)@.auth_codes, code@),
            r is Some ==> r.unwrap()@ == val_of(old(self)@.auth_codes, code@) && final(self)@
                == (StateV {
                auth_codes: remove_key(old(self)@.auth_codes, code@),
                ..old(self)@
            }),
            r is None ==> final(self)@ == old(self)@,
    {
        let found = match assoc_find(&self.auth_codes, code) {
            Some(t) => Some(t.clone()),
            None => None,
        };
        match found {
            Some(t) => {
                assoc_remove(&mut self.auth_codes, code);
                proof {
                    crate::assoc::lemma_remove_key_unique(old(self)@.auth_codes, code@);
                    assert(self@ =~= (StateV {
                        auth_codes: remove_key(old(self)@.auth_codes, code@),
                        ..old(self)@
                    }));
                }
                Some(t)
            },
            None => {
                proof {
                    assert(self@ =~= old(self)@);
                }
                None
            },
        }
    }
}

/// The position of the first account entry with the given email, or -1.
pub open spec fn email_idx(users: Seq<(Seq<char>, UserV)>, email: Seq<char>) -> int {
    crate::assoc::first_where(users, |e: (Seq<char>, UserV)| e.1.user_info.email == email)
}

pub open spec fn has_email(users: Seq<(Seq<char>, UserV)>, email: Seq<char>) -> bool {
    email_idx(users, email) != -1
}

/// The position of the first push-token entry whose value is `v`, or -1.
pub open spec fn sse_value_idx(m: Seq<(Seq<char>, Seq<char>)>, v: Seq<char>) -> int {
    crate::assoc::first_where(m, |e: (Seq<char>, Seq<char>)| e.1 == v)
}

/// The position of the first webhook registration with the given resource
/// id, or -1.
pub open spec fn resource_idx(m: Seq<(Seq<char>, GoogleWebhookV)>, resource_id: Seq<char>) -> int {
    crate::assoc::first_where(m, |e: (Seq<char>, GoogleWebhookV)| e.1.resource_id == resource_id)
}

proof fn lemma_set_val_keeps_emails(
    users: Seq<(Seq<char>, UserV)>,
    k: Seq<char>,
    v: UserV,
)
    requires
        unique_keys(users),
        forall|i: int, j: int|
            0 <= i < j < users.len() ==> users[i].1.user_info.email != users[j].1.user_info.email,
        forall|i: int|
            0 <= i < users.len() && users[i].0 != k ==> users[i].1.user_info.email
                != v.user_info.email,
    ensures
        forall|i: int, j: int|
            0 <= i < j < set_val(users, k, v).len() ==> set_val(users, k, v)[i].1.user_info.email
                != set_val(users, k, v)[j].1.user_info.email,
{
    let m2 = set_val(users, k, v);
    if has_key(users, k) {
        let t = crate::assoc::idx_of(users, k);
        assert(0 <= t < users.len() && users[t].0 == k);
        assert forall|i: int, j: int| 0 <= i < j < m2.len() implies m2[i].1.user_info.email
            != m2[j].1.user_info.email by {
            if i != t && j != t {
                assert(m2[i] == users[i] && m2[j] == users[j]);
            } else if i == t {
                assert(users[j].0 != k);
            } else {
                assert(users[i].0 != k);
            }
        };
    } else {
        assert forall|i: int, j: int| 0 <= i < j < m2.len() implies m2[i].1.user_info.email
            != m2[j].1.user_info.email by {
            if j < users.len() {
                assert(m2[i] == users[i] && m2[j] == users[j]);
            } else {
                assert(m2[j].1 == v);
                assert(m2[i] == users[i]);
                if users[i].0 == k {
                    assert(has_key(users, k));
                }
            }
        };
    }
}

proof fn lemma_remove_key_keeps_emails(users: Seq<(Seq<char>, UserV)>, k: Seq<char>)
    requires
        unique_keys(users),
        forall|i: int, j: int|
            0 <= i < j < users.len() ==> users[i].1.user_info.email != users[j].1.user_info.email,
    ensures
        forall|i: int, j: int|
            0 <= i < j < remove_key(users, k).len() ==> remove_key(users, k)[i].1.user_info.email
                != remove_key(users, k)[j].1.user_info.email,
{
    let m2 = remove_key(users, k);
    if has_key(users, k) {
        let t = crate::assoc::idx_of(users, k);
        assert forall|i: int, j: int| 0 <= i < j < m2.len() implies m2[i].1.user_info.email
            != m2[j].1.user_info.email by {
            let i0 = if i < t { i } else { i + 1 };
            let j0 = if j < t { j } else { j + 1 };
            assert(m2[i] == users[i0] && m2[j] == users[j0]);
        };
    }
}

/// Filtering subscribers keeps their identifiers pairwise distinct, and
/// every kept subscriber was present before.
pub proof fn lemma_filter_subscribers(s: Seq<SubscriberV>, p: spec_fn(SubscriberV) -> bool)
    requires
        forall|i: int, j: int| 0 <= i < j < s.len() ==> s[i].id != s[j].id,
    ensures
        forall|a: int, b: int|
            0 <= a < b < s.filter(p).len() ==> s.filter(p)[a].id != s.filter(p)[b].id,
        forall|a: int|
            0 <= a < s.filter(p).len() ==> exists|j: int|
                0 <= j < s.len() && #[trigger] s.filter(p)[a] == s[j],
    decreases s.len(),
{
    reveal(Seq::filter);
    if s.len() > 0 {
        let d = s.drop_last();
        assert(forall|i: int, j: int| 0 <= i < j < d.len() ==> d[i].id != d[j].id);
        lemma_filter_subscribers(d, p);
        let fd = d.filter(p);
        let f = s.filter(p);
        assert forall|a: int| 0 <= a < f.len() implies exists|j: int|
            0 <= j < s.len() && #[trigger] f[a] == s[j] by {
            if a < fd.len() {
                assert(f[a] == fd[a]);
                let j = choose|j: int| 0 <= j < d.len() && fd[a] == d[j];
                assert(f[a] == s[j]);
            } else {
                assert(p(s.last()) && f[a] == s.last());
                assert(f[a] == s[s.len() - 1]);
            }
        };
        assert forall|a: int, b: int| 0 <= a < b < f.len() implies f[a].id != f[b].id by {
            if b < fd.len() {
                assert(f[a] == fd[a] && f[b] == fd[b]);
            } else {
                assert(p(s.last()) && f[b] == s.last());
                assert(f[a] == fd[a]);
                let j = choose|j: int| 0 <= j < d.len() && fd[a] == d[j];
                assert(s[j].id != s[s.len() - 1].id);
            }
        };
    }
}

impl State {
    /// A pure read: the token of the account bound to this email, if one
    /// exists. Exactly one can: emails are unique among accounts.
    pub fn find_token_by_email(&self, email: &String) -> (r: Option<String>)
        ensures
            r is Some <==> has_email(self@.users, email@),
            r is Some ==> r.unwrap()@ == self@.users[email_idx(self@.users, email@)].0,
    {
        let ghost uv = self@.users;
        let ghost p = |e: (Seq<char>, UserV)| e.1.user_info.email == email@;
        let mut i: usize = 0;
        while i < self.users.len()
            invariant
                uv == self@.users,
                uv.len() == self.users@.len(),
                i <= self.users@.len(),
                p == (|e: (Seq<char>, UserV)| e.1.user_info.email == email@),
                forall|j: int| 0 <= j < i ==> !p(uv[j]),
            decreases self.users@.len() - i,
        {
            assert(uv[i as int] == self.users@[i as int].deep_view());
            if self.users[i].1.user_info.email.eq(email) {
                proof {
                    assert(p(uv[i as int]));
                    crate::assoc::lemma_first_where_is(uv, p, i as int);
                }
                return Some(self.users[i].0.clone());
            }
            i = i + 1;
        }
        proof {
            crate::assoc::lemma_first_where_none(uv, p);
        }
        None
    }

    /// Installs a new account under a server-issued token, with a fresh
    /// push-token beside it. The caller has ruled the email out among the
    /// existing accounts, so one account per email is preserved.
    pub fn add_new_user(&mut self, token: String, sse_token: String, user: User)
        requires
            old(self)@.wf(),
            !has_email(old(self)@.users, user.user_info.email@),
        ensures
            final(self)@.wf(),
            final(self)@ == (StateV {
                users: set_val(old(self)@.users, token@, user@),
                sse_tokens: set_val(old(self)@.sse_tokens, token@, sse_token@),
                ..old(self)@
            }),
    {
        let ghost gk = token@;
        let ghost gu = user@;
        let ghost gs = sse_token@;
        proof {
            crate::assoc::lemma_set_val_unique(old(self)@.users, gk, gu);
            crate::assoc::lemma_set_val_unique(old(self)@.sse_tokens, gk, gs);
            crate::assoc::lemma_first_where(
                old(self)@.users,
                |e: (Seq<char>, UserV)| e.1.user_info.email == gu.user_info.email,
            );
            assert forall|i: int|
                0 <= i < old(self)@.users.len() && old(self)@.users[i].0 != gk implies old(
                self,
            )@.users[i].1.user_info.email != gu.user_info.email by {
                let p = |e: (Seq<char>, UserV)| e.1.user_info.email == gu.user_info.email;
                assert(!p(old(self)@.users[i]));
            };
            lemma_set_val_keeps_emails(old(self)@.users, gk, gu);
        }
        let token2 = token.clone();
        assoc_set(&mut self.sse_tokens, token, sse_token);
        assoc_set(&mut self.users, token2, user);
        proof {
            assert(self@ =~= (StateV {
                users: set_val(old(self)@.users, gk, gu),
                sse_tokens: set_val(old(self)@.sse_tokens, gk, gs),
                ..old(self)@
            }));
        }
    }

    /// Connects an external identity: when an account with this email
    /// already exists, its token is reused and nothing changes; otherwise
    /// the account is installed under the caller-supplied fresh tokens.
    /// The second component tells which of the two happened.
    pub fn register_account(&mut self, user: User, fresh_token: String, fresh_sse_token: String)
        -> (r: (String, bool))
        requires
            old(self)@.wf(),
        ensures
            final(self)@.wf(),
            r.1 == !has_email(old(self)@.users, user.user_info.email@),
            !r.1 ==> final(self)@ == old(self)@ && r.0@ == old(self)@.users[email_idx(
                old(self)@.users,
                user.user_info.email@,
            )].0,
            r.1 ==> r.0@ == fresh_token@ && final(self)@ == (StateV {
                users: set_val(old(self)@.users, fresh_token@, user@),
                sse_tokens: set_val(old(self)@.sse_tokens, fresh_token@, fresh_sse_token@),
                ..old(self)@
            }),
    {
        match self.find_token_by_email(&user.user_info.email) {
            Some(t) => {
                proof {
                    assert(self@ =~= old(self)@);
                }
                (t, false)
            },
            None => {
                let t = fresh_token.clone();
                self.add_new_user(fresh_token, fresh_sse_token, user);
                (t, true)
            },
        }
    }

    /// Removes an account and everything keyed by its token: credentials,
    /// push token, webhook registration, event cache, and its live
    /// subscribers. The surrounding runtime must then signal the account's
    /// refresh task to stop. The original service never deleted accounts;
    /// this removal path is new.
    pub fn remove_account(&mut self, token: &String) -> (r: Result<User, StoreError>)
        requires
            old(self)@.wf(),
        ensures
            final(self)@.wf(),
            r is Ok <==> has_key(old(self)@.users, token@),
            r is Err ==> final(self)@ == old(self)@ && r->Err_0 == StoreError::NotFound,
            r is Ok ==> r->Ok_0@ == val_of(old(self)@.users, token@) && final(self)@ == (StateV {
                users: remove_key(old(self)@.users, token@),
                sse_tokens: remove_key(old(self)@.sse_tokens, token@),
                calendar_webhooks: remove_key(old(self)@.calendar_webhooks, token@),
                event_caches: remove_key(old(self)@.event_caches, token@),
                sse: old(self)@.sse.filter(|s: SubscriberV| s.token != token@),
                ..old(self)@
            }),
    {
        let user = match assoc_find(&self.users, token) {
            Some(u) => u.clone(),
            None => {
                proof {
                    assert(self@ =~= old(self)@);
                }
                return Err(StoreError::NotFound);
            },
        };
        proof {
            crate::assoc::lemma_remove_key_unique(old(self)@.users, token@);
            crate::assoc::lemma_remove_key_unique(old(self)@.sse_tokens, token@);
            crate::assoc::lemma_remove_key_unique(old(self)@.calendar_webhooks, token@);
            crate::assoc::lemma_remove_key_unique(old(self)@.event_caches, token@);
            lemma_remove_key_keeps_emails(old(self)@.users, token@);
        }
        assoc_remove(&mut self.users, token);
        assoc_remove(&mut self.sse_tokens, token);
        assoc_remove(&mut self.calendar_webhooks, token);
        assoc_remove(&mut self.event_caches, token);
        let ghost sv = self@.sse;
        let ghost p = |s: SubscriberV| s.token != token@;
        let mut kept: Vec<Subscriber> = Vec::new();
        let mut i: usize = 0;
        proof {
            reveal(Seq::filter);
            assert(kept.deep_view() =~= sv.take(0).filter(p));
        }
        while i < self.sse.len()
            invariant
                sv == self@.sse,
                sv.len() == self.sse@.len(),
                i <= self.sse@.len(),
                p == (|s: SubscriberV| s.token != token@),
                kept.deep_view() =~= sv.take(i as int).filter(p),
            decreases self.sse@.len() - i,
        {
            proof {
                crate::assoc::lemma_filter_take_step(sv, p, i as int);
            }
            assert(sv[i as int] == self.sse@[i as int]@);
            if !self.sse[i].token.eq(token) {
                let ghost prek = kept.deep_view();
                kept.push(self.sse[i].clone());
                proof {
                    assert(kept.deep_view() =~= prek.push(sv[i as int]));
                }
            }
            i = i + 1;
        }
        proof {
            assert(sv.take(sv.len() as int) =~= sv);
        }
        self.sse = kept;
        proof {
            lemma_filter_subscribers(sv, p);
            assert(self@ =~= (StateV {
                users: remove_key(old(self)@.users, token@),
                sse_tokens: remove_key(old(self)@.sse_tokens, token@),
                calendar_webhooks: remove_key(old(self)@.calendar_webhooks, token@),
                event_caches: remove_key(old(self)@.event_caches, token@),
                sse: old(self)@.sse.filter(|s: SubscriberV| s.token != token@),
                ..old(self)@
            }));
        }
        Ok(user)
    }
}

/// Membership of an identifier in a plain list.
pub fn ids_contain(v: &Vec<u64>, x: u64) -> (r: bool)
    ensures
        r == v@.contains(x),
{
    let mut i: usize = 0;
    while i < v.len()
        invariant
            i <= v@.len(),
            forall|j: int| 0 <= j < i ==> v@[j] != x,
        decreases v@.len() - i,
    {
        if v[i] == x {
            return true;
        }
        i = i + 1;
    }
    false
}

impl State {
    /// A pure read: the push token handed to this account, if any.
    pub fn sse_token_of(&self, token: &String) -> (r: Option<String>)
        requires
            self@.wf(),
        ensures
            r is Some <==> has_key(self@.sse_tokens, token@),
            r is Some ==> r.unwrap()@ == val_of(self@.sse_tokens, token@),
    {
        match assoc_find(&self.sse_tokens, token) {
            Some(t) => Some(t.clone()),
            None => None,
        }
    }

    /// The position of the first push-token entry whose value matches.
    fn find_sse_value(&self, presented: &String) -> (r: Option<usize>)
        ensures
            r is Some <==> sse_value_idx(self@.sse_tokens, presented@) != -1,
            r is Some ==> r.unwrap() as int == sse_value_idx(self@.sse_tokens, presented@)
                && (r.unwrap() as int) < self@.sse_tokens.len(),
    {
        let ghost mv = self@.sse_tokens;
        let ghost p = |e: (Seq<char>, Seq<char>)| e.1 == presented@;
        let mut i: usize = 0;
        while i < self.sse_tokens.len()
            invariant
                mv == self@.sse_tokens,
                mv.len() == self.sse_tokens@.len(),
                i <= self.sse_tokens@.len(),
                p == (|e: (Seq<char>, Seq<char>)| e.1 == presented@),
                forall|j: int| 0 <= j < i ==> !p(mv[j]),
            decreases self.sse_tokens@.len() - i,
        {
            assert(mv[i as int] == self.sse_tokens@[i as int].deep_view());
            if self.sse_tokens[i].1.eq(presented) {
                proof {
                    assert(p(mv[i as int]));
                    crate::assoc::lemma_first_where_is(mv, p, i as int);
                }
                return Some(i);
            }
            i = i + 1;
        }
        proof {
            crate::assoc::lemma_first_where_none(mv, p);
        }
        None
    }

    /// Admits a push subscriber. The presented push token is resolved to
    /// its account (`Unauthorized` when unknown, `NotFound` when the
    /// account has vanished); the caller receives the full-state snapshot
    /// to send before any broadcast reaches the new subscriber, so nothing
    /// is missed and nothing arrives twice; the push token is rotated to
    /// the caller-supplied fresh one; and the subscriber is registered
    /// under a fresh identifier.
    pub fn subscribe(&mut self, presented: &String, fresh_sse_token: String) -> (r: Result<
        (u64, SseEvent),
        StoreError,
    >)
        requires
            old(self)@.wf(),
            old(self)@.next_subscriber_id < u64::MAX,
        ensures
            final(self)@.wf(),
            r is Err ==> final(self)@ == old(self)@,
            r is Err && r->Err_0 == StoreError::Unauthorized <==> sse_value_idx(
                old(self)@.sse_tokens,
                presented@,
            ) == -1,
            r is Err && r->Err_0 == StoreError::NotFound <==> (sse_value_idx(
                old(self)@.sse_tokens,
                presented@,
            ) != -1 && !has_key(
                old(self)@.users,
                old(self)@.sse_tokens[sse_value_idx(old(self)@.sse_tokens, presented@)].0,
            )),
            r is Ok <==> (sse_value_idx(old(self)@.sse_tokens, presented@) != -1 && has_key(
                old(self)@.users,
                old(self)@.sse_tokens[sse_value_idx(old(self)@.sse_tokens, presented@)].0,
            )),
            r is Ok ==> ({
                let tok = old(self)@.sse_tokens[sse_value_idx(old(self)@.sse_tokens, presented@)].0;
                let u = val_of(old(self)@.users, tok);
                &&& has_key(old(self)@.users, tok)
                &&& r->Ok_0.0 == old(self)@.next_subscriber_id
                &&& r->Ok_0.1@ == (SseEventV::Ready {
                    patients: old(self)@.patients,
                    sessions: old(self)@.sessions,
                    user_mail: u.user_info.email,
                    user_avatar: u.user_info.picture,
                    settings: u.settings,
                })
                &&& final(self)@ == (StateV {
                    sse: old(self)@.sse.push(
                        SubscriberV { token: tok, id: old(self)@.next_subscriber_id },
                    ),
                    sse_tokens: set_val(old(self)@.sse_tokens, tok, fresh_sse_token@),
                    next_subscriber_id: (old(self)@.next_subscriber_id + 1) as u64,
                    ..old(self)@
                })
            }),
    {
        let idx = match self.find_sse_value(presented) {
            Some(idx) => idx,
            None => {
                proof {
                    assert(self@ =~= old(self)@);
                }
                return Err(StoreError::Unauthorized);
            },
        };
        let token = self.sse_tokens[idx].0.clone();
        let ghost tok = token@;
        let user = match assoc_find(&self.users, &token) {
            Some(u) => u,
            None => {
                proof {
                    assert(self@ =~= old(self)@);
                }
                return Err(StoreError::NotFound);
            },
        };
        let ready = SseEvent::Ready {
            patients: crate::entities::clone_patients(&self.patients),
            sessions: crate::entities::clone_sessions(&self.sessions),
            user_mail: user.user_info.email.clone(),
            user_avatar: user.user_info.picture.clone(),
            settings: user.settings,
        };
        let id = self.next_subscriber_id;
        proof {
            crate::assoc::lemma_set_val_unique(old(self)@.sse_tokens, tok, fresh_sse_token@);
        }
        assoc_set(&mut self.sse_tokens, token.clone(), fresh_sse_token);
        self.sse.push(Subscriber { token, id });
        self.next_subscriber_id = self.next_subscriber_id + 1;
        proof {
            assert(self@.sse =~= old(self)@.sse.push(SubscriberV { token: tok, id }));
            assert(self@ =~= (StateV {
                sse: old(self)@.sse.push(SubscriberV { token: tok, id }),
                sse_tokens: set_val(old(self)@.sse_tokens, tok, fresh_sse_token@),
                next_subscriber_id: (old(self)@.next_subscriber_id + 1) as u64,
                ..old(self)@
            }));
        }
        Ok((id, ready))
    }

    /// The liveness sweep's second half: drops every subscriber whose
    /// heartbeat send failed, so abandoned connections cannot accumulate.
    pub fn remove_stale_clients(&mut self, failed: &Vec<u64>)
        requires
            old(self)@.wf(),
        ensures
            final(self)@.wf(),
            final(self)@ == (StateV {
                sse: old(self)@.sse.filter(|s: SubscriberV| !failed@.contains(s.id)),
                ..old(self)@
            }),
    {
        let ghost sv = self@.sse;
        let ghost p = |s: SubscriberV| !failed@.contains(s.id);
        let mut kept: Vec<Subscriber> = Vec::new();
        let mut i: usize = 0;
        proof {
            reveal(Seq::filter);
            assert(kept.deep_view() =~= sv.take(0).filter(p));
        }
        while i < self.sse.len()
            invariant
                sv == self@.sse,
                sv.len() == self.sse@.len(),
                i <= self.sse@.len(),
                p == (|s: SubscriberV| !failed@.contains(s.id)),
                kept.deep_view() =~= sv.take(i as int).filter(p),
            decreases self.sse@.len() - i,
        {
            proof {
                crate::assoc::lemma_filter_take_step(sv, p, i as int);
            }
            assert(sv[i as int] == self.sse@[i as int]@);
            if !ids_contain(failed, self.sse[i].id) {
                let ghost prek = kept.deep_view();
                kept.push(self.sse[i].clone());
                proof {
                    assert(p(sv[i as int]));
                    assert(kept.deep_view() =~= prek.push(sv[i as int]));
                }
            } else {
                proof {
                    assert(!p(sv[i as int]));
                }
            }
            i = i + 1;
        }
        proof {
            assert(sv.take(sv.len() as int) =~= sv);
        }
        self.sse = kept;
        proof {
            lemma_filter_subscribers(sv, p);
            assert(self@ =~= (StateV {
                sse: old(self)@.sse.filter(|s: SubscriberV| !failed@.contains(s.id)),
                ..old(self)@
            }));
        }
    }

    /// Applies a partial settings change to an account.
    pub fn update_settings(&mut self, token: &String, google_calendar_enabled: Option<bool>) -> (r:
        Result<(), StoreError>)
        requires
            old(self)@.wf(),
        ensures
            final(self)@.wf(),
            r is Ok <==> has_key(old(self)@.users, token@),
            r is Err ==> final(self)@ == old(self)@ && r->Err_0 == StoreError::NotFound,
            r is Ok ==> ({
                let u0 = val_of(old(self)@.users, token@);
                let u1 = UserV {
                    settings: SettingsV {
                        google_calendar_enabled: match google_calendar_enabled {
                            Some(b) => b,
                            None => u0.settings.google_calendar_enabled,
                        },
                    },
                    ..u0
                };
                final(self)@ == (StateV { users: set_val(old(self)@.users, token@, u1), ..old(self)@ })
            }),
    {
        let mut user = match assoc_find(&self.users, token) {
            Some(u) => u.clone(),
            None => {
                proof {
                    assert(self@ =~= old(self)@);
                }
                return Err(StoreError::NotFound);
            },
        };
        match google_calendar_enabled {
            Some(b) => {
                user.settings.google_calendar_enabled = b;
            },
            None => {},
        }
        let ghost gu = user@;
        proof {
            crate::assoc::lemma_set_val_unique(old(self)@.users, token@, gu);
            assert forall|i: int|
                0 <= i < old(self)@.users.len() && old(self)@.users[i].0 != token@ implies old(
                self,
            )@.users[i].1.user_info.email != gu.user_info.email by {
                let t = crate::assoc::idx_of(old(self)@.users, token@);
                assert(old(self)@.users[t].0 == token@);
            };
            lemma_set_val_keeps_emails(old(self)@.users, token@, gu);
        }
        assoc_set(&mut self.users, token.clone(), user);
        proof {
            assert(self@ =~= (StateV { users: set_val(old(self)@.users, token@, gu), ..old(self)@ }));
        }
        Ok(())
    }

    /// Applies a successful refresh-token exchange: the account's access
    /// token is replaced and its expiry becomes `now` plus the advertised
    /// lifetime. The caller then requests one coalesced persistence write.
    pub fn apply_refresh(&mut self, token: &String, access_token: String, expires_in: u64, now: u64)
        -> (r: Result<(), StoreError>)
        requires
            old(self)@.wf(),
            expires_in < 0x4000_0000_0000_0000,
            now < 0x4000_0000_0000_0000,
        ensures
            final(self)@.wf(),
            r is Ok <==> has_key(old(self)@.users, token@),
            r is Err ==> final(self)@ == old(self)@ && r->Err_0 == StoreError::NotFound,
            r is Ok ==> ({
                let u0 = val_of(old(self)@.users, token@);
                let u1 = UserV {
                    access_token: access_token@,
                    expires_at: (expires_in + now) as u64,
                    ..u0
                };
                final(self)@ == (StateV { users: set_val(old(self)@.users, token@, u1), ..old(self)@ })
            }),
    {
        let mut user = match assoc_find(&self.users, token) {
            Some(u) => u.clone(),
            None => {
                proof {
                    assert(self@ =~= old(self)@);
                }
                return Err(StoreError::NotFound);
            },
        };
        user.access_token = access_token;
        user.expires_at = expires_in + now;
        let ghost gu = user@;
        proof {
            crate::assoc::lemma_set_val_unique(old(self)@.users, token@, gu);
            assert forall|i: int|
                0 <= i < old(self)@.users.len() && old(self)@.users[i].0 != token@ implies old(
                self,
            )@.users[i].1.user_info.email != gu.user_info.email by {
                let t = crate::assoc::idx_of(old(self)@.users, token@);
                assert(old(self)@.users[t].0 == token@);
            };
            lemma_set_val_keeps_emails(old(self)@.users, token@, gu);
        }
        assoc_set(&mut self.users, token.clone(), user);
        proof {
            assert(self@ =~= (StateV { users: set_val(old(self)@.users, token@, gu), ..old(self)@ }));
        }
        Ok(())
    }

    /// Records (or replaces) an account's webhook registration.
    pub fn set_webhook(&mut self, token: String, webhook: GoogleWebhook)
        requires
            old(self)@.wf(),
        ensures
            final(self)@.wf(),
            final(self)@ == (StateV {
                calendar_webhooks: set_val(old(self)@.calendar_webhooks, token@, webhook@),
                ..old(self)@
            }),
    {
        let ghost gk = token@;
        let ghost gw = webhook@;
        proof {
            crate::assoc::lemma_set_val_unique(old(self)@.calendar_webhooks, gk, gw);
        }
        assoc_set(&mut self.calendar_webhooks, token, webhook);
        proof {
            assert(self@ =~= (StateV {
                calendar_webhooks: set_val(old(self)@.calendar_webhooks, gk, gw),
                ..old(self)@
            }));
        }
    }

    /// Resolves an inbound push notification's opaque resource id to the
    /// account it was registered for. An unmatched id is rejected by the
    /// caller without touching any state.
    pub fn webhook_token_for_resource(&self, resource_id: &String) -> (r: Option<String>)
        ensures
            r is Some <==> resource_idx(self@.calendar_webhooks, resource_id@) != -1,
            r is Some ==> r.unwrap()@ == self@.calendar_webhooks[resource_idx(
                self@.calendar_webhooks,
                resource_id@,
            )].0,
    {
        let ghost wv = self@.calendar_webhooks;
        let ghost p = |e: (Seq<char>, GoogleWebhookV)| e.1.resource_id == resource_id@;
        let mut i: usize = 0;
        while i < self.calendar_webhooks.len()
            invariant
                wv == self@.calendar_webhooks,
                wv.len() == self.calendar_webhooks@.len(),
                i <= self.calendar_webhooks@.len(),
                p == (|e: (Seq<char>, GoogleWebhookV)| e.1.resource_id == resource_id@),
                forall|j: int| 0 <= j < i ==> !p(wv[j]),
            decreases self.calendar_webhooks@.len() - i,
        {
            assert(wv[i as int] == self.calendar_webhooks@[i as int].deep_view());
            if self.calendar_webhooks[i].1.resource_id.eq(resource_id) {
                proof {
                    assert(p(wv[i as int]));
                    crate::assoc::lemma_first_where_is(wv, p, i as int);
                }
                return Some(self.calendar_webhooks[i].0.clone());
            }
            i = i + 1;
        }
        proof {
            crate::assoc::lemma_first_where_none(wv, p);
        }
        None
    }

    /// Advances an account's reconciliation cursor to the value the remote
    /// batch returned. This happens even for an empty batch, so the next
    /// delivery does not reprocess what was already seen.
    pub fn advance_sync_token(&mut self, token: &String, sync_token: String) -> (r: Result<
        (),
        StoreError,
    >)
        requires
            old(self)@.wf(),
        ensures
            final(self)@.wf(),
            r is Ok <==> has_key(old(self)@.calendar_webhooks, token@),
            r is Err ==> final(self)@ == old(self)@ && r->Err_0 == StoreError::NotFound,
            r is Ok ==> ({
                let w0 = val_of(old(self)@.calendar_webhooks, token@);
                let w1 = GoogleWebhookV { sync_token: sync_token@, ..w0 };
                final(self)@ == (StateV {
                    calendar_webhooks: set_val(old(self)@.calendar_webhooks, token@, w1),
                    ..old(self)@
                })
            }),
    {
        let mut webhook = match assoc_find(&self.calendar_webhooks, token) {
            Some(w) => w.clone(),
            None => {
                proof {
                    assert(self@ =~= old(self)@);
                }
                return Err(StoreError::NotFound);
            },
        };
        webhook.sync_token = sync_token;
        let ghost gw = webhook@;
        proof {
            crate::assoc::lemma_set_val_unique(old(self)@.calendar_webhooks, token@, gw);
        }
        assoc_set(&mut self.calendar_webhooks, token.clone(), webhook);
        proof {
            assert(self@ =~= (StateV {
                calendar_webhooks: set_val(old(self)@.calendar_webhooks, token@, gw),
                ..old(self)@
            }));
        }
        Ok(())
    }

    /// Replaces an account's cached remote events.
    pub fn set_cache(&mut self, token: String, events: Vec<RemoteEvent>)
        requires
            old(self)@.wf(),
        ensures
            final(self)@.wf(),
            final(self)@ == (StateV {
                event_caches: set_val(old(self)@.event_caches, token@, events.deep_view()),
                ..old(self)@
            }),
    {
        let ghost gk = token@;
        let ghost ge = events.deep_view();
        proof {
            crate::assoc::lemma_set_val_unique(old(self)@.event_caches, gk, ge);
        }
        assoc_set(&mut self.event_caches, token, events);
        proof {
            assert(self@ =~= (StateV {
                event_caches: set_val(old(self)@.event_caches, gk, ge),
                ..old(self)@
            }));
        }
    }
}

} // verus!
