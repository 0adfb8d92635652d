use vstd::prelude::*;

use crate::assoc::{first_where, has_key, lemma_first_where_is, lemma_first_where_none, set_val,
    val_of};
use crate::broadcast::{Outbound, OutboundV, SseEvent, SseEventV};
use crate::entities::{PatientV, Session, SessionV};
use crate::remote::{clone_remote_events, RemoteEvent, RemoteEventV, RemoteItem, RemoteItemV};
use crate::store::{spec_broadcast, spec_broadcast_to, State, StateV};

verus! {

/// The position of the first cached event with this id, or -1.
pub open spec fn cache_idx(c: Seq<RemoteEventV>, id: Seq<char>) -> int {
    first_where(c, |e: RemoteEventV| e.id == id)
}

/// Is this session mirrored, for the account with this email, by the
/// remote event with this id?
pub open spec fn session_linked(s: SessionV, email: Seq<char>, id: Seq<char>) -> bool {
    exists|k: int| 0 <= k < s.calendar_ids.len() && s.calendar_ids[k] == (email, id)
}

/// The position of the first session linked to this account and event id,
/// or -1.
pub open spec fn linked_session_idx(ss: Seq<SessionV>, email: Seq<char>, id: Seq<char>) -> int {
    first_where(ss, |s: SessionV| session_linked(s, email, id))
}

/// The position of the first patient whose name equals the text exactly,
/// or -1.
pub open spec fn patient_name_idx(ps: Seq<PatientV>, name: Seq<char>) -> int {
    first_where(ps, |p: PatientV| p.name == name)
}

/// An account's cached remote events; an account without a cache yet has
/// an empty one.
pub open spec fn cache_of(s: StateV, token: Seq<char>) -> Seq<RemoteEventV> {
    if has_key(s.event_caches, token) {
        val_of(s.event_caches, token)
    } else {
        Seq::empty()
    }
}

/// The session that reconciliation auto-creates when an unseen upsert's
/// summary names a patient: it spans the event's time range, starts with
/// no emotions, and is linked to the account's calendar entry.
pub open spec fn reconciled_session_v(
    uuid: Seq<char>,
    patient_uuid: Seq<char>,
    ev: RemoteEventV,
    email: Seq<char>,
    now: u64,
) -> SessionV {
    SessionV {
        uuid: uuid,
        patient_uuid: patient_uuid,
        start: ev.start,
        end: ev.end,
        paid: 0,
        emotions: Seq::empty(),
        timeline: Seq::empty(),
        created_at: now,
        last_updated: now,
        calendar_ids: seq![(email, ev.id)],
    }
}

/// What reconciling one remote item does to the store, and the broadcasts
/// it sends, in order. Session-level notifications go to every subscriber;
/// event-level ones only to the account's own.
pub open spec fn spec_apply_item(
    s: StateV,
    token: Seq<char>,
    email: Seq<char>,
    item: RemoteItemV,
    fresh: Seq<char>,
    now: u64,
) -> (StateV, Seq<OutboundV>) {
    let cache = cache_of(s, token);
    match item {
        RemoteItemV::Upsert(ev) => {
            let ci = cache_idx(cache, ev.id);
            let si = linked_session_idx(s.sessions, email, ev.id);
            if ci != -1 {
                let st1 = StateV {
                    event_caches: set_val(s.event_caches, token, cache.update(ci, ev)),
                    ..s
                };
                if si != -1 && (s.sessions[si].start != ev.start || s.sessions[si].end
                    != ev.end) {
                    let sess1 = SessionV {
                        start: ev.start,
                        end: ev.end,
                        last_updated: now,
                        ..s.sessions[si]
                    };
                    let st2 = StateV { sessions: s.sessions.update(si, sess1), ..st1 };
                    let r3 = spec_broadcast(st2, SseEventV::SessionUpdated(sess1));
                    let r4 = spec_broadcast_to(r3.0, SseEventV::EventUpdated(ev), token);
                    (r4.0, seq![r3.1, r4.1])
                } else {
                    let r2 = spec_broadcast_to(st1, SseEventV::EventUpdated(ev), token);
                    (r2.0, seq![r2.1])
                }
            } else {
                let st1 = StateV {
                    event_caches: set_val(s.event_caches, token, cache.push(ev)),
                    ..s
                };
                let pi = match ev.summary {
                    Some(sm) => patient_name_idx(s.patients, sm),
                    None => -1,
                };
                if si == -1 && pi != -1 {
                    let sess = reconciled_session_v(fresh, s.patients[pi].uuid, ev, email, now);
                    let st2 = StateV { sessions: st1.sessions.push(sess), ..st1 };
                    let r3 = spec_broadcast(st2, SseEventV::SessionAdded(sess));
                    let r4 = spec_broadcast_to(r3.0, SseEventV::EventAdded(ev), token);
                    (r4.0, seq![r3.1, r4.1])
                } else {
                    let r2 = spec_broadcast_to(st1, SseEventV::EventAdded(ev), token);
                    (r2.0, seq![r2.1])
                }
            }
        },
        RemoteItemV::Tombstone(id) => {
            let st1 = StateV {
                event_caches: set_val(
                    s.event_caches,
                    token,
                    cache.filter(|e: RemoteEventV| e.id != id),
                ),
                ..s
            };
            let si = linked_session_idx(s.sessions, email, id);
            if si != -1 {
                let st2 = StateV { sessions: st1.sessions.remove(si), ..st1 };
                let r3 = spec_broadcast(st2, SseEventV::SessionRemoved(s.sessions[si].uuid));
                let r4 = spec_broadcast_to(r3.0, SseEventV::EventRemoved(id), token);
                (r4.0, seq![r3.1, r4.1])
            } else {
                let r2 = spec_broadcast_to(st1, SseEventV::EventRemoved(id), token);
                (r2.0, seq![r2.1])
            }
        },
    }
}

/// Reconciling a whole batch: the items are applied in order, each
/// possible auto-created session taking its own fresh identity.
pub open spec fn spec_apply_batch(
    s: StateV,
    token: Seq<char>,
    email: Seq<char>,
    items: Seq<RemoteItemV>,
    fresh: Seq<Seq<char>>,
    now: u64,
) -> (StateV, Seq<OutboundV>)
    decreases items.len(),
{
    if items.len() == 0 {
        (s, Seq::empty())
    } else {
        let r1 = spec_apply_item(s, token, email, items[0], fresh[0], now);
        let r2 = spec_apply_batch(r1.0, token, email, items.drop_first(), fresh.drop_first(), now);
        (r2.0, r1.1 + r2.1)
    }
}

/// Reconciliation only rewrites the account's event cache, the sessions,
/// and the broadcast counter; every other collection stays as it was.
pub open spec fn item_frame(s0: StateV, s1: StateV) -> bool {
    &&& s1.patients == s0.patients
    &&& s1.users == s0.users
    &&& s1.calendar_webhooks == s0.calendar_webhooks
    &&& s1.sse_tokens == s0.sse_tokens
    &&& s1.auth_codes == s0.auth_codes
    &&& s1.sse == s0.sse
    &&& s1.next_subscriber_id == s0.next_subscriber_id
    &&& s0.ack <= s1.ack <= s0.ack + 2
}

pub proof fn lemma_item_frame(
    s: StateV,
    token: Seq<char>,
    email: Seq<char>,
    item: RemoteItemV,
    fresh: Seq<char>,
    now: u64,
)
    requires
        s.ack + 2 <= u64::MAX,
    ensures
        item_frame(s, spec_apply_item(s, token, email, item, fresh, now).0),
{
    let cache = cache_of(s, token);
    match item {
        RemoteItemV::Upsert(ev) => {
            let ci = cache_idx(cache, ev.id);
            let si = linked_session_idx(s.sessions, email, ev.id);
            if ci != -1 {
                if si != -1 && (s.sessions[si].start != ev.start || s.sessions[si].end
                    != ev.end) {
                    assert(item_frame(s, spec_apply_item(s, token, email, item, fresh, now).0));
                } else {
                    assert(item_frame(s, spec_apply_item(s, token, email, item, fresh, now).0));
                }
            } else {
                let pi = match ev.summary {
                    Some(sm) => patient_name_idx(s.patients, sm),
                    None => -1,
                };
                if si == -1 && pi != -1 {
                    assert(item_frame(s, spec_apply_item(s, token, email, item, fresh, now).0));
                } else {
                    assert(item_frame(s, spec_apply_item(s, token, email, item, fresh, now).0));
                }
            }
        },
        RemoteItemV::Tombstone(id) => {
            let si = linked_session_idx(s.sessions, email, id);
            if si != -1 {
                assert(item_frame(s, spec_apply_item(s, token, email, item, fresh, now).0));
            } else {
                assert(item_frame(s, spec_apply_item(s, token, email, item, fresh, now).0));
            }
        },
    }
}

pub proof fn lemma_batch_ack_bound(
    s: StateV,
    token: Seq<char>,
    email: Seq<char>,
    items: Seq<RemoteItemV>,
    fresh: Seq<Seq<char>>,
    now: u64,
)
    requires
        s.ack + 2 * items.len() <= u64::MAX,
    ensures
        spec_apply_batch(s, token, email, items, fresh, now).0.ack <= s.ack + 2 * items.len(),
        s.ack <= spec_apply_batch(s, token, email, items, fresh, now).0.ack,
    decreases items.len(),
{
    if items.len() > 0 {
        let r1 = spec_apply_item(s, token, email, items[0], fresh[0], now);
        lemma_item_frame(s, token, email, items[0], fresh[0], now);
        lemma_batch_ack_bound(r1.0, token, email, items.drop_first(), fresh.drop_first(), now);
    }
}

/// Extending a batch by one item reconciles the prefix first, then the
/// new item against the resulting store.
pub proof fn lemma_batch_snoc(
    s: StateV,
    token: Seq<char>,
    email: Seq<char>,
    items: Seq<RemoteItemV>,
    fresh: Seq<Seq<char>>,
    now: u64,
    k: int,
)
    requires
        0 <= k < items.len(),
        items.len() <= fresh.len(),
    ensures
        spec_apply_batch(s, token, email, items.take(k + 1), fresh.take(k + 1), now) == ({
            let r1 = spec_apply_batch(s, token, email, items.take(k), fresh.take(k), now);
            let r2 = spec_apply_item(r1.0, token, email, items[k], fresh[k], now);
            (r2.0, r1.1 + r2.1)
        }),
    decreases k,
{
    let tk1 = items.take(k + 1);
    let fk1 = fresh.take(k + 1);
    if k == 0 {
        assert(tk1[0] == items[0] && fk1[0] == fresh[0]);
        assert(tk1.drop_first() =~= Seq::<RemoteItemV>::empty());
        assert(fk1.drop_first() =~= Seq::<Seq<char>>::empty());
        assert(items.take(0) =~= Seq::<RemoteItemV>::empty());
        assert(fresh.take(0) =~= Seq::<Seq<char>>::empty());
        let r1 = spec_apply_item(s, token, email, items[0], fresh[0], now);
        assert(spec_apply_batch(r1.0, token, email, tk1.drop_first(), fk1.drop_first(), now).1
            =~= Seq::<OutboundV>::empty());
        assert(r1.1 + Seq::<OutboundV>::empty() =~= r1.1);
        assert(Seq::<OutboundV>::empty() + r1.1 =~= r1.1);
    } else {
        let r0 = spec_apply_item(s, token, email, items[0], fresh[0], now);
        lemma_batch_snoc(
            r0.0,
            token,
            email,
            items.drop_first(),
            fresh.drop_first(),
            now,
            k - 1,
        );
        assert(tk1[0] == items[0] && fk1[0] == fresh[0]);
        assert(tk1.drop_first() =~= items.drop_first().take(k));
        assert(fk1.drop_first() =~= fresh.drop_first().take(k));
        assert(items.take(k)[0] == items[0] && fresh.take(k)[0] == fresh[0]);
        assert(items.take(k).drop_first() =~= items.drop_first().take(k - 1));
        assert(fresh.take(k).drop_first() =~= fresh.drop_first().take(k - 1));
        assert(items.drop_first()[k - 1] == items[k]);
        assert(fresh.drop_first()[k - 1] == fresh[k]);
        let a = spec_apply_batch(s, token, email, items.take(k), fresh.take(k), now);
        let b = spec_apply_batch(
            r0.0,
            token,
            email,
            items.drop_first().take(k - 1),
            fresh.drop_first().take(k - 1),
            now,
        );
        assert(a.0 == b.0 && a.1 == r0.1 + b.1);
        let c = spec_apply_item(a.0, token, email, items[k], fresh[k], now);
        assert(spec_apply_batch(s, token, email, tk1, fk1, now).1 == r0.1 + (b.1 + c.1));
        assert(r0.1 + (b.1 + c.1) =~= (r0.1 + b.1) + c.1);
    }
}

/// The position of the first cached event with this id.
pub fn find_cache_idx(c: &Vec<RemoteEvent>, id: &String) -> (r: Option<usize>)
    ensures
        r is Some <==> cache_idx(c.deep_view(), id@) != -1,
        r is Some ==> r.unwrap() as int == cache_idx(c.deep_view(), id@) && (r.unwrap() as int)
            < c.deep_view().len(),
{
    let ghost cv = c.deep_view();
    let ghost p = |e: RemoteEventV| e.id == id@;
    let mut i: usize = 0;
    while i < c.len()
        invariant
            cv == c.deep_view(),
            cv.len() == c@.len(),
            i <= c@.len(),
            p == (|e: RemoteEventV| e.id == id@),
            forall|j: int| 0 <= j < i ==> !p(cv[j]),
        decreases c@.len() - i,
    {
        assert(cv[i as int] == c@[i as int]@);
        if c[i].id.eq(id) {
            proof {
                assert(p(cv[i as int]));
                lemma_first_where_is(cv, p, i as int);
            }
            return Some(i);
        }
        i = i + 1;
    }
    proof {
        lemma_first_where_none(cv, p);
    }
    None
}

/// Is this session mirrored by the given account's calendar entry?
pub fn session_is_linked(s: &Session, email: &String, id: &String) -> (r: bool)
    ensures
        r == session_linked(s@, email@, id@),
{
    let ghost pairs = s@.calendar_ids;
    let mut k: usize = 0;
    while k < s.calendar_ids.len()
        invariant
            pairs == s@.calendar_ids,
            pairs.len() == s.calendar_ids@.len(),
            k <= s.calendar_ids@.len(),
            forall|j: int| 0 <= j < k ==> pairs[j] != (email@, id@),
        decreases s.calendar_ids@.len() - k,
    {
        assert(pairs[k as int] == s.calendar_ids@[k as int].deep_view());
        if s.calendar_ids[k].0.eq(email) && s.calendar_ids[k].1.eq(id) {
            assert(pairs[k as int] == (email@, id@));
            return true;
        }
        k = k + 1;
    }
    false
}

impl State {
    /// The position of the first session linked to this account and id.
    pub(crate) fn find_linked_session(&self, email: &String, id: &String) -> (r: Option<usize>)
        ensures
            r is Some <==> linked_session_idx(self@.sessions, email@, id@) != -1,
            r is Some ==> r.unwrap() as int == linked_session_idx(self@.sessions, email@, id@)
                && (r.unwrap() as int) < self@.sessions.len(),
    {
        let ghost sv = self@.sessions;
        let ghost p = |s: SessionV| session_linked(s, email@, id@);
        let mut i: usize = 0;
        while i < self.sessions.len()
            invariant
                sv == self@.sessions,
                sv.len() == self.sessions@.len(),
                i <= self.sessions@.len(),
                p == (|s: SessionV| session_linked(s, email@, id@)),
                forall|j: int| 0 <= j < i ==> !p(sv[j]),
            decreases self.sessions@.len() - i,
        {
            assert(sv[i as int] == self.sessions@[i as int]@);
            if session_is_linked(&self.sessions[i], email, id) {
                proof {
                    assert(p(sv[i as int]));
                    lemma_first_where_is(sv, p, i as int);
                }
                return Some(i);
            }
            i = i + 1;
        }
        proof {
            lemma_first_where_none(sv, p);
        }
        None
    }

    /// The position of the first patient whose name equals the text.
    pub(crate) fn find_patient_by_name(&self, name: &String) -> (r: Option<usize>)
        ensures
            r is Some <==> patient_name_idx(self@.patients, name@) != -1,
            r is Some ==> r.unwrap() as int == patient_name_idx(self@.patients, name@) && (
            r.unwrap() as int) < self@.patients.len(),
    {
        let ghost pv = self@.patients;
        let ghost p = |q: PatientV| q.name == name@;
        let mut i: usize = 0;
        while i < self.patients.len()
            invariant
                pv == self@.patients,
                pv.len() == self.patients@.len(),
                i <= self.patients@.len(),
                p == (|q: PatientV| q.name == name@),
                forall|j: int| 0 <= j < i ==> !p(pv[j]),
            decreases self.patients@.len() - i,
        {
            assert(pv[i as int] == self.patients@[i as int]@);
            if self.patients[i].name.eq(name) {
                proof {
                    assert(p(pv[i as int]));
                    lemma_first_where_is(pv, p, i as int);
                }
                return Some(i);
            }
            i = i + 1;
        }
        proof {
            lemma_first_where_none(pv, p);
        }
        None
    }

    /// This account's cached remote events, duplicated for editing.
    fn cache_snapshot(&self, token: &String) -> (r: Vec<RemoteEvent>)
        requires
            self@.wf(),
        ensures
            r.deep_view() == cache_of(self@, token@),
    {
        match crate::assoc::assoc_find(&self.event_caches, token) {
            Some(c) => clone_remote_events(c),
            None => Vec::new(),
        }
    }
}

impl State {
    /// Reconciles one remote item against the store, exactly as
    /// `spec_apply_item` states it, and returns the broadcasts to deliver,
    /// in order.
    pub fn apply_remote_item(
        &mut self,
        token: &String,
        email: &String,
        item: RemoteItem,
        fresh_id: String,
        now: u64,
    ) -> (obs: Vec<Outbound>)
        requires
            old(self)@.wf(),
            old(self)@.ack + 2 <= u64::MAX,
        ensures
            final(self)@.wf(),
            final(self)@ == spec_apply_item(
                old(self)@,
                token@,
                email@,
                item@,
                fresh_id@,
                now,
            ).0,
            obs.deep_view() == spec_apply_item(
                old(self)@,
                token@,
                email@,
                item@,
                fresh_id@,
                now,
            ).1,
    {
        let ghost s0 = self@;
        let ghost gitem = item@;
        let ghost gfresh = fresh_id@;
        let ghost target = spec_apply_item(s0, token@, email@, gitem, gfresh, now);
        let cache = self.cache_snapshot(token);
        let ghost gcache = cache.deep_view();
        let mut obs: Vec<Outbound> = Vec::new();
        match item {
            RemoteItem::Upsert(ev) => {
                let ghost gev = ev@;
                match find_cache_idx(&cache, &ev.id) {
                    Some(ci) => {
                        let mut cache2 = cache;
                        cache2.set(ci, ev.clone());
                        proof {
                            assert(cache2.deep_view() =~= gcache.update(ci as int, gev));
                        }
                        self.set_cache(token.clone(), cache2);
                        assert(self@.sessions == s0.sessions);
                        let si_opt = self.find_linked_session(email, &ev.id);
                        match si_opt {
                            Some(si) => {
                                if self.sessions[si].start != ev.start || self.sessions[si].end
                                    != ev.end {
                                    let ghost smid = self@;
                                    let mut sess = self.sessions.remove(si);
                                    sess.start = ev.start;
                                    sess.end = ev.end;
                                    sess.last_updated = now;
                                    let ghost gsess1 = sess@;
                                    let announced = sess.clone();
                                    self.sessions.insert(si, sess);
                                    proof {
                                        assert(self@.sessions =~= s0.sessions.update(
                                            si as int,
                                            gsess1,
                                        ));
                                    }
                                    let ob1 = self.broadcast(SseEvent::SessionUpdated(announced));
                                    let ob2 = self.broadcast_to(
                                        SseEvent::EventUpdated(ev),
                                        token,
                                    );
                                    obs.push(ob1);
                                    obs.push(ob2);
                                    proof {
                                        assert(self@ =~= target.0);
                                        assert(obs.deep_view() =~= target.1);
                                    }
                                } else {
                                    let ob = self.broadcast_to(SseEvent::EventUpdated(ev), token);
                                    obs.push(ob);
                                    proof {
                                        assert(self@ =~= target.0);
                                        assert(obs.deep_view() =~= target.1);
                                    }
                                }
                            },
                            None => {
                                let ob = self.broadcast_to(SseEvent::EventUpdated(ev), token);
                                obs.push(ob);
                                proof {
                                    assert(self@ =~= target.0);
                                    assert(obs.deep_view() =~= target.1);
                                }
                            },
                        }
                    },
                    None => {
                        let mut cache2 = cache;
                        cache2.push(ev.clone());
                        proof {
                            assert(cache2.deep_view() =~= gcache.push(gev));
                        }
                        self.set_cache(token.clone(), cache2);
                        assert(self@.sessions == s0.sessions);
                        assert(self@.patients == s0.patients);
                        let si_opt = self.find_linked_session(email, &ev.id);
                        let pi_opt = match &ev.summary {
                            Some(sm) => self.find_patient_by_name(sm),
                            None => None,
                        };
                        if si_opt.is_none() && pi_opt.is_some() {
                            let pi = match pi_opt {
                                Some(pi) => pi,
                                None => 0,
                            };
                            let mut cal: Vec<(String, String)> = Vec::new();
                            cal.push((email.clone(), ev.id.clone()));
                            let session = Session {
                                uuid: fresh_id,
                                patient_uuid: self.patients[pi].uuid.clone(),
                                start: ev.start,
                                end: ev.end,
                                paid: 0,
                                emotions: Vec::new(),
                                timeline: Vec::new(),
                                created_at: now,
                                last_updated: now,
                                calendar_ids: cal,
                            };
                            proof {
                                assert(session@ =~= reconciled_session_v(
                                    gfresh,
                                    s0.patients[pi as int].uuid,
                                    gev,
                                    email@,
                                    now,
                                ));
                            }
                            let announced = session.clone();
                            self.sessions.push(session);
                            proof {
                                assert(self@.sessions =~= s0.sessions.push(
                                    reconciled_session_v(
                                        gfresh,
                                        s0.patients[pi as int].uuid,
                                        gev,
                                        email@,
                                        now,
                                    ),
                                ));
                            }
                            let ob1 = self.broadcast(SseEvent::SessionAdded(announced));
                            let ob2 = self.broadcast_to(SseEvent::EventAdded(ev), token);
                            obs.push(ob1);
                            obs.push(ob2);
                            proof {
                                assert(self@ =~= target.0);
                                assert(obs.deep_view() =~= target.1);
                            }
                        } else {
                            let ob = self.broadcast_to(SseEvent::EventAdded(ev), token);
                            obs.push(ob);
                            proof {
                                assert(self@ =~= target.0);
                                assert(obs.deep_view() =~= target.1);
                            }
                        }
                    },
                }
            },
            RemoteItem::Tombstone(id) => {
                let ghost gid = id@;
                let ghost p = |e: RemoteEventV| e.id != gid;
                let mut kept: Vec<RemoteEvent> = Vec::new();
                let mut k: usize = 0;
                proof {
                    reveal(Seq::filter);
                    assert(kept.deep_view() =~= gcache.take(0).filter(p));
                }
                while k < cache.len()
                    invariant
                        gcache == cache.deep_view(),
                        gcache.len() == cache@.len(),
                        k <= cache@.len(),
                        gid == id@,
                        p == (|e: RemoteEventV| e.id != gid),
                        kept.deep_view() =~= gcache.take(k as int).filter(p),
                    decreases cache@.len() - k,
                {
                    proof {
                        crate::assoc::lemma_filter_take_step(gcache, p, k as int);
                    }
                    assert(gcache[k as int] == cache@[k as int]@);
                    if !cache[k].id.eq(&id) {
                        let ghost pre = kept.deep_view();
                        kept.push(cache[k].clone());
                        proof {
                            assert(p(gcache[k as int]));
                            assert(kept.deep_view() =~= pre.push(gcache[k as int]));
                        }
                    } else {
                        proof {
                            assert(!p(gcache[k as int]));
                        }
                    }
                    k = k + 1;
                }
                proof {
                    assert(gcache.take(gcache.len() as int) =~= gcache);
                }
                self.set_cache(token.clone(), kept);
                assert(self@.sessions == s0.sessions);
                let si_opt = self.find_linked_session(email, &id);
                match si_opt {
                    Some(si) => {
                        let removed = self.sessions.remove(si);
                        proof {
                            assert(self@.sessions =~= s0.sessions.remove(si as int));
                        }
                        let ob1 = self.broadcast(SseEvent::SessionRemoved(removed.uuid.clone()));
                        let ob2 = self.broadcast_to(SseEvent::EventRemoved(id), token);
                        obs.push(ob1);
                        obs.push(ob2);
                        proof {
                            assert(self@ =~= target.0);
                            assert(obs.deep_view() =~= target.1);
                        }
                    },
                    None => {
                        let ob = self.broadcast_to(SseEvent::EventRemoved(id), token);
                        obs.push(ob);
                        proof {
                            assert(self@ =~= target.0);
                            assert(obs.deep_view() =~= target.1);
                        }
                    },
                }
            },
        }
        obs
    }
}

impl State {
    /// Reconciles a remote delta batch in order. `fresh` supplies one
    /// candidate identity per item, for the sessions that upserts may
    /// auto-create. The caller advances the account's sync cursor
    /// separately, whether or not any item required action.
    pub fn reconcile_batch(
        &mut self,
        token: &String,
        email: &String,
        items: Vec<RemoteItem>,
        fresh: Vec<String>,
        now: u64,
    ) -> (obs: Vec<Outbound>)
        requires
            old(self)@.wf(),
            fresh@.len() == items@.len(),
            old(self)@.ack + 2 * items@.len() <= u64::MAX,
        ensures
            final(self)@.wf(),
            final(self)@ == spec_apply_batch(
                old(self)@,
                token@,
                email@,
                items.deep_view(),
                fresh.deep_view(),
                now,
            ).0,
            obs.deep_view() == spec_apply_batch(
                old(self)@,
                token@,
                email@,
                items.deep_view(),
                fresh.deep_view(),
                now,
            ).1,
    {
        let ghost s0 = self@;
        let ghost gitems = items.deep_view();
        let ghost gfresh = fresh.deep_view();
        let mut obs: Vec<Outbound> = Vec::new();
        let mut k: usize = 0;
        proof {
            assert(gitems.take(0) =~= Seq::<RemoteItemV>::empty());
            assert(gfresh.take(0) =~= Seq::<Seq<char>>::empty());
            assert(obs.deep_view() =~= spec_apply_batch(
                s0,
                token@,
                email@,
                gitems.take(0),
                gfresh.take(0),
                now,
            ).1);
        }
        while k < items.len()
            invariant
                self@.wf(),
                gitems == items.deep_view(),
                gfresh == fresh.deep_view(),
                gitems.len() == items@.len(),
                gfresh.len() == fresh@.len(),
                gfresh.len() == gitems.len(),
                k <= items@.len(),
                s0.ack + 2 * gitems.len() <= u64::MAX,
                self@ == spec_apply_batch(
                    s0,
                    token@,
                    email@,
                    gitems.take(k as int),
                    gfresh.take(k as int),
                    now,
                ).0,
                obs.deep_view() == spec_apply_batch(
                    s0,
                    token@,
                    email@,
                    gitems.take(k as int),
                    gfresh.take(k as int),
                    now,
                ).1,
            decreases items@.len() - k,
        {
            proof {
                lemma_batch_ack_bound(
                    s0,
                    token@,
                    email@,
                    gitems.take(k as int),
                    gfresh.take(k as int),
                    now,
                );
                assert(gitems.take(k as int).len() == k);
                assert(self@.ack <= s0.ack + 2 * k);
            }
            let item = items[k].clone();
            let fid = fresh[k].clone();
            assert(item@ == gitems[k as int]);
            assert(fid@ == gfresh[k as int]);
            let ghost smid = self@;
            let mut step = self.apply_remote_item(token, email, item, fid, now);
            let ghost gstep = step.deep_view();
            let ghost preobs = obs.deep_view();
            obs.append(&mut step);
            proof {
                assert(obs.deep_view() =~= preobs + gstep);
                lemma_batch_snoc(s0, token@, email@, gitems, gfresh, now, k as int);
            }
            k = k + 1;
        }
        proof {
            assert(gitems.take(gitems.len() as int) =~= gitems);
            assert(gfresh.take(gfresh.len() as int) =~= gfresh);
        }
        obs
    }
}

/// Every session keys its mirrored calendar entries by account email, one
/// entry per account.
pub open spec fn sessions_wf(ss: Seq<SessionV>) -> bool {
    forall|i: int| 0 <= i < ss.len() ==> crate::assoc::unique_keys(#[trigger] ss[i].calendar_ids)
}

/// The store has fully absorbed this upsert: the cache holds exactly this
/// event under its id, and the linked session, if one exists, spans its
/// time range.
pub open spec fn synced(s: StateV, token: Seq<char>, email: Seq<char>, u: RemoteEventV) -> bool {
    let cache = cache_of(s, token);
    let ci = cache_idx(cache, u.id);
    let si = linked_session_idx(s.sessions, email, u.id);
    &&& ci != -1
    &&& cache[ci] == u
    &&& (si != -1 ==> s.sessions[si].start == u.start && s.sessions[si].end == u.end)
}

/// A session linked to this id exists only if the id is cached: the link
/// was recorded when the event entered the cache.
pub open spec fn item_coherent(s: StateV, token: Seq<char>, email: Seq<char>, id: Seq<char>) -> bool {
    linked_session_idx(s.sessions, email, id) != -1 ==> cache_idx(cache_of(s, token), id) != -1
}

/// A batch of upserts whose ids are pairwise distinct, as a remote delta
/// feed delivers them.
pub open spec fn upsert_batch(items: Seq<RemoteItemV>) -> bool {
    &&& (forall|k: int| 0 <= k < items.len() ==> items[k] is Upsert)
    &&& (forall|k: int, l: int|
        0 <= k < l < items.len() ==> items[k]->Upsert_0.id != items[l]->Upsert_0.id)
}

/// Two sessions with the same mirrored-entry list are linked to the same
/// ids.
proof fn lemma_linked_same_ids(a: SessionV, b: SessionV, email: Seq<char>, id: Seq<char>)
    requires
        a.calendar_ids == b.calendar_ids,
    ensures
        session_linked(a, email, id) == session_linked(b, email, id),
{
    if session_linked(a, email, id) {
        let k = choose|k: int|
            0 <= k < a.calendar_ids.len() && a.calendar_ids[k] == (email, id);
        assert(b.calendar_ids[k] == (email, id));
    }
    if session_linked(b, email, id) {
        let k = choose|k: int|
            0 <= k < b.calendar_ids.len() && b.calendar_ids[k] == (email, id);
        assert(a.calendar_ids[k] == (email, id));
    }
}

/// A store already synced with an upsert absorbs a replay: neither the
/// sessions nor the account's cache change, and the only notification is
/// the event-level echo.
pub proof fn lemma_apply_synced(
    s: StateV,
    token: Seq<char>,
    email: Seq<char>,
    u: RemoteEventV,
    fresh: Seq<char>,
    now: u64,
)
    requires
        crate::assoc::unique_keys(s.event_caches),
        synced(s, token, email, u),
    ensures
        ({
            let r = spec_apply_item(s, token, email, RemoteItemV::Upsert(u), fresh, now);
            &&& r.0.sessions == s.sessions
            &&& cache_of(r.0, token) == cache_of(s, token)
            &&& crate::assoc::unique_keys(r.0.event_caches)
            &&& r.1.len() == 1
            &&& r.1[0].envelope.payload == SseEventV::EventUpdated(u)
        }),
{
    let cache = cache_of(s, token);
    let p = |e: RemoteEventV| e.id == u.id;
    let ci = cache_idx(cache, u.id);
    crate::assoc::lemma_first_where(cache, p);
    assert(cache.update(ci, u) =~= cache);
    crate::assoc::lemma_set_val_unique(s.event_caches, token, cache.update(ci, u));
    let r = spec_apply_item(s, token, email, RemoteItemV::Upsert(u), fresh, now);
    assert(has_key(r.0.event_caches, token));
    assert(cache_of(r.0, token) == cache.update(ci, u));
}

/// Applying an upsert leaves the store synced with it.
pub proof fn lemma_apply_establishes_synced(
    s: StateV,
    token: Seq<char>,
    email: Seq<char>,
    u: RemoteEventV,
    fresh: Seq<char>,
    now: u64,
)
    requires
        crate::assoc::unique_keys(s.event_caches),
        item_coherent(s, token, email, u.id),
    ensures
        synced(
            spec_apply_item(s, token, email, RemoteItemV::Upsert(u), fresh, now).0,
            token,
            email,
            u,
        ),
{
    let cache = cache_of(s, token);
    let p = |e: RemoteEventV| e.id == u.id;
    let ci = cache_idx(cache, u.id);
    crate::assoc::lemma_first_where(cache, p);
    let pl = |x: SessionV| session_linked(x, email, u.id);
    let si = linked_session_idx(s.sessions, email, u.id);
    crate::assoc::lemma_first_where(s.sessions, pl);
    let r = spec_apply_item(s, token, email, RemoteItemV::Upsert(u), fresh, now);
    if ci != -1 {
        let cache2 = cache.update(ci, u);
        crate::assoc::lemma_set_val_unique(s.event_caches, token, cache2);
        assert(p(cache[ci]) && p(u));
        crate::assoc::lemma_first_where_agree(cache, p, ci, u);
        assert(cache_of(r.0, token) == cache2);
        assert(cache_idx(cache2, u.id) == ci && cache2[ci] == u);
        if si != -1 && (s.sessions[si].start != u.start || s.sessions[si].end != u.end) {
            let sess1 = SessionV { start: u.start, end: u.end, last_updated: now, ..s.sessions[si] };
            lemma_linked_same_ids(sess1, s.sessions[si], email, u.id);
            assert(pl(sess1) == pl(s.sessions[si]));
            crate::assoc::lemma_first_where_agree(s.sessions, pl, si, sess1);
            assert(linked_session_idx(r.0.sessions, email, u.id) == si);
            assert(r.0.sessions[si] == sess1);
        } else {
        }
    } else {
        let cache2 = cache.push(u);
        crate::assoc::lemma_set_val_unique(s.event_caches, token, cache2);
        crate::assoc::lemma_first_where_push(cache, p, u);
        assert(cache_of(r.0, token) == cache2);
        assert(cache_idx(cache2, u.id) == cache.len() as int);
        assert(cache2[cache.len() as int] == u);
        assert(si == -1);
        let pi = match u.summary {
            Some(sm) => patient_name_idx(s.patients, sm),
            None => -1,
        };
        if pi != -1 {
            let sess = reconciled_session_v(fresh, s.patients[pi].uuid, u, email, now);
            assert(sess.calendar_ids[0] == (email, u.id));
            assert(session_linked(sess, email, u.id)) by {
                assert(0 <= 0 < sess.calendar_ids.len() && sess.calendar_ids[0] == (email, u.id));
            };
            crate::assoc::lemma_first_where_push(s.sessions, pl, sess);
            assert(linked_session_idx(r.0.sessions, email, u.id) == s.sessions.len() as int);
            assert(r.0.sessions[s.sessions.len() as int] == sess);
        } else {
        }
    }
}

/// Applying an upsert with a different id preserves syncedness with this
/// one: distinct ids touch distinct cache entries and, because a session
/// mirrors at most one entry per account, distinct sessions.
pub proof fn lemma_apply_preserves_synced(
    s: StateV,
    token: Seq<char>,
    email: Seq<char>,
    u: RemoteEventV,
    u2: RemoteEventV,
    fresh: Seq<char>,
    now: u64,
)
    requires
        crate::assoc::unique_keys(s.event_caches),
        sessions_wf(s.sessions),
        synced(s, token, email, u),
        u2.id != u.id,
    ensures
        synced(
            spec_apply_item(s, token, email, RemoteItemV::Upsert(u2), fresh, now).0,
            token,
            email,
            u,
        ),
{
    let cache = cache_of(s, token);
    let p = |e: RemoteEventV| e.id == u.id;
    let p2 = |e: RemoteEventV| e.id == u2.id;
    let ci = cache_idx(cache, u.id);
    let ci2 = cache_idx(cache, u2.id);
    crate::assoc::lemma_first_where(cache, p);
    crate::assoc::lemma_first_where(cache, p2);
    let pl = |x: SessionV| session_linked(x, email, u.id);
    let pl2 = |x: SessionV| session_linked(x, email, u2.id);
    let si = linked_session_idx(s.sessions, email, u.id);
    let si2 = linked_session_idx(s.sessions, email, u2.id);
    crate::assoc::lemma_first_where(s.sessions, pl);
    crate::assoc::lemma_first_where(s.sessions, pl2);
    let r = spec_apply_item(s, token, email, RemoteItemV::Upsert(u2), fresh, now);
    if ci2 != -1 {
        let cache2 = cache.update(ci2, u2);
        crate::assoc::lemma_set_val_unique(s.event_caches, token, cache2);
        assert(cache_of(r.0, token) == cache2);
        assert(!p(cache[ci2]) && !p(u2));
        crate::assoc::lemma_first_where_agree(cache, p, ci2, u2);
        assert(cache_idx(cache2, u.id) == ci);
        assert(ci != ci2);
        assert(cache2[ci] == u);
        if si2 != -1 && (s.sessions[si2].start != u2.start || s.sessions[si2].end != u2.end) {
            let sess1 = SessionV {
                start: u2.start,
                end: u2.end,
                last_updated: now,
                ..s.sessions[si2]
            };
            lemma_linked_same_ids(sess1, s.sessions[si2], email, u.id);
            assert(pl(sess1) == pl(s.sessions[si2]));
            crate::assoc::lemma_first_where_agree(s.sessions, pl, si2, sess1);
            assert(linked_session_idx(r.0.sessions, email, u.id) == si);
            if si != -1 {
                if si == si2 {
                    let ka = choose|k: int|
                        0 <= k < s.sessions[si].calendar_ids.len()
                            && s.sessions[si].calendar_ids[k] == (email, u.id);
                    let kb = choose|k: int|
                        0 <= k < s.sessions[si2].calendar_ids.len()
                            && s.sessions[si2].calendar_ids[k] == (email, u2.id);
                    assert(s.sessions[si].calendar_ids[ka] == (email, u.id));
                    assert(s.sessions[si].calendar_ids[kb] == (email, u2.id));
                    assert(ka != kb);
                    assert(crate::assoc::unique_keys(s.sessions[si].calendar_ids));
                    assert(false);
                }
                assert(r.0.sessions[si] == s.sessions[si]);
            }
        } else {
        }
    } else {
        let cache2 = cache.push(u2);
        crate::assoc::lemma_set_val_unique(s.event_caches, token, cache2);
        crate::assoc::lemma_first_where_push(cache, p, u2);
        assert(cache_of(r.0, token) == cache2);
        assert(cache_idx(cache2, u.id) == ci);
        assert(cache2[ci] == u);
        let pi = match u2.summary {
            Some(sm) => patient_name_idx(s.patients, sm),
            None => -1,
        };
        if si2 == -1 && pi != -1 {
            let sess = reconciled_session_v(fresh, s.patients[pi].uuid, u2, email, now);
            assert(sess.calendar_ids.len() == 1 && sess.calendar_ids[0] == (email, u2.id));
            assert(!pl(sess));
            crate::assoc::lemma_first_where_push(s.sessions, pl, sess);
            assert(linked_session_idx(r.0.sessions, email, u.id) == si);
            if si != -1 {
                assert(r.0.sessions[si] == s.sessions[si]);
            }
        } else {
        }
    }
}

/// Applying an upsert keeps the store's keyed collections well-formed and
/// keeps link-cache coherence for every other id.
pub proof fn lemma_apply_preserves_wf(
    s: StateV,
    token: Seq<char>,
    email: Seq<char>,
    u2: RemoteEventV,
    fresh: Seq<char>,
    now: u64,
    id: Seq<char>,
)
    requires
        crate::assoc::unique_keys(s.event_caches),
        sessions_wf(s.sessions),
    ensures
        ({
            let r = spec_apply_item(s, token, email, RemoteItemV::Upsert(u2), fresh, now);
            &&& crate::assoc::unique_keys(r.0.event_caches)
            &&& sessions_wf(r.0.sessions)
            &&& (id != u2.id && item_coherent(s, token, email, id) ==> item_coherent(
                r.0,
                token,
                email,
                id,
            ))
        }),
{
    let cache = cache_of(s, token);
    let p = |e: RemoteEventV| e.id == id;
    let ci2 = cache_idx(cache, u2.id);
    crate::assoc::lemma_first_where(cache, |e: RemoteEventV| e.id == u2.id);
    crate::assoc::lemma_first_where(cache, p);
    let pl = |x: SessionV| session_linked(x, email, id);
    let pl2 = |x: SessionV| session_linked(x, email, u2.id);
    let si2 = linked_session_idx(s.sessions, email, u2.id);
    crate::assoc::lemma_first_where(s.sessions, pl);
    crate::assoc::lemma_first_where(s.sessions, pl2);
    let r = spec_apply_item(s, token, email, RemoteItemV::Upsert(u2), fresh, now);
    if ci2 != -1 {
        let cache2 = cache.update(ci2, u2);
        crate::assoc::lemma_set_val_unique(s.event_caches, token, cache2);
        if id != u2.id {
            assert(!p(cache[ci2]) && !p(u2));
            crate::assoc::lemma_first_where_agree(cache, p, ci2, u2);
        }
        if si2 != -1 && (s.sessions[si2].start != u2.start || s.sessions[si2].end != u2.end) {
            let sess1 = SessionV {
                start: u2.start,
                end: u2.end,
                last_updated: now,
                ..s.sessions[si2]
            };
            assert(sess1.calendar_ids == s.sessions[si2].calendar_ids);
            assert forall|i: int| 0 <= i < r.0.sessions.len() implies crate::assoc::unique_keys(
                #[trigger] r.0.sessions[i].calendar_ids,
            ) by {
                if i != si2 {
                    assert(r.0.sessions[i] == s.sessions[i]);
                }
            };
            if id != u2.id {
                lemma_linked_same_ids(sess1, s.sessions[si2], email, id);
                assert(pl(sess1) == pl(s.sessions[si2]));
                crate::assoc::lemma_first_where_agree(s.sessions, pl, si2, sess1);
            }
        } else {
        }
    } else {
        let cache2 = cache.push(u2);
        crate::assoc::lemma_set_val_unique(s.event_caches, token, cache2);
        if id != u2.id {
            crate::assoc::lemma_first_where_push(cache, p, u2);
        }
        let pi = match u2.summary {
            Some(sm) => patient_name_idx(s.patients, sm),
            None => -1,
        };
        if si2 == -1 && pi != -1 {
            let sess = reconciled_session_v(fresh, s.patients[pi].uuid, u2, email, now);
            assert(crate::assoc::unique_keys(sess.calendar_ids));
            assert forall|i: int| 0 <= i < r.0.sessions.len() implies crate::assoc::unique_keys(
                #[trigger] r.0.sessions[i].calendar_ids,
            ) by {
                if i < s.sessions.len() {
                    assert(r.0.sessions[i] == s.sessions[i]);
                } else {
                    assert(r.0.sessions[i] == sess);
                }
            };
            if id != u2.id {
                assert(sess.calendar_ids.len() == 1 && sess.calendar_ids[0] == (email, u2.id));
                assert(!pl(sess));
                crate::assoc::lemma_first_where_push(s.sessions, pl, sess);
            }
        } else {
        }
    }
}

/// A batch of upserts whose ids all differ from this one's preserves
/// syncedness with it.
proof fn lemma_batch_preserves_synced(
    s: StateV,
    token: Seq<char>,
    email: Seq<char>,
    items: Seq<RemoteItemV>,
    fresh: Seq<Seq<char>>,
    now: u64,
    u: RemoteEventV,
)
    requires
        crate::assoc::unique_keys(s.event_caches),
        sessions_wf(s.sessions),
        upsert_batch(items),
        items.len() <= fresh.len(),
        synced(s, token, email, u),
        forall|k: int| 0 <= k < items.len() ==> items[k]->Upsert_0.id != u.id,
    ensures
        synced(spec_apply_batch(s, token, email, items, fresh, now).0, token, email, u),
    decreases items.len(),
{
    if items.len() > 0 {
        let u0 = items[0]->Upsert_0;
        assert(items[0] == RemoteItemV::Upsert(u0));
        let r1 = spec_apply_item(s, token, email, items[0], fresh[0], now);
        lemma_apply_preserves_synced(s, token, email, u, u0, fresh[0], now);
        lemma_apply_preserves_wf(s, token, email, u0, fresh[0], now, u.id);
        assert(forall|k: int|
            0 <= k < items.drop_first().len() ==> items.drop_first()[k] == items[k + 1]);
        lemma_batch_preserves_synced(
            r1.0,
            token,
            email,
            items.drop_first(),
            fresh.drop_first(),
            now,
            u,
        );
    }
}

/// After one pass over an upsert batch with pairwise-distinct ids, the
/// store is synced with every one of its items.
proof fn lemma_batch_establishes_synced(
    s: StateV,
    token: Seq<char>,
    email: Seq<char>,
    items: Seq<RemoteItemV>,
    fresh: Seq<Seq<char>>,
    now: u64,
)
    requires
        crate::assoc::unique_keys(s.event_caches),
        sessions_wf(s.sessions),
        upsert_batch(items),
        items.len() <= fresh.len(),
        forall|k: int|
            0 <= k < items.len() ==> item_coherent(s, token, email, items[k]->Upsert_0.id),
    ensures
        ({
            let r = spec_apply_batch(s, token, email, items, fresh, now);
            &&& (forall|k: int|
                0 <= k < items.len() ==> synced(r.0, token, email, items[k]->Upsert_0))
            &&& crate::assoc::unique_keys(r.0.event_caches)
            &&& sessions_wf(r.0.sessions)
        }),
    decreases items.len(),
{
    if items.len() > 0 {
        let u0 = items[0]->Upsert_0;
        assert(items[0] == RemoteItemV::Upsert(u0));
        let r1 = spec_apply_item(s, token, email, items[0], fresh[0], now);
        lemma_apply_establishes_synced(s, token, email, u0, fresh[0], now);
        assert forall|k: int| 0 <= k < items.drop_first().len() implies item_coherent(
            r1.0,
            token,
            email,
            items.drop_first()[k]->Upsert_0.id,
        ) by {
            assert(items.drop_first()[k] == items[k + 1]);
            lemma_apply_preserves_wf(
                s,
                token,
                email,
                u0,
                fresh[0],
                now,
                items[k + 1]->Upsert_0.id,
            );
        };
        lemma_apply_preserves_wf(s, token, email, u0, fresh[0], now, u0.id);
        lemma_batch_establishes_synced(
            r1.0,
            token,
            email,
            items.drop_first(),
            fresh.drop_first(),
            now,
        );
        assert(forall|k: int|
            0 <= k < items.drop_first().len() ==> items.drop_first()[k]->Upsert_0.id
                != u0.id);
        lemma_batch_preserves_synced(
            r1.0,
            token,
            email,
            items.drop_first(),
            fresh.drop_first(),
            now,
            u0,
        );
        let r = spec_apply_batch(s, token, email, items, fresh, now);
        assert forall|k: int| 0 <= k < items.len() implies synced(
            r.0,
            token,
            email,
            items[k]->Upsert_0,
        ) by {
            if k > 0 {
                assert(items.drop_first()[k - 1] == items[k]);
            }
        };
    }
}

/// Replaying a batch the store is already synced with changes neither the
/// sessions nor the account's cache, and every notification is an
/// event-level update: nothing is created a second time.
proof fn lemma_batch_on_synced(
    s: StateV,
    token: Seq<char>,
    email: Seq<char>,
    items: Seq<RemoteItemV>,
    fresh: Seq<Seq<char>>,
    now: u64,
)
    requires
        crate::assoc::unique_keys(s.event_caches),
        upsert_batch(items),
        items.len() <= fresh.len(),
        forall|k: int| 0 <= k < items.len() ==> synced(s, token, email, items[k]->Upsert_0),
    ensures
        ({
            let r = spec_apply_batch(s, token, email, items, fresh, now);
            &&& r.0.sessions == s.sessions
            &&& cache_of(r.0, token) == cache_of(s, token)
            &&& crate::assoc::unique_keys(r.0.event_caches)
            &&& r.1.len() == items.len()
            &&& (forall|k: int|
                0 <= k < items.len() ==> r.1[k].envelope.payload == SseEventV::EventUpdated(
                    items[k]->Upsert_0,
                ))
        }),
    decreases items.len(),
{
    if items.len() > 0 {
        let u0 = items[0]->Upsert_0;
        assert(items[0] == RemoteItemV::Upsert(u0));
        let r1 = spec_apply_item(s, token, email, items[0], fresh[0], now);
        lemma_apply_synced(s, token, email, u0, fresh[0], now);
        assert forall|k: int| 0 <= k < items.drop_first().len() implies synced(
            r1.0,
            token,
            email,
            items.drop_first()[k]->Upsert_0,
        ) by {
            assert(items.drop_first()[k] == items[k + 1]);
            let uk = items[k + 1]->Upsert_0;
            assert(synced(s, token, email, uk));
            assert(cache_of(r1.0, token) == cache_of(s, token));
            assert(r1.0.sessions == s.sessions);
        };
        lemma_batch_on_synced(r1.0, token, email, items.drop_first(), fresh.drop_first(), now);
        let rr = spec_apply_batch(
            r1.0,
            token,
            email,
            items.drop_first(),
            fresh.drop_first(),
            now,
        );
        let r = spec_apply_batch(s, token, email, items, fresh, now);
        assert(r.1 == r1.1 + rr.1);
        assert forall|k: int| 0 <= k < items.len() implies r.1[k].envelope.payload
            == SseEventV::EventUpdated(items[k]->Upsert_0) by {
            if k == 0 {
                assert(r.1[0] == r1.1[0]);
            } else {
                assert(r.1[k] == rr.1[k - 1]);
                assert(items.drop_first()[k - 1] == items[k]);
            }
        };
    }
}

/// Reconciliation is idempotent: replaying an identical upsert batch,
/// whose ids are pairwise distinct and whose linked sessions are backed by
/// the cache, leaves the sessions and the account's event cache exactly as
/// the first pass left them, and announces no second SessionAdded or
/// EventAdded — every replayed notification is an event-level update.
pub proof fn lemma_reconcile_idempotent(
    s: StateV,
    token: Seq<char>,
    email: Seq<char>,
    items: Seq<RemoteItemV>,
    fresh1: Seq<Seq<char>>,
    fresh2: Seq<Seq<char>>,
    now: u64,
)
    requires
        crate::assoc::unique_keys(s.event_caches),
        sessions_wf(s.sessions),
        upsert_batch(items),
        items.len() <= fresh1.len(),
        items.len() <= fresh2.len(),
        forall|k: int|
            0 <= k < items.len() ==> item_coherent(s, token, email, items[k]->Upsert_0.id),
    ensures
        ({
            let r1 = spec_apply_batch(s, token, email, items, fresh1, now);
            let r2 = spec_apply_batch(r1.0, token, email, items, fresh2, now);
            &&& r2.0.sessions == r1.0.sessions
            &&& cache_of(r2.0, token) == cache_of(r1.0, token)
            &&& r2.1.len() == items.len()
            &&& (forall|k: int|
                0 <= k < items.len() ==> r2.1[k].envelope.payload == SseEventV::EventUpdated(
                    items[k]->Upsert_0,
                ))
        }),
{
    lemma_batch_establishes_synced(s, token, email, items, fresh1, now);
    let r1 = spec_apply_batch(s, token, email, items, fresh1, now);
    lemma_batch_on_synced(r1.0, token, email, items, fresh2, now);
}

} // verus!
