use vstd::prelude::*;

use crate::assoc::{first_where, lemma_first_where_is, lemma_first_where_none};
use crate::broadcast::{all_targets, EnvelopeV, Outbound, SseEvent, SseEventV};
use crate::entities::{Emotion, EmotionV, Session, SessionV};
use crate::store::{State, StateV, StoreError};

verus! {

/// The position of the first session with this identity, or -1.
pub open spec fn session_idx(ss: Seq<SessionV>, uuid: Seq<char>) -> int {
    first_where(ss, |s: SessionV| s.uuid == uuid)
}

/// Is this identity a known patient's?
pub open spec fn patient_exists(ps: Seq<crate::entities::PatientV>, uuid: Seq<char>) -> bool {
    crate::patients::patient_idx(ps, uuid) != -1
}

/// An emotion as creation builds it: only identity and creation time.
pub open spec fn new_emotion_v(uuid: Seq<char>, now: u64) -> EmotionV {
    EmotionV {
        uuid: uuid,
        id: None,
        kind: None,
        aquired_age: None,
        aquired_person: Seq::<char>::empty(),
        created_at: now,
    }
}

/// A session as creation builds it: the given time range, nothing paid,
/// one blank emotion to start editing from, an empty timeline, and no
/// mirrored calendar entries yet.
pub open spec fn new_session_v(
    uuid: Seq<char>,
    patient_uuid: Seq<char>,
    start: u64,
    end: u64,
    emotion_uuid: Seq<char>,
    now: u64,
) -> SessionV {
    SessionV {
        uuid: uuid,
        patient_uuid: patient_uuid,
        start: start,
        end: end,
        paid: 0,
        emotions: seq![new_emotion_v(emotion_uuid, now)],
        timeline: Seq::empty(),
        created_at: now,
        last_updated: now,
        calendar_ids: Seq::empty(),
    }
}

/// A session as the outward event-creation path builds it: the given time
/// range, nothing paid, no emotions yet, and the creating account's
/// mirrored calendar entry already linked.
pub open spec fn new_linked_session_v(
    uuid: Seq<char>,
    patient_uuid: Seq<char>,
    start: u64,
    end: u64,
    email: Seq<char>,
    event_id: Seq<char>,
    now: u64,
) -> SessionV {
    SessionV {
        uuid: uuid,
        patient_uuid: patient_uuid,
        start: start,
        end: end,
        paid: 0,
        emotions: Seq::empty(),
        timeline: Seq::empty(),
        created_at: now,
        last_updated: now,
        calendar_ids: seq![(email, event_id)],
    }
}

/// A session after a partial update: patient and time range replaced when
/// given and different, the paid amount replaced when given, and the
/// update timestamp refreshed.
pub open spec fn updated_session_v(
    s: SessionV,
    patient: Option<Seq<char>>,
    time_start: Option<u64>,
    time_end: Option<u64>,
    paid: Option<u64>,
    now: u64,
) -> SessionV {
    let s1 = match patient {
        Some(p) => if p != s.patient_uuid {
            SessionV { patient_uuid: p, ..s }
        } else {
            s
        },
        None => s,
    };
    let s2 = match time_start {
        Some(t) => if t != s1.start {
            SessionV { start: t, ..s1 }
        } else {
            s1
        },
        None => s1,
    };
    let s3 = match time_end {
        Some(t) => if t != s2.end {
            SessionV { end: t, ..s2 }
        } else {
            s2
        },
        None => s2,
    };
    let s4 = match paid {
        Some(p) => SessionV { paid: p, ..s3 },
        None => s3,
    };
    SessionV { last_updated: now, ..s4 }
}

/// Whether a partial update changed patient or time range — the fields the
/// mirrored calendar entries repeat, so the caller must push calendar
/// edits exactly when this holds.
pub open spec fn session_update_flag(
    s: SessionV,
    patient: Option<Seq<char>>,
    time_start: Option<u64>,
    time_end: Option<u64>,
) -> bool {
    ||| match patient {
        Some(p) => p != s.patient_uuid,
        None => false,
    }
    ||| match time_start {
        Some(t) => t != s.start,
        None => false,
    }
    ||| match time_end {
        Some(t) => t != s.end,
        None => false,
    }
}

impl State {
    /// The position of the first session with this identity.
    pub(crate) fn find_session(&self, uuid: &String) -> (r: Option<usize>)
        ensures
            r is Some <==> session_idx(self@.sessions, uuid@) != -1,
            r is Some ==> r.unwrap() as int == session_idx(self@.sessions, uuid@) && (
            r.unwrap() as int) < self@.sessions.len(),
    {
        let ghost sv = self@.sessions;
        let ghost p = |s: SessionV| s.uuid == uuid@;
        let mut i: usize = 0;
        while i < self.sessions.len()
            invariant
                sv == self@.sessions,
                sv.len() == self.sessions@.len(),
                i <= self.sessions@.len(),
                p == (|s: SessionV| s.uuid == uuid@),
                forall|j: int| 0 <= j < i ==> !p(sv[j]),
            decreases self.sessions@.len() - i,
        {
            assert(sv[i as int] == self.sessions@[i as int]@);
            if self.sessions[i].uuid.eq(uuid) {
                proof {
                    assert(p(sv[i as int]));
                    lemma_first_where_is(sv, p, i as int);
                }
                return Some(i);
            }
            i = i + 1;
        }
        proof {
            lemma_first_where_none(sv, p);
        }
        None
    }

    /// Creates a session for an existing patient, spanning the given time
    /// range and seeded with one blank emotion; announces it to every
    /// subscriber. The caller then mirrors it into the enabled accounts'
    /// calendars and records the entry ids with `link_calendar_ids`.
    pub fn create_session(
        &mut self,
        uuid: String,
        emotion_uuid: String,
        patient: String,
        time_start: u64,
        time_end: u64,
        now: u64,
    ) -> (r: Result<Outbound, StoreError>)
        requires
            old(self)@.wf(),
            old(self)@.ack < u64::MAX,
        ensures
            final(self)@.wf(),
            r is Ok <==> patient_exists(old(self)@.patients, patient@),
            r is Err ==> final(self)@ == old(self)@ && r->Err_0 == StoreError::NotFound,
            r is Ok ==> ({
                let s = new_session_v(uuid@, patient@, time_start, time_end, emotion_uuid@, now);
                &&& final(self)@ == (StateV {
                    sessions: old(self)@.sessions.push(s),
                    ack: (old(self)@.ack + 1) as u64,
                    ..old(self)@
                })
                &&& r->Ok_0@.envelope == (EnvelopeV {
                    payload: SseEventV::SessionAdded(s),
                    ack: old(self)@.ack,
                    socket_ack: None,
                })
                &&& r->Ok_0@.targets == all_targets(old(self)@.sse)
            }),
    {
        if self.find_patient(&patient).is_none() {
            proof {
                assert(self@ =~= old(self)@);
            }
            return Err(StoreError::NotFound);
        }
        let ghost gs = new_session_v(uuid@, patient@, time_start, time_end, emotion_uuid@, now);
        let emotion = Emotion {
            uuid: emotion_uuid,
            id: None,
            kind: None,
            aquired_age: None,
            aquired_person: String::new(),
            created_at: now,
        };
        let mut emotions: Vec<Emotion> = Vec::new();
        emotions.push(emotion);
        let session = Session {
            uuid,
            patient_uuid: patient,
            start: time_start,
            end: time_end,
            paid: 0,
            emotions,
            timeline: Vec::new(),
            created_at: now,
            last_updated: now,
            calendar_ids: Vec::new(),
        };
        proof {
            assert(session@ =~= gs);
        }
        let announced = session.clone();
        self.sessions.push(session);
        proof {
            assert(self@.sessions =~= old(self)@.sessions.push(gs));
        }
        let ob = self.broadcast(SseEvent::SessionAdded(announced));
        proof {
            assert(self@ =~= (StateV {
                sessions: old(self)@.sessions.push(gs),
                ack: (old(self)@.ack + 1) as u64,
                ..old(self)@
            }));
        }
        Ok(ob)
    }

    /// Creates a session that is already mirrored by one account's calendar
    /// entry, as the outward event-creation path does after the remote call
    /// answered with the entry's id: the given time range, no emotions yet,
    /// and the link recorded; announced to every subscriber.
    pub fn create_linked_session(
        &mut self,
        uuid: String,
        patient: String,
        time_start: u64,
        time_end: u64,
        email: String,
        event_id: String,
        now: u64,
    ) -> (r: Result<Outbound, StoreError>)
        requires
            old(self)@.wf(),
            old(self)@.ack < u64::MAX,
        ensures
            final(self)@.wf(),
            r is Ok <==> patient_exists(old(self)@.patients, patient@),
            r is Err ==> final(self)@ == old(self)@ && r->Err_0 == StoreError::NotFound,
            r is Ok ==> ({
                let s = new_linked_session_v(
                    uuid@,
                    patient@,
                    time_start,
                    time_end,
                    email@,
                    event_id@,
                    now,
                );
                &&& final(self)@ == (StateV {
                    sessions: old(self)@.sessions.push(s),
                    ack: (old(self)@.ack + 1) as u64,
                    ..old(self)@
                })
                &&& r->Ok_0@.envelope == (EnvelopeV {
                    payload: SseEventV::SessionAdded(s),
                    ack: old(self)@.ack,
                    socket_ack: None,
                })
                &&& r->Ok_0@.targets == all_targets(old(self)@.sse)
            }),
    {
        if self.find_patient(&patient).is_none() {
            proof {
                assert(self@ =~= old(self)@);
            }
            return Err(StoreError::NotFound);
        }
        let ghost gs = new_linked_session_v(
            uuid@,
            patient@,
            time_start,
            time_end,
            email@,
            event_id@,
            now,
        );
        let mut cal: Vec<(String, String)> = Vec::new();
        cal.push((email, event_id));
        let session = Session {
            uuid,
            patient_uuid: patient,
            start: time_start,
            end: time_end,
            paid: 0,
            emotions: Vec::new(),
            timeline: Vec::new(),
            created_at: now,
            last_updated: now,
            calendar_ids: cal,
        };
        proof {
            assert(session@ =~= gs);
        }
        let announced = session.clone();
        self.sessions.push(session);
        proof {
            assert(self@.sessions =~= old(self)@.sessions.push(gs));
        }
        let ob = self.broadcast(SseEvent::SessionAdded(announced));
        proof {
            assert(self@ =~= (StateV {
                sessions: old(self)@.sessions.push(gs),
                ack: (old(self)@.ack + 1) as u64,
                ..old(self)@
            }));
        }
        Ok(ob)
    }

    /// Records which calendar entry mirrors a session in each account's
    /// calendar, once the outward creation calls have answered.
    pub fn link_calendar_ids(&mut self, uuid: &String, calendar_ids: Vec<(String, String)>) -> (r:
        Result<(), StoreError>)
        requires
            old(self)@.wf(),
        ensures
            final(self)@.wf(),
            r is Ok <==> session_idx(old(self)@.sessions, uuid@) != -1,
            r is Err ==> final(self)@ == old(self)@ && r->Err_0 == StoreError::NotFound,
            r is Ok ==> ({
                let i = session_idx(old(self)@.sessions, uuid@);
                let s1 = SessionV {
                    calendar_ids: calendar_ids.deep_view(),
                    ..old(self)@.sessions[i]
                };
                final(self)@ == (StateV {
                    sessions: old(self)@.sessions.update(i, s1),
                    ..old(self)@
                })
            }),
    {
        let idx = match self.find_session(uuid) {
            Some(i) => i,
            None => {
                proof {
                    assert(self@ =~= old(self)@);
                }
                return Err(StoreError::NotFound);
            },
        };
        let ghost i = idx as int;
        let ghost s0 = self@.sessions[i];
        let mut s = self.sessions.remove(idx);
        s.calendar_ids = calendar_ids;
        let ghost s1 = s@;
        self.sessions.insert(idx, s);
        proof {
            assert(self@.sessions =~= old(self)@.sessions.update(i, s1));
            assert(self@ =~= (StateV {
                sessions: old(self)@.sessions.update(i, s1),
                ..old(self)@
            }));
        }
        Ok(())
    }

    /// Applies a partial update to a session. A named patient must exist;
    /// an unknown session is reported; the updated record is announced to
    /// every subscriber. The second component tells whether patient or
    /// time range changed, which is when the caller must push edits to the
    /// mirrored calendar entries.
    pub fn update_session(
        &mut self,
        uuid: &String,
        patient: Option<String>,
        time_start: Option<u64>,
        time_end: Option<u64>,
        paid: Option<u64>,
        now: u64,
    ) -> (r: Result<(Outbound, bool), StoreError>)
        requires
            old(self)@.wf(),
            old(self)@.ack < u64::MAX,
        ensures
            final(self)@.wf(),
            r is Err ==> final(self)@ == old(self)@ && r->Err_0 == StoreError::NotFound,
            r is Ok <==> ((patient is Some ==> patient_exists(
                old(self)@.patients,
                patient.unwrap()@,
            )) && session_idx(old(self)@.sessions, uuid@) != -1),
            r is Ok ==> ({
                let i = session_idx(old(self)@.sessions, uuid@);
                let s0 = old(self)@.sessions[i];
                let s1 = updated_session_v(
                    s0,
                    patient.deep_view(),
                    time_start,
                    time_end,
                    paid,
                    now,
                );
                &&& final(self)@ == (StateV {
                    sessions: old(self)@.sessions.update(i, s1),
                    ack: (old(self)@.ack + 1) as u64,
                    ..old(self)@
                })
                &&& r->Ok_0.0@.envelope == (EnvelopeV {
                    payload: SseEventV::SessionUpdated(s1),
                    ack: old(self)@.ack,
                    socket_ack: None,
                })
                &&& r->Ok_0.0@.targets == all_targets(old(self)@.sse)
                &&& r->Ok_0.1 == session_update_flag(s0, patient.deep_view(), time_start, time_end)
            }),
    {
        match &patient {
            Some(p) => {
                if self.find_patient(p).is_none() {
                    proof {
                        assert(self@ =~= old(self)@);
                    }
                    return Err(StoreError::NotFound);
                }
            },
            None => {},
        }
        let idx = match self.find_session(uuid) {
            Some(i) => i,
            None => {
                proof {
                    assert(self@ =~= old(self)@);
                }
                return Err(StoreError::NotFound);
            },
        };
        let ghost i = idx as int;
        let ghost s0 = self@.sessions[i];
        let mut s = self.sessions.remove(idx);
        assert(s@ == s0);
        let mut flag = false;
        match patient {
            Some(p) => {
                if !p.eq(&s.patient_uuid) {
                    s.patient_uuid = p;
                    flag = true;
                }
            },
            None => {},
        }
        match time_start {
            Some(t) => {
                if t != s.start {
                    s.start = t;
                    flag = true;
                }
            },
            None => {},
        }
        match time_end {
            Some(t) => {
                if t != s.end {
                    s.end = t;
                    flag = true;
                }
            },
            None => {},
        }
        match paid {
            Some(p) => {
                s.paid = p;
            },
            None => {},
        }
        s.last_updated = now;
        let ghost s1 = s@;
        proof {
            assert(s1 == updated_session_v(s0, patient.deep_view(), time_start, time_end, paid, now));
            assert(flag == session_update_flag(s0, patient.deep_view(), time_start, time_end));
        }
        let announced = s.clone();
        self.sessions.insert(idx, s);
        proof {
            assert(self@.sessions =~= old(self)@.sessions.update(i, s1));
        }
        let ob = self.broadcast(SseEvent::SessionUpdated(announced));
        proof {
            assert(self@ =~= (StateV {
                sessions: old(self)@.sessions.update(i, s1),
                ack: (old(self)@.ack + 1) as u64,
                ..old(self)@
            }));
        }
        Ok((ob, flag))
    }

    /// Deletes a session and announces the removal to every subscriber.
    /// The removed record comes back to the caller, who deletes its file
    /// and pushes tombstones for its mirrored calendar entries.
    pub fn delete_session(&mut self, uuid: &String) -> (r: Result<(Outbound, Session), StoreError>)
        requires
            old(self)@.wf(),
            old(self)@.ack < u64::MAX,
        ensures
            final(self)@.wf(),
            r is Ok <==> session_idx(old(self)@.sessions, uuid@) != -1,
            r is Err ==> final(self)@ == old(self)@ && r->Err_0 == StoreError::NotFound,
            r is Ok ==> ({
                let i = session_idx(old(self)@.sessions, uuid@);
                &&& final(self)@ == (StateV {
                    sessions: old(self)@.sessions.remove(i),
                    ack: (old(self)@.ack + 1) as u64,
                    ..old(self)@
                })
                &&& r->Ok_0.0@.envelope == (EnvelopeV {
                    payload: SseEventV::SessionRemoved(uuid@),
                    ack: old(self)@.ack,
                    socket_ack: None,
                })
                &&& r->Ok_0.0@.targets == all_targets(old(self)@.sse)
                &&& r->Ok_0.1@ == old(self)@.sessions[i]
            }),
    {
        let idx = match self.find_session(uuid) {
            Some(i) => i,
            None => {
                proof {
                    assert(self@ =~= old(self)@);
                }
                return Err(StoreError::NotFound);
            },
        };
        let ghost i = idx as int;
        let removed = self.sessions.remove(idx);
        proof {
            assert(self@.sessions =~= old(self)@.sessions.remove(i));
        }
        let ob = self.broadcast(SseEvent::SessionRemoved(uuid.clone()));
        proof {
            assert(self@ =~= (StateV {
                sessions: old(self)@.sessions.remove(i),
                ack: (old(self)@.ack + 1) as u64,
                ..old(self)@
            }));
        }
        Ok((ob, removed))
    }
}

} // verus!
