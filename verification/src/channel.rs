use vstd::prelude::*;

use crate::assoc::{first_where, lemma_first_where_is, lemma_first_where_none};
use crate::broadcast::{all_targets, EnvelopeV, Outbound, SseEvent, SseEventV};
use crate::entities::{Emotion, EmotionV, SessionV};
use crate::sessions::session_idx;
use crate::store::{State, StateV, StoreError};

verus! {

/// Seconds between heartbeat pings to a collaboration client.
pub const HEARTBEAT_INTERVAL_SECS: u64 = 5;

/// Seconds of heartbeat silence after which a channel closes.
pub const CLIENT_TIMEOUT_SECS: u64 = 10;

/// Seconds over which a channel's edits coalesce into one broadcast.
pub const DEBOUNCE_SECS: u64 = 5;

/// A collaboration channel's lifecycle. It opens `Unauthenticated`; a
/// valid bearer token moves it to `Authenticated`; anything else, a
/// malformed edit, or heartbeat silence moves it to `Closed`.
#[derive(Debug, Clone, Copy, PartialEq, Eq, Structural)]
pub enum ChannelPhase {
    Unauthenticated,
    Authenticated,
    Closed,
}

/// Why a channel refused an input.
#[derive(Debug, Clone, Copy, PartialEq, Eq, Structural)]
pub enum ChannelError {
    NotAuthenticated,
    SessionNotFound,
    EmotionExists,
    EmotionNotFound,
    PatientNotFound,
}

impl ChannelError {
    /// The text sent to the client before the channel closes on an error.
    pub fn message(&self) -> (r: &'static str)
        ensures
            r@ == self.spec_message(),
    {
        match self {
            ChannelError::NotAuthenticated => "Unauthorized",
            ChannelError::SessionNotFound => "Session not found",
            ChannelError::EmotionExists => "Emotion already exists",
            ChannelError::EmotionNotFound => "Emotion not found",
            ChannelError::PatientNotFound => "Patient not found",
        }
    }

    pub open spec fn spec_message(self) -> Seq<char> {
        match self {
            ChannelError::NotAuthenticated => "Unauthorized"@,
            ChannelError::SessionNotFound => "Session not found"@,
            ChannelError::EmotionExists => "Emotion already exists"@,
            ChannelError::EmotionNotFound => "Emotion not found"@,
            ChannelError::PatientNotFound => "Patient not found"@,
        }
    }
}

/// A text frame pushed to the collaboration client.
#[derive(Debug, Clone)]
pub struct WsMessage(pub String);

/// An instruction to the transport to close the channel.
#[derive(Debug, Clone, Copy)]
pub struct CloseSession;

/// A partial edit of one emotion entry: present fields are applied, the
/// person text only when non-empty.
#[derive(Debug, Clone)]
pub struct EditEmotion {
    pub uuid: String,
    pub id: Option<u8>,
    pub kind: Option<u8>,
    pub aquired_age: Option<u8>,
    pub aquired_person: String,
}

#[verifier::ext_equal]
pub ghost struct EditEmotionV {
    pub uuid: Seq<char>,
    pub id: Option<u8>,
    pub kind: Option<u8>,
    pub aquired_age: Option<u8>,
    pub aquired_person: Seq<char>,
}

impl View for EditEmotion {
    type V = EditEmotionV;

    open spec fn view(&self) -> EditEmotionV {
        EditEmotionV {
            uuid: self.uuid@,
            id: self.id,
            kind: self.kind,
            aquired_age: self.aquired_age,
            aquired_person: self.aquired_person@,
        }
    }
}

impl DeepView for EditEmotion {
    type V = EditEmotionV;

    open spec fn deep_view(&self) -> EditEmotionV {
        self.view()
    }
}

/// A client-to-server collaboration message.
#[derive(Debug, Clone)]
pub enum SocketMessage {
    AddEmotion(String),
    AddEmotionPrepend(String),
    EditEmotion(EditEmotion),
    RemoveEmotion(String),
    EditDescription(String),
}

#[verifier::ext_equal]
pub ghost enum SocketMessageV {
    AddEmotion(Seq<char>),
    AddEmotionPrepend(Seq<char>),
    EditEmotion(EditEmotionV),
    RemoveEmotion(Seq<char>),
    EditDescription(Seq<char>),
}

impl View for SocketMessage {
    type V = SocketMessageV;

    open spec fn view(&self) -> SocketMessageV {
        match self {
            SocketMessage::AddEmotion(s) => SocketMessageV::AddEmotion(s@),
            SocketMessage::AddEmotionPrepend(s) => SocketMessageV::AddEmotionPrepend(s@),
            SocketMessage::EditEmotion(e) => SocketMessageV::EditEmotion(e@),
            SocketMessage::RemoveEmotion(s) => SocketMessageV::RemoveEmotion(s@),
            SocketMessage::EditDescription(s) => SocketMessageV::EditDescription(s@),
        }
    }
}

impl DeepView for SocketMessage {
    type V = SocketMessageV;

    open spec fn deep_view(&self) -> SocketMessageV {
        self.view()
    }
}

/// One collaboration channel's own state: which session it edits, its
/// channel-local identifier (carried on its broadcasts so it can ignore
/// its own echo), its lifecycle phase, the instant of the last observed
/// heartbeat, and the two debounce flags.
#[derive(Debug, Clone)]
pub struct SessionSocket {
    pub uuid: String,
    pub socket_id: u64,
    pub phase: ChannelPhase,
    pub hb: u64,
    pub is_patient_update_scheduled: bool,
    pub is_session_update_scheduled: bool,
}

#[verifier::ext_equal]
pub ghost struct SessionSocketV {
    pub uuid: Seq<char>,
    pub socket_id: u64,
    pub phase: ChannelPhase,
    pub hb: u64,
    pub is_patient_update_scheduled: bool,
    pub is_session_update_scheduled: bool,
}

impl View for SessionSocket {
    type V = SessionSocketV;

    open spec fn view(&self) -> SessionSocketV {
        SessionSocketV {
            uuid: self.uuid@,
            socket_id: self.socket_id,
            phase: self.phase,
            hb: self.hb,
            is_patient_update_scheduled: self.is_patient_update_scheduled,
            is_session_update_scheduled: self.is_session_update_scheduled,
        }
    }
}

/// Has the channel gone silent past the heartbeat timeout?
pub open spec fn hb_expired(ch: SessionSocketV, now: u64) -> bool {
    now >= ch.hb && now - ch.hb > CLIENT_TIMEOUT_SECS
}

impl SessionSocket {
    /// Opens a channel on a session, unauthenticated, with the heartbeat
    /// clock starting now.
    pub fn new(uuid: String, socket_id: u64, now: u64) -> (r: SessionSocket)
        ensures
            r@ == (SessionSocketV {
                uuid: uuid@,
                socket_id: socket_id,
                phase: ChannelPhase::Unauthenticated,
                hb: now,
                is_patient_update_scheduled: false,
                is_session_update_scheduled: false,
            }),
    {
        SessionSocket {
            uuid,
            socket_id,
            phase: ChannelPhase::Unauthenticated,
            hb: now,
            is_patient_update_scheduled: false,
            is_session_update_scheduled: false,
        }
    }

    /// Records an observed heartbeat (an inbound ping or pong).
    pub fn heartbeat(&mut self, now: u64)
        ensures
            final(self)@ == (SessionSocketV { hb: now, ..old(self)@ }),
    {
        self.hb = now;
    }

    /// The periodic liveness check: a channel silent past the timeout
    /// closes. The check takes no store at all, so a channel that never
    /// authenticates is closed without any session having been touched.
    pub fn hb_check(&mut self, now: u64) -> (close: bool)
        ensures
            close == hb_expired(old(self)@, now),
            close ==> final(self)@ == (SessionSocketV {
                phase: ChannelPhase::Closed,
                ..old(self)@
            }),
            !close ==> final(self)@ == old(self)@,
    {
        if now >= self.hb && now - self.hb > CLIENT_TIMEOUT_SECS {
            self.phase = ChannelPhase::Closed;
            true
        } else {
            false
        }
    }

    /// The only input an unauthenticated channel accepts: a bearer token.
    /// A known token authenticates the channel, which acknowledges with
    /// its channel-local identifier; anything else is answered
    /// "Unauthorized" and the channel closes. The store is only read.
    pub fn try_authorize(&mut self, state: &State, token: &String) -> (r: (WsMessage, bool))
        requires
            state@.wf(),
            old(self)@.phase == ChannelPhase::Unauthenticated,
        ensures
            crate::assoc::has_key(state@.users, token@) ==> final(self)@ == (SessionSocketV {
                phase: ChannelPhase::Authenticated,
                ..old(self)@
            }) && !r.1 && r.0.0@ == "Authorized: "@ + crate::support::dec_chars_of(
                old(self)@.socket_id,
            ),
            !crate::assoc::has_key(state@.users, token@) ==> final(self)@ == (SessionSocketV {
                phase: ChannelPhase::Closed,
                ..old(self)@
            }) && r.1 && r.0.0@ == "Unauthorized"@,
    {
        if state.auth_token(token) {
            self.phase = ChannelPhase::Authenticated;
            let mut text = String::new();
            text.append("Authorized: ");
            let digits = crate::support::dec_u64_string(self.socket_id);
            text.append(digits.as_str());
            proof {
                assert(text@ =~= "Authorized: "@ + crate::support::dec_chars_of(
                    old(self)@.socket_id,
                ));
            }
            (WsMessage(text), false)
        } else {
            self.phase = ChannelPhase::Closed;
            let mut text = String::new();
            text.append("Unauthorized");
            proof {
                assert(text@ =~= "Unauthorized"@);
            }
            (WsMessage(text), true)
        }
    }
}

/// An emotion after a partial edit: the identifying fields are applied
/// when present, the person text only when non-empty.
pub open spec fn edited_emotion_v(e: EmotionV, edit: EditEmotionV) -> EmotionV {
    let e1 = match edit.id {
        Some(v) => EmotionV { id: Some(v), ..e },
        None => e,
    };
    let e2 = match edit.kind {
        Some(v) => EmotionV { kind: Some(v), ..e1 },
        None => e1,
    };
    let e3 = match edit.aquired_age {
        Some(v) => EmotionV { aquired_age: Some(v), ..e2 },
        None => e2,
    };
    if edit.aquired_person.len() != 0 {
        EmotionV { aquired_person: edit.aquired_person, ..e3 }
    } else {
        e3
    }
}

/// The position of the first emotion with this identity, or -1.
pub open spec fn emotion_idx(es: Seq<EmotionV>, uuid: Seq<char>) -> int {
    first_where(es, |e: EmotionV| e.uuid == uuid)
}

/// What one accepted collaboration edit does to the bound session (or its
/// patient's description).
pub open spec fn spec_channel_edit(
    s: StateV,
    session_uuid: Seq<char>,
    msg: SocketMessageV,
    now: u64,
) -> StateV {
    let si = session_idx(s.sessions, session_uuid);
    let sess = s.sessions[si];
    match msg {
        SocketMessageV::AddEmotion(uuid) => {
            let sess1 = SessionV {
                emotions: sess.emotions.push(crate::sessions::new_emotion_v(uuid, now)),
                ..sess
            };
            StateV { sessions: s.sessions.update(si, sess1), ..s }
        },
        SocketMessageV::AddEmotionPrepend(uuid) => {
            let sess1 = SessionV {
                emotions: seq![crate::sessions::new_emotion_v(uuid, now)] + sess.emotions,
                ..sess
            };
            StateV { sessions: s.sessions.update(si, sess1), ..s }
        },
        SocketMessageV::EditEmotion(edit) => {
            let ei = emotion_idx(sess.emotions, edit.uuid);
            let sess1 = SessionV {
                emotions: sess.emotions.update(ei, edited_emotion_v(sess.emotions[ei], edit)),
                ..sess
            };
            StateV { sessions: s.sessions.update(si, sess1), ..s }
        },
        SocketMessageV::RemoveEmotion(uuid) => {
            let sess1 = SessionV {
                emotions: sess.emotions.filter(|e: EmotionV| e.uuid != uuid),
                ..sess
            };
            StateV { sessions: s.sessions.update(si, sess1), ..s }
        },
        SocketMessageV::EditDescription(text) => {
            let pi = crate::patients::patient_idx(s.patients, sess.patient_uuid);
            let p1 = crate::entities::PatientV { description: text, ..s.patients[pi] };
            StateV { patients: s.patients.update(pi, p1), ..s }
        },
    }
}

/// Which refusal, if any, an edit meets, checked in the order the edits
/// are applied.
pub open spec fn channel_edit_err(
    s: StateV,
    session_uuid: Seq<char>,
    msg: SocketMessageV,
) -> Option<ChannelError> {
    let si = session_idx(s.sessions, session_uuid);
    if si == -1 {
        Some(ChannelError::SessionNotFound)
    } else {
        let sess = s.sessions[si];
        match msg {
            SocketMessageV::AddEmotion(u) => if emotion_idx(sess.emotions, u) != -1 {
                Some(ChannelError::EmotionExists)
            } else {
                None
            },
            SocketMessageV::AddEmotionPrepend(u) => if emotion_idx(sess.emotions, u) != -1 {
                Some(ChannelError::EmotionExists)
            } else {
                None
            },
            SocketMessageV::EditEmotion(e) => if emotion_idx(sess.emotions, e.uuid) == -1 {
                Some(ChannelError::EmotionNotFound)
            } else {
                None
            },
            SocketMessageV::RemoveEmotion(u) => None,
            SocketMessageV::EditDescription(t) => if crate::patients::patient_idx(
                s.patients,
                sess.patient_uuid,
            ) == -1 {
                Some(ChannelError::PatientNotFound)
            } else {
                None
            },
        }
    }
}

/// The position of the first emotion with this identity.
pub fn find_emotion(es: &Vec<Emotion>, uuid: &String) -> (r: Option<usize>)
    ensures
        r is Some <==> emotion_idx(es.deep_view(), uuid@) != -1,
        r is Some ==> r.unwrap() as int == emotion_idx(es.deep_view(), uuid@) && (
        r.unwrap() as int) < es.deep_view().len(),
{
    let ghost ev = es.deep_view();
    let ghost p = |e: EmotionV| e.uuid == uuid@;
    let mut i: usize = 0;
    while i < es.len()
        invariant
            ev == es.deep_view(),
            ev.len() == es@.len(),
            i <= es@.len(),
            p == (|e: EmotionV| e.uuid == uuid@),
            forall|j: int| 0 <= j < i ==> !p(ev[j]),
        decreases es@.len() - i,
    {
        assert(ev[i as int] == es@[i as int]@);
        if es[i].uuid.eq(uuid) {
            proof {
                assert(p(ev[i as int]));
                lemma_first_where_is(ev, p, i as int);
            }
            return Some(i);
        }
        i = i + 1;
    }
    proof {
        lemma_first_where_none(ev, p);
    }
    None
}

impl SessionSocket {
    /// Applies one fine-grained edit from an authenticated client to the
    /// bound session (or its patient's description). On success the edit
    /// is in the store — the caller persists it at once — and the matching
    /// debounce flag is raised; the result tells whether it was clear, in
    /// which case the caller schedules the one coalesced broadcast for the
    /// window. A refused edit leaves everything unchanged; the caller
    /// reports the error text and closes the channel.
    pub fn handle_messge(&mut self, state: &mut State, msg: SocketMessage, now: u64) -> (r: Result<
        bool,
        ChannelError,
    >)
        requires
            old(state)@.wf(),
            old(self)@.phase == ChannelPhase::Authenticated,
        ensures
            final(state)@.wf(),
            r is Err <==> channel_edit_err(old(state)@, old(self)@.uuid, msg@) is Some,
            r is Err ==> r->Err_0 == channel_edit_err(old(state)@, old(self)@.uuid, msg@).unwrap()
                && final(state)@ == old(state)@ && final(self)@ == old(self)@,
            r is Ok ==> final(state)@ == spec_channel_edit(
                old(state)@,
                old(self)@.uuid,
                msg@,
                now,
            ),
            r is Ok ==> ((msg@ is EditDescription) ==> final(self)@ == (SessionSocketV {
                is_patient_update_scheduled: true,
                ..old(self)@
            }) && r->Ok_0 == !old(self)@.is_patient_update_scheduled),
            r is Ok ==> (!(msg@ is EditDescription) ==> final(self)@ == (SessionSocketV {
                is_session_update_scheduled: true,
                ..old(self)@
            }) && r->Ok_0 == !old(self)@.is_session_update_scheduled),
    {
        let ghost s0 = state@;
        let si = match state.find_session(&self.uuid) {
            Some(si) => si,
            None => {
                proof {
                    assert(state@ =~= s0);
                }
                return Err(ChannelError::SessionNotFound);
            },
        };
        let ghost gsi = si as int;
        let ghost sess0 = s0.sessions[gsi];
        match msg {
            SocketMessage::AddEmotion(uuid) => {
                if find_emotion(&state.sessions[si].emotions, &uuid).is_some() {
                    return Err(ChannelError::EmotionExists);
                }
                let mut sess = state.sessions.remove(si);
                sess.emotions.push(Emotion {
                    uuid,
                    id: None,
                    kind: None,
                    aquired_age: None,
                    aquired_person: String::new(),
                    created_at: now,
                });
                let ghost gs1 = sess@;
                state.sessions.insert(si, sess);
                proof {
                    assert(gs1.emotions =~= sess0.emotions.push(
                        crate::sessions::new_emotion_v(msg@->AddEmotion_0, now),
                    ));
                    assert(state@.sessions =~= s0.sessions.update(gsi, gs1));
                    assert(state@ =~= spec_channel_edit(s0, old(self)@.uuid, msg@, now));
                }
                let first = !self.is_session_update_scheduled;
                self.is_session_update_scheduled = true;
                Ok(first)
            },
            SocketMessage::AddEmotionPrepend(uuid) => {
                if find_emotion(&state.sessions[si].emotions, &uuid).is_some() {
                    return Err(ChannelError::EmotionExists);
                }
                let mut sess = state.sessions.remove(si);
                sess.emotions.insert(
                    0,
                    Emotion {
                        uuid,
                        id: None,
                        kind: None,
                        aquired_age: None,
                        aquired_person: String::new(),
                        created_at: now,
                    },
                );
                let ghost gs1 = sess@;
                state.sessions.insert(si, sess);
                proof {
                    assert(gs1.emotions =~= seq![
                        crate::sessions::new_emotion_v(msg@->AddEmotionPrepend_0, now),
                    ] + sess0.emotions);
                    assert(state@.sessions =~= s0.sessions.update(gsi, gs1));
                    assert(state@ =~= spec_channel_edit(s0, old(self)@.uuid, msg@, now));
                }
                let first = !self.is_session_update_scheduled;
                self.is_session_update_scheduled = true;
                Ok(first)
            },
            SocketMessage::EditEmotion(edit) => {
                let ei = match find_emotion(&state.sessions[si].emotions, &edit.uuid) {
                    Some(ei) => ei,
                    None => {
                        return Err(ChannelError::EmotionNotFound);
                    },
                };
                let ghost gedit = edit@;
                let mut sess = state.sessions.remove(si);
                let mut emo = sess.emotions.remove(ei);
                let ghost emo0 = emo@;
                match edit.id {
                    Some(v) => {
                        emo.id = Some(v);
                    },
                    None => {},
                }
                match edit.kind {
                    Some(v) => {
                        emo.kind = Some(v);
                    },
                    None => {},
                }
                match edit.aquired_age {
                    Some(v) => {
                        emo.aquired_age = Some(v);
                    },
                    None => {},
                }
                if !edit.aquired_person.as_str().is_empty() {
                    emo.aquired_person = edit.aquired_person;
                }
                let ghost emo1 = emo@;
                proof {
                    assert(emo1 == edited_emotion_v(emo0, gedit));
                }
                sess.emotions.insert(ei, emo);
                let ghost gs1 = sess@;
                state.sessions.insert(si, sess);
                proof {
                    assert(gs1.emotions =~= sess0.emotions.update(ei as int, edited_emotion_v(
                        sess0.emotions[ei as int],
                        gedit,
                    )));
                    assert(state@.sessions =~= s0.sessions.update(gsi, gs1));
                    assert(state@ =~= spec_channel_edit(s0, old(self)@.uuid, msg@, now));
                }
                let first = !self.is_session_update_scheduled;
                self.is_session_update_scheduled = true;
                Ok(first)
            },
            SocketMessage::RemoveEmotion(uuid) => {
                let mut sess = state.sessions.remove(si);
                let ghost es0 = sess@.emotions;
                let ghost p = |e: EmotionV| e.uuid != uuid@;
                let mut kept: Vec<Emotion> = Vec::new();
                let mut k: usize = 0;
                proof {
                    reveal(Seq::filter);
                    assert(kept.deep_view() =~= es0.take(0).filter(p));
                }
                while k < sess.emotions.len()
                    invariant
                        es0 == sess@.emotions,
                        es0.len() == sess.emotions@.len(),
                        k <= sess.emotions@.len(),
                        p == (|e: EmotionV| e.uuid != uuid@),
                        kept.deep_view() =~= es0.take(k as int).filter(p),
                    decreases sess.emotions@.len() - k,
                {
                    proof {
                        crate::assoc::lemma_filter_take_step(es0, p, k as int);
                    }
                    assert(es0[k as int] == sess.emotions@[k as int]@);
                    if !sess.emotions[k].uuid.eq(&uuid) {
                        let ghost pre = kept.deep_view();
                        kept.push(sess.emotions[k].clone());
                        proof {
                            assert(kept.deep_view() =~= pre.push(es0[k as int]));
                        }
                    }
                    k = k + 1;
                }
                proof {
                    assert(es0.take(es0.len() as int) =~= es0);
                }
                sess.emotions = kept;
                let ghost gs1 = sess@;
                state.sessions.insert(si, sess);
                proof {
                    assert(gs1.emotions =~= sess0.emotions.filter(
                        |e: EmotionV| e.uuid != msg@->RemoveEmotion_0,
                    ));
                    assert(state@.sessions =~= s0.sessions.update(gsi, gs1));
                    assert(state@ =~= spec_channel_edit(s0, old(self)@.uuid, msg@, now));
                }
                let first = !self.is_session_update_scheduled;
                self.is_session_update_scheduled = true;
                Ok(first)
            },
            SocketMessage::EditDescription(text) => {
                let pi = match state.find_patient(&state.sessions[si].patient_uuid) {
                    Some(pi) => pi,
                    None => {
                        return Err(ChannelError::PatientNotFound);
                    },
                };
                let mut p = state.patients.remove(pi);
                p.description = text;
                let ghost gp1 = p@;
                state.patients.insert(pi, p);
                proof {
                    assert(state@.patients =~= s0.patients.update(pi as int, gp1));
                    assert(state@ =~= spec_channel_edit(s0, old(self)@.uuid, msg@, now));
                }
                let first = !self.is_patient_update_scheduled;
                self.is_patient_update_scheduled = true;
                Ok(first)
            },
        }
    }

    /// The end of a session-edit debounce window: clears the flag and
    /// broadcasts the session once, tagged with this channel's identifier.
    pub fn flush_session_update(&mut self, state: &mut State) -> (r: Result<Outbound, ChannelError>)
        requires
            old(state)@.wf(),
            old(state)@.ack < u64::MAX,
        ensures
            final(state)@.wf(),
            final(self)@ == (SessionSocketV { is_session_update_scheduled: false, ..old(self)@ }),
            r is Ok <==> session_idx(old(state)@.sessions, old(self)@.uuid) != -1,
            r is Err ==> final(state)@ == old(state)@ && r->Err_0 == ChannelError::SessionNotFound,
            r is Ok ==> ({
                let si = session_idx(old(state)@.sessions, old(self)@.uuid);
                &&& final(state)@ == old(state)@.bumped()
                &&& r->Ok_0@.envelope == (EnvelopeV {
                    payload: SseEventV::SessionUpdated(old(state)@.sessions[si]),
                    ack: old(state)@.ack,
                    socket_ack: Some(old(self)@.socket_id),
                })
                &&& r->Ok_0@.targets == all_targets(old(state)@.sse)
            }),
    {
        self.is_session_update_scheduled = false;
        let si = match state.find_session(&self.uuid) {
            Some(si) => si,
            None => {
                proof {
                    assert(state@ =~= old(state)@);
                }
                return Err(ChannelError::SessionNotFound);
            },
        };
        let announced = state.sessions[si].clone();
        let ob = state.broadcast_socket(SseEvent::SessionUpdated(announced), self.socket_id);
        Ok(ob)
    }

    /// The end of a patient-edit debounce window: clears the flag and
    /// broadcasts the bound session's patient once, tagged with this
    /// channel's identifier.
    pub fn flush_patient_update(&mut self, state: &mut State) -> (r: Result<Outbound, ChannelError>)
        requires
            old(state)@.wf(),
            old(state)@.ack < u64::MAX,
        ensures
            final(state)@.wf(),
            final(self)@ == (SessionSocketV { is_patient_update_scheduled: false, ..old(self)@ }),
            r is Err ==> final(state)@ == old(state)@,
            r is Err && r->Err_0 == ChannelError::SessionNotFound <==> session_idx(
                old(state)@.sessions,
                old(self)@.uuid,
            ) == -1,
            r is Err && r->Err_0 == ChannelError::PatientNotFound <==> (session_idx(
                old(state)@.sessions,
                old(self)@.uuid,
            ) != -1 && crate::patients::patient_idx(
                old(state)@.patients,
                old(state)@.sessions[session_idx(
                    old(state)@.sessions,
                    old(self)@.uuid,
                )].patient_uuid,
            ) == -1),
            r is Ok <==> (session_idx(old(state)@.sessions, old(self)@.uuid) != -1
                && crate::patients::patient_idx(
                old(state)@.patients,
                old(state)@.sessions[session_idx(
                    old(state)@.sessions,
                    old(self)@.uuid,
                )].patient_uuid,
            ) != -1),
            r is Ok ==> ({
                let si = session_idx(old(state)@.sessions, old(self)@.uuid);
                let pi = crate::patients::patient_idx(
                    old(state)@.patients,
                    old(state)@.sessions[si].patient_uuid,
                );
                &&& final(state)@ == old(state)@.bumped()
                &&& r->Ok_0@.envelope == (EnvelopeV {
                    payload: SseEventV::PatientUpdated(old(state)@.patients[pi]),
                    ack: old(state)@.ack,
                    socket_ack: Some(old(self)@.socket_id),
                })
                &&& r->Ok_0@.targets == all_targets(old(state)@.sse)
            }),
    {
        self.is_patient_update_scheduled = false;
        let si = match state.find_session(&self.uuid) {
            Some(si) => si,
            None => {
                proof {
                    assert(state@ =~= old(state)@);
                }
                return Err(ChannelError::SessionNotFound);
            },
        };
        let pi = match state.find_patient(&state.sessions[si].patient_uuid) {
            Some(pi) => pi,
            None => {
                proof {
                    assert(state@ =~= old(state)@);
                }
                return Err(ChannelError::PatientNotFound);
            },
        };
        let announced = state.patients[pi].clone();
        let ob = state.broadcast_socket(SseEvent::PatientUpdated(announced), self.socket_id);
        Ok(ob)
    }
}

} // verus!
