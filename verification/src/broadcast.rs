use vstd::prelude::*;

use crate::entities::{Patient, PatientV, Session, SessionV, Settings, SettingsV};
use crate::remote::{RemoteEvent, RemoteEventV};

verus! {

/// A live push subscriber: the account it belongs to and its
/// channel-unique identifier, under which the surrounding runtime keeps
/// the actual send half.
#[derive(Debug)]
pub struct Subscriber {
    pub token: String,
    pub id: u64,
}

#[verifier::ext_equal]
pub ghost struct SubscriberV {
    pub token: Seq<char>,
    pub id: u64,
}

impl View for Subscriber {
    type V = SubscriberV;

    open spec fn view(&self) -> SubscriberV {
        SubscriberV { token: self.token@, id: self.id }
    }
}

impl DeepView for Subscriber {
    type V = SubscriberV;

    open spec fn deep_view(&self) -> SubscriberV {
        self.view()
    }
}

/// A domain event as it is pushed to subscribers. `Ready` is the
/// full-state snapshot a subscriber receives once, before it joins the
/// broadcast list; the `Event*` variants are scoped to one account's
/// subscribers, the rest go to everyone.
#[derive(Debug, Clone)]
pub enum SseEvent {
    Ready {
        patients: Vec<Patient>,
        sessions: Vec<Session>,
        user_mail: String,
        user_avatar: String,
        settings: Settings,
    },
    PatientAdded(Patient),
    PatientUpdated(Patient),
    PatientRemoved(String),
    SessionAdded(Session),
    SessionUpdated(Session),
    SessionRemoved(String),
    EventAdded(RemoteEvent),
    EventUpdated(RemoteEvent),
    EventRemoved(String),
}

#[verifier::ext_equal]
pub ghost enum SseEventV {
    Ready {
        patients: Seq<PatientV>,
        sessions: Seq<SessionV>,
        user_mail: Seq<char>,
        user_avatar: Seq<char>,
        settings: SettingsV,
    },
    PatientAdded(PatientV),
    PatientUpdated(PatientV),
    PatientRemoved(Seq<char>),
    SessionAdded(SessionV),
    SessionUpdated(SessionV),
    SessionRemoved(Seq<char>),
    EventAdded(RemoteEventV),
    EventUpdated(RemoteEventV),
    EventRemoved(Seq<char>),
}

impl View for SseEvent {
    type V = SseEventV;

    open spec fn view(&self) -> SseEventV {
        match self {
            SseEvent::Ready { patients, sessions, user_mail, user_avatar, settings } => {
                SseEventV::Ready {
                    patients: patients.deep_view(),
                    sessions: sessions.deep_view(),
                    user_mail: user_mail@,
                    user_avatar: user_avatar@,
                    settings: settings@,
                }
            },
            SseEvent::PatientAdded(p) => SseEventV::PatientAdded(p@),
            SseEvent::PatientUpdated(p) => SseEventV::PatientUpdated(p@),
            SseEvent::PatientRemoved(id) => SseEventV::PatientRemoved(id@),
            SseEvent::SessionAdded(s) => SseEventV::SessionAdded(s@),
            SseEvent::SessionUpdated(s) => SseEventV::SessionUpdated(s@),
            SseEvent::SessionRemoved(id) => SseEventV::SessionRemoved(id@),
            SseEvent::EventAdded(e) => SseEventV::EventAdded(e@),
            SseEvent::EventUpdated(e) => SseEventV::EventUpdated(e@),
            SseEvent::EventRemoved(id) => SseEventV::EventRemoved(id@),
        }
    }
}

impl DeepView for SseEvent {
    type V = SseEventV;

    open spec fn deep_view(&self) -> SseEventV {
        self.view()
    }
}

/// The broadcast message envelope: the payload, the freshly allocated
/// process-wide sequence number, and, for collaboration-channel echoes,
/// the originating channel's identifier.
#[derive(Debug, Clone)]
pub struct Envelope {
    pub payload: SseEvent,
    pub ack: u64,
    pub socket_ack: Option<u64>,
}

#[verifier::ext_equal]
pub ghost struct EnvelopeV {
    pub payload: SseEventV,
    pub ack: u64,
    pub socket_ack: Option<u64>,
}

impl View for Envelope {
    type V = EnvelopeV;

    open spec fn view(&self) -> EnvelopeV {
        EnvelopeV { payload: self.payload@, ack: self.ack, socket_ack: self.socket_ack }
    }
}

impl DeepView for Envelope {
    type V = EnvelopeV;

    open spec fn deep_view(&self) -> EnvelopeV {
        self.view()
    }
}

/// One fan-out: the envelope and the identifiers of the subscribers it
/// goes to. Delivery itself is fire-and-forget in the runtime; a failed
/// send never aborts the others.
#[derive(Debug, Clone)]
pub struct Outbound {
    pub envelope: Envelope,
    pub targets: Vec<u64>,
}

#[verifier::ext_equal]
pub ghost struct OutboundV {
    pub envelope: EnvelopeV,
    pub targets: Seq<u64>,
}

impl View for Outbound {
    type V = OutboundV;

    open spec fn view(&self) -> OutboundV {
        OutboundV { envelope: self.envelope@, targets: self.targets@ }
    }
}

impl DeepView for Outbound {
    type V = OutboundV;

    open spec fn deep_view(&self) -> OutboundV {
        self.view()
    }
}

/// The identifiers of all live subscribers, in registration order.
pub open spec fn all_targets(sse: Seq<SubscriberV>) -> Seq<u64> {
    sse.map_values(|s: SubscriberV| s.id)
}

/// The identifiers of the subscribers that belong to one account.
pub open spec fn account_targets(sse: Seq<SubscriberV>, token: Seq<char>) -> Seq<u64> {
    sse.filter(|s: SubscriberV| s.token == token).map_values(|s: SubscriberV| s.id)
}

impl Clone for Subscriber {
    fn clone(&self) -> (res: Self)
        ensures
            res@ == self@,
    {
        Subscriber { token: self.token.clone(), id: self.id }
    }
}

} // verus!
