use vstd::prelude::*;

use crate::broadcast::{OutboundV, SseEventV};
use crate::entities::PatientV;
use crate::patients::{new_patient_v, patient_idx, updated_patient_v};
use crate::sessions::{new_session_v, session_idx, updated_session_v};
use crate::store::{spec_broadcast, StateV};

verus! {

/// The fold of a run of broadcasts: each event is stamped with the counter
/// at its turn, and the counter advances once per event.
pub open spec fn spec_broadcast_all(s: StateV, evs: Seq<SseEventV>) -> (StateV, Seq<OutboundV>)
    decreases evs.len(),
{
    if evs.len() == 0 {
        (s, Seq::empty())
    } else {
        let r1 = spec_broadcast(s, evs[0]);
        let r2 = spec_broadcast_all(r1.0, evs.drop_first());
        (r2.0, seq![r1.1] + r2.1)
    }
}

/// Broadcast sequence numbers are strictly increasing and never repeat:
/// in any run of broadcasts, the one in position `i` carries exactly the
/// starting counter plus `i`, so later broadcasts carry strictly larger
/// numbers and no number is ever reused while the process runs.
pub proof fn lemma_acks_strictly_increase(s: StateV, evs: Seq<SseEventV>)
    requires
        s.ack + evs.len() <= u64::MAX,
    ensures
        ({
            let r = spec_broadcast_all(s, evs);
            &&& r.1.len() == evs.len()
            &&& r.0.ack == s.ack + evs.len()
            &&& (forall|i: int| 0 <= i < evs.len() ==> r.1[i].envelope.ack == s.ack + i)
            &&& (forall|i: int, j: int|
                0 <= i < j < evs.len() ==> r.1[i].envelope.ack < r.1[j].envelope.ack)
        }),
    decreases evs.len(),
{
    if evs.len() > 0 {
        let r1 = spec_broadcast(s, evs[0]);
        lemma_acks_strictly_increase(r1.0, evs.drop_first());
        let rr = spec_broadcast_all(r1.0, evs.drop_first());
        let r = spec_broadcast_all(s, evs);
        assert(r.1 == seq![r1.1] + rr.1);
        assert forall|i: int| 0 <= i < evs.len() implies r.1[i].envelope.ack == s.ack + i by {
            if i > 0 {
                assert(r.1[i] == rr.1[i - 1]);
            } else {
                assert(r.1[0] == r1.1);
            }
        };
    }
}

/// One serialized mutation of the entity store, as the writer lock admits
/// them one at a time.
pub ghost enum MutationV {
    CreatePatient {
        uuid: Seq<char>,
        name: Seq<char>,
        address: Seq<char>,
        age: Option<u8>,
        now: u64,
    },
    UpdatePatient {
        uuid: Seq<char>,
        name: Option<Seq<char>>,
        address: Option<Seq<char>>,
        age: Option<u8>,
        description: Option<Seq<char>>,
        now: u64,
    },
    DeletePatient { uuid: Seq<char> },
    CreateSession {
        uuid: Seq<char>,
        emotion_uuid: Seq<char>,
        patient: Seq<char>,
        time_start: u64,
        time_end: u64,
        now: u64,
    },
    UpdateSession {
        uuid: Seq<char>,
        patient: Option<Seq<char>>,
        time_start: Option<u64>,
        time_end: Option<u64>,
        paid: Option<u64>,
        now: u64,
    },
    DeleteSession { uuid: Seq<char> },
}

/// What one mutation does to the store when it is admitted (its guards
/// allow it); a refused mutation leaves the store unchanged, as each
/// operation's contract states. These are the very transitions the
/// executable operations' contracts promise, each with its broadcast
/// counter advanced once for the announcement.
pub open spec fn apply_mutation(s: StateV, m: MutationV) -> StateV {
    match m {
        MutationV::CreatePatient { uuid, name, address, age, now } => {
            StateV {
                patients: s.patients.push(new_patient_v(uuid, name, address, age, now)),
                ack: (s.ack + 1) as u64,
                ..s
            }
        },
        MutationV::UpdatePatient { uuid, name, address, age, description, now } => {
            let i = patient_idx(s.patients, uuid);
            let p1 = updated_patient_v(s.patients[i], name, address, age, description, now);
            StateV { patients: s.patients.update(i, p1), ack: (s.ack + 1) as u64, ..s }
        },
        MutationV::DeletePatient { uuid } => {
            let i = patient_idx(s.patients, uuid);
            StateV {
                patients: s.patients.remove(i),
                sessions: s.sessions.filter(
                    |x: crate::entities::SessionV| x.patient_uuid != uuid,
                ),
                ack: (s.ack + 1) as u64,
                ..s
            }
        },
        MutationV::CreateSession { uuid, emotion_uuid, patient, time_start, time_end, now } => {
            StateV {
                sessions: s.sessions.push(
                    new_session_v(uuid, patient, time_start, time_end, emotion_uuid, now),
                ),
                ack: (s.ack + 1) as u64,
                ..s
            }
        },
        MutationV::UpdateSession { uuid, patient, time_start, time_end, paid, now } => {
            let i = session_idx(s.sessions, uuid);
            let s1 = updated_session_v(s.sessions[i], patient, time_start, time_end, paid, now);
            StateV { sessions: s.sessions.update(i, s1), ack: (s.ack + 1) as u64, ..s }
        },
        MutationV::DeleteSession { uuid } => {
            let i = session_idx(s.sessions, uuid);
            StateV { sessions: s.sessions.remove(i), ack: (s.ack + 1) as u64, ..s }
        },
    }
}

/// The fold of a serialized run of mutations, in the order the writer
/// lock admitted them.
pub open spec fn apply_all(s: StateV, ms: Seq<MutationV>) -> StateV
    decreases ms.len(),
{
    if ms.len() == 0 {
        s
    } else {
        apply_all(apply_mutation(s, ms[0]), ms.drop_first())
    }
}

/// No lost updates: a run of mutations lands on exactly the state reached
/// by applying them one after another in serialization order — the state
/// after a run extended by one more mutation is that mutation applied to
/// the state after the run. With each executable operation's contract
/// pinning its transition to `apply_mutation`, the final in-memory state
/// is fully determined by the admitted order.
pub proof fn lemma_serialized_runs_compose(s: StateV, ms: Seq<MutationV>, m: MutationV)
    ensures
        apply_all(s, ms.push(m)) == apply_mutation(apply_all(s, ms), m),
    decreases ms.len(),
{
    if ms.len() == 0 {
        assert(ms.push(m)[0] == m);
        assert(ms.push(m).drop_first() =~= Seq::<MutationV>::empty());
        assert(apply_all(s, ms.push(m)) == apply_all(
            apply_mutation(s, m),
            Seq::<MutationV>::empty(),
        ));
        assert(apply_all(apply_mutation(s, m), Seq::<MutationV>::empty()) == apply_mutation(s, m));
        assert(apply_all(s, ms) == s);
    } else {
        assert(ms.push(m)[0] == ms[0]);
        assert(ms.push(m).drop_first() =~= ms.drop_first().push(m));
        let base = apply_mutation(s, ms[0]);
        assert(apply_all(s, ms.push(m)) == apply_all(base, ms.drop_first().push(m)));
        assert(apply_all(s, ms) == apply_all(base, ms.drop_first()));
        lemma_serialized_runs_compose(base, ms.drop_first(), m);
    }
}

/// The admitted transition of a successful patient creation is exactly
/// what `State::create_patient` promises in its contract.
pub proof fn lemma_create_patient_is_mutation(
    s: StateV,
    uuid: Seq<char>,
    name: Seq<char>,
    address: Seq<char>,
    age: Option<u8>,
    now: u64,
)
    ensures
        apply_mutation(s, MutationV::CreatePatient { uuid, name, address, age, now }) == (StateV {
            patients: s.patients.push(new_patient_v(uuid, name, address, age, now)),
            ack: (s.ack + 1) as u64,
            ..s
        }),
{
}

} // verus!
