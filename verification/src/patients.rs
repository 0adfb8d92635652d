use vstd::prelude::*;

use crate::assoc::{first_where, lemma_filter_take_step, lemma_first_where_is,
    lemma_first_where_none};
use crate::broadcast::{all_targets, EnvelopeV, Outbound, SseEvent, SseEventV};
use crate::entities::{Patient, PatientV, Session, SessionV};
use crate::store::{State, StateV, StoreError};
use crate::support::{lower_of, lowercase};

verus! {

/// Does some patient already carry this name, compared case-insensitively?
pub open spec fn patient_name_taken(ps: Seq<PatientV>, lowname: Seq<char>) -> bool {
    exists|i: int| 0 <= i < ps.len() && lower_of(ps[i].name) == lowname
}

/// Like `patient_name_taken`, but ignoring the patient being renamed.
pub open spec fn patient_name_taken_other(
    ps: Seq<PatientV>,
    lowname: Seq<char>,
    uuid: Seq<char>,
) -> bool {
    exists|i: int| 0 <= i < ps.len() && ps[i].uuid != uuid && lower_of(ps[i].name) == lowname
}

/// The position of the first patient with this identity, or -1.
pub open spec fn patient_idx(ps: Seq<PatientV>, uuid: Seq<char>) -> int {
    first_where(ps, |p: PatientV| p.uuid == uuid)
}

/// A patient as creation builds it: empty description, no picture, both
/// timestamps at the moment of creation.
pub open spec fn new_patient_v(
    uuid: Seq<char>,
    name: Seq<char>,
    address: Seq<char>,
    age: Option<u8>,
    now: u64,
) -> PatientV {
    PatientV {
        uuid: uuid,
        description: Seq::<char>::empty(),
        age: age,
        name: name,
        address: address,
        profile_picture: None,
        created_at: now,
        last_updated: now,
    }
}

/// A patient after a partial update: address and age replaced when given
/// (an age of zero clears it), description and name replaced when given
/// and different (the name is stored as given; only the uniqueness check
/// folds case), and the update timestamp refreshed.
pub open spec fn updated_patient_v(
    p: PatientV,
    name: Option<Seq<char>>,
    address: Option<Seq<char>>,
    age: Option<u8>,
    description: Option<Seq<char>>,
    now: u64,
) -> PatientV {
    let p1 = match address {
        Some(a) => PatientV { address: a, ..p },
        None => p,
    };
    let p2 = match age {
        Some(a) => PatientV {
            age: if a == 0 {
                None
            } else {
                Some(a)
            },
            ..p1
        },
        None => p1,
    };
    let p3 = match description {
        Some(d) => if d != p2.description {
            PatientV { description: d, ..p2 }
        } else {
            p2
        },
        None => p2,
    };
    let p4 = match name {
        Some(n) => if n != p3.name {
            PatientV { name: n, ..p3 }
        } else {
            p3
        },
        None => p3,
    };
    PatientV { last_updated: now, ..p4 }
}

/// Whether a partial update changed the description or the name — the two
/// fields that the mirrored calendar entries repeat, so the caller must
/// push calendar edits exactly when this holds.
pub open spec fn patient_update_flag(
    p: PatientV,
    name: Option<Seq<char>>,
    description: Option<Seq<char>>,
) -> bool {
    ||| match description {
        Some(d) => d != p.description,
        None => false,
    }
    ||| match name {
        Some(n) => n != p.name,
        None => false,
    }
}

impl State {
    /// The position of the first patient with this identity.
    pub(crate) fn find_patient(&self, uuid: &String) -> (r: Option<usize>)
        ensures
            r is Some <==> patient_idx(self@.patients, uuid@) != -1,
            r is Some ==> r.unwrap() as int == patient_idx(self@.patients, uuid@) && (
            r.unwrap() as int) < self@.patients.len(),
    {
        let ghost pv = self@.patients;
        let ghost p = |q: PatientV| q.uuid == uuid@;
        let mut i: usize = 0;
        while i < self.patients.len()
            invariant
                pv == self@.patients,
                pv.len() == self.patients@.len(),
                i <= self.patients@.len(),
                p == (|q: PatientV| q.uuid == uuid@),
                forall|j: int| 0 <= j < i ==> !p(pv[j]),
            decreases self.patients@.len() - i,
        {
            assert(pv[i as int] == self.patients@[i as int]@);
            if self.patients[i].uuid.eq(uuid) {
                proof {
                    assert(p(pv[i as int]));
                    lemma_first_where_is(pv, p, i as int);
                }
                return Some(i);
            }
            i = i + 1;
        }
        proof {
            lemma_first_where_none(pv, p);
        }
        None
    }

    /// Does any patient other than `uuid` carry this lowercase name?
    fn name_conflicts(&self, lowname: &String, exclude: Option<&String>) -> (r: bool)
        ensures
            r == match exclude {
                Some(u) => patient_name_taken_other(self@.patients, lowname@, u@),
                None => patient_name_taken(self@.patients, lowname@),
            },
    {
        let ghost pv = self@.patients;
        let mut i: usize = 0;
        while i < self.patients.len()
            invariant
                pv == self@.patients,
                pv.len() == self.patients@.len(),
                i <= self.patients@.len(),
                forall|j: int|
                    0 <= j < i ==> !(match exclude {
                        Some(u) => pv[j].uuid != u@ && lower_of(pv[j].name) == lowname@,
                        None => lower_of(pv[j].name) == lowname@,
                    }),
            decreases self.patients@.len() - i,
        {
            assert(pv[i as int] == self.patients@[i as int]@);
            let low = lowercase(self.patients[i].name.as_str());
            let same_name = low.eq(lowname);
            let counts = match exclude {
                Some(u) => !self.patients[i].uuid.eq(u),
                None => true,
            };
            if same_name && counts {
                return true;
            }
            i = i + 1;
        }
        false
    }

    /// Creates a patient, unless its name is already taken under
    /// case-insensitive comparison; announces the new patient to every
    /// subscriber.
    pub fn create_patient(
        &mut self,
        uuid: String,
        name: String,
        address: String,
        age: Option<u8>,
        now: u64,
    ) -> (r: Result<Outbound, StoreError>)
        requires
            old(self)@.wf(),
            old(self)@.ack < u64::MAX,
        ensures
            final(self)@.wf(),
            r is Err <==> patient_name_taken(old(self)@.patients, lower_of(name@)),
            r is Err ==> final(self)@ == old(self)@ && r->Err_0 == StoreError::Conflict,
            r is Ok ==> ({
                let p = new_patient_v(uuid@, name@, address@, age, now);
                &&& final(self)@ == (StateV {
                    patients: old(self)@.patients.push(p),
                    ack: (old(self)@.ack + 1) as u64,
                    ..old(self)@
                })
                &&& r->Ok_0@.envelope == (EnvelopeV {
                    payload: SseEventV::PatientAdded(p),
                    ack: old(self)@.ack,
                    socket_ack: None,
                })
                &&& r->Ok_0@.targets == all_targets(old(self)@.sse)
            }),
    {
        let low = lowercase(name.as_str());
        if self.name_conflicts(&low, None) {
            proof {
                assert(self@ =~= old(self)@);
            }
            return Err(StoreError::Conflict);
        }
        let ghost gp = new_patient_v(uuid@, name@, address@, age, now);
        let patient = Patient {
            uuid,
            description: String::new(),
            age,
            name,
            address,
            profile_picture: None,
            created_at: now,
            last_updated: now,
        };
        let announced = patient.clone();
        self.patients.push(patient);
        proof {
            assert(self@.patients =~= old(self)@.patients.push(gp));
        }
        let ob = self.broadcast(SseEvent::PatientAdded(announced));
        proof {
            assert(self@ =~= (StateV {
                patients: old(self)@.patients.push(gp),
                ack: (old(self)@.ack + 1) as u64,
                ..old(self)@
            }));
        }
        Ok(ob)
    }

    /// Applies a partial update to a patient: refused when the new name
    /// collides with another patient's, unknown identities are reported,
    /// and the updated record is announced to every subscriber. The second
    /// component tells whether description or name changed, which is when
    /// the caller must push edits to the mirrored calendar entries.
    pub fn update_patient(
        &mut self,
        uuid: &String,
        name: Option<String>,
        address: Option<String>,
        age: Option<u8>,
        description: Option<String>,
        now: u64,
    ) -> (r: Result<(Outbound, bool), StoreError>)
        requires
            old(self)@.wf(),
            old(self)@.ack < u64::MAX,
        ensures
            final(self)@.wf(),
            r is Err ==> final(self)@ == old(self)@,
            r is Err && r->Err_0 == StoreError::Conflict <==> (name is Some
                && patient_name_taken_other(
                old(self)@.patients,
                lower_of(name.unwrap()@),
                uuid@,
            )),
            r is Err && r->Err_0 == StoreError::NotFound <==> (!(name is Some
                && patient_name_taken_other(old(self)@.patients, lower_of(name.unwrap()@), uuid@))
                && patient_idx(old(self)@.patients, uuid@) == -1),
            r is Ok <==> (!(name is Some && patient_name_taken_other(
                old(self)@.patients,
                lower_of(name.unwrap()@),
                uuid@,
            )) && patient_idx(old(self)@.patients, uuid@) != -1),
            r is Ok ==> ({
                let i = patient_idx(old(self)@.patients, uuid@);
                let p0 = old(self)@.patients[i];
                let p1 = updated_patient_v(
                    p0,
                    name.deep_view(),
                    address.deep_view(),
                    age,
                    description.deep_view(),
                    now,
                );
                &&& i != -1
                &&& final(self)@ == (StateV {
                    patients: old(self)@.patients.update(i, p1),
                    ack: (old(self)@.ack + 1) as u64,
                    ..old(self)@
                })
                &&& r->Ok_0.0@.envelope == (EnvelopeV {
                    payload: SseEventV::PatientUpdated(p1),
                    ack: old(self)@.ack,
                    socket_ack: None,
                })
                &&& r->Ok_0.0@.targets == all_targets(old(self)@.sse)
                &&& r->Ok_0.1 == patient_update_flag(p0, name.deep_view(), description.deep_view())
            }),
    {
        let low_new = match &name {
            Some(n) => Some(lowercase(n.as_str())),
            None => None,
        };
        match &low_new {
            Some(ln) => {
                if self.name_conflicts(ln, Some(uuid)) {
                    proof {
                        assert(self@ =~= old(self)@);
                    }
                    return Err(StoreError::Conflict);
                }
            },
            None => {},
        }
        let idx = match self.find_patient(uuid) {
            Some(i) => i,
            None => {
                proof {
                    assert(self@ =~= old(self)@);
                }
                return Err(StoreError::NotFound);
            },
        };
        let ghost i = idx as int;
        let ghost p0 = self@.patients[i];
        let mut p = self.patients.remove(idx);
        assert(p@ == p0);
        let mut flag = false;
        match address {
            Some(a) => {
                p.address = a;
            },
            None => {},
        }
        match age {
            Some(a) => {
                p.age = if a == 0 {
                    None
                } else {
                    Some(a)
                };
            },
            None => {},
        }
        match description {
            Some(d) => {
                if !d.eq(&p.description) {
                    p.description = d;
                    flag = true;
                }
            },
            None => {},
        }
        match name {
            Some(n) => {
                if !n.eq(&p.name) {
                    p.name = n;
                    flag = true;
                }
            },
            None => {},
        }
        p.last_updated = now;
        let ghost p1 = p@;
        proof {
            assert(p1 == updated_patient_v(
                p0,
                name.deep_view(),
                address.deep_view(),
                age,
                description.deep_view(),
                now,
            ));
            assert(flag == patient_update_flag(p0, name.deep_view(), description.deep_view()));
        }
        let announced = p.clone();
        self.patients.insert(idx, p);
        proof {
            assert(self@.patients =~= old(self)@.patients.update(i, p1));
        }
        let ob = self.broadcast(SseEvent::PatientUpdated(announced));
        proof {
            assert(self@ =~= (StateV {
                patients: old(self)@.patients.update(i, p1),
                ack: (old(self)@.ack + 1) as u64,
                ..old(self)@
            }));
        }
        Ok((ob, flag))
    }

    /// Hard-deletes a patient and, cascading, every session that belongs
    /// to it; announces the removal to every subscriber. The removed
    /// records come back to the caller, who deletes their files and pushes
    /// calendar tombstones for the sessions' mirrored entries.
    pub fn delete_patient(&mut self, uuid: &String) -> (r: Result<
        (Outbound, Patient, Vec<Session>),
        StoreError,
    >)
        requires
            old(self)@.wf(),
            old(self)@.ack < u64::MAX,
        ensures
            final(self)@.wf(),
            r is Ok <==> patient_idx(old(self)@.patients, uuid@) != -1,
            r is Err ==> final(self)@ == old(self)@ && r->Err_0 == StoreError::NotFound,
            r is Ok ==> ({
                let i = patient_idx(old(self)@.patients, uuid@);
                &&& final(self)@ == (StateV {
                    patients: old(self)@.patients.remove(i),
                    sessions: old(self)@.sessions.filter(|s: SessionV| s.patient_uuid != uuid@),
                    ack: (old(self)@.ack + 1) as u64,
                    ..old(self)@
                })
                &&& r->Ok_0.0@.envelope == (EnvelopeV {
                    payload: SseEventV::PatientRemoved(uuid@),
                    ack: old(self)@.ack,
                    socket_ack: None,
                })
                &&& r->Ok_0.0@.targets == all_targets(old(self)@.sse)
                &&& r->Ok_0.1@ == old(self)@.patients[i]
                &&& r->Ok_0.2.deep_view() == old(self)@.sessions.filter(
                    |s: SessionV| s.patient_uuid == uuid@,
                )
            }),
    {
        let idx = match self.find_patient(uuid) {
            Some(i) => i,
            None => {
                proof {
                    assert(self@ =~= old(self)@);
                }
                return Err(StoreError::NotFound);
            },
        };
        let ghost i = idx as int;
        let removed_patient = self.patients.remove(idx);
        let ghost ssv = self@.sessions;
        let ghost pkeep = |s: SessionV| s.patient_uuid != uuid@;
        let ghost pdel = |s: SessionV| s.patient_uuid == uuid@;
        let mut kept: Vec<Session> = Vec::new();
        let mut removed: Vec<Session> = Vec::new();
        let mut k: usize = 0;
        proof {
            reveal(Seq::filter);
            assert(kept.deep_view() =~= ssv.take(0).filter(pkeep));
            assert(removed.deep_view() =~= ssv.take(0).filter(pdel));
        }
        while k < self.sessions.len()
            invariant
                ssv == self@.sessions,
                ssv.len() == self.sessions@.len(),
                k <= self.sessions@.len(),
                pkeep == (|s: SessionV| s.patient_uuid != uuid@),
                pdel == (|s: SessionV| s.patient_uuid == uuid@),
                kept.deep_view() =~= ssv.take(k as int).filter(pkeep),
                removed.deep_view() =~= ssv.take(k as int).filter(pdel),
            decreases self.sessions@.len() - k,
        {
            proof {
                lemma_filter_take_step(ssv, pkeep, k as int);
                lemma_filter_take_step(ssv, pdel, k as int);
            }
            assert(ssv[k as int] == self.sessions@[k as int]@);
            if self.sessions[k].patient_uuid.eq(uuid) {
                let ghost pre = removed.deep_view();
                removed.push(self.sessions[k].clone());
                proof {
                    assert(removed.deep_view() =~= pre.push(ssv[k as int]));
                }
            } else {
                let ghost pre = kept.deep_view();
                kept.push(self.sessions[k].clone());
                proof {
                    assert(kept.deep_view() =~= pre.push(ssv[k as int]));
                }
            }
            k = k + 1;
        }
        proof {
            assert(ssv.take(ssv.len() as int) =~= ssv);
        }
        self.sessions = kept;
        let ob = self.broadcast(SseEvent::PatientRemoved(uuid.clone()));
        proof {
            assert(self@ =~= (StateV {
                patients: old(self)@.patients.remove(i),
                sessions: old(self)@.sessions.filter(|s: SessionV| s.patient_uuid != uuid@),
                ack: (old(self)@.ack + 1) as u64,
                ..old(self)@
            }));
        }
        Ok((ob, removed_patient, removed))
    }
}

} // verus!
