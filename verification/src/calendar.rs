use vstd::prelude::*;

use crate::entities::{Patient, Session};
use crate::support::{rfc3339_of, rfc3339_utc_millis};

verus! {

/// An outbound calendar entry before it is addressed to any account.
#[derive(Debug, Clone)]
pub struct RawCalendarEvent {
    pub start: u64,
    pub end: u64,
    pub description: Option<String>,
    pub summary: String,
    pub uuid: String,
    pub color_id: Option<String>,
}

/// A point in time as the outbound payload carries it: an RFC 3339
/// rendering and the practice's time-zone label.
#[derive(Debug, Clone)]
pub struct Time {
    pub date_time: String,
    pub time_zone: String,
}

impl Time {
    /// Renders unix seconds for the outbound payload. Any instant a
    /// session can carry is within the calendar's representable range, so
    /// the rendering always succeeds.
    pub fn from_unix(seconds: u64) -> (r: Time)
        requires
            seconds < 0x400_0000_0000,
        ensures
            r.date_time@ == rfc3339_of((seconds * 1000) as i64),
            r.time_zone@ == "Europe/Warsaw"@,
    {
        proof {
            assert(seconds * 1000 <= 0x10_0000_0000_0000) by (nonlinear_arith)
                requires seconds < 0x400_0000_0000;
        }
        let ms: i64 = (seconds as i64) * 1000;
        match rfc3339_utc_millis(ms) {
            Some(t) => {
                let mut zone = String::new();
                zone.append("Europe/Warsaw");
                proof {
                    assert(zone@ =~= "Europe/Warsaw"@);
                }
                Time { date_time: t, time_zone: zone }
            },
            None => {
                proof {
                    assert(false);
                }
                Time { date_time: String::new(), time_zone: String::new() }
            },
        }
    }
}

/// The body of an outbound entry creation.
#[derive(Debug, Clone)]
pub struct CreateEvent {
    pub start: Time,
    pub end: Time,
    pub description: Option<String>,
    pub summary: String,
    pub id: String,
}

/// The body of an outbound entry edit.
#[derive(Debug, Clone)]
pub struct EditEvent {
    pub start: u64,
    pub end: u64,
    pub description: Option<String>,
    pub summary: String,
    pub id: String,
    pub color_id: Option<String>,
}

#[verifier::ext_equal]
pub ghost struct EditEventV {
    pub start: u64,
    pub end: u64,
    pub description: Option<Seq<char>>,
    pub summary: Seq<char>,
    pub id: Seq<char>,
    pub color_id: Option<Seq<char>>,
}

impl View for EditEvent {
    type V = EditEventV;

    open spec fn view(&self) -> EditEventV {
        EditEventV {
            start: self.start,
            end: self.end,
            description: self.description.deep_view(),
            summary: self.summary.deep_view(),
            id: self.id@,
            color_id: self.color_id.deep_view(),
        }
    }
}

impl DeepView for EditEvent {
    type V = EditEventV;

    open spec fn deep_view(&self) -> EditEventV {
        self.view()
    }
}

/// The edit a changed session or patient pushes to one mirrored entry.
pub open spec fn edit_for_entry(
    sess: crate::entities::SessionV,
    summary: Seq<char>,
    description: Seq<char>,
    pair: (Seq<char>, Seq<char>),
) -> (Seq<char>, EditEventV) {
    (
        pair.0,
        EditEventV {
            start: sess.start,
            end: sess.end,
            description: Some(description),
            summary: summary,
            id: pair.1,
            color_id: None,
        },
    )
}

/// The per-account edits that bring a session's mirrored calendar entries
/// in line with the session and its patient: the summary is "S. " before
/// the patient's name, the description is the patient's.
pub fn session_edit_events(session: &Session, patient: &Patient) -> (r: Vec<(String, EditEvent)>)
    ensures
        r.deep_view() == session@.calendar_ids.map_values(
            |pair: (Seq<char>, Seq<char>)|
                edit_for_entry(session@, "S. "@ + patient.name@, patient.description@, pair),
        ),
{
    let ghost pairs = session@.calendar_ids;
    let ghost f = |pair: (Seq<char>, Seq<char>)|
        edit_for_entry(session@, "S. "@ + patient.name@, patient.description@, pair);
    let mut summary = String::new();
    summary.append("S. ");
    summary.append(patient.name.as_str());
    proof {
        assert(summary@ =~= "S. "@ + patient.name@);
    }
    let mut out: Vec<(String, EditEvent)> = Vec::new();
    let mut i: usize = 0;
    while i < session.calendar_ids.len()
        invariant
            pairs == session@.calendar_ids,
            pairs.len() == session.calendar_ids@.len(),
            i <= session.calendar_ids@.len(),
            summary@ == "S. "@ + patient.name@,
            f == (|pair: (Seq<char>, Seq<char>)|
                edit_for_entry(session@, "S. "@ + patient.name@, patient.description@, pair)),
            out.deep_view() =~= pairs.take(i as int).map_values(f),
        decreases session.calendar_ids@.len() - i,
    {
        assert(pairs[i as int] == session.calendar_ids@[i as int].deep_view());
        let ghost pre = out.deep_view();
        let entry = EditEvent {
            start: session.start,
            end: session.end,
            description: Some(patient.description.clone()),
            summary: summary.clone(),
            id: session.calendar_ids[i].1.clone(),
            color_id: None,
        };
        out.push((session.calendar_ids[i].0.clone(), entry));
        proof {
            assert(out.deep_view() =~= pre.push(f(pairs[i as int])));
            assert(pairs.take(i as int + 1).map_values(f) =~= pairs.take(i as int).map_values(
                f,
            ).push(f(pairs[i as int])));
        }
        i = i + 1;
    }
    proof {
        assert(pairs.take(pairs.len() as int) =~= pairs);
    }
    out
}

} // verus!
