use practice_core::broadcast::SseEvent;
use practice_core::entities::Secrets;
use practice_core::remote::{RemoteEvent, RemoteItem};
use practice_core::store::State;

fn fresh_state() -> State {
    State::empty(Secrets { client_id: String::from("cid"), client_secret: String::from("cs") })
}

fn upsert(id: &str, start: u64, end: u64, summary: Option<&str>) -> RemoteItem {
    RemoteItem::Upsert(RemoteEvent {
        id: String::from(id),
        start,
        end,
        summary: summary.map(String::from),
        description: None,
        color_id: None,
    })
}

fn cache_ids(state: &State, token: &str) -> Vec<String> {
    for (t, c) in &state.event_caches {
        if t == token {
            return c.iter().map(|e| e.id.clone()).collect();
        }
    }
    Vec::new()
}

#[test]
fn new_event_matching_patient_creates_linked_session() {
    let mut st = fresh_state();
    let now = 5_000u64;
    st.create_patient(
        String::from("p1"),
        String::from("Jane Doe"),
        String::from("addr"),
        None,
        now,
    )
    .unwrap();
    let token = String::from("tok1");
    let email = String::from("jane@example.com");
    let obs = st.reconcile_batch(
        &token,
        &email,
        vec![upsert("e1", 1000, 2000, Some("Jane Doe"))],
        vec![String::from("s-1")],
        now,
    );
    assert_eq!(st.sessions.len(), 1);
    let sess = &st.sessions[0];
    assert_eq!(sess.patient_uuid, "p1");
    assert_eq!(sess.start, 1000);
    assert_eq!(sess.end, 2000);
    assert_eq!(sess.calendar_ids.len(), 1);
    assert_eq!(sess.calendar_ids[0].0, "jane@example.com");
    assert_eq!(sess.calendar_ids[0].1, "e1");
    assert_eq!(obs.len(), 2);
    assert!(matches!(obs[0].envelope.payload, SseEvent::SessionAdded(_)));
    assert!(matches!(obs[1].envelope.payload, SseEvent::EventAdded(_)));
    assert!(obs[0].envelope.ack < obs[1].envelope.ack);
    assert_eq!(cache_ids(&st, "tok1"), vec![String::from("e1")]);
}

#[test]
fn known_event_with_changed_range_updates_linked_session() {
    let mut st = fresh_state();
    let now = 5_000u64;
    st.create_patient(
        String::from("p1"),
        String::from("Jane Doe"),
        String::from("addr"),
        None,
        now,
    )
    .unwrap();
    let token = String::from("tok1");
    let email = String::from("jane@example.com");
    st.reconcile_batch(
        &token,
        &email,
        vec![upsert("e1", 1000, 2000, Some("Jane Doe"))],
        vec![String::from("s-1")],
        now,
    );
    let obs = st.reconcile_batch(
        &token,
        &email,
        vec![upsert("e1", 1000, 2500, Some("Jane Doe"))],
        vec![String::from("s-2")],
        now + 10,
    );
    assert_eq!(st.sessions.len(), 1, "no new session may be created");
    assert_eq!(st.sessions[0].end, 2500);
    assert_eq!(st.sessions[0].start, 1000);
    assert_eq!(st.sessions[0].last_updated, now + 10);
    assert_eq!(obs.len(), 2);
    assert!(matches!(obs[0].envelope.payload, SseEvent::SessionUpdated(_)));
    assert!(matches!(obs[1].envelope.payload, SseEvent::EventUpdated(_)));
}

#[test]
fn tombstone_deletes_linked_session_and_cache_entry() {
    let mut st = fresh_state();
    let now = 5_000u64;
    st.create_patient(
        String::from("p1"),
        String::from("Jane Doe"),
        String::from("addr"),
        None,
        now,
    )
    .unwrap();
    let token = String::from("tok1");
    let email = String::from("jane@example.com");
    st.reconcile_batch(
        &token,
        &email,
        vec![upsert("e1", 1000, 2000, Some("Jane Doe"))],
        vec![String::from("s-1")],
        now,
    );
    let obs = st.reconcile_batch(
        &token,
        &email,
        vec![RemoteItem::Tombstone(String::from("e1"))],
        vec![String::from("s-2")],
        now + 20,
    );
    assert_eq!(st.sessions.len(), 0);
    assert!(cache_ids(&st, "tok1").is_empty());
    assert_eq!(obs.len(), 2);
    assert!(matches!(obs[0].envelope.payload, SseEvent::SessionRemoved(_)));
    assert!(matches!(obs[1].envelope.payload, SseEvent::EventRemoved(_)));
}

#[test]
fn replaying_the_same_upsert_batch_is_idempotent() {
    let mut st = fresh_state();
    let now = 5_000u64;
    st.create_patient(
        String::from("p1"),
        String::from("Jane Doe"),
        String::from("addr"),
        None,
        now,
    )
    .unwrap();
    let token = String::from("tok1");
    let email = String::from("jane@example.com");
    let batch = || {
        vec![
            upsert("e1", 1000, 2000, Some("Jane Doe")),
            upsert("e2", 3000, 4000, None),
        ]
    };
    st.reconcile_batch(
        &token,
        &email,
        batch(),
        vec![String::from("s-1"), String::from("s-2")],
        now,
    );
    let sessions_once: Vec<(String, u64, u64)> = st
        .sessions
        .iter()
        .map(|s| (s.uuid.clone(), s.start, s.end))
        .collect();
    let cache_once = cache_ids(&st, "tok1");
    let obs = st.reconcile_batch(
        &token,
        &email,
        batch(),
        vec![String::from("s-3"), String::from("s-4")],
        now,
    );
    let sessions_twice: Vec<(String, u64, u64)> = st
        .sessions
        .iter()
        .map(|s| (s.uuid.clone(), s.start, s.end))
        .collect();
    assert_eq!(sessions_once, sessions_twice);
    assert_eq!(cache_once, cache_ids(&st, "tok1"));
    for ob in &obs {
        assert!(
            matches!(ob.envelope.payload, SseEvent::EventUpdated(_)),
            "a replay must only echo event updates"
        );
    }
}

#[test]
fn event_without_matching_patient_only_caches() {
    let mut st = fresh_state();
    let token = String::from("tok1");
    let email = String::from("x@example.com");
    let obs = st.reconcile_batch(
        &token,
        &email,
        vec![upsert("e9", 10, 20, Some("Nobody Here"))],
        vec![String::from("s-1")],
        100,
    );
    assert_eq!(st.sessions.len(), 0);
    assert_eq!(obs.len(), 1);
    assert!(matches!(obs[0].envelope.payload, SseEvent::EventAdded(_)));
    assert_eq!(cache_ids(&st, "tok1"), vec![String::from("e9")]);
}

#[test]
fn unmatched_resource_id_is_rejected_without_mutation() {
    let st = fresh_state();
    assert!(st.webhook_token_for_resource(&String::from("nope")).is_none());
}
