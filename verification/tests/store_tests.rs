use practice_core::broadcast::SseEvent;
use practice_core::entities::{GoogleWebhook, Secrets, Settings, User, UserInfo};
use practice_core::store::{State, StoreError};

fn fresh_state() -> State {
    State::empty(Secrets { client_id: String::from("cid"), client_secret: String::from("cs") })
}

fn account(email: &str) -> User {
    User {
        access_token: String::from("at"),
        expires_at: 1_000,
        refresh_token: String::from("rt"),
        user_info: UserInfo {
            id: String::from("gid"),
            email: String::from(email),
            verified_email: true,
            name: String::from("Name"),
            given_name: String::from("N"),
            picture: String::from("pic"),
            locale: String::from("en"),
        },
        settings: Settings { google_calendar_enabled: true },
    }
}

#[test]
fn patient_names_are_unique_case_insensitively() {
    let mut st = fresh_state();
    st.create_patient(String::from("p1"), String::from("Jane Doe"), String::new(), None, 1)
        .unwrap();
    let r = st.create_patient(String::from("p2"), String::from("jane doe"), String::new(), None, 2);
    assert_eq!(r.unwrap_err(), StoreError::Conflict);
    assert_eq!(st.patients.len(), 1);
}

#[test]
fn update_patient_keeps_the_given_name_and_clears_zero_age() {
    let mut st = fresh_state();
    st.create_patient(String::from("p1"), String::from("Jane"), String::new(), Some(30), 1)
        .unwrap();
    let (_ob, flag) = st
        .update_patient(
            &String::from("p1"),
            Some(String::from("Janet Q")),
            None,
            Some(0),
            Some(String::from("notes")),
            9,
        )
        .unwrap();
    assert!(flag, "a name or description change must push calendar edits");
    assert_eq!(st.patients[0].name, "Janet Q", "the rename stores the name as given");
    assert_eq!(st.patients[0].age, None);
    assert_eq!(st.patients[0].description, "notes");
    assert_eq!(st.patients[0].last_updated, 9);
}

#[test]
fn renaming_onto_another_patients_name_conflicts_case_insensitively() {
    let mut st = fresh_state();
    st.create_patient(String::from("p1"), String::from("Jane"), String::new(), None, 1)
        .unwrap();
    st.create_patient(String::from("p2"), String::from("Moe"), String::new(), None, 1)
        .unwrap();
    let r = st.update_patient(&String::from("p2"), Some(String::from("JANE")), None, None, None, 2);
    assert_eq!(r.unwrap_err(), StoreError::Conflict);
    assert_eq!(st.patients[1].name, "Moe");
}

#[test]
fn linked_session_creation_mirrors_one_account_entry() {
    let mut st = fresh_state();
    st.create_patient(String::from("p1"), String::from("Jane"), String::new(), None, 1)
        .unwrap();
    let ob = st
        .create_linked_session(
            String::from("s1"),
            String::from("p1"),
            100,
            200,
            String::from("a@x.com"),
            String::from("cal-7"),
            5,
        )
        .unwrap();
    assert!(matches!(ob.envelope.payload, SseEvent::SessionAdded(_)));
    let s = &st.sessions[0];
    assert_eq!(s.emotions.len(), 0, "the outward path seeds no blank emotion");
    assert_eq!(s.calendar_ids, vec![(String::from("a@x.com"), String::from("cal-7"))]);
    let missing = st.create_linked_session(
        String::from("s2"),
        String::from("p?"),
        1,
        2,
        String::from("a@x.com"),
        String::from("cal-8"),
        5,
    );
    assert_eq!(missing.unwrap_err(), StoreError::NotFound);
}

#[test]
fn subscribe_reports_a_vanished_account_distinctly() {
    let mut st = fresh_state();
    st.sse_tokens.push((String::from("ghost"), String::from("sse-g")));
    let r = st.subscribe(&String::from("sse-g"), String::from("fresh"));
    assert_eq!(r.unwrap_err(), StoreError::NotFound);
    let r2 = st.subscribe(&String::from("unknown"), String::from("fresh"));
    assert_eq!(r2.unwrap_err(), StoreError::Unauthorized);
}

#[test]
fn update_unknown_patient_is_not_found() {
    let mut st = fresh_state();
    let r = st.update_patient(&String::from("nope"), None, None, None, None, 1);
    assert_eq!(r.unwrap_err(), StoreError::NotFound);
}

#[test]
fn delete_patient_cascades_to_its_sessions() {
    let mut st = fresh_state();
    st.create_patient(String::from("p1"), String::from("Jane"), String::new(), None, 1)
        .unwrap();
    st.create_patient(String::from("p2"), String::from("Moe"), String::new(), None, 1)
        .unwrap();
    st.create_session(String::from("s1"), String::from("e1"), String::from("p1"), 10, 20, 2)
        .unwrap();
    st.create_session(String::from("s2"), String::from("e2"), String::from("p2"), 30, 40, 2)
        .unwrap();
    let (ob, removed_patient, removed_sessions) = st.delete_patient(&String::from("p1")).unwrap();
    assert_eq!(removed_patient.uuid, "p1");
    assert_eq!(removed_sessions.len(), 1);
    assert_eq!(removed_sessions[0].uuid, "s1");
    assert_eq!(st.sessions.len(), 1);
    assert_eq!(st.sessions[0].uuid, "s2");
    assert!(matches!(ob.envelope.payload, SseEvent::PatientRemoved(_)));
}

#[test]
fn create_session_requires_an_existing_patient() {
    let mut st = fresh_state();
    let r = st.create_session(String::from("s1"), String::from("e1"), String::from("p?"), 1, 2, 3);
    assert_eq!(r.unwrap_err(), StoreError::NotFound);
}

#[test]
fn created_session_starts_with_one_blank_emotion() {
    let mut st = fresh_state();
    st.create_patient(String::from("p1"), String::from("Jane"), String::new(), None, 1)
        .unwrap();
    st.create_session(String::from("s1"), String::from("e1"), String::from("p1"), 10, 20, 7)
        .unwrap();
    let s = &st.sessions[0];
    assert_eq!(s.emotions.len(), 1);
    assert_eq!(s.emotions[0].uuid, "e1");
    assert_eq!(s.emotions[0].id, None);
    assert_eq!(s.paid, 0);
    assert_eq!(s.created_at, 7);
}

#[test]
fn update_session_changes_fields_and_flags_calendar_edits() {
    let mut st = fresh_state();
    st.create_patient(String::from("p1"), String::from("Jane"), String::new(), None, 1)
        .unwrap();
    st.create_session(String::from("s1"), String::from("e1"), String::from("p1"), 10, 20, 2)
        .unwrap();
    let (_ob, flag) = st
        .update_session(&String::from("s1"), None, Some(15), None, Some(250), 8)
        .unwrap();
    assert!(flag);
    assert_eq!(st.sessions[0].start, 15);
    assert_eq!(st.sessions[0].paid, 250);
    assert_eq!(st.sessions[0].last_updated, 8);
    let (_ob2, flag2) = st
        .update_session(&String::from("s1"), None, Some(15), None, Some(300), 9)
        .unwrap();
    assert!(!flag2, "an unchanged time range needs no calendar edits");
}

#[test]
fn broadcast_sequence_numbers_strictly_increase() {
    let mut st = fresh_state();
    let a = st.broadcast(SseEvent::PatientRemoved(String::from("x")));
    let b = st.broadcast(SseEvent::PatientRemoved(String::from("y")));
    let c = st.broadcast_socket(SseEvent::PatientRemoved(String::from("z")), 42);
    assert_eq!(a.envelope.ack, 0);
    assert_eq!(b.envelope.ack, 1);
    assert_eq!(c.envelope.ack, 2);
    assert!(a.envelope.ack < b.envelope.ack && b.envelope.ack < c.envelope.ack);
    assert_eq!(c.envelope.socket_ack, Some(42));
    assert_eq!(a.envelope.socket_ack, None);
}

#[test]
fn registering_the_same_email_reuses_the_account() {
    let mut st = fresh_state();
    let (tok1, new1) =
        st.register_account(account("a@x.com"), String::from("t1"), String::from("sse1"));
    let (tok2, new2) =
        st.register_account(account("a@x.com"), String::from("t2"), String::from("sse2"));
    assert!(new1);
    assert!(!new2);
    assert_eq!(tok1, "t1");
    assert_eq!(tok2, "t1", "re-authentication must reuse the existing token");
    assert_eq!(st.users.len(), 1);
}

#[test]
fn remove_account_clears_every_keyed_collection() {
    let mut st = fresh_state();
    st.register_account(account("a@x.com"), String::from("t1"), String::from("sse1"));
    st.set_cache(String::from("t1"), Vec::new());
    let removed = st.remove_account(&String::from("t1")).unwrap();
    assert_eq!(removed.user_info.email, "a@x.com");
    assert!(st.users.is_empty());
    assert!(st.sse_tokens.is_empty());
    assert!(st.event_caches.is_empty());
    assert_eq!(
        st.remove_account(&String::from("t1")).unwrap_err(),
        StoreError::NotFound
    );
}

#[test]
fn auth_codes_are_single_use() {
    let mut st = fresh_state();
    st.register_account(account("a@x.com"), String::from("t1"), String::from("sse1"));
    let code = st.new_code(&String::from("t1"));
    let got = st.take_auth_code(&code);
    assert_eq!(got.as_deref(), Some("t1"));
    assert!(st.take_auth_code(&code).is_none(), "a code redeems once");
}

#[test]
fn subscriber_gets_snapshot_then_joins_broadcasts() {
    let mut st = fresh_state();
    st.register_account(account("a@x.com"), String::from("t1"), String::from("sse1"));
    st.create_patient(String::from("p1"), String::from("Jane"), String::new(), None, 1)
        .unwrap();
    let (id, ready) = st.subscribe(&String::from("sse1"), String::from("sse-rotated")).unwrap();
    assert_eq!(id, 0);
    match ready {
        SseEvent::Ready { patients, sessions, user_mail, .. } => {
            assert_eq!(patients.len(), 1);
            assert_eq!(sessions.len(), 0);
            assert_eq!(user_mail, "a@x.com");
        },
        _ => panic!("the first frame must be the full snapshot"),
    }
    let ob = st.broadcast(SseEvent::PatientRemoved(String::from("p1")));
    assert_eq!(ob.targets, vec![0u64]);
    let again = st.subscribe(&String::from("sse1"), String::from("x"));
    assert_eq!(again.unwrap_err(), StoreError::Unauthorized, "the push token rotates on use");
}

#[test]
fn stale_subscribers_are_dropped_by_the_sweep() {
    let mut st = fresh_state();
    st.register_account(account("a@x.com"), String::from("t1"), String::from("sse1"));
    let (id1, _) = st.subscribe(&String::from("sse1"), String::from("sse2")).unwrap();
    let (id2, _) = st.subscribe(&String::from("sse2"), String::from("sse3")).unwrap();
    st.remove_stale_clients(&vec![id1]);
    assert_eq!(st.sse.len(), 1);
    assert_eq!(st.sse[0].id, id2);
}

#[test]
fn update_settings_toggles_the_sync_flag() {
    let mut st = fresh_state();
    st.register_account(account("a@x.com"), String::from("t1"), String::from("sse1"));
    st.update_settings(&String::from("t1"), Some(false)).unwrap();
    assert!(!st.users[0].1.settings.google_calendar_enabled);
    assert_eq!(
        st.update_settings(&String::from("zz"), Some(true)).unwrap_err(),
        StoreError::NotFound
    );
}

#[test]
fn serialized_mutations_end_in_one_determined_state() {
    let mut st = fresh_state();
    let a = st
        .create_patient(String::from("p1"), String::from("Jane"), String::new(), None, 1)
        .unwrap();
    let b = st
        .create_session(String::from("s1"), String::from("e1"), String::from("p1"), 10, 20, 2)
        .unwrap();
    let (c, _) = st.update_session(&String::from("s1"), None, Some(11), None, None, 3).unwrap();
    let (d, _, _) = st.delete_patient(&String::from("p1")).unwrap();
    assert_eq!(
        vec![a.envelope.ack, b.envelope.ack, c.envelope.ack, d.envelope.ack],
        vec![0, 1, 2, 3],
        "each admitted mutation takes the next sequence number"
    );
    assert!(st.patients.is_empty());
    assert!(st.sessions.is_empty());
    assert_eq!(st.ack, 4);
}

#[test]
fn update_session_rejects_an_unknown_patient_or_session() {
    let mut st = fresh_state();
    st.create_patient(String::from("p1"), String::from("Jane"), String::new(), None, 1)
        .unwrap();
    st.create_session(String::from("s1"), String::from("e1"), String::from("p1"), 10, 20, 2)
        .unwrap();
    let bad_patient =
        st.update_session(&String::from("s1"), Some(String::from("p?")), None, None, None, 3);
    assert_eq!(bad_patient.unwrap_err(), StoreError::NotFound);
    let bad_session = st.update_session(&String::from("s?"), None, Some(1), None, None, 3);
    assert_eq!(bad_session.unwrap_err(), StoreError::NotFound);
    assert_eq!(st.sessions[0].start, 10, "a refused update changes nothing");
}

#[test]
fn sync_cursor_advances_even_for_an_empty_batch() {
    let mut st = fresh_state();
    st.set_webhook(
        String::from("t1"),
        GoogleWebhook {
            uuid: String::from("w"),
            resource_id: String::from("res"),
            expiry: 10,
            events: Vec::new(),
            sync_token: String::from("old"),
        },
    );
    let obs = st.reconcile_batch(&String::from("t1"), &String::from("a@x.com"), Vec::new(), Vec::new(), 5);
    assert!(obs.is_empty());
    st.advance_sync_token(&String::from("t1"), String::from("new")).unwrap();
    assert_eq!(st.calendar_webhooks[0].1.sync_token, "new");
    assert_eq!(
        st.webhook_token_for_resource(&String::from("res")).as_deref(),
        Some("t1")
    );
    assert_eq!(
        st.advance_sync_token(&String::from("t?"), String::from("x")).unwrap_err(),
        StoreError::NotFound
    );
}

