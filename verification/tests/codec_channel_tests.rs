use practice_core::calendar::{session_edit_events, Time};
use practice_core::channel::{ChannelError, ChannelPhase, EditEmotion, SessionSocket, SocketMessage};
use practice_core::codec::{
    decode_patient_text, decode_rwuser_text, decode_session_text, decode_sse_tokens_text,
    decode_webhook_text, encode_patient_text, encode_rwuser_text, encode_session_text,
    encode_sse_tokens_text, encode_webhook_text,
};
use practice_core::entities::{Emotion, TimelineEvent};
use practice_core::entities::{GoogleRefreshResp, GoogleWebhook, Patient, RwUser, Secrets, Session,
    Settings, User, UserInfo};
use practice_core::multipart::{get_emotion_code, parse_multipart_body};
use practice_core::refresh::refresh_delay;
use practice_core::store::State;
use practice_core::support::{dec_u64_string, generate_token_at, new_uuid_string};

fn fresh_state() -> State {
    State::empty(Secrets { client_id: String::from("cid"), client_secret: String::from("cs") })
}

#[test]
fn patient_file_round_trips() {
    let p = Patient {
        uuid: String::from("p-77"),
        description: String::from("line one \"quoted\" and back\\slash"),
        age: Some(41),
        name: String::from("Jane Doe"),
        address: String::from("12 High St"),
        profile_picture: None,
        created_at: 1_700_000_000,
        last_updated: 1_700_000_300,
    };
    let text = encode_patient_text(&p);
    let back = decode_patient_text(text.as_str(), String::from("p-77")).unwrap();
    assert_eq!(back.uuid, p.uuid);
    assert_eq!(back.description, p.description);
    assert_eq!(back.age, p.age);
    assert_eq!(back.name, p.name);
    assert_eq!(back.address, p.address);
    assert_eq!(back.profile_picture, p.profile_picture);
    assert_eq!(back.created_at, p.created_at);
    assert_eq!(back.last_updated, p.last_updated);
    let v: serde_json::Value = serde_json::from_str(&text).unwrap();
    assert_eq!(v["name"], serde_json::Value::String(String::from("Jane Doe")));
    assert_eq!(v["age"], serde_json::Value::from(41u64));
}

#[test]
fn account_record_round_trips() {
    let u = RwUser {
        id: String::from("g-1"),
        email: String::from("a@x.com"),
        verified_email: true,
        name: String::from("A B"),
        given_name: String::from("A"),
        picture: String::from("https://p/x.png"),
        locale: String::from("en"),
        settings: Settings { google_calendar_enabled: false },
        access_token: String::from("at\"x"),
        expires_at: 1_700_000_111,
        refresh_token: String::from("rt"),
    };
    let text = encode_rwuser_text(&u);
    let back = decode_rwuser_text(text.as_str()).unwrap();
    assert_eq!(back.email, u.email);
    assert_eq!(back.access_token, u.access_token);
    assert_eq!(back.expires_at, u.expires_at);
    assert_eq!(back.settings.google_calendar_enabled, false);
    assert!(serde_json::from_str::<serde_json::Value>(&text).is_ok());
    assert!(decode_rwuser_text("{\"id\":oops").is_none());
}

#[test]
fn webhook_record_round_trips() {
    let w = GoogleWebhook {
        uuid: String::from("w-1"),
        resource_id: String::from("res-9"),
        expiry: 1_800_000_000_000,
        events: vec![String::from("e1"), String::from("e2"), String::from("e3")],
        sync_token: String::from("cursor-1"),
    };
    let text = encode_webhook_text(&w);
    let back = decode_webhook_text(text.as_str()).unwrap();
    assert_eq!(back.uuid, w.uuid);
    assert_eq!(back.resource_id, w.resource_id);
    assert_eq!(back.expiry, w.expiry);
    assert_eq!(back.events, w.events);
    assert_eq!(back.sync_token, w.sync_token);
    let empty = GoogleWebhook { events: Vec::new(), ..w };
    let text2 = encode_webhook_text(&empty);
    assert_eq!(decode_webhook_text(text2.as_str()).unwrap().events.len(), 0);
}

#[test]
fn multipart_statuses_are_read_per_sub_response() {
    let body = "--b\r\nContent-Type: application/http\r\n\r\nHTTP/1.1 200 OK\r\nx\r\nHTTP/1.1 404 Not Found\r\nHTTP/1.1 abc\r\n--b--";
    let codes = parse_multipart_body(body);
    assert_eq!(codes, vec![Some(200), Some(404), None]);
    assert_eq!(parse_multipart_body("nothing here"), Vec::<Option<u16>>::new());
}

#[test]
fn emotion_codes_cycle_in_blocks_of_five() {
    assert_eq!(get_emotion_code(0), 0);
    assert_eq!(get_emotion_code(4), 0);
    assert_eq!(get_emotion_code(5), 1);
    assert_eq!(get_emotion_code(29), 5);
    assert_eq!(get_emotion_code(30), 0);
    assert_eq!(get_emotion_code(59), 5);
}

#[test]
fn tokens_are_hex_digests_of_the_instant() {
    let t = generate_token_at(1_000);
    assert_eq!(t.len(), 64);
    assert!(t.chars().all(|c| c.is_ascii_hexdigit()));
    assert_ne!(t, format!("{}", i64::MAX - 1_000), "the digest must transform its seed");
    assert_ne!(t, generate_token_at(2_000));
    assert_eq!(t, generate_token_at(1_000));
}

#[test]
fn fresh_identifiers_are_hyphenated() {
    let u = new_uuid_string();
    assert_eq!(u.len(), 36);
    assert_eq!(u.chars().filter(|c| *c == '-').count(), 4);
}

#[test]
fn decimal_rendering_is_exact() {
    assert_eq!(dec_u64_string(0), "0");
    assert_eq!(dec_u64_string(12345), "12345");
    assert_eq!(dec_u64_string(u64::MAX), "18446744073709551615");
}

#[test]
fn refresh_delay_clamps_at_the_margin() {
    assert_eq!(refresh_delay(1_000, 100), 840);
    assert_eq!(refresh_delay(130, 100), 0, "thirty seconds to expiry is already past the margin");
    assert_eq!(refresh_delay(50, 100), 0);
}

#[test]
fn successful_refresh_swaps_token_and_persists_once() {
    let mut st = fresh_state();
    st.register_account(
        User {
            access_token: String::from("old-at"),
            expires_at: 130,
            refresh_token: String::from("rt"),
            user_info: UserInfo {
                id: String::from("g"),
                email: String::from("a@x.com"),
                verified_email: true,
                name: String::from("A"),
                given_name: String::from("A"),
                picture: String::new(),
                locale: String::new(),
            },
            settings: Settings { google_calendar_enabled: true },
        },
        String::from("t1"),
        String::from("sse1"),
    );
    let out = st.complete_refresh(
        &String::from("t1"),
        Some(GoogleRefreshResp { access_token: String::from("new-at"), expires_in: 3600 }),
        100,
    );
    assert_eq!(out.persist_requests, 1);
    assert_eq!(out.retry_in, None);
    assert_eq!(st.users[0].1.access_token, "new-at");
    assert_eq!(st.users[0].1.expires_at, 3700);
    let failed = st.complete_refresh(&String::from("t1"), None, 3700);
    assert_eq!(failed.persist_requests, 0);
    assert!(failed.retry_in.unwrap() >= 5, "a failed refresh must wait at least the floor");
}

#[test]
fn silent_unauthenticated_channel_closes_without_touching_state() {
    let st = fresh_state();
    let mut ch = SessionSocket::new(String::from("s1"), 7, 100);
    assert_eq!(ch.phase, ChannelPhase::Unauthenticated);
    assert!(!ch.hb_check(105));
    assert!(ch.hb_check(111));
    assert_eq!(ch.phase, ChannelPhase::Closed);
    assert_eq!(st.sessions.len(), 0);
    assert_eq!(st.patients.len(), 0);
}

#[test]
fn bad_token_is_refused_and_good_token_authenticates() {
    let mut st = fresh_state();
    st.register_account(
        User {
            access_token: String::from("at"),
            expires_at: 10,
            refresh_token: String::from("rt"),
            user_info: UserInfo {
                id: String::from("g"),
                email: String::from("a@x.com"),
                verified_email: true,
                name: String::from("A"),
                given_name: String::from("A"),
                picture: String::new(),
                locale: String::new(),
            },
            settings: Settings { google_calendar_enabled: true },
        },
        String::from("t1"),
        String::from("sse1"),
    );
    let mut ch = SessionSocket::new(String::from("s1"), 7, 100);
    let (msg, close) = ch.try_authorize(&st, &String::from("wrong"));
    assert_eq!(msg.0, "Unauthorized");
    assert!(close);
    assert_eq!(ch.phase, ChannelPhase::Closed);
    let mut ch2 = SessionSocket::new(String::from("s1"), 7, 100);
    let (msg2, close2) = ch2.try_authorize(&st, &String::from("t1"));
    assert_eq!(msg2.0, "Authorized: 7");
    assert!(!close2);
    assert_eq!(ch2.phase, ChannelPhase::Authenticated);
}

#[test]
fn channel_edits_apply_and_debounce() {
    let mut st = fresh_state();
    st.create_patient(String::from("p1"), String::from("Jane"), String::new(), None, 1)
        .unwrap();
    st.create_session(String::from("s1"), String::from("e0"), String::from("p1"), 10, 20, 2)
        .unwrap();
    let mut ch = SessionSocket::new(String::from("s1"), 7, 100);
    ch.phase = ChannelPhase::Authenticated;
    let first = ch
        .handle_messge(&mut st, SocketMessage::AddEmotion(String::from("e1")), 50)
        .unwrap();
    assert!(first, "the first edit in a window schedules the broadcast");
    let second = ch
        .handle_messge(&mut st, SocketMessage::AddEmotionPrepend(String::from("e2")), 51)
        .unwrap();
    assert!(!second, "edits inside the window coalesce");
    assert_eq!(st.sessions[0].emotions.len(), 3);
    assert_eq!(st.sessions[0].emotions[0].uuid, "e2");
    assert_eq!(st.sessions[0].emotions[2].uuid, "e1");
    let dup = ch.handle_messge(&mut st, SocketMessage::AddEmotion(String::from("e1")), 52);
    assert_eq!(dup.unwrap_err(), ChannelError::EmotionExists);
    ch.handle_messge(
        &mut st,
        SocketMessage::EditEmotion(EditEmotion {
            uuid: String::from("e1"),
            id: Some(4),
            kind: Some(1),
            aquired_age: None,
            aquired_person: String::from("aunt"),
        }),
        53,
    )
    .unwrap();
    let e1 = st.sessions[0].emotions.iter().find(|e| e.uuid == "e1").unwrap();
    assert_eq!(e1.id, Some(4));
    assert_eq!(e1.kind, Some(1));
    assert_eq!(e1.aquired_person, "aunt");
    ch.handle_messge(&mut st, SocketMessage::RemoveEmotion(String::from("e2")), 54)
        .unwrap();
    assert_eq!(st.sessions[0].emotions.len(), 2);
    let pat = ch
        .handle_messge(&mut st, SocketMessage::EditDescription(String::from("new notes")), 55)
        .unwrap();
    assert!(pat);
    assert_eq!(st.patients[0].description, "new notes");
    let flush = ch.flush_session_update(&mut st).unwrap();
    assert_eq!(flush.envelope.socket_ack, Some(7), "the echo carries the channel id");
    assert!(!ch.is_session_update_scheduled);
}

#[test]
fn outbound_time_renders_utc() {
    let t = Time::from_unix(1);
    assert_eq!(t.date_time, "1970-01-01T00:00:01+00:00");
    assert_eq!(t.time_zone, "Europe/Warsaw");
}

#[test]
fn push_token_bindings_round_trip() {
    let m = vec![
        (String::from("t1"), String::from("sse-one")),
        (String::from("t2"), String::from("sse \"two\"")),
    ];
    let text = encode_sse_tokens_text(&m);
    assert_eq!(decode_sse_tokens_text(&text).unwrap(), m);
    assert!(serde_json::from_str::<serde_json::Value>(&text).is_ok());
    let none: Vec<(String, String)> = Vec::new();
    let text2 = encode_sse_tokens_text(&none);
    assert_eq!(decode_sse_tokens_text(&text2).unwrap(), none);
    assert!(decode_sse_tokens_text("[[oops").is_none());
}

#[test]
fn calendar_edits_cover_each_mirrored_entry() {
    let patient = Patient {
        uuid: String::from("p1"),
        description: String::from("desc"),
        age: None,
        name: String::from("Jane"),
        address: String::new(),
        profile_picture: None,
        created_at: 0,
        last_updated: 0,
    };
    let session = Session {
        uuid: String::from("s1"),
        patient_uuid: String::from("p1"),
        start: 10,
        end: 20,
        paid: 0,
        emotions: Vec::new(),
        timeline: Vec::new(),
        created_at: 0,
        last_updated: 0,
        calendar_ids: vec![
            (String::from("a@x.com"), String::from("e-a")),
            (String::from("b@x.com"), String::from("e-b")),
        ],
    };
    let edits = session_edit_events(&session, &patient);
    assert_eq!(edits.len(), 2);
    assert_eq!(edits[0].0, "a@x.com");
    assert_eq!(edits[0].1.id, "e-a");
    assert_eq!(edits[0].1.summary, "S. Jane");
    assert_eq!(edits[0].1.description.as_deref(), Some("desc"));
    assert_eq!(edits[1].1.start, 10);
    assert_eq!(edits[1].1.end, 20);
}

#[test]
fn session_file_round_trips() {
    let s = Session {
        uuid: String::from("s-9"),
        patient_uuid: String::from("p-1"),
        start: 1000,
        end: 2000,
        paid: 15_000,
        emotions: vec![
            Emotion {
                uuid: String::from("e-1"),
                id: Some(12),
                kind: Some(2),
                aquired_age: None,
                aquired_person: String::from("m\"um"),
                created_at: 77,
            },
            Emotion {
                uuid: String::from("e-2"),
                id: None,
                kind: None,
                aquired_age: Some(9),
                aquired_person: String::new(),
                created_at: 78,
            },
        ],
        timeline: vec![
            (1000, TimelineEvent::SessionStart),
            (1200, TimelineEvent::EmotionAdded(String::from("e-1"))),
            (1900, TimelineEvent::EmotionRemoved(String::from("e-2"))),
            (2000, TimelineEvent::SessionEnd),
        ],
        created_at: 999,
        last_updated: 1999,
        calendar_ids: vec![
            (String::from("a@x.com"), String::from("cal-1")),
            (String::from("b@x.com"), String::from("cal-2")),
        ],
    };
    let text = encode_session_text(&s);
    let back = decode_session_text(text.as_str(), String::from("s-9")).unwrap();
    assert_eq!(back.uuid, s.uuid);
    assert_eq!(back.patient_uuid, s.patient_uuid);
    assert_eq!(back.start, s.start);
    assert_eq!(back.end, s.end);
    assert_eq!(back.paid, s.paid);
    assert_eq!(back.created_at, s.created_at);
    assert_eq!(back.last_updated, s.last_updated);
    assert_eq!(back.emotions.len(), 2);
    assert_eq!(back.emotions[0].uuid, "e-1");
    assert_eq!(back.emotions[0].aquired_person, "m\"um");
    assert_eq!(back.emotions[1].aquired_age, Some(9));
    assert_eq!(back.timeline.len(), 4);
    assert!(matches!(back.timeline[0].1, TimelineEvent::SessionStart));
    match &back.timeline[1].1 {
        TimelineEvent::EmotionAdded(id) => assert_eq!(id, "e-1"),
        _ => panic!("the timeline order must be preserved"),
    }
    assert_eq!(back.calendar_ids, s.calendar_ids);
    assert!(serde_json::from_str::<serde_json::Value>(&text).is_ok());
    let empty = Session {
        uuid: String::from("s-0"),
        patient_uuid: String::from("p-1"),
        start: 1,
        end: 2,
        paid: 0,
        emotions: Vec::new(),
        timeline: Vec::new(),
        created_at: 3,
        last_updated: 4,
        calendar_ids: Vec::new(),
    };
    let text2 = encode_session_text(&empty);
    let back2 = decode_session_text(text2.as_str(), String::from("s-0")).unwrap();
    assert_eq!(back2.emotions.len(), 0);
    assert_eq!(back2.timeline.len(), 0);
    assert_eq!(back2.calendar_ids.len(), 0);
    assert!(decode_session_text("{\"patient_uuid\":", String::from("x")).is_none());
}
