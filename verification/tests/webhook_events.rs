use livekit_monitor::events::{ParticipantData, RoomData, WebhookEventData};
use livekit_monitor::webhook::{
    identity_of, label_of, participant_key, participant_update, room_name_of, room_sid_of, timestamp_of, EventLog,
    MAX_EVENTS,
};

fn event(kind: &str, room: Option<(&str, &str)>, participant: Option<(&str, &str)>) -> WebhookEventData {
    WebhookEventData {
        event: kind.to_string(),
        created_at: 0,
        room: room.map(|(n, s)| RoomData { name: n.to_string(), sid: s.to_string(), creation_time: 0, num_participants: 0 }),
        participant: participant.map(|(i, s)| ParticipantData { identity: i.to_string(), sid: s.to_string() }),
        egress_info: None,
    }
}

#[test]
fn label_is_quoted_lower_case_event_name() {
    assert_eq!(label_of(&event("Room_Started", None, None)), "\"room_started\"");
    assert_eq!(label_of(&event("participant_left", None, None)), "\"participant_left\"");
    assert_eq!(label_of(&event("", None, None)), "\"\"");
}

#[test]
fn room_name_and_sid_fall_back() {
    let e = event("room_started", Some(("demo", "RM_1")), None);
    assert_eq!(room_name_of(&e), "demo");
    assert_eq!(room_sid_of(&e), "RM_1");
    let e = event("room_started", Some(("", "")), None);
    assert_eq!(room_name_of(&e), "unknown-room");
    assert_eq!(room_sid_of(&e), "-");
    let e = event("room_started", None, None);
    assert_eq!(room_name_of(&e), "unknown-room");
    assert_eq!(room_sid_of(&e), "-");
}

#[test]
fn participant_known_by_identity_else_sid() {
    assert_eq!(participant_key(&ParticipantData { identity: "alice".to_string(), sid: "PA".to_string() }), "alice");
    assert_eq!(participant_key(&ParticipantData { identity: String::new(), sid: "PA".to_string() }), "PA");
    assert_eq!(identity_of(&event("x", None, Some(("", "PB")))), Some("PB".to_string()));
    assert_eq!(identity_of(&event("x", None, Some(("", "")))), None);
    assert_eq!(identity_of(&event("x", None, None)), None);
}

#[test]
fn timestamps_normalise_or_take_now() {
    let mut e = event("x", None, None);
    assert_eq!(timestamp_of(&e, 99), 99);
    e.created_at = 1_700_000_000;
    assert_eq!(timestamp_of(&e, 99), 1_700_000_000);
    e.created_at = 1_700_000_000_999;
    assert_eq!(timestamp_of(&e, 99), 1_700_000_000);
    e.created_at = -5;
    assert_eq!(timestamp_of(&e, 99), 99);
}

#[test]
fn participant_update_marks_left_participants_offline() {
    let joined = event("participant_joined", Some(("demo", "R")), Some(("alice", "PA")));
    assert_eq!(participant_update(&joined), Some(("demo".to_string(), "alice".to_string(), true)));
    let left = event("participant_left", Some(("demo", "R")), Some(("", "PA")));
    assert_eq!(participant_update(&left), Some(("demo".to_string(), "PA".to_string(), false)));
    assert_eq!(participant_update(&event("participant_joined", Some(("", "R")), Some(("a", "P")))), None);
    assert_eq!(participant_update(&event("participant_joined", Some(("demo", "R")), Some(("", "")))), None);
    assert_eq!(participant_update(&event("participant_joined", None, Some(("a", "P")))), None);
    assert_eq!(participant_update(&event("room_started", Some(("demo", "R")), None)), None);
}

#[test]
fn event_log_keeps_the_most_recent_five_hundred() {
    let mut log: EventLog<usize> = EventLog::new();
    assert_eq!(log.len(), 0);
    for i in 0..MAX_EVENTS {
        log.push(i);
    }
    assert_eq!(log.len(), 500);
    assert_eq!(*log.get(0), 0);
    log.push(500);
    log.push(501);
    assert_eq!(log.len(), 500);
    assert_eq!(*log.get(0), 2);
    assert_eq!(*log.get(499), 501);
}

fn receiver() -> livekit_api::webhooks::WebhookReceiver {
    livekit_api::webhooks::WebhookReceiver::new(livekit_api::access_token::TokenVerifier::with_api_key(
        "devkey", "secret",
    ))
}

#[test]
fn webhook_body_must_be_utf8() {
    match livekit_monitor::webhook::verify_webhook(&receiver(), &[0x7b, 0xff, 0x7d], "token") {
        Err(m) => assert!(m.starts_with("Invalid UTF-8 body: "), "{m}"),
        Ok(_) => panic!("expected an error"),
    }
}

#[test]
fn webhook_with_bad_token_fails_validation() {
    match livekit_monitor::webhook::verify_webhook(&receiver(), b"{\"event\":\"room_started\"}", "not-a-token") {
        Err(m) => assert!(m.starts_with("Webhook validation failed: "), "{m}"),
        Ok(_) => panic!("expected an error"),
    }
}
