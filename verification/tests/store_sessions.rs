use livekit_monitor::events::{ParticipantData, RoomData, WebhookEventData};
use livekit_monitor::records::{SessionRecord, SessionsFilter};
use livekit_monitor::session_store::{RowWrite, SessionStore};

fn room(name: &str, sid: &str) -> RoomData {
    RoomData { name: name.to_string(), sid: sid.to_string(), creation_time: 0, num_participants: 0 }
}

fn event(kind: &str, created_at: i64, room_name: Option<&str>, identity: Option<&str>) -> WebhookEventData {
    WebhookEventData {
        event: kind.to_string(),
        created_at,
        room: room_name.map(|n| room(n, "RM_1")),
        participant: identity.map(|i| ParticipantData { identity: i.to_string(), sid: "PA_1".to_string() }),
        egress_info: None,
    }
}

fn all_sessions(store: &SessionStore, now: i64) -> Vec<SessionRecord> {
    store.list_sessions_at(&SessionsFilter::default(), now)
}

#[test]
fn room_started_opens_session_named_after_room_and_time() {
    let mut store = SessionStore::new();
    store.handle_webhook_event_at(&event("room_started", 1_700_000_000, Some("demo"), None), 1);
    let sessions = all_sessions(&store, 1_700_000_060);
    assert_eq!(sessions.len(), 1);
    assert_eq!(sessions[0].session_id, "demo-1700000000");
    assert_eq!(sessions[0].room_name, "demo");
    assert_eq!(sessions[0].started_at, 1_700_000_000);
    assert_eq!(sessions[0].ended_at, None);
    assert_eq!(sessions[0].status, "active");
    assert_eq!(sessions[0].duration_seconds, 60);
    assert_eq!(sessions[0].participants, 0);
}

#[test]
fn millisecond_event_times_are_brought_to_seconds() {
    let mut store = SessionStore::new();
    store.handle_webhook_event_at(&event("room_started", 1_700_000_000_123, Some("demo"), None), 1);
    let sessions = all_sessions(&store, 1_700_000_000);
    assert_eq!(sessions[0].session_id, "demo-1700000000");
    assert_eq!(sessions[0].started_at, 1_700_000_000);
}

#[test]
fn event_without_time_takes_the_current_time() {
    let mut store = SessionStore::new();
    store.handle_webhook_event_at(&event("room_started", 0, Some("demo"), None), 42);
    let sessions = all_sessions(&store, 50);
    assert_eq!(sessions[0].session_id, "demo-42");
    assert_eq!(sessions[0].duration_seconds, 8);
}

#[test]
fn participant_counts_once_however_often_it_joins() {
    let mut store = SessionStore::new();
    store.handle_webhook_event_at(&event("room_started", 100, Some("demo"), None), 1);
    store.handle_webhook_event_at(&event("participant_joined", 110, Some("demo"), Some("alice")), 1);
    store.handle_webhook_event_at(&event("participant_joined", 120, Some("demo"), Some("alice")), 1);
    store.handle_webhook_event_at(&event("participant_joined", 130, Some("demo"), Some("bob")), 1);
    let sessions = all_sessions(&store, 200);
    assert_eq!(sessions.len(), 1);
    assert_eq!(sessions[0].participants, 2);
}

#[test]
fn participant_without_identity_is_known_by_sid() {
    let mut store = SessionStore::new();
    let mut e = event("participant_joined", 110, Some("demo"), Some(""));
    store.handle_webhook_event_at(&e, 1);
    e.participant = Some(ParticipantData { identity: String::new(), sid: String::new() });
    store.handle_webhook_event_at(&e, 1);
    let sessions = all_sessions(&store, 200);
    assert_eq!(sessions.len(), 1);
    assert_eq!(sessions[0].participants, 1);
}

#[test]
fn join_without_active_session_opens_one() {
    let mut store = SessionStore::new();
    store.handle_webhook_event_at(&event("participant_joined", 500, Some("lobby"), Some("carol")), 1);
    let sessions = all_sessions(&store, 600);
    assert_eq!(sessions.len(), 1);
    assert_eq!(sessions[0].session_id, "lobby-500");
    assert_eq!(sessions[0].status, "active");
    assert_eq!(sessions[0].participants, 1);
}

#[test]
fn room_finished_ends_the_latest_active_session() {
    let mut store = SessionStore::new();
    store.handle_webhook_event_at(&event("room_started", 100, Some("demo"), None), 1);
    store.handle_webhook_event_at(&event("room_started", 300, Some("demo"), None), 1);
    store.handle_webhook_event_at(&event("room_finished", 400, Some("demo"), None), 1);
    let sessions = all_sessions(&store, 1000);
    assert_eq!(sessions.len(), 2);
    assert_eq!(sessions[0].session_id, "demo-300");
    assert_eq!(sessions[0].status, "ended");
    assert_eq!(sessions[0].ended_at, Some(400));
    assert_eq!(sessions[0].duration_seconds, 100);
    assert_eq!(sessions[1].session_id, "demo-100");
    assert_eq!(sessions[1].status, "active");
    assert_eq!(sessions[1].duration_seconds, 900);
}

#[test]
fn room_finished_without_session_changes_no_session() {
    let mut store = SessionStore::new();
    store.handle_webhook_event_at(&event("room_finished", 400, Some("demo"), None), 1);
    assert_eq!(all_sessions(&store, 1000).len(), 0);
}

#[test]
fn restarting_a_room_at_the_same_time_keeps_one_session() {
    let mut store = SessionStore::new();
    store.handle_webhook_event_at(&event("room_started", 100, Some("demo"), None), 1);
    store.handle_webhook_event_at(&event("room_started", 100, Some("demo"), None), 1);
    assert_eq!(all_sessions(&store, 1000).len(), 1);
}

#[test]
fn event_without_room_goes_to_unknown_room() {
    let mut store = SessionStore::new();
    store.handle_webhook_event_at(&event("room_started", 100, None, None), 1);
    let sessions = all_sessions(&store, 1000);
    assert_eq!(sessions[0].room_name, "unknown-room");
    assert_eq!(sessions[0].session_id, "unknown-room-100");
    let history = store.list_room_history(None);
    assert_eq!(history[0].room_name, "unknown-room");
    assert_eq!(history[0].room_sid, "-");
}

#[test]
fn ended_session_that_ended_before_it_started_lasts_zero() {
    let mut store = SessionStore::new();
    store.handle_webhook_event_at(&event("room_started", 500, Some("demo"), None), 1);
    store.handle_webhook_event_at(&event("room_finished", 400, Some("demo"), None), 1);
    let sessions = all_sessions(&store, 1000);
    assert_eq!(sessions[0].ended_at, Some(400));
    assert_eq!(sessions[0].duration_seconds, 0);
}

#[test]
fn sessions_filter_by_status_room_and_search() {
    let mut store = SessionStore::new();
    store.handle_webhook_event_at(&event("room_started", 100, Some("alpha"), None), 1);
    store.handle_webhook_event_at(&event("room_started", 200, Some("beta"), None), 1);
    store.handle_webhook_event_at(&event("room_started", 300, Some("Gamma"), None), 1);
    store.handle_webhook_event_at(&event("room_finished", 250, Some("beta"), None), 1);

    let ended = store.list_sessions_at(
        &SessionsFilter { status: Some("ended".to_string()), ..SessionsFilter::default() },
        1000,
    );
    assert_eq!(ended.len(), 1);
    assert_eq!(ended[0].room_name, "beta");

    let alpha = store.list_sessions_at(
        &SessionsFilter { room_name: Some("alpha".to_string()), ..SessionsFilter::default() },
        1000,
    );
    assert_eq!(alpha.len(), 1);
    assert_eq!(alpha[0].session_id, "alpha-100");

    let searched = store.list_sessions_at(
        &SessionsFilter { search: Some("GAM".to_string()), ..SessionsFilter::default() },
        1000,
    );
    assert_eq!(searched.len(), 1);
    assert_eq!(searched[0].room_name, "Gamma");

    let by_id = store.list_sessions_at(
        &SessionsFilter { search: Some("-2".to_string()), ..SessionsFilter::default() },
        1000,
    );
    assert_eq!(by_id.len(), 1);
    assert_eq!(by_id[0].session_id, "beta-200");
}

#[test]
fn sessions_are_newest_first_with_limit_and_offset() {
    let mut store = SessionStore::new();
    for (name, ts) in [("a", 100), ("b", 400), ("c", 200), ("d", 300)] {
        store.handle_webhook_event_at(&event("room_started", ts, Some(name), None), 1);
    }
    let all = all_sessions(&store, 1000);
    let names: Vec<&str> = all.iter().map(|s| s.room_name.as_str()).collect();
    assert_eq!(names, vec!["b", "d", "c", "a"]);

    let page = store.list_sessions_at(
        &SessionsFilter { limit: Some(2), offset: Some(1), ..SessionsFilter::default() },
        1000,
    );
    let names: Vec<&str> = page.iter().map(|s| s.room_name.as_str()).collect();
    assert_eq!(names, vec!["d", "c"]);

    let beyond = store.list_sessions_at(
        &SessionsFilter { offset: Some(10), ..SessionsFilter::default() },
        1000,
    );
    assert!(beyond.is_empty());

    let none = store.list_sessions_at(&SessionsFilter { limit: Some(0), ..SessionsFilter::default() }, 1000);
    assert!(none.is_empty());
}

#[test]
fn at_most_two_hundred_sessions_by_default() {
    let mut store = SessionStore::new();
    for ts in 1..=205i64 {
        store.handle_webhook_event_at(&event("room_started", ts, Some("r"), None), 1);
    }
    let sessions = all_sessions(&store, 1000);
    assert_eq!(sessions.len(), 200);
    assert_eq!(sessions[0].started_at, 205);
    assert_eq!(sessions[199].started_at, 6);
}

#[test]
fn list_sessions_with_the_clock_reports_open_sessions() {
    let mut store = SessionStore::new();
    store.handle_webhook_event_at(&event("room_started", 100, Some("demo"), None), 1);
    let sessions = store.list_sessions(&SessionsFilter::default());
    assert_eq!(sessions.len(), 1);
    assert!(sessions[0].duration_seconds > 0);
}

#[test]
fn webhook_writes_name_the_rows_they_change() {
    let mut store = SessionStore::new();
    let writes = store.handle_webhook_event_at(&event("room_started", 100, Some("demo"), None), 1);
    assert_eq!(writes.len(), 2);
    match &writes[0] {
        RowWrite::RoomHistory(r) => {
            assert_eq!(r.room_name, "demo");
            assert_eq!(r.room_sid, "RM_1");
            assert_eq!(r.created_at, Some(100));
            assert_eq!(r.last_event_at, 100);
            assert_eq!(r.status, "active");
        }
        _ => panic!("expected a room history write"),
    }
    match &writes[1] {
        RowWrite::Session(s) => {
            assert_eq!(s.session_id, "demo-100");
            assert_eq!(s.started_at, 100);
            assert_eq!(s.ended_at, None);
            assert_eq!(s.status, "active");
        }
        _ => panic!("expected a session write"),
    }
}

#[test]
fn replaying_the_writes_rebuilds_the_store() {
    let mut store = SessionStore::new();
    let mut log: Vec<RowWrite> = Vec::new();
    log.extend(store.handle_webhook_event_at(&event("room_started", 100, Some("demo"), None), 1));
    log.extend(store.handle_webhook_event_at(&event("participant_joined", 110, Some("demo"), Some("a")), 1));
    log.extend(store.handle_webhook_event_at(&event("room_finished", 150, Some("demo"), None), 1));
    log.extend(store.save_room_detail_at("demo", "{\"name\":\"demo\"}", 160).unwrap());
    let mut copy = SessionStore::new();
    for w in log {
        copy.replay(w);
    }
    let a = all_sessions(&store, 1000);
    let b = all_sessions(&copy, 1000);
    assert_eq!(a.len(), b.len());
    assert_eq!(a[0].session_id, b[0].session_id);
    assert_eq!(a[0].ended_at, b[0].ended_at);
    assert_eq!(a[0].participants, b[0].participants);
    assert_eq!(copy.get_room_detail("demo"), Some("{\"name\":\"demo\"}".to_string()));
    assert_eq!(copy.list_room_history(None)[0].status, "inactive");
}

#[test]
fn recording_a_webhook_keeps_room_participant_and_egress() {
    let mut store = SessionStore::new();
    let mut e = event("participant_joined", 100, Some("demo"), Some("alice"));
    e.egress_info = Some(livekit_monitor::events::EgressInfoData {
        egress_id: "EG_1".to_string(),
        room_name: "demo".to_string(),
        source_type: 0,
        status: 1,
        started_at: 90,
        ended_at: 0,
        updated_at: 0,
        file_results: Vec::new(),
        stream_urls: Vec::new(),
        segment_playlist_locations: Vec::new(),
        error: String::new(),
        details: String::new(),
    });
    let writes = store.record_webhook_at(&e, Some("{\"name\":\"demo\"}"), Some("{\"identity\":\"alice\"}"), 500);
    assert_eq!(writes.len(), 6);
    assert_eq!(store.get_room_detail("demo"), Some("{\"name\":\"demo\"}".to_string()));
    let ps = store.get_room_participants("demo");
    assert_eq!(ps.len(), 1);
    assert_eq!(ps[0].identity, "alice");
    assert_eq!(ps[0].updated_at, 500);
    let jobs = store.list_egress_history(&Default::default());
    assert_eq!(jobs.len(), 1);
    assert_eq!(jobs[0].status, "egressactive");
    assert_eq!(all_sessions(&store, 500)[0].participants, 1);
}

#[test]
fn recording_a_webhook_without_room_name_stores_no_description() {
    let mut store = SessionStore::new();
    let e = event("participant_left", 100, Some(""), Some("alice"));
    store.record_webhook_at(&e, Some("{}"), Some("{}"), 500);
    assert_eq!(store.get_room_detail(""), None);
    assert!(store.get_room_participants("").is_empty());
    let left = event("participant_left", 100, Some("demo"), Some("alice"));
    let writes = store.record_webhook(&left, None, Some("{\"identity\":\"alice\"}"));
    match writes.last() {
        Some(RowWrite::RoomParticipant(p)) => {
            assert_eq!(p.room_name, "demo");
            assert!(!p.is_live);
        }
        _ => panic!("expected a participant write"),
    }
    assert_eq!(store.get_room_detail("demo"), None);
}

#[test]
fn webhook_without_time_uses_the_clock() {
    let mut store = SessionStore::new();
    store.handle_webhook_event(&event("room_started", 0, Some("demo"), None));
    let sessions = store.list_sessions(&SessionsFilter::default());
    assert_eq!(sessions.len(), 1);
    assert!(sessions[0].started_at > 1_600_000_000);
    assert!(sessions[0].session_id.starts_with("demo-"));
}
