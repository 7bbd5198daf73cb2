use livekit_monitor::events::{RoomData, WebhookEventData};
use livekit_monitor::session_store::{RowWrite, SessionStore, TableName};

fn live_room(name: &str, sid: &str, creation_time: i64) -> RoomData {
    RoomData { name: name.to_string(), sid: sid.to_string(), creation_time, num_participants: 1 }
}

fn room_event(kind: &str, created_at: i64, name: &str, sid: &str) -> WebhookEventData {
    WebhookEventData {
        event: kind.to_string(),
        created_at,
        room: Some(live_room(name, sid, 0)),
        participant: None,
        egress_info: None,
    }
}

#[test]
fn room_history_follows_events() {
    let mut store = SessionStore::new();
    store.handle_webhook_event_at(&room_event("room_started", 100, "demo", "RM_1"), 1);
    store.handle_webhook_event_at(&room_event("track_published", 150, "demo", ""), 1);
    let h = store.list_room_history(None);
    assert_eq!(h.len(), 1);
    assert_eq!(h[0].room_sid, "RM_1");
    assert_eq!(h[0].created_at, Some(100));
    assert_eq!(h[0].last_event_at, 150);
    assert_eq!(h[0].status, "active");

    store.handle_webhook_event_at(&room_event("room_finished", 200, "demo", "RM_1"), 1);
    let h = store.list_room_history(None);
    assert_eq!(h[0].status, "inactive");
    assert_eq!(h[0].last_event_at, 200);
}

#[test]
fn late_event_does_not_move_history_back() {
    let mut store = SessionStore::new();
    store.handle_webhook_event_at(&room_event("room_started", 300, "demo", "RM_1"), 1);
    store.handle_webhook_event_at(&room_event("room_started", 100, "demo", "RM_2"), 1);
    let h = store.list_room_history(None);
    assert_eq!(h[0].last_event_at, 300);
    assert_eq!(h[0].created_at, Some(300));
    assert_eq!(h[0].room_sid, "RM_2");
}

#[test]
fn room_history_is_latest_first_and_limited() {
    let mut store = SessionStore::new();
    store.handle_webhook_event_at(&room_event("room_started", 100, "a", "RA"), 1);
    store.handle_webhook_event_at(&room_event("room_started", 300, "b", "RB"), 1);
    store.handle_webhook_event_at(&room_event("room_started", 200, "c", "RC"), 1);
    let names: Vec<String> = store.list_room_history(None).into_iter().map(|r| r.room_name).collect();
    assert_eq!(names, vec!["b", "c", "a"]);
    let names: Vec<String> = store.list_room_history(Some(2)).into_iter().map(|r| r.room_name).collect();
    assert_eq!(names, vec!["b", "c"]);
    assert!(store.list_room_history(Some(0)).is_empty());
}

#[test]
fn reconcile_marks_live_rooms_active_and_others_inactive() {
    let mut store = SessionStore::new();
    store.handle_webhook_event_at(&room_event("room_started", 100, "gone", "RG"), 1);
    store.handle_webhook_event_at(&room_event("room_started", 120, "kept", "RK"), 1);
    let rooms = vec![live_room("kept", "", 0), live_room("fresh", "RF", 1_700_000_000_000_000_000), live_room("", "RX", 5)];
    store.reconcile_rooms_from_live_at(&rooms, 1_000_000);
    let h = store.list_room_history(None);
    assert_eq!(h.len(), 3);
    let find = |n: &str| h.iter().find(|r| r.room_name == n).unwrap();
    let gone = find("gone");
    assert_eq!(gone.status, "inactive");
    assert_eq!(gone.last_event_at, 1_000_000);
    let kept = find("kept");
    assert_eq!(kept.status, "active");
    assert_eq!(kept.room_sid, "RK");
    assert_eq!(kept.created_at, Some(120));
    assert_eq!(kept.last_event_at, 1_000_000);
    let fresh = find("fresh");
    assert_eq!(fresh.status, "active");
    assert_eq!(fresh.room_sid, "RF");
    assert_eq!(fresh.created_at, Some(1_700_000_000));
    assert_eq!(fresh.last_event_at, 1_700_000_000);
}

#[test]
fn reconcile_with_no_live_rooms_deactivates_every_room() {
    let mut store = SessionStore::new();
    store.handle_webhook_event_at(&room_event("room_started", 100, "a", "RA"), 1);
    store.handle_webhook_event_at(&room_event("room_started", 5000, "b", "RB"), 1);
    store.reconcile_rooms_from_live_at(&Vec::new(), 1000);
    let h = store.list_room_history(None);
    assert!(h.iter().all(|r| r.status == "inactive"));
    let b = h.iter().find(|r| r.room_name == "b").unwrap();
    assert_eq!(b.last_event_at, 5000);
    let a = h.iter().find(|r| r.room_name == "a").unwrap();
    assert_eq!(a.last_event_at, 1000);
}

#[test]
fn reconcile_with_the_clock_keeps_live_rooms_active() {
    let mut store = SessionStore::new();
    store.reconcile_rooms_from_live(&vec![live_room("demo", "RD", 0)]);
    let h = store.list_room_history(None);
    assert_eq!(h[0].status, "active");
    assert_eq!(h[0].created_at, None);
    assert!(h[0].last_event_at > 0);
}

#[test]
fn room_detail_reads_back_what_was_saved() {
    let mut store = SessionStore::new();
    assert_eq!(store.get_room_detail("demo"), None);
    let writes = store.save_room_detail_at("demo", "{\"a\":1}", 10).unwrap();
    assert_eq!(writes.len(), 1);
    match &writes[0] {
        RowWrite::RoomDetail(d) => {
            assert_eq!(d.room_name, "demo");
            assert_eq!(d.data_json, "{\"a\":1}");
            assert_eq!(d.updated_at, 10);
        }
        _ => panic!("expected a room detail write"),
    }
    store.save_room_detail("demo", "{\"a\":2}").unwrap();
    assert_eq!(store.get_room_detail("demo"), Some("{\"a\":2}".to_string()));
    assert_eq!(store.get_room_detail("other"), None);
}

#[test]
fn participants_read_back_latest_first() {
    let mut store = SessionStore::new();
    store.save_participant_at("demo", "alice", "{\"identity\":\"alice\"}", true, 10);
    store.save_participant_at("demo", "bob", "{\"identity\":\"bob\"}", true, 30);
    store.save_participant_at("other", "carol", "{}", true, 50);
    store.save_participant_at("demo", "alice", "{\"identity\":\"alice\",\"v\":2}", false, 40);
    let ps = store.get_room_participants("demo");
    assert_eq!(ps.len(), 2);
    assert_eq!(ps[0].identity, "alice");
    assert_eq!(ps[0].data_json, "{\"identity\":\"alice\",\"v\":2}");
    assert_eq!(ps[0].updated_at, 40);
    assert_eq!(ps[1].identity, "bob");
    assert!(store.get_room_participants("nobody").is_empty());
}

#[test]
fn save_participant_with_the_clock_records_liveness() {
    let mut store = SessionStore::new();
    let writes = store.save_participant("demo", "alice", "{}", false);
    match &writes[0] {
        RowWrite::RoomParticipant(p) => {
            assert_eq!(p.room_name, "demo");
            assert_eq!(p.identity, "alice");
            assert!(!p.is_live);
            assert!(p.updated_at > 0);
        }
        _ => panic!("expected a participant write"),
    }
}

#[test]
fn clearing_rooms_counts_and_empties_their_tables() {
    let mut store = SessionStore::new();
    store.handle_webhook_event_at(&room_event("room_started", 100, "demo", "RD"), 1);
    store.save_room_detail_at("demo", "{}", 10).unwrap();
    store.save_participant_at("demo", "alice", "{}", true, 10);
    store.save_participant_at("demo", "bob", "{}", true, 10);
    let (count, writes) = store.clear_table("rooms").unwrap();
    assert_eq!(count, 4);
    let tables: Vec<TableName> = writes
        .iter()
        .map(|w| match w {
            RowWrite::Clear(t) => *t,
            _ => panic!("expected clears only"),
        })
        .collect();
    assert_eq!(tables, vec![TableName::RoomParticipants, TableName::RoomDetails, TableName::RoomHistory]);
    assert!(store.list_room_history(None).is_empty());
    assert_eq!(store.get_room_detail("demo"), None);
    assert!(store.get_room_participants("demo").is_empty());
    assert_eq!(store.list_sessions_at(&Default::default(), 200).len(), 1);
}

#[test]
fn clearing_sessions_removes_participants_and_sessions() {
    let mut store = SessionStore::new();
    let mut e = room_event("participant_joined", 100, "demo", "RD");
    e.participant = Some(livekit_monitor::events::ParticipantData { identity: "a".to_string(), sid: String::new() });
    store.handle_webhook_event_at(&e, 1);
    let (count, writes) = store.clear_table("sessions").unwrap();
    assert_eq!(count, 2);
    assert_eq!(writes.len(), 2);
    assert!(store.list_sessions_at(&Default::default(), 200).is_empty());
    assert_eq!(store.list_room_history(None).len(), 1);
    let (count, _) = store.clear_table("egress").unwrap();
    assert_eq!(count, 0);
}

#[test]
fn clearing_an_unknown_group_is_refused() {
    let mut store = SessionStore::new();
    store.handle_webhook_event_at(&room_event("room_started", 100, "demo", "RD"), 1);
    match store.clear_table("users") {
        Err(e) => assert_eq!(e, "unknown table group: users"),
        Ok(_) => panic!("expected an error"),
    }
    assert_eq!(store.list_room_history(None).len(), 1);
}

#[test]
fn reconciling_twice_changes_only_event_times() {
    let mut store = SessionStore::new();
    store.handle_webhook_event_at(&room_event("room_started", 100, "gone", "RG"), 1);
    store.handle_webhook_event_at(&room_event("room_started", 120, "kept", ""), 1);
    let rooms = vec![live_room("kept", "RK1", 0), live_room("kept", "", 50), live_room("new", "", 0)];
    store.reconcile_rooms_from_live_at(&rooms, 1000);
    let first = store.list_room_history(None);
    store.reconcile_rooms_from_live_at(&rooms, 2000);
    let second = store.list_room_history(None);
    assert_eq!(first.len(), second.len());
    for a in &first {
        let b = second.iter().find(|r| r.room_name == a.room_name).unwrap();
        assert_eq!(a.status, b.status);
        assert_eq!(a.room_sid, b.room_sid);
        assert_eq!(a.created_at, b.created_at);
    }
    let kept = second.iter().find(|r| r.room_name == "kept").unwrap();
    assert_eq!(kept.room_sid, "RK1");
    assert_eq!(kept.created_at, Some(120));
    assert_eq!(kept.last_event_at, 2000);
    let new = second.iter().find(|r| r.room_name == "new").unwrap();
    assert_eq!(new.room_sid, "-");
    assert_eq!(new.created_at, None);
    assert_eq!(second.iter().find(|r| r.room_name == "gone").unwrap().status, "inactive");
}

#[test]
fn known_sid_is_never_forgotten() {
    let mut store = SessionStore::new();
    store.handle_webhook_event_at(&room_event("room_started", 100, "demo", "RM_1"), 1);
    store.handle_webhook_event_at(&room_event("participant_joined", 110, "demo", ""), 1);
    store.reconcile_rooms_from_live_at(&vec![live_room("demo", "", 0)], 200);
    assert_eq!(store.list_room_history(None)[0].room_sid, "RM_1");
    store.handle_webhook_event_at(&room_event("room_finished", 300, "demo", "RM_2"), 1);
    assert_eq!(store.list_room_history(None)[0].room_sid, "RM_2");
}
