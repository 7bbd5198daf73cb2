use livekit_monitor::api::{
    handle_rejection, offline_participants, overview_counts, validate_status_filter, ApiError, RejectionKind,
};
use livekit_monitor::config::{Config, DEFAULT_PORT};
use livekit_monitor::events::{ParticipantData, RoomData};
use livekit_monitor::records::ParticipantRecord;

fn config_with_port(port: Option<&str>) -> Config {
    Config::from_values(
        "http://localhost:7880".to_string(),
        "devkey".to_string(),
        "secret".to_string(),
        port.map(|p| p.to_string()),
        None,
        None,
    )
}

#[test]
fn config_takes_values_and_defaults() {
    let c = config_with_port(None);
    assert_eq!(c.livekit_url, "http://localhost:7880");
    assert_eq!(c.api_key, "devkey");
    assert_eq!(c.api_secret, "secret");
    assert_eq!(c.port, 3000);
    assert_eq!(DEFAULT_PORT, 3000);
    assert_eq!(c.sqlite_path, "./data/monitor.db");
    assert_eq!(c.base_path, "");
}

#[test]
fn config_port_parses_or_falls_back() {
    assert_eq!(config_with_port(Some("8080")).port, 8080);
    assert_eq!(config_with_port(Some("+81")).port, 81);
    assert_eq!(config_with_port(Some("65535")).port, 65535);
    assert_eq!(config_with_port(Some("65536")).port, 3000);
    assert_eq!(config_with_port(Some("abc")).port, 3000);
    assert_eq!(config_with_port(Some("")).port, 3000);
    assert_eq!(config_with_port(Some("-1")).port, 3000);
    assert_eq!(config_with_port(Some(" 80")).port, 3000);
}

#[test]
fn config_keeps_given_paths() {
    let c = Config::from_values(
        "u".to_string(),
        "k".to_string(),
        "s".to_string(),
        None,
        Some("/data/monitor.db".to_string()),
        Some("/monitor".to_string()),
    );
    assert_eq!(c.sqlite_path, "/data/monitor.db");
    assert_eq!(c.base_path, "/monitor");
}

#[test]
fn rejections_map_to_status_and_message() {
    assert_eq!(handle_rejection(&RejectionKind::NotFound), (404, "Not found".to_string()));
    assert_eq!(handle_rejection(&RejectionKind::MethodNotAllowed), (405, "Method not allowed".to_string()));
    assert_eq!(handle_rejection(&RejectionKind::Other), (500, "Internal server error".to_string()));
    assert_eq!(
        handle_rejection(&RejectionKind::Api("failed to list rooms: boom".to_string())),
        (500, "failed to list rooms: boom".to_string())
    );
}

#[test]
fn status_filter_accepts_active_and_ended_only() {
    assert!(validate_status_filter(&None).is_ok());
    assert!(validate_status_filter(&Some("active".to_string())).is_ok());
    assert!(validate_status_filter(&Some("ended".to_string())).is_ok());
    match validate_status_filter(&Some("Active".to_string())) {
        Err(ApiError(m)) => assert_eq!(m, "status must be one of: active, ended"),
        Ok(()) => panic!("expected an error"),
    }
    assert!(validate_status_filter(&Some(String::new())).is_err());
}

#[test]
fn overview_adds_up_participants() {
    let rooms = vec![
        RoomData { name: "a".to_string(), sid: "RA".to_string(), creation_time: 0, num_participants: 2 },
        RoomData { name: "b".to_string(), sid: "RB".to_string(), creation_time: 0, num_participants: 3 },
    ];
    let c = overview_counts(&rooms, 4, &vec![0, 1, 2, 3, 4, 2]);
    assert_eq!(c.total_rooms, 2);
    assert_eq!(c.total_participants, 5);
    assert_eq!(c.active_egresses, 4);
    assert_eq!(c.active_ingresses, 3);
    let empty = overview_counts(&Vec::new(), 0, &Vec::new());
    assert_eq!(empty.active_ingresses, 0);
    assert_eq!(empty.total_rooms, 0);
    assert_eq!(empty.total_participants, 0);
}

fn stored(identity: &str, json: &str) -> ParticipantRecord {
    ParticipantRecord { identity: identity.to_string(), data_json: json.to_string(), updated_at: 1 }
}

#[test]
fn offline_participants_are_stored_ones_not_live() {
    let live = vec![
        ParticipantData { identity: "alice".to_string(), sid: "PA".to_string() },
        ParticipantData { identity: String::new(), sid: "PB".to_string() },
    ];
    let records = vec![stored("alice", "{\"a\":1}"), stored("bob", "{\"b\":1}"), stored("PB", "{\"pb\":1}"), stored("carol", "{\"c\":1}")];
    assert_eq!(offline_participants(&live, &records), vec!["{\"b\":1}".to_string(), "{\"c\":1}".to_string()]);
    assert_eq!(offline_participants(&Vec::new(), &records).len(), 4);
    assert!(offline_participants(&live, &Vec::new()).is_empty());
}
