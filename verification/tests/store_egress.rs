use livekit_monitor::egress::{destination, egress_row};
use livekit_monitor::events::{EgressInfoData, FileResult};
use livekit_monitor::records::EgressFilter;
use livekit_monitor::session_store::{RowWrite, SessionStore};

fn info(id: &str, room: &str, status: i32, started_at: i64) -> EgressInfoData {
    EgressInfoData {
        egress_id: id.to_string(),
        room_name: room.to_string(),
        source_type: 0,
        status,
        started_at,
        ended_at: 0,
        updated_at: 0,
        file_results: Vec::new(),
        stream_urls: Vec::new(),
        segment_playlist_locations: Vec::new(),
        error: String::new(),
        details: String::new(),
    }
}

#[test]
fn egress_row_names_status_and_type_in_lower_case() {
    let mut i = info("EG_1", "demo", 1, 1_700_000_000_000_000_000);
    i.source_type = 1;
    i.error = "boom".to_string();
    let row = egress_row(&i, 77);
    assert_eq!(row.egress_id, "EG_1");
    assert_eq!(row.room_name, "demo");
    assert_eq!(row.status, "egressactive");
    assert_eq!(row.egress_type, "sdk");
    assert_eq!(row.started_at, Some(1_700_000_000));
    assert_eq!(row.ended_at, None);
    assert_eq!(row.destination, "-");
    assert_eq!(row.error, "boom");
    assert_eq!(row.last_seen_at, 77);
}

#[test]
fn egress_statuses_follow_the_protocol() {
    let expected = [
        (0, "egressstarting"),
        (2, "egressending"),
        (3, "egresscomplete"),
        (4, "egressfailed"),
        (5, "egressaborted"),
        (6, "egresslimitreached"),
        (99, "egressstarting"),
    ];
    for (status, text) in expected {
        assert_eq!(egress_row(&info("E", "r", status, 0), 0).status, text);
    }
    assert_eq!(egress_row(&info("E", "r", 0, 0), 0).egress_type, "web");
}

#[test]
fn egress_without_room_goes_to_unknown_room() {
    assert_eq!(egress_row(&info("E", "", 0, 0), 0).room_name, "unknown-room");
}

#[test]
fn destination_prefers_file_then_stream_then_segments() {
    let mut i = info("E", "r", 0, 0);
    assert_eq!(destination(&i), "-");
    i.segment_playlist_locations = vec!["s3://bucket/playlist.m3u8".to_string()];
    assert_eq!(destination(&i), "s3://bucket/playlist.m3u8");
    i.stream_urls = vec!["rtmp://live/stream".to_string()];
    assert_eq!(destination(&i), "rtmp://live/stream");
    i.file_results = vec![FileResult { location: String::new(), filename: "out.mp4".to_string() }];
    assert_eq!(destination(&i), "out.mp4");
    i.file_results = vec![FileResult { location: "s3://bucket/out.mp4".to_string(), filename: "out.mp4".to_string() }];
    assert_eq!(destination(&i), "s3://bucket/out.mp4");
    i.file_results = vec![FileResult { location: String::new(), filename: String::new() }];
    i.stream_urls = vec![String::new()];
    assert_eq!(destination(&i), "s3://bucket/playlist.m3u8");
}

#[test]
fn upserting_egress_keeps_known_times_and_skips_jobs_without_id() {
    let mut store = SessionStore::new();
    let mut first = info("EG_1", "demo", 1, 100);
    first.updated_at = 110;
    let writes = store.upsert_egress_infos_at(&vec![first, info("", "demo", 1, 100)], 500);
    assert_eq!(writes.len(), 1);
    match &writes[0] {
        RowWrite::Egress(r) => assert_eq!(r.egress_id, "EG_1"),
        _ => panic!("expected an egress write"),
    }
    let mut second = info("EG_1", "demo", 3, 0);
    second.ended_at = 200;
    store.upsert_egress_infos_at(&vec![second], 600);
    let jobs = store.list_egress_history(&EgressFilter::default());
    assert_eq!(jobs.len(), 1);
    assert_eq!(jobs[0].status, "egresscomplete");
    assert_eq!(jobs[0].started_at, Some(100));
    assert_eq!(jobs[0].ended_at, Some(200));
    assert_eq!(jobs[0].updated_at, Some(110));
}

#[test]
fn egress_history_filters_and_orders() {
    let mut store = SessionStore::new();
    let mut a = info("EG_A", "alpha", 1, 300);
    a.file_results = vec![FileResult { location: "s3://Recordings/a.mp4".to_string(), filename: String::new() }];
    let b = info("EG_B", "beta", 3, 0);
    let c = info("EG_C", "alpha", 3, 100);
    store.upsert_egress_infos_at(&vec![a, b, c], 200);

    let ids = |f: &EgressFilter| -> Vec<String> {
        store.list_egress_history(f).into_iter().map(|r| r.egress_id).collect()
    };
    assert_eq!(ids(&EgressFilter::default()), vec!["EG_A", "EG_B", "EG_C"]);
    assert_eq!(
        ids(&EgressFilter { status: Some("egresscomplete".to_string()), ..EgressFilter::default() }),
        vec!["EG_B", "EG_C"]
    );
    assert_eq!(
        ids(&EgressFilter { room_name: Some("alpha".to_string()), ..EgressFilter::default() }),
        vec!["EG_A", "EG_C"]
    );
    assert_eq!(
        ids(&EgressFilter { search: Some("recordings".to_string()), ..EgressFilter::default() }),
        vec!["EG_A"]
    );
    assert_eq!(
        ids(&EgressFilter { search: Some("eg_".to_string()), limit: Some(1), offset: Some(1), ..EgressFilter::default() }),
        vec!["EG_B"]
    );
}

#[test]
fn upsert_with_the_clock_stamps_the_sighting() {
    let mut store = SessionStore::new();
    let writes = store.upsert_egress_infos(&vec![info("EG_1", "demo", 0, 0)]);
    match &writes[0] {
        RowWrite::Egress(r) => {
            assert!(r.last_seen_at > 0);
            assert_eq!(r.started_at, None);
        }
        _ => panic!("expected an egress write"),
    }
}
