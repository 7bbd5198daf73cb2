use livekit_monitor::like::{like_chars, like_search};
use livekit_monitor::timestamps::{epoch_seconds, normalize_timestamp, now_epoch_seconds, to_optional_timestamp};

#[test]
fn normalize_keeps_seconds() {
    assert_eq!(normalize_timestamp(1_700_000_000), 1_700_000_000);
    assert_eq!(normalize_timestamp(1_000_000_000_000), 1_000_000_000_000);
    assert_eq!(normalize_timestamp(1), 1);
}

#[test]
fn normalize_brings_milliseconds_and_nanoseconds_to_seconds() {
    assert_eq!(normalize_timestamp(1_700_000_000_123), 1_700_000_000);
    assert_eq!(normalize_timestamp(1_000_000_000_001), 1_000_000_000);
    assert_eq!(normalize_timestamp(1_000_000_000_000_000), 1_000_000_000_000);
    assert_eq!(normalize_timestamp(1_700_000_000_123_456_789), 1_700_000_000);
    assert_eq!(normalize_timestamp(i64::MAX), 9_223_372_036);
}

#[test]
fn normalize_gives_zero_for_missing_times() {
    assert_eq!(normalize_timestamp(0), 0);
    assert_eq!(normalize_timestamp(-1), 0);
    assert_eq!(normalize_timestamp(i64::MIN), 0);
}

#[test]
fn normalize_twice_is_normalize_once() {
    for raw in [0, -7, 5, 1_700_000_000, 1_700_000_000_123, 1_700_000_000_123_456_789, i64::MAX] {
        let once = normalize_timestamp(raw);
        assert_eq!(normalize_timestamp(once), once);
    }
}

#[test]
fn optional_timestamp_is_none_when_missing() {
    assert_eq!(to_optional_timestamp(0), None);
    assert_eq!(to_optional_timestamp(-3), None);
    assert_eq!(to_optional_timestamp(1_700_000_000_500), Some(1_700_000_000));
    assert_eq!(to_optional_timestamp(999), Some(999));
}

#[test]
fn now_is_after_the_epoch() {
    assert!(now_epoch_seconds() > 1_600_000_000);
}

#[test]
fn search_finds_terms_anywhere_ignoring_ascii_case() {
    assert!(like_search("demo", "my-demo-room"));
    assert!(like_search("DEMO", "my-demo-room"));
    assert!(like_search("", "anything"));
    assert!(like_search("", ""));
    assert!(!like_search("demo", "dem"));
    assert!(!like_search("é", "É"));
    assert!(like_search("é", "café"));
}

#[test]
fn search_terms_keep_their_wildcards() {
    assert!(like_search("d_mo", "my-demo"));
    assert!(like_search("a%c", "xxabbbcxx"));
    assert!(!like_search("a_c", "ac"));
    assert!(like_search("50%", "x50y"));
    assert!(!like_search("50%", "5"));
}

#[test]
fn like_matches_whole_text() {
    let chars = |s: &str| s.chars().collect::<Vec<char>>();
    assert!(like_chars(&chars("a%"), &chars("abc")));
    assert!(!like_chars(&chars("a"), &chars("abc")));
    assert!(like_chars(&chars("%"), &chars("")));
    assert!(!like_chars(&chars("_"), &chars("")));
    assert!(like_chars(&chars("A_C"), &chars("abc")));
}

#[test]
fn clock_readings_become_seconds() {
    assert_eq!(epoch_seconds(Some(1_700_000_000)), 1_700_000_000);
    assert_eq!(epoch_seconds(None), 0);
    assert_eq!(epoch_seconds(Some(0)), 0);
}
