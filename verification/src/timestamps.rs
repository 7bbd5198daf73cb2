use vstd::prelude::*;

verus! {

/// Timestamps above this value are taken to be in milliseconds (or finer).
pub const MILLIS_THRESHOLD: i64 = 1_000_000_000_000;

/// Timestamps above this value are taken to be in nanoseconds.
pub const NANOS_THRESHOLD: i64 = 1_000_000_000_000_000;

/// Seconds since the epoch for a raw LiveKit timestamp that may be given in
/// seconds, milliseconds or nanoseconds; zero for a missing (non-positive) one.
pub open spec fn spec_normalize_timestamp(raw: int) -> int {
    if raw <= 0 {
        0
    } else if raw > NANOS_THRESHOLD {
        raw / 1_000_000_000
    } else if raw > MILLIS_THRESHOLD {
        raw / 1000
    } else {
        raw
    }
}

/// Brings a raw timestamp to seconds.
pub fn normalize_timestamp(raw: i64) -> (ts: i64)
    ensures
        ts == spec_normalize_timestamp(raw as int),
        ts >= 0,
{
    if raw <= 0 {
        return 0;
    }
    if raw > MILLIS_THRESHOLD {
        if raw > NANOS_THRESHOLD {
            raw / 1_000_000_000
        } else {
            raw / 1000
        }
    } else {
        raw
    }
}

/// The normalized timestamp, when there is one (it is positive).
pub open spec fn spec_to_optional_timestamp(raw: int) -> Option<i64> {
    let ts = spec_normalize_timestamp(raw);
    if ts > 0 {
        Some(ts as i64)
    } else {
        None
    }
}

/// The normalized timestamp, or `None` for a missing one.
pub fn to_optional_timestamp(raw: i64) -> (r: Option<i64>)
    ensures
        r == spec_to_optional_timestamp(raw as int),
{
    let ts = normalize_timestamp(raw);
    if ts > 0 {
        Some(ts)
    } else {
        None
    }
}

/// The time of the machine's clock, from the standard library.
#[verifier::external_type_specification]
#[verifier::external_body]
pub struct ExSystemTime(std::time::SystemTime);

/// `SystemTime::now`: the machine's clock. Nothing is promised of it.
#[verifier::external_body]
fn system_now() -> std::time::SystemTime {
    std::time::SystemTime::now()
}

/// `SystemTime::duration_since(UNIX_EPOCH)` in whole seconds, `None` when
/// the time stands before the epoch. Nothing is promised of the value: the
/// time is opaque here.
#[verifier::external_body]
fn seconds_since_epoch(t: &std::time::SystemTime) -> Option<u64> {
    t.duration_since(std::time::UNIX_EPOCH).ok().map(|d| d.as_secs())
}

/// Seconds since the epoch as the dashboard keeps them, from a clock
/// reading in whole seconds (`None` before the epoch): the reading taken as
/// an `i64`, or 0 when there is none.
pub open spec fn spec_epoch_seconds(reading: Option<u64>) -> i64 {
    match reading {
        Some(secs) => secs as i64,
        None => 0,
    }
}

/// Seconds since the epoch from a clock reading (see `spec_epoch_seconds`).
pub fn epoch_seconds(reading: Option<u64>) -> (r: i64)
    ensures
        r == spec_epoch_seconds(reading),
{
    match reading {
        Some(secs) => secs as i64,
        None => 0,
    }
}

/// The current time in seconds since the Unix epoch, as the machine's clock
/// gives it (0 when the clock stands before the epoch).
pub fn now_epoch_seconds() -> (r: i64)
    ensures
        exists|reading: Option<u64>| r == #[trigger] spec_epoch_seconds(reading),
{
    let reading = seconds_since_epoch(&system_now());
    let r = epoch_seconds(reading);
    assert(r == spec_epoch_seconds(reading));
    r
}

} // verus!
