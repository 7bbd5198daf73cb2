//! How an egress job reported by LiveKit becomes a stored egress row.
use vstd::prelude::*;
use crate::events::{EgressInfoData, EgressInfoV};
use crate::records::{EgressRow, EgressRowV};
use crate::text::{lowercase, to_lowercase};
use crate::timestamps::{spec_to_optional_timestamp, to_optional_timestamp};

verus! {

/// The `Debug` text of the protocol's egress status for an enumeration
/// number; numbers outside the enumeration read as the default status.
pub open spec fn egress_status_debug(status: i32) -> Seq<char> {
    if status == 1 {
        "EgressActive"@
    } else if status == 2 {
        "EgressEnding"@
    } else if status == 3 {
        "EgressComplete"@
    } else if status == 4 {
        "EgressFailed"@
    } else if status == 5 {
        "EgressAborted"@
    } else if status == 6 {
        "EgressLimitReached"@
    } else {
        "EgressStarting"@
    }
}

/// The `Debug` text of the protocol's egress source type for an enumeration
/// number; numbers outside the enumeration read as the default type.
pub open spec fn egress_source_debug(source_type: i32) -> Seq<char> {
    if source_type == 1 {
        "Sdk"@
    } else {
        "Web"@
    }
}

/// `EgressInfo::status` of livekit-protocol, formatted with `Debug`: the
/// status variant's name, the default variant for unknown numbers.
#[verifier::external_body]
fn egress_status_text(status: i32) -> (r: String)
    ensures
        r@ == egress_status_debug(status),
{
    let info = livekit_protocol::EgressInfo { status, ..Default::default() };
    format!("{:?}", info.status())
}

/// `EgressInfo::source_type` of livekit-protocol, formatted with `Debug`:
/// the source variant's name, the default variant for unknown numbers.
#[verifier::external_body]
fn egress_source_text(source_type: i32) -> (r: String)
    ensures
        r@ == egress_source_debug(source_type),
{
    let info = livekit_protocol::EgressInfo { source_type, ..Default::default() };
    format!("{:?}", info.source_type())
}

/// Where an egress job writes: the first file's location (its file name when
/// the location is empty), else the first non-empty stream URL, else the
/// first segment playlist's location, else `-`.
pub open spec fn spec_destination(info: EgressInfoV) -> Seq<char> {
    let file = if info.file_results.len() > 0 {
        let f = info.file_results[0];
        if f.location.len() > 0 {
            f.location
        } else {
            f.filename
        }
    } else {
        Seq::<char>::empty()
    };
    if info.file_results.len() > 0 && file.len() > 0 {
        file
    } else if info.stream_urls.len() > 0 && info.stream_urls[0].len() > 0 {
        info.stream_urls[0]
    } else if info.segment_playlist_locations.len() > 0 {
        info.segment_playlist_locations[0]
    } else {
        "-"@
    }
}

/// The stored row for a reported egress job, seen at `now`.
pub open spec fn spec_egress_row(info: EgressInfoV, now: i64) -> EgressRowV {
    EgressRowV {
        egress_id: info.egress_id,
        room_name: if info.room_name.len() > 0 {
            info.room_name
        } else {
            "unknown-room"@
        },
        egress_type: lowercase(egress_source_debug(info.source_type)),
        status: lowercase(egress_status_debug(info.status)),
        destination: spec_destination(info),
        started_at: spec_to_optional_timestamp(info.started_at as int),
        ended_at: spec_to_optional_timestamp(info.ended_at as int),
        updated_at: spec_to_optional_timestamp(info.updated_at as int),
        error: info.error,
        details: info.details,
        last_seen_at: now,
    }
}

/// Where an egress job writes (see `spec_destination`).
pub fn destination(info: &EgressInfoData) -> (r: String)
    ensures
        r@ == spec_destination(info@),
{
    if info.file_results.len() > 0 {
        let f = &info.file_results[0];
        let file = if !f.location.as_str().is_empty() {
            f.location.clone()
        } else {
            f.filename.clone()
        };
        if !file.as_str().is_empty() {
            return file;
        }
    }
    if info.stream_urls.len() > 0 && !info.stream_urls[0].as_str().is_empty() {
        return info.stream_urls[0].clone();
    }
    if info.segment_playlist_locations.len() > 0 {
        return info.segment_playlist_locations[0].clone();
    }
    "-".to_owned()
}

/// The stored row for a reported egress job seen at `now`.
pub fn egress_row(info: &EgressInfoData, now: i64) -> (r: EgressRow)
    ensures
        r@ == spec_egress_row(info@, now),
{
    let room_name = if !info.room_name.as_str().is_empty() {
        info.room_name.clone()
    } else {
        "unknown-room".to_owned()
    };
    let type_text = egress_source_text(info.source_type);
    let status_text = egress_status_text(info.status);
    EgressRow {
        egress_id: info.egress_id.clone(),
        room_name,
        egress_type: to_lowercase(type_text.as_str()),
        status: to_lowercase(status_text.as_str()),
        destination: destination(info),
        started_at: to_optional_timestamp(info.started_at),
        ended_at: to_optional_timestamp(info.ended_at),
        updated_at: to_optional_timestamp(info.updated_at),
        error: info.error.clone(),
        details: info.details.clone(),
        last_seen_at: now,
    }
}

} // verus!
