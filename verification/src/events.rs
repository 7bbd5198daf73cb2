//! What the library reads of LiveKit's rooms, participants, egress jobs and
//! webhook events, held as plain values.
use vstd::prelude::*;

verus! {

/// A room as LiveKit describes it.
pub struct RoomData {
    pub name: String,
    pub sid: String,
    pub creation_time: i64,
    pub num_participants: u32,
}

/// A participant as LiveKit describes it.
pub struct ParticipantData {
    pub identity: String,
    pub sid: String,
}

/// One file output of an egress job.
pub struct FileResult {
    pub location: String,
    pub filename: String,
}

/// An egress job as LiveKit describes it; `status` and `source_type` are
/// the protocol's enumeration numbers.
pub struct EgressInfoData {
    pub egress_id: String,
    pub room_name: String,
    pub source_type: i32,
    pub status: i32,
    pub started_at: i64,
    pub ended_at: i64,
    pub updated_at: i64,
    pub file_results: Vec<FileResult>,
    pub stream_urls: Vec<String>,
    pub segment_playlist_locations: Vec<String>,
    pub error: String,
    pub details: String,
}

/// A webhook event sent by LiveKit.
pub struct WebhookEventData {
    pub event: String,
    pub created_at: i64,
    pub room: Option<RoomData>,
    pub participant: Option<ParticipantData>,
    pub egress_info: Option<EgressInfoData>,
}

pub struct RoomDataV {
    pub name: Seq<char>,
    pub sid: Seq<char>,
    pub creation_time: i64,
    pub num_participants: u32,
}

pub struct ParticipantDataV {
    pub identity: Seq<char>,
    pub sid: Seq<char>,
}

pub struct FileResultV {
    pub location: Seq<char>,
    pub filename: Seq<char>,
}

pub struct EgressInfoV {
    pub egress_id: Seq<char>,
    pub room_name: Seq<char>,
    pub source_type: i32,
    pub status: i32,
    pub started_at: i64,
    pub ended_at: i64,
    pub updated_at: i64,
    pub file_results: Seq<FileResultV>,
    pub stream_urls: Seq<Seq<char>>,
    pub segment_playlist_locations: Seq<Seq<char>>,
    pub error: Seq<char>,
    pub details: Seq<char>,
}

pub struct WebhookEventV {
    pub event: Seq<char>,
    pub created_at: i64,
    pub room: Option<RoomDataV>,
    pub participant: Option<ParticipantDataV>,
    pub egress_info: Option<EgressInfoV>,
}

impl View for RoomData {
    type V = RoomDataV;

    open spec fn view(&self) -> RoomDataV {
        RoomDataV {
            name: self.name@,
            sid: self.sid@,
            creation_time: self.creation_time,
            num_participants: self.num_participants,
        }
    }
}

impl View for ParticipantData {
    type V = ParticipantDataV;

    open spec fn view(&self) -> ParticipantDataV {
        ParticipantDataV { identity: self.identity@, sid: self.sid@ }
    }
}

impl View for FileResult {
    type V = FileResultV;

    open spec fn view(&self) -> FileResultV {
        FileResultV { location: self.location@, filename: self.filename@ }
    }
}

pub open spec fn file_results_view(v: Seq<FileResult>) -> Seq<FileResultV> {
    v.map_values(|f: FileResult| f@)
}

pub open spec fn strings_view(v: Seq<String>) -> Seq<Seq<char>> {
    v.map_values(|s: String| s@)
}

impl View for EgressInfoData {
    type V = EgressInfoV;

    open spec fn view(&self) -> EgressInfoV {
        EgressInfoV {
            egress_id: self.egress_id@,
            room_name: self.room_name@,
            source_type: self.source_type,
            status: self.status,
            started_at: self.started_at,
            ended_at: self.ended_at,
            updated_at: self.updated_at,
            file_results: file_results_view(self.file_results@),
            stream_urls: strings_view(self.stream_urls@),
            segment_playlist_locations: strings_view(self.segment_playlist_locations@),
            error: self.error@,
            details: self.details@,
        }
    }
}

pub open spec fn room_opt_view(r: Option<RoomData>) -> Option<RoomDataV> {
    match r {
        Some(x) => Some(x@),
        None => None,
    }
}

pub open spec fn participant_opt_view(p: Option<ParticipantData>) -> Option<ParticipantDataV> {
    match p {
        Some(x) => Some(x@),
        None => None,
    }
}

pub open spec fn egress_opt_view(e: Option<EgressInfoData>) -> Option<EgressInfoV> {
    match e {
        Some(x) => Some(x@),
        None => None,
    }
}

impl View for WebhookEventData {
    type V = WebhookEventV;

    open spec fn view(&self) -> WebhookEventV {
        WebhookEventV {
            event: self.event@,
            created_at: self.created_at,
            room: room_opt_view(self.room),
            participant: participant_opt_view(self.participant),
            egress_info: egress_opt_view(self.egress_info),
        }
    }
}

} // verus!
