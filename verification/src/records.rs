//! The rows the session store keeps, the records its queries return, and
//! their mathematical views.
use vstd::prelude::*;

verus! {

/// Filter for the session history listing.
#[derive(Clone, Default)]
pub struct SessionsFilter {
    pub search: Option<String>,
    pub status: Option<String>,
    pub room_name: Option<String>,
    pub limit: Option<u32>,
    pub offset: Option<u32>,
}

/// Filter for the egress history listing.
#[derive(Clone, Default)]
pub struct EgressFilter {
    pub search: Option<String>,
    pub status: Option<String>,
    pub room_name: Option<String>,
    pub limit: Option<u32>,
    pub offset: Option<u32>,
}

/// A session as the history listing reports it.
pub struct SessionRecord {
    pub session_id: String,
    pub room_name: String,
    pub started_at: i64,
    pub ended_at: Option<i64>,
    pub duration_seconds: i64,
    pub participants: i64,
    pub status: String,
}

/// An egress job as the egress history reports it.
pub struct EgressRecord {
    pub egress_id: String,
    pub room_name: String,
    pub egress_type: String,
    pub status: String,
    pub destination: String,
    pub started_at: Option<i64>,
    pub ended_at: Option<i64>,
    pub updated_at: Option<i64>,
    pub error: String,
    pub details: String,
}

/// What is known of a room over time; also the stored row.
pub struct RoomHistoryRecord {
    pub room_name: String,
    pub room_sid: String,
    pub created_at: Option<i64>,
    pub last_event_at: i64,
    pub status: String,
}

/// A stored participant snapshot of a room.
pub struct ParticipantRecord {
    pub identity: String,
    pub data_json: String,
    pub updated_at: i64,
}

/// A stored session row.
pub struct SessionRow {
    pub session_id: String,
    pub room_name: String,
    pub started_at: i64,
    pub ended_at: Option<i64>,
    pub status: String,
}

/// A participant that joined a session, with the time of the first join.
pub struct SessionParticipantRow {
    pub session_id: String,
    pub participant_identity: String,
    pub first_joined_at: i64,
}

/// A stored egress job row.
pub struct EgressRow {
    pub egress_id: String,
    pub room_name: String,
    pub egress_type: String,
    pub status: String,
    pub destination: String,
    pub started_at: Option<i64>,
    pub ended_at: Option<i64>,
    pub updated_at: Option<i64>,
    pub error: String,
    pub details: String,
    pub last_seen_at: i64,
}

/// The last stored JSON description of a room.
pub struct RoomDetailRow {
    pub room_name: String,
    pub data_json: String,
    pub updated_at: i64,
}

/// The last stored JSON description of a participant of a room.
pub struct RoomParticipantRow {
    pub room_name: String,
    pub identity: String,
    pub data_json: String,
    pub is_live: bool,
    pub updated_at: i64,
}

pub struct SessionRowV {
    pub session_id: Seq<char>,
    pub room_name: Seq<char>,
    pub started_at: i64,
    pub ended_at: Option<i64>,
    pub status: Seq<char>,
}

pub struct SessionParticipantV {
    pub session_id: Seq<char>,
    pub participant_identity: Seq<char>,
    pub first_joined_at: i64,
}

pub struct EgressRowV {
    pub egress_id: Seq<char>,
    pub room_name: Seq<char>,
    pub egress_type: Seq<char>,
    pub status: Seq<char>,
    pub destination: Seq<char>,
    pub started_at: Option<i64>,
    pub ended_at: Option<i64>,
    pub updated_at: Option<i64>,
    pub error: Seq<char>,
    pub details: Seq<char>,
    pub last_seen_at: i64,
}

pub struct RoomHistoryV {
    pub room_name: Seq<char>,
    pub room_sid: Seq<char>,
    pub created_at: Option<i64>,
    pub last_event_at: i64,
    pub status: Seq<char>,
}

pub struct RoomDetailV {
    pub room_name: Seq<char>,
    pub data_json: Seq<char>,
    pub updated_at: i64,
}

pub struct RoomParticipantV {
    pub room_name: Seq<char>,
    pub identity: Seq<char>,
    pub data_json: Seq<char>,
    pub is_live: bool,
    pub updated_at: i64,
}

pub struct SessionRecordV {
    pub session_id: Seq<char>,
    pub room_name: Seq<char>,
    pub started_at: i64,
    pub ended_at: Option<i64>,
    pub duration_seconds: i64,
    pub participants: i64,
    pub status: Seq<char>,
}

pub struct EgressRecordV {
    pub egress_id: Seq<char>,
    pub room_name: Seq<char>,
    pub egress_type: Seq<char>,
    pub status: Seq<char>,
    pub destination: Seq<char>,
    pub started_at: Option<i64>,
    pub ended_at: Option<i64>,
    pub updated_at: Option<i64>,
    pub error: Seq<char>,
    pub details: Seq<char>,
}

pub struct ParticipantRecordV {
    pub identity: Seq<char>,
    pub data_json: Seq<char>,
    pub updated_at: i64,
}

impl View for SessionRow {
    type V = SessionRowV;

    open spec fn view(&self) -> SessionRowV {
        SessionRowV {
            session_id: self.session_id@,
            room_name: self.room_name@,
            started_at: self.started_at,
            ended_at: self.ended_at,
            status: self.status@,
        }
    }
}

impl View for SessionParticipantRow {
    type V = SessionParticipantV;

    open spec fn view(&self) -> SessionParticipantV {
        SessionParticipantV {
            session_id: self.session_id@,
            participant_identity: self.participant_identity@,
            first_joined_at: self.first_joined_at,
        }
    }
}

impl View for EgressRow {
    type V = EgressRowV;

    open spec fn view(&self) -> EgressRowV {
        EgressRowV {
            egress_id: self.egress_id@,
            room_name: self.room_name@,
            egress_type: self.egress_type@,
            status: self.status@,
            destination: self.destination@,
            started_at: self.started_at,
            ended_at: self.ended_at,
            updated_at: self.updated_at,
            error: self.error@,
            details: self.details@,
            last_seen_at: self.last_seen_at,
        }
    }
}

impl View for RoomHistoryRecord {
    type V = RoomHistoryV;

    open spec fn view(&self) -> RoomHistoryV {
        RoomHistoryV {
            room_name: self.room_name@,
            room_sid: self.room_sid@,
            created_at: self.created_at,
            last_event_at: self.last_event_at,
            status: self.status@,
        }
    }
}

impl View for RoomDetailRow {
    type V = RoomDetailV;

    open spec fn view(&self) -> RoomDetailV {
        RoomDetailV {
            room_name: self.room_name@,
            data_json: self.data_json@,
            updated_at: self.updated_at,
        }
    }
}

impl View for RoomParticipantRow {
    type V = RoomParticipantV;

    open spec fn view(&self) -> RoomParticipantV {
        RoomParticipantV {
            room_name: self.room_name@,
            identity: self.identity@,
            data_json: self.data_json@,
            is_live: self.is_live,
            updated_at: self.updated_at,
        }
    }
}

impl View for SessionRecord {
    type V = SessionRecordV;

    open spec fn view(&self) -> SessionRecordV {
        SessionRecordV {
            session_id: self.session_id@,
            room_name: self.room_name@,
            started_at: self.started_at,
            ended_at: self.ended_at,
            duration_seconds: self.duration_seconds,
            participants: self.participants,
            status: self.status@,
        }
    }
}

impl View for EgressRecord {
    type V = EgressRecordV;

    open spec fn view(&self) -> EgressRecordV {
        EgressRecordV {
            egress_id: self.egress_id@,
            room_name: self.room_name@,
            egress_type: self.egress_type@,
            status: self.status@,
            destination: self.destination@,
            started_at: self.started_at,
            ended_at: self.ended_at,
            updated_at: self.updated_at,
            error: self.error@,
            details: self.details@,
        }
    }
}

impl View for ParticipantRecord {
    type V = ParticipantRecordV;

    open spec fn view(&self) -> ParticipantRecordV {
        ParticipantRecordV {
            identity: self.identity@,
            data_json: self.data_json@,
            updated_at: self.updated_at,
        }
    }
}

impl SessionRow {
    /// An independent copy of the row.
    pub fn duplicate(&self) -> (r: SessionRow)
        ensures
            r@ == self@,
    {
        SessionRow {
            session_id: self.session_id.clone(),
            room_name: self.room_name.clone(),
            started_at: self.started_at,
            ended_at: self.ended_at,
            status: self.status.clone(),
        }
    }
}

impl SessionParticipantRow {
    /// An independent copy of the row.
    pub fn duplicate(&self) -> (r: SessionParticipantRow)
        ensures
            r@ == self@,
    {
        SessionParticipantRow {
            session_id: self.session_id.clone(),
            participant_identity: self.participant_identity.clone(),
            first_joined_at: self.first_joined_at,
        }
    }
}

impl EgressRow {
    /// An independent copy of the row.
    pub fn duplicate(&self) -> (r: EgressRow)
        ensures
            r@ == self@,
    {
        EgressRow {
            egress_id: self.egress_id.clone(),
            room_name: self.room_name.clone(),
            egress_type: self.egress_type.clone(),
            status: self.status.clone(),
            destination: self.destination.clone(),
            started_at: self.started_at,
            ended_at: self.ended_at,
            updated_at: self.updated_at,
            error: self.error.clone(),
            details: self.details.clone(),
            last_seen_at: self.last_seen_at,
        }
    }
}

impl RoomHistoryRecord {
    /// An independent copy of the record.
    pub fn duplicate(&self) -> (r: RoomHistoryRecord)
        ensures
            r@ == self@,
    {
        RoomHistoryRecord {
            room_name: self.room_name.clone(),
            room_sid: self.room_sid.clone(),
            created_at: self.created_at,
            last_event_at: self.last_event_at,
            status: self.status.clone(),
        }
    }
}

impl RoomDetailRow {
    /// An independent copy of the row.
    pub fn duplicate(&self) -> (r: RoomDetailRow)
        ensures
            r@ == self@,
    {
        RoomDetailRow {
            room_name: self.room_name.clone(),
            data_json: self.data_json.clone(),
            updated_at: self.updated_at,
        }
    }
}

impl RoomParticipantRow {
    /// An independent copy of the row.
    pub fn duplicate(&self) -> (r: RoomParticipantRow)
        ensures
            r@ == self@,
    {
        RoomParticipantRow {
            room_name: self.room_name.clone(),
            identity: self.identity.clone(),
            data_json: self.data_json.clone(),
            is_live: self.is_live,
            updated_at: self.updated_at,
        }
    }
}

} // verus!
