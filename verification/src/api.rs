//! The HTTP API's own decisions: error replies, query validation, the
//! settings it shows and the overview counts.
use vstd::prelude::*;
use crate::events::{ParticipantData, ParticipantDataV, RoomData, RoomDataV};
use crate::records::{ParticipantRecord, ParticipantRecordV};
use crate::text::str_eq;
use crate::webhook::{participant_key, spec_participant_key};

verus! {

/// An error raised while serving an API request, with its message.
pub struct ApiError(pub String);

/// Why a request was turned away.
pub enum RejectionKind {
    /// An API handler failed with this message.
    Api(String),
    /// No route matched.
    NotFound,
    /// A route matched the path but not the method.
    MethodNotAllowed,
    /// Anything else.
    Other,
}

/// The status code and error message a turned-away request is answered with.
pub open spec fn spec_rejection_reply(kind: RejectionKind) -> (u16, Seq<char>) {
    match kind {
        RejectionKind::Api(m) => (500, m@),
        RejectionKind::NotFound => (404, "Not found"@),
        RejectionKind::MethodNotAllowed => (405, "Method not allowed"@),
        RejectionKind::Other => (500, "Internal server error"@),
    }
}

/// The status code and error message a turned-away request is answered with.
pub fn handle_rejection(kind: &RejectionKind) -> (r: (u16, String))
    ensures
        (r.0, r.1@) == spec_rejection_reply(*kind),
{
    match kind {
        RejectionKind::Api(m) => (500, m.clone()),
        RejectionKind::NotFound => (404, "Not found".to_owned()),
        RejectionKind::MethodNotAllowed => (405, "Method not allowed".to_owned()),
        RejectionKind::Other => (500, "Internal server error".to_owned()),
    }
}

/// A session status filter is valid when absent, `active` or `ended`.
pub open spec fn spec_status_filter_ok(status: Option<Seq<char>>) -> bool {
    match status {
        Some(s) => s == "active"@ || s == "ended"@,
        None => true,
    }
}

/// Checks the status filter of a session listing request.
pub fn validate_status_filter(status: &Option<String>) -> (r: Result<(), ApiError>)
    ensures
        r is Ok <==> spec_status_filter_ok(
            match status {
                Some(s) => Some(s@),
                None => None,
            },
        ),
        r matches Err(e) ==> e.0@ == "status must be one of: active, ended"@,
{
    match status {
        Some(s) => {
            if !str_eq(s.as_str(), "active") && !str_eq(s.as_str(), "ended") {
                return Err(ApiError("status must be one of: active, ended".to_owned()));
            }
            Ok(())
        },
        None => Ok(()),
    }
}

/// The connection settings the settings page shows.
pub struct SettingsInfo {
    pub livekit_url: String,
    pub api_key: String,
}

/// The counts on the overview page.
pub struct OverviewCounts {
    pub total_rooms: usize,
    pub total_participants: usize,
    pub active_egresses: usize,
    pub active_ingresses: usize,
}

/// The participants of the rooms, added up.
pub open spec fn participant_total(rooms: Seq<RoomDataV>) -> nat
    decreases rooms.len(),
{
    if rooms.len() == 0 {
        0
    } else {
        participant_total(rooms.drop_last()) + rooms.last().num_participants as nat
    }
}

pub open spec fn rooms_view(rooms: Seq<RoomData>) -> Seq<RoomDataV> {
    rooms.map_values(|r: RoomData| r@)
}

/// The protocol's ingress status number for an ingress that is buffering.
pub const INGRESS_BUFFERING: i32 = 1;

/// The protocol's ingress status number for an ingress that is publishing.
pub const INGRESS_PUBLISHING: i32 = 2;

/// An ingress is active while it is buffering or publishing.
pub open spec fn ingress_active(status: i32) -> bool {
    status == INGRESS_BUFFERING || status == INGRESS_PUBLISHING
}

/// How many of the ingress statuses are active.
pub open spec fn active_ingress_count(statuses: Seq<i32>) -> nat
    decreases statuses.len(),
{
    if statuses.len() == 0 {
        0
    } else {
        active_ingress_count(statuses.drop_last()) + if ingress_active(statuses.last()) {
            1nat
        } else {
            0nat
        }
    }
}

/// The overview counts for the live rooms, the number of active egress jobs,
/// and the statuses of the ingresses (the protocol's status numbers; an
/// ingress without a state counts as inactive, status 0): only the
/// buffering or publishing ingresses count as active.
pub fn overview_counts(rooms: &Vec<RoomData>, active_egresses: usize, ingress_statuses: &Vec<i32>) -> (r: OverviewCounts)
    requires
        participant_total(rooms_view(rooms@)) <= usize::MAX,
    ensures
        r.total_rooms == rooms.len(),
        r.total_participants == participant_total(rooms_view(rooms@)),
        r.active_egresses == active_egresses,
        r.active_ingresses == active_ingress_count(ingress_statuses@),
{
    let ghost rv = rooms_view(rooms@);
    let mut total: usize = 0;
    let mut i: usize = 0;
    while i < rooms.len()
        invariant
            i <= rooms.len(),
            rv == rooms_view(rooms@),
            participant_total(rv) <= usize::MAX,
            total == participant_total(rv.take(i as int)),
        decreases rooms.len() - i,
    {
        assert(rv.take(i + 1).drop_last() =~= rv.take(i as int));
        proof {
            lemma_participant_total_prefix(rv, i + 1);
        }
        total = total + rooms[i].num_participants as usize;
        i = i + 1;
    }
    assert(rv.take(rooms.len() as int) =~= rv);
    let ghost sv = ingress_statuses@;
    let mut active: usize = 0;
    let mut k: usize = 0;
    while k < ingress_statuses.len()
        invariant
            k <= ingress_statuses.len(),
            sv == ingress_statuses@,
            active == active_ingress_count(sv.take(k as int)),
            active <= k,
        decreases ingress_statuses.len() - k,
    {
        assert(sv.take(k + 1).drop_last() =~= sv.take(k as int));
        let st = ingress_statuses[k];
        if st == INGRESS_BUFFERING || st == INGRESS_PUBLISHING {
            active = active + 1;
        }
        k = k + 1;
    }
    assert(sv.take(ingress_statuses.len() as int) =~= sv);
    OverviewCounts {
        total_rooms: rooms.len(),
        total_participants: total,
        active_egresses,
        active_ingresses: active,
    }
}

/// A prefix of the rooms has no more participants than all of them.
proof fn lemma_participant_total_prefix(rooms: Seq<RoomDataV>, k: int)
    requires
        0 <= k <= rooms.len(),
    ensures
        participant_total(rooms.take(k)) <= participant_total(rooms),
    decreases rooms.len(),
{
    if k < rooms.len() {
        assert(rooms.take(k) =~= rooms.drop_last().take(k));
        lemma_participant_total_prefix(rooms.drop_last(), k);
    } else {
        assert(rooms.take(k) =~= rooms);
    }
}

pub open spec fn live_keys(live: Seq<ParticipantData>) -> Seq<Seq<char>> {
    live.map_values(|p: ParticipantData| spec_participant_key(p@))
}

pub open spec fn not_live(keys: Seq<Seq<char>>) -> spec_fn(ParticipantRecordV) -> bool {
    |r: ParticipantRecordV| !keys.contains(r.identity)
}

pub open spec fn stored_view(stored: Seq<ParticipantRecord>) -> Seq<ParticipantRecordV> {
    stored.map_values(|r: ParticipantRecord| r@)
}

/// The stored descriptions of the participants that are not live any more:
/// those of the stored records whose identity is no live participant's key,
/// in stored order.
pub open spec fn spec_offline_participants(
    live: Seq<ParticipantData>,
    stored: Seq<ParticipantRecord>,
) -> Seq<Seq<char>> {
    stored_view(stored).filter(not_live(live_keys(live))).map_values(|r: ParticipantRecordV| r.data_json)
}

/// The stored descriptions of the participants of a room that are not live
/// any more (see `spec_offline_participants`); with no live participants,
/// every stored one.
pub fn offline_participants(live: &Vec<ParticipantData>, stored: &Vec<ParticipantRecord>) -> (r: Vec<String>)
    ensures
        r@.map_values(|s: String| s@) == spec_offline_participants(live@, stored@),
{
    let mut keys: Vec<String> = Vec::new();
    let mut i: usize = 0;
    while i < live.len()
        invariant
            i <= live.len(),
            keys@.map_values(|s: String| s@) =~= live_keys(live@).take(i as int),
        decreases live.len() - i,
    {
        let k = participant_key(&live[i]);
        let ghost prev = keys@;
        keys.push(k);
        proof {
            assert(keys@.map_values(|s: String| s@) =~= prev.map_values(|s: String| s@).push(k@));
            assert(live_keys(live@).take(i + 1) =~= live_keys(live@).take(i as int).push(
                spec_participant_key(live@[i as int]@),
            ));
        }
        i = i + 1;
    }
    let ghost kv = live_keys(live@);
    assert(keys@.map_values(|s: String| s@) =~= kv);
    let ghost sv = stored_view(stored@);
    let ghost pred = not_live(kv);
    let mut out: Vec<String> = Vec::new();
    let mut j: usize = 0;
    proof {
        reveal(Seq::filter);
        assert(sv.take(0) =~= Seq::<ParticipantRecordV>::empty());
    }
    while j < stored.len()
        invariant
            j <= stored.len(),
            sv == stored_view(stored@),
            pred == not_live(kv),
            keys@.map_values(|s: String| s@) == kv,
            out@.map_values(|s: String| s@) =~= sv.take(j as int).filter(pred).map_values(
                |r: ParticipantRecordV| r.data_json,
            ),
        decreases stored.len() - j,
    {
        let rec = &stored[j];
        assert(sv[j as int] == rec@);
        let mut found = false;
        let mut k: usize = 0;
        while k < keys.len()
            invariant
                k <= keys.len(),
                keys@.map_values(|s: String| s@) == kv,
                found == kv.take(k as int).contains(rec@.identity),
            decreases keys.len() - k,
        {
            let ghost t0 = kv.take(k as int);
            let ghost t1 = kv.take(k + 1);
            assert(t1 =~= t0.push(kv[k as int]));
            assert(kv[k as int] == keys@[k as int]@);
            let same = str_eq(keys[k].as_str(), rec.identity.as_str());
            proof {
                if same {
                    assert(t1[k as int] == rec@.identity);
                } else if !found {
                    assert forall|m: int| 0 <= m < t1.len() implies t1[m] != rec@.identity by {
                        if m < k {
                            assert(t1[m] == t0[m]);
                        }
                    }
                } else {
                    let m = choose|m: int| 0 <= m < t0.len() && t0[m] == rec@.identity;
                    assert(t1[m] == t0[m]);
                }
            }
            if same {
                found = true;
            }
            k = k + 1;
        }
        assert(kv.take(keys.len() as int) =~= kv);
        proof {
            assert(sv.take(j + 1) =~= sv.take(j as int).push(sv[j as int]));
            sv.take(j as int).lemma_filter_push(sv[j as int], pred);
        }
        let ghost prev = out@;
        if !found {
            out.push(rec.data_json.clone());
            assert(out@.map_values(|s: String| s@) =~= prev.map_values(|s: String| s@).push(rec@.data_json));
        }
        j = j + 1;
    }
    assert(sv.take(stored.len() as int) =~= sv);
    out
}

} // verus!

