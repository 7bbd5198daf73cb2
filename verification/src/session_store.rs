//! The dashboard's store: sessions built from webhook events, egress jobs,
//! room history, and the last known details of rooms and participants.
//!
//! The store keeps its tables in memory. Every change is also handed back
//! as a list of row writes, which the caller applies to its durable copy;
//! applying them to the tables as they were gives the tables as they are.
use vstd::prelude::*;
use crate::ordering::{
    first_index, lemma_first_index, lemma_select_end, lemma_select_start, lemma_select_step, picks,
    select_ordered, sort_positions_desc, sorted_positions,
};
use crate::records::{
    ParticipantRecord, ParticipantRecordV, EgressRow, EgressRowV, RoomDetailRow, RoomDetailV, RoomHistoryRecord, RoomHistoryV,
    RoomParticipantRow, RoomParticipantV, SessionParticipantRow, SessionParticipantV, SessionRow,
    SessionRowV,
};
use crate::table::{
    key_is, lemma_position, lemma_unique_position, lemma_upsert_unique, lookup, position,
    unique_keys, upsert,
};
use crate::text::{seq_contains, seq_starts_with, str_eq};
use crate::json::{merge_room_json, opt_seq, spec_merge_json};
use crate::events::{EgressInfoData, EgressInfoV, RoomData, RoomDataV, WebhookEventData, WebhookEventV};
use crate::egress::{egress_row, spec_egress_row};
use crate::like::{like_match, like_search, search_pattern};
use crate::records::{EgressFilter, EgressRecord, EgressRecordV, SessionRecord, SessionRecordV, SessionsFilter};
use crate::text::{concat3, i64_text, int_text};
use crate::table::insert_or_ignore;
use crate::webhook::{
    event_identity, event_label, event_room_name, event_room_sid, event_timestamp, identity_of,
    label_of, participant_update, room_name_of, room_sid_of, spec_participant_update, timestamp_of,
};
use crate::timestamps::{spec_to_optional_timestamp, to_optional_timestamp};
use crate::ordering::{lemma_sort_desc_len, page, page_bounds};

verus! {

pub open spec fn session_key() -> spec_fn(SessionRowV) -> Seq<char> {
    |r: SessionRowV| r.session_id
}

pub open spec fn session_participant_key() -> spec_fn(SessionParticipantV) -> (Seq<char>, Seq<char>) {
    |r: SessionParticipantV| (r.session_id, r.participant_identity)
}

pub open spec fn egress_key() -> spec_fn(EgressRowV) -> Seq<char> {
    |r: EgressRowV| r.egress_id
}

pub open spec fn history_key() -> spec_fn(RoomHistoryV) -> Seq<char> {
    |r: RoomHistoryV| r.room_name
}

pub open spec fn detail_key() -> spec_fn(RoomDetailV) -> Seq<char> {
    |r: RoomDetailV| r.room_name
}

pub open spec fn room_participant_key() -> spec_fn(RoomParticipantV) -> (Seq<char>, Seq<char>) {
    |r: RoomParticipantV| (r.room_name, r.identity)
}

/// The tables of the store, each a sequence of rows in order of first
/// insertion.
#[verifier::ext_equal]
pub struct StoreView {
    pub sessions: Seq<SessionRowV>,
    pub session_participants: Seq<SessionParticipantV>,
    pub egress_jobs: Seq<EgressRowV>,
    pub room_history: Seq<RoomHistoryV>,
    pub room_details: Seq<RoomDetailV>,
    pub room_participants: Seq<RoomParticipantV>,
}

impl StoreView {
    /// Every table holds at most one row per key.
    pub open spec fn wf(self) -> bool {
        &&& unique_keys(self.sessions, session_key())
        &&& unique_keys(self.session_participants, session_participant_key())
        &&& unique_keys(self.egress_jobs, egress_key())
        &&& unique_keys(self.room_history, history_key())
        &&& unique_keys(self.room_details, detail_key())
        &&& unique_keys(self.room_participants, room_participant_key())
    }

    pub open spec fn empty() -> StoreView {
        StoreView {
            sessions: Seq::empty(),
            session_participants: Seq::empty(),
            egress_jobs: Seq::empty(),
            room_history: Seq::empty(),
            room_details: Seq::empty(),
            room_participants: Seq::empty(),
        }
    }
}

/// A table of the store.
#[derive(Clone, Copy, PartialEq, Eq, Debug)]
pub enum TableName {
    Sessions,
    SessionParticipants,
    EgressJobs,
    RoomHistory,
    RoomDetails,
    RoomParticipants,
}

/// A change to one table: a row written under its key (replacing the row
/// with that key, or added after the others), or every row removed.
pub enum RowWrite {
    Session(SessionRow),
    SessionParticipant(SessionParticipantRow),
    Egress(EgressRow),
    RoomHistory(RoomHistoryRecord),
    RoomDetail(RoomDetailRow),
    RoomParticipant(RoomParticipantRow),
    Clear(TableName),
}

pub enum RowWriteV {
    Session(SessionRowV),
    SessionParticipant(SessionParticipantV),
    Egress(EgressRowV),
    RoomHistory(RoomHistoryV),
    RoomDetail(RoomDetailV),
    RoomParticipant(RoomParticipantV),
    Clear(TableName),
}

impl View for RowWrite {
    type V = RowWriteV;

    open spec fn view(&self) -> RowWriteV {
        match self {
            RowWrite::Session(r) => RowWriteV::Session(r@),
            RowWrite::SessionParticipant(r) => RowWriteV::SessionParticipant(r@),
            RowWrite::Egress(r) => RowWriteV::Egress(r@),
            RowWrite::RoomHistory(r) => RowWriteV::RoomHistory(r@),
            RowWrite::RoomDetail(r) => RowWriteV::RoomDetail(r@),
            RowWrite::RoomParticipant(r) => RowWriteV::RoomParticipant(r@),
            RowWrite::Clear(t) => RowWriteV::Clear(*t),
        }
    }
}

pub open spec fn writes_view(ws: Seq<RowWrite>) -> Seq<RowWriteV> {
    ws.map_values(|w: RowWrite| w@)
}

/// The tables after one write.
pub open spec fn apply_write(v: StoreView, w: RowWriteV) -> StoreView {
    match w {
        RowWriteV::Session(r) => StoreView { sessions: upsert(v.sessions, session_key(), r), ..v },
        RowWriteV::SessionParticipant(r) => StoreView {
            session_participants: upsert(v.session_participants, session_participant_key(), r),
            ..v
        },
        RowWriteV::Egress(r) => StoreView { egress_jobs: upsert(v.egress_jobs, egress_key(), r), ..v },
        RowWriteV::RoomHistory(r) => StoreView {
            room_history: upsert(v.room_history, history_key(), r),
            ..v
        },
        RowWriteV::RoomDetail(r) => StoreView {
            room_details: upsert(v.room_details, detail_key(), r),
            ..v
        },
        RowWriteV::RoomParticipant(r) => StoreView {
            room_participants: upsert(v.room_participants, room_participant_key(), r),
            ..v
        },
        RowWriteV::Clear(t) => match t {
            TableName::Sessions => StoreView { sessions: Seq::empty(), ..v },
            TableName::SessionParticipants => StoreView { session_participants: Seq::empty(), ..v },
            TableName::EgressJobs => StoreView { egress_jobs: Seq::empty(), ..v },
            TableName::RoomHistory => StoreView { room_history: Seq::empty(), ..v },
            TableName::RoomDetails => StoreView { room_details: Seq::empty(), ..v },
            TableName::RoomParticipants => StoreView { room_participants: Seq::empty(), ..v },
        },
    }
}

/// The tables after a sequence of writes, applied in order.
pub open spec fn apply_writes(v: StoreView, ws: Seq<RowWriteV>) -> StoreView
    decreases ws.len(),
{
    if ws.len() == 0 {
        v
    } else {
        apply_write(apply_writes(v, ws.drop_last()), ws.last())
    }
}

/// Writing one more row after a sequence of writes.
pub proof fn lemma_apply_writes_push(v: StoreView, ws: Seq<RowWriteV>, w: RowWriteV)
    ensures
        apply_writes(v, ws.push(w)) == apply_write(apply_writes(v, ws), w),
{
    assert(ws.push(w).drop_last() =~= ws);
}

/// No writes leave the tables as they are.
pub proof fn lemma_apply_no_writes(v: StoreView)
    ensures
        apply_writes(v, Seq::empty()) == v,
{
}

pub open spec fn sessions_view(s: Seq<SessionRow>) -> Seq<SessionRowV> {
    s.map_values(|r: SessionRow| r@)
}

pub open spec fn session_participants_view(s: Seq<SessionParticipantRow>) -> Seq<SessionParticipantV> {
    s.map_values(|r: SessionParticipantRow| r@)
}

pub open spec fn egress_view(s: Seq<EgressRow>) -> Seq<EgressRowV> {
    s.map_values(|r: EgressRow| r@)
}

pub open spec fn history_view(s: Seq<RoomHistoryRecord>) -> Seq<RoomHistoryV> {
    s.map_values(|r: RoomHistoryRecord| r@)
}

pub open spec fn details_view(s: Seq<RoomDetailRow>) -> Seq<RoomDetailV> {
    s.map_values(|r: RoomDetailRow| r@)
}

pub open spec fn room_participants_view(s: Seq<RoomParticipantRow>) -> Seq<RoomParticipantV> {
    s.map_values(|r: RoomParticipantRow| r@)
}

/// `Some(i)` for a position `i`, `None` for -1.
pub open spec fn opt_index(i: int) -> Option<usize> {
    if i >= 0 {
        Some(i as usize)
    } else {
        None
    }
}

/// The dashboard's store.
pub struct SessionStore {
    sessions: Vec<SessionRow>,
    session_participants: Vec<SessionParticipantRow>,
    egress_jobs: Vec<EgressRow>,
    room_history: Vec<RoomHistoryRecord>,
    room_details: Vec<RoomDetailRow>,
    room_participants: Vec<RoomParticipantRow>,
}

impl View for SessionStore {
    type V = StoreView;

    closed spec fn view(&self) -> StoreView {
        StoreView {
            sessions: sessions_view(self.sessions@),
            session_participants: session_participants_view(self.session_participants@),
            egress_jobs: egress_view(self.egress_jobs@),
            room_history: history_view(self.room_history@),
            room_details: details_view(self.room_details@),
            room_participants: room_participants_view(self.room_participants@),
        }
    }
}

fn find_session(rows: &Vec<SessionRow>, id: &str) -> (r: Option<usize>)
    ensures
        r == opt_index(position(sessions_view(rows@), session_key(), id@)),
{
    let ghost s = sessions_view(rows@);
    let ghost p = key_is(session_key(), id@);
    let mut i: usize = 0;
    while i < rows.len()
        invariant
            i <= rows.len(),
            s == sessions_view(rows@),
            p == key_is(session_key(), id@),
            forall|m: int| 0 <= m < i ==> !p(#[trigger] s[m]),
        decreases rows.len() - i,
    {
        if str_eq(rows[i].session_id.as_str(), id) {
            proof {
                lemma_first_index(s, p, i as int);
            }
            return Some(i);
        }
        i = i + 1;
    }
    proof {
        lemma_first_index(s, p, i as int);
    }
    None
}

fn find_session_participant(rows: &Vec<SessionParticipantRow>, id: &str, identity: &str) -> (r: Option<usize>)
    ensures
        r == opt_index(position(session_participants_view(rows@), session_participant_key(), (id@, identity@))),
{
    let ghost s = session_participants_view(rows@);
    let ghost p = key_is(session_participant_key(), (id@, identity@));
    let mut i: usize = 0;
    while i < rows.len()
        invariant
            i <= rows.len(),
            s == session_participants_view(rows@),
            p == key_is(session_participant_key(), (id@, identity@)),
            forall|m: int| 0 <= m < i ==> !p(#[trigger] s[m]),
        decreases rows.len() - i,
    {
        if str_eq(rows[i].session_id.as_str(), id) && str_eq(
            rows[i].participant_identity.as_str(),
            identity,
        ) {
            proof {
                lemma_first_index(s, p, i as int);
            }
            return Some(i);
        }
        i = i + 1;
    }
    proof {
        lemma_first_index(s, p, i as int);
    }
    None
}

fn find_egress(rows: &Vec<EgressRow>, id: &str) -> (r: Option<usize>)
    ensures
        r == opt_index(position(egress_view(rows@), egress_key(), id@)),
{
    let ghost s = egress_view(rows@);
    let ghost p = key_is(egress_key(), id@);
    let mut i: usize = 0;
    while i < rows.len()
        invariant
            i <= rows.len(),
            s == egress_view(rows@),
            p == key_is(egress_key(), id@),
            forall|m: int| 0 <= m < i ==> !p(#[trigger] s[m]),
        decreases rows.len() - i,
    {
        if str_eq(rows[i].egress_id.as_str(), id) {
            proof {
                lemma_first_index(s, p, i as int);
            }
            return Some(i);
        }
        i = i + 1;
    }
    proof {
        lemma_first_index(s, p, i as int);
    }
    None
}

fn find_history(rows: &Vec<RoomHistoryRecord>, name: &str) -> (r: Option<usize>)
    ensures
        r == opt_index(position(history_view(rows@), history_key(), name@)),
{
    let ghost s = history_view(rows@);
    let ghost p = key_is(history_key(), name@);
    let mut i: usize = 0;
    while i < rows.len()
        invariant
            i <= rows.len(),
            s == history_view(rows@),
            p == key_is(history_key(), name@),
            forall|m: int| 0 <= m < i ==> !p(#[trigger] s[m]),
        decreases rows.len() - i,
    {
        if str_eq(rows[i].room_name.as_str(), name) {
            proof {
                lemma_first_index(s, p, i as int);
            }
            return Some(i);
        }
        i = i + 1;
    }
    proof {
        lemma_first_index(s, p, i as int);
    }
    None
}

fn find_detail(rows: &Vec<RoomDetailRow>, name: &str) -> (r: Option<usize>)
    ensures
        r == opt_index(position(details_view(rows@), detail_key(), name@)),
{
    let ghost s = details_view(rows@);
    let ghost p = key_is(detail_key(), name@);
    let mut i: usize = 0;
    while i < rows.len()
        invariant
            i <= rows.len(),
            s == details_view(rows@),
            p == key_is(detail_key(), name@),
            forall|m: int| 0 <= m < i ==> !p(#[trigger] s[m]),
        decreases rows.len() - i,
    {
        if str_eq(rows[i].room_name.as_str(), name) {
            proof {
                lemma_first_index(s, p, i as int);
            }
            return Some(i);
        }
        i = i + 1;
    }
    proof {
        lemma_first_index(s, p, i as int);
    }
    None
}

fn find_room_participant(rows: &Vec<RoomParticipantRow>, room: &str, identity: &str) -> (r: Option<usize>)
    ensures
        r == opt_index(position(room_participants_view(rows@), room_participant_key(), (room@, identity@))),
{
    let ghost s = room_participants_view(rows@);
    let ghost p = key_is(room_participant_key(), (room@, identity@));
    let mut i: usize = 0;
    while i < rows.len()
        invariant
            i <= rows.len(),
            s == room_participants_view(rows@),
            p == key_is(room_participant_key(), (room@, identity@)),
            forall|m: int| 0 <= m < i ==> !p(#[trigger] s[m]),
        decreases rows.len() - i,
    {
        if str_eq(rows[i].room_name.as_str(), room) && str_eq(rows[i].identity.as_str(), identity) {
            proof {
                lemma_first_index(s, p, i as int);
            }
            return Some(i);
        }
        i = i + 1;
    }
    proof {
        lemma_first_index(s, p, i as int);
    }
    None
}

impl SessionStore {
    /// Every table holds at most one row per key.
    pub open spec fn wf(&self) -> bool {
        self@.wf()
    }

    /// An empty store.
    pub fn new() -> (s: SessionStore)
        ensures
            s.wf(),
            s@ == StoreView::empty(),
    {
        let s = SessionStore {
            sessions: Vec::new(),
            session_participants: Vec::new(),
            egress_jobs: Vec::new(),
            room_history: Vec::new(),
            room_details: Vec::new(),
            room_participants: Vec::new(),
        };
        assert(s@ =~= StoreView::empty());
        s
    }

    /// Applies one write made before, such as a row read back from the
    /// durable copy of the tables.
    pub fn replay(&mut self, w: RowWrite)
        requires
            old(self).wf(),
        ensures
            final(self).wf(),
            final(self)@ == apply_write(old(self)@, w@),
    {
        let mut done: Vec<RowWrite> = Vec::new();
        self.put(w, &mut done);
    }

    /// Writes a row under its key and records the write.
    #[verifier::spinoff_prover]
    fn put(&mut self, w: RowWrite, writes: &mut Vec<RowWrite>)
        requires
            old(self).wf(),
        ensures
            final(self).wf(),
            final(self)@ == apply_write(old(self)@, w@),
            writes_view(final(writes)@) == writes_view(old(writes)@).push(w@),
    {
        let ghost w_view = w@;
        let ghost old_view = self@;
        let copy = match &w {
            RowWrite::Session(r) => RowWrite::Session(r.duplicate()),
            RowWrite::SessionParticipant(r) => RowWrite::SessionParticipant(r.duplicate()),
            RowWrite::Egress(r) => RowWrite::Egress(r.duplicate()),
            RowWrite::RoomHistory(r) => RowWrite::RoomHistory(r.duplicate()),
            RowWrite::RoomDetail(r) => RowWrite::RoomDetail(r.duplicate()),
            RowWrite::RoomParticipant(r) => RowWrite::RoomParticipant(r.duplicate()),
            RowWrite::Clear(t) => RowWrite::Clear(*t),
        };
        match w {
            RowWrite::Session(r) => {
                let ghost rv = r@;
                assert(w_view == RowWriteV::Session(rv));
                proof { lemma_position(old_view.sessions, session_key(), r@.session_id); }
                match find_session(&self.sessions, r.session_id.as_str()) {
                    Some(i) => self.sessions.set(i, r),
                    None => self.sessions.push(r),
                }
                proof {
                    lemma_upsert_unique(old_view.sessions, session_key(), rv);
                    assert(sessions_view(self.sessions@) =~= upsert(
                        old_view.sessions,
                        session_key(),
                        rv,
                    ));
                }
            },
            RowWrite::SessionParticipant(r) => {
                let ghost rv = r@;
                assert(w_view == RowWriteV::SessionParticipant(rv));
                proof { lemma_position(old_view.session_participants, session_participant_key(), (r@.session_id, r@.participant_identity)); }
                match find_session_participant(
                    &self.session_participants,
                    r.session_id.as_str(),
                    r.participant_identity.as_str(),
                ) {
                    Some(i) => self.session_participants.set(i, r),
                    None => self.session_participants.push(r),
                }
                proof {
                    lemma_upsert_unique(
                        old_view.session_participants,
                        session_participant_key(),
                        rv,
                    );
                    assert(session_participants_view(self.session_participants@) =~= upsert(
                        old_view.session_participants,
                        session_participant_key(),
                        rv,
                    ));
                }
            },
            RowWrite::Egress(r) => {
                let ghost rv = r@;
                assert(w_view == RowWriteV::Egress(rv));
                proof { lemma_position(old_view.egress_jobs, egress_key(), r@.egress_id); }
                match find_egress(&self.egress_jobs, r.egress_id.as_str()) {
                    Some(i) => self.egress_jobs.set(i, r),
                    None => self.egress_jobs.push(r),
                }
                proof {
                    lemma_upsert_unique(old_view.egress_jobs, egress_key(), rv);
                    assert(egress_view(self.egress_jobs@) =~= upsert(
                        old_view.egress_jobs,
                        egress_key(),
                        rv,
                    ));
                }
            },
            RowWrite::RoomHistory(r) => {
                let ghost rv = r@;
                assert(w_view == RowWriteV::RoomHistory(rv));
                assert(history_key()(rv) == rv.room_name);
                proof { lemma_position(old_view.room_history, history_key(), r@.room_name); }
                match find_history(&self.room_history, r.room_name.as_str()) {
                    Some(i) => self.room_history.set(i, r),
                    None => self.room_history.push(r),
                }
                proof {
                    lemma_upsert_unique(old_view.room_history, history_key(), rv);
                    assert(history_view(self.room_history@) =~= upsert(
                        old_view.room_history,
                        history_key(),
                        rv,
                    ));
                }
            },
            RowWrite::RoomDetail(r) => {
                let ghost rv = r@;
                assert(w_view == RowWriteV::RoomDetail(rv));
                proof { lemma_position(old_view.room_details, detail_key(), r@.room_name); }
                match find_detail(&self.room_details, r.room_name.as_str()) {
                    Some(i) => self.room_details.set(i, r),
                    None => self.room_details.push(r),
                }
                proof {
                    lemma_upsert_unique(old_view.room_details, detail_key(), rv);
                    assert(details_view(self.room_details@) =~= upsert(
                        old_view.room_details,
                        detail_key(),
                        rv,
                    ));
                }
            },
            RowWrite::RoomParticipant(r) => {
                let ghost rv = r@;
                assert(w_view == RowWriteV::RoomParticipant(rv));
                proof { lemma_position(old_view.room_participants, room_participant_key(), (r@.room_name, r@.identity)); }
                match find_room_participant(
                    &self.room_participants,
                    r.room_name.as_str(),
                    r.identity.as_str(),
                ) {
                    Some(i) => self.room_participants.set(i, r),
                    None => self.room_participants.push(r),
                }
                proof {
                    lemma_upsert_unique(
                        old_view.room_participants,
                        room_participant_key(),
                        rv,
                    );
                    assert(room_participants_view(self.room_participants@) =~= upsert(
                        old_view.room_participants,
                        room_participant_key(),
                        rv,
                    ));
                }
            },
            RowWrite::Clear(t) => {
                match t {
                    TableName::Sessions => self.sessions.clear(),
                    TableName::SessionParticipants => self.session_participants.clear(),
                    TableName::EgressJobs => self.egress_jobs.clear(),
                    TableName::RoomHistory => self.room_history.clear(),
                    TableName::RoomDetails => self.room_details.clear(),
                    TableName::RoomParticipants => self.room_participants.clear(),
                }
                proof {
                    assert(sessions_view(Seq::empty()) =~= Seq::empty());
                    assert(session_participants_view(Seq::empty()) =~= Seq::empty());
                    assert(egress_view(Seq::empty()) =~= Seq::empty());
                    assert(history_view(Seq::empty()) =~= Seq::empty());
                    assert(details_view(Seq::empty()) =~= Seq::empty());
                    assert(room_participants_view(Seq::empty()) =~= Seq::empty());
                }
            },
        }
        writes.push(copy);
        proof {
            assert(writes_view(writes@) =~= writes_view(old(writes)@).push(w_view));
            assert(self@ =~= apply_write(old_view, w_view));
        }
    }
}

/// The stored JSON of a room, if any.
pub open spec fn spec_room_detail(v: StoreView, room: Seq<char>) -> Option<Seq<char>> {
    match lookup(v.room_details, detail_key(), room) {
        Some(r) => Some(r.data_json),
        None => None,
    }
}

pub open spec fn in_room(room: Seq<char>) -> spec_fn(RoomParticipantV) -> bool {
    |r: RoomParticipantV| r.room_name == room
}

pub open spec fn participant_updated() -> spec_fn(RoomParticipantV) -> i64 {
    |r: RoomParticipantV| r.updated_at
}

pub open spec fn participant_record(r: RoomParticipantV) -> ParticipantRecordV {
    ParticipantRecordV { identity: r.identity, data_json: r.data_json, updated_at: r.updated_at }
}

/// The stored participants of a room, most recently updated first.
pub open spec fn spec_room_participants(v: StoreView, room: Seq<char>) -> Seq<ParticipantRecordV> {
    select_ordered(v.room_participants, in_room(room), participant_updated()).map_values(
        |r: RoomParticipantV| participant_record(r),
    )
}

pub open spec fn participant_records_view(s: Seq<ParticipantRecord>) -> Seq<ParticipantRecordV> {
    s.map_values(|r: ParticipantRecord| r@)
}

/// The tables a clearable group covers, in the order they are cleared.
pub open spec fn spec_group_tables(group: Seq<char>) -> Option<Seq<TableName>> {
    if group == "sessions"@ {
        Some(seq![TableName::SessionParticipants, TableName::Sessions])
    } else if group == "rooms"@ {
        Some(seq![TableName::RoomParticipants, TableName::RoomDetails, TableName::RoomHistory])
    } else if group == "egress"@ {
        Some(seq![TableName::EgressJobs])
    } else {
        None
    }
}

/// The number of rows a table holds.
pub open spec fn table_len(v: StoreView, t: TableName) -> nat {
    match t {
        TableName::Sessions => v.sessions.len(),
        TableName::SessionParticipants => v.session_participants.len(),
        TableName::EgressJobs => v.egress_jobs.len(),
        TableName::RoomHistory => v.room_history.len(),
        TableName::RoomDetails => v.room_details.len(),
        TableName::RoomParticipants => v.room_participants.len(),
    }
}

/// The rows that clearing the tables removes, in total.
pub open spec fn rows_in(v: StoreView, ts: Seq<TableName>) -> nat
    decreases ts.len(),
{
    if ts.len() == 0 {
        0
    } else {
        rows_in(v, ts.drop_last()) + table_len(v, ts.last())
    }
}

/// The writes that clear the tables.
pub open spec fn clear_writes(ts: Seq<TableName>) -> Seq<RowWriteV> {
    ts.map_values(|t: TableName| RowWriteV::Clear(t))
}

impl SessionStore {
    /// Stores the JSON description of a room at time `now`, merged into the
    /// stored one (see `spec_merge_json`); refused, with nothing changed,
    /// when the incoming text is not JSON.
    pub fn save_room_detail_at(&mut self, room_name: &str, data_json: &str, now: i64) -> (r: Result<
        Vec<RowWrite>,
        String,
    >)
        requires
            old(self).wf(),
        ensures
            final(self).wf(),
            match spec_merge_json(spec_room_detail(old(self)@, room_name@), data_json@) {
                Some(j) => r matches Ok(writes) && writes_view(writes@) == seq![
                    RowWriteV::RoomDetail(RoomDetailV { room_name: room_name@, data_json: j, updated_at: now }),
                ] && final(self)@ == apply_writes(old(self)@, writes_view(writes@)),
                None => r matches Err(m) && seq_starts_with(m@, "failed to parse incoming room json: "@)
                    && final(self)@ == old(self)@,
            },
    {
        let stored = self.get_room_detail(room_name);
        let merged = match &stored {
            Some(t) => merge_room_json(Some(t.as_str()), data_json),
            None => merge_room_json(None, data_json),
        };
        let merged = match merged {
            Ok(m) => m,
            Err(e) => return Err(e),
        };
        let mut writes: Vec<RowWrite> = Vec::new();
        let row = RoomDetailRow { room_name: room_name.to_owned(), data_json: merged, updated_at: now };
        proof {
            lemma_apply_no_writes(self@);
            assert(writes_view(writes@) =~= Seq::<RowWriteV>::empty());
        }
        let ghost w = RowWriteV::RoomDetail(row@);
        self.put(RowWrite::RoomDetail(row), &mut writes);
        proof {
            lemma_apply_writes_push(old(self)@, Seq::<RowWriteV>::empty(), w);
            assert(writes_view(writes@) =~= Seq::<RowWriteV>::empty().push(w));
        }
        Ok(writes)
    }

    /// Stores the JSON description of a room, merged into the stored one
    /// and stamped with the current time (see `save_room_detail_at`).
    pub fn save_room_detail(&mut self, room_name: &str, data_json: &str) -> (r: Result<Vec<RowWrite>, String>)
        requires
            old(self).wf(),
        ensures
            final(self).wf(),
            match spec_merge_json(spec_room_detail(old(self)@, room_name@), data_json@) {
                Some(j) => r matches Ok(writes) && (exists|now: i64|
                    writes_view(writes@) == #[trigger] seq![
                        RowWriteV::RoomDetail(RoomDetailV { room_name: room_name@, data_json: j, updated_at: now }),
                    ]) && final(self)@ == apply_writes(old(self)@, writes_view(writes@)),
                None => r matches Err(m) && seq_starts_with(m@, "failed to parse incoming room json: "@)
                    && final(self)@ == old(self)@,
            },
    {
        let now = crate::timestamps::now_epoch_seconds();
        self.save_room_detail_at(room_name, data_json, now)
    }

    /// The stored JSON description of a room, if any.
    pub fn get_room_detail(&self, room_name: &str) -> (r: Option<String>)
        ensures
            match r {
                Some(s) => spec_room_detail(self@, room_name@) == Some(s@),
                None => spec_room_detail(self@, room_name@) is None,
            },
    {
        let found = find_detail(&self.room_details, room_name);
        assert(self@.room_details == details_view(self.room_details@));
        assert(self@.room_details.len() == self.room_details.len());
        match found {
            Some(i) => {
                proof {
                    lemma_position(self@.room_details, detail_key(), room_name@);
                    assert(position(self@.room_details, detail_key(), room_name@) == i as int);
                    assert(self@.room_details[i as int] == self.room_details@[i as int]@);
                }
                Some(self.room_details[i].data_json.clone())
            },
            None => None,
        }
    }

    /// Stores the JSON description of a participant of a room, at time `now`.
    pub fn save_participant_at(
        &mut self,
        room_name: &str,
        identity: &str,
        data_json: &str,
        is_live: bool,
        now: i64,
    ) -> (writes: Vec<RowWrite>)
        requires
            old(self).wf(),
        ensures
            final(self).wf(),
            writes_view(writes@) == seq![
                RowWriteV::RoomParticipant(
                    RoomParticipantV {
                        room_name: room_name@,
                        identity: identity@,
                        data_json: data_json@,
                        is_live,
                        updated_at: now,
                    },
                ),
            ],
            final(self)@ == apply_writes(old(self)@, writes_view(writes@)),
    {
        let mut writes: Vec<RowWrite> = Vec::new();
        let row = RoomParticipantRow {
            room_name: room_name.to_owned(),
            identity: identity.to_owned(),
            data_json: data_json.to_owned(),
            is_live,
            updated_at: now,
        };
        proof {
            lemma_apply_no_writes(self@);
            assert(writes_view(writes@) =~= Seq::<RowWriteV>::empty());
        }
        let ghost w = RowWriteV::RoomParticipant(row@);
        self.put(RowWrite::RoomParticipant(row), &mut writes);
        proof {
            lemma_apply_writes_push(old(self)@, Seq::<RowWriteV>::empty(), w);
            assert(writes_view(writes@) =~= Seq::<RowWriteV>::empty().push(w));
        }
        writes
    }

    /// Stores the JSON description of a participant of a room, stamped with
    /// the current time.
    pub fn save_participant(
        &mut self,
        room_name: &str,
        identity: &str,
        data_json: &str,
        is_live: bool,
    ) -> (writes: Vec<RowWrite>)
        requires
            old(self).wf(),
        ensures
            final(self).wf(),
            exists|now: i64|
                writes_view(writes@) == seq![
                    RowWriteV::RoomParticipant(
                        RoomParticipantV {
                            room_name: room_name@,
                            identity: identity@,
                            data_json: data_json@,
                            is_live,
                            updated_at: now,
                        },
                    ),
                ],
            final(self)@ == apply_writes(old(self)@, writes_view(writes@)),
    {
        let now = crate::timestamps::now_epoch_seconds();
        self.save_participant_at(room_name, identity, data_json, is_live, now)
    }

    /// The stored participants of a room, most recently updated first.
    pub fn get_room_participants(&self, room_name: &str) -> (r: Vec<ParticipantRecord>)
        ensures
            participant_records_view(r@) == spec_room_participants(self@, room_name@),
    {
        let ghost tv = self@.room_participants;
        let ghost pred = in_room(room_name@);
        let n = self.room_participants.len();
        let mut sel: Vec<usize> = Vec::new();
        let mut i: usize = 0;
        proof {
            lemma_select_start(tv, pred);
        }
        while i < n
            invariant
                i <= n,
                n == tv.len(),
                tv == room_participants_view(self.room_participants@),
                pred == in_room(room_name@),
                picks(sel@, tv) == tv.take(i as int).filter(pred),
                forall|k: int| 0 <= k < sel.len() ==> sel@[k] < n,
            decreases n - i,
        {
            proof {
                lemma_select_step(sel@, tv, pred, i as int);
            }
            if str_eq(self.room_participants[i].room_name.as_str(), room_name) {
                sel.push(i);
            }
            i = i + 1;
        }
        proof {
            lemma_select_end(sel@, tv, pred);
        }
        let ghost f = tv.filter(pred);
        let mut keys: Vec<i64> = Vec::new();
        let mut k: usize = 0;
        while k < sel.len()
            invariant
                k <= sel.len(),
                n == tv.len(),
                tv == room_participants_view(self.room_participants@),
                picks(sel@, tv) == f,
                forall|j: int| 0 <= j < sel.len() ==> sel@[j] < n,
                keys@ =~= f.map_values(participant_updated()).take(k as int),
            decreases sel.len() - k,
        {
            keys.push(self.room_participants[sel[k]].updated_at);
            k = k + 1;
        }
        assert(keys@ =~= f.map_values(participant_updated()));
        let order = sort_positions_desc(&keys);
        let mut out: Vec<ParticipantRecord> = Vec::new();
        let mut m: usize = 0;
        while m < order.len()
            invariant
                m <= order.len(),
                n == tv.len(),
                tv == room_participants_view(self.room_participants@),
                picks(sel@, tv) == f,
                forall|j: int| 0 <= j < sel.len() ==> sel@[j] < n,
                keys.len() == sel.len(),
                order@ == sorted_positions(keys@),
                keys@ == f.map_values(participant_updated()),
                forall|j: int| 0 <= j < order.len() ==> order@[j] < keys.len(),
                participant_records_view(out@) =~= sorted_positions(keys@).map_values(
                    |p: usize| f[p as int],
                ).take(m as int).map_values(|r: RoomParticipantV| participant_record(r)),
            decreases order.len() - m,
        {
            let row = &self.room_participants[sel[order[m]]];
            proof {
                let sp = sorted_positions(keys@).map_values(|p: usize| f[p as int]);
                assert(f[order@[m as int] as int] == tv[sel@[order@[m as int] as int] as int]);
                assert(sp[m as int] == row@);
                assert(sp.take(m + 1) =~= sp.take(m as int).push(row@));
            }
            let rec = ParticipantRecord {
                identity: row.identity.clone(),
                data_json: row.data_json.clone(),
                updated_at: row.updated_at,
            };
            assert(rec@ == participant_record(row@));
            let ghost prev = out@;
            out.push(rec);
            proof {
                let sp = sorted_positions(keys@).map_values(|p: usize| f[p as int]);
                assert(participant_records_view(out@) =~= participant_records_view(prev).push(rec@));
                assert(sp.take(m + 1).map_values(|r: RoomParticipantV| participant_record(r)) =~= sp.take(
                    m as int,
                ).map_values(|r: RoomParticipantV| participant_record(r)).push(participant_record(row@)));
            }
            m = m + 1;
        }
        proof {
            let sp = sorted_positions(keys@).map_values(|p: usize| f[p as int]);
            assert(sp.take(order.len() as int) =~= sp);
        }
        out
    }

    /// Removes every row of a group of tables (`sessions`, `rooms` or
    /// `egress`) and says how many rows went.
    pub fn clear_table(&mut self, group: &str) -> (r: Result<(u64, Vec<RowWrite>), String>)
        requires
            old(self).wf(),
        ensures
            final(self).wf(),
            match spec_group_tables(group@) {
                Some(ts) => r matches Ok((count, writes)) && {
                    &&& writes_view(writes@) == clear_writes(ts)
                    &&& count == (if rows_in(old(self)@, ts) <= u64::MAX {
                        rows_in(old(self)@, ts)
                    } else {
                        u64::MAX as nat
                    })
                    &&& final(self)@ == apply_writes(old(self)@, writes_view(writes@))
                },
                None => r matches Err(e) && e@ == "unknown table group: "@ + group@
                    && final(self)@ == old(self)@,
            },
    {
        let tables: Vec<TableName> = if str_eq(group, "sessions") {
            vec![TableName::SessionParticipants, TableName::Sessions]
        } else if str_eq(group, "rooms") {
            vec![TableName::RoomParticipants, TableName::RoomDetails, TableName::RoomHistory]
        } else if str_eq(group, "egress") {
            vec![TableName::EgressJobs]
        } else {
            return Err(crate::text::concat("unknown table group: ", group));
        };
        assert(spec_group_tables(group@) == Some(tables@));
        let ghost start = self@;
        let mut writes: Vec<RowWrite> = Vec::new();
        let mut total: u64 = 0;
        let mut i: usize = 0;
        while i < tables.len()
            invariant
                i <= tables.len(),
                self.wf(),
                spec_group_tables(group@) == Some(tables@),
                writes_view(writes@) =~= clear_writes(tables@.take(i as int)),
                self@ == apply_writes(start, writes_view(writes@)),
                total == (if rows_in(start, tables@.take(i as int)) <= u64::MAX {
                    rows_in(start, tables@.take(i as int))
                } else {
                    u64::MAX as nat
                }),
                forall|j: int| i <= j < tables.len() ==> table_len(self@, #[trigger] tables@[j]) == table_len(start, tables@[j]),
                forall|j: int, q: int| 0 <= j < q < tables.len() ==> tables@[j] != tables@[q],
            decreases tables.len() - i,
        {
            let t = tables[i];
            let count = self.table_rows(t);
            assert(table_len(self@, tables@[i as int]) == table_len(start, tables@[i as int]));
            let ghost before = writes_view(writes@);
            self.put(RowWrite::Clear(t), &mut writes);
            proof {
                lemma_apply_writes_push(start, before, RowWriteV::Clear(t));
            }
            assert(tables@.take(i + 1).drop_last() =~= tables@.take(i as int));
            total = total.saturating_add(count as u64);
            i = i + 1;
            assert(clear_writes(tables@.take(i as int)) =~= clear_writes(tables@.take(i - 1)).push(RowWriteV::Clear(t)));
        }
        assert(tables@.take(tables.len() as int) =~= tables@);
        Ok((total, writes))
    }

    fn table_rows(&self, t: TableName) -> (n: usize)
        ensures
            n == table_len(self@, t),
    {
        match t {
            TableName::Sessions => self.sessions.len(),
            TableName::SessionParticipants => self.session_participants.len(),
            TableName::EgressJobs => self.egress_jobs.len(),
            TableName::RoomHistory => self.room_history.len(),
            TableName::RoomDetails => self.room_details.len(),
            TableName::RoomParticipants => self.room_participants.len(),
        }
    }
}

/// The status a room history row takes from an event label; `unknown`
/// leaves a stored status as it is.
pub open spec fn label_status(label: Seq<char>) -> Seq<char> {
    if seq_contains(label, "room_started"@) || seq_contains(label, "participant_joined"@) {
        "active"@
    } else if seq_contains(label, "room_finished"@) {
        "inactive"@
    } else {
        "unknown"@
    }
}

/// The creation time an event gives a room: its timestamp when it starts
/// the room.
pub open spec fn label_created(label: Seq<char>, ts: i64) -> Option<i64> {
    if seq_contains(label, "room_started"@) {
        Some(ts)
    } else {
        None
    }
}

/// A history row merged into the stored one: a real sid replaces the stored
/// one, the first known creation time stays, the latest event time wins,
/// and an `unknown` status keeps the stored status.
pub open spec fn merge_history(existing: Option<RoomHistoryV>, inc: RoomHistoryV) -> RoomHistoryV {
    match existing {
        None => inc,
        Some(e) => RoomHistoryV {
            room_name: inc.room_name,
            room_sid: if inc.room_sid != "-"@ {
                inc.room_sid
            } else {
                e.room_sid
            },
            created_at: if e.created_at is Some {
                e.created_at
            } else {
                inc.created_at
            },
            last_event_at: if inc.last_event_at > e.last_event_at {
                inc.last_event_at
            } else {
                e.last_event_at
            },
            status: if inc.status == "unknown"@ {
                e.status
            } else {
                inc.status
            },
        },
    }
}

/// The history table after merging in a row.
pub open spec fn spec_upsert_history(h: Seq<RoomHistoryV>, inc: RoomHistoryV) -> Seq<RoomHistoryV> {
    upsert(h, history_key(), merge_history(lookup(h, history_key(), inc.room_name), inc))
}

/// The history row that a live room stands for at time `now`.
pub open spec fn live_history_row(room: RoomDataV, now: i64) -> RoomHistoryV {
    let created = spec_to_optional_timestamp(room.creation_time as int);
    let base = match created {
        Some(c) => c,
        None => now,
    };
    RoomHistoryV {
        room_name: room.name,
        room_sid: if room.sid.len() > 0 {
            room.sid
        } else {
            "-"@
        },
        created_at: created,
        last_event_at: if base >= now {
            base
        } else {
            now
        },
        status: "active"@,
    }
}

/// The history table after merging in every live room with a name, in order.
pub open spec fn reconcile_upserts(h: Seq<RoomHistoryV>, rooms: Seq<RoomDataV>, now: i64) -> Seq<RoomHistoryV>
    decreases rooms.len(),
{
    if rooms.len() == 0 {
        h
    } else {
        let h1 = reconcile_upserts(h, rooms.drop_last(), now);
        if rooms.last().name.len() > 0 {
            spec_upsert_history(h1, live_history_row(rooms.last(), now))
        } else {
            h1
        }
    }
}

/// A row that was active but is not among the live rooms becomes inactive,
/// its last event time brought up to `now`.
pub open spec fn deactivated(r: RoomHistoryV, names: Seq<Seq<char>>, now: i64) -> RoomHistoryV {
    if r.status == "active"@ && !names.contains(r.room_name) {
        RoomHistoryV {
            status: "inactive"@,
            last_event_at: if r.last_event_at < now {
                now
            } else {
                r.last_event_at
            },
            ..r
        }
    } else {
        r
    }
}

pub open spec fn room_names(rooms: Seq<RoomDataV>) -> Seq<Seq<char>> {
    rooms.map_values(|r: RoomDataV| r.name)
}

/// The history table after reconciling it with the live rooms at `now`.
pub open spec fn spec_reconcile(h: Seq<RoomHistoryV>, rooms: Seq<RoomDataV>, now: i64) -> Seq<RoomHistoryV> {
    let u = reconcile_upserts(h, rooms, now);
    Seq::new(u.len(), |i: int| deactivated(u[i], room_names(rooms), now))
}

pub open spec fn any_row() -> spec_fn(RoomHistoryV) -> bool {
    |r: RoomHistoryV| true
}

pub open spec fn history_last_event() -> spec_fn(RoomHistoryV) -> i64 {
    |r: RoomHistoryV| r.last_event_at
}

/// The room history, latest event first, at most `limit` rows (500 when no
/// limit is given).
pub open spec fn spec_room_history(v: StoreView, limit: Option<u32>) -> Seq<RoomHistoryV> {
    let n = match limit {
        Some(l) => l as int,
        None => 500,
    };
    page(select_ordered(v.room_history, any_row(), history_last_event()), 0, n)
}

pub open spec fn history_records_view(s: Seq<RoomHistoryRecord>) -> Seq<RoomHistoryV> {
    s.map_values(|r: RoomHistoryRecord| r@)
}

pub open spec fn room_datas_view(s: Seq<RoomData>) -> Seq<RoomDataV> {
    s.map_values(|r: RoomData| r@)
}

impl SessionStore {
    /// Merges a history row into the stored one (see `merge_history`) and
    /// records the write.
    fn merge_room_history(&mut self, inc: RoomHistoryRecord, writes: &mut Vec<RowWrite>)
        requires
            old(self).wf(),
        ensures
            final(self).wf(),
            final(self)@ == (StoreView {
                room_history: spec_upsert_history(old(self)@.room_history, inc@),
                ..old(self)@
            }),
            final(self)@ == apply_write(old(self)@, RowWriteV::RoomHistory(
                merge_history(lookup(old(self)@.room_history, history_key(), inc@.room_name), inc@),
            )),
            writes_view(final(writes)@) == writes_view(old(writes)@).push(
                RowWriteV::RoomHistory(
                    merge_history(lookup(old(self)@.room_history, history_key(), inc@.room_name), inc@),
                ),
            ),
    {
        proof {
            lemma_position(self@.room_history, history_key(), inc@.room_name);
        }
        let found = find_history(&self.room_history, inc.room_name.as_str());
        assert(self@.room_history.len() == self.room_history.len());
        let merged = match found {
            None => inc,
            Some(i) => {
                assert(position(self@.room_history, history_key(), inc@.room_name) == i as int);
                let e = &self.room_history[i];
                assert(self@.room_history[i as int] == e@);
                let room_sid = if !str_eq(inc.room_sid.as_str(), "-") {
                    inc.room_sid
                } else {
                    e.room_sid.clone()
                };
                let created_at = match e.created_at {
                    Some(c) => Some(c),
                    None => inc.created_at,
                };
                let last_event_at = if inc.last_event_at > e.last_event_at {
                    inc.last_event_at
                } else {
                    e.last_event_at
                };
                let status = if str_eq(inc.status.as_str(), "unknown") {
                    e.status.clone()
                } else {
                    inc.status
                };
                RoomHistoryRecord {
                    room_name: inc.room_name,
                    room_sid,
                    created_at,
                    last_event_at,
                    status,
                }
            },
        };
        self.put(RowWrite::RoomHistory(merged), writes);
    }

    /// Reconciles the room history with the rooms LiveKit reports live, at
    /// time `now`: each named live room is merged in as active, and every
    /// other active room becomes inactive.
    pub fn reconcile_rooms_from_live_at(&mut self, rooms: &Vec<RoomData>, now: i64) -> (writes: Vec<RowWrite>)
        requires
            old(self).wf(),
        ensures
            final(self).wf(),
            final(self)@ == (StoreView {
                room_history: spec_reconcile(old(self)@.room_history, room_datas_view(rooms@), now),
                ..old(self)@
            }),
            final(self)@ == apply_writes(old(self)@, writes_view(writes@)),
    {
        let ghost start = self@;
        let ghost rv = room_datas_view(rooms@);
        let mut writes: Vec<RowWrite> = Vec::new();
        proof {
            lemma_apply_no_writes(start);
            assert(writes_view(writes@) =~= Seq::<RowWriteV>::empty());
            assert(rv.take(0) =~= Seq::<RoomDataV>::empty());
        }
        let mut i: usize = 0;
        while i < rooms.len()
            invariant
                i <= rooms.len(),
                rv == room_datas_view(rooms@),
                self.wf(),
                self@ == (StoreView {
                    room_history: reconcile_upserts(start.room_history, rv.take(i as int), now),
                    ..start
                }),
                self@ == apply_writes(start, writes_view(writes@)),
            decreases rooms.len() - i,
        {
            let room = &rooms[i];
            assert(rv.take(i + 1).drop_last() =~= rv.take(i as int));
            assert(rv.take(i + 1).last() == room@);
            if !room.name.as_str().is_empty() {
                let room_sid = if room.sid.as_str().is_empty() {
                    "-".to_owned()
                } else {
                    room.sid.clone()
                };
                let created_at = to_optional_timestamp(room.creation_time);
                let base = match created_at {
                    Some(c) => c,
                    None => now,
                };
                let inc = RoomHistoryRecord {
                    room_name: room.name.clone(),
                    room_sid,
                    created_at,
                    last_event_at: if base >= now { base } else { now },
                    status: "active".to_owned(),
                };
                assert(inc@ == live_history_row(room@, now));
                let ghost before = writes_view(writes@);
                let ghost prev = self@;
                self.merge_room_history(inc, &mut writes);
                proof {
                    lemma_apply_writes_push(start, before, writes_view(writes@).last());
                    assert(writes_view(writes@) =~= before.push(writes_view(writes@).last()));
                }
            }
            i = i + 1;
        }
        assert(rv.take(rooms.len() as int) =~= rv);
        let ghost u = self@.room_history;
        let ghost names = room_names(rv);
        let n = self.room_history.len();
        let mut j: usize = 0;
        while j < n
            invariant
                j <= n,
                n == u.len(),
                rv == room_datas_view(rooms@),
                names == room_names(rv),
                self.wf(),
                self@.room_history =~= Seq::new(
                    u.len(),
                    |q: int| if q < j { deactivated(u[q], names, now) } else { u[q] },
                ),
                self@ == (StoreView { room_history: self@.room_history, ..start }),
                self@ == apply_writes(start, writes_view(writes@)),
            decreases n - j,
        {
            assert(self@.room_history.len() == self.room_history.len());
            assert(self@.room_history[j as int] == self.room_history@[j as int]@);
            let r = &self.room_history[j];
            if str_eq(r.status.as_str(), "active") && !live_name(rooms, r.room_name.as_str()) {
                let updated = RoomHistoryRecord {
                    room_name: r.room_name.clone(),
                    room_sid: r.room_sid.clone(),
                    created_at: r.created_at,
                    last_event_at: if r.last_event_at < now { now } else { r.last_event_at },
                    status: "inactive".to_owned(),
                };
                let ghost cur = self@.room_history;
                assert(updated@ == deactivated(u[j as int], names, now));
                proof {
                    lemma_unique_position(cur, history_key(), j as int);
                }
                let ghost before = writes_view(writes@);
                self.put(RowWrite::RoomHistory(updated), &mut writes);
                proof {
                    lemma_apply_writes_push(start, before, writes_view(writes@).last());
                    assert(writes_view(writes@) =~= before.push(writes_view(writes@).last()));
                }
            }
            j = j + 1;
        }
        writes
    }

    /// Reconciles the room history with the rooms LiveKit reports live, at
    /// the current time.
    pub fn reconcile_rooms_from_live(&mut self, rooms: &Vec<RoomData>) -> (writes: Vec<RowWrite>)
        requires
            old(self).wf(),
        ensures
            final(self).wf(),
            exists|now: i64| final(self)@ == (StoreView {
                room_history: #[trigger] spec_reconcile(old(self)@.room_history, room_datas_view(rooms@), now),
                ..old(self)@
            }),
            final(self)@ == apply_writes(old(self)@, writes_view(writes@)),
    {
        let now = crate::timestamps::now_epoch_seconds();
        self.reconcile_rooms_from_live_at(rooms, now)
    }

    /// The room history, latest event first, at most `limit` rows (500 when
    /// no limit is given).
    pub fn list_room_history(&self, limit: Option<u32>) -> (r: Vec<RoomHistoryRecord>)
        ensures
            history_records_view(r@) == spec_room_history(self@, limit),
    {
        let ghost tv = self@.room_history;
        let ghost pred = any_row();
        let n = self.room_history.len();
        let mut sel: Vec<usize> = Vec::new();
        let mut i: usize = 0;
        proof {
            lemma_select_start(tv, pred);
        }
        while i < n
            invariant
                i <= n,
                n == tv.len(),
                tv == history_view(self.room_history@),
                pred == any_row(),
                picks(sel@, tv) == tv.take(i as int).filter(pred),
                forall|k: int| 0 <= k < sel.len() ==> sel@[k] < n,
            decreases n - i,
        {
            proof {
                lemma_select_step(sel@, tv, pred, i as int);
            }
            sel.push(i);
            i = i + 1;
        }
        proof {
            lemma_select_end(sel@, tv, pred);
        }
        let ghost f = tv.filter(pred);
        let mut keys: Vec<i64> = Vec::new();
        let mut k: usize = 0;
        while k < sel.len()
            invariant
                k <= sel.len(),
                n == tv.len(),
                tv == history_view(self.room_history@),
                picks(sel@, tv) == f,
                forall|j: int| 0 <= j < sel.len() ==> sel@[j] < n,
                keys@ =~= f.map_values(history_last_event()).take(k as int),
            decreases sel.len() - k,
        {
            keys.push(self.room_history[sel[k]].last_event_at);
            k = k + 1;
        }
        assert(keys@ =~= f.map_values(history_last_event()));
        let order = sort_positions_desc(&keys);
        let ghost sp = sorted_positions(keys@).map_values(|p: usize| f[p as int]);
        let limit_n: u64 = match limit {
            Some(l) => l as u64,
            None => 500,
        };
        let (start, end) = page_bounds(order.len(), 0, limit_n);
        let mut out: Vec<RoomHistoryRecord> = Vec::new();
        let mut m: usize = start;
        while m < end
            invariant
                start <= m <= end,
                end <= order.len(),
                n == tv.len(),
                tv == history_view(self.room_history@),
                picks(sel@, tv) == f,
                forall|j: int| 0 <= j < sel.len() ==> sel@[j] < n,
                keys.len() == sel.len(),
                order@ == sorted_positions(keys@),
                sp == sorted_positions(keys@).map_values(|p: usize| f[p as int]),
                forall|j: int| 0 <= j < order.len() ==> order@[j] < keys.len(),
                history_records_view(out@) =~= sp.subrange(start as int, m as int),
            decreases end - m,
        {
            let row = &self.room_history[sel[order[m]]];
            proof {
                assert(f[order@[m as int] as int] == tv[sel@[order@[m as int] as int] as int]);
                assert(sp[m as int] == row@);
            }
            let rec = row.duplicate();
            let ghost prev = out@;
            out.push(rec);
            proof {
                assert(history_records_view(out@) =~= history_records_view(prev).push(rec@));
                assert(sp.subrange(start as int, m + 1) =~= sp.subrange(start as int, m as int).push(rec@));
            }
            m = m + 1;
        }
        out
    }
}

/// Whether one of the live rooms has the name.
fn live_name(rooms: &Vec<RoomData>, name: &str) -> (r: bool)
    ensures
        r == room_names(room_datas_view(rooms@)).contains(name@),
{
    let ghost names = room_names(room_datas_view(rooms@));
    let mut i: usize = 0;
    while i < rooms.len()
        invariant
            i <= rooms.len(),
            names == room_names(room_datas_view(rooms@)),
            forall|q: int| 0 <= q < i ==> names[q] != name@,
        decreases rooms.len() - i,
    {
        if str_eq(rooms[i].name.as_str(), name) {
            assert(names[i as int] == name@);
            return true;
        }
        i = i + 1;
    }
    false
}

/// The id of the session a room starts at time `ts`.
pub open spec fn session_id_for(room: Seq<char>, ts: i64) -> Seq<char> {
    room + "-"@ + int_text(ts as int)
}

/// The session a room starts at time `ts`.
pub open spec fn new_session(room: Seq<char>, ts: i64) -> SessionRowV {
    SessionRowV {
        session_id: session_id_for(room, ts),
        room_name: room,
        started_at: ts,
        ended_at: None,
        status: "active"@,
    }
}

/// The sessions after a room starts at `ts` (nothing changes when a session
/// with that id exists already).
pub open spec fn spec_create_session(s: Seq<SessionRowV>, room: Seq<char>, ts: i64) -> Seq<SessionRowV> {
    insert_or_ignore(s, session_key(), new_session(room, ts))
}

/// Index of the room's active session that started last (the first of them
/// in table order on a tie), or -1.
pub open spec fn latest_active(s: Seq<SessionRowV>, room: Seq<char>) -> int
    decreases s.len(),
{
    if s.len() == 0 {
        -1
    } else {
        let r = latest_active(s.drop_last(), room);
        let x = s.last();
        if x.room_name == room && x.status == "active"@ && (r < 0 || s[r].started_at < x.started_at) {
            s.len() - 1
        } else {
            r
        }
    }
}

/// The session a participant joining the room at `ts` joins: the latest
/// active one, or one started for the occasion.
pub open spec fn joined_session(s: Seq<SessionRowV>, room: Seq<char>, ts: i64) -> (Seq<SessionRowV>, Seq<char>) {
    let i = latest_active(s, room);
    if i >= 0 {
        (s, s[i].session_id)
    } else {
        (spec_create_session(s, room, ts), session_id_for(room, ts))
    }
}

pub open spec fn new_participant(session_id: Seq<char>, identity: Seq<char>, ts: i64) -> SessionParticipantV {
    SessionParticipantV { session_id, participant_identity: identity, first_joined_at: ts }
}

/// The sessions after the room finishes at `ts`: its latest active session
/// ends then.
pub open spec fn spec_finish_session(s: Seq<SessionRowV>, room: Seq<char>, ts: i64) -> Seq<SessionRowV> {
    let i = latest_active(s, room);
    if i >= 0 {
        s.update(i, SessionRowV { ended_at: Some(ts), status: "ended"@, ..s[i] })
    } else {
        s
    }
}

/// The room history row an event stands for.
pub open spec fn event_history_row(e: WebhookEventV, now: i64) -> RoomHistoryV {
    let label = event_label(e);
    let ts = event_timestamp(e, now);
    RoomHistoryV {
        room_name: event_room_name(e),
        room_sid: event_room_sid(e),
        created_at: label_created(label, ts),
        last_event_at: ts,
        status: label_status(label),
    }
}

/// The store after a webhook event received at `now`: the room's history
/// takes the event; a started room opens a session; a joining participant
/// is added (once) to the room's latest active session, opened if need be;
/// a finished room ends its latest active session.
pub open spec fn spec_webhook_event(v: StoreView, e: WebhookEventV, now: i64) -> StoreView {
    let room = event_room_name(e);
    let ts = event_timestamp(e, now);
    let label = event_label(e);
    let v1 = StoreView {
        room_history: spec_upsert_history(v.room_history, event_history_row(e, now)),
        ..v
    };
    let v2 = if seq_contains(label, "room_started"@) {
        StoreView { sessions: spec_create_session(v1.sessions, room, ts), ..v1 }
    } else {
        v1
    };
    let v3 = if seq_contains(label, "participant_joined"@) {
        let (s, sid) = joined_session(v2.sessions, room, ts);
        StoreView {
            sessions: s,
            session_participants: match event_identity(e) {
                Some(id) => insert_or_ignore(
                    v2.session_participants,
                    session_participant_key(),
                    new_participant(sid, id, ts),
                ),
                None => v2.session_participants,
            },
            ..v2
        }
    } else {
        v2
    };
    if seq_contains(label, "room_finished"@) {
        StoreView { sessions: spec_finish_session(v3.sessions, room, ts), ..v3 }
    } else {
        v3
    }
}

impl SessionStore {
    fn latest_active_session(&self, room: &str) -> (r: Option<usize>)
        ensures
            r == opt_index(latest_active(self@.sessions, room@)),
            -1 <= latest_active(self@.sessions, room@) < self@.sessions.len(),
            r matches Some(i) ==> i < self@.sessions.len(),
    {
        let ghost s = self@.sessions;
        let mut best: Option<usize> = None;
        let mut i: usize = 0;
        assert(s.take(0).len() == 0);
        while i < self.sessions.len()
            invariant
                i <= self.sessions.len(),
                s == sessions_view(self.sessions@),
                best == opt_index(latest_active(s.take(i as int), room@)),
                -1 <= latest_active(s.take(i as int), room@) < i,
            decreases self.sessions.len() - i,
        {
            let ghost t = s.take(i + 1);
            assert(t.drop_last() =~= s.take(i as int));
            assert(t.last() == s[i as int]);
            let row = &self.sessions[i];
            assert(row@ == s[i as int]);
            if str_eq(row.room_name.as_str(), room) && str_eq(row.status.as_str(), "active") {
                let better = match best {
                    None => true,
                    Some(b) => {
                        assert(t[b as int] == s[b as int]);
                        self.sessions[b].started_at < row.started_at
                    },
                };
                if better {
                    best = Some(i);
                }
            } else {
                assert(latest_active(t, room@) == latest_active(s.take(i as int), room@));
            }
            i = i + 1;
        }
        assert(s.take(self.sessions.len() as int) =~= s);
        best
    }

    /// Opens the session a room starts at `ts`, unless one with its id
    /// exists, and gives its id.
    fn create_session(&mut self, room: &str, ts: i64, writes: &mut Vec<RowWrite>, Ghost(base): Ghost<StoreView>) -> (id: String)
        requires
            old(self).wf(),
            old(self)@ == apply_writes(base, writes_view(old(writes)@)),
        ensures
            final(self).wf(),
            id@ == session_id_for(room@, ts),
            final(self)@ == (StoreView {
                sessions: spec_create_session(old(self)@.sessions, room@, ts),
                ..old(self)@
            }),
            final(self)@ == apply_writes(base, writes_view(final(writes)@)),
    {
        let ts_text = i64_text(ts);
        let id = concat3(room, "-", ts_text.as_str());
        proof {
            lemma_position(self@.sessions, session_key(), id@);
        }
        if find_session(&self.sessions, id.as_str()).is_none() {
            let row = SessionRow {
                session_id: id.clone(),
                room_name: room.to_owned(),
                started_at: ts,
                ended_at: None,
                status: "active".to_owned(),
            };
            assert(row@ == new_session(room@, ts));
            let ghost before = writes_view(writes@);
            self.put(RowWrite::Session(row), writes);
            proof {
                lemma_apply_writes_push(base, before, writes_view(writes@).last());
                assert(writes_view(writes@) =~= before.push(writes_view(writes@).last()));
            }
        }
        id
    }

    /// Records a webhook event received at `now` (see `spec_webhook_event`).
    pub fn handle_webhook_event_at(&mut self, event: &WebhookEventData, now: i64) -> (writes: Vec<RowWrite>)
        requires
            old(self).wf(),
        ensures
            final(self).wf(),
            final(self)@ == spec_webhook_event(old(self)@, event@, now),
            final(self)@ == apply_writes(old(self)@, writes_view(writes@)),
    {
        let ghost base = self@;
        let ghost e = event@;
        let mut writes: Vec<RowWrite> = Vec::new();
        proof {
            lemma_apply_no_writes(base);
            assert(writes_view(writes@) =~= Seq::<RowWriteV>::empty());
        }
        let room_name = room_name_of(event);
        let timestamp = timestamp_of(event, now);
        let label = label_of(event);
        let room_sid = room_sid_of(event);
        let identity = identity_of(event);
        let started = crate::text::contains(label.as_str(), "room_started");
        let joined = crate::text::contains(label.as_str(), "participant_joined");
        let finished = crate::text::contains(label.as_str(), "room_finished");
        let status = if started || joined {
            "active".to_owned()
        } else if finished {
            "inactive".to_owned()
        } else {
            "unknown".to_owned()
        };
        let inc = RoomHistoryRecord {
            room_name: room_name.clone(),
            room_sid,
            created_at: if started { Some(timestamp) } else { None },
            last_event_at: timestamp,
            status,
        };
        assert(inc@ == event_history_row(e, now));
        let ghost before = writes_view(writes@);
        self.merge_room_history(inc, &mut writes);
        proof {
            lemma_apply_writes_push(base, before, writes_view(writes@).last());
            assert(writes_view(writes@) =~= before.push(writes_view(writes@).last()));
        }
        let ghost v1 = self@;
        assert(v1 == (StoreView {
            room_history: spec_upsert_history(base.room_history, event_history_row(e, now)),
            ..base
        }));
        if started {
            let _ = self.create_session(room_name.as_str(), timestamp, &mut writes, Ghost(base));
        }
        let ghost v2 = self@;
        assert(v2 == (if seq_contains(event_label(e), "room_started"@) {
            StoreView { sessions: spec_create_session(v1.sessions, event_room_name(e), event_timestamp(e, now)), ..v1 }
        } else {
            v1
        }));
        if joined {
            let found = self.latest_active_session(room_name.as_str());
            let session_id = match found {
                Some(i) => {
                    assert(self@.sessions[i as int] == self.sessions@[i as int]@);
                    assert(self@.sessions.len() == self.sessions.len());
                    assert(latest_active(v2.sessions, room_name@) == i as int);
                    let sid = self.sessions[i].session_id.clone();
                    assert(joined_session(v2.sessions, room_name@, timestamp).1 == sid@);
                    assert(joined_session(v2.sessions, room_name@, timestamp).0 == self@.sessions);
                    sid
                },
                None => {
                    assert(latest_active(v2.sessions, room_name@) == -1);
                    let sid = self.create_session(room_name.as_str(), timestamp, &mut writes, Ghost(base));
                    assert(joined_session(v2.sessions, room_name@, timestamp).1 == sid@);
                    assert(joined_session(v2.sessions, room_name@, timestamp).0 == self@.sessions);
                    sid
                },
            };
            assert(joined_session(v2.sessions, room_name@, timestamp) == (self@.sessions, session_id@));
            let ghost v25 = self@;
            assert(v25.session_participants == v2.session_participants);
            match identity {
                Some(ident) => {
                    proof {
                        lemma_position(
                            self@.session_participants,
                            session_participant_key(),
                            (session_id@, ident@),
                        );
                    }
                    if find_session_participant(
                        &self.session_participants,
                        session_id.as_str(),
                        ident.as_str(),
                    ).is_none() {
                        let row = SessionParticipantRow {
                            session_id,
                            participant_identity: ident,
                            first_joined_at: timestamp,
                        };
                        assert(row@ == new_participant(session_id@, ident@, timestamp));
                        let ghost before = writes_view(writes@);
                        self.put(RowWrite::SessionParticipant(row), &mut writes);
                        proof {
                            lemma_apply_writes_push(base, before, writes_view(writes@).last());
                            assert(writes_view(writes@) =~= before.push(writes_view(writes@).last()));
                        }
                    }
                },
                None => {},
            }
        }
        let ghost v3 = self@;
        assert(v3 == (if seq_contains(event_label(e), "participant_joined"@) {
            let (s, sid) = joined_session(v2.sessions, event_room_name(e), event_timestamp(e, now));
            StoreView {
                sessions: s,
                session_participants: match event_identity(e) {
                    Some(id) => insert_or_ignore(
                        v2.session_participants,
                        session_participant_key(),
                        new_participant(sid, id, event_timestamp(e, now)),
                    ),
                    None => v2.session_participants,
                },
                ..v2
            }
        } else {
            v2
        }));
        if finished {
            let found = self.latest_active_session(room_name.as_str());
            match found {
                Some(i) => {
                    assert(self@.sessions[i as int] == self.sessions@[i as int]@);
                    assert(self@.sessions.len() == self.sessions.len());
                    assert(latest_active(v3.sessions, room_name@) == i as int);
                    let old_row = &self.sessions[i];
                    let row = SessionRow {
                        session_id: old_row.session_id.clone(),
                        room_name: old_row.room_name.clone(),
                        started_at: old_row.started_at,
                        ended_at: Some(timestamp),
                        status: "ended".to_owned(),
                    };
                    proof {
                        lemma_unique_position(self@.sessions, session_key(), i as int);
                        assert(row@ == (SessionRowV { ended_at: Some(timestamp), status: "ended"@, ..v3.sessions[i as int] }));
                    }
                    let ghost before = writes_view(writes@);
                    self.put(RowWrite::Session(row), &mut writes);
                    proof {
                        lemma_apply_writes_push(base, before, writes_view(writes@).last());
                        assert(writes_view(writes@) =~= before.push(writes_view(writes@).last()));
                    }
                },
                None => {
                    assert(latest_active(v3.sessions, room_name@) == -1);
                },
            }
        }
        writes
    }

    /// Records a webhook event received now (see `spec_webhook_event`).
    pub fn handle_webhook_event(&mut self, event: &WebhookEventData) -> (writes: Vec<RowWrite>)
        requires
            old(self).wf(),
        ensures
            final(self).wf(),
            exists|now: i64| final(self)@ == #[trigger] spec_webhook_event(old(self)@, event@, now),
            final(self)@ == apply_writes(old(self)@, writes_view(writes@)),
    {
        let now = crate::timestamps::now_epoch_seconds();
        self.handle_webhook_event_at(event, now)
    }
}

/// An egress row merged into the stored one: the reported times replace the
/// stored ones only when present; everything else is replaced.
pub open spec fn merge_egress(existing: Option<EgressRowV>, inc: EgressRowV) -> EgressRowV {
    match existing {
        None => inc,
        Some(e) => EgressRowV {
            started_at: if inc.started_at is Some {
                inc.started_at
            } else {
                e.started_at
            },
            ended_at: if inc.ended_at is Some {
                inc.ended_at
            } else {
                e.ended_at
            },
            updated_at: if inc.updated_at is Some {
                inc.updated_at
            } else {
                e.updated_at
            },
            ..inc
        },
    }
}

/// The egress table after merging in a row.
pub open spec fn spec_upsert_egress(t: Seq<EgressRowV>, inc: EgressRowV) -> Seq<EgressRowV> {
    upsert(t, egress_key(), merge_egress(lookup(t, egress_key(), inc.egress_id), inc))
}

/// The egress table after merging in, in order, every reported job with an
/// id, seen at `now`.
pub open spec fn spec_upsert_egress_infos(t: Seq<EgressRowV>, infos: Seq<EgressInfoV>, now: i64) -> Seq<EgressRowV>
    decreases infos.len(),
{
    if infos.len() == 0 {
        t
    } else {
        let t1 = spec_upsert_egress_infos(t, infos.drop_last(), now);
        if infos.last().egress_id.len() > 0 {
            spec_upsert_egress(t1, spec_egress_row(infos.last(), now))
        } else {
            t1
        }
    }
}

pub open spec fn egress_infos_view(s: Seq<EgressInfoData>) -> Seq<EgressInfoV> {
    s.map_values(|i: EgressInfoData| i@)
}

pub open spec fn opt_string_view(o: Option<String>) -> Option<Seq<char>> {
    match o {
        Some(s) => Some(s@),
        None => None,
    }
}

/// An equality filter that is absent lets every value through.
pub open spec fn opt_matches(f: Option<Seq<char>>, x: Seq<char>) -> bool {
    match f {
        Some(v) => x == v,
        None => true,
    }
}

/// A search term matches when it occurs (as `LIKE '%term%'`) in one of
/// the texts.
pub open spec fn search_hits(term: Option<Seq<char>>, texts: Seq<Seq<char>>) -> bool {
    match term {
        Some(t) => exists|i: int| 0 <= i < texts.len() && like_match(search_pattern(t), #[trigger] texts[i]),
        None => true,
    }
}

pub open spec fn session_matches(
    status: Option<Seq<char>>,
    room: Option<Seq<char>>,
    search: Option<Seq<char>>,
) -> spec_fn(SessionRowV) -> bool {
    |r: SessionRowV|
        opt_matches(status, r.status) && opt_matches(room, r.room_name) && search_hits(
            search,
            seq![r.session_id, r.room_name],
        )
}

pub open spec fn session_started() -> spec_fn(SessionRowV) -> i64 {
    |r: SessionRowV| r.started_at
}

pub open spec fn of_session(id: Seq<char>) -> spec_fn(SessionParticipantV) -> bool {
    |p: SessionParticipantV| p.session_id == id
}

/// How long a session has lasted by `now` (its end, or `now` while it is
/// open, minus its start), never below 0.
pub open spec fn session_duration(r: SessionRowV, now: i64) -> i64 {
    let end: int = match r.ended_at {
        Some(e) => e as int,
        None => now as int,
    };
    let d = end - r.started_at;
    if d < 0 {
        0
    } else if d > i64::MAX {
        i64::MAX
    } else {
        d as i64
    }
}

pub open spec fn session_record(r: SessionRowV, parts: Seq<SessionParticipantV>, now: i64) -> SessionRecordV {
    SessionRecordV {
        session_id: r.session_id,
        room_name: r.room_name,
        started_at: r.started_at,
        ended_at: r.ended_at,
        duration_seconds: session_duration(r, now),
        participants: parts.filter(of_session(r.session_id)).len() as i64,
        status: r.status,
    }
}

pub open spec fn limit_or(limit: Option<u32>, default: int) -> int {
    match limit {
        Some(l) => l as int,
        None => default,
    }
}

/// The sessions a filter selects at `now`: newest start first, after
/// `offset` rows (0 by default), at most `limit` rows (200 by default).
pub open spec fn spec_list_sessions(v: StoreView, f: SessionsFilter, now: i64) -> Seq<SessionRecordV> {
    page(
        select_ordered(
            v.sessions,
            session_matches(opt_string_view(f.status), opt_string_view(f.room_name), opt_string_view(f.search)),
            session_started(),
        ),
        limit_or(f.offset, 0),
        limit_or(f.limit, 200),
    ).map_values(|r: SessionRowV| session_record(r, v.session_participants, now))
}

pub open spec fn session_records_view(s: Seq<SessionRecord>) -> Seq<SessionRecordV> {
    s.map_values(|r: SessionRecord| r@)
}

pub open spec fn egress_matches(
    status: Option<Seq<char>>,
    room: Option<Seq<char>>,
    search: Option<Seq<char>>,
) -> spec_fn(EgressRowV) -> bool {
    |r: EgressRowV|
        opt_matches(status, r.status) && opt_matches(room, r.room_name) && search_hits(
            search,
            seq![r.egress_id, r.room_name, r.destination],
        )
}

/// An egress job's start time, or when it was last seen when it has none.
pub open spec fn egress_order_key() -> spec_fn(EgressRowV) -> i64 {
    |r: EgressRowV|
        match r.started_at {
            Some(t) => t,
            None => r.last_seen_at,
        }
}

pub open spec fn egress_record(r: EgressRowV) -> EgressRecordV {
    EgressRecordV {
        egress_id: r.egress_id,
        room_name: r.room_name,
        egress_type: r.egress_type,
        status: r.status,
        destination: r.destination,
        started_at: r.started_at,
        ended_at: r.ended_at,
        updated_at: r.updated_at,
        error: r.error,
        details: r.details,
    }
}

/// The egress jobs a filter selects: latest start (or sighting) first, after
/// `offset` rows (0 by default), at most `limit` rows (200 by default).
pub open spec fn spec_list_egress(v: StoreView, f: EgressFilter) -> Seq<EgressRecordV> {
    page(
        select_ordered(
            v.egress_jobs,
            egress_matches(opt_string_view(f.status), opt_string_view(f.room_name), opt_string_view(f.search)),
            egress_order_key(),
        ),
        limit_or(f.offset, 0),
        limit_or(f.limit, 200),
    ).map_values(|r: EgressRowV| egress_record(r))
}

pub open spec fn egress_records_view(s: Seq<EgressRecord>) -> Seq<EgressRecordV> {
    s.map_values(|r: EgressRecord| r@)
}

fn opt_eq(f: &Option<String>, x: &str) -> (r: bool)
    ensures
        r == opt_matches(opt_string_view(*f), x@),
{
    match f {
        Some(v) => str_eq(x, v.as_str()),
        None => true,
    }
}

impl SessionStore {
    /// Merges one reported egress job with an id (see `merge_egress`) and
    /// records the write.
    fn merge_egress_info(
        &mut self,
        info: &EgressInfoData,
        now: i64,
        writes: &mut Vec<RowWrite>,
        Ghost(base): Ghost<StoreView>,
    )
        requires
            old(self).wf(),
            old(self)@ == apply_writes(base, writes_view(old(writes)@)),
        ensures
            final(self).wf(),
            final(self)@ == (StoreView {
                egress_jobs: spec_upsert_egress(old(self)@.egress_jobs, spec_egress_row(info@, now)),
                ..old(self)@
            }),
            final(self)@ == apply_writes(base, writes_view(final(writes)@)),
    {
        let inc = egress_row(info, now);
        proof {
            lemma_position(self@.egress_jobs, egress_key(), inc@.egress_id);
        }
        let found = find_egress(&self.egress_jobs, inc.egress_id.as_str());
        assert(self@.egress_jobs.len() == self.egress_jobs.len());
        let merged = match found {
            None => inc,
            Some(j) => {
                assert(self@.egress_jobs[j as int] == self.egress_jobs@[j as int]@);
                let e = &self.egress_jobs[j];
                let started_at = if inc.started_at.is_some() { inc.started_at } else { e.started_at };
                let ended_at = if inc.ended_at.is_some() { inc.ended_at } else { e.ended_at };
                let updated_at = if inc.updated_at.is_some() { inc.updated_at } else { e.updated_at };
                EgressRow { started_at, ended_at, updated_at, ..inc }
            },
        };
        let ghost before = writes_view(writes@);
        self.put(RowWrite::Egress(merged), writes);
        proof {
            lemma_apply_writes_push(base, before, writes_view(writes@).last());
            assert(writes_view(writes@) =~= before.push(writes_view(writes@).last()));
        }
    }

    /// Merges in the egress jobs LiveKit reports, seen at `now`; jobs
    /// without an id are skipped.
    pub fn upsert_egress_infos_at(&mut self, infos: &Vec<EgressInfoData>, now: i64) -> (writes: Vec<RowWrite>)
        requires
            old(self).wf(),
        ensures
            final(self).wf(),
            final(self)@ == (StoreView {
                egress_jobs: spec_upsert_egress_infos(old(self)@.egress_jobs, egress_infos_view(infos@), now),
                ..old(self)@
            }),
            final(self)@ == apply_writes(old(self)@, writes_view(writes@)),
    {
        let ghost start = self@;
        let ghost iv = egress_infos_view(infos@);
        let mut writes: Vec<RowWrite> = Vec::new();
        proof {
            lemma_apply_no_writes(start);
            assert(writes_view(writes@) =~= Seq::<RowWriteV>::empty());
            assert(iv.take(0) =~= Seq::<EgressInfoV>::empty());
        }
        let mut i: usize = 0;
        while i < infos.len()
            invariant
                i <= infos.len(),
                iv == egress_infos_view(infos@),
                self.wf(),
                self@ == (StoreView {
                    egress_jobs: spec_upsert_egress_infos(start.egress_jobs, iv.take(i as int), now),
                    ..start
                }),
                self@ == apply_writes(start, writes_view(writes@)),
            decreases infos.len() - i,
        {
            let info = &infos[i];
            assert(iv.take(i + 1).drop_last() =~= iv.take(i as int));
            assert(iv.take(i + 1).last() == info@);
            if !info.egress_id.as_str().is_empty() {
                self.merge_egress_info(info, now, &mut writes, Ghost(start));
            }
            i = i + 1;
        }
        assert(iv.take(infos.len() as int) =~= iv);
        writes
    }

    /// Merges in the egress jobs LiveKit reports, seen now.
    pub fn upsert_egress_infos(&mut self, infos: &Vec<EgressInfoData>) -> (writes: Vec<RowWrite>)
        requires
            old(self).wf(),
        ensures
            final(self).wf(),
            exists|now: i64| final(self)@ == (StoreView {
                egress_jobs: #[trigger] spec_upsert_egress_infos(old(self)@.egress_jobs, egress_infos_view(infos@), now),
                ..old(self)@
            }),
            final(self)@ == apply_writes(old(self)@, writes_view(writes@)),
    {
        let now = crate::timestamps::now_epoch_seconds();
        self.upsert_egress_infos_at(infos, now)
    }

    fn participant_count(&self, session_id: &str) -> (n: usize)
        ensures
            n == self@.session_participants.filter(of_session(session_id@)).len(),
    {
        let ghost tv = self@.session_participants;
        let ghost pred = of_session(session_id@);
        let mut n: usize = 0;
        let mut i: usize = 0;
        proof {
            reveal(Seq::filter);
            assert(tv.take(0) =~= Seq::<SessionParticipantV>::empty());
        }
        while i < self.session_participants.len()
            invariant
                i <= self.session_participants.len(),
                tv == session_participants_view(self.session_participants@),
                pred == of_session(session_id@),
                n == tv.take(i as int).filter(pred).len(),
                n <= i,
            decreases self.session_participants.len() - i,
        {
            assert(tv.take(i + 1) =~= tv.take(i as int).push(tv[i as int]));
            proof {
                tv.take(i as int).lemma_filter_push(tv[i as int], pred);
            }
            if str_eq(self.session_participants[i].session_id.as_str(), session_id) {
                n = n + 1;
            }
            i = i + 1;
        }
        assert(tv.take(tv.len() as int) =~= tv);
        n
    }

    /// The sessions a filter selects, with their durations at `now`.
    pub fn list_sessions_at(&self, filter: &SessionsFilter, now: i64) -> (r: Vec<SessionRecord>)
        ensures
            session_records_view(r@) == spec_list_sessions(self@, *filter, now),
    {
        let ghost tv = self@.sessions;
        let ghost pred = session_matches(
            opt_string_view(filter.status),
            opt_string_view(filter.room_name),
            opt_string_view(filter.search),
        );
        let n = self.sessions.len();
        let mut sel: Vec<usize> = Vec::new();
        let mut i: usize = 0;
        proof {
            lemma_select_start(tv, pred);
        }
        while i < n
            invariant
                i <= n,
                n == tv.len(),
                tv == sessions_view(self.sessions@),
                pred == session_matches(
                    opt_string_view(filter.status),
                    opt_string_view(filter.room_name),
                    opt_string_view(filter.search),
                ),
                picks(sel@, tv) == tv.take(i as int).filter(pred),
                forall|k: int| 0 <= k < sel.len() ==> sel@[k] < n,
            decreases n - i,
        {
            proof {
                lemma_select_step(sel@, tv, pred, i as int);
            }
            let row = &self.sessions[i];
            assert(tv[i as int] == row@);
            let hit = match &filter.search {
                Some(t) => {
                    let a = like_search(t.as_str(), row.session_id.as_str());
                    let b = like_search(t.as_str(), row.room_name.as_str());
                    proof {
                        let texts = seq![row@.session_id, row@.room_name];
                        if a {
                            assert(like_match(search_pattern(t@), texts[0]));
                        }
                        if b {
                            assert(like_match(search_pattern(t@), texts[1]));
                        }
                    }
                    a || b
                },
                None => true,
            };
            if opt_eq(&filter.status, row.status.as_str()) && opt_eq(&filter.room_name, row.room_name.as_str()) && hit {
                sel.push(i);
            }
            i = i + 1;
        }
        proof {
            lemma_select_end(sel@, tv, pred);
        }
        let ghost f = tv.filter(pred);
        let mut keys: Vec<i64> = Vec::new();
        let mut k: usize = 0;
        while k < sel.len()
            invariant
                k <= sel.len(),
                n == tv.len(),
                tv == sessions_view(self.sessions@),
                picks(sel@, tv) == f,
                forall|j: int| 0 <= j < sel.len() ==> sel@[j] < n,
                keys@ =~= f.map_values(session_started()).take(k as int),
            decreases sel.len() - k,
        {
            keys.push(self.sessions[sel[k]].started_at);
            k = k + 1;
        }
        assert(keys@ =~= f.map_values(session_started()));
        let order = sort_positions_desc(&keys);
        let ghost sp = sorted_positions(keys@).map_values(|p: usize| f[p as int]);
        let offset: u64 = match filter.offset {
            Some(o) => o as u64,
            None => 0,
        };
        let limit: u64 = match filter.limit {
            Some(l) => l as u64,
            None => 200,
        };
        let (start, end) = page_bounds(order.len(), offset, limit);
        let mut out: Vec<SessionRecord> = Vec::new();
        let mut m: usize = start;
        while m < end
            invariant
                start <= m <= end,
                end <= order.len(),
                n == tv.len(),
                tv == sessions_view(self.sessions@),
                picks(sel@, tv) == f,
                forall|j: int| 0 <= j < sel.len() ==> sel@[j] < n,
                keys.len() == sel.len(),
                order@ == sorted_positions(keys@),
                sp == sorted_positions(keys@).map_values(|p: usize| f[p as int]),
                forall|j: int| 0 <= j < order.len() ==> order@[j] < keys.len(),
                session_records_view(out@) =~= sp.subrange(start as int, m as int).map_values(
                    |r: SessionRowV| session_record(r, self@.session_participants, now),
                ),
            decreases end - m,
        {
            let row = &self.sessions[sel[order[m]]];
            proof {
                assert(f[order@[m as int] as int] == tv[sel@[order@[m as int] as int] as int]);
                assert(sp[m as int] == row@);
            }
            let count = self.participant_count(row.session_id.as_str());
            let end_time: i64 = match row.ended_at {
                Some(e) => e,
                None => now,
            };
            let d: i128 = end_time as i128 - row.started_at as i128;
            let duration: i64 = if d < 0 {
                0
            } else if d > i64::MAX as i128 {
                i64::MAX
            } else {
                d as i64
            };
            let rec = SessionRecord {
                session_id: row.session_id.clone(),
                room_name: row.room_name.clone(),
                started_at: row.started_at,
                ended_at: row.ended_at,
                duration_seconds: duration,
                participants: count as i64,
                status: row.status.clone(),
            };
            assert(rec@ == session_record(row@, self@.session_participants, now));
            let ghost prev = out@;
            out.push(rec);
            proof {
                assert(session_records_view(out@) =~= session_records_view(prev).push(rec@));
                assert(sp.subrange(start as int, m + 1) =~= sp.subrange(start as int, m as int).push(row@));
                assert(sp.subrange(start as int, m + 1).map_values(
                    |r: SessionRowV| session_record(r, self@.session_participants, now),
                ) =~= sp.subrange(start as int, m as int).map_values(
                    |r: SessionRowV| session_record(r, self@.session_participants, now),
                ).push(session_record(row@, self@.session_participants, now)));
            }
            m = m + 1;
        }
        out
    }

    /// The sessions a filter selects, with their durations up to now.
    pub fn list_sessions(&self, filter: &SessionsFilter) -> (r: Vec<SessionRecord>)
        ensures
            exists|now: i64| session_records_view(r@) == #[trigger] spec_list_sessions(self@, *filter, now),
    {
        let now = crate::timestamps::now_epoch_seconds();
        self.list_sessions_at(filter, now)
    }

    /// The egress jobs a filter selects.
    pub fn list_egress_history(&self, filter: &EgressFilter) -> (r: Vec<EgressRecord>)
        ensures
            egress_records_view(r@) == spec_list_egress(self@, *filter),
    {
        let ghost tv = self@.egress_jobs;
        let ghost pred = egress_matches(
            opt_string_view(filter.status),
            opt_string_view(filter.room_name),
            opt_string_view(filter.search),
        );
        let n = self.egress_jobs.len();
        let mut sel: Vec<usize> = Vec::new();
        let mut i: usize = 0;
        proof {
            lemma_select_start(tv, pred);
        }
        while i < n
            invariant
                i <= n,
                n == tv.len(),
                tv == egress_view(self.egress_jobs@),
                pred == egress_matches(
                    opt_string_view(filter.status),
                    opt_string_view(filter.room_name),
                    opt_string_view(filter.search),
                ),
                picks(sel@, tv) == tv.take(i as int).filter(pred),
                forall|k: int| 0 <= k < sel.len() ==> sel@[k] < n,
            decreases n - i,
        {
            proof {
                lemma_select_step(sel@, tv, pred, i as int);
            }
            let row = &self.egress_jobs[i];
            assert(tv[i as int] == row@);
            let hit = match &filter.search {
                Some(t) => {
                    let a = like_search(t.as_str(), row.egress_id.as_str());
                    let b = like_search(t.as_str(), row.room_name.as_str());
                    let c = like_search(t.as_str(), row.destination.as_str());
                    proof {
                        let texts = seq![row@.egress_id, row@.room_name, row@.destination];
                        if a {
                            assert(like_match(search_pattern(t@), texts[0]));
                        }
                        if b {
                            assert(like_match(search_pattern(t@), texts[1]));
                        }
                        if c {
                            assert(like_match(search_pattern(t@), texts[2]));
                        }
                    }
                    a || b || c
                },
                None => true,
            };
            if opt_eq(&filter.status, row.status.as_str()) && opt_eq(&filter.room_name, row.room_name.as_str()) && hit {
                sel.push(i);
            }
            i = i + 1;
        }
        proof {
            lemma_select_end(sel@, tv, pred);
        }
        let ghost f = tv.filter(pred);
        let mut keys: Vec<i64> = Vec::new();
        let mut k: usize = 0;
        while k < sel.len()
            invariant
                k <= sel.len(),
                n == tv.len(),
                tv == egress_view(self.egress_jobs@),
                picks(sel@, tv) == f,
                forall|j: int| 0 <= j < sel.len() ==> sel@[j] < n,
                keys@ =~= f.map_values(egress_order_key()).take(k as int),
            decreases sel.len() - k,
        {
            let row = &self.egress_jobs[sel[k]];
            let key = match row.started_at {
                Some(t) => t,
                None => row.last_seen_at,
            };
            keys.push(key);
            k = k + 1;
        }
        assert(keys@ =~= f.map_values(egress_order_key()));
        let order = sort_positions_desc(&keys);
        let ghost sp = sorted_positions(keys@).map_values(|p: usize| f[p as int]);
        let offset: u64 = match filter.offset {
            Some(o) => o as u64,
            None => 0,
        };
        let limit: u64 = match filter.limit {
            Some(l) => l as u64,
            None => 200,
        };
        let (start, end) = page_bounds(order.len(), offset, limit);
        let mut out: Vec<EgressRecord> = Vec::new();
        let mut m: usize = start;
        while m < end
            invariant
                start <= m <= end,
                end <= order.len(),
                n == tv.len(),
                tv == egress_view(self.egress_jobs@),
                picks(sel@, tv) == f,
                forall|j: int| 0 <= j < sel.len() ==> sel@[j] < n,
                keys.len() == sel.len(),
                order@ == sorted_positions(keys@),
                sp == sorted_positions(keys@).map_values(|p: usize| f[p as int]),
                forall|j: int| 0 <= j < order.len() ==> order@[j] < keys.len(),
                egress_records_view(out@) =~= sp.subrange(start as int, m as int).map_values(
                    |r: EgressRowV| egress_record(r),
                ),
            decreases end - m,
        {
            let row = &self.egress_jobs[sel[order[m]]];
            proof {
                assert(f[order@[m as int] as int] == tv[sel@[order@[m as int] as int] as int]);
                assert(sp[m as int] == row@);
            }
            let rec = EgressRecord {
                egress_id: row.egress_id.clone(),
                room_name: row.room_name.clone(),
                egress_type: row.egress_type.clone(),
                status: row.status.clone(),
                destination: row.destination.clone(),
                started_at: row.started_at,
                ended_at: row.ended_at,
                updated_at: row.updated_at,
                error: row.error.clone(),
                details: row.details.clone(),
            };
            assert(rec@ == egress_record(row@));
            let ghost prev = out@;
            out.push(rec);
            proof {
                assert(egress_records_view(out@) =~= egress_records_view(prev).push(rec@));
                assert(sp.subrange(start as int, m + 1) =~= sp.subrange(start as int, m as int).push(row@));
                assert(sp.subrange(start as int, m + 1).map_values(|r: EgressRowV| egress_record(r))
                    =~= sp.subrange(start as int, m as int).map_values(|r: EgressRowV| egress_record(r)).push(
                    egress_record(row@),
                ));
            }
            m = m + 1;
        }
        out
    }
}

/// An optional string slice as an optional character sequence.
pub open spec fn opt_text(o: Option<&str>) -> Option<Seq<char>> {
    match o {
        Some(s) => Some(s@),
        None => None,
    }
}

/// The store after a received webhook is recorded at `now`: the event itself
/// (see `spec_webhook_event`); then `room_json` merged into the stored
/// description of the room (see `spec_merge_json`), when the event names its
/// room and the text is JSON; then `participant_json` as the
/// description of the participant, when the event names a room and a
/// participant (see `spec_participant_update`); then the egress job the
/// event reports, if any.
pub open spec fn spec_record_webhook(
    v: StoreView,
    e: WebhookEventV,
    room_json: Option<Seq<char>>,
    participant_json: Option<Seq<char>>,
    now: i64,
) -> StoreView {
    let v1 = spec_webhook_event(v, e, now);
    let v2 = match (e.room, room_json) {
        (Some(r), Some(j)) => if r.name.len() > 0 {
            match spec_merge_json(spec_room_detail(v1, r.name), j) {
                Some(m) => apply_write(
                    v1,
                    RowWriteV::RoomDetail(RoomDetailV { room_name: r.name, data_json: m, updated_at: now }),
                ),
                None => v1,
            }
        } else {
            v1
        },
        _ => v1,
    };
    let v3 = match (spec_participant_update(e), participant_json) {
        (Some((room, key, live)), Some(j)) => apply_write(
            v2,
            RowWriteV::RoomParticipant(
                RoomParticipantV { room_name: room, identity: key, data_json: j, is_live: live, updated_at: now },
            ),
        ),
        _ => v2,
    };
    match e.egress_info {
        Some(info) => StoreView { egress_jobs: spec_upsert_egress_infos(v3.egress_jobs, seq![info], now), ..v3 },
        None => v3,
    }
}

impl SessionStore {
    /// Records a received webhook at `now` (see `spec_record_webhook`), with
    /// the JSON descriptions of its room (merged here into the stored one)
    /// and of its participant.
    pub fn record_webhook_at(
        &mut self,
        event: &WebhookEventData,
        room_json: Option<&str>,
        participant_json: Option<&str>,
        now: i64,
    ) -> (writes: Vec<RowWrite>)
        requires
            old(self).wf(),
        ensures
            final(self).wf(),
            final(self)@ == spec_record_webhook(old(self)@, event@, opt_text(room_json), opt_text(participant_json), now),
            final(self)@ == apply_writes(old(self)@, writes_view(writes@)),
    {
        let ghost base = self@;
        let ghost e = event@;
        let mut writes = self.handle_webhook_event_at(event, now);
        let ghost v1 = self@;
        match (&event.room, room_json) {
            (Some(room), Some(json)) => {
                if !room.name.as_str().is_empty() {
                    let stored = self.get_room_detail(room.name.as_str());
                    let merged = match &stored {
                        Some(t) => merge_room_json(Some(t.as_str()), json),
                        None => merge_room_json(None, json),
                    };
                    match merged {
                        Ok(m) => {
                            let row = RoomDetailRow { room_name: room.name.clone(), data_json: m, updated_at: now };
                            let ghost before = writes_view(writes@);
                            let ghost w = RowWriteV::RoomDetail(row@);
                            self.put(RowWrite::RoomDetail(row), &mut writes);
                            proof {
                                lemma_apply_writes_push(base, before, w);
                                assert(writes_view(writes@) =~= before.push(w));
                            }
                        },
                        Err(_) => {},
                    }
                }
            },
            _ => {},
        }
        let ghost v2 = self@;
        assert(v2 == match (e.room, opt_text(room_json)) {
            (Some(r), Some(j)) => if r.name.len() > 0 {
                match spec_merge_json(spec_room_detail(v1, r.name), j) {
                    Some(m) => apply_write(
                        v1,
                        RowWriteV::RoomDetail(RoomDetailV { room_name: r.name, data_json: m, updated_at: now }),
                    ),
                    None => v1,
                }
            } else {
                v1
            },
            _ => v1,
        });
        match (participant_update(event), participant_json) {
            (Some((room, key, live)), Some(json)) => {
                let row = RoomParticipantRow {
                    room_name: room,
                    identity: key,
                    data_json: json.to_owned(),
                    is_live: live,
                    updated_at: now,
                };
                let ghost before = writes_view(writes@);
                let ghost w = RowWriteV::RoomParticipant(row@);
                self.put(RowWrite::RoomParticipant(row), &mut writes);
                proof {
                    lemma_apply_writes_push(base, before, w);
                    assert(writes_view(writes@) =~= before.push(w));
                }
            },
            _ => {},
        }
        let ghost v3 = self@;
        match &event.egress_info {
            Some(info) => {
                let ghost one = seq![info@];
                assert(one.drop_last() =~= Seq::<EgressInfoV>::empty());
                assert(spec_upsert_egress_infos(v3.egress_jobs, one.drop_last(), now) == v3.egress_jobs);
                assert(one.last() == info@);
                assert(e.egress_info == Some(info@));
                if !info.egress_id.as_str().is_empty() {
                    self.merge_egress_info(info, now, &mut writes, Ghost(base));
                }
                assert(self@ == (StoreView {
                    egress_jobs: spec_upsert_egress_infos(v3.egress_jobs, one, now),
                    ..v3
                }));
            },
            None => {},
        }
        writes
    }

    /// Records a received webhook now (see `spec_record_webhook`).
    pub fn record_webhook(
        &mut self,
        event: &WebhookEventData,
        room_json: Option<&str>,
        participant_json: Option<&str>,
    ) -> (writes: Vec<RowWrite>)
        requires
            old(self).wf(),
        ensures
            final(self).wf(),
            exists|now: i64| final(self)@ == #[trigger] spec_record_webhook(
                old(self)@,
                event@,
                opt_text(room_json),
                opt_text(participant_json),
                now,
            ),
            final(self)@ == apply_writes(old(self)@, writes_view(writes@)),
    {
        let now = crate::timestamps::now_epoch_seconds();
        self.record_webhook_at(event, room_json, participant_json, now)
    }
}

} // verus!




