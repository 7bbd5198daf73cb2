//! Properties of the library that span its operations.
use vstd::prelude::*;
use crate::records::{
    RoomDetailV, RoomHistoryV, RoomParticipantV, SessionParticipantV, SessionRowV, EgressRowV,
};
use crate::session_store::{
    apply_write, apply_writes, clear_writes, rows_in, spec_group_tables, deactivated, detail_key, egress_key,
    event_history_row, history_key, joined_session, latest_active, merge_history,
    new_participant, reconcile_upserts, room_names, room_participant_key, session_key,
    session_participant_key, spec_create_session, spec_finish_session, spec_reconcile,
    any_row, history_last_event, in_room, participant_updated, spec_record_webhook, spec_room_detail,
    spec_room_history, spec_room_participants, spec_upsert_history, spec_webhook_event, table_len, RowWriteV,
    StoreView,
    TableName,
};
use crate::events::{EgressInfoV, RoomDataV, WebhookEventV};
use crate::ordering::{lemma_select_ordered, lemma_select_ordered_unique, page, select_ordered};
use crate::records::{EgressFilter, SessionsFilter};
use crate::session_store::{
    egress_matches, egress_order_key, limit_or, opt_matches, opt_string_view, search_hits, session_matches,
    session_started, spec_list_egress, spec_list_sessions,
};
use crate::table::insert_or_ignore;
use crate::text::{seq_contains, skip_leading};
use crate::like::{like_match, search_pattern};
use crate::timestamps::{spec_normalize_timestamp, MILLIS_THRESHOLD};
use crate::webhook::{keep_recent, MAX_EVENTS};
use crate::json::spec_merge_json;
use crate::web::spec_strip_base;
use crate::webhook::{event_identity, event_label, event_room_name, event_room_sid, event_timestamp};
use crate::table::{
    lemma_position, lemma_upsert_lookup, lemma_upsert_other, lemma_upsert_unique, lookup,
    position, unique_keys, upsert,
};

verus! {

/// Every row of the store as a write, table by table, each table in its
/// stored order.
pub open spec fn dump(v: StoreView) -> Seq<RowWriteV> {
    v.sessions.map_values(|r: SessionRowV| RowWriteV::Session(r)) + v.session_participants.map_values(
        |r: SessionParticipantV| RowWriteV::SessionParticipant(r),
    ) + v.egress_jobs.map_values(|r: EgressRowV| RowWriteV::Egress(r)) + v.room_history.map_values(
        |r: RoomHistoryV| RowWriteV::RoomHistory(r),
    ) + v.room_details.map_values(|r: RoomDetailV| RowWriteV::RoomDetail(r))
        + v.room_participants.map_values(|r: RoomParticipantV| RowWriteV::RoomParticipant(r))
}

/// Writes applied one sequence after another.
pub proof fn lemma_apply_writes_concat(v: StoreView, a: Seq<RowWriteV>, b: Seq<RowWriteV>)
    ensures
        apply_writes(v, a + b) == apply_writes(apply_writes(v, a), b),
    decreases b.len(),
{
    if b.len() == 0 {
        assert(a + b =~= a);
    } else {
        lemma_apply_writes_concat(v, a, b.drop_last());
        assert((a + b).drop_last() =~= a + b.drop_last());
        assert((a + b).last() == b.last());
    }
}

/// A row whose key is new is appended by an upsert.
proof fn lemma_upsert_fresh<V, K>(s: Seq<V>, key: spec_fn(V) -> K, row: V)
    requires
        forall|m: int| 0 <= m < s.len() ==> key(#[trigger] s[m]) != key(row),
    ensures
        upsert(s, key, row) == s.push(row),
{
    lemma_position(s, key, key(row));
    if position(s, key, key(row)) >= 0 {
        let p = position(s, key, key(row));
        assert(key(s[p]) != key(row));
    }
}

/// Rows with distinct keys, upserted in order into an empty table, give
/// back the same table.
proof fn lemma_unique_prefix<V, K>(rows: Seq<V>, key: spec_fn(V) -> K)
    requires
        unique_keys(rows, key),
        rows.len() > 0,
    ensures
        unique_keys(rows.drop_last(), key),
        forall|m: int| 0 <= m < rows.drop_last().len() ==> key(#[trigger] rows.drop_last()[m]) != key(rows.last()),
{
    assert forall|m: int| 0 <= m < rows.drop_last().len() implies key(#[trigger] rows.drop_last()[m]) != key(
        rows.last(),
    ) by {
        assert(rows.drop_last()[m] == rows[m]);
    }
}

proof fn lemma_reload_sessions(b: StoreView, rows: Seq<SessionRowV>)
    requires
        b.sessions.len() == 0,
        unique_keys(rows, session_key()),
    ensures
        apply_writes(b, rows.map_values(|r: SessionRowV| RowWriteV::Session(r))) == (StoreView { sessions: rows, ..b }),
    decreases rows.len(),
{
    let ws = rows.map_values(|r: SessionRowV| RowWriteV::Session(r));
    if rows.len() == 0 {
        assert(rows =~= b.sessions);
    } else {
        lemma_unique_prefix(rows, session_key());
        lemma_reload_sessions(b, rows.drop_last());
        assert(ws.drop_last() =~= rows.drop_last().map_values(|r: SessionRowV| RowWriteV::Session(r)));
        lemma_upsert_fresh(rows.drop_last(), session_key(), rows.last());
        assert(rows.drop_last().push(rows.last()) =~= rows);
    }
}

proof fn lemma_reload_session_participants(b: StoreView, rows: Seq<SessionParticipantV>)
    requires
        b.session_participants.len() == 0,
        unique_keys(rows, session_participant_key()),
    ensures
        apply_writes(b, rows.map_values(|r: SessionParticipantV| RowWriteV::SessionParticipant(r)))
            == (StoreView { session_participants: rows, ..b }),
    decreases rows.len(),
{
    let ws = rows.map_values(|r: SessionParticipantV| RowWriteV::SessionParticipant(r));
    if rows.len() == 0 {
        assert(rows =~= b.session_participants);
    } else {
        lemma_unique_prefix(rows, session_participant_key());
        lemma_reload_session_participants(b, rows.drop_last());
        assert(ws.drop_last() =~= rows.drop_last().map_values(
            |r: SessionParticipantV| RowWriteV::SessionParticipant(r),
        ));
        lemma_upsert_fresh(rows.drop_last(), session_participant_key(), rows.last());
        assert(rows.drop_last().push(rows.last()) =~= rows);
    }
}

proof fn lemma_reload_egress(b: StoreView, rows: Seq<EgressRowV>)
    requires
        b.egress_jobs.len() == 0,
        unique_keys(rows, egress_key()),
    ensures
        apply_writes(b, rows.map_values(|r: EgressRowV| RowWriteV::Egress(r))) == (StoreView { egress_jobs: rows, ..b }),
    decreases rows.len(),
{
    let ws = rows.map_values(|r: EgressRowV| RowWriteV::Egress(r));
    if rows.len() == 0 {
        assert(rows =~= b.egress_jobs);
    } else {
        lemma_unique_prefix(rows, egress_key());
        lemma_reload_egress(b, rows.drop_last());
        assert(ws.drop_last() =~= rows.drop_last().map_values(|r: EgressRowV| RowWriteV::Egress(r)));
        lemma_upsert_fresh(rows.drop_last(), egress_key(), rows.last());
        assert(rows.drop_last().push(rows.last()) =~= rows);
    }
}

proof fn lemma_reload_history(b: StoreView, rows: Seq<RoomHistoryV>)
    requires
        b.room_history.len() == 0,
        unique_keys(rows, history_key()),
    ensures
        apply_writes(b, rows.map_values(|r: RoomHistoryV| RowWriteV::RoomHistory(r))) == (StoreView { room_history: rows, ..b }),
    decreases rows.len(),
{
    let ws = rows.map_values(|r: RoomHistoryV| RowWriteV::RoomHistory(r));
    if rows.len() == 0 {
        assert(rows =~= b.room_history);
    } else {
        lemma_unique_prefix(rows, history_key());
        lemma_reload_history(b, rows.drop_last());
        assert(ws.drop_last() =~= rows.drop_last().map_values(|r: RoomHistoryV| RowWriteV::RoomHistory(r)));
        lemma_upsert_fresh(rows.drop_last(), history_key(), rows.last());
        assert(rows.drop_last().push(rows.last()) =~= rows);
    }
}

proof fn lemma_reload_details(b: StoreView, rows: Seq<RoomDetailV>)
    requires
        b.room_details.len() == 0,
        unique_keys(rows, detail_key()),
    ensures
        apply_writes(b, rows.map_values(|r: RoomDetailV| RowWriteV::RoomDetail(r))) == (StoreView { room_details: rows, ..b }),
    decreases rows.len(),
{
    let ws = rows.map_values(|r: RoomDetailV| RowWriteV::RoomDetail(r));
    if rows.len() == 0 {
        assert(rows =~= b.room_details);
    } else {
        lemma_unique_prefix(rows, detail_key());
        lemma_reload_details(b, rows.drop_last());
        assert(ws.drop_last() =~= rows.drop_last().map_values(|r: RoomDetailV| RowWriteV::RoomDetail(r)));
        lemma_upsert_fresh(rows.drop_last(), detail_key(), rows.last());
        assert(rows.drop_last().push(rows.last()) =~= rows);
    }
}

proof fn lemma_reload_room_participants(b: StoreView, rows: Seq<RoomParticipantV>)
    requires
        b.room_participants.len() == 0,
        unique_keys(rows, room_participant_key()),
    ensures
        apply_writes(b, rows.map_values(|r: RoomParticipantV| RowWriteV::RoomParticipant(r)))
            == (StoreView { room_participants: rows, ..b }),
    decreases rows.len(),
{
    let ws = rows.map_values(|r: RoomParticipantV| RowWriteV::RoomParticipant(r));
    if rows.len() == 0 {
        assert(rows =~= b.room_participants);
    } else {
        lemma_unique_prefix(rows, room_participant_key());
        lemma_reload_room_participants(b, rows.drop_last());
        assert(ws.drop_last() =~= rows.drop_last().map_values(
            |r: RoomParticipantV| RowWriteV::RoomParticipant(r),
        ));
        lemma_upsert_fresh(rows.drop_last(), room_participant_key(), rows.last());
        assert(rows.drop_last().push(rows.last()) =~= rows);
    }
}

/// Reloading every row of a store, table by table in stored order, into an
/// empty store rebuilds that store: a durable copy kept up to date with the
/// writes the store hands back restores the store after a restart.
pub proof fn law_reload_rebuilds(v: StoreView)
    requires
        v.wf(),
    ensures
        apply_writes(StoreView::empty(), dump(v)) == v,
{
    let e = StoreView::empty();
    let w1 = v.sessions.map_values(|r: SessionRowV| RowWriteV::Session(r));
    let w2 = v.session_participants.map_values(|r: SessionParticipantV| RowWriteV::SessionParticipant(r));
    let w3 = v.egress_jobs.map_values(|r: EgressRowV| RowWriteV::Egress(r));
    let w4 = v.room_history.map_values(|r: RoomHistoryV| RowWriteV::RoomHistory(r));
    let w5 = v.room_details.map_values(|r: RoomDetailV| RowWriteV::RoomDetail(r));
    let w6 = v.room_participants.map_values(|r: RoomParticipantV| RowWriteV::RoomParticipant(r));
    lemma_reload_sessions(e, v.sessions);
    let s1 = StoreView { sessions: v.sessions, ..e };
    lemma_reload_session_participants(s1, v.session_participants);
    let s2 = StoreView { session_participants: v.session_participants, ..s1 };
    lemma_reload_egress(s2, v.egress_jobs);
    let s3 = StoreView { egress_jobs: v.egress_jobs, ..s2 };
    lemma_reload_history(s3, v.room_history);
    let s4 = StoreView { room_history: v.room_history, ..s3 };
    lemma_reload_details(s4, v.room_details);
    let s5 = StoreView { room_details: v.room_details, ..s4 };
    lemma_reload_room_participants(s5, v.room_participants);
    lemma_apply_writes_concat(e, w1, w2);
    lemma_apply_writes_concat(e, w1 + w2, w3);
    lemma_apply_writes_concat(e, w1 + w2 + w3, w4);
    lemma_apply_writes_concat(e, w1 + w2 + w3 + w4, w5);
    lemma_apply_writes_concat(e, w1 + w2 + w3 + w4 + w5, w6);
    assert(apply_writes(e, dump(v)) =~= v);
}

/// A history row merged in keeps the room's latest event time, its first
/// known creation time and a known sid (one other than `-`) known; other
/// rooms are untouched.
pub proof fn lemma_upsert_history_keeps(h: Seq<RoomHistoryV>, inc: RoomHistoryV, name: Seq<char>)
    requires
        unique_keys(h, history_key()),
    ensures
        unique_keys(spec_upsert_history(h, inc), history_key()),
        lookup(h, history_key(), name) matches Some(a) ==> (lookup(
            spec_upsert_history(h, inc),
            history_key(),
            name,
        ) matches Some(b) && b.last_event_at >= a.last_event_at && (a.created_at is Some
            ==> b.created_at == a.created_at) && (a.room_sid != "-"@ ==> b.room_sid != "-"@)),
{
    let m = merge_history(lookup(h, history_key(), inc.room_name), inc);
    lemma_upsert_unique(h, history_key(), m);
    if name == inc.room_name {
        lemma_upsert_lookup(h, history_key(), m);
    } else {
        lemma_upsert_other(h, history_key(), m, name);
    }
}

/// A webhook event never moves a room's history back in time, never changes
/// the first creation time it knows, and never turns a known sid back to
/// `-`.
pub proof fn law_event_keeps_room_history(v: StoreView, e: WebhookEventV, now: i64, name: Seq<char>)
    requires
        v.wf(),
    ensures
        lookup(v.room_history, history_key(), name) matches Some(a) ==> (lookup(
            spec_webhook_event(v, e, now).room_history,
            history_key(),
            name,
        ) matches Some(b) && b.last_event_at >= a.last_event_at && (a.created_at is Some
            ==> b.created_at == a.created_at) && (a.room_sid != "-"@ ==> b.room_sid != "-"@)),
{
    lemma_upsert_history_keeps(v.room_history, event_history_row(e, now), name);
}

/// Reconciling with the live rooms never moves a room's history back in
/// time, never changes the first creation time it knows, and never turns a
/// known sid back to `-`.
pub proof fn law_reconcile_keeps_room_history(
    h: Seq<RoomHistoryV>,
    rooms: Seq<RoomDataV>,
    now: i64,
    name: Seq<char>,
)
    requires
        unique_keys(h, history_key()),
    ensures
        lookup(h, history_key(), name) matches Some(a) ==> (lookup(
            spec_reconcile(h, rooms, now),
            history_key(),
            name,
        ) matches Some(b) && b.last_event_at >= a.last_event_at && (a.created_at is Some
            ==> b.created_at == a.created_at) && (a.room_sid != "-"@ ==> b.room_sid != "-"@)),
{
    lemma_reconcile_upserts_keep(h, rooms, now, name);
    let u = reconcile_upserts(h, rooms, now);
    let d = spec_reconcile(h, rooms, now);
    lemma_position(u, history_key(), name);
    lemma_position(d, history_key(), name);
    let p = position(u, history_key(), name);
    let q = position(d, history_key(), name);
    assert forall|m: int| 0 <= m < d.len() implies history_key()(#[trigger] d[m]) == history_key()(u[m]) by {
        assert(d[m] == deactivated(u[m], room_names(rooms), now));
    }
    if p >= 0 {
        assert(history_key()(d[p]) == name);
        if q != p {
            assert(q >= 0);
            assert(history_key()(u[q]) == name);
            lemma_position(u, history_key(), name);
        }
    }
}

/// Reconciling keeps one history row per room.
proof fn lemma_reconcile_unique(h: Seq<RoomHistoryV>, rooms: Seq<RoomDataV>, now: i64)
    requires
        unique_keys(h, history_key()),
    ensures
        unique_keys(spec_reconcile(h, rooms, now), history_key()),
{
    lemma_reconcile_upserts_keep(h, rooms, now, Seq::empty());
    let u = reconcile_upserts(h, rooms, now);
    let d = spec_reconcile(h, rooms, now);
    assert forall|i: int, j: int|
        0 <= i < d.len() && 0 <= j < d.len() && i != j implies history_key()(d[i]) != history_key()(d[j]) by {
        assert(d[i] == deactivated(u[i], room_names(rooms), now));
        assert(d[j] == deactivated(u[j], room_names(rooms), now));
    }
}

/// A change to the room history: a webhook event received at a time, or a
/// reconciliation with the live rooms at a time.
pub enum HistoryStep {
    Event(WebhookEventV, i64),
    Reconcile(Seq<RoomDataV>, i64),
}

/// The room history after one step.
pub open spec fn history_step(h: Seq<RoomHistoryV>, step: HistoryStep) -> Seq<RoomHistoryV> {
    match step {
        HistoryStep::Event(e, now) => spec_upsert_history(h, event_history_row(e, now)),
        HistoryStep::Reconcile(rooms, now) => spec_reconcile(h, rooms, now),
    }
}

/// The room history after the steps, in order.
pub open spec fn history_after(h: Seq<RoomHistoryV>, steps: Seq<HistoryStep>) -> Seq<RoomHistoryV>
    decreases steps.len(),
{
    if steps.len() == 0 {
        h
    } else {
        history_step(history_after(h, steps.drop_last()), steps.last())
    }
}

/// The steps are what the store's operations do to the room history: a
/// recorded webhook event (alone or with its descriptions) is an event step,
/// a reconciliation a reconcile step; the store's other operations, but for
/// clearing the rooms, leave the room history as it is.
pub proof fn law_history_steps_are_operations(
    v: StoreView,
    e: WebhookEventV,
    room_json: Option<Seq<char>>,
    participant_json: Option<Seq<char>>,
    rooms: Seq<RoomDataV>,
    now: i64,
)
    ensures
        spec_webhook_event(v, e, now).room_history == history_step(v.room_history, HistoryStep::Event(e, now)),
        spec_record_webhook(v, e, room_json, participant_json, now).room_history == history_step(
            v.room_history,
            HistoryStep::Event(e, now),
        ),
        (StoreView { room_history: spec_reconcile(v.room_history, rooms, now), ..v }).room_history
            == history_step(v.room_history, HistoryStep::Reconcile(rooms, now)),
{
}

/// Over any sequence of webhook events and reconciliations, a room's history
/// never moves back in time, its first known creation time never changes,
/// and once its sid is known (other than `-`) it only ever changes to
/// another known sid.
pub proof fn law_history_over_steps(h: Seq<RoomHistoryV>, steps: Seq<HistoryStep>, name: Seq<char>)
    requires
        unique_keys(h, history_key()),
    ensures
        unique_keys(history_after(h, steps), history_key()),
        lookup(h, history_key(), name) matches Some(a) ==> (lookup(
            history_after(h, steps),
            history_key(),
            name,
        ) matches Some(b) && b.last_event_at >= a.last_event_at && (a.created_at is Some
            ==> b.created_at == a.created_at) && (a.room_sid != "-"@ ==> b.room_sid != "-"@)),
    decreases steps.len(),
{
    if steps.len() > 0 {
        law_history_over_steps(h, steps.drop_last(), name);
        let g = history_after(h, steps.drop_last());
        match steps.last() {
            HistoryStep::Event(e, now) => {
                lemma_upsert_history_keeps(g, event_history_row(e, now), name);
            },
            HistoryStep::Reconcile(rooms, now) => {
                lemma_reconcile_unique(g, rooms, now);
                law_reconcile_keeps_room_history(g, rooms, now, name);
            },
        }
    }
}

/// A live room that stands for the room `name` (a live room with a name).
pub open spec fn names_room(r: RoomDataV, name: Seq<char>) -> bool {
    r.name.len() > 0 && r.name == name
}

/// The history row of `name` after merging in, in order, the live rooms
/// that stand for it, from the row `e` (if any).
pub open spec fn merged_row(e: Option<RoomHistoryV>, rooms: Seq<RoomDataV>, now: i64, name: Seq<char>) -> Option<
    RoomHistoryV,
>
    decreases rooms.len(),
{
    if rooms.len() == 0 {
        e
    } else {
        let e1 = merged_row(e, rooms.drop_last(), now, name);
        if names_room(rooms.last(), name) {
            Some(merge_history(e1, crate::session_store::live_history_row(rooms.last(), now)))
        } else {
            e1
        }
    }
}

/// Some live room stands for `name`.
pub open spec fn has_room(rooms: Seq<RoomDataV>, name: Seq<char>) -> bool {
    exists|i: int| 0 <= i < rooms.len() && #[trigger] names_room(rooms[i], name)
}

/// The sid a live room gives its history row.
pub open spec fn live_sid(r: RoomDataV) -> Seq<char> {
    if r.sid.len() > 0 {
        r.sid
    } else {
        "-"@
    }
}

/// The last known sid (other than `-`) of the live rooms standing for `name`.
pub open spec fn last_known_sid(rooms: Seq<RoomDataV>, name: Seq<char>) -> Option<Seq<char>>
    decreases rooms.len(),
{
    if rooms.len() == 0 {
        None
    } else if names_room(rooms.last(), name) && live_sid(rooms.last()) != "-"@ {
        Some(live_sid(rooms.last()))
    } else {
        last_known_sid(rooms.drop_last(), name)
    }
}

/// The first creation time given by the live rooms standing for `name`.
pub open spec fn first_created(rooms: Seq<RoomDataV>, name: Seq<char>) -> Option<i64>
    decreases rooms.len(),
{
    if rooms.len() == 0 {
        None
    } else {
        let f = first_created(rooms.drop_last(), name);
        if f is Some {
            f
        } else if names_room(rooms.last(), name) {
            crate::timestamps::spec_to_optional_timestamp(rooms.last().creation_time as int)
        } else {
            None
        }
    }
}

/// What merging the live rooms into a room's row gives, whatever the time:
/// nothing changes without a live room for it; with one, the row is there
/// and active, carries the last known live sid (else the row's own, else
/// `-`), and its first known creation time (else the first the live rooms
/// give).
proof fn lemma_merged_row(e: Option<RoomHistoryV>, rooms: Seq<RoomDataV>, now: i64, name: Seq<char>)
    ensures
        !has_room(rooms, name) ==> merged_row(e, rooms, now, name) == e,
        has_room(rooms, name) ==> (merged_row(e, rooms, now, name) matches Some(x) && {
            &&& x.status == "active"@
            &&& x.last_event_at >= now
            &&& x.room_sid == match last_known_sid(rooms, name) {
                Some(sid) => sid,
                None => match e {
                    Some(r) => r.room_sid,
                    None => "-"@,
                },
            }
            &&& x.created_at == match e {
                Some(r) => if r.created_at is Some {
                    r.created_at
                } else {
                    first_created(rooms, name)
                },
                None => first_created(rooms, name),
            }
        }),
    decreases rooms.len(),
{
    reveal_strlit("active");
    reveal_strlit("unknown");
    if rooms.len() > 0 {
        let init = rooms.drop_last();
        let last = rooms.last();
        lemma_merged_row(e, init, now, name);
        assert(has_room(rooms, name) <==> has_room(init, name) || names_room(last, name)) by {
            if has_room(init, name) {
                let i = choose|i: int| 0 <= i < init.len() && #[trigger] names_room(init[i], name);
                assert(rooms[i] == init[i]);
            }
            if names_room(last, name) {
                assert(names_room(rooms[rooms.len() - 1], name));
            }
            if has_room(rooms, name) && !names_room(last, name) {
                let i = choose|i: int| 0 <= i < rooms.len() && #[trigger] names_room(rooms[i], name);
                assert(i < rooms.len() - 1);
                assert(names_room(init[i], name));
            }
        }
        if !has_room(init, name) && names_room(last, name) {
            assert(last_known_sid(init, name) is None) by {
                lemma_no_room_no_sid(init, name);
            }
            assert(first_created(init, name) is None) by {
                lemma_no_room_no_created(init, name);
            }
        }
    }
}

proof fn lemma_no_room_no_sid(rooms: Seq<RoomDataV>, name: Seq<char>)
    requires
        !has_room(rooms, name),
    ensures
        last_known_sid(rooms, name) is None,
    decreases rooms.len(),
{
    if rooms.len() > 0 {
        let init = rooms.drop_last();
        if has_room(init, name) {
            let i = choose|i: int| 0 <= i < init.len() && #[trigger] names_room(init[i], name);
            assert(names_room(rooms[i], name));
        }
        assert(!names_room(rooms[rooms.len() - 1], name));
        lemma_no_room_no_sid(init, name);
    }
}

proof fn lemma_no_room_no_created(rooms: Seq<RoomDataV>, name: Seq<char>)
    requires
        !has_room(rooms, name),
    ensures
        first_created(rooms, name) is None,
    decreases rooms.len(),
{
    if rooms.len() > 0 {
        let init = rooms.drop_last();
        if has_room(init, name) {
            let i = choose|i: int| 0 <= i < init.len() && #[trigger] names_room(init[i], name);
            assert(names_room(rooms[i], name));
        }
        assert(!names_room(rooms[rooms.len() - 1], name));
        lemma_no_room_no_created(init, name);
    }
}

/// The row of a room after the live rooms are merged in is the row merged
/// from the live rooms standing for it.
proof fn lemma_reconcile_upserts_row(h: Seq<RoomHistoryV>, rooms: Seq<RoomDataV>, now: i64, name: Seq<char>)
    requires
        unique_keys(h, history_key()),
    ensures
        lookup(reconcile_upserts(h, rooms, now), history_key(), name) == merged_row(
            lookup(h, history_key(), name),
            rooms,
            now,
            name,
        ),
    decreases rooms.len(),
{
    if rooms.len() > 0 {
        let init = rooms.drop_last();
        lemma_reconcile_upserts_row(h, init, now, name);
        lemma_reconcile_upserts_keep(h, init, now, name);
        let h1 = reconcile_upserts(h, init, now);
        let last = rooms.last();
        if last.name.len() > 0 {
            let row = crate::session_store::live_history_row(last, now);
            let m = merge_history(lookup(h1, history_key(), row.room_name), row);
            if last.name == name {
                lemma_upsert_lookup(h1, history_key(), m);
            } else {
                lemma_upsert_other(h1, history_key(), m, name);
            }
        }
    }
}

/// The row of a room after reconciling: its merged row, made inactive when
/// it was active and the room is not live.
proof fn lemma_reconcile_row(h: Seq<RoomHistoryV>, rooms: Seq<RoomDataV>, now: i64, name: Seq<char>)
    requires
        unique_keys(h, history_key()),
    ensures
        lookup(spec_reconcile(h, rooms, now), history_key(), name) == match lookup(
            reconcile_upserts(h, rooms, now),
            history_key(),
            name,
        ) {
            Some(r) => Some(deactivated(r, room_names(rooms), now)),
            None => None,
        },
        lookup(reconcile_upserts(h, rooms, now), history_key(), name) matches Some(r) ==> r.room_name == name,
{
    lemma_reconcile_upserts_keep(h, rooms, now, name);
    let u = reconcile_upserts(h, rooms, now);
    let d = spec_reconcile(h, rooms, now);
    lemma_position(u, history_key(), name);
    lemma_position(d, history_key(), name);
    let p = position(u, history_key(), name);
    let q = position(d, history_key(), name);
    assert forall|m: int| 0 <= m < d.len() implies history_key()(#[trigger] d[m]) == history_key()(u[m]) by {
        assert(d[m] == deactivated(u[m], room_names(rooms), now));
    }
    if p >= 0 {
        assert(history_key()(d[p]) == name);
        assert(q >= 0);
        if q != p {
            assert(history_key()(u[q]) == name);
        }
        assert(d[p] == deactivated(u[p], room_names(rooms), now));
    } else if q >= 0 {
        assert(history_key()(u[q]) == name);
    }
}

/// Reconciling a second time with the same live rooms changes no room's
/// status, sid or creation time, and adds or removes no room; only the
/// last event times may move on with the clock.
pub proof fn law_reconcile_twice(h: Seq<RoomHistoryV>, rooms: Seq<RoomDataV>, first: i64, second: i64, name: Seq<char>)
    requires
        unique_keys(h, history_key()),
    ensures
        ({
            let once = spec_reconcile(h, rooms, first);
            let a = lookup(once, history_key(), name);
            let b = lookup(spec_reconcile(once, rooms, second), history_key(), name);
            &&& (a is Some <==> b is Some)
            &&& a matches Some(x) ==> (b matches Some(y) && y.status == x.status && y.room_sid == x.room_sid
                && y.created_at == x.created_at)
        }),
{
    reveal_strlit("active");
    reveal_strlit("inactive");
    let names = room_names(rooms);
    let once = spec_reconcile(h, rooms, first);
    lemma_reconcile_unique(h, rooms, first);
    lemma_reconcile_row(h, rooms, first, name);
    lemma_reconcile_upserts_row(h, rooms, first, name);
    lemma_reconcile_row(once, rooms, second, name);
    lemma_reconcile_upserts_row(once, rooms, second, name);
    let x0 = lookup(h, history_key(), name);
    let a = lookup(once, history_key(), name);
    lemma_merged_row(x0, rooms, first, name);
    lemma_merged_row(a, rooms, second, name);
    if has_room(rooms, name) {
        let i = choose|i: int| 0 <= i < rooms.len() && #[trigger] names_room(rooms[i], name);
        assert(names[i] == name);
        assert(names.contains(name));
    } else {
        assert(merged_row(x0, rooms, first, name) == x0);
    }
}

proof fn lemma_reconcile_upserts_keep(h: Seq<RoomHistoryV>, rooms: Seq<RoomDataV>, now: i64, name: Seq<char>)
    requires
        unique_keys(h, history_key()),
    ensures
        unique_keys(reconcile_upserts(h, rooms, now), history_key()),
        lookup(h, history_key(), name) matches Some(a) ==> (lookup(
            reconcile_upserts(h, rooms, now),
            history_key(),
            name,
        ) matches Some(b) && b.last_event_at >= a.last_event_at && (a.created_at is Some
            ==> b.created_at == a.created_at) && (a.room_sid != "-"@ ==> b.room_sid != "-"@)),
    decreases rooms.len(),
{
    if rooms.len() > 0 {
        lemma_reconcile_upserts_keep(h, rooms.drop_last(), now, name);
        let h1 = reconcile_upserts(h, rooms.drop_last(), now);
        if rooms.last().name.len() > 0 {
            lemma_upsert_history_keeps(h1, crate::session_store::live_history_row(rooms.last(), now), name);
        }
    }
}

/// Every named live room merged into the history is there as active.
proof fn lemma_reconcile_upserts_live(h: Seq<RoomHistoryV>, rooms: Seq<RoomDataV>, now: i64)
    requires
        unique_keys(h, history_key()),
    ensures
        unique_keys(reconcile_upserts(h, rooms, now), history_key()),
        forall|i: int|
            0 <= i < rooms.len() && rooms[i].name.len() > 0 ==> (lookup(
                reconcile_upserts(h, rooms, now),
                history_key(),
                #[trigger] rooms[i].name,
            ) matches Some(r) && r.status == "active"@),
    decreases rooms.len(),
{
    reveal_strlit("active");
    reveal_strlit("unknown");
    if rooms.len() > 0 {
        let init = rooms.drop_last();
        lemma_reconcile_upserts_live(h, init, now);
        let u1 = reconcile_upserts(h, init, now);
        let last = rooms.last();
        if last.name.len() > 0 {
            let row = crate::session_store::live_history_row(last, now);
            let m = merge_history(lookup(u1, history_key(), row.room_name), row);
            lemma_upsert_unique(u1, history_key(), m);
            lemma_upsert_lookup(u1, history_key(), m);
            assert(m.status == "active"@);
            assert forall|i: int| 0 <= i < rooms.len() && rooms[i].name.len() > 0 implies (lookup(
                reconcile_upserts(h, rooms, now),
                history_key(),
                #[trigger] rooms[i].name,
            ) matches Some(r) && r.status == "active"@) by {
                if rooms[i].name != m.room_name {
                    lemma_upsert_other(u1, history_key(), m, rooms[i].name);
                    assert(rooms[i] == init[i]);
                }
            }
        } else {
            assert forall|i: int| 0 <= i < rooms.len() && rooms[i].name.len() > 0 implies (lookup(
                reconcile_upserts(h, rooms, now),
                history_key(),
                #[trigger] rooms[i].name,
            ) matches Some(r) && r.status == "active"@) by {
                assert(i < rooms.len() - 1);
                assert(rooms[i] == init[i]);
            }
        }
    }
}

/// After the history is reconciled with the live rooms, every live room
/// with a name is in it as active, and no room outside the live ones is
/// active.
pub proof fn law_reconcile_marks_live_rooms(h: Seq<RoomHistoryV>, rooms: Seq<RoomDataV>, now: i64)
    requires
        unique_keys(h, history_key()),
    ensures
        forall|i: int|
            0 <= i < rooms.len() && rooms[i].name.len() > 0 ==> (lookup(
                spec_reconcile(h, rooms, now),
                history_key(),
                #[trigger] rooms[i].name,
            ) matches Some(r) && r.status == "active"@),
        forall|j: int|
            0 <= j < spec_reconcile(h, rooms, now).len() && !room_names(rooms).contains(
                #[trigger] spec_reconcile(h, rooms, now)[j].room_name,
            ) ==> spec_reconcile(h, rooms, now)[j].status != "active"@,
{
    reveal_strlit("active");
    reveal_strlit("inactive");
    lemma_reconcile_upserts_live(h, rooms, now);
    let u = reconcile_upserts(h, rooms, now);
    let d = spec_reconcile(h, rooms, now);
    let names = room_names(rooms);
    assert forall|m: int| 0 <= m < d.len() implies history_key()(#[trigger] d[m]) == history_key()(u[m]) by {
        assert(d[m] == deactivated(u[m], names, now));
    }
    assert forall|i: int| 0 <= i < rooms.len() && rooms[i].name.len() > 0 implies (lookup(
        d,
        history_key(),
        #[trigger] rooms[i].name,
    ) matches Some(r) && r.status == "active"@) by {
        let name = rooms[i].name;
        assert(names[i] == name);
        lemma_position(u, history_key(), name);
        lemma_position(d, history_key(), name);
        let p = position(u, history_key(), name);
        let q = position(d, history_key(), name);
        assert(p >= 0);
        assert(history_key()(d[p]) == name);
        assert(q >= 0);
        assert(history_key()(u[q]) == name);
        assert(q == p);
        assert(d[p] == deactivated(u[p], names, now));
    }
    assert forall|j: int|
        0 <= j < d.len() && !names.contains(#[trigger] d[j].room_name) implies d[j].status != "active"@ by {
        assert(d[j] == deactivated(u[j], names, now));
        assert(d[j].room_name == u[j].room_name);
        if u[j].status == "active"@ {
            assert(d[j].status == "inactive"@);
            assert("inactive"@.len() != "active"@.len());
        }
    }
}

proof fn lemma_update_same_key_unique<V, K>(s: Seq<V>, key: spec_fn(V) -> K, i: int, row: V)
    requires
        unique_keys(s, key),
        0 <= i < s.len(),
        key(row) == key(s[i]),
    ensures
        unique_keys(s.update(i, row), key),
        forall|k: K| (position(s, key, k) >= 0) == (position(s.update(i, row), key, k) >= 0),
{
    let u = s.update(i, row);
    assert forall|a: int, b: int| 0 <= a < u.len() && 0 <= b < u.len() && a != b implies key(u[a]) != key(u[b]) by {
        assert(key(u[a]) == key(s[a]));
        assert(key(u[b]) == key(s[b]));
    }
    assert forall|k: K| (position(s, key, k) >= 0) == (position(u, key, k) >= 0) by {
        lemma_position(s, key, k);
        lemma_position(u, key, k);
        if position(s, key, k) >= 0 {
            let p = position(s, key, k);
            assert(key(u[p]) == key(s[p]));
        }
        if position(u, key, k) >= 0 {
            let p = position(u, key, k);
            assert(key(u[p]) == key(s[p]));
        }
    }
}

proof fn lemma_create_session_keeps(s: Seq<SessionRowV>, room: Seq<char>, ts: i64)
    requires
        unique_keys(s, session_key()),
    ensures
        unique_keys(spec_create_session(s, room, ts), session_key()),
        position(spec_create_session(s, room, ts), session_key(), crate::session_store::session_id_for(room, ts)) >= 0,
        forall|k: Seq<char>| position(s, session_key(), k) >= 0 ==> position(
            spec_create_session(s, room, ts),
            session_key(),
            k,
        ) >= 0,
{
    let row = crate::session_store::new_session(room, ts);
    lemma_upsert_unique(s, session_key(), row);
    let c = spec_create_session(s, room, ts);
    lemma_position(s, session_key(), session_key()(row));
    lemma_position(c, session_key(), session_key()(row));
    if position(s, session_key(), session_key()(row)) < 0 {
        assert(c[s.len() as int] == row);
    } else {
        assert(c == s);
    }
    assert forall|k: Seq<char>| position(s, session_key(), k) >= 0 implies position(c, session_key(), k) >= 0 by {
        lemma_position(s, session_key(), k);
        lemma_position(c, session_key(), k);
        let p = position(s, session_key(), k);
        assert(c[p] == s[p]);
    }
}

proof fn lemma_latest_active_bounds(s: Seq<SessionRowV>, room: Seq<char>)
    ensures
        -1 <= latest_active(s, room) < s.len(),
        latest_active(s, room) >= 0 ==> s[latest_active(s, room)].room_name == room
            && s[latest_active(s, room)].status == "active"@,
    decreases s.len(),
{
    if s.len() > 0 {
        lemma_latest_active_bounds(s.drop_last(), room);
        let r = latest_active(s.drop_last(), room);
        if r >= 0 {
            assert(s.drop_last()[r] == s[r]);
        }
    }
}

proof fn lemma_finish_keeps(s: Seq<SessionRowV>, room: Seq<char>, ts: i64)
    requires
        unique_keys(s, session_key()),
    ensures
        unique_keys(spec_finish_session(s, room, ts), session_key()),
        forall|k: Seq<char>| (position(s, session_key(), k) >= 0) == (position(
            spec_finish_session(s, room, ts),
            session_key(),
            k,
        ) >= 0),
{
    lemma_latest_active_bounds(s, room);
    let i = latest_active(s, room);
    if i >= 0 {
        lemma_update_same_key_unique(
            s,
            session_key(),
            i,
            SessionRowV { ended_at: Some(ts), status: "ended"@, ..s[i] },
        );
    }
}

/// Every webhook event leaves at most one row per key in each table; in
/// particular a participant counts once in a session however often it joins.
pub proof fn law_event_keeps_keys_unique(v: StoreView, e: WebhookEventV, now: i64)
    requires
        v.wf(),
    ensures
        spec_webhook_event(v, e, now).wf(),
{
    let room = event_room_name(e);
    let ts = event_timestamp(e, now);
    let label = event_label(e);
    lemma_upsert_history_keeps(v.room_history, event_history_row(e, now), room);
    let s1 = v.sessions;
    let s2 = if seq_contains(label, "room_started"@) {
        spec_create_session(s1, room, ts)
    } else {
        s1
    };
    if seq_contains(label, "room_started"@) {
        lemma_create_session_keeps(s1, room, ts);
    }
    let s3 = if seq_contains(label, "participant_joined"@) {
        joined_session(s2, room, ts).0
    } else {
        s2
    };
    if seq_contains(label, "participant_joined"@) {
        if latest_active(s2, room) < 0 {
            lemma_create_session_keeps(s2, room, ts);
        }
        let (_, sid) = joined_session(s2, room, ts);
        match event_identity(e) {
            Some(id) => {
                lemma_upsert_unique(
                    v.session_participants,
                    session_participant_key(),
                    new_participant(sid, id, ts),
                );
            },
            None => {},
        }
    }
    if seq_contains(label, "room_finished"@) {
        lemma_finish_keeps(s3, room, ts);
    }
}

/// A joining participant with a non-empty key ends up recorded in the
/// session it joined, and that session is in the store.
pub proof fn law_join_records_participant(v: StoreView, e: WebhookEventV, now: i64)
    requires
        v.wf(),
        seq_contains(event_label(e), "participant_joined"@),
        event_identity(e) is Some,
    ensures
        ({
            let room = event_room_name(e);
            let ts = event_timestamp(e, now);
            let s2 = if seq_contains(event_label(e), "room_started"@) {
                spec_create_session(v.sessions, room, ts)
            } else {
                v.sessions
            };
            let sid = joined_session(s2, room, ts).1;
            let after = spec_webhook_event(v, e, now);
            &&& position(after.session_participants, session_participant_key(), (sid, event_identity(e)->0)) >= 0
            &&& position(after.sessions, session_key(), sid) >= 0
        }),
{
    let room = event_room_name(e);
    let ts = event_timestamp(e, now);
    let label = event_label(e);
    let s2 = if seq_contains(label, "room_started"@) {
        spec_create_session(v.sessions, room, ts)
    } else {
        v.sessions
    };
    if seq_contains(label, "room_started"@) {
        lemma_create_session_keeps(v.sessions, room, ts);
    }
    let (s3, sid) = joined_session(s2, room, ts);
    lemma_latest_active_bounds(s2, room);
    if latest_active(s2, room) >= 0 {
        let i = latest_active(s2, room);
        crate::table::lemma_unique_position(s2, session_key(), i);
    } else {
        lemma_create_session_keeps(s2, room, ts);
    }
    assert(position(s3, session_key(), sid) >= 0);
    let id = event_identity(e)->0;
    let row = new_participant(sid, id, ts);
    let ps = insert_or_ignore(v.session_participants, session_participant_key(), row);
    lemma_position(v.session_participants, session_participant_key(), (sid, id));
    lemma_position(ps, session_participant_key(), (sid, id));
    if position(v.session_participants, session_participant_key(), (sid, id)) < 0 {
        assert(ps[v.session_participants.len() as int] == row);
    }
    if seq_contains(label, "room_finished"@) {
        assert(unique_keys(s2, session_key())) by {
            if !seq_contains(label, "room_started"@) {
                assert(s2 == v.sessions);
            }
        }
        if latest_active(s2, room) < 0 {
            lemma_create_session_keeps(s2, room, ts);
        }
        lemma_finish_keeps(s3, room, ts);
    }
}

/// When a room finishes (by an event of that kind alone), the session that
/// was its latest active one ends at the event's time, and no other session
/// changes.
pub proof fn law_finish_ends_latest_session(v: StoreView, e: WebhookEventV, now: i64)
    requires
        seq_contains(event_label(e), "room_finished"@),
        !seq_contains(event_label(e), "room_started"@),
        !seq_contains(event_label(e), "participant_joined"@),
    ensures
        ({
            let i = latest_active(v.sessions, event_room_name(e));
            let after = spec_webhook_event(v, e, now).sessions;
            &&& i >= 0 ==> after == v.sessions.update(
                i,
                SessionRowV { ended_at: Some(event_timestamp(e, now)), status: "ended"@, ..v.sessions[i] },
            )
            &&& i < 0 ==> after == v.sessions
        }),
{
}

/// A stored room description is what is read back for the room.
pub proof fn law_room_detail_read_back(v: StoreView, row: RoomDetailV)
    requires
        v.wf(),
    ensures
        spec_room_detail(apply_write(v, RowWriteV::RoomDetail(row)), row.room_name) == Some(row.data_json),
{
    lemma_upsert_lookup(v.room_details, detail_key(), row);
}

/// A received webhook that names its room, recorded with a JSON description
/// of the room, leaves as what is read back for the room that description
/// merged into the one stored before (see `spec_merge_json`).
pub proof fn law_webhook_room_detail_read_back(
    v: StoreView,
    e: WebhookEventV,
    room_json: Seq<char>,
    participant_json: Option<Seq<char>>,
    now: i64,
)
    requires
        v.wf(),
        e.room is Some,
        e.room->0.name.len() > 0,
        spec_merge_json(spec_room_detail(v, e.room->0.name), room_json) is Some,
    ensures
        spec_room_detail(spec_record_webhook(v, e, Some(room_json), participant_json, now), e.room->0.name)
            == spec_merge_json(spec_room_detail(v, e.room->0.name), room_json),
{
    law_event_keeps_keys_unique(v, e, now);
    let v1 = spec_webhook_event(v, e, now);
    assert(v1.room_details == v.room_details);
    let m = spec_merge_json(spec_room_detail(v, e.room->0.name), room_json)->0;
    let row = RoomDetailV { room_name: e.room->0.name, data_json: m, updated_at: now };
    law_room_detail_read_back(v1, row);
}

/// A stored participant description is what is read back for the room and
/// participant.
pub proof fn law_participant_read_back(v: StoreView, row: RoomParticipantV)
    requires
        v.wf(),
    ensures
        lookup(
            apply_write(v, RowWriteV::RoomParticipant(row)).room_participants,
            room_participant_key(),
            (row.room_name, row.identity),
        ) == Some(row),
{
    lemma_upsert_lookup(v.room_participants, room_participant_key(), row);
}

/// Clearing tables empties each of them and leaves the other tables as they
/// were.
pub proof fn law_clear_empties(v: StoreView, ts: Seq<TableName>, t: TableName)
    ensures
        ts.contains(t) ==> table_len(apply_writes(v, clear_writes(ts)), t) == 0,
        !ts.contains(t) ==> table_len(apply_writes(v, clear_writes(ts)), t) == table_len(v, t),
    decreases ts.len(),
{
    if ts.len() > 0 {
        law_clear_empties(v, ts.drop_last(), t);
        assert(clear_writes(ts).drop_last() =~= clear_writes(ts.drop_last()));
        if ts.contains(t) && t != ts.last() {
            let k = choose|k: int| 0 <= k < ts.len() && ts[k] == t;
            assert(ts.drop_last()[k] == t);
        }
        if !ts.contains(t) {
            assert forall|k: int| 0 <= k < ts.drop_last().len() implies ts.drop_last()[k] != t by {
                assert(ts.drop_last()[k] == ts[k]);
            }
            assert(ts.last() == ts[ts.len() - 1]);
        }
    }
}

/// The session listing holds only sessions that pass the filter's status,
/// room and search, each once, newest start first, never more than the
/// limit (200 by default), each with a duration of at least 0.
pub proof fn law_list_sessions_filtered_sorted_bounded(v: StoreView, f: SessionsFilter, now: i64)
    requires
        v.sessions.len() <= usize::MAX,
        unique_keys(v.sessions, session_key()),
    ensures
        ({
            let r = spec_list_sessions(v, f, now);
            &&& r.len() <= limit_or(f.limit, 200)
            &&& forall|i: int, j: int| 0 <= i < j < r.len() ==> r[i].started_at >= r[j].started_at
            &&& forall|i: int, j: int| 0 <= i < j < r.len() ==> r[i].session_id != r[j].session_id
            &&& forall|i: int| 0 <= i < r.len() ==> {
                &&& opt_matches(opt_string_view(f.status), r[i].status)
                &&& opt_matches(opt_string_view(f.room_name), r[i].room_name)
                &&& search_hits(opt_string_view(f.search), seq![r[i].session_id, r[i].room_name])
                &&& r[i].duration_seconds >= 0
            }
        }),
{
    let pred = session_matches(opt_string_view(f.status), opt_string_view(f.room_name), opt_string_view(f.search));
    lemma_select_ordered(v.sessions, pred, session_started());
    lemma_select_ordered_unique(v.sessions, pred, session_started(), session_key());
    let o = select_ordered(v.sessions, pred, session_started());
    let pg = page(o, limit_or(f.offset, 0), limit_or(f.limit, 200));
    let start = if limit_or(f.offset, 0) < o.len() { limit_or(f.offset, 0) } else { o.len() as int };
    assert forall|i: int| 0 <= i < pg.len() implies #[trigger] pg[i] == o[start + i] by {}
    let r = spec_list_sessions(v, f, now);
    assert forall|i: int, j: int| 0 <= i < j < r.len() implies r[i].started_at >= r[j].started_at by {
        assert(pg[i] == o[start + i]);
        assert(pg[j] == o[start + j]);
        assert(session_started()(o[start + i]) >= session_started()(o[start + j]));
    }
    assert forall|i: int, j: int| 0 <= i < j < r.len() implies r[i].session_id != r[j].session_id by {
        assert(pg[i] == o[start + i]);
        assert(pg[j] == o[start + j]);
        assert(session_key()(o[start + i]) != session_key()(o[start + j]));
    }
    assert forall|i: int| 0 <= i < r.len() implies {
        &&& opt_matches(opt_string_view(f.status), r[i].status)
        &&& opt_matches(opt_string_view(f.room_name), r[i].room_name)
        &&& search_hits(opt_string_view(f.search), seq![r[i].session_id, r[i].room_name])
        &&& r[i].duration_seconds >= 0
    } by {
        assert(pg[i] == o[start + i]);
        assert(pred(o[start + i]));
    }
}

/// The room history lists rooms latest event first, never more than the
/// limit (500 by default).
pub proof fn law_room_history_latest_first_bounded(v: StoreView, limit: Option<u32>)
    requires
        v.room_history.len() <= usize::MAX,
    ensures
        ({
            let r = spec_room_history(v, limit);
            &&& r.len() <= limit_or(limit, 500)
            &&& forall|i: int, j: int| 0 <= i < j < r.len() ==> r[i].last_event_at >= r[j].last_event_at
        }),
{
    lemma_select_ordered(v.room_history, any_row(), history_last_event());
    let o = select_ordered(v.room_history, any_row(), history_last_event());
    let r = spec_room_history(v, limit);
    assert forall|i: int, j: int| 0 <= i < j < r.len() implies r[i].last_event_at >= r[j].last_event_at by {
        assert(r[i] == o[i]);
        assert(r[j] == o[j]);
        assert(history_last_event()(o[i]) >= history_last_event()(o[j]));
    }
}

/// The stored participants of a room come most recently updated first, one
/// for each stored participant of that room.
pub proof fn law_room_participants_latest_first(v: StoreView, room: Seq<char>)
    requires
        v.room_participants.len() <= usize::MAX,
    ensures
        ({
            let r = spec_room_participants(v, room);
            &&& r.len() == v.room_participants.filter(in_room(room)).len()
            &&& forall|i: int, j: int| 0 <= i < j < r.len() ==> r[i].updated_at >= r[j].updated_at
        }),
{
    lemma_select_ordered(v.room_participants, in_room(room), participant_updated());
    let o = select_ordered(v.room_participants, in_room(room), participant_updated());
    let r = spec_room_participants(v, room);
    assert forall|i: int, j: int| 0 <= i < j < r.len() implies r[i].updated_at >= r[j].updated_at by {
        assert(participant_updated()(o[i]) >= participant_updated()(o[j]));
    }
}

/// The egress history holds only jobs that pass the filter's status, room
/// and search, each once, ordered by start (or last sighting), latest first, so that of two
/// listed jobs with start times the earlier-listed one started no earlier;
/// never more than the limit (200 by default).
pub proof fn law_list_egress_filtered_sorted_bounded(v: StoreView, f: EgressFilter)
    requires
        v.egress_jobs.len() <= usize::MAX,
        unique_keys(v.egress_jobs, egress_key()),
    ensures
        ({
            let r = spec_list_egress(v, f);
            &&& r.len() <= limit_or(f.limit, 200)
            &&& forall|i: int, j: int| 0 <= i < j < r.len() && r[i].started_at is Some && r[j].started_at is Some
                ==> r[i].started_at->0 >= r[j].started_at->0
            &&& forall|i: int, j: int| 0 <= i < j < r.len() ==> r[i].egress_id != r[j].egress_id
            &&& forall|i: int| 0 <= i < r.len() ==> {
                &&& opt_matches(opt_string_view(f.status), r[i].status)
                &&& opt_matches(opt_string_view(f.room_name), r[i].room_name)
                &&& search_hits(opt_string_view(f.search), seq![r[i].egress_id, r[i].room_name, r[i].destination])
            }
        }),
{
    let pred = egress_matches(opt_string_view(f.status), opt_string_view(f.room_name), opt_string_view(f.search));
    lemma_select_ordered(v.egress_jobs, pred, egress_order_key());
    lemma_select_ordered_unique(v.egress_jobs, pred, egress_order_key(), egress_key());
    let o = select_ordered(v.egress_jobs, pred, egress_order_key());
    let pg = page(o, limit_or(f.offset, 0), limit_or(f.limit, 200));
    let start = if limit_or(f.offset, 0) < o.len() { limit_or(f.offset, 0) } else { o.len() as int };
    assert forall|i: int| 0 <= i < pg.len() implies #[trigger] pg[i] == o[start + i] by {}
    let r = spec_list_egress(v, f);
    assert forall|i: int, j: int| 0 <= i < j < r.len() && r[i].started_at is Some && r[j].started_at is Some
        implies r[i].started_at->0 >= r[j].started_at->0 by {
        assert(pg[i] == o[start + i]);
        assert(pg[j] == o[start + j]);
        assert(egress_order_key()(o[start + i]) >= egress_order_key()(o[start + j]));
    }
    assert forall|i: int, j: int| 0 <= i < j < r.len() implies r[i].egress_id != r[j].egress_id by {
        assert(pg[i] == o[start + i]);
        assert(pg[j] == o[start + j]);
        assert(egress_key()(o[start + i]) != egress_key()(o[start + j]));
    }
    assert forall|i: int| 0 <= i < r.len() implies {
        &&& opt_matches(opt_string_view(f.status), r[i].status)
        &&& opt_matches(opt_string_view(f.room_name), r[i].room_name)
        &&& search_hits(opt_string_view(f.search), seq![r[i].egress_id, r[i].room_name, r[i].destination])
    } by {
        assert(pg[i] == o[start + i]);
        assert(pred(o[start + i]));
    }
}

/// A pattern starting with `%` matches a text when the rest of the pattern
/// matches some suffix of it.
proof fn lemma_like_percent_skips(q: Seq<char>, t: Seq<char>, k: int)
    requires
        0 <= k <= t.len(),
        like_match(q, t.skip(k)),
    ensures
        like_match(seq!['%'] + q, t),
    decreases k,
{
    let p = seq!['%'] + q;
    assert(p.drop_first() =~= q);
    if k == 0 {
        assert(t.skip(0) =~= t);
    } else {
        assert(t.drop_first().skip(k - 1) =~= t.skip(k));
        lemma_like_percent_skips(q, t.drop_first(), k - 1);
    }
}

/// A term followed by `%` matches the term followed by anything.
proof fn lemma_like_term_then_rest(term: Seq<char>, b: Seq<char>)
    ensures
        like_match(term + seq!['%'], term + b),
    decreases term.len(),
{
    let p = term + seq!['%'];
    let t = term + b;
    if term.len() == 0 {
        assert(p =~= seq!['%'] + Seq::<char>::empty());
        assert(t =~= b);
        assert(b.skip(b.len() as int) =~= Seq::<char>::empty());
        lemma_like_percent_skips(Seq::<char>::empty(), b, b.len() as int);
    } else {
        let rest = term.drop_first();
        lemma_like_term_then_rest(rest, b);
        assert(p.drop_first() =~= rest + seq!['%']);
        assert(t.drop_first() =~= rest + b);
        assert(p[0] == term[0]);
        assert(t[0] == term[0]);
        if term[0] == '%' {
            assert(p =~= seq!['%'] + (rest + seq!['%']));
            assert((rest + b).skip(0) =~= rest + b);
            lemma_like_percent_skips(rest + seq!['%'], rest + b, 0);
        }
    }
}

/// A search finds every text that contains the term as it is: `LIKE
/// '%term%'` accepts any text in which the term occurs.
pub proof fn law_search_finds_contained_term(term: Seq<char>, text: Seq<char>)
    requires
        seq_contains(text, term),
    ensures
        like_match(search_pattern(term), text),
{
    let i = choose|i: int| 0 <= i <= text.len() - term.len() && #[trigger] text.subrange(i, i + term.len()) == term;
    let b = text.skip(i + term.len());
    assert(text.skip(i) =~= term + b);
    lemma_like_term_then_rest(term, b);
    assert(search_pattern(term) =~= seq!['%'] + (term + seq!['%']));
    lemma_like_percent_skips(term + seq!['%'], text, i);
}

/// Normalizing a timestamp twice changes nothing more, and a normalized
/// timestamp is a count of seconds (at most the millisecond threshold).
pub proof fn law_normalize_idempotent(raw: i64)
    ensures
        spec_normalize_timestamp(spec_normalize_timestamp(raw as int)) == spec_normalize_timestamp(raw as int),
        0 <= spec_normalize_timestamp(raw as int) <= MILLIS_THRESHOLD,
{
}

/// The event log never holds more than `MAX_EVENTS`, always ends with the
/// newest event, and drops nothing while it has room.
pub proof fn law_event_log_keeps_recent<T>(s: Seq<T>, e: T)
    requires
        s.len() <= MAX_EVENTS,
    ensures
        keep_recent(s.push(e)).len() <= MAX_EVENTS,
        keep_recent(s.push(e)).last() == e,
        s.len() < MAX_EVENTS ==> keep_recent(s.push(e)) == s.push(e),
        s.len() == MAX_EVENTS ==> keep_recent(s.push(e)) == s.drop_first().push(e),
{
    if s.len() == MAX_EVENTS {
        assert(keep_recent(s.push(e)) =~= s.drop_first().push(e));
    }
}

/// The log after the events are pushed, in order, onto the log `s`.
pub open spec fn log_after<T>(s: Seq<T>, events: Seq<T>) -> Seq<T>
    decreases events.len(),
{
    if events.len() == 0 {
        s
    } else {
        keep_recent(log_after(s, events.drop_last()).push(events.last()))
    }
}

/// Starting from an empty log, after any run of events the log holds the
/// last `MAX_EVENTS` of them (all of them while there are fewer), in the
/// order they came.
pub proof fn law_event_log_over_run<T>(events: Seq<T>)
    ensures
        log_after(Seq::empty(), events) == keep_recent(events),
        log_after(Seq::empty(), events).len() <= MAX_EVENTS,
    decreases events.len(),
{
    if events.len() > 0 {
        let init = events.drop_last();
        let e = events.last();
        law_event_log_over_run(init);
        let k = keep_recent(init);
        assert(events =~= init.push(e));
        if init.len() > MAX_EVENTS {
            assert(keep_recent(k.push(e)) =~= keep_recent(events));
        } else {
            assert(k == init);
        }
    }
}

proof fn lemma_skip_leading_no_slash(s: Seq<char>)
    ensures
        skip_leading(s, '/').len() == 0 || skip_leading(s, '/')[0] != '/',
    decreases s.len(),
{
    if s.len() > 0 && s[0] == '/' {
        lemma_skip_leading_no_slash(s.drop_first());
    }
}

/// A path relative to the site never starts with a slash.
pub proof fn law_strip_base_relative(base: Seq<char>, full: Seq<char>)
    ensures
        spec_strip_base(base, full).len() == 0 || spec_strip_base(base, full)[0] != '/',
{
    lemma_skip_leading_no_slash(full);
    lemma_skip_leading_no_slash(full.skip(base.len() as int));
}


/// What a webhook event does to its room's history row: the row is there
/// afterwards; a started room or a joining participant makes it active; a
/// finished room (by an event that neither starts it nor has a participant
/// join) makes it inactive; any other event keeps the stored status (or
/// `unknown` for a new row); its last event time is the later of the
/// stored one and the event's time; its creation time is the stored one
/// when known, else the event's time when the event starts the room; its
/// sid is the event's when the event gives one, else the stored one (`-`
/// for a new row).
pub proof fn law_event_room_status(v: StoreView, e: WebhookEventV, now: i64)
    requires
        v.wf(),
    ensures
        ({
            let label = event_label(e);
            let started = seq_contains(label, "room_started"@);
            let joined = seq_contains(label, "participant_joined"@);
            let finished = seq_contains(label, "room_finished"@);
            let ts = event_timestamp(e, now);
            let before = lookup(v.room_history, history_key(), event_room_name(e));
            let after = lookup(spec_webhook_event(v, e, now).room_history, history_key(), event_room_name(e));
            &&& after is Some
            &&& (started || joined) ==> after->0.status == "active"@
            &&& (!started && !joined && finished) ==> after->0.status == "inactive"@
            &&& (!started && !joined && !finished) ==> after->0.status == match before {
                Some(b) => b.status,
                None => "unknown"@,
            }
            &&& after->0.last_event_at == match before {
                Some(b) => if b.last_event_at > ts {
                    b.last_event_at
                } else {
                    ts
                },
                None => ts,
            }
            &&& after->0.created_at == match before {
                Some(b) => if b.created_at is Some {
                    b.created_at
                } else if started {
                    Some(ts)
                } else {
                    None
                },
                None => if started {
                    Some(ts)
                } else {
                    None
                },
            }
            &&& after->0.room_sid == if event_room_sid(e) != "-"@ {
                event_room_sid(e)
            } else {
                match before {
                    Some(b) => b.room_sid,
                    None => "-"@,
                }
            }
        }),
{
    reveal_strlit("active");
    reveal_strlit("inactive");
    reveal_strlit("unknown");
    let inc = event_history_row(e, now);
    let m = merge_history(lookup(v.room_history, history_key(), inc.room_name), inc);
    lemma_upsert_lookup(v.room_history, history_key(), m);
}


/// After reconciling with the live rooms at `now`, every live room with a
/// name is in the history, active, with its last event no earlier than
/// `now`; its creation time
/// is the first one known (the stored one, else the first its live reports
/// give).
pub proof fn law_reconcile_live_rooms_current(h: Seq<RoomHistoryV>, rooms: Seq<RoomDataV>, now: i64)
    requires
        unique_keys(h, history_key()),
    ensures
        forall|i: int|
            0 <= i < rooms.len() && rooms[i].name.len() > 0 ==> (lookup(
                spec_reconcile(h, rooms, now),
                history_key(),
                #[trigger] rooms[i].name,
            ) matches Some(r) && r.status == "active"@ && r.last_event_at >= now && r.created_at == match lookup(
                h,
                history_key(),
                rooms[i].name,
            ) {
                Some(b) => if b.created_at is Some {
                    b.created_at
                } else {
                    first_created(rooms, rooms[i].name)
                },
                None => first_created(rooms, rooms[i].name),
            }),
{
    let names = room_names(rooms);
    assert forall|i: int| 0 <= i < rooms.len() && rooms[i].name.len() > 0 implies (lookup(
        spec_reconcile(h, rooms, now),
        history_key(),
        #[trigger] rooms[i].name,
    ) matches Some(r) && r.status == "active"@ && r.last_event_at >= now && r.created_at == match lookup(
        h,
        history_key(),
        rooms[i].name,
    ) {
        Some(b) => if b.created_at is Some {
            b.created_at
        } else {
            first_created(rooms, rooms[i].name)
        },
        None => first_created(rooms, rooms[i].name),
    }) by {
        let name = rooms[i].name;
        assert(names_room(rooms[i], name));
        assert(has_room(rooms, name));
        assert(names[i] == name);
        lemma_reconcile_row(h, rooms, now, name);
        lemma_reconcile_upserts_row(h, rooms, now, name);
        lemma_merged_row(lookup(h, history_key(), name), rooms, now, name);
    }
}


/// A stored row that is one of the table's rows is what a lookup by its
/// key gives, when keys are unique.
proof fn lemma_lookup_member<V, K>(s: Seq<V>, key: spec_fn(V) -> K, x: V)
    requires
        unique_keys(s, key),
        s.contains(x),
    ensures
        lookup(s, key, key(x)) == Some(x),
{
    let q = choose|q: int| 0 <= q < s.len() && s[q] == x;
    crate::table::lemma_unique_position(s, key, q);
}

/// Every listed egress record is a stored job as it is stored: its id names
/// a stored job, and the record carries that job's room, type, status,
/// destination, times, error and details unchanged.
pub proof fn law_listed_egress_is_stored(v: StoreView, f: EgressFilter)
    requires
        v.egress_jobs.len() <= usize::MAX,
        unique_keys(v.egress_jobs, egress_key()),
    ensures
        forall|i: int|
            0 <= i < spec_list_egress(v, f).len() ==> (lookup(
                v.egress_jobs,
                egress_key(),
                #[trigger] spec_list_egress(v, f)[i].egress_id,
            ) matches Some(row) && {
                let r = spec_list_egress(v, f)[i];
                &&& r.room_name == row.room_name
                &&& r.egress_type == row.egress_type
                &&& r.status == row.status
                &&& r.destination == row.destination
                &&& r.started_at == row.started_at
                &&& r.ended_at == row.ended_at
                &&& r.updated_at == row.updated_at
                &&& r.error == row.error
                &&& r.details == row.details
            }),
{
    let pred = egress_matches(opt_string_view(f.status), opt_string_view(f.room_name), opt_string_view(f.search));
    crate::ordering::lemma_select_ordered_members(v.egress_jobs, pred, egress_order_key());
    let o = select_ordered(v.egress_jobs, pred, egress_order_key());
    let pg = page(o, limit_or(f.offset, 0), limit_or(f.limit, 200));
    let start = if limit_or(f.offset, 0) < o.len() { limit_or(f.offset, 0) } else { o.len() as int };
    let r = spec_list_egress(v, f);
    assert forall|i: int| 0 <= i < r.len() implies (lookup(v.egress_jobs, egress_key(), #[trigger] r[i].egress_id) matches Some(
        row,
    ) && {
        &&& r[i].room_name == row.room_name
        &&& r[i].egress_type == row.egress_type
        &&& r[i].status == row.status
        &&& r[i].destination == row.destination
        &&& r[i].started_at == row.started_at
        &&& r[i].ended_at == row.ended_at
        &&& r[i].updated_at == row.updated_at
        &&& r[i].error == row.error
        &&& r[i].details == row.details
    }) by {
        assert(pg[i] == o[start + i]);
        let x = o[start + i];
        assert(v.egress_jobs.contains(x));
        lemma_lookup_member(v.egress_jobs, egress_key(), x);
        assert(r[i] == crate::session_store::egress_record(x));
    }
}

/// Every listed session is a stored session as it is stored: its id names a
/// stored session, and the record carries that session's room, start, end
/// and status unchanged, with the number of participants stored for it.
pub proof fn law_listed_sessions_are_stored(v: StoreView, f: SessionsFilter, now: i64)
    requires
        v.sessions.len() <= usize::MAX,
        unique_keys(v.sessions, session_key()),
    ensures
        forall|i: int|
            0 <= i < spec_list_sessions(v, f, now).len() ==> (lookup(
                v.sessions,
                session_key(),
                #[trigger] spec_list_sessions(v, f, now)[i].session_id,
            ) matches Some(row) && {
                let r = spec_list_sessions(v, f, now)[i];
                &&& r.room_name == row.room_name
                &&& r.started_at == row.started_at
                &&& r.ended_at == row.ended_at
                &&& r.status == row.status
                &&& r.participants == v.session_participants.filter(
                    |p: SessionParticipantV| p.session_id == row.session_id,
                ).len() as i64
            }),
{
    let pred = session_matches(opt_string_view(f.status), opt_string_view(f.room_name), opt_string_view(f.search));
    crate::ordering::lemma_select_ordered_members(v.sessions, pred, session_started());
    let o = select_ordered(v.sessions, pred, session_started());
    let pg = page(o, limit_or(f.offset, 0), limit_or(f.limit, 200));
    let start = if limit_or(f.offset, 0) < o.len() { limit_or(f.offset, 0) } else { o.len() as int };
    let r = spec_list_sessions(v, f, now);
    assert forall|i: int| 0 <= i < r.len() implies (lookup(v.sessions, session_key(), #[trigger] r[i].session_id) matches Some(
        row,
    ) && {
        &&& r[i].room_name == row.room_name
        &&& r[i].started_at == row.started_at
        &&& r[i].ended_at == row.ended_at
        &&& r[i].status == row.status
        &&& r[i].participants == v.session_participants.filter(
            |p: SessionParticipantV| p.session_id == row.session_id,
        ).len() as i64
    }) by {
        assert(pg[i] == o[start + i]);
        let x = o[start + i];
        assert(v.sessions.contains(x));
        lemma_lookup_member(v.sessions, session_key(), x);
        assert(r[i] == crate::session_store::session_record(x, v.session_participants, now));
        assert(crate::session_store::of_session(x.session_id) =~= (|p: SessionParticipantV| p.session_id == x.session_id));
    }
}


/// What merging one reported egress job with an id does: the stored job
/// with that id afterwards has the reported id, room (`unknown-room` when
/// none is given), type, status, destination, error and details, and was
/// last seen at `now`; each of its start, end and update times is the
/// reported one when the report has it, and the stored one otherwise; no
/// other job changes, and ids stay unique.
pub proof fn law_egress_report_merged(t: Seq<EgressRowV>, info: EgressInfoV, now: i64, other: Seq<char>)
    requires
        unique_keys(t, egress_key()),
        info.egress_id.len() > 0,
    ensures
        ({
            let before = lookup(t, egress_key(), info.egress_id);
            let after = crate::session_store::spec_upsert_egress_infos(t, seq![info], now);
            &&& unique_keys(after, egress_key())
            &&& other != info.egress_id ==> lookup(after, egress_key(), other) == lookup(t, egress_key(), other)
            &&& lookup(after, egress_key(), info.egress_id) matches Some(r) && {
                &&& r.egress_id == info.egress_id
                &&& r.room_name == if info.room_name.len() > 0 {
                    info.room_name
                } else {
                    "unknown-room"@
                }
                &&& r.egress_type == crate::text::lowercase(crate::egress::egress_source_debug(info.source_type))
                &&& r.status == crate::text::lowercase(crate::egress::egress_status_debug(info.status))
                &&& r.destination == crate::egress::spec_destination(info)
                &&& r.error == info.error
                &&& r.details == info.details
                &&& r.last_seen_at == now
                &&& r.started_at == match crate::timestamps::spec_to_optional_timestamp(info.started_at as int) {
                    Some(x) => Some(x),
                    None => match before {
                        Some(b) => b.started_at,
                        None => None,
                    },
                }
                &&& r.ended_at == match crate::timestamps::spec_to_optional_timestamp(info.ended_at as int) {
                    Some(x) => Some(x),
                    None => match before {
                        Some(b) => b.ended_at,
                        None => None,
                    },
                }
                &&& r.updated_at == match crate::timestamps::spec_to_optional_timestamp(info.updated_at as int) {
                    Some(x) => Some(x),
                    None => match before {
                        Some(b) => b.updated_at,
                        None => None,
                    },
                }
            }
        }),
{
    let one = seq![info];
    assert(one.drop_last() =~= Seq::<crate::events::EgressInfoV>::empty());
    assert(one.last() == info);
    let row = crate::egress::spec_egress_row(info, now);
    assert(crate::session_store::spec_upsert_egress_infos(t, one.drop_last(), now) == t);
    assert(crate::session_store::spec_upsert_egress_infos(t, one, now) == crate::session_store::spec_upsert_egress(
        t,
        row,
    ));
    let m = crate::session_store::merge_egress(lookup(t, egress_key(), info.egress_id), row);
    assert(m.egress_id == info.egress_id);
    lemma_upsert_unique(t, egress_key(), m);
    lemma_upsert_lookup(t, egress_key(), m);
    if other != info.egress_id {
        lemma_upsert_other(t, egress_key(), m, other);
    }
}


/// What clearing each group does: `sessions` empties the sessions and their
/// participants, `rooms` empties the room history, details and
/// participants, `egress` empties the egress jobs; each leaves the other
/// tables as they were and counts the rows of the tables it empties; any
/// other name is no group.
pub proof fn law_clear_groups(v: StoreView, other: Seq<char>)
    ensures
        spec_group_tables("sessions"@) matches Some(ts) && {
            let a = apply_writes(v, clear_writes(ts));
            &&& a.sessions.len() == 0 && a.session_participants.len() == 0
            &&& a.egress_jobs == v.egress_jobs && a.room_history == v.room_history
            &&& a.room_details == v.room_details && a.room_participants == v.room_participants
            &&& rows_in(v, ts) == v.sessions.len() + v.session_participants.len()
        },
        spec_group_tables("rooms"@) matches Some(ts) && {
            let a = apply_writes(v, clear_writes(ts));
            &&& a.room_history.len() == 0 && a.room_details.len() == 0 && a.room_participants.len() == 0
            &&& a.sessions == v.sessions && a.session_participants == v.session_participants
            &&& a.egress_jobs == v.egress_jobs
            &&& rows_in(v, ts) == v.room_history.len() + v.room_details.len() + v.room_participants.len()
        },
        spec_group_tables("egress"@) matches Some(ts) && {
            let a = apply_writes(v, clear_writes(ts));
            &&& a.egress_jobs.len() == 0
            &&& a.sessions == v.sessions && a.session_participants == v.session_participants
            &&& a.room_history == v.room_history && a.room_details == v.room_details
            &&& a.room_participants == v.room_participants
            &&& rows_in(v, ts) == v.egress_jobs.len()
        },
        other != "sessions"@ && other != "rooms"@ && other != "egress"@ ==> spec_group_tables(other) is None,
{
    reveal_strlit("sessions");
    reveal_strlit("rooms");
    reveal_strlit("egress");
    reveal_with_fuel(apply_writes, 4);
    reveal_with_fuel(rows_in, 4);
    let s = seq![TableName::SessionParticipants, TableName::Sessions];
    assert(clear_writes(s) =~= seq![RowWriteV::Clear(TableName::SessionParticipants), RowWriteV::Clear(TableName::Sessions)]);
    assert(clear_writes(s).drop_last() =~= seq![RowWriteV::Clear(TableName::SessionParticipants)]);
    assert(seq![RowWriteV::Clear(TableName::SessionParticipants)].drop_last() =~= Seq::<RowWriteV>::empty());
    assert(s.drop_last() =~= seq![TableName::SessionParticipants]);
    assert(seq![TableName::SessionParticipants].drop_last() =~= Seq::<TableName>::empty());
    let r = seq![TableName::RoomParticipants, TableName::RoomDetails, TableName::RoomHistory];
    assert(clear_writes(r) =~= seq![
        RowWriteV::Clear(TableName::RoomParticipants),
        RowWriteV::Clear(TableName::RoomDetails),
        RowWriteV::Clear(TableName::RoomHistory),
    ]);
    assert(clear_writes(r).drop_last() =~= seq![
        RowWriteV::Clear(TableName::RoomParticipants),
        RowWriteV::Clear(TableName::RoomDetails),
    ]);
    assert(clear_writes(r).drop_last().drop_last() =~= seq![RowWriteV::Clear(TableName::RoomParticipants)]);
    assert(seq![RowWriteV::Clear(TableName::RoomParticipants)].drop_last() =~= Seq::<RowWriteV>::empty());
    assert(r.drop_last() =~= seq![TableName::RoomParticipants, TableName::RoomDetails]);
    assert(r.drop_last().drop_last() =~= seq![TableName::RoomParticipants]);
    assert(seq![TableName::RoomParticipants].drop_last() =~= Seq::<TableName>::empty());
    assert("rooms"@.len() != "sessions"@.len());
    assert("rooms"@ != "sessions"@);
    assert(spec_group_tables("rooms"@) == Some(r));
    let w1 = seq![RowWriteV::Clear(TableName::RoomParticipants)];
    let w2 = w1.push(RowWriteV::Clear(TableName::RoomDetails));
    let w3 = w2.push(RowWriteV::Clear(TableName::RoomHistory));
    assert(clear_writes(r) == w3);
    assert(w3.drop_last() == w2);
    assert(w2.drop_last() == w1);
    let a1 = apply_writes(v, w1);
    assert(a1 == apply_write(v, RowWriteV::Clear(TableName::RoomParticipants)));
    let a2 = apply_writes(v, w2);
    assert(a2 == apply_write(a1, RowWriteV::Clear(TableName::RoomDetails)));
    assert(apply_writes(v, w3) == apply_write(a2, RowWriteV::Clear(TableName::RoomHistory)));
    assert(rows_in(v, r) == rows_in(v, r.drop_last()) + v.room_history.len());
    assert(rows_in(v, r.drop_last()) == rows_in(v, r.drop_last().drop_last()) + v.room_details.len());
    let g = seq![TableName::EgressJobs];
    assert("egress"@.len() != "sessions"@.len());
    assert("egress"@.len() != "rooms"@.len());
    assert("egress"@ != "sessions"@);
    assert("egress"@ != "rooms"@);
    assert(spec_group_tables("egress"@) == Some(g));
    assert(apply_writes(v, clear_writes(g)) == apply_write(v, RowWriteV::Clear(TableName::EgressJobs)));
    assert(rows_in(v, g) == rows_in(v, g.drop_last()) + v.egress_jobs.len());
    assert(clear_writes(g) =~= seq![RowWriteV::Clear(TableName::EgressJobs)]);
    assert(seq![RowWriteV::Clear(TableName::EgressJobs)].drop_last() =~= Seq::<RowWriteV>::empty());
    assert(g.drop_last() =~= Seq::<TableName>::empty());
}


/// Reconciling at `now` leaves a room that is not live with its stored
/// sid, creation time and room name; a room that was active becomes
/// inactive, its last event brought up to `now` when earlier; any other
/// room keeps its status and last event time.
pub proof fn law_reconcile_rooms_not_live(h: Seq<RoomHistoryV>, rooms: Seq<RoomDataV>, now: i64, name: Seq<char>)
    requires
        unique_keys(h, history_key()),
        !room_names(rooms).contains(name),
    ensures
        lookup(h, history_key(), name) matches Some(a) ==> (lookup(spec_reconcile(h, rooms, now), history_key(), name)
            matches Some(b) && {
            &&& b.room_sid == a.room_sid
            &&& b.created_at == a.created_at
            &&& b.room_name == a.room_name
            &&& a.status == "active"@ ==> (b.status == "inactive"@ && b.last_event_at == if a.last_event_at < now {
                now
            } else {
                a.last_event_at
            })
            &&& a.status != "active"@ ==> (b.status == a.status && b.last_event_at == a.last_event_at)
        }),
        lookup(h, history_key(), name) is None ==> lookup(spec_reconcile(h, rooms, now), history_key(), name) is None,
{
    let names = room_names(rooms);
    if has_room(rooms, name) {
        let i = choose|i: int| 0 <= i < rooms.len() && #[trigger] names_room(rooms[i], name);
        assert(names[i] == name);
    }
    lemma_reconcile_row(h, rooms, now, name);
    lemma_reconcile_upserts_row(h, rooms, now, name);
    lemma_merged_row(lookup(h, history_key(), name), rooms, now, name);
    lemma_position(h, history_key(), name);
}


/// The session `latest_active` picks is an active session of the room that
/// started no earlier than any other active session of the room; when it
/// picks none, the room has no active session.
proof fn lemma_latest_active_is_latest(s: Seq<SessionRowV>, room: Seq<char>)
    ensures
        latest_active(s, room) >= 0 ==> forall|j: int|
            0 <= j < s.len() && (#[trigger] s[j]).room_name == room && s[j].status == "active"@ ==> s[j].started_at
                <= s[latest_active(s, room)].started_at,
        latest_active(s, room) < 0 ==> forall|j: int|
            0 <= j < s.len() ==> !((#[trigger] s[j]).room_name == room && s[j].status == "active"@),
    decreases s.len(),
{
    lemma_latest_active_bounds(s, room);
    if s.len() > 0 {
        let p = s.drop_last();
        lemma_latest_active_is_latest(p, room);
        lemma_latest_active_bounds(p, room);
        let r = latest_active(p, room);
        let i = latest_active(s, room);
        let x = s.last();
        assert(x == s[s.len() - 1]);
        if r >= 0 {
            assert(p[r] == s[r]);
        }
        if i >= 0 {
            assert forall|j: int|
                0 <= j < s.len() && (#[trigger] s[j]).room_name == room && s[j].status == "active"@ implies s[j].started_at
                <= s[i].started_at by {
                if j < s.len() - 1 {
                    assert(p[j] == s[j]);
                }
            }
        } else {
            assert forall|j: int| 0 <= j < s.len() implies !((#[trigger] s[j]).room_name == room && s[j].status
                == "active"@) by {
                if j < s.len() - 1 {
                    assert(p[j] == s[j]);
                }
            }
        }
    }
}

/// When a room finishes (by an event of that kind alone) and has active
/// sessions, one of its active sessions that started last ends at the
/// event's time and no other session changes; without an active session of
/// the room, no session changes.
pub proof fn law_finish_ends_an_active_session_started_last(v: StoreView, e: WebhookEventV, now: i64)
    requires
        seq_contains(event_label(e), "room_finished"@),
        !seq_contains(event_label(e), "room_started"@),
        !seq_contains(event_label(e), "participant_joined"@),
    ensures
        ({
            let room = event_room_name(e);
            let before = v.sessions;
            let after = spec_webhook_event(v, e, now).sessions;
            &&& after.len() == before.len()
            &&& (exists|k: int| 0 <= k < before.len() && (#[trigger] before[k]).room_name == room && before[k].status
                == "active"@) ==> exists|i: int| {
                &&& 0 <= i < before.len()
                &&& (#[trigger] before[i]).room_name == room && before[i].status == "active"@
                &&& forall|j: int|
                    0 <= j < before.len() && (#[trigger] before[j]).room_name == room && before[j].status == "active"@
                        ==> before[j].started_at <= before[i].started_at
                &&& after[i].session_id == before[i].session_id && after[i].room_name == room
                &&& after[i].started_at == before[i].started_at
                &&& after[i].ended_at == Some(event_timestamp(e, now)) && after[i].status == "ended"@
                &&& forall|j: int| 0 <= j < before.len() && j != i ==> after[j] == before[j]
            }
            &&& (forall|k: int| 0 <= k < before.len() ==> !((#[trigger] before[k]).room_name == room
                && before[k].status == "active"@)) ==> after == before
        }),
{
    let room = event_room_name(e);
    law_finish_ends_latest_session(v, e, now);
    lemma_latest_active_bounds(v.sessions, room);
    lemma_latest_active_is_latest(v.sessions, room);
    let i = latest_active(v.sessions, room);
    if i >= 0 {
        let before = v.sessions;
        assert(before[i].room_name == room && before[i].status == "active"@);
    } else {
        if exists|k: int| 0 <= k < v.sessions.len() && (#[trigger] v.sessions[k]).room_name == room
            && v.sessions[k].status == "active"@ {
            let k = choose|k: int| 0 <= k < v.sessions.len() && (#[trigger] v.sessions[k]).room_name == room
                && v.sessions[k].status == "active"@;
            assert(!(v.sessions[k].room_name == room && v.sessions[k].status == "active"@));
        }
    }
}


/// After `insert_or_ignore`, the row with the new row's key is the row that
/// was there, or the new row when there was none; keys stay unique.
proof fn lemma_insert_or_ignore_lookup<V, K>(s: Seq<V>, key: spec_fn(V) -> K, row: V)
    requires
        unique_keys(s, key),
    ensures
        unique_keys(insert_or_ignore(s, key, row), key),
        lookup(insert_or_ignore(s, key, row), key, key(row)) == match lookup(s, key, key(row)) {
            Some(b) => Some(b),
            None => Some(row),
        },
{
    lemma_upsert_unique(s, key, row);
    lemma_position(s, key, key(row));
    if position(s, key, key(row)) < 0 {
        let u = s.push(row);
        crate::table::lemma_unique_position(u, key, s.len() as int);
    }
}

/// A started room (by an event that does not also finish it) has, after
/// the event, the session whose id is the room's name, `-` and the event's
/// time: the session stored under that id before, or a new active session
/// of the room started at the event's time with no end.
pub proof fn law_start_opens_session(v: StoreView, e: WebhookEventV, now: i64)
    requires
        v.wf(),
        seq_contains(event_label(e), "room_started"@),
        !seq_contains(event_label(e), "room_finished"@),
    ensures
        ({
            let room = event_room_name(e);
            let ts = event_timestamp(e, now);
            let id = room + "-"@ + crate::text::int_text(ts as int);
            &&& lookup(spec_webhook_event(v, e, now).sessions, session_key(), id) == match lookup(
                v.sessions,
                session_key(),
                id,
            ) {
                Some(b) => Some(b),
                None => Some(
                    SessionRowV { session_id: id, room_name: room, started_at: ts, ended_at: None, status: "active"@ },
                ),
            }
        }),
{
    let room = event_room_name(e);
    let ts = event_timestamp(e, now);
    let row = crate::session_store::new_session(room, ts);
    lemma_insert_or_ignore_lookup(v.sessions, session_key(), row);
    let s2 = spec_create_session(v.sessions, room, ts);
    lemma_position(s2, session_key(), row.session_id);
    lemma_position(v.sessions, session_key(), row.session_id);
    if seq_contains(event_label(e), "participant_joined"@) {
        if latest_active(s2, room) < 0 {
            assert(position(s2, session_key(), row.session_id) >= 0);
            assert(spec_create_session(s2, room, ts) == s2);
        }
    }
}

/// A participant joining (with a non-empty key) is recorded in the session
/// it joins with the time it first joined: the stored time when it had
/// joined that session before, else the event's time.
pub proof fn law_join_keeps_first_join_time(v: StoreView, e: WebhookEventV, now: i64)
    requires
        v.wf(),
        seq_contains(event_label(e), "participant_joined"@),
        event_identity(e) is Some,
    ensures
        ({
            let room = event_room_name(e);
            let ts = event_timestamp(e, now);
            let s2 = if seq_contains(event_label(e), "room_started"@) {
                spec_create_session(v.sessions, room, ts)
            } else {
                v.sessions
            };
            let sid = joined_session(s2, room, ts).1;
            let k = (sid, event_identity(e)->0);
            lookup(spec_webhook_event(v, e, now).session_participants, session_participant_key(), k) == match lookup(
                v.session_participants,
                session_participant_key(),
                k,
            ) {
                Some(b) => Some(b),
                None => Some(SessionParticipantV { session_id: sid, participant_identity: k.1, first_joined_at: ts }),
            }
        }),
{
    let room = event_room_name(e);
    let ts = event_timestamp(e, now);
    let s2 = if seq_contains(event_label(e), "room_started"@) {
        spec_create_session(v.sessions, room, ts)
    } else {
        v.sessions
    };
    let sid = joined_session(s2, room, ts).1;
    let row = new_participant(sid, event_identity(e)->0, ts);
    lemma_insert_or_ignore_lookup(v.session_participants, session_participant_key(), row);
}


/// Every listed participant of a room is a stored participant of that room
/// as it is stored: its identity names the stored row of the room, whose
/// description and update time the record carries unchanged.
pub proof fn law_listed_participants_are_stored(v: StoreView, room: Seq<char>)
    requires
        v.room_participants.len() <= usize::MAX,
        unique_keys(v.room_participants, room_participant_key()),
    ensures
        forall|i: int|
            0 <= i < spec_room_participants(v, room).len() ==> (lookup(
                v.room_participants,
                room_participant_key(),
                (room, #[trigger] spec_room_participants(v, room)[i].identity),
            ) matches Some(row) && row.data_json == spec_room_participants(v, room)[i].data_json
                && row.updated_at == spec_room_participants(v, room)[i].updated_at),
{
    crate::ordering::lemma_select_ordered_members(v.room_participants, in_room(room), participant_updated());
    lemma_select_ordered(v.room_participants, in_room(room), participant_updated());
    let o = select_ordered(v.room_participants, in_room(room), participant_updated());
    let r = spec_room_participants(v, room);
    assert forall|i: int| 0 <= i < r.len() implies (lookup(
        v.room_participants,
        room_participant_key(),
        (room, #[trigger] r[i].identity),
    ) matches Some(row) && row.data_json == r[i].data_json && row.updated_at == r[i].updated_at) by {
        let x = o[i];
        assert(v.room_participants.contains(x));
        assert(in_room(room)(x));
        lemma_lookup_member(v.room_participants, room_participant_key(), x);
        assert(room_participant_key()(x) == (room, r[i].identity));
    }
}

/// Every row of the room history listing is the stored row of its room, and
/// no room is listed twice.
pub proof fn law_listed_history_is_stored(v: StoreView, limit: Option<u32>)
    requires
        v.room_history.len() <= usize::MAX,
        unique_keys(v.room_history, history_key()),
    ensures
        forall|i: int|
            0 <= i < spec_room_history(v, limit).len() ==> lookup(
                v.room_history,
                history_key(),
                (#[trigger] spec_room_history(v, limit)[i]).room_name,
            ) == Some(spec_room_history(v, limit)[i]),
        forall|i: int, j: int|
            0 <= i < j < spec_room_history(v, limit).len() ==> spec_room_history(v, limit)[i].room_name
                != spec_room_history(v, limit)[j].room_name,
{
    crate::ordering::lemma_select_ordered_members(v.room_history, any_row(), history_last_event());
    lemma_select_ordered_unique(v.room_history, any_row(), history_last_event(), history_key());
    let o = select_ordered(v.room_history, any_row(), history_last_event());
    let r = spec_room_history(v, limit);
    assert forall|i: int| 0 <= i < r.len() implies lookup(v.room_history, history_key(), (#[trigger] r[i]).room_name)
        == Some(r[i]) by {
        assert(r[i] == o[i]);
        assert(v.room_history.contains(o[i]));
        lemma_lookup_member(v.room_history, history_key(), o[i]);
    }
    assert forall|i: int, j: int| 0 <= i < j < r.len() implies r[i].room_name != r[j].room_name by {
        assert(r[i] == o[i]);
        assert(r[j] == o[j]);
        assert(history_key()(o[i]) != history_key()(o[j]));
    }
}


/// The egress history comes latest first by each job's start time, or by
/// when it was last seen for a job that has none: of two listed jobs, the
/// stored one listed first has the later or equal such time.
pub proof fn law_listed_egress_latest_first(v: StoreView, f: EgressFilter)
    requires
        v.egress_jobs.len() <= usize::MAX,
        unique_keys(v.egress_jobs, egress_key()),
    ensures
        forall|i: int, j: int|
            0 <= i < j < spec_list_egress(v, f).len() ==> (lookup(
                v.egress_jobs,
                egress_key(),
                #[trigger] spec_list_egress(v, f)[i].egress_id,
            ) matches Some(a) && lookup(v.egress_jobs, egress_key(), #[trigger] spec_list_egress(v, f)[j].egress_id)
                matches Some(b) && match a.started_at {
                Some(x) => x,
                None => a.last_seen_at,
            } >= match b.started_at {
                Some(y) => y,
                None => b.last_seen_at,
            }),
{
    let pred = egress_matches(opt_string_view(f.status), opt_string_view(f.room_name), opt_string_view(f.search));
    crate::ordering::lemma_select_ordered_members(v.egress_jobs, pred, egress_order_key());
    lemma_select_ordered(v.egress_jobs, pred, egress_order_key());
    let o = select_ordered(v.egress_jobs, pred, egress_order_key());
    let pg = page(o, limit_or(f.offset, 0), limit_or(f.limit, 200));
    let start = if limit_or(f.offset, 0) < o.len() { limit_or(f.offset, 0) } else { o.len() as int };
    let r = spec_list_egress(v, f);
    assert forall|i: int, j: int| 0 <= i < j < r.len() implies (lookup(
        v.egress_jobs,
        egress_key(),
        #[trigger] r[i].egress_id,
    ) matches Some(a) && lookup(v.egress_jobs, egress_key(), #[trigger] r[j].egress_id) matches Some(b) && match a.started_at {
        Some(x) => x,
        None => a.last_seen_at,
    } >= match b.started_at {
        Some(y) => y,
        None => b.last_seen_at,
    }) by {
        assert(pg[i] == o[start + i]);
        assert(pg[j] == o[start + j]);
        let x = o[start + i];
        let y = o[start + j];
        assert(v.egress_jobs.contains(x));
        assert(v.egress_jobs.contains(y));
        lemma_lookup_member(v.egress_jobs, egress_key(), x);
        lemma_lookup_member(v.egress_jobs, egress_key(), y);
        assert(egress_order_key()(x) >= egress_order_key()(y));
    }
}


/// A live participant goes by `id`: its identity is `id`, or it has no
/// identity and its sid is `id`.
pub open spec fn goes_by(p: crate::events::ParticipantDataV, id: Seq<char>) -> bool {
    if p.identity.len() > 0 {
        p.identity == id
    } else {
        p.sid == id
    }
}

/// Some live participant goes by `id`.
pub open spec fn live_under(live: Seq<crate::events::ParticipantData>, id: Seq<char>) -> bool {
    exists|m: int| 0 <= m < live.len() && #[trigger] goes_by(live[m]@, id)
}

/// `text` is the description of a stored participant no live participant
/// goes by.
pub open spec fn offline_description(
    live: Seq<crate::events::ParticipantData>,
    stored: Seq<crate::records::ParticipantRecord>,
    text: Seq<char>,
) -> bool {
    exists|j: int| 0 <= j < stored.len() && !live_under(live, (#[trigger] stored[j])@.identity) && text == stored[j]@.data_json
}

/// The offline participants of a room are exactly the stored ones no live
/// participant goes by: each such stored record gives its description, and
/// every description given is that of such a stored record.
pub proof fn law_offline_participants(
    live: Seq<crate::events::ParticipantData>,
    stored: Seq<crate::records::ParticipantRecord>,
)
    ensures
        ({
            let r = crate::api::spec_offline_participants(live, stored);
            &&& r.len() <= stored.len()
            &&& forall|j: int|
                0 <= j < stored.len() && !live_under(live, stored[j]@.identity) ==> r.contains(
                    #[trigger] stored[j]@.data_json,
                )
            &&& forall|k: int| 0 <= k < r.len() ==> offline_description(live, stored, #[trigger] r[k])
        }),
{
    let sv = crate::api::stored_view(stored);
    let keys = crate::api::live_keys(live);
    let pred = crate::api::not_live(keys);
    let fl = sv.filter(pred);
    let r = crate::api::spec_offline_participants(live, stored);
    sv.lemma_filter_len(pred);
    assert(sv.len() == stored.len());
    assert(r.len() == fl.len());
    assert forall|id: Seq<char>| keys.contains(id) <==> live_under(live, id) by {
        if keys.contains(id) {
            let m = choose|m: int| 0 <= m < keys.len() && keys[m] == id;
            assert(goes_by(live[m]@, id));
        }
        if live_under(live, id) {
            let m = choose|m: int| 0 <= m < live.len() && #[trigger] goes_by(live[m]@, id);
            assert(keys[m] == id);
        }
    }
    assert forall|j: int| 0 <= j < stored.len() && !live_under(live, stored[j]@.identity) implies r.contains(
        #[trigger] stored[j]@.data_json,
    ) by {
        assert(sv[j] == stored[j]@);
        assert(pred(sv[j]));
        sv.lemma_filter_contains(pred, j);
        let q = choose|q: int| 0 <= q < fl.len() && fl[q] == sv[j];
        assert(r[q] == stored[j]@.data_json);
    }
    assert forall|k: int| 0 <= k < r.len() implies offline_description(live, stored, #[trigger] r[k]) by {
        sv.lemma_filter_pred(pred, k);
        assert(fl.contains(fl[k]));
        sv.lemma_filter_contains_rev(pred, fl[k]);
        let j = choose|j: int| 0 <= j < sv.len() && sv[j] == fl[k];
        assert(sv[j] == stored[j]@);
        assert(r[k] == fl[k].data_json);
        assert(pred(fl[k]));
        assert(!keys.contains(fl[k].identity));
        assert(!live_under(live, stored[j]@.identity));
        assert(0 <= j < stored.len() && !live_under(live, stored[j]@.identity) && r[k] == stored[j]@.data_json);
    }
}


/// The overview counts an ingress as active exactly when it is buffering
/// (status 1) or publishing (status 2): one more ingress adds one to the
/// count when it is, and nothing otherwise; the count never exceeds the
/// number of ingresses. Likewise one more room adds its participants to the
/// participant total.
pub proof fn law_overview_counts(
    statuses: Seq<i32>,
    status: i32,
    rooms: Seq<RoomDataV>,
    room: RoomDataV,
)
    ensures
        crate::api::active_ingress_count(statuses.push(status)) == crate::api::active_ingress_count(statuses) + if status
            == 1 || status == 2 {
            1int
        } else {
            0int
        },
        crate::api::active_ingress_count(statuses) <= statuses.len(),
        crate::api::participant_total(rooms.push(room)) == crate::api::participant_total(rooms) + room.num_participants,
    decreases statuses.len(),
{
    assert(statuses.push(status).drop_last() =~= statuses);
    assert(rooms.push(room).drop_last() =~= rooms);
    if statuses.len() > 0 {
        law_overview_counts(statuses.drop_last(), statuses.last(), rooms, room);
        assert(statuses.drop_last().push(statuses.last()) =~= statuses);
    }
}


/// A received webhook that names a room and a participant (by identity, or
/// by sid when the identity is empty), recorded with the participant's
/// description, leaves that description read back for the room and
/// participant, stamped with the time, and marked live unless the event is
/// a participant leaving.
pub proof fn law_webhook_participant_read_back(
    v: StoreView,
    e: WebhookEventV,
    room_json: Option<Seq<char>>,
    participant_json: Seq<char>,
    now: i64,
)
    requires
        v.wf(),
        e.room is Some,
        e.room->0.name.len() > 0,
        e.participant is Some,
        (if e.participant->0.identity.len() > 0 {
            e.participant->0.identity
        } else {
            e.participant->0.sid
        }).len() > 0,
    ensures
        ({
            let key = if e.participant->0.identity.len() > 0 {
                e.participant->0.identity
            } else {
                e.participant->0.sid
            };
            lookup(
                spec_record_webhook(v, e, room_json, Some(participant_json), now).room_participants,
                room_participant_key(),
                (e.room->0.name, key),
            ) == Some(
                RoomParticipantV {
                    room_name: e.room->0.name,
                    identity: key,
                    data_json: participant_json,
                    is_live: !seq_contains(event_label(e), "participant_left"@),
                    updated_at: now,
                },
            )
        }),
{
    law_event_keeps_keys_unique(v, e, now);
    let v1 = spec_webhook_event(v, e, now);
    assert(v1.room_participants == v.room_participants);
    let key = if e.participant->0.identity.len() > 0 {
        e.participant->0.identity
    } else {
        e.participant->0.sid
    };
    let row = RoomParticipantV {
        room_name: e.room->0.name,
        identity: key,
        data_json: participant_json,
        is_live: !seq_contains(event_label(e), "participant_left"@),
        updated_at: now,
    };
    lemma_upsert_lookup(v.room_participants, room_participant_key(), row);
}

} // verus!




