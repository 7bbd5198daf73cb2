//! What the dashboard reads off a webhook event, and the bounded log of the
//! most recent events.
use vstd::prelude::*;
use std::collections::VecDeque;
use crate::events::{ParticipantData, ParticipantDataV, WebhookEventData, WebhookEventV};
use crate::text::{ascii_lower, plain_text, concat, debug_format, debug_text, lowercase, seq_contains, seq_starts_with, to_lowercase};
use livekit_api::webhooks::WebhookReceiver;
use livekit_protocol::WebhookEvent;
use crate::timestamps::{normalize_timestamp, spec_normalize_timestamp};

verus! {

/// The checker of webhook signatures of livekit-api.
#[verifier::external_type_specification]
#[verifier::external_body]
pub struct ExWebhookReceiver(livekit_api::webhooks::WebhookReceiver);

/// A webhook event of livekit-protocol.
#[verifier::external_type_specification]
#[verifier::external_body]
pub struct ExWebhookEvent(livekit_protocol::WebhookEvent);

/// `std::str::from_utf8`: the text the bytes encode when they are valid
/// UTF-8, else the error's message.
#[verifier::external_body]
fn utf8_text(bytes: &[u8]) -> (r: Result<&str, String>)
    ensures
        r is Ok <==> vstd::utf8::valid_utf8(bytes@),
        r matches Ok(text) ==> text@ == vstd::utf8::decode_utf8(bytes@),
{
    std::str::from_utf8(bytes).map_err(|e| e.to_string())
}

/// Whether a text is the JSON of a webhook event, as livekit-protocol's
/// `WebhookEvent` reads it with `serde_json::from_str`.
pub uninterp spec fn parses_as_webhook_event(body: Seq<char>) -> bool;

/// The `sha256` claim in the payload of a LiveKit access token (a JWT),
/// base64-decoded; `None` when the token has no readable payload or claim.
pub uninterp spec fn token_sha256_claim(token: Seq<char>) -> Option<Seq<u8>>;

/// The SHA-256 digest of the bytes.
pub uninterp spec fn sha256(bytes: Seq<u8>) -> Seq<u8>;

/// `WebhookReceiver::receive` of livekit-api: the event the body holds when
/// the authorization token is valid and signs the body's SHA-256, else the
/// error's message. It succeeds only on a body that parses as an event (the
/// body is parsed last, after the token's check) and only when the token's
/// `sha256` claim is the digest of the body's UTF-8 bytes. Nothing more is stated of
/// which comes back: the token's validity depends on the clock, and the
/// event is an outside value whose contents are not described here.
#[verifier::external_body]
fn receive_event(receiver: &WebhookReceiver, body: &str, auth_token: &str) -> (r: Result<WebhookEvent, String>)
    ensures
        r is Ok ==> parses_as_webhook_event(body@),
        r is Ok ==> token_sha256_claim(auth_token@) == Some(sha256(vstd::utf8::encode_utf8(body@))),
{
    receiver.receive(body, auth_token).map_err(|e| e.to_string())
}

/// The event a webhook request carries, when its body is UTF-8 text and its
/// authorization checks out; otherwise the reason the API reports: an
/// invalid body, or a failed validation. The text handed to the check is
/// the body decoded and the token is the authorization given, so an
/// accepted request's body parses as an event and is the one the token
/// signs.
pub fn verify_webhook(receiver: &WebhookReceiver, body: &[u8], auth_token: &str) -> (r: Result<WebhookEvent, String>)
    ensures
        r is Ok ==> vstd::utf8::valid_utf8(body@) && parses_as_webhook_event(vstd::utf8::decode_utf8(body@)),
        r is Ok ==> token_sha256_claim(auth_token@) == Some(sha256(body@)),
        !vstd::utf8::valid_utf8(body@) ==> (r matches Err(m) && seq_starts_with(m@, "Invalid UTF-8 body: "@)),
        vstd::utf8::valid_utf8(body@) ==> (r matches Err(m) ==> seq_starts_with(
            m@,
            "Webhook validation failed: "@,
        )),
{
    let text = match utf8_text(body) {
        Ok(text) => text,
        Err(e) => {
            let m = concat("Invalid UTF-8 body: ", e.as_str());
            assert(m@.subrange(0, "Invalid UTF-8 body: "@.len() as int) =~= "Invalid UTF-8 body: "@);
            return Err(m);
        },
    };
    match receive_event(receiver, text, auth_token) {
        Ok(event) => {
            proof {
                vstd::utf8::decode_utf8_encode_utf8(body@);
            }
            Ok(event)
        },
        Err(e) => {
            let m = concat("Webhook validation failed: ", e.as_str());
            assert(m@.subrange(0, "Webhook validation failed: "@.len() as int) =~= "Webhook validation failed: "@);
            Err(m)
        },
    }
}

/// The number of events the log keeps.
pub const MAX_EVENTS: usize = 500;

/// The key a participant is known by: its identity, or its sid when the
/// identity is empty.
pub open spec fn spec_participant_key(p: ParticipantDataV) -> Seq<char> {
    if p.identity.len() > 0 {
        p.identity
    } else {
        p.sid
    }
}

/// The room an event concerns; `unknown-room` when it names none.
pub open spec fn event_room_name(e: WebhookEventV) -> Seq<char> {
    match e.room {
        Some(r) => if r.name.len() > 0 {
            r.name
        } else {
            "unknown-room"@
        },
        None => "unknown-room"@,
    }
}

/// The sid of the room an event concerns; `-` when it gives none.
pub open spec fn event_room_sid(e: WebhookEventV) -> Seq<char> {
    match e.room {
        Some(r) => if r.sid.len() > 0 {
            r.sid
        } else {
            "-"@
        },
        None => "-"@,
    }
}

/// The key of the participant an event concerns, when it has a non-empty one.
pub open spec fn event_identity(e: WebhookEventV) -> Option<Seq<char>> {
    match e.participant {
        Some(p) => if spec_participant_key(p).len() > 0 {
            Some(spec_participant_key(p))
        } else {
            None
        },
        None => None,
    }
}

/// The event's kind as the dashboard matches on it: the `Debug` text of the
/// event name, lower-cased.
pub open spec fn event_label(e: WebhookEventV) -> Seq<char> {
    lowercase(debug_text(e.event))
}

/// The event's time in seconds; `now` when the event carries none.
pub open spec fn event_timestamp(e: WebhookEventV, now: i64) -> i64 {
    let t = spec_normalize_timestamp(e.created_at as int);
    if t == 0 {
        now
    } else {
        t as i64
    }
}

/// The key a participant is known by (see `spec_participant_key`).
pub fn participant_key(p: &ParticipantData) -> (r: String)
    ensures
        r@ == spec_participant_key(p@),
{
    if !p.identity.as_str().is_empty() {
        p.identity.clone()
    } else {
        p.sid.clone()
    }
}

/// The room an event concerns (see `event_room_name`).
pub fn room_name_of(e: &WebhookEventData) -> (r: String)
    ensures
        r@ == event_room_name(e@),
{
    match &e.room {
        Some(room) => if !room.name.as_str().is_empty() {
            room.name.clone()
        } else {
            "unknown-room".to_owned()
        },
        None => "unknown-room".to_owned(),
    }
}

/// The sid of the room an event concerns (see `event_room_sid`).
pub fn room_sid_of(e: &WebhookEventData) -> (r: String)
    ensures
        r@ == event_room_sid(e@),
{
    match &e.room {
        Some(room) => if !room.sid.as_str().is_empty() {
            room.sid.clone()
        } else {
            "-".to_owned()
        },
        None => "-".to_owned(),
    }
}

/// The key of the participant an event concerns (see `event_identity`).
pub fn identity_of(e: &WebhookEventData) -> (r: Option<String>)
    ensures
        match r {
            Some(s) => event_identity(e@) == Some(s@),
            None => event_identity(e@) is None,
        },
{
    match &e.participant {
        Some(p) => {
            let k = participant_key(p);
            if !k.as_str().is_empty() {
                Some(k)
            } else {
                None
            }
        },
        None => None,
    }
}

/// The event's kind as the dashboard matches on it (see `event_label`).
pub fn label_of(e: &WebhookEventData) -> (r: String)
    ensures
        r@ == event_label(e@),
        plain_text(e.event@) ==> r@ == ascii_lower(seq!['"'] + e.event@ + seq!['"']),
{
    let quoted = debug_format(e.event.as_str());
    proof {
        if plain_text(e.event@) {
            let q = quoted@;
            assert forall|i: int| 0 <= i < q.len() implies (#[trigger] q[i] as u32) < 128 by {
                if 0 < i < q.len() - 1 {
                    assert(q[i] == e.event@[i - 1]);
                }
            }
        }
    }
    to_lowercase(quoted.as_str())
}

/// The event's time in seconds, `now` when it carries none.
pub fn timestamp_of(e: &WebhookEventData, now: i64) -> (r: i64)
    ensures
        r == event_timestamp(e@, now),
{
    let t = normalize_timestamp(e.created_at);
    if t == 0 {
        now
    } else {
        t
    }
}

/// The participant snapshot an event asks to store: its room, the
/// participant's key, and whether the participant is still live (any event
/// but a `participant_left` one). Only for events that name a room and a
/// participant with a non-empty key.
pub open spec fn spec_participant_update(e: WebhookEventV) -> Option<(Seq<char>, Seq<char>, bool)> {
    match (e.room, e.participant) {
        (Some(r), Some(p)) => if r.name.len() > 0 && spec_participant_key(p).len() > 0 {
            Some((r.name, spec_participant_key(p), !seq_contains(event_label(e), "participant_left"@)))
        } else {
            None
        },
        _ => None,
    }
}

/// The participant snapshot an event asks to store (see
/// `spec_participant_update`).
pub fn participant_update(e: &WebhookEventData) -> (r: Option<(String, String, bool)>)
    ensures
        match r {
            Some((room, key, live)) => spec_participant_update(e@) == Some((room@, key@, live)),
            None => spec_participant_update(e@) is None,
        },
{
    match (&e.room, &e.participant) {
        (Some(room), Some(p)) => {
            if room.name.as_str().is_empty() {
                return None;
            }
            let key = participant_key(p);
            if key.as_str().is_empty() {
                return None;
            }
            let label = label_of(e);
            let live = !crate::text::contains(label.as_str(), "participant_left");
            Some((room.name.clone(), key, live))
        },
        _ => None,
    }
}

/// The most recent events, oldest first, never more than `MAX_EVENTS`.
pub struct EventLog<T> {
    events: VecDeque<T>,
}

impl<T> View for EventLog<T> {
    type V = Seq<T>;

    closed spec fn view(&self) -> Seq<T> {
        self.events@
    }
}

/// The last `MAX_EVENTS` of `s`.
pub open spec fn keep_recent<T>(s: Seq<T>) -> Seq<T> {
    if s.len() > MAX_EVENTS {
        s.subrange(s.len() - MAX_EVENTS, s.len() as int)
    } else {
        s
    }
}

impl<T> EventLog<T> {
    /// The log never holds more than `MAX_EVENTS`.
    #[verifier::type_invariant]
    spec fn bounded(&self) -> bool {
        self.events@.len() <= MAX_EVENTS
    }

    /// An empty log.
    pub fn new() -> (log: EventLog<T>)
        ensures
            log@ == Seq::<T>::empty(),
    {
        EventLog { events: VecDeque::with_capacity(MAX_EVENTS) }
    }

    /// Appends an event, dropping the oldest one when the log is full.
    pub fn push(&mut self, event: T)
        ensures
            final(self)@ == keep_recent(old(self)@.push(event)),
            final(self)@.len() <= MAX_EVENTS,
    {
        proof {
            use_type_invariant(&*self);
        }
        let mut events: VecDeque<T> = VecDeque::new();
        std::mem::swap(&mut events, &mut self.events);
        if events.len() >= MAX_EVENTS {
            events.pop_front();
        }
        events.push_back(event);
        proof {
            let s = old(self)@.push(event);
            if old(self)@.len() >= MAX_EVENTS {
                assert(events@ =~= s.subrange(s.len() - MAX_EVENTS, s.len() as int));
            } else {
                assert(events@ =~= s);
            }
        }
        self.events = events;
    }

    /// The number of events held.
    pub fn len(&self) -> (n: usize)
        ensures
            n == self@.len(),
    {
        self.events.len()
    }

    /// The event at position `i`, oldest first.
    pub fn get(&self, i: usize) -> (e: &T)
        requires
            i < self@.len(),
        ensures
            *e == self@[i as int],
    {
        &self.events[i]
    }
}

} // verus!
