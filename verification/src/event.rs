//! The core [`IndexedEvent`] type, its decoding from a raw RPC event, and
//! the filter that selects events.

use vstd::prelude::*;
use vstd::std_specs::convert::FromSpecImpl;

use crate::rpc::RpcEventInfo;
use crate::scval::{display_view, scval_from_base64, view_items, ScValDecoded, ScValView};
use crate::text::same_text;

verus! {

/// The kind of Soroban event.
#[derive(Debug, Clone, Copy, PartialEq, Eq, Structural)]
pub enum EventKind {
    /// Emitted by a contract via `env.events().publish(...)`
    Contract,
    /// System-level events (token transfers, etc.)
    System,
    /// Diagnostic events (only when diagnostic mode enabled on the node)
    Diagnostic,
}

/// The kind that an RPC event type names: `system`, `diagnostic`, and
/// anything else counts as a contract event.
pub open spec fn kind_named(s: Seq<char>) -> EventKind {
    if s == "system"@ {
        EventKind::System
    } else if s == "diagnostic"@ {
        EventKind::Diagnostic
    } else {
        EventKind::Contract
    }
}

/// The lower-case name of each kind.
pub open spec fn kind_name(k: EventKind) -> Seq<char> {
    match k {
        EventKind::Contract => "contract"@,
        EventKind::System => "system"@,
        EventKind::Diagnostic => "diagnostic"@,
    }
}

impl<'a> From<&'a str> for EventKind {
    fn from(s: &'a str) -> (r: Self) {
        if same_text(s, "system") {
            EventKind::System
        } else if same_text(s, "diagnostic") {
            EventKind::Diagnostic
        } else {
            EventKind::Contract
        }
    }
}

impl<'a> FromSpecImpl<&'a str> for EventKind {
    open spec fn obeys_from_spec() -> bool {
        true
    }

    open spec fn from_spec(s: &'a str) -> EventKind {
        kind_named(s@)
    }
}

impl EventKind {
    /// The lower-case name of the kind (`contract`, `system`, `diagnostic`).
    pub fn as_str(&self) -> (r: &'static str)
        ensures
            r@ == kind_name(*self),
    {
        match self {
            EventKind::Contract => "contract",
            EventKind::System => "system",
            EventKind::Diagnostic => "diagnostic",
        }
    }
}

/// Each kind's name names that kind again.
pub proof fn lemma_kind_name_round_trip(k: EventKind)
    ensures
        kind_named(kind_name(k)) == k,
{
    reveal_strlit("contract");
    reveal_strlit("system");
    reveal_strlit("diagnostic");
    assert("contract"@.len() == 8);
    assert("system"@.len() == 6);
    assert("diagnostic"@.len() == 10);
}

// ─── Events ──────────────────────────────────────────────────────────────────

/// An instant: whole seconds since the UNIX epoch and the nanoseconds past them.
#[derive(Debug, Clone, Copy, PartialEq, Eq, Structural)]
pub struct LedgerTime {
    pub unix_seconds: i64,
    pub subsec_nanos: u32,
}

/// A fully decoded Soroban contract event as indexed by this library.
///
/// Both topics and value are decoded from base64 XDR ScVal into
/// [`ScValDecoded`].
#[derive(Debug, Clone)]
pub struct IndexedEvent {
    /// The unique event ID from the RPC (e.g. "0000859036408881152-0000000003")
    pub id: String,
    /// Opaque paging token — use this as a cursor for the next RPC call
    pub paging_token: String,
    /// Contract that emitted the event
    pub contract_id: String,
    /// The ledger sequence number in which this event was emitted
    pub ledger: u32,
    /// Wall-clock time of the ledger close
    pub ledger_closed_at: LedgerTime,
    /// The transaction hash that produced this event
    pub tx_hash: Option<String>,
    /// Event type: contract / system / diagnostic
    pub kind: EventKind,
    /// Whether the event came from a successful contract call
    pub in_successful_call: bool,
    /// Decoded topics (up to 4 ScVal entries)
    pub topics: Vec<ScValDecoded>,
    /// Decoded event data / value
    pub value: ScValDecoded,
    /// Raw base64 topics (preserved for downstream use)
    pub raw_topics: Vec<String>,
    /// Raw base64 value (preserved for downstream use)
    pub raw_value: String,
}

/// The decoded views of base64 topics.
pub open spec fn decoded_topics(raw: Seq<String>) -> Seq<ScValView> {
    raw.map_values(|t: String| scval_from_base64(t@))
}

/// The name of an event whose topics are `topics`: its first topic as
/// `display` renders it, or `<unnamed>` when it has none.
pub open spec fn event_name_of(topics: Seq<ScValView>) -> Seq<char> {
    if topics.len() > 0 {
        display_view(topics[0])
    } else {
        "<unnamed>"@
    }
}

/// Whether the first of `topics` is the symbol or string `name`.
pub open spec fn first_topic_is(topics: Seq<ScValView>, name: Seq<char>) -> bool {
    topics.len() > 0 && match topics[0] {
        ScValView::Symbol(s) => s == name,
        ScValView::String(s) => s == name,
        _ => false,
    }
}

/// Whether `e` is `raw` decoded, with the ledger closing at `closed_at`.
pub open spec fn decodes_from(e: IndexedEvent, raw: RpcEventInfo, closed_at: LedgerTime) -> bool {
    &&& e.id == raw.id
    &&& e.paging_token == raw.paging_token
    &&& e.contract_id == raw.contract_id
    &&& e.ledger == raw.ledger
    &&& e.ledger_closed_at == closed_at
    &&& e.tx_hash == raw.tx_hash
    &&& e.kind == kind_named(raw.event_type@)
    &&& e.in_successful_call == raw.in_successful_contract_call
    &&& view_items(e.topics@) == decoded_topics(raw.topic@)
    &&& e.value@ == scval_from_base64(raw.value@)
    &&& e.raw_topics == raw.topic
    &&& e.raw_value == raw.value
}

/// A decoded event keeps every field of the raw event it comes from: its
/// id, paging token, emitting contract, ledger, transaction, success flag and
/// raw text, decodes each topic and the value from their own base64 text,
/// and names the kind that the raw event type names.
pub proof fn lemma_decoded_event_fields(e: IndexedEvent, raw: RpcEventInfo, t: LedgerTime)
    requires
        decodes_from(e, raw, t),
    ensures
        e.id == raw.id,
        e.paging_token == raw.paging_token,
        e.contract_id == raw.contract_id,
        e.ledger == raw.ledger,
        e.ledger_closed_at == t,
        e.tx_hash == raw.tx_hash,
        e.in_successful_call == raw.in_successful_contract_call,
        e.raw_topics == raw.topic,
        e.raw_value == raw.value,
        e.topics@.len() == raw.topic@.len(),
        forall|i: int| 0 <= i < e.topics@.len() ==> (#[trigger] e.topics@[i])@ == scval_from_base64(raw.topic@[i]@),
        e.value@ == scval_from_base64(raw.value@),
        raw.event_type@ == "system"@ ==> e.kind == EventKind::System,
        raw.event_type@ == "diagnostic"@ ==> e.kind == EventKind::Diagnostic,
        raw.event_type@ != "system"@ && raw.event_type@ != "diagnostic"@ ==> e.kind == EventKind::Contract,
{
    crate::scval::lemma_view_items(e.topics@);
    assert(decoded_topics(raw.topic@).len() == raw.topic@.len());
    assert forall|i: int| 0 <= i < e.topics@.len() implies (#[trigger] e.topics@[i])@ == scval_from_base64(
        raw.topic@[i]@,
    ) by {
        assert(view_items(e.topics@)[i] == e.topics@[i]@);
        assert(decoded_topics(raw.topic@)[i] == scval_from_base64(raw.topic@[i]@));
    }
    reveal_strlit("system");
    reveal_strlit("diagnostic");
    assert("system"@.len() == 6);
    assert("diagnostic"@.len() == 10);
}

/// The name for what chrono's `DateTime::parse_from_rfc3339` makes of a
/// text: its instant as UNIX seconds and nanoseconds, or `None` where the
/// text is not RFC 3339.
pub uninterp spec fn rfc3339_instant(text: Seq<char>) -> Option<(i64, u32)>;

/// Calls chrono's `DateTime::parse_from_rfc3339` and reads the instant with
/// `timestamp` and `timestamp_subsec_nanos`. Claimed: the result is the named
/// function of the text.
#[verifier::external_body]
fn parse_rfc3339(text: &str) -> (r: Option<(i64, u32)>)
    ensures
        r == rfc3339_instant(text@),
{
    match chrono::DateTime::parse_from_rfc3339(text) {
        Ok(dt) => Some((dt.timestamp(), dt.timestamp_subsec_nanos())),
        Err(_) => None,
    }
}

/// Declares `std::time::SystemTime`, carried opaquely.
#[verifier::external_type_specification]
#[verifier::external_body]
pub struct ExSystemTime(std::time::SystemTime);

/// Calls `SystemTime::now`. Nothing is claimed of the result: it is the clock.
#[verifier::external_body]
fn system_now() -> std::time::SystemTime {
    std::time::SystemTime::now()
}

/// Calls chrono's `From<SystemTime> for DateTime<Utc>` (which counts a
/// clock before 1970 as negative seconds rather than failing) and reads the
/// instant with `timestamp` and `timestamp_subsec_nanos`. Nothing is claimed
/// of the result.
#[verifier::external_body]
fn utc_instant(t: std::time::SystemTime) -> LedgerTime {
    let dt: chrono::DateTime<chrono::Utc> = chrono::DateTime::from(t);
    LedgerTime { unix_seconds: dt.timestamp(), subsec_nanos: dt.timestamp_subsec_nanos() }
}

impl IndexedEvent {
    /// Decodes a raw RPC event whose ledger closed at `closed_at`: topics and
    /// value are decoded from base64 XDR, the raw text is kept beside them.
    pub fn from_raw(raw: RpcEventInfo, closed_at: LedgerTime) -> (r: IndexedEvent)
        ensures
            decodes_from(r, raw, closed_at),
            r.ledger_closed_at == closed_at,
            r.id == raw.id,
            r.paging_token == raw.paging_token,
            r.contract_id == raw.contract_id,
            r.ledger == raw.ledger,
            r.tx_hash == raw.tx_hash,
            r.in_successful_call == raw.in_successful_contract_call,
            r.raw_topics == raw.topic,
            r.raw_value == raw.value,
            r.topics@.len() == raw.topic@.len(),
            forall|i: int| 0 <= i < r.topics@.len() ==> (#[trigger] r.topics@[i])@ == scval_from_base64(raw.topic@[i]@),
            r.value@ == scval_from_base64(raw.value@),
            raw.event_type@ == "system"@ ==> r.kind == EventKind::System,
            raw.event_type@ == "diagnostic"@ ==> r.kind == EventKind::Diagnostic,
            raw.event_type@ != "system"@ && raw.event_type@ != "diagnostic"@ ==> r.kind == EventKind::Contract,
    {
        let mut topics: Vec<ScValDecoded> = Vec::new();
        let mut i: usize = 0;
        while i < raw.topic.len()
            invariant
                i <= raw.topic@.len(),
                view_items(topics@) == decoded_topics(raw.topic@.take(i as int)),
            decreases raw.topic@.len() - i,
        {
            let t = ScValDecoded::from_base64(raw.topic[i].as_str());
            proof {
                assert(topics@.push(t).drop_last() =~= topics@);
                assert(decoded_topics(raw.topic@.take(i + 1)) =~= decoded_topics(raw.topic@.take(i as int)).push(
                    scval_from_base64(raw.topic@[i as int]@),
                ));
            }
            topics.push(t);
            i = i + 1;
        }
        assert(raw.topic@.take(raw.topic@.len() as int) =~= raw.topic@);
        let value = ScValDecoded::from_base64(raw.value.as_str());
        let kind = EventKind::from(raw.event_type.as_str());
        let ghost raw_copy = raw;
        let r = IndexedEvent {
            id: raw.id,
            paging_token: raw.paging_token,
            contract_id: raw.contract_id,
            ledger: raw.ledger,
            ledger_closed_at: closed_at,
            tx_hash: raw.tx_hash,
            kind,
            in_successful_call: raw.in_successful_contract_call,
            topics,
            value,
            raw_topics: raw.topic,
            raw_value: raw.value,
        };
        proof { lemma_decoded_event_fields(r, raw_copy, closed_at); }
        r
    }

    /// Convenience: get the first topic as a display string (usually the
    /// event name/symbol), or `<unnamed>` when there is no topic.
    pub fn event_name(&self) -> (r: String)
        ensures
            r@ == event_name_of(view_items(self.topics@)),
    {
        proof { crate::scval::lemma_view_items(self.topics@); }
        if self.topics.len() > 0 {
            self.topics[0].display()
        } else {
            "<unnamed>".to_owned()
        }
    }

    /// Returns true if the first topic is the symbol or string `name`.
    /// E.g. `event.matches_topic("transfer")` checks if topic[0] is Symbol("transfer").
    pub fn matches_topic(&self, name: &str) -> (r: bool)
        ensures
            r == first_topic_is(view_items(self.topics@), name@),
    {
        proof { crate::scval::lemma_view_items(self.topics@); }
        if self.topics.len() == 0 {
            return false;
        }
        match &self.topics[0] {
            ScValDecoded::Symbol(s) => same_text(s.as_str(), name),
            ScValDecoded::String(s) => same_text(s.as_str(), name),
            _ => false,
        }
    }
}

/// Decode a raw RPC event into an [`IndexedEvent`]. The ledger close time is
/// the RPC's RFC 3339 text; where that does not parse, it is the current
/// time of the system clock.
pub fn decode_event(raw: RpcEventInfo) -> (r: IndexedEvent)
    ensures
        exists|t: LedgerTime| decodes_from(r, raw, t),
        r.id == raw.id,
        r.paging_token == raw.paging_token,
        r.contract_id == raw.contract_id,
        r.ledger == raw.ledger,
        r.tx_hash == raw.tx_hash,
        r.in_successful_call == raw.in_successful_contract_call,
        r.raw_topics == raw.topic,
        r.raw_value == raw.value,
        r.topics@.len() == raw.topic@.len(),
        forall|i: int| 0 <= i < r.topics@.len() ==> (#[trigger] r.topics@[i])@ == scval_from_base64(raw.topic@[i]@),
        r.value@ == scval_from_base64(raw.value@),
        raw.event_type@ == "system"@ ==> r.kind == EventKind::System,
        raw.event_type@ == "diagnostic"@ ==> r.kind == EventKind::Diagnostic,
        raw.event_type@ != "system"@ && raw.event_type@ != "diagnostic"@ ==> r.kind == EventKind::Contract,
        rfc3339_instant(raw.ledger_closed_at@) matches Some(p) ==> decodes_from(
            r,
            raw,
            LedgerTime { unix_seconds: p.0, subsec_nanos: p.1 },
        ),
        rfc3339_instant(raw.ledger_closed_at@) matches Some(p) ==> r.ledger_closed_at == (LedgerTime {
            unix_seconds: p.0,
            subsec_nanos: p.1,
        }),
{
    let closed_at = match parse_rfc3339(raw.ledger_closed_at.as_str()) {
        Some((secs, nanos)) => LedgerTime { unix_seconds: secs, subsec_nanos: nanos },
        None => utc_instant(system_now()),
    };
    IndexedEvent::from_raw(raw, closed_at)
}

// ─── Filter ──────────────────────────────────────────────────────────────────

/// Optional filter for what events to receive in your callback.
///
/// All specified fields must match (AND semantics).
/// Unset fields match anything.
#[derive(Debug, Clone)]
pub struct EventFilter {
    /// Only events with this first topic (usually the event name)
    pub topic_name: Option<String>,
    /// Only events of this kind (default: all)
    pub kind: Option<EventKind>,
    /// Only events from successful contract calls
    pub only_successful: bool,
}

/// Whether `f` lets `e` through: every condition that `f` sets holds of `e`.
pub open spec fn filter_accepts(f: EventFilter, e: IndexedEvent) -> bool {
    &&& (f.kind matches Some(k) ==> e.kind == k)
    &&& (f.only_successful ==> e.in_successful_call)
    &&& (f.topic_name matches Some(n) ==> first_topic_is(view_items(e.topics@), n@))
}

impl Default for EventFilter {
    fn default() -> (r: Self)
        ensures
            r.topic_name is None,
            r.kind is None,
            !r.only_successful,
    {
        EventFilter { topic_name: None, kind: None, only_successful: false }
    }
}

impl EventFilter {
    /// A filter that lets every event through.
    pub fn new() -> (r: Self)
        ensures
            r.topic_name is None,
            r.kind is None,
            !r.only_successful,
    {
        Self::default()
    }

    /// Filter to a specific event name (matches first topic as Symbol or String)
    pub fn topic(self, name: &str) -> (r: Self)
        ensures
            r.topic_name matches Some(n) && n@ == name@,
            r.kind == self.kind,
            r.only_successful == self.only_successful,
    {
        EventFilter { topic_name: Some(name.to_owned()), ..self }
    }

    /// Only receive contract events (not system or diagnostic)
    pub fn contract_only(self) -> (r: Self)
        ensures
            r == (EventFilter { kind: Some(EventKind::Contract), ..self }),
    {
        EventFilter { kind: Some(EventKind::Contract), ..self }
    }

    /// Only receive events from successful contract calls
    pub fn successful_only(self) -> (r: Self)
        ensures
            r == (EventFilter { only_successful: true, ..self }),
    {
        EventFilter { only_successful: true, ..self }
    }

    /// Returns true if this event passes the filter.
    pub fn matches(&self, event: &IndexedEvent) -> (r: bool)
        ensures
            r == filter_accepts(*self, *event),
            (self.kind matches Some(k) && event.kind != k) ==> !r,
            (self.only_successful && !event.in_successful_call) ==> !r,
            (self.topic_name matches Some(n) && !(event.topics@.len() > 0 && (event.topics@[0]@
                == ScValView::Symbol(n@) || event.topics@[0]@ == ScValView::String(n@)))) ==> !r,
    {
        proof { lemma_filter_conditions(*self, *event); }
        if let Some(kind) = &self.kind {
            if event.kind != *kind {
                return false;
            }
        }
        if self.only_successful && !event.in_successful_call {
            return false;
        }
        if let Some(name) = &self.topic_name {
            if !event.matches_topic(name.as_str()) {
                return false;
            }
        }
        true
    }
}

/// What a filter does, condition by condition: a kind filter rejects every
/// event of another kind; a success filter rejects every event of a failed
/// call; a topic filter rejects every event whose first topic is not that
/// symbol or string; and an event that meets every condition set passes.
pub proof fn lemma_filter_conditions(f: EventFilter, e: IndexedEvent)
    ensures
        (f.kind matches Some(k) && e.kind != k) ==> !filter_accepts(f, e),
        (f.only_successful && !e.in_successful_call) ==> !filter_accepts(f, e),
        (f.topic_name matches Some(n) && !(e.topics@.len() > 0 && (e.topics@[0]@ == ScValView::Symbol(n@)
            || e.topics@[0]@ == ScValView::String(n@)))) ==> !filter_accepts(f, e),
        ((f.kind matches Some(k) ==> e.kind == k) && (f.only_successful ==> e.in_successful_call) && (
        f.topic_name matches Some(n) ==> (e.topics@.len() > 0 && (e.topics@[0]@ == ScValView::Symbol(n@)
            || e.topics@[0]@ == ScValView::String(n@))))) ==> filter_accepts(f, e),
{
    crate::scval::lemma_view_items(e.topics@);
}

/// A topic matches exactly when there is a first topic and it is the symbol
/// or the string of that name.
pub proof fn lemma_first_topic(topics: Seq<ScValDecoded>, name: Seq<char>)
    ensures
        first_topic_is(view_items(topics), name) <==> (topics.len() > 0 && (topics[0]@ == ScValView::Symbol(name)
            || topics[0]@ == ScValView::String(name))),
{
    crate::scval::lemma_view_items(topics);
}

/// A filter with nothing set lets every event through.
pub proof fn lemma_empty_filter_accepts_all(f: EventFilter, e: IndexedEvent)
    requires
        f.topic_name is None,
        f.kind is None,
        !f.only_successful,
    ensures
        filter_accepts(f, e),
{
}

} // verus!
