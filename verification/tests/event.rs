use base64::engine::general_purpose::STANDARD;
use base64::Engine;

use soroban_event_indexer::event::{decode_event, EventFilter, EventKind, IndexedEvent, LedgerTime};
use soroban_event_indexer::rpc::RpcEventInfo;
use soroban_event_indexer::scval::ScValDecoded;

fn symbol(name: &str) -> String {
    let mut bytes = vec![0, 0, 0, 16];
    bytes.extend_from_slice(&(name.len() as u32).to_be_bytes());
    bytes.extend_from_slice(name.as_bytes());
    while bytes.len() % 4 != 0 {
        bytes.push(0);
    }
    STANDARD.encode(bytes)
}

fn raw(kind: &str, closed_at: &str, topic: Vec<String>) -> RpcEventInfo {
    RpcEventInfo {
        event_type: kind.to_string(),
        ledger: 199_700,
        ledger_closed_at: closed_at.to_string(),
        contract_id: "CCONTRACT".to_string(),
        id: "0000859036408881152-0000000003".to_string(),
        paging_token: "0000859036408881152-0000000003".to_string(),
        topic,
        value: "AAAABAAAACo=".to_string(),
        in_successful_contract_call: true,
        tx_hash: Some("abc".to_string()),
    }
}

#[test]
fn decode_event_keeps_raw_and_decodes() {
    let topics = vec![symbol("transfer"), "not base64!".to_string()];
    let e = decode_event(raw("contract", "2024-01-02T03:04:05.5Z", topics.clone()));
    assert_eq!(e.id, "0000859036408881152-0000000003");
    assert_eq!(e.ledger, 199_700);
    assert_eq!(e.kind, EventKind::Contract);
    assert!(e.in_successful_call);
    assert_eq!(e.tx_hash.as_deref(), Some("abc"));
    assert_eq!(e.raw_topics, topics);
    assert_eq!(e.raw_value, "AAAABAAAACo=");
    assert_eq!(
        e.topics,
        vec![
            ScValDecoded::Symbol("transfer".to_string()),
            ScValDecoded::Raw("not base64!".to_string())
        ]
    );
    assert_eq!(e.value, ScValDecoded::U32(42));
    assert_eq!(
        e.ledger_closed_at,
        LedgerTime { unix_seconds: 1_704_164_645, subsec_nanos: 500_000_000 }
    );
    assert_eq!(e.event_name(), ":transfer");
    assert!(e.matches_topic("transfer"));
    assert!(!e.matches_topic("mint"));
}

#[test]
fn decode_event_offsets_and_bad_times() {
    let e = decode_event(raw("system", "2024-01-02T05:04:05+02:00", vec![]));
    assert_eq!(e.ledger_closed_at.unix_seconds, 1_704_164_645);
    assert_eq!(e.kind, EventKind::System);
    assert_eq!(e.event_name(), "<unnamed>");
    assert!(!e.matches_topic("transfer"));
    // an unparsable time falls back to the clock: some time after 2024
    let e = decode_event(raw("diagnostic", "yesterday", vec![]));
    assert!(e.ledger_closed_at.unix_seconds > 1_704_164_645);
    assert_eq!(e.kind, EventKind::Diagnostic);
}

#[test]
fn event_kind_names() {
    assert_eq!(EventKind::from("system"), EventKind::System);
    assert_eq!(EventKind::from("diagnostic"), EventKind::Diagnostic);
    assert_eq!(EventKind::from("contract"), EventKind::Contract);
    assert_eq!(EventKind::from("SYSTEM"), EventKind::Contract);
    for k in [EventKind::Contract, EventKind::System, EventKind::Diagnostic] {
        assert_eq!(EventKind::from(k.as_str()), k);
    }
}

fn event(kind: EventKind, ok: bool, topics: Vec<ScValDecoded>) -> IndexedEvent {
    IndexedEvent {
        id: "1".to_string(),
        paging_token: "1".to_string(),
        contract_id: "C".to_string(),
        ledger: 1,
        ledger_closed_at: LedgerTime { unix_seconds: 0, subsec_nanos: 0 },
        tx_hash: None,
        kind,
        in_successful_call: ok,
        topics,
        value: ScValDecoded::Void,
        raw_topics: vec![],
        raw_value: String::new(),
    }
}

#[test]
fn filter_semantics() {
    let transfer = vec![ScValDecoded::Symbol("transfer".to_string())];
    let as_string = vec![ScValDecoded::String("transfer".to_string())];
    let other = vec![ScValDecoded::U32(1)];
    let any = EventFilter::new();
    assert!(any.matches(&event(EventKind::System, false, vec![])));
    let f = EventFilter::new().topic("transfer");
    assert_eq!(f.topic_name.as_deref(), Some("transfer"));
    assert!(f.matches(&event(EventKind::Contract, true, transfer.clone())));
    assert!(f.matches(&event(EventKind::Contract, true, as_string)));
    assert!(!f.matches(&event(EventKind::Contract, true, other)));
    let f = f.successful_only();
    assert!(f.only_successful);
    assert!(!f.matches(&event(EventKind::Contract, false, transfer.clone())));
    let f = f.contract_only();
    assert_eq!(f.kind, Some(EventKind::Contract));
    assert!(!f.matches(&event(EventKind::System, true, transfer.clone())));
    assert!(f.matches(&event(EventKind::Contract, true, transfer)));
}

#[test]
fn indexed_events_clone() {
    let e = decode_event(raw("contract", "2024-01-02T03:04:05Z", vec![symbol("mint")]));
    let c = e.clone();
    assert_eq!(c.id, e.id);
    assert_eq!(c.topics, e.topics);
    assert_eq!(c.ledger_closed_at, e.ledger_closed_at);
}
