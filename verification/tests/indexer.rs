use base64::engine::general_purpose::STANDARD;
use base64::Engine;
use std::time::Duration;

use soroban_event_indexer::event::{EventFilter, EventKind};
use soroban_event_indexer::indexer::{
    auto_start_ledger, backoff_delay, PollOutcome, WatchState, WatchStep, LEDGER_RETENTION_COUNT,
    MAX_BACKOFF_SECS,
};
use soroban_event_indexer::rpc::RpcEventInfo;
use soroban_event_indexer::{EventIndexer, IndexerConfig};

#[test]
fn first_failure_uses_base_interval() {
    let base = Duration::from_secs(5);
    assert_eq!(backoff_delay(base, 1), Duration::from_secs(5));
}

#[test]
fn backoff_doubles_each_attempt() {
    let base = Duration::from_secs(2);
    assert_eq!(backoff_delay(base, 1), Duration::from_secs(2));
    assert_eq!(backoff_delay(base, 2), Duration::from_secs(4));
    assert_eq!(backoff_delay(base, 3), Duration::from_secs(8));
    assert_eq!(backoff_delay(base, 4), Duration::from_secs(16));
}

#[test]
fn backoff_never_exceeds_cap() {
    let base = Duration::from_secs(5);
    // Even after many consecutive failures, we should never wait
    // longer than MAX_BACKOFF_SECS.
    for attempt in 1..=20 {
        let delay = backoff_delay(base, attempt);
        assert!(
            delay.as_secs() <= MAX_BACKOFF_SECS,
            "attempt {attempt} produced delay {delay:?}, exceeding cap"
        );
    }
}

#[test]
fn sub_second_poll_interval_still_backs_off() {
    // A poll interval under 1 second shouldn't produce a zero-second
    // backoff; we floor the base at 1 second before multiplying.
    let base = Duration::from_millis(200);
    assert_eq!(backoff_delay(base, 1), Duration::from_secs(1));
    assert_eq!(backoff_delay(base, 2), Duration::from_secs(2));
}

#[test]
fn zero_attempt_behaves_like_first_attempt() {
    // Defensive: attempt=0 shouldn't panic or underflow.
    let base = Duration::from_secs(3);
    assert_eq!(backoff_delay(base, 0), Duration::from_secs(3));
}

// ─── further cases ───────────────────────────────────────────────────────────

#[test]
fn backoff_caps_and_saturates() {
    assert_eq!(backoff_delay(Duration::from_secs(5), 5), Duration::from_secs(60));
    assert_eq!(backoff_delay(Duration::from_secs(1), 10), Duration::from_secs(60));
    assert_eq!(backoff_delay(Duration::from_secs(1), 6), Duration::from_secs(32));
    assert_eq!(backoff_delay(Duration::from_secs(u64::MAX), 10), Duration::from_secs(60));
    assert_eq!(backoff_delay(Duration::from_secs(120), 1), Duration::from_secs(60));
    assert_eq!(backoff_delay(Duration::from_secs(1), u32::MAX), Duration::from_secs(60));
}

#[test]
fn auto_start_is_seven_days_back_or_zero() {
    assert_eq!(LEDGER_RETENTION_COUNT, 100_800);
    assert_eq!(auto_start_ledger(200_000), 99_200);
    assert_eq!(auto_start_ledger(50), 0);
    assert_eq!(auto_start_ledger(100_800), 0);
}

fn indexer() -> EventIndexer {
    EventIndexer::new(
        IndexerConfig::new("CCONTRACT")
            .poll_interval_secs(4)
            .max_events_per_poll(250),
    )
}

#[test]
fn start_state_uses_configured_ledger_or_latest() {
    let configured = EventIndexer::new(IndexerConfig::new("C").start_ledger(42));
    assert!(!configured.needs_latest_ledger());
    assert_eq!(
        configured.start_state(None),
        WatchState { current_ledger: 42, consecutive_errors: 0 }
    );
    let auto = indexer();
    assert!(auto.needs_latest_ledger());
    assert_eq!(
        auto.start_state(Some(300_000)),
        WatchState { current_ledger: 199_200, consecutive_errors: 0 }
    );
}

#[test]
fn next_step_polls_contract_events_or_stops() {
    let ix = indexer();
    let state = WatchState { current_ledger: 77, consecutive_errors: 0 };
    match ix.next_step(&state, false) {
        WatchStep::Poll(p) => {
            assert_eq!(p.start_ledger, 77);
            assert_eq!(p.filters.len(), 1);
            assert_eq!(p.filters[0].event_type, "contract");
            assert_eq!(p.filters[0].contract_ids, vec!["CCONTRACT".to_string()]);
            assert!(p.filters[0].topics.is_empty());
            assert_eq!(p.pagination.limit, 250);
        }
        WatchStep::Stop => panic!("should poll"),
    }
    assert!(matches!(ix.next_step(&state, true), WatchStep::Stop));
}

#[test]
fn stop_handle_sets_the_flag() {
    let ix = indexer();
    assert!(!ix.is_stopped());
    let handle = ix.stop_handle();
    handle.stop();
    assert!(ix.is_stopped());
}

#[test]
fn after_poll_advances_resets_and_backs_off() {
    let ix = indexer();
    let s = WatchState { current_ledger: 100, consecutive_errors: 2 };
    let (next, pause) = ix.after_poll(s, PollOutcome::Fetched { latest_ledger: 150 });
    assert_eq!(next, WatchState { current_ledger: 150, consecutive_errors: 0 });
    assert_eq!(pause, Duration::from_secs(4));
    // an older latest ledger does not move the loop back
    let (next, _) = ix.after_poll(s, PollOutcome::Fetched { latest_ledger: 90 });
    assert_eq!(next.current_ledger, 100);
    // failures keep the ledger and back off: 4s, 8s, 16s
    let (f1, p1) = ix.after_poll(WatchState { current_ledger: 100, consecutive_errors: 0 }, PollOutcome::Failed);
    assert_eq!(f1, WatchState { current_ledger: 100, consecutive_errors: 1 });
    assert_eq!(p1, Duration::from_secs(4));
    let (f2, p2) = ix.after_poll(f1, PollOutcome::Failed);
    assert_eq!(f2.consecutive_errors, 2);
    assert_eq!(p2, Duration::from_secs(8));
    let (_, p3) = ix.after_poll(f2, PollOutcome::Failed);
    assert_eq!(p3, Duration::from_secs(16));
}

fn raw_event(kind: &str, topic: Vec<String>, ok: bool) -> RpcEventInfo {
    RpcEventInfo {
        event_type: kind.to_string(),
        ledger: 12,
        ledger_closed_at: "2024-01-01T00:00:00Z".to_string(),
        contract_id: "CCONTRACT".to_string(),
        id: "0000000001-0000000001".to_string(),
        paging_token: "tok".to_string(),
        topic,
        value: "AAAAAg==".to_string(),
        in_successful_contract_call: ok,
        tx_hash: None,
    }
}

#[test]
fn accept_applies_the_filter() {
    // symbol "mint": discriminant 16, length 4
    let mint = STANDARD.encode([0, 0, 0, 16, 0, 0, 0, 4, b'm', b'i', b'n', b't']);
    let ix = indexer().with_filter(EventFilter::new().topic("mint").successful_only());
    assert!(ix.accept(raw_event("contract", vec![mint.clone()], true)).is_some());
    assert!(ix.accept(raw_event("contract", vec![mint.clone()], false)).is_none());
    assert!(ix.accept(raw_event("contract", vec![], true)).is_none());
    let all = indexer();
    let e = all.accept(raw_event("system", vec![], false)).expect("no filter");
    assert_eq!(e.kind, EventKind::System);
    let contracts = indexer().with_filter(EventFilter::new().contract_only());
    assert!(contracts.accept(raw_event("system", vec![], true)).is_none());
    assert!(contracts.accept(raw_event("whatever", vec![], true)).is_some());
}

#[test]
fn select_events_keeps_order_and_filters() {
    let mint = STANDARD.encode([0, 0, 0, 16, 0, 0, 0, 4, b'm', b'i', b'n', b't']);
    let burn = STANDARD.encode([0, 0, 0, 16, 0, 0, 0, 4, b'b', b'u', b'r', b'n']);
    let mut first = raw_event("contract", vec![mint.clone()], true);
    first.id = "a".to_string();
    let second = raw_event("contract", vec![burn], true);
    let mut third = raw_event("contract", vec![mint.clone()], true);
    third.id = "c".to_string();
    let ix = indexer().with_filter(EventFilter::new().topic("mint"));
    let kept = ix.select_events(vec![first.clone(), second.clone(), third.clone()]);
    let ids: Vec<&str> = kept.iter().map(|e| e.id.as_str()).collect();
    assert_eq!(ids, vec!["a", "c"]);
    let all = indexer().select_events(vec![first, second, third]);
    assert_eq!(all.len(), 3);
    assert!(indexer().select_events(vec![]).is_empty());
}

#[test]
fn handle_taken_before_with_filter_still_stops() {
    let ix = indexer();
    let handle = ix.stop_handle();
    let ix = ix.with_filter(EventFilter::new().topic("x"));
    assert!(!ix.is_stopped());
    handle.stop();
    assert!(ix.is_stopped());
}
