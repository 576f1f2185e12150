use std::time::Duration;

use soroban_event_indexer::config::PollInterval;
use soroban_event_indexer::{IndexerConfig, IndexerError, Network};

fn some(s: &str) -> Option<String> {
    Some(s.to_string())
}

#[test]
fn builds_with_defaults() {
    let config = IndexerConfig::from_vars(some("CTESTCONTRACTID"), None, None, None)
        .expect("should build config");

    assert_eq!(config.contract_id, "CTESTCONTRACTID");
    assert_eq!(config.network, Network::Testnet);
    assert_eq!(config.start_ledger, None);
    assert!(matches!(config.poll_interval, PollInterval::Seconds(6)));
}

#[test]
fn reads_all_overrides() {
    let config = IndexerConfig::from_vars(
        some("CTESTCONTRACTID"),
        some("mainnet"),
        some("199616"),
        some("10"),
    )
    .expect("should build config");

    assert_eq!(config.network, Network::Mainnet);
    assert_eq!(config.start_ledger, Some(199_616));
    assert!(matches!(config.poll_interval, PollInterval::Seconds(10)));
}

#[test]
fn errors_without_contract_id() {
    let result = IndexerConfig::from_vars(None, None, None, None);
    assert!(result.is_err());
}

// ─── further cases ───────────────────────────────────────────────────────────

#[test]
fn missing_contract_message() {
    match IndexerConfig::from_vars(None, some("mainnet"), some("x"), None) {
        Err(IndexerError::Config(m)) => assert_eq!(m, "CONTRACT_ID environment variable is required"),
        other => panic!("unexpected {other:?}"),
    }
}

#[test]
fn network_names_are_case_insensitive_and_custom_kept_verbatim() {
    let c = IndexerConfig::from_vars(some("C"), some("FutureNet"), None, None).unwrap();
    assert_eq!(c.network, Network::Futurenet);
    let c = IndexerConfig::from_vars(some("C"), some("TESTNET"), None, None).unwrap();
    assert_eq!(c.network, Network::Testnet);
    let c = IndexerConfig::from_vars(some("C"), some("http://Local:8000"), None, None).unwrap();
    assert_eq!(c.network, Network::Custom("http://Local:8000".to_string()));
}

#[test]
fn bad_numbers_give_config_errors() {
    match IndexerConfig::from_vars(some("C"), None, some("12a"), None) {
        Err(IndexerError::Config(m)) => {
            assert_eq!(m, "invalid START_LEDGER (\"12a\"): invalid digit found in string")
        }
        other => panic!("unexpected {other:?}"),
    }
    match IndexerConfig::from_vars(some("C"), None, some("4294967296"), None) {
        Err(IndexerError::Config(m)) => assert_eq!(
            m,
            "invalid START_LEDGER (\"4294967296\"): number too large to fit in target type"
        ),
        other => panic!("unexpected {other:?}"),
    }
    match IndexerConfig::from_vars(some("C"), None, None, some("")) {
        Err(IndexerError::Config(m)) => assert_eq!(
            m,
            "invalid POLL_INTERVAL_SECS (\"\"): cannot parse integer from empty string"
        ),
        other => panic!("unexpected {other:?}"),
    }
    // the start ledger is checked before the poll interval
    match IndexerConfig::from_vars(some("C"), None, some("-1"), some("x")) {
        Err(IndexerError::Config(m)) => assert!(m.starts_with("invalid START_LEDGER")),
        other => panic!("unexpected {other:?}"),
    }
}

#[test]
fn numbers_parse_like_std() {
    for text in ["0", "+7", "4294967295", "007", "+", "-", "", " 1", "1_000", "-0", "٣"] {
        let ours = IndexerConfig::from_vars(some("C"), None, some(text), None)
            .ok()
            .map(|c| c.start_ledger.unwrap());
        assert_eq!(ours, text.parse::<u32>().ok(), "input {text:?}");
    }
    let c = IndexerConfig::from_vars(some("C"), None, None, some("18446744073709551615")).unwrap();
    assert!(matches!(c.poll_interval, PollInterval::Seconds(u64::MAX)));
    assert!(IndexerConfig::from_vars(some("C"), None, None, some("18446744073709551616")).is_err());
}

#[test]
fn builder_methods() {
    let c = IndexerConfig::new("CID");
    assert_eq!(c.contract_id, "CID");
    assert_eq!(c.network, Network::Testnet);
    assert_eq!(c.start_ledger, None);
    assert!(matches!(c.poll_interval, PollInterval::Seconds(6)));
    assert_eq!(c.max_events_per_poll, 100);

    let c = c
        .network(Network::Mainnet)
        .start_ledger(199_616)
        .poll_interval_secs(9)
        .max_events_per_poll(1000);
    assert_eq!(c.network, Network::Mainnet);
    assert_eq!(c.start_ledger, Some(199_616));
    assert!(matches!(c.poll_interval, PollInterval::Seconds(9)));
    assert_eq!(c.max_events_per_poll, 1000);

    let c = c.rpc_url("http://localhost:8000");
    assert_eq!(c.network, Network::Custom("http://localhost:8000".to_string()));
}

#[test]
fn max_events_is_clamped() {
    assert_eq!(IndexerConfig::new("C").max_events_per_poll(0).max_events_per_poll, 1);
    assert_eq!(IndexerConfig::new("C").max_events_per_poll(10_000).max_events_per_poll, 10_000);
    assert_eq!(IndexerConfig::new("C").max_events_per_poll(10_001).max_events_per_poll, 10_000);
    assert_eq!(IndexerConfig::new("C").max_events_per_poll(u32::MAX).max_events_per_poll, 10_000);
}

#[test]
fn rpc_urls() {
    assert_eq!(Network::Mainnet.rpc_url(), "https://mainnet.sorobanrpc.com");
    assert_eq!(Network::Testnet.rpc_url(), "https://soroban-testnet.stellar.org");
    assert_eq!(Network::Futurenet.rpc_url(), "https://rpc-futurenet.stellar.org");
    assert_eq!(Network::Custom("http://x".to_string()).rpc_url(), "http://x");
}

#[test]
fn lowercase_names() {
    assert_eq!(Network::from_lowercase_name("mainnet", "MAINNET".to_string()), Network::Mainnet);
    assert_eq!(
        Network::from_lowercase_name("http://a", "HTTP://A".to_string()),
        Network::Custom("HTTP://A".to_string())
    );
}

#[test]
fn poll_interval_durations() {
    assert_eq!(PollInterval::Seconds(6).as_duration(), Duration::from_secs(6));
    assert_eq!(
        PollInterval::Duration(Duration::from_millis(1500)).as_duration(),
        Duration::from_millis(1500)
    );
    assert!(matches!(PollInterval::default(), PollInterval::Seconds(6)));
}
