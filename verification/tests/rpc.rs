use soroban_event_indexer::rpc::{
    events_result, latest_ledger_result, GetEventsResponse, JsonRpcResponse, LatestLedgerResult,
    RpcClient, RpcErrorBody,
};
use soroban_event_indexer::IndexerError;

#[test]
fn latest_ledger_results() {
    let ok = JsonRpcResponse { result: Some(LatestLedgerResult { sequence: 99 }), error: None };
    assert_eq!(latest_ledger_result(ok).unwrap(), 99);
    let none: JsonRpcResponse<LatestLedgerResult> = JsonRpcResponse { result: None, error: None };
    assert_eq!(latest_ledger_result(none).unwrap(), 0);
    let err = JsonRpcResponse {
        result: Some(LatestLedgerResult { sequence: 1 }),
        error: Some(RpcErrorBody { code: -32600, message: "bad".to_string() }),
    };
    match latest_ledger_result(err) {
        Err(IndexerError::RpcError { code, message }) => {
            assert_eq!(code, -32600);
            assert_eq!(message, "bad");
        }
        other => panic!("unexpected {other:?}"),
    }
}

#[test]
fn events_results() {
    let ok = JsonRpcResponse {
        result: Some(GetEventsResponse { events: vec![], latest_ledger: 7 }),
        error: None,
    };
    assert_eq!(events_result(ok).unwrap().latest_ledger, 7);
    let none: JsonRpcResponse<GetEventsResponse> = JsonRpcResponse { result: None, error: None };
    assert!(matches!(events_result(none), Err(IndexerError::EmptyResponse)));
    let err: JsonRpcResponse<GetEventsResponse> = JsonRpcResponse {
        result: None,
        error: Some(RpcErrorBody { code: 5, message: "m".to_string() }),
    };
    assert!(matches!(events_result(err), Err(IndexerError::RpcError { code: 5, .. })));
}

#[test]
fn client_ids_count_up() {
    let c = RpcClient::new("https://soroban-testnet.stellar.org");
    assert_eq!(c.rpc_url(), "https://soroban-testnet.stellar.org");
    assert_eq!(c.next_id(), 1);
    assert_eq!(c.next_id(), 2);
}

#[test]
fn outside_errors_convert_with_question_mark() {
    fn parse(text: &str) -> Result<serde_json::Value, IndexerError> {
        Ok(serde_json::from_str(text)?)
    }
    assert!(matches!(parse("{"), Err(IndexerError::Json(_))));
    let io: IndexerError = std::io::Error::new(std::io::ErrorKind::Other, "x").into();
    assert!(matches!(io, IndexerError::Io(_)));
    let other: IndexerError = anyhow::Error::msg("boom").into();
    assert!(matches!(other, IndexerError::Other(_)));
}
