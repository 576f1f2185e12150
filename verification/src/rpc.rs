//! The shapes of the Stellar RPC `getEvents` exchange, and what the
//! library makes of a JSON-RPC response.

use std::sync::atomic::AtomicU64;
use std::sync::atomic::Ordering;
use vstd::prelude::*;

use crate::error::IndexerError;

verus! {

// ─── Request shapes ──────────────────────────────────────────────────────────

/// Parameters of one `getEvents` call.
#[derive(Debug)]
pub struct GetEventsParams {
    pub start_ledger: u32,
    pub filters: Vec<RpcEventFilter>,
    pub pagination: PaginationOptions,
}

/// Which events one `getEvents` call asks for.
#[derive(Debug)]
pub struct RpcEventFilter {
    pub event_type: String,
    pub contract_ids: Vec<String>,
    pub topics: Vec<Vec<String>>,
}

/// How many events one `getEvents` call may return.
#[derive(Debug)]
pub struct PaginationOptions {
    pub limit: u32,
}

// ─── Response shapes ─────────────────────────────────────────────────────────

/// A JSON-RPC 2.0 response: a result, an error, or (wrongly) neither.
#[derive(Debug)]
pub struct JsonRpcResponse<T> {
    pub result: Option<T>,
    pub error: Option<RpcErrorBody>,
}

/// The error object of a JSON-RPC response.
#[derive(Debug)]
pub struct RpcErrorBody {
    pub code: i64,
    pub message: String,
}

/// The result of `getEvents`.
#[derive(Debug)]
pub struct GetEventsResponse {
    pub events: Vec<RpcEventInfo>,
    pub latest_ledger: u32,
}

/// Raw event as returned by the Stellar RPC.
/// Topics and value are base64-encoded XDR (ScVal).
#[derive(Debug, Clone)]
pub struct RpcEventInfo {
    pub event_type: String,
    pub ledger: u32,
    pub ledger_closed_at: String,
    pub contract_id: String,
    pub id: String,
    pub paging_token: String,
    /// Base64-encoded XDR ScVal entries (topics)
    pub topic: Vec<String>,
    /// Base64-encoded XDR ScVal (event value / data)
    pub value: String,
    pub in_successful_contract_call: bool,
    pub tx_hash: Option<String>,
}

/// The result of `getLatestLedger`.
#[derive(Debug)]
pub struct LatestLedgerResult {
    pub sequence: u32,
}

/// Whether `r` is the `RpcError` that carries `body`.
pub open spec fn is_rpc_error_of<T>(r: Result<T, IndexerError>, body: RpcErrorBody) -> bool {
    r matches Err(IndexerError::RpcError { code, message }) && code == body.code && message == body.message
}

impl<T> JsonRpcResponse<T> {
    /// The response's error object as an `RpcError`, else its (optional) result.
    pub fn into_result(self) -> (r: Result<Option<T>, IndexerError>)
        ensures
            match self.error {
                Some(body) => is_rpc_error_of(r, body),
                None => r == Ok::<Option<T>, IndexerError>(self.result),
            },
    {
        match self.error {
            Some(body) => Err(IndexerError::RpcError { code: body.code, message: body.message }),
            None => Ok(self.result),
        }
    }
}

/// The latest ledger that a `getLatestLedger` response reports: the RPC's
/// error as an `RpcError`, else the sequence, or 0 when there is no result.
pub fn latest_ledger_result(response: JsonRpcResponse<LatestLedgerResult>) -> (r: Result<u32, IndexerError>)
    ensures
        match response.error {
            Some(body) => is_rpc_error_of(r, body),
            None => match response.result {
                Some(res) => r == Ok::<u32, IndexerError>(res.sequence),
                None => r == Ok::<u32, IndexerError>(0),
            },
        },
{
    match response.into_result() {
        Err(e) => Err(e),
        Ok(Some(res)) => Ok(res.sequence),
        Ok(None) => Ok(0),
    }
}

/// The events that a `getEvents` response carries: the RPC's error as an
/// `RpcError`, else the result, or `EmptyResponse` when there is none.
pub fn events_result(response: JsonRpcResponse<GetEventsResponse>) -> (r: Result<GetEventsResponse, IndexerError>)
    ensures
        match response.error {
            Some(body) => is_rpc_error_of(r, body),
            None => match response.result {
                Some(res) => r == Ok::<GetEventsResponse, IndexerError>(res),
                None => r matches Err(IndexerError::EmptyResponse),
            },
        },
{
    match response.into_result() {
        Err(e) => Err(e),
        Ok(Some(res)) => Ok(res),
        Ok(None) => Err(IndexerError::EmptyResponse),
    }
}

// ─── Client ──────────────────────────────────────────────────────────────────

/// The endpoint of a Stellar RPC and the counter for JSON-RPC request ids.
pub struct RpcClient {
    rpc_url: String,
    request_id: AtomicU64,
}

impl RpcClient {
    /// A client for the RPC at `rpc_url`, whose first request id is 1.
    pub fn new(rpc_url: &str) -> (r: Self)
        ensures
            r.url()@ == rpc_url@,
    {
        RpcClient { rpc_url: rpc_url.to_owned(), request_id: AtomicU64::new(1) }
    }

    /// The RPC endpoint.
    pub closed spec fn url(&self) -> String {
        self.rpc_url
    }

    /// The RPC endpoint.
    pub fn rpc_url(&self) -> (r: &str)
        ensures
            r@ == self.url()@,
    {
        self.rpc_url.as_str()
    }

    /// Takes the next JSON-RPC request id (each call returns the counter and
    /// advances it; the counter is shared, so no value is promised).
    pub fn next_id(&self) -> u64 {
        self.request_id.fetch_add(1, Ordering::SeqCst)
    }
}

} // verus!
