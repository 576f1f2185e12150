//! All error types for the indexer.

use vstd::prelude::*;
use vstd::std_specs::convert::FromSpecImpl;

verus! {

/// Declares ureq's request error, carried opaquely.
#[verifier::external_type_specification]
#[verifier::external_body]
pub struct ExUreqError(ureq::Error);

/// Declares `std::io::Error`, carried opaquely.
#[verifier::external_type_specification]
#[verifier::external_body]
pub struct ExIoError(std::io::Error);

/// Declares serde_json's error, carried opaquely.
#[verifier::external_type_specification]
#[verifier::external_body]
pub struct ExJsonError(serde_json::Error);

/// Declares base64's decode error, carried opaquely.
#[verifier::external_type_specification]
#[verifier::external_body]
pub struct ExBase64DecodeError(base64::DecodeError);

/// Declares rusqlite's error, carried opaquely.
#[verifier::external_type_specification]
#[verifier::external_body]
pub struct ExSqliteError(rusqlite::Error);

/// Declares anyhow's error, carried opaquely.
#[verifier::external_type_specification]
#[verifier::external_body]
pub struct ExAnyhowError(anyhow::Error);

/// Everything that can go wrong while indexing.
#[derive(Debug)]
pub enum IndexerError {
    /// The RPC request failed in transport.
    Rpc(ureq::Error),
    /// The RPC answered with a JSON-RPC error object.
    RpcError { code: i64, message: String },
    /// An I/O error.
    Io(std::io::Error),
    /// JSON (de)serialization failed.
    Json(serde_json::Error),
    /// Base64 decoding failed.
    Base64(base64::DecodeError),
    /// The RPC response held neither a result nor an error.
    EmptyResponse,
    /// The indexer was stopped externally.
    Stopped,
    /// The configuration is missing a value or holds one that does not parse.
    Config(String),
    /// The SQLite store failed.
    Sqlite(rusqlite::Error),
    /// Any other error.
    Other(anyhow::Error),
}

impl From<ureq::Error> for IndexerError {
    fn from(e: ureq::Error) -> (r: Self) {
        IndexerError::Rpc(e)
    }
}

impl FromSpecImpl<ureq::Error> for IndexerError {
    open spec fn obeys_from_spec() -> bool {
        true
    }

    open spec fn from_spec(e: ureq::Error) -> IndexerError {
        IndexerError::Rpc(e)
    }
}

impl From<std::io::Error> for IndexerError {
    fn from(e: std::io::Error) -> (r: Self) {
        IndexerError::Io(e)
    }
}

impl FromSpecImpl<std::io::Error> for IndexerError {
    open spec fn obeys_from_spec() -> bool {
        true
    }

    open spec fn from_spec(e: std::io::Error) -> IndexerError {
        IndexerError::Io(e)
    }
}

impl From<serde_json::Error> for IndexerError {
    fn from(e: serde_json::Error) -> (r: Self) {
        IndexerError::Json(e)
    }
}

impl FromSpecImpl<serde_json::Error> for IndexerError {
    open spec fn obeys_from_spec() -> bool {
        true
    }

    open spec fn from_spec(e: serde_json::Error) -> IndexerError {
        IndexerError::Json(e)
    }
}

impl From<base64::DecodeError> for IndexerError {
    fn from(e: base64::DecodeError) -> (r: Self) {
        IndexerError::Base64(e)
    }
}

impl FromSpecImpl<base64::DecodeError> for IndexerError {
    open spec fn obeys_from_spec() -> bool {
        true
    }

    open spec fn from_spec(e: base64::DecodeError) -> IndexerError {
        IndexerError::Base64(e)
    }
}

impl From<rusqlite::Error> for IndexerError {
    fn from(e: rusqlite::Error) -> (r: Self) {
        IndexerError::Sqlite(e)
    }
}

impl FromSpecImpl<rusqlite::Error> for IndexerError {
    open spec fn obeys_from_spec() -> bool {
        true
    }

    open spec fn from_spec(e: rusqlite::Error) -> IndexerError {
        IndexerError::Sqlite(e)
    }
}

impl From<anyhow::Error> for IndexerError {
    fn from(e: anyhow::Error) -> (r: Self) {
        IndexerError::Other(e)
    }
}

impl FromSpecImpl<anyhow::Error> for IndexerError {
    open spec fn obeys_from_spec() -> bool {
        true
    }

    open spec fn from_spec(e: anyhow::Error) -> IndexerError {
        IndexerError::Other(e)
    }
}

pub type Result<T> = std::result::Result<T, IndexerError>;

} // verus!
