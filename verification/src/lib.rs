//! # soroban-event-indexer
//!
//! An embeddable library for indexing Soroban smart contract events: the
//! configuration of what to watch, the decoding of the RPC's base64 XDR
//! `ScVal` topics and values, event filtering, and the decisions of the
//! polling loop, each with its contract.

pub mod config;
pub mod error;
pub mod event;
pub mod indexer;
pub mod rpc;
pub mod scval;
pub mod storage;
pub mod text;

pub use config::{IndexerConfig, Network, PollInterval};
pub use error::IndexerError;
pub use event::{EventFilter, EventKind, IndexedEvent};
pub use indexer::{EventIndexer, StopHandle};
