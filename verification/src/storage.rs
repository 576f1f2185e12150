//! Persistence backends.

use vstd::prelude::*;

use crate::error::IndexerError;
use crate::event::IndexedEvent;

verus! {

/// Common trait for storage backends.
/// Implement this if you want to write a custom backend (e.g. Postgres).
pub trait EventStorage {
    /// Persist a single event. Implementations should be idempotent
    /// (calling twice with the same event ID is a no-op).
    fn save_event(&self, event: &IndexedEvent) -> Result<(), IndexerError>;

    /// Return the total number of events stored.
    fn count(&self) -> Result<u64, IndexerError>;
}

} // verus!
