//! The payloads of the events the backend sends to the frontend.
//!
//! Payloads that carry inventory scalars, cosmetics or mastery state (which
//! hold floating-point or free-form JSON values) are not part of the
//! library.

use vstd::prelude::*;

use crate::models::{EventCourse, GrantedCard, MatchResult};

verus! {

/// Startup finished; what data is already available.
#[derive(Debug, Clone)]
pub struct StartupCompletePayload {
    pub has_collection: bool,
    pub has_inventory: bool,
}

/// The card database is ready.
#[derive(Debug, Clone)]
pub struct CardDbReadyPayload {
    pub card_count: usize,
}

/// The log watcher is ready.
#[derive(Debug, Clone)]
pub struct LogReadyPayload {
    pub has_inventory: bool,
}

/// A collection scan is about to start.
#[derive(Debug, Clone)]
pub struct ScanStartingPayload {}

/// The card database was loaded from `db_path`.
#[derive(Debug, Clone)]
pub struct CardDbLoadedPayload {
    pub card_count: usize,
    pub db_path: String,
}

/// The card database failed to load.
#[derive(Debug, Clone)]
pub struct CardDbErrorPayload {
    pub code: String,
    pub message: String,
}

/// A diagnostic was logged.
#[derive(Debug, Clone)]
pub struct DiagnosticPayload {
    pub code: String,
    pub level: String,
    pub message: String,
}

/// The card database schema drifted from what the loader expects.
#[derive(Debug, Clone)]
pub struct SchemaWarningPayload {
    pub code: String,
    pub message: String,
    pub details: Vec<String>,
}

/// A memory scan started.
#[derive(Debug, Clone)]
pub struct ScanStartedPayload {}

/// A memory scan failed.
#[derive(Debug, Clone)]
pub struct ScanErrorPayload {
    pub message: String,
}

/// The game process was found.
#[derive(Debug, Clone)]
pub struct ProcessFoundPayload {
    pub pid: u32,
}

/// Progress of a memory scan over the process's regions.
#[derive(Debug, Clone)]
pub struct ScanProgressPayload {
    pub current_region: usize,
    pub total_regions: usize,
}

/// A memory scan found the collection.
#[derive(Debug, Clone)]
pub struct CollectionScannedPayload {
    pub unique_cards: usize,
    pub total_copies: usize,
    pub candidates_found: usize,
    pub scan_duration_ms: u64,
}

/// The collection changed between two scans: `(grp, qty)` added,
/// `(grp, old, new)` increased, `(grp, qty)` removed.
#[derive(Debug, Clone)]
pub struct CollectionChangedPayload {
    pub added: Vec<(i32, i32)>,
    pub increased: Vec<(i32, i32, i32)>,
    pub removed: Vec<(i32, i32)>,
    pub scan_duration_ms: u64,
}

/// Collection watching started.
#[derive(Debug, Clone)]
pub struct WatchStartedPayload {
    pub poll_interval_ms: u64,
}

/// Collection watching stopped.
#[derive(Debug, Clone)]
pub struct WatchStoppedPayload {
    pub reason: String,
}

/// The collection was restored from the last saved snapshot.
#[derive(Debug, Clone)]
pub struct OfflineHydratedPayload {
    pub snapshot_timestamp: i64,
    pub unique_cards: usize,
    pub total_copies: usize,
}

/// The log watcher started on `log_path`.
#[derive(Debug, Clone)]
pub struct WatcherStartedPayload {
    pub log_path: String,
}

/// The log watcher stopped.
#[derive(Debug, Clone)]
pub struct WatcherStoppedPayload {
    pub reason: String,
}

/// A match is starting.
#[derive(Debug, Clone)]
pub struct MatchStartingPayload {
    pub game_mode: String,
}

/// A match finished.
#[derive(Debug, Clone)]
pub struct MatchResultPayload {
    pub result: MatchResult,
}

/// Cards were granted from `source`.
#[derive(Debug, Clone)]
pub struct CardsGrantedPayload {
    pub cards: Vec<GrantedCard>,
    pub source: String,
}

/// The event courses changed.
#[derive(Debug, Clone)]
pub struct EventsUpdatedPayload {
    pub courses: Vec<EventCourse>,
}

/// Progress of the card image download.
#[derive(Debug, Clone)]
pub struct ImageCacheProgressPayload {
    pub completed: usize,
    pub total: usize,
    pub new_files: Vec<String>,
}

/// The card image download finished.
#[derive(Debug, Clone)]
pub struct ImageCacheCompletePayload {
    pub total_downloaded: usize,
    pub total_skipped: usize,
    pub total_failed: usize,
}

/// A history snapshot was saved.
#[derive(Debug, Clone)]
pub struct SnapshotSavedPayload {
    pub snapshot_type: String,
    pub snapshot_id: i64,
    pub trigger: String,
}

/// Progress of the Scryfall bulk ingest.
#[derive(Debug, Clone)]
pub struct IngestProgressPayload {
    pub stage: String,
    pub done: u64,
    pub total: u64,
}

/// The Scryfall bulk ingest finished.
#[derive(Debug, Clone)]
pub struct IngestCompletePayload {
    pub changed: bool,
    pub oracles: u64,
    pub unresolved_grp: u64,
}

/// The Scryfall bulk ingest failed.
#[derive(Debug, Clone)]
pub struct IngestErrorPayload {
    pub code: String,
    pub message: String,
}

/// A community source's cached data for `key` changed.
#[derive(Debug, Clone)]
pub struct SourcesUpdatedPayload {
    pub host: String,
    pub key: String,
}

} // verus!
