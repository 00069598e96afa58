//! Rows of the activity feed the frontend persists.

use vstd::prelude::*;

verus! {

/// What the frontend sends when persisting a feed entry.
#[derive(Debug, Clone)]
pub struct FeedEntryInput {
    pub timestamp: i64,
    pub session_id: String,
    pub category: String,
    pub kind: String,
    pub icon: Option<String>,
    pub title: String,
    pub details: Option<String>,
    pub deltas_json: Option<String>,
    pub thumbnails_json: Option<String>,
}

/// A stored feed entry.
#[derive(Debug, Clone)]
pub struct FeedEntryRow {
    pub id: i64,
    pub timestamp: i64,
    pub session_id: String,
    pub category: String,
    pub kind: String,
    pub icon: Option<String>,
    pub title: String,
    pub details: Option<String>,
    pub deltas_json: Option<String>,
    pub thumbnails_json: Option<String>,
}

/// Summary of a single session's feed entries.
#[derive(Debug, Clone)]
pub struct SessionSummary {
    pub session_id: String,
    pub entry_count: i64,
    pub first_timestamp: i64,
    pub last_timestamp: i64,
}

} // verus!
