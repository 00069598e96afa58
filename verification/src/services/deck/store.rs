//! Records exchanged with the deck builder's persistent store.

use vstd::prelude::*;

verus! {

/// An oracle card as stored. Its mana value, a float, is carried beside
/// the record by the caller and is not part of it.
#[derive(Debug, Clone, PartialEq)]
pub struct IngestOracle {
    pub oracle_id: String,
    pub name: String,
    pub name_front_lower: String,
    pub mana_cost: String,
    pub color_identity: String,
    pub type_line: String,
    pub keywords: String,
    pub oracle_text: String,
    pub edhrec_rank: Option<u32>,
    pub legal_brawl: bool,
    pub legal_standardbrawl: bool,
    pub is_commander_eligible: bool,
    pub power: Option<i32>,
    pub layout: String,
}

/// An Arena printing joined to its oracle card.
#[derive(Debug, Clone, PartialEq)]
pub struct IngestArena {
    pub arena_id: i32,
    pub oracle_id: String,
    pub set_code: String,
    pub collector_number: String,
}

/// A Scryfall tagger tag with its parent in the tag hierarchy.
#[derive(Debug, Clone, PartialEq)]
pub struct IngestTag {
    pub tag_id: String,
    pub slug: String,
    pub label: String,
    pub parent_id: Option<String>,
}

/// A cached community-source response and whether it is still fresh.
#[derive(Debug, Clone)]
pub struct CacheHit {
    pub body: String,
    pub fresh: bool,
}

/// A deck to save; `id` is `None` for a new deck.
#[derive(Debug, Clone)]
pub struct SavedDeckInput {
    pub id: Option<i64>,
    pub name: String,
    pub format: String,
    pub commander_grp: i32,
    pub request_json: String,
    pub result_json: String,
}

/// A saved deck as stored.
#[derive(Debug, Clone)]
pub struct SavedDeckRow {
    pub id: i64,
    pub name: String,
    pub format: String,
    pub commander_grp: i32,
    pub request_json: String,
    pub result_json: String,
    pub created_at: i64,
    pub updated_at: i64,
}

} // verus!
