//! Shared data types: cards, collection scans, events, matches and the
//! parts of the inventory that carry no floating-point values.

use std::collections::HashMap;

use vstd::prelude::*;

use crate::numbers::{decimal_signed, fmt_i64};
use crate::text::{owned, push_str, str_views};

verus! {

/// An active event course (draft, sealed, constructed event, ...).
///
/// Win/loss data may be absent for events that don't track records.
#[derive(Debug, Clone)]
pub struct EventCourse {
    pub course_id: String,
    pub internal_event_name: String,
    pub current_module: String,
    pub wins: Option<i32>,
    pub losses: Option<i32>,
    pub max_wins: Option<i32>,
    pub max_losses: Option<i32>,
}

/// Result of a completed match.
#[derive(Debug, Clone)]
pub struct MatchResult {
    pub match_id: String,
    pub event_id: String,
    pub opponent_name: String,
    pub result: MatchOutcome,
    pub completed_reason: String,
    pub game_mode: Option<String>,
}

/// Win/loss/draw outcome of a match.
#[derive(Debug, Clone, Copy, PartialEq, Eq, Structural)]
pub enum MatchOutcome {
    Victory,
    Defeat,
    Draw,
    Unknown,
}

/// In-progress match tracking.
pub struct ActiveMatchState {
    pub match_id: String,
    pub event_id: String,
    pub our_team_id: i64,
    pub opponent_name: String,
}

/// Rarity of a card in MTGA. The integer codes match the `Rarity` column of
/// the Cards table of MTGA's card database.
#[derive(Debug, Clone, PartialEq, Eq, Structural)]
pub enum Rarity {
    Special,
    BasicLand,
    Common,
    Uncommon,
    Rare,
    Mythic,
    Unknown(i32),
}

impl Rarity {
    /// The rarity for a card-database code; codes outside 0..=5 are kept
    /// as `Unknown`.
    pub fn from_i32(value: i32) -> (r: Rarity)
        ensures
            value == 0 ==> r == Rarity::Special,
            value == 1 ==> r == Rarity::BasicLand,
            value == 2 ==> r == Rarity::Common,
            value == 3 ==> r == Rarity::Uncommon,
            value == 4 ==> r == Rarity::Rare,
            value == 5 ==> r == Rarity::Mythic,
            (value < 0 || value > 5) ==> r == Rarity::Unknown(value),
    {
        match value {
            0 => Rarity::Special,
            1 => Rarity::BasicLand,
            2 => Rarity::Common,
            3 => Rarity::Uncommon,
            4 => Rarity::Rare,
            5 => Rarity::Mythic,
            other => Rarity::Unknown(other),
        }
    }

    /// An identical copy of this rarity.
    pub fn duplicate(&self) -> (r: Rarity)
        ensures
            r == *self,
    {
        match self {
            Rarity::Special => Rarity::Special,
            Rarity::BasicLand => Rarity::BasicLand,
            Rarity::Common => Rarity::Common,
            Rarity::Uncommon => Rarity::Uncommon,
            Rarity::Rare => Rarity::Rare,
            Rarity::Mythic => Rarity::Mythic,
            Rarity::Unknown(n) => Rarity::Unknown(*n),
        }
    }
}

/// The rarity's name in exported card lists: snake case for the known
/// rarities, `unknown_N` for code `N` otherwise.
pub fn rarity_to_string(rarity: &Rarity) -> (s: String)
    ensures
        s@ == (match rarity {
            Rarity::Special => "special"@,
            Rarity::BasicLand => "basic_land"@,
            Rarity::Common => "common"@,
            Rarity::Uncommon => "uncommon"@,
            Rarity::Rare => "rare"@,
            Rarity::Mythic => "mythic"@,
            Rarity::Unknown(n) => "unknown_"@ + decimal_signed(*n as int),
        }),
{
    match rarity {
        Rarity::Special => owned("special"),
        Rarity::BasicLand => owned("basic_land"),
        Rarity::Common => owned("common"),
        Rarity::Uncommon => owned("uncommon"),
        Rarity::Rare => owned("rare"),
        Rarity::Mythic => owned("mythic"),
        Rarity::Unknown(n) => {
            let mut s = owned("unknown_");
            let d = fmt_i64(*n as i64);
            push_str(&mut s, d.as_str());
            s
        },
    }
}

/// Core card data from MTGA's card database. `cmc` is derived from the
/// card's mana text, `power`/`toughness` from text columns.
#[derive(Debug, Clone)]
pub struct CardInfo {
    pub grp_id: i32,
    pub name: String,
    pub set_code: String,
    pub rarity: Rarity,
    pub collector_number: String,
    pub cmc: i32,
    pub power: Option<i32>,
    pub toughness: Option<i32>,
    pub deck_limit: i32,
    /// Colour identity letters "W","U","B","R","G".
    pub color_identity: Vec<String>,
    /// Colour letters.
    pub colors: Vec<String>,
    /// Card types, e.g. "Creature", "Land".
    pub types: Vec<String>,
    /// Subtypes, e.g. "Elf", "Warrior".
    pub subtypes: Vec<String>,
    /// Supertypes, e.g. "Legendary", "Basic".
    pub supertypes: Vec<String>,
    pub is_rebalanced: bool,
    pub rebalanced_grp_id: Option<i32>,
    pub is_primary_card: bool,
}

/// Result of a memory scan for the card collection.
#[derive(Debug, Clone)]
pub struct ScanResult {
    pub collection: HashMap<i32, i32>,
    pub candidate_count: usize,
    pub cross_validation: Option<CrossValidation>,
    pub scan_duration_ms: u64,
}

/// Diff between two collection snapshots.
#[derive(Debug, Clone)]
pub struct CollectionDiff {
    /// Cards that didn't exist before: (card_id, new_quantity)
    pub added: Vec<(i32, i32)>,
    /// Cards whose quantity increased: (card_id, old_qty, new_qty)
    pub increased: Vec<(i32, i32, i32)>,
    /// Cards that disappeared: (card_id, old_quantity)
    pub removed: Vec<(i32, i32)>,
}

/// Cross-validation between the top two memory copies.
#[derive(Debug, Clone)]
pub struct CrossValidation {
    pub block_a_unique: usize,
    pub block_b_unique: usize,
    pub shared_ids: usize,
    pub quantity_matches: usize,
    pub quantity_mismatches: usize,
    pub only_in_a: usize,
    pub only_in_b: usize,
}

/// A stack of boosters for a single collation (set).
#[derive(Debug, Clone)]
pub struct BoosterStack {
    pub collation_id: i32,
    pub count: i32,
    pub set_code: Option<String>,
}

/// A card granted via an inventory change (pack opening, reward, ...).
#[derive(Debug, Clone)]
pub struct GrantedCard {
    pub grp_id: i32,
    pub set_code: String,
    pub card_added: bool,
    pub gems_compensation: i32,
    pub vault_progress: i32,
}

/// A single cosmetic art style entry (card art variant).
#[derive(Debug, Clone, Copy, PartialEq, Eq, Structural)]
pub struct CosmeticArtStyle {
    pub grp_id: i32,
    pub art_id: i32,
}

/// A single card entry in a deck zone (mainboard/sideboard).
#[derive(Debug, Clone)]
pub struct DeckCard {
    pub grp_id: i32,
    pub quantity: i32,
}

/// Full deck contents: name, format, and card lists.
#[derive(Debug, Clone)]
pub struct DeckContents {
    pub name: String,
    pub format: Option<String>,
    pub mainboard: Vec<DeckCard>,
    pub sideboard: Vec<DeckCard>,
}

/// The strings of `existing` followed by those of `incoming` that are not
/// already present, in their order of first appearance.
pub open spec fn merged_strings(existing: Seq<Seq<char>>, incoming: Seq<Seq<char>>) -> Seq<
    Seq<char>,
>
    decreases incoming.len(),
{
    if incoming.len() == 0 {
        existing
    } else {
        let prev = merged_strings(existing, incoming.drop_last());
        if prev.contains(incoming.last()) {
            prev
        } else {
            prev.push(incoming.last())
        }
    }
}

/// Merges `incoming` into `existing`, appending each string that is not
/// already present (deduplicating cosmetic category lists).
pub fn merge_string_vec(existing: &mut Vec<String>, incoming: &[String])
    ensures
        str_views(final(existing)@) == merged_strings(
            str_views(old(existing)@),
            str_views(incoming@),
        ),
{
    let mut i: usize = 0;
    while i < incoming.len()
        invariant
            i <= incoming@.len(),
            str_views(existing@) == merged_strings(
                str_views(old(existing)@),
                str_views(incoming@.take(i as int)),
            ),
        decreases incoming@.len() - i,
    {
        let s = &incoming[i];
        let mut found = false;
        let mut j: usize = 0;
        while j < existing.len()
            invariant
                j <= existing@.len(),
                found == (exists|k: int| 0 <= k < j && existing@[k]@ == s@),
            decreases existing@.len() - j,
        {
            if existing[j] == *s {
                found = true;
            }
            j += 1;
        }
        let ghost before = str_views(existing@);
        proof {
            assert(str_views(incoming@.take(i + 1)).drop_last() =~= str_views(
                incoming@.take(i as int),
            ));
            assert(str_views(incoming@.take(i + 1)).last() == s@);
            if found {
                let k = choose|k: int| 0 <= k < existing@.len() && existing@[k]@ == s@;
                assert(before[k] == s@);
            } else {
                assert forall|k: int| 0 <= k < before.len() implies before[k] != s@ by {
                    assert(before[k] == existing@[k]@);
                }
            }
        }
        if !found {
            existing.push(s.clone());
            assert(str_views(existing@) =~= before.push(s@));
        }
        i += 1;
    }
    assert(incoming@.take(incoming@.len() as int) =~= incoming@);
}


/// The art styles of `existing` followed by those of `incoming` that are
/// not already present (same grp id and art id), in order of first
/// appearance.
pub open spec fn merged_styles(existing: Seq<CosmeticArtStyle>, incoming: Seq<CosmeticArtStyle>) -> Seq<
    CosmeticArtStyle,
>
    decreases incoming.len(),
{
    if incoming.len() == 0 {
        existing
    } else {
        let prev = merged_styles(existing, incoming.drop_last());
        if prev.contains(incoming.last()) {
            prev
        } else {
            prev.push(incoming.last())
        }
    }
}

/// Merges the art styles of a cosmetics change into the owned ones,
/// deduplicating by grp id and art id.
pub fn merge_art_styles(existing: &mut Vec<CosmeticArtStyle>, incoming: &[CosmeticArtStyle])
    ensures
        final(existing)@ == merged_styles(old(existing)@, incoming@),
{
    let mut i: usize = 0;
    while i < incoming.len()
        invariant
            i <= incoming@.len(),
            existing@ == merged_styles(old(existing)@, incoming@.take(i as int)),
        decreases incoming@.len() - i,
    {
        let s = incoming[i];
        let mut found = false;
        let mut j: usize = 0;
        while j < existing.len()
            invariant
                j <= existing@.len(),
                found == (exists|k: int| 0 <= k < j && existing@[k] == s),
            decreases existing@.len() - j,
        {
            if existing[j].grp_id == s.grp_id && existing[j].art_id == s.art_id {
                found = true;
            }
            j += 1;
        }
        proof {
            assert(incoming@.take(i + 1).drop_last() =~= incoming@.take(i as int));
            assert(incoming@.take(i + 1).last() == s);
        }
        if !found {
            existing.push(s);
        }
        i += 1;
    }
    assert(incoming@.take(incoming@.len() as int) =~= incoming@);
}
} // verus!
