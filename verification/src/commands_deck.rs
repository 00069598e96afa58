//! The deck builder's command-level logic: error text, the MTG Arena
//! import format, and how much of a seed deck the player already owns.

use std::collections::HashMap;

use vstd::prelude::*;

use crate::models::{CardInfo, Rarity};
use crate::numbers::{decimal, fmt_u64};
use crate::services::card_db::CardDb;
use crate::services::deck::engine::types::{
    best_printing_index, costs_wildcard, OracleCard, WildcardBudget,
};
use crate::services::deck::engine::{find_name, last_name_index, BuildError};
use crate::services::deck::sources_archidekt::SeedDeckDetail;
use crate::text::{
    chars_of, front_face, front_face_chars, owned, push_char, push_str, string_of, to_lower,
    to_upper, unicode_lower, unicode_upper,
};

verus! {

/// The name of Arena card `grp`, if the card map has it.
pub fn name_of_grp(cards: &HashMap<i32, CardInfo>, grp: i32) -> (n: Option<String>)
    ensures
        match n {
            Some(s) => cards@.contains_key(grp) && s@ == cards@[grp].name@,
            None => !cards@.contains_key(grp),
        },
{
    broadcast use vstd::std_specs::hash::group_hash_axioms;

    match cards.get(&grp) {
        Some(c) => Some(c.name.clone()),
        None => None,
    }
}

/// A build error as shown to the user: `CODE: message`.
pub fn build_err_to_string(e: BuildError) -> (s: String)
    ensures
        s@ == (match e {
            BuildError::InvalidRequest(m) => "DECK-009"@ + ": "@ + m@,
            BuildError::NoData(m) => "DECK-004"@ + ": "@ + m@,
        }),
{
    let mut s = owned(e.code());
    push_str(&mut s, ": ");
    let m = e.message();
    push_str(&mut s, m.as_str());
    s
}

/// One line of an Arena deck import: `qty name (SET) number` for a card
/// the card database knows (front face, set code upper-cased), else
/// `qty name` with the front face of the fallback name.
pub open spec fn arena_line_spec(
    cards: Option<Map<i32, CardInfo>>,
    grp: i32,
    fallback_name: Seq<char>,
    qty: u32,
) -> Seq<char> {
    match cards {
        Some(m) if m.contains_key(grp) => decimal(qty as nat) + " "@ + front_face(m[grp].name@)
            + " ("@ + unicode_upper(m[grp].set_code@) + ") "@ + m[grp].collector_number@,
        _ => decimal(qty as nat) + " "@ + front_face(fallback_name),
    }
}

/// One line of an Arena deck import.
pub fn arena_line(db: &CardDb, grp: i32, fallback_name: &str, qty: u32) -> (s: String)
    ensures
        s@ == arena_line_spec(db.card_map(), grp, fallback_name@, qty),
{
    let mut s = fmt_u64(qty as u64);
    push_str(&mut s, " ");
    match db.get_card(grp) {
        Some(ci) => {
            let cs = chars_of(ci.name.as_str());
            let front = front_face_chars(cs.as_slice());
            let f = string_of(front.as_slice());
            push_str(&mut s, f.as_str());
            push_str(&mut s, " (");
            let set = to_upper(ci.set_code.as_str());
            push_str(&mut s, set.as_str());
            push_str(&mut s, ") ");
            push_str(&mut s, ci.collector_number.as_str());
        },
        None => {
            let cs = chars_of(fallback_name);
            let front = front_face_chars(cs.as_slice());
            let f = string_of(front.as_slice());
            push_str(&mut s, f.as_str());
        },
    }
    s
}

/// The lines of the main deck of an Arena import: each slot (grp id,
/// name, copies needed) with at least one copy.
pub open spec fn deck_lines(
    cards: Option<Map<i32, CardInfo>>,
    slots: Seq<(i32, String, i32)>,
    n: int,
) -> Seq<char>
    decreases n,
{
    if n <= 0 {
        Seq::empty()
    } else {
        let slot = slots[n - 1];
        let qty: u32 = if slot.2 >= 1 {
            slot.2 as u32
        } else {
            1
        };
        deck_lines(cards, slots, n - 1) + arena_line_spec(cards, slot.0, slot.1@, qty) + "\n"@
    }
}

/// The MTG Arena import text of a built deck: the commander section, then
/// the deck section with one line per slot.
pub fn arena_export(
    db: &CardDb,
    commander_grp: i32,
    commander_name: &str,
    slots: &Vec<(i32, String, i32)>,
) -> (s: String)
    ensures
        s@ == "Commander\n"@ + arena_line_spec(db.card_map(), commander_grp, commander_name@, 1)
            + "\n\nDeck\n"@ + deck_lines(db.card_map(), slots@, slots@.len() as int),
{
    let mut s = owned("Commander\n");
    let line = arena_line(db, commander_grp, commander_name, 1);
    push_str(&mut s, line.as_str());
    push_str(&mut s, "\n\nDeck\n");
    let ghost head = s@;
    let mut i: usize = 0;
    while i < slots.len()
        invariant
            i <= slots@.len(),
            s@ == head + deck_lines(db.card_map(), slots@, i as int),
        decreases slots@.len() - i,
    {
        let qty: u32 = if slots[i].2 >= 1 {
            slots[i].2 as u32
        } else {
            1
        };
        let line = arena_line(db, slots[i].0, slots[i].1.as_str(), qty);
        push_str(&mut s, line.as_str());
        push_str(&mut s, "\n");
        i += 1;
    }
    s
}

// ---------------------------------------------------------------------------
// Seed decks against the collection
// ---------------------------------------------------------------------------

/// How much of a seed deck the player owns: copies owned and in all,
/// copies of cards not on Arena, and the wildcards the rest would cost.
#[derive(Debug, Clone, Copy)]
pub struct SeedTally {
    pub owned_units: u32,
    pub total_units: u32,
    pub unmatched: u32,
    pub wildcard_cost: WildcardBudget,
}

/// The lookup key of a seed deck's card name: its front face, lower-cased.
pub open spec fn seed_key(name: Seq<char>) -> Seq<char> {
    unicode_lower(front_face(name))
}

/// The copies of the first `n` entries of a deck list.
pub open spec fn total_qty(cards: Seq<(String, u32)>, n: int) -> int
    decreases n,
{
    if n <= 0 {
        0
    } else {
        total_qty(cards, n - 1) + cards[n - 1].1
    }
}

/// The tally of the first `n` entries of a deck list, as (owned, total,
/// unmatched, common, uncommon, rare, mythic). An entry whose card is not on
/// Arena, or has no printing, is unmatched; otherwise the copies owned of
/// its best printing count as owned, and each missing copy costs a wildcard
/// of that printing's rarity (basic lands cost none).
pub open spec fn tally_spec(oracles: Seq<OracleCard>, cards: Seq<(String, u32)>, n: int) -> (
    int,
    int,
    int,
    int,
    int,
    int,
    int,
)
    decreases n,
{
    if n <= 0 {
        (0, 0, 0, 0, 0, 0, 0)
    } else {
        let t = tally_spec(oracles, cards, n - 1);
        let qty = cards[n - 1].1 as int;
        let k = last_name_index(oracles, seed_key(cards[n - 1].0@), oracles.len() as int);
        if k < 0 || best_printing_index(oracles[k].printings@) is None {
            (t.0, t.1 + qty, t.2 + qty, t.3, t.4, t.5, t.6)
        } else {
            let p = oracles[k].printings@[best_printing_index(oracles[k].printings@)->0];
            let owned: int = if p.owned_qty > 0 {
                p.owned_qty as int
            } else {
                0
            };
            let have = if owned < qty {
                owned
            } else {
                qty
            };
            let need = qty - have;
            (
                t.0 + have,
                t.1 + qty,
                t.2,
                t.3 + if p.rarity == Rarity::Common {
                    need
                } else {
                    0
                },
                t.4 + if p.rarity == Rarity::Uncommon {
                    need
                } else {
                    0
                },
                t.5 + if p.rarity == Rarity::Rare {
                    need
                } else {
                    0
                },
                t.6 + if p.rarity == Rarity::Mythic {
                    need
                } else {
                    0
                },
            )
        }
    }
}

/// A tally counts every copy of the deck list once: its total is the
/// copies listed, and the copies owned, the copies not on Arena and the
/// wildcards needed are never negative and together never exceed it.
pub proof fn lemma_tally_bounds(oracles: Seq<OracleCard>, cards: Seq<(String, u32)>, n: int)
    requires
        0 <= n <= cards.len(),
    ensures
        ({
            let t = tally_spec(oracles, cards, n);
            &&& t.1 == total_qty(cards, n)
            &&& 0 <= t.0 && 0 <= t.2 && 0 <= t.3 && 0 <= t.4 && 0 <= t.5 && 0 <= t.6
            &&& t.0 + t.2 + t.3 + t.4 + t.5 + t.6 <= t.1
        }),
    decreases n,
{
    if n > 0 {
        lemma_tally_bounds(oracles, cards, n - 1);
    }
}

proof fn lemma_total_qty_mono(cards: Seq<(String, u32)>, a: int, b: int)
    requires
        0 <= a <= b <= cards.len(),
    ensures
        total_qty(cards, a) <= total_qty(cards, b),
    decreases b - a,
{
    if a < b {
        lemma_total_qty_mono(cards, a, b - 1);
    }
}

/// The wildcards of rarity `r` in a tally (none for rarities that need no
/// wildcard).
pub open spec fn tally_wildcards(t: (int, int, int, int, int, int, int), r: Rarity) -> int {
    match r {
        Rarity::Common => t.3,
        Rarity::Uncommon => t.4,
        Rarity::Rare => t.5,
        Rarity::Mythic => t.6,
        _ => 0,
    }
}

/// Each deck-list entry whose card is on Arena with a best printing costs,
/// for every copy not owned, one wildcard of exactly that printing's
/// rarity: adding the entry raises that rarity's count by the missing
/// copies and leaves every other rarity's count as it was. A mythic card
/// costs mythic wildcards only, a rare card rare ones only, and so on;
/// basic lands and other rarities cost none.
pub proof fn lemma_missing_copies_cost_their_rarity(
    oracles: Seq<OracleCard>,
    cards: Seq<(String, u32)>,
    n: int,
)
    requires
        1 <= n <= cards.len(),
        last_name_index(oracles, seed_key(cards[n - 1].0@), oracles.len() as int) >= 0,
        best_printing_index(
            oracles[last_name_index(oracles, seed_key(cards[n - 1].0@), oracles.len() as int)].printings@,
        ) is Some,
    ensures
        ({
            let k = last_name_index(oracles, seed_key(cards[n - 1].0@), oracles.len() as int);
            let p = oracles[k].printings@[best_printing_index(oracles[k].printings@)->0];
            let qty = cards[n - 1].1 as int;
            let owned = if p.owned_qty > 0 { p.owned_qty as int } else { 0 };
            let missing = if owned < qty { qty - owned } else { 0 };
            let before = tally_spec(oracles, cards, n - 1);
            let after = tally_spec(oracles, cards, n);
            forall|r: Rarity|
                #![trigger tally_wildcards(after, r)]
                tally_wildcards(after, r) == tally_wildcards(before, r) + if r == p.rarity
                    && (r == Rarity::Common || r == Rarity::Uncommon || r == Rarity::Rare || r
                    == Rarity::Mythic) {
                    missing
                } else {
                    0
                }
        }),
{
}

/// Tallies a seed deck against the collection: copies owned, copies in all,
/// copies not on Arena, and the wildcards needed for the rest.
pub fn seed_tally(oracles: &[OracleCard], detail: &SeedDeckDetail) -> (t: SeedTally)
    requires
        total_qty(detail.cards@, detail.cards@.len() as int) <= u32::MAX,
    ensures
        ({
            let s = tally_spec(oracles@, detail.cards@, detail.cards@.len() as int);
            &&& t.owned_units == s.0
            &&& t.total_units == s.1
            &&& t.unmatched == s.2
            &&& t.wildcard_cost.common == s.3
            &&& t.wildcard_cost.uncommon == s.4
            &&& t.wildcard_cost.rare == s.5
            &&& t.wildcard_cost.mythic == s.6
        }),
{
    let mut owned_units: u32 = 0;
    let mut total_units: u32 = 0;
    let mut unmatched: u32 = 0;
    let mut wc = WildcardBudget { common: 0, uncommon: 0, rare: 0, mythic: 0 };
    let mut i: usize = 0;
    while i < detail.cards.len()
        invariant
            i <= detail.cards@.len(),
            total_qty(detail.cards@, detail.cards@.len() as int) <= u32::MAX,
            ({
                let s = tally_spec(oracles@, detail.cards@, i as int);
                &&& owned_units == s.0
                &&& total_units == s.1
                &&& unmatched == s.2
                &&& wc.common == s.3
                &&& wc.uncommon == s.4
                &&& wc.rare == s.5
                &&& wc.mythic == s.6
            }),
        decreases detail.cards@.len() - i,
    {
        proof {
            lemma_tally_bounds(oracles@, detail.cards@, i + 1);
            lemma_total_qty_mono(detail.cards@, i + 1, detail.cards@.len() as int);
        }
        let qty = detail.cards[i].1;
        let cs = chars_of(detail.cards[i].0.as_str());
        let front = front_face_chars(cs.as_slice());
        let fs = string_of(front.as_slice());
        let key = to_lower(fs.as_str());
        total_units = total_units + qty;
        match find_name(oracles, key.as_str()) {
            None => {
                unmatched = unmatched + qty;
            },
            Some(k) => match oracles[k].best_printing() {
                None => {
                    unmatched = unmatched + qty;
                },
                Some(p) => {
                    let owned: u32 = if p.owned_qty > 0 {
                        p.owned_qty as u32
                    } else {
                        0
                    };
                    let have = if owned < qty {
                        owned
                    } else {
                        qty
                    };
                    let need = qty - have;
                    owned_units = owned_units + have;
                    match p.rarity {
                        Rarity::Common => {
                            wc.common = wc.common + need;
                        },
                        Rarity::Uncommon => {
                            wc.uncommon = wc.uncommon + need;
                        },
                        Rarity::Rare => {
                            wc.rare = wc.rare + need;
                        },
                        Rarity::Mythic => {
                            wc.mythic = wc.mythic + need;
                        },
                        _ => {},
                    }
                },
            },
        }
        i += 1;
    }
    SeedTally { owned_units, total_units, unmatched, wildcard_cost: wc }
}


/// A wildcard count as the budget holds it: negative counts become 0.
pub open spec fn clamp_count(n: i32) -> u32 {
    if n > 0 {
        n as u32
    } else {
        0
    }
}

/// The player's owned wildcards in the order common, uncommon, rare,
/// mythic, from the log inventory and the memory scan. Where the memory
/// scan has them they win (its scalars replace the log's); else the log's
/// are taken; with neither every count is unknown and reads `u32::MAX`,
/// so that the owned clamp leaves a manual budget as it is.
pub open spec fn owned_wildcards_spec(
    log: Option<(i32, i32, i32, i32)>,
    memory: Option<(i32, i32, i32, i32)>,
) -> WildcardBudget {
    let counts = match memory {
        Some(m) => Some(m),
        None => log,
    };
    match counts {
        Some(c) => WildcardBudget {
            common: clamp_count(c.0),
            uncommon: clamp_count(c.1),
            rare: clamp_count(c.2),
            mythic: clamp_count(c.3),
        },
        None => WildcardBudget {
            common: u32::MAX,
            uncommon: u32::MAX,
            rare: u32::MAX,
            mythic: u32::MAX,
        },
    }
}

fn clamp_count_exec(n: i32) -> (r: u32)
    ensures
        r == clamp_count(n),
{
    if n > 0 {
        n as u32
    } else {
        0
    }
}

/// The wildcard counts the engine clamps a budget to (see
/// `owned_wildcards_spec`).
pub fn owned_wildcards(
    log: Option<(i32, i32, i32, i32)>,
    memory: Option<(i32, i32, i32, i32)>,
) -> (w: WildcardBudget)
    ensures
        w == owned_wildcards_spec(log, memory),
{
    let counts = match memory {
        Some(m) => Some(m),
        None => log,
    };
    match counts {
        Some(c) => WildcardBudget {
            common: clamp_count_exec(c.0),
            uncommon: clamp_count_exec(c.1),
            rare: clamp_count_exec(c.2),
            mythic: clamp_count_exec(c.3),
        },
        None => WildcardBudget {
            common: u32::MAX,
            uncommon: u32::MAX,
            rare: u32::MAX,
            mythic: u32::MAX,
        },
    }
}

} // verus!
