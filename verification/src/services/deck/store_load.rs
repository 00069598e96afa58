//! Turning stored oracle rows into the engine's cards: each row joined with
//! its tags, roles and Arena printings, the live card database and the
//! user's collection.

use std::collections::HashMap;

use vstd::prelude::*;

use crate::models::CardInfo;
use crate::text::{
    chars_of, contains, contains_chars, front_face, front_face_chars, starts_with, starts_with_chars,
    str_views,
};
use super::engine::roles::{theme_list, theme_slugs, TagIndex};
use super::engine::types::{
    lemma_role_names_distinct, mask_from_str, mask_of_chars, role_name, OracleCard, Printing, Role,
};
use super::store::IngestOracle;

verus! {

/// What `serde_json` reads from `text` as a JSON array of strings (`None`
/// when `text` is not one).
pub uninterp spec fn parsed_string_list(text: Seq<char>) -> Option<Seq<Seq<char>>>;

/// Reads `text` as a JSON array of strings with `serde_json::from_str`.
/// The contract names the result as a function of `text` alone; which
/// texts parse, and to what, is left to `serde_json`.
#[verifier::external_body]
fn parse_string_list(text: &str) -> (r: Option<Vec<String>>)
    ensures
        match r {
            Some(v) => parsed_string_list(text@) == Some(str_views(v@)),
            None => parsed_string_list(text@) is None,
        },
{
    serde_json::from_str::<Vec<String>>(text).ok()
}

/// The keywords a stored keyword text gives: the parsed list, or none when
/// the text does not parse.
pub open spec fn keywords_of(text: Seq<char>) -> Seq<Seq<char>> {
    match parsed_string_list(text) {
        Some(k) => k,
        None => seq![],
    }
}

/// The role a wire name names, if any.
pub open spec fn role_named(name: Seq<char>) -> Option<Role> {
    if exists|r: Role| role_name(r) == name {
        Some(choose|r: Role| role_name(r) == name)
    } else {
        None
    }
}

/// The roles named in `names`, in order; names of no role are skipped.
pub open spec fn parsed_roles(names: Seq<Seq<char>>) -> Seq<Role>
    decreases names.len(),
{
    if names.len() == 0 {
        seq![]
    } else {
        let prev = parsed_roles(names.drop_last());
        match role_named(names.last()) {
            Some(r) => prev.push(r),
            None => prev,
        }
    }
}

/// The copies of printing `grp` that the collection holds (0 when absent).
pub open spec fn owned_of(collection: Map<i32, i32>, grp: i32) -> i32 {
    if collection.contains_key(grp) {
        collection[grp]
    } else {
        0
    }
}

/// The printing of card `c` under id `grp`.
pub open spec fn printing_of(grp: i32, c: CardInfo, collection: Map<i32, i32>) -> Printing {
    Printing {
        grp_id: grp,
        set_code: c.set_code,
        collector_number: c.collector_number,
        rarity: c.rarity,
        owned_qty: owned_of(collection, grp),
    }
}

/// The printings of the ids in `grps` that the card database knows and
/// whose primary flag is `primary`, in order.
pub open spec fn printings_of(
    grps: Seq<i32>,
    cards: Map<i32, CardInfo>,
    collection: Map<i32, i32>,
    primary: bool,
) -> Seq<Printing>
    decreases grps.len(),
{
    if grps.len() == 0 {
        seq![]
    } else {
        let prev = printings_of(grps.drop_last(), cards, collection, primary);
        let g = grps.last();
        if cards.contains_key(g) && cards[g].is_primary_card == primary {
            prev.push(printing_of(g, cards[g], collection))
        } else {
            prev
        }
    }
}

/// The first id in `grps` that the card database knows as a primary card.
pub open spec fn first_primary(grps: Seq<i32>, cards: Map<i32, CardInfo>) -> Option<i32>
    decreases grps.len(),
{
    if grps.len() == 0 {
        None
    } else {
        match first_primary(grps.drop_last(), cards) {
            Some(g) => Some(g),
            None => {
                let g = grps.last();
                if cards.contains_key(g) && cards[g].is_primary_card {
                    Some(g)
                } else {
                    None
                }
            },
        }
    }
}

/// The subtypes a card takes: those of its first primary printing.
pub open spec fn subtypes_of(grps: Seq<i32>, cards: Map<i32, CardInfo>) -> Seq<Seq<char>> {
    match first_primary(grps, cards) {
        Some(g) => str_views(cards[g].subtypes@),
        None => seq![],
    }
}

/// `card` is stored row `o` joined with its theme tags (`tag_ids` through
/// `index`), its role names, its Arena ids `grps`, the card database and
/// the collection.
pub open spec fn joined_card(
    card: OracleCard,
    o: IngestOracle,
    index: Seq<(Seq<char>, Seq<char>, Option<Seq<char>>)>,
    tag_ids: Seq<Seq<char>>,
    role_names: Seq<Seq<char>>,
    grps: Seq<i32>,
    cards: Map<i32, CardInfo>,
    collection: Map<i32, i32>,
) -> bool {
    let front = front_face(o.type_line@);
    &&& card.oracle_id@ == o.oracle_id@
    &&& card.name@ == o.name@
    &&& card.name_lower@ == o.name_front_lower@
    &&& card.mana_cost@ == o.mana_cost@
    &&& card.color_identity == mask_of_chars(o.color_identity@)
    &&& card.type_line@ == o.type_line@
    &&& str_views(card.keywords@) == keywords_of(o.keywords@)
    &&& card.oracle_text@ == o.oracle_text@
    &&& card.edhrec_rank == o.edhrec_rank
    &&& card.legal_brawl == o.legal_brawl
    &&& card.legal_standardbrawl == o.legal_standardbrawl
    &&& card.is_commander_eligible == o.is_commander_eligible
    &&& card.power == o.power
    &&& card.roles@ == parsed_roles(role_names)
    &&& str_views(card.tags@) == theme_list(index, tag_ids)
    &&& str_views(card.subtypes@) == subtypes_of(grps, cards)
    &&& card.is_land == contains(front, "Land"@)
    &&& card.is_basic_land == starts_with(front, "Basic Land"@)
    &&& card.is_creature == contains(front, "Creature"@)
    &&& card.printings@ == printings_of(grps, cards, collection, true) + printings_of(
        grps,
        cards,
        collection,
        false,
    )
}

fn copy_strings(v: &Vec<String>) -> (r: Vec<String>)
    ensures
        r@ == v@,
{
    let mut r: Vec<String> = Vec::new();
    let mut i: usize = 0;
    while i < v.len()
        invariant
            i <= v@.len(),
            r@ == v@.take(i as int),
        decreases v@.len() - i,
    {
        r.push(v[i].clone());
        assert(r@ =~= v@.take(i + 1));
        i += 1;
    }
    assert(v@.take(v@.len() as int) =~= v@);
    r
}

/// The roles named in `names`, in order, skipping names of no role.
pub fn roles_from_names(names: &[String]) -> (out: Vec<Role>)
    ensures
        out@ == parsed_roles(str_views(names@)),
{
    let ghost views = str_views(names@);
    let mut out: Vec<Role> = Vec::new();
    let mut i: usize = 0;
    assert(views.take(0) =~= Seq::<Seq<char>>::empty());
    while i < names.len()
        invariant
            i <= names@.len(),
            views == str_views(names@),
            out@ == parsed_roles(views.take(i as int)),
        decreases names@.len() - i,
    {
        proof {
            assert(views.take(i + 1).drop_last() =~= views.take(i as int));
            assert(views.take(i + 1).last() == names@[i as int]@);
            lemma_role_names_distinct();
        }
        match Role::parse(names[i].as_str()) {
            Some(r) => {
                proof {
                    assert(role_name(r) == names@[i as int]@);
                    let c = choose|x: Role| role_name(x) == names@[i as int]@;
                    assert(role_name(c) == names@[i as int]@);
                }
                out.push(r);
            },
            None => {},
        }
        i += 1;
    }
    assert(views.take(names@.len() as int) =~= views);
    out
}

/// The printings of `grps`: primary printings first, then alternate arts,
/// each in the order of `grps`, skipping ids the card database lacks; and
/// the subtypes of the first primary printing.
pub fn printings_from_grps(
    grps: &[i32],
    cards: &HashMap<i32, CardInfo>,
    collection: &HashMap<i32, i32>,
) -> (r: (Vec<Printing>, Vec<String>))
    ensures
        r.0@ == printings_of(grps@, cards@, collection@, true) + printings_of(
            grps@,
            cards@,
            collection@,
            false,
        ),
        str_views(r.1@) == subtypes_of(grps@, cards@),
{
    broadcast use vstd::std_specs::hash::group_hash_axioms;

    let mut primaries: Vec<Printing> = Vec::new();
    let mut alts: Vec<Printing> = Vec::new();
    let mut subtypes: Vec<String> = Vec::new();
    let mut subtypes_set = false;
    let mut i: usize = 0;
    while i < grps.len()
        invariant
            i <= grps@.len(),
            primaries@ == printings_of(grps@.take(i as int), cards@, collection@, true),
            alts@ == printings_of(grps@.take(i as int), cards@, collection@, false),
            subtypes_set == first_primary(grps@.take(i as int), cards@) is Some,
            str_views(subtypes@) == subtypes_of(grps@.take(i as int), cards@),
        decreases grps@.len() - i,
    {
        let g = grps[i];
        proof {
            assert(grps@.take(i + 1).drop_last() =~= grps@.take(i as int));
            assert(grps@.take(i + 1).last() == g);
        }
        match cards.get(&g) {
            Some(card) => {
                let owned_qty = match collection.get(&g) {
                    Some(q) => *q,
                    None => 0,
                };
                let p = Printing {
                    grp_id: g,
                    set_code: card.set_code.clone(),
                    collector_number: card.collector_number.clone(),
                    rarity: card.rarity.duplicate(),
                    owned_qty,
                };
                proof {
                    assert(p == printing_of(g, cards@[g], collection@));
                }
                if card.is_primary_card {
                    if !subtypes_set {
                        subtypes = copy_strings(&card.subtypes);
                        subtypes_set = true;
                    }
                    primaries.push(p);
                } else {
                    alts.push(p);
                }
            },
            None => {},
        }
        i += 1;
    }
    assert(grps@.take(grps@.len() as int) =~= grps@);
    let mut printings = primaries;
    printings.append(&mut alts);
    (printings, subtypes)
}

/// The engine's card for stored row `o`: its theme tags from `tag_ids`
/// through `index`, its roles from `role_names`, its printings from the
/// Arena ids `grps` (primary printings first, then alternate arts, ids the
/// card database lacks skipped, owned counts from `collection`), its
/// subtypes from the first primary printing, its land and creature flags
/// from the front face of its type line, and its keywords parsed from the
/// stored JSON text.
pub fn oracle_card_from_row(
    o: IngestOracle,
    index: &TagIndex,
    tag_ids: &[String],
    role_names: &[String],
    grps: &[i32],
    cards: &HashMap<i32, CardInfo>,
    collection: &HashMap<i32, i32>,
) -> (card: OracleCard)
    ensures
        joined_card(
            card,
            o,
            index@,
            str_views(tag_ids@),
            str_views(role_names@),
            grps@,
            cards@,
            collection@,
        ),
{
    let tags = theme_slugs(index, tag_ids);
    let roles = roles_from_names(role_names);
    let (printings, subtypes) = printings_from_grps(grps, cards, collection);
    let type_chars = chars_of(o.type_line.as_str());
    let front_chars = front_face_chars(&type_chars);
    let land = chars_of("Land");
    let basic_land = chars_of("Basic Land");
    let creature = chars_of("Creature");
    let is_land = contains_chars(&front_chars, &land);
    let is_basic_land = starts_with_chars(&front_chars, &basic_land);
    let is_creature = contains_chars(&front_chars, &creature);
    let keywords = match parse_string_list(o.keywords.as_str()) {
        Some(k) => k,
        None => Vec::new(),
    };
    let color_identity = mask_from_str(o.color_identity.as_str());
    assert(str_views(keywords@) == keywords_of(o.keywords@));
    OracleCard {
        oracle_id: o.oracle_id,
        name: o.name,
        name_lower: o.name_front_lower,
        mana_cost: o.mana_cost,
        color_identity,
        type_line: o.type_line,
        keywords,
        oracle_text: o.oracle_text,
        edhrec_rank: o.edhrec_rank,
        legal_brawl: o.legal_brawl,
        legal_standardbrawl: o.legal_standardbrawl,
        is_commander_eligible: o.is_commander_eligible,
        power: o.power,
        roles,
        tags,
        subtypes,
        is_land,
        is_basic_land,
        is_creature,
        printings,
    }
}


/// A stored oracle row with what the store links to it: the tag ids of its
/// taggings, the names of its stored roles and the Arena ids mapped to it,
/// each in store order.
#[derive(Debug, Clone)]
pub struct StoredOracleRow {
    pub oracle: IngestOracle,
    pub tag_ids: Vec<String>,
    pub role_names: Vec<String>,
    pub grps: Vec<i32>,
}

fn copy_oracle(o: &IngestOracle) -> (r: IngestOracle)
    ensures
        r == *o,
{
    IngestOracle {
        oracle_id: o.oracle_id.clone(),
        name: o.name.clone(),
        name_front_lower: o.name_front_lower.clone(),
        mana_cost: o.mana_cost.clone(),
        color_identity: o.color_identity.clone(),
        type_line: o.type_line.clone(),
        keywords: o.keywords.clone(),
        oracle_text: o.oracle_text.clone(),
        edhrec_rank: o.edhrec_rank,
        legal_brawl: o.legal_brawl,
        legal_standardbrawl: o.legal_standardbrawl,
        is_commander_eligible: o.is_commander_eligible,
        power: o.power,
        layout: o.layout.clone(),
    }
}

/// The engine's cards for the stored rows: one card per row, in row order,
/// each joined with its own links (see `joined_card`); a row with no Arena
/// id the card database knows still gives a card, with no printings.
pub fn oracle_cards_from_rows(
    rows: &[StoredOracleRow],
    index: &TagIndex,
    cards: &HashMap<i32, CardInfo>,
    collection: &HashMap<i32, i32>,
) -> (out: Vec<OracleCard>)
    ensures
        out@.len() == rows@.len(),
        forall|i: int|
            0 <= i < rows@.len() ==> joined_card(
                #[trigger] out@[i],
                rows@[i].oracle,
                index@,
                str_views(rows@[i].tag_ids@),
                str_views(rows@[i].role_names@),
                rows@[i].grps@,
                cards@,
                collection@,
            ),
{
    let mut out: Vec<OracleCard> = Vec::new();
    let mut i: usize = 0;
    while i < rows.len()
        invariant
            i <= rows@.len(),
            out@.len() == i,
            forall|k: int|
                0 <= k < i ==> joined_card(
                    #[trigger] out@[k],
                    rows@[k].oracle,
                    index@,
                    str_views(rows@[k].tag_ids@),
                    str_views(rows@[k].role_names@),
                    rows@[k].grps@,
                    cards@,
                    collection@,
                ),
        decreases rows@.len() - i,
    {
        let row = &rows[i];
        let card = oracle_card_from_row(
            copy_oracle(&row.oracle),
            index,
            row.tag_ids.as_slice(),
            row.role_names.as_slice(),
            row.grps.as_slice(),
            cards,
            collection,
        );
        out.push(card);
        i += 1;
    }
    out
}
} // verus!
