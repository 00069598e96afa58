//! The MTGA card database: how a row of the card table becomes a
//! `CardInfo`, the text fields' parsers, the load errors, and the loaded
//! card map with its lookups.

use std::collections::{HashMap, HashSet};
use std::sync::Arc;

use vstd::prelude::*;

use crate::models::{CardInfo, Rarity};
use crate::numbers::{parse_i32, parse_i32_str};
use crate::regex_match::{regex_replace_all, regex_replaced};
use crate::services::deck::ingest::{joined_by, or_empty};
use crate::text::{
    chars_of, ends_with, ends_with_chars, owned, push_str, split_at_char, split_on, starts_with,
    starts_with_chars, str_eq, str_views, string_of, trim, trim_chars, vec_contains_str,
};

verus! {

// ---------------------------------------------------------------------------
// Errors
// ---------------------------------------------------------------------------

/// Why the card database could not be loaded.
#[derive(Debug, Clone)]
pub enum CardDbError {
    /// No MTGA install was found; the places checked.
    InstallNotFound(Vec<String>),
    /// The install has no card database file; the directory searched.
    DatabaseNotFound(String),
    /// The database path given does not exist.
    OverrideNotFound(String),
    ConnectionFailed(String),
    SchemaInvalid { missing_tables: Vec<String> },
    QueryFailed(String),
}

impl CardDbError {
    /// The message shown for the error.
    pub fn message(&self) -> (m: String)
        ensures
            m@ == (match self {
                CardDbError::InstallNotFound(checked) => "MTGA install not found. Checked: "@
                    + joined_by(str_views(checked@), ", "@),
                CardDbError::DatabaseNotFound(dir) => "No Raw_CardDatabase_*.mtga found in "@
                    + dir@,
                CardDbError::OverrideNotFound(path) => "Override path does not exist: "@ + path@,
                CardDbError::ConnectionFailed(e) => "Failed to open card database: "@ + e@,
                CardDbError::SchemaInvalid { missing_tables } =>
                    "Card database schema invalid — missing tables: "@ + joined_by(
                    str_views(missing_tables@),
                    ", "@,
                ),
                CardDbError::QueryFailed(e) => "Card query failed: "@ + e@,
            }),
    {
        match self {
            CardDbError::InstallNotFound(checked) => {
                let mut m = owned("MTGA install not found. Checked: ");
                let j = join_strings(checked, ", ");
                push_str(&mut m, j.as_str());
                m
            },
            CardDbError::DatabaseNotFound(dir) => {
                let mut m = owned("No Raw_CardDatabase_*.mtga found in ");
                push_str(&mut m, dir.as_str());
                m
            },
            CardDbError::OverrideNotFound(path) => {
                let mut m = owned("Override path does not exist: ");
                push_str(&mut m, path.as_str());
                m
            },
            CardDbError::ConnectionFailed(e) => {
                let mut m = owned("Failed to open card database: ");
                push_str(&mut m, e.as_str());
                m
            },
            CardDbError::SchemaInvalid { missing_tables } => {
                let mut m = owned("Card database schema invalid — missing tables: ");
                let j = join_strings(missing_tables, ", ");
                push_str(&mut m, j.as_str());
                m
            },
            CardDbError::QueryFailed(e) => {
                let mut m = owned("Card query failed: ");
                push_str(&mut m, e.as_str());
                m
            },
        }
    }
}

/// `parts.join(sep)`.
pub fn join_strings(parts: &Vec<String>, sep: &str) -> (s: String)
    ensures
        s@ == joined_by(str_views(parts@), sep@),
{
    let mut s = String::new();
    let mut i: usize = 0;
    while i < parts.len()
        invariant
            i <= parts@.len(),
            s@ == joined_by(str_views(parts@.take(i as int)), sep@),
        decreases parts@.len() - i,
    {
        let ghost prev = str_views(parts@.take(i as int));
        let ghost next = str_views(parts@.take(i + 1));
        assert(next =~= prev.push(parts@[i as int]@));
        assert(next.drop_last() =~= prev);
        if i > 0 {
            push_str(&mut s, sep);
        }
        push_str(&mut s, parts[i].as_str());
        proof {
            if i == 0 {
                assert(s@ =~= next[0]);
            }
        }
        i += 1;
    }
    assert(parts@.take(parts@.len() as int) =~= parts@);
    s
}

// ---------------------------------------------------------------------------
// Locating the database
// ---------------------------------------------------------------------------

/// A file name of the card database: `Raw_CardDatabase_*.mtga`.
pub open spec fn is_card_database_name_spec(name: Seq<char>) -> bool {
    starts_with(name, "Raw_CardDatabase_"@) && ends_with(name, ".mtga"@)
}

/// Whether `name` is the file name of a card database.
pub fn is_card_database_name(name: &str) -> (b: bool)
    ensures
        b == is_card_database_name_spec(name@),
{
    let n = chars_of(name);
    let prefix = chars_of("Raw_CardDatabase_");
    let suffix = chars_of(".mtga");
    starts_with_chars(&n, &prefix) && ends_with_chars(&n, &suffix)
}

/// The position of the first card database among the file names of the
/// raw-data directory, in the order the directory lists them.
pub fn find_card_database(names: &[String]) -> (r: Option<usize>)
    ensures
        match r {
            Some(i) => i < names@.len() && is_card_database_name_spec(names@[i as int]@) && forall|
                k: int,
            | 0 <= k < i ==> !is_card_database_name_spec(#[trigger] names@[k]@),
            None => forall|k: int|
                0 <= k < names@.len() ==> !is_card_database_name_spec(#[trigger] names@[k]@),
        },
{
    let mut i: usize = 0;
    while i < names.len()
        invariant
            i <= names@.len(),
            forall|k: int| 0 <= k < i ==> !is_card_database_name_spec(#[trigger] names@[k]@),
        decreases names@.len() - i,
    {
        if is_card_database_name(names[i].as_str()) {
            return Some(i);
        }
        i += 1;
    }
    None
}

/// Chooses the card database path. With `path_override`, that path when
/// `override_exists`, else `OverrideNotFound`. Without one, the install
/// search decides: its error is `InstallNotFound`; on success it gives the
/// raw-data directory searched, and `found` is the database found there,
/// or `DatabaseNotFound` with that directory when there is none.
pub fn resolve_db_path(
    path_override: Option<&str>,
    override_exists: bool,
    install: Result<String, Vec<String>>,
    found: Option<String>,
) -> (r: Result<String, CardDbError>)
    ensures
        match path_override {
            Some(p) => if override_exists {
                r matches Ok(s) && s@ == p@
            } else {
                r matches Err(CardDbError::OverrideNotFound(s)) && s@ == p@
            },
            None => match install {
                Err(checked) => r matches Err(CardDbError::InstallNotFound(c)) && c@ == checked@,
                Ok(dir) => match found {
                    Some(f) => r matches Ok(s) && s@ == f@,
                    None => r matches Err(CardDbError::DatabaseNotFound(d)) && d@ == dir@,
                },
            },
        },
{
    match path_override {
        Some(p) => {
            if override_exists {
                Ok(owned(p))
            } else {
                Err(CardDbError::OverrideNotFound(owned(p)))
            }
        },
        None => match install {
            Err(checked) => Err(CardDbError::InstallNotFound(checked)),
            Ok(dir) => match found {
                Some(f) => Ok(f),
                None => Err(CardDbError::DatabaseNotFound(dir)),
            },
        },
    }
}

// ---------------------------------------------------------------------------
// Text fields
// ---------------------------------------------------------------------------

/// The markup tags (`<sprite=...>`, `<nobr>`) in localized card names.
pub open spec fn markup_pattern() -> Seq<char> {
    "<[^>]+>"@
}

/// A card name without its markup: every `<...>` tag removed; the raw name
/// where the pattern does not compile.
pub open spec fn clean_name_spec(raw: Seq<char>) -> Seq<char> {
    match regex_replaced(markup_pattern(), raw, ""@) {
        Some(s) => s,
        None => raw,
    }
}

/// Strips MTGA markup tags from a localized card name.
pub fn clean_name(raw: &str) -> (r: String)
    ensures
        r@ == clean_name_spec(raw@),
{
    match regex_replace_all("<[^>]+>", raw, "") {
        Some(s) => s,
        None => owned(raw),
    }
}

/// The mana value of one symbol of MTGA's mana text: a number counts as
/// itself, `X`, `Y` and `Z` as nothing, any other symbol as one.
pub open spec fn symbol_cmc(sym: Seq<char>) -> int {
    match parse_i32(sym) {
        Some(n) => n as int,
        None => if sym == "X"@ || sym == "Y"@ || sym == "Z"@ {
            0
        } else {
            1
        },
    }
}

/// The mana value of the first `n` pieces of a mana text, empty pieces
/// counting nothing.
pub open spec fn cmc_sum(pieces: Seq<Seq<char>>, n: int) -> int
    decreases n,
{
    if n <= 0 {
        0
    } else {
        cmc_sum(pieces, n - 1) + if pieces[n - 1].len() > 0 {
            symbol_cmc(pieces[n - 1])
        } else {
            0
        }
    }
}

/// Whether every running total of a mana text's value fits an `i32`.
pub open spec fn cmc_fits(mana_text: Seq<char>) -> bool {
    forall|k: int|
        0 <= k <= split_on(mana_text, 'o').len() ==> i32::MIN <= #[trigger] cmc_sum(
            split_on(mana_text, 'o'),
            k,
        ) <= i32::MAX
}

/// The mana value of an MTGA `OldSchoolManaText` (`"o2oW"` is {2}{W}, 3).
pub fn parse_cmc(mana_text: &str) -> (cmc: i32)
    requires
        cmc_fits(mana_text@),
    ensures
        cmc == cmc_sum(split_on(mana_text@, 'o'), split_on(mana_text@, 'o').len() as int),
{
    let pieces = split_at_char(mana_text, 'o');
    let ghost ps = split_on(mana_text@, 'o');
    let mut cmc: i32 = 0;
    let mut i: usize = 0;
    while i < pieces.len()
        invariant
            i <= pieces@.len(),
            str_views(pieces@) == ps,
            ps == split_on(mana_text@, 'o'),
            cmc_fits(mana_text@),
            cmc == cmc_sum(ps, i as int),
        decreases pieces@.len() - i,
    {
        let sym = pieces[i].as_str();
        assert(sym@ == ps[i as int]);
        proof {
            assert(i32::MIN <= cmc_sum(ps, i + 1) <= i32::MAX);
        }
        if !sym.is_empty() {
            match parse_i32_str(sym) {
                Some(n) => {
                    cmc = cmc + n;
                },
                None => {
                    if str_eq(sym, "X") || str_eq(sym, "Y") || str_eq(sym, "Z") {
                    } else {
                        cmc = cmc + 1;
                    }
                },
            }
        }
        i += 1;
    }
    cmc
}

/// The mana value of an MTGA mana text, or `None` when a running total of
/// it leaves the `i32` range (where `parse_cmc` does not apply).
pub fn checked_cmc(mana_text: &str) -> (r: Option<i32>)
    ensures
        r is Some <==> cmc_fits(mana_text@),
        r matches Some(c) ==> c == cmc_sum(split_on(mana_text@, 'o'), split_on(mana_text@, 'o').len() as int),
{
    let pieces = split_at_char(mana_text, 'o');
    let ghost ps = split_on(mana_text@, 'o');
    let mut cmc: i64 = 0;
    let mut i: usize = 0;
    while i < pieces.len()
        invariant
            i <= pieces@.len(),
            str_views(pieces@) == ps,
            ps == split_on(mana_text@, 'o'),
            cmc == cmc_sum(ps, i as int),
            forall|k: int| 0 <= k <= i ==> i32::MIN <= #[trigger] cmc_sum(ps, k) <= i32::MAX,
        decreases pieces@.len() - i,
    {
        let sym = pieces[i].as_str();
        assert(sym@ == ps[i as int]);
        let mut v: i64 = 0;
        if !sym.is_empty() {
            match parse_i32_str(sym) {
                Some(n) => {
                    v = n as i64;
                },
                None => {
                    if str_eq(sym, "X") || str_eq(sym, "Y") || str_eq(sym, "Z") {
                    } else {
                        v = 1;
                    }
                },
            }
        }
        assert(cmc_sum(ps, i + 1) == cmc + v);
        cmc = cmc + v;
        if cmc < i32::MIN as i64 || cmc > i32::MAX as i64 {
            return None;
        }
        i += 1;
    }
    Some(cmc as i32)
}

/// A power or toughness: the text as an `i32` (`"*"` and `"X"` give none).
pub fn parse_stat(value: &str) -> (r: Option<i32>)
    ensures
        r == parse_i32(value@),
{
    parse_i32_str(value)
}

/// The ids of the first `n` pieces of a comma-separated list that parse,
/// after trimming, as integers.
pub open spec fn id_list_spec(pieces: Seq<Seq<char>>, n: int) -> Seq<i32>
    decreases n,
{
    if n <= 0 {
        Seq::empty()
    } else {
        let prev = id_list_spec(pieces, n - 1);
        match parse_i32(trim(pieces[n - 1])) {
            Some(v) => prev.push(v),
            None => prev,
        }
    }
}

/// Parses MTGA's comma-separated id lists (`"1,3"`), skipping blanks and
/// non-numbers.
pub fn parse_id_list(s: &str) -> (ids: Vec<i32>)
    ensures
        ids@ == id_list_spec(split_on(s@, ','), split_on(s@, ',').len() as int),
{
    let pieces = split_at_char(s, ',');
    let ghost ps = split_on(s@, ',');
    let mut ids: Vec<i32> = Vec::new();
    let mut i: usize = 0;
    while i < pieces.len()
        invariant
            i <= pieces@.len(),
            str_views(pieces@) == ps,
            ids@ == id_list_spec(ps, i as int),
        decreases pieces@.len() - i,
    {
        assert(pieces@[i as int]@ == ps[i as int]);
        let cs = chars_of(pieces[i].as_str());
        let t = trim_chars(cs.as_slice());
        let ts = string_of(t.as_slice());
        match parse_i32_str(ts.as_str()) {
            Some(v) => {
                ids.push(v);
            },
            None => {},
        }
        i += 1;
    }
    ids
}

/// The names of the first `n` ids that the enum map knows.
pub open spec fn enum_names_spec(ids: Seq<i32>, map: Map<i32, String>, n: int) -> Seq<Seq<char>>
    decreases n,
{
    if n <= 0 {
        Seq::empty()
    } else {
        let prev = enum_names_spec(ids, map, n - 1);
        if map.contains_key(ids[n - 1]) {
            prev.push(map[ids[n - 1]]@)
        } else {
            prev
        }
    }
}

/// Maps enum ids to their display names, skipping unknown ids.
pub fn resolve_enum_names(ids: &[i32], map: &HashMap<i32, String>) -> (names: Vec<String>)
    ensures
        str_views(names@) == enum_names_spec(ids@, map@, ids@.len() as int),
{
    broadcast use vstd::std_specs::hash::group_hash_axioms;

    let mut names: Vec<String> = Vec::new();
    let mut i: usize = 0;
    while i < ids.len()
        invariant
            i <= ids@.len(),
            str_views(names@) == enum_names_spec(ids@, map@, i as int),
        decreases ids@.len() - i,
    {
        match map.get(&ids[i]) {
            Some(n) => {
                let ghost before = str_views(names@);
                names.push(n.clone());
                assert(str_views(names@) =~= before.push(map@[ids@[i as int]]@));
            },
            None => {},
        }
        i += 1;
    }
    names
}

/// The colour letter of an MTGA colour name.
pub open spec fn color_letter_spec(name: Seq<char>) -> Option<Seq<char>> {
    if name == "White"@ {
        Some("W"@)
    } else if name == "Blue"@ {
        Some("U"@)
    } else if name == "Black"@ {
        Some("B"@)
    } else if name == "Red"@ {
        Some("R"@)
    } else if name == "Green"@ {
        Some("G"@)
    } else {
        None
    }
}

/// The five MTGA colour names.
pub open spec fn is_colour_name(name: Seq<char>) -> bool {
    ||| name == "White"@
    ||| name == "Blue"@
    ||| name == "Black"@
    ||| name == "Red"@
    ||| name == "Green"@
}

/// Colour names and their letters: exactly the five colour names have a
/// letter, and it is a single WUBRG letter: the name's initial, except
/// that blue is `U` (black keeps `B`). So the colours map to five distinct
/// letters, red to `R` in particular, and colourless and unknown names to
/// none.
pub proof fn lemma_colour_letters(name: Seq<char>, other: Seq<char>)
    ensures
        color_letter_spec(name) is Some <==> is_colour_name(name),
        color_letter_spec(name) matches Some(l) ==> {
            &&& l.len() == 1
            &&& (l[0] == 'W' || l[0] == 'U' || l[0] == 'B' || l[0] == 'R' || l[0] == 'G')
            &&& (name == "Blue"@ ==> l == "U"@)
            &&& (name != "Blue"@ ==> l == name.take(1))
        },
        color_letter_spec(name) is Some && color_letter_spec(other) == color_letter_spec(name)
            ==> other == name,
{
    reveal_strlit("White");
    reveal_strlit("Blue");
    reveal_strlit("Black");
    reveal_strlit("Red");
    reveal_strlit("Green");
    reveal_strlit("W");
    reveal_strlit("U");
    reveal_strlit("B");
    reveal_strlit("R");
    reveal_strlit("G");
    assert("W"@[0] == 'W' && "U"@[0] == 'U' && "B"@[0] == 'B' && "R"@[0] == 'R' && "G"@[0] == 'G');
    if name == "White"@ {
        assert(name.take(1) =~= "W"@);
    } else if name == "Black"@ {
        assert(name.take(1) =~= "B"@);
    } else if name == "Red"@ {
        assert(name.take(1) =~= "R"@);
    } else if name == "Green"@ {
        assert(name.take(1) =~= "G"@);
    }
}

/// MTGA colour display name to its letter; colourless and unknown names
/// have none.
pub fn color_letter(name: &str) -> (r: Option<&'static str>)
    ensures
        match r {
            Some(l) => color_letter_spec(name@) == Some(l@),
            None => color_letter_spec(name@) is None,
        },
        r is Some <==> is_colour_name(name@),
        r matches Some(l) ==> l@.len() == 1 && (name@ == "Blue"@ ==> l@ == "U"@) && (name@
            != "Blue"@ ==> l@ == name@.take(1)),
{
    proof {
        lemma_colour_letters(name@, name@);
    }
    if str_eq(name, "White") {
        Some("W")
    } else if str_eq(name, "Blue") {
        Some("U")
    } else if str_eq(name, "Black") {
        Some("B")
    } else if str_eq(name, "Red") {
        Some("R")
    } else if str_eq(name, "Green") {
        Some("G")
    } else {
        None
    }
}

// ---------------------------------------------------------------------------
// Card rows
// ---------------------------------------------------------------------------

/// The columns of one row of the card table, as read.
#[derive(Debug, Clone)]
pub struct CardRow {
    pub grp_id: i32,
    pub raw_name: String,
    pub set_code: String,
    pub rarity: i32,
    pub collector_number: Option<String>,
    pub mana_text: Option<String>,
    pub power: Option<String>,
    pub toughness: Option<String>,
    pub alt_deck_limit: Option<i32>,
    /// The extended columns, where the table has them.
    pub ext: Option<CardRowExt>,
}

/// The extended columns of a card row: enum-id lists and flags.
#[derive(Debug, Clone)]
pub struct CardRowExt {
    pub colors: Option<String>,
    pub color_identity: Option<String>,
    pub types: Option<String>,
    pub subtypes: Option<String>,
    pub supertypes: Option<String>,
    pub is_rebalanced: Option<i32>,
    pub rebalanced_grp_id: Option<i32>,
    pub is_primary_card: Option<i32>,
}

/// The enum id to display name maps of the card database.
#[derive(Debug, Clone)]
pub struct EnumMaps {
    pub colors: HashMap<i32, String>,
    pub types: HashMap<i32, String>,
    pub subtypes: HashMap<i32, String>,
    pub supertypes: HashMap<i32, String>,
}

/// The rarity of a card-database rarity code.
pub open spec fn rarity_of_code(v: i32) -> Rarity {
    if v == 0 {
        Rarity::Special
    } else if v == 1 {
        Rarity::BasicLand
    } else if v == 2 {
        Rarity::Common
    } else if v == 3 {
        Rarity::Uncommon
    } else if v == 4 {
        Rarity::Rare
    } else if v == 5 {
        Rarity::Mythic
    } else {
        Rarity::Unknown(v)
    }
}

/// The display names of an enum-id list column.
pub open spec fn enum_column(raw: Option<String>, map: Map<i32, String>) -> Seq<Seq<char>> {
    let ids = id_list_spec(split_on(or_empty(raw), ','), split_on(or_empty(raw), ',').len() as int);
    enum_names_spec(ids, map, ids.len() as int)
}

/// The colour letters of the first `n` colour names.
pub open spec fn letters_of_names(names: Seq<Seq<char>>, n: int) -> Seq<Seq<char>>
    decreases n,
{
    if n <= 0 {
        Seq::empty()
    } else {
        let prev = letters_of_names(names, n - 1);
        match color_letter_spec(names[n - 1]) {
            Some(l) => prev.push(l),
            None => prev,
        }
    }
}

/// The colour letters of a colour-id list column.
pub open spec fn color_column(raw: Option<String>, map: Map<i32, String>) -> Seq<Seq<char>> {
    let names = enum_column(raw, map);
    letters_of_names(names, names.len() as int)
}

/// The `CardInfo` that a card row gives.
pub open spec fn card_of_row(row: CardRow, maps: EnumMaps, c: CardInfo) -> bool {
    &&& c.grp_id == row.grp_id
    &&& c.name@ == clean_name_spec(row.raw_name@)
    &&& c.set_code@ == row.set_code@
    &&& c.rarity == rarity_of_code(row.rarity)
    &&& c.collector_number@ == or_empty(row.collector_number)
    &&& c.cmc == cmc_sum(
        split_on(or_empty(row.mana_text), 'o'),
        split_on(or_empty(row.mana_text), 'o').len() as int,
    )
    &&& c.power == parse_i32(or_empty(row.power))
    &&& c.toughness == parse_i32(or_empty(row.toughness))
    &&& c.deck_limit == (match row.alt_deck_limit {
        Some(v) => v,
        None => 0,
    })
    &&& match row.ext {
        Some(e) => {
            &&& str_views(c.colors@) == color_column(e.colors, maps.colors@)
            &&& str_views(c.color_identity@) == color_column(e.color_identity, maps.colors@)
            &&& str_views(c.types@) == enum_column(e.types, maps.types@)
            &&& str_views(c.subtypes@) == enum_column(e.subtypes, maps.subtypes@)
            &&& str_views(c.supertypes@) == enum_column(e.supertypes, maps.supertypes@)
            &&& c.is_rebalanced == (match e.is_rebalanced {
                Some(v) => v != 0,
                None => false,
            })
            &&& c.rebalanced_grp_id == (match e.rebalanced_grp_id {
                Some(g) => if g != 0 {
                    Some(g)
                } else {
                    None
                },
                None => None,
            })
            &&& c.is_primary_card == (match e.is_primary_card {
                Some(v) => v != 0,
                None => true,
            })
        },
        None => {
            &&& c.colors@.len() == 0
            &&& c.color_identity@.len() == 0
            &&& c.types@.len() == 0
            &&& c.subtypes@.len() == 0
            &&& c.supertypes@.len() == 0
            &&& !c.is_rebalanced
            &&& c.rebalanced_grp_id is None
            &&& c.is_primary_card
        },
    }
}

fn string_or_empty(o: &Option<String>) -> (s: String)
    ensures
        s@ == or_empty(*o),
{
    match o {
        Some(s) => s.clone(),
        None => String::new(),
    }
}

fn enum_column_exec(raw: &Option<String>, map: &HashMap<i32, String>) -> (names: Vec<String>)
    ensures
        str_views(names@) == enum_column(*raw, map@),
{
    let text = string_or_empty(raw);
    let ids = parse_id_list(text.as_str());
    resolve_enum_names(ids.as_slice(), map)
}

fn color_column_exec(raw: &Option<String>, map: &HashMap<i32, String>) -> (letters: Vec<String>)
    ensures
        str_views(letters@) == color_column(*raw, map@),
{
    let names = enum_column_exec(raw, map);
    let mut out: Vec<String> = Vec::new();
    let mut i: usize = 0;
    while i < names.len()
        invariant
            i <= names@.len(),
            str_views(out@) == letters_of_names(str_views(names@), i as int),
        decreases names@.len() - i,
    {
        match color_letter(names[i].as_str()) {
            Some(l) => {
                let ghost before = str_views(out@);
                out.push(owned(l));
                assert(str_views(out@) =~= before.push(l@));
            },
            None => {},
        }
        i += 1;
    }
    out
}

/// Builds the `CardInfo` of a card row: the name without markup, the rarity
/// of its code, the mana value of the mana text, power and toughness where
/// numeric, and, with the extended columns, the colour letters, type names
/// and flags.
pub fn card_from_row(row: &CardRow, maps: &EnumMaps) -> (c: CardInfo)
    requires
        cmc_fits(or_empty(row.mana_text)),
    ensures
        card_of_row(*row, *maps, c),
{
    let mana = string_or_empty(&row.mana_text);
    let power = string_or_empty(&row.power);
    let toughness = string_or_empty(&row.toughness);
    let (colors, color_identity, types, subtypes, supertypes, is_rebalanced, rebalanced_grp_id, is_primary_card) =
        match &row.ext {
        Some(e) => (
            color_column_exec(&e.colors, &maps.colors),
            color_column_exec(&e.color_identity, &maps.colors),
            enum_column_exec(&e.types, &maps.types),
            enum_column_exec(&e.subtypes, &maps.subtypes),
            enum_column_exec(&e.supertypes, &maps.supertypes),
            match e.is_rebalanced {
                Some(v) => v != 0,
                None => false,
            },
            match e.rebalanced_grp_id {
                Some(g) => if g != 0 {
                    Some(g)
                } else {
                    None
                },
                None => None,
            },
            match e.is_primary_card {
                Some(v) => v != 0,
                None => true,
            },
        ),
        None => (Vec::new(), Vec::new(), Vec::new(), Vec::new(), Vec::new(), false, None, true),
    };
    let rarity = Rarity::from_i32(row.rarity);
    CardInfo {
        grp_id: row.grp_id,
        name: clean_name(row.raw_name.as_str()),
        set_code: row.set_code.clone(),
        rarity,
        collector_number: string_or_empty(&row.collector_number),
        cmc: parse_cmc(mana.as_str()),
        power: parse_stat(power.as_str()),
        toughness: parse_stat(toughness.as_str()),
        deck_limit: match row.alt_deck_limit {
            Some(v) => v,
            None => 0,
        },
        color_identity,
        colors,
        types,
        subtypes,
        supertypes,
        is_rebalanced,
        rebalanced_grp_id,
        is_primary_card,
    }
}

/// The extended columns of the card table.
pub open spec fn is_extended_column(c: Seq<char>) -> bool {
    c == "Colors"@ || c == "ColorIdentity"@ || c == "Types"@ || c == "Subtypes"@ || c
        == "Supertypes"@ || c == "IsRebalanced"@ || c == "RebalancedCardGrpId"@ || c
        == "IsPrimaryCard"@
}

/// The names of `names`, in order, that `pool` lacks.
pub open spec fn absent_from(names: Seq<Seq<char>>, pool: Seq<Seq<char>>) -> Seq<Seq<char>>
    decreases names.len(),
{
    if names.len() == 0 {
        Seq::empty()
    } else {
        let prev = absent_from(names.drop_last(), pool);
        if pool.contains(names.last()) {
            prev
        } else {
            prev.push(names.last())
        }
    }
}

/// The character sequences of a list of string slices.
pub open spec fn str_slice_views(v: Seq<&str>) -> Seq<Seq<char>> {
    v.map_values(|s: &str| s@)
}

fn slice_contains_str(v: &[&str], s: &str) -> (b: bool)
    ensures
        b == str_slice_views(v@).contains(s@),
{
    let mut i: usize = 0;
    while i < v.len()
        invariant
            i <= v@.len(),
            forall|j: int| 0 <= j < i ==> v@[j]@ != s@,
        decreases v@.len() - i,
    {
        if str_eq(v[i], s) {
            assert(str_slice_views(v@)[i as int] == s@);
            return true;
        }
        i += 1;
    }
    proof {
        if str_slice_views(v@).contains(s@) {
            let k = choose|k: int| 0 <= k < str_slice_views(v@).len() && str_slice_views(v@)[k] == s@;
            assert(v@[k]@ == s@);
        }
    }
    false
}

/// The schema check of the card database: the required tables it lacks
/// (the database is refused when there is one) and the tables it has
/// beyond the required ones, each in order.
pub fn check_tables(tables: &Vec<String>, required: &[&str]) -> (r: (Vec<String>, Vec<String>))
    ensures
        str_views(r.0@) == absent_from(str_slice_views(required@), str_views(tables@)),
        str_views(r.1@) == absent_from(str_views(tables@), str_slice_views(required@)),
{
    let mut missing: Vec<String> = Vec::new();
    let mut i: usize = 0;
    while i < required.len()
        invariant
            i <= required@.len(),
            str_views(missing@) == absent_from(
                str_slice_views(required@.take(i as int)),
                str_views(tables@),
            ),
        decreases required@.len() - i,
    {
        let t = required[i];
        proof {
            assert(str_slice_views(required@.take(i + 1)).drop_last() =~= str_slice_views(
                required@.take(i as int),
            ));
            assert(str_slice_views(required@.take(i + 1)).last() == t@);
        }
        if !vec_contains_str(tables, t) {
            let ghost before = str_views(missing@);
            missing.push(owned(t));
            assert(str_views(missing@) =~= before.push(t@));
        }
        i += 1;
    }
    assert(required@.take(required@.len() as int) =~= required@);
    let mut extra: Vec<String> = Vec::new();
    let mut k: usize = 0;
    while k < tables.len()
        invariant
            k <= tables@.len(),
            str_views(extra@) == absent_from(
                str_views(tables@.take(k as int)),
                str_slice_views(required@),
            ),
        decreases tables@.len() - k,
    {
        let t = &tables[k];
        proof {
            assert(str_views(tables@.take(k + 1)).drop_last() =~= str_views(tables@.take(k as int)));
            assert(str_views(tables@.take(k + 1)).last() == t@);
        }
        if !slice_contains_str(required, t.as_str()) {
            let ghost before = str_views(extra@);
            extra.push(t.clone());
            assert(str_views(extra@) =~= before.push(t@));
        }
        k += 1;
    }
    assert(tables@.take(tables@.len() as int) =~= tables@);
    (missing, extra)
}

/// Whether the card table has all its extended columns: none of them is
/// among the (table, column) pairs reported missing.
pub fn has_extended_columns(missing_columns: &Vec<(String, String)>) -> (b: bool)
    ensures
        b == !exists|i: int|
            0 <= i < missing_columns@.len() && (#[trigger] missing_columns@[i]).0@ == "Cards"@
                && is_extended_column(missing_columns@[i].1@),
{
    let mut i: usize = 0;
    while i < missing_columns.len()
        invariant
            i <= missing_columns@.len(),
            forall|k: int|
                0 <= k < i ==> !((#[trigger] missing_columns@[k]).0@ == "Cards"@
                    && is_extended_column(missing_columns@[k].1@)),
        decreases missing_columns@.len() - i,
    {
        let t = missing_columns[i].0.as_str();
        let c = missing_columns[i].1.as_str();
        if str_eq(t, "Cards") && (str_eq(c, "Colors") || str_eq(c, "ColorIdentity") || str_eq(
            c,
            "Types",
        ) || str_eq(c, "Subtypes") || str_eq(c, "Supertypes") || str_eq(c, "IsRebalanced")
            || str_eq(c, "RebalancedCardGrpId") || str_eq(c, "IsPrimaryCard")) {
            return false;
        }
        i += 1;
    }
    true
}

// ---------------------------------------------------------------------------
// The loaded card map
// ---------------------------------------------------------------------------

/// What a successful load yields: the cards by grp id, their ids, the
/// database path, the (table, column) pairs the schema lacks, and the
/// tables it has beyond the known ones.
#[derive(Debug)]
pub struct LoadResult {
    pub cards: HashMap<i32, CardInfo>,
    pub valid_ids: HashSet<i32>,
    pub db_path: String,
    pub schema_warnings: Vec<(String, String)>,
    pub extra_tables: Vec<String>,
}

/// The index of the last of the first `n` rows with grp id `g`, or -1.
pub open spec fn last_row_with(rows: Seq<CardRow>, g: i32, n: int) -> int
    decreases n,
{
    if n <= 0 {
        -1
    } else if rows[n - 1].grp_id == g {
        n - 1
    } else {
        last_row_with(rows, g, n - 1)
    }
}

proof fn lemma_last_row_range(rows: Seq<CardRow>, g: i32, n: int)
    requires
        n >= 0,
    ensures
        -1 <= last_row_with(rows, g, n) < n,
        last_row_with(rows, g, n) >= 0 ==> rows[last_row_with(rows, g, n)].grp_id == g,
    decreases n,
{
    if n > 0 {
        lemma_last_row_range(rows, g, n - 1);
    }
}

proof fn lemma_last_row_prefix(a: Seq<CardRow>, b: Seq<CardRow>, g: i32, n: int)
    requires
        0 <= n <= a.len(),
        n <= b.len(),
        forall|k: int| 0 <= k < n ==> a[k] == b[k],
    ensures
        last_row_with(a, g, n) == last_row_with(b, g, n),
    decreases n,
{
    if n > 0 {
        lemma_last_row_prefix(a, b, g, n - 1);
    }
}

/// The card map of the rows: every grp id that a row carries, with the
/// card of the last row carrying it.
pub open spec fn cards_of_rows(
    rows: Seq<CardRow>,
    maps: EnumMaps,
    cards: Map<i32, CardInfo>,
) -> bool {
    &&& forall|g: i32| #[trigger] cards.contains_key(g) <==> last_row_with(rows, g, rows.len() as int) >= 0
    &&& forall|g: i32| #[trigger]
        cards.contains_key(g) ==> card_of_row(
            rows[last_row_with(rows, g, rows.len() as int)],
            maps,
            cards[g],
        )
}

/// Builds the load result from the card rows read: each row becomes a card
/// (a later row with the same grp id replaces an earlier one), and the ids
/// are those of the map.
pub fn load_result_from_rows(
    rows: &Vec<CardRow>,
    maps: &EnumMaps,
    db_path: String,
    schema_warnings: Vec<(String, String)>,
    extra_tables: Vec<String>,
) -> (r: LoadResult)
    requires
        forall|i: int| 0 <= i < rows@.len() ==> cmc_fits(or_empty(#[trigger] rows@[i].mana_text)),
    ensures
        cards_of_rows(rows@, *maps, r.cards@),
        r.valid_ids@ == r.cards@.dom(),
        r.db_path == db_path,
        r.schema_warnings == schema_warnings,
        r.extra_tables == extra_tables,
{
    broadcast use vstd::std_specs::hash::group_hash_axioms;

    let mut cards: HashMap<i32, CardInfo> = HashMap::new();
    let mut valid_ids: HashSet<i32> = HashSet::new();
    let mut i: usize = 0;
    while i < rows.len()
        invariant
            i <= rows@.len(),
            forall|k: int| 0 <= k < rows@.len() ==> cmc_fits(or_empty(#[trigger] rows@[k].mana_text)),
            cards_of_rows(rows@.take(i as int), *maps, cards@),
            valid_ids@ == cards@.dom(),
        decreases rows@.len() - i,
    {
        let card = card_from_row(&rows[i], maps);
        let g = rows[i].grp_id;
        cards.insert(g, card);
        valid_ids.insert(g);
        proof {
            let pre = rows@.take(i as int);
            let post = rows@.take(i + 1);
            assert(post.drop_last() =~= pre);
            assert forall|h: i32| #[trigger] cards@.contains_key(h) <==> last_row_with(
                post,
                h,
                post.len() as int,
            ) >= 0 by {
                lemma_last_row_range(pre, h, pre.len() as int);
                lemma_last_row_prefix(post, pre, h, i as int);
            }
            assert forall|h: i32| #[trigger]
                cards@.contains_key(h) implies card_of_row(
                post[last_row_with(post, h, post.len() as int)],
                *maps,
                cards@[h],
            ) by {
                lemma_last_row_range(pre, h, pre.len() as int);
                lemma_last_row_prefix(post, pre, h, i as int);
                if h != g {
                    assert(post[last_row_with(post, h, post.len() as int)] == pre[last_row_with(
                        pre,
                        h,
                        pre.len() as int,
                    )]);
                }
            }
            assert(valid_ids@ =~= cards@.dom());
        }
        i += 1;
    }
    assert(rows@.take(rows@.len() as int) =~= rows@);
    LoadResult { cards, valid_ids, db_path, schema_warnings, extra_tables }
}

/// `Arc::clone`: another pointer to the same value.
#[verifier::external_body]
fn arc_clone<T>(a: &Arc<T>) -> (r: Arc<T>)
    ensures
        r == *a,
{
    Arc::clone(a)
}

/// The loaded card database.
pub struct CardDb {
    cards: Option<Arc<HashMap<i32, CardInfo>>>,
    valid_ids: Option<HashSet<i32>>,
    db_path: Option<String>,
}

impl CardDb {
    /// The cards by grp id, once loaded.
    pub closed spec fn card_map(&self) -> Option<Map<i32, CardInfo>> {
        match self.cards {
            Some(a) => Some((*a)@),
            None => None,
        }
    }

    /// The valid card ids, once loaded.
    pub closed spec fn id_set(&self) -> Option<Set<i32>> {
        match self.valid_ids {
            Some(s) => Some(s@),
            None => None,
        }
    }

    /// The database path, once loaded.
    pub closed spec fn path(&self) -> Option<Seq<char>> {
        match self.db_path {
            Some(p) => Some(p@),
            None => None,
        }
    }

    /// An empty, unloaded database.
    pub fn new() -> (db: Self)
        ensures
            db.card_map() is None,
            db.id_set() is None,
            db.path() is None,
    {
        CardDb { cards: None, valid_ids: None, db_path: None }
    }

    /// Takes over the cards, ids and path of a load.
    pub fn install(&mut self, result: LoadResult)
        ensures
            final(self).card_map() == Some(result.cards@),
            final(self).id_set() == Some(result.valid_ids@),
            final(self).path() == Some(result.db_path@),
    {
        self.cards = Some(Arc::new(result.cards));
        self.valid_ids = Some(result.valid_ids);
        self.db_path = Some(result.db_path);
    }

    /// The card with grp id `grp_id`, if loaded and known.
    pub fn get_card(&self, grp_id: i32) -> (c: Option<&CardInfo>)
        ensures
            match self.card_map() {
                Some(m) => match c {
                    Some(card) => m.contains_key(grp_id) && *card == m[grp_id],
                    None => !m.contains_key(grp_id),
                },
                None => c is None,
            },
    {
        broadcast use vstd::std_specs::hash::group_hash_axioms;

        match &self.cards {
            Some(a) => {
                let m: &HashMap<i32, CardInfo> = &**a;
                m.get(&grp_id)
            },
            None => None,
        }
    }

    /// Whether `grp_id` is a valid (non-token) card id.
    pub fn is_valid_id(&self, grp_id: i32) -> (b: bool)
        ensures
            b == (match self.id_set() {
                Some(s) => s.contains(grp_id),
                None => false,
            }),
    {
        broadcast use vstd::std_specs::hash::group_hash_axioms;

        match &self.valid_ids {
            Some(ids) => ids.contains(&grp_id),
            None => false,
        }
    }

    /// The valid card ids, if loaded.
    pub fn valid_ids(&self) -> (r: Option<&HashSet<i32>>)
        ensures
            match r {
                Some(s) => self.id_set() == Some(s@),
                None => self.id_set() is None,
            },
    {
        self.valid_ids.as_ref()
    }

    /// The card map, if loaded.
    pub fn all_cards(&self) -> (r: Option<&HashMap<i32, CardInfo>>)
        ensures
            match r {
                Some(m) => self.card_map() == Some(m@),
                None => self.card_map() is None,
            },
    {
        match &self.cards {
            Some(a) => Some(&**a),
            None => None,
        }
    }

    /// A shared handle on the card map, if loaded.
    pub fn all_cards_arc(&self) -> (r: Option<Arc<HashMap<i32, CardInfo>>>)
        ensures
            match r {
                Some(a) => self.card_map() == Some((*a)@),
                None => self.card_map() is None,
            },
    {
        match &self.cards {
            Some(a) => Some(arc_clone(a)),
            None => None,
        }
    }

    /// How many cards are loaded.
    pub fn card_count(&self) -> (n: usize)
        ensures
            n == (match self.card_map() {
                Some(m) => m.len(),
                None => 0,
            }),
    {
        broadcast use vstd::std_specs::hash::group_hash_axioms;

        match &self.cards {
            Some(a) => {
                let m: &HashMap<i32, CardInfo> = &**a;
                m.len()
            },
            None => 0,
        }
    }

    /// Whether the database is loaded.
    pub fn is_loaded(&self) -> (b: bool)
        ensures
            b == self.card_map() is Some,
    {
        self.cards.is_some()
    }

    /// The path of the loaded database file, if any.
    pub fn db_path(&self) -> (p: Option<String>)
        ensures
            match p {
                Some(s) => self.path() == Some(s@),
                None => self.path() is None,
            },
    {
        match &self.db_path {
            Some(s) => Some(s.clone()),
            None => None,
        }
    }
}

} // verus!
