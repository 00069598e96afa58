use std::collections::HashMap;

use mtga_hub::commands_deck::{arena_export, arena_line, build_err_to_string, owned_wildcards, seed_tally};
use mtga_hub::models::{merge_art_styles, CosmeticArtStyle, Rarity};
use mtga_hub::services::card_db::{
    card_from_row, check_tables, clean_name, color_letter, has_extended_columns, join_strings,
    load_result_from_rows, parse_cmc, parse_id_list, parse_stat, resolve_enum_names, CardDb,
    CardDbError, CardRow, CardRowExt, EnumMaps,
};
use mtga_hub::services::deck::engine::types::{OracleCard, Printing, G};
use mtga_hub::services::deck::engine::BuildError;
use mtga_hub::services::deck::ingest::normalize_name;
use mtga_hub::services::deck::sources_archidekt::SeedDeckDetail;

#[test]
fn parse_id_list_handles_empty_and_csv() {
    assert_eq!(parse_id_list(""), Vec::<i32>::new());
    assert_eq!(parse_id_list("1,3"), vec![1, 3]);
    assert_eq!(parse_id_list(" 2 , x ,5"), vec![2, 5]);
}

#[test]
fn resolve_enum_names_maps_known_and_skips_unknown() {
    let mut m = HashMap::new();
    m.insert(1, "White".to_string());
    m.insert(2, "Blue".to_string());
    assert_eq!(resolve_enum_names(&[2, 9, 1], &m), vec!["Blue".to_string(), "White".to_string()]);
}

#[test]
fn color_letter_maps_mtga_names() {
    assert_eq!(color_letter("White"), Some("W"));
    assert_eq!(color_letter("Green"), Some("G"));
    assert_eq!(color_letter("Colorless"), None);
}

#[test]
fn parse_cmc_counts_generic_colored_and_variable() {
    assert_eq!(parse_cmc("o2oW"), 3);
    assert_eq!(parse_cmc("oXoGoG"), 2);
    assert_eq!(parse_cmc(""), 0);
    assert_eq!(parse_cmc("o10"), 10);
    assert_eq!(parse_stat("2"), Some(2));
    assert_eq!(parse_stat("*"), None);
    assert_eq!(parse_stat(""), None);
}

#[test]
fn clean_name_strips_markup() {
    assert_eq!(clean_name("<nobr>Lightning</nobr> Bolt"), "Lightning Bolt");
    assert_eq!(clean_name("Plain"), "Plain");
}

#[test]
fn card_db_error_messages() {
    let e = CardDbError::InstallNotFound(vec!["a".into(), "b".into()]);
    assert_eq!(e.message(), "MTGA install not found. Checked: a, b");
    let e = CardDbError::QueryFailed("boom".into());
    assert_eq!(e.message(), "Card query failed: boom");
    let e = CardDbError::SchemaInvalid { missing_tables: vec!["Cards".into()] };
    assert_eq!(e.message(), "Card database schema invalid — missing tables: Cards");
    assert_eq!(join_strings(&vec![], ", "), "");
}

fn maps() -> EnumMaps {
    let mut colors = HashMap::new();
    colors.insert(1, "White".to_string());
    colors.insert(5, "Green".to_string());
    colors.insert(6, "Colorless".to_string());
    let mut types = HashMap::new();
    types.insert(2, "Creature".to_string());
    let mut subtypes = HashMap::new();
    subtypes.insert(30, "Elf".to_string());
    EnumMaps { colors, types, subtypes, supertypes: HashMap::new() }
}

fn row(grp: i32, name: &str, ext: bool) -> CardRow {
    CardRow {
        grp_id: grp,
        raw_name: name.into(),
        set_code: "blb".into(),
        rarity: 4,
        collector_number: Some("207".into()),
        mana_text: Some("o1oGoW".into()),
        power: Some("2".into()),
        toughness: Some("*".into()),
        alt_deck_limit: None,
        ext: if ext {
            Some(CardRowExt {
                colors: Some("5,1".into()),
                color_identity: Some("1,5,6".into()),
                types: Some("2".into()),
                subtypes: Some("30,31".into()),
                supertypes: None,
                is_rebalanced: Some(1),
                rebalanced_grp_id: Some(0),
                is_primary_card: None,
            })
        } else {
            None
        },
    }
}

#[test]
fn card_rows_become_cards() {
    let m = maps();
    let c = card_from_row(&row(7, "<b>Elf</b> Lord", true), &m);
    assert_eq!(c.name, "Elf Lord");
    assert_eq!(c.rarity, Rarity::Rare);
    assert_eq!(c.cmc, 3);
    assert_eq!(c.power, Some(2));
    assert_eq!(c.toughness, None);
    assert_eq!(c.colors, vec!["G".to_string(), "W".to_string()]);
    assert_eq!(c.color_identity, vec!["W".to_string(), "G".to_string()]);
    assert_eq!(c.types, vec!["Creature".to_string()]);
    assert_eq!(c.subtypes, vec!["Elf".to_string()]);
    assert!(c.is_rebalanced);
    assert_eq!(c.rebalanced_grp_id, None);
    assert!(c.is_primary_card);
    let plain = card_from_row(&row(8, "Plain", false), &m);
    assert!(plain.colors.is_empty());
    assert!(!plain.is_rebalanced);
    assert!(plain.is_primary_card);
}

#[test]
fn extended_columns_detection() {
    assert!(has_extended_columns(&vec![("Other".into(), "Colors".into())]));
    assert!(!has_extended_columns(&vec![("Cards".into(), "Types".into())]));
    assert!(has_extended_columns(&vec![("Cards".into(), "Flavor".into())]));
}

#[test]
fn load_result_keeps_last_row_per_grp_and_install_into_db() {
    let m = maps();
    let rows = vec![row(1, "First", false), row(2, "Second", false), row(1, "Again", false)];
    let r = load_result_from_rows(&rows, &m, "/db".into(), vec![], vec![]);
    assert_eq!(r.cards.len(), 2);
    assert_eq!(r.cards[&1].name, "Again");
    assert!(r.valid_ids.contains(&2));
    let mut db = CardDb::new();
    assert!(!db.is_loaded());
    assert_eq!(db.card_count(), 0);
    assert!(db.get_card(1).is_none());
    db.install(r);
    assert!(db.is_loaded());
    assert_eq!(db.card_count(), 2);
    assert_eq!(db.get_card(2).unwrap().name, "Second");
    assert!(db.is_valid_id(1));
    assert!(!db.is_valid_id(3));
    assert_eq!(db.db_path(), Some("/db".to_string()));
    assert_eq!(db.all_cards().unwrap().len(), 2);
    assert_eq!(db.all_cards_arc().unwrap().len(), 2);
    assert_eq!(db.valid_ids().unwrap().len(), 2);
    assert_eq!(arena_line(&db, 2, "ignored", 3), "3 Second (BLB) 207");
}

#[test]
fn arena_line_uses_card_db_when_present() {
    let db = CardDb::new();
    let s = arena_line(&db, 1, "Sol Ring", 1);
    assert_eq!(s, "1 Sol Ring");
}

#[test]
fn arena_export_sections_and_front_faces() {
    let db = CardDb::new();
    let slots = vec![(5, "Fable // Reflection".to_string(), 1), (6, "Forest".to_string(), 0)];
    assert_eq!(
        arena_export(&db, 9, "Baylen", &slots),
        "Commander\n1 Baylen\n\nDeck\n1 Fable\n1 Forest\n"
    );
    assert_eq!(
        build_err_to_string(BuildError::InvalidRequest("x".into())),
        "DECK-009: x"
    );
}

fn oracle(name: &str, owned: i32, rarity: Rarity) -> OracleCard {
    OracleCard {
        oracle_id: String::new(),
        name: name.into(),
        name_lower: name.to_lowercase(),
        mana_cost: String::new(),
        color_identity: G,
        type_line: String::new(),
        keywords: Vec::new(),
        oracle_text: String::new(),
        edhrec_rank: None,
        legal_brawl: true,
        legal_standardbrawl: true,
        is_commander_eligible: false,
        power: None,
        roles: Vec::new(),
        tags: Vec::new(),
        subtypes: Vec::new(),
        is_land: false,
        is_basic_land: false,
        is_creature: false,
        printings: vec![Printing {
            grp_id: 1000,
            set_code: String::new(),
            collector_number: String::new(),
            rarity,
            owned_qty: owned,
        }],
    }
}

#[test]
fn score_seed_owned_and_wildcard_math() {
    let oracles = vec![
        oracle("Owned Card", 1, Rarity::Rare),
        oracle("Missing Card", 0, Rarity::Uncommon),
        oracle("Forest", 0, Rarity::BasicLand),
    ];
    let detail = SeedDeckDetail {
        id: 1,
        name: "t".into(),
        commander_names: vec![],
        cards: vec![
            ("Owned Card".into(), 1),
            ("Missing Card".into(), 1),
            ("Forest".into(), 5),
            ("Ghost Card".into(), 1),
        ],
    };
    let s = seed_tally(&oracles, &detail);
    assert_eq!(s.unmatched, 1);
    let owned_pct = s.owned_units as f32 / s.total_units as f32;
    assert!((owned_pct - 1.0 / 8.0).abs() < 1e-4);
    assert_eq!(s.wildcard_cost.uncommon, 1);
    assert_eq!(s.wildcard_cost.rare, 0);
    assert_eq!(s.wildcard_cost.common, 0);
}

#[test]
fn owned_wildcards_prefers_memory_then_log_else_unknown() {
    let both = owned_wildcards(Some((1, 2, 3, 4)), Some((5, -6, 7, 8)));
    assert_eq!((both.common, both.uncommon, both.rare, both.mythic), (5, 0, 7, 8));
    let log_only = owned_wildcards(Some((1, 2, -3, 4)), None);
    assert_eq!((log_only.common, log_only.uncommon, log_only.rare, log_only.mythic), (1, 2, 0, 4));
    let mem_only = owned_wildcards(None, Some((9, 0, 1, 2)));
    assert_eq!((mem_only.common, mem_only.uncommon, mem_only.rare, mem_only.mythic), (9, 0, 1, 2));
    let none = owned_wildcards(None, None);
    assert_eq!(none.common, u32::MAX);
    assert_eq!(none.mythic, u32::MAX);
}

#[test]
fn check_tables_reports_missing_and_extra_tables() {
    let tables = vec!["Enums".to_string(), "Cards".to_string(), "Abilities".to_string()];
    let (missing, extra) = check_tables(&tables, &["Cards", "Localizations_enUS", "Enums"]);
    assert_eq!(missing, vec!["Localizations_enUS".to_string()]);
    assert_eq!(extra, vec!["Abilities".to_string()]);
}

#[test]
fn art_styles_merge_without_duplicates() {
    let mut styles = vec![CosmeticArtStyle { grp_id: 1, art_id: 2 }];
    merge_art_styles(
        &mut styles,
        &[
            CosmeticArtStyle { grp_id: 1, art_id: 2 },
            CosmeticArtStyle { grp_id: 1, art_id: 3 },
            CosmeticArtStyle { grp_id: 1, art_id: 3 },
        ],
    );
    assert_eq!(
        styles,
        vec![CosmeticArtStyle { grp_id: 1, art_id: 2 }, CosmeticArtStyle { grp_id: 1, art_id: 3 }]
    );
}

#[test]
fn normalize_name_lower_cases_ascii_names() {
    assert_eq!(normalize_name("  Sol RING // Back "), "sol ring");
}
