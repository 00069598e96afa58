use std::collections::HashMap;
use std::hash::{DefaultHasher, Hash, Hasher};

use mtga_hub::commands_deck_community::{select_17lands_sets, seventeenlands_priority};
use mtga_hub::services::deck::engine::types::Format;
use mtga_hub::services::deck::sources_archidekt::{pick_staple_decks, SeedDeckSummary};
use mtga_hub::models::{CardInfo, Rarity};
use mtga_hub::services::card_db::{
    find_card_database, is_card_database_name, resolve_db_path, CardDbError,
};
use mtga_hub::services::deck::engine::roles::TagIndex;
use mtga_hub::services::deck::engine::types::{Role, B, G, U, W};
use mtga_hub::services::deck::store::{IngestOracle, IngestTag};
use mtga_hub::services::deck::store_load::{
    oracle_card_from_row, oracle_cards_from_rows, roles_from_names, StoredOracleRow,
};
use mtga_hub::services::card_db::checked_cmc;
use mtga_hub::services::deck::sources::spellbook_combos;
use mtga_hub::services::history_db::{
    build_grant_filter, build_time_filter, compute_collection_hash, retention_cutoffs,
    sorted_entries,
};

fn set_card(set: &str) -> CardInfo {
    CardInfo {
        grp_id: 0,
        name: String::new(),
        set_code: set.into(),
        rarity: Rarity::Common,
        collector_number: String::new(),
        cmc: 0,
        power: None,
        toughness: None,
        deck_limit: 4,
        color_identity: Vec::new(),
        colors: Vec::new(),
        types: Vec::new(),
        subtypes: Vec::new(),
        supertypes: Vec::new(),
        is_rebalanced: false,
        rebalanced_grp_id: None,
        is_primary_card: true,
    }
}

#[test]
fn select_17lands_sets_orders_by_owned_count_then_caps_uncached() {
    let mut cards = HashMap::new();
    cards.insert(1, set_card("BLB"));
    cards.insert(2, set_card("BLB"));
    cards.insert(3, set_card("OTJ"));
    cards.insert(4, set_card("MKM"));
    let mut coll = HashMap::new();
    coll.insert(1, 4);
    coll.insert(2, 4);
    coll.insert(3, 1);
    coll.insert(4, 2);
    let cached = vec!["MKM".to_string()];
    let out = select_17lands_sets(&coll, &cards, &["OTJ".into()], &cached, 1);
    assert_eq!(out, vec!["OTJ".to_string(), "MKM".to_string(), "BLB".to_string()]);
    let out2 = select_17lands_sets(&coll, &cards, &[], &cached, 0);
    assert_eq!(out2, vec!["MKM".to_string()]);
}

#[test]
fn select_17lands_sets_ties_by_code_and_skips_unowned() {
    let mut cards = HashMap::new();
    cards.insert(1, set_card("ZNR"));
    cards.insert(2, set_card("AFR"));
    cards.insert(3, set_card("DMU"));
    cards.insert(4, set_card(""));
    let mut coll = HashMap::new();
    coll.insert(1, 2);
    coll.insert(2, 2);
    coll.insert(3, 0);
    coll.insert(4, 9);
    coll.insert(5, 7);
    // Equal counts sort by code; a zero count, an empty code and an unknown
    // card add nothing; priority repeats are dropped.
    let out = select_17lands_sets(
        &coll,
        &cards,
        &["WOE".to_string(), "WOE".to_string()],
        &[],
        5,
    );
    assert_eq!(out, vec!["WOE".to_string(), "AFR".to_string(), "ZNR".to_string()]);
}

#[test]
fn collection_hash_is_order_independent() {
    let mut coll1 = HashMap::new();
    coll1.insert(1, 4);
    coll1.insert(2, 3);
    coll1.insert(3, 2);
    let mut coll2 = HashMap::new();
    coll2.insert(3, 2);
    coll2.insert(1, 4);
    coll2.insert(2, 3);
    assert_eq!(compute_collection_hash(&coll1), compute_collection_hash(&coll2));
    let mut coll3 = coll2.clone();
    coll3.insert(2, 4);
    assert_ne!(compute_collection_hash(&coll1), compute_collection_hash(&coll3));
}

#[test]
fn sorted_entries_ascend_by_grp() {
    let mut coll = HashMap::new();
    coll.insert(30, 1);
    coll.insert(-2, 5);
    coll.insert(7, 2);
    assert_eq!(sorted_entries(&coll), vec![(-2, 5), (7, 2), (30, 1)]);
    assert_eq!(sorted_entries(&HashMap::new()), Vec::<(i32, i32)>::new());
}

#[test]
fn time_filter_clauses() {
    assert_eq!(build_time_filter(None, None), (String::new(), vec![]));
    assert_eq!(
        build_time_filter(Some(10), None),
        ("WHERE timestamp >= ?1".to_string(), vec![10])
    );
    assert_eq!(
        build_time_filter(None, Some(20)),
        ("WHERE timestamp <= ?1".to_string(), vec![20])
    );
    assert_eq!(
        build_time_filter(Some(10), Some(20)),
        ("WHERE timestamp >= ?1 AND timestamp <= ?2".to_string(), vec![10, 20])
    );
}

#[test]
fn retention_cutoffs_count_whole_days() {
    assert_eq!(retention_cutoffs(1_000_000, 7, 90), (1_000_000 - 604_800, 1_000_000 - 7_776_000));
    assert_eq!(retention_cutoffs(0, 0, 1), (0, -86_400));
}

#[test]
fn card_database_file_names() {
    assert!(is_card_database_name("Raw_CardDatabase_abc123.mtga"));
    assert!(!is_card_database_name("Raw_CardDatabase_abc123.mtga.bak"));
    assert!(!is_card_database_name("Raw_ClientLocalization_x.mtga"));
    let names = vec![
        "Raw_ArtCropDatabase_1.mtga".to_string(),
        "Raw_CardDatabase_2.mtga".to_string(),
        "Raw_CardDatabase_3.mtga".to_string(),
    ];
    assert_eq!(find_card_database(&names), Some(1));
    assert_eq!(find_card_database(&names[..1]), None);
}

#[test]
fn resolve_db_path_outcomes() {
    assert_eq!(
        resolve_db_path(Some("/x/db.mtga"), true, Err(vec![]), None).unwrap(),
        "/x/db.mtga"
    );
    match resolve_db_path(Some("/x/db.mtga"), false, Ok("ignored".into()), None) {
        Err(CardDbError::OverrideNotFound(p)) => assert_eq!(p, "/x/db.mtga"),
        other => panic!("unexpected {:?}", other),
    }
    match resolve_db_path(None, false, Err(vec!["/a".into(), "/b".into()]), None) {
        Err(e @ CardDbError::InstallNotFound(_)) => {
            assert_eq!(e.message(), "MTGA install not found. Checked: /a, /b")
        }
        other => panic!("unexpected {:?}", other),
    }
    match resolve_db_path(None, false, Ok("/mtga/MTGA_Data/Downloads/Raw".into()), None) {
        Err(CardDbError::DatabaseNotFound(d)) => assert_eq!(d, "/mtga/MTGA_Data/Downloads/Raw"),
        other => panic!("unexpected {:?}", other),
    }
    assert_eq!(
        resolve_db_path(None, false, Ok("/r".into()), Some("/r/Raw_CardDatabase_1.mtga".into()))
            .unwrap(),
        "/r/Raw_CardDatabase_1.mtga"
    );
}

fn card(grp: i32, name: &str, set: &str, cn: &str, primary: bool) -> CardInfo {
    CardInfo {
        grp_id: grp,
        name: name.into(),
        set_code: set.into(),
        rarity: Rarity::Rare,
        collector_number: cn.into(),
        cmc: 2,
        power: None,
        toughness: None,
        deck_limit: 4,
        color_identity: vec!["G".into()],
        colors: vec!["G".into()],
        types: vec!["Creature".into()],
        subtypes: vec!["Elf".into(), "Druid".into()],
        supertypes: vec![],
        is_rebalanced: false,
        rebalanced_grp_id: None,
        is_primary_card: primary,
    }
}

fn oracle(id: &str, name: &str, type_line: &str, color_identity: &str) -> IngestOracle {
    IngestOracle {
        oracle_id: id.into(),
        name: name.into(),
        name_front_lower: name.to_lowercase(),
        mana_cost: "{1}{G}".into(),
        color_identity: color_identity.into(),
        type_line: type_line.into(),
        keywords: r#"["Trample","Reach"]"#.into(),
        oracle_text: "".into(),
        edhrec_rank: Some(500),
        legal_brawl: true,
        legal_standardbrawl: false,
        is_commander_eligible: false,
        power: Some(2),
        layout: "normal".into(),
    }
}

#[test]
fn load_oracles_joins_printings_roles_and_themes() {
    let tags = vec![
        IngestTag { tag_id: "t-ramp".into(), slug: "ramp".into(), label: "Ramp".into(), parent_id: None },
        IngestTag {
            tag_id: "t-elves".into(),
            slug: "typal-elf".into(),
            label: "Elves".into(),
            parent_id: None,
        },
    ];
    let index = TagIndex::new(&tags);
    let mut cards = HashMap::new();
    cards.insert(100, card(100, "Test Elf", "blb", "1", true));
    cards.insert(101, card(101, "Test Elf", "blb", "1★", false));
    cards.insert(200, {
        let mut c = card(200, "Forest", "blb", "270", true);
        c.subtypes = vec!["Forest".into()];
        c.types = vec!["Land".into()];
        c
    });
    let mut collection = HashMap::new();
    collection.insert(100, 3);
    collection.insert(200, 8);

    let rows = vec![
        StoredOracleRow {
            oracle: oracle("o-elf", "Test Elf", "Creature — Elf", "G"),
            tag_ids: vec!["t-ramp".to_string(), "t-elves".to_string()],
            role_names: vec!["ramp".to_string(), "threat".to_string()],
            grps: vec![100, 101],
        },
        StoredOracleRow {
            oracle: oracle("o-forest", "Forest", "Basic Land — Forest", "G"),
            tag_ids: vec![],
            role_names: vec![],
            grps: vec![200],
        },
        StoredOracleRow {
            oracle: oracle("o-ghost", "Ghost", "Instant", "WUB"),
            tag_ids: vec![],
            role_names: vec![],
            grps: vec![],
        },
    ];
    let out = oracle_cards_from_rows(&rows, &index, &cards, &collection);
    assert_eq!(out.len(), 3);
    let elf = out.iter().find(|o| o.oracle_id == "o-elf").unwrap().clone();
    let forest = out.iter().find(|o| o.oracle_id == "o-forest").unwrap().clone();
    let ghost = out.iter().find(|o| o.oracle_id == "o-ghost").unwrap().clone();

    assert_eq!(elf.color_identity, G);
    assert!(elf.is_creature);
    assert!(!elf.is_land);
    assert!(!elf.is_basic_land);
    assert_eq!(elf.printings.len(), 2, "primary + alt-art both kept");
    assert_eq!(elf.printings[0].grp_id, 100);
    assert_eq!(elf.printings[0].owned_qty, 3);
    assert_eq!(elf.printings[1].grp_id, 101);
    assert_eq!(elf.printings[1].owned_qty, 0);
    assert_eq!(elf.subtypes, vec!["Elf".to_string(), "Druid".to_string()]);
    assert_eq!(elf.keywords, vec!["Trample".to_string(), "Reach".to_string()]);
    assert!(elf.roles.contains(&Role::Ramp));
    assert!(elf.roles.contains(&Role::Threat));
    assert!(elf.tags.iter().any(|t| t == "typal-elf"), "theme_slugs keeps typal-elf");
    assert!(elf.tags.iter().any(|t| t == "ramp"), "ramp is not a META_ROOT — stays");

    assert!(forest.is_land);
    assert!(forest.is_basic_land);
    assert_eq!(forest.printings.len(), 1);
    assert_eq!(forest.printings[0].owned_qty, 8);

    assert_eq!(ghost.printings.len(), 0, "oracle with no printings still returned");
    assert_eq!(ghost.color_identity, W | U | B);
}

#[test]
fn printings_put_primaries_first_and_skip_unknown_grps() {
    let mut cards = HashMap::new();
    cards.insert(1, card(1, "A", "s", "1", false));
    cards.insert(2, card(2, "A", "s", "2", true));
    let index = TagIndex::new(&[]);
    let mut row = oracle("o", "A", "Legendary Creature — Elf // Forest Land", "");
    row.keywords = "not json".into();
    let c = oracle_card_from_row(row, &index, &[], &[], &[1, 9, 2], &cards, &HashMap::new());
    assert_eq!(c.printings.iter().map(|p| p.grp_id).collect::<Vec<_>>(), vec![2, 1]);
    assert!(c.is_creature);
    assert!(!c.is_land, "only the front face counts");
    assert!(c.keywords.is_empty(), "unparsable keywords give none");
    assert_eq!(c.color_identity, 0);
}

#[test]
fn role_names_parse_in_order_skipping_unknown() {
    let names = vec!["draw".to_string(), "bogus".to_string(), "land".to_string()];
    assert_eq!(roles_from_names(&names), vec![Role::Draw, Role::Land]);
}

#[test]
fn grant_filter_numbers_parameters_in_order() {
    assert_eq!(build_grant_filter(None, None, None), (String::new(), vec![]));
    assert_eq!(
        build_grant_filter(None, None, Some(7)),
        ("WHERE grp_id = ?1".to_string(), vec![7])
    );
    assert_eq!(
        build_grant_filter(Some(1), None, Some(7)),
        ("WHERE timestamp >= ?1 AND grp_id = ?2".to_string(), vec![1, 7])
    );
    assert_eq!(
        build_grant_filter(Some(1), Some(2), Some(7)),
        ("WHERE timestamp >= ?1 AND timestamp <= ?2 AND grp_id = ?3".to_string(), vec![1, 2, 7])
    );
}

#[test]
fn checked_cmc_sums_or_refuses() {
    assert_eq!(checked_cmc("o2oWoW"), Some(4));
    assert_eq!(checked_cmc("oXoR"), Some(1));
    assert_eq!(checked_cmc(""), Some(0));
    assert_eq!(checked_cmc("o2147483647o1"), None);
    assert_eq!(checked_cmc("o2147483647"), Some(i32::MAX));
}

#[test]
fn spellbook_combo_names_are_lowercased() {
    let combos = vec![
        vec!["Baylen, the Haymaker".to_string(), "Scute Swarm".to_string()],
        vec![],
    ];
    assert_eq!(
        spellbook_combos(&combos),
        vec![vec!["baylen, the haymaker".to_string(), "scute swarm".to_string()], vec![]]
    );
}

#[test]
fn staple_decks_are_full_size_and_capped() {
    let mut items = Vec::new();
    for i in 0..30 {
        items.push(SeedDeckSummary {
            id: i,
            name: format!("d{}", i),
            size: if i % 3 == 0 { 99 } else { 100 },
            view_count: 1000 - i as u64,
            colors: vec![],
        });
    }
    let picked = pick_staple_decks(&items, Format::Brawl100);
    assert_eq!(picked.len(), 20);
    assert_eq!(&picked[..4], &[1, 2, 4, 5]);
    assert!(picked.iter().all(|&i| items[i].size == 100));
    assert!(pick_staple_decks(&items, Format::StandardBrawl60).is_empty());
}

#[test]
fn seventeenlands_priority_puts_commander_set_first() {
    let mut cards = HashMap::new();
    cards.insert(1, set_card("BLB"));
    cards.insert(2, set_card("OTJ"));
    cards.insert(3, set_card("BLB"));
    cards.insert(4, set_card(""));
    assert_eq!(
        seventeenlands_priority(&cards, Some(1), &[2, 3, 4, 9]),
        vec!["BLB".to_string(), "OTJ".to_string()]
    );
    assert_eq!(seventeenlands_priority(&cards, None, &[4]), Vec::<String>::new());
}

#[test]
fn collection_hash_is_default_hasher_over_sorted_entries() {
    let mut coll = HashMap::new();
    coll.insert(300, 2);
    coll.insert(-5, 1);
    coll.insert(42, 4);
    let mut hasher = DefaultHasher::new();
    for (g, q) in [(-5i32, 1i32), (42, 4), (300, 2)] {
        g.hash(&mut hasher);
        q.hash(&mut hasher);
    }
    assert_eq!(compute_collection_hash(&coll), hasher.finish() as i64);
    let empty: HashMap<i32, i32> = HashMap::new();
    assert_eq!(compute_collection_hash(&empty), DefaultHasher::new().finish() as i64);
}
