use mtga_hub::commands::{build_app_status, build_service_statuses, LogSnapshot, MemorySnapshot};
use mtga_hub::models::Rarity;
use mtga_hub::services::card_db::CardDb;
use mtga_hub::services::deck::engine::types::{
    BuildRequest, Format, OracleCard, OwnershipMode, Playstyle, Printing, Role, WildcardBudget,
    B, G, R, U, W,
};
use mtga_hub::services::deck::engine::{make_plan, resolve_template, seed_warnings, BuildError};
use mtga_hub::services::deck::service::{day_key, IngestGuard, WarnedHosts};
use mtga_hub::services::diagnostics::{DiagnosticEntry, DiagnosticLog};

#[test]
fn day_key_matches_known_dates() {
    assert_eq!(day_key(0), "1970-01-01");
    assert_eq!(day_key(86_399), "1970-01-01");
    assert_eq!(day_key(86_400), "1970-01-02");
    assert_eq!(day_key(946_684_800), "2000-01-01");
    assert_eq!(day_key(946_684_800 - 1), "1999-12-31");
    assert_eq!(day_key(1_709_164_800), "2024-02-29");
}

#[test]
fn day_key_before_epoch_and_century_rules() {
    assert_eq!(day_key(-1), "1969-12-31");
    // 1900 was not a leap year; 2100-03-01 follows 2100-02-28.
    assert_eq!(day_key(-2_203_891_200), "1900-03-01");
    assert_eq!(day_key(4_107_542_400), "2100-03-01");
    assert_eq!(day_key(4_107_542_400 - 86_400), "2100-02-28");
}

fn entry(i: u64) -> DiagnosticEntry {
    DiagnosticEntry {
        code: format!("C-{i}"),
        level: "info".into(),
        message: "m".into(),
        timestamp_epoch_s: i,
    }
}

#[test]
fn diagnostic_log_keeps_the_latest_two_hundred() {
    let mut log = DiagnosticLog::new();
    assert!(log.recent(10).is_empty());
    for i in 0..205 {
        log.push(entry(i));
    }
    let all = log.recent(1000);
    assert_eq!(all.len(), 200);
    assert_eq!(all[0].timestamp_epoch_s, 5);
    assert_eq!(all[199].timestamp_epoch_s, 204);
    let last = log.recent(2);
    assert_eq!(last.len(), 2);
    assert_eq!(last[0].code, "C-203");
    assert_eq!(last[1].code, "C-204");
}

#[test]
fn service_registry_rows() {
    let db = CardDb::new();
    let log = LogSnapshot { running: true, has_inventory: false, log_path: Some("/l".into()) };
    let mem = MemorySnapshot { has_scan: true, unique: 3, total: 9, scanning: false, watching: true };
    let s = build_service_statuses(&db, &log, Some(mem), Some(42));
    assert_eq!(s.len(), 5);
    assert_eq!(s[0].state, "error");
    assert_eq!(s[0].detail, "Not loaded");
    assert_eq!(s[1].detail, "Watching \u{00b7} waiting for session");
    assert_eq!(s[1].path.as_deref(), Some("/l"));
    assert_eq!(s[2].detail, "3 unique / 9 total");
    assert_eq!(s[3].state, "active");
    assert_eq!(s[4].detail, "PID 42");
    let busy = build_service_statuses(&db, &log, None, None);
    assert_eq!(busy[2].state, "scanning");
    assert_eq!(busy[3].detail, "Busy");
    assert_eq!(busy[4].state, "idle");
    let st = build_app_status(&db, &log, None, None);
    assert!(st.is_scanning);
    assert!(!st.card_db_loaded);
    assert!(st.log_watcher_running);
}

fn card(grp: i32, oracle: &str, name: &str, identity: u8, commander: bool) -> OracleCard {
    OracleCard {
        oracle_id: oracle.into(),
        name: name.into(),
        name_lower: name.to_lowercase(),
        mana_cost: String::new(),
        color_identity: identity,
        type_line: String::new(),
        keywords: Vec::new(),
        oracle_text: String::new(),
        edhrec_rank: None,
        legal_brawl: true,
        legal_standardbrawl: false,
        is_commander_eligible: commander,
        power: None,
        roles: Vec::new(),
        tags: vec!["t-a".into()],
        subtypes: vec!["Elf".into(), "".into()],
        is_land: false,
        is_basic_land: false,
        is_creature: true,
        printings: vec![Printing {
            grp_id: grp,
            set_code: "x".into(),
            collector_number: "1".into(),
            rarity: Rarity::Common,
            owned_qty: 0,
        }],
    }
}

fn request(commander: Option<i32>) -> BuildRequest {
    BuildRequest {
        format: Format::Brawl100,
        commander_grp: commander,
        ownership: OwnershipMode::OwnedOnly {
            wc_budget: WildcardBudget { common: 10, uncommon: 1, rare: 5, mythic: 0 },
        },
        playstyle: Playstyle::Midrange,
        color_subset: None,
        theme_tags: vec!["t-b".into(), "t-a".into()],
        must_include: vec![],
        build_around: vec![],
        exclude: vec![],
        seed: None,
        template_overrides: None,
        use_17lands: false,
    }
}

#[test]
fn invalid_commander_requests_are_refused() {
    let oracles = vec![card(1, "o-c", "Cmdr", G | W, true), card(2, "o-x", "Bear", G, false)];
    let err = resolve_template(&oracles, &request(Some(2))).unwrap_err();
    assert_eq!(err.code(), "DECK-009");
    assert_eq!(err.message(), "DECK-009: commander not eligible: Bear");
    let err = resolve_template(&oracles, &request(Some(9_999_999))).unwrap_err();
    assert_eq!(err.message(), "DECK-009: commander not found (grp 9999999)");
    let err = resolve_template(&oracles, &request(None)).unwrap_err();
    assert_eq!(err.message(), "DECK-009: commander_grp required");
    let mut sb = request(Some(1));
    sb.format = Format::StandardBrawl60;
    let err = resolve_template(&oracles, &sb).unwrap_err();
    assert_eq!(err.message(), "DECK-009: commander not legal in format: Cmdr");
    let t = resolve_template(&oracles, &request(Some(1))).unwrap();
    assert_eq!(t.lands, 37);
    assert_eq!(t.max(Role::Counter), 0);
}

#[test]
fn make_plan_selects_pool_and_validates_forced_cards() {
    let oracles = vec![
        card(1, "o-c", "Cmdr", G | W, true),
        card(2, "o-x", "Bear", G, false),
        card(3, "o-r", "Goblin", R, false),
    ];
    let owned = WildcardBudget { common: 3, uncommon: 4, rare: 9, mythic: 2 };
    let seeds = vec!["bear".to_string(), "nope".to_string()];
    let mut req = request(Some(1));
    req.must_include = vec![2];
    let p = make_plan(&oracles, &seeds, &Vec::new(), owned, &req).unwrap();
    assert_eq!(p.commander_idx, 0);
    assert_eq!(p.identity, G | W);
    assert_eq!(p.pool, vec![1]);
    assert_eq!(p.must_include, vec![1]);
    assert_eq!(p.seed_order, vec![1]);
    assert!(p.owned_only);
    assert_eq!(p.budget, WildcardBudget { common: 3, uncommon: 1, rare: 5, mythic: 0 });
    assert_eq!(p.commander_subtypes_lower, vec!["elf".to_string()]);
    assert_eq!(p.theme.len(), 2);
    assert!(p.theme.contains(&"t-b".to_string()));
    let w = seed_warnings(&oracles, &seeds);
    assert_eq!(w.len(), 1);
    assert_eq!(w[0].code, "DECK-010");
    assert_eq!(w[0].message, "seed card not on Arena: nope");

    req.must_include = vec![3];
    let err = make_plan(&oracles, &seeds, &Vec::new(), owned, &req).unwrap_err();
    assert_eq!(err.message(), "DECK-009: must_include outside identity: Goblin");
    req.must_include = vec![];
    req.build_around = vec![77];
    let err = make_plan(&oracles, &seeds, &Vec::new(), owned, &req).unwrap_err();
    assert!(matches!(err, BuildError::InvalidRequest(_)));
    assert_eq!(err.message(), "DECK-009: build_around grp not found: 77");
}

#[test]
fn warn_once_warns_each_host_once_per_code() {
    let mut w = WarnedHosts::new();
    assert_eq!(w.warn_once("DECK-007", "edhrec"), Some("DECK-007: edhrec".to_string()));
    assert_eq!(w.warn_once("DECK-007", "edhrec"), None);
    assert_eq!(w.warn_once("DECK-008", "edhrec"), Some("DECK-008: edhrec".to_string()));
    assert_eq!(w.warn_once("DECK-008", "edhrec"), None);
    assert_eq!(w.warn_once("DECK-007", "17lands"), Some("DECK-007: 17lands".to_string()));
    assert_eq!(w.warn_once("DECK-999", "edhrec"), None);
    assert_eq!(w.degraded, vec!["edhrec".to_string(), "17lands".to_string()]);
    assert_eq!(w.capped, vec!["edhrec".to_string()]);
}

fn printing(grp: i32, rarity: Rarity, owned: i32) -> Printing {
    Printing {
        grp_id: grp,
        set_code: "tst".into(),
        collector_number: grp.to_string(),
        rarity,
        owned_qty: owned,
    }
}

fn fixture_card(oracle: String, name: String, identity: u8, roles: Vec<Role>, p: Printing) -> OracleCard {
    OracleCard {
        oracle_id: oracle,
        name_lower: name.to_lowercase(),
        name,
        mana_cost: String::new(),
        color_identity: identity,
        type_line: String::new(),
        keywords: Vec::new(),
        oracle_text: String::new(),
        edhrec_rank: None,
        legal_brawl: true,
        legal_standardbrawl: true,
        is_commander_eligible: false,
        power: None,
        roles,
        tags: Vec::new(),
        subtypes: Vec::new(),
        is_land: false,
        is_basic_land: false,
        is_creature: false,
        printings: vec![p],
    }
}

/// A W|G commander (grp 1), six basics, thirty nonbasic lands, and per role
/// 25 cards across identities W, G, WG, U, R, every other one owned.
fn gen_oracles() -> Vec<OracleCard> {
    let mut oracles = Vec::new();
    let mut next_grp: i32 = 100;
    let mut cmdr = fixture_card(
        "test-commander".into(),
        "Test Commander".into(),
        W | G,
        vec![Role::Threat],
        printing(1, Rarity::Mythic, 1),
    );
    cmdr.is_commander_eligible = true;
    cmdr.is_creature = true;
    cmdr.type_line = "Legendary Creature — Elf".into();
    cmdr.tags = vec!["typal-elf".into()];
    cmdr.subtypes = vec!["Elf".into()];
    oracles.push(cmdr);
    for (i, name) in ["Plains", "Island", "Swamp", "Mountain", "Forest", "Wastes"].iter().enumerate() {
        let color = [W, U, B, R, G, 0u8][i];
        let mut c = fixture_card(
            format!("basic-{}", name.to_lowercase()),
            name.to_string(),
            color,
            vec![Role::Land],
            printing(next_grp, Rarity::BasicLand, 4),
        );
        c.is_land = true;
        c.is_basic_land = true;
        oracles.push(c);
        next_grp += 1;
    }
    for i in 0..30 {
        let color = if i < 10 { G } else if i < 20 { W } else { W | G };
        let mut c = fixture_card(
            format!("land-{i}"),
            format!("Nonbasic {i:02}"),
            color,
            vec![Role::Land],
            printing(next_grp, Rarity::Rare, 1),
        );
        c.is_land = true;
        oracles.push(c);
        next_grp += 1;
    }
    let identities = [W, G, W | G, U, R];
    let roles = [
        Role::Ramp,
        Role::Draw,
        Role::Removal,
        Role::Wipe,
        Role::Counter,
        Role::Recursion,
        Role::Tutor,
        Role::Protection,
        Role::Threat,
        Role::Finisher,
        Role::Payoff,
        Role::Utility,
    ];
    for role in roles {
        for k in 0..25u32 {
            let owned = if k % 2 == 0 { 1 } else { 0 };
            let rarity = if k % 5 == 0 {
                Rarity::Mythic
            } else if k % 3 == 0 {
                Rarity::Rare
            } else {
                Rarity::Uncommon
            };
            let mut c = fixture_card(
                format!("card-{}-{k}", role.as_str()),
                format!("{} {k:02}", role.as_str()),
                identities[(k as usize) % identities.len()],
                vec![role],
                printing(next_grp, rarity, owned),
            );
            c.legal_standardbrawl = k % 2 == 0;
            oracles.push(c);
            next_grp += 1;
        }
    }
    oracles
}

#[test]
fn make_plan_flags_almost_complete_combos() {
    let oracles = gen_oracles();
    // Combo A: two owned WG-legal pieces + one unowned piece: flagged.
    // Combo B: "counter 03" is U, outside the identity: skipped.
    // Combo C: two pieces missing or outside the identity: skipped.
    let combos: Vec<Vec<String>> = vec![
        vec!["removal 00".into(), "draw 02".into(), "payoff 01".into()],
        vec!["removal 00".into(), "counter 03".into()],
        vec!["removal 00".into(), "payoff 01".into(), "payoff 03".into()],
    ];
    let nine = WildcardBudget { common: 9, uncommon: 9, rare: 9, mythic: 9 };
    let req = BuildRequest {
        format: Format::Brawl100,
        commander_grp: Some(1),
        ownership: OwnershipMode::OwnedOnly { wc_budget: nine },
        playstyle: Playstyle::Midrange,
        color_subset: None,
        theme_tags: vec![],
        must_include: vec![],
        build_around: vec![],
        exclude: vec![],
        seed: None,
        template_overrides: None,
        use_17lands: false,
    };
    resolve_template(&oracles, &req).unwrap();
    let plan = make_plan(&oracles, &Vec::new(), &combos, nine, &req).unwrap();
    let entry = plan
        .combo_completions
        .iter()
        .find(|c| c.name == "payoff 01")
        .expect("combo A flagged");
    assert_eq!(entry.have, 2);
    assert_eq!(entry.size, 3);
    assert!(!plan.combo_completions.iter().any(|c| c.name == "counter 03"));
    assert!(!plan.combo_completions.iter().any(|c| c.name == "payoff 03"));
    assert_eq!(plan.combo_completions.len(), 1);
}

#[test]
fn combo_pieces_guaranteed_by_must_include_count_as_had() {
    let oracles = gen_oracles();
    // "payoff 01" (G) and "payoff 03" (U) are unowned; "payoff 05" (W) too.
    let combos: Vec<Vec<String>> = vec![
        vec!["payoff 05".into(), "payoff 01".into()],
        vec!["removal 00".into(), "payoff 01".into()],
    ];
    let nine = WildcardBudget { common: 9, uncommon: 9, rare: 9, mythic: 9 };
    let mut req = BuildRequest {
        format: Format::Brawl100,
        commander_grp: Some(1),
        ownership: OwnershipMode::OwnedOnly { wc_budget: nine },
        playstyle: Playstyle::Midrange,
        color_subset: None,
        theme_tags: vec![],
        must_include: vec![],
        build_around: vec![],
        exclude: vec![],
        seed: None,
        template_overrides: None,
        use_17lands: false,
    };
    // Without the must-include, the first combo misses two pieces; the
    // second misses "payoff 01".
    let plan = make_plan(&oracles, &Vec::new(), &combos, nine, &req).unwrap();
    assert_eq!(plan.combo_completions.len(), 1);
    assert_eq!(plan.combo_completions[0].name, "payoff 01");
    assert_eq!((plan.combo_completions[0].have, plan.combo_completions[0].size), (1, 2));
    // Forcing "payoff 05" in makes the first combo almost complete too; its
    // missing piece is again "payoff 01", which keeps its first record.
    let p05 = oracles.iter().find(|c| c.name_lower == "payoff 05").unwrap().printings[0].grp_id;
    req.must_include = vec![p05];
    let plan = make_plan(&oracles, &Vec::new(), &combos, nine, &req).unwrap();
    assert_eq!(plan.combo_completions.len(), 1);
    assert_eq!(plan.combo_completions[0].name, "payoff 01");
}

#[test]
fn only_one_bulk_ingest_runs_at_a_time() {
    let mut g = IngestGuard::new();
    assert!(g.try_start());
    assert!(!g.try_start());
    g.finish();
    assert!(g.try_start());
}
