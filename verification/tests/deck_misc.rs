use mtga_hub::models::{rarity_to_string, Rarity};
use mtga_hub::services::deck::sources::fetch_failure;
use mtga_hub::services::deck::engine::commanders::{
    commander_candidates, role_availability, theme_hits, CandidateRequest,
};
use mtga_hub::services::deck::engine::fill::{all_roles_at_max, pick_role};
use mtga_hub::services::deck::engine::lands::compute_stats;
use mtga_hub::services::deck::engine::template::template_for;
use mtga_hub::services::deck::engine::types::{
    Format, OracleCard, Playstyle, Printing, Role, B, G, U, W,
};
use mtga_hub::numbers::parse_i64_str;
use mtga_hub::services::deck::service::{
    bulk_failure, bulk_first_step, bulk_step_after_metadata, deck_status, degraded_hosts, BulkStep,
};
use mtga_hub::services::deck::sources_archidekt::{
    archidekt_deck_from_parts, colors_from_counts, staple_counts, staple_pool, ArchidektCard,
    ArchidektCategory, StapleDeck, StaplesAggregate,
};
use mtga_hub::services::image_cache::{
    image_file_name, image_tmp_name, jpg_names, next_download_step, retry_delay_secs,
    should_report_progress, sync_tally, DownloadStep,
};

#[test]
fn image_names_and_listing() {
    assert_eq!(image_file_name(91234), "91234_normal.jpg");
    assert_eq!(image_tmp_name(-5), "-5_normal.tmp");
    let names = vec!["1_normal.jpg".to_string(), "2_normal.tmp".to_string(), "x.jpg".to_string()];
    assert_eq!(jpg_names(names), vec!["1_normal.jpg".to_string(), "x.jpg".to_string()]);
}

#[test]
fn download_retries_back_off_then_give_up() {
    assert_eq!(retry_delay_secs(0), None);
    assert_eq!(retry_delay_secs(1), Some(2));
    assert_eq!(retry_delay_secs(2), Some(4));
    assert_eq!(next_download_step(0, true), DownloadStep::Done { stored: true });
    assert_eq!(next_download_step(0, false), DownloadStep::Retry { attempt: 1, delay_secs: 2 });
    assert_eq!(next_download_step(1, false), DownloadStep::Retry { attempt: 2, delay_secs: 4 });
    assert_eq!(next_download_step(2, false), DownloadStep::Done { stored: false });
}

#[test]
fn progress_reports_and_tally() {
    assert!(should_report_progress(25, 100));
    assert!(!should_report_progress(26, 100));
    assert!(should_report_progress(7, 7));
    assert_eq!(sync_tally(10, 3), (7, 0, 3));
}

#[test]
fn degraded_hosts_reach_the_threshold() {
    let f = vec![("a".to_string(), 2), ("b".to_string(), 3), ("c".to_string(), 9)];
    assert_eq!(degraded_hosts(&f), vec!["b".to_string(), "c".to_string()]);
}

#[test]
fn bulk_refresh_steps() {
    assert_eq!(bulk_first_step(false, Some(100), 200, true, true), BulkStep::Complete);
    assert_eq!(bulk_first_step(false, Some(100), 200, true, false), BulkStep::Rejoin);
    assert_eq!(bulk_first_step(true, Some(100), 200, true, true), BulkStep::FetchMetadata);
    assert_eq!(bulk_first_step(false, Some(0), 86_400, true, true), BulkStep::FetchMetadata);
    assert_eq!(bulk_first_step(false, None, 0, true, true), BulkStep::FetchMetadata);
    assert_eq!(bulk_first_step(false, Some(100), 200, false, true), BulkStep::FetchMetadata);
    let c = Some("2024-01-01".to_string());
    let t = Some("2024-01-02".to_string());
    assert_eq!(
        bulk_step_after_metadata(&c, &t, "2024-01-01", "2024-01-02", true, true),
        BulkStep::Complete
    );
    assert_eq!(
        bulk_step_after_metadata(&c, &t, "2024-01-01", "2024-01-03", true, true),
        BulkStep::Download
    );
    assert_eq!(bulk_step_after_metadata(&None, &t, "", "2024-01-02", true, false), BulkStep::Download);
    assert_eq!(bulk_failure(true, "net".into()), Ok(false));
    assert_eq!(bulk_failure(false, "net".into()), Err("net".to_string()));
}

fn staples() -> StaplesAggregate {
    let mut decks = Vec::new();
    for _ in 0..6 {
        decks.push(StapleDeck { colors: "G".into(), cards: vec!["llanowar elves".into()] });
    }
    for _ in 0..4 {
        decks.push(StapleDeck { colors: "U".into(), cards: vec!["counterspell".into()] });
    }
    StaplesAggregate { built_at: 0, decks }
}

#[test]
fn staple_pool_uses_identity_subset_when_large_enough() {
    let agg = staples();
    let g = staple_pool(&agg, G);
    assert_eq!(g, vec![0, 1, 2, 3, 4, 5]);
    assert_eq!(staple_counts(&agg, &g), vec![("llanowar elves".to_string(), 6)]);
    // Only four decks fit U: fall back to all ten.
    let u = staple_pool(&agg, U);
    assert_eq!(u.len(), 10);
    let counts = staple_counts(&agg, &u);
    assert_eq!(
        counts,
        vec![("llanowar elves".to_string(), 6), ("counterspell".to_string(), 4)]
    );
    let share = counts[1].1 as f32 / u.len() as f32;
    assert!((share - 0.4).abs() < 1e-6);
}

#[test]
fn colours_of_pip_counts() {
    let counts = vec![("G".to_string(), 3), ("W".to_string(), 1), ("U".to_string(), 0)];
    assert_eq!(colors_from_counts(&counts), vec!["W".to_string(), "G".to_string()]);
}

#[test]
fn archidekt_deck_without_deck_categories_still_drops_maybeboard() {
    let cards = vec![
        ArchidektCard { quantity: 1, categories: vec!["Commander".into()], name: "Cmdr".into() },
        ArchidektCard { quantity: 1, categories: vec!["Ramp".into()], name: "Keep".into() },
        ArchidektCard { quantity: 1, categories: vec!["maybeboard".into()], name: "Drop".into() },
    ];
    let d = archidekt_deck_from_parts(7, "x".into(), &vec![], cards);
    assert_eq!(d.id, 7);
    assert_eq!(d.commander_names, vec!["Cmdr".to_string()]);
    assert_eq!(d.cards, vec![("Keep".to_string(), 1)]);
}

#[test]
fn archidekt_deck_drops_categories_not_in_deck() {
    let cats = vec![
        ArchidektCategory { name: "Considering".into(), included_in_deck: false },
        ArchidektCategory { name: "Ramp".into(), included_in_deck: true },
    ];
    let cards = vec![
        ArchidektCard { quantity: 2, categories: vec!["Ramp".into()], name: "Keep".into() },
        ArchidektCard { quantity: 1, categories: vec!["considering".into()], name: "Maybe".into() },
        ArchidektCard { quantity: 1, categories: vec!["Sideboard".into()], name: "Side".into() },
    ];
    let d = archidekt_deck_from_parts(1, "y".into(), &cats, cards);
    assert!(d.commander_names.is_empty());
    assert_eq!(d.cards, vec![("Keep".to_string(), 2)]);
}

fn oracle(grp: i32, name: &str, identity: u8, commander: bool, roles: Vec<Role>, owned: i32) -> OracleCard {
    OracleCard {
        oracle_id: format!("o-{}", grp),
        name: name.into(),
        name_lower: name.to_lowercase(),
        mana_cost: String::new(),
        color_identity: identity,
        type_line: String::new(),
        keywords: Vec::new(),
        oracle_text: String::new(),
        edhrec_rank: None,
        legal_brawl: true,
        legal_standardbrawl: false,
        is_commander_eligible: commander,
        power: None,
        roles,
        tags: vec!["elves".into(), "ramp".into()],
        subtypes: Vec::new(),
        is_land: false,
        is_basic_land: false,
        is_creature: true,
        printings: vec![Printing {
            grp_id: grp,
            set_code: "x".into(),
            collector_number: "1".into(),
            rarity: Rarity::Rare,
            owned_qty: owned,
        }],
    }
}

#[test]
fn commander_candidates_filter_by_request() {
    let oracles = vec![
        oracle(1, "Lathril, Blade of the Elves", B | G, true, vec![], 1),
        oracle(2, "Elvish Mystic", G, false, vec![Role::Ramp], 1),
        oracle(3, "Atraxa", W | U | B | G, true, vec![], 0),
        oracle(4, "Fynn", G, true, vec![Role::Threat], 1),
    ];
    let mut req = CandidateRequest {
        format: Format::Brawl100,
        owned_only: false,
        color_subset: None,
        theme_tags: vec![],
        search: None,
        playstyle: Playstyle::Midrange,
    };
    assert_eq!(commander_candidates(&oracles, &req), vec![0, 2, 3]);
    req.owned_only = true;
    assert_eq!(commander_candidates(&oracles, &req), vec![0, 3]);
    req.color_subset = Some("G".into());
    assert_eq!(commander_candidates(&oracles, &req), vec![3]);
    req.color_subset = None;
    req.search = Some("  LATH ".into());
    assert_eq!(commander_candidates(&oracles, &req), vec![0]);
    req.search = Some("   ".into());
    assert_eq!(commander_candidates(&oracles, &req), vec![0, 3]);
    req.format = Format::StandardBrawl60;
    assert_eq!(commander_candidates(&oracles, &req), Vec::<usize>::new());
}

#[test]
fn role_availability_counts_by_identity() {
    let oracles = vec![
        oracle(1, "A", G, false, vec![Role::Ramp], 0),
        oracle(2, "B", G | U, false, vec![Role::Ramp, Role::Draw], 1),
        oracle(3, "C", 0, false, vec![Role::Ramp], 1),
    ];
    let all = role_availability(&oracles, Format::Brawl100, false);
    assert_eq!(all.get(G, Role::Ramp), 2);
    assert_eq!(all.get(G | U, Role::Ramp), 3);
    assert_eq!(all.get(G | U, Role::Draw), 1);
    assert_eq!(all.get(0, Role::Ramp), 1);
    let owned = role_availability(&oracles, Format::Brawl100, true);
    assert_eq!(owned.get(G, Role::Ramp), 1);
}

#[test]
fn theme_hits_count_wanted_tags() {
    let tags = vec!["elves".to_string(), "ramp".to_string(), "tokens".to_string()];
    assert_eq!(theme_hits(&tags, &vec!["ramp".to_string(), "elves".to_string()]), 2);
    assert_eq!(theme_hits(&tags, &vec![]), 0);
}

#[test]
fn pick_role_prefers_the_most_underfilled_role() {
    let t = template_for(Format::Brawl100, Playstyle::Midrange, W | U | G, None);
    let mut counts = [0u32; 13];
    let card = oracle(1, "Divination Elf", G, false, vec![Role::Draw, Role::Ramp], 1);
    // Equal need: the earlier role in canonical order.
    assert_eq!(pick_role(&card, &t, &counts), Role::Ramp);
    counts[1] = t.min(Role::Ramp) / 2; // Ramp half filled
    assert_eq!(pick_role(&card, &t, &counts), Role::Draw);
    counts[1] = t.max(Role::Ramp);
    counts[2] = t.max(Role::Draw); // both at their maximum: the first role held
    assert!(all_roles_at_max(&card, &t, &counts));
    assert_eq!(pick_role(&card, &t, &counts), Role::Ramp);
    let mut land = card.clone();
    land.is_land = true;
    assert_eq!(pick_role(&land, &t, &counts), Role::Land);
    let plain = oracle(2, "Bear", G, false, vec![], 1);
    assert_eq!(pick_role(&plain, &t, &counts), Role::Utility);
    assert!(!all_roles_at_max(&plain, &t, &counts));
    counts[2] = t.max(Role::Draw) - 1;
    assert!(!all_roles_at_max(&card, &t, &counts));
}

#[test]
fn failed_fetch_serves_stale_or_reports() {
    assert_eq!(fetch_failure(1, "edhrec", Some("old".into()), "timeout"), (false, Ok("old".to_string())));
    assert_eq!(
        fetch_failure(3, "edhrec", None, "timeout"),
        (true, Err("DECK-007: edhrec fetch failed: timeout".to_string()))
    );
}

#[test]
fn rarity_export_names() {
    assert_eq!(rarity_to_string(&Rarity::BasicLand), "basic_land");
    assert_eq!(rarity_to_string(&Rarity::Mythic), "mythic");
    assert_eq!(rarity_to_string(&Rarity::Unknown(7)), "unknown_7");
    assert_eq!(rarity_to_string(&Rarity::Unknown(-1)), "unknown_-1");
}

#[test]
fn deck_stats_count_curve_pips_roles_and_wildcards() {
    let t = template_for(Format::Brawl100, Playstyle::Midrange, G | U, None);
    let mut a = oracle(1, "Elf", G, false, vec![Role::Ramp], 1);
    a.mana_cost = "{G}".into();
    let mut b = oracle(2, "Drake", U, false, vec![Role::Draw], 0);
    b.mana_cost = "{2}{U}{U}".into();
    let mut c = oracle(3, "Grove", G, false, vec![], 1);
    c.is_land = true;
    let forest = oracle(4, "Forest", G, false, vec![], 1);
    let oracles = vec![a, b, c, forest];
    let chosen = vec![(0usize, Role::Ramp), (1usize, Role::Draw), (2usize, Role::Land)];
    let buckets = vec![1usize, 4, 0];
    let basics = vec![(3usize, 10u32)];
    let s = compute_stats(&oracles, &t, &chosen, &buckets, &basics);
    assert_eq!(s.curve, [0, 1, 0, 0, 1, 0, 0, 0]);
    assert_eq!(s.pips, [0, 2, 0, 0, 1]);
    assert_eq!(s.role_counts, vec![(Role::Land, 11), (Role::Ramp, 1), (Role::Draw, 1)]);
    assert_eq!(s.role_targets.len(), 13);
    assert_eq!(s.role_targets[1], (Role::Ramp, (t.min(Role::Ramp), t.max(Role::Ramp))));
    assert_eq!(s.total, 13);
    assert_eq!(s.owned, 12);
    assert_eq!(s.land_count, 11);
    assert_eq!(s.wildcard_cost.rare, 1);
    assert_eq!(s.wildcard_cost.common, 0);
}

#[test]
fn deck_status_parses_last_check_and_lists_degraded_hosts() {
    let f = vec![("edhrec".to_string(), 4), ("archidekt".to_string(), 1)];
    let s = deck_status(12, Some("2024-05-01".into()), Some("1700000000".into()), true, &f);
    assert!(s.db_ok);
    assert_eq!(s.oracles, 12);
    assert_eq!(s.bulk_updated_at.as_deref(), Some("2024-05-01"));
    assert_eq!(s.last_check_at, Some(1_700_000_000));
    assert!(s.ingest_running);
    assert_eq!(s.degraded_hosts, vec!["edhrec".to_string()]);
    let s2 = deck_status(0, None, Some("soon".into()), false, &vec![]);
    assert_eq!(s2.last_check_at, None);
}

#[test]
fn parse_i64_bounds() {
    assert_eq!(parse_i64_str("-9223372036854775808"), Some(i64::MIN));
    assert_eq!(parse_i64_str("9223372036854775807"), Some(i64::MAX));
    assert_eq!(parse_i64_str("9223372036854775808"), None);
    assert_eq!(parse_i64_str("+42"), Some(42));
    assert_eq!(parse_i64_str("-"), None);
    assert_eq!(parse_i64_str(" 1"), None);
}
