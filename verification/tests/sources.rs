use mtga_hub::services::deck::engine::types::Format;
use mtga_hub::services::deck::sources::{
    decide_fetch, edhrec_slug, edhrec_url, seventeenlands_url, spellbook_url, FetchDecision,
    SourceKind, DEGRADE_AFTER_FAILURES, SOURCE_DAILY_CAP,
};
use mtga_hub::services::deck::sources_archidekt::{
    archidekt_deck_url, archidekt_list_url, build_staples, staples_cache_key, SeedDeckDetail,
    SeedDeckSummary,
};
use mtga_hub::services::deck::store::CacheHit;

fn hit(body: &str, fresh: bool) -> CacheHit {
    CacheHit { body: body.into(), fresh }
}

#[test]
fn decide_fetch_returns_cache_when_fresh() {
    let d = decide_fetch(Some(hit("BODY", true)), 0, 0);
    assert_eq!(d, FetchDecision::UseCache("BODY".into()));
}

#[test]
fn decide_fetch_returns_fetch_when_no_cache() {
    let d = decide_fetch(None, 0, 0);
    assert_eq!(d, FetchDecision::Fetch { stale: None });
}

#[test]
fn decide_fetch_returns_fetch_with_stale_when_expired() {
    let d = decide_fetch(Some(hit("OLD", false)), 0, 0);
    assert_eq!(d, FetchDecision::Fetch { stale: Some("OLD".into()) });
}

#[test]
fn decide_fetch_blocks_when_degraded() {
    let d = decide_fetch(Some(hit("OLD", false)), DEGRADE_AFTER_FAILURES, 0);
    assert_eq!(d, FetchDecision::Blocked { stale: Some("OLD".into()), code: "DECK-007" });
    let d = decide_fetch(None, DEGRADE_AFTER_FAILURES + 5, 0);
    assert_eq!(d, FetchDecision::Blocked { stale: None, code: "DECK-007" });
}

#[test]
fn decide_fetch_blocks_when_capped() {
    let d = decide_fetch(Some(hit("OLD", false)), 0, SOURCE_DAILY_CAP);
    assert_eq!(d, FetchDecision::Blocked { stale: Some("OLD".into()), code: "DECK-008" });
}

#[test]
fn decide_fetch_degrade_beats_cap_when_both_trip() {
    let d = decide_fetch(None, DEGRADE_AFTER_FAILURES, SOURCE_DAILY_CAP);
    assert_eq!(d, FetchDecision::Blocked { stale: None, code: "DECK-007" });
}

#[test]
fn decide_fetch_fresh_cache_wins_over_blocks() {
    let d = decide_fetch(Some(hit("BODY", true)), DEGRADE_AFTER_FAILURES, SOURCE_DAILY_CAP);
    assert_eq!(d, FetchDecision::UseCache("BODY".into()));
}

#[test]
fn slug_front_face_only() {
    assert_eq!(
        edhrec_slug("Fable of the Mirror-Breaker // Reflection of Kiki-Jiki"),
        "fable-of-the-mirror-breaker"
    );
}

#[test]
fn slug_strips_commas_and_apostrophes() {
    assert_eq!(edhrec_slug("Kaalia of the Vast"), "kaalia-of-the-vast");
    assert_eq!(edhrec_slug("Baylen, the Haymaker"), "baylen-the-haymaker");
    assert_eq!(edhrec_slug("Jhoira's Familiar"), "jhoiras-familiar");
}

#[test]
fn slug_collapses_runs_and_trims_dashes() {
    assert_eq!(edhrec_slug("  A -- B!  "), "a-b");
}

#[test]
fn url_builders_exact() {
    assert_eq!(
        edhrec_url("Baylen, the Haymaker"),
        "https://json.edhrec.com/pages/commanders/baylen-the-haymaker.json"
    );
    assert_eq!(
        archidekt_list_url(Format::Brawl100, 1),
        "https://archidekt.com/api/decks/v3/?deckFormat=20&orderBy=-viewCount&size=100&pageSize=20&page=1"
    );
    assert_eq!(
        archidekt_list_url(Format::StandardBrawl60, 2),
        "https://archidekt.com/api/decks/v3/?deckFormat=13&orderBy=-viewCount&size=60&pageSize=20&page=2"
    );
    assert_eq!(archidekt_deck_url(12345), "https://archidekt.com/api/decks/12345/");
    assert_eq!(
        spellbook_url(Format::Brawl100, 1),
        "https://backend.commanderspellbook.com/variants/?q=legal:brawl&limit=100&page=1"
    );
    assert_eq!(
        spellbook_url(Format::StandardBrawl60, 3),
        "https://backend.commanderspellbook.com/variants/?q=legal:standardBrawl&limit=100&page=3"
    );
    assert_eq!(
        seventeenlands_url("BLB"),
        "https://www.17lands.com/card_ratings/data?expansion=BLB&format=PremierDraft"
    );
}

#[test]
fn archidekt_deck_url_negative_id_and_cache_key() {
    assert_eq!(archidekt_deck_url(-7), "https://archidekt.com/api/decks/-7/");
    assert_eq!(staples_cache_key(Format::StandardBrawl60), "archidekt:staples:standardbrawl60");
    assert_eq!(staples_cache_key(Format::Brawl100), "archidekt:staples:brawl100");
}

#[test]
fn source_kind_host_and_ttl() {
    assert_eq!(SourceKind::Edhrec.host(), "edhrec");
    assert_eq!(SourceKind::ArchidektList.host(), "archidekt");
    assert_eq!(SourceKind::ArchidektDeck.host(), "archidekt");
    assert_eq!(SourceKind::Spellbook.host(), "spellbook");
    assert_eq!(SourceKind::SeventeenLands.host(), "17lands");
    assert_eq!(SourceKind::Edhrec.ttl_secs(), 7 * 86_400);
    assert_eq!(SourceKind::ArchidektList.ttl_secs(), 86_400);
    assert_eq!(SourceKind::SeventeenLands.ttl_secs(), 30 * 86_400);
}

fn summary(id: i64, colors: &[&str]) -> SeedDeckSummary {
    SeedDeckSummary {
        id,
        name: format!("d{id}"),
        size: 100,
        view_count: 1,
        colors: colors.iter().map(|s| s.to_string()).collect(),
    }
}

fn detail(id: i64, commander: &str, cards: &[&str]) -> SeedDeckDetail {
    SeedDeckDetail {
        id,
        name: format!("d{id}"),
        commander_names: vec![commander.into()],
        cards: cards.iter().map(|c| (c.to_string(), 1)).collect(),
    }
}

#[test]
fn build_staples_lowercases_dedupes_and_sorts_colors() {
    let s = summary(1, &["R", "G", "W"]);
    let d = detail(
        1,
        "Baylen",
        &[
            "Sol Ring",
            "sol ring",
            "Fable of the Mirror-Breaker // Reflection of Kiki-Jiki",
            "Baylen",
        ],
    );
    let agg = build_staples(42, &[(&s, &d)]);
    assert_eq!(agg.built_at, 42);
    assert_eq!(agg.decks.len(), 1);
    assert_eq!(agg.decks[0].colors, "GRW");
    assert_eq!(
        agg.decks[0].cards,
        vec!["fable of the mirror-breaker".to_string(), "sol ring".to_string()]
    );
}

#[test]
fn build_staples_colors_from_lowercase_and_multi_letter_entries() {
    let s = summary(2, &["wu", "x", "B"]);
    let d = detail(2, "Someone", &["  ", "Island"]);
    let agg = build_staples(0, &[(&s, &d)]);
    assert_eq!(agg.decks[0].colors, "BUW");
    assert_eq!(agg.decks[0].cards, vec!["island".to_string()]);
}
