use std::collections::HashMap;
use std::io::Write;

use mtga_hub::models::{CardInfo, Rarity};
use mtga_hub::services::deck::ingest::{
    gzip_lines, identity_string, is_blank, is_commander_eligible, is_gzip, join_grp_to_oracle, nonempty,
    normalize_name, parse_power, process_scry_card, split_lines, tags_from_lines, ParsedOracles,
    ScryCard, ScryFace, TagLine,
};

#[test]
fn normalize_name_takes_front_face() {
    assert_eq!(
        normalize_name("Fable of the Mirror-Breaker // Reflection of Kiki-Jiki"),
        "fable of the mirror-breaker"
    );
    assert_eq!(normalize_name("  Cultivate "), "cultivate");
}

#[test]
fn commander_eligibility_rules() {
    assert!(is_commander_eligible("Legendary Creature — Elf", ""));
    assert!(is_commander_eligible("Legendary Planeswalker — Teferi", ""));
    assert!(!is_commander_eligible("Creature — Elf", ""));
    assert!(!is_commander_eligible("Legendary Artifact", ""));
    assert!(is_commander_eligible(
        "Legendary Artifact — Vehicle",
        "This card can be your commander."
    ));
}

#[test]
fn commander_eligibility_reads_front_face_only() {
    assert!(!is_commander_eligible("Creature — Human // Legendary Creature — Werewolf", ""));
}

fn mk(grp: i32, name: &str) -> CardInfo {
    CardInfo {
        grp_id: grp,
        name: name.into(),
        set_code: "blb".into(),
        rarity: Rarity::Rare,
        collector_number: "1".into(),
        cmc: 0,
        power: None,
        toughness: None,
        deck_limit: 0,
        color_identity: vec![],
        colors: vec![],
        types: vec![],
        subtypes: vec![],
        supertypes: vec![],
        is_rebalanced: false,
        rebalanced_grp_id: None,
        is_primary_card: true,
    }
}

#[test]
fn join_prefers_arena_id_then_name() {
    let mut cards = HashMap::new();
    cards.insert(91741, mk(91741, "Baylen, the Haymaker"));
    cards.insert(5, mk(5, "Cultivate"));
    cards.insert(6, mk(6, "Fable of the Mirror-Breaker"));
    cards.insert(7, mk(7, "Not A Card"));
    let mut arena = HashMap::new();
    arena.insert(91741, "o-baylen".to_string());
    let names = vec![
        ("cultivate".to_string(), "o-cultivate".to_string()),
        ("fable of the mirror-breaker".to_string(), "o-fable".to_string()),
    ];
    let j = join_grp_to_oracle(&cards, &arena, &names);
    assert!(j.rows.contains(&(91741, "o-baylen".to_string(), "arena_id")));
    assert!(j.rows.contains(&(5, "o-cultivate".to_string(), "name")));
    assert!(j.rows.contains(&(6, "o-fable".to_string(), "name")));
    assert_eq!(j.unresolved, vec![7]);
}

#[test]
fn join_unresolved_ids_come_sorted() {
    let mut cards = HashMap::new();
    for g in [40, 3, 17, 9] {
        cards.insert(g, mk(g, "Nothing"));
    }
    let arena = HashMap::new();
    let j = join_grp_to_oracle(&cards, &arena, &Vec::new());
    assert!(j.rows.is_empty());
    assert_eq!(j.unresolved, vec![3, 9, 17, 40]);
}

#[test]
fn identity_string_orders_wubrg() {
    let letters: Vec<String> = vec!["G".into(), "W".into(), "R".into()];
    assert_eq!(identity_string(&letters), "WRG");
    assert_eq!(identity_string(&[]), "");
}

#[test]
fn parse_power_trims_and_rejects_stars() {
    let a = " 3 ".to_string();
    let b = "*".to_string();
    assert_eq!(parse_power(Some(&a)), Some(3));
    assert_eq!(parse_power(Some(&b)), None);
    assert_eq!(parse_power(None), None);
    assert_eq!(nonempty(Some(String::new())), None);
    assert_eq!(nonempty(Some("x".into())), Some("x".to_string()));
}

#[test]
fn gzip_magic_and_line_framing() {
    assert!(is_gzip(&[0x1f, 0x8b, 0]));
    assert!(!is_gzip(&[0x1f]));
    assert_eq!(split_lines("a\r\nb\n\nc"), vec!["a", "b", "", "c"]);
    assert_eq!(split_lines("x\n"), vec!["x"]);
    assert!(split_lines("").is_empty());
    assert!(is_blank("  \t"));
    assert!(!is_blank(" {} "));
}

fn scry(name: &str) -> ScryCard {
    ScryCard {
        oracle_id: Some("o-1".into()),
        name: name.into(),
        arena_id: None,
        set: None,
        collector_number: None,
        mana_cost: Some("{G}".into()),
        type_line: Some("Legendary Creature — Elf".into()),
        oracle_text: None,
        color_identity: vec!["G".into(), "W".into()],
        keywords: vec!["Flying".into()],
        power: None,
        layout: Some("normal".into()),
        edhrec_rank: Some(12),
        legalities: vec![
            ("brawl".into(), "legal".into()),
            ("standardbrawl".into(), "not_legal".into()),
        ],
        card_faces: None,
    }
}

#[test]
fn process_scry_card_skips_tokens_and_missing_ids() {
    let mut out = ParsedOracles { oracles: vec![], arena: vec![], skipped: 0 };
    let mut tok = scry("Goblin");
    tok.layout = Some("token".into());
    process_scry_card(tok, &mut out);
    let mut no_id = scry("Nobody");
    no_id.oracle_id = None;
    process_scry_card(no_id, &mut out);
    assert_eq!(out.skipped, 2);
    assert!(out.oracles.is_empty());
}

#[test]
fn process_scry_card_uses_faces_for_text_and_power() {
    let mut out = ParsedOracles { oracles: vec![], arena: vec![], skipped: 0 };
    let mut c = scry("Front // Back");
    c.arena_id = Some(77);
    c.set = Some("blb".into());
    c.card_faces = Some(vec![
        ScryFace { name: None, oracle_text: Some("First.".into()), power: Some("*".into()) },
        ScryFace { name: None, oracle_text: None, power: None },
        ScryFace { name: None, oracle_text: Some("Second.".into()), power: Some("4".into()) },
    ]);
    process_scry_card(c, &mut out);
    assert_eq!(out.skipped, 0);
    let o = &out.oracles[0];
    assert_eq!(o.oracle_text, "First.\n//\nSecond.");
    assert_eq!(o.power, Some(4));
    assert_eq!(o.name_front_lower, "front");
    assert_eq!(o.color_identity, "WG");
    assert_eq!(o.keywords, "[\"Flying\"]");
    assert!(o.legal_brawl);
    assert!(!o.legal_standardbrawl);
    assert!(o.is_commander_eligible);
    assert_eq!(out.arena.len(), 1);
    assert_eq!(out.arena[0].arena_id, 77);
    assert_eq!(out.arena[0].set_code, "blb");
    assert_eq!(out.arena[0].collector_number, "");
}

#[test]
fn tags_from_lines_counts_unknown_parents() {
    let raw = vec![
        TagLine {
            id: "t-ramp".into(),
            slug: "ramp".into(),
            label: None,
            parent_ids: vec![],
            taggings: vec!["o-1".into()],
        },
        TagLine {
            id: "t-lr".into(),
            slug: "land-ramp".into(),
            label: Some("Land Ramp".into()),
            parent_ids: vec!["t-ramp".into(), "t-other".into()],
            taggings: vec!["o-2".into(), "o-3".into()],
        },
        TagLine {
            id: "t-x".into(),
            slug: "x".into(),
            label: None,
            parent_ids: vec!["t-missing".into()],
            taggings: vec![],
        },
    ];
    let p = tags_from_lines(&raw);
    assert_eq!(p.tags.len(), 3);
    assert_eq!(p.tags[0].label, "ramp");
    assert_eq!(p.tags[1].label, "Land Ramp");
    assert_eq!(p.tags[1].parent_id.as_deref(), Some("t-ramp"));
    assert_eq!(
        p.taggings,
        vec![
            ("o-1".to_string(), "t-ramp".to_string()),
            ("o-2".to_string(), "t-lr".to_string()),
            ("o-3".to_string(), "t-lr".to_string()),
        ]
    );
    assert_eq!(p.anomalies, 1);
}

#[test]
fn gzip_lines_decompress_and_split() {
    let mut enc = flate2::write::GzEncoder::new(Vec::new(), flate2::Compression::default());
    enc.write_all(b"{\"a\":1}\r\n\n{\"b\":2}").unwrap();
    let gz = enc.finish().unwrap();
    assert!(is_gzip(&gz));
    assert_eq!(
        gzip_lines(&gz),
        Some(vec!["{\"a\":1}".to_string(), "".to_string(), "{\"b\":2}".to_string()])
    );
    assert_eq!(gzip_lines(b"not gzip"), None);
}

#[test]
fn stored_keywords_are_compact_escaped_json() {
    let mut out = ParsedOracles { oracles: vec![], arena: vec![], skipped: 0 };
    let mut c = scry("Escapes");
    c.keywords = vec![
        "Say \"hi\"".into(),
        "back\\slash".into(),
        "tab\tnl\ncr\r".into(),
        "bell\u{7}".into(),
        "Ærø".into(),
    ];
    process_scry_card(c, &mut out);
    assert_eq!(
        out.oracles[0].keywords,
        "[\"Say \\\"hi\\\"\",\"back\\\\slash\",\"tab\\tnl\\ncr\\r\",\"bell\\u0007\",\"Ærø\"]"
    );
    let mut empty = ParsedOracles { oracles: vec![], arena: vec![], skipped: 0 };
    let mut d = scry("None");
    d.keywords = vec![];
    process_scry_card(d, &mut empty);
    assert_eq!(empty.oracles[0].keywords, "[]");
}
