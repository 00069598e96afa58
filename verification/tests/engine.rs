use std::collections::HashSet;

use mtga_hub::models::Rarity;
use mtga_hub::services::deck::engine::fill::{
    alternative_candidates, basics_needed, budget_without_slot, nonbasic_limit, pinned_pass, DeckCounts,
};
use mtga_hub::services::deck::engine::lands::even_split;
use mtga_hub::services::deck::engine::pool::{
    candidate_pool, effective_identity, index_by_grp, PoolCtx,
};
use mtga_hub::services::deck::engine::roles::{
    roles_from_card, roles_from_tags, theme_slugs, TagIndex,
};
use mtga_hub::services::deck::engine::score::tokenize;
use mtga_hub::services::deck::engine::template::{all_default_templates, template_for};
use mtga_hub::services::deck::engine::types::{
    is_subset, mask_from_letters, mask_from_str, mask_to_letters, Format, OracleCard, Playstyle,
    Printing, Role, TemplateOverrides, WildcardBudget, B, G, R, U, W,
};
use mtga_hub::services::deck::store::IngestTag;

fn sample_card() -> OracleCard {
    OracleCard {
        oracle_id: String::new(),
        name: "Sample".into(),
        name_lower: "sample".into(),
        mana_cost: String::new(),
        color_identity: G,
        type_line: String::new(),
        keywords: Vec::new(),
        oracle_text: String::new(),
        edhrec_rank: None,
        legal_brawl: true,
        legal_standardbrawl: true,
        is_commander_eligible: false,
        power: None,
        roles: Vec::new(),
        tags: Vec::new(),
        subtypes: Vec::new(),
        is_land: false,
        is_basic_land: false,
        is_creature: false,
        printings: vec![Printing {
            grp_id: 1000,
            set_code: String::new(),
            collector_number: String::new(),
            rarity: Rarity::Common,
            owned_qty: 1,
        }],
    }
}

fn card_with(grp: i32, oracle_id: &str, name: &str) -> OracleCard {
    let mut c = sample_card();
    c.oracle_id = oracle_id.into();
    c.name = name.into();
    c.name_lower = name.to_lowercase();
    c.printings = vec![Printing {
        grp_id: grp,
        set_code: "x".into(),
        collector_number: "1".into(),
        rarity: Rarity::Common,
        owned_qty: 1,
    }];
    c
}

fn ctx<'a>(
    identity: u8,
    commander_oracle: &'a str,
    exclude_grp: &'a HashSet<i32>,
    exclude_oracle: &'a [String],
) -> PoolCtx<'a> {
    PoolCtx {
        format: Format::Brawl100,
        identity,
        commander_oracle,
        exclude_grp,
        exclude_oracle,
    }
}

// ---- types ----

#[test]
fn masks() {
    assert_eq!(mask_from_str("WUG"), W | U | G);
    assert_eq!(mask_from_letters(&["G", "R"]), G | R);
    assert_eq!(mask_to_letters(W | G), vec!['W', 'G']);
    assert!(is_subset(G, W | G));
    assert!(!is_subset(R, W | G));
    assert!(is_subset(0, 0));
}

#[test]
fn budget_spend() {
    let mut b = WildcardBudget { rare: 1, ..Default::default() };
    assert!(b.spend(&Rarity::Rare));
    assert!(!b.spend(&Rarity::Rare));
    assert!(b.spend(&Rarity::BasicLand));
}

#[test]
fn pips_count_hybrid_both() {
    let mut c = sample_card();
    c.mana_cost = "{1}{W/U}{G}{G}".into();
    assert_eq!(c.pips(), [1, 1, 0, 0, 2]);
}

#[test]
fn best_printing_prefers_owned_then_cheapest() {
    let mut c = sample_card();
    c.printings = vec![
        Printing { grp_id: 1, set_code: "a".into(), collector_number: "1".into(), rarity: Rarity::Mythic, owned_qty: 0 },
        Printing { grp_id: 2, set_code: "b".into(), collector_number: "2".into(), rarity: Rarity::Rare, owned_qty: 0 },
    ];
    assert_eq!(c.best_printing().unwrap().grp_id, 2);
    c.printings[0].owned_qty = 1;
    assert_eq!(c.best_printing().unwrap().grp_id, 1);
}

#[test]
fn role_roundtrip() {
    for r in Role::ALL {
        assert_eq!(Role::parse(r.as_str()), Some(r));
    }
}

#[test]
fn wildcard_spend_then_add_restores_budget() {
    let before = WildcardBudget { common: 2, uncommon: 0, rare: 3, mythic: 1 };
    let mut b = before;
    assert!(b.spend(&Rarity::Rare));
    assert_eq!(b.rare, 2);
    b.add(&Rarity::Rare);
    assert_eq!(b, before);
}

// ---- pool ----

#[test]
fn outside_identity_excluded() {
    let mut in_id = card_with(1, "in", "In");
    in_id.color_identity = G;
    let mut out_id = card_with(2, "out", "Out");
    out_id.color_identity = R;
    let excl_g = HashSet::new();
    let excl_o: Vec<String> = Vec::new();
    let c = ctx(G, "", &excl_g, &excl_o);
    let pool = candidate_pool(&[in_id, out_id], &c);
    assert_eq!(pool, vec![0]);
}

#[test]
fn not_legal_in_format_excluded() {
    let mut a = card_with(1, "a", "A");
    a.color_identity = G;
    a.legal_standardbrawl = false;
    let excl_g = HashSet::new();
    let excl_o: Vec<String> = Vec::new();
    let mut c = ctx(G, "", &excl_g, &excl_o);
    c.format = Format::StandardBrawl60;
    assert!(candidate_pool(&[a], &c).is_empty());
}

#[test]
fn no_printings_excluded() {
    let mut a = card_with(1, "a", "A");
    a.color_identity = G;
    a.printings.clear();
    let excl_g = HashSet::new();
    let excl_o: Vec<String> = Vec::new();
    let c = ctx(G, "", &excl_g, &excl_o);
    assert!(candidate_pool(&[a], &c).is_empty());
}

#[test]
fn commander_excluded_by_oracle_id() {
    let mut cmdr = card_with(1, "cmdr-oid", "Cmdr");
    cmdr.color_identity = G;
    let excl_g = HashSet::new();
    let excl_o: Vec<String> = Vec::new();
    let c = ctx(G, "cmdr-oid", &excl_g, &excl_o);
    assert!(candidate_pool(&[cmdr], &c).is_empty());
}

#[test]
fn excluded_grp_removes_card() {
    let mut a = card_with(42, "a", "A");
    a.color_identity = G;
    let mut excl_g = HashSet::new();
    excl_g.insert(42);
    let excl_o: Vec<String> = Vec::new();
    let c = ctx(G, "", &excl_g, &excl_o);
    assert!(candidate_pool(&[a], &c).is_empty());
}

#[test]
fn effective_identity_intersects() {
    assert_eq!(effective_identity(W | U | G, Some("WG")).unwrap(), W | G);
}

#[test]
fn effective_identity_subset_violation_errors() {
    let err = effective_identity(G, Some("R")).unwrap_err();
    assert!(err.contains("DECK-009"));
}

#[test]
fn effective_identity_none_returns_commander() {
    assert_eq!(effective_identity(W | G, None).unwrap(), W | G);
}

#[test]
fn effective_identity_error_text_quotes_subset() {
    let err = effective_identity(G, Some("R")).unwrap_err();
    assert_eq!(err, "DECK-009: color_subset \"R\" is not within commander identity");
}

#[test]
fn index_by_grp_maps_all_printings() {
    let mut a = card_with(1, "a", "A");
    a.color_identity = G;
    a.printings.push(Printing {
        grp_id: 2,
        set_code: "y".into(),
        collector_number: "2".into(),
        rarity: Rarity::Rare,
        owned_qty: 0,
    });
    let idx = index_by_grp(&[a]);
    assert_eq!(idx.get(&1), Some(&0));
    assert_eq!(idx.get(&2), Some(&0));
}

// ---- roles ----

fn t(id: &str, slug: &str, parent: Option<&str>) -> IngestTag {
    IngestTag {
        tag_id: id.into(),
        slug: slug.into(),
        label: slug.into(),
        parent_id: parent.map(String::from),
    }
}

fn idx() -> TagIndex {
    TagIndex::new(&[
        t("t-removal", "removal", None),
        t("t-spot", "spot-removal", Some("t-removal")),
        t("t-sweeper", "sweeper", Some("t-removal")),
        t("t-oneside", "sweeper-one-sided", Some("t-sweeper")),
        t("t-ramp", "ramp", None),
        t("t-mp", "mana-producer", Some("t-ramp")),
        t("t-dork", "mana-dork", Some("t-mp")),
        t("t-ca", "card-advantage", None),
        t("t-draw", "draw", Some("t-ca")),
        t("t-cantrip", "cantrip", Some("t-draw")),
        t("t-lg", "lifegain-matters", None),
        t("t-names", "card-names", None),
        t("t-allit", "alliteration", Some("t-names")),
        t("t-loop-a", "loop-a", Some("t-loop-b")),
        t("t-loop-b", "loop-b", Some("t-loop-a")),
    ])
}

#[test]
fn ancestry_walks_to_root_and_survives_cycles() {
    let i = idx();
    assert_eq!(i.ancestry("t-dork"), vec!["mana-dork", "mana-producer", "ramp"]);
    assert!(i.ancestry("t-loop-a").len() <= 32);
}

#[test]
fn tag_roles() {
    let i = idx();
    assert_eq!(roles_from_tags(&i, &["t-spot".into()]), vec![Role::Removal]);
    assert_eq!(roles_from_tags(&i, &["t-oneside".into()]), vec![Role::Wipe]);
    assert_eq!(
        roles_from_tags(&i, &["t-dork".into(), "t-cantrip".into()]),
        vec![Role::Ramp, Role::Draw]
    );
    assert_eq!(roles_from_tags(&i, &["t-lg".into()]), vec![Role::Payoff]);
    assert!(roles_from_tags(&i, &["t-allit".into()]).is_empty());
}

#[test]
fn fallback_roles() {
    assert_eq!(
        roles_from_card("Basic Land — Forest", "({T}: Add {G}.)", &[], None),
        vec![Role::Land]
    );
    assert_eq!(
        roles_from_card("Creature — Elf Druid", "{T}: Add {G}.", &[], Some(1)),
        vec![Role::Ramp]
    );
    assert_eq!(
        roles_from_card("Instant", "Counter target spell.", &[], None),
        vec![Role::Counter]
    );
    assert_eq!(
        roles_from_card("Sorcery", "Destroy all creatures.", &[], None),
        vec![Role::Wipe]
    );
    assert_eq!(
        roles_from_card("Instant", "Destroy target creature.", &[], None),
        vec![Role::Removal]
    );
    assert_eq!(
        roles_from_card("Creature — Dragon", "", &["Flying".into()], Some(4)),
        vec![Role::Threat, Role::Finisher]
    );
    assert_eq!(
        roles_from_card("Creature — Bear", "", &[], Some(2)),
        Vec::<Role>::new()
    );
}

#[test]
fn extended_fallback_roles() {
    let r = |t: &str, o: &str| roles_from_card(t, o, &[], None);
    assert_eq!(r("Instant", "Return target creature to its owner's hand."), vec![Role::Removal]);
    assert_eq!(
        r("Sorcery", "Target creature you control fights target creature you don't control."),
        vec![Role::Removal]
    );
    assert_eq!(r("Instant", "Target creature gets -3/-3 until end of turn."), vec![Role::Removal]);
    assert_eq!(r("Sorcery", "Each opponent sacrifices a creature."), vec![Role::Removal]);
    assert_eq!(r("Instant", "Exile target artifact or enchantment."), vec![Role::Removal]);
    assert_eq!(
        r("Instant", "Target creature deals damage equal to its power to any target."),
        vec![Role::Removal]
    );
    assert_eq!(r("Sorcery", "Each creature gets -2/-2 until end of turn."), vec![Role::Wipe]);
    assert_eq!(r("Sorcery", "All creatures get -1/-1 until end of turn."), vec![Role::Wipe]);
    assert_eq!(r("Sorcery", "Anger of the Gods deals 3 damage to each creature."), vec![Role::Wipe]);
    assert_eq!(
        r("Creature — Goblin", "When this creature enters, create a Treasure token."),
        vec![Role::Ramp]
    );
    assert_eq!(r("Artifact", "{1}, {T}: Add one mana of any color."), vec![Role::Ramp]);
    assert_eq!(r("Enchantment", "Creature spells you cast cost {1} less to cast."), vec![Role::Ramp]);
    assert_eq!(
        r(
            "Sorcery",
            "Look at the top three cards of your library. Put one of them into your hand and the rest on the bottom."
        ),
        vec![Role::Draw]
    );
    assert_eq!(
        r("Instant", "Exile the top card of your library. Until end of turn, you may play that card."),
        vec![Role::Draw]
    );
    assert_eq!(r("Creature — Human", "When this creature enters, investigate."), vec![Role::Draw]);
    assert_eq!(r("Sorcery", "Discard a card. If you do, draw two cards."), vec![Role::Draw]);
    assert_eq!(r("Instant", "Scry 2."), Vec::<Role>::new());
    assert_eq!(r("Instant", "Surveil 2."), Vec::<Role>::new());
    assert_eq!(r("Land", "{T}: Add {G}."), vec![Role::Land]);
}

#[test]
fn theme_slugs_drop_meta_roots() {
    let i = idx();
    assert_eq!(
        theme_slugs(&i, &["t-allit".into(), "t-lg".into(), "t-dork".into()]),
        vec!["lifegain-matters", "mana-dork"]
    );
}

// ---- score ----

#[test]
fn tokenize_word_boundaries_and_plurals() {
    let t = tokenize(
        "Creature — Elf Druid",
        "Whenever another Elf enters, you gain 1 life. Elves you control get +1/+1. Yourself.",
    );
    assert!(t.contains(&"elf".to_string()));
    assert!(t.contains(&"elves".to_string()));
    assert!(t.contains(&"druid".to_string()));
    assert!(t.contains(&"yourself".to_string()));
    assert!(!t.contains(&"self".to_string()));
}

#[test]
fn tokenize_stems_ies_and_keeps_each_token_once() {
    let t = tokenize("Creature — Faerie", "Faeries and faeries.");
    assert!(t.contains(&"faery".to_string()));
    assert!(t.contains(&"faerie".to_string()));
    let n = t.iter().filter(|x| x.as_str() == "faeries").count();
    assert_eq!(n, 1);
}

// ---- template ----

#[test]
fn brawl100_midrange_defaults() {
    let t = template_for(Format::Brawl100, Playstyle::Midrange, W | U | G, None);
    assert_eq!(t.deck_size, 99);
    assert_eq!(t.lands, 37);
    assert_eq!(t.nonland(), 62);
    assert_eq!(t.min(Role::Ramp), 8);
    assert_eq!(t.max(Role::Counter), 4);
    let curve_sum: u32 = t.curve.iter().sum();
    assert!((curve_sum as f32 / 1000.0 - 1.0).abs() < 1e-3);
}

#[test]
fn no_blue_disables_counters() {
    let t = template_for(Format::StandardBrawl60, Playstyle::Control, R | G, None);
    assert_eq!(t.max(Role::Counter), 0);
    assert_eq!(t.min(Role::Counter), 0);
    assert_eq!(t.lands, 25);
}

#[test]
fn aggro_and_overrides() {
    let mut o = TemplateOverrides::default();
    o.lands = Some(30);
    o.role_min.push((Role::Ramp, 20));
    o.role_max.push((Role::Ramp, 10));
    let t = template_for(Format::Brawl100, Playstyle::Aggro, G, Some(&o));
    assert_eq!(t.lands, 30);
    assert_eq!(t.min(Role::Land), 30);
    assert_eq!(t.min(Role::Ramp), 10);
    assert_eq!(t.min(Role::Threat), 22);
}

#[test]
fn all_default_templates_has_six() {
    let all = all_default_templates();
    assert_eq!(all.len(), 6);
}

#[test]
fn weights_sum_to_one_and_include_pip() {
    for t in all_default_templates() {
        let w = t.weights;
        let sum = w.role + w.synergy + w.power + w.ownership + w.curve + w.pip;
        assert!((sum as f32 / 1000.0 - 1.0).abs() < 1e-3, "{:?} {:?}", t.playstyle, w);
        assert!(w.pip > 0);
    }
}

#[test]
fn template_nonbasic_cap_is_a_third_of_lands() {
    let t = template_for(Format::StandardBrawl60, Playstyle::Aggro, W | B, None);
    assert_eq!(t.lands, 22);
    assert_eq!(t.nonbasic_land_cap, 7);
    assert_eq!(t.max(Role::Wipe), 1);
    assert_eq!(t.min(Role::Threat), 14);
}

fn role_card(name: &str, roles: Vec<Role>, is_land: bool, owned: i32, rarity: Rarity) -> OracleCard {
    let mut c = card_with(1, name, name);
    c.roles = roles;
    c.is_land = is_land;
    c.printings[0].owned_qty = owned;
    c.printings[0].rarity = rarity;
    c
}

#[test]
fn alternatives_are_unused_same_kind_and_role() {
    let oracles = vec![
        role_card("a", vec![Role::Ramp], false, 1, Rarity::Common),
        role_card("b", vec![Role::Draw], false, 1, Rarity::Common),
        role_card("c", vec![Role::Ramp, Role::Draw], false, 1, Rarity::Common),
        role_card("d", vec![Role::Ramp], true, 1, Rarity::Common),
        role_card("e", vec![Role::Ramp], false, 1, Rarity::Common),
        role_card("f", vec![Role::Ramp], false, 1, Rarity::Common),
    ];
    let chosen = vec![(0usize, Role::Ramp), (2usize, Role::Draw), (1usize, Role::Draw)];
    let pool = vec![5usize, 0, 1, 2, 3, 4];
    // Slot 0 (card a, Ramp): c is used by slot 1, d is a land, b lacks Ramp.
    assert_eq!(alternative_candidates(&oracles, &pool, &chosen, 0), vec![5, 4]);
    // Slot 1 (card c, Draw): b is used by slot 2; a, e, f lack Draw.
    assert_eq!(alternative_candidates(&oracles, &pool, &chosen, 1), Vec::<usize>::new());
}

#[test]
fn budget_without_slot_spends_for_other_unowned_cards() {
    let oracles = vec![
        role_card("a", vec![Role::Ramp], false, 0, Rarity::Rare),
        role_card("b", vec![Role::Draw], false, 0, Rarity::Rare),
        role_card("c", vec![Role::Draw], false, 1, Rarity::Mythic),
        role_card("d", vec![Role::Draw], false, 0, Rarity::Uncommon),
    ];
    let chosen = vec![(0usize, Role::Ramp), (1usize, Role::Draw), (2usize, Role::Draw), (3usize, Role::Draw)];
    let budget = WildcardBudget { common: 0, uncommon: 0, rare: 5, mythic: 1 };
    let b = budget_without_slot(&oracles, budget, true, &chosen, 1);
    // a spends a rare; b is the slot; c is owned; d finds no uncommon left.
    assert_eq!((b.common, b.uncommon, b.rare, b.mythic), (0, 0, 4, 1));
    let unchanged = budget_without_slot(&oracles, budget, false, &chosen, 1);
    assert_eq!(unchanged.rare, 5);
}

#[test]
fn count_out_undoes_count_in() {
    let mut c = DeckCounts::new();
    c.count_in(Role::Ramp, Some((2, [1, 0, 0, 2, 0])));
    c.count_in(Role::Land, None);
    let before = c;
    c.count_in(Role::Draw, Some((7, [0, 3, 0, 0, 1])));
    assert_eq!(c.role_counts[2], 1);
    assert_eq!(c.curve_counts[7], 1);
    assert_eq!(c.pip_counts, [1, 3, 0, 2, 1]);
    c.count_out(Role::Draw, Some((7, [0, 3, 0, 0, 1])));
    assert_eq!(c.role_counts, before.role_counts);
    assert_eq!(c.curve_counts, before.curve_counts);
    assert_eq!(c.pip_counts, before.pip_counts);
    // Counts stop at zero.
    c.count_out(Role::Wipe, Some((0, [5, 0, 0, 0, 0])));
    assert_eq!(c.role_counts[4], 0);
    assert_eq!(c.curve_counts[0], 0);
    assert_eq!(c.pip_counts[0], 0);
}

#[test]
fn pinned_pass_skips_basics_and_stops_when_nonland_slots_are_full() {
    // (basic land, land): nonland, basic, nonbasic land, nonland, nonland, basic.
    let flags = [(false, false), (true, true), (false, true), (false, false), (false, false), (true, true)];
    let p = pinned_pass(&flags, 2);
    assert_eq!(p.added, vec![0, 2, 3]);
    assert_eq!(p.basics_ignored, vec![1]);
    assert_eq!(p.nonland_count, 2);
    assert_eq!(p.nonbasic_lands, 1);
    let all = pinned_pass(&flags, 10);
    assert_eq!(all.added, vec![0, 2, 3, 4]);
    assert_eq!(all.basics_ignored, vec![1, 5]);
}

#[test]
fn land_slots_add_up_to_the_land_count() {
    assert_eq!(nonbasic_limit(37, 12, 2), 10);
    assert_eq!(nonbasic_limit(5, 12, 2), 3);
    assert_eq!(nonbasic_limit(37, 1, 2), 0);
    assert_eq!(basics_needed(37, 10, 2), 25);
    assert_eq!(2 + 10 + basics_needed(37, 10, 2), 37);
    assert_eq!(basics_needed(3, 5, 2), 0);
}

#[test]
fn even_split_places_every_basic() {
    assert_eq!(even_split(10, 3), vec![4, 3, 3]);
    assert_eq!(even_split(2, 5), vec![1, 1, 0, 0, 0]);
    assert_eq!(even_split(0, 2), vec![0, 0]);
    assert_eq!(even_split(35, 5).iter().sum::<u32>(), 35);
}

#[test]
fn mask_laws_hold_on_examples() {
    assert_eq!(mask_from_letters(&["G", "R"]), mask_from_str("G") | mask_from_str("R"));
    assert_eq!(mask_from_letters(&[]), 0);
    for m in 0u8..32 {
        let letters: String = mask_to_letters(m).into_iter().collect();
        assert_eq!(mask_from_str(&letters), m);
    }
    assert_eq!(mask_to_letters(W | G), vec!['W', 'G']);
}

#[test]
fn tag_roles_come_in_canonical_order_whatever_the_tag_order() {
    let i = idx();
    // The roles are sorted into `Role::ALL` order before they are returned.
    assert_eq!(
        roles_from_tags(&i, &["t-cantrip".into(), "t-dork".into()]),
        vec![Role::Ramp, Role::Draw]
    );
}
