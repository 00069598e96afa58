//! The deck-building engine: request validation, the format template and
//! the selection a build starts from.

pub mod commanders;
pub mod types;
pub mod roles;
pub mod template;
pub mod pool;
pub mod lands;
pub mod score;
pub mod fill;
pub mod combos;

use std::collections::{HashMap, HashSet};

use vstd::prelude::*;

use self::combos::{combo_completions, combo_views, completions_spec, counts_view, ComboCompletionCount};
use self::pool::{
    candidate_pool, effective_identity, effective_identity_spec, grp_listed, index_by_grp,
    last_oracle_with, pool_spec, PoolCtx,
};
use self::roles::opt_view;
use self::template::{is_template_for, template_for, Template};
use self::types::{
    is_subset, subset_spec, BuildRequest, Format, OracleCard, OwnershipMode, WildcardBudget,
    Warning,
};
use crate::numbers::{decimal_signed, fmt_i64};
use crate::text::{
    debug_quoted, owned, push_str, str_eq, str_views, to_lower, unicode_lower, vec_contains_str,
};

verus! {

/// Why a build was refused.
#[derive(Debug, Clone)]
pub enum BuildError {
    /// The request is invalid (DECK-009).
    InvalidRequest(String),
    /// The card data is missing (DECK-004).
    NoData(String),
}

impl BuildError {
    /// The diagnostic code of the error.
    pub fn code(&self) -> (c: &'static str)
        ensures
            c@ == (match self {
                BuildError::InvalidRequest(_) => "DECK-009"@,
                BuildError::NoData(_) => "DECK-004"@,
            }),
    {
        match self {
            BuildError::InvalidRequest(_) => "DECK-009",
            BuildError::NoData(_) => "DECK-004",
        }
    }

    /// The message of the error.
    pub fn message(&self) -> (m: String)
        ensures
            m@ == (match self {
                BuildError::InvalidRequest(s) => s@,
                BuildError::NoData(s) => s@,
            }),
    {
        match self {
            BuildError::InvalidRequest(s) => s.clone(),
            BuildError::NoData(s) => s.clone(),
        }
    }
}

/// `e` is an invalid-request error with message `msg`.
pub open spec fn is_invalid(e: BuildError, msg: Seq<char>) -> bool {
    e matches BuildError::InvalidRequest(s) && s@ == msg
}

/// The oracle card that grp id `g` resolves to: the last one listing it.
pub open spec fn grp_card(oracles: Seq<OracleCard>, g: i32) -> int {
    choose|i: int| last_oracle_with(oracles, g, i)
}

proof fn lemma_grp_card(oracles: Seq<OracleCard>, g: i32, i: int)
    requires
        last_oracle_with(oracles, g, i),
    ensures
        grp_card(oracles, g) == i,
{
    let k = grp_card(oracles, g);
    assert(last_oracle_with(oracles, g, k));
    if k < i {
        let j = choose|j: int|
            0 <= j < oracles[i].printings@.len() && oracles[i].printings@[j].grp_id == g;
        assert(oracles[i].printings@[j].grp_id != g);
    } else if i < k {
        let j = choose|j: int|
            0 <= j < oracles[k].printings@.len() && oracles[k].printings@[j].grp_id == g;
        assert(oracles[k].printings@[j].grp_id != g);
    }
}

/// The commander of a request and the colour identity the deck is built in,
/// or the message of the error that refuses the request.
pub open spec fn commander_outcome(
    oracles: Seq<OracleCard>,
    req: BuildRequest,
    check_commander: bool,
) -> Result<(int, u8), Seq<char>> {
    match req.commander_grp {
        None => Err("DECK-009: commander_grp required"@),
        Some(g) => if !grp_listed(oracles, g, oracles.len() as int) {
            Err("DECK-009: commander not found (grp "@ + decimal_signed(g as int) + ")"@)
        } else {
            let i = grp_card(oracles, g);
            let c = oracles[i];
            if check_commander && !c.is_commander_eligible {
                Err("DECK-009: commander not eligible: "@ + c.name@)
            } else if check_commander && !c.legal_spec(req.format) {
                Err("DECK-009: commander not legal in format: "@ + c.name@)
            } else {
                match effective_identity_spec(c.color_identity, opt_view(req.color_subset)) {
                    Ok(id) => Ok((i, id)),
                    Err(e) => Err(e),
                }
            }
        },
    }
}

/// A message of a refused request: it starts with `DECK-009`.
pub open spec fn starts_deck_009(m: Seq<char>) -> bool {
    m.len() >= 8 && m.take(8) == "DECK-009"@
}

proof fn lemma_deck_009_prefix(rest: Seq<char>)
    ensures
        starts_deck_009("DECK-009: "@ + rest),
{
    reveal_strlit("DECK-009: ");
    reveal_strlit("DECK-009");
    assert(("DECK-009: "@ + rest).take(8) =~= "DECK-009"@);
}

/// Every refusal of a build request is DECK-009: a request without a
/// commander, with a commander not on Arena, not eligible or not legal in
/// the format, or with a colour subset outside the commander's identity
/// (as `resolve_template` and `make_plan` check it), and every
/// must-include or build-around card that is not on Arena, outside the
/// identity or not legal, gives a message starting with `DECK-009`, and the
/// error those functions return for it is `InvalidRequest` (see their
/// contracts and `is_invalid`), whose code is DECK-009.
pub proof fn lemma_refusals_are_deck_009(
    oracles: Seq<OracleCard>,
    req: BuildRequest,
    check_commander: bool,
    ids: Seq<i32>,
    identity: u8,
    what: Seq<char>,
    n: int,
)
    ensures
        commander_outcome(oracles, req, check_commander) matches Err(m) ==> starts_deck_009(m),
        first_include_error(oracles, ids, identity, req.format, what, n) matches Some(m)
            ==> starts_deck_009(m),
    decreases n,
{
    match req.commander_grp {
        None => {
            reveal_strlit("DECK-009: commander_grp required");
            reveal_strlit("DECK-009");
            assert("DECK-009: commander_grp required"@.take(8) =~= "DECK-009"@);
        },
        Some(g) => {
            lemma_deck_009_prefix("commander not found (grp "@ + decimal_signed(g as int) + ")"@);
            assert("DECK-009: commander not found (grp "@ + decimal_signed(g as int) + ")"@ =~= "DECK-009: "@
                + ("commander not found (grp "@ + decimal_signed(g as int) + ")"@)) by {
                reveal_strlit("DECK-009: commander not found (grp ");
                reveal_strlit("DECK-009: ");
                reveal_strlit("commander not found (grp ");
            }
            if grp_listed(oracles, g, oracles.len() as int) {
                let c = oracles[grp_card(oracles, g)];
                lemma_deck_009_prefix("commander not eligible: "@ + c.name@);
                lemma_deck_009_prefix("commander not legal in format: "@ + c.name@);
                assert("DECK-009: commander not eligible: "@ + c.name@ =~= "DECK-009: "@ + (
                "commander not eligible: "@ + c.name@)) by {
                    reveal_strlit("DECK-009: commander not eligible: ");
                    reveal_strlit("DECK-009: ");
                    reveal_strlit("commander not eligible: ");
                }
                assert("DECK-009: commander not legal in format: "@ + c.name@ =~= "DECK-009: "@ + (
                "commander not legal in format: "@ + c.name@)) by {
                    reveal_strlit("DECK-009: commander not legal in format: ");
                    reveal_strlit("DECK-009: ");
                    reveal_strlit("commander not legal in format: ");
                }
                match opt_view(req.color_subset) {
                    Some(sub) => {
                        let rest = "color_subset "@ + debug_quoted(sub) + " is not within commander identity"@;
                        lemma_deck_009_prefix(rest);
                        assert("DECK-009: color_subset "@ + debug_quoted(sub)
                            + " is not within commander identity"@ =~= "DECK-009: "@ + rest) by {
                            reveal_strlit("DECK-009: color_subset ");
                            reveal_strlit("DECK-009: ");
                            reveal_strlit("color_subset ");
                        }
                    },
                    None => {},
                }
            }
        },
    }
    if n > 0 {
        lemma_refusals_are_deck_009(oracles, req, check_commander, ids, identity, what, n - 1);
        let g = ids[n - 1];
        lemma_deck_009_prefix(what + " grp not found: "@ + decimal_signed(g as int));
        assert("DECK-009: "@ + what + " grp not found: "@ + decimal_signed(g as int) =~= "DECK-009: "@
            + (what + " grp not found: "@ + decimal_signed(g as int)));
        if grp_listed(oracles, g, oracles.len() as int) {
            let c = oracles[grp_card(oracles, g)];
            lemma_deck_009_prefix(what + " outside identity: "@ + c.name@);
            lemma_deck_009_prefix(what + " not legal: "@ + c.name@);
            assert("DECK-009: "@ + what + " outside identity: "@ + c.name@ =~= "DECK-009: "@ + (what
                + " outside identity: "@ + c.name@));
            assert("DECK-009: "@ + what + " not legal: "@ + c.name@ =~= "DECK-009: "@ + (what
                + " not legal: "@ + c.name@));
        }
    }
}

/// Finds the commander of a request and its effective identity; with
/// `check_commander` it must also be eligible and legal in the format.
fn resolve_commander(
    oracles: &[OracleCard],
    grp_index: &HashMap<i32, usize>,
    req: &BuildRequest,
    check_commander: bool,
) -> (r: Result<(usize, u8), BuildError>)
    requires
        forall|g: i32| #[trigger]
            grp_index@.contains_key(g) <==> grp_listed(oracles@, g, oracles@.len() as int),
        forall|g: i32|
            #[trigger] grp_index@.contains_key(g) ==> last_oracle_with(
                oracles@,
                g,
                grp_index@[g] as int,
            ),
    ensures
        r matches Ok(a) ==> a.0 < oracles@.len(),
        match (r, commander_outcome(oracles@, *req, check_commander)) {
            (Ok(a), Ok(b)) => a.0 == b.0 && a.1 == b.1,
            (Err(e), Err(m)) => is_invalid(e, m),
            _ => false,
        },
{
    let g = match req.commander_grp {
        Some(g) => g,
        None => {
            return Err(BuildError::InvalidRequest(owned("DECK-009: commander_grp required")));
        },
    };
    let idx: usize = match grp_index.get(&g) {
        Some(i) => *i,
        None => {
            let mut msg = owned("DECK-009: commander not found (grp ");
            let t = fmt_i64(g as i64);
            push_str(&mut msg, t.as_str());
            push_str(&mut msg, ")");
            return Err(BuildError::InvalidRequest(msg));
        },
    };
    proof {
        lemma_grp_card(oracles@, g, idx as int);
    }
    let c = &oracles[idx];
    if check_commander && !c.is_commander_eligible {
        let mut msg = owned("DECK-009: commander not eligible: ");
        push_str(&mut msg, c.name.as_str());
        return Err(BuildError::InvalidRequest(msg));
    }
    if check_commander && !c.legal_in(req.format) {
        let mut msg = owned("DECK-009: commander not legal in format: ");
        push_str(&mut msg, c.name.as_str());
        return Err(BuildError::InvalidRequest(msg));
    }
    let subset: Option<&str> = match &req.color_subset {
        Some(s) => Some(s.as_str()),
        None => None,
    };
    match effective_identity(c.color_identity, subset) {
        Ok(id) => Ok((idx, id)),
        Err(e) => Err(BuildError::InvalidRequest(e)),
    }
}

/// Validates the commander and colour subset of a request and returns the
/// format template for the effective identity: the commander must be given,
/// be on Arena, be commander-eligible and legal in the format, and the
/// subset must lie within its identity.
pub fn resolve_template(oracles: &[OracleCard], req: &BuildRequest) -> (r: Result<
    Template,
    BuildError,
>)
    ensures
        match (r, commander_outcome(oracles@, *req, true)) {
            (Ok(t), Ok(c)) => is_template_for(
                t,
                req.format,
                req.playstyle,
                c.1,
                req.template_overrides,
            ),
            (Err(e), Err(m)) => is_invalid(e, m),
            _ => false,
        },
{
    let grp_index = index_by_grp(oracles);
    match resolve_commander(oracles, &grp_index, req, true) {
        Ok((_idx, identity)) => Ok(
            template_for(req.format, req.playstyle, identity, req.template_overrides.as_ref()),
        ),
        Err(e) => Err(e),
    }
}

// ---------------------------------------------------------------------------
// The selection a build starts from
// ---------------------------------------------------------------------------

/// What a build starts from: the commander, the effective identity, the
/// candidate pool, the validated must-include and build-around cards, the
/// theme tags, the commander's subtypes, the seed cards found on Arena and
/// the wildcard budget. Cards are indices into the oracle list.
#[derive(Debug, Clone)]
pub struct PlanSelection {
    pub identity: u8,
    pub commander_idx: usize,
    pub pool: Vec<usize>,
    pub must_include: Vec<usize>,
    pub build_around: Vec<usize>,
    pub theme: Vec<String>,
    pub commander_subtypes: Vec<String>,
    pub commander_subtypes_lower: Vec<String>,
    pub seed_order: Vec<usize>,
    pub owned_only: bool,
    pub budget: WildcardBudget,
    pub combo_completions: Vec<ComboCompletionCount>,
}

/// Why card `g` may not be forced into the deck (`what` names the list):
/// not on Arena, outside the identity, or not legal in the format.
pub open spec fn include_error(
    oracles: Seq<OracleCard>,
    g: i32,
    identity: u8,
    format: Format,
    what: Seq<char>,
) -> Option<Seq<char>> {
    if !grp_listed(oracles, g, oracles.len() as int) {
        Some("DECK-009: "@ + what + " grp not found: "@ + decimal_signed(g as int))
    } else {
        let c = oracles[grp_card(oracles, g)];
        if !subset_spec(c.color_identity, identity) {
            Some("DECK-009: "@ + what + " outside identity: "@ + c.name@)
        } else if !c.legal_spec(format) {
            Some("DECK-009: "@ + what + " not legal: "@ + c.name@)
        } else {
            None
        }
    }
}

/// The first error among the first `n` cards of `ids`.
pub open spec fn first_include_error(
    oracles: Seq<OracleCard>,
    ids: Seq<i32>,
    identity: u8,
    format: Format,
    what: Seq<char>,
    n: int,
) -> Option<Seq<char>>
    decreases n,
{
    if n <= 0 {
        None
    } else {
        match first_include_error(oracles, ids, identity, format, what, n - 1) {
            Some(e) => Some(e),
            None => include_error(oracles, ids[n - 1], identity, format, what),
        }
    }
}

proof fn lemma_first_error_stable(
    oracles: Seq<OracleCard>,
    ids: Seq<i32>,
    identity: u8,
    format: Format,
    what: Seq<char>,
    n: int,
    m: int,
)
    requires
        0 <= n <= m,
        first_include_error(oracles, ids, identity, format, what, n) is Some,
    ensures
        first_include_error(oracles, ids, identity, format, what, m) == first_include_error(
            oracles,
            ids,
            identity,
            format,
            what,
            n,
        ),
    decreases m - n,
{
    if n < m {
        lemma_first_error_stable(oracles, ids, identity, format, what, n, m - 1);
    }
}

/// The oracle cards that grp ids resolve to.
pub open spec fn resolved_cards(oracles: Seq<OracleCard>, ids: Seq<i32>) -> Seq<usize> {
    ids.map_values(|g: i32| grp_card(oracles, g) as usize)
}

/// Whether `x` is a theme tag: a tag of the commander or of a build-around
/// card, or one the request names.
pub open spec fn is_theme_tag(
    oracles: Seq<OracleCard>,
    commander: int,
    around: Seq<i32>,
    req_tags: Seq<String>,
    x: Seq<char>,
) -> bool {
    ||| str_views(oracles[commander].tags@).contains(x)
    ||| exists|k: int|
        0 <= k < around.len() && str_views(
            oracles[grp_card(oracles, #[trigger] around[k])].tags@,
        ).contains(x)
    ||| str_views(req_tags).contains(x)
}

/// The index of the last of the first `n` oracle cards whose lower-cased
/// name is `name`, or -1.
pub open spec fn last_name_index(oracles: Seq<OracleCard>, name: Seq<char>, n: int) -> int
    decreases n,
{
    if n <= 0 {
        -1
    } else if oracles[n - 1].name_lower@ == name {
        n - 1
    } else {
        last_name_index(oracles, name, n - 1)
    }
}

/// The oracle cards of the first `n` seed names, skipping names not on
/// Arena.
pub open spec fn seed_order_spec(oracles: Seq<OracleCard>, names: Seq<String>, n: int) -> Seq<
    usize,
>
    decreases n,
{
    if n <= 0 {
        Seq::empty()
    } else {
        let prev = seed_order_spec(oracles, names, n - 1);
        let k = last_name_index(oracles, names[n - 1]@, oracles.len() as int);
        if k >= 0 {
            prev.push(k as usize)
        } else {
            prev
        }
    }
}

/// The first `n` subtypes lower-cased, without those that come out empty.
pub open spec fn lowered_subtypes(subs: Seq<String>, n: int) -> Seq<Seq<char>>
    decreases n,
{
    if n <= 0 {
        Seq::empty()
    } else {
        let prev = lowered_subtypes(subs, n - 1);
        let l = unicode_lower(subs[n - 1]@);
        if l.len() > 0 {
            prev.push(l)
        } else {
            prev
        }
    }
}

/// Whether the build may only use owned cards, and its wildcard budget:
/// the request's budget capped by the wildcards owned, or unbounded.
pub open spec fn plan_budget(mode: OwnershipMode, owned: WildcardBudget) -> (bool, WildcardBudget) {
    match mode {
        OwnershipMode::OwnedOnly { wc_budget: b } => (
            true,
            WildcardBudget {
                common: if b.common <= owned.common {
                    b.common
                } else {
                    owned.common
                },
                uncommon: if b.uncommon <= owned.uncommon {
                    b.uncommon
                } else {
                    owned.uncommon
                },
                rare: if b.rare <= owned.rare {
                    b.rare
                } else {
                    owned.rare
                },
                mythic: if b.mythic <= owned.mythic {
                    b.mythic
                } else {
                    owned.mythic
                },
            },
        ),
        OwnershipMode::BestDeck => (
            false,
            WildcardBudget {
                common: u32::MAX,
                uncommon: u32::MAX,
                rare: u32::MAX,
                mythic: u32::MAX,
            },
        ),
    }
}

fn plan_budget_exec(mode: &OwnershipMode, owned: WildcardBudget) -> (r: (bool, WildcardBudget))
    ensures
        r == plan_budget(*mode, owned),
{
    match mode {
        OwnershipMode::OwnedOnly { wc_budget } => {
            let b = *wc_budget;
            (
                true,
                WildcardBudget {
                    common: if b.common <= owned.common {
                        b.common
                    } else {
                        owned.common
                    },
                    uncommon: if b.uncommon <= owned.uncommon {
                        b.uncommon
                    } else {
                        owned.uncommon
                    },
                    rare: if b.rare <= owned.rare {
                        b.rare
                    } else {
                        owned.rare
                    },
                    mythic: if b.mythic <= owned.mythic {
                        b.mythic
                    } else {
                        owned.mythic
                    },
                },
            )
        },
        OwnershipMode::BestDeck => (
            false,
            WildcardBudget {
                common: u32::MAX,
                uncommon: u32::MAX,
                rare: u32::MAX,
                mythic: u32::MAX,
            },
        ),
    }
}

/// Validates the cards of one forced list and resolves them to oracle
/// indices.
fn resolve_forced(
    oracles: &[OracleCard],
    grp_index: &HashMap<i32, usize>,
    ids: &Vec<i32>,
    identity: u8,
    format: Format,
    what: &str,
) -> (r: Result<Vec<usize>, BuildError>)
    requires
        forall|g: i32| #[trigger]
            grp_index@.contains_key(g) <==> grp_listed(oracles@, g, oracles@.len() as int),
        forall|g: i32|
            #[trigger] grp_index@.contains_key(g) ==> last_oracle_with(
                oracles@,
                g,
                grp_index@[g] as int,
            ),
    ensures
        match r {
            Ok(v) => first_include_error(
                oracles@,
                ids@,
                identity,
                format,
                what@,
                ids@.len() as int,
            ) is None && v@ == resolved_cards(oracles@, ids@) && forall|j: int|
                0 <= j < v@.len() ==> #[trigger] v@[j] < oracles@.len() && v@[j] as int
                    == grp_card(oracles@, ids@[j]),
            Err(e) => first_include_error(
                oracles@,
                ids@,
                identity,
                format,
                what@,
                ids@.len() as int,
            ) matches Some(m) && is_invalid(e, m),
        },
{
    let mut out: Vec<usize> = Vec::new();
    let mut i: usize = 0;
    while i < ids.len()
        invariant
            i <= ids@.len(),
            forall|g: i32| #[trigger]
                grp_index@.contains_key(g) <==> grp_listed(oracles@, g, oracles@.len() as int),
            forall|g: i32|
                #[trigger] grp_index@.contains_key(g) ==> last_oracle_with(
                    oracles@,
                    g,
                    grp_index@[g] as int,
                ),
            first_include_error(oracles@, ids@, identity, format, what@, i as int) is None,
            out@ == resolved_cards(oracles@, ids@.take(i as int)),
            forall|j: int|
                0 <= j < out@.len() ==> #[trigger] out@[j] < oracles@.len() && out@[j] as int
                    == grp_card(oracles@, ids@[j]),
        decreases ids@.len() - i,
    {
        let g = ids[i];
        proof {
            if include_error(oracles@, g, identity, format, what@) is Some {
                lemma_first_error_stable(
                    oracles@,
                    ids@,
                    identity,
                    format,
                    what@,
                    i + 1,
                    ids@.len() as int,
                );
            }
        }
        let idx: usize = match grp_index.get(&g) {
            Some(k) => *k,
            None => {
                let mut msg = owned("DECK-009: ");
                push_str(&mut msg, what);
                push_str(&mut msg, " grp not found: ");
                let t = fmt_i64(g as i64);
                push_str(&mut msg, t.as_str());
                return Err(BuildError::InvalidRequest(msg));
            },
        };
        proof {
            lemma_grp_card(oracles@, g, idx as int);
        }
        let c = &oracles[idx];
        if !is_subset(c.color_identity, identity) {
            let mut msg = owned("DECK-009: ");
            push_str(&mut msg, what);
            push_str(&mut msg, " outside identity: ");
            push_str(&mut msg, c.name.as_str());
            return Err(BuildError::InvalidRequest(msg));
        }
        if !c.legal_in(format) {
            let mut msg = owned("DECK-009: ");
            push_str(&mut msg, what);
            push_str(&mut msg, " not legal: ");
            push_str(&mut msg, c.name.as_str());
            return Err(BuildError::InvalidRequest(msg));
        }
        out.push(idx);
        proof {
            assert(resolved_cards(oracles@, ids@.take(i + 1)) =~= resolved_cards(
                oracles@,
                ids@.take(i as int),
            ).push(idx));
        }
        i += 1;
    }
    assert(ids@.take(ids@.len() as int) =~= ids@);
    Ok(out)
}

/// Adds `s` to `v` unless it is already there.
fn push_unique_str(v: &mut Vec<String>, s: &String)
    ensures
        forall|x: Seq<char>| #[trigger]
            str_views(final(v)@).contains(x) <==> (str_views(old(v)@).contains(x) || x == s@),
        str_views(old(v)@).no_duplicates() ==> str_views(final(v)@).no_duplicates(),
{
    if !vec_contains_str(v, s.as_str()) {
        let ghost before = str_views(v@);
        v.push(s.clone());
        proof {
            assert(str_views(v@) =~= before.push(s@));
            assert forall|x: Seq<char>| #[trigger]
                str_views(v@).contains(x) <==> (before.contains(x) || x == s@) by {
                if str_views(v@).contains(x) {
                    let k = choose|k: int| 0 <= k < str_views(v@).len() && str_views(v@)[k] == x;
                    if k < before.len() {
                        assert(before[k] == x);
                    }
                }
                if before.contains(x) {
                    let k = choose|k: int| 0 <= k < before.len() && before[k] == x;
                    assert(str_views(v@)[k] == x);
                }
                if x == s@ {
                    assert(str_views(v@)[before.len() as int] == x);
                }
            }
        }
    }
}

/// Adds every string of `tags` to `v`, skipping those already there.
fn push_all_unique(v: &mut Vec<String>, tags: &Vec<String>)
    requires
        str_views(old(v)@).no_duplicates(),
    ensures
        str_views(final(v)@).no_duplicates(),
        forall|x: Seq<char>| #[trigger]
            str_views(final(v)@).contains(x) <==> (str_views(old(v)@).contains(x) || str_views(
                tags@,
            ).contains(x)),
{
    let ghost start = str_views(v@);
    let mut i: usize = 0;
    while i < tags.len()
        invariant
            i <= tags@.len(),
            start == str_views(old(v)@),
            str_views(v@).no_duplicates(),
            forall|x: Seq<char>| #[trigger]
                str_views(v@).contains(x) <==> (start.contains(x) || str_views(
                    tags@.take(i as int),
                ).contains(x)),
        decreases tags@.len() - i,
    {
        push_unique_str(v, &tags[i]);
        proof {
            let t1 = str_views(tags@.take(i + 1));
            let t0 = str_views(tags@.take(i as int));
            assert(t1 =~= t0.push(tags@[i as int]@));
            assert forall|x: Seq<char>| #[trigger]
                str_views(v@).contains(x) <==> (start.contains(x) || t1.contains(x)) by {
                if t1.contains(x) {
                    let k = choose|k: int| 0 <= k < t1.len() && t1[k] == x;
                    if k < t0.len() {
                        assert(t0[k] == x);
                    }
                }
                if t0.contains(x) {
                    let k = choose|k: int| 0 <= k < t0.len() && t0[k] == x;
                    assert(t1[k] == x);
                }
                if x == tags@[i as int]@ {
                    assert(t1[i as int] == x);
                }
            }
        }
        i += 1;
    }
    assert(tags@.take(tags@.len() as int) =~= tags@);
}

/// The index of the last oracle card whose lower-cased name is `name`.
pub fn find_name(oracles: &[OracleCard], name: &str) -> (r: Option<usize>)
    ensures
        r matches Some(k) ==> k < oracles@.len(),
        match r {
            Some(k) => k as int == last_name_index(oracles@, name@, oracles@.len() as int),
            None => last_name_index(oracles@, name@, oracles@.len() as int) == -1,
        },
{
    let mut i: usize = oracles.len();
    while i > 0
        invariant
            i <= oracles@.len(),
            last_name_index(oracles@, name@, oracles@.len() as int) == last_name_index(
                oracles@,
                name@,
                i as int,
            ),
        decreases i,
    {
        if str_eq(oracles[i - 1].name_lower.as_str(), name) {
            return Some(i - 1);
        }
        i -= 1;
    }
    None
}

/// Validates a build request and gathers what the build starts from: the
/// commander (on Arena) and the effective identity; every must-include and
/// build-around card on Arena, within the identity and legal; the candidate
/// pool without the commander (by oracle id, see `pool_eligible`) and the
/// excluded grp ids; the theme tags of
/// the commander, the build-around cards and the request; the commander's
/// subtypes; the seed cards found on Arena, in order; the wildcard budget,
/// capped by the wildcards owned when only owned cards may be used; and
/// the almost-complete community combos, each missing piece with the
/// pieces owned or guaranteed in the deck (the commander and the
/// must-include cards) and the combo size.
pub fn make_plan(
    oracles: &[OracleCard],
    seed_names: &Vec<String>,
    combos: &Vec<Vec<String>>,
    wildcards_owned: WildcardBudget,
    req: &BuildRequest,
) -> (r: Result<PlanSelection, BuildError>)
    ensures
        match r {
            Ok(p) => {
                &&& commander_outcome(oracles@, *req, false) matches Ok(c)
                &&& p.commander_idx == c.0 && p.identity == c.1
                &&& first_include_error(
                    oracles@,
                    req.must_include@,
                    c.1,
                    req.format,
                    "must_include"@,
                    req.must_include@.len() as int,
                ) is None
                &&& first_include_error(
                    oracles@,
                    req.build_around@,
                    c.1,
                    req.format,
                    "build_around"@,
                    req.build_around@.len() as int,
                ) is None
                &&& p.pool@ == pool_spec(
                    oracles@,
                    req.format,
                    c.1,
                    oracles@[c.0].oracle_id@,
                    req.exclude@.to_set(),
                    seq![oracles@[c.0].oracle_id@],
                    oracles@.len() as int,
                )
                &&& p.must_include@ == resolved_cards(oracles@, req.must_include@)
                &&& p.build_around@ == resolved_cards(oracles@, req.build_around@)
                &&& str_views(p.theme@).no_duplicates()
                &&& forall|x: Seq<char>| #[trigger]
                    str_views(p.theme@).contains(x) <==> is_theme_tag(
                        oracles@,
                        c.0,
                        req.build_around@,
                        req.theme_tags@,
                        x,
                    )
                &&& str_views(p.commander_subtypes@) == str_views(oracles@[c.0].subtypes@)
                &&& str_views(p.commander_subtypes_lower@) == lowered_subtypes(
                    oracles@[c.0].subtypes@,
                    oracles@[c.0].subtypes@.len() as int,
                )
                &&& p.seed_order@ == seed_order_spec(oracles@, seed_names@, seed_names@.len() as int)
                &&& (p.owned_only, p.budget) == plan_budget(req.ownership, wildcards_owned)
                &&& counts_view(p.combo_completions@) == completions_spec(
                    oracles@,
                    c.1,
                    req.format,
                    seq![p.commander_idx].add(p.must_include@),
                    combo_views(combos@),
                    combos@.len() as int,
                )
            },
            Err(e) => match commander_outcome(oracles@, *req, false) {
                Err(m) => is_invalid(e, m),
                Ok(c) => match first_include_error(
                    oracles@,
                    req.must_include@,
                    c.1,
                    req.format,
                    "must_include"@,
                    req.must_include@.len() as int,
                ) {
                    Some(m) => is_invalid(e, m),
                    None => first_include_error(
                        oracles@,
                        req.build_around@,
                        c.1,
                        req.format,
                        "build_around"@,
                        req.build_around@.len() as int,
                    ) matches Some(m) && is_invalid(e, m),
                },
            },
        },
{
    let grp_index = index_by_grp(oracles);
    let (commander_idx, identity) = match resolve_commander(oracles, &grp_index, req, false) {
        Ok(c) => c,
        Err(e) => {
            return Err(e);
        },
    };
    let commander = &oracles[commander_idx];
    let mut exclude_grp: HashSet<i32> = HashSet::new();
    let mut i: usize = 0;
    proof {
        assert(req.exclude@.take(0).to_set() =~= Set::<i32>::empty());
    }
    while i < req.exclude.len()
        invariant
            i <= req.exclude@.len(),
            exclude_grp@ == req.exclude@.take(i as int).to_set(),
        decreases req.exclude@.len() - i,
    {
        exclude_grp.insert(req.exclude[i]);
        proof {
            assert(req.exclude@.take(i + 1) =~= req.exclude@.take(i as int).push(
                req.exclude@[i as int],
            ));
            let t0 = req.exclude@.take(i as int);
            let t1 = req.exclude@.take(i + 1);
            assert forall|x: i32| t1.to_set().contains(x) <==> t0.to_set().insert(
                req.exclude@[i as int],
            ).contains(x) by {
                if t1.contains(x) {
                    let k = choose|k: int| 0 <= k < t1.len() && t1[k] == x;
                    if k < t0.len() {
                        assert(t0[k] == x);
                    }
                }
                if t0.contains(x) {
                    let k = choose|k: int| 0 <= k < t0.len() && t0[k] == x;
                    assert(t1[k] == x);
                }
                if x == req.exclude@[i as int] {
                    assert(t1[i as int] == x);
                }
            }
            assert(t1.to_set() =~= t0.to_set().insert(req.exclude@[i as int]));
        }
        i += 1;
    }
    assert(req.exclude@.take(req.exclude@.len() as int) =~= req.exclude@);
    let exclude_oracle: Vec<String> = vec![commander.oracle_id.clone()];
    let pool = candidate_pool(
        oracles,
        &PoolCtx {
            format: req.format,
            identity,
            commander_oracle: commander.oracle_id.as_str(),
            exclude_grp: &exclude_grp,
            exclude_oracle: exclude_oracle.as_slice(),
        },
    );
    proof {
        assert(str_views(exclude_oracle@) =~= seq![commander.oracle_id@]);
    }
    let must_include = match resolve_forced(
        oracles,
        &grp_index,
        &req.must_include,
        identity,
        req.format,
        "must_include",
    ) {
        Ok(v) => v,
        Err(e) => {
            return Err(e);
        },
    };
    let build_around = match resolve_forced(
        oracles,
        &grp_index,
        &req.build_around,
        identity,
        req.format,
        "build_around",
    ) {
        Ok(v) => v,
        Err(e) => {
            return Err(e);
        },
    };
    let mut theme: Vec<String> = Vec::new();
    push_all_unique(&mut theme, &commander.tags);
    let mut k: usize = 0;
    while k < build_around.len()
        invariant
            k <= build_around@.len(),
            build_around@ == resolved_cards(oracles@, req.build_around@),
            forall|j: int|
                0 <= j < build_around@.len() ==> #[trigger] build_around@[j] < oracles@.len()
                    && build_around@[j] as int == grp_card(oracles@, req.build_around@[j]),
            str_views(theme@).no_duplicates(),
            forall|x: Seq<char>| #[trigger]
                str_views(theme@).contains(x) <==> (str_views(commander.tags@).contains(x) || exists|
                    j: int,
                |
                    0 <= j < k && str_views(
                        oracles@[grp_card(oracles@, #[trigger] req.build_around@[j])].tags@,
                    ).contains(x)),
        decreases build_around@.len() - k,
    {
        let card = &oracles[build_around[k]];
        let ghost before = str_views(theme@);
        push_all_unique(&mut theme, &card.tags);
        proof {
            assert(build_around@[k as int] as int == grp_card(oracles@, req.build_around@[k as int]));
            assert(*card == oracles@[grp_card(oracles@, req.build_around@[k as int])]);
            assert forall|x: Seq<char>| #[trigger]
                str_views(theme@).contains(x) <==> (str_views(commander.tags@).contains(x) || exists|
                    j: int,
                |
                    0 <= j < k + 1 && str_views(
                        oracles@[grp_card(oracles@, #[trigger] req.build_around@[j])].tags@,
                    ).contains(x)) by {
                if exists|j: int|
                    0 <= j < k + 1 && str_views(
                        oracles@[grp_card(oracles@, #[trigger] req.build_around@[j])].tags@,
                    ).contains(x) {
                    let j = choose|j: int|
                        0 <= j < k + 1 && str_views(
                            oracles@[grp_card(oracles@, #[trigger] req.build_around@[j])].tags@,
                        ).contains(x);
                    if j < k {
                        assert(before.contains(x));
                    }
                }
                if str_views(card.tags@).contains(x) {
                    assert(0 <= k < k + 1 && str_views(
                        oracles@[grp_card(oracles@, req.build_around@[k as int])].tags@,
                    ).contains(x));
                }
                if before.contains(x) && !str_views(commander.tags@).contains(x) {
                    let j = choose|j: int|
                        0 <= j < k && str_views(
                            oracles@[grp_card(oracles@, #[trigger] req.build_around@[j])].tags@,
                        ).contains(x);
                    assert(0 <= j < k + 1);
                }
            }
        }
        k += 1;
    }
    push_all_unique(&mut theme, &req.theme_tags);
    let commander_subtypes = commander.subtypes.clone();
    let mut commander_subtypes_lower: Vec<String> = Vec::new();
    let mut s: usize = 0;
    while s < commander.subtypes.len()
        invariant
            s <= commander.subtypes@.len(),
            str_views(commander_subtypes_lower@) == lowered_subtypes(
                commander.subtypes@,
                s as int,
            ),
        decreases commander.subtypes@.len() - s,
    {
        let l = to_lower(commander.subtypes[s].as_str());
        if !l.as_str().is_empty() {
            let ghost before = str_views(commander_subtypes_lower@);
            commander_subtypes_lower.push(l);
            assert(str_views(commander_subtypes_lower@) =~= before.push(
                unicode_lower(commander.subtypes@[s as int]@),
            ));
        }
        s += 1;
    }
    let mut seed_order: Vec<usize> = Vec::new();
    let mut n: usize = 0;
    while n < seed_names.len()
        invariant
            n <= seed_names@.len(),
            seed_order@ == seed_order_spec(oracles@, seed_names@, n as int),
        decreases seed_names@.len() - n,
    {
        match find_name(oracles, seed_names[n].as_str()) {
            Some(idx) => {
                seed_order.push(idx);
            },
            None => {},
        }
        n += 1;
    }
    let (owned_only, budget) = plan_budget_exec(&req.ownership, wildcards_owned);
    let mut anchored: Vec<usize> = vec![commander_idx];
    let mut m: usize = 0;
    while m < must_include.len()
        invariant
            m <= must_include@.len(),
            anchored@ == seq![commander_idx].add(must_include@.take(m as int)),
        decreases must_include@.len() - m,
    {
        anchored.push(must_include[m]);
        assert(must_include@.take(m + 1) =~= must_include@.take(m as int).push(must_include@[m as int]));
        m += 1;
    }
    assert(must_include@.take(must_include@.len() as int) =~= must_include@);
    let combo_completions = combo_completions(
        oracles,
        combos,
        identity,
        req.format,
        anchored.as_slice(),
    );
    Ok(
        PlanSelection {
            identity,
            commander_idx,
            pool,
            must_include,
            build_around,
            theme,
            commander_subtypes,
            commander_subtypes_lower,
            seed_order,
            owned_only,
            budget,
            combo_completions,
        },
    )
}

/// The warnings a build carries for seed names that are not on Arena, in
/// order.
pub open spec fn seed_warnings_spec(oracles: Seq<OracleCard>, names: Seq<String>, n: int) -> Seq<
    (Seq<char>, Seq<char>),
>
    decreases n,
{
    if n <= 0 {
        Seq::empty()
    } else {
        let prev = seed_warnings_spec(oracles, names, n - 1);
        if last_name_index(oracles, names[n - 1]@, oracles.len() as int) == -1 {
            prev.push(("DECK-010"@, "seed card not on Arena: "@ + names[n - 1]@))
        } else {
            prev
        }
    }
}

/// A DECK-010 warning for every seed name that no Arena card carries.
pub fn seed_warnings(oracles: &[OracleCard], seed_names: &Vec<String>) -> (w: Vec<Warning>)
    ensures
        w@.map_values(|x: Warning| (x.code@, x.message@)) == seed_warnings_spec(
            oracles@,
            seed_names@,
            seed_names@.len() as int,
        ),
{
    let mut w: Vec<Warning> = Vec::new();
    let mut n: usize = 0;
    while n < seed_names.len()
        invariant
            n <= seed_names@.len(),
            w@.map_values(|x: Warning| (x.code@, x.message@)) == seed_warnings_spec(
                oracles@,
                seed_names@,
                n as int,
            ),
        decreases seed_names@.len() - n,
    {
        if find_name(oracles, seed_names[n].as_str()).is_none() {
            let mut msg = owned("seed card not on Arena: ");
            push_str(&mut msg, seed_names[n].as_str());
            let ghost before = w@;
            w.push(Warning { code: owned("DECK-010"), message: msg });
            assert(w@.map_values(|x: Warning| (x.code@, x.message@)) =~= before.map_values(
                |x: Warning| (x.code@, x.message@),
            ).push(("DECK-010"@, "seed card not on Arena: "@ + seed_names@[n as int]@)));
        }
        n += 1;
    }
    w
}

} // verus!
