//! The candidate pool: which oracle cards a deck may draw from.

use std::collections::{HashMap, HashSet};

use vstd::prelude::*;

use super::types::{is_subset, mask_from_str, mask_of_chars, subset_spec, Format, OracleCard};
use crate::text::{debug_quoted, debug_str, owned, push_str, str_eq, str_views};

verus! {

/// What the pool is built against.
pub struct PoolCtx<'a> {
    pub format: Format,
    pub identity: u8,
    pub commander_oracle: &'a str,
    pub exclude_grp: &'a HashSet<i32>,
    pub exclude_oracle: &'a [String],
}

/// Some printing of `card` has an excluded grp id.
pub open spec fn has_excluded_printing(card: OracleCard, excluded: Set<i32>) -> bool {
    exists|j: int|
        0 <= j < card.printings@.len() && excluded.contains(#[trigger] card.printings@[j].grp_id)
}

/// `card` may be put in the pool: it has a printing, is legal, fits the
/// identity, and is neither the commander nor excluded by oracle id nor by
/// a printing. Only a non-empty oracle id is compared with the commander's
/// and with the excluded ones, so a card whose oracle id is empty is never
/// removed as the commander or by oracle id.
pub open spec fn pool_eligible(
    card: OracleCard,
    format: Format,
    identity: u8,
    commander_oracle: Seq<char>,
    exclude_grp: Set<i32>,
    exclude_oracle: Seq<Seq<char>>,
) -> bool {
    &&& card.printings@.len() > 0
    &&& card.legal_spec(format)
    &&& subset_spec(card.color_identity, identity)
    &&& !(card.oracle_id@.len() > 0 && card.oracle_id@ == commander_oracle)
    &&& !(card.oracle_id@.len() > 0 && exclude_oracle.contains(card.oracle_id@))
    &&& !has_excluded_printing(card, exclude_grp)
}

/// Indices, in increasing order, of the first `n` oracle cards that are
/// eligible for the pool.
pub open spec fn pool_spec(
    oracles: Seq<OracleCard>,
    format: Format,
    identity: u8,
    commander_oracle: Seq<char>,
    exclude_grp: Set<i32>,
    exclude_oracle: Seq<Seq<char>>,
    n: int,
) -> Seq<usize>
    decreases n,
{
    if n <= 0 {
        seq![]
    } else {
        let prev = pool_spec(
            oracles,
            format,
            identity,
            commander_oracle,
            exclude_grp,
            exclude_oracle,
            n - 1,
        );
        if pool_eligible(
            oracles[n - 1],
            format,
            identity,
            commander_oracle,
            exclude_grp,
            exclude_oracle,
        ) {
            prev.push((n - 1) as usize)
        } else {
            prev
        }
    }
}

fn printing_excluded(card: &OracleCard, exclude_grp: &HashSet<i32>) -> (b: bool)
    ensures
        b == has_excluded_printing(*card, exclude_grp@),
{
    let mut j: usize = 0;
    while j < card.printings.len()
        invariant
            j <= card.printings@.len(),
            forall|k: int| 0 <= k < j ==> !exclude_grp@.contains(#[trigger] card.printings@[k].grp_id),
        decreases card.printings@.len() - j,
    {
        if exclude_grp.contains(&card.printings[j].grp_id) {
            return true;
        }
        j += 1;
    }
    false
}

fn oracle_excluded(oid: &String, exclude_oracle: &[String]) -> (b: bool)
    ensures
        b == str_views(exclude_oracle@).contains(oid@),
{
    let mut k: usize = 0;
    while k < exclude_oracle.len()
        invariant
            k <= exclude_oracle@.len(),
            forall|m: int| 0 <= m < k ==> exclude_oracle@[m]@ != oid@,
        decreases exclude_oracle@.len() - k,
    {
        if str_eq(exclude_oracle[k].as_str(), oid.as_str()) {
            assert(str_views(exclude_oracle@)[k as int] == oid@);
            return true;
        }
        k += 1;
    }
    proof {
        if str_views(exclude_oracle@).contains(oid@) {
            let m = choose|m: int|
                0 <= m < str_views(exclude_oracle@).len() && str_views(exclude_oracle@)[m] == oid@;
            assert(exclude_oracle@[m]@ == oid@);
        }
    }
    false
}

/// Indices into `oracles` that are legal, on Arena (at least one printing),
/// within the identity, and not removed as the commander or by either
/// exclusion list (see `pool_eligible`: a card with an empty oracle id is
/// never removed as the commander or by oracle id).
pub fn candidate_pool(oracles: &[OracleCard], ctx: &PoolCtx) -> (out: Vec<usize>)
    ensures
        out@ == pool_spec(
            oracles@,
            ctx.format,
            ctx.identity,
            ctx.commander_oracle@,
            ctx.exclude_grp@,
            str_views(ctx.exclude_oracle@),
            oracles@.len() as int,
        ),
{
    let mut out = Vec::new();
    let mut i: usize = 0;
    while i < oracles.len()
        invariant
            i <= oracles@.len(),
            out@ == pool_spec(
                oracles@,
                ctx.format,
                ctx.identity,
                ctx.commander_oracle@,
                ctx.exclude_grp@,
                str_views(ctx.exclude_oracle@),
                i as int,
            ),
        decreases oracles@.len() - i,
    {
        let card = &oracles[i];
        let keep = if card.printings.len() == 0 {
            false
        } else if !card.legal_in(ctx.format) {
            false
        } else if !is_subset(card.color_identity, ctx.identity) {
            false
        } else if card.oracle_id.unicode_len() > 0 && str_eq(
            card.oracle_id.as_str(),
            ctx.commander_oracle,
        ) {
            false
        } else if card.oracle_id.unicode_len() > 0 && oracle_excluded(
            &card.oracle_id,
            ctx.exclude_oracle,
        ) {
            false
        } else if printing_excluded(card, ctx.exclude_grp) {
            false
        } else {
            true
        };
        if keep {
            out.push(i);
        }
        i += 1;
    }
    out
}

/// The oracle card with the largest index that has a printing with grp id `g`.
pub open spec fn last_oracle_with(oracles: Seq<OracleCard>, g: i32, i: int) -> bool {
    &&& 0 <= i < oracles.len()
    &&& exists|j: int| 0 <= j < oracles[i].printings@.len() && oracles[i].printings@[j].grp_id == g
    &&& forall|k: int, j: int|
        i < k < oracles.len() && 0 <= j < oracles[k].printings@.len() ==> oracles[k].printings@[j].grp_id != g
}

/// Some printing of one of the first `n` oracle cards has grp id `g`.
pub open spec fn grp_listed(oracles: Seq<OracleCard>, g: i32, n: int) -> bool {
    exists|i: int, j: int|
        0 <= i < n && 0 <= j < oracles[i].printings@.len() && #[trigger] oracles[i].printings@[j].grp_id == g
}

/// Maps every printing's grp id to the index of its oracle card; a grp id
/// listed by several cards maps to the last of them.
pub fn index_by_grp(oracles: &[OracleCard]) -> (out: HashMap<i32, usize>)
    ensures
        forall|g: i32| #[trigger] out@.contains_key(g) <==> grp_listed(oracles@, g, oracles@.len() as int),
        forall|g: i32|
            #[trigger] out@.contains_key(g) ==> last_oracle_with(oracles@, g, out@[g] as int),
{
    let mut out: HashMap<i32, usize> = HashMap::new();
    let n = oracles.len();
    let mut i: usize = 0;
    while i < n
        invariant
            n == oracles@.len(),
            i <= n,
            forall|g: i32| #[trigger] out@.contains_key(g) <==> grp_listed(oracles@, g, i as int),
            forall|g: i32| #[trigger]
                out@.contains_key(g) ==> {
                    &&& (out@[g] as int) < i
                    &&& exists|j: int|
                        0 <= j < oracles@[out@[g] as int].printings@.len()
                            && oracles@[out@[g] as int].printings@[j].grp_id == g
                    &&& forall|k: int, j: int|
                        out@[g] < k < i && 0 <= j < oracles@[k].printings@.len()
                            ==> oracles@[k].printings@[j].grp_id != g
                },
        decreases n - i,
    {
        let card = &oracles[i];
        let m = card.printings.len();
        let mut j: usize = 0;
        while j < m
            invariant
                n == oracles@.len(),
                i < n,
                card == &oracles@[i as int],
                m == card.printings@.len(),
                j <= m,
                forall|g: i32| #[trigger]
                    out@.contains_key(g) <==> (grp_listed(oracles@, g, i as int) || exists|jj: int|
                        0 <= jj < j && card.printings@[jj].grp_id == g),
                forall|g: i32| #[trigger]
                    out@.contains_key(g) ==> {
                        &&& (out@[g] as int) <= i
                        &&& exists|jj: int|
                            0 <= jj < oracles@[out@[g] as int].printings@.len()
                                && oracles@[out@[g] as int].printings@[jj].grp_id == g
                        &&& forall|k: int, jj: int|
                            out@[g] < k < i && 0 <= jj < oracles@[k].printings@.len()
                                ==> oracles@[k].printings@[jj].grp_id != g
                        &&& (exists|jj: int| 0 <= jj < j && card.printings@[jj].grp_id == g) ==> out@[g] == i
                    },
            decreases m - j,
        {
            let g = card.printings[j].grp_id;
            out.insert(g, i);
            proof {
                assert forall|h: i32| #[trigger]
                    out@.contains_key(h) <==> (grp_listed(oracles@, h, i as int) || exists|jj: int|
                        0 <= jj < j + 1 && card.printings@[jj].grp_id == h) by {
                    if h == g {
                        assert(card.printings@[j as int].grp_id == h);
                    }
                }
            }
            j += 1;
        }
        proof {
            assert forall|g: i32| #[trigger]
                out@.contains_key(g) <==> grp_listed(oracles@, g, i + 1) by {
                if grp_listed(oracles@, g, i + 1) && !grp_listed(oracles@, g, i as int) {
                    let (a, b) = choose|a: int, b: int|
                        0 <= a < i + 1 && 0 <= b < oracles@[a].printings@.len()
                            && #[trigger] oracles@[a].printings@[b].grp_id == g;
                    assert(a == i);
                }
                if exists|jj: int| 0 <= jj < m && card.printings@[jj].grp_id == g {
                    let jj = choose|jj: int| 0 <= jj < m && card.printings@[jj].grp_id == g;
                    assert(oracles@[i as int].printings@[jj].grp_id == g);
                }
            }
        }
        i += 1;
    }
    out
}

/// The effective colour identity: the commander's identity narrowed to
/// `subset`, or an error when `subset` names a colour outside it.
pub open spec fn effective_identity_spec(
    commander_identity: u8,
    subset: Option<Seq<char>>,
) -> Result<u8, Seq<char>> {
    match subset {
        None => Ok(commander_identity),
        Some(sub) => {
            let m = mask_of_chars(sub);
            if subset_spec(m, commander_identity) {
                Ok(m & commander_identity)
            } else {
                Err(
                    "DECK-009: color_subset "@ + debug_quoted(sub)
                        + " is not within commander identity"@,
                )
            }
        },
    }
}

/// Commander identity ∩ colour subset (when a subset is given). A subset
/// with a colour outside the commander's identity is a DECK-009 error.
pub fn effective_identity(commander_identity: u8, color_subset: Option<&str>) -> (r: Result<
    u8,
    String,
>)
    ensures
        match (r, effective_identity_spec(
            commander_identity,
            match color_subset {
                Some(s) => Some(s@),
                None => None,
            },
        )) {
            (Ok(a), Ok(b)) => a == b,
            (Err(a), Err(b)) => a@ == b,
            _ => false,
        },
{
    let sub = match color_subset {
        None => {
            return Ok(commander_identity);
        },
        Some(s) => s,
    };
    let sub_mask = mask_from_str(sub);
    if !is_subset(sub_mask, commander_identity) {
        let mut msg = owned("DECK-009: color_subset ");
        let quoted = debug_str(sub);
        push_str(&mut msg, quoted.as_str());
        push_str(&mut msg, " is not within commander identity");
        return Err(msg);
    }
    Ok(sub_mask & commander_identity)
}

/// A successful effective identity lies within the commander's.
pub proof fn lemma_effective_identity_within(commander_identity: u8, subset: Option<Seq<char>>)
    ensures
        effective_identity_spec(commander_identity, subset) matches Ok(m) ==> subset_spec(
            m,
            commander_identity,
        ),
{
    match subset {
        None => {
            assert(commander_identity & !commander_identity == 0) by (bit_vector);
        },
        Some(sub) => {
            let m = mask_of_chars(sub);
            assert((m & commander_identity) & !commander_identity == 0) by (bit_vector);
        },
    }
}

} // verus!
