//! Basic lands.

use vstd::prelude::*;

use super::template::{bound_at, Template};
use super::types::{
    all_roles, best_printing_index, costs_wildcard, pips_spec, role_at, role_index, role_position, DeckStats,
    OracleCard, Role, WildcardBudget,
};
use crate::text::str_eq;

verus! {

/// Index of the first basic land named `name`.
pub fn find_basic(oracles: &[OracleCard], name: &str) -> (r: Option<usize>)
    ensures
        match r {
            Some(i) => {
                &&& i < oracles@.len()
                &&& oracles@[i as int].is_basic_land
                &&& oracles@[i as int].name@ == name@
                &&& forall|j: int| 0 <= j < i ==> !(oracles@[j].is_basic_land && oracles@[j].name@ == name@)
            },
            None => forall|j: int|
                0 <= j < oracles@.len() ==> !(oracles@[j].is_basic_land && oracles@[j].name@ == name@),
        },
{
    let mut i: usize = 0;
    while i < oracles.len()
        invariant
            i <= oracles@.len(),
            forall|j: int| 0 <= j < i ==> !(oracles@[j].is_basic_land && oracles@[j].name@ == name@),
        decreases oracles@.len() - i,
    {
        if oracles[i].is_basic_land && str_eq(oracles[i].name.as_str(), name) {
            return Some(i);
        }
        i += 1;
    }
    None
}

/// The basic land that makes mana of colour letter `c` ("" for others).
pub fn color_to_basic(c: char) -> (s: &'static str)
    ensures
        s@ == (if c == 'W' {
            "Plains"@
        } else if c == 'U' {
            "Island"@
        } else if c == 'B' {
            "Swamp"@
        } else if c == 'R' {
            "Mountain"@
        } else if c == 'G' {
            "Forest"@
        } else {
            ""@
        }),
{
    match c {
        'W' => "Plains",
        'U' => "Island",
        'B' => "Swamp",
        'R' => "Mountain",
        'G' => "Forest",
        _ => "",
    }
}

/// Index in WUBRG order of colour letter `c` (0 for other characters).
pub fn color_pip_index(c: char) -> (i: usize)
    ensures
        i == (if c == 'W' {
            0usize
        } else if c == 'U' {
            1usize
        } else if c == 'B' {
            2usize
        } else if c == 'R' {
            3usize
        } else if c == 'G' {
            4usize
        } else {
            0usize
        }),
{
    match c {
        'W' => 0,
        'U' => 1,
        'B' => 2,
        'R' => 3,
        'G' => 4,
        _ => 0,
    }
}

/// How many chosen cards (among the first `n`) are counted under role `r`.
pub open spec fn role_total(chosen: Seq<(usize, Role)>, r: Role, n: int) -> nat
    decreases n,
{
    if n <= 0 {
        0
    } else {
        role_total(chosen, r, n - 1) + if chosen[n - 1].1 == r {
            1nat
        } else {
            0nat
        }
    }
}

/// The copies of basic lands among the first `n` entries of `basics`.
pub open spec fn basics_total(basics: Seq<(usize, u32)>, n: int) -> nat
    decreases n,
{
    if n <= 0 {
        0
    } else {
        basics_total(basics, n - 1) + (basics[n - 1].1 as nat)
    }
}

/// The chosen card at position `i`.
pub open spec fn chosen_card(oracles: Seq<OracleCard>, chosen: Seq<(usize, Role)>, i: int) -> OracleCard {
    oracles[chosen[i].0 as int]
}

/// How many of the first `n` chosen cards are non-land with mana-value
/// bucket `b`.
pub open spec fn curve_total(
    oracles: Seq<OracleCard>,
    chosen: Seq<(usize, Role)>,
    buckets: Seq<usize>,
    b: int,
    n: int,
) -> nat
    decreases n,
{
    if n <= 0 {
        0
    } else {
        curve_total(oracles, chosen, buckets, b, n - 1) + if !chosen_card(oracles, chosen, n - 1).is_land
            && buckets[n - 1] == b {
            1nat
        } else {
            0nat
        }
    }
}

/// How many of the first `n` chosen cards are lands.
pub open spec fn lands_total(oracles: Seq<OracleCard>, chosen: Seq<(usize, Role)>, n: int) -> nat
    decreases n,
{
    if n <= 0 {
        0
    } else {
        lands_total(oracles, chosen, n - 1) + if chosen_card(oracles, chosen, n - 1).is_land {
            1nat
        } else {
            0nat
        }
    }
}

/// How many of the first `n` chosen cards are owned.
pub open spec fn owned_total(oracles: Seq<OracleCard>, chosen: Seq<(usize, Role)>, n: int) -> nat
    decreases n,
{
    if n <= 0 {
        0
    } else {
        owned_total(oracles, chosen, n - 1) + if chosen_card(oracles, chosen, n - 1).owned_spec() {
            1nat
        } else {
            0nat
        }
    }
}

/// The colour-`k` pips of the first `n` chosen cards.
pub open spec fn pip_total(oracles: Seq<OracleCard>, chosen: Seq<(usize, Role)>, k: int, n: int) -> nat
    decreases n,
{
    if n <= 0 {
        0
    } else {
        pip_total(oracles, chosen, k, n - 1) + pips_spec(chosen_card(oracles, chosen, n - 1).mana_cost@)[k]
    }
}

/// The wildcards the first `n` chosen cards cost: one of the rarity of the
/// best printing of each unowned card.
pub open spec fn wildcard_total(
    oracles: Seq<OracleCard>,
    chosen: Seq<(usize, Role)>,
    n: int,
) -> WildcardBudget
    decreases n,
{
    if n <= 0 {
        WildcardBudget { common: 0, uncommon: 0, rare: 0, mythic: 0 }
    } else {
        let prev = wildcard_total(oracles, chosen, n - 1);
        let c = chosen_card(oracles, chosen, n - 1);
        match best_printing_index(c.printings@) {
            Some(i) => if !c.owned_spec() && costs_wildcard(c.printings@[i].rarity) {
                let r = c.printings@[i].rarity;
                prev.with_count(r, (prev.count(r) + 1) as u32)
            } else {
                prev
            },
            None => prev,
        }
    }
}

/// The per-role rows of a deck's stats: the roles that occur, in canonical
/// order (among the first `n`), each with its count; basic lands count as
/// `Land`, which occurs whenever there are basic-land entries.
pub open spec fn role_rows(chosen: Seq<(usize, Role)>, basics: Seq<(usize, u32)>, n: int) -> Seq<(Role, u32)>
    decreases n,
{
    if n <= 0 {
        seq![]
    } else {
        let prev = role_rows(chosen, basics, n - 1);
        let r = all_roles()[n - 1];
        let extra: nat = if r == Role::Land { basics_total(basics, basics.len() as int) } else { 0 };
        if role_total(chosen, r, chosen.len() as int) > 0 || (r == Role::Land && basics.len() > 0) {
            prev.push((r, (role_total(chosen, r, chosen.len() as int) + extra) as u32))
        } else {
            prev
        }
    }
}

/// The (min, max) targets of every role, in canonical order.
pub open spec fn target_rows(t: Template) -> Seq<(Role, (u32, u32))> {
    Seq::new(13, |i: int| (all_roles()[i], (bound_at(t.role_min@, all_roles()[i]), bound_at(t.role_max@, all_roles()[i]))))
}

proof fn lemma_totals_bounded(
    oracles: Seq<OracleCard>,
    chosen: Seq<(usize, Role)>,
    buckets: Seq<usize>,
    n: int,
)
    requires
        0 <= n <= chosen.len(),
    ensures
        lands_total(oracles, chosen, n) <= n,
        owned_total(oracles, chosen, n) <= n,
        forall|r: Role| #[trigger] role_total(chosen, r, n) <= n,
        forall|b: int| #[trigger] curve_total(oracles, chosen, buckets, b, n) <= n,
    decreases n,
{
    if n > 0 {
        lemma_totals_bounded(oracles, chosen, buckets, n - 1);
        assert forall|r: Role| #[trigger] role_total(chosen, r, n) <= n by {
            assert(role_total(chosen, r, n - 1) <= n - 1);
        }
        assert forall|b: int| #[trigger] curve_total(oracles, chosen, buckets, b, n) <= n by {
            assert(curve_total(oracles, chosen, buckets, b, n - 1) <= n - 1);
        }
    }
}

proof fn lemma_pip_total_mono(oracles: Seq<OracleCard>, chosen: Seq<(usize, Role)>, k: int, m: int, n: int)
    requires
        m <= n,
    ensures
        pip_total(oracles, chosen, k, m) <= pip_total(oracles, chosen, k, n),
    decreases n - m,
{
    if m < n {
        lemma_pip_total_mono(oracles, chosen, k, m, n - 1);
    }
}

proof fn lemma_wildcards_bounded(oracles: Seq<OracleCard>, chosen: Seq<(usize, Role)>, n: int)
    requires
        0 <= n,
    ensures
        ({
            let w = wildcard_total(oracles, chosen, n);
            w.common <= n && w.uncommon <= n && w.rare <= n && w.mythic <= n
        }),
    decreases n,
{
    if n > 0 {
        lemma_wildcards_bounded(oracles, chosen, n - 1);
    }
}

/// The statistics of a built deck: per-role counts and targets, its curve
/// (non-land cards by mana-value bucket, `buckets[i]` being the bucket of
/// chosen card `i`), its colour pips, how many cards it has, owns and
/// lands, and the wildcards its unowned cards cost. Basic lands count as
/// owned lands.
pub fn compute_stats(
    oracles: &[OracleCard],
    template: &Template,
    chosen: &[(usize, Role)],
    buckets: &[usize],
    basics: &[(usize, u32)],
) -> (s: DeckStats)
    requires
        buckets@.len() == chosen@.len(),
        forall|i: int| 0 <= i < chosen@.len() ==> (#[trigger] chosen@[i]).0 < oracles@.len(),
        forall|i: int| 0 <= i < buckets@.len() ==> #[trigger] buckets@[i] < 8,
        forall|i: int| 0 <= i < oracles@.len() ==> (#[trigger] oracles@[i]).mana_cost@.len() <= u32::MAX,
        chosen@.len() + basics_total(basics@, basics@.len() as int) <= u32::MAX,
        forall|k: int| 0 <= k < 5 ==> #[trigger] pip_total(oracles@, chosen@, k, chosen@.len() as int) <= u32::MAX,
    ensures
        s.role_counts@ == role_rows(chosen@, basics@, 13),
        s.role_targets@ == target_rows(*template),
        forall|b: int| 0 <= b < 8 ==> #[trigger] s.curve@[b] == curve_total(oracles@, chosen@, buckets@, b, chosen@.len() as int),
        forall|k: int| 0 <= k < 5 ==> #[trigger] s.pips@[k] == pip_total(oracles@, chosen@, k, chosen@.len() as int),
        s.owned == owned_total(oracles@, chosen@, chosen@.len() as int) + basics_total(basics@, basics@.len() as int),
        s.total == chosen@.len() + basics_total(basics@, basics@.len() as int),
        s.land_count == lands_total(oracles@, chosen@, chosen@.len() as int) + basics_total(basics@, basics@.len() as int),
        s.wildcard_cost == wildcard_total(oracles@, chosen@, chosen@.len() as int),
{
    let n = chosen.len();
    let ghost os = oracles@;
    let ghost cs = chosen@;
    let ghost bs = buckets@;
    let mut role_counts: Vec<u32> = Vec::new();
    let mut r: usize = 0;
    while r < 13
        invariant
            r <= 13,
            role_counts@.len() == r,
            forall|j: int| 0 <= j < r ==> #[trigger] role_counts@[j] == 0,
        decreases 13 - r,
    {
        role_counts.push(0);
        r += 1;
    }
    let mut curve = [0u32; 8];
    let mut pips = [0u32; 5];
    let mut owned: u32 = 0;
    let mut lands: u32 = 0;
    let mut wildcard_cost = WildcardBudget { common: 0, uncommon: 0, rare: 0, mythic: 0 };
    let mut i: usize = 0;
    proof {
        lemma_totals_bounded(os, cs, bs, n as int);
    }
    while i < n
        invariant
            n == chosen@.len(),
            os == oracles@ && cs == chosen@ && bs == buckets@,
            i <= n,
            buckets@.len() == n,
            forall|j: int| 0 <= j < chosen@.len() ==> (#[trigger] chosen@[j]).0 < oracles@.len(),
            forall|j: int| 0 <= j < buckets@.len() ==> #[trigger] buckets@[j] < 8,
            forall|j: int| 0 <= j < oracles@.len() ==> (#[trigger] oracles@[j]).mana_cost@.len() <= u32::MAX,
            forall|k: int| 0 <= k < 5 ==> #[trigger] pip_total(os, cs, k, n as int) <= u32::MAX,
            n <= u32::MAX,
            role_counts@.len() == 13,
            forall|j: int| 0 <= j < 13 ==> #[trigger] role_counts@[j] == role_total(cs, all_roles()[j], i as int),
            forall|b: int| 0 <= b < 8 ==> #[trigger] curve@[b] == curve_total(os, cs, bs, b, i as int),
            forall|k: int| 0 <= k < 5 ==> #[trigger] pips@[k] == pip_total(os, cs, k, i as int),
            owned == owned_total(os, cs, i as int),
            lands == lands_total(os, cs, i as int),
            wildcard_cost == wildcard_total(os, cs, i as int),
        decreases n - i,
    {
        let (idx, role) = chosen[i];
        let card = &oracles[idx];
        let ghost ni: int = i + 1;
        proof {
            lemma_totals_bounded(os, cs, bs, i as int);
            lemma_totals_bounded(os, cs, bs, ni);
            assert(role_at(role_index(role)) == role);
            assert(all_roles()[role_index(role)] == role_at(role_index(role)));
            assert(role_total(cs, role, i as int) <= i);
            lemma_wildcards_bounded(os, cs, i as int);
            assert forall|k: int| 0 <= k < 5 implies #[trigger] pip_total(os, cs, k, ni) <= u32::MAX by {
                lemma_pip_total_mono(os, cs, k, ni, n as int);
            }
        }
        let rp = role_position(role);
        let rc = role_counts[rp] + 1;
        role_counts.set(rp, rc);
        if !card.is_land {
            let b = buckets[i];
            assert(curve_total(os, cs, bs, b as int, i as int) <= i);
            curve[b] = curve[b] + 1;
        } else {
            lands = lands + 1;
        }
        let p = card.pips();
        let mut k: usize = 0;
        while k < 5
            invariant
                k <= 5,
                forall|c: int| 0 <= c < 5 ==> p@[c] as nat == pips_spec(card.mana_cost@)[c],
                ni == i + 1,
                forall|c: int| 0 <= c < k ==> #[trigger] pips@[c] == pip_total(os, cs, c, ni),
                forall|c: int| k <= c < 5 ==> #[trigger] pips@[c] == pip_total(os, cs, c, i as int),
                forall|c: int| 0 <= c < 5 ==> #[trigger] pip_total(os, cs, c, ni) <= u32::MAX,
                *card == os[cs[i as int].0 as int],
            decreases 5 - k,
        {
            assert(pip_total(os, cs, k as int, ni) == pip_total(os, cs, k as int, i as int) + pips_spec(
                card.mana_cost@,
            )[k as int]);
            pips[k] = pips[k] + p[k];
            k += 1;
        }
        if card.is_owned() {
            owned = owned + 1;
        } else {
            match card.best_printing() {
                Some(bp) => {
                    wildcard_cost.add(&bp.rarity);
                },
                None => {},
            }
        }
        proof {
            assert forall|j: int| 0 <= j < 13 implies #[trigger] role_counts@[j] == role_total(cs, all_roles()[j], ni) by {
                assert(role_at(j) == all_roles()[j]);
                if all_roles()[j] == role {
                    assert(role_index(role) == j) by {
                        assert(role_at(role_index(role)) == role);
                    }
                }
            }
        }
        i += 1;
    }
    // Basic lands.
    let mut extra: u32 = 0;
    let mut k: usize = 0;
    while k < basics.len()
        invariant
            k <= basics@.len(),
            extra == basics_total(basics@, k as int),
            n + basics_total(basics@, basics@.len() as int) <= u32::MAX,
        decreases basics@.len() - k,
    {
        proof {
            lemma_basics_total_mono(basics@, k + 1, basics@.len() as int);
        }
        extra = extra + basics[k].1;
        k += 1;
    }
    proof {
        lemma_totals_bounded(os, cs, bs, n as int);
    }
    let land_slot = role_position(Role::Land);
    // Rows of the roles that occur.
    let mut rows: Vec<(Role, u32)> = Vec::new();
    let mut targets: Vec<(Role, (u32, u32))> = Vec::new();
    let all = Role::ALL;
    assert(all@ =~= all_roles());
    let mut j: usize = 0;
    while j < 13
        invariant
            j <= 13,
            all@ == all_roles(),
            role_counts@.len() == 13,
            forall|q: int| 0 <= q < 13 ==> #[trigger] role_counts@[q] == role_total(cs, all_roles()[q], n as int),
            cs == chosen@,
            n == chosen@.len(),
            land_slot == 0,
            extra == basics_total(basics@, basics@.len() as int),
            n + extra <= u32::MAX,
            forall|q: int| 0 <= q < 13 ==> role_total(cs, #[trigger] all_roles()[q], n as int) <= n,
            rows@ == role_rows(cs, basics@, j as int),
            targets@ == target_rows(*template).take(j as int),
        decreases 13 - j,
    {
        let r = all[j];
        let mut c = role_counts[j];
        let occurs = c > 0 || (j == land_slot && basics.len() > 0);
        if j == land_slot {
            c = c + extra;
        }
        proof {
            assert(role_rows(cs, basics@, j + 1) == {
                let prev = role_rows(cs, basics@, j as int);
                let rr = all_roles()[j as int];
                let ex: nat = if rr == Role::Land { basics_total(basics@, basics@.len() as int) } else { 0 };
                if role_total(cs, rr, cs.len() as int) > 0 || (rr == Role::Land && basics@.len() > 0) {
                    prev.push((rr, (role_total(cs, rr, cs.len() as int) + ex) as u32))
                } else {
                    prev
                }
            });
            assert((all_roles()[j as int] == Role::Land) == (j == 0));
        }
        if occurs {
            rows.push((r, c));
        }
        targets.push((r, (template.min(r), template.max(r))));
        proof {
            assert(targets@ =~= target_rows(*template).take(j + 1));
        }
        j += 1;
    }
    assert(target_rows(*template).take(13) =~= target_rows(*template));
    DeckStats {
        curve,
        pips,
        role_counts: rows,
        role_targets: targets,
        owned: owned + extra,
        total: (n as u32) + extra,
        wildcard_cost,
        land_count: lands + extra,
    }
}

proof fn lemma_basics_total_mono(basics: Seq<(usize, u32)>, m: int, n: int)
    requires
        m <= n,
    ensures
        basics_total(basics, m) <= basics_total(basics, n),
    decreases n - m,
{
    if m < n {
        lemma_basics_total_mono(basics, m, n - 1);
    }
}


/// The basic lands of colour `i` (of `n`) when the deck's spells show no
/// coloured pips: `remaining` split evenly, the first `remaining % n`
/// colours getting one more.
pub open spec fn even_share(remaining: u32, n: u32, i: int) -> int {
    (remaining / n) as int + if i < (remaining % n) as int {
        1int
    } else {
        0int
    }
}

/// The even shares of the first `k` colours.
pub open spec fn even_total(remaining: u32, n: u32, k: int) -> int
    decreases k,
{
    if k <= 0 {
        0
    } else {
        even_total(remaining, n, k - 1) + even_share(remaining, n, k - 1)
    }
}

/// `remaining` basic lands split evenly over `n` colours (see
/// `even_share`).
pub fn even_split(remaining: u32, n: u32) -> (v: Vec<u32>)
    requires
        n > 0,
    ensures
        v@.len() == n,
        forall|i: int| 0 <= i < n ==> #[trigger] v@[i] == even_share(remaining, n, i),
{
    let base = remaining / n;
    let extra = remaining % n;
    let mut v: Vec<u32> = Vec::new();
    let mut i: u32 = 0;
    while i < n
        invariant
            i <= n,
            n > 0,
            base == remaining / n,
            extra == remaining % n,
            v@.len() == i,
            forall|j: int| 0 <= j < i ==> #[trigger] v@[j] == even_share(remaining, n, j),
        decreases n - i,
    {
        proof {
            assert(base <= remaining);
            assert(extra < n);
            if extra > 0 {
                assert(base * n + extra == remaining) by (nonlinear_arith)
                    requires
                        base == remaining / n,
                        extra == remaining % n,
                        n > 0,
                ;
                assert(base < remaining) by (nonlinear_arith)
                    requires
                        base * n + extra == remaining,
                        extra > 0,
                        n > 0,
                ;
            }
        }
        let share = if i < extra {
            base + 1
        } else {
            base
        };
        v.push(share);
        i += 1;
    }
    v
}

proof fn lemma_even_total(remaining: u32, n: u32, k: int)
    requires
        n > 0,
        0 <= k <= n,
    ensures
        even_total(remaining, n, k) == k * ((remaining / n) as int) + if k < (remaining % n) as int {
            k
        } else {
            (remaining % n) as int
        },
    decreases k,
{
    if k > 0 {
        lemma_even_total(remaining, n, k - 1);
        let q = (remaining / n) as int;
        assert((k - 1) * q + q == k * q) by (nonlinear_arith);
    } else {
        let q = (remaining / n) as int;
        assert(0 * q == 0);
    }
}

/// The even split places every remaining basic land: the shares of all
/// `n` colours add up to `remaining`.
pub proof fn lemma_even_split_places_all(remaining: u32, n: u32)
    requires
        n > 0,
    ensures
        even_total(remaining, n, n as int) == remaining,
{
    lemma_even_total(remaining, n, n as int);
    let q = (remaining / n) as int;
    let m = (remaining % n) as int;
    assert(n * q + m == remaining) by (nonlinear_arith)
        requires
            q == remaining / n,
            m == remaining % n,
            n > 0,
    ;
}
} // verus!
