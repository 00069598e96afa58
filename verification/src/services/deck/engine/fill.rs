//! The role bookkeeping of the greedy fill: which role a chosen card is
//! counted under, and when a card's roles are all full.
//!
//! Per-role counts are kept by role position (`Role::ALL` order).

use vstd::prelude::*;

use super::template::{bound_at, Template};
use super::types::{
    all_roles, best_printing_index, costs_wildcard, role_at, role_index, role_position, OracleCard, Role,
    WildcardBudget,
};

verus! {

/// The count stored for role `r` (0 where there is none).
pub open spec fn count_at(counts: Seq<u32>, r: Role) -> u32 {
    if role_index(r) < counts.len() {
        counts[role_index(r)]
    } else {
        0
    }
}

/// A role a non-land card can be counted under: one of its roles, other
/// than `Land`.
pub open spec fn candidate_role(roles: Seq<Role>, r: Role) -> bool {
    r != Role::Land && roles.contains(r)
}

/// How far role `r` is below its minimum, as the numerator and the
/// denominator of `max(min - count, 0) / max(min, 1)`.
pub open spec fn need_num(t: Template, counts: Seq<u32>, r: Role) -> int {
    let d = bound_at(t.role_min@, r) - count_at(counts, r);
    if d > 0 {
        d
    } else {
        0
    }
}

pub open spec fn need_den(t: Template, r: Role) -> int {
    let m = bound_at(t.role_min@, r) as int;
    if m > 1 {
        m
    } else {
        1
    }
}

/// Role `a` is further below its minimum than role `b` (relative to the
/// minimums).
pub open spec fn needs_more(t: Template, counts: Seq<u32>, a: Role, b: Role) -> bool {
    need_num(t, counts, a) * need_den(t, b) > need_num(t, counts, b) * need_den(t, a)
}

/// Every candidate role of `roles` has reached its maximum.
pub open spec fn candidates_full(t: Template, counts: Seq<u32>, roles: Seq<Role>) -> bool {
    forall|r: Role| #[trigger] candidate_role(roles, r) ==> count_at(counts, r) >= bound_at(t.role_max@, r)
}

/// `r` is the first role, in `Role::ALL` order, that `roles` holds.
pub open spec fn first_held(roles: Seq<Role>, r: Role) -> bool {
    roles.contains(r) && forall|i: int| 0 <= i < role_index(r) ==> !roles.contains(#[trigger] all_roles()[i])
}

/// The role a card is counted under: `Land` for a land, `Utility` for a
/// card without roles; when all its roles are full, its first role; else
/// the first of its non-land roles that is furthest below its minimum.
pub open spec fn role_choice(
    is_land: bool,
    roles: Seq<Role>,
    t: Template,
    counts: Seq<u32>,
    r: Role,
) -> bool {
    if is_land {
        r == Role::Land
    } else if roles.len() == 0 {
        r == Role::Utility
    } else if candidates_full(t, counts, roles) {
        first_held(roles, r)
    } else {
        &&& candidate_role(roles, r)
        &&& forall|c: Role| #[trigger] candidate_role(roles, c) ==> !needs_more(t, counts, c, r)
        &&& forall|c: Role|
            #[trigger] candidate_role(roles, c) && role_index(c) < role_index(r) ==> needs_more(
                t,
                counts,
                r,
                c,
            )
    }
}

/// One role meets `role_choice`: the role a card is counted under is
/// determined by the card, the template and the counts.
pub proof fn lemma_role_choice_unique(
    is_land: bool,
    roles: Seq<Role>,
    t: Template,
    counts: Seq<u32>,
    r1: Role,
    r2: Role,
)
    requires
        role_choice(is_land, roles, t, counts, r1),
        role_choice(is_land, roles, t, counts, r2),
    ensures
        r1 == r2,
{
    assert(role_at(role_index(r1)) == r1);
    assert(role_at(role_index(r2)) == r2);
    if !is_land && roles.len() > 0 {
        if candidates_full(t, counts, roles) {
            if role_index(r1) < role_index(r2) {
                assert(all_roles()[role_index(r1)] == r1);
            } else if role_index(r2) < role_index(r1) {
                assert(all_roles()[role_index(r2)] == r2);
            }
        } else {
            assert(candidate_role(roles, r1) && candidate_role(roles, r2));
            if role_index(r1) < role_index(r2) {
                assert(needs_more(t, counts, r2, r1));
                assert(!needs_more(t, counts, r2, r1));
            } else if role_index(r2) < role_index(r1) {
                assert(needs_more(t, counts, r1, r2));
                assert(!needs_more(t, counts, r1, r2));
            }
        }
    }
}

fn count_of(counts: &[u32], r: Role) -> (n: u32)
    ensures
        n == count_at(counts@, r),
{
    let i = role_position(r);
    if i < counts.len() {
        counts[i]
    } else {
        0
    }
}

/// The need of role `r` as (numerator, denominator).
fn need_of(t: &Template, counts: &[u32], r: Role) -> (n: (u64, u64))
    ensures
        n.0 == need_num(*t, counts@, r),
        n.1 == need_den(*t, r),
{
    let m = t.min(r);
    let c = count_of(counts, r);
    let num: u64 = if m > c {
        (m - c) as u64
    } else {
        0
    };
    let den: u64 = if m > 1 {
        m as u64
    } else {
        1
    };
    (num, den)
}

proof fn lemma_needs_more_order(t: Template, counts: Seq<u32>, a: Role, b: Role, c: Role)
    ensures
        !needs_more(t, counts, a, a),
        needs_more(t, counts, a, b) ==> !needs_more(t, counts, b, a),
        !needs_more(t, counts, a, b) && !needs_more(t, counts, b, c) ==> !needs_more(
            t,
            counts,
            a,
            c,
        ),
        needs_more(t, counts, a, b) && !needs_more(t, counts, c, b) ==> needs_more(t, counts, a, c),
{
    let (na, da) = (need_num(t, counts, a), need_den(t, a));
    let (nb, db) = (need_num(t, counts, b), need_den(t, b));
    let (nc, dc) = (need_num(t, counts, c), need_den(t, c));
    assert(da > 0 && db > 0 && dc > 0 && na >= 0 && nb >= 0 && nc >= 0);
    assert(!(na * db > nb * da) && !(nb * dc > nc * db) ==> !(na * dc > nc * da)) by (nonlinear_arith)
        requires
            da > 0,
            db > 0,
            dc > 0,
    ;
    assert((na * db > nb * da) && !(nc * db > nb * dc) ==> (na * dc > nc * da)) by (nonlinear_arith)
        requires
            da > 0,
            db > 0,
            dc > 0,
    ;
}

/// The role a card is counted under (see `role_choice`).
pub fn pick_role(card: &OracleCard, t: &Template, counts: &[u32]) -> (r: Role)
    ensures
        role_choice(card.is_land, card.roles@, *t, counts@, r),
{
    if card.is_land {
        return Role::Land;
    }
    if card.roles.len() == 0 {
        return Role::Utility;
    }
    let all = Role::ALL;
    assert(all@ =~= all_roles());
    let mut best: Option<Role> = None;
    let mut full = true;
    let mut i: usize = 0;
    while i < 13
        invariant
            all@ == all_roles(),
            i <= 13,
            full <==> forall|j: int|
                0 <= j < i && #[trigger] candidate_role(card.roles@, all_roles()[j]) ==> count_at(
                    counts@,
                    all_roles()[j],
                ) >= bound_at(t.role_max@, all_roles()[j]),
            match best {
                None => forall|j: int| 0 <= j < i ==> !#[trigger] candidate_role(card.roles@, all_roles()[j]),
                Some(b) => {
                    &&& candidate_role(card.roles@, b)
                    &&& role_index(b) < i
                    &&& forall|j: int|
                        0 <= j < i && #[trigger] candidate_role(card.roles@, all_roles()[j])
                            ==> !needs_more(*t, counts@, all_roles()[j], b)
                    &&& forall|j: int|
                        0 <= j < role_index(b) && #[trigger] candidate_role(card.roles@, all_roles()[j])
                            ==> needs_more(*t, counts@, b, all_roles()[j])
                },
            },
        decreases 13 - i,
    {
        let r = all[i];
        proof {
            assert(all_roles()[i as int] == r);
            assert(role_index(r) == i) by {
                assert(role_at(i as int) == r);
            }
        }
        if r != Role::Land && card.has_role(r) {
            let (n, d) = need_of(t, counts, r);
            if count_of(counts, r) < t.max(r) {
                full = false;
                assert(candidate_role(card.roles@, all_roles()[i as int]));
            }
            match best {
                None => {
                    best = Some(r);
                },
                Some(b) => {
                    let (bn, bd) = need_of(t, counts, b);
                    proof {
                        assert(n * bd <= u64::MAX) by (nonlinear_arith)
                            requires
                                n <= u32::MAX,
                                bd <= u32::MAX,
                        ;
                        assert(bn * d <= u64::MAX) by (nonlinear_arith)
                            requires
                                bn <= u32::MAX,
                                d <= u32::MAX,
                        ;
                    }
                    if n * bd > bn * d {
                        proof {
                            assert forall|j: int|
                                0 <= j < i + 1 && #[trigger] candidate_role(card.roles@, all_roles()[j])
                                    implies !needs_more(*t, counts@, all_roles()[j], r) by {
                                lemma_needs_more_order(*t, counts@, all_roles()[j], b, r);
                                lemma_needs_more_order(*t, counts@, r, b, all_roles()[j]);
                                lemma_needs_more_order(*t, counts@, r, r, r);
                            }
                            assert forall|j: int|
                                0 <= j < role_index(r) && #[trigger] candidate_role(card.roles@, all_roles()[j])
                                    implies needs_more(*t, counts@, r, all_roles()[j]) by {
                                lemma_needs_more_order(*t, counts@, r, b, all_roles()[j]);
                            }
                        }
                        best = Some(r);
                    } else {
                        proof {
                            lemma_needs_more_order(*t, counts@, r, b, b);
                        }
                    }
                },
            }
        }
        i += 1;
    }
    proof {
        assert forall|c: Role| #[trigger] candidate_role(card.roles@, c) implies all_roles()[role_index(c)] == c by {
            assert(role_at(role_index(c)) == c);
        }
        if full {
            assert forall|c: Role| #[trigger] candidate_role(card.roles@, c) implies count_at(
                counts@,
                c,
            ) >= bound_at(t.role_max@, c) by {
                let j = role_index(c);
                assert(all_roles()[j] == c);
                assert(candidate_role(card.roles@, all_roles()[j]));
            }
            assert(candidates_full(*t, counts@, card.roles@));
        }
    }
    if full {
        let mut k: usize = 0;
        while k < 13
            invariant
                all@ == all_roles(),
                k <= 13,
                card.roles@.len() > 0,
                !card.is_land,
                candidates_full(*t, counts@, card.roles@),
                forall|j: int| 0 <= j < k ==> !card.roles@.contains(#[trigger] all_roles()[j]),
            decreases 13 - k,
        {
            if card.has_role(all[k]) {
                proof {
                    assert(role_index(all[k as int]) == k) by {
                        assert(role_at(k as int) == all[k as int]);
                    }
                }
                return all[k];
            }
            k += 1;
        }
        proof {
            let r0 = card.roles@[0];
            assert(role_at(role_index(r0)) == r0);
            assert(card.roles@.contains(r0));
        }
        return Role::Utility;
    }
    match best {
        Some(b) => b,
        None => {
            proof {
                assert(false);
            }
            Role::Utility
        },
    }
}

/// The card has roles and every one of them has reached its maximum.
pub open spec fn roles_all_full(roles: Seq<Role>, t: Template, counts: Seq<u32>) -> bool {
    roles.len() > 0 && forall|i: int|
        0 <= i < roles.len() ==> count_at(counts, #[trigger] roles[i]) >= bound_at(t.role_max@, roles[i])
}

/// Whether the card has roles and all of them are full.
pub fn all_roles_at_max(card: &OracleCard, t: &Template, counts: &[u32]) -> (b: bool)
    ensures
        b == roles_all_full(card.roles@, *t, counts@),
{
    if card.roles.len() == 0 {
        return false;
    }
    let mut i: usize = 0;
    while i < card.roles.len()
        invariant
            i <= card.roles@.len(),
            forall|j: int|
                0 <= j < i ==> count_at(counts@, #[trigger] card.roles@[j]) >= bound_at(
                    t.role_max@,
                    card.roles@[j],
                ),
        decreases card.roles@.len() - i,
    {
        let r = card.roles[i];
        if count_of(counts, r) < t.max(r) {
            return false;
        }
        i += 1;
    }
    true
}


// ---------------------------------------------------------------------------
// Alternatives for one chosen slot
// ---------------------------------------------------------------------------

/// Whether some chosen slot other than `slot` holds card `p`.
pub open spec fn used_elsewhere(chosen: Seq<(usize, Role)>, slot: int, p: usize) -> bool {
    exists|j: int| 0 <= j < chosen.len() && j != slot && (#[trigger] chosen[j]).0 == p
}

/// Whether pool card `p` may replace the card in `slot`: it is another
/// card, not chosen for any other slot, a land exactly when the replaced
/// card is one, and it has the slot's role.
pub open spec fn is_alternative(
    oracles: Seq<OracleCard>,
    chosen: Seq<(usize, Role)>,
    slot: int,
    p: usize,
) -> bool {
    let (removed, role) = chosen[slot];
    &&& p != removed
    &&& !used_elsewhere(chosen, slot, p)
    &&& oracles[p as int].is_land == oracles[removed as int].is_land
    &&& oracles[p as int].roles@.contains(role)
}

/// The pool cards, in pool order, that may replace the card in `slot`.
pub open spec fn alternatives_spec(
    oracles: Seq<OracleCard>,
    pool: Seq<usize>,
    chosen: Seq<(usize, Role)>,
    slot: int,
) -> Seq<usize>
    decreases pool.len(),
{
    if pool.len() == 0 {
        Seq::empty()
    } else {
        let rest = alternatives_spec(oracles, pool.drop_last(), chosen, slot);
        if is_alternative(oracles, chosen, slot, pool.last()) {
            rest.push(pool.last())
        } else {
            rest
        }
    }
}

fn used_elsewhere_exec(chosen: &[(usize, Role)], slot: usize, p: usize) -> (b: bool)
    ensures
        b == used_elsewhere(chosen@, slot as int, p),
{
    let mut j: usize = 0;
    while j < chosen.len()
        invariant
            j <= chosen@.len(),
            forall|k: int| 0 <= k < j && k != slot ==> (#[trigger] chosen@[k]).0 != p,
        decreases chosen@.len() - j,
    {
        if j != slot && chosen[j].0 == p {
            return true;
        }
        j += 1;
    }
    false
}

/// The candidates for replacing the card in chosen slot `slot_idx` (see
/// `is_alternative`), in pool order; the caller scores and ranks them.
pub fn alternative_candidates(
    oracles: &[OracleCard],
    pool: &[usize],
    chosen: &[(usize, Role)],
    slot_idx: usize,
) -> (out: Vec<usize>)
    requires
        slot_idx < chosen@.len(),
        forall|i: int| 0 <= i < pool@.len() ==> (#[trigger] pool@[i]) < oracles@.len(),
        forall|i: int| 0 <= i < chosen@.len() ==> (#[trigger] chosen@[i]).0 < oracles@.len(),
    ensures
        out@ == alternatives_spec(oracles@, pool@, chosen@, slot_idx as int),
{
    let removed = chosen[slot_idx].0;
    let role = chosen[slot_idx].1;
    let removed_is_land = oracles[removed].is_land;
    let mut out: Vec<usize> = Vec::new();
    let mut i: usize = 0;
    while i < pool.len()
        invariant
            i <= pool@.len(),
            slot_idx < chosen@.len(),
            removed == chosen@[slot_idx as int].0,
            role == chosen@[slot_idx as int].1,
            removed < oracles@.len(),
            removed_is_land == oracles@[removed as int].is_land,
            forall|k: int| 0 <= k < pool@.len() ==> (#[trigger] pool@[k]) < oracles@.len(),
            out@ == alternatives_spec(oracles@, pool@.take(i as int), chosen@, slot_idx as int),
        decreases pool@.len() - i,
    {
        let p = pool[i];
        assert(pool@.take(i as int + 1).drop_last() =~= pool@.take(i as int));
        assert(pool@.take(i as int + 1).last() == p);
        let card = &oracles[p];
        if p != removed && !used_elsewhere_exec(chosen, slot_idx, p)
            && card.is_land == removed_is_land && card.has_role(role)
        {
            out.push(p);
        }
        i += 1;
    }
    assert(pool@.take(pool@.len() as int) =~= pool@);
    out
}

/// The budget after one attempt to spend a wildcard of rarity `r`: the
/// count drops by one where it is positive, else nothing changes.
pub open spec fn spend_spec(b: WildcardBudget, r: crate::models::Rarity) -> WildcardBudget {
    if costs_wildcard(r) && b.count(r) > 0 {
        b.with_count(r, (b.count(r) - 1) as u32)
    } else {
        b
    }
}

/// The owned-only budget left for the other chosen slots: starting from
/// `budget`, each unowned card chosen in the first `n` slots, `slot`
/// excepted, spends a wildcard of its best printing's rarity.
pub open spec fn budget_without_slot_spec(
    oracles: Seq<OracleCard>,
    budget: WildcardBudget,
    chosen: Seq<(usize, Role)>,
    slot: int,
    n: int,
) -> WildcardBudget
    decreases n,
{
    if n <= 0 {
        budget
    } else {
        let b = budget_without_slot_spec(oracles, budget, chosen, slot, n - 1);
        let card = oracles[chosen[n - 1].0 as int];
        if n - 1 != slot && !card.owned_spec() {
            match best_printing_index(card.printings@) {
                Some(i) => spend_spec(b, card.printings@[i].rarity),
                None => b,
            }
        } else {
            b
        }
    }
}

/// The wildcard budget the alternatives for slot `slot_idx` are priced
/// against: in an owned-only build, the plan's budget less what the other
/// chosen unowned cards spend (see `budget_without_slot_spec`); otherwise
/// the plan's budget.
pub fn budget_without_slot(
    oracles: &[OracleCard],
    budget: WildcardBudget,
    owned_only: bool,
    chosen: &[(usize, Role)],
    slot_idx: usize,
) -> (b: WildcardBudget)
    requires
        forall|i: int| 0 <= i < chosen@.len() ==> (#[trigger] chosen@[i]).0 < oracles@.len(),
    ensures
        b == (if owned_only {
            budget_without_slot_spec(oracles@, budget, chosen@, slot_idx as int, chosen@.len() as int)
        } else {
            budget
        }),
{
    let mut bg = budget;
    if !owned_only {
        return bg;
    }
    let mut i: usize = 0;
    while i < chosen.len()
        invariant
            i <= chosen@.len(),
            forall|k: int| 0 <= k < chosen@.len() ==> (#[trigger] chosen@[k]).0 < oracles@.len(),
            bg == budget_without_slot_spec(oracles@, budget, chosen@, slot_idx as int, i as int),
        decreases chosen@.len() - i,
    {
        let card = &oracles[chosen[i].0];
        if i != slot_idx && !card.is_owned() {
            match card.best_printing() {
                Some(p) => {
                    let _ = bg.spend(&p.rarity);
                },
                None => {},
            }
        }
        i += 1;
    }
    bg
}

// ---------------------------------------------------------------------------
// Running counts of the chosen cards
// ---------------------------------------------------------------------------

/// The counts the fill keeps of its chosen cards: per role (canonical
/// order), per mana-value bucket and per colour pip (W, U, B, R, G). Only
/// nonland cards count toward the curve and the pips.
#[derive(Debug, Clone, Copy)]
pub struct DeckCounts {
    pub role_counts: [u32; 13],
    pub curve_counts: [u32; 8],
    pub pip_counts: [u32; 5],
}

/// The counts as sequences: roles, curve, pips.
pub type CountsView = (Seq<u32>, Seq<u32>, Seq<u32>);

/// `s` with entry `i` one higher.
pub open spec fn bump(s: Seq<u32>, i: int) -> Seq<u32> {
    s.update(i, (s[i] + 1) as u32)
}

/// `s` with entry `i` one lower, stopping at 0.
pub open spec fn drop_one(s: Seq<u32>, i: int) -> Seq<u32> {
    s.update(i, if s[i] > 0 { (s[i] - 1) as u32 } else { 0 })
}

/// `s` plus `p`, entry by entry.
pub open spec fn add_each(s: Seq<u32>, p: Seq<u32>) -> Seq<u32> {
    Seq::new(s.len(), |k: int| (s[k] + p[k]) as u32)
}

/// `s` minus `p`, entry by entry, stopping at 0.
pub open spec fn sub_each(s: Seq<u32>, p: Seq<u32>) -> Seq<u32> {
    Seq::new(s.len(), |k: int| if s[k] >= p[k] { (s[k] - p[k]) as u32 } else { 0 })
}

/// The counts after a card of role `role` is counted in; `nonland` holds
/// the mana-value bucket and pips of a nonland card.
pub open spec fn counted_in(v: CountsView, role: Role, nonland: Option<(usize, Seq<u32>)>) -> CountsView {
    match nonland {
        Some((b, p)) => (bump(v.0, role_index(role)), bump(v.1, b as int), add_each(v.2, p)),
        None => (bump(v.0, role_index(role)), v.1, v.2),
    }
}

/// The counts after such a card is counted out again; counts never go
/// below 0.
pub open spec fn counted_out(v: CountsView, role: Role, nonland: Option<(usize, Seq<u32>)>) -> CountsView {
    match nonland {
        Some((b, p)) => (drop_one(v.0, role_index(role)), drop_one(v.1, b as int), sub_each(v.2, p)),
        None => (drop_one(v.0, role_index(role)), v.1, v.2),
    }
}

/// Counting the card in keeps every count within `u32`.
pub open spec fn fits_in(v: CountsView, role: Role, nonland: Option<(usize, Seq<u32>)>) -> bool {
    &&& v.0.len() == 13
    &&& v.1.len() == 8
    &&& v.2.len() == 5
    &&& v.0[role_index(role)] < u32::MAX
    &&& match nonland {
        Some((b, p)) => {
            &&& b < 8
            &&& p.len() == 5
            &&& v.1[b as int] < u32::MAX
            &&& forall|k: int| 0 <= k < 5 ==> v.2[k] + p[k] <= u32::MAX
        },
        None => true,
    }
}

/// The pips of a nonland card as a sequence.
pub open spec fn nonland_view(nonland: Option<(usize, [u32; 5])>) -> Option<(usize, Seq<u32>)> {
    match nonland {
        Some((b, p)) => Some((b, p@)),
        None => None,
    }
}

impl DeckCounts {
    pub open spec fn view(&self) -> CountsView {
        (self.role_counts@, self.curve_counts@, self.pip_counts@)
    }

    /// All counts zero.
    pub fn new() -> (c: DeckCounts)
        ensures
            c.view() == (Seq::new(13, |i: int| 0u32), Seq::new(8, |i: int| 0u32), Seq::new(5, |i: int| 0u32)),
    {
        let c = DeckCounts { role_counts: [0; 13], curve_counts: [0; 8], pip_counts: [0; 5] };
        assert(c.view().0 =~= Seq::new(13, |i: int| 0u32));
        assert(c.view().1 =~= Seq::new(8, |i: int| 0u32));
        assert(c.view().2 =~= Seq::new(5, |i: int| 0u32));
        c
    }

    /// Counts a chosen card in: its role and, for a nonland card
    /// (`nonland` = its mana-value bucket and pips), its bucket and pips.
    pub fn count_in(&mut self, role: Role, nonland: Option<(usize, [u32; 5])>)
        requires
            fits_in(old(self).view(), role, nonland_view(nonland)),
        ensures
            final(self).view() == counted_in(old(self).view(), role, nonland_view(nonland)),
    {
        let r = role_position(role);
        self.role_counts[r] = self.role_counts[r] + 1;
        assert(self.role_counts@ =~= bump(old(self).role_counts@, role_index(role)));
        match nonland {
            Some((b, p)) => {
                self.curve_counts[b] = self.curve_counts[b] + 1;
                assert(self.curve_counts@ =~= bump(old(self).curve_counts@, b as int));
                let ghost before = self.pip_counts@;
                assert(before == old(self).pip_counts@);
                let mut k: usize = 0;
                while k < 5
                    invariant
                        k <= 5,
                        self.pip_counts@.len() == 5,
                        before.len() == 5,
                        p@.len() == 5,
                        self.role_counts@ == bump(old(self).role_counts@, role_index(role)),
                        self.curve_counts@ == bump(old(self).curve_counts@, b as int),
                        forall|j: int| 0 <= j < 5 ==> before[j] + p@[j] <= u32::MAX,
                        forall|j: int| 0 <= j < k ==> self.pip_counts@[j] == before[j] + p@[j],
                        forall|j: int| k <= j < 5 ==> self.pip_counts@[j] == before[j],
                    decreases 5 - k,
                {
                    assert(before[k as int] + p@[k as int] <= u32::MAX);
                    self.pip_counts[k] = self.pip_counts[k] + p[k];
                    k += 1;
                }
                assert(self.pip_counts@ =~= add_each(before, p@));
            },
            None => {},
        }
    }

    /// Counts a chosen card out again, the reverse of `count_in`; counts
    /// stop at 0.
    pub fn count_out(&mut self, role: Role, nonland: Option<(usize, [u32; 5])>)
        requires
            match nonland {
                Some((b, p)) => b < 8,
                None => true,
            },
        ensures
            final(self).view() == counted_out(old(self).view(), role, nonland_view(nonland)),
    {
        let r = role_position(role);
        let rc = self.role_counts[r];
        self.role_counts[r] = if rc > 0 { rc - 1 } else { 0 };
        assert(self.role_counts@ =~= drop_one(old(self).role_counts@, role_index(role)));
        match nonland {
            Some((b, p)) => {
                let c = self.curve_counts[b];
                self.curve_counts[b] = if c > 0 { c - 1 } else { 0 };
                assert(self.curve_counts@ =~= drop_one(old(self).curve_counts@, b as int));
                let ghost before = self.pip_counts@;
                let mut k: usize = 0;
                while k < 5
                    invariant
                        k <= 5,
                        self.pip_counts@.len() == 5,
                        before.len() == 5,
                        before == old(self).pip_counts@,
                        self.role_counts@ == drop_one(old(self).role_counts@, role_index(role)),
                        self.curve_counts@ == drop_one(old(self).curve_counts@, b as int),
                        forall|j: int| 0 <= j < k ==> self.pip_counts@[j] == (if before[j] >= p@[j] { (before[j] - p@[j]) as u32 } else { 0 }),
                        forall|j: int| k <= j < 5 ==> self.pip_counts@[j] == before[j],
                    decreases 5 - k,
                {
                    let have = self.pip_counts[k];
                    self.pip_counts[k] = if have >= p[k] { have - p[k] } else { 0 };
                    k += 1;
                }
                assert(self.pip_counts@ =~= sub_each(before, p@));
            },
            None => {},
        }
    }
}

/// Counting a card out undoes counting it in: a swap the local search
/// tries and reverts leaves the counts as they were.
pub proof fn lemma_count_out_undoes_count_in(
    v: CountsView,
    role: Role,
    nonland: Option<(usize, Seq<u32>)>,
)
    requires
        fits_in(v, role, nonland),
    ensures
        counted_out(counted_in(v, role, nonland), role, nonland) == v,
{
    let after = counted_out(counted_in(v, role, nonland), role, nonland);
    assert(after.0 =~= v.0);
    match nonland {
        Some((b, p)) => {
            assert(after.1 =~= v.1);
            assert(after.2 =~= v.2);
        },
        None => {},
    }
}

// ---------------------------------------------------------------------------
// Pinned cards and land slots
// ---------------------------------------------------------------------------

/// Where the must-include pass stands: the positions of the pinned cards
/// added, the positions of pinned basic lands (ignored, with a warning),
/// the nonland cards and the nonbasic lands added, and whether the pass
/// stopped because the nonland slots were full.
pub struct PinnedPass {
    pub added: Vec<usize>,
    pub basics_ignored: Vec<usize>,
    pub nonland_count: u32,
    pub nonbasic_lands: u32,
}

/// The pass over the first `n` pinned cards, each given as (is a basic
/// land, is a land): basic lands are skipped and noted; a nonland card
/// when `nonland_target` nonland cards are already in stops the pass;
/// every other card is added and counted. The last component tells
/// whether the pass has stopped.
pub open spec fn pinned_spec(flags: Seq<(bool, bool)>, nonland_target: u32, n: int) -> (
    Seq<usize>,
    Seq<usize>,
    nat,
    nat,
    bool,
)
    decreases n,
{
    if n <= 0 {
        (Seq::empty(), Seq::empty(), 0, 0, false)
    } else {
        let (added, basics, nonland, lands, stopped) = pinned_spec(flags, nonland_target, n - 1);
        let (basic, land) = flags[n - 1];
        if stopped {
            (added, basics, nonland, lands, stopped)
        } else if basic {
            (added, basics.push((n - 1) as usize), nonland, lands, false)
        } else if !land && nonland >= nonland_target {
            (added, basics, nonland, lands, true)
        } else if !land {
            (added.push((n - 1) as usize), basics, nonland + 1, lands, false)
        } else {
            (added.push((n - 1) as usize), basics, nonland, lands + 1, false)
        }
    }
}

proof fn lemma_pinned_bounds(flags: Seq<(bool, bool)>, nonland_target: u32, n: int)
    requires
        0 <= n,
    ensures
        pinned_spec(flags, nonland_target, n).2 <= nonland_target,
        pinned_spec(flags, nonland_target, n).2 + pinned_spec(flags, nonland_target, n).3 <= n,
    decreases n,
{
    if n > 0 {
        lemma_pinned_bounds(flags, nonland_target, n - 1);
    }
}

/// The must-include pass of the fill (see `pinned_spec`); `flags[i]` says
/// whether pinned card `i` is a basic land and whether it is a land.
pub fn pinned_pass(flags: &[(bool, bool)], nonland_target: u32) -> (p: PinnedPass)
    requires
        flags@.len() <= u32::MAX,
    ensures
        ({
            let (added, basics, nonland, lands, _) = pinned_spec(
                flags@,
                nonland_target,
                flags@.len() as int,
            );
            &&& p.added@ == added
            &&& p.basics_ignored@ == basics
            &&& p.nonland_count == nonland
            &&& p.nonbasic_lands == lands
        }),
{
    let mut added: Vec<usize> = Vec::new();
    let mut basics: Vec<usize> = Vec::new();
    let mut nonland: u32 = 0;
    let mut lands: u32 = 0;
    let mut i: usize = 0;
    while i < flags.len()
        invariant
            i <= flags@.len(),
            flags@.len() <= u32::MAX,
            pinned_spec(flags@, nonland_target, i as int) == (
                added@,
                basics@,
                nonland as nat,
                lands as nat,
                false,
            ),
        decreases flags@.len() - i,
    {
        proof {
            lemma_pinned_bounds(flags@, nonland_target, i as int);
        }
        let (basic, land) = flags[i];
        if basic {
            basics.push(i);
        } else if !land && nonland >= nonland_target {
            proof {
                lemma_pinned_stays(flags@, nonland_target, i as int + 1, flags@.len() as int);
            }
            return PinnedPass { added, basics_ignored: basics, nonland_count: nonland, nonbasic_lands: lands };
        } else if !land {
            added.push(i);
            nonland = nonland + 1;
        } else {
            added.push(i);
            lands = lands + 1;
        }
        i += 1;
    }
    PinnedPass { added, basics_ignored: basics, nonland_count: nonland, nonbasic_lands: lands }
}

proof fn lemma_pinned_stays(flags: Seq<(bool, bool)>, nonland_target: u32, m: int, n: int)
    requires
        0 <= m <= n,
        pinned_spec(flags, nonland_target, m).4,
    ensures
        pinned_spec(flags, nonland_target, n) == pinned_spec(flags, nonland_target, m),
    decreases n - m,
{
    if n > m {
        lemma_pinned_stays(flags, nonland_target, m, n - 1);
    }
}

/// How many nonbasic lands the fill may still add: the template's
/// nonbasic cap and its land count, each less the pinned nonbasic lands
/// (not below 0), whichever is smaller.
pub open spec fn nonbasic_limit_spec(lands: u32, nonbasic_cap: u32, pinned: u32) -> int {
    let a = if nonbasic_cap >= pinned { nonbasic_cap - pinned } else { 0 };
    let b = if lands >= pinned { lands - pinned } else { 0 };
    if a < b { a } else { b }
}

/// The basic lands the deck needs: the land count less the nonbasic lands
/// added and the pinned ones, not below 0.
pub open spec fn basics_needed_spec(lands: u32, nonbasic_added: u32, pinned: u32) -> int {
    let a = if lands >= nonbasic_added { lands - nonbasic_added } else { 0 };
    if a >= pinned { a - pinned } else { 0 }
}

/// See `nonbasic_limit_spec`.
pub fn nonbasic_limit(lands: u32, nonbasic_cap: u32, pinned: u32) -> (n: u32)
    ensures
        n == nonbasic_limit_spec(lands, nonbasic_cap, pinned),
{
    let a = nonbasic_cap.saturating_sub(pinned);
    let b = lands.saturating_sub(pinned);
    if a < b { a } else { b }
}

/// See `basics_needed_spec`.
pub fn basics_needed(lands: u32, nonbasic_added: u32, pinned: u32) -> (n: u32)
    ensures
        n == basics_needed_spec(lands, nonbasic_added, pinned),
{
    lands.saturating_sub(nonbasic_added).saturating_sub(pinned)
}

/// When the pinned nonbasic lands fit in the land count and the nonbasic
/// lands added stay within `nonbasic_limit`, pinned lands, added lands and
/// basics fill exactly the template's land slots.
pub proof fn lemma_land_slots_fill_target(lands: u32, nonbasic_cap: u32, pinned: u32, added: u32)
    requires
        pinned <= lands,
        added <= nonbasic_limit_spec(lands, nonbasic_cap, pinned),
    ensures
        pinned + added + basics_needed_spec(lands, added, pinned) == lands,
{
}

} // verus!
