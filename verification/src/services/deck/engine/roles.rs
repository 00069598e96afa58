//! Card roles: derived from the Scryfall tag hierarchy and, as a fallback,
//! from a card's type line, rules text, keywords and power.

use vstd::prelude::*;

use super::types::{all_roles, role_at, role_index, Role};
use crate::regex_match::{regex_is_match, regex_matches};
use crate::services::deck::store::IngestTag;
use crate::text::{
    ascii_lower_chars, ascii_lower_seq, chars_eq, chars_of, contains, ends_with, ends_with_chars,
    owned, split_first, split_first_chars, starts_with, starts_with_chars, str_contains, str_eq,
    str_views, string_of, trim, trim_chars, vec_contains_str,
};

verus! {

/// One tag of the index: id, slug and parent id.
pub type TagEntry = (Seq<char>, Seq<char>, Option<Seq<char>>);

/// Index of the last entry with id `id` among the first `n`, or -1.
pub open spec fn last_index(e: Seq<TagEntry>, id: Seq<char>, n: int) -> int
    decreases n,
{
    if n <= 0 {
        -1
    } else if e[n - 1].0 == id {
        n - 1
    } else {
        last_index(e, id, n - 1)
    }
}

/// The entry for `id` (later entries win over earlier ones with the same id).
pub open spec fn lookup(e: Seq<TagEntry>, id: Seq<char>) -> Option<TagEntry> {
    let k = last_index(e, id, e.len() as int);
    if 0 <= k < e.len() {
        Some(e[k])
    } else {
        None
    }
}

/// Slugs from tag `cur` up the parent chain: stops at an unknown tag, at a
/// root, at a tag already visited (in `seen`) or after `fuel` tags.
pub open spec fn ancestry_from(
    e: Seq<TagEntry>,
    cur: Seq<char>,
    seen: Seq<Seq<char>>,
    fuel: nat,
) -> Seq<Seq<char>>
    decreases fuel,
{
    if fuel == 0 || seen.contains(cur) {
        seq![]
    } else {
        match lookup(e, cur) {
            None => seq![],
            Some(entry) => seq![entry.1] + match entry.2 {
                Some(p) => ancestry_from(e, p, seen.push(cur), (fuel - 1) as nat),
                None => seq![],
            },
        }
    }
}

/// The slug chain of a tag up to its root, at most 32 tags long.
pub open spec fn ancestry_spec(e: Seq<TagEntry>, id: Seq<char>) -> Seq<Seq<char>> {
    ancestry_from(e, id, seq![], 32)
}

proof fn lemma_ancestry_len(e: Seq<TagEntry>, cur: Seq<char>, seen: Seq<Seq<char>>, fuel: nat)
    ensures
        ancestry_from(e, cur, seen, fuel).len() <= fuel,
    decreases fuel,
{
    if fuel > 0 && !seen.contains(cur) {
        match lookup(e, cur) {
            None => {},
            Some(entry) => match entry.2 {
                Some(p) => lemma_ancestry_len(e, p, seen.push(cur), (fuel - 1) as nat),
                None => {},
            },
        }
    }
}

/// Tag id → (slug, parent id), built from the tag rows.
pub struct TagIndex {
    entries: Vec<(String, String, Option<String>)>,
}

/// The character view of an optional string.
pub open spec fn opt_view(o: Option<String>) -> Option<Seq<char>> {
    match o {
        Some(s) => Some(s@),
        None => None,
    }
}

/// The index entries a list of tag rows gives.
pub open spec fn entries_of(tags: Seq<IngestTag>) -> Seq<TagEntry> {
    tags.map_values(|t: IngestTag| (t.tag_id@, t.slug@, opt_view(t.parent_id)))
}

fn clone_opt(o: &Option<String>) -> (r: Option<String>)
    ensures
        opt_view(r) == opt_view(*o),
{
    match o {
        Some(s) => Some(s.clone()),
        None => None,
    }
}

impl View for TagIndex {
    type V = Seq<TagEntry>;

    closed spec fn view(&self) -> Seq<TagEntry> {
        self.entries@.map_values(
            |x: (String, String, Option<String>)| (x.0@, x.1@, opt_view(x.2)),
        )
    }
}

impl TagIndex {
    /// Indexes the tag rows; a later row wins over an earlier one with the
    /// same id.
    pub fn new(tags: &[IngestTag]) -> (idx: TagIndex)
        ensures
            idx@ == entries_of(tags@),
    {
        let mut entries: Vec<(String, String, Option<String>)> = Vec::new();
        let mut i: usize = 0;
        while i < tags.len()
            invariant
                i <= tags@.len(),
                entries@.len() == i,
                forall|j: int|
                    0 <= j < i ==> (#[trigger] entries@[j]).0@ == tags@[j].tag_id@ && entries@[j].1@
                        == tags@[j].slug@ && opt_view(entries@[j].2) == opt_view(tags@[j].parent_id),
            decreases tags@.len() - i,
        {
            let t = &tags[i];
            entries.push((t.tag_id.clone(), t.slug.clone(), clone_opt(&t.parent_id)));
            i += 1;
        }
        let idx = TagIndex { entries };
        assert(idx@ =~= entries_of(tags@));
        idx
    }

    /// Position of the entry for `id`, if any.
    fn find(&self, id: &str) -> (r: Option<usize>)
        ensures
            match r {
                Some(k) => k == last_index(self@, id@, self@.len() as int) && k < self@.len(),
                None => last_index(self@, id@, self@.len() as int) == -1,
            },
    {
        let mut n = self.entries.len();
        while n > 0
            invariant
                n <= self.entries@.len(),
                self@.len() == self.entries@.len(),
                last_index(self@, id@, self@.len() as int) == last_index(self@, id@, n as int),
            decreases n,
        {
            if str_eq(self.entries[n - 1].0.as_str(), id) {
                return Some(n - 1);
            }
            n -= 1;
        }
        None
    }

    /// Slug chain from this tag up to its root (cycle-safe, at most 32
    /// tags); the first element is the tag's own slug.
    pub fn ancestry(&self, tag_id: &str) -> (out: Vec<String>)
        ensures
            str_views(out@) == ancestry_spec(self@, tag_id@),
            out@.len() <= 32,
    {
        let ghost e = self@;
        let ghost target = ancestry_spec(e, tag_id@);
        proof {
            lemma_ancestry_len(e, tag_id@, seq![], 32);
        }
        let mut out: Vec<String> = Vec::new();
        let mut seen: Vec<String> = Vec::new();
        let mut cur: String = owned(tag_id);
        let mut fuel: usize = 32;
        assert(str_views(out@) =~= Seq::<Seq<char>>::empty());
        assert(str_views(seen@) =~= Seq::<Seq<char>>::empty());
        assert(str_views(out@) + ancestry_from(e, cur@, str_views(seen@), 32) =~= target);
        while fuel > 0
            invariant
                e == self@,
                target == ancestry_spec(e, tag_id@),
                fuel <= 32,
                str_views(out@) + ancestry_from(e, cur@, str_views(seen@), fuel as nat) == target,
                target.len() <= 32,
            decreases fuel,
        {
            if vec_contains_str(&seen, cur.as_str()) {
                assert(str_views(out@) + Seq::<Seq<char>>::empty() =~= str_views(out@));
                return out;
            }
            let ghost seen_before = str_views(seen@);
            let ghost cur_before = cur@;
            seen.push(cur.clone());
            assert(str_views(seen@) =~= seen_before.push(cur_before));
            match self.find(cur.as_str()) {
                None => {
                    assert(str_views(out@) + Seq::<Seq<char>>::empty() =~= str_views(out@));
                    return out;
                },
                Some(k) => {
                    let ghost out_before = str_views(out@);
                    out.push(self.entries[k].1.clone());
                    assert(str_views(out@) =~= out_before.push(e[k as int].1));
                    match &self.entries[k].2 {
                        Some(p) => {
                            assert(opt_view(self.entries@[k as int].2) == Some(p@));
                            assert(out_before + (seq![e[k as int].1] + ancestry_from(
                                e,
                                p@,
                                seen_before.push(cur_before),
                                (fuel - 1) as nat,
                            )) =~= out_before.push(e[k as int].1) + ancestry_from(
                                e,
                                p@,
                                seen_before.push(cur_before),
                                (fuel - 1) as nat,
                            ));
                            cur = p.clone();
                        },
                        None => {
                            assert(out_before + (seq![e[k as int].1] + Seq::<Seq<char>>::empty())
                                =~= out_before.push(e[k as int].1));
                            return out;
                        },
                    }
                },
            }
            fuel -= 1;
        }
        assert(str_views(out@) + Seq::<Seq<char>>::empty() =~= str_views(out@));
        out
    }

    /// The slug of tag `tag_id`, if the tag is known.
    pub fn slug(&self, tag_id: &str) -> (r: Option<&str>)
        ensures
            match lookup(self@, tag_id@) {
                Some(entry) => r matches Some(s) && s@ == entry.1,
                None => r.is_none(),
            },
    {
        match self.find(tag_id) {
            Some(k) => Some(self.entries[k].1.as_str()),
            None => None,
        }
    }
}

// ---------------------------------------------------------------------------
// Role lists
// ---------------------------------------------------------------------------

/// `roles` with `r` appended unless already present.
fn push_unique(roles: &mut Vec<Role>, r: Role)
    ensures
        final(roles)@ == if old(roles)@.contains(r) {
            old(roles)@
        } else {
            old(roles)@.push(r)
        },
{
    let mut i: usize = 0;
    while i < roles.len()
        invariant
            i <= roles@.len(),
            roles@ == old(roles)@,
            forall|j: int| 0 <= j < i ==> roles@[j] != r,
        decreases roles@.len() - i,
    {
        if roles[i] == r {
            assert(roles@[i as int] == r);
            return;
        }
        i += 1;
    }
    roles.push(r);
}

/// `roles` with `r` appended when `cond` holds and `r` is not present.
fn push_if(roles: &mut Vec<Role>, cond: bool, r: Role)
    ensures
        forall|x: Role| #[trigger]
            final(roles)@.contains(x) <==> (old(roles)@.contains(x) || (cond && x == r)),
{
    if cond {
        push_unique(roles, r);
        assert forall|x: Role| #[trigger]
            roles@.contains(x) <==> (old(roles)@.contains(x) || x == r) by {
            if !old(roles)@.contains(r) {
                assert(roles@ == old(roles)@.push(r));
                if old(roles)@.contains(x) {
                    let k = choose|k: int| 0 <= k < old(roles)@.len() && old(roles)@[k] == x;
                    assert(roles@[k] == x);
                }
                if roles@.contains(x) && x != r {
                    let k = choose|k: int| 0 <= k < roles@.len() && roles@[k] == x;
                    assert(k < old(roles)@.len());
                    assert(old(roles)@[k] == x);
                }
                assert(roles@[old(roles)@.len() as int] == r);
            }
        }
    }
}

/// The roles of `roles` in canonical order, each once.
fn sort_by_all(roles: Vec<Role>) -> (out: Vec<Role>)
    ensures
        out@ == all_roles().filter(|x: Role| roles@.contains(x)),
{
    let all = Role::ALL;
    assert(all@ =~= all_roles());
    let ghost pred = |x: Role| roles@.contains(x);
    let mut out: Vec<Role> = Vec::new();
    let mut i: usize = 0;
    assert(all_roles().take(0).filter(pred) =~= Seq::<Role>::empty()) by {
        reveal(Seq::filter);
    }
    while i < 13
        invariant
            all@ == all_roles(),
            i <= 13,
            pred == (|x: Role| roles@.contains(x)),
            out@ == all_roles().take(i as int).filter(pred),
        decreases 13 - i,
    {
        let r = all[i];
        let mut found = false;
        let mut j: usize = 0;
        while j < roles.len()
            invariant
                j <= roles@.len(),
                found == (exists|k: int| 0 <= k < j && roles@[k] == r),
            decreases roles@.len() - j,
        {
            if roles[j] == r {
                found = true;
            }
            j += 1;
        }
        proof {
            reveal(Seq::filter);
            assert(all_roles().take(i + 1).drop_last() =~= all_roles().take(i as int));
            assert(all_roles().take(i + 1).last() == r);
            if found {
                let k = choose|k: int| 0 <= k < roles@.len() && roles@[k] == r;
                assert(roles@.contains(r));
            } else {
                assert(!roles@.contains(r));
            }
        }
        if found {
            out.push(r);
        }
        i += 1;
    }
    assert(all_roles().take(13) =~= all_roles());
    out
}

/// Filtering the canonical order by two predicates that agree gives the
/// same list.
proof fn lemma_filter_same(p: spec_fn(Role) -> bool, q: spec_fn(Role) -> bool)
    requires
        forall|r: Role| #[trigger] p(r) == q(r),
    ensures
        all_roles().filter(p) == all_roles().filter(q),
{
    assert(p =~= q);
}

// ---------------------------------------------------------------------------
// Roles from tags
// ---------------------------------------------------------------------------

/// A slug marking a synergy payoff.
pub open spec fn is_payoff_slug(slug: Seq<char>) -> bool {
    ends_with(slug, "-matters"@) || starts_with(slug, "synergy-"@) || starts_with(slug, "typal-"@)
}

/// The role a tag with slug chain `anc` implies.
pub open spec fn tag_role(anc: Seq<Seq<char>>, r: Role) -> bool {
    match r {
        Role::Wipe => anc.contains("sweeper"@),
        Role::Removal => !anc.contains("sweeper"@) && anc.contains("removal"@),
        Role::Ramp => anc.contains("ramp"@),
        Role::Draw => anc.contains("draw"@) || anc.contains("card-advantage"@),
        Role::Counter => anc.contains("counterspell"@),
        Role::Recursion => anc.contains("recursion"@),
        Role::Tutor => anc.contains("tutor"@),
        Role::Protection => anc.contains("protection"@) || anc.contains("damage-prevention"@),
        Role::Utility => anc.contains("utility-land"@),
        Role::Payoff => exists|i: int| 0 <= i < anc.len() && is_payoff_slug(#[trigger] anc[i]),
        _ => false,
    }
}

/// Some tag of `tag_ids` implies role `r`.
pub open spec fn tags_imply(e: Seq<TagEntry>, tag_ids: Seq<Seq<char>>, r: Role) -> bool {
    exists|t: int| 0 <= t < tag_ids.len() && tag_role(ancestry_spec(e, #[trigger] tag_ids[t]), r)
}

/// Whether some slug of `anc` marks a synergy payoff.
fn has_payoff_slug(anc: &Vec<String>) -> (b: bool)
    ensures
        b == exists|i: int| 0 <= i < anc@.len() && is_payoff_slug(#[trigger] str_views(anc@)[i]),
{
    let matters = chars_of("-matters");
    let synergy = chars_of("synergy-");
    let typal = chars_of("typal-");
    let mut i: usize = 0;
    while i < anc.len()
        invariant
            i <= anc@.len(),
            matters@ == "-matters"@,
            synergy@ == "synergy-"@,
            typal@ == "typal-"@,
            forall|j: int| 0 <= j < i ==> !is_payoff_slug(#[trigger] str_views(anc@)[j]),
        decreases anc@.len() - i,
    {
        let s = chars_of(anc[i].as_str());
        if ends_with_chars(s.as_slice(), matters.as_slice()) || starts_with_chars(
            s.as_slice(),
            synergy.as_slice(),
        ) || starts_with_chars(s.as_slice(), typal.as_slice()) {
            assert(is_payoff_slug(str_views(anc@)[i as int]));
            return true;
        }
        i += 1;
    }
    false
}

/// Roles implied by a card's tag ids (via the slugs up to each tag's root),
/// in canonical order.
pub fn roles_from_tags(index: &TagIndex, tag_ids: &[String]) -> (out: Vec<Role>)
    ensures
        out@ == all_roles().filter(|r: Role| tags_imply(index@, str_views(tag_ids@), r)),
{
    let ghost ids = str_views(tag_ids@);
    let mut roles: Vec<Role> = Vec::new();
    let mut i: usize = 0;
    while i < tag_ids.len()
        invariant
            i <= tag_ids@.len(),
            ids == str_views(tag_ids@),
            forall|r: Role|
                #![trigger roles@.contains(r)]
                roles@.contains(r) <==> exists|t: int|
                    0 <= t < i && tag_role(ancestry_spec(index@, #[trigger] ids[t]), r),
        decreases tag_ids@.len() - i,
    {
        let anc = index.ancestry(tag_ids[i].as_str());
        let ghost a = str_views(anc@);
        assert(a == ancestry_spec(index@, ids[i as int]));
        let ghost before = roles@;
        let sweeper = vec_contains_str(&anc, "sweeper");
        let removal = !sweeper && vec_contains_str(&anc, "removal");
        let ramp = vec_contains_str(&anc, "ramp");
        let draw = vec_contains_str(&anc, "draw") || vec_contains_str(&anc, "card-advantage");
        let counter = vec_contains_str(&anc, "counterspell");
        let recursion = vec_contains_str(&anc, "recursion");
        let tutor = vec_contains_str(&anc, "tutor");
        let protection = vec_contains_str(&anc, "protection") || vec_contains_str(
            &anc,
            "damage-prevention",
        );
        let utility = vec_contains_str(&anc, "utility-land");
        let payoff = has_payoff_slug(&anc);
        push_if(&mut roles, sweeper, Role::Wipe);
        push_if(&mut roles, removal, Role::Removal);
        push_if(&mut roles, ramp, Role::Ramp);
        push_if(&mut roles, draw, Role::Draw);
        push_if(&mut roles, counter, Role::Counter);
        push_if(&mut roles, recursion, Role::Recursion);
        push_if(&mut roles, tutor, Role::Tutor);
        push_if(&mut roles, protection, Role::Protection);
        push_if(&mut roles, utility, Role::Utility);
        push_if(&mut roles, payoff, Role::Payoff);
        proof {
            assert forall|r: Role| #![trigger roles@.contains(r)]
                roles@.contains(r) <==> (before.contains(r) || tag_role(a, r)) by {
                if tag_role(a, r) && r == Role::Payoff {
                    let j = choose|j: int| 0 <= j < a.len() && is_payoff_slug(#[trigger] a[j]);
                    assert(is_payoff_slug(str_views(anc@)[j]));
                }
            }
            assert forall|r: Role| #![trigger roles@.contains(r)]
                roles@.contains(r) <==> exists|t: int|
                    0 <= t < i + 1 && tag_role(ancestry_spec(index@, #[trigger] ids[t]), r) by {
                if roles@.contains(r) {
                    if before.contains(r) {
                        let t = choose|t: int|
                            0 <= t < i && tag_role(ancestry_spec(index@, #[trigger] ids[t]), r);
                        assert(0 <= t < i + 1 && tag_role(ancestry_spec(index@, ids[t]), r));
                    } else {
                        assert(tag_role(ancestry_spec(index@, ids[i as int]), r));
                    }
                }
                if exists|t: int|
                    0 <= t < i + 1 && tag_role(ancestry_spec(index@, #[trigger] ids[t]), r) {
                    let t = choose|t: int|
                        0 <= t < i + 1 && tag_role(ancestry_spec(index@, #[trigger] ids[t]), r);
                    if t < i {
                        assert(before.contains(r));
                    } else {
                        assert(tag_role(a, r));
                    }
                }
            }
        }
        i += 1;
    }
    let out = sort_by_all(roles);
    proof {
        lemma_filter_same(
            |x: Role| roles@.contains(x),
            |r: Role| tags_imply(index@, str_views(tag_ids@), r),
        );
    }
    out
}

// ---------------------------------------------------------------------------
// Roles from the card itself
// ---------------------------------------------------------------------------

pub open spec fn re_wipe() -> Seq<char> {
    "(Destroy|Exile) all "@
}

pub open spec fn re_removal_target() -> Seq<char> {
    "(Destroy|Exile) target "@
}

pub open spec fn re_damage() -> Seq<char> {
    "deals \\d+ damage to (any target|target creature)"@
}

pub open spec fn re_draw() -> Seq<char> {
    "(?i)draw .* card"@
}

pub open spec fn re_bounce() -> Seq<char> {
    "[Rr]eturn (target|up to \\w+ target|another target) (creature|permanent|nonland permanent|artifact|enchantment|planeswalker)[^.]* to (its|their) owner"@
}

pub open spec fn re_fight() -> Seq<char> {
    "fights? (target|another target|up to)"@
}

pub open spec fn re_shrink() -> Seq<char> {
    "[Tt]arget creature (an opponent controls )?gets -\\d+/-\\d+"@
}

pub open spec fn re_edict() -> Seq<char> {
    "[Ee]ach (opponent|player) sacrifices (a|an|two|three) (creature|permanent|nonland permanent)"@
}

pub open spec fn re_exile_target() -> Seq<char> {
    "[Ee]xile target (creature|permanent|nonland permanent|artifact|enchantment|planeswalker|artifact or enchantment)"@
}

pub open spec fn re_power_damage() -> Seq<char> {
    "deals damage equal to its power to (any target|target creature|target)"@
}

pub open spec fn re_wipe_shrink() -> Seq<char> {
    "([Ee]ach creature|[Aa]ll creatures|[Aa]ll other creatures) gets? -\\d+/-\\d+"@
}

pub open spec fn re_wipe_damage() -> Seq<char> {
    "deals \\d+ damage to each (creature|opponent and each creature)"@
}

pub open spec fn re_treasure() -> Seq<char> {
    "[Cc]reate (a|an|two|three|four|X|that many) [^.]*Treasure"@
}

pub open spec fn re_add_mana() -> Seq<char> {
    ": Add (\\{[WUBRGC0-9]\\}|one mana|two mana|three mana|an amount of mana)"@
}

pub open spec fn re_cost_less() -> Seq<char> {
    "cost \\{\\d\\} less to cast"@
}

pub open spec fn re_impulse() -> Seq<char> {
    "[Ee]xile the top (card|two cards|three cards|\\w+ cards) of your library[^.]*\\. (Until|You may)"@
}

pub open spec fn re_dig() -> Seq<char> {
    "[Ll]ook at the top [^.]*\\. Put (one|two|three|up to \\w+) of them into your hand"@
}

pub open spec fn re_investigate() -> Seq<char> {
    "[Ii]nvestigate"@
}

pub open spec fn re_loot() -> Seq<char> {
    "[Dd]iscard [^.]*\\. (If you do, )?[Dd]raw"@
}

/// The front face of a type line, trimmed.
pub open spec fn front_type(type_line: Seq<char>) -> Seq<char> {
    trim(split_first(type_line, "//"@))
}

/// Some keyword, ASCII lower-cased, equals `word`.
pub open spec fn has_keyword(kws: Seq<Seq<char>>, word: Seq<char>) -> bool {
    exists|i: int| 0 <= i < kws.len() && ascii_lower_seq(#[trigger] kws[i]) == word
}

/// The keywords give evasion.
pub open spec fn has_evasion(kws: Seq<Seq<char>>) -> bool {
    has_keyword(kws, "flying"@) || has_keyword(kws, "trample"@) || has_keyword(kws, "menace"@)
        || has_keyword(kws, "haste"@)
}

/// The card text implies role `r`.
pub open spec fn card_role(
    type_line: Seq<char>,
    text: Seq<char>,
    kws: Seq<Seq<char>>,
    power: Option<i32>,
    r: Role,
) -> bool {
    let front = front_type(type_line);
    let is_land = contains(front, "Land"@);
    let is_creature = contains(front, "Creature"@);
    match r {
        Role::Land => is_land,
        Role::Ramp => !is_land && (contains(text, "{T}: Add"@) || regex_matches(re_add_mana(), text)
            || regex_matches(re_treasure(), text) || regex_matches(re_cost_less(), text) || (contains(
            text,
            "Search your library for"@,
        ) && (contains(text, "land card"@) || contains(text, "basic land"@)))),
        Role::Counter => contains(text, "Counter target"@),
        Role::Wipe => regex_matches(re_wipe(), text) || regex_matches(re_wipe_shrink(), text)
            || regex_matches(re_wipe_damage(), text),
        Role::Removal => regex_matches(re_removal_target(), text) || regex_matches(re_damage(), text)
            || regex_matches(re_bounce(), text) || regex_matches(re_fight(), text) || regex_matches(
            re_shrink(),
            text,
        ) || regex_matches(re_edict(), text) || regex_matches(re_exile_target(), text)
            || regex_matches(re_power_damage(), text),
        Role::Draw => contains(text, "Draw a card"@) || regex_matches(re_draw(), text)
            || regex_matches(re_dig(), text) || regex_matches(re_impulse(), text) || regex_matches(
            re_investigate(),
            text,
        ) || regex_matches(re_loot(), text),
        Role::Protection => has_keyword(kws, "hexproof"@) || has_keyword(kws, "indestructible"@)
            || has_keyword(kws, "ward"@) || contains(text, "gains hexproof"@) || contains(
            text,
            "gains indestructible"@,
        ) || contains(text, "gains ward"@),
        Role::Threat => (is_creature && (power matches Some(p) && p >= 3)) || contains(
            front,
            "Planeswalker"@,
        ),
        Role::Finisher => is_creature && (power matches Some(p) && (p >= 5 || (p >= 4
            && has_evasion(kws)))),
        _ => false,
    }
}

/// Whether one of the lower-cased keywords equals `word`.
fn keyword_present(kw_lower: &Vec<Vec<char>>, word: &str) -> (b: bool)
    ensures
        b == exists|i: int| 0 <= i < kw_lower@.len() && (#[trigger] kw_lower@[i])@ == word@,
{
    let w = chars_of(word);
    let mut i: usize = 0;
    while i < kw_lower.len()
        invariant
            i <= kw_lower@.len(),
            w@ == word@,
            forall|j: int| 0 <= j < i ==> (#[trigger] kw_lower@[j])@ != word@,
        decreases kw_lower@.len() - i,
    {
        if chars_eq(kw_lower[i].as_slice(), w.as_slice()) {
            return true;
        }
        i += 1;
    }
    false
}

/// Fallback roles from type line, rules text, keywords and power, in
/// canonical order.
pub fn roles_from_card(
    type_line: &str,
    oracle_text: &str,
    keywords: &[String],
    power: Option<i32>,
) -> (out: Vec<Role>)
    ensures
        out@ == all_roles().filter(
            |r: Role| card_role(type_line@, oracle_text@, str_views(keywords@), power, r),
        ),
        contains(front_type(type_line@), "Planeswalker"@) ==> out@.contains(Role::Threat),
{
    proof {
        lemma_planeswalker_is_threat(
            type_line@,
            oracle_text@,
            str_views(keywords@),
            power,
            Seq::empty(),
            Seq::empty(),
        );
    }
    let tl = chars_of(type_line);
    let slashes = chars_of("//");
    let before = split_first_chars(tl.as_slice(), slashes.as_slice());
    let front_v = trim_chars(before.as_slice());
    let front = string_of(front_v.as_slice());
    let text = oracle_text;
    let is_land = str_contains(front.as_str(), "Land");
    let is_creature = str_contains(front.as_str(), "Creature");

    let mut kw_lower: Vec<Vec<char>> = Vec::new();
    let mut k: usize = 0;
    while k < keywords.len()
        invariant
            k <= keywords@.len(),
            kw_lower@.len() == k,
            forall|j: int| 0 <= j < k ==> (#[trigger] kw_lower@[j])@ == ascii_lower_seq(keywords@[j]@),
        decreases keywords@.len() - k,
    {
        let kc = chars_of(keywords[k].as_str());
        kw_lower.push(ascii_lower_chars(kc.as_slice()));
        k += 1;
    }
    let ghost kws = str_views(keywords@);
    assert forall|word: Seq<char>|
        (exists|i: int| 0 <= i < kw_lower@.len() && (#[trigger] kw_lower@[i])@ == word)
            == has_keyword(kws, word) by {
        if has_keyword(kws, word) {
            let i = choose|i: int| 0 <= i < kws.len() && ascii_lower_seq(#[trigger] kws[i]) == word;
            assert(kws[i] == keywords@[i]@);
            assert(kw_lower@[i]@ == word);
        }
        if exists|i: int| 0 <= i < kw_lower@.len() && (#[trigger] kw_lower@[i])@ == word {
            let i = choose|i: int| 0 <= i < kw_lower@.len() && (#[trigger] kw_lower@[i])@ == word;
            assert(kws[i] == keywords@[i]@);
            assert(ascii_lower_seq(kws[i]) == word);
        }
    }

    let mut roles: Vec<Role> = Vec::new();
    let land = is_land;
    let ramp = !is_land && (str_contains(text, "{T}: Add") || regex_is_match(
        ": Add (\\{[WUBRGC0-9]\\}|one mana|two mana|three mana|an amount of mana)",
        text,
    ) || regex_is_match("[Cc]reate (a|an|two|three|four|X|that many) [^.]*Treasure", text)
        || regex_is_match("cost \\{\\d\\} less to cast", text) || (str_contains(
        text,
        "Search your library for",
    ) && (str_contains(text, "land card") || str_contains(text, "basic land"))));
    let counter = str_contains(text, "Counter target");
    let wipe = regex_is_match("(Destroy|Exile) all ", text) || regex_is_match(
        "([Ee]ach creature|[Aa]ll creatures|[Aa]ll other creatures) gets? -\\d+/-\\d+",
        text,
    ) || regex_is_match("deals \\d+ damage to each (creature|opponent and each creature)", text);
    let removal = regex_is_match("(Destroy|Exile) target ", text) || regex_is_match(
        "deals \\d+ damage to (any target|target creature)",
        text,
    ) || regex_is_match(
        "[Rr]eturn (target|up to \\w+ target|another target) (creature|permanent|nonland permanent|artifact|enchantment|planeswalker)[^.]* to (its|their) owner",
        text,
    ) || regex_is_match("fights? (target|another target|up to)", text) || regex_is_match(
        "[Tt]arget creature (an opponent controls )?gets -\\d+/-\\d+",
        text,
    ) || regex_is_match(
        "[Ee]ach (opponent|player) sacrifices (a|an|two|three) (creature|permanent|nonland permanent)",
        text,
    ) || regex_is_match(
        "[Ee]xile target (creature|permanent|nonland permanent|artifact|enchantment|planeswalker|artifact or enchantment)",
        text,
    ) || regex_is_match(
        "deals damage equal to its power to (any target|target creature|target)",
        text,
    );
    let draw = str_contains(text, "Draw a card") || regex_is_match("(?i)draw .* card", text)
        || regex_is_match(
        "[Ll]ook at the top [^.]*\\. Put (one|two|three|up to \\w+) of them into your hand",
        text,
    ) || regex_is_match(
        "[Ee]xile the top (card|two cards|three cards|\\w+ cards) of your library[^.]*\\. (Until|You may)",
        text,
    ) || regex_is_match("[Ii]nvestigate", text) || regex_is_match(
        "[Dd]iscard [^.]*\\. (If you do, )?[Dd]raw",
        text,
    );
    let protection = keyword_present(&kw_lower, "hexproof") || keyword_present(
        &kw_lower,
        "indestructible",
    ) || keyword_present(&kw_lower, "ward") || str_contains(text, "gains hexproof")
        || str_contains(text, "gains indestructible") || str_contains(text, "gains ward");
    let evasion = keyword_present(&kw_lower, "flying") || keyword_present(&kw_lower, "trample")
        || keyword_present(&kw_lower, "menace") || keyword_present(&kw_lower, "haste");
    let (threat_creature, finisher) = match power {
        Some(p) => (is_creature && p >= 3, is_creature && (p >= 5 || (p >= 4 && evasion))),
        None => (false, false),
    };
    let threat = threat_creature || str_contains(front.as_str(), "Planeswalker");
    push_if(&mut roles, land, Role::Land);
    push_if(&mut roles, ramp, Role::Ramp);
    push_if(&mut roles, counter, Role::Counter);
    push_if(&mut roles, wipe, Role::Wipe);
    push_if(&mut roles, removal, Role::Removal);
    push_if(&mut roles, draw, Role::Draw);
    push_if(&mut roles, protection, Role::Protection);
    push_if(&mut roles, threat, Role::Threat);
    push_if(&mut roles, finisher, Role::Finisher);
    let out = sort_by_all(roles);
    proof {
        assert(front@ == front_type(type_line@));
        assert forall|r: Role| #[trigger]
            roles@.contains(r) == card_role(type_line@, oracle_text@, kws, power, r) by {}
        lemma_filter_same(
            |x: Role| roles@.contains(x),
            |r: Role| card_role(type_line@, oracle_text@, str_views(keywords@), power, r),
        );
    }
    out
}

/// Union of the tag-derived and the text-derived roles, in canonical order,
/// each role once.
pub fn classify(
    index: &TagIndex,
    tag_ids: &[String],
    type_line: &str,
    oracle_text: &str,
    keywords: &[String],
    power: Option<i32>,
) -> (out: Vec<Role>)
    ensures
        out@ == all_roles().filter(
            |r: Role|
                tags_imply(index@, str_views(tag_ids@), r) || card_role(
                    type_line@,
                    oracle_text@,
                    str_views(keywords@),
                    power,
                    r,
                ),
        ),
        roles_ascending(out@),
        out@.no_duplicates(),
        contains(front_type(type_line@), "Planeswalker"@) ==> out@.contains(Role::Threat),
{
    let mut combined = roles_from_tags(index, tag_ids);
    let from_card = roles_from_card(type_line, oracle_text, keywords, power);
    let ghost tag_roles = combined@;
    let mut i: usize = 0;
    while i < from_card.len()
        invariant
            i <= from_card@.len(),
            forall|r: Role| #[trigger]
                combined@.contains(r) <==> (tag_roles.contains(r) || from_card@.take(
                    i as int,
                ).contains(r)),
        decreases from_card@.len() - i,
    {
        let r = from_card[i];
        let ghost before = combined@;
        push_unique(&mut combined, r);
        proof {
            let prev = from_card@.take(i as int);
            let next = from_card@.take(i + 1);
            assert(next =~= prev.push(r));
            assert forall|x: Role| #[trigger]
                combined@.contains(x) <==> (tag_roles.contains(x) || next.contains(x)) by {
                if !before.contains(r) {
                    assert(combined@ == before.push(r));
                    if before.contains(x) {
                        let k = choose|k: int| 0 <= k < before.len() && before[k] == x;
                        assert(combined@[k] == x);
                    }
                    if combined@.contains(x) && x != r {
                        let k = choose|k: int| 0 <= k < combined@.len() && combined@[k] == x;
                        assert(k < before.len());
                        assert(before[k] == x);
                    }
                    assert(combined@[before.len() as int] == r);
                }
                if prev.contains(x) {
                    let k = choose|k: int| 0 <= k < prev.len() && prev[k] == x;
                    assert(next[k] == x);
                }
                if next.contains(x) && x != r {
                    let k = choose|k: int| 0 <= k < next.len() && next[k] == x;
                    assert(k < prev.len());
                    assert(prev[k] == x);
                }
                assert(next[prev.len() as int] == r);
            }
        }
        i += 1;
    }
    let out = sort_by_all(combined);
    proof {
        assert(from_card@.take(from_card@.len() as int) =~= from_card@);
        let tp = |r: Role| tags_imply(index@, str_views(tag_ids@), r);
        let cp = |r: Role| card_role(type_line@, oracle_text@, str_views(keywords@), power, r);
        assert forall|r: Role| #[trigger] combined@.contains(r) == (tp(r) || cp(r)) by {
            reveal(Seq::filter);
            all_roles().filter_lemma(tp);
            all_roles().filter_lemma(cp);
            assert(all_roles()[super::types::role_index(r)] == r);
            if tp(r) {
                assert(tag_roles.contains(r));
            }
            if cp(r) {
                assert(from_card@.contains(r));
            }
            if tag_roles.contains(r) {
                let k = choose|k: int| 0 <= k < tag_roles.len() && tag_roles[k] == r;
                assert(tp(tag_roles[k]));
            }
            if from_card@.contains(r) {
                let k = choose|k: int| 0 <= k < from_card@.len() && from_card@[k] == r;
                assert(cp(from_card@[k]));
            }
        }
        lemma_filter_same(
            |x: Role| combined@.contains(x),
            |r: Role|
                tags_imply(index@, str_views(tag_ids@), r) || card_role(
                    type_line@,
                    oracle_text@,
                    str_views(keywords@),
                    power,
                    r,
                ),
        );
        lemma_classify_canonical(
            index@,
            str_views(tag_ids@),
            type_line@,
            oracle_text@,
            str_views(keywords@),
            power,
        );
        lemma_planeswalker_is_threat(
            type_line@,
            oracle_text@,
            str_views(keywords@),
            power,
            index@,
            str_views(tag_ids@),
        );
    }
    out
}

// ---------------------------------------------------------------------------
// Theme tags
// ---------------------------------------------------------------------------

/// Roots of the tag hierarchy whose tags describe card mechanics or
/// trivia rather than a deck theme.
pub open spec fn meta_roots() -> Seq<Seq<char>> {
    seq![
        "card-names"@,
        "flavors-of-vanilla"@,
        "activated-ability"@,
        "triggered-ability"@,
        "unique-type-line"@,
        "cheaper-than-mv"@,
        "more-expensive-than-mv"@,
        "drawback"@,
        "multiple-targets"@,
        "single-target-instant-sorcery"@,
        "staple-with-set-s-mechanic"@,
        "cycle"@,
        "token-errata"@,
        "token-versions-of-cards"@,
        "evasion"@,
    ]
}

/// Whether `slug` is one of the meta roots.
pub fn is_meta_root(slug: &str) -> (b: bool)
    ensures
        b == meta_roots().contains(slug@),
{
    let roots: [&str; 15] = [
        "card-names",
        "flavors-of-vanilla",
        "activated-ability",
        "triggered-ability",
        "unique-type-line",
        "cheaper-than-mv",
        "more-expensive-than-mv",
        "drawback",
        "multiple-targets",
        "single-target-instant-sorcery",
        "staple-with-set-s-mechanic",
        "cycle",
        "token-errata",
        "token-versions-of-cards",
        "evasion",
    ];
    let ghost views = roots@.map_values(|x: &str| x@);
    assert(views =~= meta_roots());
    let mut i: usize = 0;
    while i < 15
        invariant
            i <= 15,
            views == roots@.map_values(|x: &str| x@),
            views == meta_roots(),
            forall|j: int| 0 <= j < i ==> views[j] != slug@,
        decreases 15 - i,
    {
        if str_eq(roots[i], slug) {
            assert(views[i as int] == slug@);
            return true;
        }
        i += 1;
    }
    false
}

/// Theme slugs of a card's tags: the tag's own slug for every tag whose
/// root is not a meta root, each once, in order of first appearance.
pub open spec fn theme_list(e: Seq<TagEntry>, ids: Seq<Seq<char>>) -> Seq<Seq<char>>
    decreases ids.len(),
{
    if ids.len() == 0 {
        seq![]
    } else {
        let prev = theme_list(e, ids.drop_last());
        let anc = ancestry_spec(e, ids.last());
        if anc.len() == 0 || meta_roots().contains(anc.last()) || prev.contains(anc[0]) {
            prev
        } else {
            prev.push(anc[0])
        }
    }
}

/// Theme tags for synergy: slugs whose root is not a meta root.
pub fn theme_slugs(index: &TagIndex, tag_ids: &[String]) -> (out: Vec<String>)
    ensures
        str_views(out@) == theme_list(index@, str_views(tag_ids@)),
{
    let ghost ids = str_views(tag_ids@);
    let mut out: Vec<String> = Vec::new();
    let mut i: usize = 0;
    assert(str_views(out@) =~= theme_list(index@, ids.take(0)));
    while i < tag_ids.len()
        invariant
            i <= tag_ids@.len(),
            ids == str_views(tag_ids@),
            str_views(out@) == theme_list(index@, ids.take(i as int)),
        decreases tag_ids@.len() - i,
    {
        let anc = index.ancestry(tag_ids[i].as_str());
        proof {
            assert(ids.take(i + 1).drop_last() =~= ids.take(i as int));
            assert(ids.take(i + 1).last() == ids[i as int]);
        }
        if anc.len() > 0 {
            let root = &anc[anc.len() - 1];
            if !is_meta_root(root.as_str()) {
                let slug = &anc[0];
                if !vec_contains_str(&out, slug.as_str()) {
                    let ghost before = str_views(out@);
                    out.push(slug.clone());
                    assert(str_views(out@) =~= before.push(slug@));
                }
            }
        }
        i += 1;
    }
    assert(ids.take(tag_ids@.len() as int) =~= ids);
    out
}


/// Roles in strictly increasing canonical position, so none twice.
pub open spec fn roles_ascending(s: Seq<Role>) -> bool {
    forall|i: int, j: int|
        0 <= i < j < s.len() ==> role_index(#[trigger] s[i]) < role_index(#[trigger] s[j])
}

proof fn lemma_all_roles_ascending()
    ensures
        roles_ascending(all_roles()),
{
    assert forall|i: int, j: int| 0 <= i < j < all_roles().len() implies role_index(
        #[trigger] all_roles()[i],
    ) < role_index(#[trigger] all_roles()[j]) by {
        assert(all_roles()[i] == role_at(i));
        assert(all_roles()[j] == role_at(j));
    }
}

proof fn lemma_filter_ascending(s: Seq<Role>, p: spec_fn(Role) -> bool)
    requires
        roles_ascending(s),
    ensures
        roles_ascending(s.filter(p)),
        forall|i: int| 0 <= i < s.filter(p).len() ==> s.contains(#[trigger] s.filter(p)[i]),
    decreases s.len(),
{
    reveal(Seq::filter);
    if s.len() > 0 {
        let d = s.drop_last();
        assert(roles_ascending(d)) by {
            assert forall|i: int, j: int| 0 <= i < j < d.len() implies role_index(
                #[trigger] d[i],
            ) < role_index(#[trigger] d[j]) by {
                assert(d[i] == s[i] && d[j] == s[j]);
            }
        }
        lemma_filter_ascending(d, p);
        let f = d.filter(p);
        assert forall|i: int| 0 <= i < f.len() implies s.contains(#[trigger] f[i]) by {
            let k = choose|k: int| 0 <= k < d.len() && d[k] == f[i];
            assert(s[k] == d[k]);
        }
        if p(s.last()) {
            let g = f.push(s.last());
            assert(s.filter(p) == g);
            assert forall|i: int, j: int| 0 <= i < j < g.len() implies role_index(
                #[trigger] g[i],
            ) < role_index(#[trigger] g[j]) by {
                if j < f.len() {
                    assert(g[i] == f[i] && g[j] == f[j]);
                } else {
                    assert(g[i] == f[i]);
                    assert(d.contains(f[i]));
                    let k = choose|k: int| 0 <= k < d.len() && d[k] == f[i];
                    assert(s[k] == d[k]);
                    assert(g[j] == s[s.len() - 1]);
                }
            }
            assert forall|i: int| 0 <= i < g.len() implies s.contains(#[trigger] g[i]) by {
                if i < f.len() {
                    assert(g[i] == f[i]);
                } else {
                    assert(g[i] == s[s.len() - 1]);
                }
            }
        } else {
            assert(s.filter(p) == f);
        }
    }
}

proof fn lemma_ascending_no_duplicates(s: Seq<Role>)
    requires
        roles_ascending(s),
    ensures
        s.no_duplicates(),
{
    assert forall|i: int, j: int| 0 <= i < s.len() && 0 <= j < s.len() && i != j implies s[i]
        != s[j] by {
        if i < j {
            assert(role_index(s[i]) < role_index(s[j]));
        } else {
            assert(role_index(s[j]) < role_index(s[i]));
        }
    }
}

/// What `classify` returns is the union of the tag-derived and the
/// text-derived roles, each role once, in canonical order whichever source
/// gave it.
pub proof fn lemma_classify_canonical(
    index: Seq<TagEntry>,
    tag_ids: Seq<Seq<char>>,
    type_line: Seq<char>,
    oracle_text: Seq<char>,
    keywords: Seq<Seq<char>>,
    power: Option<i32>,
)
    ensures
        ({
            let v = all_roles().filter(
                |r: Role|
                    tags_imply(index, tag_ids, r) || card_role(
                        type_line,
                        oracle_text,
                        keywords,
                        power,
                        r,
                    ),
            );
            &&& roles_ascending(v)
            &&& v.no_duplicates()
            &&& forall|r: Role|
                #[trigger] v.contains(r) <==> (tags_imply(index, tag_ids, r) || card_role(
                    type_line,
                    oracle_text,
                    keywords,
                    power,
                    r,
                ))
        }),
{
    let p = |r: Role|
        tags_imply(index, tag_ids, r) || card_role(type_line, oracle_text, keywords, power, r);
    let v = all_roles().filter(p);
    lemma_all_roles_ascending();
    lemma_filter_ascending(all_roles(), p);
    lemma_ascending_no_duplicates(v);
    all_roles().filter_lemma(p);
    assert forall|r: Role| #[trigger] v.contains(r) <==> p(r) by {
        if p(r) {
            let i = role_index(r);
            assert(all_roles()[i] == role_at(i));
            assert(role_at(role_index(r)) == r);
            all_roles().lemma_filter_contains_rev(p, r);
        }
    }
}

/// A card whose front type line names a planeswalker is a threat, whatever
/// its power, text, keywords and tags: its fallback roles contain `Threat`,
/// and so do its roles after the tag-derived ones are added.
pub proof fn lemma_planeswalker_is_threat(
    type_line: Seq<char>,
    text: Seq<char>,
    kws: Seq<Seq<char>>,
    power: Option<i32>,
    index: Seq<TagEntry>,
    tag_ids: Seq<Seq<char>>,
)
    ensures
        contains(front_type(type_line), "Planeswalker"@) ==> {
            &&& all_roles().filter(|r: Role| card_role(type_line, text, kws, power, r)).contains(
                Role::Threat,
            )
            &&& all_roles().filter(
                |r: Role|
                    tags_imply(index, tag_ids, r) || card_role(type_line, text, kws, power, r),
            ).contains(Role::Threat)
        },
{
    if contains(front_type(type_line), "Planeswalker"@) {
        let p = |r: Role| card_role(type_line, text, kws, power, r);
        assert(all_roles()[9] == Role::Threat);
        assert(p(Role::Threat));
        all_roles().lemma_filter_contains(p, 9);
        let q = |r: Role| tags_imply(index, tag_ids, r) || card_role(type_line, text, kws, power, r);
        assert(q(Role::Threat));
        all_roles().lemma_filter_contains(q, 9);
    }
}


/// What the fallback roles of a card say about it, whatever else it holds:
/// it is a land exactly when its front type line says so, and a land is
/// never ramp; "Counter target" in its text makes it a counterspell and
/// "Draw a card" a draw spell; a creature with power 3 or more is a threat,
/// one with power 5 or more also a finisher; every finisher is a threat;
/// and a card that is neither a creature nor a planeswalker is neither.
pub proof fn lemma_card_roles(
    type_line: Seq<char>,
    text: Seq<char>,
    kws: Seq<Seq<char>>,
    power: Option<i32>,
)
    ensures
        ({
            let front = front_type(type_line);
            let holds = |r: Role| card_role(type_line, text, kws, power, r);
            &&& holds(Role::Land) <==> contains(front, "Land"@)
            &&& holds(Role::Land) ==> !holds(Role::Ramp)
            &&& contains(text, "Counter target"@) ==> holds(Role::Counter)
            &&& contains(text, "Draw a card"@) ==> holds(Role::Draw)
            &&& (contains(front, "Creature"@) && (power matches Some(p) && p >= 3)) ==> holds(Role::Threat)
            &&& (contains(front, "Creature"@) && (power matches Some(p) && p >= 5)) ==> holds(
                Role::Finisher,
            )
            &&& holds(Role::Finisher) ==> holds(Role::Threat)
            &&& (!contains(front, "Creature"@) && !contains(front, "Planeswalker"@)) ==> !holds(
                Role::Threat,
            ) && !holds(Role::Finisher)
        }),
{
}
} // verus!
