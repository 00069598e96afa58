//! Commander candidates: which cards may be offered as commanders for a
//! request, and how many cards of each role every colour identity can draw
//! on (the basis of a commander's buildability).

use vstd::prelude::*;

use super::types::{
    all_roles, is_subset, mask_from_str, mask_of_chars, role_at, role_index, role_position, subset_spec, Format,
    OracleCard, Playstyle, Role,
};
use crate::text::{
    chars_of, contains, contains_chars, str_views, string_of, to_lower, trim, trim_chars,
    unicode_lower,
};

verus! {

/// What the commander list is asked for.
#[derive(Debug, Clone)]
pub struct CandidateRequest {
    pub format: Format,
    pub owned_only: bool,
    pub color_subset: Option<String>,
    pub theme_tags: Vec<String>,
    pub search: Option<String>,
    pub playstyle: Playstyle,
}

/// Whether a card is available to a deck of the request: on Arena, legal
/// in the format, and owned where only owned cards count.
pub open spec fn available(card: OracleCard, format: Format, owned_only: bool) -> bool {
    card.printings@.len() > 0 && card.legal_spec(format) && (!owned_only || card.owned_spec())
}

/// Whether card `card` adds to the count of role `r` for identity `mask`.
pub open spec fn counts_toward(
    card: OracleCard,
    format: Format,
    owned_only: bool,
    mask: int,
    r: Role,
) -> bool {
    available(card, format, owned_only) && card.roles@.contains(r) && subset_spec(
        card.color_identity,
        mask as u8,
    )
}

/// How many of the first `n` cards count toward role `r` for identity
/// `mask`.
pub open spec fn avail_count(
    oracles: Seq<OracleCard>,
    format: Format,
    owned_only: bool,
    mask: int,
    r: Role,
    n: int,
) -> nat
    decreases n,
{
    if n <= 0 {
        0
    } else {
        avail_count(oracles, format, owned_only, mask, r, n - 1) + if counts_toward(
            oracles[n - 1],
            format,
            owned_only,
            mask,
            r,
        ) {
            1nat
        } else {
            0nat
        }
    }
}

/// For each of the 32 colour identities and each role, how many available
/// cards of that role fit the identity; `counts[mask * 13 + i]` is the
/// count for the role at position `i` of `Role::ALL`.
#[derive(Debug, Clone)]
pub struct RoleAvailability {
    pub counts: Vec<u32>,
}

impl RoleAvailability {
    /// The count for identity `mask` and role `r`.
    pub fn get(&self, mask: u8, r: Role) -> (n: u32)
        requires
            self.counts@.len() == 416,
            mask < 32,
        ensures
            n == self.counts@[mask * 13 + role_index(r)],
    {
        let i: usize = (mask as usize) * 13 + role_position(r);
        self.counts[i]
    }
}

/// Counts, for every colour identity and role, the available cards of that
/// role within the identity.
pub fn role_availability(oracles: &[OracleCard], format: Format, owned_only: bool) -> (a:
    RoleAvailability)
    requires
        oracles@.len() <= u32::MAX,
    ensures
        a.counts@.len() == 416,
        forall|m: int, i: int|
            0 <= m < 32 && 0 <= i < 13 ==> #[trigger] a.counts@[m * 13 + i] == avail_count(
                oracles@,
                format,
                owned_only,
                m,
                role_at(i),
                oracles@.len() as int,
            ),
{
    let mut counts: Vec<u32> = Vec::new();
    let mut z: usize = 0;
    while z < 416
        invariant
            z <= 416,
            counts@.len() == z,
            forall|j: int| 0 <= j < z ==> counts@[j] == 0,
        decreases 416 - z,
    {
        counts.push(0);
        z += 1;
    }
    let mut k: usize = 0;
    while k < oracles.len()
        invariant
            k <= oracles@.len(),
            oracles@.len() <= u32::MAX,
            counts@.len() == 416,
            forall|m: int, i: int|
                0 <= m < 32 && 0 <= i < 13 ==> #[trigger] counts@[m * 13 + i] == avail_count(
                    oracles@,
                    format,
                    owned_only,
                    m,
                    role_at(i),
                    k as int,
                ),
            forall|m: int, i: int|
                0 <= m < 32 && 0 <= i < 13 ==> avail_count(
                    oracles@,
                    format,
                    owned_only,
                    m,
                    role_at(i),
                    k as int,
                ) <= k,
        decreases oracles@.len() - k,
    {
        let card = &oracles[k];
        let avail = card.printings.len() > 0 && card.legal_in(format) && (!owned_only
            || card.is_owned());
        let ghost before = counts@;
        let mut idx: usize = 0;
        while idx < 416
            invariant
                idx <= 416,
                counts@.len() == 416,
                before.len() == 416,
                k < oracles@.len(),
                oracles@.len() <= u32::MAX,
                card == &oracles@[k as int],
                avail == available(*card, format, owned_only),
                forall|m: int, i: int|
                    0 <= m < 32 && 0 <= i < 13 ==> #[trigger] before[m * 13 + i] == avail_count(
                        oracles@,
                        format,
                        owned_only,
                        m,
                        role_at(i),
                        k as int,
                    ),
                forall|m: int, i: int|
                    0 <= m < 32 && 0 <= i < 13 ==> avail_count(
                        oracles@,
                        format,
                        owned_only,
                        m,
                        role_at(i),
                        k as int,
                    ) <= k,
                forall|j: int|
                    0 <= j < idx ==> #[trigger] counts@[j] == before[j] + if counts_toward(
                        *card,
                        format,
                        owned_only,
                        j / 13,
                        role_at(j % 13),
                    ) {
                        1int
                    } else {
                        0int
                    },
                forall|j: int| idx <= j < 416 ==> #[trigger] counts@[j] == before[j],
            decreases 416 - idx,
        {
            let m: u8 = (idx / 13) as u8;
            let i: usize = idx % 13;
            let r = Role::ALL[i];
            proof {
                assert(r == role_at(i as int));
                assert(before[idx as int] == before[(idx / 13) * 13 + (idx % 13) as int]);
            }
            if avail && card.has_role(r) && is_subset(card.color_identity, m) {
                let v = counts[idx];
                counts.set(idx, v + 1);
            }
            idx += 1;
        }
        proof {
            assert forall|m: int, i: int|
                0 <= m < 32 && 0 <= i < 13 implies #[trigger] counts@[m * 13 + i] == avail_count(
                oracles@,
                format,
                owned_only,
                m,
                role_at(i),
                k + 1,
            ) by {
                let j = m * 13 + i;
                assert(j / 13 == m && j % 13 == i);
                assert(before[j] == avail_count(oracles@, format, owned_only, m, role_at(i), k as int));
            }
            assert forall|m: int, i: int|
                0 <= m < 32 && 0 <= i < 13 implies #[trigger] avail_count(
                oracles@,
                format,
                owned_only,
                m,
                role_at(i),
                k + 1,
            ) <= k + 1 by {
                assert(avail_count(oracles@, format, owned_only, m, role_at(i), k as int) <= k);
            }
        }
        k += 1;
    }
    RoleAvailability { counts }
}

/// The search text of a request, trimmed and lower-cased, if non-empty.
pub open spec fn search_text(search: Option<String>) -> Option<Seq<char>> {
    match search {
        Some(s) => if unicode_lower(trim(s@)).len() > 0 {
            Some(unicode_lower(trim(s@)))
        } else {
            None
        },
        None => None,
    }
}

/// Whether a card is offered as a commander for the request: eligible,
/// available, within the colour subset if one is given, and with a name
/// containing the search text if one is given.
pub open spec fn offered_commander(card: OracleCard, req: CandidateRequest) -> bool {
    &&& card.is_commander_eligible
    &&& available(card, req.format, req.owned_only)
    &&& match req.color_subset {
        Some(s) => subset_spec(card.color_identity, mask_of_chars(s@)),
        None => true,
    }
    &&& match search_text(req.search) {
        Some(q) => contains(card.name_lower@, q),
        None => true,
    }
}

/// The cards offered as commanders for a request, by index, in order.
pub fn commander_candidates(oracles: &[OracleCard], req: &CandidateRequest) -> (out: Vec<usize>)
    ensures
        forall|j: int| 0 <= j < out@.len() ==> #[trigger] out@[j] < oracles@.len(),
        forall|j: int, l: int| 0 <= j < l < out@.len() ==> out@[j] < out@[l],
        forall|i: int|
            0 <= i < oracles@.len() ==> (out@.contains(i as usize) <==> offered_commander(
                #[trigger] oracles@[i],
                *req,
            )),
{
    let subset_mask: Option<u8> = match &req.color_subset {
        Some(s) => Some(mask_from_str(s.as_str())),
        None => None,
    };
    let search: Option<Vec<char>> = match &req.search {
        Some(s) => {
            let cs = chars_of(s.as_str());
            let t = trim_chars(cs.as_slice());
            let ts = string_of(t.as_slice());
            let l = to_lower(ts.as_str());
            let lc = chars_of(l.as_str());
            if lc.len() > 0 {
                Some(lc)
            } else {
                None
            }
        },
        None => None,
    };
    let mut out: Vec<usize> = Vec::new();
    let mut k: usize = 0;
    while k < oracles.len()
        invariant
            k <= oracles@.len(),
            forall|j: int| 0 <= j < out@.len() ==> #[trigger] out@[j] < k,
            forall|j: int, l: int| 0 <= j < l < out@.len() ==> out@[j] < out@[l],
            forall|i: int|
                0 <= i < k ==> (out@.contains(i as usize) <==> offered_commander(
                    #[trigger] oracles@[i],
                    *req,
                )),
            match req.color_subset {
                Some(s) => subset_mask == Some(mask_of_chars(s@)),
                None => subset_mask is None,
            },
            match search_text(req.search) {
                Some(q) => search matches Some(v) && v@ == q,
                None => search is None,
            },
        decreases oracles@.len() - k,
    {
        let card = &oracles[k];
        let mut keep = card.is_commander_eligible && card.printings.len() > 0 && card.legal_in(
            req.format,
        ) && (!req.owned_only || card.is_owned());
        match subset_mask {
            Some(m) => {
                if !is_subset(card.color_identity, m) {
                    keep = false;
                }
            },
            None => {},
        }
        match &search {
            Some(q) => {
                let name = chars_of(card.name_lower.as_str());
                if !contains_chars(name.as_slice(), q.as_slice()) {
                    keep = false;
                }
            },
            None => {},
        }
        let ghost before = out@;
        if keep {
            out.push(k);
        }
        proof {
            assert forall|i: int|
                0 <= i < k + 1 implies (out@.contains(i as usize) <==> offered_commander(
                #[trigger] oracles@[i],
                *req,
            )) by {
                if i < k {
                    if out@.contains(i as usize) {
                        let j = choose|j: int| 0 <= j < out@.len() && out@[j] == i as usize;
                        if j < before.len() {
                            assert(before[j] == i as usize);
                        }
                    }
                    if before.contains(i as usize) {
                        let j = choose|j: int| 0 <= j < before.len() && before[j] == i as usize;
                        assert(out@[j] == i as usize);
                    }
                } else {
                    if keep {
                        assert(out@[before.len() as int] == k);
                    } else {
                        if out@.contains(i as usize) {
                            let j = choose|j: int| 0 <= j < out@.len() && out@[j] == i as usize;
                            assert(out@[j] < k);
                        }
                    }
                }
            }
        }
        k += 1;
    }
    out
}

/// How many of a card's tags the request asks for (each tag of the card
/// counted once per occurrence).
pub open spec fn theme_hits_spec(tags: Seq<String>, wanted: Seq<String>, n: int) -> nat
    decreases n,
{
    if n <= 0 {
        0
    } else {
        theme_hits_spec(tags, wanted, n - 1) + if str_views(wanted).contains(tags[n - 1]@) {
            1nat
        } else {
            0nat
        }
    }
}

/// How many of `tags` are among the request's theme tags.
pub fn theme_hits(tags: &Vec<String>, wanted: &Vec<String>) -> (n: usize)
    ensures
        n == theme_hits_spec(tags@, wanted@, tags@.len() as int),
{
    let mut n: usize = 0;
    let mut i: usize = 0;
    while i < tags.len()
        invariant
            i <= tags@.len(),
            n == theme_hits_spec(tags@, wanted@, i as int),
            n <= i,
        decreases tags@.len() - i,
    {
        if crate::text::vec_contains_str(wanted, tags[i].as_str()) {
            n = n + 1;
        }
        i += 1;
    }
    n
}

} // verus!
