//! Almost-complete combos: the known combos of which every piece but one is
//! already owned or guaranteed in the deck. The missing piece of each is
//! recorded once per build, so that scoring can value it from the first
//! pass on.

use vstd::prelude::*;

use super::types::{is_subset, subset_spec, Format, OracleCard};
use super::{find_name, last_name_index};
use crate::text::{owned, str_eq, str_views};

verus! {

/// A combo piece that the deck lacks: its lower-cased name, the pieces of
/// its combo that are owned or guaranteed in the deck, and the combo's
/// size.
#[derive(Debug, Clone)]
pub struct ComboCompletionCount {
    pub name: String,
    pub have: usize,
    pub size: usize,
}

/// The combos as character sequences.
pub open spec fn combo_views(combos: Seq<Vec<String>>) -> Seq<Seq<Seq<char>>> {
    combos.map_values(|c: Vec<String>| str_views(c@))
}

/// The card a piece name stands for (the last card of that lower-cased
/// name), or -1.
pub open spec fn piece_index(oracles: Seq<OracleCard>, name: Seq<char>) -> int {
    last_name_index(oracles, name, oracles.len() as int)
}

/// A piece can be in the deck: its card exists, lies within the identity
/// and is legal in the format.
pub open spec fn piece_ok(
    oracles: Seq<OracleCard>,
    identity: u8,
    format: Format,
    name: Seq<char>,
) -> bool {
    let k = piece_index(oracles, name);
    &&& k >= 0
    &&& subset_spec(oracles[k].color_identity, identity)
    &&& oracles[k].legal_spec(format)
}

/// A piece is had: its card is owned or guaranteed in the deck (the
/// commander and the must-include cards, `anchored`).
pub open spec fn piece_have(oracles: Seq<OracleCard>, anchored: Seq<usize>, name: Seq<char>) -> bool {
    let k = piece_index(oracles, name);
    k >= 0 && (oracles[k].owned_spec() || anchored.contains(k as usize))
}

/// How many of the first `n` pieces of `combo` are not had.
pub open spec fn missing_count(
    oracles: Seq<OracleCard>,
    anchored: Seq<usize>,
    combo: Seq<Seq<char>>,
    n: int,
) -> nat
    decreases n,
{
    if n <= 0 {
        0
    } else if piece_have(oracles, anchored, combo[n - 1]) {
        missing_count(oracles, anchored, combo, n - 1)
    } else {
        missing_count(oracles, anchored, combo, n - 1) + 1
    }
}

/// The position of the last of the first `n` pieces that is not had, or
/// -1.
pub open spec fn missing_at(
    oracles: Seq<OracleCard>,
    anchored: Seq<usize>,
    combo: Seq<Seq<char>>,
    n: int,
) -> int
    decreases n,
{
    if n <= 0 {
        -1
    } else if piece_have(oracles, anchored, combo[n - 1]) {
        missing_at(oracles, anchored, combo, n - 1)
    } else {
        n - 1
    }
}

/// A combo is almost complete: every piece can be in the deck and exactly
/// one is not had.
pub open spec fn almost_complete(
    oracles: Seq<OracleCard>,
    identity: u8,
    format: Format,
    anchored: Seq<usize>,
    combo: Seq<Seq<char>>,
) -> bool {
    &&& forall|i: int| 0 <= i < combo.len() ==> piece_ok(oracles, identity, format, #[trigger] combo[i])
    &&& missing_count(oracles, anchored, combo, combo.len() as int) == 1
}

/// Whether some record of `recs` is for `name`.
pub open spec fn recorded(recs: Seq<(Seq<char>, nat, nat)>, name: Seq<char>) -> bool {
    exists|j: int| 0 <= j < recs.len() && (#[trigger] recs[j]).0 == name
}

/// The records of the first `n` combos: for each almost-complete combo, in
/// order, its missing piece with the pieces had and the combo size; a piece
/// already recorded by an earlier combo keeps that record.
pub open spec fn completions_spec(
    oracles: Seq<OracleCard>,
    identity: u8,
    format: Format,
    anchored: Seq<usize>,
    combos: Seq<Seq<Seq<char>>>,
    n: int,
) -> Seq<(Seq<char>, nat, nat)>
    decreases n,
{
    if n <= 0 {
        Seq::empty()
    } else {
        let prev = completions_spec(oracles, identity, format, anchored, combos, n - 1);
        let c = combos[n - 1];
        if almost_complete(oracles, identity, format, anchored, c) {
            let name = c[missing_at(oracles, anchored, c, c.len() as int)];
            if recorded(prev, name) {
                prev
            } else {
                prev.push((name, (c.len() - 1) as nat, c.len()))
            }
        } else {
            prev
        }
    }
}

/// The records as plain values.
pub open spec fn counts_view(v: Seq<ComboCompletionCount>) -> Seq<(Seq<char>, nat, nat)> {
    v.map_values(|r: ComboCompletionCount| (r.name@, r.have as nat, r.size as nat))
}

proof fn lemma_missing_bounds(
    oracles: Seq<OracleCard>,
    anchored: Seq<usize>,
    combo: Seq<Seq<char>>,
    n: int,
)
    requires
        0 <= n,
    ensures
        missing_count(oracles, anchored, combo, n) <= n,
        -1 <= missing_at(oracles, anchored, combo, n) < n,
        missing_count(oracles, anchored, combo, n) > 0 <==> missing_at(oracles, anchored, combo, n)
            >= 0,
    decreases n,
{
    if n > 0 {
        lemma_missing_bounds(oracles, anchored, combo, n - 1);
    }
}

fn contains_index(v: &[usize], k: usize) -> (b: bool)
    ensures
        b == v@.contains(k),
{
    let mut i: usize = 0;
    while i < v.len()
        invariant
            i <= v@.len(),
            forall|j: int| 0 <= j < i ==> v@[j] != k,
        decreases v@.len() - i,
    {
        if v[i] == k {
            assert(v@[i as int] == k);
            return true;
        }
        i += 1;
    }
    false
}

/// Whether a piece can be in the deck, and whether it is had.
fn piece_status(
    oracles: &[OracleCard],
    identity: u8,
    format: Format,
    anchored: &[usize],
    name: &str,
) -> (r: (bool, bool))
    ensures
        r.0 == piece_ok(oracles@, identity, format, name@),
        r.1 == piece_have(oracles@, anchored@, name@),
{
    match find_name(oracles, name) {
        None => (false, false),
        Some(k) => {
            let card = &oracles[k];
            let ok = is_subset(card.color_identity, identity) && card.legal_in(format);
            let have = card.is_owned() || contains_index(anchored, k);
            (ok, have)
        },
    }
}

/// The position of the missing piece of an almost-complete combo, or
/// `None` when the combo is not almost complete.
fn missing_piece(
    oracles: &[OracleCard],
    identity: u8,
    format: Format,
    anchored: &[usize],
    combo: &Vec<String>,
) -> (r: Option<usize>)
    ensures
        match r {
            Some(p) => almost_complete(oracles@, identity, format, anchored@, str_views(combo@))
                && p as int == missing_at(
                oracles@,
                anchored@,
                str_views(combo@),
                combo@.len() as int,
            ) && p < combo@.len(),
            None => !almost_complete(oracles@, identity, format, anchored@, str_views(combo@)),
        },
{
    let ghost c = str_views(combo@);
    let mut missing: usize = 0;
    let mut at: usize = 0;
    let mut i: usize = 0;
    while i < combo.len()
        invariant
            i <= combo@.len(),
            c == str_views(combo@),
            forall|j: int| 0 <= j < i ==> piece_ok(oracles@, identity, format, #[trigger] c[j]),
            missing as nat == missing_count(oracles@, anchored@, c, i as int),
            missing > 0 ==> at as int == missing_at(oracles@, anchored@, c, i as int),
            missing <= i,
        decreases combo@.len() - i,
    {
        let (ok, have) = piece_status(oracles, identity, format, anchored, combo[i].as_str());
        assert(c[i as int] == combo@[i as int]@);
        if !ok {
            return None;
        }
        if !have {
            missing = missing + 1;
            at = i;
        }
        i += 1;
    }
    proof {
        lemma_missing_bounds(oracles@, anchored@, c, c.len() as int);
    }
    if missing == 1 {
        Some(at)
    } else {
        None
    }
}

/// Whether some record of `out` is for `name`.
fn has_record(out: &Vec<ComboCompletionCount>, name: &str) -> (b: bool)
    ensures
        b == recorded(counts_view(out@), name@),
{
    let ghost v = counts_view(out@);
    let mut i: usize = 0;
    while i < out.len()
        invariant
            i <= out@.len(),
            v == counts_view(out@),
            forall|j: int| 0 <= j < i ==> (#[trigger] v[j]).0 != name@,
        decreases out@.len() - i,
    {
        if str_eq(out[i].name.as_str(), name) {
            assert(v[i as int].0 == name@);
            return true;
        }
        i += 1;
    }
    false
}

/// The almost-complete combos of a build: for each combo whose pieces can
/// all be in the deck and of which all but one are owned or guaranteed in
/// the deck (`anchored`), the missing piece, the pieces had and the combo
/// size, the first combo naming a piece winning (see `completions_spec`).
pub fn combo_completions(
    oracles: &[OracleCard],
    combos: &Vec<Vec<String>>,
    identity: u8,
    format: Format,
    anchored: &[usize],
) -> (out: Vec<ComboCompletionCount>)
    ensures
        counts_view(out@) == completions_spec(
            oracles@,
            identity,
            format,
            anchored@,
            combo_views(combos@),
            combos@.len() as int,
        ),
{
    let ghost cs = combo_views(combos@);
    let mut out: Vec<ComboCompletionCount> = Vec::new();
    let mut n: usize = 0;
    while n < combos.len()
        invariant
            n <= combos@.len(),
            cs == combo_views(combos@),
            counts_view(out@) == completions_spec(oracles@, identity, format, anchored@, cs, n as int),
        decreases combos@.len() - n,
    {
        let combo = &combos[n];
        assert(cs[n as int] == str_views(combo@));
        match missing_piece(oracles, identity, format, anchored, combo) {
            Some(p) => {
                let name = combo[p].as_str();
                assert(str_views(combo@)[p as int] == name@);
                if !has_record(&out, name) {
                    let ghost before = counts_view(out@);
                    out.push(
                        ComboCompletionCount { name: owned(name), have: combo.len() - 1, size: combo.len() },
                    );
                    assert(counts_view(out@) =~= before.push(
                        (name@, (combo@.len() - 1) as nat, combo@.len() as nat),
                    ));
                }
            },
            None => {},
        }
        n += 1;
    }
    out
}

} // verus!
