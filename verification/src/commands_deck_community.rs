//! Community data for the deck builder: which 17Lands sets to consult.

use std::collections::HashMap;

use vstd::prelude::*;

use crate::models::CardInfo;
use crate::services::history_db::{canonical_entries, sorted_entries};
use crate::text::{chars_lt, chars_of, lemma_seq_lt_order, lemma_seq_lt_trans, seq_lt, str_eq, str_views};

verus! {

/// The copies that collection entry `(g, q)` adds to set `set`: `q` when
/// it is positive and the card database knows `g` as a card of that
/// (non-empty) set, else none.
pub open spec fn set_share(g: i32, q: i32, cards: Map<i32, CardInfo>, set: Seq<char>) -> int {
    if q > 0 && cards.contains_key(g) && cards[g].set_code@.len() > 0 && cards[g].set_code@
        == set {
        q as int
    } else {
        0
    }
}

/// The copies of set `set` among the entries `es`.
pub open spec fn owned_in(es: Seq<(i32, i32)>, cards: Map<i32, CardInfo>, set: Seq<char>) -> int
    decreases es.len(),
{
    if es.len() == 0 {
        0
    } else {
        owned_in(es.drop_last(), cards, set) + set_share(es.last().0, es.last().1, cards, set)
    }
}

/// The copies of set `set` the collection holds.
pub open spec fn owned_in_set(
    collection: Map<i32, i32>,
    cards: Map<i32, CardInfo>,
    set: Seq<char>,
) -> int {
    owned_in(canonical_entries(collection), cards, set)
}

/// Set `a` ranks before set `b`: more copies owned, ties by code.
pub open spec fn ranks_before(
    collection: Map<i32, i32>,
    cards: Map<i32, CardInfo>,
    a: Seq<char>,
    b: Seq<char>,
) -> bool {
    let ta = owned_in_set(collection, cards, a);
    let tb = owned_in_set(collection, cards, b);
    ta > tb || (ta == tb && seq_lt(a, b))
}

/// The owned sets outside `priority`, in rank order.
pub open spec fn ranked_rest(
    rest: Seq<Seq<char>>,
    collection: Map<i32, i32>,
    cards: Map<i32, CardInfo>,
    priority: Seq<Seq<char>>,
) -> bool {
    &&& forall|i: int, j: int|
        0 <= i < j < rest.len() ==> ranks_before(collection, cards, #[trigger] rest[i], #[trigger] rest[j])
    &&& forall|s: Seq<char>|
        #[trigger] rest.contains(s) <==> (owned_in_set(collection, cards, s) > 0 && !priority.contains(s))
}

/// `p` with later repeats dropped.
pub open spec fn first_occurrences(p: Seq<Seq<char>>) -> Seq<Seq<char>>
    decreases p.len(),
{
    if p.len() == 0 {
        seq![]
    } else {
        let prev = first_occurrences(p.drop_last());
        if prev.contains(p.last()) {
            prev
        } else {
            prev.push(p.last())
        }
    }
}

/// The elements of `s` that are in `cached` (`want`) or are not (`!want`).
pub open spec fn split_cached(s: Seq<Seq<char>>, cached: Seq<Seq<char>>, want: bool) -> Seq<
    Seq<char>,
>
    decreases s.len(),
{
    if s.len() == 0 {
        seq![]
    } else {
        let prev = split_cached(s.drop_last(), cached, want);
        if cached.contains(s.last()) == want {
            prev.push(s.last())
        } else {
            prev
        }
    }
}

/// The first `n` elements of `s` (all of them when it has fewer).
pub open spec fn at_most(s: Seq<Seq<char>>, n: nat) -> Seq<Seq<char>> {
    if n >= s.len() {
        s
    } else {
        s.take(n as int)
    }
}

proof fn lemma_owned_in_step(es: Seq<(i32, i32)>, i: int, cards: Map<i32, CardInfo>, set: Seq<char>)
    requires
        0 <= i < es.len(),
    ensures
        owned_in(es.take(i + 1), cards, set) == owned_in(es.take(i), cards, set) + set_share(
            es[i].0,
            es[i].1,
            cards,
            set,
        ),
{
    assert(es.take(i + 1).drop_last() =~= es.take(i));
}

proof fn lemma_owned_in_nonneg(es: Seq<(i32, i32)>, cards: Map<i32, CardInfo>, set: Seq<char>)
    ensures
        owned_in(es, cards, set) >= 0,
    decreases es.len(),
{
    if es.len() > 0 {
        lemma_owned_in_nonneg(es.drop_last(), cards, set);
    }
}

proof fn lemma_owned_in_bound(es: Seq<(i32, i32)>, cards: Map<i32, CardInfo>, set: Seq<char>)
    ensures
        owned_in(es, cards, set) <= es.len() * 0x7fff_ffff,
    decreases es.len(),
{
    if es.len() > 0 {
        lemma_owned_in_bound(es.drop_last(), cards, set);
    }
}

/// Per-set totals of the owned copies among `entries`: the sets with any
/// copy, each once, in order of first appearance, with their totals.
fn set_totals(entries: &Vec<(i32, i32)>, cards: &HashMap<i32, CardInfo>) -> (r: (
    Vec<String>,
    Vec<i128>,
))
    ensures
        r.0@.len() == r.1@.len(),
        forall|a: int, b: int|
            0 <= a < b < r.0@.len() ==> (#[trigger] r.0@[a])@ != (#[trigger] r.0@[b])@,
        forall|k: int|
            0 <= k < r.0@.len() ==> #[trigger] r.1@[k] == owned_in(entries@, cards@, r.0@[k]@)
                && r.1@[k] > 0,
        forall|s: Seq<char>|
            owned_in(entries@, cards@, s) > 0 ==> #[trigger] str_views(r.0@).contains(s),
{
    broadcast use vstd::std_specs::hash::group_hash_axioms;

    let mut codes: Vec<String> = Vec::new();
    let mut totals: Vec<i128> = Vec::new();
    let mut i: usize = 0;
    while i < entries.len()
        invariant
            i <= entries@.len(),
            codes@.len() == totals@.len(),
            forall|a: int, b: int|
                0 <= a < b < codes@.len() ==> (#[trigger] codes@[a])@ != (#[trigger] codes@[b])@,
            forall|k: int|
                0 <= k < codes@.len() ==> #[trigger] totals@[k] == owned_in(
                    entries@.take(i as int),
                    cards@,
                    codes@[k]@,
                ) && totals@[k] > 0,
            forall|s: Seq<char>|
                owned_in(entries@.take(i as int), cards@, s) > 0 ==> #[trigger] str_views(
                    codes@,
                ).contains(s),
        decreases entries@.len() - i,
    {
        let (g, q) = entries[i];
        proof {
            assert forall|s: Seq<char>|
                owned_in(entries@.take(i + 1), cards@, s) == owned_in(entries@.take(i as int), cards@, s)
                    + set_share(g, q, cards@, s) by {
                lemma_owned_in_step(entries@, i as int, cards@, s);
            }
            assert forall|k: int| 0 <= k < codes@.len() implies totals@[k] <= i * 0x7fff_ffff by {
                lemma_owned_in_bound(entries@.take(i as int), cards@, codes@[k]@);
            }
        }
        let ghost oc = codes@;
        let ghost ot = totals@;
        if q > 0 {
            match cards.get(&g) {
                Some(card) => {
                    if card.set_code.as_str().unicode_len() > 0 {
                        let code = card.set_code.as_str();
                        let mut p: usize = 0;
                        while p < codes.len() && !str_eq(codes[p].as_str(), code)
                            invariant
                                p <= codes@.len(),
                                forall|k: int| 0 <= k < p ==> (#[trigger] codes@[k])@ != code@,
                            decreases codes@.len() - p,
                        {
                            p += 1;
                        }
                        proof {
                            assert(cards@[g] == *card);
                            assert(set_share(g, q, cards@, code@) == q);
                            assert forall|s: Seq<char>| s != code@ implies set_share(g, q, cards@, s) == 0 by {}
                        }
                        if p < codes.len() {
                            let t = totals[p] + q as i128;
                            totals.set(p, t);
                            assert(str_views(codes@)[p as int] == code@);
                            assert forall|k: int| 0 <= k < codes@.len() && k != p implies (#[trigger] codes@[k])@ != code@ by {
                                assert(codes@[p as int]@ == code@);
                            }
                        } else {
                            proof {
                                if owned_in(entries@.take(i as int), cards@, code@) > 0 {
                                    assert(str_views(oc).contains(code@));
                                    let k = choose|k: int| 0 <= k < str_views(oc).len() && str_views(oc)[k] == code@;
                                    assert(oc[k]@ == code@);
                                }
                                lemma_owned_in_nonneg(entries@.take(i as int), cards@, code@);
                            }
                            codes.push(card.set_code.clone());
                            totals.push(q as i128);
                            assert(str_views(codes@)[oc.len() as int] == code@);
                        }
                    } else {
                        proof {
                            assert(cards@[g] == *card);
                            assert forall|s: Seq<char>| set_share(g, q, cards@, s) == 0 by {}
                        }
                    }
                },
                None => {
                    assert forall|s: Seq<char>| set_share(g, q, cards@, s) == 0 by {}
                },
            }
        } else {
            assert forall|s: Seq<char>| set_share(g, q, cards@, s) == 0 by {}
        }
        proof {
            assert forall|s: Seq<char>|
                owned_in(entries@.take(i + 1), cards@, s) > 0 implies #[trigger] str_views(
                    codes@,
                ).contains(s) by {
                lemma_owned_in_nonneg(entries@.take(i as int), cards@, s);
                if set_share(g, q, cards@, s) > 0 {
                    assert(s == cards@[g].set_code@);
                } else {
                    assert(str_views(oc).contains(s));
                    let k = choose|k: int| 0 <= k < str_views(oc).len() && str_views(oc)[k] == s;
                    assert(codes@[k] == oc[k]);
                    assert(str_views(codes@)[k] == s);
                }
            }
        }
        i += 1;
    }
    assert(entries@.take(entries@.len() as int) =~= entries@);
    (codes, totals)
}

/// `(a, ta)` ranks before `(b, tb)`: the larger total first, ties by code.
pub open spec fn rank_lt(a: Seq<char>, ta: int, b: Seq<char>, tb: int) -> bool {
    ta > tb || (ta == tb && seq_lt(a, b))
}

/// The pairs are in strict rank order.
pub open spec fn rank_sorted(v: Seq<(String, i128)>) -> bool {
    forall|i: int, j: int|
        0 <= i < j < v.len() ==> rank_lt(
            (#[trigger] v[i]).0@,
            v[i].1 as int,
            (#[trigger] v[j]).0@,
            v[j].1 as int,
        )
}

proof fn lemma_rank_lt_trans(a: Seq<char>, ta: int, b: Seq<char>, tb: int, c: Seq<char>, tc: int)
    requires
        rank_lt(a, ta, b, tb),
        rank_lt(b, tb, c, tc),
    ensures
        rank_lt(a, ta, c, tc),
{
    if ta == tb && tb == tc {
        lemma_seq_lt_trans(a, b, c);
    }
}

proof fn lemma_rank_lt_total(a: Seq<char>, ta: int, b: Seq<char>, tb: int)
    requires
        a != b,
    ensures
        rank_lt(a, ta, b, tb) || rank_lt(b, tb, a, ta),
        !(rank_lt(a, ta, b, tb) && rank_lt(b, tb, a, ta)),
{
    lemma_seq_lt_order(a, b);
}

/// Whether one of `v` holds exactly the characters of `s`.
fn has_str(v: &[String], s: &str) -> (b: bool)
    ensures
        b == str_views(v@).contains(s@),
{
    let mut i: usize = 0;
    while i < v.len()
        invariant
            i <= v@.len(),
            forall|j: int| 0 <= j < i ==> (#[trigger] v@[j])@ != s@,
        decreases v@.len() - i,
    {
        if str_eq(v[i].as_str(), s) {
            assert(str_views(v@)[i as int] == s@);
            return true;
        }
        i += 1;
    }
    proof {
        if str_views(v@).contains(s@) {
            let j = choose|j: int| 0 <= j < str_views(v@).len() && str_views(v@)[j] == s@;
            assert(v@[j]@ == s@);
        }
    }
    false
}

/// Whether `(a, ta)` ranks before `(b, tb)`.
fn rank_before(a: &str, ta: i128, b: &str, tb: i128) -> (r: bool)
    ensures
        r == rank_lt(a@, ta as int, b@, tb as int),
{
    if ta != tb {
        ta > tb
    } else {
        let ac = chars_of(a);
        let bc = chars_of(b);
        chars_lt(&ac, &bc)
    }
}

/// Inserts `e` into the rank-sorted `v`, whose codes differ from `e`'s.
fn insert_ranked(v: &mut Vec<(String, i128)>, e: (String, i128))
    requires
        rank_sorted(old(v)@),
        forall|k: int| 0 <= k < old(v)@.len() ==> (#[trigger] old(v)@[k]).0@ != e.0@,
    ensures
        rank_sorted(final(v)@),
        final(v)@.len() == old(v)@.len() + 1,
        exists|p: int| 0 <= p <= old(v)@.len() && final(v)@ == old(v)@.insert(p, e),
{
    let mut p: usize = 0;
    while p < v.len() && rank_before(v[p].0.as_str(), v[p].1, e.0.as_str(), e.1)
        invariant
            p <= v@.len(),
            forall|k: int|
                0 <= k < p ==> rank_lt((#[trigger] v@[k]).0@, v@[k].1 as int, e.0@, e.1 as int),
        decreases v@.len() - p,
    {
        p += 1;
    }
    let ghost ov = v@;
    proof {
        if p < ov.len() {
            lemma_rank_lt_total(ov[p as int].0@, ov[p as int].1 as int, e.0@, e.1 as int);
        }
        assert forall|j: int| p <= j < ov.len() implies rank_lt(
            e.0@,
            e.1 as int,
            (#[trigger] ov[j]).0@,
            ov[j].1 as int,
        ) by {
            lemma_rank_lt_total(ov[p as int].0@, ov[p as int].1 as int, e.0@, e.1 as int);
            if j > p {
                lemma_rank_lt_trans(
                    e.0@,
                    e.1 as int,
                    ov[p as int].0@,
                    ov[p as int].1 as int,
                    ov[j].0@,
                    ov[j].1 as int,
                );
            }
        }
    }
    v.insert(p, e);
    proof {
        assert(v@ =~= ov.insert(p as int, e));
        assert forall|i: int, j: int| 0 <= i < j < v@.len() implies rank_lt(
            (#[trigger] v@[i]).0@,
            v@[i].1 as int,
            (#[trigger] v@[j]).0@,
            v@[j].1 as int,
        ) by {
            if j < p {
                assert(v@[i] == ov[i] && v@[j] == ov[j]);
            } else if j == p {
                assert(v@[i] == ov[i]);
            } else if i < p {
                assert(v@[i] == ov[i] && v@[j] == ov[j - 1]);
                lemma_rank_lt_trans(
                    ov[i].0@,
                    ov[i].1 as int,
                    e.0@,
                    e.1 as int,
                    ov[j - 1].0@,
                    ov[j - 1].1 as int,
                );
            } else if i == p {
                assert(v@[j] == ov[j - 1]);
            } else {
                assert(v@[i] == ov[i - 1] && v@[j] == ov[j - 1]);
            }
        }
    }
}

proof fn lemma_ranks_before_order(
    collection: Map<i32, i32>,
    cards: Map<i32, CardInfo>,
    a: Seq<char>,
    b: Seq<char>,
)
    ensures
        !ranks_before(collection, cards, a, a),
        ranks_before(collection, cards, a, b) ==> !ranks_before(collection, cards, b, a),
{
    lemma_seq_lt_order(a, b);
}

proof fn lemma_rank_sorted_unique(
    a: Seq<Seq<char>>,
    b: Seq<Seq<char>>,
    collection: Map<i32, i32>,
    cards: Map<i32, CardInfo>,
)
    requires
        forall|i: int, j: int|
            0 <= i < j < a.len() ==> ranks_before(collection, cards, #[trigger] a[i], #[trigger] a[j]),
        forall|i: int, j: int|
            0 <= i < j < b.len() ==> ranks_before(collection, cards, #[trigger] b[i], #[trigger] b[j]),
        forall|s: Seq<char>|
            #![trigger a.contains(s)]
            #![trigger b.contains(s)]
            a.contains(s) <==> b.contains(s),
    ensures
        a == b,
    decreases a.len(),
{
    if a.len() == 0 {
        if b.len() > 0 {
            assert(b.contains(b[0]));
            assert(a.contains(b[0]));
        }
        assert(a =~= b);
    } else {
        assert(a.contains(a[0]));
        assert(b.contains(b[0]));
        assert(b.contains(a[0]));
        assert(a.contains(b[0]));
        let k = choose|k: int| 0 <= k < b.len() && b[k] == a[0];
        let j = choose|j: int| 0 <= j < a.len() && a[j] == b[0];
        lemma_ranks_before_order(collection, cards, a[0], b[0]);
        lemma_ranks_before_order(collection, cards, a[0], a[0]);
        if j > 0 && k > 0 {
            assert(ranks_before(collection, cards, a[0], a[j]));
            assert(ranks_before(collection, cards, b[0], b[k]));
        } else if j > 0 {
            assert(ranks_before(collection, cards, a[0], a[j]));
        } else if k > 0 {
            assert(ranks_before(collection, cards, b[0], b[k]));
        }
        assert(a[0] == b[0]);
        let a1 = a.drop_first();
        let b1 = b.drop_first();
        assert forall|s: Seq<char>|
            #![trigger a1.contains(s)]
            #![trigger b1.contains(s)]
            a1.contains(s) <==> b1.contains(s) by {
            if a1.contains(s) {
                let i = choose|i: int| 0 <= i < a1.len() && a1[i] == s;
                assert(a[i + 1] == s);
                assert(ranks_before(collection, cards, a[0], a[i + 1]));
                lemma_ranks_before_order(collection, cards, s, s);
                assert(b.contains(s));
                let m = choose|m: int| 0 <= m < b.len() && b[m] == s;
                assert(m != 0);
                assert(b1[m - 1] == s);
            }
            if b1.contains(s) {
                let i = choose|i: int| 0 <= i < b1.len() && b1[i] == s;
                assert(b[i + 1] == s);
                assert(ranks_before(collection, cards, b[0], b[i + 1]));
                lemma_ranks_before_order(collection, cards, s, s);
                assert(a.contains(s));
                let m = choose|m: int| 0 <= m < a.len() && a[m] == s;
                assert(m != 0);
                assert(a1[m - 1] == s);
            }
        }
        assert forall|i: int, j: int| 0 <= i < j < a1.len() implies ranks_before(
            collection,
            cards,
            #[trigger] a1[i],
            #[trigger] a1[j],
        ) by {
            assert(a1[i] == a[i + 1] && a1[j] == a[j + 1]);
        }
        assert forall|i: int, j: int| 0 <= i < j < b1.len() implies ranks_before(
            collection,
            cards,
            #[trigger] b1[i],
            #[trigger] b1[j],
        ) by {
            assert(b1[i] == b[i + 1] && b1[j] == b[j + 1]);
        }
        lemma_rank_sorted_unique(a1, b1, collection, cards);
        assert(a =~= seq![a[0]] + a1);
        assert(b =~= seq![b[0]] + b1);
    }
}

/// The ranking of the owned sets outside the priority list is unique, so
/// the sets that `select_17lands_sets` picks are determined by its inputs.
pub proof fn lemma_ranked_rest_unique(
    a: Seq<Seq<char>>,
    b: Seq<Seq<char>>,
    collection: Map<i32, i32>,
    cards: Map<i32, CardInfo>,
    priority: Seq<Seq<char>>,
)
    requires
        ranked_rest(a, collection, cards, priority),
        ranked_rest(b, collection, cards, priority),
    ensures
        a == b,
{
    lemma_rank_sorted_unique(a, b, collection, cards);
}

/// The codes of ranked pairs.
pub open spec fn codes_of(v: Seq<(String, i128)>) -> Seq<Seq<char>> {
    v.map_values(|x: (String, i128)| x.0@)
}

/// The 17Lands sets to consult: the `priority` sets first (the commander's
/// and the build-around cards', repeats dropped), then every other owned
/// set already in the cache (`cached`), then at most `cap` owned sets not
/// cached yet. Owned sets outside `priority` come in rank order: more
/// owned copies first, ties by set code.
pub fn select_17lands_sets(
    collection: &HashMap<i32, i32>,
    cards: &HashMap<i32, CardInfo>,
    priority: &[String],
    cached: &[String],
    cap: usize,
) -> (out: Vec<String>)
    ensures
        exists|rest: Seq<Seq<char>>|
            ranked_rest(rest, collection@, cards@, str_views(priority@)) && str_views(out@)
                == first_occurrences(str_views(priority@)) + split_cached(
                rest,
                str_views(cached@),
                true,
            ) + at_most(split_cached(rest, str_views(cached@), false), cap as nat),
{
    let ghost prio = str_views(priority@);
    let ghost cach = str_views(cached@);
    let entries = sorted_entries(collection);
    let (codes, totals) = set_totals(&entries, cards);
    assert(entries@ == canonical_entries(collection@));

    // The priority sets, each once.
    let mut out: Vec<String> = Vec::new();
    let mut i: usize = 0;
    assert(prio.take(0) =~= Seq::<Seq<char>>::empty());
    while i < priority.len()
        invariant
            i <= priority@.len(),
            prio == str_views(priority@),
            str_views(out@) == first_occurrences(prio.take(i as int)),
        decreases priority@.len() - i,
    {
        proof {
            assert(prio.take(i + 1).drop_last() =~= prio.take(i as int));
            assert(prio.take(i + 1).last() == priority@[i as int]@);
        }
        if !has_str(out.as_slice(), priority[i].as_str()) {
            let ghost before = str_views(out@);
            out.push(priority[i].clone());
            assert(str_views(out@) =~= before.push(priority@[i as int]@));
        }
        i += 1;
    }
    assert(prio.take(priority@.len() as int) =~= prio);
    let ghost head = str_views(out@);

    // The other owned sets, in rank order.
    let mut rest: Vec<(String, i128)> = Vec::new();
    let mut k: usize = 0;
    while k < codes.len()
        invariant
            k <= codes@.len(),
            codes@.len() == totals@.len(),
            prio == str_views(priority@),
            forall|a: int, b: int|
                0 <= a < b < codes@.len() ==> (#[trigger] codes@[a])@ != (#[trigger] codes@[b])@,
            forall|j: int|
                0 <= j < codes@.len() ==> #[trigger] totals@[j] == owned_in(entries@, cards@, codes@[j]@)
                    && totals@[j] > 0,
            rank_sorted(rest@),
            forall|j: int|
                0 <= j < rest@.len() ==> (#[trigger] rest@[j]).1 == owned_in(
                    entries@,
                    cards@,
                    rest@[j].0@,
                ),
            forall|s: Seq<char>|
                #[trigger] codes_of(rest@).contains(s) <==> (str_views(codes@.take(k as int)).contains(s)
                    && !prio.contains(s)),
        decreases codes@.len() - k,
    {
        proof {
            let next = str_views(codes@.take(k + 1));
            let now = str_views(codes@.take(k as int));
            assert forall|s: Seq<char>|
                next.contains(s) <==> (now.contains(s) || s == codes@[k as int]@) by {
                if next.contains(s) {
                    let j = choose|j: int| 0 <= j < next.len() && next[j] == s;
                    if j < k {
                        assert(now[j] == s);
                    }
                }
                if now.contains(s) {
                    let j = choose|j: int| 0 <= j < now.len() && now[j] == s;
                    assert(next[j] == s);
                }
                if s == codes@[k as int]@ {
                    assert(next[k as int] == s);
                }
            }
        }
        if !has_str(priority, codes[k].as_str()) {
            let e = (codes[k].clone(), totals[k]);
            proof {
                assert forall|j: int| 0 <= j < rest@.len() implies (#[trigger] rest@[j]).0@ != e.0@ by {
                    assert(codes_of(rest@)[j] == rest@[j].0@);
                    assert(codes_of(rest@).contains(rest@[j].0@));
                    let now = str_views(codes@.take(k as int));
                    let m = choose|m: int| 0 <= m < now.len() && now[m] == rest@[j].0@;
                    assert(codes@[m]@ == rest@[j].0@);
                }
            }
            let ghost ov = rest@;
            insert_ranked(&mut rest, e);
            proof {
                let p = choose|p: int| 0 <= p <= ov.len() && rest@ == ov.insert(p, e);
                assert forall|j: int| 0 <= j < rest@.len() implies (#[trigger] rest@[j]).1 == owned_in(
                    entries@,
                    cards@,
                    rest@[j].0@,
                ) by {
                    if j < p {
                        assert(rest@[j] == ov[j]);
                    } else if j > p {
                        assert(rest@[j] == ov[j - 1]);
                    }
                }
                assert forall|s: Seq<char>| #[trigger] codes_of(rest@).contains(s) <==> (codes_of(ov).contains(s) || s == e.0@) by {
                    if codes_of(rest@).contains(s) {
                        let j = choose|j: int| 0 <= j < rest@.len() && codes_of(rest@)[j] == s;
                        if j < p {
                            assert(codes_of(ov)[j] == s);
                        } else if j > p {
                            assert(codes_of(ov)[j - 1] == s);
                        }
                    }
                    if codes_of(ov).contains(s) {
                        let j = choose|j: int| 0 <= j < ov.len() && codes_of(ov)[j] == s;
                        if j < p {
                            assert(codes_of(rest@)[j] == s);
                        } else {
                            assert(codes_of(rest@)[j + 1] == s);
                        }
                    }
                    if s == e.0@ {
                        assert(codes_of(rest@)[p] == s);
                    }
                }
            }
        }
        k += 1;
    }
    assert(codes@.take(codes@.len() as int) =~= codes@);
    let ghost rv = codes_of(rest@);

    // The ranked sets already cached.
    let mut j: usize = 0;
    assert(rv.take(0) =~= Seq::<Seq<char>>::empty());
    while j < rest.len()
        invariant
            j <= rest@.len(),
            rv == codes_of(rest@),
            cach == str_views(cached@),
            str_views(out@) == head + split_cached(rv.take(j as int), cach, true),
        decreases rest@.len() - j,
    {
        proof {
            assert(rv.take(j + 1).drop_last() =~= rv.take(j as int));
            assert(rv.take(j + 1).last() == rest@[j as int].0@);
        }
        if has_str(cached, rest[j].0.as_str()) {
            let ghost before = str_views(out@);
            out.push(rest[j].0.clone());
            assert(str_views(out@) =~= before.push(rest@[j as int].0@));
        }
        j += 1;
    }
    assert(rv.take(rest@.len() as int) =~= rv);
    let ghost mid = str_views(out@);

    // At most `cap` ranked sets not cached yet.
    let mut added: usize = 0;
    let mut j: usize = 0;
    assert(rv.take(0) =~= Seq::<Seq<char>>::empty());
    while j < rest.len()
        invariant
            j <= rest@.len(),
            rv == codes_of(rest@),
            cach == str_views(cached@),
            added <= cap,
            added == split_cached(rv.take(j as int), cach, false).len() || (added == cap && cap
                <= split_cached(rv.take(j as int), cach, false).len()),
            str_views(out@) == mid + at_most(split_cached(rv.take(j as int), cach, false), cap as nat),
        decreases rest@.len() - j,
    {
        let ghost sc = split_cached(rv.take(j as int), cach, false);
        proof {
            assert(rv.take(j + 1).drop_last() =~= rv.take(j as int));
            assert(rv.take(j + 1).last() == rest@[j as int].0@);
        }
        if !has_str(cached, rest[j].0.as_str()) {
            let ghost x = rest@[j as int].0@;
            if added < cap {
                let ghost before = str_views(out@);
                out.push(rest[j].0.clone());
                added += 1;
                assert(at_most(sc, cap as nat) == sc);
                assert(at_most(sc.push(x), cap as nat) == sc.push(x));
                assert(str_views(out@) =~= before.push(x));
            } else {
                assert(at_most(sc.push(x), cap as nat) =~= at_most(sc, cap as nat));
            }
        }
        j += 1;
    }
    assert(rv.take(rest@.len() as int) =~= rv);
    proof {
        assert forall|a: int, b: int|
            0 <= a < b < rv.len() implies ranks_before(collection@, cards@, #[trigger] rv[a], #[trigger] rv[b]) by {
            assert(rv[a] == rest@[a].0@ && rv[b] == rest@[b].0@);
        }
        assert forall|s: Seq<char>|
            #[trigger] rv.contains(s) <==> (owned_in_set(collection@, cards@, s) > 0 && !prio.contains(s)) by {
            if rv.contains(s) {
                let m = choose|m: int| 0 <= m < codes@.len() && str_views(codes@)[m] == s;
                assert(totals@[m] > 0);
            }
            if owned_in_set(collection@, cards@, s) > 0 && !prio.contains(s) {
                assert(str_views(codes@).contains(s));
            }
        }
        assert(ranked_rest(rv, collection@, cards@, prio));
    }
    out
}

/// The set codes of the cards `grps` that the card database knows (and
/// that name a set), each once, in order.
pub open spec fn priority_codes(cards: Map<i32, CardInfo>, grps: Seq<i32>) -> Seq<Seq<char>>
    decreases grps.len(),
{
    if grps.len() == 0 {
        seq![]
    } else {
        let prev = priority_codes(cards, grps.drop_last());
        let g = grps.last();
        if cards.contains_key(g) && cards[g].set_code@.len() > 0 && !prev.contains(cards[g].set_code@) {
            prev.push(cards[g].set_code@)
        } else {
            prev
        }
    }
}

/// The 17Lands sets consulted first for a build: the commander's set, then
/// the sets of the build-around cards, each once.
pub fn seventeenlands_priority(
    cards: &HashMap<i32, CardInfo>,
    commander_grp: Option<i32>,
    build_around: &[i32],
) -> (out: Vec<String>)
    ensures
        str_views(out@) == priority_codes(
            cards@,
            (match commander_grp {
                Some(g) => seq![g],
                None => seq![],
            }) + build_around@,
        ),
{
    broadcast use vstd::std_specs::hash::group_hash_axioms;

    let mut grps: Vec<i32> = Vec::new();
    match commander_grp {
        Some(g) => grps.push(g),
        None => {},
    }
    let mut k: usize = 0;
    while k < build_around.len()
        invariant
            k <= build_around@.len(),
            grps@ == (match commander_grp {
                Some(g) => seq![g],
                None => seq![],
            }) + build_around@.take(k as int),
        decreases build_around@.len() - k,
    {
        grps.push(build_around[k]);
        k += 1;
    }
    assert(build_around@.take(build_around@.len() as int) =~= build_around@);
    let mut out: Vec<String> = Vec::new();
    let mut i: usize = 0;
    while i < grps.len()
        invariant
            i <= grps@.len(),
            str_views(out@) == priority_codes(cards@, grps@.take(i as int)),
        decreases grps@.len() - i,
    {
        proof {
            assert(grps@.take(i + 1).drop_last() =~= grps@.take(i as int));
        }
        let g = grps[i];
        match cards.get(&g) {
            Some(card) => {
                if card.set_code.as_str().unicode_len() > 0 && !has_str(out.as_slice(), card.set_code.as_str()) {
                    let ghost before = str_views(out@);
                    out.push(card.set_code.clone());
                    assert(str_views(out@) =~= before.push(card.set_code@));
                }
            },
            None => {},
        }
        i += 1;
    }
    assert(grps@.take(grps@.len() as int) =~= grps@);
    out
}

} // verus!
