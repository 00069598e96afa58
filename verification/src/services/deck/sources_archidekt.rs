//! Archidekt: URL builders, the seed-deck records read from its payloads,
//! and the per-format staples aggregate built from them.

use vstd::prelude::*;

use super::engine::types::{is_subset, mask_from_str, mask_of_chars, subset_spec, Format};
use crate::numbers::{decimal, decimal_signed, fmt_i64, fmt_u64};
use crate::text::{
    ascii_lower_chars, ascii_lower_seq,
    ascii_upper, ascii_upper_exec, chars_of, front_face, front_face_chars, insert_sorted_unique,
    owned, push_str, sorted_strict, str_views, string_of, to_lower, trim, trim_chars,
    unicode_lower, vec_contains_str,
};

verus! {

/// The Archidekt `deckFormat` code of a format.
pub open spec fn archidekt_format_code(format: Format) -> nat {
    match format {
        Format::Brawl100 => 20,
        Format::StandardBrawl60 => 13,
    }
}

/// The size filter of an Archidekt search: the format's main deck plus the
/// commander.
pub open spec fn archidekt_size(format: Format) -> nat {
    match format {
        Format::Brawl100 => 100,
        Format::StandardBrawl60 => 60,
    }
}

/// The Archidekt deck search for `format`, most viewed first. `size=` is a
/// server-side filter, so the list only carries decks of the format's exact
/// size (the main deck plus the commander).
pub fn archidekt_list_url(format: Format, page: u32) -> (url: String)
    ensures
        url@ == "https://archidekt.com/api/decks/v3/?deckFormat="@ + decimal(
            archidekt_format_code(format),
        ) + "&orderBy=-viewCount&size="@ + decimal(archidekt_size(format))
            + "&pageSize=20&page="@ + decimal(page as nat),
{
    let df: u64 = match format {
        Format::Brawl100 => 20,
        Format::StandardBrawl60 => 13,
    };
    let size: u64 = format.deck_size() as u64 + 1;
    let mut url = owned("https://archidekt.com/api/decks/v3/?deckFormat=");
    let t = fmt_u64(df);
    push_str(&mut url, t.as_str());
    push_str(&mut url, "&orderBy=-viewCount&size=");
    let t = fmt_u64(size);
    push_str(&mut url, t.as_str());
    push_str(&mut url, "&pageSize=20&page=");
    let t = fmt_u64(page as u64);
    push_str(&mut url, t.as_str());
    url
}

/// One Archidekt deck.
pub fn archidekt_deck_url(id: i64) -> (url: String)
    ensures
        url@ == "https://archidekt.com/api/decks/"@ + decimal_signed(id as int) + "/"@,
{
    let mut url = owned("https://archidekt.com/api/decks/");
    let t = fmt_i64(id);
    push_str(&mut url, t.as_str());
    push_str(&mut url, "/");
    url
}

/// One entry of an Archidekt deck search.
#[derive(Debug, Clone, PartialEq)]
pub struct SeedDeckSummary {
    pub id: i64,
    pub name: String,
    pub size: u32,
    pub view_count: u64,
    pub colors: Vec<String>,
}

/// One Archidekt deck: its commanders and its main-deck cards with their
/// quantities.
#[derive(Debug, Clone, PartialEq)]
pub struct SeedDeckDetail {
    pub id: i64,
    pub name: String,
    pub commander_names: Vec<String>,
    pub cards: Vec<(String, u32)>,
}

/// How many of the most viewed decks feed the staples aggregate.
pub const STAPLES_DECK_COUNT: usize = 20;

/// The positions (among the first `n` list entries) of the decks of the
/// format's full size, commander included.
pub open spec fn full_size_decks(items: Seq<SeedDeckSummary>, format: Format, n: int) -> Seq<usize>
    decreases n,
{
    if n <= 0 {
        seq![]
    } else {
        let prev = full_size_decks(items, format, n - 1);
        if items[n - 1].size == archidekt_size(format) {
            prev.push((n - 1) as usize)
        } else {
            prev
        }
    }
}

/// The list entries a staples aggregate is built from: the first
/// `STAPLES_DECK_COUNT` decks of the format's full size, in list order.
pub fn pick_staple_decks(items: &[SeedDeckSummary], format: Format) -> (picked: Vec<usize>)
    ensures
        picked@ == (if full_size_decks(items@, format, items@.len() as int).len() <= STAPLES_DECK_COUNT {
            full_size_decks(items@, format, items@.len() as int)
        } else {
            full_size_decks(items@, format, items@.len() as int).take(STAPLES_DECK_COUNT as int)
        }),
{
    let want: u32 = format.deck_size() + 1;
    let mut picked: Vec<usize> = Vec::new();
    let mut i: usize = 0;
    while i < items.len()
        invariant
            i <= items@.len(),
            want == archidekt_size(format),
            picked@ == (if full_size_decks(items@, format, i as int).len() <= STAPLES_DECK_COUNT {
                full_size_decks(items@, format, i as int)
            } else {
                full_size_decks(items@, format, i as int).take(STAPLES_DECK_COUNT as int)
            }),
        decreases items@.len() - i,
    {
        let ghost before = full_size_decks(items@, format, i as int);
        if items[i].size == want {
            if picked.len() < STAPLES_DECK_COUNT {
                picked.push(i);
                assert(picked@ =~= before.push(i));
            } else {
                proof {
                    assert(before.push(i).take(STAPLES_DECK_COUNT as int) =~= before.take(
                        STAPLES_DECK_COUNT as int,
                    ));
                    if before.len() == STAPLES_DECK_COUNT as nat {
                        assert(before.take(STAPLES_DECK_COUNT as int) =~= before);
                    }
                }
            }
        }
        i += 1;
    }
    picked
}

/// How long a built staples aggregate stays fresh, in seconds.
pub const STAPLES_TTL_SECS: i64 = 7 * 86_400;

/// Fewest colour-compatible decks for the identity subset to be used alone.
pub const STAPLES_MIN_DECKS: usize = 5;

/// The cache key of a format's staples aggregate.
pub fn staples_cache_key(format: Format) -> (k: String)
    ensures
        k@ == "archidekt:staples:"@ + (match format {
            Format::Brawl100 => "brawl100"@,
            Format::StandardBrawl60 => "standardbrawl60"@,
        }),
{
    let mut k = owned("archidekt:staples:");
    push_str(&mut k, format.as_str());
    k
}

/// One deck of the staples aggregate: its colour letters in `BGRUW` order and
/// its distinct lower-cased front-face card names, sorted.
#[derive(Debug, Clone, PartialEq)]
pub struct StapleDeck {
    pub colors: String,
    pub cards: Vec<String>,
}

/// The staples aggregate of a format and when it was built.
#[derive(Debug, Clone, PartialEq)]
pub struct StaplesAggregate {
    pub built_at: i64,
    pub decks: Vec<StapleDeck>,
}

/// Whether some character of `colors`, upper-cased, is `c`.
pub open spec fn color_present(colors: Seq<String>, c: char) -> bool {
    exists|i: int, j: int|
        0 <= i < colors.len() && 0 <= j < colors[i]@.len() && ascii_upper(#[trigger] colors[i]@[j])
            == c
}

/// The colour letters named in `colors`, sorted and without repeats.
pub open spec fn staple_colors(colors: Seq<String>) -> Seq<char> {
    (if color_present(colors, 'B') { seq!['B'] } else { Seq::empty() }) + (if color_present(
        colors,
        'G',
    ) {
        seq!['G']
    } else {
        Seq::empty()
    }) + (if color_present(colors, 'R') { seq!['R'] } else { Seq::empty() }) + (if color_present(
        colors,
        'U',
    ) {
        seq!['U']
    } else {
        Seq::empty()
    }) + (if color_present(colors, 'W') { seq!['W'] } else { Seq::empty() })
}

/// The front face of a card name, trimmed and lower-cased.
pub open spec fn front_face_lower_spec(name: Seq<char>) -> Seq<char> {
    unicode_lower(trim(front_face(name)))
}

/// Whether `x` is a staple of `detail`: the non-empty front face of one of
/// its cards that is not the front face of one of its commanders.
pub open spec fn is_staple_card(detail: SeedDeckDetail, x: Seq<char>) -> bool {
    &&& x.len() > 0
    &&& exists|k: int|
        0 <= k < detail.cards@.len() && front_face_lower_spec(#[trigger] detail.cards@[k].0@) == x
    &&& !exists|m: int|
        0 <= m < detail.commander_names@.len() && front_face_lower_spec(
            #[trigger] detail.commander_names@[m]@,
        ) == x
}

/// What `build_staples` makes of one deck.
pub open spec fn staple_deck_of(summary: SeedDeckSummary, detail: SeedDeckDetail, d: StapleDeck) -> bool {
    &&& d.colors@ == staple_colors(summary.colors@)
    &&& sorted_strict(str_views(d.cards@))
    &&& forall|x: Seq<char>| #[trigger]
        str_views(d.cards@).contains(x) <==> is_staple_card(detail, x)
}

/// The front face of a card name, trimmed and lower-cased.
fn front_face_lower(name: &str) -> (r: String)
    ensures
        r@ == front_face_lower_spec(name@),
{
    let cs = chars_of(name);
    let ff = front_face_chars(cs.as_slice());
    let t = trim_chars(ff.as_slice());
    let s = string_of(t.as_slice());
    to_lower(s.as_str())
}

/// Whether some character of `s`, upper-cased, is `c`.
fn str_has_upper(s: &str, c: char) -> (b: bool)
    ensures
        b == exists|j: int| 0 <= j < s@.len() && ascii_upper(#[trigger] s@[j]) == c,
{
    let cs = chars_of(s);
    let mut j: usize = 0;
    while j < cs.len()
        invariant
            j <= cs@.len(),
            cs@ == s@,
            forall|k: int| 0 <= k < j ==> ascii_upper(#[trigger] s@[k]) != c,
        decreases cs@.len() - j,
    {
        if ascii_upper_exec(cs[j]) == c {
            return true;
        }
        j += 1;
    }
    false
}

/// Whether some character of `colors`, upper-cased, is `c`.
fn color_present_exec(colors: &Vec<String>, c: char) -> (b: bool)
    ensures
        b == color_present(colors@, c),
{
    let mut i: usize = 0;
    while i < colors.len()
        invariant
            i <= colors@.len(),
            forall|k: int, j: int|
                0 <= k < i && 0 <= j < colors@[k]@.len() ==> ascii_upper(#[trigger] colors@[k]@[j])
                    != c,
        decreases colors@.len() - i,
    {
        if str_has_upper(colors[i].as_str(), c) {
            return true;
        }
        i += 1;
    }
    false
}

/// The colour letters of a deck summary, in `BGRUW` order.
fn staple_colors_exec(colors: &Vec<String>) -> (s: String)
    ensures
        s@ == staple_colors(colors@),
{
    let mut s = String::new();
    if color_present_exec(colors, 'B') {
        push_str(&mut s, "B");
    }
    if color_present_exec(colors, 'G') {
        push_str(&mut s, "G");
    }
    if color_present_exec(colors, 'R') {
        push_str(&mut s, "R");
    }
    if color_present_exec(colors, 'U') {
        push_str(&mut s, "U");
    }
    if color_present_exec(colors, 'W') {
        push_str(&mut s, "W");
    }
    proof {
        reveal_strlit("B");
        reveal_strlit("G");
        reveal_strlit("R");
        reveal_strlit("U");
        reveal_strlit("W");
        assert(s@ =~= staple_colors(colors@));
    }
    s
}

/// One deck of the staples aggregate.
fn staple_deck(summary: &SeedDeckSummary, detail: &SeedDeckDetail) -> (d: StapleDeck)
    ensures
        staple_deck_of(*summary, *detail, d),
{
    let colors = staple_colors_exec(&summary.colors);
    let mut commanders: Vec<String> = Vec::new();
    let mut m: usize = 0;
    while m < detail.commander_names.len()
        invariant
            m <= detail.commander_names@.len(),
            commanders@.len() == m,
            forall|i: int|
                0 <= i < m ==> (#[trigger] commanders@[i])@ == front_face_lower_spec(
                    detail.commander_names@[i]@,
                ),
        decreases detail.commander_names@.len() - m,
    {
        let n = front_face_lower(detail.commander_names[m].as_str());
        commanders.push(n);
        m += 1;
    }
    let ghost names = detail.commander_names@;
    assert forall|x: Seq<char>|
        str_views(commanders@).contains(x) <==> exists|i: int|
            0 <= i < names.len() && front_face_lower_spec(#[trigger] names[i]@) == x by {
        if str_views(commanders@).contains(x) {
            let i = choose|i: int| 0 <= i < commanders@.len() && str_views(commanders@)[i] == x;
            assert(front_face_lower_spec(names[i]@) == x);
        }
        if exists|i: int| 0 <= i < names.len() && front_face_lower_spec(#[trigger] names[i]@) == x {
            let i = choose|i: int| 0 <= i < names.len() && front_face_lower_spec(#[trigger] names[i]@) == x;
            assert(str_views(commanders@)[i] == x);
        }
    }
    let mut cards: Vec<String> = Vec::new();
    let mut k: usize = 0;
    while k < detail.cards.len()
        invariant
            k <= detail.cards@.len(),
            names == detail.commander_names@,
            sorted_strict(str_views(cards@)),
            forall|x: Seq<char>|
                str_views(commanders@).contains(x) <==> exists|i: int|
                    0 <= i < names.len() && front_face_lower_spec(#[trigger] names[i]@) == x,
            forall|x: Seq<char>| #[trigger]
                str_views(cards@).contains(x) <==> (x.len() > 0 && (exists|j: int|
                    0 <= j < k && front_face_lower_spec(#[trigger] detail.cards@[j].0@) == x)
                    && !str_views(commanders@).contains(x)),
        decreases detail.cards@.len() - k,
    {
        let n = front_face_lower(detail.cards[k].0.as_str());
        let ghost before = str_views(cards@);
        if !n.as_str().is_empty() && !vec_contains_str(&commanders, n.as_str()) {
            insert_sorted_unique(&mut cards, n);
        }
        proof {
            assert forall|x: Seq<char>| #[trigger]
                str_views(cards@).contains(x) <==> (x.len() > 0 && (exists|j: int|
                    0 <= j < k + 1 && front_face_lower_spec(#[trigger] detail.cards@[j].0@) == x)
                    && !str_views(commanders@).contains(x)) by {
                if exists|j: int|
                    0 <= j < k + 1 && front_face_lower_spec(#[trigger] detail.cards@[j].0@) == x {
                    let j = choose|j: int|
                        0 <= j < k + 1 && front_face_lower_spec(#[trigger] detail.cards@[j].0@)
                            == x;
                    if j < k {
                        assert(exists|j2: int|
                            0 <= j2 < k && front_face_lower_spec(
                                #[trigger] detail.cards@[j2].0@,
                            ) == x);
                    }
                }
                if exists|j: int|
                    0 <= j < k && front_face_lower_spec(#[trigger] detail.cards@[j].0@) == x {
                    let j = choose|j: int|
                        0 <= j < k && front_face_lower_spec(#[trigger] detail.cards@[j].0@) == x;
                    assert(0 <= j < k + 1 && front_face_lower_spec(detail.cards@[j].0@) == x);
                }
                assert(front_face_lower_spec(detail.cards@[k as int].0@) == front_face_lower_spec(
                    detail.cards@[k as int].0@,
                ));
            }
        }
        k += 1;
    }
    let d = StapleDeck { colors, cards };
    proof {
        assert forall|x: Seq<char>| #[trigger]
            str_views(d.cards@).contains(x) <==> is_staple_card(*detail, x) by {
            assert(str_views(commanders@).contains(x) <==> exists|i: int|
                0 <= i < names.len() && front_face_lower_spec(#[trigger] names[i]@) == x);
        }
    }
    d
}

/// Builds the staples aggregate from fetched decks: per deck, its colour
/// letters sorted and without repeats, and its distinct lower-cased
/// front-face card names, sorted, without empty names and without its
/// commanders.
pub fn build_staples(built_at: i64, decks: &[(&SeedDeckSummary, &SeedDeckDetail)]) -> (agg:
    StaplesAggregate)
    ensures
        agg.built_at == built_at,
        agg.decks@.len() == decks@.len(),
        forall|i: int|
            0 <= i < decks@.len() ==> staple_deck_of(
                *decks@[i].0,
                *decks@[i].1,
                #[trigger] agg.decks@[i],
            ),
{
    let mut out: Vec<StapleDeck> = Vec::new();
    let mut i: usize = 0;
    while i < decks.len()
        invariant
            i <= decks@.len(),
            out@.len() == i,
            forall|k: int|
                0 <= k < i ==> staple_deck_of(*decks@[k].0, *decks@[k].1, #[trigger] out@[k]),
        decreases decks@.len() - i,
    {
        let (summary, detail) = decks[i];
        out.push(staple_deck(summary, detail));
        i += 1;
    }
    StaplesAggregate { built_at, decks: out }
}

// ---------------------------------------------------------------------------
// Staple shares
// ---------------------------------------------------------------------------

/// The decks a staple share is taken over: those whose colours fit the
/// identity when there are at least `STAPLES_MIN_DECKS` of them, else all.
pub open spec fn staple_pool_spec(decks: Seq<StapleDeck>, identity: u8) -> Seq<usize> {
    let fit = fitting_decks(decks, identity, decks.len() as int);
    if fit.len() >= STAPLES_MIN_DECKS {
        fit
    } else {
        Seq::new(decks.len(), |i: int| i as usize)
    }
}

/// The indices of the first `n` decks whose colours fit the identity.
pub open spec fn fitting_decks(decks: Seq<StapleDeck>, identity: u8, n: int) -> Seq<usize>
    decreases n,
{
    if n <= 0 {
        Seq::empty()
    } else {
        let prev = fitting_decks(decks, identity, n - 1);
        if subset_spec(mask_of_chars(decks[n - 1].colors@), identity) {
            prev.push((n - 1) as usize)
        } else {
            prev
        }
    }
}

/// The decks a staple share is taken over, by index.
pub fn staple_pool(agg: &StaplesAggregate, identity: u8) -> (pool: Vec<usize>)
    ensures
        pool@ == staple_pool_spec(agg.decks@, identity),
{
    let mut fit: Vec<usize> = Vec::new();
    let mut i: usize = 0;
    while i < agg.decks.len()
        invariant
            i <= agg.decks@.len(),
            fit@ == fitting_decks(agg.decks@, identity, i as int),
        decreases agg.decks@.len() - i,
    {
        if is_subset(mask_from_str(agg.decks[i].colors.as_str()), identity) {
            fit.push(i);
        }
        i += 1;
    }
    if fit.len() >= STAPLES_MIN_DECKS {
        fit
    } else {
        let mut all: Vec<usize> = Vec::new();
        let mut j: usize = 0;
        while j < agg.decks.len()
            invariant
                j <= agg.decks@.len(),
                all@ =~= Seq::new(j as nat, |k: int| k as usize),
            decreases agg.decks@.len() - j,
        {
            all.push(j);
            j += 1;
        }
        all
    }
}

/// The card names of the decks `pool[..n]`, one after the other.
pub open spec fn pooled_cards(decks: Seq<StapleDeck>, pool: Seq<usize>, n: int) -> Seq<Seq<char>>
    decreases n,
{
    if n <= 0 {
        Seq::empty()
    } else {
        pooled_cards(decks, pool, n - 1) + str_views(decks[pool[n - 1] as int].cards@)
    }
}

/// How often `x` occurs in `s`.
pub open spec fn count_in(s: Seq<Seq<char>>, x: Seq<char>) -> nat
    decreases s.len(),
{
    if s.len() == 0 {
        0
    } else {
        count_in(s.drop_last(), x) + if s.last() == x {
            1nat
        } else {
            0nat
        }
    }
}

/// The (card, count) pairs of `counts` state how often each card occurs in
/// `s`: every card of `s` once, with its count.
pub open spec fn counts_of(counts: Seq<(String, u32)>, s: Seq<Seq<char>>) -> bool {
    &&& forall|i: int, j: int| 0 <= i < j < counts.len() ==> counts[i].0@ != counts[j].0@
    &&& forall|i: int| 0 <= i < counts.len() ==> #[trigger] counts[i].1 == count_in(s, counts[i].0@)
    &&& forall|x: Seq<char>| #[trigger] count_in(s, x) > 0 ==> exists|i: int|
        0 <= i < counts.len() && counts[i].0@ == x
}

proof fn lemma_count_push(s: Seq<Seq<char>>, y: Seq<char>, x: Seq<char>)
    ensures
        count_in(s.push(y), x) == count_in(s, x) + if y == x {
            1nat
        } else {
            0nat
        },
{
    assert(s.push(y).drop_last() =~= s);
}

proof fn lemma_count_in_bound(s: Seq<Seq<char>>, x: Seq<char>)
    ensures
        count_in(s, x) <= s.len(),
    decreases s.len(),
{
    if s.len() > 0 {
        lemma_count_in_bound(s.drop_last(), x);
    }
}

/// Adds one occurrence of `y` to the counts.
fn bump(counts: &mut Vec<(String, u32)>, y: &String, Ghost(s): Ghost<Seq<Seq<char>>>)
    requires
        counts_of(old(counts)@, s),
        s.len() < u32::MAX,
    ensures
        counts_of(final(counts)@, s.push(y@)),
{
    proof {
        assert(s.push(y@).drop_last() =~= s);
        lemma_count_in_bound(s, y@);
    }
    let mut i: usize = 0;
    while i < counts.len()
        invariant
            i <= counts@.len(),
            counts@ == old(counts)@,
            counts_of(counts@, s),
            s.len() < u32::MAX,
            count_in(s, y@) <= s.len(),
            forall|k: int| 0 <= k < i ==> counts@[k].0@ != y@,
        decreases counts@.len() - i,
    {
        if crate::text::str_eq(counts[i].0.as_str(), y.as_str()) {
            let n = counts[i].1;
            assert(n == count_in(s, y@));
            let ghost before = counts@;
            counts.set(i, (y.clone(), n + 1));
            proof {
                assert forall|x: Seq<char>| #[trigger] count_in(s.push(y@), x) > 0 implies exists|
                    k: int,
                | 0 <= k < counts@.len() && counts@[k].0@ == x by {
                    lemma_count_push(s, y@, x);
                    if x == y@ {
                        assert(counts@[i as int].0@ == x);
                    } else {
                        assert(count_in(s, x) > 0);
                        let k = choose|k: int| 0 <= k < before.len() && before[k].0@ == x;
                        assert(counts@[k] == before[k]);
                    }
                }
                assert forall|k: int| 0 <= k < counts@.len() implies #[trigger] counts@[k].1
                    == count_in(s.push(y@), counts@[k].0@) by {
                    lemma_count_push(s, y@, counts@[k].0@);
                    if k != i {
                        assert(counts@[k] == before[k]);
                    }
                }
            }
            return;
        }
        i += 1;
    }
    let ghost before = counts@;
    counts.push((y.clone(), 1));
    proof {
        assert(count_in(s, y@) == 0) by {
            if count_in(s, y@) > 0 {
                let k = choose|k: int| 0 <= k < before.len() && before[k].0@ == y@;
                assert(before[k].0@ != y@);
            }
        }
        assert forall|x: Seq<char>| #[trigger] count_in(s.push(y@), x) > 0 implies exists|k: int|
            0 <= k < counts@.len() && counts@[k].0@ == x by {
            lemma_count_push(s, y@, x);
            if x == y@ {
                assert(counts@[before.len() as int].0@ == x);
            } else {
                assert(count_in(s, x) > 0);
                let k = choose|k: int| 0 <= k < before.len() && before[k].0@ == x;
                assert(counts@[k] == before[k]);
            }
        }
        assert forall|k: int| 0 <= k < counts@.len() implies #[trigger] counts@[k].1 == count_in(
            s.push(y@),
            counts@[k].0@,
        ) by {
            lemma_count_push(s, y@, counts@[k].0@);
            if k < before.len() {
                assert(counts@[k] == before[k]);
            }
        }
    }
}

/// How many of the decks `pool` list each card, each card once, in the
/// order first seen.
pub fn staple_counts(agg: &StaplesAggregate, pool: &Vec<usize>) -> (counts: Vec<(String, u32)>)
    requires
        forall|k: int| 0 <= k < pool@.len() ==> #[trigger] pool@[k] < agg.decks@.len(),
        pooled_cards(agg.decks@, pool@, pool@.len() as int).len() < u32::MAX,
    ensures
        counts_of(counts@, pooled_cards(agg.decks@, pool@, pool@.len() as int)),
{
    let mut counts: Vec<(String, u32)> = Vec::new();
    let ghost mut seen: Seq<Seq<char>> = Seq::empty();
    let mut n: usize = 0;
    while n < pool.len()
        invariant
            n <= pool@.len(),
            forall|k: int| 0 <= k < pool@.len() ==> #[trigger] pool@[k] < agg.decks@.len(),
            pooled_cards(agg.decks@, pool@, pool@.len() as int).len() < u32::MAX,
            seen == pooled_cards(agg.decks@, pool@, n as int),
            counts_of(counts@, seen),
        decreases pool@.len() - n,
    {
        let d = &agg.decks[pool[n]];
        proof {
            lemma_pooled_prefix(agg.decks@, pool@, n + 1, pool@.len() as int);
        }
        let mut c: usize = 0;
        while c < d.cards.len()
            invariant
                c <= d.cards@.len(),
                n < pool@.len(),
                *d == agg.decks@[pool@[n as int] as int],
                seen == pooled_cards(agg.decks@, pool@, n as int) + str_views(d.cards@.take(c as int)),
                pooled_cards(agg.decks@, pool@, n + 1).len() < u32::MAX,
                counts_of(counts@, seen),
            decreases d.cards@.len() - c,
        {
            proof {
                assert(seen.len() < pooled_cards(agg.decks@, pool@, n + 1).len());
            }
            bump(&mut counts, &d.cards[c], Ghost(seen));
            proof {
                assert(str_views(d.cards@.take(c + 1)) =~= str_views(d.cards@.take(c as int)).push(
                    d.cards@[c as int]@,
                ));
                seen = seen.push(d.cards@[c as int]@);
            }
            c += 1;
        }
        proof {
            assert(d.cards@.take(d.cards@.len() as int) =~= d.cards@);
        }
        n += 1;
    }
    counts
}

proof fn lemma_pooled_prefix(decks: Seq<StapleDeck>, pool: Seq<usize>, a: int, b: int)
    requires
        0 <= a <= b,
    ensures
        pooled_cards(decks, pool, a).len() <= pooled_cards(decks, pool, b).len(),
    decreases b - a,
{
    if a < b {
        lemma_pooled_prefix(decks, pool, a, b - 1);
    }
}

// ---------------------------------------------------------------------------
// Payloads
// ---------------------------------------------------------------------------

/// The colours of a deck-search entry given as a pip count per letter
/// (`{"W":0,...,"G":3}`): the letters, in `WUBRG` order, with a positive
/// count; `counts` holds the (letter, count) pairs as given, the last pair
/// for a letter winning.
pub open spec fn colors_from_counts_spec(counts: Seq<(String, u32)>) -> Seq<Seq<char>> {
    let w = if count_for(counts, "W"@) > 0 { seq!["W"@] } else { Seq::empty() };
    let u = if count_for(counts, "U"@) > 0 { seq!["U"@] } else { Seq::empty() };
    let b = if count_for(counts, "B"@) > 0 { seq!["B"@] } else { Seq::empty() };
    let r = if count_for(counts, "R"@) > 0 { seq!["R"@] } else { Seq::empty() };
    let g = if count_for(counts, "G"@) > 0 { seq!["G"@] } else { Seq::empty() };
    w + u + b + r + g
}

/// The count given for `key` (the last pair wins), 0 where none is.
pub open spec fn count_for(counts: Seq<(String, u32)>, key: Seq<char>) -> u32
    decreases counts.len(),
{
    if counts.len() == 0 {
        0
    } else if counts.last().0@ == key {
        counts.last().1
    } else {
        count_for(counts.drop_last(), key)
    }
}

fn count_for_exec(counts: &Vec<(String, u32)>, key: &str) -> (n: u32)
    ensures
        n == count_for(counts@, key@),
{
    let mut n: u32 = 0;
    let mut i: usize = 0;
    while i < counts.len()
        invariant
            i <= counts@.len(),
            n == count_for(counts@.take(i as int), key@),
        decreases counts@.len() - i,
    {
        assert(counts@.take(i + 1).drop_last() =~= counts@.take(i as int));
        if crate::text::str_eq(counts[i].0.as_str(), key) {
            n = counts[i].1;
        }
        i += 1;
    }
    assert(counts@.take(counts@.len() as int) =~= counts@);
    n
}

/// The colour letters of a pip-count map, in `WUBRG` order.
pub fn colors_from_counts(counts: &Vec<(String, u32)>) -> (out: Vec<String>)
    ensures
        str_views(out@) == colors_from_counts_spec(counts@),
{
    let mut out: Vec<String> = Vec::new();
    let ghost mut acc: Seq<Seq<char>> = Seq::empty();
    if count_for_exec(counts, "W") > 0 {
        out.push(owned("W"));
    }
    if count_for_exec(counts, "U") > 0 {
        out.push(owned("U"));
    }
    if count_for_exec(counts, "B") > 0 {
        out.push(owned("B"));
    }
    if count_for_exec(counts, "R") > 0 {
        out.push(owned("R"));
    }
    if count_for_exec(counts, "G") > 0 {
        out.push(owned("G"));
    }
    assert(str_views(out@) =~= colors_from_counts_spec(counts@));
    out
}

/// A deck-level category of an Archidekt deck.
#[derive(Debug, Clone)]
pub struct ArchidektCategory {
    pub name: String,
    pub included_in_deck: bool,
}

/// One card line of an Archidekt deck.
#[derive(Debug, Clone)]
pub struct ArchidektCard {
    pub quantity: u32,
    pub categories: Vec<String>,
    pub name: String,
}

/// The categories whose cards are not part of the deck: Maybeboard and
/// Sideboard always, and every deck category flagged not in the deck,
/// lower-cased.
pub open spec fn is_excluded_category(cats: Seq<ArchidektCategory>, lowered: Seq<char>) -> bool {
    lowered == "maybeboard"@ || lowered == "sideboard"@ || exists|i: int|
        0 <= i < cats.len() && !(#[trigger] cats[i]).included_in_deck && unicode_lower(
            cats[i].name@,
        ) == lowered
}

/// Whether a card line is a commander: one of its categories is
/// `Commander`, compared ignoring ASCII case.
pub open spec fn is_commander_line(card: ArchidektCard) -> bool {
    exists|j: int|
        0 <= j < card.categories@.len() && ascii_lower_seq(#[trigger] card.categories@[j]@)
            == "commander"@
}

/// Whether a card line is outside the deck: one of its categories,
/// lower-cased, is excluded.
pub open spec fn is_excluded_line(cats: Seq<ArchidektCategory>, card: ArchidektCard) -> bool {
    exists|j: int|
        0 <= j < card.categories@.len() && is_excluded_category(
            cats,
            unicode_lower(#[trigger] card.categories@[j]@),
        )
}

/// The commanders of the first `n` card lines, in order.
pub open spec fn deck_commanders(cards: Seq<ArchidektCard>, n: int) -> Seq<Seq<char>>
    decreases n,
{
    if n <= 0 {
        Seq::empty()
    } else {
        let prev = deck_commanders(cards, n - 1);
        if is_commander_line(cards[n - 1]) {
            prev.push(cards[n - 1].name@)
        } else {
            prev
        }
    }
}

/// The main-deck (name, quantity) lines of the first `n` card lines.
pub open spec fn deck_main(cats: Seq<ArchidektCategory>, cards: Seq<ArchidektCard>, n: int) -> Seq<
    (Seq<char>, u32),
>
    decreases n,
{
    if n <= 0 {
        Seq::empty()
    } else {
        let prev = deck_main(cats, cards, n - 1);
        let c = cards[n - 1];
        if is_commander_line(c) || is_excluded_line(cats, c) {
            prev
        } else {
            prev.push((c.name@, c.quantity))
        }
    }
}

fn is_commander_line_exec(card: &ArchidektCard) -> (b: bool)
    ensures
        b == is_commander_line(*card),
{
    let mut j: usize = 0;
    while j < card.categories.len()
        invariant
            j <= card.categories@.len(),
            forall|k: int|
                0 <= k < j ==> ascii_lower_seq(#[trigger] card.categories@[k]@) != "commander"@,
        decreases card.categories@.len() - j,
    {
        let cs = chars_of(card.categories[j].as_str());
        let l = ascii_lower_chars(cs.as_slice());
        let target = chars_of("commander");
        if crate::text::chars_eq(l.as_slice(), target.as_slice()) {
            return true;
        }
        j += 1;
    }
    false
}

fn is_excluded_line_exec(excluded: &Vec<String>, card: &ArchidektCard) -> (b: bool)
    ensures
        b == exists|j: int|
            0 <= j < card.categories@.len() && str_views(excluded@).contains(
                unicode_lower(#[trigger] card.categories@[j]@),
            ),
{
    let mut j: usize = 0;
    while j < card.categories.len()
        invariant
            j <= card.categories@.len(),
            forall|k: int|
                0 <= k < j ==> !str_views(excluded@).contains(
                    unicode_lower(#[trigger] card.categories@[k]@),
                ),
        decreases card.categories@.len() - j,
    {
        let l = to_lower(card.categories[j].as_str());
        if vec_contains_str(excluded, l.as_str()) {
            return true;
        }
        j += 1;
    }
    false
}

/// Builds a seed deck from the parts of an Archidekt deck payload: cards in
/// a `Commander` category are its commanders; cards in an excluded category
/// (Maybeboard, Sideboard, or a deck category not in the deck) are dropped;
/// the rest are the main deck with their quantities.
pub fn archidekt_deck_from_parts(
    id: i64,
    name: String,
    categories: &Vec<ArchidektCategory>,
    cards: Vec<ArchidektCard>,
) -> (d: SeedDeckDetail)
    ensures
        d.id == id,
        d.name == name,
        str_views(d.commander_names@) == deck_commanders(cards@, cards@.len() as int),
        d.cards@.map_values(|p: (String, u32)| (p.0@, p.1)) == deck_main(
            categories@,
            cards@,
            cards@.len() as int,
        ),
{
    let mut excluded: Vec<String> = Vec::new();
    excluded.push(owned("maybeboard"));
    excluded.push(owned("sideboard"));
    proof {
        let ev = str_views(excluded@);
        assert(ev.len() == 2);
        assert(ev[0] == "maybeboard"@);
        assert(ev[1] == "sideboard"@);
        assert forall|x: Seq<char>| #[trigger]
            str_views(excluded@).contains(x) <==> (x == "maybeboard"@ || x == "sideboard"@) by {
            if x == "maybeboard"@ {
                assert(ev[0] == x);
            }
            if x == "sideboard"@ {
                assert(ev[1] == x);
            }
        }
    }
    let mut k: usize = 0;
    while k < categories.len()
        invariant
            k <= categories@.len(),
            forall|x: Seq<char>|
                #![trigger str_views(excluded@).contains(x)]
                str_views(excluded@).contains(x) <==> (x == "maybeboard"@ || x == "sideboard"@
                    || exists|i: int|
                    0 <= i < k && !(#[trigger] categories@[i]).included_in_deck && unicode_lower(
                        categories@[i].name@,
                    ) == x),
        decreases categories@.len() - k,
    {
        if !categories[k].included_in_deck {
            let l = to_lower(categories[k].name.as_str());
            let ghost before = str_views(excluded@);
            let ghost lv = l@;
            excluded.push(l);
            proof {
                assert(str_views(excluded@) =~= before.push(lv));
                assert forall|x: Seq<char>|
                    #![trigger str_views(excluded@).contains(x)]
                    str_views(excluded@).contains(x) <==> (before.contains(x) || x == lv) by {
                    if str_views(excluded@).contains(x) {
                        let m = choose|m: int|
                            0 <= m < str_views(excluded@).len() && str_views(excluded@)[m] == x;
                        if m < before.len() {
                            assert(before[m] == x);
                        }
                    }
                    if before.contains(x) {
                        let m = choose|m: int| 0 <= m < before.len() && before[m] == x;
                        assert(str_views(excluded@)[m] == x);
                    }
                    if x == lv {
                        assert(str_views(excluded@)[before.len() as int] == x);
                    }
                }
            }
        }
        k += 1;
    }
    let mut commander_names: Vec<String> = Vec::new();
    let mut main: Vec<(String, u32)> = Vec::new();
    let mut i: usize = 0;
    while i < cards.len()
        invariant
            i <= cards@.len(),
            forall|x: Seq<char>|
                #![trigger str_views(excluded@).contains(x)]
                str_views(excluded@).contains(x) <==> is_excluded_category(categories@, x),
            str_views(commander_names@) == deck_commanders(cards@, i as int),
            main@.map_values(|p: (String, u32)| (p.0@, p.1)) == deck_main(
                categories@,
                cards@,
                i as int,
            ),
        decreases cards@.len() - i,
    {
        let c = &cards[i];
        if is_commander_line_exec(c) {
            let ghost before = str_views(commander_names@);
            commander_names.push(c.name.clone());
            assert(str_views(commander_names@) =~= before.push(c.name@));
        } else if is_excluded_line_exec(&excluded, c) {
        } else {
            let ghost before = main@;
            main.push((c.name.clone(), c.quantity));
            assert(main@.map_values(|p: (String, u32)| (p.0@, p.1)) =~= before.map_values(
                |p: (String, u32)| (p.0@, p.1),
            ).push((c.name@, c.quantity)));
        }
        i += 1;
    }
    SeedDeckDetail { id, name, commander_names, cards: main }
}

} // verus!
