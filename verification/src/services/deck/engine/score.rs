//! Scoring vocabulary: the word naming a rarity and the word tokens of a
//! card's text, used to match tribal subtypes on word boundaries.

use vstd::prelude::*;

use crate::models::Rarity;
use crate::text::{
    chars_of, is_ascii_alnum, is_ascii_alnum_exec, owned, push_char, push_str, str_views,
    string_of, to_lower, unicode_lower, vec_contains_str, all_ascii, ascii_lower_seq,
};

verus! {

/// The word naming a rarity in reasons ("needs rare wildcard").
pub fn rarity_word(r: &Rarity) -> (w: &'static str)
    ensures
        w@ == (match r {
            Rarity::Common => "common"@,
            Rarity::Uncommon => "uncommon"@,
            Rarity::Rare => "rare"@,
            Rarity::Mythic => "mythic"@,
            Rarity::Special => "special"@,
            Rarity::BasicLand => "basic land"@,
            Rarity::Unknown(_) => "unknown"@,
        }),
{
    match r {
        Rarity::Common => "common",
        Rarity::Uncommon => "uncommon",
        Rarity::Rare => "rare",
        Rarity::Mythic => "mythic",
        Rarity::Special => "special",
        Rarity::BasicLand => "basic land",
        Rarity::Unknown(_) => "unknown",
    }
}

/// The runs of ASCII letters and digits of `s` read so far: the runs
/// already closed by another character, and the run still open.
pub open spec fn runs_state(s: Seq<char>) -> (Seq<Seq<char>>, Seq<char>)
    decreases s.len(),
{
    if s.len() == 0 {
        (Seq::empty(), Seq::empty())
    } else {
        let (closed, cur) = runs_state(s.drop_last());
        if is_ascii_alnum(s.last()) {
            (closed, cur.push(s.last()))
        } else if cur.len() > 0 {
            (closed.push(cur), Seq::empty())
        } else {
            (closed, Seq::empty())
        }
    }
}

/// The maximal runs of ASCII letters and digits of `s`, in order.
pub open spec fn alnum_runs(s: Seq<char>) -> Seq<Seq<char>> {
    let (closed, cur) = runs_state(s);
    if cur.len() > 0 {
        closed.push(cur)
    } else {
        closed
    }
}

/// Whether `x` is a token that word `w` yields: the word itself, and for a
/// word of more than three characters its naive singular (`-ves` to `-f`,
/// `-ies` to `-y`, and without a final `s`).
pub open spec fn word_yields(w: Seq<char>, x: Seq<char>) -> bool {
    ||| x == w
    ||| w.len() > 3 && w.skip(w.len() - 3) == "ves"@ && x == w.take(w.len() - 3) + "f"@
    ||| w.len() > 3 && w.skip(w.len() - 3) == "ies"@ && x == w.take(w.len() - 3) + "y"@
    ||| w.len() > 3 && w.last() == 's' && x == w.drop_last()
}

/// Whether `x` is a token of a card's text.
pub open spec fn is_token(type_line: Seq<char>, oracle_text: Seq<char>, x: Seq<char>) -> bool {
    let runs = alnum_runs(unicode_lower(type_line + " "@ + oracle_text));
    exists|k: int| 0 <= k < runs.len() && word_yields(#[trigger] runs[k], x)
}

/// `is_token` for ASCII text, where lower-casing is ASCII lower-casing.
pub open spec fn is_token_ascii(type_line: Seq<char>, oracle_text: Seq<char>, x: Seq<char>) -> bool {
    let runs = alnum_runs(ascii_lower_seq(type_line + " "@ + oracle_text));
    exists|k: int| 0 <= k < runs.len() && word_yields(#[trigger] runs[k], x)
}

/// Adds `s` to `v` unless it is already there.
fn add_token(v: &mut Vec<String>, s: String)
    requires
        str_views(old(v)@).no_duplicates(),
    ensures
        str_views(final(v)@).no_duplicates(),
        forall|x: Seq<char>| #[trigger]
            str_views(final(v)@).contains(x) <==> (str_views(old(v)@).contains(x) || x == s@),
{
    if !vec_contains_str(v, s.as_str()) {
        let ghost before = str_views(v@);
        let ghost sv = s@;
        v.push(s);
        proof {
            assert(str_views(v@) =~= before.push(sv));
            assert forall|x: Seq<char>| #[trigger]
                str_views(v@).contains(x) <==> (before.contains(x) || x == sv) by {
                if str_views(v@).contains(x) {
                    let k = choose|k: int| 0 <= k < str_views(v@).len() && str_views(v@)[k] == x;
                    if k < before.len() {
                        assert(before[k] == x);
                    }
                }
                if before.contains(x) {
                    let k = choose|k: int| 0 <= k < before.len() && before[k] == x;
                    assert(str_views(v@)[k] == x);
                }
                if x == sv {
                    assert(str_views(v@)[before.len() as int] == x);
                }
            }
        }
    }
}

/// Adds the tokens word `w` yields.
fn add_word(v: &mut Vec<String>, w: &Vec<char>)
    requires
        str_views(old(v)@).no_duplicates(),
    ensures
        str_views(final(v)@).no_duplicates(),
        forall|x: Seq<char>| #[trigger]
            str_views(final(v)@).contains(x) <==> (str_views(old(v)@).contains(x) || word_yields(
                w@,
                x,
            )),
{
    let n = w.len();
    add_token(v, string_of(w.as_slice()));
    let ghost after_word = str_views(v@);
    if n > 3 {
        let tail = string_of(&w.as_slice()[n - 3..n]);
        let head = string_of(&w.as_slice()[0..n - 3]);
        let ghost tail_v = w@.skip(n - 3);
        assert(tail@ =~= w@.skip(n - 3));
        assert(head@ =~= w@.take(n - 3));
        if crate::text::str_eq(tail.as_str(), "ves") {
            let mut stem = head.clone();
            push_char(&mut stem, 'f');
            proof {
                reveal_strlit("f");
                assert(stem@ =~= w@.take(n - 3) + "f"@);
            }
            add_token(v, stem);
        }
        if crate::text::str_eq(tail.as_str(), "ies") {
            let mut stem = head.clone();
            push_char(&mut stem, 'y');
            proof {
                reveal_strlit("y");
                assert(stem@ =~= w@.take(n - 3) + "y"@);
            }
            add_token(v, stem);
        }
        if w[n - 1] == 's' {
            let stem = string_of(&w.as_slice()[0..n - 1]);
            assert(stem@ =~= w@.drop_last());
            add_token(v, stem);
        }
    }
}

proof fn lemma_runs_step(s: Seq<char>, c: char)
    ensures
        runs_state(s.push(c)) == ({
            let (closed, cur) = runs_state(s);
            if is_ascii_alnum(c) {
                (closed, cur.push(c))
            } else if cur.len() > 0 {
                (closed.push(cur), Seq::<char>::empty())
            } else {
                (closed, Seq::<char>::empty())
            }
        }),
{
    assert(s.push(c).drop_last() =~= s);
}

/// The word tokens of a card's type line and rules text, each once: the
/// lower-cased text split at every character that is not an ASCII letter or
/// digit, with naive singulars of plural-looking words.
pub fn tokenize(type_line: &str, oracle_text: &str) -> (out: Vec<String>)
    ensures
        str_views(out@).no_duplicates(),
        forall|x: Seq<char>| #[trigger]
            str_views(out@).contains(x) <==> is_token(type_line@, oracle_text@, x),
        all_ascii(type_line@) && all_ascii(oracle_text@) ==> forall|x: Seq<char>| #[trigger]
            str_views(out@).contains(x) <==> is_token_ascii(type_line@, oracle_text@, x),
{
    let mut joined = owned(type_line);
    push_str(&mut joined, " ");
    push_str(&mut joined, oracle_text);
    let text = to_lower(joined.as_str());
    let cs = chars_of(text.as_str());
    let ghost full = cs@;
    let mut out: Vec<String> = Vec::new();
    let mut cur: Vec<char> = Vec::new();
    let mut i: usize = 0;
    while i < cs.len()
        invariant
            i <= cs@.len(),
            full == cs@,
            str_views(out@).no_duplicates(),
            cur@ == runs_state(cs@.take(i as int)).1,
            forall|x: Seq<char>| #[trigger]
                str_views(out@).contains(x) <==> exists|k: int|
                    0 <= k < runs_state(cs@.take(i as int)).0.len() && word_yields(
                        #[trigger] runs_state(cs@.take(i as int)).0[k],
                        x,
                    ),
        decreases cs@.len() - i,
    {
        let c = cs[i];
        let ghost pre = cs@.take(i as int);
        let ghost st = runs_state(pre);
        let ghost out_before = str_views(out@);
        proof {
            assert(cs@.take(i + 1) =~= pre.push(c));
            lemma_runs_step(pre, c);
        }
        if is_ascii_alnum_exec(c) {
            cur.push(c);
        } else if cur.len() > 0 {
            let ghost before = str_views(out@);
            add_word(&mut out, &cur);
            proof {
                let closed2 = st.0.push(cur@);
                assert forall|x: Seq<char>| #[trigger]
                    str_views(out@).contains(x) <==> exists|k: int|
                        0 <= k < closed2.len() && word_yields(#[trigger] closed2[k], x) by {
                    if exists|k: int| 0 <= k < closed2.len() && word_yields(#[trigger] closed2[k], x) {
                        let k = choose|k: int|
                            0 <= k < closed2.len() && word_yields(#[trigger] closed2[k], x);
                        if k < st.0.len() {
                            assert(closed2[k] == st.0[k]);
                        }
                    }
                    if before.contains(x) {
                        let k = choose|k: int|
                            0 <= k < st.0.len() && word_yields(#[trigger] st.0[k], x);
                        assert(closed2[k] == st.0[k]);
                    }
                    if word_yields(cur@, x) {
                        assert(closed2[st.0.len() as int] == cur@);
                    }
                }
            }
            cur = Vec::new();
        }
        proof {
            let nc = runs_state(cs@.take(i + 1)).0;
            if is_ascii_alnum(c) || st.1.len() == 0 {
                assert(nc == st.0);
                assert(str_views(out@) == out_before);
                assert forall|x: Seq<char>| #[trigger]
                    str_views(out@).contains(x) <==> exists|k: int|
                        0 <= k < nc.len() && word_yields(#[trigger] nc[k], x) by {
                    if str_views(out@).contains(x) {
                        let k = choose|k: int| 0 <= k < st.0.len() && word_yields(#[trigger] st.0[k], x);
                        assert(nc[k] == st.0[k]);
                    }
                }
            } else {
                assert(nc == st.0.push(st.1));
            }
        }
        i += 1;
    }
    proof {
        assert(cs@.take(cs@.len() as int) =~= cs@);
    }
    let ghost st = runs_state(cs@);
    if cur.len() > 0 {
        let ghost before = str_views(out@);
        add_word(&mut out, &cur);
        proof {
            let runs = st.0.push(cur@);
            assert(runs == alnum_runs(cs@));
            assert forall|x: Seq<char>| #[trigger]
                str_views(out@).contains(x) <==> exists|k: int|
                    0 <= k < runs.len() && word_yields(#[trigger] runs[k], x) by {
                if exists|k: int| 0 <= k < runs.len() && word_yields(#[trigger] runs[k], x) {
                    let k = choose|k: int| 0 <= k < runs.len() && word_yields(#[trigger] runs[k], x);
                    if k < st.0.len() {
                        assert(runs[k] == st.0[k]);
                    }
                }
                if before.contains(x) {
                    let k = choose|k: int| 0 <= k < st.0.len() && word_yields(#[trigger] st.0[k], x);
                    assert(runs[k] == st.0[k]);
                }
                if word_yields(cur@, x) {
                    assert(runs[st.0.len() as int] == cur@);
                }
            }
        }
    }
    proof {
        reveal_strlit(" ");
        assert(joined@ =~= type_line@ + " "@ + oracle_text@);
        let runs = alnum_runs(cs@);
        assert(runs == alnum_runs(unicode_lower(type_line@ + " "@ + oracle_text@)));
        assert forall|x: Seq<char>| #[trigger]
            str_views(out@).contains(x) <==> is_token(type_line@, oracle_text@, x) by {
            if st.1.len() == 0 {
                assert(runs == st.0);
            }
        }
        if all_ascii(type_line@) && all_ascii(oracle_text@) {
            let j = type_line@ + " "@ + oracle_text@;
            assert forall|i: int| 0 <= i < j.len() implies (#[trigger] j[i] as u32) < 128 by {
                if i < type_line@.len() {
                    assert(j[i] == type_line@[i]);
                } else if i == type_line@.len() {
                    assert(j[i] == ' ');
                } else {
                    assert(j[i] == oracle_text@[i - type_line@.len() - 1]);
                }
            }
            assert(unicode_lower(j) == ascii_lower_seq(j));
            assert forall|x: Seq<char>| #[trigger]
                str_views(out@).contains(x) <==> is_token_ascii(type_line@, oracle_text@, x) by {
                assert(is_token(type_line@, oracle_text@, x) == is_token_ascii(
                    type_line@,
                    oracle_text@,
                    x,
                ));
            }
        }
    }
    out
}

} // verus!
