//! Community data sources (EDHREC, Commander Spellbook, 17Lands): cache
//! policy, page slugs and URL builders.

use vstd::prelude::*;

use super::engine::types::Format;
use super::store::CacheHit;
use crate::numbers::{decimal, fmt_u64};
use crate::text::{
    ascii_lower, ascii_lower_exec, chars_of, front_face, front_face_chars, is_ascii_alnum,
    is_ascii_alnum_exec, owned, push_str, string_of, to_lower, unicode_lower,
};

verus! {

/// A community data source.
#[derive(Debug, Clone, Copy, PartialEq, Eq, Hash, Structural)]
pub enum SourceKind {
    Edhrec,
    ArchidektList,
    ArchidektDeck,
    Spellbook,
    SeventeenLands,
}

impl SourceKind {
    /// The host a source is rate-limited under.
    pub fn host(self) -> (s: &'static str)
        ensures
            s@ == (match self {
                SourceKind::Edhrec => "edhrec"@,
                SourceKind::ArchidektList => "archidekt"@,
                SourceKind::ArchidektDeck => "archidekt"@,
                SourceKind::Spellbook => "spellbook"@,
                SourceKind::SeventeenLands => "17lands"@,
            }),
    {
        match self {
            SourceKind::Edhrec => "edhrec",
            SourceKind::ArchidektList | SourceKind::ArchidektDeck => "archidekt",
            SourceKind::Spellbook => "spellbook",
            SourceKind::SeventeenLands => "17lands",
        }
    }

    /// How long a cached response stays fresh, in seconds.
    pub fn ttl_secs(self) -> (t: i64)
        ensures
            t == (match self {
                SourceKind::Edhrec => 7 * 86_400,
                SourceKind::ArchidektList => 86_400,
                SourceKind::ArchidektDeck => 86_400,
                SourceKind::Spellbook => 7 * 86_400,
                SourceKind::SeventeenLands => 30 * 86_400,
            }),
    {
        match self {
            SourceKind::Edhrec => 7 * 86_400,
            SourceKind::ArchidektList | SourceKind::ArchidektDeck => 86_400,
            SourceKind::Spellbook => 7 * 86_400,
            SourceKind::SeventeenLands => 30 * 86_400,
        }
    }
}

pub const SOURCE_DAILY_CAP: u32 = 200;

pub const HOST_SPACING_MS: u64 = 250;

pub const DEGRADE_AFTER_FAILURES: u32 = 3;

/// Whether to serve the cache, fetch, or block a source request.
#[derive(Debug, Clone, PartialEq)]
pub enum FetchDecision {
    /// Fresh cache entry present; return its body without any network call.
    UseCache(String),
    /// No fresh cache; fetch. `stale` is the last cached body (if any) to fall
    /// back to on network failure.
    Fetch { stale: Option<String> },
    /// Blocked by degrade-after-failures or the daily cap. Return `stale` if
    /// any, else surface `code` (DECK-007 host degraded / DECK-008 daily cap).
    Blocked { stale: Option<String>, code: &'static str },
}

/// The body of a stale (not fresh) cache entry.
pub open spec fn stale_body(fresh: Option<CacheHit>) -> Option<Seq<char>> {
    match fresh {
        Some(h) => if h.fresh {
            None
        } else {
            Some(h.body@)
        },
        None => None,
    }
}

/// The character view of an optional string.
pub open spec fn opt_str_view(o: Option<String>) -> Option<Seq<char>> {
    match o {
        Some(s) => Some(s@),
        None => None,
    }
}

/// Cache policy for one source request: a fresh entry is served; otherwise
/// a host that failed too often is blocked (DECK-007), then a host at its
/// daily cap (DECK-008); otherwise fetch, keeping any stale body.
pub fn decide_fetch(fresh: Option<CacheHit>, failures: u32, hits: u32) -> (d: FetchDecision)
    ensures
        (fresh matches Some(h) && h.fresh) ==> (d matches FetchDecision::UseCache(b) && b@ == fresh->0.body@),
        !(fresh matches Some(h) && h.fresh) ==> {
            if failures >= DEGRADE_AFTER_FAILURES {
                d matches FetchDecision::Blocked { stale, code } && opt_str_view(stale) == stale_body(fresh)
                    && code@ == "DECK-007"@
            } else if hits >= SOURCE_DAILY_CAP {
                d matches FetchDecision::Blocked { stale, code } && opt_str_view(stale) == stale_body(fresh)
                    && code@ == "DECK-008"@
            } else {
                d matches FetchDecision::Fetch { stale } && opt_str_view(stale) == stale_body(fresh)
            }
        },
{
    if let Some(hit) = fresh.as_ref() {
        if hit.fresh {
            return FetchDecision::UseCache(hit.body.clone());
        }
    }
    let stale = match fresh {
        Some(h) => if h.fresh {
            None
        } else {
            Some(h.body)
        },
        None => None,
    };
    if failures >= DEGRADE_AFTER_FAILURES {
        return FetchDecision::Blocked { stale, code: "DECK-007" };
    }
    if hits >= SOURCE_DAILY_CAP {
        return FetchDecision::Blocked { stale, code: "DECK-008" };
    }
    FetchDecision::Fetch { stale }
}

/// How a failed fetch from `host` ends, given the host's consecutive
/// failures counting this one: whether the host is now degraded (warned
/// about once by the caller), and the stale cached body when there is one,
/// else the error `"DECK-007: {host} fetch failed: {msg}"`.
pub fn fetch_failure(failures: u32, host: &str, stale: Option<String>, msg: &str) -> (r: (
    bool,
    Result<String, String>,
))
    ensures
        r.0 == (failures >= DEGRADE_AFTER_FAILURES),
        match stale {
            Some(b) => r.1 matches Ok(x) && x@ == b@,
            None => r.1 matches Err(e) && e@ == "DECK-007: "@ + host@ + " fetch failed: "@ + msg@,
        },
{
    let degraded = failures >= DEGRADE_AFTER_FAILURES;
    match stale {
        Some(body) => (degraded, Ok(body)),
        None => {
            let mut e = owned("DECK-007: ");
            push_str(&mut e, host);
            push_str(&mut e, " fetch failed: ");
            push_str(&mut e, msg);
            (degraded, Err(e))
        },
    }
}

/// The combos of a Commander Spellbook page, each card name lower-cased.
pub fn spellbook_combos(combos: &Vec<Vec<String>>) -> (out: Vec<Vec<String>>)
    ensures
        out@.len() == combos@.len(),
        forall|i: int|
            0 <= i < combos@.len() ==> (#[trigger] out@[i])@.len() == combos@[i]@.len()
                && forall|j: int|
                0 <= j < combos@[i]@.len() ==> (#[trigger] out@[i]@[j])@ == unicode_lower(
                    combos@[i]@[j]@,
                ),
{
    let mut out: Vec<Vec<String>> = Vec::new();
    let mut i: usize = 0;
    while i < combos.len()
        invariant
            i <= combos@.len(),
            out@.len() == i,
            forall|a: int|
                0 <= a < i ==> (#[trigger] out@[a])@.len() == combos@[a]@.len() && forall|j: int|
                    0 <= j < combos@[a]@.len() ==> (#[trigger] out@[a]@[j])@ == unicode_lower(
                        combos@[a]@[j]@,
                    ),
        decreases combos@.len() - i,
    {
        let combo = &combos[i];
        let mut names: Vec<String> = Vec::new();
        let mut j: usize = 0;
        while j < combo.len()
            invariant
                j <= combo@.len(),
                names@.len() == j,
                forall|b: int| 0 <= b < j ==> (#[trigger] names@[b])@ == unicode_lower(combo@[b]@),
            decreases combo@.len() - j,
        {
            names.push(to_lower(combo[j].as_str()));
            j += 1;
        }
        out.push(names);
        i += 1;
    }
    out
}

// ---------------------------------------------------------------------------
// EDHREC page slug
// ---------------------------------------------------------------------------

/// One step of slug building: ASCII letters and digits are kept
/// lower-cased; a space, `-` or `_` becomes one `-` unless the slug already
/// ends in a separator (or is empty); anything else is dropped. The flag is
/// "the last thing written was a separator, or nothing was written".
pub open spec fn slug_step(acc: (Seq<char>, bool), c: char) -> (Seq<char>, bool) {
    let l = ascii_lower(c);
    if is_ascii_alnum(l) {
        (acc.0.push(l), false)
    } else if l == ' ' || l == '-' || l == '_' {
        if !acc.1 {
            (acc.0.push('-'), true)
        } else {
            acc
        }
    } else {
        acc
    }
}

/// Slug building over all of `s`.
pub open spec fn slug_fold(s: Seq<char>) -> (Seq<char>, bool)
    decreases s.len(),
{
    if s.len() == 0 {
        (seq![], true)
    } else {
        slug_step(slug_fold(s.drop_last()), s.last())
    }
}

/// `s` without trailing `-`.
pub open spec fn strip_trailing_dashes(s: Seq<char>) -> Seq<char>
    decreases s.len(),
{
    if s.len() > 0 && s.last() == '-' {
        strip_trailing_dashes(s.drop_last())
    } else {
        s
    }
}

/// The EDHREC page slug of a card name (front face only).
pub open spec fn edhrec_slug_spec(name: Seq<char>) -> Seq<char> {
    strip_trailing_dashes(slug_fold(front_face(name)).0)
}

/// A slug character: lower-case ASCII letter, digit or `-`.
pub open spec fn is_slug_char(c: char) -> bool {
    ('a' <= c && c <= 'z') || ('0' <= c && c <= '9') || c == '-'
}

/// The EDHREC page slug of a commander: the front face, ASCII lower-cased,
/// letters and digits kept, runs of spaces/dashes/underscores collapsed to
/// one `-`, other characters dropped, no trailing `-`.
pub fn edhrec_slug(name: &str) -> (out: String)
    ensures
        out@ == edhrec_slug_spec(name@),
{
    let n = chars_of(name);
    let front = front_face_chars(n.as_slice());
    let mut out: Vec<char> = Vec::new();
    let mut prev_dash = true;
    let mut i: usize = 0;
    while i < front.len()
        invariant
            i <= front@.len(),
            (out@, prev_dash) == slug_fold(front@.take(i as int)),
        decreases front@.len() - i,
    {
        let ch = front[i];
        let lower = ascii_lower_exec(ch);
        assert(front@.take(i + 1).drop_last() =~= front@.take(i as int));
        assert(front@.take(i + 1).last() == ch);
        if is_ascii_alnum_exec(lower) {
            out.push(lower);
            prev_dash = false;
        } else if lower == ' ' || lower == '-' || lower == '_' {
            if !prev_dash {
                out.push('-');
                prev_dash = true;
            }
        }
        i += 1;
    }
    assert(front@.take(front@.len() as int) =~= front@);
    let ghost folded = out@;
    while out.len() > 0 && out[out.len() - 1] == '-'
        invariant
            strip_trailing_dashes(out@) == strip_trailing_dashes(folded),
        decreases out@.len(),
    {
        let ghost before = out@;
        out.pop();
        assert(out@ =~= before.drop_last());
    }
    string_of(out.as_slice())
}

proof fn lemma_slug_fold_chars(s: Seq<char>)
    ensures
        forall|i: int| 0 <= i < slug_fold(s).0.len() ==> is_slug_char(#[trigger] slug_fold(s).0[i]),
        slug_fold(s).0.len() > 0 ==> slug_fold(s).0[0] != '-',
        slug_fold(s).1 <==> (slug_fold(s).0.len() == 0 || slug_fold(s).0.last() == '-'),
        forall|i: int|
            0 <= i < slug_fold(s).0.len() - 1 ==> !(#[trigger] slug_fold(s).0[i] == '-' && slug_fold(
                s,
            ).0[i + 1] == '-'),
    decreases s.len(),
{
    if s.len() > 0 {
        lemma_slug_fold_chars(s.drop_last());
        let prev = slug_fold(s.drop_last());
        let l = ascii_lower(s.last());
        if is_ascii_alnum(l) {
            assert(is_slug_char(l));
        }
        let cur = slug_fold(s);
        assert forall|i: int| 0 <= i < cur.0.len() implies is_slug_char(#[trigger] cur.0[i]) by {
            if i < prev.0.len() {
                assert(cur.0[i] == prev.0[i]);
            }
        }
        assert forall|i: int| 0 <= i < cur.0.len() - 1 implies !(#[trigger] cur.0[i] == '-'
            && cur.0[i + 1] == '-') by {
            if i + 1 < prev.0.len() {
                assert(cur.0[i] == prev.0[i]);
                assert(cur.0[i + 1] == prev.0[i + 1]);
            } else if cur.0.len() > prev.0.len() {
                assert(cur.0[i] == prev.0[i]);
            }
        }
    }
}

proof fn lemma_strip_dashes(s: Seq<char>)
    ensures
        strip_trailing_dashes(s).len() <= s.len(),
        strip_trailing_dashes(s) == s.take(strip_trailing_dashes(s).len() as int),
        strip_trailing_dashes(s).len() > 0 ==> strip_trailing_dashes(s).last() != '-',
    decreases s.len(),
{
    if s.len() > 0 && s.last() == '-' {
        lemma_strip_dashes(s.drop_last());
        let t = strip_trailing_dashes(s.drop_last());
        assert(s.drop_last().take(t.len() as int) =~= s.take(t.len() as int));
    } else {
        assert(s.take(s.len() as int) =~= s);
    }
}

/// A slug holds only lower-case ASCII letters, digits and single
/// dashes, and neither starts nor ends with a dash.
pub proof fn lemma_slug_shape(name: Seq<char>)
    ensures
        forall|i: int|
            0 <= i < edhrec_slug_spec(name).len() ==> is_slug_char(#[trigger] edhrec_slug_spec(name)[i]),
        edhrec_slug_spec(name).len() > 0 ==> edhrec_slug_spec(name)[0] != '-',
        edhrec_slug_spec(name).len() > 0 ==> edhrec_slug_spec(name).last() != '-',
        forall|i: int|
            0 <= i < edhrec_slug_spec(name).len() - 1 ==> !(#[trigger] edhrec_slug_spec(name)[i] == '-'
                && edhrec_slug_spec(name)[i + 1] == '-'),
{
    let f = slug_fold(front_face(name)).0;
    lemma_slug_fold_chars(front_face(name));
    lemma_strip_dashes(f);
    let s = edhrec_slug_spec(name);
    assert forall|i: int| 0 <= i < s.len() implies is_slug_char(#[trigger] s[i]) by {
        assert(s[i] == f[i]);
    }
    assert forall|i: int| 0 <= i < s.len() - 1 implies !(#[trigger] s[i] == '-' && s[i + 1] == '-') by {
        assert(s[i] == f[i]);
        assert(s[i + 1] == f[i + 1]);
    }
    if s.len() > 0 {
        assert(s[0] == f[0]);
    }
}

// ---------------------------------------------------------------------------
// URL builders
// ---------------------------------------------------------------------------

/// The EDHREC JSON page of a commander.
pub fn edhrec_url(name: &str) -> (url: String)
    ensures
        url@ == "https://json.edhrec.com/pages/commanders/"@ + edhrec_slug_spec(name@) + ".json"@,
{
    let mut url = owned("https://json.edhrec.com/pages/commanders/");
    let slug = edhrec_slug(name);
    push_str(&mut url, slug.as_str());
    push_str(&mut url, ".json");
    url
}

/// The Commander Spellbook query naming the format's legality.
pub open spec fn spellbook_query(format: Format) -> Seq<char> {
    match format {
        Format::Brawl100 => "legal:brawl"@,
        Format::StandardBrawl60 => "legal:standardBrawl"@,
    }
}

/// One page of Commander Spellbook combos legal in `format`.
pub fn spellbook_url(format: Format, page: u32) -> (url: String)
    ensures
        url@ == "https://backend.commanderspellbook.com/variants/?q="@ + spellbook_query(format)
            + "&limit=100&page="@ + decimal(page as nat),
{
    let q = match format {
        Format::Brawl100 => "legal:brawl",
        Format::StandardBrawl60 => "legal:standardBrawl",
    };
    let mut url = owned("https://backend.commanderspellbook.com/variants/?q=");
    push_str(&mut url, q);
    push_str(&mut url, "&limit=100&page=");
    let p = fmt_u64(page as u64);
    push_str(&mut url, p.as_str());
    url
}

/// The 17Lands card ratings of a set (Premier Draft).
pub fn seventeenlands_url(set_code: &str) -> (url: String)
    ensures
        url@ == "https://www.17lands.com/card_ratings/data?expansion="@ + set_code@
            + "&format=PremierDraft"@,
{
    let mut url = owned("https://www.17lands.com/card_ratings/data?expansion=");
    push_str(&mut url, set_code);
    push_str(&mut url, "&format=PremierDraft");
    url
}

} // verus!
