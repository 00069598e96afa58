//! Scryfall bulk data: the rules that turn parsed card and tag rows into
//! store records, the grp-to-oracle join, and the byte-level framing of the
//! bulk files (gzip detection and JSON-lines splitting).

use std::collections::HashMap;

use vstd::std_specs::iter::IteratorSpec;

use vstd::prelude::*;

use crate::models::CardInfo;
use crate::numbers::{parse_i32, parse_i32_str};
use super::engine::roles::opt_view;
use super::store::{IngestArena, IngestOracle, IngestTag};
use crate::text::{
    owned, push_str, str_eq, str_views, chars_of, contains, contains_chars, front_face, front_face_chars, string_of, to_lower, trim,
    trim_chars, unicode_lower, all_ascii, ascii_lower_seq, lemma_ascii_trimmed_front,
};

verus! {

/// The colour letters named by `letters` (by their first character), in
/// `WUBRG` order.
pub open spec fn identity_of(letters: Seq<String>) -> Seq<char> {
    (if names_letter(letters, 'W') { seq!['W'] } else { Seq::empty() }) + (if names_letter(
        letters,
        'U',
    ) {
        seq!['U']
    } else {
        Seq::empty()
    }) + (if names_letter(letters, 'B') { seq!['B'] } else { Seq::empty() }) + (if names_letter(
        letters,
        'R',
    ) {
        seq!['R']
    } else {
        Seq::empty()
    }) + (if names_letter(letters, 'G') { seq!['G'] } else { Seq::empty() })
}

/// Whether one of `letters` starts with `c`.
pub open spec fn names_letter(letters: Seq<String>, c: char) -> bool {
    exists|i: int| 0 <= i < letters.len() && #[trigger] letters[i]@.len() > 0 && letters[i]@[0] == c
}

fn names_letter_exec(letters: &[String], c: char) -> (b: bool)
    ensures
        b == names_letter(letters@, c),
{
    let mut i: usize = 0;
    while i < letters.len()
        invariant
            i <= letters@.len(),
            forall|k: int| 0 <= k < i ==> !(#[trigger] letters@[k]@.len() > 0 && letters@[k]@[0] == c),
        decreases letters@.len() - i,
    {
        let cs = chars_of(letters[i].as_str());
        if cs.len() > 0 && cs[0] == c {
            assert(letters@[i as int]@.len() > 0 && letters@[i as int]@[0] == c);
            return true;
        }
        i += 1;
    }
    false
}

/// The colour identity string of Scryfall's `color_identity` letters, in
/// `WUBRG` order.
pub fn identity_string(letters: &[String]) -> (s: String)
    ensures
        s@ == identity_of(letters@),
{
    let mut s = String::new();
    if names_letter_exec(letters, 'W') {
        crate::text::push_char(&mut s, 'W');
    }
    if names_letter_exec(letters, 'U') {
        crate::text::push_char(&mut s, 'U');
    }
    if names_letter_exec(letters, 'B') {
        crate::text::push_char(&mut s, 'B');
    }
    if names_letter_exec(letters, 'R') {
        crate::text::push_char(&mut s, 'R');
    }
    if names_letter_exec(letters, 'G') {
        crate::text::push_char(&mut s, 'G');
    }
    assert(s@ =~= identity_of(letters@));
    s
}

/// The lookup form of a card name: its front face, trimmed, lower-cased.
pub open spec fn normalize_name_spec(name: Seq<char>) -> Seq<char> {
    unicode_lower(trim(front_face(name)))
}

/// The lookup form of a card name: its front face (before ` // `), trimmed
/// and lower-cased.
pub fn normalize_name(name: &str) -> (r: String)
    ensures
        r@ == normalize_name_spec(name@),
        all_ascii(name@) ==> r@ == ascii_lower_seq(trim(front_face(name@))),
{
    let cs = chars_of(name);
    let ff = front_face_chars(cs.as_slice());
    let t = trim_chars(ff.as_slice());
    let s = string_of(t.as_slice());
    proof {
        if all_ascii(name@) {
            lemma_ascii_trimmed_front(name@);
        }
    }
    to_lower(s.as_str())
}

/// Whether a card may be a commander: a legendary creature or planeswalker
/// on its front face, or a card whose text allows it.
pub open spec fn commander_eligible(type_line: Seq<char>, oracle_text: Seq<char>) -> bool {
    let front = front_face(type_line);
    (contains(front, "Legendary"@) && (contains(front, "Creature"@) || contains(
        front,
        "Planeswalker"@,
    ))) || contains(oracle_text, "can be your commander"@)
}

/// Whether a card may be a commander.
pub fn is_commander_eligible(type_line: &str, oracle_text: &str) -> (b: bool)
    ensures
        b == commander_eligible(type_line@, oracle_text@),
{
    let t = chars_of(type_line);
    let front = front_face_chars(t.as_slice());
    let legendary = chars_of("Legendary");
    let creature = chars_of("Creature");
    let planeswalker = chars_of("Planeswalker");
    let may = chars_of("can be your commander");
    let text = chars_of(oracle_text);
    (contains_chars(front.as_slice(), legendary.as_slice()) && (contains_chars(
        front.as_slice(),
        creature.as_slice(),
    ) || contains_chars(front.as_slice(), planeswalker.as_slice()))) || contains_chars(
        text.as_slice(),
        may.as_slice(),
    )
}

/// A power value: the trimmed text as an `i32`, if it is one.
pub open spec fn power_of(p: Option<Seq<char>>) -> Option<i32> {
    match p {
        Some(s) => parse_i32(trim(s)),
        None => None,
    }
}

/// Parses a Scryfall power (`"3"`, `" 2 "`); `*` and the like give `None`.
pub fn parse_power(p: Option<&String>) -> (r: Option<i32>)
    ensures
        r == power_of(
            match p {
                Some(s) => Some(s@),
                None => None,
            },
        ),
{
    match p {
        Some(s) => {
            let cs = chars_of(s.as_str());
            let t = trim_chars(cs.as_slice());
            let ts = string_of(t.as_slice());
            parse_i32_str(ts.as_str())
        },
        None => None,
    }
}

/// `s` unless it is empty.
pub fn nonempty(s: Option<String>) -> (r: Option<String>)
    ensures
        r == (match s {
            Some(v) => if v@.len() > 0 {
                Some(v)
            } else {
                None
            },
            None => None,
        }),
{
    match s {
        Some(v) => if v.as_str().is_empty() {
            None
        } else {
            Some(v)
        },
        None => None,
    }
}

/// Whether `bytes` start with the gzip magic number.
pub fn is_gzip(bytes: &[u8]) -> (b: bool)
    ensures
        b == (bytes@.len() >= 2 && bytes@[0] == 0x1f && bytes@[1] == 0x8b),
{
    bytes.len() >= 2 && bytes[0] == 0x1f && bytes[1] == 0x8b
}

// ---------------------------------------------------------------------------
// Bulk file framing
// ---------------------------------------------------------------------------

/// What decompressing the gzip stream `data` yields, or `None` where the
/// stream is corrupt or truncated.
pub uninterp spec fn gunzipped(data: Seq<u8>) -> Option<Seq<u8>>;

/// The bytes of a gzip stream, decompressed (`flate2::read::GzDecoder`
/// read to its end). The decompressed bytes are a function of the input
/// alone; the contract names them.
#[verifier::external_body]
pub(crate) fn gunzip(data: &[u8]) -> (r: Option<Vec<u8>>)
    ensures
        (match r {
            Some(v) => Some(v@),
            None => None,
        }) == gunzipped(data@),
{
    let mut out: Vec<u8> = Vec::new();
    match std::io::Read::read_to_end(&mut flate2::read::GzDecoder::new(data), &mut out) {
        Ok(_) => Some(out),
        Err(_) => None,
    }
}

/// The characters that the bytes `b` encode in UTF-8, or `None` where they
/// are not valid UTF-8.
pub uninterp spec fn utf8_decoded(b: Seq<u8>) -> Option<Seq<char>>;

/// `std::str::from_utf8`: the text of UTF-8 bytes. Decoding is a function of
/// the bytes alone; the contract names it.
#[verifier::external_body]
pub(crate) fn utf8_text(b: &[u8]) -> (r: Option<String>)
    ensures
        (match r {
            Some(s) => Some(s@),
            None => None,
        }) == utf8_decoded(b@),
{
    match std::str::from_utf8(b) {
        Ok(s) => Some(s.to_string()),
        Err(_) => None,
    }
}

/// Index of the first `'\n'` in `s`, or its length.
pub open spec fn newline_at(s: Seq<char>) -> int
    decreases s.len(),
{
    if s.len() == 0 {
        0
    } else if s[0] == '\n' {
        0
    } else {
        1 + newline_at(s.drop_first())
    }
}

proof fn lemma_newline_at(s: Seq<char>, k: int)
    requires
        0 <= k <= s.len(),
        k < s.len() ==> s[k] == '\n',
        forall|j: int| 0 <= j < k ==> s[j] != '\n',
    ensures
        newline_at(s) == k,
    decreases k,
{
    if k > 0 {
        lemma_newline_at(s.drop_first(), k - 1);
    }
}

/// A line without the `'\r'` of a CRLF ending.
pub open spec fn strip_cr(l: Seq<char>) -> Seq<char> {
    if l.len() > 0 && l.last() == '\r' {
        l.drop_last()
    } else {
        l
    }
}

/// The lines of `s` as `BufRead::lines` yields them: split at `'\n'`, a
/// `'\r'` before the `'\n'` dropped, no empty line after a final `'\n'`.
pub open spec fn text_lines(s: Seq<char>) -> Seq<Seq<char>>
    decreases s.len(),
{
    if s.len() == 0 {
        Seq::empty()
    } else {
        let i = newline_at(s);
        if i >= s.len() || i < 0 {
            seq![s]
        } else {
            seq![strip_cr(s.take(i))] + text_lines(s.skip(i + 1))
        }
    }
}

/// The lines of a JSON-lines text.
pub fn split_lines(text: &str) -> (lines: Vec<String>)
    ensures
        str_views(lines@) == text_lines(text@),
{
    let cs = chars_of(text);
    let n = cs.len();
    let mut out: Vec<String> = Vec::new();
    let mut pos: usize = 0;
    proof {
        assert(cs@.skip(0) =~= cs@);
        assert(str_views(out@) =~= Seq::<Seq<char>>::empty());
        assert(Seq::<Seq<char>>::empty() + text_lines(cs@) =~= text_lines(cs@));
    }
    while pos < n
        invariant
            cs@ == text@,
            n == cs@.len(),
            pos <= n,
            str_views(out@) + text_lines(cs@.skip(pos as int)) == text_lines(cs@),
        decreases n - pos,
    {
        let mut j: usize = pos;
        while j < n && cs[j] != '\n'
            invariant
                pos <= j <= n,
                n == cs@.len(),
                forall|k: int| pos <= k < j ==> cs@[k] != '\n',
            decreases n - j,
        {
            j += 1;
        }
        let ghost t = cs@.skip(pos as int);
        proof {
            lemma_newline_at(t, (j - pos) as int);
        }
        let mut end: usize = j;
        if j < n && j > pos && cs[j - 1] == '\r' {
            end = j - 1;
        }
        let mut line: Vec<char> = Vec::new();
        let mut k: usize = pos;
        while k < end
            invariant
                pos <= k <= end,
                end <= n,
                n == cs@.len(),
                line@ == cs@.subrange(pos as int, k as int),
            decreases end - k,
        {
            line.push(cs[k]);
            k += 1;
        }
        let ls = string_of(line.as_slice());
        let ghost before = str_views(out@);
        out.push(ls);
        proof {
            assert(str_views(out@) =~= before.push(line@));
            if j < n {
                assert(t.take((j - pos) as int) =~= cs@.subrange(pos as int, j as int));
                assert(t.skip((j - pos) + 1) =~= cs@.skip(j + 1));
                assert(line@ =~= strip_cr(t.take((j - pos) as int)));
                assert(text_lines(t) == seq![line@] + text_lines(cs@.skip(j + 1)));
                assert(before + text_lines(t) =~= before.push(line@) + text_lines(cs@.skip(j + 1)));
            } else {
                assert(line@ =~= t);
                assert(text_lines(t) == seq![t]);
                assert(cs@.skip(n as int) =~= Seq::<char>::empty());
                assert(text_lines(cs@.skip(n as int)) =~= Seq::<Seq<char>>::empty());
                assert(before + text_lines(t) =~= before.push(line@) + text_lines(cs@.skip(n as int)));
            }
        }
        pos = if j < n {
            j + 1
        } else {
            n
        };
    }
    proof {
        assert(cs@.skip(pos as int) =~= Seq::<char>::empty());
        assert(str_views(out@) + Seq::<Seq<char>>::empty() =~= str_views(out@));
    }
    out
}

/// The lines of a gzip-compressed JSON-lines file: `None` when the bytes
/// do not decompress, or do not decode as UTF-8.
pub fn gzip_lines(data: &[u8]) -> (r: Option<Vec<String>>)
    ensures
        match gunzipped(data@) {
            None => r is None,
            Some(b) => match utf8_decoded(b) {
                None => r is None,
                Some(t) => r matches Some(v) && str_views(v@) == text_lines(t),
            },
        },
{
    match gunzip(data) {
        None => None,
        Some(raw) => match utf8_text(raw.as_slice()) {
            None => None,
            Some(text) => Some(split_lines(text.as_str())),
        },
    }
}

/// Whether a line holds nothing but whitespace.
pub fn is_blank(line: &str) -> (b: bool)
    ensures
        b == (trim(line@).len() == 0),
{
    let cs = chars_of(line);
    let t = trim_chars(cs.as_slice());
    t.len() == 0
}

// ---------------------------------------------------------------------------
// Oracle cards
// ---------------------------------------------------------------------------

/// One face of a multi-faced Scryfall card.
#[derive(Debug, Clone)]
pub struct ScryFace {
    pub name: Option<String>,
    pub oracle_text: Option<String>,
    pub power: Option<String>,
}

/// The fields of a Scryfall oracle card that ingest reads (its mana value
/// travels beside it); `legalities` holds the format/status pairs in the
/// order given.
#[derive(Debug, Clone)]
pub struct ScryCard {
    pub oracle_id: Option<String>,
    pub name: String,
    pub arena_id: Option<i32>,
    pub set: Option<String>,
    pub collector_number: Option<String>,
    pub mana_cost: Option<String>,
    pub type_line: Option<String>,
    pub oracle_text: Option<String>,
    pub color_identity: Vec<String>,
    pub keywords: Vec<String>,
    pub power: Option<String>,
    pub layout: Option<String>,
    pub edhrec_rank: Option<u32>,
    pub legalities: Vec<(String, String)>,
    pub card_faces: Option<Vec<ScryFace>>,
}

/// The records made from the oracle cards of a bulk file.
#[derive(Debug, Clone)]
pub struct ParsedOracles {
    pub oracles: Vec<IngestOracle>,
    pub arena: Vec<IngestArena>,
    pub skipped: u64,
}

/// The text of an optional string, empty where absent.
pub open spec fn or_empty(o: Option<String>) -> Seq<char> {
    match o {
        Some(s) => s@,
        None => Seq::empty(),
    }
}

/// Layouts that are not cards of a deck.
pub open spec fn skipped_layout(layout: Seq<char>) -> bool {
    layout == "token"@ || layout == "double_faced_token"@ || layout == "emblem"@ || layout
        == "art_series"@
}

/// The Scryfall layouts of things that are not cards of a deck: tokens
/// (single- or double-faced), emblems and art-series cards.
pub open spec fn token_like_layout(layout: Seq<char>) -> bool {
    ||| layout == "token"@
    ||| layout == "double_faced_token"@
    ||| layout == "emblem"@
    ||| layout == "art_series"@
}

/// Tokens (single- or double-faced), emblems and art-series cards are never
/// ingested: whatever else the card holds, it is skipped, and so (by
/// `process_scry_card`'s contract) counted as skipped with no oracle or
/// Arena record added.
pub proof fn lemma_token_like_layouts_skipped(c: ScryCard)
    requires
        token_like_layout(or_empty(c.layout)),
    ensures
        is_skipped(c),
{
}

/// Whether ingest skips a card: no oracle id, or a token-like layout.
pub open spec fn is_skipped(c: ScryCard) -> bool {
    c.oracle_id is None || skipped_layout(or_empty(c.layout))
}

/// The oracle texts the faces carry, in order.
pub open spec fn face_texts(faces: Seq<ScryFace>) -> Seq<Seq<char>>
    decreases faces.len(),
{
    if faces.len() == 0 {
        Seq::empty()
    } else {
        let rest = face_texts(faces.drop_last());
        match faces.last().oracle_text {
            Some(t) => rest.push(t@),
            None => rest,
        }
    }
}

/// `parts` joined with `sep` between neighbours.
pub open spec fn joined_by(parts: Seq<Seq<char>>, sep: Seq<char>) -> Seq<char>
    decreases parts.len(),
{
    if parts.len() == 0 {
        Seq::empty()
    } else if parts.len() == 1 {
        parts[0]
    } else {
        joined_by(parts.drop_last(), sep) + sep + parts.last()
    }
}

/// A card's rules text: its own where non-empty, else its faces' texts
/// joined by a `//` line.
pub open spec fn card_oracle_text(c: ScryCard) -> Seq<char> {
    match c.oracle_text {
        Some(t) => if t@.len() > 0 {
            t@
        } else {
            faces_text(c.card_faces)
        },
        None => faces_text(c.card_faces),
    }
}

/// The faces' texts joined by a `//` line.
pub open spec fn faces_text(faces: Option<Vec<ScryFace>>) -> Seq<char> {
    match faces {
        Some(f) => joined_by(face_texts(f@), "\n//\n"@),
        None => Seq::empty(),
    }
}

/// The power of the first face, from `i` on, that has one.
pub open spec fn face_power_from(faces: Seq<ScryFace>, i: int) -> Option<i32>
    decreases faces.len() - i,
{
    if i < 0 || i >= faces.len() {
        None
    } else {
        match power_of(opt_view(faces[i].power)) {
            Some(p) => Some(p),
            None => face_power_from(faces, i + 1),
        }
    }
}

/// A card's power: its own, else that of its first face that has one.
pub open spec fn card_power(c: ScryCard) -> Option<i32> {
    match power_of(opt_view(c.power)) {
        Some(p) => Some(p),
        None => match c.card_faces {
            Some(f) => face_power_from(f@, 0),
            None => None,
        },
    }
}

/// The value paired with `key` (the last pair wins).
pub open spec fn pair_lookup(p: Seq<(String, String)>, key: Seq<char>) -> Option<Seq<char>>
    decreases p.len(),
{
    if p.len() == 0 {
        None
    } else if p.last().0@ == key {
        Some(p.last().1@)
    } else {
        pair_lookup(p.drop_last(), key)
    }
}

/// A lower-case hexadecimal digit for `n` in `0..16`.
pub open spec fn hex_digit(n: int) -> char {
    if n < 10 {
        (('0' as int) + n) as char
    } else {
        (('a' as int) + n - 10) as char
    }
}

/// How JSON writes character `c` inside a string: `"` and `\` escaped
/// with a backslash, backspace, tab, line feed, form feed and carriage
/// return as `\b`, `\t`, `\n`, `\f`, `\r`, any other control character
/// below U+0020 as `\u00` and two lower-case hex digits, anything else as
/// itself.
pub open spec fn json_escape_char(c: char) -> Seq<char> {
    if c == '"' {
        seq!['\\', '"']
    } else if c == '\\' {
        seq!['\\', '\\']
    } else if c == '\u{8}' {
        seq!['\\', 'b']
    } else if c == '\t' {
        seq!['\\', 't']
    } else if c == '\n' {
        seq!['\\', 'n']
    } else if c == '\u{c}' {
        seq!['\\', 'f']
    } else if c == '\r' {
        seq!['\\', 'r']
    } else if (c as int) < 0x20 {
        seq!['\\', 'u', '0', '0', hex_digit((c as int) / 16), hex_digit((c as int) % 16)]
    } else {
        seq![c]
    }
}

/// The characters of `s` as JSON writes them inside a string.
pub open spec fn json_escaped(s: Seq<char>) -> Seq<char>
    decreases s.len(),
{
    if s.len() == 0 {
        Seq::empty()
    } else {
        json_escaped(s.drop_last()) + json_escape_char(s.last())
    }
}

/// What `serde_json::to_string` writes for a list of strings: `[`, each
/// string quoted and escaped, separated by `,` with no spaces, then `]`.
pub open spec fn json_string_list(items: Seq<Seq<char>>) -> Seq<char> {
    "["@ + joined_by(items.map_values(|s: Seq<char>| "\""@ + json_escaped(s) + "\""@), ","@)
        + "]"@
}

/// The stored record of a card that ingest keeps.
pub open spec fn oracle_record(c: ScryCard, o: IngestOracle) -> bool {
    &&& o.oracle_id@ == or_empty(c.oracle_id)
    &&& o.name@ == c.name@
    &&& o.name_front_lower@ == normalize_name_spec(c.name@)
    &&& o.mana_cost@ == or_empty(c.mana_cost)
    &&& o.color_identity@ == identity_of(c.color_identity@)
    &&& o.type_line@ == or_empty(c.type_line)
    &&& o.keywords@ == json_string_list(str_views(c.keywords@))
    &&& o.oracle_text@ == card_oracle_text(c)
    &&& o.edhrec_rank == c.edhrec_rank
    &&& o.legal_brawl == (pair_lookup(c.legalities@, "brawl"@) == Some("legal"@))
    &&& o.legal_standardbrawl == (pair_lookup(c.legalities@, "standardbrawl"@) == Some(
        "legal"@,
    ))
    &&& o.is_commander_eligible == commander_eligible(or_empty(c.type_line), card_oracle_text(c))
    &&& o.power == card_power(c)
    &&& o.layout@ == or_empty(c.layout)
}

/// The Arena printing record of a card with an Arena id.
pub open spec fn arena_record(c: ScryCard, a: IngestArena) -> bool {
    &&& c.arena_id == Some(a.arena_id)
    &&& a.oracle_id@ == or_empty(c.oracle_id)
    &&& a.set_code@ == or_empty(c.set)
    &&& a.collector_number@ == or_empty(c.collector_number)
}

/// `serde_json::to_string` on a list of strings. Its documented failures
/// (a `Serialize` impl that fails, a map with non-string keys) cannot occur
/// for a list of strings; the text written is the compact JSON array of
/// the escaped strings (`json_string_list`), as serde_json's serializer and
/// its escape table write it.
#[verifier::external_body]
fn json_list_text(items: &Vec<String>) -> (r: Option<String>)
    ensures
        match r {
            Some(s) => s@ == json_string_list(str_views(items@)),
            None => false,
        },
{
    serde_json::to_string(items).ok()
}

fn string_or_empty(o: Option<String>) -> (s: String)
    ensures
        s@ == or_empty(o),
{
    match o {
        Some(s) => s,
        None => String::new(),
    }
}

fn join_face_texts(faces: &Vec<ScryFace>) -> (s: String)
    ensures
        s@ == joined_by(face_texts(faces@), "\n//\n"@),
{
    let mut s = String::new();
    let mut any = false;
    let mut i: usize = 0;
    while i < faces.len()
        invariant
            i <= faces@.len(),
            s@ == joined_by(face_texts(faces@.take(i as int)), "\n//\n"@),
            any == (face_texts(faces@.take(i as int)).len() > 0),
        decreases faces@.len() - i,
    {
        let ghost prev = face_texts(faces@.take(i as int));
        assert(faces@.take(i + 1).drop_last() =~= faces@.take(i as int));
        match &faces[i].oracle_text {
            Some(t) => {
                if any {
                    push_str(&mut s, "\n//\n");
                }
                push_str(&mut s, t.as_str());
                proof {
                    let next = prev.push(t@);
                    assert(next.drop_last() =~= prev);
                    if prev.len() == 0 {
                        assert(s@ =~= next[0]);
                    }
                }
                any = true;
            },
            None => {},
        }
        i += 1;
    }
    assert(faces@.take(faces@.len() as int) =~= faces@);
    s
}

fn face_power(faces: &Vec<ScryFace>) -> (p: Option<i32>)
    ensures
        p == face_power_from(faces@, 0),
{
    let mut i: usize = 0;
    while i < faces.len()
        invariant
            i <= faces@.len(),
            face_power_from(faces@, 0) == face_power_from(faces@, i as int),
        decreases faces@.len() - i,
    {
        let p = parse_power(faces[i].power.as_ref());
        if p.is_some() {
            return p;
        }
        i += 1;
    }
    None
}

fn lookup_pair(p: &Vec<(String, String)>, key: &str) -> (r: Option<String>)
    ensures
        (match r {
            Some(v) => Some(v@),
            None => None,
        }) == pair_lookup(p@, key@),
{
    let mut r: Option<String> = None;
    let mut i: usize = 0;
    while i < p.len()
        invariant
            i <= p@.len(),
            (match r {
                Some(v) => Some(v@),
                None => None,
            }) == pair_lookup(p@.take(i as int), key@),
        decreases p@.len() - i,
    {
        assert(p@.take(i + 1).drop_last() =~= p@.take(i as int));
        if str_eq(p[i].0.as_str(), key) {
            r = Some(p[i].1.clone());
        }
        i += 1;
    }
    assert(p@.take(p@.len() as int) =~= p@);
    r
}

fn is_legal_for(p: &Vec<(String, String)>, key: &str) -> (b: bool)
    ensures
        b == (pair_lookup(p@, key@) == Some("legal"@)),
{
    match lookup_pair(p, key) {
        Some(v) => str_eq(v.as_str(), "legal"),
        None => false,
    }
}

/// Adds one Scryfall card to the parsed records: cards without an oracle
/// id and tokens, emblems and art cards are counted as skipped; every other
/// card becomes a stored record, and its Arena printing, if any, an Arena
/// record.
pub fn process_scry_card(c: ScryCard, out: &mut ParsedOracles)
    requires
        old(out).skipped < u64::MAX,
    ensures
        token_like_layout(or_empty(c.layout)) ==> final(out).skipped == old(out).skipped + 1
            && final(out).oracles@ == old(out).oracles@ && final(out).arena@ == old(out).arena@,
        is_skipped(c) ==> final(out).skipped == old(out).skipped + 1 && final(out).oracles@ == old(
            out,
        ).oracles@ && final(out).arena@ == old(out).arena@,
        !is_skipped(c) ==> {
            &&& final(out).skipped == old(out).skipped
            &&& final(out).oracles@.len() == old(out).oracles@.len() + 1
            &&& final(out).oracles@.take(old(out).oracles@.len() as int) == old(out).oracles@
            &&& oracle_record(c, final(out).oracles@.last())
            &&& c.arena_id is None ==> final(out).arena@ == old(out).arena@
            &&& c.arena_id is Some ==> {
                &&& final(out).arena@.len() == old(out).arena@.len() + 1
                &&& final(out).arena@.take(old(out).arena@.len() as int) == old(out).arena@
                &&& arena_record(c, final(out).arena@.last())
            }
        },
{
    let ghost gc = c;
    let ScryCard {
        oracle_id,
        name,
        arena_id,
        set,
        collector_number,
        mana_cost,
        type_line,
        oracle_text,
        color_identity,
        keywords,
        power,
        layout,
        edhrec_rank,
        legalities,
        card_faces,
    } = c;
    let layout = string_or_empty(layout);
    let oracle_id = match oracle_id {
        Some(id) => id,
        None => {
            out.skipped = out.skipped + 1;
            return ;
        },
    };
    if str_eq(layout.as_str(), "token") || str_eq(layout.as_str(), "double_faced_token") || str_eq(
        layout.as_str(),
        "emblem",
    ) || str_eq(layout.as_str(), "art_series") {
        out.skipped = out.skipped + 1;
        return ;
    }
    let type_line = string_or_empty(type_line);
    let oracle_text = match nonempty(oracle_text) {
        Some(t) => t,
        None => match &card_faces {
            Some(f) => join_face_texts(f),
            None => String::new(),
        },
    };
    let power = match parse_power(power.as_ref()) {
        Some(p) => Some(p),
        None => match &card_faces {
            Some(f) => face_power(f),
            None => None,
        },
    };
    if let Some(aid) = arena_id {
        out.arena.push(
            IngestArena {
                arena_id: aid,
                oracle_id: oracle_id.clone(),
                set_code: string_or_empty(set),
                collector_number: string_or_empty(collector_number),
            },
        );
    }
    let keywords_text = match json_list_text(&keywords) {
        Some(k) => k,
        None => owned("[]"),
    };
    let eligible = is_commander_eligible(type_line.as_str(), oracle_text.as_str());
    let legal_brawl = is_legal_for(&legalities, "brawl");
    let legal_standardbrawl = is_legal_for(&legalities, "standardbrawl");
    let record = IngestOracle {
        name_front_lower: normalize_name(name.as_str()),
        name,
        oracle_id,
        mana_cost: string_or_empty(mana_cost),
        color_identity: identity_string(color_identity.as_slice()),
        is_commander_eligible: eligible,
        type_line,
        keywords: keywords_text,
        oracle_text,
        edhrec_rank,
        legal_brawl,
        legal_standardbrawl,
        power,
        layout,
    };
    out.oracles.push(record);
    proof {
        assert(final(out).oracles@.take(old(out).oracles@.len() as int) =~= old(out).oracles@);
        assert(final(out).arena@.take(old(out).arena@.len() as int) =~= old(out).arena@);
    }
}

// ---------------------------------------------------------------------------
// Oracle tags
// ---------------------------------------------------------------------------

/// The fields of one Scryfall tagger line that ingest reads; `taggings`
/// holds the oracle ids of the tagged cards.
#[derive(Debug, Clone)]
pub struct TagLine {
    pub id: String,
    pub slug: String,
    pub label: Option<String>,
    pub parent_ids: Vec<String>,
    pub taggings: Vec<String>,
}

/// The tag records of a tag bulk file, the (oracle id, tag id) taggings,
/// and how many tags name a parent that the file does not hold.
#[derive(Debug, Clone)]
pub struct ParsedTags {
    pub tags: Vec<IngestTag>,
    pub taggings: Vec<(String, String)>,
    pub anomalies: u64,
}

/// The first parent a tag line names.
pub open spec fn first_parent(t: TagLine) -> Option<Seq<char>> {
    if t.parent_ids@.len() > 0 {
        Some(t.parent_ids@[0]@)
    } else {
        None
    }
}

/// Whether some line of `raw` has id `id`.
pub open spec fn has_tag_id(raw: Seq<TagLine>, id: Seq<char>) -> bool {
    exists|i: int| 0 <= i < raw.len() && (#[trigger] raw[i]).id@ == id
}

/// Whether line `t` names a parent that `raw` does not hold.
pub open spec fn is_anomaly(raw: Seq<TagLine>, t: TagLine) -> bool {
    match first_parent(t) {
        Some(p) => !has_tag_id(raw, p),
        None => false,
    }
}

/// How many of the first `n` lines of `raw` are anomalies.
pub open spec fn anomaly_count(raw: Seq<TagLine>, n: int) -> nat
    decreases n,
{
    if n <= 0 {
        0
    } else {
        anomaly_count(raw, n - 1) + if is_anomaly(raw, raw[n - 1]) {
            1nat
        } else {
            0nat
        }
    }
}

/// The (oracle id, tag id) pairs of the first `n` lines, in order.
pub open spec fn taggings_of(raw: Seq<TagLine>, n: int) -> Seq<(Seq<char>, Seq<char>)>
    decreases n,
{
    if n <= 0 {
        Seq::empty()
    } else {
        taggings_of(raw, n - 1) + raw[n - 1].taggings@.map_values(
            |g: String| (g@, raw[n - 1].id@),
        )
    }
}

/// The stored record of a tag line.
pub open spec fn tag_record(t: TagLine, r: IngestTag) -> bool {
    &&& r.tag_id@ == t.id@
    &&& r.slug@ == t.slug@
    &&& r.label@ == (match t.label {
        Some(l) => l@,
        None => t.slug@,
    })
    &&& opt_view(r.parent_id) == first_parent(t)
}

/// Whether one of `raw` has id `id`.
fn has_tag_id_exec(raw: &Vec<TagLine>, id: &str) -> (b: bool)
    ensures
        b == has_tag_id(raw@, id@),
{
    let mut i: usize = 0;
    while i < raw.len()
        invariant
            i <= raw@.len(),
            forall|k: int| 0 <= k < i ==> (#[trigger] raw@[k]).id@ != id@,
        decreases raw@.len() - i,
    {
        if str_eq(raw[i].id.as_str(), id) {
            return true;
        }
        i += 1;
    }
    false
}

/// The tag records and taggings of parsed tag lines. Tags keep the order
/// of the lines, each with its first parent; taggings come line by line.
pub fn tags_from_lines(raw: &Vec<TagLine>) -> (out: ParsedTags)
    ensures
        out.tags@.len() == raw@.len(),
        forall|i: int| 0 <= i < raw@.len() ==> tag_record(raw@[i], #[trigger] out.tags@[i]),
        out.taggings@.map_values(|p: (String, String)| (p.0@, p.1@)) == taggings_of(
            raw@,
            raw@.len() as int,
        ),
        out.anomalies == anomaly_count(raw@, raw@.len() as int),
{
    let mut tags: Vec<IngestTag> = Vec::new();
    let mut taggings: Vec<(String, String)> = Vec::new();
    let mut anomalies: u64 = 0;
    let mut i: usize = 0;
    while i < raw.len()
        invariant
            i <= raw@.len(),
            tags@.len() == i,
            forall|k: int| 0 <= k < i ==> tag_record(raw@[k], #[trigger] tags@[k]),
            taggings@.map_values(|p: (String, String)| (p.0@, p.1@)) == taggings_of(
                raw@,
                i as int,
            ),
            anomalies == anomaly_count(raw@, i as int),
            anomalies <= i,
        decreases raw@.len() - i,
    {
        let t = &raw[i];
        let parent: Option<String> = if t.parent_ids.len() > 0 {
            Some(t.parent_ids[0].clone())
        } else {
            None
        };
        match &parent {
            Some(p) => {
                if !has_tag_id_exec(raw, p.as_str()) {
                    anomalies = anomalies + 1;
                }
            },
            None => {},
        }
        let ghost before = taggings@.map_values(|p: (String, String)| (p.0@, p.1@));
        let mut g: usize = 0;
        while g < t.taggings.len()
            invariant
                g <= t.taggings@.len(),
                t == raw@[i as int],
                taggings@.map_values(|p: (String, String)| (p.0@, p.1@)) == before
                    + t.taggings@.take(g as int).map_values(|o: String| (o@, t.id@)),
            decreases t.taggings@.len() - g,
        {
            let ghost prev = taggings@;
            taggings.push((t.taggings[g].clone(), t.id.clone()));
            proof {
                let lhs = taggings@.map_values(|p: (String, String)| (p.0@, p.1@));
                let old_lhs = prev.map_values(|p: (String, String)| (p.0@, p.1@));
                let rhs = before + t.taggings@.take(g + 1).map_values(|o: String| (o@, t.id@));
                let old_rhs = before + t.taggings@.take(g as int).map_values(
                    |o: String| (o@, t.id@),
                );
                assert(old_lhs =~= old_rhs);
                assert(taggings@.len() == prev.len() + 1);
                assert(t.taggings@.take(g + 1).len() == g + 1);
                assert(t.taggings@.take(g as int).len() == g);
                assert(old_lhs.len() == prev.len());
                assert(old_rhs.len() == before.len() + g);
                assert(lhs.len() == rhs.len());
                assert forall|k: int| 0 <= k < lhs.len() implies lhs[k] == rhs[k] by {
                    if k < old_lhs.len() {
                        assert(lhs[k] == old_lhs[k]);
                        assert(rhs[k] == old_rhs[k]);
                    } else {
                        assert(taggings@[k] == (t.taggings@[g as int], t.id));
                    }
                }
                assert(lhs =~= rhs);
            }
            g += 1;
        }
        proof {
            assert(t.taggings@.take(t.taggings@.len() as int) =~= t.taggings@);
        }
        let label = match &t.label {
            Some(l) => l.clone(),
            None => t.slug.clone(),
        };
        tags.push(
            IngestTag { tag_id: t.id.clone(), slug: t.slug.clone(), label, parent_id: parent },
        );
        i += 1;
    }
    ParsedTags { tags, taggings, anomalies }
}

// ---------------------------------------------------------------------------
// Joining Arena cards to oracle cards
// ---------------------------------------------------------------------------

/// The rows joining Arena cards to oracle ids, each with how it was
/// resolved (`"arena_id"` or `"name"`), and the Arena ids left unresolved,
/// ascending.
#[derive(Debug, Clone)]
pub struct JoinResult {
    pub rows: Vec<(i32, String, &'static str)>,
    pub unresolved: Vec<i32>,
}

/// How Arena card `grp` joins to an oracle card: by its Arena id where the
/// bulk data lists it, else by its normalised name; `None` where neither
/// does.
pub open spec fn join_of(
    cards: Map<i32, CardInfo>,
    arena: Map<i32, String>,
    names: Seq<(String, String)>,
    grp: i32,
) -> Option<(Seq<char>, Seq<char>)> {
    if arena.contains_key(grp) {
        Some((arena[grp]@, "arena_id"@))
    } else {
        match pair_lookup(names, normalize_name_spec(cards[grp].name@)) {
            Some(o) => Some((o, "name"@)),
            None => None,
        }
    }
}

/// Inserts `g` into the ascending, repeat-free `v`.
fn insert_ascending(v: &mut Vec<i32>, g: i32)
    requires
        forall|i: int, j: int| 0 <= i < j < old(v)@.len() ==> old(v)@[i] < old(v)@[j],
        !old(v)@.contains(g),
    ensures
        forall|i: int, j: int| 0 <= i < j < final(v)@.len() ==> final(v)@[i] < final(v)@[j],
        final(v)@.to_set() == old(v)@.to_set().insert(g),
        final(v)@.len() == old(v)@.len() + 1,
{
    let mut p: usize = 0;
    while p < v.len() && v[p] < g
        invariant
            p <= v@.len(),
            forall|k: int| 0 <= k < p ==> v@[k] < g,
        decreases v@.len() - p,
    {
        p += 1;
    }
    let ghost ov = v@;
    v.insert(p, g);
    proof {
        assert(v@ =~= ov.insert(p as int, g));
        if p < ov.len() {
            assert(ov[p as int] != g);
        }
        assert forall|i: int, j: int| 0 <= i < j < v@.len() implies v@[i] < v@[j] by {
            if j < p {
            } else if j == p {
            } else if i < p {
                assert(v@[j] == ov[j - 1]);
                assert(ov[p as int] >= g);
                if j - 1 > p {
                    assert(ov[p as int] < ov[j - 1]);
                }
            } else if i == p {
                assert(v@[j] == ov[j - 1]);
                if j - 1 > p {
                    assert(ov[p as int] < ov[j - 1]);
                }
            } else {
                assert(v@[i] == ov[i - 1] && v@[j] == ov[j - 1]);
            }
        }
        assert forall|x: i32| v@.to_set().contains(x) <==> ov.to_set().insert(g).contains(x) by {
            if v@.to_set().contains(x) {
                let k = choose|k: int| 0 <= k < v@.len() && v@[k] == x;
                if k < p {
                    assert(ov[k] == x);
                } else if k > p {
                    assert(ov[k - 1] == x);
                }
            }
            if ov.to_set().contains(x) {
                let k = choose|k: int| 0 <= k < ov.len() && ov[k] == x;
                if k < p {
                    assert(v@[k] == x);
                } else {
                    assert(v@[k + 1] == x);
                }
            }
            if x == g {
                assert(v@[p as int] == g);
            }
        }
        assert(v@.to_set() =~= ov.to_set().insert(g));
    }
}

/// Joins every Arena card to an oracle id: by Arena id first, then by
/// normalised name (`name_map` pairs a normalised name with an oracle id;
/// the last pair for a name wins). Rows come in the map's iteration order;
/// each card gives one row or one unresolved id.
pub fn join_grp_to_oracle(
    cards: &HashMap<i32, CardInfo>,
    arena_map: &HashMap<i32, String>,
    name_map: &Vec<(String, String)>,
) -> (j: JoinResult)
    ensures
        forall|i: int|
            0 <= i < j.rows@.len() ==> {
                &&& cards@.contains_key(#[trigger] j.rows@[i].0)
                &&& join_of(cards@, arena_map@, name_map@, j.rows@[i].0) == Some(
                    (j.rows@[i].1@, j.rows@[i].2@),
                )
            },
        forall|i: int, k: int|
            0 <= i < k < j.rows@.len() ==> #[trigger] j.rows@[i].0 != #[trigger] j.rows@[k].0,
        forall|g: i32|
            #[trigger] cards@.contains_key(g) && join_of(cards@, arena_map@, name_map@, g) is Some
                ==> exists|i: int| 0 <= i < j.rows@.len() && j.rows@[i].0 == g,
        forall|i: int, k: int|
            0 <= i < k < j.unresolved@.len() ==> j.unresolved@[i] < j.unresolved@[k],
        forall|g: i32|
            #[trigger] j.unresolved@.contains(g) <==> (cards@.contains_key(g) && join_of(
                cards@,
                arena_map@,
                name_map@,
                g,
            ) is None),
{
    broadcast use vstd::std_specs::hash::group_hash_axioms;

    let mut rows: Vec<(i32, String, &'static str)> = Vec::new();
    let mut unresolved: Vec<i32> = Vec::new();
    let ghost entries = vstd::std_specs::hash::spec_hash_map_iter(cards).remaining();
    let ghost mut done: Seq<i32> = Seq::empty();
    for (grp, card) in it: cards.iter()
        invariant
            it.seq() == entries,
            entries == vstd::std_specs::hash::spec_hash_map_iter(cards).remaining(),
            entries.no_duplicates(),
            done.len() == it.index(),
            forall|k: int| 0 <= k < done.len() ==> done[k] == *(#[trigger] entries[k]).0,
            forall|i: int|
                0 <= i < rows@.len() ==> {
                    &&& cards@.contains_key(#[trigger] rows@[i].0)
                    &&& join_of(cards@, arena_map@, name_map@, rows@[i].0) == Some(
                        (rows@[i].1@, rows@[i].2@),
                    )
                    &&& done.contains(rows@[i].0)
                },
            forall|i: int, k: int|
                0 <= i < k < rows@.len() ==> #[trigger] rows@[i].0 != #[trigger] rows@[k].0,
            forall|i: int, k: int|
                0 <= i < k < unresolved@.len() ==> unresolved@[i] < unresolved@[k],
            forall|k: int|
                #![trigger done[k]]
                0 <= k < done.len() ==> {
                    &&& cards@.contains_key(done[k])
                    &&& (join_of(cards@, arena_map@, name_map@, done[k]) is Some ==> exists|i: int|
                        0 <= i < rows@.len() && rows@[i].0 == done[k])
                    &&& (join_of(cards@, arena_map@, name_map@, done[k]) is None
                        ==> unresolved@.contains(done[k]))
                },
            forall|g: i32|
                #[trigger] unresolved@.contains(g) ==> cards@.contains_key(g) && join_of(
                    cards@,
                    arena_map@,
                    name_map@,
                    g,
                ) is None && done.contains(g),
    {
        let g: i32 = *grp;
        let ghost k0 = it.index();
        proof {
            assert(*entries[k0].0 == g);
            assert(*entries[k0].1 == *card);
            assert(cards@.contains_key(g));
            assert(cards@[g] == *card);
            // No earlier entry has the same key: entries are the map's
            // distinct (key, value) pairs.
            assert forall|k: int| 0 <= k < k0 implies #[trigger] done[k] != g by {
                assert(done[k] == *entries[k].0);
                if *entries[k].0 == g {
                    assert(cards@[*entries[k].0] == *entries[k].1);
                    assert(cards@[*entries[k0].0] == *entries[k0].1);
                    assert(entries[k] == entries[k0]);
                }
            }
            assert(!done.contains(g));
        }
        let ghost rows_before = rows@;
        let ghost unresolved_before = unresolved@;
        match arena_map.get(&g) {
            Some(o) => {
                rows.push((g, o.clone(), "arena_id"));
            },
            None => {
                let key = normalize_name(card.name.as_str());
                match lookup_pair(name_map, key.as_str()) {
                    Some(o) => {
                        rows.push((g, o, "name"));
                    },
                    None => {
                        insert_ascending(&mut unresolved, g);
                    },
                }
            },
        }
        proof {
            let nd = done.push(g);
            assert forall|x: i32| done.contains(x) implies nd.contains(x) by {
                let k = choose|k: int| 0 <= k < done.len() && done[k] == x;
                assert(nd[k] == x);
            }
            assert(nd[done.len() as int] == g);
            if rows@.len() > rows_before.len() {
                assert(rows@[rows_before.len() as int].0 == g);
                assert(join_of(cards@, arena_map@, name_map@, g) is Some);
                assert(unresolved@ == unresolved_before);
            } else {
                assert(rows@ == rows_before);
                assert(join_of(cards@, arena_map@, name_map@, g) is None);
                assert(unresolved@.contains(g)) by {
                    assert(unresolved@.to_set().contains(g));
                }
                assert forall|x: i32| unresolved_before.contains(x) implies unresolved@.contains(x) by {
                    assert(unresolved_before.to_set().contains(x));
                    assert(unresolved@.to_set().contains(x));
                }
                assert forall|x: i32| unresolved@.contains(x) implies (unresolved_before.contains(x)
                    || x == g) by {
                    assert(unresolved@.to_set().contains(x));
                    assert(unresolved_before.to_set().insert(g).contains(x));
                }
            }
            assert forall|k: int|
                #![trigger nd[k]]
                0 <= k < nd.len() implies {
                &&& cards@.contains_key(nd[k])
                &&& (join_of(cards@, arena_map@, name_map@, nd[k]) is Some ==> exists|i: int|
                    0 <= i < rows@.len() && rows@[i].0 == nd[k])
                &&& (join_of(cards@, arena_map@, name_map@, nd[k]) is None
                    ==> unresolved@.contains(nd[k]))
            } by {
                if k < done.len() {
                    assert(nd[k] == done[k]);
                    if join_of(cards@, arena_map@, name_map@, done[k]) is Some {
                        let i = choose|i: int|
                            0 <= i < rows_before.len() && rows_before[i].0 == done[k];
                        assert(rows@[i] == rows_before[i]);
                    } else {
                        assert(unresolved_before.contains(done[k]));
                    }
                } else {
                    assert(nd[k] == g);
                    if join_of(cards@, arena_map@, name_map@, g) is Some {
                        assert(rows@[rows_before.len() as int].0 == g);
                    }
                }
            }
            assert forall|x: i32| #[trigger] unresolved@.contains(x) implies cards@.contains_key(x)
                && join_of(cards@, arena_map@, name_map@, x) is None && nd.contains(x) by {
                if x == g {
                    assert(nd[done.len() as int] == g);
                } else {
                    assert(unresolved_before.contains(x));
                }
            }
            done = nd;
        }
    }
    JoinResult { rows, unresolved }
}

} // verus!
