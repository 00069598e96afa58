//! Character-level text helpers shared by the parsers and the name
//! normalisers: conversions between `str`/`String` and `Vec<char>`,
//! substring search, front-face splitting, whitespace trimming, ASCII case
//! folding, decimal formatting and integer parsing.

use vstd::prelude::*;

verus! {

// ---------------------------------------------------------------------------
// Conversions
// ---------------------------------------------------------------------------

/// The character sequences of a list of strings.
pub open spec fn str_views(v: Seq<String>) -> Seq<Seq<char>> {
    v.map_values(|s: String| s@)
}

/// A `String` holding the characters of `s`.
pub fn owned(s: &str) -> (r: String)
    ensures
        r@ == s@,
{
    String::from_str(s)
}

/// Whether one of `v` holds exactly the characters of `s`.
pub fn vec_contains_str(v: &Vec<String>, s: &str) -> (b: bool)
    ensures
        b == str_views(v@).contains(s@),
{
    let mut i: usize = 0;
    while i < v.len()
        invariant
            i <= v@.len(),
            forall|j: int| 0 <= j < i ==> v@[j]@ != s@,
        decreases v@.len() - i,
    {
        if str_eq(v[i].as_str(), s) {
            assert(str_views(v@)[i as int] == s@);
            return true;
        }
        i += 1;
    }
    proof {
        if str_views(v@).contains(s@) {
            let j = choose|j: int| 0 <= j < str_views(v@).len() && str_views(v@)[j] == s@;
            assert(v@[j]@ == s@);
        }
    }
    false
}

/// Appends one character to a `String` (`String::push`).
#[verifier::external_body]
pub(crate) fn push_char(s: &mut String, c: char)
    ensures
        final(s)@ == old(s)@.push(c),
{
    s.push(c);
}

/// The characters of `s`, in order.
pub fn chars_of(s: &str) -> (v: Vec<char>)
    ensures
        v@ == s@,
{
    let mut v: Vec<char> = Vec::new();
    for c in it: s.chars()
        invariant
            v@ == it.seq().take(it.index() as int),
    {
        v.push(c);
    }
    v
}

/// A `String` holding exactly the characters of `v`.
pub fn string_of(v: &[char]) -> (s: String)
    ensures
        s@ == v@,
{
    let mut s = String::new();
    let mut i: usize = 0;
    while i < v.len()
        invariant
            i <= v@.len(),
            s@ == v@.take(i as int),
        decreases v@.len() - i,
    {
        push_char(&mut s, v[i]);
        assert(v@.take(i as int).push(v@[i as int]) =~= v@.take(i + 1));
        i += 1;
    }
    assert(v@.take(v@.len() as int) =~= v@);
    s
}

/// Appends every character of `t` to `s`.
pub fn push_chars(s: &mut String, t: &[char])
    ensures
        final(s)@ == old(s)@ + t@,
{
    let mut i: usize = 0;
    while i < t.len()
        invariant
            i <= t@.len(),
            s@ == old(s)@ + t@.take(i as int),
        decreases t@.len() - i,
    {
        push_char(s, t[i]);
        assert(old(s)@ + t@.take(i as int).push(t@[i as int]) =~= old(s)@ + t@.take(i + 1));
        i += 1;
    }
    assert(t@.take(t@.len() as int) =~= t@);
}

/// Appends every character of `t` to `s`.
pub fn push_str(s: &mut String, t: &str)
    ensures
        final(s)@ == old(s)@ + t@,
{
    let v = chars_of(t);
    push_chars(s, v.as_slice());
}

/// Concatenation of two character sequences into a new vector.
pub fn concat_chars(a: &[char], b: &[char]) -> (r: Vec<char>)
    ensures
        r@ == a@ + b@,
{
    let mut r: Vec<char> = Vec::new();
    let mut i: usize = 0;
    while i < a.len()
        invariant
            i <= a@.len(),
            r@ == a@.take(i as int),
        decreases a@.len() - i,
    {
        r.push(a[i]);
        assert(a@.take(i as int).push(a@[i as int]) =~= a@.take(i + 1));
        i += 1;
    }
    let mut j: usize = 0;
    while j < b.len()
        invariant
            j <= b@.len(),
            r@ == a@ + b@.take(j as int),
        decreases b@.len() - j,
    {
        r.push(b[j]);
        assert(a@ + b@.take(j as int).push(b@[j as int]) =~= a@ + b@.take(j + 1));
        j += 1;
    }
    assert(a@.take(a@.len() as int) =~= a@);
    assert(b@.take(b@.len() as int) =~= b@);
    r
}

/// Whether two character sequences are equal.
pub fn chars_eq(a: &[char], b: &[char]) -> (r: bool)
    ensures
        r == (a@ == b@),
{
    if a.len() != b.len() {
        return false;
    }
    let mut i: usize = 0;
    while i < a.len()
        invariant
            a@.len() == b@.len(),
            i <= a@.len(),
            forall|j: int| 0 <= j < i ==> a@[j] == b@[j],
        decreases a@.len() - i,
    {
        if a[i] != b[i] {
            return false;
        }
        i += 1;
    }
    assert(a@ =~= b@);
    true
}

/// Whether two strings hold the same characters.
pub fn str_eq(a: &str, b: &str) -> (r: bool)
    ensures
        r == (a@ == b@),
{
    let av = chars_of(a);
    let bv = chars_of(b);
    chars_eq(av.as_slice(), bv.as_slice())
}

// ---------------------------------------------------------------------------
// Substring search
// ---------------------------------------------------------------------------

/// `pat` occurs in `s` starting at index `i`.
pub open spec fn occurs_at(s: Seq<char>, pat: Seq<char>, i: int) -> bool {
    0 <= i && i + pat.len() <= s.len() && s.subrange(i, i + pat.len()) == pat
}

/// `pat` occurs somewhere in `s` (`str::contains`).
pub open spec fn contains(s: Seq<char>, pat: Seq<char>) -> bool {
    exists|i: int| occurs_at(s, pat, i)
}

/// Index of the first occurrence of `pat` in `s` at or after `i`, or -1.
pub open spec fn find_from(s: Seq<char>, pat: Seq<char>, i: int) -> int
    decreases s.len() + 1 - i,
{
    if i < 0 || i + pat.len() > s.len() {
        -1
    } else if s.subrange(i, i + pat.len()) == pat {
        i
    } else {
        find_from(s, pat, i + 1)
    }
}

/// `find_from` returns the first occurrence at or after `i`.
pub proof fn lemma_find_from(s: Seq<char>, pat: Seq<char>, i: int)
    requires
        0 <= i,
    ensures
        find_from(s, pat, i) == -1 ==> forall|j: int| i <= j ==> !occurs_at(s, pat, j),
        find_from(s, pat, i) != -1 ==> {
            &&& i <= find_from(s, pat, i)
            &&& occurs_at(s, pat, find_from(s, pat, i))
            &&& forall|j: int| i <= j < find_from(s, pat, i) ==> !occurs_at(s, pat, j)
        },
    decreases s.len() + 1 - i,
{
    if i + pat.len() > s.len() {
    } else if s.subrange(i, i + pat.len()) == pat {
    } else {
        lemma_find_from(s, pat, i + 1);
    }
}

/// `s` starts with `pat`.
pub open spec fn starts_with(s: Seq<char>, pat: Seq<char>) -> bool {
    pat.len() <= s.len() && s.take(pat.len() as int) == pat
}

/// `s` ends with `pat`.
pub open spec fn ends_with(s: Seq<char>, pat: Seq<char>) -> bool {
    pat.len() <= s.len() && s.skip(s.len() - pat.len()) == pat
}

/// Whether `pat` occurs in `s` at index `i` (caller guarantees the bounds).
fn matches_at(s: &[char], pat: &[char], i: usize) -> (b: bool)
    requires
        i + pat@.len() <= s@.len(),
    ensures
        b == (s@.subrange(i as int, i + pat@.len()) == pat@),
{
    let n = s.len();
    let mut k: usize = 0;
    while k < pat.len()
        invariant
            n == s@.len(),
            k <= pat@.len(),
            i + pat@.len() <= s@.len(),
            forall|m: int| 0 <= m < k ==> s@[i + m] == pat@[m],
        decreases pat@.len() - k,
    {
        assert(i + k < s@.len());
        if s[i + k] != pat[k] {
            assert(s@.subrange(i as int, i + pat@.len())[k as int] != pat@[k as int]);
            return false;
        }
        k += 1;
    }
    assert(s@.subrange(i as int, i + pat@.len()) =~= pat@);
    true
}

/// First index at which `pat` occurs in `s`.
pub fn find_chars(s: &[char], pat: &[char]) -> (r: Option<usize>)
    ensures
        match r {
            Some(k) => k == find_from(s@, pat@, 0),
            None => find_from(s@, pat@, 0) == -1,
        },
{
    proof {
        lemma_find_from(s@, pat@, 0);
    }
    if pat.len() > s.len() {
        return None;
    }
    if pat.len() == 0 {
        assert(s@.subrange(0, 0) =~= pat@);
        return Some(0);
    }
    let n = s.len();
    let last = n - pat.len();
    let mut i: usize = 0;
    while i <= last
        invariant
            n == s@.len(),
            pat@.len() > 0,
            last + pat@.len() == s@.len(),
            i <= last + 1,
            forall|j: int| 0 <= j < i ==> !occurs_at(s@, pat@, j),
            find_from(s@, pat@, 0) == -1 ==> forall|j: int| 0 <= j ==> !occurs_at(s@, pat@, j),
            find_from(s@, pat@, 0) != -1 ==> {
                &&& occurs_at(s@, pat@, find_from(s@, pat@, 0))
                &&& forall|j: int| 0 <= j < find_from(s@, pat@, 0) ==> !occurs_at(s@, pat@, j)
            },
        decreases last + 1 - i,
    {
        if matches_at(s, pat, i) {
            assert(occurs_at(s@, pat@, i as int));
            return Some(i);
        }
        i += 1;
    }
    assert forall|j: int| 0 <= j implies !occurs_at(s@, pat@, j) by {
        if j < i {
        } else {
            assert(j + pat@.len() > s@.len());
        }
    }
    None
}

/// `find_from(s, pat, 0)` decides `contains`.
pub proof fn lemma_contains_find(s: Seq<char>, pat: Seq<char>)
    ensures
        contains(s, pat) <==> find_from(s, pat, 0) != -1,
{
    lemma_find_from(s, pat, 0);
    if find_from(s, pat, 0) != -1 {
        assert(occurs_at(s, pat, find_from(s, pat, 0)));
    }
    if contains(s, pat) {
        let j = choose|j: int| occurs_at(s, pat, j);
        assert(occurs_at(s, pat, j));
    }
}

/// Whether `pat` occurs in `s`.
pub fn contains_chars(s: &[char], pat: &[char]) -> (b: bool)
    ensures
        b == contains(s@, pat@),
{
    proof {
        lemma_contains_find(s@, pat@);
    }
    find_chars(s, pat).is_some()
}

/// Whether the string `pat` occurs in `s` (`str::contains`).
pub fn str_contains(s: &str, pat: &str) -> (b: bool)
    ensures
        b == contains(s@, pat@),
{
    let sv = chars_of(s);
    let pv = chars_of(pat);
    contains_chars(sv.as_slice(), pv.as_slice())
}

/// Whether `s` starts with `pat`.
pub fn starts_with_chars(s: &[char], pat: &[char]) -> (b: bool)
    ensures
        b == starts_with(s@, pat@),
{
    if pat.len() > s.len() {
        return false;
    }
    let b = matches_at(s, pat, 0);
    assert(s@.subrange(0, pat@.len() as int) =~= s@.take(pat@.len() as int));
    b
}

/// Whether `s` ends with `pat`.
pub fn ends_with_chars(s: &[char], pat: &[char]) -> (b: bool)
    ensures
        b == ends_with(s@, pat@),
{
    if pat.len() > s.len() {
        return false;
    }
    let start = s.len() - pat.len();
    let b = matches_at(s, pat, start);
    assert(s@.subrange(start as int, start + pat@.len()) =~= s@.skip(start as int));
    b
}

/// The separator between the faces of a multi-faced card name.
pub open spec fn face_sep() -> Seq<char> {
    seq![' ', '/', '/', ' ']
}

/// The part of `s` before the first occurrence of `pat` (all of `s` when
/// there is none): `s.split(pat).next()`.
pub open spec fn split_first(s: Seq<char>, pat: Seq<char>) -> Seq<char> {
    let k = find_from(s, pat, 0);
    if k == -1 {
        s
    } else {
        s.take(k)
    }
}

/// The part of `s` before the first `" // "` (all of `s` when there is
/// none): the front face of a multi-faced card name.
pub open spec fn front_face(s: Seq<char>) -> Seq<char> {
    split_first(s, face_sep())
}

/// The characters of `s` before the first occurrence of `pat`.
pub fn split_first_chars(s: &[char], pat: &[char]) -> (r: Vec<char>)
    ensures
        r@ == split_first(s@, pat@),
{
    proof {
        lemma_find_from(s@, pat@, 0);
    }
    let k = find_chars(s, pat);
    let end = match k {
        Some(k) => k,
        None => s.len(),
    };
    let mut r: Vec<char> = Vec::new();
    let mut i: usize = 0;
    while i < end
        invariant
            end <= s@.len(),
            i <= end,
            r@ == s@.take(i as int),
        decreases end - i,
    {
        r.push(s[i]);
        assert(s@.take(i as int).push(s@[i as int]) =~= s@.take(i + 1));
        i += 1;
    }
    assert(s@.take(s@.len() as int) =~= s@);
    r
}

/// The characters of the front face of `s`.
pub fn front_face_chars(s: &[char]) -> (r: Vec<char>)
    ensures
        r@ == front_face(s@),
{
    let sep: [char; 4] = [' ', '/', '/', ' '];
    assert(sep@ =~= face_sep());
    split_first_chars(s, &sep)
}

// ---------------------------------------------------------------------------
// Whitespace
// ---------------------------------------------------------------------------

/// Unicode `White_Space` (`char::is_whitespace`).
pub open spec fn is_ws(c: char) -> bool {
    ||| ('\u{9}' <= c && c <= '\u{d}')
    ||| c == ' '
    ||| c == '\u{85}'
    ||| c == '\u{a0}'
    ||| c == '\u{1680}'
    ||| ('\u{2000}' <= c && c <= '\u{200a}')
    ||| c == '\u{2028}'
    ||| c == '\u{2029}'
    ||| c == '\u{202f}'
    ||| c == '\u{205f}'
    ||| c == '\u{3000}'
}

/// Whether `c` is Unicode whitespace.
pub fn is_ws_exec(c: char) -> (b: bool)
    ensures
        b == is_ws(c),
{
    ('\u{9}' <= c && c <= '\u{d}') || c == ' ' || c == '\u{85}' || c == '\u{a0}' || c
        == '\u{1680}' || ('\u{2000}' <= c && c <= '\u{200a}') || c == '\u{2028}' || c
        == '\u{2029}' || c == '\u{202f}' || c == '\u{205f}' || c == '\u{3000}'
}

/// `s` without its leading whitespace.
pub open spec fn trim_start(s: Seq<char>) -> Seq<char>
    decreases s.len(),
{
    if s.len() > 0 && is_ws(s[0]) {
        trim_start(s.drop_first())
    } else {
        s
    }
}

/// `s` without its trailing whitespace.
pub open spec fn trim_end(s: Seq<char>) -> Seq<char>
    decreases s.len(),
{
    if s.len() > 0 && is_ws(s.last()) {
        trim_end(s.drop_last())
    } else {
        s
    }
}

/// `s` without leading and trailing whitespace (`str::trim`).
pub open spec fn trim(s: Seq<char>) -> Seq<char> {
    trim_end(trim_start(s))
}

proof fn lemma_trim_start_skip(s: Seq<char>, i: int)
    requires
        0 <= i <= s.len(),
        forall|j: int| 0 <= j < i ==> is_ws(s[j]),
    ensures
        trim_start(s) == trim_start(s.skip(i)),
    decreases i,
{
    if i > 0 {
        assert(s.drop_first().skip(i - 1) =~= s.skip(i));
        lemma_trim_start_skip(s.drop_first(), i - 1);
    } else {
        assert(s.skip(0) =~= s);
    }
}

proof fn lemma_trim_end_take(s: Seq<char>, e: int)
    requires
        0 <= e <= s.len(),
        forall|j: int| e <= j < s.len() ==> is_ws(s[j]),
    ensures
        trim_end(s) == trim_end(s.take(e)),
    decreases s.len() - e,
{
    if e < s.len() {
        assert(s.drop_last().take(e) =~= s.take(e));
        lemma_trim_end_take(s.drop_last(), e);
    } else {
        assert(s.take(e) =~= s);
    }
}

/// The characters of `s` with leading and trailing whitespace removed.
pub fn trim_chars(s: &[char]) -> (r: Vec<char>)
    ensures
        r@ == trim(s@),
{
    let mut b: usize = 0;
    while b < s.len() && is_ws_exec(s[b])
        invariant
            b <= s@.len(),
            forall|j: int| 0 <= j < b ==> is_ws(s@[j]),
        decreases s@.len() - b,
    {
        b += 1;
    }
    proof {
        lemma_trim_start_skip(s@, b as int);
    }
    let ghost t = s@.skip(b as int);
    // t does not start with whitespace, so trim_start(t) == t
    let mut e: usize = s.len();
    while e > b && is_ws_exec(s[e - 1])
        invariant
            b <= e <= s@.len(),
            forall|j: int| e <= j < s@.len() ==> is_ws(s@[j]),
        decreases e,
    {
        e -= 1;
    }
    proof {
        assert(trim_start(t) == t);
        lemma_trim_end_take(t, e - b);
        let u = t.take(e - b);
        assert(u =~= s@.subrange(b as int, e as int));
        if u.len() > 0 {
            assert(!is_ws(u.last()));
        }
        assert(trim_end(u) == u);
    }
    let mut r: Vec<char> = Vec::new();
    let mut i: usize = b;
    while i < e
        invariant
            b <= i <= e <= s@.len(),
            r@ == s@.subrange(b as int, i as int),
        decreases e - i,
    {
        r.push(s[i]);
        assert(s@.subrange(b as int, i as int).push(s@[i as int]) =~= s@.subrange(
            b as int,
            i + 1,
        ));
        i += 1;
    }
    r
}

// ---------------------------------------------------------------------------
// ASCII character classes and case
// ---------------------------------------------------------------------------

/// ASCII lower-case of one character (`char::to_ascii_lowercase`).
pub open spec fn ascii_lower(c: char) -> char {
    if 'A' <= c && c <= 'Z' {
        ((c as u32) + 32) as char
    } else {
        c
    }
}

/// ASCII upper-case of one character (`char::to_ascii_uppercase`).
pub open spec fn ascii_upper(c: char) -> char {
    if 'a' <= c && c <= 'z' {
        ((c as u32) - 32) as char
    } else {
        c
    }
}

/// ASCII letter or digit (`char::is_ascii_alphanumeric`).
pub open spec fn is_ascii_alnum(c: char) -> bool {
    ('a' <= c && c <= 'z') || ('A' <= c && c <= 'Z') || ('0' <= c && c <= '9')
}

/// ASCII digit.
pub open spec fn is_digit(c: char) -> bool {
    '0' <= c && c <= '9'
}

/// Lower-cases one ASCII letter; other characters are kept.
pub fn ascii_lower_exec(c: char) -> (r: char)
    ensures
        r == ascii_lower(c),
{
    if 'A' <= c && c <= 'Z' {
        let b: u8 = c as u8;
        (b + 32) as char
    } else {
        c
    }
}

/// Upper-cases one ASCII letter; other characters are kept.
pub fn ascii_upper_exec(c: char) -> (r: char)
    ensures
        r == ascii_upper(c),
{
    if 'a' <= c && c <= 'z' {
        let b: u8 = c as u8;
        (b - 32) as char
    } else {
        c
    }
}

/// ASCII lower-case of a whole string (`str::to_ascii_lowercase`).
pub open spec fn ascii_lower_seq(s: Seq<char>) -> Seq<char> {
    s.map_values(|c: char| ascii_lower(c))
}

/// The characters of `s` with ASCII letters lower-cased.
pub fn ascii_lower_chars(s: &[char]) -> (r: Vec<char>)
    ensures
        r@ == ascii_lower_seq(s@),
{
    let mut r: Vec<char> = Vec::new();
    let mut i: usize = 0;
    while i < s.len()
        invariant
            i <= s@.len(),
            r@ == ascii_lower_seq(s@.take(i as int)),
        decreases s@.len() - i,
    {
        r.push(ascii_lower_exec(s[i]));
        assert(ascii_lower_seq(s@.take(i as int)).push(ascii_lower(s@[i as int])) =~= ascii_lower_seq(
            s@.take(i + 1),
        ));
        i += 1;
    }
    assert(s@.take(s@.len() as int) =~= s@);
    r
}

/// Whether `c` is an ASCII letter or digit.
pub fn is_ascii_alnum_exec(c: char) -> (b: bool)
    ensures
        b == is_ascii_alnum(c),
{
    ('a' <= c && c <= 'z') || ('A' <= c && c <= 'Z') || ('0' <= c && c <= '9')
}

// ---------------------------------------------------------------------------
// Unicode case mapping (std)
// ---------------------------------------------------------------------------

/// What `str::to_lowercase` returns for a string.
pub uninterp spec fn unicode_lower(s: Seq<char>) -> Seq<char>;

/// What `str::to_uppercase` returns for a string.
pub uninterp spec fn unicode_upper(s: Seq<char>) -> Seq<char>;

/// Every character of `s` is ASCII.
pub open spec fn all_ascii(s: Seq<char>) -> bool {
    forall|i: int| 0 <= i < s.len() ==> (#[trigger] s[i] as u32) < 128
}

/// The characters of `s` with ASCII letters upper-cased.
pub open spec fn ascii_upper_seq(s: Seq<char>) -> Seq<char> {
    s.map_values(|c: char| ascii_upper(c))
}

proof fn lemma_ascii_trim_start(s: Seq<char>)
    requires
        all_ascii(s),
    ensures
        all_ascii(trim_start(s)),
    decreases s.len(),
{
    if s.len() > 0 && is_ws(s[0]) {
        assert forall|i: int| 0 <= i < s.drop_first().len() implies (#[trigger] s.drop_first()[i]
            as u32) < 128 by {
            assert(s.drop_first()[i] == s[i + 1]);
        }
        lemma_ascii_trim_start(s.drop_first());
    }
}

proof fn lemma_ascii_trim_end(s: Seq<char>)
    requires
        all_ascii(s),
    ensures
        all_ascii(trim_end(s)),
    decreases s.len(),
{
    if s.len() > 0 && is_ws(s.last()) {
        assert forall|i: int| 0 <= i < s.drop_last().len() implies (#[trigger] s.drop_last()[i]
            as u32) < 128 by {
            assert(s.drop_last()[i] == s[i]);
        }
        lemma_ascii_trim_end(s.drop_last());
    }
}

/// Trimming the front face of an ASCII name leaves ASCII text.
pub proof fn lemma_ascii_trimmed_front(s: Seq<char>)
    requires
        all_ascii(s),
    ensures
        all_ascii(trim(front_face(s))),
{
    let f = front_face(s);
    lemma_find_from(s, face_sep(), 0);
    assert forall|i: int| 0 <= i < f.len() implies (#[trigger] f[i] as u32) < 128 by {
        if find_from(s, face_sep(), 0) != -1 {
            assert(f[i] == s[i]);
        }
    }
    lemma_ascii_trim_start(f);
    lemma_ascii_trim_end(trim_start(f));
}

/// `str::to_lowercase`: the full Unicode lower-case mapping of `s`. The
/// mapping is a function of the characters of `s` alone; the contract names
/// it. On ASCII text it is ASCII lower-casing: Unicode maps `A`..`Z` to
/// `a`..`z` and every other ASCII character to itself, which is what
/// `to_ascii_lowercase` documents for the ASCII part.
#[verifier::external_body]
pub(crate) fn to_lower(s: &str) -> (r: String)
    ensures
        r@ == unicode_lower(s@),
        all_ascii(s@) ==> r@ == ascii_lower_seq(s@),
{
    s.to_lowercase()
}

/// `str::to_uppercase`: the full Unicode upper-case mapping of `s`. The
/// mapping is a function of the characters of `s` alone; the contract names
/// it. On ASCII text it is ASCII upper-casing (`a`..`z` to `A`..`Z`, every
/// other ASCII character unchanged).
#[verifier::external_body]
pub(crate) fn to_upper(s: &str) -> (r: String)
    ensures
        r@ == unicode_upper(s@),
        all_ascii(s@) ==> r@ == ascii_upper_seq(s@),
{
    s.to_uppercase()
}

/// What `format!("{:?}", s)` gives for a string: the string quoted, with
/// escapes.
pub uninterp spec fn debug_quoted(s: Seq<char>) -> Seq<char>;

/// `format!("{:?}", s)`: the `Debug` form of a string. The escaping rules
/// are a function of the characters of `s` alone; the contract names the
/// result and states nothing further.
#[verifier::external_body]
pub(crate) fn debug_str(s: &str) -> (r: String)
    ensures
        r@ == debug_quoted(s@),
{
    format!("{:?}", s)
}

// ---------------------------------------------------------------------------
// Splitting at a separator
// ---------------------------------------------------------------------------

/// The pieces of `s` between occurrences of `sep`, as read from the left:
/// the pieces already closed by a separator, and the open one.
pub open spec fn pieces_state(s: Seq<char>, sep: char) -> (Seq<Seq<char>>, Seq<char>)
    decreases s.len(),
{
    if s.len() == 0 {
        (Seq::empty(), Seq::empty())
    } else {
        let (closed, cur) = pieces_state(s.drop_last(), sep);
        if s.last() == sep {
            (closed.push(cur), Seq::empty())
        } else {
            (closed, cur.push(s.last()))
        }
    }
}

/// `s.split(sep)`: every piece between separators, empty ones included.
pub open spec fn split_on(s: Seq<char>, sep: char) -> Seq<Seq<char>> {
    pieces_state(s, sep).0.push(pieces_state(s, sep).1)
}

/// The pieces of `s` between occurrences of `sep` (`str::split`).
pub fn split_at_char(s: &str, sep: char) -> (pieces: Vec<String>)
    ensures
        str_views(pieces@) == split_on(s@, sep),
{
    let cs = chars_of(s);
    let mut out: Vec<String> = Vec::new();
    let mut cur: Vec<char> = Vec::new();
    let mut i: usize = 0;
    while i < cs.len()
        invariant
            i <= cs@.len(),
            cs@ == s@,
            str_views(out@) == pieces_state(cs@.take(i as int), sep).0,
            cur@ == pieces_state(cs@.take(i as int), sep).1,
        decreases cs@.len() - i,
    {
        assert(cs@.take(i + 1).drop_last() =~= cs@.take(i as int));
        if cs[i] == sep {
            let ghost before = str_views(out@);
            out.push(string_of(cur.as_slice()));
            assert(str_views(out@) =~= before.push(cur@));
            cur = Vec::new();
        } else {
            cur.push(cs[i]);
        }
        i += 1;
    }
    assert(cs@.take(cs@.len() as int) =~= cs@);
    let ghost before = str_views(out@);
    out.push(string_of(cur.as_slice()));
    assert(str_views(out@) =~= before.push(cur@));
    out
}

// ---------------------------------------------------------------------------
// Ordering of strings
// ---------------------------------------------------------------------------

/// Lexicographic order of character sequences (the order of `String`).
pub open spec fn seq_lt(a: Seq<char>, b: Seq<char>) -> bool
    decreases a.len(),
{
    if a.len() == 0 {
        b.len() > 0
    } else if b.len() == 0 {
        false
    } else if a[0] != b[0] {
        a[0] < b[0]
    } else {
        seq_lt(a.drop_first(), b.drop_first())
    }
}

/// `seq_lt` is a strict total order.
pub proof fn lemma_seq_lt_order(a: Seq<char>, b: Seq<char>)
    ensures
        !seq_lt(a, a),
        seq_lt(a, b) ==> !seq_lt(b, a),
        a != b ==> seq_lt(a, b) || seq_lt(b, a),
    decreases a.len(),
{
    if a.len() > 0 {
        lemma_seq_lt_order(a.drop_first(), a.drop_first());
    }
    if a.len() > 0 && b.len() > 0 {
        lemma_seq_lt_order(a.drop_first(), b.drop_first());
        if a[0] == b[0] && a.drop_first() == b.drop_first() {
            assert forall|i: int| 0 <= i < a.len() implies a[i] == b[i] by {
                if i > 0 {
                    assert(a[i] == a.drop_first()[i - 1]);
                    assert(b[i] == b.drop_first()[i - 1]);
                }
            }
            assert(a =~= b);
        }
    } else if a.len() == 0 && b.len() == 0 {
        assert(a =~= b);
    }
}

/// `seq_lt` is transitive.
pub proof fn lemma_seq_lt_trans(a: Seq<char>, b: Seq<char>, c: Seq<char>)
    requires
        seq_lt(a, b),
        seq_lt(b, c),
    ensures
        seq_lt(a, c),
    decreases a.len(),
{
    if a.len() > 0 && b.len() > 0 && c.len() > 0 && a[0] == b[0] && b[0] == c[0] {
        lemma_seq_lt_trans(a.drop_first(), b.drop_first(), c.drop_first());
    }
}

/// Whether `a` sorts before `b`.
pub fn chars_lt(a: &[char], b: &[char]) -> (r: bool)
    ensures
        r == seq_lt(a@, b@),
{
    let mut i: usize = 0;
    proof {
        assert(a@.skip(0) =~= a@);
        assert(b@.skip(0) =~= b@);
    }
    while i < a.len() && i < b.len() && a[i] == b[i]
        invariant
            i <= a@.len(),
            i <= b@.len(),
            seq_lt(a@, b@) == seq_lt(a@.skip(i as int), b@.skip(i as int)),
        decreases a@.len() - i,
    {
        proof {
            assert(a@.skip(i as int).drop_first() =~= a@.skip(i + 1));
            assert(b@.skip(i as int).drop_first() =~= b@.skip(i + 1));
        }
        i += 1;
    }
    proof {
        if i < a.len() {
            assert(a@.skip(i as int)[0] == a@[i as int]);
        }
        if i < b.len() {
            assert(b@.skip(i as int)[0] == b@[i as int]);
        }
    }
    if i == a.len() {
        i < b.len()
    } else if i == b.len() {
        false
    } else {
        a[i] < b[i]
    }
}

/// Strictly increasing in `seq_lt` (so also free of duplicates).
pub open spec fn sorted_strict(v: Seq<Seq<char>>) -> bool {
    forall|i: int, j: int| 0 <= i < j < v.len() ==> seq_lt(#[trigger] v[i], #[trigger] v[j])
}

/// Inserts `s` into the strictly sorted `v` unless it is already there.
pub fn insert_sorted_unique(v: &mut Vec<String>, s: String)
    requires
        sorted_strict(str_views(old(v)@)),
    ensures
        sorted_strict(str_views(final(v)@)),
        forall|x: Seq<char>| #[trigger]
            str_views(final(v)@).contains(x) <==> (str_views(old(v)@).contains(x) || x == s@),
{
    let sc = chars_of(s.as_str());
    let ghost old_views = str_views(v@);
    let mut p: usize = 0;
    let mut found = false;
    while p < v.len() && !found
        invariant
            p <= v@.len(),
            sc@ == s@,
            str_views(v@) == old_views,
            forall|i: int| 0 <= i < p ==> seq_lt(#[trigger] old_views[i], s@),
            found ==> p < v@.len() && !seq_lt(old_views[p as int], s@),
        decreases v@.len() - p + (if found { 0int } else { 1int }),
    {
        let cur = chars_of(v[p].as_str());
        if chars_lt(cur.as_slice(), sc.as_slice()) {
            p += 1;
        } else {
            found = true;
        }
    }
    proof {
        lemma_seq_lt_order(s@, s@);
    }
    if p < v.len() {
        let cur = chars_of(v[p].as_str());
        if chars_eq(cur.as_slice(), sc.as_slice()) {
            assert(old_views[p as int] == s@);
            return;
        }
    }
    // Everything from p on sorts after s.
    proof {
        assert forall|j: int| p <= j < old_views.len() implies seq_lt(s@, #[trigger] old_views[j]) by {
            lemma_seq_lt_order(old_views[p as int], s@);
            assert(old_views[p as int] != s@);
            assert(!seq_lt(old_views[p as int], s@));
            assert(seq_lt(s@, old_views[p as int]));
            if j > p {
                lemma_seq_lt_trans(s@, old_views[p as int], old_views[j]);
            }
        }
    }
    v.insert(p, s);
    proof {
        let nv = str_views(v@);
        assert(nv =~= old_views.insert(p as int, sc@));
        assert forall|i: int, j: int| 0 <= i < j < nv.len() implies seq_lt(#[trigger] nv[i], #[trigger] nv[j]) by {
            if j < p {
                assert(nv[i] == old_views[i] && nv[j] == old_views[j]);
            } else if j == p {
                assert(nv[i] == old_views[i]);
            } else if i < p {
                assert(nv[i] == old_views[i] && nv[j] == old_views[j - 1]);
                lemma_seq_lt_trans(nv[i], s@, nv[j]);
            } else if i == p {
                assert(nv[j] == old_views[j - 1]);
            } else {
                assert(nv[i] == old_views[i - 1] && nv[j] == old_views[j - 1]);
            }
        }
        assert forall|x: Seq<char>| #[trigger] nv.contains(x) <==> (old_views.contains(x) || x == s@) by {
            if old_views.contains(x) {
                let k = choose|k: int| 0 <= k < old_views.len() && old_views[k] == x;
                if k < p {
                    assert(nv[k] == x);
                } else {
                    assert(nv[k + 1] == x);
                }
            }
            if x == s@ {
                assert(nv[p as int] == x);
            }
            if nv.contains(x) {
                let k = choose|k: int| 0 <= k < nv.len() && nv[k] == x;
                if k < p {
                    assert(old_views[k] == x);
                } else if k > p {
                    assert(old_views[k - 1] == x);
                }
            }
        }
    }
}

} // verus!
