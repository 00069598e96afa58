//! Engine vocabulary: colour masks, card roles, formats, wildcard budgets,
//! printings and oracle cards.


use vstd::prelude::*;

use crate::models::Rarity;
use crate::text::{chars_of, str_eq};

verus! {

pub const W: u8 = 1;
pub const U: u8 = 2;
pub const B: u8 = 4;
pub const R: u8 = 8;
pub const G: u8 = 16;

// ---------------------------------------------------------------------------
// Colour masks
// ---------------------------------------------------------------------------

/// The colour bit a letter stands for (either case); 0 for other characters.
pub open spec fn letter_bit(c: char) -> u8 {
    if c == 'W' || c == 'w' {
        W
    } else if c == 'U' || c == 'u' {
        U
    } else if c == 'B' || c == 'b' {
        B
    } else if c == 'R' || c == 'r' {
        R
    } else if c == 'G' || c == 'g' {
        G
    } else {
        0
    }
}

/// Some character of `s` is a letter for colour `bit`.
pub open spec fn has_colour(s: Seq<char>, bit: u8) -> bool {
    exists|i: int| 0 <= i < s.len() && letter_bit(#[trigger] s[i]) == bit
}

/// The mask of the colours whose letters occur in `s`.
pub open spec fn mask_of_chars(s: Seq<char>) -> u8 {
    (if has_colour(s, W) { W } else { 0 }) | (if has_colour(s, U) { U } else { 0 }) | (if has_colour(
        s,
        B,
    ) { B } else { 0 }) | (if has_colour(s, R) { R } else { 0 }) | (if has_colour(s, G) { G } else { 0 })
}

/// The colour letters set in `mask`, in WUBRG order.
pub open spec fn letters_of(mask: u8) -> Seq<char> {
    (if mask & W != 0 { seq!['W'] } else { seq![] }) + (if mask & U != 0 { seq!['U'] } else { seq![] })
        + (if mask & B != 0 { seq!['B'] } else { seq![] }) + (if mask & R != 0 { seq!['R'] } else { seq![] })
        + (if mask & G != 0 { seq!['G'] } else { seq![] })
}

/// Every colour of `inner` is a colour of `outer`.
pub open spec fn subset_spec(inner: u8, outer: u8) -> bool {
    inner & !outer == 0
}

fn letter_mask(c: char) -> (m: u8)
    ensures
        m == letter_bit(c),
{
    if c == 'W' || c == 'w' {
        W
    } else if c == 'U' || c == 'u' {
        U
    } else if c == 'B' || c == 'b' {
        B
    } else if c == 'R' || c == 'r' {
        R
    } else if c == 'G' || c == 'g' {
        G
    } else {
        0
    }
}

proof fn lemma_or_step(a: bool, b: bool, c: bool, d: bool, e: bool, x: u8)
    requires
        x == 0 || x == 1 || x == 2 || x == 4 || x == 8 || x == 16,
    ensures
        ((if a { 1u8 } else { 0u8 }) | (if b { 2u8 } else { 0u8 }) | (if c { 4u8 } else { 0u8 }) | (
        if d { 8u8 } else { 0u8 }) | (if e { 16u8 } else { 0u8 })) | x == (if a || x == 1 {
            1u8
        } else {
            0u8
        }) | (if b || x == 2 { 2u8 } else { 0u8 }) | (if c || x == 4 { 4u8 } else { 0u8 }) | (if d
            || x == 8 { 8u8 } else { 0u8 }) | (if e || x == 16 { 16u8 } else { 0u8 }),
{
    assert(((if a { 1u8 } else { 0u8 }) | (if b { 2u8 } else { 0u8 }) | (if c { 4u8 } else { 0u8 })
        | (if d { 8u8 } else { 0u8 }) | (if e { 16u8 } else { 0u8 })) | x == (if a || x == 1 {
        1u8
    } else {
        0u8
    }) | (if b || x == 2 { 2u8 } else { 0u8 }) | (if c || x == 4 { 4u8 } else { 0u8 }) | (if d || x
        == 8 { 8u8 } else { 0u8 }) | (if e || x == 16 { 16u8 } else { 0u8 })) by (bit_vector)
        requires
            x == 0 || x == 1 || x == 2 || x == 4 || x == 8 || x == 16,
    ;
}

proof fn lemma_mask_empty(s: Seq<char>)
    requires
        s.len() == 0,
    ensures
        mask_of_chars(s) == 0,
{
    assert(!has_colour(s, W) && !has_colour(s, U) && !has_colour(s, B) && !has_colour(s, R)
        && !has_colour(s, G));
    assert((0u8 | 0u8 | 0u8 | 0u8 | 0u8) == 0u8) by (bit_vector);
}

proof fn lemma_mask_push(s: Seq<char>, c: char)
    ensures
        mask_of_chars(s.push(c)) == mask_of_chars(s) | letter_bit(c),
{
    let t = s.push(c);
    let x = letter_bit(c);
    assert forall|bit: u8| has_colour(t, bit) == (has_colour(s, bit) || x == bit) by {
        if has_colour(s, bit) {
            let i = choose|i: int| 0 <= i < s.len() && letter_bit(#[trigger] s[i]) == bit;
            assert(t[i] == s[i]);
        }
        if x == bit {
            assert(t[s.len() as int] == c);
        }
        if has_colour(t, bit) {
            let i = choose|i: int| 0 <= i < t.len() && letter_bit(#[trigger] t[i]) == bit;
            if i < s.len() {
                assert(t[i] == s[i]);
            }
        }
    }
    lemma_or_step(
        has_colour(s, W),
        has_colour(s, U),
        has_colour(s, B),
        has_colour(s, R),
        has_colour(s, G),
        x,
    );
}

/// Adds the colours of every character of `s` to `m`.
fn add_mask_chars(m: u8, s: &str) -> (r: u8)
    ensures
        r == m | mask_of_chars(s@),
{
    let v = chars_of(s);
    let mut acc = m;
    let mut i: usize = 0;
    proof {
        lemma_mask_empty(v@.take(0));
        assert((m | 0u8) == m) by (bit_vector);
    }
    while i < v.len()
        invariant
            i <= v@.len(),
            v@ == s@,
            acc == m | mask_of_chars(v@.take(i as int)),
        decreases v@.len() - i,
    {
        let c = v[i];
        let lm = letter_mask(c);
        proof {
            assert(v@.take(i as int).push(c) =~= v@.take(i + 1));
            lemma_mask_push(v@.take(i as int), c);
            let a = mask_of_chars(v@.take(i as int));
            assert((m | a) | lm == m | (a | lm)) by (bit_vector);
        }
        acc = acc | lm;
        i += 1;
    }
    assert(v@.take(v@.len() as int) =~= v@);
    acc
}

/// The concatenation of the characters of a list of strings.
pub open spec fn joined(letters: Seq<&str>) -> Seq<char>
    decreases letters.len(),
{
    if letters.len() == 0 {
        seq![]
    } else {
        joined(letters.drop_last()) + letters.last()@
    }
}

proof fn lemma_has_colour_concat(a: Seq<char>, b: Seq<char>, bit: u8)
    ensures
        has_colour(a + b, bit) == (has_colour(a, bit) || has_colour(b, bit)),
{
    let t = a + b;
    if has_colour(a, bit) {
        let i = choose|i: int| 0 <= i < a.len() && letter_bit(#[trigger] a[i]) == bit;
        assert(t[i] == a[i]);
    }
    if has_colour(b, bit) {
        let i = choose|i: int| 0 <= i < b.len() && letter_bit(#[trigger] b[i]) == bit;
        assert(t[a.len() + i] == b[i]);
    }
    if has_colour(t, bit) {
        let i = choose|i: int| 0 <= i < t.len() && letter_bit(#[trigger] t[i]) == bit;
        if i < a.len() {
            assert(t[i] == a[i]);
        } else {
            assert(t[i] == b[i - a.len()]);
        }
    }
}

proof fn lemma_mask_concat(a: Seq<char>, b: Seq<char>)
    ensures
        mask_of_chars(a + b) == mask_of_chars(a) | mask_of_chars(b),
{
    lemma_has_colour_concat(a, b, W);
    lemma_has_colour_concat(a, b, U);
    lemma_has_colour_concat(a, b, B);
    lemma_has_colour_concat(a, b, R);
    lemma_has_colour_concat(a, b, G);
    let (a1, a2, a3, a4, a5) = (
        has_colour(a, W),
        has_colour(a, U),
        has_colour(a, B),
        has_colour(a, R),
        has_colour(a, G),
    );
    let (b1, b2, b3, b4, b5) = (
        has_colour(b, W),
        has_colour(b, U),
        has_colour(b, B),
        has_colour(b, R),
        has_colour(b, G),
    );
    assert(((if a1 || b1 { 1u8 } else { 0u8 }) | (if a2 || b2 { 2u8 } else { 0u8 }) | (if a3 || b3 {
        4u8
    } else {
        0u8
    }) | (if a4 || b4 { 8u8 } else { 0u8 }) | (if a5 || b5 { 16u8 } else { 0u8 })) == ((if a1 {
        1u8
    } else {
        0u8
    }) | (if a2 { 2u8 } else { 0u8 }) | (if a3 { 4u8 } else { 0u8 }) | (if a4 { 8u8 } else { 0u8 }) | (
    if a5 { 16u8 } else { 0u8 })) | ((if b1 { 1u8 } else { 0u8 }) | (if b2 { 2u8 } else { 0u8 }) | (
    if b3 { 4u8 } else { 0u8 }) | (if b4 { 8u8 } else { 0u8 }) | (if b5 { 16u8 } else { 0u8 })))
        by (bit_vector);
}

/// The mask of every colour letter in `letters` (`["G", "R"]` gives G|R).
pub fn mask_from_letters(letters: &[&str]) -> (m: u8)
    ensures
        m == mask_of_chars(joined(letters@)),
{
    let mut m = 0u8;
    let mut i: usize = 0;
    proof {
        lemma_mask_empty(joined(letters@.take(0)));
    }
    while i < letters.len()
        invariant
            i <= letters@.len(),
            m == mask_of_chars(joined(letters@.take(i as int))),
        decreases letters@.len() - i,
    {
        let s = letters[i];
        proof {
            assert(letters@.take(i + 1).drop_last() =~= letters@.take(i as int));
            lemma_mask_concat(joined(letters@.take(i as int)), s@);
        }
        m = add_mask_chars(m, s);
        i += 1;
    }
    assert(letters@.take(letters@.len() as int) =~= letters@);
    m
}

/// The OR of the masks of the strings of `letters`, one by one.
pub open spec fn masks_or(letters: Seq<&str>) -> u8
    decreases letters.len(),
{
    if letters.len() == 0 {
        0
    } else {
        masks_or(letters.drop_last()) | mask_of_chars(letters.last()@)
    }
}

/// The mask of a list of strings is the OR of the masks of its strings
/// (so `mask_from_letters` agrees with folding `mask_from_str` over it).
pub proof fn lemma_mask_of_list_is_or(letters: Seq<&str>)
    ensures
        mask_of_chars(joined(letters)) == masks_or(letters),
    decreases letters.len(),
{
    if letters.len() == 0 {
        lemma_mask_empty(joined(letters));
    } else {
        lemma_mask_of_list_is_or(letters.drop_last());
        lemma_mask_concat(joined(letters.drop_last()), letters.last()@);
    }
}

proof fn lemma_mask_one(c: char)
    ensures
        mask_of_chars(seq![c]) == letter_bit(c),
{
    lemma_mask_empty(Seq::<char>::empty());
    lemma_mask_push(Seq::<char>::empty(), c);
    assert(Seq::<char>::empty().push(c) =~= seq![c]);
    let x = letter_bit(c);
    assert((0u8 | x) == x) by (bit_vector);
}

proof fn lemma_mask_part(b: bool, c: char)
    ensures
        mask_of_chars(if b { seq![c] } else { seq![] }) == (if b { letter_bit(c) } else { 0u8 }),
{
    if b {
        lemma_mask_one(c);
    } else {
        lemma_mask_empty(Seq::<char>::empty());
    }
}

/// The letters of a colour mask name exactly its colours: each at most
/// once, and reading them back gives the mask (`mask_from_str` of the
/// letters of `m` is `m`).
pub proof fn lemma_letters_roundtrip(m: u8)
    requires
        m < 32,
    ensures
        mask_of_chars(letters_of(m)) == m,
        letters_of(m).no_duplicates(),
{
    let (bw, bu, bb, br, bg) = (m & W != 0, m & U != 0, m & B != 0, m & R != 0, m & G != 0);
    let pw: Seq<char> = if bw { seq!['W'] } else { seq![] };
    let pu: Seq<char> = if bu { seq!['U'] } else { seq![] };
    let pb: Seq<char> = if bb { seq!['B'] } else { seq![] };
    let pr: Seq<char> = if br { seq!['R'] } else { seq![] };
    let pg: Seq<char> = if bg { seq!['G'] } else { seq![] };
    lemma_mask_part(bw, 'W');
    lemma_mask_part(bu, 'U');
    lemma_mask_part(bb, 'B');
    lemma_mask_part(br, 'R');
    lemma_mask_part(bg, 'G');
    lemma_mask_concat(pw, pu);
    lemma_mask_concat(pw + pu, pb);
    lemma_mask_concat(pw + pu + pb, pr);
    lemma_mask_concat(pw + pu + pb + pr, pg);
    assert(letters_of(m) == pw + pu + pb + pr + pg);
    assert(((if m & 1 != 0 { 1u8 } else { 0u8 }) | (if m & 2 != 0 { 2u8 } else { 0u8 }) | (if m & 4
        != 0 { 4u8 } else { 0u8 }) | (if m & 8 != 0 { 8u8 } else { 0u8 }) | (if m & 16 != 0 {
        16u8
    } else {
        0u8
    })) == m) by (bit_vector)
        requires
            m < 32,
    ;
    lemma_letters_distinct(m);
}

/// `[c]` when `b`, else nothing.
spec fn part(b: bool, c: char) -> Seq<char> {
    if b {
        seq![c]
    } else {
        seq![]
    }
}

proof fn lemma_part_distinct(a: Seq<char>, b: bool, c: char)
    requires
        a.no_duplicates(),
        !a.contains(c),
    ensures
        (a + part(b, c)).no_duplicates(),
        forall|x: char| #[trigger] (a + part(b, c)).contains(x) ==> a.contains(x) || x == c,
{
    let t = a + part(b, c);
    assert forall|x: char| #[trigger] t.contains(x) implies a.contains(x) || x == c by {
        let k = choose|k: int| 0 <= k < t.len() && t[k] == x;
        if k < a.len() {
            assert(a[k] == x);
        }
    }
    assert forall|i: int, j: int| 0 <= i < t.len() && 0 <= j < t.len() && i != j implies t[i] != t[j] by {
        if i < a.len() && j < a.len() {
            assert(t[i] == a[i] && t[j] == a[j]);
        } else if i < a.len() {
            assert(t[i] == a[i]);
            assert(t[j] == c);
        } else if j < a.len() {
            assert(t[j] == a[j]);
            assert(t[i] == c);
        }
    }
}

proof fn lemma_letters_distinct(m: u8)
    ensures
        letters_of(m).no_duplicates(),
{
    let (bw, bu, bb, br, bg) = (m & W != 0, m & U != 0, m & B != 0, m & R != 0, m & G != 0);
    let e: Seq<char> = seq![];
    let pw = part(bw, 'W');
    let pu = part(bu, 'U');
    let pb = part(bb, 'B');
    let pr = part(br, 'R');
    let pg = part(bg, 'G');
    assert(e + pw =~= pw);
    lemma_part_distinct(e, bw, 'W');
    lemma_part_distinct(pw, bu, 'U');
    lemma_part_distinct(pw + pu, bb, 'B');
    lemma_part_distinct(pw + pu + pb, br, 'R');
    lemma_part_distinct(pw + pu + pb + pr, bg, 'G');
    assert(letters_of(m) == pw + pu + pb + pr + pg);
}

/// The mask of every colour letter in `s` (`"WUG"` gives W|U|G).
pub fn mask_from_str(s: &str) -> (m: u8)
    ensures
        m == mask_of_chars(s@),
{
    let r = add_mask_chars(0u8, s);
    assert((0u8 | mask_of_chars(s@)) == mask_of_chars(s@)) by (bit_vector);
    r
}

/// The colour letters of `mask`, in WUBRG order.
pub fn mask_to_letters(mask: u8) -> (v: Vec<char>)
    ensures
        v@ == letters_of(mask),
{
    let mut v = Vec::new();
    if mask & W != 0 {
        v.push('W');
    }
    if mask & U != 0 {
        v.push('U');
    }
    if mask & B != 0 {
        v.push('B');
    }
    if mask & R != 0 {
        v.push('R');
    }
    if mask & G != 0 {
        v.push('G');
    }
    assert(v@ =~= letters_of(mask));
    v
}

/// Every colour of `inner` is also in `outer`.
pub fn is_subset(inner: u8, outer: u8) -> (b: bool)
    ensures
        b == subset_spec(inner, outer),
{
    inner & !outer == 0
}

// ---------------------------------------------------------------------------
// Roles
// ---------------------------------------------------------------------------

/// The function a card plays in a deck.
#[derive(Debug, Clone, Copy, PartialEq, Eq, Hash, Structural)]
pub enum Role {
    Land,
    Ramp,
    Draw,
    Removal,
    Wipe,
    Counter,
    Recursion,
    Tutor,
    Protection,
    Threat,
    Finisher,
    Payoff,
    Utility,
}

/// Position of a role in the canonical order `Role::ALL`.
pub open spec fn role_index(r: Role) -> int {
    match r {
        Role::Land => 0,
        Role::Ramp => 1,
        Role::Draw => 2,
        Role::Removal => 3,
        Role::Wipe => 4,
        Role::Counter => 5,
        Role::Recursion => 6,
        Role::Tutor => 7,
        Role::Protection => 8,
        Role::Threat => 9,
        Role::Finisher => 10,
        Role::Payoff => 11,
        Role::Utility => 12,
    }
}

/// The position of a role in the canonical order.
pub fn role_position(r: Role) -> (i: usize)
    ensures
        i == role_index(r),
        i < 13,
{
    match r {
        Role::Land => 0,
        Role::Ramp => 1,
        Role::Draw => 2,
        Role::Removal => 3,
        Role::Wipe => 4,
        Role::Counter => 5,
        Role::Recursion => 6,
        Role::Tutor => 7,
        Role::Protection => 8,
        Role::Threat => 9,
        Role::Finisher => 10,
        Role::Payoff => 11,
        Role::Utility => 12,
    }
}

/// The role at a position of the canonical order.
pub open spec fn role_at(i: int) -> Role {
    if i <= 0 {
        Role::Land
    } else if i == 1 {
        Role::Ramp
    } else if i == 2 {
        Role::Draw
    } else if i == 3 {
        Role::Removal
    } else if i == 4 {
        Role::Wipe
    } else if i == 5 {
        Role::Counter
    } else if i == 6 {
        Role::Recursion
    } else if i == 7 {
        Role::Tutor
    } else if i == 8 {
        Role::Protection
    } else if i == 9 {
        Role::Threat
    } else if i == 10 {
        Role::Finisher
    } else if i == 11 {
        Role::Payoff
    } else {
        Role::Utility
    }
}

/// The wire name of a role.
pub open spec fn role_name(r: Role) -> Seq<char> {
    match r {
        Role::Land => "land"@,
        Role::Ramp => "ramp"@,
        Role::Draw => "draw"@,
        Role::Removal => "removal"@,
        Role::Wipe => "wipe"@,
        Role::Counter => "counter"@,
        Role::Recursion => "recursion"@,
        Role::Tutor => "tutor"@,
        Role::Protection => "protection"@,
        Role::Threat => "threat"@,
        Role::Finisher => "finisher"@,
        Role::Payoff => "payoff"@,
        Role::Utility => "utility"@,
    }
}

/// The display label of a role.
pub open spec fn role_label(r: Role) -> Seq<char> {
    match r {
        Role::Land => "Lands"@,
        Role::Ramp => "Ramp"@,
        Role::Draw => "Card Draw"@,
        Role::Removal => "Removal"@,
        Role::Wipe => "Board Wipes"@,
        Role::Counter => "Counterspells"@,
        Role::Recursion => "Recursion"@,
        Role::Tutor => "Tutors"@,
        Role::Protection => "Protection"@,
        Role::Threat => "Threats"@,
        Role::Finisher => "Finishers"@,
        Role::Payoff => "Synergy Payoffs"@,
        Role::Utility => "Utility"@,
    }
}

/// Every role, in canonical order.
pub open spec fn all_roles() -> Seq<Role> {
    seq![
        Role::Land,
        Role::Ramp,
        Role::Draw,
        Role::Removal,
        Role::Wipe,
        Role::Counter,
        Role::Recursion,
        Role::Tutor,
        Role::Protection,
        Role::Threat,
        Role::Finisher,
        Role::Payoff,
        Role::Utility,
    ]
}

/// Role names are pairwise different.
pub proof fn lemma_role_names_distinct()
    ensures
        forall|a: Role, b: Role| role_name(a) == role_name(b) ==> a == b,
{
    reveal_strlit("land");
    reveal_strlit("ramp");
    reveal_strlit("draw");
    reveal_strlit("removal");
    reveal_strlit("wipe");
    reveal_strlit("counter");
    reveal_strlit("recursion");
    reveal_strlit("tutor");
    reveal_strlit("protection");
    reveal_strlit("threat");
    reveal_strlit("finisher");
    reveal_strlit("payoff");
    reveal_strlit("utility");
    assert forall|a: Role, b: Role| role_name(a) == role_name(b) implies a == b by {
        if a != b {
            let x = role_name(a);
            let y = role_name(b);
            if x.len() == y.len() {
                match a {
                    Role::Land => assert(x[1] != y[1] || x[0] != y[0]),
                    Role::Ramp => assert(x[1] != y[1] || x[0] != y[0]),
                    Role::Draw => assert(x[1] != y[1] || x[0] != y[0]),
                    Role::Wipe => assert(x[1] != y[1] || x[0] != y[0]),
                    Role::Tutor => assert(x[1] != y[1] || x[0] != y[0]),
                    Role::Threat => assert(x[1] != y[1] || x[0] != y[0]),
                    Role::Payoff => assert(x[1] != y[1] || x[0] != y[0]),
                    Role::Removal => assert(x[1] != y[1] || x[0] != y[0]),
                    Role::Counter => assert(x[1] != y[1] || x[0] != y[0]),
                    Role::Utility => assert(x[1] != y[1] || x[0] != y[0]),
                    Role::Finisher => assert(x[1] != y[1] || x[0] != y[0]),
                    Role::Recursion => assert(x[1] != y[1] || x[0] != y[0]),
                    Role::Protection => assert(x[1] != y[1] || x[0] != y[0]),
                }
            }
        }
    }
}

impl Role {
    pub const ALL: [Role; 13] = [
        Role::Land,
        Role::Ramp,
        Role::Draw,
        Role::Removal,
        Role::Wipe,
        Role::Counter,
        Role::Recursion,
        Role::Tutor,
        Role::Protection,
        Role::Threat,
        Role::Finisher,
        Role::Payoff,
        Role::Utility,
    ];

    /// The wire name of this role ("land", "ramp", ...).
    pub fn as_str(self) -> (s: &'static str)
        ensures
            s@ == role_name(self),
    {
        match self {
            Role::Land => "land",
            Role::Ramp => "ramp",
            Role::Draw => "draw",
            Role::Removal => "removal",
            Role::Wipe => "wipe",
            Role::Counter => "counter",
            Role::Recursion => "recursion",
            Role::Tutor => "tutor",
            Role::Protection => "protection",
            Role::Threat => "threat",
            Role::Finisher => "finisher",
            Role::Payoff => "payoff",
            Role::Utility => "utility",
        }
    }

    /// The role whose wire name is `s`.
    pub fn parse(s: &str) -> (r: Option<Role>)
        ensures
            match r {
                Some(role) => role_name(role) == s@,
                None => forall|role: Role| role_name(role) != s@,
            },
    {
        let all = Role::ALL;
        assert(all@ =~= all_roles());
        let mut i: usize = 0;
        while i < 13
            invariant
                all@ == all_roles(),
                i <= 13,
                forall|j: int| 0 <= j < i ==> role_name(#[trigger] all_roles()[j]) != s@,
            decreases 13 - i,
        {
            let r = all[i];
            if str_eq(r.as_str(), s) {
                return Some(r);
            }
            i += 1;
        }
        assert forall|role: Role| role_name(role) != s@ by {
            assert(all_roles()[role_index(role)] == role);
        }
        None
    }

    /// The display label of this role ("Lands", "Card Draw", ...).
    pub fn label(self) -> (s: &'static str)
        ensures
            s@ == role_label(self),
    {
        match self {
            Role::Land => "Lands",
            Role::Ramp => "Ramp",
            Role::Draw => "Card Draw",
            Role::Removal => "Removal",
            Role::Wipe => "Board Wipes",
            Role::Counter => "Counterspells",
            Role::Recursion => "Recursion",
            Role::Tutor => "Tutors",
            Role::Protection => "Protection",
            Role::Threat => "Threats",
            Role::Finisher => "Finishers",
            Role::Payoff => "Synergy Payoffs",
            Role::Utility => "Utility",
        }
    }
}

/// Every role's wire name parses back to that role.
pub proof fn lemma_role_roundtrip(r: Role, name: Seq<char>, parsed: Option<Role>)
    requires
        name == role_name(r),
        parsed matches Some(role) ==> role_name(role) == name,
        parsed is None ==> forall|role: Role| role_name(role) != name,
    ensures
        parsed == Some(r),
{
    lemma_role_names_distinct();
    if parsed is None {
        assert(role_name(r) != name);
    }
}

// ---------------------------------------------------------------------------
// Formats, playstyles, budgets
// ---------------------------------------------------------------------------

/// A supported deck format.
#[derive(Debug, Clone, Copy, PartialEq, Eq, Hash, Structural)]
pub enum Format {
    Brawl100,
    StandardBrawl60,
}

impl Format {
    /// Cards in the deck besides the commander.
    pub fn deck_size(self) -> (n: u32)
        ensures
            n == (match self {
                Format::Brawl100 => 99u32,
                Format::StandardBrawl60 => 59u32,
            }),
    {
        match self {
            Format::Brawl100 => 99,
            Format::StandardBrawl60 => 59,
        }
    }

    /// The wire name of the format.
    pub fn as_str(self) -> (s: &'static str)
        ensures
            s@ == (match self {
                Format::Brawl100 => "brawl100"@,
                Format::StandardBrawl60 => "standardbrawl60"@,
            }),
    {
        match self {
            Format::Brawl100 => "brawl100",
            Format::StandardBrawl60 => "standardbrawl60",
        }
    }
}

/// How the deck is meant to play.
#[derive(Debug, Clone, Copy, PartialEq, Eq, Hash, Structural)]
pub enum Playstyle {
    Aggro,
    Midrange,
    Control,
}

/// Wildcards available per rarity.
#[derive(Debug, Clone, Copy, Default, PartialEq, Eq, Structural)]
pub struct WildcardBudget {
    pub common: u32,
    pub uncommon: u32,
    pub rare: u32,
    pub mythic: u32,
}

/// The rarities that cost a wildcard.
pub open spec fn costs_wildcard(r: Rarity) -> bool {
    r == Rarity::Common || r == Rarity::Uncommon || r == Rarity::Rare || r == Rarity::Mythic
}

impl WildcardBudget {
    /// The budget count for `r`; rarities that need no wildcard are unbounded.
    pub open spec fn count(self, r: Rarity) -> u32 {
        match r {
            Rarity::Common => self.common,
            Rarity::Uncommon => self.uncommon,
            Rarity::Rare => self.rare,
            Rarity::Mythic => self.mythic,
            _ => u32::MAX,
        }
    }

    /// This budget with the count for `r` replaced by `n`.
    pub open spec fn with_count(self, r: Rarity, n: u32) -> WildcardBudget {
        match r {
            Rarity::Common => WildcardBudget { common: n, ..self },
            Rarity::Uncommon => WildcardBudget { uncommon: n, ..self },
            Rarity::Rare => WildcardBudget { rare: n, ..self },
            Rarity::Mythic => WildcardBudget { mythic: n, ..self },
            _ => self,
        }
    }

    /// Wildcards of rarity `r` left (`u32::MAX` for rarities that need none).
    pub fn get(&self, r: &Rarity) -> (n: u32)
        ensures
            n == self.count(*r),
    {
        match r {
            Rarity::Common => self.common,
            Rarity::Uncommon => self.uncommon,
            Rarity::Rare => self.rare,
            Rarity::Mythic => self.mythic,
            Rarity::Special | Rarity::BasicLand | Rarity::Unknown(_) => u32::MAX,
        }
    }

    /// Takes one wildcard of rarity `r`. Fails, leaving the budget unchanged,
    /// when none is left; rarities that need no wildcard always succeed.
    pub fn spend(&mut self, r: &Rarity) -> (ok: bool)
        ensures
            costs_wildcard(*r) ==> {
                &&& ok == (old(self).count(*r) > 0)
                &&& ok ==> *final(self) == old(self).with_count(*r, (old(self).count(*r) - 1) as u32)
                &&& !ok ==> *final(self) == *old(self)
            },
            !costs_wildcard(*r) ==> ok && *final(self) == *old(self),
    {
        match r {
            Rarity::Common => {
                if self.common == 0 {
                    return false;
                }
                self.common -= 1;
                true
            },
            Rarity::Uncommon => {
                if self.uncommon == 0 {
                    return false;
                }
                self.uncommon -= 1;
                true
            },
            Rarity::Rare => {
                if self.rare == 0 {
                    return false;
                }
                self.rare -= 1;
                true
            },
            Rarity::Mythic => {
                if self.mythic == 0 {
                    return false;
                }
                self.mythic -= 1;
                true
            },
            Rarity::Special | Rarity::BasicLand | Rarity::Unknown(_) => true,
        }
    }

    /// Returns one wildcard of rarity `r` to the budget; rarities that need no
    /// wildcard leave it unchanged.
    pub fn add(&mut self, r: &Rarity)
        requires
            costs_wildcard(*r) ==> old(self).count(*r) < u32::MAX,
        ensures
            costs_wildcard(*r) ==> *final(self) == old(self).with_count(
                *r,
                (old(self).count(*r) + 1) as u32,
            ),
            !costs_wildcard(*r) ==> *final(self) == *old(self),
    {
        match r {
            Rarity::Common => self.common += 1,
            Rarity::Uncommon => self.uncommon += 1,
            Rarity::Rare => self.rare += 1,
            Rarity::Mythic => self.mythic += 1,
            Rarity::Special | Rarity::BasicLand | Rarity::Unknown(_) => {},
        }
    }
}

/// Returning a wildcard right after spending it restores the budget.
pub proof fn lemma_spend_then_add_restores(
    before: WildcardBudget,
    spent: WildcardBudget,
    restored: WildcardBudget,
    r: Rarity,
)
    requires
        costs_wildcard(r),
        before.count(r) > 0,
        spent == before.with_count(r, (before.count(r) - 1) as u32),
        restored == spent.with_count(r, (spent.count(r) + 1) as u32),
    ensures
        restored == before,
{
}

/// Which cards the builder may use.
#[derive(Debug, Clone, PartialEq, Eq, Structural)]
pub enum OwnershipMode {
    OwnedOnly { wc_budget: WildcardBudget },
    BestDeck,
}

/// Where a seed deck list comes from.
#[derive(Debug, Clone, PartialEq, Eq, Structural)]
pub enum Seed {
    Edhrec,
    Archidekt { deck_id: i64 },
}

/// User overrides of the format template: a land count, and per-role
/// bounds as (role, bound) pairs, each role at most once per list.
#[derive(Debug, Clone, Default)]
pub struct TemplateOverrides {
    pub lands: Option<u32>,
    pub role_min: Vec<(Role, u32)>,
    pub role_max: Vec<(Role, u32)>,
}

/// A deck build request. `build_around` lists the grp ids of the cards to
/// build around, in order; their weights travel beside the request.
#[derive(Debug, Clone)]
pub struct BuildRequest {
    pub format: Format,
    pub commander_grp: Option<i32>,
    pub ownership: OwnershipMode,
    pub playstyle: Playstyle,
    pub color_subset: Option<String>,
    pub theme_tags: Vec<String>,
    pub must_include: Vec<i32>,
    pub build_around: Vec<i32>,
    pub exclude: Vec<i32>,
    pub seed: Option<Seed>,
    pub template_overrides: Option<TemplateOverrides>,
    pub use_17lands: bool,
}

/// Summary statistics of a built deck: its mana curve by mana value
/// (0..=7+), its coloured pips, per-role counts and (min, max) targets as
/// (role, value) pairs with each role once, owned and total card counts,
/// the wildcards it costs and its land count.
#[derive(Debug, Clone, Default)]
pub struct DeckStats {
    pub curve: [u32; 8],
    pub pips: [u32; 5],
    pub role_counts: Vec<(Role, u32)>,
    pub role_targets: Vec<(Role, (u32, u32))>,
    pub owned: u32,
    pub total: u32,
    pub wildcard_cost: WildcardBudget,
    pub land_count: u32,
}

/// A warning attached to a build result.
#[derive(Debug, Clone, PartialEq)]
pub struct Warning {
    pub code: String,
    pub message: String,
}

// ---------------------------------------------------------------------------
// Printings and oracle cards
// ---------------------------------------------------------------------------

/// One Arena printing of an oracle card.
#[derive(Debug, Clone, PartialEq)]
pub struct Printing {
    pub grp_id: i32,
    pub set_code: String,
    pub collector_number: String,
    pub rarity: Rarity,
    pub owned_qty: i32,
}

/// Rank of a rarity for choosing the cheapest printing (lower is cheaper).
pub open spec fn rarity_rank_spec(r: Rarity) -> u8 {
    match r {
        Rarity::Common => 0,
        Rarity::Uncommon => 1,
        Rarity::Rare => 2,
        Rarity::Mythic => 3,
        _ => 0,
    }
}

fn rarity_rank(r: &Rarity) -> (n: u8)
    ensures
        n == rarity_rank_spec(*r),
{
    match r {
        Rarity::Common => 0,
        Rarity::Uncommon => 1,
        Rarity::Rare => 2,
        Rarity::Mythic => 3,
        Rarity::BasicLand | Rarity::Special | Rarity::Unknown(_) => 0,
    }
}

/// A card as the engine sees it: the oracle text and its Arena printings.
#[derive(Debug, Clone)]
pub struct OracleCard {
    pub oracle_id: String,
    pub name: String,
    pub name_lower: String,
    pub mana_cost: String,
    pub color_identity: u8,
    pub type_line: String,
    pub keywords: Vec<String>,
    pub oracle_text: String,
    pub edhrec_rank: Option<u32>,
    pub legal_brawl: bool,
    pub legal_standardbrawl: bool,
    pub is_commander_eligible: bool,
    pub power: Option<i32>,
    pub roles: Vec<Role>,
    pub tags: Vec<String>,
    pub subtypes: Vec<String>,
    pub is_land: bool,
    pub is_basic_land: bool,
    pub is_creature: bool,
    pub printings: Vec<Printing>,
}

/// Printing `i` is owned and has the most copies of the owned printings,
/// strictly more than every later owned one.
pub open spec fn is_best_owned(ps: Seq<Printing>, i: int) -> bool {
    &&& 0 <= i < ps.len()
    &&& ps[i].owned_qty > 0
    &&& forall|j: int| 0 <= j < ps.len() && ps[j].owned_qty > 0 ==> ps[j].owned_qty <= ps[i].owned_qty
    &&& forall|j: int| i < j < ps.len() && ps[j].owned_qty > 0 ==> ps[j].owned_qty < ps[i].owned_qty
}

/// Printing `i` has the lowest rarity rank, strictly lower than every
/// earlier printing.
pub open spec fn is_first_cheapest(ps: Seq<Printing>, i: int) -> bool {
    &&& 0 <= i < ps.len()
    &&& forall|j: int| 0 <= j < ps.len() ==> rarity_rank_spec(ps[i].rarity) <= rarity_rank_spec(ps[j].rarity)
    &&& forall|j: int| 0 <= j < i ==> rarity_rank_spec(ps[i].rarity) < rarity_rank_spec(ps[j].rarity)
}

/// Index of the printing `best_printing` picks: the owned printing with the
/// most copies (the last of equals), else the first printing of the lowest
/// rarity rank; `None` without printings.
pub open spec fn best_printing_index(ps: Seq<Printing>) -> Option<int> {
    if exists|i: int| 0 <= i < ps.len() && ps[i].owned_qty > 0 {
        Some(choose|i: int| is_best_owned(ps, i))
    } else if ps.len() > 0 {
        Some(choose|i: int| is_first_cheapest(ps, i))
    } else {
        None
    }
}

/// Position `i` of a mana cost lies inside a `{...}` symbol: the last brace
/// before it is an opening one.
pub open spec fn inside_symbol(s: Seq<char>, i: int) -> bool {
    exists|j: int|
        0 <= j < i && s[j] == '{' && forall|k: int| j < k < i ==> #[trigger] s[k] != '}'
}

/// Index in WUBRG order of a colour letter (either case); 5 for others.
pub open spec fn pip_slot(c: char) -> int {
    if c == 'W' || c == 'w' {
        0
    } else if c == 'U' || c == 'u' {
        1
    } else if c == 'B' || c == 'b' {
        2
    } else if c == 'R' || c == 'r' {
        3
    } else if c == 'G' || c == 'g' {
        4
    } else {
        5
    }
}

/// Number of letters of colour `slot` inside mana symbols among the first
/// `n` characters of `s`.
pub open spec fn pip_count(s: Seq<char>, slot: int, n: int) -> nat
    decreases n,
{
    if n <= 0 {
        0
    } else {
        pip_count(s, slot, n - 1) + (if inside_symbol(s, n - 1) && pip_slot(s[n - 1]) == slot {
            1nat
        } else {
            0nat
        })
    }
}

/// The WUBRG pip counts of a mana cost: every colour letter inside a `{...}`
/// symbol counts once, so a hybrid `{W/U}` counts for both colours.
pub open spec fn pips_spec(s: Seq<char>) -> Seq<nat> {
    seq![
        pip_count(s, 0, s.len() as int),
        pip_count(s, 1, s.len() as int),
        pip_count(s, 2, s.len() as int),
        pip_count(s, 3, s.len() as int),
        pip_count(s, 4, s.len() as int),
    ]
}

proof fn lemma_inside_step(s: Seq<char>, i: int)
    requires
        0 <= i < s.len(),
    ensures
        inside_symbol(s, i + 1) == (s[i] == '{' || (inside_symbol(s, i) && s[i] != '}')),
{
    if s[i] == '{' {
        assert(forall|k: int| i < k < i + 1 ==> #[trigger] s[k] != '}');
    } else if inside_symbol(s, i) && s[i] != '}' {
        let j = choose|j: int|
            0 <= j < i && s[j] == '{' && forall|k: int| j < k < i ==> #[trigger] s[k] != '}';
        assert(forall|k: int| j < k < i + 1 ==> #[trigger] s[k] != '}');
    }
    if inside_symbol(s, i + 1) {
        let j = choose|j: int|
            0 <= j < i + 1 && s[j] == '{' && forall|k: int| j < k < i + 1 ==> #[trigger] s[k] != '}';
        if j < i {
            assert(s[i] != '}');
            assert(forall|k: int| j < k < i ==> #[trigger] s[k] != '}');
        }
    }
}

impl OracleCard {
    /// WUBRG pip counts of the card's mana cost.
    pub fn pips(&self) -> (out: [u32; 5])
        requires
            self.mana_cost@.len() <= u32::MAX,
        ensures
            forall|c: int| 0 <= c < 5 ==> out@[c] as nat == pips_spec(self.mana_cost@)[c],
    {
        let s = chars_of(self.mana_cost.as_str());
        let n = s.len();
        let mut w: u32 = 0;
        let mut u: u32 = 0;
        let mut b: u32 = 0;
        let mut r: u32 = 0;
        let mut g: u32 = 0;
        let mut in_symbol = false;
        let mut i: usize = 0;
        while i < n
            invariant
                n == s@.len(),
                s@ == self.mana_cost@,
                n <= u32::MAX,
                i <= n,
                in_symbol == inside_symbol(s@, i as int),
                w as nat == pip_count(s@, 0, i as int),
                u as nat == pip_count(s@, 1, i as int),
                b as nat == pip_count(s@, 2, i as int),
                r as nat == pip_count(s@, 3, i as int),
                g as nat == pip_count(s@, 4, i as int),
                w <= i && u <= i && b <= i && r <= i && g <= i,
            decreases n - i,
        {
            let c = s[i];
            proof {
                lemma_inside_step(s@, i as int);
            }
            if c == '{' {
                in_symbol = true;
            } else if c == '}' {
                in_symbol = false;
            } else if in_symbol {
                if c == 'W' || c == 'w' {
                    w += 1;
                } else if c == 'U' || c == 'u' {
                    u += 1;
                } else if c == 'B' || c == 'b' {
                    b += 1;
                } else if c == 'R' || c == 'r' {
                    r += 1;
                } else if c == 'G' || c == 'g' {
                    g += 1;
                }
            }
            i += 1;
        }
        [w, u, b, r, g]
    }

    /// Some printing of the card is owned.
    pub open spec fn owned_spec(&self) -> bool {
        exists|i: int| 0 <= i < self.printings@.len() && (#[trigger] self.printings@[i]).owned_qty > 0
    }

    /// Whether any printing of the card is owned.
    pub fn is_owned(&self) -> (b: bool)
        ensures
            b == self.owned_spec(),
    {
        let mut i: usize = 0;
        while i < self.printings.len()
            invariant
                i <= self.printings@.len(),
                forall|j: int| 0 <= j < i ==> self.printings@[j].owned_qty <= 0,
            decreases self.printings@.len() - i,
        {
            if self.printings[i].owned_qty > 0 {
                return true;
            }
            i += 1;
        }
        false
    }

    /// The printing to show or craft: the owned printing with the most
    /// copies, else the first printing of the cheapest rarity.
    pub fn best_printing(&self) -> (p: Option<&Printing>)
        ensures
            match best_printing_index(self.printings@) {
                Some(i) => p == Some(&self.printings@[i]),
                None => p.is_none(),
            },
    {
        let ps = &self.printings;
        let n = ps.len();
        // Owned printing with the most copies; the last one among equals.
        let mut best: Option<usize> = None;
        let mut i: usize = 0;
        while i < n
            invariant
                n == ps@.len(),
                i <= n,
                match best {
                    Some(b) => {
                        &&& b < i
                        &&& ps@[b as int].owned_qty > 0
                        &&& forall|j: int| 0 <= j < i && ps@[j].owned_qty > 0 ==> ps@[j].owned_qty <= ps@[b as int].owned_qty
                        &&& forall|j: int| b < j < i && ps@[j].owned_qty > 0 ==> ps@[j].owned_qty < ps@[b as int].owned_qty
                    },
                    None => forall|j: int| 0 <= j < i ==> ps@[j].owned_qty <= 0,
                },
            decreases n - i,
        {
            if ps[i].owned_qty > 0 {
                match best {
                    Some(b) => {
                        if ps[i].owned_qty >= ps[b].owned_qty {
                            best = Some(i);
                        }
                    },
                    None => {
                        best = Some(i);
                    },
                }
            }
            i += 1;
        }
        if let Some(b) = best {
            proof {
                assert(is_best_owned(ps@, b as int));
                let k = choose|k: int| is_best_owned(ps@, k);
                assert(ps@[b as int].owned_qty > 0);
                if k < b {
                    assert(ps@[b as int].owned_qty < ps@[k].owned_qty);
                    assert(ps@[b as int].owned_qty <= ps@[k].owned_qty);
                    assert(ps@[k].owned_qty <= ps@[b as int].owned_qty);
                } else if k > b {
                    assert(ps@[k].owned_qty < ps@[b as int].owned_qty);
                }
                assert(k == b);
            }
            return Some(&ps[b]);
        }
        if n == 0 {
            return None;
        }
        // First printing of the lowest rarity rank.
        let mut m: usize = 0;
        let mut j: usize = 1;
        while j < n
            invariant
                n == ps@.len(),
                1 <= j <= n,
                m < j,
                forall|k: int| 0 <= k < j ==> rarity_rank_spec(ps@[m as int].rarity) <= rarity_rank_spec(ps@[k].rarity),
                forall|k: int| 0 <= k < m ==> rarity_rank_spec(ps@[m as int].rarity) < rarity_rank_spec(ps@[k].rarity),
            decreases n - j,
        {
            if rarity_rank(&ps[j].rarity) < rarity_rank(&ps[m].rarity) {
                m = j;
            }
            j += 1;
        }
        proof {
            assert(is_first_cheapest(ps@, m as int));
            let k = choose|k: int| is_first_cheapest(ps@, k);
            assert(0 <= m < ps@.len());
            if k < m {
                assert(rarity_rank_spec(ps@[m as int].rarity) < rarity_rank_spec(ps@[k].rarity));
            } else if k > m {
                assert(rarity_rank_spec(ps@[k].rarity) < rarity_rank_spec(ps@[m as int].rarity));
            }
        }
        Some(&ps[m])
    }

    /// Whether the card has role `r`.
    pub fn has_role(&self, r: Role) -> (b: bool)
        ensures
            b == self.roles@.contains(r),
    {
        let mut i: usize = 0;
        while i < self.roles.len()
            invariant
                i <= self.roles@.len(),
                forall|j: int| 0 <= j < i ==> self.roles@[j] != r,
            decreases self.roles@.len() - i,
        {
            if self.roles[i] == r {
                return true;
            }
            i += 1;
        }
        false
    }

    /// Legality of the card in format `f`.
    pub open spec fn legal_spec(&self, f: Format) -> bool {
        match f {
            Format::Brawl100 => self.legal_brawl,
            Format::StandardBrawl60 => self.legal_standardbrawl,
        }
    }

    /// Whether the card is legal in format `f`.
    pub fn legal_in(&self, f: Format) -> (b: bool)
        ensures
            b == self.legal_spec(f),
    {
        match f {
            Format::Brawl100 => self.legal_brawl,
            Format::StandardBrawl60 => self.legal_standardbrawl,
        }
    }
}

} // verus!
