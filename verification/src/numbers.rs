//! Decimal formatting and parsing of integers, as `format!("{}")`,
//! `format!("{:0w}")` and `str::parse::<i32>` do them.

use vstd::prelude::*;

use crate::text::{is_digit, push_char};

verus! {

/// The ASCII digit for `d` (0..=9).
pub open spec fn digit_char(d: int) -> char {
    (48 + d) as char
}

/// Decimal digits of `n`, most significant first, without leading zeros.
pub open spec fn decimal(n: nat) -> Seq<char>
    decreases n,
{
    if n < 10 {
        seq![digit_char(n as int)]
    } else {
        decimal(n / 10).push(digit_char((n % 10) as int))
    }
}

/// Decimal form of a signed value, with a leading `-` when negative.
pub open spec fn decimal_signed(v: int) -> Seq<char> {
    if v < 0 {
        seq!['-'] + decimal((-v) as nat)
    } else {
        decimal(v as nat)
    }
}

/// `n` zero characters (none when `n` is not positive).
pub open spec fn zeros(n: int) -> Seq<char> {
    Seq::new(if n > 0 { n as nat } else { 0 }, |i: int| '0')
}

/// `format!("{:0width$}", v)`: sign first, then zeros up to `width` characters.
pub open spec fn zero_padded(v: int, width: int) -> Seq<char> {
    if v < 0 {
        seq!['-'] + zeros(width - 1 - decimal((-v) as nat).len()) + decimal((-v) as nat)
    } else {
        zeros(width - decimal(v as nat).len()) + decimal(v as nat)
    }
}

/// Appends the decimal digits of `n`.
fn push_decimal(out: &mut String, n: u64)
    ensures
        final(out)@ == old(out)@ + decimal(n as nat),
    decreases n,
{
    if n < 10 {
        let c = ((n as u8) + 48) as char;
        push_char(out, c);
        assert(old(out)@.push(c) =~= old(out)@ + decimal(n as nat));
    } else {
        push_decimal(out, n / 10);
        let c = (((n % 10) as u8) + 48) as char;
        push_char(out, c);
        assert(old(out)@ + decimal((n / 10) as nat) + seq![c] =~= old(out)@ + decimal(n as nat));
    }
}

/// `n.to_string()` for an unsigned value.
pub fn fmt_u64(n: u64) -> (s: String)
    ensures
        s@ == decimal(n as nat),
{
    let mut s = String::new();
    push_decimal(&mut s, n);
    assert(Seq::<char>::empty() + decimal(n as nat) =~= decimal(n as nat));
    s
}

/// `v.to_string()` for a signed value.
pub fn fmt_i64(v: i64) -> (s: String)
    ensures
        s@ == decimal_signed(v as int),
{
    let mut s = String::new();
    if v < 0 {
        push_char(&mut s, '-');
        let m: u64 = if v == i64::MIN {
            9223372036854775808u64
        } else {
            (-v) as u64
        };
        push_decimal(&mut s, m);
        assert(seq!['-'] + decimal(m as nat) =~= decimal_signed(v as int));
    } else {
        push_decimal(&mut s, v as u64);
        assert(Seq::<char>::empty() + decimal(v as nat) =~= decimal_signed(v as int));
    }
    s
}

/// Appends `n` zero characters.
fn push_zeros(out: &mut String, n: u64)
    ensures
        final(out)@ == old(out)@ + zeros(n as int),
{
    let mut i: u64 = 0;
    while i < n
        invariant
            i <= n,
            out@ == old(out)@ + zeros(i as int),
        decreases n - i,
    {
        push_char(out, '0');
        assert(old(out)@ + zeros(i as int) + seq!['0'] =~= old(out)@ + zeros(i + 1));
        i += 1;
    }
}

/// `format!("{:0width$}", v)` for a signed value.
pub fn fmt_zero_padded(v: i64, width: u64) -> (s: String)
    ensures
        s@ == zero_padded(v as int, width as int),
{
    let mut s = String::new();
    let neg = v < 0;
    let m: u64 = if v == i64::MIN {
        9223372036854775808u64
    } else if neg {
        (-v) as u64
    } else {
        v as u64
    };
    let digits = fmt_u64(m);
    let len = digits.unicode_len() as u64;
    if neg {
        push_char(&mut s, '-');
    }
    let pad: u64 = if neg {
        if width > len && width - len > 1 {
            width - len - 1
        } else {
            0
        }
    } else if width > len {
        width - len
    } else {
        0
    };
    push_zeros(&mut s, pad);
    crate::text::push_str(&mut s, digits.as_str());
    proof {
        if neg {
            assert(zeros(pad as int) =~= zeros(width - 1 - decimal(m as nat).len()));
            assert(seq!['-'] + zeros(pad as int) + decimal(m as nat) =~= zero_padded(
                v as int,
                width as int,
            ));
        } else {
            assert(zeros(pad as int) =~= zeros(width - decimal(m as nat).len()));
            assert(Seq::<char>::empty() + zeros(pad as int) + decimal(m as nat) =~= zero_padded(
                v as int,
                width as int,
            ));
        }
    }
    s
}

// ---------------------------------------------------------------------------
// Parsing
// ---------------------------------------------------------------------------

/// Every character of `s` is an ASCII digit.
pub open spec fn all_digits(s: Seq<char>) -> bool {
    forall|i: int| 0 <= i < s.len() ==> is_digit(#[trigger] s[i])
}

/// The value of a string of decimal digits.
pub open spec fn digits_value(s: Seq<char>) -> int
    decreases s.len(),
{
    if s.len() == 0 {
        0
    } else {
        digits_value(s.drop_last()) * 10 + (s.last() as int - 48)
    }
}

/// The digits after an optional leading `+` or `-`.
pub open spec fn unsigned_part(s: Seq<char>) -> Seq<char> {
    if s.len() > 0 && (s[0] == '-' || s[0] == '+') {
        s.drop_first()
    } else {
        s
    }
}

/// `str::parse::<i32>`: an optional `+` or `-`, then one or more ASCII
/// digits, whose value fits in an `i32`.
pub open spec fn parse_i32(s: Seq<char>) -> Option<i32> {
    let body = unsigned_part(s);
    let neg = s.len() > 0 && s[0] == '-';
    let v = if neg {
        -digits_value(body)
    } else {
        digits_value(body)
    };
    if body.len() == 0 || !all_digits(body) {
        None
    } else if i32::MIN <= v <= i32::MAX {
        Some(v as i32)
    } else {
        None
    }
}

proof fn lemma_digits_value_nonneg(s: Seq<char>)
    requires
        all_digits(s),
    ensures
        digits_value(s) >= 0,
    decreases s.len(),
{
    if s.len() > 0 {
        assert(is_digit(s[s.len() - 1]));
        lemma_digits_value_nonneg(s.drop_last());
    }
}

proof fn lemma_digits_value_mono(s: Seq<char>, k: int)
    requires
        all_digits(s),
        0 <= k <= s.len(),
    ensures
        digits_value(s.take(k)) <= digits_value(s),
    decreases s.len() - k,
{
    if k < s.len() {
        let t = s.take(k + 1);
        assert(t.drop_last() =~= s.take(k));
        assert(is_digit(s[k]));
        assert(t.last() == s[k]);
        lemma_digits_value_nonneg(s.take(k));
        lemma_digits_value_mono(s, k + 1);
    } else {
        assert(s.take(k) =~= s);
    }
}

/// `s.parse::<i32>().ok()` on a sequence of characters.
pub fn parse_i32_chars(s: &[char]) -> (r: Option<i32>)
    ensures
        r == parse_i32(s@),
{
    let n = s.len();
    let mut start: usize = 0;
    let mut neg = false;
    if n > 0 && (s[0] == '-' || s[0] == '+') {
        start = 1;
        neg = s[0] == '-';
    }
    let ghost body = unsigned_part(s@);
    assert(body =~= s@.skip(start as int));
    if start == n {
        return None;
    }
    let mut acc: u64 = 0;
    let mut i: usize = start;
    while i < n
        invariant
            n == s@.len(),
            start <= i <= n,
            start < n,
            body == unsigned_part(s@),
            neg == (s@.len() > 0 && s@[0] == '-'),
            body =~= s@.skip(start as int),
            all_digits(body.take(i - start)),
            acc as int == digits_value(body.take(i - start)),
            acc <= 2147483648,
        decreases n - i,
    {
        let c = s[i];
        if !('0' <= c && c <= '9') {
            assert(body[i - start] == c);
            assert(!all_digits(body));
            return None;
        }
        let d: u64 = ((c as u32) - 48) as u64;
        let ghost prev = body.take(i - start);
        let ghost next = body.take(i - start + 1);
        assert(next.drop_last() =~= prev);
        assert(next.last() == c);
        assert(all_digits(next)) by {
            assert forall|j: int| 0 <= j < next.len() implies is_digit(#[trigger] next[j]) by {
                if j < prev.len() {
                    assert(next[j] == prev[j]);
                }
            }
        }
        let nacc = acc * 10 + d;
        if nacc > 2147483648 {
            // The remaining characters can only make the value larger, if they are digits.
            proof {
                if all_digits(body) {
                    lemma_digits_value_mono(body, i - start + 1);
                }
            }
            return None;
        }
        acc = nacc;
        i += 1;
    }
    assert(body.take(n - start) =~= body);
    if neg {
        let v: i64 = -(acc as i64);
        Some(v as i32)
    } else {
        if acc > 2147483647 {
            return None;
        }
        Some(acc as i32)
    }
}

/// `s.parse::<i32>().ok()`.
pub fn parse_i32_str(s: &str) -> (r: Option<i32>)
    ensures
        r == parse_i32(s@),
{
    let v = crate::text::chars_of(s);
    parse_i32_chars(v.as_slice())
}

/// `str::parse::<i64>`: an optional `+` or `-`, then one or more ASCII
/// digits, whose value fits in an `i64`.
pub open spec fn parse_i64(s: Seq<char>) -> Option<i64> {
    let body = unsigned_part(s);
    let neg = s.len() > 0 && s[0] == '-';
    let v = if neg {
        -digits_value(body)
    } else {
        digits_value(body)
    };
    if body.len() == 0 || !all_digits(body) {
        None
    } else if i64::MIN <= v <= i64::MAX {
        Some(v as i64)
    } else {
        None
    }
}

/// `s.parse::<i64>().ok()`.
pub fn parse_i64_str(text: &str) -> (r: Option<i64>)
    ensures
        r == parse_i64(text@),
{
    let v = crate::text::chars_of(text);
    let s = v.as_slice();
    assert(s@ == text@);
    let n = s.len();
    let mut start: usize = 0;
    let mut neg = false;
    if n > 0 && (s[0] == '-' || s[0] == '+') {
        start = 1;
        neg = s[0] == '-';
    }
    let ghost body = unsigned_part(s@);
    assert(body =~= s@.skip(start as int));
    if start == n {
        return None;
    }
    let mut acc: u128 = 0;
    let mut i: usize = start;
    while i < n
        invariant
            n == s@.len(),
            s@ == text@,
            start <= i <= n,
            start < n,
            body == unsigned_part(s@),
            neg == (s@.len() > 0 && s@[0] == '-'),
            body =~= s@.skip(start as int),
            all_digits(body.take(i - start)),
            acc as int == digits_value(body.take(i - start)),
            acc <= 9223372036854775808,
        decreases n - i,
    {
        let c = s[i];
        if !('0' <= c && c <= '9') {
            assert(body[i - start] == c);
            assert(!all_digits(body));
            return None;
        }
        let d: u128 = ((c as u32) - 48) as u128;
        let ghost prev = body.take(i - start);
        let ghost next = body.take(i - start + 1);
        assert(next.drop_last() =~= prev);
        assert(next.last() == c);
        assert(all_digits(next)) by {
            assert forall|j: int| 0 <= j < next.len() implies is_digit(#[trigger] next[j]) by {
                if j < prev.len() {
                    assert(next[j] == prev[j]);
                }
            }
        }
        let nacc = acc * 10 + d;
        if nacc > 9223372036854775808 {
            proof {
                if all_digits(body) {
                    lemma_digits_value_mono(body, i - start + 1);
                }
            }
            return None;
        }
        acc = nacc;
        i += 1;
    }
    assert(body.take(n - start) =~= body);
    if neg {
        let v: i128 = -(acc as i128);
        Some(v as i64)
    } else {
        if acc > 9223372036854775807 {
            return None;
        }
        Some(acc as i64)
    }
}

} // verus!
