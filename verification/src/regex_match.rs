//! Regular-expression matching, provided by the `regex` crate.

use vstd::prelude::*;

verus! {

/// Whether `pattern` compiles as a regular expression and matches somewhere
/// in `text`.
pub uninterp spec fn regex_matches(pattern: Seq<char>, text: Seq<char>) -> bool;

/// `Some` of `text` with every non-overlapping match of `pattern` replaced by
/// `rep` when `pattern` compiles; `None` when it does not.
pub uninterp spec fn regex_replaced(pattern: Seq<char>, text: Seq<char>, rep: Seq<char>) -> Option<
    Seq<char>,
>;

/// Compiles `pattern` with `regex::Regex::new` and runs `Regex::is_match` on
/// `text`; a pattern that does not compile matches nothing. The contract
/// names the outcome, a function of the pattern and the text alone, and
/// states nothing about which texts a pattern matches.
#[verifier::external_body]
pub(crate) fn regex_is_match(pattern: &str, text: &str) -> (b: bool)
    ensures
        b == regex_matches(pattern@, text@),
{
    match regex::Regex::new(pattern) {
        Ok(re) => re.is_match(text),
        Err(_) => false,
    }
}

/// Compiles `pattern` with `regex::Regex::new` and runs
/// `Regex::replace_all(text, rep)`; `None` when the pattern does not
/// compile. The contract names the outcome, a function of its three
/// arguments alone, and states nothing about what the replacement yields.
#[verifier::external_body]
pub(crate) fn regex_replace_all(pattern: &str, text: &str, rep: &str) -> (r: Option<String>)
    ensures
        match r {
            Some(s) => regex_replaced(pattern@, text@, rep@) == Some(s@),
            None => regex_replaced(pattern@, text@, rep@) is None,
        },
{
    match regex::Regex::new(pattern) {
        Ok(re) => Some(re.replace_all(text, rep).into_owned()),
        Err(_) => None,
    }
}

} // verus!
