//! The deck service's computable parts: its status record and the UTC day
//! keys under which per-host request counts are kept.

use vstd::prelude::*;

use crate::numbers::{fmt_zero_padded, parse_i64, parse_i64_str, zero_padded};
use super::sources::DEGRADE_AFTER_FAILURES;
use crate::text::{owned, push_str, str_eq, str_views, vec_contains_str};
use vstd::arithmetic::div_mod::{
    lemma_fundamental_div_mod, lemma_fundamental_div_mod_converse_div,
    lemma_fundamental_div_mod_converse_mod,
};

verus! {

/// What the deck service reports about its store and sources.
#[derive(Debug, Clone)]
pub struct DeckStatus {
    pub db_ok: bool,
    pub oracles: u64,
    pub bulk_updated_at: Option<String>,
    pub last_check_at: Option<i64>,
    pub ingest_running: bool,
    pub degraded_hosts: Vec<String>,
}

/// How long a check of Scryfall's bulk-data metadata stays current, in
/// seconds.
pub const BULK_METADATA_TTL_SECS: i64 = 86_400;

/// The hosts whose consecutive failures reached the degrade threshold, in
/// the order given.
pub open spec fn degraded_spec(failures: Seq<(String, u32)>, n: int) -> Seq<Seq<char>>
    decreases n,
{
    if n <= 0 {
        Seq::empty()
    } else {
        let prev = degraded_spec(failures, n - 1);
        if failures[n - 1].1 >= DEGRADE_AFTER_FAILURES {
            prev.push(failures[n - 1].0@)
        } else {
            prev
        }
    }
}

/// The hosts degraded after repeated failures: those with at least
/// `DEGRADE_AFTER_FAILURES` consecutive failures.
pub fn degraded_hosts(failures: &Vec<(String, u32)>) -> (hosts: Vec<String>)
    ensures
        str_views(hosts@) == degraded_spec(failures@, failures@.len() as int),
{
    let mut hosts: Vec<String> = Vec::new();
    let mut i: usize = 0;
    while i < failures.len()
        invariant
            i <= failures@.len(),
            str_views(hosts@) == degraded_spec(failures@, i as int),
        decreases failures@.len() - i,
    {
        if failures[i].1 >= DEGRADE_AFTER_FAILURES {
            let ghost before = str_views(hosts@);
            hosts.push(failures[i].0.clone());
            assert(str_views(hosts@) =~= before.push(failures@[i as int].0@));
        }
        i += 1;
    }
    hosts
}

/// The service's status from what the store reports: the oracle count, the
/// stored bulk timestamp, the stored last-check text (seconds since the
/// epoch; nothing where it does not parse), whether an ingest is running,
/// and the hosts degraded by their consecutive failures.
pub fn deck_status(
    oracles: u64,
    bulk_updated_at: Option<String>,
    last_check_text: Option<String>,
    ingest_running: bool,
    failures: &Vec<(String, u32)>,
) -> (s: DeckStatus)
    ensures
        s.db_ok,
        s.oracles == oracles,
        s.bulk_updated_at == bulk_updated_at,
        s.last_check_at == (match last_check_text {
            Some(t) => parse_i64(t@),
            None => None,
        }),
        s.ingest_running == ingest_running,
        str_views(s.degraded_hosts@) == degraded_spec(failures@, failures@.len() as int),
{
    let last_check_at = match &last_check_text {
        Some(t) => parse_i64_str(t.as_str()),
        None => None,
    };
    DeckStatus {
        db_ok: true,
        oracles,
        bulk_updated_at,
        last_check_at,
        ingest_running,
        degraded_hosts: degraded_hosts(failures),
    }
}

/// What a bulk refresh does next.
#[derive(Debug, Clone, Copy, PartialEq, Eq, Structural)]
pub enum BulkStep {
    /// Nothing new to download, but the grp-to-oracle join is missing:
    /// rebuild it (data unchanged).
    Rejoin,
    /// Nothing to do: report completion with the data unchanged.
    Complete,
    /// Ask Scryfall for the bulk-data metadata.
    FetchMetadata,
    /// Download and ingest the bulk files.
    Download,
}

/// The step of a refresh that needs no new data: rebuild a missing join,
/// else report completion.
pub open spec fn settle(grp_present: bool) -> BulkStep {
    if grp_present {
        BulkStep::Complete
    } else {
        BulkStep::Rejoin
    }
}

/// The first step of a bulk refresh: a recent metadata check (within
/// `BULK_METADATA_TTL_SECS`, unless forced) with oracle data present skips
/// the network; otherwise the metadata is fetched.
pub fn bulk_first_step(
    force: bool,
    last_check: Option<i64>,
    now: i64,
    oracles_present: bool,
    grp_present: bool,
) -> (s: BulkStep)
    requires
        last_check matches Some(t) ==> i64::MIN <= now - t <= i64::MAX,
    ensures
        s == (if !force && (last_check matches Some(t) && now - t < BULK_METADATA_TTL_SECS)
            && oracles_present {
            settle(grp_present)
        } else {
            BulkStep::FetchMetadata
        }),
{
    let recent = match last_check {
        Some(t) => now - t < BULK_METADATA_TTL_SECS,
        None => false,
    };
    if !force && recent && oracles_present {
        if grp_present {
            BulkStep::Complete
        } else {
            BulkStep::Rejoin
        }
    } else {
        BulkStep::FetchMetadata
    }
}

fn opt_str_eq(a: &Option<String>, b: &str) -> (r: bool)
    ensures
        r == (a matches Some(s) && s@ == b@),
{
    match a {
        Some(s) => crate::text::str_eq(s.as_str(), b),
        None => false,
    }
}

/// The step after the metadata came back: when both bulk files carry the
/// timestamps already stored and oracle data is present, nothing is
/// downloaded; otherwise both files are.
pub fn bulk_step_after_metadata(
    stored_cards_at: &Option<String>,
    stored_tags_at: &Option<String>,
    cards_updated_at: &str,
    tags_updated_at: &str,
    oracles_present: bool,
    grp_present: bool,
) -> (s: BulkStep)
    ensures
        s == (if (stored_cards_at matches Some(c) && c@ == cards_updated_at@) && (
        stored_tags_at matches Some(t) && t@ == tags_updated_at@) && oracles_present {
            settle(grp_present)
        } else {
            BulkStep::Download
        }),
{
    let unchanged = opt_str_eq(stored_cards_at, cards_updated_at) && opt_str_eq(
        stored_tags_at,
        tags_updated_at,
    ) && oracles_present;
    if unchanged {
        if grp_present {
            BulkStep::Complete
        } else {
            BulkStep::Rejoin
        }
    } else {
        BulkStep::Download
    }
}

/// How a refresh ends when a network step fails: with data already stored
/// it reports no change (`Ok(false)`), else the error itself.
pub fn bulk_failure(oracles_present: bool, error: String) -> (r: Result<bool, String>)
    ensures
        oracles_present ==> r == Ok::<bool, String>(false),
        !oracles_present ==> (r matches Err(e) && e@ == error@),
{
    if oracles_present {
        Ok(false)
    } else {
        Err(error)
    }
}

// ---------------------------------------------------------------------------
// The proleptic Gregorian calendar
// ---------------------------------------------------------------------------

/// Gregorian leap year.
pub open spec fn is_leap_year(y: int) -> bool {
    y % 4 == 0 && (y % 100 != 0 || y % 400 == 0)
}

/// Days in month `m` (1 to 12) of year `y`.
pub open spec fn days_in_month(y: int, m: int) -> int {
    if m == 2 {
        if is_leap_year(y) {
            29
        } else {
            28
        }
    } else if m == 4 || m == 6 || m == 9 || m == 11 {
        30
    } else {
        31
    }
}

/// A calendar date that exists.
pub open spec fn valid_date(y: int, m: int, d: int) -> bool {
    1 <= m <= 12 && 1 <= d <= days_in_month(y, m)
}

/// The number of leap years from year 1 to year `y` (counted negatively
/// below year 1), so that `leap_years_through(b) - leap_years_through(a)` is
/// the number of leap years after `a` up to `b`.
pub open spec fn leap_years_through(y: int) -> int {
    y / 4 - y / 100 + y / 400
}

/// Days of year `y` before the first of month `m`.
pub open spec fn days_before_month(y: int, m: int) -> int {
    let base: int = if m == 1 {
        0
    } else if m == 2 {
        31
    } else if m == 3 {
        59
    } else if m == 4 {
        90
    } else if m == 5 {
        120
    } else if m == 6 {
        151
    } else if m == 7 {
        181
    } else if m == 8 {
        212
    } else if m == 9 {
        243
    } else if m == 10 {
        273
    } else if m == 11 {
        304
    } else {
        334
    };
    base + if m > 2 && is_leap_year(y) {
        1int
    } else {
        0int
    }
}

/// The number of days from 1970-01-01 to the date `y-m-d` (negative before).
pub open spec fn days_from_civil(y: int, m: int, d: int) -> int {
    365 * (y - 1970) + (leap_years_through(y - 1) - leap_years_through(1969)) + days_before_month(
        y,
        m,
    ) + d - 1
}

/// The date that lies `z` days after 1970-01-01.
pub open spec fn civil_from_days(z: int) -> (int, int, int) {
    choose|y: int, m: int, d: int| valid_date(y, m, d) && days_from_civil(y, m, d) == z
}

proof fn lemma_div_step(y: int, k: int)
    requires
        k > 0,
    ensures
        y / k - (y - 1) / k == (if y % k == 0 {
            1int
        } else {
            0int
        }),
{
    lemma_fundamental_div_mod(y, k);
    let q = y / k;
    let r = y % k;
    if r == 0 {
        assert((q - 1) * k + (k - 1) == k * q + r - 1) by (nonlinear_arith)
            requires
                r == 0,
        ;
        lemma_fundamental_div_mod_converse_div(y - 1, k, q - 1, k - 1);
    } else {
        assert(q * k + (r - 1) == k * q + r - 1) by (nonlinear_arith);
        lemma_fundamental_div_mod_converse_div(y - 1, k, q, r - 1);
    }
}

proof fn lemma_divisible_chain(y: int)
    ensures
        y % 400 == 0 ==> y % 100 == 0,
        y % 100 == 0 ==> y % 4 == 0,
{
    if y % 400 == 0 {
        lemma_fundamental_div_mod(y, 400);
        let q = y / 400;
        assert(y == (4 * q) * 100 + 0) by (nonlinear_arith)
            requires
                y == 400 * q + 0,
        ;
        lemma_fundamental_div_mod_converse_mod(y, 100, 4 * q, 0);
    }
    if y % 100 == 0 {
        lemma_fundamental_div_mod(y, 100);
        let q = y / 100;
        assert(y == (25 * q) * 4 + 0) by (nonlinear_arith)
            requires
                y == 100 * q + 0,
        ;
        lemma_fundamental_div_mod_converse_mod(y, 4, 25 * q, 0);
    }
}

#[verifier::spinoff_prover]
proof fn lemma_leap_step(y: int)
    ensures
        leap_years_through(y) - leap_years_through(y - 1) == (if is_leap_year(y) {
            1int
        } else {
            0int
        }),
{
    lemma_div_step(y, 4);
    lemma_div_step(y, 100);
    lemma_div_step(y, 400);
    lemma_divisible_chain(y);
}

/// A valid date lies within its year.
proof fn lemma_within_year(y: int, m: int, d: int)
    requires
        valid_date(y, m, d),
    ensures
        days_from_civil(y, 1, 1) <= days_from_civil(y, m, d) < days_from_civil(y + 1, 1, 1),
{
    lemma_leap_step(y);
}

proof fn lemma_years_ordered(a: int, b: int)
    requires
        a <= b,
    ensures
        days_from_civil(a, 1, 1) <= days_from_civil(b, 1, 1),
    decreases b - a,
{
    if a < b {
        lemma_years_ordered(a, b - 1);
        lemma_within_year(b - 1, 1, 1);
    }
}

proof fn lemma_months_ordered(y: int, m1: int, d1: int, m2: int, d2: int)
    requires
        valid_date(y, m1, d1),
        valid_date(y, m2, d2),
        m1 < m2,
    ensures
        days_from_civil(y, m1, d1) < days_from_civil(y, m2, d2),
{
}

/// Two valid dates with the same day number are the same date.
proof fn lemma_civil_unique(y1: int, m1: int, d1: int, y2: int, m2: int, d2: int)
    requires
        valid_date(y1, m1, d1),
        valid_date(y2, m2, d2),
        days_from_civil(y1, m1, d1) == days_from_civil(y2, m2, d2),
    ensures
        y1 == y2 && m1 == m2 && d1 == d2,
{
    lemma_within_year(y1, m1, d1);
    lemma_within_year(y2, m2, d2);
    if y1 < y2 {
        lemma_years_ordered(y1 + 1, y2);
    } else if y2 < y1 {
        lemma_years_ordered(y2 + 1, y1);
    } else if m1 < m2 {
        lemma_months_ordered(y1, m1, d1, m2, d2);
    } else if m2 < m1 {
        lemma_months_ordered(y1, m2, d2, m1, d1);
    }
}

/// Days from March 1st of year 0 of a 400-year era to March 1st of its
/// year `k`.
spec fn era_year_start(k: int) -> int {
    365 * k + leap_years_through(k)
}

proof fn lemma_year_of_era(doe: int)
    requires
        0 <= doe < 146097,
    ensures
        ({
            let yoe = (doe - doe / 1460 + doe / 36524 - doe / 146096) / 365;
            0 <= yoe < 400 && era_year_start(yoe) <= doe < era_year_start(yoe + 1)
        }),
{
}

proof fn lemma_month_of_year(doy: int)
    requires
        0 <= doy < 366,
    ensures
        ({
            let mp = (5 * doy + 2) / 153;
            0 <= mp < 12 && (153 * mp + 2) / 5 <= doy < (153 * (mp + 1) + 2) / 5
        }),
{
}

/// The civil date of day `z` computed era by era: eras of 146097 days
/// starting on a March 1st, years starting in March, then the month and day.
spec fn civil_by_eras(z: int) -> (int, int, int) {
    let zz = z + 719468;
    let era = zz / 146097;
    let doe = zz - era * 146097;
    let yoe = (doe - doe / 1460 + doe / 36524 - doe / 146096) / 365;
    let doy = doe - (365 * yoe + yoe / 4 - yoe / 100);
    let mp = (5 * doy + 2) / 153;
    let d = doy - (153 * mp + 2) / 5 + 1;
    let m = if mp < 10 {
        mp + 3
    } else {
        mp - 9
    };
    let y = yoe + era * 400 + if m <= 2 {
        1int
    } else {
        0int
    };
    (y, m, d)
}

#[verifier::spinoff_prover]
proof fn lemma_civil_by_eras(z: int)
    ensures
        valid_date(civil_by_eras(z).0, civil_by_eras(z).1, civil_by_eras(z).2),
        days_from_civil(civil_by_eras(z).0, civil_by_eras(z).1, civil_by_eras(z).2) == z,
{
    let zz = z + 719468;
    let era = zz / 146097;
    let doe = zz - era * 146097;
    let yoe = (doe - doe / 1460 + doe / 36524 - doe / 146096) / 365;
    let doy = doe - (365 * yoe + yoe / 4 - yoe / 100);
    let mp = (5 * doy + 2) / 153;
    let d = doy - (153 * mp + 2) / 5 + 1;
    let (y, m, dd) = civil_by_eras(z);
    let yc = yoe + era * 400;
    lemma_year_of_era(doe);
    lemma_leap_step(yoe + 1);
    assert(doy < 365 + (if is_leap_year(yoe + 1) { 1int } else { 0int }));
    lemma_month_of_year(doy);
    // Shifting a year by whole eras keeps its leap-year counts and its leap
    // status.
    assert((yc) / 4 == yoe / 4 + era * 100);
    assert((yc) / 100 == yoe / 100 + era * 4);
    assert((yc) / 400 == era);
    assert(leap_years_through(yc) == leap_years_through(yoe) + era * 97);
    assert(is_leap_year(yc + 1) == is_leap_year(yoe + 1));
    lemma_leap_step(yc);
    assert(dd == d);
    if mp < 10 {
        assert(y == yc);
    } else {
        assert(y == yc + 1);
    }
}

/// Every day number names a valid date, and that date's day number is the
/// day number itself.
pub proof fn lemma_civil_from_days(z: int)
    ensures
        valid_date(civil_from_days(z).0, civil_from_days(z).1, civil_from_days(z).2),
        days_from_civil(civil_from_days(z).0, civil_from_days(z).1, civil_from_days(z).2) == z,
{
    lemma_civil_by_eras(z);
    let (y, m, d) = civil_by_eras(z);
    assert(valid_date(y, m, d) && days_from_civil(y, m, d) == z);
}

/// A valid date comes back unchanged from its day number: no two valid
/// dates share a day number.
pub proof fn lemma_civil_roundtrip(y: int, m: int, d: int)
    requires
        valid_date(y, m, d),
    ensures
        civil_from_days(days_from_civil(y, m, d)) == (y, m, d),
{
    let z = days_from_civil(y, m, d);
    lemma_civil_from_days(z);
    let (y2, m2, d2) = civil_from_days(z);
    lemma_civil_unique(y, m, d, y2, m2, d2);
}

/// The civil date of a day number counted from 1970-01-01; the year is
/// truncated to `i32`.
fn ymd_from_days(days_since_epoch: i64) -> (r: (i32, u32, u32))
    requires
        days_since_epoch <= i64::MAX - 719_468,
    ensures
        r.0 == civil_from_days(days_since_epoch as int).0 as i32,
        r.1 == civil_from_days(days_since_epoch as int).1,
        r.2 == civil_from_days(days_since_epoch as int).2,
{
    let z: i64 = days_since_epoch + 719_468;
    let era: i64 = match z.checked_div_euclid(146_097) {
        Some(e) => e,
        None => 0,
    };
    assert(era * 146_097 <= z && z < era * 146_097 + 146_097);
    let doe: u64 = (z - era * 146_097) as u64;
    proof {
        lemma_year_of_era(doe as int);
    }
    let yoe: u64 = (doe - doe / 1_460 + doe / 36_524 - doe / 146_096) / 365;
    let y: i64 = yoe as i64 + era * 400;
    let doy: u64 = doe - (365 * yoe + yoe / 4 - yoe / 100);
    proof {
        lemma_leap_step(yoe + 1);
        lemma_month_of_year(doy as int);
    }
    let mp: u64 = (5 * doy + 2) / 153;
    let d: u64 = doy - (153 * mp + 2) / 5 + 1;
    let m: u64 = if mp < 10 {
        mp + 3
    } else {
        mp - 9
    };
    let y: i64 = y + if m <= 2 {
        1
    } else {
        0
    };
    proof {
        let c = civil_by_eras(days_since_epoch as int);
        assert(c == (y as int, m as int, d as int));
        lemma_civil_by_eras(days_since_epoch as int);
        lemma_civil_from_days(days_since_epoch as int);
        let c2 = civil_from_days(days_since_epoch as int);
        lemma_civil_unique(c.0, c.1, c.2, c2.0, c2.1, c2.2);
    }
    (y as i32, m as u32, d as u32)
}

/// The UTC day that `epoch` (seconds since 1970-01-01T00:00Z) falls on,
/// written `YYYY-MM-DD`: days are 86 400 s long, counted from 1970-01-01.
pub fn day_key(epoch: i64) -> (s: String)
    ensures
        ({
            let c = civil_from_days(epoch as int / 86400);
            s@ == zero_padded((c.0 as i32) as int, 4) + "-"@ + zero_padded(c.1, 2) + "-"@
                + zero_padded(c.2, 2)
        }),
{
    let days: i64 = match epoch.checked_div_euclid(86_400) {
        Some(d) => d,
        None => 0,
    };
    let (y, m, d) = ymd_from_days(days);
    let mut s = fmt_zero_padded(y as i64, 4);
    push_str(&mut s, "-");
    let t = fmt_zero_padded(m as i64, 2);
    push_str(&mut s, t.as_str());
    push_str(&mut s, "-");
    let t = fmt_zero_padded(d as i64, 2);
    push_str(&mut s, t.as_str());
    s
}


// ---------------------------------------------------------------------------
// One warning per host and code
// ---------------------------------------------------------------------------

/// The hosts already warned about, one list per warning code: DECK-007
/// (a host degraded by repeated failures) and DECK-008 (a host at its
/// daily request cap).
#[derive(Debug, Clone)]
pub struct WarnedHosts {
    pub degraded: Vec<String>,
    pub capped: Vec<String>,
}

/// One request to warn about `host` under `code`, on the warned lists
/// `(degraded, capped)`: the lists afterwards and the warning text to show,
/// if any. Unknown codes and hosts already warned under the code show
/// nothing and change nothing; else the host joins that code's list and the
/// text is `"{code}: {host}"`.
pub open spec fn warn_step(
    lists: (Seq<Seq<char>>, Seq<Seq<char>>),
    code: Seq<char>,
    host: Seq<char>,
) -> ((Seq<Seq<char>>, Seq<Seq<char>>), Option<Seq<char>>) {
    if code == "DECK-007"@ {
        if lists.0.contains(host) {
            (lists, None)
        } else {
            ((lists.0.push(host), lists.1), Some(code + ": "@ + host))
        }
    } else if code == "DECK-008"@ {
        if lists.1.contains(host) {
            (lists, None)
        } else {
            ((lists.0, lists.1.push(host)), Some(code + ": "@ + host))
        }
    } else {
        (lists, None)
    }
}

impl WarnedHosts {
    /// The warned lists as character sequences.
    pub open spec fn lists(&self) -> (Seq<Seq<char>>, Seq<Seq<char>>) {
        (str_views(self.degraded@), str_views(self.capped@))
    }

    /// No host warned yet.
    pub fn new() -> (w: WarnedHosts)
        ensures
            w.lists() == (Seq::<Seq<char>>::empty(), Seq::<Seq<char>>::empty()),
    {
        let w = WarnedHosts { degraded: Vec::new(), capped: Vec::new() };
        assert(w.lists().0 =~= Seq::<Seq<char>>::empty());
        assert(w.lists().1 =~= Seq::<Seq<char>>::empty());
        w
    }

    /// Records a warning about `host` under `code` and returns the text to
    /// show, or `None` where `warn_step` shows nothing.
    pub fn warn_once(&mut self, code: &str, host: &str) -> (msg: Option<String>)
        ensures
            final(self).lists() == warn_step(old(self).lists(), code@, host@).0,
            match msg {
                Some(m) => warn_step(old(self).lists(), code@, host@).1 == Some(m@),
                None => warn_step(old(self).lists(), code@, host@).1 == None::<Seq<char>>,
            },
    {
        let degraded = str_eq(code, "DECK-007");
        let capped = str_eq(code, "DECK-008");
        proof {
            reveal_strlit("DECK-007");
            reveal_strlit("DECK-008");
        }
        if degraded {
            if vec_contains_str(&self.degraded, host) {
                return None;
            }
            let ghost before = self.degraded@;
            self.degraded.push(owned(host));
            assert(str_views(self.degraded@) =~= str_views(before).push(host@));
        } else if capped {
            if vec_contains_str(&self.capped, host) {
                return None;
            }
            let ghost before = self.capped@;
            self.capped.push(owned(host));
            assert(str_views(self.capped@) =~= str_views(before).push(host@));
        } else {
            return None;
        }
        let mut m = owned(code);
        push_str(&mut m, ": ");
        push_str(&mut m, host);
        Some(m)
    }
}

/// Each host is warned about at most once under each code: once a warning
/// about `host` under `code` has been shown, asking again shows nothing.
pub proof fn lemma_warn_once_per_host(
    lists: (Seq<Seq<char>>, Seq<Seq<char>>),
    code: Seq<char>,
    host: Seq<char>,
)
    requires
        warn_step(lists, code, host).1 is Some,
    ensures
        warn_step(warn_step(lists, code, host).0, code, host).1 is None,
{
    let after = warn_step(lists, code, host).0;
    if code == "DECK-007"@ {
        assert(after.0[after.0.len() - 1] == host);
    } else {
        assert(after.1[after.1.len() - 1] == host);
    }
}


// ---------------------------------------------------------------------------
// One bulk ingest at a time
// ---------------------------------------------------------------------------

/// Whether a bulk ingest is running. A refresh starts only when none is;
/// one asked for meanwhile returns at once with the data unchanged.
#[derive(Debug, Clone, Copy)]
pub struct IngestGuard {
    pub running: bool,
}

impl IngestGuard {
    /// No ingest running.
    pub fn new() -> (g: IngestGuard)
        ensures
            !g.running,
    {
        IngestGuard { running: false }
    }

    /// Claims the ingest: succeeds, marking it running, exactly when none
    /// was running; otherwise changes nothing.
    pub fn try_start(&mut self) -> (started: bool)
        ensures
            (started, final(self).running) == start_step(old(self).running),
    {
        if self.running {
            false
        } else {
            self.running = true;
            true
        }
    }

    /// Releases the ingest on every way out of a refresh.
    pub fn finish(&mut self)
        ensures
            !final(self).running,
    {
        self.running = false;
    }
}

/// A start on the running flag `running`: whether it succeeds, and the
/// flag afterwards.
pub open spec fn start_step(running: bool) -> (bool, bool) {
    (!running, true)
}

/// Two refreshes never run at once: whatever the flag was, a second start
/// right after a first one fails, and a start after a finish succeeds.
pub proof fn lemma_one_ingest_at_a_time(running: bool)
    ensures
        !start_step(start_step(running).1).0,
        start_step(false).0,
{
}

} // verus!
