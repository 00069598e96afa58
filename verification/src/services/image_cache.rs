//! The card image cache: file naming, which cached files count, and the
//! decisions of a sync (retries with exponential back-off, when to report
//! progress, the final tally).

use vstd::prelude::*;

use crate::numbers::{decimal_signed, fmt_i64};
use crate::text::{chars_of, ends_with, ends_with_chars, push_str, str_views};

verus! {

/// Concurrent downloads during a sync.
pub const CONCURRENCY: usize = 8;

/// A progress report every this many finished downloads.
pub const PROGRESS_INTERVAL: usize = 25;

/// Attempts per image.
pub const MAX_RETRIES: u32 = 3;

/// The cache directory and the image files in it.
#[derive(Debug, Clone)]
pub struct ImageCacheStatus {
    pub cache_dir: String,
    pub cached_files: Vec<String>,
}

/// One image to have in the cache.
#[derive(Debug, Clone)]
pub struct ImageSyncEntry {
    pub grp_id: i32,
    pub url: String,
}

/// The cache file of a card's image: `<grp>_normal.jpg`.
pub fn image_file_name(grp_id: i32) -> (s: String)
    ensures
        s@ == decimal_signed(grp_id as int) + "_normal.jpg"@,
{
    let mut s = fmt_i64(grp_id as i64);
    push_str(&mut s, "_normal.jpg");
    s
}

/// The file a card's image is written to before it is renamed into place:
/// `<grp>_normal.tmp`.
pub fn image_tmp_name(grp_id: i32) -> (s: String)
    ensures
        s@ == decimal_signed(grp_id as int) + "_normal.tmp"@,
{
    let mut s = fmt_i64(grp_id as i64);
    push_str(&mut s, "_normal.tmp");
    s
}

/// The names among `names` that are cached images (end in `.jpg`), in order.
pub open spec fn jpg_names_spec(names: Seq<Seq<char>>, n: int) -> Seq<Seq<char>>
    decreases n,
{
    if n <= 0 {
        Seq::empty()
    } else {
        let prev = jpg_names_spec(names, n - 1);
        if ends_with(names[n - 1], ".jpg"@) {
            prev.push(names[n - 1])
        } else {
            prev
        }
    }
}

/// The directory entries that are cached images.
pub fn jpg_names(names: Vec<String>) -> (out: Vec<String>)
    ensures
        str_views(out@) == jpg_names_spec(str_views(names@), names@.len() as int),
{
    let ext = chars_of(".jpg");
    let mut out: Vec<String> = Vec::new();
    let mut i: usize = 0;
    while i < names.len()
        invariant
            i <= names@.len(),
            ext@ == ".jpg"@,
            str_views(out@) == jpg_names_spec(str_views(names@), i as int),
        decreases names@.len() - i,
    {
        let cs = chars_of(names[i].as_str());
        if ends_with_chars(cs.as_slice(), ext.as_slice()) {
            let ghost before = str_views(out@);
            out.push(names[i].clone());
            assert(str_views(out@) =~= before.push(names@[i as int]@));
        }
        i += 1;
    }
    out
}

/// How long to wait before attempt `attempt` (counted from 0) of a
/// download: nothing before the first, then 2, 4, ... seconds.
pub fn retry_delay_secs(attempt: u32) -> (d: Option<u64>)
    requires
        attempt < 64,
    ensures
        attempt == 0 ==> d is None,
        attempt > 0 ==> d == Some(vstd::arithmetic::power2::pow2(attempt as nat) as u64),
{
    if attempt == 0 {
        None
    } else {
        let shift: u64 = attempt as u64;
        let d: u64 = 1u64 << shift;
        proof {
            vstd::bits::lemma_u64_pow2_no_overflow(shift as nat);
            vstd::bits::lemma_u64_shl_is_mul(1, shift);
        }
        Some(d)
    }
}

/// What a download does after an attempt.
#[derive(Debug, Clone, Copy, PartialEq, Eq, Structural)]
pub enum DownloadStep {
    /// Try again: attempt number and the seconds to wait first.
    Retry { attempt: u32, delay_secs: u64 },
    /// Stop; whether the image was stored.
    Done { stored: bool },
}

/// The next step of a download after attempt `attempt` ended, stored or
/// not: a stored image ends the download; a failed attempt is retried
/// until `MAX_RETRIES` attempts have been made.
pub fn next_download_step(attempt: u32, stored: bool) -> (s: DownloadStep)
    requires
        attempt < MAX_RETRIES,
    ensures
        stored ==> (s == DownloadStep::Done { stored: true }),
        !stored && attempt + 1 < MAX_RETRIES ==> (s == DownloadStep::Retry {
            attempt: (attempt + 1) as u32,
            delay_secs: retry_delay_secs_spec((attempt + 1) as u32)->0,
        }),
        !stored && attempt + 1 >= MAX_RETRIES ==> (s == DownloadStep::Done { stored: false }),
{
    if stored {
        DownloadStep::Done { stored: true }
    } else if attempt + 1 < MAX_RETRIES {
        let a = attempt + 1;
        let d = match retry_delay_secs(a) {
            Some(d) => d,
            None => 0,
        };
        DownloadStep::Retry { attempt: a, delay_secs: d }
    } else {
        DownloadStep::Done { stored: false }
    }
}

/// The back-off before attempt `attempt`, as `retry_delay_secs` gives it.
pub open spec fn retry_delay_secs_spec(attempt: u32) -> Option<u64> {
    if attempt == 0 {
        None
    } else {
        Some(vstd::arithmetic::power2::pow2(attempt as nat) as u64)
    }
}

/// Whether a progress report goes out once `done` of `total` downloads have
/// finished: every `PROGRESS_INTERVAL`, and at the last one.
pub fn should_report_progress(done: usize, total: usize) -> (b: bool)
    ensures
        b == (done % PROGRESS_INTERVAL == 0 || done == total),
{
    done % PROGRESS_INTERVAL == 0 || done == total
}

/// The final tally of a sync: (downloaded, skipped, failed).
pub fn sync_tally(total: usize, failed: usize) -> (t: (usize, usize, usize))
    requires
        failed <= total,
    ensures
        t.0 == total - failed,
        t.1 == 0,
        t.2 == failed,
{
    (total - failed, 0, failed)
}

} // verus!
