//! Diagnostics: the record of one diagnostic and the in-memory ring buffer
//! of the most recent ones.

use std::collections::VecDeque;

use vstd::prelude::*;

verus! {

/// How many entries the diagnostic log keeps.
pub const DIAGNOSTIC_LOG_CAPACITY: usize = 200;

/// One diagnostic: its code, level, message and when it was raised.
#[derive(Debug, Clone)]
pub struct DiagnosticEntry {
    pub code: String,
    pub level: String,
    pub message: String,
    pub timestamp_epoch_s: u64,
}

/// A diagnostic code.
#[derive(Debug, Clone, Copy)]
pub struct DiagnosticCode {
    pub code: &'static str,
}

/// The same entry: equal fields.
pub open spec fn same_entry(a: DiagnosticEntry, b: DiagnosticEntry) -> bool {
    a.code@ == b.code@ && a.level@ == b.level@ && a.message@ == b.message@ && a.timestamp_epoch_s
        == b.timestamp_epoch_s
}

/// The entries after `entry` is pushed: appended, the oldest dropped when
/// the log already holds its capacity.
pub open spec fn pushed(before: Seq<DiagnosticEntry>, entry: DiagnosticEntry) -> Seq<DiagnosticEntry> {
    if before.len() == DIAGNOSTIC_LOG_CAPACITY {
        before.drop_first().push(entry)
    } else {
        before.push(entry)
    }
}

/// The entries of a new log after pushing `es` in order.
pub open spec fn after_pushes(es: Seq<DiagnosticEntry>) -> Seq<DiagnosticEntry>
    decreases es.len(),
{
    if es.len() == 0 {
        Seq::empty()
    } else {
        pushed(after_pushes(es.drop_last()), es.last())
    }
}

/// How many of `n` pushed entries the log keeps.
pub open spec fn kept_count(n: int) -> int {
    if n < DIAGNOSTIC_LOG_CAPACITY {
        n
    } else {
        DIAGNOSTIC_LOG_CAPACITY as int
    }
}

/// The first index of what `recent(limit)` returns from `n` entries.
pub open spec fn recent_start(n: int, limit: int) -> int {
    if n > limit {
        n - limit
    } else {
        0
    }
}

/// A ring buffer of the most recent diagnostics, oldest first; once full,
/// each new entry drops the oldest.
pub struct DiagnosticLog {
    entries: VecDeque<DiagnosticEntry>,
    capacity: usize,
}

impl DiagnosticLog {
    /// The entries held, oldest first.
    pub closed spec fn entries_view(&self) -> Seq<DiagnosticEntry> {
        self.entries@
    }

    /// How many entries the log keeps.
    pub closed spec fn capacity_view(&self) -> nat {
        self.capacity as nat
    }

    /// The log's shape: capacity 200, never more entries than that.
    pub open spec fn wf(&self) -> bool {
        self.capacity_view() == DIAGNOSTIC_LOG_CAPACITY && self.entries_view().len()
            <= self.capacity_view()
    }

    /// An empty log.
    pub fn new() -> (log: Self)
        ensures
            log.wf(),
            log.capacity_view() == DIAGNOSTIC_LOG_CAPACITY,
            log.entries_view() == Seq::<DiagnosticEntry>::empty(),
    {
        DiagnosticLog { entries: VecDeque::with_capacity(200), capacity: 200 }
    }

    /// Appends `entry`, dropping the oldest entry when the log is full.
    pub fn push(&mut self, entry: DiagnosticEntry)
        requires
            old(self).wf(),
        ensures
            final(self).wf(),
            final(self).capacity_view() == old(self).capacity_view(),
            final(self).entries_view() == pushed(old(self).entries_view(), entry),
    {
        if self.entries.len() == self.capacity {
            self.entries.pop_front();
        }
        self.entries.push_back(entry);
    }

    /// The most recent `limit` entries, oldest first.
    pub fn recent(&self, limit: usize) -> (out: Vec<DiagnosticEntry>)
        requires
            self.wf(),
        ensures
            ({
                let n = self.entries_view().len();
                let skip = recent_start(n as int, limit as int);
                &&& out@.len() == n - skip
                &&& forall|i: int|
                    0 <= i < out@.len() ==> same_entry(
                        #[trigger] out@[i],
                        self.entries_view()[skip + i],
                    )
            }),
    {
        let n = self.entries.len();
        let skip: usize = if n > limit {
            n - limit
        } else {
            0
        };
        let mut out: Vec<DiagnosticEntry> = Vec::new();
        let mut i: usize = skip;
        while i < n
            invariant
                skip <= i <= n,
                n == self.entries@.len(),
                out@.len() == i - skip,
                forall|k: int|
                    0 <= k < out@.len() ==> same_entry(#[trigger] out@[k], self.entries@[skip + k]),
            decreases n - i,
        {
            let e = &self.entries[i];
            out.push(
                DiagnosticEntry {
                    code: e.code.clone(),
                    level: e.level.clone(),
                    message: e.message.clone(),
                    timestamp_epoch_s: e.timestamp_epoch_s,
                },
            );
            i += 1;
        }
        out
    }
}

/// The log never holds more than its capacity, and the newest entry after
/// a push is the one pushed.
pub proof fn lemma_push_keeps_newest(before: Seq<DiagnosticEntry>, entry: DiagnosticEntry)
    requires
        before.len() <= DIAGNOSTIC_LOG_CAPACITY,
    ensures
        ({
            let after = if before.len() == DIAGNOSTIC_LOG_CAPACITY {
                before.drop_first().push(entry)
            } else {
                before.push(entry)
            };
            &&& after.len() <= DIAGNOSTIC_LOG_CAPACITY
            &&& after.last() == entry
            &&& after.drop_last() == (if before.len() == DIAGNOSTIC_LOG_CAPACITY {
                before.drop_first()
            } else {
                before
            })
        }),
{
    let after = if before.len() == DIAGNOSTIC_LOG_CAPACITY {
        before.drop_first().push(entry)
    } else {
        before.push(entry)
    };
    if before.len() == DIAGNOSTIC_LOG_CAPACITY {
        assert(after.drop_last() =~= before.drop_first());
    } else {
        assert(after.drop_last() =~= before);
    }
}


/// A log that was pushed `es` in order holds the last `min(|es|, 200)` of
/// them, oldest first.
pub proof fn lemma_log_keeps_last(es: Seq<DiagnosticEntry>)
    ensures
        after_pushes(es) == es.subrange(es.len() - kept_count(es.len() as int), es.len() as int),
    decreases es.len(),
{
    if es.len() > 0 {
        let d = es.drop_last();
        lemma_log_keeps_last(d);
        let prev = after_pushes(d);
        let n = es.len() as int;
        if d.len() >= DIAGNOSTIC_LOG_CAPACITY {
            assert(prev.len() == DIAGNOSTIC_LOG_CAPACITY);
            assert(prev.drop_first().push(es.last()) =~= es.subrange(
                n - DIAGNOSTIC_LOG_CAPACITY,
                n,
            ));
        } else {
            assert(prev.push(es.last()) =~= es.subrange(0, n));
        }
    }
}

/// After pushing `es` into a new log, `recent(limit)` gives the last
/// `min(limit, min(|es|, 200))` entries pushed, oldest first: the entries
/// from `recent_start` on of what the log keeps are those of `es` from
/// there on.
pub proof fn lemma_recent_after_pushes(es: Seq<DiagnosticEntry>, limit: nat)
    ensures
        ({
            let kept = after_pushes(es);
            let start = recent_start(kept.len() as int, limit as int);
            let k = kept_count(es.len() as int);
            let r = if k < limit { k } else { limit as int };
            kept.subrange(start, kept.len() as int) == es.subrange(es.len() - r, es.len() as int)
        }),
{
    lemma_log_keeps_last(es);
    let kept = after_pushes(es);
    let start = recent_start(kept.len() as int, limit as int);
    let k = kept_count(es.len() as int);
    let r = if k < limit { k } else { limit as int };
    assert(kept.subrange(start, kept.len() as int) =~= es.subrange(es.len() - r, es.len() as int));
}
} // verus!
