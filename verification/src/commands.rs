//! What the app reports about its services: the service registry shown in
//! the status panel and the startup status snapshot.

use vstd::prelude::*;

use crate::numbers::{decimal, fmt_u64};
use crate::services::card_db::CardDb;
use crate::text::{owned, push_str};

verus! {

/// One row of the service registry.
#[derive(Debug, Clone)]
pub struct ServiceStatus {
    pub id: String,
    pub name: String,
    pub state: String,
    pub detail: String,
    pub path: Option<String>,
}

/// Everything exported for a bug report.
#[derive(Debug, Clone)]
pub struct DiagnosticsExport {
    pub app_version: String,
    pub services: Vec<ServiceStatus>,
    pub timestamp_epoch_s: u64,
}

/// The app's name and version.
#[derive(Debug, Clone)]
pub struct AppInfo {
    pub name: String,
    pub version: String,
}

/// The backend state a freshly opened window hydrates from.
#[derive(Debug, Clone)]
pub struct AppStatus {
    pub card_db_loaded: bool,
    pub card_db_card_count: usize,
    pub card_db_path: Option<String>,
    pub mtga_pid: Option<u32>,
    pub log_watcher_running: bool,
    pub log_has_inventory: bool,
    pub has_collection: bool,
    pub collection_unique: usize,
    pub collection_total: usize,
    pub is_watching: bool,
    pub is_scanning: bool,
}

/// What the log watcher reports.
#[derive(Debug, Clone)]
pub struct LogSnapshot {
    pub running: bool,
    pub has_inventory: bool,
    pub log_path: Option<String>,
}

/// What the memory scanner reports when it is not busy: whether a scan
/// has completed and its unique and total card counts, whether a scan is
/// running, and whether the collection is being watched.
#[derive(Debug, Clone, Copy)]
pub struct MemorySnapshot {
    pub has_scan: bool,
    pub unique: usize,
    pub total: usize,
    pub scanning: bool,
    pub watching: bool,
}

/// The optional text of an optional string.
pub open spec fn opt_text(o: Option<String>) -> Option<Seq<char>> {
    match o {
        Some(s) => Some(s@),
        None => None,
    }
}

/// A registry row with these contents.
pub open spec fn row_is(
    s: ServiceStatus,
    id: Seq<char>,
    name: Seq<char>,
    state: Seq<char>,
    detail: Seq<char>,
    path: Option<Seq<char>>,
) -> bool {
    s.id@ == id && s.name@ == name && s.state@ == state && s.detail@ == detail && opt_text(
        s.path,
    ) == path
}

fn row(id: &str, name: &str, state: &str, detail: String, path: Option<String>) -> (s:
    ServiceStatus)
    ensures
        row_is(s, id@, name@, state@, detail@, opt_text(path)),
{
    ServiceStatus { id: owned(id), name: owned(name), state: owned(state), detail, path }
}

/// The service registry: the card database, the log watcher, the memory
/// scanner, the collection watch and the MTGA process, in that order. A
/// busy memory scanner (`memory` absent) is reported as scanning.
pub fn build_service_statuses(
    card_db: &CardDb,
    log: &LogSnapshot,
    memory: Option<MemorySnapshot>,
    mtga_pid: Option<u32>,
) -> (out: Vec<ServiceStatus>)
    ensures
        out@.len() == 5,
        row_is(
            out@[0],
            "card_db"@,
            "Card Database"@,
            if card_db.card_map() is Some {
                "ok"@
            } else {
                "error"@
            },
            match card_db.card_map() {
                Some(m) => decimal(m.len()) + " cards loaded"@,
                None => "Not loaded"@,
            },
            card_db.path(),
        ),
        row_is(
            out@[1],
            "log"@,
            "Log Watcher"@,
            if log.running {
                "active"@
            } else {
                "idle"@
            },
            if !log.running {
                "Stopped"@
            } else if log.has_inventory {
                "Watching \u{00b7} inventory parsed"@
            } else {
                "Watching \u{00b7} waiting for session"@
            },
            opt_text(log.log_path),
        ),
        match memory {
            Some(m) => row_is(
                out@[2],
                "memory"@,
                "Memory Scanner"@,
                if m.scanning {
                    "scanning"@
                } else if m.has_scan {
                    "ok"@
                } else {
                    "idle"@
                },
                if m.scanning {
                    "Scanning\u{2026}"@
                } else if m.has_scan {
                    decimal(m.unique as nat) + " unique / "@ + decimal(m.total as nat) + " total"@
                } else {
                    "No scan performed"@
                },
                None,
            ) && row_is(
                out@[3],
                "collection_watch"@,
                "Collection Watch"@,
                if m.watching {
                    "active"@
                } else {
                    "idle"@
                },
                if m.watching {
                    "Polling for changes"@
                } else {
                    "Not watching"@
                },
                None,
            ),
            None => row_is(
                out@[2],
                "memory"@,
                "Memory Scanner"@,
                "scanning"@,
                "Scanning\u{2026}"@,
                None,
            ) && row_is(out@[3], "collection_watch"@, "Collection Watch"@, "idle"@, "Busy"@, None),
        },
        row_is(
            out@[4],
            "process"@,
            "MTGA Process"@,
            if mtga_pid is Some {
                "ok"@
            } else {
                "idle"@
            },
            match mtga_pid {
                Some(pid) => "PID "@ + decimal(pid as nat),
                None => "Not detected"@,
            },
            None,
        ),
{
    let mut out: Vec<ServiceStatus> = Vec::new();
    let loaded = card_db.is_loaded();
    let detail = if loaded {
        let mut d = fmt_u64(card_db.card_count() as u64);
        push_str(&mut d, " cards loaded");
        d
    } else {
        owned("Not loaded")
    };
    out.push(
        row(
            "card_db",
            "Card Database",
            if loaded {
                "ok"
            } else {
                "error"
            },
            detail,
            card_db.db_path(),
        ),
    );
    let log_detail = if !log.running {
        owned("Stopped")
    } else if log.has_inventory {
        owned("Watching \u{00b7} inventory parsed")
    } else {
        owned("Watching \u{00b7} waiting for session")
    };
    out.push(
        row(
            "log",
            "Log Watcher",
            if log.running {
                "active"
            } else {
                "idle"
            },
            log_detail,
            log.log_path.clone(),
        ),
    );
    match memory {
        Some(m) => {
            let detail = if m.scanning {
                owned("Scanning\u{2026}")
            } else if m.has_scan {
                let mut d = fmt_u64(m.unique as u64);
                push_str(&mut d, " unique / ");
                let t = fmt_u64(m.total as u64);
                push_str(&mut d, t.as_str());
                push_str(&mut d, " total");
                d
            } else {
                owned("No scan performed")
            };
            out.push(
                row(
                    "memory",
                    "Memory Scanner",
                    if m.scanning {
                        "scanning"
                    } else if m.has_scan {
                        "ok"
                    } else {
                        "idle"
                    },
                    detail,
                    None,
                ),
            );
            let detail = if m.watching {
                owned("Polling for changes")
            } else {
                owned("Not watching")
            };
            out.push(
                row(
                    "collection_watch",
                    "Collection Watch",
                    if m.watching {
                        "active"
                    } else {
                        "idle"
                    },
                    detail,
                    None,
                ),
            );
        },
        None => {
            out.push(row("memory", "Memory Scanner", "scanning", owned("Scanning\u{2026}"), None));
            out.push(row("collection_watch", "Collection Watch", "idle", owned("Busy"), None));
        },
    }
    let detail = match mtga_pid {
        Some(pid) => {
            let mut d = owned("PID ");
            let t = fmt_u64(pid as u64);
            push_str(&mut d, t.as_str());
            d
        },
        None => owned("Not detected"),
    };
    out.push(
        row(
            "process",
            "MTGA Process",
            if mtga_pid.is_some() {
                "ok"
            } else {
                "idle"
            },
            detail,
            None,
        ),
    );
    out
}

/// The startup status snapshot. A busy memory scanner (`memory` absent)
/// is reported as scanning, with no collection.
pub fn build_app_status(
    card_db: &CardDb,
    log: &LogSnapshot,
    memory: Option<MemorySnapshot>,
    mtga_pid: Option<u32>,
) -> (s: AppStatus)
    ensures
        s.card_db_loaded == card_db.card_map() is Some,
        s.card_db_card_count == (match card_db.card_map() {
            Some(m) => m.len(),
            None => 0,
        }),
        opt_text(s.card_db_path) == card_db.path(),
        s.mtga_pid == mtga_pid,
        s.log_watcher_running == log.running,
        s.log_has_inventory == log.has_inventory,
        match memory {
            Some(m) => s.has_collection == m.has_scan && s.collection_unique == m.unique
                && s.collection_total == m.total && s.is_watching == m.watching && s.is_scanning
                == m.scanning,
            None => !s.has_collection && s.collection_unique == 0 && s.collection_total == 0
                && !s.is_watching && s.is_scanning,
        },
{
    let (has_collection, collection_unique, collection_total, is_watching, is_scanning) =
        match memory {
        Some(m) => (m.has_scan, m.unique, m.total, m.watching, m.scanning),
        None => (false, 0, 0, false, true),
    };
    AppStatus {
        card_db_loaded: card_db.is_loaded(),
        card_db_card_count: card_db.card_count(),
        card_db_path: card_db.db_path(),
        mtga_pid,
        log_watcher_running: log.running,
        log_has_inventory: log.has_inventory,
        has_collection,
        collection_unique,
        collection_total,
        is_watching,
        is_scanning,
    }
}

} // verus!
