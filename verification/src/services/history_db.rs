//! Economy and collection history: row types, the canonical form of a
//! collection that snapshots are deduplicated by, the retention cutoffs
//! and the timestamp filter of history queries.

use std::collections::HashMap;
use std::hash::{DefaultHasher, Hasher};

use vstd::std_specs::iter::IteratorSpec;

use vstd::prelude::*;
use vstd::std_specs::hash::DefaultHasherAdditionalSpecFns;

use crate::services::card_db::join_strings;
use crate::services::deck::ingest::joined_by;
use crate::text::{owned, push_str, str_views};


verus! {

/// A logged card grant.
#[derive(Debug, Clone)]
pub struct CardGrantRow {
    pub id: i64,
    pub timestamp: i64,
    pub grp_id: i32,
    pub set_code: String,
    pub source: String,
    pub card_added: bool,
    pub gems_compensation: i32,
    pub vault_progress: i32,
}

/// The ids of the snapshots one snapshot request saved (`None` where that
/// kind was not saved).
#[derive(Debug, Clone)]
pub struct SnapshotSummary {
    pub economy_id: Option<i64>,
    pub collection_id: Option<i64>,
    pub cosmetics_id: Option<i64>,
    pub mastery_id: Option<i64>,
}

/// The keys of `v` strictly ascend.
pub open spec fn keys_ascending(v: Seq<(i32, i32)>) -> bool {
    forall|i: int, j: int| 0 <= i < j < v.len() ==> v[i].0 < v[j].0
}

/// The collection's pairs in ascending grp order.
pub open spec fn canonical_entries(m: Map<i32, i32>) -> Seq<(i32, i32)> {
    choose|v: Seq<(i32, i32)>| keys_ascending(v) && v.to_set() == m.kv_pairs()
}

/// Two sequences with ascending keys and the same elements are equal: a
/// collection has one canonical sequence.
pub proof fn lemma_ascending_unique(a: Seq<(i32, i32)>, b: Seq<(i32, i32)>)
    requires
        keys_ascending(a),
        keys_ascending(b),
        a.to_set() == b.to_set(),
    ensures
        a == b,
    decreases a.len(),
{
    if a.len() == 0 {
        if b.len() > 0 {
            assert(b.to_set().contains(b[0]));
        }
        assert(a =~= b);
    } else {
        assert(a.to_set().contains(a[0]));
        let k = choose|k: int| 0 <= k < b.len() && b[k] == a[0];
        assert(b.to_set().contains(b[0]));
        let j = choose|j: int| 0 <= j < a.len() && a[j] == b[0];
        assert(a[0].0 <= a[j].0);
        assert(b[0].0 <= b[k].0);
        assert(j == 0);
        let a1 = a.drop_first();
        let b1 = b.drop_first();
        assert forall|x: (i32, i32)| a1.to_set().contains(x) implies b1.to_set().contains(x) by {
            let i = choose|i: int| 0 <= i < a1.len() && a1[i] == x;
            assert(a[i + 1] == x);
            assert(a.to_set().contains(x));
            let m = choose|m: int| 0 <= m < b.len() && b[m] == x;
            assert(x.0 > a[0].0);
            assert(m != 0);
            assert(b1[m - 1] == x);
        }
        assert forall|x: (i32, i32)| b1.to_set().contains(x) implies a1.to_set().contains(x) by {
            let i = choose|i: int| 0 <= i < b1.len() && b1[i] == x;
            assert(b[i + 1] == x);
            assert(b.to_set().contains(x));
            let m = choose|m: int| 0 <= m < a.len() && a[m] == x;
            assert(x.0 > b[0].0);
            assert(m != 0);
            assert(a1[m - 1] == x);
        }
        assert(a1.to_set() =~= b1.to_set());
        lemma_ascending_unique(a1, b1);
        assert(a =~= seq![a[0]] + a1);
        assert(b =~= seq![b[0]] + b1);
    }
}

/// Inserts `e` into `v`, whose keys ascend and do not include `e`'s key.
fn insert_entry(v: &mut Vec<(i32, i32)>, e: (i32, i32))
    requires
        keys_ascending(old(v)@),
        forall|k: int| 0 <= k < old(v)@.len() ==> old(v)@[k].0 != e.0,
    ensures
        keys_ascending(final(v)@),
        final(v)@.to_set() == old(v)@.to_set().insert(e),
{
    let mut p: usize = 0;
    while p < v.len() && v[p].0 < e.0
        invariant
            p <= v@.len(),
            forall|k: int| 0 <= k < p ==> v@[k].0 < e.0,
        decreases v@.len() - p,
    {
        p += 1;
    }
    let ghost ov = v@;
    v.insert(p, e);
    proof {
        assert(v@ =~= ov.insert(p as int, e));
        assert forall|i: int, j: int| 0 <= i < j < v@.len() implies v@[i].0 < v@[j].0 by {
            if j < p {
            } else if j == p {
            } else if i < p {
                assert(v@[j] == ov[j - 1]);
                assert(ov[p as int].0 > e.0);
                if j - 1 > p {
                    assert(ov[p as int].0 < ov[j - 1].0);
                }
            } else if i == p {
                assert(v@[j] == ov[j - 1]);
                if j - 1 > p {
                    assert(ov[p as int].0 < ov[j - 1].0);
                }
            } else {
                assert(v@[i] == ov[i - 1] && v@[j] == ov[j - 1]);
            }
        }
        assert forall|x: (i32, i32)| v@.to_set().contains(x) <==> ov.to_set().insert(e).contains(
            x,
        ) by {
            if v@.to_set().contains(x) {
                let k = choose|k: int| 0 <= k < v@.len() && v@[k] == x;
                if k < p {
                    assert(ov[k] == x);
                } else if k > p {
                    assert(ov[k - 1] == x);
                }
            }
            if ov.to_set().contains(x) {
                let k = choose|k: int| 0 <= k < ov.len() && ov[k] == x;
                if k < p {
                    assert(v@[k] == x);
                } else {
                    assert(v@[k + 1] == x);
                }
            }
            if x == e {
                assert(v@[p as int] == e);
            }
        }
        assert(v@.to_set() =~= ov.to_set().insert(e));
    }
}

/// The collection's `(grp, qty)` pairs in ascending grp order: the one
/// canonical sequence of the collection, whatever order the map walks in.
pub fn sorted_entries(collection: &HashMap<i32, i32>) -> (v: Vec<(i32, i32)>)
    ensures
        keys_ascending(v@),
        v@.to_set() == collection@.kv_pairs(),
        v@ == canonical_entries(collection@),
{
    broadcast use vstd::std_specs::hash::group_hash_axioms;

    let mut v: Vec<(i32, i32)> = Vec::new();
    let ghost entries = vstd::std_specs::hash::spec_hash_map_iter(collection).remaining();
    let ghost mut done: Seq<(i32, i32)> = Seq::empty();
    for (g, q) in it: collection.iter()
        invariant
            it.seq() == entries,
            entries == vstd::std_specs::hash::spec_hash_map_iter(collection).remaining(),
            entries.no_duplicates(),
            keys_ascending(v@),
            done.len() == it.index(),
            forall|k: int| 0 <= k < done.len() ==> #[trigger] done[k] == (*entries[k].0, *entries[k].1),
            v@.to_set() == done.to_set(),
    {
        let ghost k0 = it.index();
        let e = (*g, *q);
        proof {
            assert(e == (*entries[k0].0, *entries[k0].1));
            assert forall|k: int| 0 <= k < v@.len() implies v@[k].0 != e.0 by {
                assert(v@.to_set().contains(v@[k]));
                assert(done.to_set().contains(v@[k]));
                let j = choose|j: int| 0 <= j < done.len() && done[j] == v@[k];
                if v@[k].0 == e.0 {
                    assert(collection@.contains_key(*entries[j].0));
                    assert(collection@[*entries[j].0] == *entries[j].1);
                    assert(collection@[*entries[k0].0] == *entries[k0].1);
                    assert(entries[j] == entries[k0]);
                }
            }
        }
        insert_entry(&mut v, e);
        proof {
            let od = done;
            done = done.push(e);
            assert(done.to_set() =~= od.to_set().insert(e)) by {
                assert forall|x: (i32, i32)| done.to_set().contains(x) implies od.to_set().insert(e).contains(x) by {
                    let j = choose|j: int| 0 <= j < done.len() && done[j] == x;
                    if j < od.len() {
                        assert(od[j] == x);
                    }
                }
                assert forall|x: (i32, i32)| od.to_set().insert(e).contains(x) implies done.to_set().contains(x) by {
                    if x == e {
                        assert(done[od.len() as int] == e);
                    } else {
                        let j = choose|j: int| 0 <= j < od.len() && od[j] == x;
                        assert(done[j] == x);
                    }
                }
            }
        }
    }
    proof {
        assert(done =~= entries.unref());
        assert(v@.to_set() =~= collection@.kv_pairs());
        let c = canonical_entries(collection@);
        assert(keys_ascending(c) && c.to_set() == collection@.kv_pairs());
        lemma_ascending_unique(v@, c);
    }
    v
}

/// The bytes of `x` (as a 32-bit two's complement word), least
/// significant first.
pub open spec fn le_bytes(x: i32) -> Seq<u8> {
    let u = x as u32;
    seq![
        (u % 256) as u8,
        ((u / 256) % 256) as u8,
        ((u / 65536) % 256) as u8,
        (u / 16777216) as u8,
    ]
}

/// The bytes of `x`, most significant first.
pub open spec fn be_bytes(x: i32) -> Seq<u8> {
    le_bytes(x).reverse()
}

/// `b` is `x` in one of the two byte orders a machine can have.
pub open spec fn native_encoding(b: Seq<u8>, x: i32) -> bool {
    b == le_bytes(x) || b == be_bytes(x)
}

/// `writes` is what hashing each `(grp, qty)` of `entries` in turn feeds a
/// hasher: two writes per entry, the grp id's bytes then the quantity's,
/// each in the machine's byte order.
pub open spec fn hash_writes_of(writes: Seq<Seq<u8>>, entries: Seq<(i32, i32)>) -> bool {
    &&& writes.len() == 2 * entries.len()
    &&& forall|i: int|
        0 <= i < entries.len() ==> native_encoding(#[trigger] writes[2 * i], entries[i].0)
            && native_encoding(writes[2 * i + 1], entries[i].1)
}

/// `x.to_ne_bytes()`: the bytes of `x` in the machine's byte order, which
/// is what hashing an `i32` feeds a hasher. The documentation gives that
/// order as the machine's, little- or big-endian; which of the two it is
/// depends on the machine, so the contract leaves it open.
#[verifier::external_body]
fn ne_bytes(x: i32) -> (b: [u8; 4])
    ensures
        native_encoding(b@, x),
{
    x.to_ne_bytes()
}

/// The content hash a collection snapshot is deduplicated by: the default
/// hasher fed each grp id and quantity of `sorted_entries(collection)` in
/// turn, in the machine's byte order, and its 64-bit result taken as an
/// `i64`. The hasher's algorithm is the standard library's, so its output
/// is stated through `DefaultHasher::spec_finish`.
pub fn compute_collection_hash(collection: &HashMap<i32, i32>) -> (h: i64)
    ensures
        exists|writes: Seq<Seq<u8>>|
            hash_writes_of(writes, canonical_entries(collection@))
                && h == DefaultHasher::spec_finish(writes) as i64,
{
    broadcast use vstd::array::group_array_axioms;

    let entries = sorted_entries(collection);
    let mut hasher = DefaultHasher::new();
    let mut i: usize = 0;
    while i < entries.len()
        invariant
            i <= entries@.len(),
            hash_writes_of(hasher@, entries@.take(i as int)),
        decreases entries@.len() - i,
    {
        let (g, q) = entries[i];
        let gb = ne_bytes(g);
        let qb = ne_bytes(q);
        let ghost before = hasher@;
        hasher.write(gb.as_slice());
        hasher.write(qb.as_slice());
        proof {
            let t = entries@.take(i as int + 1);
            assert(hasher@ == before.push(gb@).push(qb@));
            assert forall|k: int| 0 <= k < t.len() implies native_encoding(
                #[trigger] hasher@[2 * k],
                t[k].0,
            ) && native_encoding(hasher@[2 * k + 1], t[k].1) by {
                if k < i {
                    assert(t[k] == entries@.take(i as int)[k]);
                    assert(hasher@[2 * k] == before[2 * k]);
                    assert(hasher@[2 * k + 1] == before[2 * k + 1]);
                } else {
                    assert(t[k] == entries@[i as int]);
                }
            }
        }
        i += 1;
    }
    let h: u64 = hasher.finish();
    proof {
        assert(entries@.take(entries@.len() as int) =~= entries@);
    }
    h as i64
}

/// The WHERE clause of a history query bounded by `from_ts` (inclusive)
/// and `to_ts` (inclusive), with parameters numbered in order.
pub open spec fn time_filter_clause(from_ts: Option<i64>, to_ts: Option<i64>) -> Seq<char> {
    match (from_ts, to_ts) {
        (None, None) => ""@,
        (Some(_), None) => "WHERE timestamp >= ?1"@,
        (None, Some(_)) => "WHERE timestamp <= ?1"@,
        (Some(_), Some(_)) => "WHERE timestamp >= ?1 AND timestamp <= ?2"@,
    }
}

/// The parameters of `time_filter_clause`, in order.
pub open spec fn time_filter_params(from_ts: Option<i64>, to_ts: Option<i64>) -> Seq<i64> {
    (match from_ts {
        Some(f) => seq![f],
        None => seq![],
    }) + (match to_ts {
        Some(t) => seq![t],
        None => seq![],
    })
}

/// The timestamp filter of a history query: the WHERE clause (empty when
/// neither bound is given) and its parameters.
pub fn build_time_filter(from_ts: Option<i64>, to_ts: Option<i64>) -> (r: (String, Vec<i64>))
    ensures
        r.0@ == time_filter_clause(from_ts, to_ts),
        r.1@ == time_filter_params(from_ts, to_ts),
{
    let mut params: Vec<i64> = Vec::new();
    let clause = match (from_ts, to_ts) {
        (None, None) => {
            proof {
                reveal_strlit("");
            }
            String::new()
        },
        (Some(f), None) => {
            params.push(f);
            String::from_str("WHERE timestamp >= ?1")
        },
        (None, Some(t)) => {
            params.push(t);
            String::from_str("WHERE timestamp <= ?1")
        },
        (Some(f), Some(t)) => {
            params.push(f);
            params.push(t);
            String::from_str("WHERE timestamp >= ?1 AND timestamp <= ?2")
        },
    };
    proof {
        assert(params@ =~= time_filter_params(from_ts, to_ts));
    }
    (clause, params)
}

/// The conditions of a card-grant query, numbered in order: the time bounds
/// of `time_filter_clause` and then, with a grp filter, `grp_id = ?n`.
pub open spec fn grant_conditions(from_ts: Option<i64>, to_ts: Option<i64>, grp: Option<i32>) -> Seq<Seq<char>> {
    let time: Seq<Seq<char>> = match (from_ts, to_ts) {
        (None, None) => seq![],
        (Some(_), None) => seq!["timestamp >= ?1"@],
        (None, Some(_)) => seq!["timestamp <= ?1"@],
        (Some(_), Some(_)) => seq!["timestamp >= ?1"@, "timestamp <= ?2"@],
    };
    match grp {
        None => time,
        Some(_) => time.push(if time.len() == 0 {
            "grp_id = ?1"@
        } else if time.len() == 1 {
            "grp_id = ?2"@
        } else {
            "grp_id = ?3"@
        }),
    }
}

/// The WHERE clause and parameters of a card-grant query: the conditions
/// joined by `" AND "` after `"WHERE "`, or empty without conditions; the
/// parameters are the bounds and the grp id, in order.
pub fn build_grant_filter(from_ts: Option<i64>, to_ts: Option<i64>, grp: Option<i32>) -> (r: (String, Vec<i64>))
    ensures
        r.0@ == (if grant_conditions(from_ts, to_ts, grp).len() == 0 {
            ""@
        } else {
            "WHERE "@ + joined_by(grant_conditions(from_ts, to_ts, grp), " AND "@)
        }),
        r.1@ == time_filter_params(from_ts, to_ts) + (match grp {
            Some(g) => seq![g as i64],
            None => seq![],
        }),
{
    let mut conds: Vec<String> = Vec::new();
    let mut params: Vec<i64> = Vec::new();
    match from_ts {
        Some(f) => {
            params.push(f);
            conds.push(owned("timestamp >= ?1"));
        },
        None => {},
    }
    match to_ts {
        Some(t) => {
            params.push(t);
            if params.len() == 1 {
                conds.push(owned("timestamp <= ?1"));
            } else {
                conds.push(owned("timestamp <= ?2"));
            }
        },
        None => {},
    }
    match grp {
        Some(g) => {
            params.push(g as i64);
            if params.len() == 1 {
                conds.push(owned("grp_id = ?1"));
            } else if params.len() == 2 {
                conds.push(owned("grp_id = ?2"));
            } else {
                conds.push(owned("grp_id = ?3"));
            }
        },
        None => {},
    }
    proof {
        assert(str_views(conds@) =~= grant_conditions(from_ts, to_ts, grp));
        assert(params@ =~= time_filter_params(from_ts, to_ts) + (match grp {
            Some(g) => seq![g as i64],
            None => seq![],
        }));
    }
    if conds.len() == 0 {
        proof {
            reveal_strlit("");
        }
        (String::new(), params)
    } else {
        let mut clause = owned("WHERE ");
        let j = join_strings(&conds, " AND ");
        push_str(&mut clause, j.as_str());
        (clause, params)
    }
}

/// Seconds in a day.
pub const SECONDS_PER_DAY: i64 = 86400;

/// The retention cutoffs of a prune at `now`: snapshots newer than the
/// first are all kept, those between the two are thinned to one a week,
/// older ones to one a month.
pub fn retention_cutoffs(now: i64, daily_retention_days: u32, weekly_retention_days: u32) -> (r: (
    i64,
    i64,
))
    requires
        now - daily_retention_days * SECONDS_PER_DAY >= i64::MIN,
        now - weekly_retention_days * SECONDS_PER_DAY >= i64::MIN,
    ensures
        r.0 == now - daily_retention_days * SECONDS_PER_DAY,
        r.1 == now - weekly_retention_days * SECONDS_PER_DAY,
{
    let daily = daily_retention_days as i64 * SECONDS_PER_DAY;
    let weekly = weekly_retention_days as i64 * SECONDS_PER_DAY;
    (now - daily, now - weekly)
}

} // verus!
