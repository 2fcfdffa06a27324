//! What the HTTP handlers decide before they touch `zfs` or the state
//! database: validating the names a request carries, clamping result
//! limits, and where a resumed event stream picks up.

use vstd::prelude::*;

use crate::api::SnapshotHold;
use crate::names::{dataset_name_error, snapshot_leaf_error, validate_dataset_name, validate_snapshot_leaf};
use crate::text::{
    chars_contain_run, chars_of, chars_start_with, contains_seq, debug_form, debug_str, parse_i64,
    push_str, starts_with, to_owned_string,
};

verus! {

/// Query of the live event stream.
#[derive(Debug, Clone, Copy, Default)]
pub struct StreamEventsQuery {
    /// Resume after this event id.
    pub since: Option<i64>,
}

/// Query of the recent-events tail.
#[derive(Debug, Clone, Copy, Default)]
pub struct RecentEventsQuery {
    /// Most rows returned; 100 when absent, at least 1, at most 1000.
    pub limit: Option<i64>,
}

/// Query of a job's run history.
#[derive(Debug, Clone, Copy, Default)]
pub struct RunsQuery {
    /// Only runs started at or after (unix seconds).
    pub since: Option<i64>,
    /// Most rows returned; 100 when absent, at least 1, at most 1000.
    pub limit: Option<i64>,
}

/// Query of a dataset's snapshot list.
#[derive(Debug, Clone, Default)]
pub struct ListSnapshotsQuery {
    /// Only snapshots whose tag starts with this.
    pub prefix: Option<String>,
}

/// Query of the ARC size history.
#[derive(Debug, Clone, Copy, Default)]
pub struct ArcHistoryQuery {
    pub since: Option<i64>,
    /// Most rows returned; 1440 when absent, at least 1, at most 10000.
    pub limit: Option<i64>,
}

/// Query of the recent inbound transfers.
#[derive(Debug, Clone, Copy, Default)]
pub struct RecentTransfersQuery {
    /// Most rows returned; 50 when absent, at least 1, at most 500.
    pub limit: Option<i64>,
}

/// `limit`, or `default` when absent, clamped to `[lo, hi]`.
pub open spec fn clamped(limit: Option<i64>, default: i64, lo: i64, hi: i64) -> i64 {
    let v = match limit {
        Some(l) => l,
        None => default,
    };
    if v < lo { lo } else if v > hi { hi } else { v }
}

/// A result limit: `limit`, or `default` when absent, clamped to
/// `[lo, hi]`.
pub fn clamp_limit(limit: Option<i64>, default: i64, lo: i64, hi: i64) -> (r: i64)
    requires
        lo <= hi,
    ensures
        r == clamped(limit, default, lo, hi),
        lo <= r <= hi,
{
    let v = match limit {
        Some(l) => l,
        None => default,
    };
    if v < lo { lo } else if v > hi { hi } else { v }
}

/// The text of an optional string.
pub open spec fn opt_text(o: Option<&str>) -> Option<Seq<char>> {
    match o {
        Some(s) => Some(s@),
        None => None,
    }
}

/// Where a resumed event stream starts: the `Last-Event-ID` header the
/// browser sends on its own retry when it holds an integer, else the
/// `since` query parameter (a fresh stream's only way to name a cursor),
/// else the start; never below zero.
pub open spec fn resume_point(header: Option<Seq<char>>, since: Option<i64>) -> i64 {
    let h: Option<int> = match header {
        Some(v) => parse_i64(v),
        None => None,
    };
    let v: int = match h {
        Some(n) => n,
        None => match since {
            Some(s) => s as int,
            None => 0,
        },
    };
    if v < 0 { 0 } else { v as i64 }
}

/// The cursor a stream resumes after.
pub fn resume_from(header: Option<&str>, query: &StreamEventsQuery) -> (r: i64)
    ensures
        r == resume_point(opt_text(header), query.since),
        r >= 0,
{
    let parsed: Option<i64> = match header {
        Some(h) => crate::text::parse_i64_str(h),
        None => None,
    };
    let v: i64 = match parsed {
        Some(n) => n,
        None => match query.since {
            Some(s) => s,
            None => 0,
        },
    };
    if v < 0 { 0 } else { v }
}

/// The id after which live events are new to a client: the last replayed
/// event, or the client's own cursor when that is later (a caught-up
/// client gets an empty replay).
pub fn backlog_cursor(last_replayed: Option<u64>, since: i64) -> (r: u64)
    requires
        since >= 0,
    ensures
        r == (match last_replayed {
            Some(id) => if id >= since { id } else { since as u64 },
            None => since as u64,
        }),
{
    let a: u64 = match last_replayed {
        Some(id) => id,
        None => 0,
    };
    let b = since as u64;
    if a >= b { a } else { b }
}

/// Whether a live event goes out on a stream whose replay ended at
/// `cursor` (a peer's bridged stream uses its backlog's last id, or 0):
/// only events after it do, so nothing is delivered twice.
pub fn live_event_is_new(cursor: u64, id: u64) -> (r: bool)
    ensures
        r == (id > cursor),
{
    id > cursor
}

// ---------------------------------------------------------------------
// Names in requests
// ---------------------------------------------------------------------

/// Why a dataset named in a request is refused.
pub open spec fn dataset_request_error(name: Seq<char>) -> Option<Seq<char>> {
    match dataset_name_error(name) {
        Some(e) => Some("invalid dataset "@ + debug_form(name) + ": "@ + e),
        None => None,
    }
}

/// Why a snapshot tag named in a request is refused.
pub open spec fn snapshot_request_error(tag: Seq<char>) -> Option<Seq<char>> {
    match snapshot_leaf_error(tag) {
        Some(e) => Some("invalid snapshot name "@ + debug_form(tag) + ": "@ + e),
        None => None,
    }
}

/// Why a hold tag named in a request is refused (it is held to the
/// rules of a snapshot tag).
pub open spec fn hold_tag_request_error(tag: Seq<char>) -> Option<Seq<char>> {
    match snapshot_leaf_error(tag) {
        Some(e) => Some("invalid hold tag "@ + debug_form(tag) + ": "@ + e),
        None => None,
    }
}

fn framed(head: &str, name: &str, e: String) -> (r: String)
    ensures
        r@ == head@ + debug_form(name@) + ": "@ + e@,
{
    let mut m = to_owned_string(head);
    let d = debug_str(name);
    push_str(&mut m, d.as_str());
    push_str(&mut m, ": ");
    push_str(&mut m, e.as_str());
    m
}

/// Checks a dataset named in a request: it becomes a bare `zfs`
/// argument, so flag-like and escaping shapes are refused.
pub fn check_dataset(name: &str) -> (r: Result<(), String>)
    ensures
        crate::names::result_matches(r, dataset_request_error(name@)),
{
    match validate_dataset_name(name) {
        Ok(()) => Ok(()),
        Err(e) => Err(framed("invalid dataset ", name, e)),
    }
}

/// Checks a snapshot tag named in a request.
pub fn check_snapshot_leaf(tag: &str) -> (r: Result<(), String>)
    ensures
        crate::names::result_matches(r, snapshot_request_error(tag@)),
{
    match validate_snapshot_leaf(tag) {
        Ok(()) => Ok(()),
        Err(e) => Err(framed("invalid snapshot name ", tag, e)),
    }
}

/// Checks a hold tag named in a request.
pub fn check_hold_tag(tag: &str) -> (r: Result<(), String>)
    ensures
        crate::names::result_matches(r, hold_tag_request_error(tag@)),
{
    match validate_snapshot_leaf(tag) {
        Ok(()) => Ok(()),
        Err(e) => Err(framed("invalid hold tag ", tag, e)),
    }
}

/// Why a request to place hold `tag` on `name@snapshot` is refused:
/// a bad name, a bad tag, or a tag in the `arctern_` namespace the
/// replication machinery owns.
pub open spec fn create_hold_error(name: Seq<char>, snapshot: Seq<char>, tag: Seq<char>) -> Option<Seq<char>> {
    if dataset_request_error(name) is Some {
        dataset_request_error(name)
    } else if snapshot_request_error(snapshot) is Some {
        snapshot_request_error(snapshot)
    } else if hold_tag_request_error(tag) is Some {
        hold_tag_request_error(tag)
    } else if starts_with(tag, "arctern_"@) {
        Some("tags with the arctern_ prefix are reserved for the replication machinery"@)
    } else {
        None
    }
}

/// Checks a request to place a user hold.
pub fn check_create_hold(name: &str, snapshot: &str, tag: &str) -> (r: Result<(), String>)
    ensures
        crate::names::result_matches(r, create_hold_error(name@, snapshot@, tag@)),
{
    match check_dataset(name) {
        Err(e) => return Err(e),
        Ok(()) => {},
    }
    match check_snapshot_leaf(snapshot) {
        Err(e) => return Err(e),
        Ok(()) => {},
    }
    match check_hold_tag(tag) {
        Err(e) => return Err(e),
        Ok(()) => {},
    }
    let tv = chars_of(tag);
    let p = chars_of("arctern_");
    if chars_start_with(&tv, &p) {
        return Err(to_owned_string("tags with the arctern_ prefix are reserved for the replication machinery"));
    }
    Ok(())
}

/// A listed snapshot passes the `prefix` filter: its name holds
/// `@<prefix>`.
pub open spec fn snapshot_listed(name: Seq<char>, prefix: Option<Seq<char>>) -> bool {
    match prefix {
        None => true,
        Some(p) => contains_seq(name, seq!['@'] + p),
    }
}

/// Whether a listed snapshot passes the prefix filter.
pub fn snapshot_passes(name: &str, prefix: Option<&str>) -> (r: bool)
    ensures
        r == snapshot_listed(name@, opt_text(prefix)),
{
    match prefix {
        None => true,
        Some(p) => {
            let mut pat = to_owned_string("@");
            push_str(&mut pat, p);
            proof {
                reveal_strlit("@");
                assert(pat@ =~= seq!['@'] + p@);
            }
            let nv = chars_of(name);
            let pv = chars_of(pat.as_str());
            chars_contain_run(&nv, &pv)
        },
    }
}

/// The first index at or after `k` whose hold was placed later than `t`,
/// or `s.len()`.
pub open spec fn first_later(s: Seq<SnapshotHold>, t: u64, k: int) -> int
    decreases s.len() - k,
{
    if k < 0 || k >= s.len() {
        s.len() as int
    } else if s[k].timestamp > t {
        k
    } else {
        first_later(s, t, k + 1)
    }
}

/// The first `n` holds of `v` ordered by when they were placed, holds of
/// the same second in listing order: each goes after every hold placed
/// no later than it (a stable sort by timestamp).
pub open spec fn holds_by_time(v: Seq<SnapshotHold>, n: int) -> Seq<SnapshotHold>
    decreases n,
{
    if n <= 0 {
        Seq::empty()
    } else {
        let s = holds_by_time(v, n - 1);
        s.insert(first_later(s, v[n - 1].timestamp, 0), v[n - 1])
    }
}

proof fn lemma_first_later_bounds(s: Seq<SnapshotHold>, t: u64, k: int)
    requires
        0 <= k <= s.len(),
    ensures
        k <= first_later(s, t, k) <= s.len(),
        forall|q: int| k <= q < first_later(s, t, k) ==> s[q].timestamp <= t,
        first_later(s, t, k) < s.len() ==> s[first_later(s, t, k)].timestamp > t,
    decreases s.len() - k,
{
    if k < s.len() && s[k].timestamp <= t {
        lemma_first_later_bounds(s, t, k + 1);
    }
}

/// No hold in `s` was placed later than one listed after it.
pub open spec fn oldest_first(s: Seq<SnapshotHold>) -> bool {
    forall|i: int, j: int| 0 <= i < j < s.len() ==> (#[trigger] s[i]).timestamp <= (#[trigger] s[j]).timestamp
}

/// A snapshot's holds are listed oldest first, each hold once.
pub proof fn lemma_holds_oldest_first(v: Seq<SnapshotHold>, n: int)
    requires
        0 <= n <= v.len(),
    ensures
        oldest_first(holds_by_time(v, n)),
        holds_by_time(v, n).to_multiset() == v.subrange(0, n).to_multiset(),
    decreases n,
{
    broadcast use vstd::seq_lib::group_to_multiset_ensures;
    if n > 0 {
        lemma_holds_oldest_first(v, n - 1);
        let s = holds_by_time(v, n - 1);
        let x = v[n - 1];
        let p = first_later(s, x.timestamp, 0);
        lemma_first_later_bounds(s, x.timestamp, 0);
        let r = s.insert(p, x);
        assert(r == holds_by_time(v, n));
        assert forall|i: int, j: int| 0 <= i < j < r.len() implies (#[trigger] r[i]).timestamp <= (#[trigger] r[j]).timestamp by {
            if j < p {
                assert(r[i] == s[i] && r[j] == s[j]);
            } else if j == p {
                assert(r[i] == s[i]);
            } else if i < p {
                assert(r[i] == s[i] && r[j] == s[j - 1]);
            } else if i == p {
                assert(r[j] == s[j - 1]);
                assert(s[p].timestamp <= s[j - 1].timestamp || p == j - 1);
            } else {
                assert(r[i] == s[i - 1] && r[j] == s[j - 1]);
            }
        }
        assert(v.subrange(0, n) =~= v.subrange(0, n - 1).push(x));
        assert(r.to_multiset() =~= s.to_multiset().insert(x)) by {
            r.to_multiset_ensures();
            assert(r.remove(p) =~= s);
            assert(r[p] == x);
        }
    } else {
        assert(v.subrange(0, 0) =~= Seq::<SnapshotHold>::empty());
    }
}

/// A snapshot's holds as the API lists them: oldest first, holds of the
/// same second in the order `zfs holds` reported them.
pub fn sort_holds(v: Vec<SnapshotHold>) -> (r: Vec<SnapshotHold>)
    ensures
        r@ == holds_by_time(v@, v@.len() as int),
{
    let ghost all = v@;
    let n0 = v.len();
    let mut rest = v;
    let mut out: Vec<SnapshotHold> = Vec::new();
    let mut i: usize = 0;
    while rest.len() > 0
        invariant
            i + rest@.len() == all.len(),
            all.len() == n0,
            rest@ == all.subrange(i as int, all.len() as int),
            out@ == holds_by_time(all, i as int),
        decreases rest@.len(),
    {
        let x = rest.remove(0);
        assert(x == all[i as int]);
        let mut p: usize = 0;
        while p < out.len() && out[p].timestamp <= x.timestamp
            invariant
                p <= out@.len(),
                first_later(out@, x.timestamp, 0) == first_later(out@, x.timestamp, p as int),
            decreases out@.len() - p,
        {
            p += 1;
        }
        proof {
            lemma_first_later_bounds(out@, x.timestamp, p as int);
        }
        out.insert(p, x);
        i += 1;
    }
    assert(all.subrange(0, all.len() as int) =~= all);
    out
}

} // verus!
