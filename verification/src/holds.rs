//! Step holds and the replication cursor bookmark of one (dataset, job,
//! peer).
//!
//! - The step hold tag `arctern_step_J_<job>_P_<peer>` is placed on the
//!   `to` snapshot (and an incremental `from`) before a send begins, so a
//!   concurrent prune cannot destroy it mid-stream.
//! - The cursor bookmark `<dataset>#arctern_cursor_G_<guid>_J_<job>_P_<peer>`
//!   is created from `to` after a successful send; stale cursors of the
//!   same (job, peer) are destroyed only after the new one exists.
//!
//! The functions here decide names and which holds and bookmarks go;
//! the daemon performs the `zfs` commands.

use vstd::prelude::*;

use crate::protocol::SnapshotEntry;
use crate::text::{
    chars_end_with, chars_of, chars_start_with, ends_with, lower_hex, lower_hex_string, push_str,
    starts_with, str_eq, to_owned_string,
};

verus! {

/// `arctern_step_J_<job>_P_<peer>`.
pub open spec fn step_tag(job: Seq<char>, peer: Seq<char>) -> Seq<char> {
    "arctern_step_J_"@ + job + "_P_"@ + peer
}

/// The leaf of a cursor bookmark (the part after `#`).
pub open spec fn cursor_leaf(job: Seq<char>, peer: Seq<char>, guid: u64) -> Seq<char> {
    "arctern_cursor_G_"@ + lower_hex(guid as nat) + "_J_"@ + job + "_P_"@ + peer
}

/// `<dataset>#<cursor leaf>`.
pub open spec fn cursor_name(dataset: Seq<char>, job: Seq<char>, peer: Seq<char>, guid: u64) -> Seq<char> {
    dataset + seq!['#'] + cursor_leaf(job, peer, guid)
}

/// A cursor leaf of (job, peer), whatever its GUID.
pub open spec fn is_cursor_leaf(leaf: Seq<char>, job: Seq<char>, peer: Seq<char>) -> bool {
    starts_with(leaf, "arctern_cursor_G_"@) && ends_with(leaf, "_J_"@ + job + "_P_"@ + peer)
}

/// The hold tag of one replication step of `job` to `peer`.
pub fn step_hold_tag(job_name: &str, peer: &str) -> (r: String)
    ensures
        r@ == step_tag(job_name@, peer@),
{
    let mut r = to_owned_string("arctern_step_J_");
    push_str(&mut r, job_name);
    push_str(&mut r, "_P_");
    push_str(&mut r, peer);
    r
}

/// The GUID-suffixed cursor bookmark name: a new cursor is created under
/// a fresh name before stale ones are destroyed, so a crash in between
/// leaves at least one cursor alive.
pub fn cursor_bookmark_name(dataset: &str, job_name: &str, peer: &str, guid: u64) -> (r: String)
    ensures
        r@ == cursor_name(dataset@, job_name@, peer@, guid),
{
    let mut r = to_owned_string(dataset);
    push_str(&mut r, "#arctern_cursor_G_");
    let h = lower_hex_string(guid);
    push_str(&mut r, h.as_str());
    push_str(&mut r, "_J_");
    push_str(&mut r, job_name);
    push_str(&mut r, "_P_");
    push_str(&mut r, peer);
    proof {
        reveal_strlit("#arctern_cursor_G_");
        reveal_strlit("arctern_cursor_G_");
        assert("#arctern_cursor_G_"@ =~= seq!['#'] + "arctern_cursor_G_"@);
        assert(r@ =~= cursor_name(dataset@, job_name@, peer@, guid));
    }
    r
}

/// Whether `leaf` is a cursor bookmark leaf of (job, peer), any GUID.
pub fn is_cursor_bookmark_leaf(leaf: &str, job_name: &str, peer: &str) -> (r: bool)
    ensures
        r == is_cursor_leaf(leaf@, job_name@, peer@),
{
    let lv = chars_of(leaf);
    let p = chars_of("arctern_cursor_G_");
    let mut suffix = to_owned_string("_J_");
    push_str(&mut suffix, job_name);
    push_str(&mut suffix, "_P_");
    push_str(&mut suffix, peer);
    let sv = chars_of(suffix.as_str());
    chars_start_with(&lv, &p) && chars_end_with(&lv, &sv)
}

/// A cursor bookmark is always recognised as its own (job, peer)'s.
pub proof fn lemma_cursor_leaf_recognised(job: Seq<char>, peer: Seq<char>, guid: u64)
    ensures
        is_cursor_leaf(cursor_leaf(job, peer, guid), job, peer),
{
    let leaf = cursor_leaf(job, peer, guid);
    let pre = "arctern_cursor_G_"@;
    let suf = "_J_"@ + job + "_P_"@ + peer;
    assert(leaf =~= pre + (lower_hex(guid as nat) + suf));
    assert(leaf.subrange(0, pre.len() as int) =~= pre);
    assert(leaf.subrange(leaf.len() - suf.len(), leaf.len() as int) =~= suf);
}

/// `<dataset>@<snap>`.
pub open spec fn full_snapshot_name(dataset: Seq<char>, snap: Seq<char>) -> Seq<char> {
    dataset + seq!['@'] + snap
}

/// The snapshots a sweep considers: every filtered snapshot of the
/// dataset (by full name), then each extra name not already among them.
pub open spec fn candidate_names(dataset: Seq<char>, snaps: Seq<SnapshotEntry>, extra: Seq<Seq<char>>) -> Seq<Seq<char>> {
    add_missing(full_names(dataset, snaps, snaps.len() as int), extra, extra.len() as int)
}

/// The full names of the first `n` snapshots of `dataset`.
pub open spec fn full_names(dataset: Seq<char>, snaps: Seq<SnapshotEntry>, n: int) -> Seq<Seq<char>>
    decreases n,
{
    if n <= 0 {
        Seq::empty()
    } else {
        full_names(dataset, snaps, n - 1).push(full_snapshot_name(dataset, snaps[n - 1].name@))
    }
}

/// `names` followed by the first `n` of `extra` that are not yet present.
pub open spec fn add_missing(names: Seq<Seq<char>>, extra: Seq<Seq<char>>, n: int) -> Seq<Seq<char>>
    decreases n,
{
    if n <= 0 {
        names
    } else {
        let a = add_missing(names, extra, n - 1);
        if a.contains(extra[n - 1]) { a } else { a.push(extra[n - 1]) }
    }
}

fn contains_name(v: &Vec<String>, s: &str) -> (r: bool)
    ensures
        r == v@.map_values(|x: String| x@).contains(s@),
{
    let mut i: usize = 0;
    while i < v.len()
        invariant
            i <= v@.len(),
            forall|k: int| 0 <= k < i ==> v@[k]@ != s@,
        decreases v.len() - i,
    {
        if str_eq(v[i].as_str(), s) {
            assert(v@.map_values(|x: String| x@)[i as int] == s@);
            return true;
        }
        i += 1;
    }
    false
}

/// The full names a hold sweep of `dataset` considers.
pub fn candidates(dataset: &str, sender_snaps: &[SnapshotEntry], extra: &[&str]) -> (r: Vec<String>)
    ensures
        r@.map_values(|x: String| x@)
            == candidate_names(dataset@, sender_snaps@, extra@.map_values(|e: &str| e@)),
{
    let ghost base = full_names(dataset@, sender_snaps@, sender_snaps@.len() as int);
    let ghost ex = extra@.map_values(|e: &str| e@);
    let mut names: Vec<String> = Vec::new();
    let mut i: usize = 0;
    while i < sender_snaps.len()
        invariant
            i <= sender_snaps@.len(),
            names@.map_values(|x: String| x@) == full_names(dataset@, sender_snaps@, i as int),
        decreases sender_snaps.len() - i,
    {
        let mut n = to_owned_string(dataset);
        push_str(&mut n, "@");
        push_str(&mut n, sender_snaps[i].name.as_str());
        proof {
            reveal_strlit("@");
            assert(n@ =~= full_snapshot_name(dataset@, sender_snaps@[i as int].name@));
        }
        names.push(n);
        assert(names@.map_values(|x: String| x@) =~= full_names(dataset@, sender_snaps@, i + 1));
        i += 1;
    }
    let mut k: usize = 0;
    while k < extra.len()
        invariant
            k <= extra@.len(),
            ex == extra@.map_values(|e: &str| e@),
            names@.map_values(|x: String| x@) == add_missing(base, ex, k as int),
        decreases extra.len() - k,
    {
        let e = extra[k];
        if !contains_name(&names, e) {
            names.push(to_owned_string(e));
        }
        assert(names@.map_values(|x: String| x@) =~= add_missing(base, ex, k + 1));
        k += 1;
    }
    names
}

/// One hold reported by `zfs holds`: the snapshot and the tag.
#[derive(Debug, Clone)]
pub struct HoldRecord {
    pub dataset: String,
    pub tag: String,
}

/// The snapshots, in the order `zfs holds` reported them, that carry
/// `tag` and are not in `keep`: the holds a sweep releases.
pub open spec fn holds_to_release(holds: Seq<HoldRecord>, tag: Seq<char>, keep: Seq<Seq<char>>, n: int) -> Seq<Seq<char>>
    decreases n,
{
    if n <= 0 {
        Seq::empty()
    } else {
        let a = holds_to_release(holds, tag, keep, n - 1);
        let h = holds[n - 1];
        if h.tag@ == tag && !keep.contains(h.dataset@) { a.push(h.dataset@) } else { a }
    }
}

fn kept(keep: &[&str], s: &str) -> (r: bool)
    ensures
        r == keep@.map_values(|e: &str| e@).contains(s@),
{
    let mut i: usize = 0;
    while i < keep.len()
        invariant
            i <= keep@.len(),
            forall|k: int| 0 <= k < i ==> keep@[k]@ != s@,
        decreases keep.len() - i,
    {
        if str_eq(keep[i], s) {
            assert(keep@.map_values(|e: &str| e@)[i as int] == s@);
            return true;
        }
        i += 1;
    }
    false
}

/// Of the holds on the candidates, those of `tag` outside `keep`: each
/// gets one `zfs release`. Another job's or peer's tag is left alone.
pub fn releases(holds: &[HoldRecord], tag: &str, keep: &[&str]) -> (r: Vec<String>)
    ensures
        r@.map_values(|x: String| x@)
            == holds_to_release(holds@, tag@, keep@.map_values(|e: &str| e@), holds@.len() as int),
{
    let ghost kv = keep@.map_values(|e: &str| e@);
    let mut out: Vec<String> = Vec::new();
    let mut i: usize = 0;
    while i < holds.len()
        invariant
            i <= holds@.len(),
            kv == keep@.map_values(|e: &str| e@),
            out@.map_values(|x: String| x@) == holds_to_release(holds@, tag@, kv, i as int),
        decreases holds.len() - i,
    {
        let h = &holds[i];
        if str_eq(h.tag.as_str(), tag) && !kept(keep, h.dataset.as_str()) {
            out.push(h.dataset.clone());
        }
        assert(out@.map_values(|x: String| x@) =~= holds_to_release(holds@, tag@, kv, i + 1));
        i += 1;
    }
    out
}

/// The part of a bookmark name after `#`, if it has one.
pub open spec fn bookmark_leaf(name: Seq<char>) -> Option<Seq<char>> {
    let i = crate::text::index_of_from(name, '#', 0);
    if i < name.len() { Some(name.subrange(i + 1, name.len() as int)) } else { None }
}

/// The bookmarks among the first `n` of `names` that are stale cursors
/// of (job, peer): cursor leaves of that pair other than `cursor`.
pub open spec fn stale_cursor_names(names: Seq<String>, cursor: Seq<char>, job: Seq<char>, peer: Seq<char>, n: int) -> Seq<Seq<char>>
    decreases n,
{
    if n <= 0 {
        Seq::empty()
    } else {
        let a = stale_cursor_names(names, cursor, job, peer, n - 1);
        let b = names[n - 1]@;
        if b != cursor && bookmark_leaf(b) is Some && is_cursor_leaf(bookmark_leaf(b).unwrap(), job, peer) {
            a.push(b)
        } else {
            a
        }
    }
}

/// The bookmarks to destroy once the new cursor `cursor` exists: every
/// other cursor of the same (job, peer), in listing order.
pub fn stale_cursors(bookmarks: &[String], cursor: &str, job_name: &str, peer: &str) -> (r: Vec<String>)
    ensures
        r@.map_values(|x: String| x@)
            == stale_cursor_names(bookmarks@, cursor@, job_name@, peer@, bookmarks@.len() as int),
{
    let mut out: Vec<String> = Vec::new();
    let mut i: usize = 0;
    while i < bookmarks.len()
        invariant
            i <= bookmarks@.len(),
            out@.map_values(|x: String| x@) == stale_cursor_names(bookmarks@, cursor@, job_name@, peer@, i as int),
        decreases bookmarks.len() - i,
    {
        let b = bookmarks[i].as_str();
        let v = chars_of(b);
        let at = crate::text::find_char(&v, '#', 0);
        if at < v.len() && !str_eq(b, cursor) {
            let leaf = crate::text::string_of(&v, at + 1, v.len());
            if is_cursor_bookmark_leaf(leaf.as_str(), job_name, peer) {
                out.push(bookmarks[i].clone());
            }
        }
        assert(out@.map_values(|x: String| x@) =~= stale_cursor_names(bookmarks@, cursor@, job_name@, peer@, i + 1));
        i += 1;
    }
    out
}

/// What happens to the step holds after a successful send. With the new
/// cursor in place the cursor protects incrementality, so the tag comes
/// off everywhere, the sent snapshot included (`keep` is empty). When
/// the cursor could not be created, nothing else on the sender records
/// what the receiver has, so the hold on the sent snapshot stays.
pub fn commit_keep<'a>(cursor_created: bool, to_snap: &'a str) -> (r: Vec<&'a str>)
    ensures
        cursor_created ==> r@.len() == 0,
        !cursor_created ==> r@ == seq![to_snap],
{
    let mut keep: Vec<&'a str> = Vec::new();
    if !cursor_created {
        keep.push(to_snap);
        assert(keep@ =~= seq![to_snap]);
    }
    keep
}

} // verus!
