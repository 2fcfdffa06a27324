//! Turning `zfs list` output into what the planner and the jobs work
//! on: the pools to list, the sender's snapshots (filtered, oldest
//! first) and its bookmarks.

use vstd::prelude::*;

use crate::plan::{BookmarkRef, CompiledFilter};
use crate::protocol::SnapshotEntry;
use crate::schema::FilesystemFilter;
use crate::text::{chars_of, find_char, index_of_from, parse_unsigned, parse_unsigned_chars, string_of};

verus! {

broadcast use vstd::seq_lib::group_to_multiset_ensures;

// ---------------------------------------------------------------------
// Pool roots
// ---------------------------------------------------------------------

/// `a` sorts strictly before `b`, character by character (the order of
/// `String`, since UTF-8 keeps code-point order).
pub open spec fn lex_lt(a: Seq<char>, b: Seq<char>) -> bool
    decreases a.len(),
{
    if a.len() == 0 {
        b.len() > 0
    } else if b.len() == 0 {
        false
    } else if a[0] != b[0] {
        a[0] < b[0]
    } else {
        lex_lt(a.drop_first(), b.drop_first())
    }
}

pub(crate) proof fn lemma_lex_trichotomy(a: Seq<char>, b: Seq<char>)
    ensures
        a == b || lex_lt(a, b) || lex_lt(b, a),
        !(lex_lt(a, b) && lex_lt(b, a)),
        !lex_lt(a, a),
    decreases a.len(),
{
    if a.len() > 0 && b.len() > 0 && a[0] == b[0] {
        lemma_lex_trichotomy(a.drop_first(), b.drop_first());
        if a.drop_first() == b.drop_first() {
            assert(a =~= seq![a[0]] + a.drop_first());
            assert(b =~= seq![b[0]] + b.drop_first());
        }
    }
    if a.len() > 0 {
        lemma_lex_trichotomy(a.drop_first(), a.drop_first());
    }
}

pub(crate) proof fn lemma_lex_transitive(a: Seq<char>, b: Seq<char>, c: Seq<char>)
    requires
        lex_lt(a, b),
        lex_lt(b, c),
    ensures
        lex_lt(a, c),
    decreases a.len(),
{
    if a.len() > 0 && b.len() > 0 && c.len() > 0 && a[0] == b[0] && b[0] == c[0] {
        lemma_lex_transitive(a.drop_first(), b.drop_first(), c.drop_first());
    }
}

pub(crate) fn lex_less(a: &Vec<char>, b: &Vec<char>) -> (r: bool)
    ensures
        r == lex_lt(a@, b@),
{
    let mut i: usize = 0;
    assert(a@.subrange(0, a@.len() as int) =~= a@);
    assert(b@.subrange(0, b@.len() as int) =~= b@);
    while i < a.len() && i < b.len() && a[i] == b[i]
        invariant
            i <= a@.len(),
            i <= b@.len(),
            lex_lt(a@, b@) == lex_lt(a@.subrange(i as int, a@.len() as int), b@.subrange(i as int, b@.len() as int)),
        decreases a.len() - i,
    {
        proof {
            let sa = a@.subrange(i as int, a@.len() as int);
            let sb = b@.subrange(i as int, b@.len() as int);
            assert(sa.drop_first() =~= a@.subrange(i + 1, a@.len() as int));
            assert(sb.drop_first() =~= b@.subrange(i + 1, b@.len() as int));
        }
        i += 1;
    }
    if i == a.len() {
        i < b.len()
    } else if i == b.len() {
        false
    } else {
        a[i] < b[i]
    }
}

/// The pool a filter lives in: its path up to the first `/`.
pub open spec fn pool_of(path: Seq<char>) -> Seq<char> {
    path.subrange(0, index_of_from(path, '/', 0))
}

/// Some of the first `k` filters lives in pool `p`.
pub open spec fn pool_listed(filters: Seq<FilesystemFilter>, k: int, p: Seq<char>) -> bool {
    exists|i: int| 0 <= i < k && pool_of((#[trigger] filters[i]).path@) == p
}

/// The texts of some strings.
pub open spec fn texts(v: Seq<String>) -> Seq<Seq<char>> {
    v.map_values(|s: String| s@)
}

/// Some character vector of `roots` reads `p`.
pub open spec fn in_roots(roots: Seq<Vec<char>>, p: Seq<char>) -> bool {
    exists|i: int| 0 <= i < roots.len() && (#[trigger] roots[i])@ == p
}

/// Strictly increasing: sorted and free of duplicates.
pub open spec fn strictly_sorted(v: Seq<Seq<char>>) -> bool {
    forall|i: int, j: int| 0 <= i < j < v.len() ==> lex_lt(#[trigger] v[i], #[trigger] v[j])
}

/// The pools the filters live in, each once, in order: the roots one
/// recursive `zfs list` covers every filter from.
pub fn pool_roots(filters: &[FilesystemFilter]) -> (r: Vec<String>)
    ensures
        strictly_sorted(texts(r@)),
        forall|p: Seq<char>| #[trigger] texts(r@).contains(p) <==> pool_listed(filters@, filters@.len() as int, p),
{
    let mut roots: Vec<Vec<char>> = Vec::new();
    let mut k: usize = 0;
    while k < filters.len()
        invariant
            k <= filters@.len(),
            forall|i: int, j: int| 0 <= i < j < roots@.len() ==> lex_lt(#[trigger] roots@[i]@, #[trigger] roots@[j]@),
            forall|p: Seq<char>| #[trigger] in_roots(roots@, p) <==> pool_listed(filters@, k as int, p),
        decreases filters.len() - k,
    {
        let v = chars_of(filters[k].path.as_str());
        let slash = find_char(&v, '/', 0);
        let pool = crate::text::slice_chars(v.as_slice(), 0, slash);
        assert(pool@ == pool_of(filters@[k as int].path@));
        // Find where `pool` goes.
        let mut pos: usize = 0;
        while pos < roots.len() && lex_less(&roots[pos], &pool)
            invariant
                pos <= roots@.len(),
                forall|i: int| 0 <= i < pos ==> lex_lt(#[trigger] roots@[i]@, pool@),
            decreases roots.len() - pos,
        {
            pos += 1;
        }
        let present = pos < roots.len() && crate::text::chars_eq(roots[pos].as_slice(), pool.as_slice());
        if !present {
            let ghost old_roots = roots@;
            proof {
                // Everything from `pos` on sorts after `pool`.
                assert forall|i: int| pos <= i < old_roots.len() implies lex_lt(pool@, #[trigger] old_roots[i]@) by {
                    lemma_lex_trichotomy(old_roots[pos as int]@, pool@);
                    if i > pos {
                        lemma_lex_transitive(pool@, old_roots[pos as int]@, old_roots[i]@);
                    }
                }
            }
            roots.insert(pos, pool);
            proof {
                assert forall|i: int, j: int| 0 <= i < j < roots@.len() implies lex_lt(#[trigger] roots@[i]@, #[trigger] roots@[j]@) by {
                    if j == pos {
                    } else if i == pos {
                    } else if i < pos && j > pos {
                        lemma_lex_transitive(roots@[i]@, roots@[pos as int]@, roots@[j]@);
                    }
                }
                assert forall|p: Seq<char>| #[trigger] in_roots(roots@, p) <==> pool_listed(filters@, k + 1, p) by {
                    if pool_listed(filters@, k + 1, p) {
                        let i = choose|i: int| 0 <= i < k + 1 && pool_of((#[trigger] filters@[i]).path@) == p;
                        if i == k {
                            assert(roots@[pos as int]@ == p);
                        } else {
                            assert(pool_listed(filters@, k as int, p));
                            assert(in_roots(old_roots, p));
                            let w = choose|w: int| 0 <= w < old_roots.len() && (#[trigger] old_roots[w])@ == p;
                            if w < pos {
                                assert(roots@[w]@ == p);
                            } else {
                                assert(roots@[w + 1]@ == p);
                            }
                        }
                    }
                    if in_roots(roots@, p) {
                        let w = choose|w: int| 0 <= w < roots@.len() && (#[trigger] roots@[w])@ == p;
                        if w == pos {
                            assert(pool_of(filters@[k as int].path@) == p);
                        } else if w < pos {
                            assert(old_roots[w]@ == p);
                            assert(in_roots(old_roots, p));
                        } else {
                            assert(old_roots[w - 1]@ == p);
                            assert(in_roots(old_roots, p));
                        }
                    }
                }
            }
        } else {
            proof {
                assert forall|p: Seq<char>| #[trigger] in_roots(roots@, p) <==> pool_listed(filters@, k + 1, p) by {
                    if pool_listed(filters@, k + 1, p) {
                        let i = choose|i: int| 0 <= i < k + 1 && pool_of((#[trigger] filters@[i]).path@) == p;
                        if i == k {
                            assert(roots@[pos as int]@ == p);
                        } else {
                            assert(pool_listed(filters@, k as int, p));
                        }
                    }
                    if in_roots(roots@, p) {
                        assert(pool_listed(filters@, k as int, p));
                        let i = choose|i: int| 0 <= i < k && pool_of((#[trigger] filters@[i]).path@) == p;
                        assert(0 <= i < k + 1);
                    }
                }
            }
        }
        k += 1;
    }
    let mut out: Vec<String> = Vec::new();
    let mut i: usize = 0;
    while i < roots.len()
        invariant
            i <= roots@.len(),
            out@.len() == i,
            forall|j: int| 0 <= j < i ==> (#[trigger] out@[j])@ == roots@[j]@,
        decreases roots.len() - i,
    {
        out.push(crate::text::string_from_chars(roots[i].as_slice()));
        i += 1;
    }
    proof {
        let ov = texts(out@);
        assert forall|a: int, b: int| 0 <= a < b < ov.len() implies lex_lt(#[trigger] ov[a], #[trigger] ov[b]) by {
            assert(ov[a] == roots@[a]@ && ov[b] == roots@[b]@);
        }
        assert forall|p: Seq<char>| #[trigger] ov.contains(p) <==> pool_listed(filters@, filters@.len() as int, p) by {
            if ov.contains(p) {
                let w = choose|w: int| 0 <= w < ov.len() && ov[w] == p;
                assert(roots@[w]@ == p);
                assert(in_roots(roots@, p));
            }
            if pool_listed(filters@, filters@.len() as int, p) {
                assert(in_roots(roots@, p));
                let w = choose|w: int| 0 <= w < roots@.len() && (#[trigger] roots@[w])@ == p;
                assert(ov[w] == p);
            }
        }
    }
    out
}

// ---------------------------------------------------------------------
// Snapshots and bookmarks
// ---------------------------------------------------------------------

/// One `zfs list` entry as the inventory reads it.
#[derive(Debug, Clone)]
pub struct ListedEntry {
    /// The full name (`dataset@snap` or `dataset#bookmark`).
    pub name: String,
    /// The part after `@`, for a snapshot.
    pub snapshot_name: Option<String>,
    /// The `guid` property, when listed.
    pub guid: Option<String>,
    pub createtxg: String,
}

/// A decimal `u64`, as `str::parse::<u64>` reads it.
pub open spec fn u64_of(s: Seq<char>) -> Option<nat> {
    parse_unsigned(s, u64::MAX as nat)
}

fn parse_u64(s: &str) -> (r: Option<u64>)
    ensures
        match u64_of(s@) {
            Some(n) => r == Some(n as u64),
            None => r is None,
        },
{
    let v = chars_of(s);
    assert(v@.subrange(0, v@.len() as int) =~= v@);
    parse_unsigned_chars(&v, 0, v.len(), 0xffff_ffff_ffff_ffff)
}

/// The snapshot a listing entry describes, when it is one with a GUID
/// and a createtxg that read as integers.
pub open spec fn entry_snapshot(e: ListedEntry) -> Option<(Seq<char>, nat, nat)> {
    match (e.snapshot_name, e.guid) {
        (Some(n), Some(g)) => match (u64_of(g@), u64_of(e.createtxg@)) {
            (Some(guid), Some(txg)) => Some((n@, guid, txg)),
            _ => None,
        },
        _ => None,
    }
}

/// The snapshot a listing entry describes, if it is a usable one.
pub fn snapshot_entry(e: &ListedEntry) -> (r: Option<SnapshotEntry>)
    ensures
        match entry_snapshot(*e) {
            Some(t) => r matches Some(s) && s.name@ == t.0 && s.guid == t.1 && s.createtxg == t.2,
            None => r is None,
        },
{
    let name = match &e.snapshot_name {
        Some(n) => n,
        None => return None,
    };
    let g = match &e.guid {
        Some(g) => g,
        None => return None,
    };
    let guid = match parse_u64(g.as_str()) {
        Some(x) => x,
        None => return None,
    };
    let createtxg = match parse_u64(e.createtxg.as_str()) {
        Some(x) => x,
        None => return None,
    };
    Some(SnapshotEntry { name: name.clone(), guid, createtxg })
}

/// The bookmark a listing entry describes: its leaf (after the first
/// `#`), GUID and createtxg, when all read.
pub open spec fn entry_bookmark(e: ListedEntry) -> Option<(Seq<char>, nat, nat)> {
    let n = e.name@;
    let h = index_of_from(n, '#', 0);
    if h >= n.len() {
        None
    } else {
        match e.guid {
            Some(g) => match (u64_of(g@), u64_of(e.createtxg@)) {
                (Some(guid), Some(txg)) => Some((n.subrange(h + 1, n.len() as int), guid, txg)),
                _ => None,
            },
            None => None,
        }
    }
}

/// The bookmark a listing entry describes, if it is a usable one.
pub fn bookmark_entry(e: &ListedEntry) -> (r: Option<BookmarkRef>)
    ensures
        match entry_bookmark(*e) {
            Some(t) => r matches Some(b) && b.leaf@ == t.0 && b.guid == t.1 && b.createtxg == t.2,
            None => r is None,
        },
{
    let v = chars_of(e.name.as_str());
    let h = find_char(&v, '#', 0);
    if h >= v.len() {
        return None;
    }
    let g = match &e.guid {
        Some(g) => g,
        None => return None,
    };
    let guid = match parse_u64(g.as_str()) {
        Some(x) => x,
        None => return None,
    };
    let createtxg = match parse_u64(e.createtxg.as_str()) {
        Some(x) => x,
        None => return None,
    };
    Some(BookmarkRef { leaf: string_of(&v, h + 1, v.len()), guid, createtxg })
}

/// A snapshot entry as plain values: name, GUID, createtxg.
pub open spec fn snap_view(s: SnapshotEntry) -> (Seq<char>, u64, u64) {
    (s.name@, s.guid, s.createtxg)
}

/// Snapshot entries as plain values.
pub open spec fn snap_views(v: Seq<SnapshotEntry>) -> Seq<(Seq<char>, u64, u64)> {
    v.map_values(|s: SnapshotEntry| snap_view(s))
}

/// The entries of `s` with createtxg `k`, in order.
pub open spec fn with_txg(s: Seq<(Seq<char>, u64, u64)>, k: u64) -> Seq<(Seq<char>, u64, u64)>
    decreases s.len(),
{
    if s.len() == 0 {
        Seq::empty()
    } else {
        with_txg(s.drop_last(), k) + if s.last().2 == k { seq![s.last()] } else { Seq::empty() }
    }
}

proof fn lemma_with_txg_append(a: Seq<(Seq<char>, u64, u64)>, b: Seq<(Seq<char>, u64, u64)>, k: u64)
    ensures
        with_txg(a + b, k) == with_txg(a, k) + with_txg(b, k),
    decreases b.len(),
{
    if b.len() == 0 {
        assert(a + b =~= a);
        assert(with_txg(a, k) + with_txg(b, k) =~= with_txg(a, k));
    } else {
        lemma_with_txg_append(a, b.drop_last(), k);
        assert((a + b).drop_last() =~= a + b.drop_last());
        assert((a + b).last() == b.last());
        let t = if b.last().2 == k { seq![b.last()] } else { Seq::empty() };
        assert(with_txg(a, k) + with_txg(b.drop_last(), k) + t =~= with_txg(a, k) + (with_txg(b.drop_last(), k) + t));
    }
}

proof fn lemma_with_txg_none(b: Seq<(Seq<char>, u64, u64)>, k: u64)
    requires
        forall|i: int| 0 <= i < b.len() ==> (#[trigger] b[i]).2 != k,
    ensures
        with_txg(b, k) == Seq::<(Seq<char>, u64, u64)>::empty(),
    decreases b.len(),
{
    if b.len() > 0 {
        lemma_with_txg_none(b.drop_last(), k);
        assert(b.last() == b[b.len() - 1]);
    }
}

/// The usable snapshots among the first `n` entries that `keep` accepts
/// by name, in listing order.
pub open spec fn kept_snapshots(es: Seq<ListedEntry>, keep: spec_fn(Seq<char>) -> bool, n: int) -> Seq<(Seq<char>, u64, u64)>
    decreases n,
{
    if n <= 0 {
        Seq::empty()
    } else {
        let a = kept_snapshots(es, keep, n - 1);
        match entry_snapshot(es[n - 1]) {
            Some(t) => if keep(t.0) { a.push((t.0, t.1 as u64, t.2 as u64)) } else { a },
            None => a,
        }
    }
}

/// Oldest first: createtxg never decreases.
pub open spec fn txg_sorted(s: Seq<(Seq<char>, u64, u64)>) -> bool {
    forall|i: int, j: int| 0 <= i < j < s.len() ==> (#[trigger] s[i]).2 <= (#[trigger] s[j]).2
}

/// Whether the filter keeps a snapshot name.
pub open spec fn filter_keeps(f: CompiledFilter) -> spec_fn(Seq<char>) -> bool {
    |n: Seq<char>| match f.pattern() {
        None => true,
        Some(p) => crate::pattern::regex_is_match(p, n),
    }
}

/// The sender's snapshots from a listing: the usable ones the filter
/// keeps, oldest first by createtxg, listing order kept among equal
/// createtxg.
pub fn sender_snapshots(entries: &[ListedEntry], filter: &CompiledFilter) -> (r: Vec<SnapshotEntry>)
    ensures
        txg_sorted(snap_views(r@)),
        forall|k: u64| #[trigger] with_txg(snap_views(r@), k)
            == with_txg(kept_snapshots(entries@, filter_keeps(*filter), entries@.len() as int), k),
        r@.len() == kept_snapshots(entries@, filter_keeps(*filter), entries@.len() as int).len(),
{
    let ghost keep = filter_keeps(*filter);
    let mut out: Vec<SnapshotEntry> = Vec::new();
    let mut i: usize = 0;
    while i < entries.len()
        invariant
            i <= entries@.len(),
            keep == filter_keeps(*filter),
            txg_sorted(snap_views(out@)),
            forall|k: u64| #[trigger] with_txg(snap_views(out@), k)
                == with_txg(kept_snapshots(entries@, keep, i as int), k),
            out@.len() == kept_snapshots(entries@, keep, i as int).len(),
        decreases entries.len() - i,
    {
        let ghost kept_before = kept_snapshots(entries@, keep, i as int);
        match snapshot_entry(&entries[i]) {
            Some(x) => {
                if filter.matches(x.name.as_str()) {
                    // After every entry with createtxg at most x's.
                    let mut pos: usize = out.len();
                    while pos > 0 && out[pos - 1].createtxg > x.createtxg
                        invariant
                            pos <= out@.len(),
                            forall|j: int| pos <= j < out@.len() ==> (#[trigger] out@[j]).createtxg > x.createtxg,
                        decreases pos,
                    {
                        pos -= 1;
                    }
                    let ghost before = snap_views(out@);
                    let ghost xv = snap_view(x);
                    proof {
                        if pos > 0 {
                            assert forall|j: int| 0 <= j < pos implies (#[trigger] before[j]).2 <= xv.2 by {
                                assert(before[j].2 <= before[pos - 1].2);
                            }
                        }
                    }
                    out.insert(pos, x);
                    proof {
                        let after = snap_views(out@);
                        let a = before.subrange(0, pos as int);
                        let b = before.subrange(pos as int, before.len() as int);
                        assert(before =~= a + b);
                        assert(after =~= a + seq![xv] + b);
                        assert forall|j: int, l: int| 0 <= j < l < after.len() implies (#[trigger] after[j]).2 <= (#[trigger] after[l]).2 by {
                            if j < pos && l < pos {
                                assert(after[j] == before[j] && after[l] == before[l]);
                            } else if j < pos && l == pos {
                            } else if j < pos && l > pos {
                                assert(after[j] == before[j] && after[l] == before[l - 1]);
                            } else if j == pos {
                                assert(after[l] == before[l - 1]);
                            } else {
                                assert(after[j] == before[j - 1] && after[l] == before[l - 1]);
                            }
                        }
                        assert(kept_snapshots(entries@, keep, i + 1) == kept_before.push(xv));
                        assert forall|k: u64| #[trigger] with_txg(after, k) == with_txg(kept_before.push(xv), k) by {
                            lemma_with_txg_append(a + seq![xv], b, k);
                            lemma_with_txg_append(a, seq![xv], k);
                            lemma_with_txg_append(a, b, k);
                            let e = Seq::<(Seq<char>, u64, u64)>::empty();
                            assert(seq![xv].drop_last() =~= e);
                            assert(kept_before.push(xv).drop_last() =~= kept_before);
                            assert(with_txg(e, k) == e);
                            let wa = with_txg(a, k);
                            let wb = with_txg(b, k);
                            assert(with_txg(before, k) == with_txg(kept_before, k));
                            assert(with_txg(before, k) == wa + wb);
                            if k == xv.2 {
                                lemma_with_txg_none(b, k);
                                assert(with_txg(seq![xv], k) =~= seq![xv]);
                                assert(with_txg(after, k) =~= wa + seq![xv]);
                                assert(with_txg(kept_before.push(xv), k) =~= (wa + wb) + seq![xv]);
                                assert(wb =~= e);
                                assert(wa + wb =~= wa);
                            } else {
                                assert(with_txg(seq![xv], k) =~= e);
                                assert(with_txg(after, k) =~= wa + wb);
                                assert(with_txg(kept_before.push(xv), k) =~= (wa + wb) + e);
                            }
                        }
                    }
                } else {
                    assert(kept_snapshots(entries@, keep, i + 1) == kept_before);
                }
            },
            None => {},
        }
        i += 1;
    }
    out
}

/// The usable bookmarks among the first `n` entries, in listing order.
pub open spec fn listed_bookmarks(es: Seq<ListedEntry>, n: int) -> Seq<(Seq<char>, nat, nat)>
    decreases n,
{
    if n <= 0 {
        Seq::empty()
    } else {
        match entry_bookmark(es[n - 1]) {
            Some(t) => listed_bookmarks(es, n - 1).push(t),
            None => listed_bookmarks(es, n - 1),
        }
    }
}

/// A bookmark as plain values.
pub open spec fn bookmark_view(b: BookmarkRef) -> (Seq<char>, nat, nat) {
    (b.leaf@, b.guid as nat, b.createtxg as nat)
}

/// The sender's bookmarks from a listing, in listing order.
pub fn sender_bookmarks(entries: &[ListedEntry]) -> (r: Vec<BookmarkRef>)
    ensures
        r@.map_values(|b: BookmarkRef| bookmark_view(b)) == listed_bookmarks(entries@, entries@.len() as int),
{
    let mut out: Vec<BookmarkRef> = Vec::new();
    let mut i: usize = 0;
    while i < entries.len()
        invariant
            i <= entries@.len(),
            out@.map_values(|b: BookmarkRef| bookmark_view(b)) == listed_bookmarks(entries@, i as int),
        decreases entries.len() - i,
    {
        match bookmark_entry(&entries[i]) {
            Some(b) => out.push(b),
            None => {},
        }
        assert(out@.map_values(|b: BookmarkRef| bookmark_view(b)) =~= listed_bookmarks(entries@, i + 1));
        i += 1;
    }
    out
}

} // verus!
