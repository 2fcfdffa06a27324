//! The retention-grid algorithm.
//!
//! Entries are bucketed by age, measured back from the youngest entry
//! (not from the wall clock, which protects against clock skew). The
//! first bucket is `(now - len_0, now]`, each later bucket starts where
//! the previous one ended. Within a bucket at most `keep_count` of the
//! OLDEST entries survive; entries older than the last bucket are
//! destroyed. Keeping the oldest is what makes the grid a grid: a
//! bucket's survivor ages into the next bucket and survives there too.

use vstd::prelude::*;

use crate::grid::{GridSpec, KeepCount, RetentionInterval};

verus! {

/// What the retention algorithm needs of a snapshot: its name and its
/// creation time in nanoseconds since the Unix epoch.
#[derive(Debug, Clone)]
pub struct SnapshotEntry {
    pub name: String,
    pub creation: i128,
}

/// The earliest instant the `time` crate represents
/// (-9999-01-01T00:00:00Z), in nanoseconds since the Unix epoch. Bucket
/// bounds saturate here instead of overflowing.
pub const EARLIEST_INSTANT_NANOS: i128 = -377_705_116_800_000_000_000i128;

pub open spec fn earliest() -> int {
    -377_705_116_800_000_000_000int
}

/// The creation time of the youngest of the first `m` entries (or of
/// the first entry when `m` is 0).
pub open spec fn max_creation_upto(entries: Seq<SnapshotEntry>, m: int) -> int
    decreases m,
{
    if m <= 1 {
        entries[0].creation as int
    } else {
        let prev = max_creation_upto(entries, m - 1);
        if entries[m - 1].creation > prev { entries[m - 1].creation as int } else { prev }
    }
}

/// The youngest creation time: the grid's `now`.
pub open spec fn now_of(entries: Seq<SnapshotEntry>) -> int {
    max_creation_upto(entries, entries.len() as int)
}

/// The exclusive lower bound of bucket `k`.
pub open spec fn lower(ivs: Seq<RetentionInterval>, now: int, k: int) -> int
    decreases k,
{
    let upper = if k <= 0 { now } else { lower(ivs, now, k - 1) };
    if upper - ivs[k].length >= earliest() {
        upper - ivs[k].length
    } else {
        earliest()
    }
}

/// The inclusive upper bound of bucket `k`.
pub open spec fn upper(ivs: Seq<RetentionInterval>, now: int, k: int) -> int {
    if k <= 0 { now } else { lower(ivs, now, k - 1) }
}

/// Bucket `k` holds the instant `c`.
pub open spec fn in_bucket(ivs: Seq<RetentionInterval>, now: int, k: int, c: int) -> bool {
    lower(ivs, now, k) < c && c <= upper(ivs, now, k)
}

/// The first bucket at or after `k` holding `c`.
pub open spec fn bucket_from(ivs: Seq<RetentionInterval>, now: int, c: int, k: int) -> Option<int>
    decreases ivs.len() - k,
{
    if k < 0 || k >= ivs.len() {
        None
    } else if in_bucket(ivs, now, k, c) {
        Some(k)
    } else {
        bucket_from(ivs, now, c, k + 1)
    }
}

/// The bucket entry `i` falls in, if any (entries younger than `now`
/// fall in none and are kept).
pub open spec fn bucket_of_entry(ivs: Seq<RetentionInterval>, entries: Seq<SnapshotEntry>, i: int) -> Option<int> {
    let now = now_of(entries);
    if entries[i].creation > now {
        None
    } else {
        bucket_from(ivs, now, entries[i].creation as int, 0)
    }
}

/// Entry `f` comes before entry `e` when a bucket is ordered youngest
/// first (ties in the order of the entries).
pub open spec fn younger_first(entries: Seq<SnapshotEntry>, f: int, e: int) -> bool {
    entries[f].creation > entries[e].creation
        || (entries[f].creation == entries[e].creation && f < e)
}

/// Number of indices below `m` satisfying `p`.
pub open spec fn count_below(m: int, p: spec_fn(int) -> bool) -> nat
    decreases m,
{
    if m <= 0 {
        0
    } else {
        count_below(m - 1, p) + if p(m - 1) { 1nat } else { 0nat }
    }
}

/// Entries of bucket `k`.
pub open spec fn members(ivs: Seq<RetentionInterval>, entries: Seq<SnapshotEntry>, k: int) -> spec_fn(int) -> bool {
    |f: int| bucket_of_entry(ivs, entries, f) == Some(k)
}

/// Entries of bucket `k` that come before entry `e`, youngest first.
pub open spec fn ahead_of(ivs: Seq<RetentionInterval>, entries: Seq<SnapshotEntry>, k: int, e: int) -> spec_fn(int) -> bool {
    |f: int| bucket_of_entry(ivs, entries, f) == Some(k) && younger_first(entries, f, e)
}

/// Whether the grid destroys entry `i`: it is older than every bucket,
/// or its bucket keeps `n` and at least `n` of the bucket's entries are
/// older than it.
pub open spec fn grid_destroys(ivs: Seq<RetentionInterval>, entries: Seq<SnapshotEntry>, i: int) -> bool {
    let now = now_of(entries);
    if entries[i].creation > now {
        false
    } else {
        match bucket_of_entry(ivs, entries, i) {
            None => true,
            Some(k) => match ivs[k].keep_count {
                KeepCount::All => false,
                KeepCount::Exactly(n) => count_below(entries.len() as int, ahead_of(ivs, entries, k, i))
                    + n < count_below(entries.len() as int, members(ivs, entries, k)),
            },
        }
    }
}

/// The indices below `m` satisfying `p`, in increasing order.
pub open spec fn indices_where(m: int, p: spec_fn(int) -> bool) -> Seq<usize>
    decreases m,
{
    if m <= 0 {
        Seq::empty()
    } else if p(m - 1) {
        indices_where(m - 1, p).push((m - 1) as usize)
    } else {
        indices_where(m - 1, p)
    }
}

pub open spec fn destroyed_by(ivs: Seq<RetentionInterval>, entries: Seq<SnapshotEntry>) -> spec_fn(int) -> bool {
    |i: int| grid_destroys(ivs, entries, i)
}

pub open spec fn kept_by(ivs: Seq<RetentionInterval>, entries: Seq<SnapshotEntry>) -> spec_fn(int) -> bool {
    |i: int| !grid_destroys(ivs, entries, i)
}

// ---------------------------------------------------------------------
// Lemmas
// ---------------------------------------------------------------------

proof fn lemma_bucket_from_is(ivs: Seq<RetentionInterval>, now: int, c: int, k: int, j: int)
    requires
        0 <= k <= j <= ivs.len(),
        j < ivs.len() ==> in_bucket(ivs, now, j, c),
        forall|x: int| k <= x < j ==> !in_bucket(ivs, now, x, c),
    ensures
        bucket_from(ivs, now, c, k) == (if j < ivs.len() { Some(j) } else { None::<int> }),
    decreases j - k,
{
    if k < j {
        lemma_bucket_from_is(ivs, now, c, k + 1, j);
    }
}

proof fn lemma_count_step(m: int, p: spec_fn(int) -> bool)
    requires
        m >= 0,
    ensures
        count_below(m + 1, p) == count_below(m, p) + if p(m) { 1nat } else { 0nat },
{
}

/// An index is listed exactly when it is in range and satisfies `p`.
pub proof fn lemma_indices_where_contains(m: int, p: spec_fn(int) -> bool, j: int)
    requires
        0 <= j <= usize::MAX,
        m <= usize::MAX + 1,
    ensures
        indices_where(m, p).contains(j as usize) <==> (j < m && p(j)),
    decreases m,
{
    if m > 0 {
        lemma_indices_where_contains(m - 1, p, j);
        lemma_indices_where_bounded(m - 1, p);
        let s = indices_where(m - 1, p);
        if p(m - 1) {
            let t = s.push((m - 1) as usize);
            assert(indices_where(m, p) == t);
            if j == m - 1 {
                assert(t[s.len() as int] == j as usize);
            } else {
                if t.contains(j as usize) {
                    let k = choose|k: int| 0 <= k < t.len() && #[trigger] t[k] == j as usize;
                    if k == s.len() {
                        assert(t[k] == (m - 1) as usize);
                        assert(false);
                    }
                    assert(s[k] == j as usize);
                }
                if s.contains(j as usize) {
                    let k = choose|k: int| 0 <= k < s.len() && #[trigger] s[k] == j as usize;
                    assert(t[k] == j as usize);
                }
            }
        } else {
            if j == m - 1 && s.contains(j as usize) {
                let k = choose|k: int| 0 <= k < s.len() && #[trigger] s[k] == j as usize;
                assert((s[k] as int) < m - 1);
            }
        }
    }
}

/// Every listed index is below `m`.
pub proof fn lemma_indices_where_bounded(m: int, p: spec_fn(int) -> bool)
    requires
        m <= usize::MAX + 1,
    ensures
        forall|k: int| 0 <= k < indices_where(m, p).len() ==> (#[trigger] indices_where(m, p)[k] as int) < m,
    decreases m,
{
    if m > 0 {
        lemma_indices_where_bounded(m - 1, p);
        let s = indices_where(m - 1, p);
        if p(m - 1) {
            let t = s.push((m - 1) as usize);
            assert forall|k: int| 0 <= k < t.len() implies (#[trigger] t[k] as int) < m by {
                if k < s.len() {
                    assert(t[k] == s[k]);
                } else {
                    assert(t[k] == (m - 1) as usize);
                }
            }
        }
    }
}

/// As many indices are listed as satisfy `p`.
pub proof fn lemma_indices_where_len(m: int, p: spec_fn(int) -> bool)
    ensures
        indices_where(m, p).len() == count_below(m, p),
    decreases m,
{
    if m > 0 {
        lemma_indices_where_len(m - 1, p);
    }
}

/// Counting below a larger bound counts at least as many.
pub proof fn lemma_count_below_mono(a: int, b: int, p: spec_fn(int) -> bool)
    requires
        a <= b,
    ensures
        count_below(a, p) <= count_below(b, p),
        a >= 0 && a < b && p(a) ==> count_below(a, p) < count_below(b, p),
    decreases b - a,
{
    if a < b {
        lemma_count_below_mono(a, b - 1, p);
    }
}

// ---------------------------------------------------------------------
// Exec
// ---------------------------------------------------------------------

impl GridSpec {
    /// Returns `(keep_indices, destroy_indices)`, both in increasing
    /// order: every index of `entries` appears in exactly one of them.
    #[verifier::loop_isolation(false)]
    pub fn fit(&self, entries: &[SnapshotEntry]) -> (r: (Vec<usize>, Vec<usize>))
        ensures
            r.0@ == indices_where(entries@.len() as int, kept_by(self.0@, entries@)),
            r.1@ == indices_where(entries@.len() as int, destroyed_by(self.0@, entries@)),
    {
        let mut keep: Vec<usize> = Vec::new();
        let mut destroy: Vec<usize> = Vec::new();
        let ne = entries.len();
        let ghost ivs = self.0@;
        let ghost es = entries@;
        if ne == 0 {
            return (keep, destroy);
        }
        // now: the youngest creation time.
        let mut now: i128 = entries[0].creation;
        let mut m: usize = 1;
        while m < ne
            invariant
                1 <= m <= ne,
                now as int == max_creation_upto(es, m as int),
            decreases ne - m,
        {
            if entries[m].creation > now {
                now = entries[m].creation;
            }
            m += 1;
        }
        let ghost gnow = now as int;
        assert(gnow == now_of(es));
        // Bucket bounds, saturating at the earliest representable instant.
        let nb = self.0.len();
        let mut lowers: Vec<i128> = Vec::new();
        let mut upper_k: i128 = now;
        let mut k: usize = 0;
        while k < nb
            invariant
                k <= nb,
                lowers@.len() == k,
                upper_k as int == upper(ivs, gnow, k as int),
                forall|x: int| 0 <= x < k ==> lowers@[x] as int == lower(ivs, gnow, x),
                earliest() <= upper_k || k == 0,
            decreases nb - k,
        {
            let len = self.0[k].length;
            let lo: i128 = if upper_k < EARLIEST_INSTANT_NANOS {
                EARLIEST_INSTANT_NANOS
            } else {
                let room: u128 = if upper_k >= 0 {
                    upper_k as u128 + 377_705_116_800_000_000_000u128
                } else {
                    (upper_k - EARLIEST_INSTANT_NANOS) as u128
                };
                if len > room {
                    EARLIEST_INSTANT_NANOS
                } else if len <= 0x7fff_ffff_ffff_ffff_ffff_ffff_ffff_ffffu128 {
                    upper_k - len as i128
                } else {
                    -((len - upper_k as u128) as i128)
                }
            };
            assert(lo as int == lower(ivs, gnow, k as int));
            lowers.push(lo);
            upper_k = lo;
            k += 1;
        }
        // The bucket of each entry.
        let mut bucket: Vec<Option<usize>> = Vec::new();
        let mut i: usize = 0;
        while i < ne
            invariant
                i <= ne,
                bucket@.len() == i,
                forall|x: int| 0 <= x < i ==> match #[trigger] bucket@[x] {
                    Some(b) => b < nb && bucket_of_entry(ivs, es, x) == Some(b as int),
                    None => bucket_of_entry(ivs, es, x) is None,
                },
            decreases ne - i,
        {
            let c = entries[i].creation;
            if c > now {
                bucket.push(None);
            } else {
                let mut b: usize = 0;
                let mut up: i128 = now;
                while b < nb && !(lowers[b] < c && c <= up)
                    invariant
                        b <= nb,
                        up as int == upper(ivs, gnow, b as int),
                        forall|x: int| 0 <= x < b ==> !in_bucket(ivs, gnow, x, c as int),
                    decreases nb - b,
                {
                    up = lowers[b];
                    b += 1;
                }
                proof {
                    lemma_bucket_from_is(ivs, gnow, c as int, 0, b as int);
                }
                if b < nb {
                    bucket.push(Some(b));
                } else {
                    bucket.push(None);
                }
            }
            i += 1;
        }
        // Decide each entry.
        let mut e: usize = 0;
        while e < ne
            invariant
                e <= ne,
                keep@ == indices_where(e as int, kept_by(ivs, es)),
                destroy@ == indices_where(e as int, destroyed_by(ivs, es)),
            decreases ne - e,
        {
            let gone: bool = match bucket[e] {
                None => entries[e].creation <= now,
                Some(b) => match self.0[b].keep_count {
                    KeepCount::All => false,
                    KeepCount::Exactly(n) => {
                        let mut size: usize = 0;
                        let mut ahead: usize = 0;
                        let mut f: usize = 0;
                        while f < ne
                            invariant
                                f <= ne,
                                size as nat == count_below(f as int, members(ivs, es, b as int)),
                                ahead as nat == count_below(f as int, ahead_of(ivs, es, b as int, e as int)),
                                ahead <= size <= f,
                            decreases ne - f,
                        {
                            proof {
                                lemma_count_step(f as int, members(ivs, es, b as int));
                                lemma_count_step(f as int, ahead_of(ivs, es, b as int, e as int));
                            }
                            if bucket[f] == Some(b) {
                                size += 1;
                                if entries[f].creation > entries[e].creation
                                    || (entries[f].creation == entries[e].creation && f < e) {
                                    ahead += 1;
                                }
                            }
                            f += 1;
                        }
                        (ahead as u128) + (n as u128) < size as u128
                    },
                },
            };
            assert(gone == grid_destroys(ivs, es, e as int));
            if gone {
                destroy.push(e);
            } else {
                keep.push(e);
            }
            e += 1;
        }
        (keep, destroy)
    }
}

/// No entry is younger than `now`.
proof fn lemma_now_is_max(entries: Seq<SnapshotEntry>, m: int, i: int)
    requires
        0 <= i < m <= entries.len(),
    ensures
        entries[i].creation <= max_creation_upto(entries, m),
    decreases m,
{
    if m > 1 && i < m - 1 {
        lemma_now_is_max(entries, m - 1, i);
    }
}

/// Counting a weaker predicate counts no fewer; one extra witness
/// counts at least one more.
proof fn lemma_count_subset(m: int, p: spec_fn(int) -> bool, q: spec_fn(int) -> bool, e: int)
    requires
        forall|x: int| 0 <= x < m && #[trigger] p(x) ==> q(x),
    ensures
        count_below(m, p) <= count_below(m, q),
        0 <= e < m && q(e) && !p(e) ==> count_below(m, p) < count_below(m, q),
    decreases m,
{
    if m > 0 {
        lemma_count_subset(m - 1, p, q, e);
    }
}

/// Counting splits along any second predicate.
proof fn lemma_count_split(m: int, p: spec_fn(int) -> bool, q: spec_fn(int) -> bool)
    ensures
        count_below(m, p) == count_below(m, |x: int| p(x) && q(x)) + count_below(m, |x: int| p(x) && !q(x)),
    decreases m,
{
    if m > 0 {
        lemma_count_split(m - 1, p, q);
    }
}

/// Nothing counted where nothing holds.
proof fn lemma_count_none(m: int, p: spec_fn(int) -> bool)
    requires
        forall|x: int| 0 <= x < m ==> !#[trigger] p(x),
    ensures
        count_below(m, p) == 0,
    decreases m,
{
    if m > 0 {
        lemma_count_none(m - 1, p);
    }
}

/// A predicate that holds below `m` holds of a youngest-first least
/// witness.
proof fn lemma_youngest_witness(entries: Seq<SnapshotEntry>, m: int, p: spec_fn(int) -> bool, w: int)
    requires
        0 <= w < m,
        p(w),
    ensures
        exists|x: int| 0 <= x < m && #[trigger] p(x)
            && forall|y: int| 0 <= y < m && #[trigger] p(y) && y != x ==> younger_first(entries, x, y),
    decreases m,
{
    if w == m - 1 && !(exists|x: int| 0 <= x < m - 1 && #[trigger] p(x)) {
        assert forall|y: int| 0 <= y < m && #[trigger] p(y) && y != w implies younger_first(entries, w, y) by {}
    } else {
        let w2 = if w < m - 1 { w } else { choose|x: int| 0 <= x < m - 1 && #[trigger] p(x) };
        lemma_youngest_witness(entries, m - 1, p, w2);
        let x = choose|x: int| 0 <= x < m - 1 && #[trigger] p(x)
            && forall|y: int| 0 <= y < m - 1 && #[trigger] p(y) && y != x ==> younger_first(entries, x, y);
        if p(m - 1) && younger_first(entries, m - 1, x) {
            assert forall|y: int| 0 <= y < m && #[trigger] p(y) && y != m - 1 implies younger_first(entries, m - 1, y) by {
                if y != x {
                    assert(younger_first(entries, x, y));
                }
            }
        } else {
            assert forall|y: int| 0 <= y < m && #[trigger] p(y) && y != x implies younger_first(entries, x, y) by {}
        }
    }
}

// ---------------------------------------------------------------------
// Laws
// ---------------------------------------------------------------------

/// A fit partitions the entries: each index is kept or destroyed, never
/// both and never neither.
pub proof fn lemma_fit_partitions(ivs: Seq<RetentionInterval>, entries: Seq<SnapshotEntry>, i: int)
    requires
        0 <= i < entries.len(),
        entries.len() <= usize::MAX,
    ensures
        indices_where(entries.len() as int, kept_by(ivs, entries)).contains(i as usize)
            != indices_where(entries.len() as int, destroyed_by(ivs, entries)).contains(i as usize),
{
    lemma_indices_where_contains(entries.len() as int, kept_by(ivs, entries), i);
    lemma_indices_where_contains(entries.len() as int, destroyed_by(ivs, entries), i);
}

/// An entry that falls in a `keep=all` bucket is never destroyed.
pub proof fn lemma_keep_all_bucket_keeps(ivs: Seq<RetentionInterval>, entries: Seq<SnapshotEntry>, i: int, k: int)
    requires
        0 <= i < entries.len(),
        bucket_of_entry(ivs, entries, i) == Some(k),
        ivs[k].keep_count == KeepCount::All,
    ensures
        !grid_destroys(ivs, entries, i),
{
}

/// Within a bucket the oldest survive: when an entry is kept, so is every
/// older entry of its bucket.
pub proof fn lemma_older_in_bucket_survives(
    ivs: Seq<RetentionInterval>,
    entries: Seq<SnapshotEntry>,
    e: int,
    f: int,
    k: int,
)
    requires
        0 <= e < entries.len(),
        0 <= f < entries.len(),
        bucket_of_entry(ivs, entries, e) == Some(k),
        bucket_of_entry(ivs, entries, f) == Some(k),
        younger_first(entries, e, f),
        !grid_destroys(ivs, entries, e),
    ensures
        !grid_destroys(ivs, entries, f),
{
    let pe = ahead_of(ivs, entries, k, e);
    let pf = ahead_of(ivs, entries, k, f);
    assert forall|x: int| #[trigger] pe(x) implies pf(x) by {}
    lemma_count_subset(entries.len() as int, pe, pf, e);
}

/// The entries of bucket `k` the grid keeps.
pub open spec fn kept_in(ivs: Seq<RetentionInterval>, entries: Seq<SnapshotEntry>, k: int) -> spec_fn(int) -> bool {
    |x: int| bucket_of_entry(ivs, entries, x) == Some(k) && !grid_destroys(ivs, entries, x)
}

/// A bucket that keeps `n` keeps at most `n` entries.
pub proof fn lemma_bucket_keeps_at_most(ivs: Seq<RetentionInterval>, entries: Seq<SnapshotEntry>, k: int, n: u32)
    requires
        0 <= k < ivs.len(),
        ivs[k].keep_count == KeepCount::Exactly(n),
    ensures
        count_below(entries.len() as int, kept_in(ivs, entries, k)) <= n as nat,
{
    let m = entries.len() as int;
    let kept = kept_in(ivs, entries, k);
    let mem = members(ivs, entries, k);
    if exists|w: int| 0 <= w < m && #[trigger] kept(w) {
        let w = choose|w: int| 0 <= w < m && #[trigger] kept(w);
        lemma_youngest_witness(entries, m, kept, w);
        let x0 = choose|x: int| 0 <= x < m && #[trigger] kept(x)
            && forall|y: int| 0 <= y < m && #[trigger] kept(y) && y != x ==> younger_first(entries, x, y);
        let ahead = ahead_of(ivs, entries, k, x0);
        // The kept entries lie among the members not ahead of x0.
        let rest = |x: int| mem(x) && !ahead(x);
        assert forall|x: int| 0 <= x < m && #[trigger] kept(x) implies rest(x) by {
            if x != x0 && ahead(x) {
                assert(younger_first(entries, x0, x));
            }
        }
        lemma_count_subset(m, kept, rest, 0);
        lemma_count_split(m, mem, ahead);
        let both = |x: int| mem(x) && ahead(x);
        assert forall|x: int| 0 <= x < m && #[trigger] ahead(x) implies both(x) by {}
        assert forall|x: int| 0 <= x < m && #[trigger] both(x) implies ahead(x) by {}
        lemma_count_subset(m, ahead, both, 0);
        lemma_count_subset(m, both, ahead, 0);
    } else {
        lemma_count_none(m, kept);
    }
}

/// An entry that falls in no bucket (it is older than the grid reaches)
/// is destroyed: what ages out of the grid goes.
pub proof fn lemma_outside_every_bucket_destroyed(ivs: Seq<RetentionInterval>, entries: Seq<SnapshotEntry>, i: int)
    requires
        0 <= i < entries.len(),
        bucket_of_entry(ivs, entries, i) is None,
    ensures
        grid_destroys(ivs, entries, i),
{
    lemma_now_is_max(entries, entries.len() as int, i);
}

} // verus!
