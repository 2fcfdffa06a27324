//! Resolving `FilesystemFilter`s against a flat list of dataset names.
//!
//! A job lists every dataset under its filters once per cycle and asks
//! `resolve_all` for the union it should act on, so no per-filter
//! `zfs list` is needed.

use vstd::prelude::*;

use crate::inventory::lex_lt;

use crate::schema::FilesystemFilter;
use crate::text::{
    chars_eq, chars_of, chars_start_with, debug_form, debug_str, ends_with, push_str, slice_chars,
    starts_with, str_eq, string_from_chars, to_owned_string, trim_end_char, trim_end_chars,
};

verus! {

/// `candidate` is `root`, or (when recursive) a descendant of it.
pub open spec fn under(candidate: Seq<char>, root: Seq<char>, recursive: bool) -> bool {
    candidate == root || (recursive && starts_with(candidate, root.push('/')))
}

/// What one exclude entry `e` removes from a filter rooted at `root`:
/// excluding the root itself drops only the root (its children stay);
/// any other exclude drops that dataset and its whole subtree.
pub open spec fn excludes_one(candidate: Seq<char>, e: Seq<char>, root: Seq<char>) -> bool {
    if e == root {
        candidate == root
    } else {
        candidate == e || starts_with(candidate, e.push('/'))
    }
}

/// Some exclude entry removes `candidate`.
pub open spec fn excluded_by(candidate: Seq<char>, excludes: Seq<String>, root: Seq<char>) -> bool {
    exists|k: int| 0 <= k < excludes.len() && excludes_one(candidate, #[trigger] excludes[k]@, root)
}

/// The filter selects the dataset `candidate`.
pub open spec fn selects(f: FilesystemFilter, candidate: Seq<char>) -> bool {
    under(candidate, f.path@, f.recursive) && !(f.recursive && excluded_by(candidate, f.exclude@, f.path@))
}

/// The first `m` candidates the filter selects, in order.
pub open spec fn selected_upto<'a>(f: FilesystemFilter, cands: Seq<&'a str>, m: int) -> Seq<&'a str>
    decreases m,
{
    if m <= 0 {
        Seq::empty()
    } else if selects(f, cands[m - 1]@) {
        selected_upto(f, cands, m - 1).push(cands[m - 1])
    } else {
        selected_upto(f, cands, m - 1)
    }
}

/// Some element of `acc` reads `s`.
pub open spec fn seen<'a>(acc: Seq<&'a str>, s: Seq<char>) -> bool {
    exists|j: int| 0 <= j < acc.len() && #[trigger] acc[j]@ == s
}

/// `acc` followed by the first `m` items not already present (by text).
pub open spec fn append_new<'a>(acc: Seq<&'a str>, items: Seq<&'a str>, m: int) -> Seq<&'a str>
    decreases m,
{
    if m <= 0 {
        acc
    } else {
        let a = append_new(acc, items, m - 1);
        if seen(a, items[m - 1]@) { a } else { a.push(items[m - 1]) }
    }
}

/// The union of what the first `k` filters select, first-seen order.
pub open spec fn resolved_all<'a>(filters: Seq<FilesystemFilter>, cands: Seq<&'a str>, k: int) -> Seq<&'a str>
    decreases k,
{
    if k <= 0 {
        Seq::empty()
    } else {
        let sel = selected_upto(filters[k - 1], cands, cands.len() as int);
        append_new(resolved_all(filters, cands, k - 1), sel, sel.len() as int)
    }
}

/// `candidate` is `root` or, when `recursive`, a descendant of it.
pub fn is_under(candidate: &str, root: &str, recursive: bool) -> (r: bool)
    ensures
        r == under(candidate@, root@, recursive),
{
    let c = chars_of(candidate);
    let rv = chars_of(root);
    if chars_eq(&c, &rv) {
        return true;
    }
    if !recursive {
        return false;
    }
    let mut prefix = rv;
    prefix.push('/');
    chars_start_with(&c, &prefix)
}

/// Whether some exclude entry removes `candidate` from a filter rooted
/// at `root`.
pub fn excluded(candidate: &str, excludes: &[String], root: &str) -> (r: bool)
    ensures
        r == excluded_by(candidate@, excludes@, root@),
{
    let c = chars_of(candidate);
    let rv = chars_of(root);
    let mut k: usize = 0;
    while k < excludes.len()
        invariant
            k <= excludes@.len(),
            c@ == candidate@,
            rv@ == root@,
            forall|x: int| 0 <= x < k ==> !excludes_one(candidate@, #[trigger] excludes@[x]@, root@),
        decreases excludes.len() - k,
    {
        let e = chars_of(excludes[k].as_str());
        let hit = if chars_eq(&e, &rv) {
            chars_eq(&c, &rv)
        } else if chars_eq(&c, &e) {
            true
        } else {
            let mut prefix = e;
            prefix.push('/');
            chars_start_with(&c, &prefix)
        };
        assert(hit == excludes_one(candidate@, excludes@[k as int]@, root@));
        if hit {
            return true;
        }
        k += 1;
    }
    false
}

impl FilesystemFilter {
    /// The candidates this filter selects, in their order.
    pub fn resolve<'a>(&self, candidates: &[&'a str]) -> (r: Vec<&'a str>)
        ensures
            r@ == selected_upto(*self, candidates@, candidates@.len() as int),
    {
        let mut out: Vec<&'a str> = Vec::new();
        let mut i: usize = 0;
        while i < candidates.len()
            invariant
                i <= candidates@.len(),
                out@ == selected_upto(*self, candidates@, i as int),
            decreases candidates.len() - i,
        {
            let c = candidates[i];
            let keep = is_under(c, self.path.as_str(), self.recursive)
                && !(self.recursive && excluded(c, &self.exclude, self.path.as_str()));
            if keep {
                out.push(c);
            }
            i += 1;
        }
        out
    }
}

/// `d` followed by `/` begins `candidate` exactly when `candidate` is
/// longer than `d`, begins with `d`, and holds `/` right after it.
proof fn lemma_below_is_slash_prefix(candidate: Seq<char>, d: Seq<char>)
    ensures
        starts_with(candidate, d.push('/')) <==> (candidate.len() > d.len() && candidate.subrange(0, d.len() as int)
            == d && candidate[d.len() as int] == '/'),
{
    let p = d.push('/');
    if starts_with(candidate, p) {
        assert(candidate.subrange(0, d.len() as int) =~= candidate.subrange(0, p.len() as int).subrange(0, d.len() as int));
        assert(p.subrange(0, d.len() as int) =~= d);
        assert(candidate[d.len() as int] == candidate.subrange(0, p.len() as int)[d.len() as int]);
    }
    if candidate.len() > d.len() && candidate.subrange(0, d.len() as int) == d && candidate[d.len() as int] == '/' {
        assert forall|i: int| 0 <= i < p.len() implies candidate.subrange(0, p.len() as int)[i] == p[i] by {
            if i < d.len() {
                assert(candidate.subrange(0, d.len() as int)[i] == candidate[i]);
            }
        }
        assert(candidate.subrange(0, p.len() as int) =~= p);
    }
}

/// What one exclude entry removes: an entry naming the filter's root
/// drops the root alone; any other entry drops the dataset it names and
/// every dataset whose name is that entry followed by `/` and more. A
/// dataset whose name merely begins with the entry's text (`tank/database`
/// against `tank/data`) is not removed.
pub proof fn lemma_exclude_drops_named_subtree(candidate: Seq<char>, e: Seq<char>, root: Seq<char>)
    ensures
        e == root ==> (excludes_one(candidate, e, root) <==> candidate == root),
        e != root ==> (excludes_one(candidate, e, root) <==> (candidate == e || (candidate.len() > e.len()
            && candidate.subrange(0, e.len() as int) == e && candidate[e.len() as int] == '/'))),
        e != root && candidate.len() > e.len() && candidate.subrange(0, e.len() as int) == e
            && candidate[e.len() as int] != '/' ==> !excludes_one(candidate, e, root),
{
    lemma_below_is_slash_prefix(candidate, e);
}

/// A recursive filter selects a dataset exactly when the dataset is the
/// root or lies below it (`<root>/...`), and no exclude entry removes it:
/// none that names the root when the dataset is the root, and no other
/// entry that names the dataset or one of its ancestors below the root.
pub proof fn lemma_recursive_filter_selects(f: FilesystemFilter, candidate: Seq<char>)
    requires
        f.recursive,
    ensures
        selects(f, candidate) <==> ({
            let root = f.path@;
            &&& (candidate == root || (candidate.len() > root.len() && candidate.subrange(0, root.len() as int)
                == root && candidate[root.len() as int] == '/'))
            &&& forall|k: int| #![trigger f.exclude@[k]]
                0 <= k < f.exclude@.len() ==> if f.exclude@[k]@ == root {
                    candidate != root
                } else {
                    candidate != f.exclude@[k]@ && !(candidate.len() > f.exclude@[k]@.len()
                        && candidate.subrange(0, f.exclude@[k]@.len() as int) == f.exclude@[k]@
                        && candidate[f.exclude@[k]@.len() as int] == '/')
                }
        }),
{
    let root = f.path@;
    lemma_below_is_slash_prefix(candidate, root);
    assert forall|k: int| 0 <= k < f.exclude@.len() implies (excludes_one(candidate, #[trigger] f.exclude@[k]@, root)
        <==> (if f.exclude@[k]@ == root {
            candidate == root
        } else {
            candidate == f.exclude@[k]@ || (candidate.len() > f.exclude@[k]@.len() && candidate.subrange(
                0,
                f.exclude@[k]@.len() as int,
            ) == f.exclude@[k]@ && candidate[f.exclude@[k]@.len() as int] == '/')
        })) by {
        lemma_exclude_drops_named_subtree(candidate, f.exclude@[k]@, root);
    }
}

/// A filter that is not recursive selects its root dataset alone; its
/// exclude entries play no part.
pub proof fn lemma_plain_filter_selects_root_only(f: FilesystemFilter, candidate: Seq<char>)
    requires
        !f.recursive,
    ensures
        selects(f, candidate) <==> candidate == f.path@,
{
}

/// What a filter resolves the first `m` candidates to: every item kept
/// is one of those candidates and is selected by the filter, every
/// selected one is kept, the result is no longer than the list, and a
/// selected last candidate comes last.
pub proof fn lemma_resolve_keeps_selected_in_order<'a>(f: FilesystemFilter, cands: Seq<&'a str>, m: int)
    requires
        0 <= m <= cands.len(),
    ensures
        selected_upto(f, cands, m).len() <= m,
        forall|k: int| 0 <= k < selected_upto(f, cands, m).len() ==> selects(f, (#[trigger] selected_upto(f, cands, m)[k])@),
        forall|i: int| 0 <= i < m && selects(f, (#[trigger] cands[i])@) ==> selected_upto(f, cands, m).contains(cands[i]),
        forall|x: &'a str| selected_upto(f, cands, m).contains(x) ==> cands.subrange(0, m).contains(x),
        m > 0 && selects(f, cands[m - 1]@) ==> selected_upto(f, cands, m).last() == cands[m - 1],
    decreases m,
{
    if m > 0 {
        lemma_resolve_keeps_selected_in_order(f, cands, m - 1);
        let prev = selected_upto(f, cands, m - 1);
        let cur = selected_upto(f, cands, m);
        assert forall|i: int| 0 <= i < m && selects(f, (#[trigger] cands[i])@) implies cur.contains(cands[i]) by {
            if i < m - 1 {
                let k = choose|k: int| 0 <= k < prev.len() && prev[k] == cands[i];
                if selects(f, cands[m - 1]@) {
                    assert(cur[k] == prev[k]);
                }
            } else {
                assert(cur[cur.len() - 1] == cands[m - 1]);
            }
        }
        assert forall|x: &'a str| cur.contains(x) implies cands.subrange(0, m).contains(x) by {
            let k = choose|k: int| 0 <= k < cur.len() && cur[k] == x;
            if k < prev.len() {
                assert(prev[k] == x);
                assert(prev.contains(x));
                let sub = cands.subrange(0, m - 1);
                let i = choose|i: int| 0 <= i < sub.len() && #[trigger] sub[i] == x;
                assert(cands.subrange(0, m)[i] == x);
            } else {
                assert(cands.subrange(0, m)[m - 1] == x);
            }
        }
    }
}

fn already_seen<'a>(acc: &Vec<&'a str>, s: &str) -> (r: bool)
    ensures
        r == seen(acc@, s@),
{
    let mut j: usize = 0;
    while j < acc.len()
        invariant
            j <= acc@.len(),
            forall|x: int| 0 <= x < j ==> (#[trigger] acc@[x])@ != s@,
        decreases acc.len() - j,
    {
        if str_eq(acc[j], s) {
            return true;
        }
        j += 1;
    }
    false
}

/// Every filter resolved, deduplicated by name, first-seen order kept.
pub fn resolve_all<'a>(filters: &[FilesystemFilter], candidates: &[&'a str]) -> (r: Vec<&'a str>)
    ensures
        r@ == resolved_all(filters@, candidates@, filters@.len() as int),
{
    let mut out: Vec<&'a str> = Vec::new();
    let mut k: usize = 0;
    while k < filters.len()
        invariant
            k <= filters@.len(),
            out@ == resolved_all(filters@, candidates@, k as int),
        decreases filters.len() - k,
    {
        let sel = filters[k].resolve(candidates);
        let ghost base = out@;
        let mut j: usize = 0;
        while j < sel.len()
            invariant
                j <= sel@.len(),
                out@ == append_new(base, sel@, j as int),
            decreases sel.len() - j,
        {
            if !already_seen(&out, sel[j]) {
                out.push(sel[j]);
            }
            j += 1;
        }
        k += 1;
    }
    out
}

/// No two elements of `s` read the same.
pub open spec fn no_repeats<'a>(s: Seq<&'a str>) -> bool {
    forall|i: int, j: int| 0 <= i < j < s.len() ==> (#[trigger] s[i])@ != (#[trigger] s[j])@
}

/// Every filter's own selection, the first `k` filters' in filter order,
/// one after the other (repeats kept).
pub open spec fn all_selected<'a>(filters: Seq<FilesystemFilter>, cands: Seq<&'a str>, k: int) -> Seq<&'a str>
    decreases k,
{
    if k <= 0 {
        Seq::empty()
    } else {
        all_selected(filters, cands, k - 1) + selected_upto(filters[k - 1], cands, cands.len() as int)
    }
}

proof fn lemma_append_new_no_repeats<'a>(acc: Seq<&'a str>, items: Seq<&'a str>, m: int)
    requires
        no_repeats(acc),
        0 <= m <= items.len(),
    ensures
        no_repeats(append_new(acc, items, m)),
    decreases m,
{
    if m > 0 {
        lemma_append_new_no_repeats(acc, items, m - 1);
        let a = append_new(acc, items, m - 1);
        if !seen(a, items[m - 1]@) {
            let b = a.push(items[m - 1]);
            assert forall|i: int, j: int| 0 <= i < j < b.len() implies (#[trigger] b[i])@ != (#[trigger] b[j])@ by {
                if j == a.len() {
                    assert(b[i] == a[i]);
                    if a[i]@ == items[m - 1]@ {
                        assert(seen(a, items[m - 1]@));
                    }
                } else {
                    assert(b[i] == a[i] && b[j] == a[j]);
                }
            }
        }
    }
}

proof fn lemma_append_new_members<'a>(acc: Seq<&'a str>, items: Seq<&'a str>, m: int, x: Seq<char>)
    requires
        0 <= m <= items.len(),
    ensures
        seen(append_new(acc, items, m), x) <==> (seen(acc, x) || exists|j: int| 0 <= j < m && (#[trigger] items[j])@ == x),
    decreases m,
{
    if m > 0 {
        lemma_append_new_members(acc, items, m - 1, x);
        let a = append_new(acc, items, m - 1);
        if !seen(a, items[m - 1]@) {
            let b = a.push(items[m - 1]);
            if seen(b, x) {
                let j = choose|j: int| 0 <= j < b.len() && #[trigger] b[j]@ == x;
                if j < a.len() {
                    assert(b[j] == a[j]);
                    assert(seen(a, x));
                }
            }
            if seen(a, x) {
                let j = choose|j: int| 0 <= j < a.len() && #[trigger] a[j]@ == x;
                assert(b[j] == a[j]);
            }
            if items[m - 1]@ == x {
                assert(b[a.len() as int] == items[m - 1]);
            }
        } else if items[m - 1]@ == x {
            assert(seen(a, x));
        }
    }
}

proof fn lemma_append_new_concat<'a>(acc: Seq<&'a str>, a: Seq<&'a str>, b: Seq<&'a str>, m: int)
    requires
        0 <= m <= b.len(),
    ensures
        append_new(acc, a + b, a.len() + m) == append_new(append_new(acc, a, a.len() as int), b, m),
    decreases m,
{
    if m == 0 {
        lemma_append_new_prefix(acc, a, b, a.len() as int);
    } else {
        lemma_append_new_concat(acc, a, b, m - 1);
        assert((a + b)[a.len() + m - 1] == b[m - 1]);
    }
}

proof fn lemma_append_new_prefix<'a>(acc: Seq<&'a str>, a: Seq<&'a str>, b: Seq<&'a str>, m: int)
    requires
        0 <= m <= a.len(),
    ensures
        append_new(acc, a + b, m) == append_new(acc, a, m),
    decreases m,
{
    if m > 0 {
        lemma_append_new_prefix(acc, a, b, m - 1);
        assert((a + b)[m - 1] == a[m - 1]);
    }
}

proof fn lemma_resolved_all_is_dedup<'a>(filters: Seq<FilesystemFilter>, cands: Seq<&'a str>, k: int)
    requires
        0 <= k <= filters.len(),
    ensures
        resolved_all(filters, cands, k) == append_new(
            Seq::empty(),
            all_selected(filters, cands, k),
            all_selected(filters, cands, k).len() as int,
        ),
    decreases k,
{
    if k > 0 {
        lemma_resolved_all_is_dedup(filters, cands, k - 1);
        let a = all_selected(filters, cands, k - 1);
        let sel = selected_upto(filters[k - 1], cands, cands.len() as int);
        lemma_append_new_concat(Seq::empty(), a, sel, sel.len() as int);
    }
}

/// Resolving every filter gives each selected dataset once, in the order
/// of its first selection: exactly the filters' own selections, one
/// after the other, with every repeat after the first dropped. So no
/// dataset is listed twice, and a dataset is listed exactly when some
/// filter selects it.
pub proof fn lemma_resolve_all_dedups<'a>(filters: Seq<FilesystemFilter>, cands: Seq<&'a str>, x: Seq<char>)
    ensures
        resolved_all(filters, cands, filters.len() as int) == append_new(
            Seq::empty(),
            all_selected(filters, cands, filters.len() as int),
            all_selected(filters, cands, filters.len() as int).len() as int,
        ),
        no_repeats(resolved_all(filters, cands, filters.len() as int)),
        seen(resolved_all(filters, cands, filters.len() as int), x) <==> seen(
            all_selected(filters, cands, filters.len() as int),
            x,
        ),
{
    let n = filters.len() as int;
    lemma_resolved_all_is_dedup(filters, cands, n);
    let c = all_selected(filters, cands, n);
    lemma_append_new_no_repeats(Seq::empty(), c, c.len() as int);
    lemma_append_new_members(Seq::empty(), c, c.len() as int, x);
    assert(!seen(Seq::<&'a str>::empty(), x));
}

/// Paths of the filters that select no candidate at all, in order.
pub open spec fn unmatched_upto<'a>(filters: Seq<FilesystemFilter>, cands: Seq<&'a str>, k: int) -> Seq<Seq<char>>
    decreases k,
{
    if k <= 0 {
        Seq::empty()
    } else if selected_upto(filters[k - 1], cands, cands.len() as int).len() == 0 {
        unmatched_upto(filters, cands, k - 1).push(filters[k - 1].path@)
    } else {
        unmatched_upto(filters, cands, k - 1)
    }
}

/// The configured filters that match no dataset: their paths, in order.
pub fn unmatched(filters: &[FilesystemFilter], candidates: &[&str]) -> (r: Vec<String>)
    ensures
        r@.map_values(|s: String| s@) == unmatched_upto(filters@, candidates@, filters@.len() as int),
{
    let mut out: Vec<String> = Vec::new();
    let mut k: usize = 0;
    while k < filters.len()
        invariant
            k <= filters@.len(),
            out@.map_values(|s: String| s@) == unmatched_upto(filters@, candidates@, k as int),
        decreases filters.len() - k,
    {
        let sel = filters[k].resolve(candidates);
        if sel.len() == 0 {
            out.push(filters[k].path.clone());
        }
        assert(out@.map_values(|s: String| s@) =~= unmatched_upto(filters@, candidates@, k + 1));
        k += 1;
    }
    out
}

/// Latches the set of filters that match no dataset, so a standing
/// misconfiguration is reported when it changes rather than every cycle.
#[derive(Debug, Default)]
pub struct UnmatchedFilters {
    previous: Vec<String>,
}

/// One call of `take_change`: the latch ends holding the current
/// unmatched set, and the call reports it exactly when it differs from
/// what was held before.
pub open spec fn change_step<'a>(
    before: UnmatchedFilters,
    after: UnmatchedFilters,
    r: Option<Vec<String>>,
    filters: Seq<FilesystemFilter>,
    cands: Seq<&'a str>,
) -> bool {
    let current = unmatched_upto(filters, cands, filters.len() as int);
    &&& after.reported() == current
    &&& match r {
        None => before.reported() == current,
        Some(v) => before.reported() != current && v@.map_values(|s: String| s@) == current,
    }
}

impl UnmatchedFilters {
    /// The paths last reported.
    pub closed spec fn reported(&self) -> Seq<Seq<char>> {
        self.previous@.map_values(|s: String| s@)
    }

    /// A latch that has reported nothing yet.
    pub fn new() -> (r: Self)
        ensures
            r.reported() == Seq::<Seq<char>>::empty(),
    {
        let r = UnmatchedFilters { previous: Vec::new() };
        assert(r.reported() =~= Seq::<Seq<char>>::empty());
        r
    }

    /// The current unmatched set when it differs from the last one
    /// reported (and then latches it), `None` when unchanged.
    pub fn take_change(&mut self, filters: &[FilesystemFilter], candidates: &[&str]) -> (r: Option<Vec<String>>)
        ensures
            change_step(*old(self), *final(self), r, filters@, candidates@),
    {
        let current = unmatched(filters, candidates);
        let mut same = current.len() == self.previous.len();
        if !same {
            assert(current@.map_values(|s: String| s@).len() != self.previous@.map_values(|s: String| s@).len());
        }
        let mut j: usize = 0;
        while same && j < current.len()
            invariant
                j <= current@.len(),
                same ==> current@.len() == self.previous@.len(),
                same ==> forall|x: int| 0 <= x < j ==> current@[x]@ == self.previous@[x]@,
                !same ==> current@.map_values(|s: String| s@) != self.previous@.map_values(|s: String| s@),
            decreases current.len() - j,
        {
            if !str_eq(current[j].as_str(), self.previous[j].as_str()) {
                same = false;
                assert(current@.map_values(|s: String| s@)[j as int] != self.previous@.map_values(|s: String| s@)[j as int]);
            }
            j += 1;
        }
        if same {
            assert(current@.map_values(|s: String| s@) =~= self.previous@.map_values(|s: String| s@));
            return None;
        }
        self.previous = current.clone();
        Some(current)
    }
}


/// Reported once, then quiet: a second call on the same filters and
/// datasets reports nothing.
pub proof fn lemma_reports_once<'a>(
    s0: UnmatchedFilters,
    s1: UnmatchedFilters,
    s2: UnmatchedFilters,
    r1: Option<Vec<String>>,
    r2: Option<Vec<String>>,
    filters: Seq<FilesystemFilter>,
    cands: Seq<&'a str>,
)
    requires
        change_step(s0, s1, r1, filters, cands),
        change_step(s1, s2, r2, filters, cands),
    ensures
        r2 is None,
        s2.reported() == s1.reported(),
{
}

/// Recovery is announced: when filters that matched nothing all match
/// again, the call reports the empty set.
pub proof fn lemma_recovery_reported<'a>(
    s0: UnmatchedFilters,
    s1: UnmatchedFilters,
    r: Option<Vec<String>>,
    filters: Seq<FilesystemFilter>,
    cands: Seq<&'a str>,
)
    requires
        change_step(s0, s1, r, filters, cands),
        s0.reported().len() > 0,
        unmatched_upto(filters, cands, filters.len() as int).len() == 0,
    ensures
        r matches Some(v) && v@.len() == 0,
{
    if r is None {
        assert(s0.reported().len() == 0);
    }
}

/// A latch that has reported nothing stays quiet while every filter
/// matches.
pub proof fn lemma_healthy_stays_quiet<'a>(
    s0: UnmatchedFilters,
    s1: UnmatchedFilters,
    r: Option<Vec<String>>,
    filters: Seq<FilesystemFilter>,
    cands: Seq<&'a str>,
)
    requires
        change_step(s0, s1, r, filters, cands),
        s0.reported().len() == 0,
        unmatched_upto(filters, cands, filters.len() as int).len() == 0,
    ensures
        r is None,
{
    assert(s0.reported() =~= unmatched_upto(filters, cands, filters.len() as int));
}

// ---------------------------------------------------------------------
// The map shape of `filesystems`
// ---------------------------------------------------------------------

/// The message for a `"/" = true` entry.
pub open spec fn empty_root_message() -> Seq<char> {
    "filesystems: empty key with `/` suffix is not a valid path"@
}

/// The message for an exclude that no recursive include owns.
pub open spec fn orphan_message(f: Seq<char>) -> Seq<char> {
    "filesystems: exclude "@ + debug_form(f) + " has no matching `\"<parent>/\" = true` to belong to"@
}

/// A `true` key names a subtree when it ends in `/` (one slash is
/// stripped), else one exact dataset.
pub open spec fn include_of(k: Seq<char>) -> (Seq<char>, bool) {
    if ends_with(k, seq!['/']) {
        (k.drop_last(), true)
    } else {
        (k, false)
    }
}

/// The includes among the first `n` entries, in order.
pub open spec fn includes_upto(entries: Seq<(String, bool)>, n: int) -> Seq<(Seq<char>, bool)>
    decreases n,
{
    if n <= 0 {
        Seq::empty()
    } else if entries[n - 1].1 {
        includes_upto(entries, n - 1).push(include_of(entries[n - 1].0@))
    } else {
        includes_upto(entries, n - 1)
    }
}

/// The excludes among the first `n` entries (every trailing `/`
/// dropped), in order.
pub open spec fn excludes_upto(entries: Seq<(String, bool)>, n: int) -> Seq<Seq<char>>
    decreases n,
{
    if n <= 0 {
        Seq::empty()
    } else if !entries[n - 1].1 {
        excludes_upto(entries, n - 1).push(trim_end_char(entries[n - 1].0@, '/'))
    } else {
        excludes_upto(entries, n - 1)
    }
}

/// The exclude `f` sits at or under `path`.
pub open spec fn belongs(f: Seq<char>, path: Seq<char>) -> bool {
    f == path || starts_with(f, path.push('/'))
}

/// The first `n` excludes that sit at or under `path`, in order.
pub open spec fn excludes_under(falses: Seq<Seq<char>>, path: Seq<char>, n: int) -> Seq<Seq<char>>
    decreases n,
{
    if n <= 0 {
        Seq::empty()
    } else if belongs(falses[n - 1], path) {
        excludes_under(falses, path, n - 1).push(falses[n - 1])
    } else {
        excludes_under(falses, path, n - 1)
    }
}

/// Some recursive include owns the exclude `f`.
pub open spec fn owned(f: Seq<char>, trues: Seq<(Seq<char>, bool)>) -> bool {
    exists|i: int| 0 <= i < trues.len() && (#[trigger] trues[i]).1 && belongs(f, trues[i].0)
}

/// Some entry is `"/" = true`.
pub open spec fn has_empty_root(entries: Seq<(String, bool)>) -> bool {
    exists|i: int| 0 <= i < entries.len() && (#[trigger] entries[i]).1 && entries[i].0@ == seq!['/']
}

/// The index of the first exclude that no include owns, if any.
pub open spec fn first_orphan(falses: Seq<Seq<char>>, trues: Seq<(Seq<char>, bool)>, n: int) -> Option<int>
    decreases n,
{
    if n <= 0 {
        None
    } else {
        match first_orphan(falses, trues, n - 1) {
            Some(j) => Some(j),
            None => if !owned(falses[n - 1], trues) { Some(n - 1) } else { None },
        }
    }
}

/// The filter an include becomes, given every exclude.
pub open spec fn filter_for(t: (Seq<char>, bool), falses: Seq<Seq<char>>, f: FilesystemFilter) -> bool {
    &&& f.path@ == t.0
    &&& f.recursive == t.1
    &&& f.exclude@.map_values(|e: String| e@) == if t.1 {
        excludes_under(falses, t.0, falses.len() as int)
    } else {
        Seq::<Seq<char>>::empty()
    }
}

proof fn lemma_first_orphan_stays(falses: Seq<Seq<char>>, trues: Seq<(Seq<char>, bool)>, j: int, n: int)
    requires
        0 <= j < n,
        first_orphan(falses, trues, j + 1) == Some(j),
    ensures
        first_orphan(falses, trues, n) == Some(j),
    decreases n - j,
{
    if n > j + 1 {
        lemma_first_orphan_stays(falses, trues, j, n - 1);
    }
}

fn ends_in_slash(v: &Vec<char>) -> (r: bool)
    ensures
        r == ends_with(v@, seq!['/']),
{
    let n = v.len();
    if n == 0 {
        return false;
    }
    let r = v[n - 1] == '/';
    if r {
        assert(v@.subrange(n - 1, n as int) =~= seq!['/']);
    } else {
        assert(v@.subrange(n - 1, n as int)[0] != seq!['/'][0]);
    }
    r
}

/// The entries of a map, keys strictly ascending: each key once, in the
/// order a `BTreeMap<String, _>` keeps them.
pub open spec fn keys_ascending(entries: Seq<(String, bool)>) -> bool {
    forall|i: int, j: int| 0 <= i < j < entries.len() ==> lex_lt((#[trigger] entries[i]).0@, (#[trigger] entries[j]).0@)
}

/// Turns the map shape of `filesystems` (its entries, in key order)
/// into filters: each `true` key an include, each `false` key an
/// exclude for the recursive includes it sits under.
pub fn map_to_filters(entries: &[(String, bool)]) -> (r: Result<Vec<FilesystemFilter>, String>)
    requires
        keys_ascending(entries@),
    ensures
        ({
            let trues = includes_upto(entries@, entries@.len() as int);
            let falses = excludes_upto(entries@, entries@.len() as int);
            match r {
                Err(msg) => if has_empty_root(entries@) {
                    msg@ == empty_root_message()
                } else {
                    first_orphan(falses, trues, falses.len() as int) matches Some(j)
                        && msg@ == orphan_message(falses[j])
                },
                Ok(out) => {
                    &&& !has_empty_root(entries@)
                    &&& first_orphan(falses, trues, falses.len() as int) is None
                    &&& out@.len() == trues.len()
                    &&& forall|i: int| 0 <= i < trues.len() ==> filter_for(trues[i], falses, #[trigger] out@[i])
                },
            }
        }),
{
    let ghost es = entries@;
    let mut trues: Vec<(String, bool)> = Vec::new();
    let mut falses: Vec<String> = Vec::new();
    let mut i: usize = 0;
    while i < entries.len()
        invariant
            i <= es.len(),
            es == entries@,
            trues@.map_values(|t: (String, bool)| (t.0@, t.1)) == includes_upto(es, i as int),
            falses@.map_values(|e: String| e@) == excludes_upto(es, i as int),
            forall|x: int| 0 <= x < i ==> !((#[trigger] es[x]).1 && es[x].0@ == seq!['/']),
        decreases entries.len() - i,
    {
        let k = chars_of(entries[i].0.as_str());
        if entries[i].1 {
            if ends_in_slash(&k) {
                if k.len() == 1 {
                    proof {
                        assert(es[i as int].0@ =~= seq!['/']);
                    }
                    return Err(to_owned_string("filesystems: empty key with `/` suffix is not a valid path"));
                }
                let stripped = slice_chars(k.as_slice(), 0, k.len() - 1);
                let path = string_from_chars(stripped.as_slice());
                assert(path@ =~= k@.drop_last());
                trues.push((path, true));
            } else {
                trues.push((entries[i].0.clone(), false));
            }
            proof {
                assert(!(es[i as int].0@ == seq!['/'])) by {
                    if es[i as int].0@ == seq!['/'] {
                        assert(ends_with(k@, seq!['/'])) by {
                            assert(k@.subrange(0, 1) =~= seq!['/']);
                        }
                    }
                }
            }
        } else {
            let trimmed = trim_end_chars(k.as_slice(), '/');
            falses.push(string_from_chars(trimmed.as_slice()));
        }
        assert(trues@.map_values(|t: (String, bool)| (t.0@, t.1)) =~= includes_upto(es, i + 1));
        assert(falses@.map_values(|e: String| e@) =~= excludes_upto(es, i + 1));
        i += 1;
    }
    let ghost tv = includes_upto(es, es.len() as int);
    let ghost fv = excludes_upto(es, es.len() as int);
    assert(!has_empty_root(es));

    let mut out: Vec<FilesystemFilter> = Vec::new();
    let mut t: usize = 0;
    while t < trues.len()
        invariant
            t <= trues@.len(),
            es == entries@,
            trues@.map_values(|x: (String, bool)| (x.0@, x.1)) == tv,
            falses@.map_values(|e: String| e@) == fv,
            out@.len() == t,
            forall|x: int| 0 <= x < t ==> filter_for(tv[x], fv, #[trigger] out@[x]),
        decreases trues.len() - t,
    {
        let path = trues[t].0.as_str();
        let recursive = trues[t].1;
        let mut exclude: Vec<String> = Vec::new();
        if recursive {
            let mut prefix = to_owned_string(path);
            push_str(&mut prefix, "/");
            let pv = chars_of(prefix.as_str());
            proof {
                reveal_strlit("/");
                assert(path@ + "/"@ =~= path@.push('/'));
            }
            let mut j: usize = 0;
            while j < falses.len()
                invariant
                    j <= falses@.len(),
                    falses@.map_values(|e: String| e@) == fv,
                    pv@ == path@.push('/'),
                    exclude@.map_values(|e: String| e@) == excludes_under(fv, path@, j as int),
                decreases falses.len() - j,
            {
                let fc = chars_of(falses[j].as_str());
                let pc = chars_of(path);
                let hit = chars_eq(&fc, &pc) || chars_start_with(&fc, &pv);
                assert(fv[j as int] == falses@[j as int]@);
                if hit {
                    exclude.push(falses[j].clone());
                }
                assert(exclude@.map_values(|e: String| e@) =~= excludes_under(fv, path@, j + 1));
                j += 1;
            }
        } else {
            assert(exclude@.map_values(|e: String| e@) =~= Seq::<Seq<char>>::empty());
        }
        assert(tv[t as int] == (trues@[t as int].0@, trues@[t as int].1));
        out.push(FilesystemFilter { path: to_owned_string(path), recursive, exclude });
        t += 1;
    }

    let mut j: usize = 0;
    while j < falses.len()
        invariant
            j <= falses@.len(),
            trues@.map_values(|x: (String, bool)| (x.0@, x.1)) == tv,
            falses@.map_values(|e: String| e@) == fv,
            first_orphan(fv, tv, j as int) is None,
            es == entries@,
            tv == includes_upto(es, es.len() as int),
            fv == excludes_upto(es, es.len() as int),
            !has_empty_root(es),
        decreases falses.len() - j,
    {
        let fc = chars_of(falses[j].as_str());
        let mut used = false;
        let mut t2: usize = 0;
        while t2 < trues.len()
            invariant
                t2 <= trues@.len(),
                trues@.map_values(|x: (String, bool)| (x.0@, x.1)) == tv,
                fc@ == fv[j as int],
                used == exists|x: int| 0 <= x < t2 && (#[trigger] tv[x]).1 && belongs(fv[j as int], tv[x].0),
            decreases trues.len() - t2,
        {
            assert(tv[t2 as int] == (trues@[t2 as int].0@, trues@[t2 as int].1));
            if trues[t2].1 {
                let pc = chars_of(trues[t2].0.as_str());
                let mut prefix = to_owned_string(trues[t2].0.as_str());
                push_str(&mut prefix, "/");
                let pv = chars_of(prefix.as_str());
                proof {
                    reveal_strlit("/");
                    assert(pc@ + "/"@ =~= pc@.push('/'));
                }
                if chars_eq(&fc, &pc) || chars_start_with(&fc, &pv) {
                    used = true;
                }
            }
            t2 += 1;
        }
        assert(fv[j as int] == falses@[j as int]@);
        assert(used == owned(fv[j as int], tv));
        if !used {
            let mut msg = to_owned_string("filesystems: exclude ");
            let d = debug_str(falses[j].as_str());
            push_str(&mut msg, d.as_str());
            push_str(&mut msg, " has no matching `\"<parent>/\" = true` to belong to");
            proof {
                lemma_first_orphan_stays(fv, tv, j as int, fv.len() as int);
            }
            return Err(msg);
        }
        j += 1;
    }
    Ok(out)
}

} // verus!
