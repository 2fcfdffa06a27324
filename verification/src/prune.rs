//! Combining keep rules into the set of snapshots to destroy.
//!
//! Each rule names the entries it would destroy:
//! - a grid rule destroys every entry whose name does not match its
//!   regex, and among those that match, what the grid destroys;
//! - a regex rule destroys the entries that do not match (with
//!   `negate`, the entries that do).
//!
//! An entry is destroyed only when EVERY rule would destroy it: one rule
//! that keeps it is enough to save it. With no rules nothing is destroyed.

use std::collections::BTreeSet;

use vstd::prelude::*;

use crate::pattern::{compile, is_match, regex_compiles, regex_is_match};
use crate::retention::{
    count_below, grid_destroys, indices_where, lemma_count_below_mono, lemma_indices_where_bounded,
    lemma_indices_where_contains,
    lemma_indices_where_len, SnapshotEntry,
};
use crate::schema::{keep_rule_regex, KeepRule};

verus! {

broadcast use vstd::laws_cmp::group_laws_cmp, vstd::std_specs::btree::group_btree_axioms;

/// Why keep rules could not be evaluated.
#[derive(Debug)]
pub enum PruneError {
    /// A rule's pattern does not compile.
    Regex { pattern: String, source: regex::Error },
}

/// Entry `i`'s name matches `pattern`.
pub open spec fn matcher(pattern: Seq<char>, entries: Seq<SnapshotEntry>) -> spec_fn(int) -> bool {
    |i: int| regex_is_match(pattern, entries[i].name@)
}

/// The entries whose names match `pattern`, in order.
pub open spec fn matching_entries(pattern: Seq<char>, entries: Seq<SnapshotEntry>) -> Seq<SnapshotEntry> {
    indices_where(entries.len() as int, matcher(pattern, entries)).map_values(|j: usize| entries[j as int])
}

/// Whether `rule` would destroy entry `i`.
pub open spec fn rule_destroys(rule: KeepRule, entries: Seq<SnapshotEntry>, i: int) -> bool {
    match rule {
        KeepRule::Grid { grid, regex } => {
            let m = matcher(regex@, entries);
            !m(i) || grid_destroys(grid.0@, matching_entries(regex@, entries), count_below(i, m) as int)
        },
        KeepRule::Regex { regex, negate } => {
            let matched = regex_is_match(regex@, entries[i].name@);
            if negate { matched } else { !matched }
        },
    }
}

/// The indices `rule` would destroy.
pub open spec fn rule_destroy_set(rule: KeepRule, entries: Seq<SnapshotEntry>) -> Set<usize> {
    Set::new(|i: usize| (i as int) < entries.len() && rule_destroys(rule, entries, i as int))
}

/// Every rule would destroy entry `i`.
pub open spec fn all_destroy(rules: Seq<KeepRule>, entries: Seq<SnapshotEntry>) -> spec_fn(int) -> bool {
    |i: int| forall|k: int| 0 <= k < rules.len() ==> rule_destroys(#[trigger] rules[k], entries, i)
}

/// The first rule whose pattern does not compile, if any.
pub open spec fn first_bad_rule(rules: Seq<KeepRule>, k: int) -> Option<int>
    decreases rules.len() - k,
{
    if k < 0 || k >= rules.len() {
        None
    } else if !regex_compiles(keep_rule_regex(rules[k])) {
        Some(k)
    } else {
        first_bad_rule(rules, k + 1)
    }
}

proof fn lemma_first_bad_rule_none(rules: Seq<KeepRule>, k: int)
    requires
        0 <= k,
        forall|x: int| k <= x < rules.len() ==> regex_compiles(keep_rule_regex(#[trigger] rules[x])),
    ensures
        first_bad_rule(rules, k) is None,
    decreases rules.len() - k,
{
    if k < rules.len() {
        lemma_first_bad_rule_none(rules, k + 1);
    }
}

proof fn lemma_first_bad_rule_some(rules: Seq<KeepRule>, k: int, j: int)
    requires
        0 <= k <= j < rules.len(),
        !regex_compiles(keep_rule_regex(rules[j])),
        forall|x: int| k <= x < j ==> regex_compiles(keep_rule_regex(#[trigger] rules[x])),
    ensures
        first_bad_rule(rules, k) == Some(j),
    decreases j - k,
{
    if k < j {
        lemma_first_bad_rule_some(rules, k + 1, j);
    }
}

fn contains_index(v: &Vec<usize>, x: usize) -> (r: bool)
    ensures
        r == v@.contains(x),
{
    let mut i: usize = 0;
    while i < v.len()
        invariant
            i <= v@.len(),
            forall|k: int| 0 <= k < i ==> v@[k] != x,
        decreases v.len() - i,
    {
        if v[i] == x {
            assert(v@[i as int] == x);
            return true;
        }
        i += 1;
    }
    false
}

fn copy_entry(e: &SnapshotEntry) -> (r: SnapshotEntry)
    ensures
        r == *e,
{
    SnapshotEntry { name: e.name.clone(), creation: e.creation }
}

impl KeepRule {
    /// The indices into `entries` this rule wants destroyed.
    #[verifier::loop_isolation(false)]
    pub fn destroy_set(&self, entries: &[SnapshotEntry]) -> (r: Result<BTreeSet<usize>, PruneError>)
        ensures
            r is Ok <==> regex_compiles(keep_rule_regex(*self)),
            r matches Ok(s) ==> s@ == rule_destroy_set(*self, entries@),
            r matches Err(PruneError::Regex { pattern, .. }) ==> pattern@ == keep_rule_regex(*self),
    {
        let ghost es = entries@;
        let n = entries.len();
        match self {
            KeepRule::Grid { grid, regex } => {
                let pat = match compile(regex.as_str()) {
                    Ok(p) => p,
                    Err(e) => {
                        return Err(PruneError::Regex { pattern: regex.clone(), source: e.source });
                    },
                };
                let ghost m = matcher(regex@, es);
                let mut destroy: BTreeSet<usize> = BTreeSet::new();
                let mut only: Vec<SnapshotEntry> = Vec::new();
                let mut matched: Vec<bool> = Vec::new();
                let mut i: usize = 0;
                while i < n
                    invariant
                        i <= n == es.len(),
                        matched@.len() == i,
                        forall|x: int| 0 <= x < i ==> #[trigger] matched@[x] == m(x),
                        only@ == indices_where(i as int, m).map_values(|j: usize| es[j as int]),
                        destroy@ == Set::new(|x: usize| (x as int) < i && !m(x as int)),
                    decreases n - i,
                {
                    let hit = is_match(&pat, entries[i].name.as_str());
                    matched.push(hit);
                    let ghost before = destroy@;
                    if hit {
                        only.push(copy_entry(&entries[i]));
                        assert(only@ =~= indices_where(i + 1, m).map_values(|j: usize| es[j as int]));
                    } else {
                        destroy.insert(i);
                    }
                    assert(destroy@ =~= Set::new(|x: usize| (x as int) < i + 1 && !m(x as int)));
                    i += 1;
                }
                let ghost sub = only@;
                assert(sub.len() <= usize::MAX) by {
                    assert(sub.len() == only.len());
                }
                assert(sub == matching_entries(regex@, es));
                let (_keep, gd) = grid.fit(&only);
                let mut j: usize = 0;
                let mut k: usize = 0;
                proof {
                    lemma_indices_where_len(n as int, m);
                }
                while k < n
                    invariant
                        k <= n == es.len(),
                        j as nat == count_below(k as int, m),
                        sub.len() == count_below(n as int, m),
                        sub.len() <= usize::MAX,
                        destroy@ == Set::new(|x: usize| (x as int) < n && (!m(x as int) || ((x as int) < k
                            && grid_destroys(grid.0@, sub, count_below(x as int, m) as int)))),
                    decreases n - k,
                {
                    if matched[k] {
                        proof {
                            lemma_count_below_mono(k as int, n as int, m);
                            lemma_indices_where_contains(sub.len() as int, crate::retention::destroyed_by(grid.0@, sub), j as int);
                        }
                        if contains_index(&gd, j) {
                            destroy.insert(k);
                        }
                        j += 1;
                    }
                    assert(destroy@ =~= Set::new(|x: usize| (x as int) < n && (!m(x as int) || ((x as int) < k + 1
                        && grid_destroys(grid.0@, sub, count_below(x as int, m) as int)))));
                    k += 1;
                }
                assert(destroy@ =~= rule_destroy_set(*self, es));
                Ok(destroy)
            },
            KeepRule::Regex { regex, negate } => {
                let pat = match compile(regex.as_str()) {
                    Ok(p) => p,
                    Err(e) => {
                        return Err(PruneError::Regex { pattern: regex.clone(), source: e.source });
                    },
                };
                let mut destroy: BTreeSet<usize> = BTreeSet::new();
                let mut i: usize = 0;
                while i < n
                    invariant
                        i <= n == es.len(),
                        destroy@ == Set::new(|x: usize| (x as int) < i && rule_destroys(*self, es, x as int)),
                    decreases n - i,
                {
                    let matches = is_match(&pat, entries[i].name.as_str());
                    let in_destroy = if *negate { matches } else { !matches };
                    if in_destroy {
                        destroy.insert(i);
                    }
                    assert(destroy@ =~= Set::new(|x: usize| (x as int) < i + 1 && rule_destroys(*self, es, x as int)));
                    i += 1;
                }
                Ok(destroy)
            },
        }
    }
}

/// The indices every rule would destroy, in increasing order. With no
/// rules, nothing. Fails on the first rule whose pattern does not compile.
pub fn evaluate(rules: &[KeepRule], entries: &[SnapshotEntry]) -> (r: Result<Vec<usize>, PruneError>)
    ensures
        match r {
            Ok(v) => first_bad_rule(rules@, 0) is None && v@ == (if rules@.len() == 0 {
                Seq::<usize>::empty()
            } else {
                indices_where(entries@.len() as int, all_destroy(rules@, entries@))
            }),
            Err(PruneError::Regex { pattern, .. }) => first_bad_rule(rules@, 0) matches Some(k)
                && pattern@ == keep_rule_regex(rules@[k]),
        },
{
    if rules.len() == 0 {
        proof {
            lemma_first_bad_rule_none(rules@, 0);
        }
        return Ok(Vec::new());
    }
    let mut sets: Vec<BTreeSet<usize>> = Vec::new();
    let mut k: usize = 0;
    while k < rules.len()
        invariant
            k <= rules@.len(),
            sets@.len() == k,
            forall|x: int| 0 <= x < k ==> regex_compiles(keep_rule_regex(#[trigger] rules@[x])),
            forall|x: int| 0 <= x < k ==> (#[trigger] sets@[x])@ == rule_destroy_set(rules@[x], entries@),
        decreases rules.len() - k,
    {
        match rules[k].destroy_set(entries) {
            Ok(s) => {
                sets.push(s);
            },
            Err(e) => {
                proof {
                    lemma_first_bad_rule_some(rules@, 0, k as int);
                }
                return Err(e);
            },
        }
        k += 1;
    }
    proof {
        lemma_first_bad_rule_none(rules@, 0);
    }
    let ghost p = all_destroy(rules@, entries@);
    let mut out: Vec<usize> = Vec::new();
    let mut i: usize = 0;
    while i < entries.len()
        invariant
            i <= entries@.len(),
            sets@.len() == rules@.len(),
            forall|x: int| 0 <= x < rules@.len() ==> (#[trigger] sets@[x])@ == rule_destroy_set(rules@[x], entries@),
            out@ == indices_where(i as int, p),
            p == all_destroy(rules@, entries@),
        decreases entries.len() - i,
    {
        let mut all = true;
        let mut x: usize = 0;
        while x < sets.len()
            invariant
                x <= sets@.len() == rules@.len(),
                i < entries@.len(),
                forall|y: int| 0 <= y < rules@.len() ==> (#[trigger] sets@[y])@ == rule_destroy_set(rules@[y], entries@),
                all == (forall|y: int| 0 <= y < x ==> rule_destroys(#[trigger] rules@[y], entries@, i as int)),
            decreases sets.len() - x,
        {
            let has = sets[x].contains(&i);
            assert(has == rule_destroys(rules@[x as int], entries@, i as int));
            all = all && has;
            x += 1;
        }
        assert(all == p(i as int));
        if all {
            out.push(i);
        }
        assert(out@ == indices_where(i + 1, p));
        i += 1;
    }
    Ok(out)
}

/// One rule that keeps an entry saves it: an entry listed for
/// destruction is destroyed by every rule.
pub proof fn lemma_destroyed_only_by_consensus(rules: Seq<KeepRule>, entries: Seq<SnapshotEntry>, i: int, k: int)
    requires
        entries.len() <= usize::MAX,
        0 <= i <= usize::MAX,
        indices_where(entries.len() as int, all_destroy(rules, entries)).contains(i as usize),
        0 <= k < rules.len(),
    ensures
        i < entries.len(),
        rule_destroys(rules[k], entries, i),
{
    lemma_indices_where_contains(entries.len() as int, all_destroy(rules, entries), i);
}

/// An entry every rule destroys is listed for destruction.
pub proof fn lemma_consensus_destroys(rules: Seq<KeepRule>, entries: Seq<SnapshotEntry>, i: int)
    requires
        entries.len() <= usize::MAX,
        0 <= i < entries.len(),
        forall|k: int| 0 <= k < rules.len() ==> rule_destroys(#[trigger] rules[k], entries, i),
    ensures
        indices_where(entries.len() as int, all_destroy(rules, entries)).contains(i as usize),
{
    lemma_indices_where_contains(entries.len() as int, all_destroy(rules, entries), i);
}

proof fn lemma_indices_where_increasing(m: int, p: spec_fn(int) -> bool)
    requires
        m <= usize::MAX + 1,
    ensures
        forall|a: int, b: int|
            0 <= a < b < indices_where(m, p).len() ==> (#[trigger] indices_where(m, p)[a]) < (#[trigger] indices_where(
                m,
                p,
            )[b]),
    decreases m,
{
    if m > 0 {
        lemma_indices_where_increasing(m - 1, p);
        lemma_indices_where_bounded(m - 1, p);
        let s = indices_where(m - 1, p);
        if p(m - 1) {
            let t = s.push((m - 1) as usize);
            assert forall|a: int, b: int| 0 <= a < b < t.len() implies (#[trigger] t[a]) < (#[trigger] t[b]) by {
                assert(t[a] == s[a]);
                if b < s.len() {
                    assert(t[b] == s[b]);
                }
            }
        }
    }
}

/// Keep rules combine by intersection: the indices a non-empty rule
/// list destroys are, in increasing order, exactly those in every
/// rule's own destroy set (a snapshot goes only when every rule wants it
/// gone).
pub proof fn lemma_evaluate_is_intersection(rules: Seq<KeepRule>, entries: Seq<SnapshotEntry>, x: usize)
    requires
        entries.len() <= usize::MAX,
    ensures
        indices_where(entries.len() as int, all_destroy(rules, entries)).contains(x) <==> (forall|k: int|
            0 <= k < rules.len() ==> #[trigger] rule_destroy_set(rules[k], entries).contains(x)) && (x as int)
            < entries.len(),
        forall|a: int, b: int|
            0 <= a < b < indices_where(entries.len() as int, all_destroy(rules, entries)).len() ==> (
            #[trigger] indices_where(entries.len() as int, all_destroy(rules, entries))[a]) < (
            #[trigger] indices_where(entries.len() as int, all_destroy(rules, entries))[b]),
{
    lemma_indices_where_contains(entries.len() as int, all_destroy(rules, entries), x as int);
    lemma_indices_where_increasing(entries.len() as int, all_destroy(rules, entries));
    if (x as int) < entries.len() {
        if forall|k: int| 0 <= k < rules.len() ==> #[trigger] rule_destroy_set(rules[k], entries).contains(x) {
            assert forall|k: int| 0 <= k < rules.len() implies rule_destroys(#[trigger] rules[k], entries, x as int) by {
                assert(rule_destroy_set(rules[k], entries).contains(x));
            }
        }
    }
}

} // verus!
