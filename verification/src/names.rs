//! ZFS target-name validation at arctern's policy boundaries.
//!
//! Deliberately conservative: these checks decide what arctern accepts
//! from config and from remote clients before anything reaches `zfs`.
//! Every name component must begin with an ASCII letter or digit, which
//! also keeps a name from being read as a command-line flag.

use vstd::prelude::*;

use crate::text::{
    ascii_alnum, chars_contain, chars_of, debug_form, debug_str, index_of_from, is_ascii_alnum,
    is_unicode_whitespace, lemma_index_of_from, lemma_index_of_from_is, push_str, string_of,
    to_owned_string, unicode_whitespace,
};

verus! {

/// A `dataset@snapshot` name split into its two halves.
#[derive(Debug, Clone, PartialEq, Eq)]
pub struct SnapshotTarget<'a> {
    pub dataset: &'a str,
    pub snapshot: &'a str,
}

/// Characters a name component may hold.
pub open spec fn component_char_ok(c: char) -> bool {
    is_ascii_alnum(c) || c == '_' || c == '-' || c == '.' || c == ':' || c == '+'
}

/// Why `c` is not an acceptable name component, or `None` when it is.
pub open spec fn component_error(c: Seq<char>) -> Option<Seq<char>> {
    if c.len() == 0 {
        Some("component must not be empty"@)
    } else if !is_ascii_alnum(c[0]) {
        Some("component must begin with an alphanumeric character"@)
    } else if exists|i: int| 0 <= i < c.len() && is_unicode_whitespace(#[trigger] c[i]) {
        Some("component must not contain whitespace"@)
    } else if !(forall|i: int| 0 <= i < c.len() ==> component_char_ok(#[trigger] c[i])) {
        Some("component contains unsupported characters"@)
    } else {
        None
    }
}

/// A component is accepted exactly when it is not empty, begins with an
/// ASCII letter or digit, and holds only ASCII letters, digits, `_`, `-`,
/// `.`, `:` and `+`: a leading digit (`2024`, `2026-05-15`) is as good as
/// a leading letter. Such a component is also a valid snapshot name.
pub proof fn lemma_component_accepted_exactly(c: Seq<char>)
    ensures
        component_error(c) is None <==> ({
            &&& c.len() > 0
            &&& ('0' <= c[0] && c[0] <= '9') || ('a' <= c[0] && c[0] <= 'z') || ('A' <= c[0] && c[0] <= 'Z')
            &&& forall|i: int| #![trigger c[i]]
                0 <= i < c.len() ==> ('0' <= c[i] && c[i] <= '9') || ('a' <= c[i] && c[i] <= 'z') || ('A' <= c[i]
                    && c[i] <= 'Z') || c[i] == '_' || c[i] == '-' || c[i] == '.' || c[i] == ':' || c[i] == '+'
        }),
        component_error(c) is None ==> snapshot_leaf_error(c) is None,
{
    if forall|i: int| 0 <= i < c.len() ==> component_char_ok(#[trigger] c[i]) {
        assert(!(exists|i: int| 0 <= i < c.len() && is_unicode_whitespace(#[trigger] c[i])));
        assert(!c.contains('/'));
        assert(!c.contains('@'));
        assert(!c.contains('#'));
    }
}

/// Two adjacent `/`: an empty path component between them.
pub open spec fn has_double_slash(s: Seq<char>) -> bool {
    exists|i: int| 0 <= i && i + 1 < s.len() && #[trigger] s[i] == '/' && s[i + 1] == '/'
}

/// The first bad `/`-separated component of `s` at or after `start`.
pub open spec fn parts_error(s: Seq<char>, start: int) -> Option<Seq<char>>
    decreases s.len() - start,
{
    if start < 0 || start > s.len() {
        None
    } else {
        let e = index_of_from(s, '/', start);
        let part = s.subrange(start, e);
        match component_error(part) {
            Some(m) => Some("dataset component "@ + debug_form(part) + ": "@ + m),
            None => if part == "."@ || part == ".."@ {
                Some("dataset component "@ + debug_form(part) + " is not allowed"@)
            } else if e >= s.len() {
                None
            } else {
                proof {
                    lemma_index_of_from(s, '/', start);
                }
                parts_error(s, e + 1)
            },
        }
    }
}

/// Why `s` is not an acceptable dataset name, or `None` when it is.
pub open spec fn dataset_name_error(s: Seq<char>) -> Option<Seq<char>> {
    if s.len() == 0 {
        Some("dataset name must not be empty"@)
    } else if s[0] == '/' || s.last() == '/' {
        Some("dataset name must not start or end with '/'"@)
    } else if s.contains('@') || s.contains('#') {
        Some("dataset name must not contain '@' or '#'"@)
    } else if has_double_slash(s) {
        Some("dataset name must not contain empty path components"@)
    } else {
        parts_error(s, 0)
    }
}

/// Why `s` is not an acceptable snapshot leaf (the part after `@`).
pub open spec fn snapshot_leaf_error(s: Seq<char>) -> Option<Seq<char>> {
    if s.len() == 0 {
        Some("snapshot name must not be empty"@)
    } else if s.contains('/') || s.contains('@') || s.contains('#') {
        Some("snapshot name must not contain '/', '@', or '#'"@)
    } else {
        component_error(s)
    }
}

/// Why `s` is not an acceptable `dataset@snapshot` target.
pub open spec fn snapshot_target_error(s: Seq<char>) -> Option<Seq<char>> {
    let at = index_of_from(s, '@', 0);
    let dataset = s.subrange(0, at);
    let snapshot = s.subrange(at + 1, s.len() as int);
    if at >= s.len() {
        Some("snapshot target must be dataset@snapshot"@)
    } else if snapshot.contains('@') || dataset.contains('@') {
        Some("snapshot target must contain exactly one '@'"@)
    } else if dataset.contains('#') || snapshot.contains('#') {
        Some("snapshot target must not contain bookmark syntax '#'"@)
    } else if dataset_name_error(dataset) is Some {
        Some("snapshot dataset: "@ + dataset_name_error(dataset).unwrap())
    } else if snapshot_leaf_error(snapshot) is Some {
        Some("snapshot name: "@ + snapshot_leaf_error(snapshot).unwrap())
    } else {
        None
    }
}

/// `name` splits at position `i` into a dataset and a snapshot name:
/// an `@` there, no other `@` in `name`, both halves valid.
pub open spec fn splits_at(name: Seq<char>, i: int) -> bool {
    &&& 0 <= i < name.len()
    &&& name[i] == '@'
    &&& !name.subrange(0, i).contains('@')
    &&& !name.subrange(i + 1, name.len() as int).contains('@')
    &&& dataset_name_error(name.subrange(0, i)) is None
    &&& snapshot_leaf_error(name.subrange(i + 1, name.len() as int)) is None
}

/// A snapshot target is accepted exactly when it holds one `@` with a
/// valid dataset name before it and a valid snapshot name after it; the
/// two halves then give the name back around that `@`.
pub proof fn lemma_snapshot_target_split(name: Seq<char>)
    ensures
        snapshot_target_error(name) is None <==> exists|i: int| #[trigger] splits_at(name, i),
        snapshot_target_error(name) is None ==> ({
            let at = index_of_from(name, '@', 0);
            &&& splits_at(name, at)
            &&& name.subrange(0, at) + seq!['@'] + name.subrange(at + 1, name.len() as int) == name
        }),
{
    let at = index_of_from(name, '@', 0);
    lemma_index_of_from(name, '@', 0);
    if at < name.len() {
        assert(name.subrange(0, at) + seq!['@'] + name.subrange(at + 1, name.len() as int) =~= name);
        if !name.subrange(0, at).contains('@') {
        } else {
            let k = choose|k: int| 0 <= k < at && name.subrange(0, at)[k] == '@';
            assert(name[k] == '@');
        }
    }
    if exists|i: int| #[trigger] splits_at(name, i) {
        let i = choose|i: int| #[trigger] splits_at(name, i);
        assert forall|k: int| 0 <= k < i implies name[k] != '@' by {
            assert(name.subrange(0, i)[k] == name[k]);
        }
        lemma_index_of_from_is(name, '@', 0, i);
        assert(!name.subrange(0, i).contains('#'));
        assert(!name.subrange(i + 1, name.len() as int).contains('#'));
    }
    if snapshot_target_error(name) is None {
        assert(splits_at(name, at));
    }
}

/// A `Result<(), String>` that is `Ok` exactly when `err` is `None`,
/// and otherwise carries `err`'s text.
pub open spec fn result_matches(r: Result<(), String>, err: Option<Seq<char>>) -> bool {
    match r {
        Ok(_) => err is None,
        Err(m) => err == Some(m@),
    }
}

fn err_lit(s: &str) -> (r: Result<(), String>)
    ensures
        r matches Err(m) && m@ == s@,
{
    Err(to_owned_string(s))
}

/// Checks one component held in `v[from..to]`.
#[verifier::loop_isolation(false)]
pub fn check_component(v: &[char], from: usize, to: usize) -> (r: Result<(), String>)
    requires
        from <= to <= v@.len(),
    ensures
        result_matches(r, component_error(v@.subrange(from as int, to as int))),
{
    let ghost c = v@.subrange(from as int, to as int);
    if from == to {
        return err_lit("component must not be empty");
    }
    if !ascii_alnum(v[from]) {
        assert(c[0] == v@[from as int]);
        return err_lit("component must begin with an alphanumeric character");
    }
    let mut i = from;
    while i < to
        invariant
            from <= i <= to <= v@.len(),
            c == v@.subrange(from as int, to as int),
            forall|k: int| 0 <= k < i - from ==> !is_unicode_whitespace(#[trigger] c[k]),
        decreases to - i,
    {
        if unicode_whitespace(v[i]) {
            assert(c[i - from] == v@[i as int]);
            return err_lit("component must not contain whitespace");
        }
        i += 1;
    }
    let mut j = from;
    while j < to
        invariant
            from <= j <= to <= v@.len(),
            c == v@.subrange(from as int, to as int),
            forall|k: int| 0 <= k < j - from ==> component_char_ok(#[trigger] c[k]),
        decreases to - j,
    {
        let ch = v[j];
        if !(ascii_alnum(ch) || ch == '_' || ch == '-' || ch == '.' || ch == ':' || ch == '+') {
            assert(c[j - from] == ch);
            return err_lit("component contains unsupported characters");
        }
        j += 1;
    }
    Ok(())
}

/// Validates a single name component (no `/`).
pub fn validate_component(component: &str) -> (r: Result<(), String>)
    ensures
        result_matches(r, component_error(component@)),
{
    let v = chars_of(component);
    assert(v@.subrange(0, v@.len() as int) =~= v@);
    check_component(&v, 0, v.len())
}

/// Validates a dataset path such as `tank/backups/laptop`.
#[verifier::loop_isolation(false)]
pub fn validate_dataset_name(name: &str) -> (r: Result<(), String>)
    ensures
        result_matches(r, dataset_name_error(name@)),
{
    let v = chars_of(name);
    let n = v.len();
    if n == 0 {
        return err_lit("dataset name must not be empty");
    }
    if v[0] == '/' || v[n - 1] == '/' {
        return err_lit("dataset name must not start or end with '/'");
    }
    if chars_contain(&v, '@') || chars_contain(&v, '#') {
        return err_lit("dataset name must not contain '@' or '#'");
    }
    let mut i: usize = 0;
    while i + 1 < n
        invariant
            n == v@.len(),
            i < n,
            forall|k: int| 0 <= k < i ==> !(#[trigger] v@[k] == '/' && v@[k + 1] == '/'),
        decreases n - i,
    {
        if v[i] == '/' && v[i + 1] == '/' {
            assert(v@[i as int] == '/' && v@[i + 1] == '/');
            return err_lit("dataset name must not contain empty path components");
        }
        i += 1;
    }
    assert(!has_double_slash(v@));
    check_parts(&v, 0)
}

/// Checks every `/`-separated component of `v` from `start` on.
fn check_parts(v: &[char], start: usize) -> (r: Result<(), String>)
    requires
        start <= v@.len(),
    ensures
        result_matches(r, parts_error(v@, start as int)),
    decreases v@.len() - start,
{
    let n = v.len();
    let mut e = start;
    while e < n && v[e] != '/'
        invariant
            start <= e <= n == v@.len(),
            forall|k: int| start <= k < e ==> v@[k] != '/',
        decreases n - e,
    {
        e += 1;
    }
    proof {
        lemma_index_of_from_is(v@, '/', start as int, e as int);
    }
    let ghost part = v@.subrange(start as int, e as int);
    match check_component(v, start, e) {
        Err(m) => {
            let part_str = string_of(v, start, e);
            let mut msg = to_owned_string("dataset component ");
            let dbg = debug_str(part_str.as_str());
            push_str(&mut msg, dbg.as_str());
            push_str(&mut msg, ": ");
            push_str(&mut msg, m.as_str());
            Err(msg)
        },
        Ok(()) => {
            let is_dot = e - start == 1 && v[start] == '.';
            let is_dotdot = e - start == 2 && v[start] == '.' && v[start + 1] == '.';
            proof {
                reveal_strlit(".");
                reveal_strlit("..");
                if part == "."@ {
                    assert(part[0] == '.');
                }
                if part == ".."@ {
                    assert(part[0] == '.' && part[1] == '.');
                }
                if is_dot {
                    assert(part =~= "."@);
                }
                if is_dotdot {
                    assert(part =~= ".."@);
                }
            }
            if is_dot || is_dotdot {
                let part_str = string_of(v, start, e);
                let mut msg = to_owned_string("dataset component ");
                let dbg = debug_str(part_str.as_str());
                push_str(&mut msg, dbg.as_str());
                push_str(&mut msg, " is not allowed");
                return Err(msg);
            }
            if e >= n {
                Ok(())
            } else {
                check_parts(v, e + 1)
            }
        },
    }
}

/// Validates the part of a snapshot name after `@`.
pub fn validate_snapshot_leaf(name: &str) -> (r: Result<(), String>)
    ensures
        result_matches(r, snapshot_leaf_error(name@)),
{
    let v = chars_of(name);
    if v.len() == 0 {
        return err_lit("snapshot name must not be empty");
    }
    if chars_contain(&v, '/') || chars_contain(&v, '@') || chars_contain(&v, '#') {
        return err_lit("snapshot name must not contain '/', '@', or '#'");
    }
    assert(v@.subrange(0, v@.len() as int) =~= v@);
    check_component(&v, 0, v.len())
}

fn prefixed(prefix: &str, m: String) -> (r: String)
    ensures
        r@ == prefix@ + m@,
{
    let mut r = to_owned_string(prefix);
    push_str(&mut r, m.as_str());
    r
}

/// Splits and validates a `dataset@snapshot` name.
pub fn parse_snapshot_target(name: &str) -> (r: Result<SnapshotTarget<'_>, String>)
    ensures
        match r {
            Ok(t) => snapshot_target_error(name@) is None
                && t.dataset@ == name@.subrange(0, index_of_from(name@, '@', 0))
                && t.snapshot@ == name@.subrange(index_of_from(name@, '@', 0) + 1, name@.len() as int),
            Err(m) => snapshot_target_error(name@) == Some(m@),
        },
{
    let v = chars_of(name);
    let n = v.len();
    let mut at: usize = 0;
    while at < n && v[at] != '@'
        invariant
            at <= n == v@.len(),
            forall|k: int| 0 <= k < at ==> v@[k] != '@',
        decreases n - at,
    {
        at += 1;
    }
    proof {
        lemma_index_of_from_is(v@, '@', 0, at as int);
    }
    if at == n {
        return Err(to_owned_string("snapshot target must be dataset@snapshot"));
    }
    let dataset = name.substring_char(0, at);
    let snapshot = name.substring_char(at + 1, n);
    let dv = chars_of(dataset);
    let sv = chars_of(snapshot);
    if chars_contain(&sv, '@') || chars_contain(&dv, '@') {
        return Err(to_owned_string("snapshot target must contain exactly one '@'"));
    }
    if chars_contain(&dv, '#') || chars_contain(&sv, '#') {
        return Err(to_owned_string("snapshot target must not contain bookmark syntax '#'"));
    }
    match validate_dataset_name(dataset) {
        Err(e) => return Err(prefixed("snapshot dataset: ", e)),
        Ok(()) => {},
    }
    match validate_snapshot_leaf(snapshot) {
        Err(e) => return Err(prefixed("snapshot name: ", e)),
        Ok(()) => {},
    }
    Ok(SnapshotTarget { dataset, snapshot })
}

} // verus!
