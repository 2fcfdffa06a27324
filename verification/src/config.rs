//! Semantic checks of a parsed configuration: what serde cannot express.
//!
//! Every check reports the first problem it finds, with the field path
//! (`jobs[N].pruning.keep[M].grid` shape) in front of the reason.

use vstd::prelude::*;

use crate::bandwidth::{bytes_per_sec, parse_bytes_per_sec};
use crate::grid::{duration_text, format_nanos, KeepCount};
use crate::names::{component_error, dataset_name_error, result_matches, validate_component, validate_dataset_name};
use crate::pattern::{compile, regex_compiles, regex_error_text};
use crate::schema::{
    job_name, keep_rule_regex, AllowedClient, Config, FilesystemFilter, JobConfig, KeepRule, PeerConfig,
    PruneJobConfig, PushJobConfig, RouteConfig, SnapJobConfig,
};
use crate::text::{
    chars_contain_run, chars_eq, chars_of, chars_start_with, contains_seq, debug_form, debug_str,
    decimal, decimal_string, first_from, lemma_first_from_skip, push_str, starts_with, str_eq,
    to_owned_string, trim_end_char, trim_end_chars,
};

verus! {

/// Longest job or peer name, in bytes. Both are interpolated into the
/// replication cursor bookmark name, which ZFS caps at 255 bytes.
pub const MAX_IDENTIFIER_LEN: usize = 64;

/// `head`, then `i` in decimal, then `tail`.
pub open spec fn indexed(head: Seq<char>, i: nat, tail: Seq<char>) -> Seq<char> {
    head + decimal(i) + tail
}

fn indexed_string(head: &str, i: usize, tail: &str) -> (r: String)
    ensures
        r@ == indexed(head@, i as nat, tail@),
{
    let mut r = to_owned_string(head);
    let d = decimal_string(i as u64);
    push_str(&mut r, d.as_str());
    push_str(&mut r, tail);
    r
}

fn joined(a: String, b: &str) -> (r: String)
    ensures
        r@ == a@ + b@,
{
    let mut r = a;
    push_str(&mut r, b);
    r
}

/// The UTF-8 length of `s`.
pub open spec fn byte_len(s: Seq<char>) -> nat {
    vstd::utf8::encode_utf8(s).len()
}

/// Why a name may not hold `marker`.
pub open spec fn marker_message(marker: Seq<char>) -> Seq<char> {
    "must not contain "@ + debug_form(marker)
        + ": it separates the job and peer in replication cursor bookmark names"@
}

/// Why `name` is not an acceptable job or peer name, or `None`.
pub open spec fn identifier_error(name: Seq<char>) -> Option<Seq<char>> {
    if name.len() == 0 {
        Some("must not be empty"@)
    } else if byte_len(name) > MAX_IDENTIFIER_LEN {
        Some(indexed("must be at most "@, MAX_IDENTIFIER_LEN as nat, " bytes, got "@) + decimal(byte_len(name)))
    } else if component_error(name) is Some {
        component_error(name)
    } else if contains_seq(name, "_J_"@) {
        Some(marker_message("_J_"@))
    } else if contains_seq(name, "_P_"@) {
        Some(marker_message("_P_"@))
    } else {
        None
    }
}

fn refuse_marker(v: &Vec<char>, marker: &str) -> (r: Result<(), String>)
    ensures
        result_matches(r, if contains_seq(v@, marker@) { Some(marker_message(marker@)) } else { None }),
{
    let m = chars_of(marker);
    if chars_contain_run(v.as_slice(), m.as_slice()) {
        let mut msg = to_owned_string("must not contain ");
        let d = debug_str(marker);
        push_str(&mut msg, d.as_str());
        push_str(&mut msg, ": it separates the job and peer in replication cursor bookmark names");
        return Err(msg);
    }
    Ok(())
}

/// Job and peer names are interpolated into the step hold tag, the
/// cursor bookmark name and the dispatcher's command line, so they are
/// held to one name component, a length cap, and neither `_J_` nor
/// `_P_` (the markers the cursor scheme parses on).
pub fn validate_identifier(name: &str) -> (r: Result<(), String>)
    ensures
        result_matches(r, identifier_error(name@)),
{
    if name.is_empty() {
        return Err(to_owned_string("must not be empty"));
    }
    let n = name.as_bytes().len();
    if n > MAX_IDENTIFIER_LEN {
        let m = indexed_string("must be at most ", MAX_IDENTIFIER_LEN, " bytes, got ");
        let d = decimal_string(n as u64);
        return Err(joined(m, d.as_str()));
    }
    match validate_component(name) {
        Err(e) => return Err(e),
        Ok(()) => {},
    }
    let v = chars_of(name);
    match refuse_marker(&v, "_J_") {
        Err(e) => return Err(e),
        Ok(()) => {},
    }
    refuse_marker(&v, "_P_")
}

// ---------------------------------------------------------------------
// Allowed clients
// ---------------------------------------------------------------------

/// An operation the access list understands.
pub open spec fn op_known(op: Seq<char>) -> bool {
    op == "recv"@ || op == "control"@ || op == "events"@ || starts_with(op, "control:"@)
}

/// An operation that writes under the client's `root_fs`.
pub open spec fn op_needs_root_fs(op: Seq<char>) -> bool {
    op == "recv"@ || op == "control"@
}

/// Operation `i` is not understood.
pub open spec fn unknown_op_at(ops: Seq<String>) -> spec_fn(int) -> bool {
    |i: int| !op_known(ops[i]@)
}

/// Why allowed client number `idx` is malformed, or `None`.
pub open spec fn allowed_client_error(idx: nat, c: AllowedClient) -> Option<Seq<char>> {
    let head = "allowed_clients["@ + decimal(idx);
    let ops = c.operations@;
    if c.identity@.len() == 0 {
        Some(head + "].identity: must not be empty"@)
    } else if c.jobs@.len() == 0 {
        Some(head + "].jobs: must not be empty"@)
    } else if ops.len() == 0 {
        Some(head + "].operations: must not be empty"@)
    } else if let Some(k) = first_from(0, ops.len() as int, unknown_op_at(ops)) {
        Some(head + "].operations: unknown operation "@ + debug_form(ops[k]@)
            + " (expected \"recv\", \"control\", \"events\", or \"control:*\")"@)
    } else if exists|k: int| 0 <= k < ops.len() && op_needs_root_fs(#[trigger] ops[k]@) {
        match c.root_fs {
            None => Some(head + "].root_fs: required when operations include recv or control"@),
            Some(fs) => if fs@.len() == 0 {
                Some(head + "].root_fs: must not be empty"@)
            } else if let Some(e) = dataset_name_error(fs@) {
                Some(head + "].root_fs: invalid dataset name "@ + debug_form(fs@) + ": "@ + e)
            } else {
                None
            },
        }
    } else {
        None
    }
}

fn is_known_op(op: &str) -> (r: bool)
    ensures
        r == op_known(op@),
{
    let v = chars_of(op);
    let p = chars_of("control:");
    str_eq(op, "recv") || str_eq(op, "control") || str_eq(op, "events") || chars_start_with(&v, &p)
}

/// Checks allowed client number `idx`.
#[verifier::loop_isolation(false)]
pub fn validate_allowed_client(idx: usize, client: &AllowedClient) -> (r: Result<(), String>)
    ensures
        result_matches(r, allowed_client_error(idx as nat, *client)),
{
    if client.identity.as_str().is_empty() {
        return Err(indexed_string("allowed_clients[", idx, "].identity: must not be empty"));
    }
    if client.jobs.len() == 0 {
        return Err(indexed_string("allowed_clients[", idx, "].jobs: must not be empty"));
    }
    let ops = &client.operations;
    if ops.len() == 0 {
        return Err(indexed_string("allowed_clients[", idx, "].operations: must not be empty"));
    }
    let ghost p = unknown_op_at(ops@);
    let mut k: usize = 0;
    while k < ops.len()
        invariant
            k <= ops@.len(),
            p == unknown_op_at(ops@),
            first_from(0, ops@.len() as int, p) == first_from(k as int, ops@.len() as int, p),
        decreases ops.len() - k,
    {
        if !is_known_op(ops[k].as_str()) {
            assert(p(k as int));
            let m = indexed_string("allowed_clients[", idx, "].operations: unknown operation ");
            let d = debug_str(ops[k].as_str());
            let m = joined(m, d.as_str());
            return Err(joined(m, " (expected \"recv\", \"control\", \"events\", or \"control:*\")"));
        }
        proof {
            lemma_first_from_skip(k as int, k + 1, ops@.len() as int, p);
        }
        k += 1;
    }
    let mut needs = false;
    let mut j: usize = 0;
    while j < ops.len()
        invariant
            j <= ops@.len(),
            needs == exists|x: int| 0 <= x < j && op_needs_root_fs(#[trigger] ops@[x]@),
        decreases ops.len() - j,
    {
        if str_eq(ops[j].as_str(), "recv") || str_eq(ops[j].as_str(), "control") {
            needs = true;
        }
        j += 1;
    }
    if needs {
        match &client.root_fs {
            None => {
                return Err(indexed_string(
                    "allowed_clients[",
                    idx,
                    "].root_fs: required when operations include recv or control",
                ));
            },
            Some(fs) => {
                if fs.as_str().is_empty() {
                    return Err(indexed_string("allowed_clients[", idx, "].root_fs: must not be empty"));
                }
                match validate_dataset_name(fs.as_str()) {
                    Err(e) => {
                        let m = indexed_string("allowed_clients[", idx, "].root_fs: invalid dataset name ");
                        let d = debug_str(fs.as_str());
                        let m = joined(m, d.as_str());
                        let m = joined(m, ": ");
                        return Err(joined(m, e.as_str()));
                    },
                    Ok(()) => {},
                }
            },
        }
    }
    Ok(())
}

// ---------------------------------------------------------------------
// Filesystem filters
// ---------------------------------------------------------------------

/// What is wrong with exclude entry `e` of a filter rooted at `path`
/// (the text after `]: `), or `None`. A trailing `/` marks a subtree
/// and is not part of the dataset name.
pub open spec fn exclude_fault(e: Seq<char>, path: Seq<char>) -> Option<Seq<char>> {
    let name = trim_end_char(e, '/');
    if let Some(m) = dataset_name_error(name) {
        Some("invalid dataset name "@ + debug_form(e) + ": "@ + m)
    } else if !(name == path || starts_with(name, path.push('/'))) {
        Some(debug_form(e) + " is not a descendant of "@ + debug_form(path))
    } else {
        None
    }
}

/// Exclude `i` is faulty.
pub open spec fn bad_exclude_at(ex: Seq<String>, path: Seq<char>) -> spec_fn(int) -> bool {
    |i: int| exclude_fault(ex[i]@, path) is Some
}

/// Why filter `fi` of job `idx` is malformed, or `None`.
pub open spec fn filter_error(idx: nat, fi: nat, f: FilesystemFilter) -> Option<Seq<char>> {
    let head = "jobs["@ + decimal(idx) + "].filesystems["@ + decimal(fi);
    let path = f.path@;
    let ex = f.exclude@;
    if let Some(m) = dataset_name_error(path) {
        Some(head + "].path: invalid dataset name "@ + debug_form(path) + ": "@ + m)
    } else if ex.len() > 0 && !f.recursive {
        Some(head + "]: exclude requires recursive = true"@)
    } else if !f.recursive {
        None
    } else if let Some(ei) = first_from(0, ex.len() as int, bad_exclude_at(ex, path)) {
        Some(head + "].exclude["@ + decimal(ei as nat) + "]: "@ + exclude_fault(ex[ei]@, path).unwrap())
    } else {
        None
    }
}

fn check_exclude(e: &str, path: &str) -> (r: Result<(), String>)
    ensures
        result_matches(r, exclude_fault(e@, path@)),
{
    let ev = chars_of(e);
    let nv = trim_end_chars(ev.as_slice(), '/');
    let name = crate::text::string_from_chars(nv.as_slice());
    match validate_dataset_name(name.as_str()) {
        Err(m) => {
            let mut msg = to_owned_string("invalid dataset name ");
            let d = debug_str(e);
            push_str(&mut msg, d.as_str());
            push_str(&mut msg, ": ");
            push_str(&mut msg, m.as_str());
            return Err(msg);
        },
        Ok(()) => {},
    }
    let pv = chars_of(path);
    let mut prefix = chars_of(path);
    prefix.push('/');
    if !(chars_eq(&nv, &pv) || chars_start_with(&nv, &prefix)) {
        let mut msg = debug_str(e);
        push_str(&mut msg, " is not a descendant of ");
        let d = debug_str(path);
        push_str(&mut msg, d.as_str());
        return Err(msg);
    }
    Ok(())
}

fn filter_head(idx: usize, fi: usize, tail: &str) -> (r: String)
    ensures
        r@ == "jobs["@ + decimal(idx as nat) + "].filesystems["@ + decimal(fi as nat) + tail@,
{
    let m = indexed_string("jobs[", idx, "].filesystems[");
    let d = decimal_string(fi as u64);
    let m = joined(m, d.as_str());
    joined(m, tail)
}

/// Checks filter `fi` of job `idx`.
#[verifier::loop_isolation(false)]
pub fn validate_filesystem_filter(idx: usize, fi: usize, f: &FilesystemFilter) -> (r: Result<(), String>)
    ensures
        result_matches(r, filter_error(idx as nat, fi as nat, *f)),
{
    match validate_dataset_name(f.path.as_str()) {
        Err(e) => {
            let m = filter_head(idx, fi, "].path: invalid dataset name ");
            let d = debug_str(f.path.as_str());
            let m = joined(m, d.as_str());
            let m = joined(m, ": ");
            return Err(joined(m, e.as_str()));
        },
        Ok(()) => {},
    }
    if f.exclude.len() > 0 && !f.recursive {
        return Err(filter_head(idx, fi, "]: exclude requires recursive = true"));
    }
    if !f.recursive {
        return Ok(());
    }
    let ex = &f.exclude;
    let ghost p = bad_exclude_at(ex@, f.path@);
    let mut ei: usize = 0;
    while ei < ex.len()
        invariant
            ei <= ex@.len(),
            p == bad_exclude_at(ex@, f.path@),
            first_from(0, ex@.len() as int, p) == first_from(ei as int, ex@.len() as int, p),
        decreases ex.len() - ei,
    {
        match check_exclude(ex[ei].as_str(), f.path.as_str()) {
            Err(e) => {
                assert(p(ei as int));
                let m = filter_head(idx, fi, "].exclude[");
                let d = decimal_string(ei as u64);
                let m = joined(m, d.as_str());
                let m = joined(m, "]: ");
                return Err(joined(m, e.as_str()));
            },
            Ok(()) => {},
        }
        proof {
            lemma_first_from_skip(ei as int, ei + 1, ex@.len() as int, p);
        }
        ei += 1;
    }
    Ok(())
}

// ---------------------------------------------------------------------
// First faults
// ---------------------------------------------------------------------

/// The fault of the first item in `[k, n)` that has one.
pub open spec fn first_fault_from(k: int, n: int, f: spec_fn(int) -> Option<Seq<char>>) -> Option<Seq<char>>
    decreases n - k,
{
    if k < 0 || k >= n {
        None
    } else if f(k) is Some {
        f(k)
    } else {
        first_fault_from(k + 1, n, f)
    }
}

/// `a` if it is a fault, else `b`.
pub open spec fn or_else(a: Option<Seq<char>>, b: Option<Seq<char>>) -> Option<Seq<char>> {
    if a is Some { a } else { b }
}

/// `jobs[idx`.
pub open spec fn job_head(idx: nat) -> Seq<char> {
    "jobs["@ + decimal(idx)
}

/// The faults of a job's filters, by position.
pub open spec fn filter_faults(idx: nat, fs: Seq<FilesystemFilter>) -> spec_fn(int) -> Option<Seq<char>> {
    |i: int| filter_error(idx, i as nat, fs[i])
}

/// The first faulty filter of job `idx`.
pub open spec fn filters_error(idx: nat, fs: Seq<FilesystemFilter>) -> Option<Seq<char>> {
    first_fault_from(0, fs.len() as int, filter_faults(idx, fs))
}

fn validate_filters(idx: usize, fs: &Vec<FilesystemFilter>) -> (r: Result<(), String>)
    ensures
        result_matches(r, filters_error(idx as nat, fs@)),
{
    let ghost f = filter_faults(idx as nat, fs@);
    let mut fi: usize = 0;
    while fi < fs.len()
        invariant
            fi <= fs@.len(),
            f == filter_faults(idx as nat, fs@),
            first_fault_from(0, fs@.len() as int, f) == first_fault_from(fi as int, fs@.len() as int, f),
        decreases fs.len() - fi,
    {
        match validate_filesystem_filter(idx, fi, &fs[fi]) {
            Err(e) => {
                assert(f(fi as int) is Some);
                return Err(e);
            },
            Ok(()) => {},
        }
        fi += 1;
    }
    Ok(())
}

/// Rule `ki` of job `idx` does not compile.
pub open spec fn regex_message(idx: nat, ki: nat, pat: Seq<char>) -> Seq<char> {
    job_head(idx) + "].pruning.keep["@ + decimal(ki) + "].regex: "@ + debug_form(pat) + ": "@ + regex_error_text(pat)
}

fn regex_error_string(idx: usize, ki: usize, pat: &str, err: &str) -> (r: String)
    ensures
        r@ == job_head(idx as nat) + "].pruning.keep["@ + decimal(ki as nat) + "].regex: "@ + debug_form(pat@) + ": "@ + err@,
{
    let m = indexed_string("jobs[", idx, "].pruning.keep[");
    let d = decimal_string(ki as u64);
    let m = joined(m, d.as_str());
    let m = joined(m, "].regex: ");
    let q = debug_str(pat);
    let m = joined(m, q.as_str());
    let m = joined(m, ": ");
    joined(m, err)
}

/// A prune job's faults in its keep rules, by position.
pub open spec fn prune_rule_faults(idx: nat, keep: Seq<KeepRule>) -> spec_fn(int) -> Option<Seq<char>> {
    |ki: int| if regex_compiles(keep_rule_regex(keep[ki])) {
        None
    } else {
        Some(regex_message(idx, ki as nat, keep_rule_regex(keep[ki])))
    }
}

/// Why prune job `idx` is malformed, or `None`.
pub open spec fn prune_job_error(idx: nat, s: PruneJobConfig) -> Option<Seq<char>> {
    let h = job_head(idx);
    let keep = s.pruning.keep@;
    if s.name@.len() == 0 {
        Some(h + "].name: must not be empty"@)
    } else if s.filesystems@.len() == 0 {
        Some(h + "].filesystems: must not be empty (the job would match nothing)"@)
    } else if keep.len() == 0 {
        Some(h + "].pruning.keep: must not be empty for a prune job"@)
    } else if s.interval == 0 {
        Some(h + "].interval: must be longer than zero (a zero interval spins)"@)
    } else {
        or_else(filters_error(idx, s.filesystems@), first_fault_from(0, keep.len() as int, prune_rule_faults(idx, keep)))
    }
}

fn rule_pattern(k: &KeepRule) -> (r: &String)
    ensures
        r@ == keep_rule_regex(*k),
{
    match k {
        KeepRule::Grid { regex, .. } => regex,
        KeepRule::Regex { regex, .. } => regex,
    }
}

/// Checks prune job `idx`.
#[verifier::loop_isolation(false)]
pub fn validate_prune(idx: usize, s: &PruneJobConfig) -> (r: Result<(), String>)
    ensures
        result_matches(r, prune_job_error(idx as nat, *s)),
{
    if s.name.as_str().is_empty() {
        return Err(indexed_string("jobs[", idx, "].name: must not be empty"));
    }
    if s.filesystems.len() == 0 {
        return Err(indexed_string("jobs[", idx, "].filesystems: must not be empty (the job would match nothing)"));
    }
    let keep = &s.pruning().keep;
    if keep.len() == 0 {
        return Err(indexed_string("jobs[", idx, "].pruning.keep: must not be empty for a prune job"));
    }
    if s.interval == 0 {
        return Err(indexed_string("jobs[", idx, "].interval: must be longer than zero (a zero interval spins)"));
    }
    match validate_filters(idx, &s.filesystems) {
        Err(e) => return Err(e),
        Ok(()) => {},
    }
    let ghost f = prune_rule_faults(idx as nat, keep@);
    let mut ki: usize = 0;
    while ki < keep.len()
        invariant
            ki <= keep@.len(),
            f == prune_rule_faults(idx as nat, keep@),
            first_fault_from(0, keep@.len() as int, f) == first_fault_from(ki as int, keep@.len() as int, f),
        decreases keep.len() - ki,
    {
        let pat = rule_pattern(&keep[ki]);
        match compile(pat.as_str()) {
            Err(e) => {
                assert(f(ki as int) is Some);
                return Err(regex_error_string(idx, ki, pat.as_str(), e.message.as_str()));
            },
            Ok(_) => {},
        }
        ki += 1;
    }
    Ok(())
}

/// Why rule `ki` of snap job `idx` (taking a snapshot every `interval`
/// nanoseconds) is refused: a pattern that does not compile, or a grid
/// whose first bucket is longer than the interval and not `keep=all`
/// (the grid keeps the oldest snapshot of a bucket, so every new
/// snapshot would be destroyed as soon as it is taken).
pub open spec fn snap_rule_fault(idx: nat, ki: nat, k: KeepRule, interval: u128) -> Option<Seq<char>> {
    if !regex_compiles(keep_rule_regex(k)) {
        Some(regex_message(idx, ki, keep_rule_regex(k)))
    } else {
        match k {
            KeepRule::Grid { grid, .. } => {
                let ivs = grid.0@;
                if ivs.len() > 0 && ivs[0].keep_count != KeepCount::All && ivs[0].length > interval {
                    Some(first_bucket_message(idx, ki, ivs[0].length, interval))
                } else {
                    None
                }
            },
            KeepRule::Regex { .. } => None,
        }
    }
}

/// The refusal of a first grid bucket longer than the snapshot interval.
pub open spec fn first_bucket_message(idx: nat, ki: nat, length: u128, interval: u128) -> Seq<char> {
    job_head(idx) + "].pruning.keep["@ + decimal(ki) + "].grid: the first bucket ("@ + duration_text(length)
        + ") is longer than the snapshot interval ("@ + duration_text(interval)
        + ") and is not keep=all, so every new snapshot would be destroyed as soon as it is taken; start the grid with `1x"@
        + duration_text(length) + "(keep=all)` or a bucket no longer than the interval"@
}

/// A snap job's faults in its keep rules, by position.
pub open spec fn snap_rule_faults(idx: nat, keep: Seq<KeepRule>, interval: u128) -> spec_fn(int) -> Option<Seq<char>> {
    |ki: int| snap_rule_fault(idx, ki as nat, keep[ki], interval)
}

/// Why snap job `idx` is malformed, or `None`.
pub open spec fn snap_job_error(idx: nat, s: SnapJobConfig) -> Option<Seq<char>> {
    let keep = s.pruning.keep@;
    if s.name@.len() == 0 {
        Some(job_head(idx) + "].name: must not be empty"@)
    } else {
        or_else(
            filters_error(idx, s.filesystems@),
            first_fault_from(0, keep.len() as int, snap_rule_faults(idx, keep, s.snapshotting.interval)),
        )
    }
}

fn first_bucket_string(idx: usize, ki: usize, length: u128, interval: u128) -> (r: String)
    ensures
        r@ == first_bucket_message(idx as nat, ki as nat, length, interval),
{
    let m = indexed_string("jobs[", idx, "].pruning.keep[");
    let d = decimal_string(ki as u64);
    let m = joined(m, d.as_str());
    let m = joined(m, "].grid: the first bucket (");
    let a = format_nanos(length);
    let m = joined(m, a.as_str());
    let m = joined(m, ") is longer than the snapshot interval (");
    let b = format_nanos(interval);
    let m = joined(m, b.as_str());
    let m = joined(
        m,
        ") and is not keep=all, so every new snapshot would be destroyed as soon as it is taken; start the grid with `1x",
    );
    let m = joined(m, a.as_str());
    joined(m, "(keep=all)` or a bucket no longer than the interval")
}

/// Checks snap job `idx`.
#[verifier::loop_isolation(false)]
pub fn validate_snap(idx: usize, s: &SnapJobConfig) -> (r: Result<(), String>)
    ensures
        result_matches(r, snap_job_error(idx as nat, *s)),
{
    if s.name.as_str().is_empty() {
        return Err(indexed_string("jobs[", idx, "].name: must not be empty"));
    }
    match validate_filters(idx, &s.filesystems) {
        Err(e) => return Err(e),
        Ok(()) => {},
    }
    let keep = &s.pruning().keep;
    let interval = s.snapshotting().interval;
    let ghost f = snap_rule_faults(idx as nat, keep@, interval);
    let mut ki: usize = 0;
    while ki < keep.len()
        invariant
            ki <= keep@.len(),
            f == snap_rule_faults(idx as nat, keep@, interval),
            first_fault_from(0, keep@.len() as int, f) == first_fault_from(ki as int, keep@.len() as int, f),
        decreases keep.len() - ki,
    {
        let pat = rule_pattern(&keep[ki]);
        match compile(pat.as_str()) {
            Err(e) => {
                assert(f(ki as int) is Some);
                return Err(regex_error_string(idx, ki, pat.as_str(), e.message.as_str()));
            },
            Ok(_) => {},
        }
        match &keep[ki] {
            KeepRule::Grid { grid, .. } => {
                if grid.0.len() > 0 {
                    let first = grid.0[0];
                    let all = match first.keep_count {
                        KeepCount::All => true,
                        KeepCount::Exactly(_) => false,
                    };
                    if !all && first.length > interval {
                        assert(f(ki as int) is Some);
                        return Err(first_bucket_string(idx, ki, first.length, interval));
                    }
                }
            },
            KeepRule::Regex { .. } => {},
        }
        assert(f(ki as int) is None);
        ki += 1;
    }
    Ok(())
}

/// Some peer is named `t`.
pub open spec fn names_peer(peers: Seq<PeerConfig>, t: Seq<char>) -> bool {
    exists|p: int| 0 <= p < peers.len() && (#[trigger] peers[p]).name@ == t
}

/// A push job's targets that name no peer, by position.
pub open spec fn target_faults(idx: nat, targets: Seq<String>, peers: Seq<PeerConfig>) -> spec_fn(int) -> Option<Seq<char>> {
    |ti: int| if names_peer(peers, targets[ti]@) {
        None
    } else {
        Some(job_head(idx) + "].targets["@ + decimal(ti as nat) + "]: "@ + debug_form(targets[ti]@)
            + " does not match any [[peers]] entry"@)
    }
}

/// Why push job `idx` is malformed given the configured peers, or `None`.
pub open spec fn push_job_error(idx: nat, s: PushJobConfig, peers: Seq<PeerConfig>) -> Option<Seq<char>> {
    let h = job_head(idx);
    let root = s.target.root_fs@;
    let f = s.snapshot_filter;
    if s.name@.len() == 0 {
        Some(h + "].name: must not be empty"@)
    } else if s.bandwidth_limit is Some && bytes_per_sec(s.bandwidth_limit.unwrap()@) is Err {
        Some(h + "].bandwidth_limit: "@ + bytes_per_sec(s.bandwidth_limit.unwrap()@)->Err_0)
    } else if root.len() == 0 {
        Some(h + "].target.root_fs: must not be empty"@)
    } else if let Some(e) = dataset_name_error(root) {
        Some(h + "].target.root_fs: invalid dataset name "@ + debug_form(root) + ": "@ + e)
    } else if filters_error(idx, s.filesystems@) is Some {
        filters_error(idx, s.filesystems@)
    } else if f.prefix is None && f.regex is None {
        Some(h + "].snapshot_filter: exactly one of prefix or regex required"@)
    } else if f.prefix is Some && f.regex is Some {
        Some(h + "].snapshot_filter: prefix and regex are mutually exclusive"@)
    } else if f.regex is Some && !regex_compiles(f.regex.unwrap()@) {
        Some(h + "].snapshot_filter.regex: "@ + debug_form(f.regex.unwrap()@) + ": "@
            + regex_error_text(f.regex.unwrap()@))
    } else {
        first_fault_from(0, s.targets@.len() as int, target_faults(idx, s.targets@, peers))
    }
}

fn peer_named(peers: &Vec<PeerConfig>, t: &str) -> (r: bool)
    ensures
        r == names_peer(peers@, t@),
{
    let mut p: usize = 0;
    while p < peers.len()
        invariant
            p <= peers@.len(),
            forall|x: int| 0 <= x < p ==> (#[trigger] peers@[x]).name@ != t@,
        decreases peers.len() - p,
    {
        if str_eq(peers[p].name.as_str(), t) {
            return true;
        }
        p += 1;
    }
    false
}

/// Checks push job `idx` against the configured peers.
#[verifier::loop_isolation(false)]
pub fn validate_push(idx: usize, s: &PushJobConfig, peers: &Vec<PeerConfig>) -> (r: Result<(), String>)
    ensures
        result_matches(r, push_job_error(idx as nat, *s, peers@)),
{
    if s.name.as_str().is_empty() {
        return Err(indexed_string("jobs[", idx, "].name: must not be empty"));
    }
    match &s.bandwidth_limit {
        Some(bw) => match parse_bytes_per_sec(bw.as_str()) {
            Err(e) => {
                let m = indexed_string("jobs[", idx, "].bandwidth_limit: ");
                return Err(joined(m, e.as_str()));
            },
            Ok(_) => {},
        },
        None => {},
    }
    let root = s.target.root_fs.as_str();
    if root.is_empty() {
        return Err(indexed_string("jobs[", idx, "].target.root_fs: must not be empty"));
    }
    match validate_dataset_name(root) {
        Err(e) => {
            let m = indexed_string("jobs[", idx, "].target.root_fs: invalid dataset name ");
            let d = debug_str(root);
            let m = joined(m, d.as_str());
            let m = joined(m, ": ");
            return Err(joined(m, e.as_str()));
        },
        Ok(()) => {},
    }
    match validate_filters(idx, &s.filesystems) {
        Err(e) => return Err(e),
        Ok(()) => {},
    }
    let f = s.snapshot_filter();
    match (&f.prefix, &f.regex) {
        (None, None) => {
            return Err(indexed_string("jobs[", idx, "].snapshot_filter: exactly one of prefix or regex required"));
        },
        (Some(_), Some(_)) => {
            return Err(indexed_string("jobs[", idx, "].snapshot_filter: prefix and regex are mutually exclusive"));
        },
        (None, Some(re)) => match compile(re.as_str()) {
            Err(e) => {
                let m = indexed_string("jobs[", idx, "].snapshot_filter.regex: ");
                let d = debug_str(re.as_str());
                let m = joined(m, d.as_str());
                let m = joined(m, ": ");
                return Err(joined(m, e.message.as_str()));
            },
            Ok(_) => {},
        },
        (Some(_), None) => {},
    }
    let ghost tf = target_faults(idx as nat, s.targets@, peers@);
    let mut ti: usize = 0;
    while ti < s.targets.len()
        invariant
            ti <= s.targets@.len(),
            tf == target_faults(idx as nat, s.targets@, peers@),
            first_fault_from(0, s.targets@.len() as int, tf) == first_fault_from(ti as int, s.targets@.len() as int, tf),
        decreases s.targets.len() - ti,
    {
        let t = s.targets[ti].as_str();
        if !peer_named(peers, t) {
            assert(tf(ti as int) is Some);
            let m = indexed_string("jobs[", idx, "].targets[");
            let d = decimal_string(ti as u64);
            let m = joined(m, d.as_str());
            let m = joined(m, "]: ");
            let q = debug_str(t);
            let m = joined(m, q.as_str());
            return Err(joined(m, " does not match any [[peers]] entry"));
        }
        ti += 1;
    }
    Ok(())
}

// ---------------------------------------------------------------------
// The whole configuration
// ---------------------------------------------------------------------

/// What is wrong with route `ri` of peer `i`, or `None`.
pub open spec fn route_fault(i: nat, routes: Seq<RouteConfig>, ri: int) -> Option<Seq<char>> {
    let h = "peers["@ + decimal(i) + "].routes["@ + decimal(ri as nat);
    let r = routes[ri];
    if r.name@.len() == 0 {
        Some(h + "].name: must not be empty"@)
    } else if r.ssh_target@.len() == 0 {
        Some(h + "].ssh_target: must not be empty"@)
    } else if exists|j: int| 0 <= j < ri && (#[trigger] routes[j]).name@ == r.name@ {
        Some(h + "]: duplicate route name "@ + debug_form(r.name@))
    } else {
        None
    }
}

/// The route faults of peer `i`, by position.
pub open spec fn route_faults(i: nat, routes: Seq<RouteConfig>) -> spec_fn(int) -> Option<Seq<char>> {
    |ri: int| route_fault(i, routes, ri)
}

/// What is wrong with peer `i`, or `None`.
pub open spec fn peer_fault(peers: Seq<PeerConfig>, i: int) -> Option<Seq<char>> {
    let p = peers[i];
    if let Some(e) = identifier_error(p.name@) {
        Some("peers["@ + decimal(i as nat) + "].name: "@ + e)
    } else if exists|j: int| 0 <= j < i && (#[trigger] peers[j]).name@ == p.name@ {
        Some("peers["@ + decimal(i as nat) + "]: duplicate name "@ + debug_form(p.name@))
    } else {
        first_fault_from(0, p.routes@.len() as int, route_faults(i as nat, p.routes@))
    }
}

/// The peer faults, by position.
pub open spec fn peer_faults(peers: Seq<PeerConfig>) -> spec_fn(int) -> Option<Seq<char>> {
    |i: int| peer_fault(peers, i)
}

/// What is wrong with job `i`, or `None`.
pub open spec fn job_fault(jobs: Seq<JobConfig>, peers: Seq<PeerConfig>, i: int) -> Option<Seq<char>> {
    let name = job_name(jobs[i]);
    if let Some(e) = identifier_error(name) {
        Some(job_head(i as nat) + "].name: "@ + e)
    } else if exists|j: int| 0 <= j < i && job_name(#[trigger] jobs[j]) == name {
        Some(job_head(i as nat) + "]: duplicate name "@ + debug_form(name))
    } else {
        match jobs[i] {
            JobConfig::Snap(s) => snap_job_error(i as nat, s),
            JobConfig::Push(s) => push_job_error(i as nat, s, peers),
            JobConfig::Prune(s) => prune_job_error(i as nat, s),
        }
    }
}

/// The job faults, by position.
pub open spec fn job_faults(jobs: Seq<JobConfig>, peers: Seq<PeerConfig>) -> spec_fn(int) -> Option<Seq<char>> {
    |i: int| job_fault(jobs, peers, i)
}

/// What is wrong with allowed client `i`, or `None`. The dispatcher
/// takes the first entry of an identity, so a second one is refused.
pub open spec fn client_fault(clients: Seq<AllowedClient>, i: int) -> Option<Seq<char>> {
    or_else(
        allowed_client_error(i as nat, clients[i]),
        if exists|j: int| 0 <= j < i && (#[trigger] clients[j]).identity@ == clients[i].identity@ {
            Some("allowed_clients["@ + decimal(i as nat) + "]: duplicate identity "@ + debug_form(clients[i].identity@))
        } else {
            None
        },
    )
}

/// The client faults, by position.
pub open spec fn client_faults(clients: Seq<AllowedClient>) -> spec_fn(int) -> Option<Seq<char>> {
    |i: int| client_fault(clients, i)
}

/// The first problem of a configuration: peers first, then jobs, then
/// allowed clients; `None` when it is sound.
pub open spec fn config_error(cfg: Config) -> Option<Seq<char>> {
    or_else(
        first_fault_from(0, cfg.peers@.len() as int, peer_faults(cfg.peers@)),
        or_else(
            first_fault_from(0, cfg.jobs@.len() as int, job_faults(cfg.jobs@, cfg.peers@)),
            first_fault_from(0, cfg.allowed_clients@.len() as int, client_faults(cfg.allowed_clients@)),
        ),
    )
}

#[verifier::loop_isolation(false)]
fn validate_peer(peers: &Vec<PeerConfig>, i: usize) -> (r: Result<(), String>)
    requires
        i < peers@.len(),
    ensures
        result_matches(r, peer_fault(peers@, i as int)),
{
    let peer = &peers[i];
    match validate_identifier(peer.name.as_str()) {
        Err(e) => {
            let m = indexed_string("peers[", i, "].name: ");
            return Err(joined(m, e.as_str()));
        },
        Ok(()) => {},
    }
    let mut j: usize = 0;
    while j < i
        invariant
            j <= i,
            forall|x: int| 0 <= x < j ==> (#[trigger] peers@[x]).name@ != peer.name@,
        decreases i - j,
    {
        if str_eq(peers[j].name.as_str(), peer.name.as_str()) {
            let m = indexed_string("peers[", i, "]: duplicate name ");
            let d = debug_str(peer.name.as_str());
            return Err(joined(m, d.as_str()));
        }
        j += 1;
    }
    let routes = &peer.routes;
    let ghost f = route_faults(i as nat, routes@);
    let mut ri: usize = 0;
    while ri < routes.len()
        invariant
            ri <= routes@.len(),
            f == route_faults(i as nat, routes@),
            first_fault_from(0, routes@.len() as int, f) == first_fault_from(ri as int, routes@.len() as int, f),
        decreases routes.len() - ri,
    {
        let route = &routes[ri];
        if route.name.as_str().is_empty() {
            assert(f(ri as int) is Some);
            return Err(route_string(i, ri, "].name: must not be empty"));
        }
        if route.ssh_target.as_str().is_empty() {
            assert(f(ri as int) is Some);
            return Err(route_string(i, ri, "].ssh_target: must not be empty"));
        }
        let mut k: usize = 0;
        while k < ri
            invariant
                k <= ri < routes@.len(),
                forall|x: int| 0 <= x < k ==> (#[trigger] routes@[x]).name@ != route.name@,
            decreases ri - k,
        {
            if str_eq(routes[k].name.as_str(), route.name.as_str()) {
                assert(f(ri as int) is Some);
                let m = route_string(i, ri, "]: duplicate route name ");
                let d = debug_str(route.name.as_str());
                return Err(joined(m, d.as_str()));
            }
            k += 1;
        }
        assert(f(ri as int) is None);
        ri += 1;
    }
    Ok(())
}

fn route_string(i: usize, ri: usize, tail: &str) -> (r: String)
    ensures
        r@ == "peers["@ + decimal(i as nat) + "].routes["@ + decimal(ri as nat) + tail@,
{
    let m = indexed_string("peers[", i, "].routes[");
    let d = decimal_string(ri as u64);
    let m = joined(m, d.as_str());
    joined(m, tail)
}

#[verifier::loop_isolation(false)]
fn validate_job(jobs: &Vec<JobConfig>, peers: &Vec<PeerConfig>, i: usize) -> (r: Result<(), String>)
    requires
        i < jobs@.len(),
    ensures
        result_matches(r, job_fault(jobs@, peers@, i as int)),
{
    let job = &jobs[i];
    let name = job.name();
    match validate_identifier(name) {
        Err(e) => {
            let m = indexed_string("jobs[", i, "].name: ");
            return Err(joined(m, e.as_str()));
        },
        Ok(()) => {},
    }
    let mut j: usize = 0;
    while j < i
        invariant
            j <= i < jobs@.len(),
            forall|x: int| 0 <= x < j ==> job_name(#[trigger] jobs@[x]) != name@,
        decreases i - j,
    {
        if str_eq(jobs[j].name(), name) {
            let m = indexed_string("jobs[", i, "]: duplicate name ");
            let d = debug_str(name);
            return Err(joined(m, d.as_str()));
        }
        j += 1;
    }
    match job {
        JobConfig::Snap(s) => validate_snap(i, s),
        JobConfig::Push(s) => validate_push(i, s, peers),
        JobConfig::Prune(s) => validate_prune(i, s),
    }
}

#[verifier::loop_isolation(false)]
fn validate_client(clients: &Vec<AllowedClient>, i: usize) -> (r: Result<(), String>)
    requires
        i < clients@.len(),
    ensures
        result_matches(r, client_fault(clients@, i as int)),
{
    let c = &clients[i];
    match validate_allowed_client(i, c) {
        Err(e) => return Err(e),
        Ok(()) => {},
    }
    let mut j: usize = 0;
    while j < i
        invariant
            j <= i < clients@.len(),
            forall|x: int| 0 <= x < j ==> (#[trigger] clients@[x]).identity@ != c.identity@,
        decreases i - j,
    {
        if str_eq(clients[j].identity.as_str(), c.identity.as_str()) {
            let m = indexed_string("allowed_clients[", i, "]: duplicate identity ");
            let d = debug_str(c.identity.as_str());
            return Err(joined(m, d.as_str()));
        }
        j += 1;
    }
    Ok(())
}

/// Semantic validation that serde cannot express: the first problem
/// found, as `<field path>: <reason>`.
pub fn validate(cfg: &Config) -> (r: Result<(), String>)
    ensures
        result_matches(r, config_error(*cfg)),
{
    let ghost pf = peer_faults(cfg.peers@);
    let mut i: usize = 0;
    while i < cfg.peers.len()
        invariant
            i <= cfg.peers@.len(),
            pf == peer_faults(cfg.peers@),
            first_fault_from(0, cfg.peers@.len() as int, pf) == first_fault_from(i as int, cfg.peers@.len() as int, pf),
        decreases cfg.peers.len() - i,
    {
        match validate_peer(&cfg.peers, i) {
            Err(e) => {
                assert(pf(i as int) is Some);
                return Err(e);
            },
            Ok(()) => {},
        }
        i += 1;
    }
    let ghost jf = job_faults(cfg.jobs@, cfg.peers@);
    let mut i: usize = 0;
    while i < cfg.jobs.len()
        invariant
            i <= cfg.jobs@.len(),
            first_fault_from(0, cfg.peers@.len() as int, peer_faults(cfg.peers@)) is None,
            jf == job_faults(cfg.jobs@, cfg.peers@),
            first_fault_from(0, cfg.jobs@.len() as int, jf) == first_fault_from(i as int, cfg.jobs@.len() as int, jf),
        decreases cfg.jobs.len() - i,
    {
        match validate_job(&cfg.jobs, &cfg.peers, i) {
            Err(e) => {
                assert(jf(i as int) is Some);
                return Err(e);
            },
            Ok(()) => {},
        }
        i += 1;
    }
    let ghost cf = client_faults(cfg.allowed_clients@);
    let mut i: usize = 0;
    while i < cfg.allowed_clients.len()
        invariant
            i <= cfg.allowed_clients@.len(),
            first_fault_from(0, cfg.peers@.len() as int, peer_faults(cfg.peers@)) is None,
            first_fault_from(0, cfg.jobs@.len() as int, job_faults(cfg.jobs@, cfg.peers@)) is None,
            cf == client_faults(cfg.allowed_clients@),
            first_fault_from(0, cfg.allowed_clients@.len() as int, cf)
                == first_fault_from(i as int, cfg.allowed_clients@.len() as int, cf),
        decreases cfg.allowed_clients.len() - i,
    {
        match validate_client(&cfg.allowed_clients, i) {
            Err(e) => {
                assert(cf(i as int) is Some);
                return Err(e);
            },
            Ok(()) => {},
        }
        i += 1;
    }
    Ok(())
}

} // verus!
