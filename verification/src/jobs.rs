//! The bookkeeping every job shares: its status record, how a cycle's
//! failures are reported, what a control request did, snapshot names,
//! and turning a snapshot listing into what the keep rules evaluate.

use vstd::prelude::*;

use crate::api::PeriodicJobStatus;
use crate::http_error::ZfsErrorKind;
use crate::prune::{all_destroy, evaluate, first_bad_rule, PruneError as RuleError};
use crate::retention::{indices_where, lemma_indices_where_bounded, SnapshotEntry};
use crate::schema::KeepRule;
use crate::text::{
    debug_form, debug_str, index_of_from, parse_i64, push_str, string_of, to_owned_string,
};

verus! {

// ---------------------------------------------------------------------
// Time
// ---------------------------------------------------------------------

/// The earliest unix second whose UTC date has a four-digit year (0000).
pub const EARLIEST_RFC3339_SECS: i64 = -62_167_219_200;

/// The last unix second of the year 9999.
pub const LATEST_RFC3339_SECS: i64 = 253_402_300_799;

/// How the `time` crate writes the UTC instant `secs` (unix seconds) in
/// RFC 3339: `YYYY-MM-DDTHH:MM:SSZ`.
pub uninterp spec fn rfc3339_text(secs: i64) -> Seq<char>;

/// `OffsetDateTime::from_unix_timestamp(secs)` formatted as RFC 3339.
/// The `time` crate refuses years outside `0..=9999`, hence `None`
/// exactly outside that range. A whole-second UTC instant is written
/// with two-digit fields, no fraction and a closing `Z`.
#[verifier::external_body]
fn rfc3339_utc(secs: i64) -> (r: Option<String>)
    ensures
        r is Some <==> EARLIEST_RFC3339_SECS <= secs <= LATEST_RFC3339_SECS,
        r matches Some(s) ==> s@ == rfc3339_text(secs) && s@.len() == 20 && s@[19] == 'Z' && !s@.contains('.'),
{
    match time::OffsetDateTime::from_unix_timestamp(secs) {
        Ok(t) => t.format(&time::format_description::well_known::Rfc3339).ok(),
        Err(_) => None,
    }
}

/// The current time in unix seconds (`OffsetDateTime::now_utc`). Nothing
/// is promised of the value: it is the clock's.
#[verifier::external_body]
pub(crate) fn now_unix() -> (r: i64) {
    time::OffsetDateTime::now_utc().unix_timestamp()
}

/// RFC 3339 text of a unix second, when its year has four digits.
pub fn format_rfc3339(secs: i64) -> (r: Option<String>)
    ensures
        r is Some <==> EARLIEST_RFC3339_SECS <= secs <= LATEST_RFC3339_SECS,
        r matches Some(s) ==> s@ == rfc3339_text(secs),
{
    rfc3339_utc(secs)
}

/// `s` without its `:` characters.
pub open spec fn without_colons(s: Seq<char>) -> Seq<char>
    decreases s.len(),
{
    if s.len() == 0 {
        Seq::empty()
    } else {
        without_colons(s.drop_last()) + if s.last() == ':' { Seq::<char>::empty() } else { seq![s.last()] }
    }
}

/// The snapshot name taken at `secs`: `<prefix><RFC 3339 without
/// colons>`, e.g. `arctern_2026-07-08T182612Z` (the zrepl idiom).
pub open spec fn snapshot_name_at(prefix: Seq<char>, secs: i64) -> Seq<char> {
    prefix + without_colons(rfc3339_text(secs))
}

proof fn lemma_without_colons(s: Seq<char>)
    ensures
        !without_colons(s).contains(':'),
        s.len() > 0 && s.last() != ':' ==> without_colons(s).len() > 0 && without_colons(s).last() == s.last(),
        !s.contains('.') ==> !without_colons(s).contains('.'),
    decreases s.len(),
{
    if s.len() > 0 {
        lemma_without_colons(s.drop_last());
        let a = without_colons(s.drop_last());
        let t = if s.last() == ':' { Seq::<char>::empty() } else { seq![s.last()] };
        assert forall|c: char| (a + t).contains(c) implies a.contains(c) || t.contains(c) by {
            let i = choose|i: int| 0 <= i < (a + t).len() && (a + t)[i] == c;
            if i < a.len() {
                assert(a[i] == c);
            } else {
                assert(t[i - a.len()] == c);
            }
        }
        if !s.contains('.') {
            assert forall|i: int| 0 <= i < s.drop_last().len() implies s.drop_last()[i] != '.' by {
                assert(s[i] == s.drop_last()[i]);
            }
            assert(s[s.len() - 1] == s.last());
        }
    }
}

fn strip_colons(s: &str) -> (r: String)
    ensures
        r@ == without_colons(s@),
{
    let v = crate::text::chars_of(s);
    let mut out = String::new();
    let mut i: usize = 0;
    while i < v.len()
        invariant
            i <= v@.len(),
            out@ == without_colons(v@.subrange(0, i as int)),
        decreases v.len() - i,
    {
        assert(v@.subrange(0, i + 1).drop_last() =~= v@.subrange(0, i as int));
        if v[i] != ':' {
            crate::text::push_char(&mut out, v[i]);
        } else {
            assert(out@ + Seq::<char>::empty() =~= out@);
        }
        i += 1;
    }
    assert(v@.subrange(0, v@.len() as int) =~= v@);
    out
}

/// The snapshot name a snap job takes at unix second `secs`; `None` when
/// the year has no four-digit form.
pub fn snapshot_tag_at(prefix: &str, secs: i64) -> (r: Option<String>)
    ensures
        r is Some <==> EARLIEST_RFC3339_SECS <= secs <= LATEST_RFC3339_SECS,
        r matches Some(t) ==> t@ == snapshot_name_at(prefix@, secs),
        r is Some ==> rfc3339_text(secs).len() == 20 && rfc3339_text(secs)[19] == 'Z'
            && !rfc3339_text(secs).contains('.'),
{
    match rfc3339_utc(secs) {
        None => None,
        Some(f) => {
            let stripped = strip_colons(f.as_str());
            let mut t = to_owned_string(prefix);
            push_str(&mut t, stripped.as_str());
            Some(t)
        },
    }
}

/// `r` is what `snapshot_tag_at` gives for `prefix` at unix second
/// `secs`: a name exactly when the second has a four-digit year, and
/// then the prefix and that second's stripped RFC 3339 text.
pub open spec fn tag_at_second(r: Option<String>, prefix: Seq<char>, secs: i64) -> bool {
    &&& (r is Some <==> EARLIEST_RFC3339_SECS <= secs <= LATEST_RFC3339_SECS)
    &&& (r matches Some(t) ==> t@ == snapshot_name_at(prefix, secs))
}

/// The snapshot name a snap job takes now: the prefix, then the current
/// UTC time at second precision with the colons removed (so the tail
/// holds no `:` and no `.`, and ends in `Z`). The result is what
/// `snapshot_tag_at` gives for the second the clock read.
pub fn snapshot_tag(prefix: &str) -> (r: Option<String>)
    ensures
        exists|secs: i64| #[trigger] tag_at_second(r, prefix@, secs),
        r matches Some(t) ==> exists|secs: i64| EARLIEST_RFC3339_SECS <= secs <= LATEST_RFC3339_SECS
            && #[trigger] snapshot_name_at(prefix@, secs) == t@,
        r matches Some(t) ==> {
            let tail = t@.subrange(prefix@.len() as int, t@.len() as int);
            &&& t@.subrange(0, prefix@.len() as int) == prefix@
            &&& !tail.contains(':')
            &&& !tail.contains('.')
            &&& tail.len() > 0 && tail.last() == 'Z'
        },
{
    let now = now_unix();
    let r = snapshot_tag_at(prefix, now);
    proof {
        assert(tag_at_second(r, prefix@, now));
        if r is Some {
            let t = r.unwrap();
            let f = rfc3339_text(now);
            let tail = without_colons(f);
            lemma_without_colons(f);
            assert(f.last() == f[19]);
            assert(t@.subrange(prefix@.len() as int, t@.len() as int) =~= tail);
            assert(t@.subrange(0, prefix@.len() as int) =~= prefix@);
        }
    }
    r
}

// ---------------------------------------------------------------------
// Status
// ---------------------------------------------------------------------

/// What a periodic job remembers between cycles (unix seconds).
#[derive(Debug, Clone, Default)]
pub struct PeriodicStatus {
    pub last_run: Option<i64>,
    pub next_run: Option<i64>,
    pub last_error: Option<String>,
    pub running: bool,
}

/// An instant as the API shows it: RFC 3339 when it has one.
pub open spec fn shown(t: Option<i64>) -> Option<Seq<char>> {
    match t {
        Some(s) => if EARLIEST_RFC3339_SECS <= s <= LATEST_RFC3339_SECS { Some(rfc3339_text(s)) } else { None },
        None => None,
    }
}

fn show(t: Option<i64>) -> (r: Option<String>)
    ensures
        match shown(t) {
            Some(x) => r matches Some(s) && s@ == x,
            None => r is None,
        },
{
    match t {
        Some(s) => format_rfc3339(s),
        None => None,
    }
}

impl PeriodicStatus {
    /// The status as the API reports it for job `name`.
    pub fn render(&self, name: &str) -> (r: PeriodicJobStatus)
        ensures
            r.name@ == name@,
            r.running == self.running,
            r.last_error == self.last_error,
            match shown(self.last_run) {
                Some(x) => r.last_run matches Some(s) && s@ == x,
                None => r.last_run is None,
            },
            match shown(self.next_run) {
                Some(x) => r.next_run matches Some(s) && s@ == x,
                None => r.next_run is None,
            },
    {
        PeriodicJobStatus {
            name: to_owned_string(name),
            last_run: show(self.last_run),
            next_run: show(self.next_run),
            last_error: self.last_error.clone(),
            running: self.running,
        }
    }
}

/// `a + b`, held at the `i64` bounds.
pub open spec fn saturating_add(a: i64, b: i64) -> i64 {
    if a + b > i64::MAX { i64::MAX } else if a + b < i64::MIN { i64::MIN } else { (a + b) as i64 }
}

fn sat_add(a: i64, b: i64) -> (r: i64)
    ensures
        r == saturating_add(a, b),
{
    let s = a as i128 + b as i128;
    if s > 0x7fff_ffff_ffff_ffff { 0x7fff_ffff_ffff_ffff }
    else if s < -0x8000_0000_0000_0000 { -0x8000_0000_0000_0000 }
    else { s as i64 }
}

/// Records a finished periodic cycle: it ran `now`, the next one is due
/// an interval after this one STARTED (so the cadence does not drift by
/// the cycle's own length), its error (if any) is kept.
pub fn finish_periodic(s: &mut PeriodicStatus, started: i64, now: i64, interval_secs: i64, error: Option<String>)
    ensures
        final(s).last_run == Some(now),
        final(s).next_run == Some(saturating_add(started, interval_secs)),
        final(s).last_error == error,
        !final(s).running,
{
    s.last_run = Some(now);
    s.next_run = Some(sat_add(started, interval_secs));
    s.last_error = error;
    s.running = false;
}

/// Records a push cycle that replicated (or tried to): it ran `now`, the
/// next is an interval later.
pub fn finish_push_cycle(s: &mut PeriodicStatus, now: i64, interval_secs: i64, error: Option<String>)
    ensures
        final(s).last_run == Some(now),
        final(s).next_run == Some(saturating_add(now, interval_secs)),
        final(s).last_error == error,
        !final(s).running,
{
    finish_periodic(s, now, now, interval_secs, error);
}

/// Records a push tick where nothing was due: only the next run moves.
/// The last run keeps meaning "last cycle that replicated", and the
/// last error survives idle ticks.
pub fn record_idle_tick(s: &mut PeriodicStatus, now: i64, interval_secs: i64)
    ensures
        final(s).last_run == old(s).last_run,
        final(s).last_error == old(s).last_error,
        final(s).next_run == Some(saturating_add(now, interval_secs)),
        !final(s).running,
{
    s.next_run = Some(sat_add(now, interval_secs));
    s.running = false;
}

// ---------------------------------------------------------------------
// Control and failures
// ---------------------------------------------------------------------

/// What a control request (cancel, pause, resume) did.
#[derive(Debug, Clone, Copy, PartialEq, Eq)]
pub enum ControlOutcome {
    Applied,
    /// The job kind has nothing to cancel, pause or resume.
    Unsupported,
    NoSuchJob,
}

/// Why a manual push request was refused.
#[derive(Debug, Clone, PartialEq, Eq)]
pub enum PushRequestError {
    NoSuchJob,
    Unsupported,
    NotATarget { job: String, peer: String },
}

/// How a refused push request reads.
pub open spec fn push_request_text(e: PushRequestError) -> Seq<char> {
    match e {
        PushRequestError::NoSuchJob => "no such job"@,
        PushRequestError::Unsupported => "job kind does not support manual push"@,
        PushRequestError::NotATarget { job, peer } => "peer "@ + debug_form(peer@) + " is not a target of job "@
            + debug_form(job@),
    }
}

impl PushRequestError {
    /// The refusal's text.
    pub fn to_string(&self) -> (r: String)
        ensures
            r@ == push_request_text(*self),
    {
        match self {
            PushRequestError::NoSuchJob => to_owned_string("no such job"),
            PushRequestError::Unsupported => to_owned_string("job kind does not support manual push"),
            PushRequestError::NotATarget { job, peer } => {
                let mut m = to_owned_string("peer ");
                let p = debug_str(peer.as_str());
                push_str(&mut m, p.as_str());
                push_str(&mut m, " is not a target of job ");
                let j = debug_str(job.as_str());
                push_str(&mut m, j.as_str());
                m
            },
        }
    }
}

/// Why one snapshot could not be pruned; outside errors as their text.
#[derive(Debug, Clone)]
pub enum PruneError {
    ListSnapshots(String),
    KeepRules(String),
    Destroy { snapshot: String, message: String },
}

/// How a prune failure reads.
pub open spec fn prune_error_text(e: PruneError) -> Seq<char> {
    match e {
        PruneError::ListSnapshots(m) => "list snapshots: "@ + m@,
        PruneError::KeepRules(m) => "keep-rule evaluation: "@ + m@,
        PruneError::Destroy { snapshot, message } => "destroy "@ + snapshot@ + ": "@ + message@,
    }
}

/// What a prune pass makes of one snapshot destroy: done, or skipped
/// when the snapshot is held or busy (a running `zfs send -I` keeps its
/// intermediate snapshots busy without a hold); any other failure ends
/// the pass as a `Destroy` error naming the snapshot.
pub fn after_destroy(target: &str, outcome: Result<(), (ZfsErrorKind, String)>) -> (r: Result<(), PruneError>)
    ensures
        match outcome {
            Ok(()) => r is Ok,
            Err((kind, message)) => if kind == ZfsErrorKind::SnapshotHeld || kind == ZfsErrorKind::Busy {
                r is Ok
            } else {
                r matches Err(PruneError::Destroy { snapshot, message: m }) && snapshot@ == target@ && m == message
            },
        },
{
    match outcome {
        Ok(()) => Ok(()),
        Err((ZfsErrorKind::SnapshotHeld, _)) => Ok(()),
        Err((ZfsErrorKind::Busy, _)) => Ok(()),
        Err((_, message)) => Err(PruneError::Destroy { snapshot: to_owned_string(target), message }),
    }
}

/// One dataset's failure inside a snap or prune cycle.
#[derive(Debug, Clone)]
pub enum DatasetError {
    ListDatasets(String),
    Snapshot { snapshot: String, message: String },
    Prune { dataset: String, source: PruneError },
}

/// How a dataset failure reads.
pub open spec fn dataset_error_text(e: DatasetError) -> Seq<char> {
    match e {
        DatasetError::ListDatasets(m) => "list datasets: "@ + m@,
        DatasetError::Snapshot { snapshot, message } => "snapshot "@ + snapshot@ + ": "@ + message@,
        DatasetError::Prune { dataset, source } => "prune "@ + dataset@ + ": "@ + prune_error_text(source),
    }
}

/// What a snap cycle makes of one snapshot creation: done, or a no-op
/// when the snapshot already exists (a restart within the same second
/// asks for the same name); any other failure is recorded against the
/// snapshot's full name `<dataset>@<tag>`, and the cycle goes on.
pub fn after_snapshot(dataset: &str, tag: &str, outcome: Result<(), (ZfsErrorKind, String)>) -> (r: Option<
    DatasetError,
>)
    ensures
        match outcome {
            Ok(()) => r is None,
            Err((kind, message)) => if kind == ZfsErrorKind::SnapshotExists {
                r is None
            } else {
                r matches Some(DatasetError::Snapshot { snapshot, message: m }) && snapshot@ == dataset@ + "@"@
                    + tag@ && m == message
            },
        },
{
    match outcome {
        Ok(()) => None,
        Err((ZfsErrorKind::SnapshotExists, _)) => None,
        Err((_, message)) => {
            let mut full = to_owned_string(dataset);
            push_str(&mut full, "@");
            push_str(&mut full, tag);
            Some(DatasetError::Snapshot { snapshot: full, message })
        },
    }
}

impl PruneError {
    /// The failure's text.
    pub fn to_string(&self) -> (r: String)
        ensures
            r@ == prune_error_text(*self),
    {
        match self {
            PruneError::ListSnapshots(m) => {
                let mut r = to_owned_string("list snapshots: ");
                push_str(&mut r, m.as_str());
                r
            },
            PruneError::KeepRules(m) => {
                let mut r = to_owned_string("keep-rule evaluation: ");
                push_str(&mut r, m.as_str());
                r
            },
            PruneError::Destroy { snapshot, message } => {
                let mut r = to_owned_string("destroy ");
                push_str(&mut r, snapshot.as_str());
                push_str(&mut r, ": ");
                push_str(&mut r, message.as_str());
                r
            },
        }
    }
}

impl DatasetError {
    /// The failure's text.
    pub fn to_string(&self) -> (r: String)
        ensures
            r@ == dataset_error_text(*self),
    {
        match self {
            DatasetError::ListDatasets(m) => {
                let mut r = to_owned_string("list datasets: ");
                push_str(&mut r, m.as_str());
                r
            },
            DatasetError::Snapshot { snapshot, message } => {
                let mut r = to_owned_string("snapshot ");
                push_str(&mut r, snapshot.as_str());
                push_str(&mut r, ": ");
                push_str(&mut r, message.as_str());
                r
            },
            DatasetError::Prune { dataset, source } => {
                let mut r = to_owned_string("prune ");
                push_str(&mut r, dataset.as_str());
                push_str(&mut r, ": ");
                let s = source.to_string();
                push_str(&mut r, s.as_str());
                r
            },
        }
    }
}

/// Every per-dataset failure of one cycle; never empty.
#[derive(Debug, Clone)]
pub struct CycleErrors(pub Vec<DatasetError>);

/// The texts of the first `n` failures joined with `; `.
pub open spec fn joined_failures(es: Seq<DatasetError>, n: int) -> Seq<char>
    decreases n,
{
    if n <= 0 {
        Seq::empty()
    } else if n == 1 {
        dataset_error_text(es[0])
    } else {
        joined_failures(es, n - 1) + "; "@ + dataset_error_text(es[n - 1])
    }
}

impl CycleErrors {
    /// `Ok` for a clean cycle, else every failure together.
    pub fn from_vec(errors: Vec<DatasetError>) -> (r: Result<(), CycleErrors>)
        ensures
            errors@.len() == 0 <==> r is Ok,
            r matches Err(c) ==> c.0@ == errors@,
    {
        if errors.len() == 0 {
            Ok(())
        } else {
            Err(CycleErrors(errors))
        }
    }

    /// All failures, joined with `; `.
    pub fn to_string(&self) -> (r: String)
        ensures
            r@ == joined_failures(self.0@, self.0@.len() as int),
    {
        let mut out = String::new();
        let mut i: usize = 0;
        while i < self.0.len()
            invariant
                i <= self.0@.len(),
                out@ == joined_failures(self.0@, i as int),
            decreases self.0.len() - i,
        {
            if i > 0 {
                push_str(&mut out, "; ");
            }
            let t = self.0[i].to_string();
            push_str(&mut out, t.as_str());
            proof {
                if i == 0 {
                    assert(out@ =~= joined_failures(self.0@, 1));
                }
            }
            i += 1;
        }
        out
    }
}

// ---------------------------------------------------------------------
// From a snapshot listing to the keep rules
// ---------------------------------------------------------------------

/// One listed snapshot: its full name and its `creation` property, if
/// any.
#[derive(Debug, Clone)]
pub struct ListedSnapshot {
    pub name: String,
    pub creation: Option<String>,
}

/// The earliest unix second the `time` crate represents (year -9999).
pub const EARLIEST_TIMESTAMP_SECS: i64 = -377_705_116_800;

/// The latest unix second the `time` crate represents (end of 9999).
pub const LATEST_TIMESTAMP_SECS: i64 = 253_402_300_799;

/// The creation time of a listed snapshot, in unix seconds, when it is
/// an integer the `time` crate can represent.
pub open spec fn creation_secs(s: ListedSnapshot) -> Option<int> {
    match s.creation {
        Some(c) => match parse_i64(c@) {
            Some(t) => if EARLIEST_TIMESTAMP_SECS <= t <= LATEST_TIMESTAMP_SECS { Some(t) } else { None },
            None => None,
        },
        None => None,
    }
}

/// The tag of a full snapshot name: what follows the first `@`, or the
/// whole name.
pub open spec fn snapshot_tag_of(name: Seq<char>) -> Seq<char> {
    let at = index_of_from(name, '@', 0);
    if at < name.len() { name.subrange(at + 1, name.len() as int) } else { name }
}

/// The listed snapshots among the first `n` that the keep rules see (a
/// snapshot without a usable creation time is skipped), as entries and
/// as full names, in listing order.
pub open spec fn usable_upto(ls: Seq<ListedSnapshot>, n: int) -> Seq<(Seq<char>, int, Seq<char>)>
    decreases n,
{
    if n <= 0 {
        Seq::empty()
    } else {
        let a = usable_upto(ls, n - 1);
        match creation_secs(ls[n - 1]) {
            Some(t) => a.push((snapshot_tag_of(ls[n - 1].name@), t * 1_000_000_000, ls[n - 1].name@)),
            None => a,
        }
    }
}

/// Turns a listing into what the keep rules evaluate: the entries (bare
/// tag and creation in nanoseconds) and, index for index, the full names
/// a destroy needs.
pub fn prune_entries(listing: &[ListedSnapshot]) -> (r: (Vec<SnapshotEntry>, Vec<String>))
    ensures
        r.0@.len() == r.1@.len(),
        r.0@.len() == usable_upto(listing@, listing@.len() as int).len(),
        forall|i: int| 0 <= i < r.0@.len() ==> {
            let u = #[trigger] usable_upto(listing@, listing@.len() as int)[i];
            &&& r.0@[i].name@ == u.0
            &&& r.0@[i].creation == u.1
            &&& r.1@[i]@ == u.2
        },
{
    let mut entries: Vec<SnapshotEntry> = Vec::new();
    let mut names: Vec<String> = Vec::new();
    let mut i: usize = 0;
    while i < listing.len()
        invariant
            i <= listing@.len(),
            entries@.len() == names@.len() == usable_upto(listing@, i as int).len(),
            forall|k: int| 0 <= k < entries@.len() ==> {
                let u = #[trigger] usable_upto(listing@, i as int)[k];
                &&& entries@[k].name@ == u.0
                &&& entries@[k].creation == u.1
                &&& names@[k]@ == u.2
            },
        decreases listing.len() - i,
    {
        let s = &listing[i];
        let t = match &s.creation {
            Some(c) => match crate::text::parse_i64_str(c.as_str()) {
                Some(t) => if EARLIEST_TIMESTAMP_SECS <= t && t <= LATEST_TIMESTAMP_SECS { Some(t) } else { None },
                None => None,
            },
            None => None,
        };
        assert(match t { Some(x) => creation_secs(*s) == Some(x as int), None => creation_secs(*s) is None });
        match t {
            Some(secs) => {
                let v = crate::text::chars_of(s.name.as_str());
                let at = crate::text::find_char(&v, '@', 0);
                let tag = if at < v.len() { string_of(&v, at + 1, v.len()) } else { s.name.clone() };
                assert(tag@ == snapshot_tag_of(s.name@));
                entries.push(SnapshotEntry { name: tag, creation: secs as i128 * 1_000_000_000 });
                names.push(s.name.clone());
            },
            None => {},
        }
        i += 1;
    }
    (entries, names)
}

/// The indices the keep rules destroy (none without rules).
pub open spec fn destroyed_indices(keep: Seq<KeepRule>, entries: Seq<SnapshotEntry>) -> Seq<usize> {
    if keep.len() == 0 {
        Seq::empty()
    } else {
        indices_where(entries.len() as int, all_destroy(keep, entries))
    }
}

/// The texts of `names` at the first `k` of `idx`.
pub open spec fn names_at(idx: Seq<usize>, names: Seq<String>, k: int) -> Seq<Seq<char>>
    decreases k,
{
    if k <= 0 { Seq::empty() } else { names_at(idx, names, k - 1).push(names[idx[k - 1] as int]@) }
}

/// The full names of the snapshots the keep rules destroy, in listing
/// order; `names[i]` is the full name of `entries[i]`. Fails on the
/// first rule whose pattern does not compile.
pub fn destroy_names(keep: &[KeepRule], entries: &[SnapshotEntry], names: &[String]) -> (r: Result<Vec<String>, RuleError>)
    requires
        entries@.len() == names@.len(),
    ensures
        match r {
            Ok(v) => first_bad_rule(keep@, 0) is None
                && v@.map_values(|x: String| x@)
                    == names_at(destroyed_indices(keep@, entries@), names@, destroyed_indices(keep@, entries@).len() as int),
            Err(_) => first_bad_rule(keep@, 0) is Some,
        },
{
    let idx = match evaluate(keep, entries) {
        Ok(v) => v,
        Err(e) => return Err(e),
    };
    let n = entries.len();
    proof {
        lemma_indices_where_bounded(n as int, all_destroy(keep@, entries@));
    }
    let ghost d = destroyed_indices(keep@, entries@);
    let mut out: Vec<String> = Vec::new();
    let mut k: usize = 0;
    while k < idx.len()
        invariant
            k <= idx@.len(),
            idx@ == d,
            entries@.len() == names@.len(),
            forall|j: int| 0 <= j < d.len() ==> (#[trigger] d[j] as int) < names@.len(),
            out@.map_values(|x: String| x@) == names_at(d, names@, k as int),
        decreases idx.len() - k,
    {
        let i = idx[k];
        out.push(names[i].clone());
        assert(out@.map_values(|x: String| x@) =~= names_at(d, names@, k + 1));
        k += 1;
    }
    Ok(out)
}

} // verus!
