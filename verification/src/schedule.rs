//! The push job's decisions: which targets a cycle replicates to, how
//! long to sleep before the next decision, how a peer attempt and a
//! whole cycle are classified, and in which order filesystems run.
//!
//! The daemon drives the clock, the links and the transfers; every
//! choice it makes along the way is one of the functions here.

use vstd::prelude::*;

use crate::api::{
    run_status_word, PeerMode as WireMode, PushJobStatus, RunStatus, TargetStatus, TransferInfo, TransferPhase,
};
use crate::jobs::{shown, PeriodicStatus};
use crate::inventory::{lemma_lex_transitive, lemma_lex_trichotomy, lex_less, lex_lt};
use crate::plan::SnapshotPlan;
use crate::schema::{PeerConfig, PeerMode};
use crate::text::{debug_form, debug_str, decimal, decimal_string, push_str, str_eq, to_owned_string};

verus! {

/// Why one replication step stopped.
///
/// Cancellation is a variant, not a message: a caller that adds context
/// to a message must not turn an interruption into a failure.
#[derive(Debug, Clone)]
pub enum StepError {
    /// The cycle token fired: operator pause or stop, or daemon
    /// shutdown. The replication itself did not fail.
    Cancelled,
    Failed(String),
}

/// How a step error reads: `cancelled`, or the failure's message.
pub open spec fn step_error_text(e: StepError) -> Seq<char> {
    match e {
        StepError::Cancelled => "cancelled"@,
        StepError::Failed(m) => m@,
    }
}

impl StepError {
    /// The error's text.
    pub fn to_string(&self) -> (r: String)
        ensures
            r@ == step_error_text(*self),
    {
        match self {
            StepError::Cancelled => to_owned_string("cancelled"),
            StepError::Failed(m) => m.clone(),
        }
    }
}

/// Some error is a cancellation.
pub open spec fn any_cancelled(errors: Seq<StepError>) -> bool {
    exists|i: int| 0 <= i < errors.len() && (#[trigger] errors[i]) is Cancelled
}

/// The texts of the first `n` errors joined with `; `.
pub open spec fn joined_texts(errors: Seq<StepError>, n: int) -> Seq<char>
    decreases n,
{
    if n <= 0 {
        Seq::empty()
    } else if n == 1 {
        step_error_text(errors[0])
    } else {
        joined_texts(errors, n - 1) + "; "@ + step_error_text(errors[n - 1])
    }
}

fn join_errors(errors: &[StepError]) -> (r: String)
    ensures
        r@ == joined_texts(errors@, errors@.len() as int),
{
    let mut out = String::new();
    let mut i: usize = 0;
    while i < errors.len()
        invariant
            i <= errors@.len(),
            out@ == joined_texts(errors@, i as int),
        decreases errors.len() - i,
    {
        if i > 0 {
            push_str(&mut out, "; ");
        }
        let t = errors[i].to_string();
        push_str(&mut out, t.as_str());
        proof {
            if i == 0 {
                assert(out@ =~= joined_texts(errors@, 1));
            }
        }
        i += 1;
    }
    out
}

fn has_cancelled(errors: &[StepError]) -> (r: bool)
    ensures
        r == any_cancelled(errors@),
{
    let mut i: usize = 0;
    while i < errors.len()
        invariant
            i <= errors@.len(),
            forall|k: int| 0 <= k < i ==> !((#[trigger] errors@[k]) is Cancelled),
        decreases errors.len() - i,
    {
        match &errors[i] {
            StepError::Cancelled => return true,
            StepError::Failed(_) => {},
        }
        i += 1;
    }
    false
}

/// The status and message one peer's attempt is recorded with.
pub open spec fn peer_attempt_class(cancelled: bool, dry_run: bool, errors: Seq<StepError>) -> (Seq<char>, Option<Seq<char>>) {
    if cancelled || any_cancelled(errors) {
        ("cancelled"@, None)
    } else if errors.len() == 0 {
        (if dry_run { "dry_run"@ } else { "ok"@ }, None)
    } else {
        ("error"@, Some(joined_texts(errors, errors.len() as int)))
    }
}

/// Classifies one peer's attempt. Cancellation wins over any messages a
/// cancelled step left; a clean dry run is `dry_run`, not `ok` (only
/// `ok` counts as a sync); otherwise every failure is reported, joined.
pub fn classify_peer_attempt(cancelled: bool, dry_run: bool, errors: &[StepError]) -> (r: (&'static str, Option<String>))
    ensures
        r.0@ == peer_attempt_class(cancelled, dry_run, errors@).0,
        match peer_attempt_class(cancelled, dry_run, errors@).1 {
            None => r.1 is None,
            Some(m) => r.1 matches Some(s) && s@ == m,
        },
{
    if cancelled || has_cancelled(errors) {
        ("cancelled", None)
    } else if errors.len() == 0 {
        (if dry_run { "dry_run" } else { "ok" }, None)
    } else {
        ("error", Some(join_errors(errors)))
    }
}

/// The result of a whole cycle: cancelled if any step was, else the
/// joined failures, else success.
pub open spec fn cycle_outcome(errors: Seq<StepError>) -> Option<Option<Seq<char>>> {
    if any_cancelled(errors) {
        Some(None)
    } else if errors.len() == 0 {
        None
    } else {
        Some(Some(joined_texts(errors, errors.len() as int)))
    }
}

/// A cycle's errors folded into its result.
pub fn cycle_result(errors: &[StepError]) -> (r: Result<(), StepError>)
    ensures
        match cycle_outcome(errors@) {
            None => r is Ok,
            Some(None) => r matches Err(StepError::Cancelled),
            Some(Some(m)) => r matches Err(StepError::Failed(s)) && s@ == m,
        },
{
    if has_cancelled(errors) {
        Err(StepError::Cancelled)
    } else if errors.len() == 0 {
        Ok(())
    } else {
        Err(StepError::Failed(join_errors(errors)))
    }
}

/// The status a finished cycle is recorded with, and its error text.
pub open spec fn run_status(outcome: Result<(), StepError>, dry_run: bool) -> (Seq<char>, Option<Seq<char>>) {
    match outcome {
        Ok(_) => (if dry_run { "dry_run"@ } else { "ok"@ }, None),
        Err(StepError::Cancelled) => ("cancelled"@, None),
        Err(e) => ("error"@, Some(step_error_text(e))),
    }
}

/// Classifies a finished cycle for the run history. Cancellation is read
/// off the variant, so it agrees with the per-peer classification.
pub fn classify_run(outcome: &Result<(), StepError>, dry_run: bool) -> (r: (&'static str, Option<String>))
    ensures
        r.0@ == run_status(*outcome, dry_run).0,
        match run_status(*outcome, dry_run).1 {
            None => r.1 is None,
            Some(m) => r.1 matches Some(s) && s@ == m,
        },
{
    match outcome {
        Ok(()) => (if dry_run { "dry_run" } else { "ok" }, None),
        Err(StepError::Cancelled) => ("cancelled", None),
        Err(e) => ("error", Some(e.to_string())),
    }
}

// ---------------------------------------------------------------------
// Filesystem order
// ---------------------------------------------------------------------

/// Number of `/` in `s`: the depth of a dataset path.
pub open spec fn depth(s: Seq<char>) -> nat
    decreases s.len(),
{
    if s.len() == 0 {
        0
    } else {
        depth(s.drop_last()) + if s.last() == '/' { 1nat } else { 0nat }
    }
}

/// The paths among the first `n` whose depth is `d`, in input order.
pub open spec fn at_depth(paths: Seq<String>, d: nat, n: int) -> Seq<Seq<char>>
    decreases n,
{
    if n <= 0 {
        Seq::empty()
    } else if depth(paths[n - 1]@) == d {
        at_depth(paths, d, n - 1).push(paths[n - 1]@)
    } else {
        at_depth(paths, d, n - 1)
    }
}

/// Some path has depth `d`.
pub open spec fn depth_occurs(paths: Seq<String>, d: nat) -> bool {
    exists|i: int| 0 <= i < paths.len() && depth((#[trigger] paths[i])@) == d
}

/// `levels` groups `paths` by depth: one level per depth that occurs,
/// shallowest first, input order kept within a level.
pub open spec fn grouped_by_depth(paths: Seq<String>, levels: Seq<Seq<Seq<char>>>, depths: Seq<nat>) -> bool {
    &&& levels.len() == depths.len()
    &&& forall|k: int, l: int| 0 <= k < l < depths.len() ==> depths[k] < depths[l]
    &&& forall|k: int| 0 <= k < depths.len() ==> #[trigger] levels[k] == at_depth(paths, depths[k], paths.len() as int)
    &&& forall|k: int| 0 <= k < depths.len() ==> depth_occurs(paths, #[trigger] depths[k])
    &&& forall|i: int| 0 <= i < paths.len() ==> depths.contains(depth((#[trigger] paths[i])@))
}

/// The text of each level.
pub open spec fn level_views<'a>(levels: Seq<Vec<&'a str>>) -> Seq<Seq<Seq<char>>> {
    levels.map_values(|l: Vec<&'a str>| l@.map_values(|s: &'a str| s@))
}

fn depth_of(s: &str) -> (r: usize)
    ensures
        r == depth(s@),
{
    let v = crate::text::chars_of(s);
    let mut n: usize = 0;
    let mut i: usize = 0;
    while i < v.len()
        invariant
            i <= v@.len(),
            n == depth(v@.subrange(0, i as int)),
            n <= i,
        decreases v.len() - i,
    {
        assert(v@.subrange(0, i + 1).drop_last() =~= v@.subrange(0, i as int));
        if v[i] == '/' {
            n += 1;
        }
        i += 1;
    }
    assert(v@.subrange(0, v@.len() as int) =~= v@);
    n
}

proof fn lemma_at_depth_membership(paths: Seq<String>, d: nat, n: int, i: int)
    requires
        0 <= i < n <= paths.len(),
        depth(paths[i]@) == d,
    ensures
        at_depth(paths, d, n).len() > 0,
    decreases n,
{
    if i < n - 1 {
        lemma_at_depth_membership(paths, d, n - 1, i);
    }
}

/// `b` is a dataset strictly below `a`: `a`, a `/`, then more.
pub open spec fn is_descendant(b: Seq<char>, a: Seq<char>) -> bool {
    b.len() > a.len() && b.subrange(0, a.len() as int) == a && b[a.len() as int] == '/'
}

proof fn lemma_depth_concat(a: Seq<char>, b: Seq<char>)
    ensures
        depth(a + b) == depth(a) + depth(b),
    decreases b.len(),
{
    if b.len() > 0 {
        lemma_depth_concat(a, b.drop_last());
        assert((a + b).drop_last() =~= a + b.drop_last());
    }
}

proof fn lemma_descendant_deeper(b: Seq<char>, a: Seq<char>)
    requires
        is_descendant(b, a),
    ensures
        depth(a) < depth(b),
{
    let tail = b.subrange(a.len() as int, b.len() as int);
    assert(a + tail =~= b);
    lemma_depth_concat(a, tail);
    let rest = tail.subrange(1, tail.len() as int);
    assert(seq!['/'] + rest =~= tail);
    lemma_depth_concat(seq!['/'], rest);
    assert(seq!['/'].drop_last() =~= Seq::<char>::empty());
}

proof fn lemma_at_depth_members(paths: Seq<String>, d: nat, n: int, x: Seq<char>)
    requires
        n <= paths.len(),
        at_depth(paths, d, n).contains(x),
    ensures
        depth(x) == d,
    decreases n,
{
    if n > 0 {
        let prev = at_depth(paths, d, n - 1);
        if depth(paths[n - 1]@) == d && x != paths[n - 1]@ {
            let full = prev.push(paths[n - 1]@);
            let k = choose|k: int| 0 <= k < full.len() && #[trigger] full[k] == x;
            assert(k < prev.len());
            assert(prev[k] == x);
            lemma_at_depth_members(paths, d, n - 1, x);
        } else if depth(paths[n - 1]@) != d {
            lemma_at_depth_members(paths, d, n - 1, x);
        }
    }
}

/// Parents first: in a grouping by depth, the level holding a dataset
/// comes before the level holding any dataset below it.
pub proof fn lemma_parent_level_first(
    paths: Seq<String>,
    levels: Seq<Seq<Seq<char>>>,
    depths: Seq<nat>,
    parent: Seq<char>,
    child: Seq<char>,
    kp: int,
    kc: int,
)
    requires
        grouped_by_depth(paths, levels, depths),
        is_descendant(child, parent),
        0 <= kp < levels.len(),
        0 <= kc < levels.len(),
        levels[kp].contains(parent),
        levels[kc].contains(child),
    ensures
        kp < kc,
{
    assert(levels[kp] == at_depth(paths, depths[kp], paths.len() as int));
    assert(levels[kc] == at_depth(paths, depths[kc], paths.len() as int));
    lemma_at_depth_members(paths, depths[kp], paths.len() as int, parent);
    lemma_at_depth_members(paths, depths[kc], paths.len() as int, child);
    lemma_descendant_deeper(child, parent);
    if kc <= kp {
        if kc < kp {
            assert(depths[kc] < depths[kp]);
        }
    }
}

/// Groups dataset paths by depth, shallowest first, keeping the input
/// order within a level. Every ancestor of a path sits in an earlier
/// level, so running the levels in sequence replicates parents before
/// children whatever the concurrency within a level.
pub fn depth_levels(paths: &[String]) -> (r: Vec<Vec<&str>>)
    ensures
        exists|depths: Seq<nat>| #[trigger] grouped_by_depth(paths@, level_views(r@), depths),
{
    let n = paths.len();
    let mut ds: Vec<usize> = Vec::new();
    let mut i: usize = 0;
    while i < n
        invariant
            i <= n == paths@.len(),
            ds@.len() == i,
            forall|k: int| 0 <= k < i ==> ds@[k] == depth((#[trigger] paths@[k])@),
        decreases n - i,
    {
        ds.push(depth_of(paths[i].as_str()));
        i += 1;
    }
    let mut levels: Vec<Vec<&str>> = Vec::new();
    let ghost mut depths: Seq<nat> = Seq::empty();
    // `floor` is the least depth not yet grouped; each round takes the
    // smallest depth at or above it.
    let mut floor: u128 = 0;
    let mut more = true;
    while more
        invariant
            n == paths@.len() == ds@.len(),
            forall|k: int| 0 <= k < n ==> ds@[k] == depth((#[trigger] paths@[k])@),
            levels@.len() == depths.len(),
            forall|k: int, l: int| 0 <= k < l < depths.len() ==> depths[k] < depths[l],
            floor <= usize::MAX as u128 + 1,
            forall|k: int| 0 <= k < depths.len() ==> depths[k] < floor,
            forall|k: int| 0 <= k < depths.len() ==> (#[trigger] levels@[k])@.map_values(|s: &str| s@)
                == at_depth(paths@, depths[k], n as int),
            forall|k: int| 0 <= k < depths.len() ==> depth_occurs(paths@, #[trigger] depths[k]),
            forall|x: int| 0 <= x < n && ds@[x] < floor ==> exists|k: int| 0 <= k < depths.len() && depths[k] == ds@[x],
            !more ==> forall|x: int| 0 <= x < n ==> ds@[x] < floor,
        decreases (if more { 1int } else { 0int }) + (usize::MAX as u128 + 1 - floor),
    {
        // The smallest depth at or above `floor`.
        let mut best: Option<usize> = None;
        let mut j: usize = 0;
        while j < n
            invariant
                j <= n == ds@.len(),
                match best {
                    None => forall|x: int| 0 <= x < j ==> ds@[x] < floor,
                    Some(b) => b >= floor && (exists|x: int| 0 <= x < j && ds@[x] == b)
                        && forall|x: int| 0 <= x < j && ds@[x] >= floor ==> ds@[x] >= b,
                },
            decreases n - j,
        {
            if ds[j] as u128 >= floor {
                match best {
                    None => {
                        best = Some(ds[j]);
                    },
                    Some(b) => {
                        if ds[j] < b {
                            best = Some(ds[j]);
                        }
                    },
                }
            }
            j += 1;
        }
        match best {
            None => {
                more = false;
            },
            Some(b) => {
                let mut level: Vec<&str> = Vec::new();
                let mut x: usize = 0;
                while x < n
                    invariant
                        x <= n == paths@.len() == ds@.len(),
                        forall|k: int| 0 <= k < n ==> ds@[k] == depth((#[trigger] paths@[k])@),
                        level@.map_values(|s: &str| s@) == at_depth(paths@, b as nat, x as int),
                    decreases n - x,
                {
                    if ds[x] == b {
                        level.push(paths[x].as_str());
                    }
                    assert(level@.map_values(|s: &str| s@) =~= at_depth(paths@, b as nat, x + 1));
                    x += 1;
                }
                let ghost old_depths = depths;
                proof {
                    let w = choose|w: int| 0 <= w < n && ds@[w] == b;
                    assert(depth(paths@[w]@) == b);
                    assert(depth_occurs(paths@, b as nat));
                    depths = depths.push(b as nat);
                }
                levels.push(level);
                proof {
                    assert forall|x: int| 0 <= x < n && ds@[x] < b as u128 + 1 implies exists|k: int| 0 <= k < depths.len() && depths[k] == ds@[x] by {
                        if ds@[x] >= floor {
                            assert(ds@[x] == b);
                            assert(depths[depths.len() - 1] == ds@[x]);
                        } else {
                            let k = choose|k: int| 0 <= k < old_depths.len() && old_depths[k] == ds@[x];
                            assert(depths[k] == ds@[x]);
                        }
                    }
                }
                floor = b as u128 + 1;
            },
        }
    }
    proof {
        let lv = level_views(levels@);
        assert forall|k: int| 0 <= k < depths.len() implies #[trigger] lv[k] == at_depth(paths@, depths[k], paths@.len() as int) by {
            assert(lv[k] == levels@[k]@.map_values(|s: &str| s@));
        }
        assert forall|i: int| 0 <= i < paths@.len() implies depths.contains(depth((#[trigger] paths@[i])@)) by {
            assert(ds@[i] == depth(paths@[i]@));
            assert(ds@[i] < floor);
            let k = choose|k: int| 0 <= k < depths.len() && depths[k] == ds@[i];
            assert(depths[k] == depth(paths@[i]@));
        }
        assert(lv.len() == depths.len());
        assert(forall|k: int, l: int| 0 <= k < l < depths.len() ==> depths[k] < depths[l]);
        assert(forall|k: int| 0 <= k < depths.len() ==> depth_occurs(paths@, #[trigger] depths[k]));
        assert(forall|k: int| 0 <= k < depths.len() ==> #[trigger] lv[k] == at_depth(paths@, depths[k], paths@.len() as int));
        assert(grouped_by_depth(paths@, lv, depths));
    }
    levels
}

// ---------------------------------------------------------------------
// Target selection and wake-up
// ---------------------------------------------------------------------

/// The last known history of one peer: its last successful sync, its
/// last attempt and how that attempt ended (unix seconds).
#[derive(Debug, Clone, Default)]
pub struct PeerOutcome {
    pub last_success: Option<i64>,
    pub last_attempt: Option<i64>,
    pub outcome: Option<String>,
    pub message: Option<String>,
}

/// The time the auto schedule counts from: a user-cancelled attempt
/// suppresses an immediate retry, so it counts from that attempt;
/// otherwise from the last success.
pub open spec fn schedule_anchor(o: PeerOutcome) -> Option<i64> {
    if o.outcome is Some && o.outcome.unwrap()@ == "cancelled"@ { o.last_attempt } else { o.last_success }
}

/// The time the auto schedule of a peer counts from.
pub fn peer_schedule_anchor(outcome: &PeerOutcome) -> (r: Option<i64>)
    ensures
        r == schedule_anchor(*outcome),
{
    let cancelled = match &outcome.outcome {
        Some(s) => str_eq(s.as_str(), "cancelled"),
        None => false,
    };
    if cancelled { outcome.last_attempt } else { outcome.last_success }
}

/// Records a finished attempt: its time, status and message; an `ok`
/// also moves the last success.
pub fn record_attempt(o: &mut PeerOutcome, finished: i64, status: &str, message: Option<String>)
    ensures
        final(o).last_attempt == Some(finished),
        final(o).outcome matches Some(s) && s@ == status@,
        final(o).message == message,
        final(o).last_success == if status@ == "ok"@ { Some(finished) } else { old(o).last_success },
{
    o.last_attempt = Some(finished);
    o.outcome = Some(to_owned_string(status));
    o.message = message;
    if str_eq(status, "ok") {
        o.last_success = Some(finished);
    }
}

/// Nanoseconds the scheduler falls back to when nothing sets a cadence.
pub const FALLBACK_POLL_NANOS: u128 = 900_000_000_000;

/// Nanoseconds between retries while a target is due but blocked.
pub const BLOCKED_RETRY_NANOS: u128 = 300_000_000_000;

/// The least the scheduler sleeps, in nanoseconds.
pub const MIN_NAP_NANOS: u128 = 10_000_000_000;

/// Whole seconds of `nanos`, capped at `u64::MAX`.
pub open spec fn whole_secs(nanos: u128) -> u64 {
    if nanos / 1_000_000_000 > u64::MAX { u64::MAX } else { (nanos / 1_000_000_000) as u64 }
}

/// A peer's cadence in seconds: its own `auto_interval`, else the job's
/// `interval`, else the fallback poll.
pub open spec fn cadence(auto_interval: Option<u128>, job_interval: Option<u128>) -> u64 {
    whole_secs(match auto_interval {
        Some(a) => a,
        None => match job_interval {
            Some(j) => j,
            None => FALLBACK_POLL_NANOS,
        },
    })
}

/// A peer's cadence in seconds.
pub fn cadence_secs(auto_interval: Option<u128>, job_interval: Option<u128>) -> (r: u64)
    ensures
        r == cadence(auto_interval, job_interval),
        auto_interval matches Some(a) ==> r == if a / 1_000_000_000 > u64::MAX {
            u64::MAX
        } else {
            (a / 1_000_000_000) as u64
        },
{
    let n = match auto_interval {
        Some(a) => a,
        None => match job_interval {
            Some(j) => j,
            None => FALLBACK_POLL_NANOS,
        },
    };
    let s = n / 1_000_000_000;
    if s > 0xffff_ffff_ffff_ffff { 0xffff_ffff_ffff_ffff } else { s as u64 }
}

/// A peer that sets its own `auto_interval` runs at that interval, in
/// whole seconds (capped at `u64::MAX`), whether or not the job sets an
/// interval; a peer without one runs at the job's interval; with neither,
/// every fifteen minutes.
pub proof fn lemma_cadence_precedence(a: u128, j: u128, other: Option<u128>)
    ensures
        a / 1_000_000_000 <= u64::MAX ==> cadence(Some(a), other) == a / 1_000_000_000,
        a / 1_000_000_000 > u64::MAX ==> cadence(Some(a), other) == u64::MAX,
        cadence(Some(a), None) == cadence(Some(a), Some(j)),
        j / 1_000_000_000 <= u64::MAX ==> cadence(None, Some(j)) == j / 1_000_000_000,
        cadence(None, None) == 900,
{
}

/// The index of the first configured peer named `name`, if any.
pub open spec fn peer_index(peers: Seq<PeerConfig>, name: Seq<char>, n: int) -> Option<int>
    decreases n,
{
    if n <= 0 {
        None
    } else {
        match peer_index(peers, name, n - 1) {
            Some(i) => Some(i),
            None => if peers[n - 1].name@ == name { Some(n - 1) } else { None },
        }
    }
}

/// The mode of peer `name`: that of the first peer so named, else auto.
pub open spec fn peer_mode_of(peers: Seq<PeerConfig>, name: Seq<char>) -> PeerMode {
    match peer_index(peers, name, peers.len() as int) {
        Some(i) => peers[i].mode,
        None => PeerMode::Auto,
    }
}

/// The `auto_interval` of peer `name`, if it is configured and sets one.
pub open spec fn peer_interval_of(peers: Seq<PeerConfig>, name: Seq<char>) -> Option<u128> {
    match peer_index(peers, name, peers.len() as int) {
        Some(i) => peers[i].auto_interval,
        None => None,
    }
}

fn find_peer(peers: &[PeerConfig], name: &str) -> (r: Option<usize>)
    ensures
        match r {
            Some(i) => peer_index(peers@, name@, peers@.len() as int) == Some(i as int) && i < peers@.len(),
            None => peer_index(peers@, name@, peers@.len() as int) is None,
        },
{
    let mut i: usize = 0;
    while i < peers.len()
        invariant
            i <= peers@.len(),
            peer_index(peers@, name@, i as int) is None,
        decreases peers.len() - i,
    {
        if str_eq(peers[i].name.as_str(), name) {
            proof {
                lemma_peer_index_stays(peers@, name@, i + 1, peers@.len() as int);
            }
            return Some(i);
        }
        i += 1;
    }
    None
}

proof fn lemma_peer_index_stays(peers: Seq<PeerConfig>, name: Seq<char>, m: int, n: int)
    requires
        0 <= m <= n,
        peer_index(peers, name, m) is Some,
    ensures
        peer_index(peers, name, n) == peer_index(peers, name, m),
    decreases n - m,
{
    if m < n {
        lemma_peer_index_stays(peers, name, m, n - 1);
    }
}

/// How a target is shown in the push job's status. `link` is what the
/// peer's link reports: connected, the active route's name, and whether
/// that route allows scheduled replication. The outcome word is shown
/// when it names a run status; the message counts as an error only
/// after an `error`.
pub fn target_status(
    name: &str,
    peers: &[PeerConfig],
    link: (bool, Option<String>, bool),
    manual_queued: bool,
    outcome: &PeerOutcome,
) -> (r: TargetStatus)
    ensures
        r.peer@ == name@,
        r.mode == (match peer_mode_of(peers@, name@) {
            PeerMode::Auto => WireMode::Auto,
            PeerMode::Manual => WireMode::Manual,
        }),
        r.connected == link.0,
        r.route == link.1,
        r.route_auto == link.2,
        r.manual_queued == manual_queued,
        r.auto_interval_secs == (match peer_interval_of(peers@, name@) {
            Some(n) => Some(whole_secs(n)),
            None => None,
        }),
        r.last_success == outcome.last_success,
        r.last_attempt == outcome.last_attempt,
        match outcome.outcome {
            None => r.last_outcome is None,
            Some(w) => match r.last_outcome {
                Some(v) => run_status_word(v) == w@,
                None => forall|v: RunStatus| run_status_word(v) != w@,
            },
        },
        r.last_message == outcome.message,
        r.last_error == (if outcome.outcome is Some && outcome.outcome.unwrap()@ == "error"@ {
            outcome.message
        } else {
            None
        }),
{
    let (mode, interval) = match find_peer(peers, name) {
        Some(i) => (peers[i].mode, peers[i].auto_interval),
        None => (PeerMode::Auto, None),
    };
    let auto_interval_secs = match interval {
        Some(n) => {
            let s = n / 1_000_000_000;
            Some(if s > 0xffff_ffff_ffff_ffff { 0xffff_ffff_ffff_ffff } else { s as u64 })
        },
        None => None,
    };
    let (last_outcome, is_error) = match &outcome.outcome {
        Some(w) => {
            let parsed = match RunStatus::parse(w.as_str()) {
                Ok(v) => Some(v),
                Err(_) => None,
            };
            (parsed, str_eq(w.as_str(), "error"))
        },
        None => (None, false),
    };
    let (connected, route, route_auto) = link;
    TargetStatus {
        peer: to_owned_string(name),
        mode: match mode {
            PeerMode::Auto => WireMode::Auto,
            PeerMode::Manual => WireMode::Manual,
        },
        connected,
        route,
        route_auto,
        manual_queued,
        auto_interval_secs,
        last_success: outcome.last_success,
        last_attempt: outcome.last_attempt,
        last_outcome,
        last_message: outcome.message.clone(),
        last_error: if is_error { outcome.message.clone() } else { None },
    }
}

/// Transfer `a` is listed before `b`: it started earlier, or in the same
/// second on a dataset whose name sorts first.
pub open spec fn transfer_before(a: TransferInfo, b: TransferInfo) -> bool {
    a.started_at < b.started_at || (a.started_at == b.started_at && lex_lt(a.dataset@, b.dataset@))
}

/// No transfer is listed after one it comes before.
pub open spec fn transfers_ordered(s: Seq<TransferInfo>) -> bool {
    forall|i: int, j: int| 0 <= i < j < s.len() ==> !transfer_before(#[trigger] s[j], #[trigger] s[i])
}

proof fn lemma_transfer_order(a: TransferInfo, b: TransferInfo, c: TransferInfo)
    ensures
        transfer_before(a, b) ==> !transfer_before(b, a),
        transfer_before(a, b) && transfer_before(b, c) ==> transfer_before(a, c),
{
    lemma_lex_trichotomy(a.dataset@, b.dataset@);
    if lex_lt(a.dataset@, b.dataset@) && lex_lt(b.dataset@, c.dataset@) {
        lemma_lex_transitive(a.dataset@, b.dataset@, c.dataset@);
    }
}

fn transfer_less(a: &TransferInfo, b: &TransferInfo) -> (r: bool)
    ensures
        r == transfer_before(*a, *b),
{
    if a.started_at != b.started_at {
        return a.started_at < b.started_at;
    }
    let x = crate::text::chars_of(a.dataset.as_str());
    let y = crate::text::chars_of(b.dataset.as_str());
    lex_less(&x, &y)
}

/// The in-flight transfers in display order: by start time, then by
/// dataset name. The same transfers, each once.
pub fn order_transfers(v: Vec<TransferInfo>) -> (r: Vec<TransferInfo>)
    ensures
        r@.to_multiset() == v@.to_multiset(),
        transfers_ordered(r@),
{
    broadcast use vstd::seq_lib::group_to_multiset_ensures;
    let ghost all = v@;
    let mut rest = v;
    let mut out: Vec<TransferInfo> = Vec::new();
    while rest.len() > 0
        invariant
            out@.to_multiset().add(rest@.to_multiset()) == all.to_multiset(),
            transfers_ordered(out@),
        decreases rest@.len(),
    {
        let ghost before = rest@;
        let x = rest.remove(0);
        proof {
            assert(before.remove(0) == rest@);
            before.to_multiset_ensures();
            assert(before[0] == x);
            assert(before.contains(x));
            assert(rest@.to_multiset() =~= before.to_multiset().remove(x));
            assert(before.to_multiset() =~= rest@.to_multiset().insert(x));
        }
        let mut p: usize = 0;
        while p < out.len() && !transfer_less(&x, &out[p])
            invariant
                p <= out@.len(),
                forall|q: int| 0 <= q < p ==> !transfer_before(x, #[trigger] out@[q]),
            decreases out@.len() - p,
        {
            p += 1;
        }
        let ghost old_out = out@;
        out.insert(p, x);
        proof {
            let s = out@;
            assert(s.remove(p as int) =~= old_out);
            assert(s[p as int] == x);
            assert(s.to_multiset() =~= old_out.to_multiset().insert(x)) by {
                s.to_multiset_ensures();
                assert(s.remove(p as int).to_multiset() =~= s.to_multiset().remove(x));
                assert(s.to_multiset().count(x) > 0) by {
                    assert(s.contains(x));
                }
            }
            assert(s.to_multiset().add(rest@.to_multiset()) =~= old_out.to_multiset().add(before.to_multiset()));
            assert forall|i: int, j: int| 0 <= i < j < s.len() implies !transfer_before(#[trigger] s[j], #[trigger] s[i]) by {
                if j < p {
                    assert(s[i] == old_out[i] && s[j] == old_out[j]);
                } else if j == p {
                    assert(s[i] == old_out[i]);
                } else if i == p {
                    assert(s[j] == old_out[j - 1]);
                    if p < old_out.len() {
                        lemma_transfer_order(x, old_out[p as int], old_out[p as int]);
                        lemma_transfer_order(old_out[j - 1], x, old_out[p as int]);
                        if j - 1 > p {
                            assert(!transfer_before(old_out[j - 1], old_out[p as int]));
                        }
                    }
                } else if i < p {
                    assert(s[i] == old_out[i] && s[j] == old_out[j - 1]);
                } else {
                    assert(s[i] == old_out[i - 1] && s[j] == old_out[j - 1]);
                }
            }
        }
    }
    proof {
        assert(rest@.to_multiset() =~= vstd::multiset::Multiset::<TransferInfo>::empty());
        assert(out@.to_multiset().add(vstd::multiset::Multiset::empty()) =~= out@.to_multiset());
    }
    out
}

/// What the scheduler knows of one target when it decides.
#[derive(Debug, Clone)]
pub struct TargetView {
    pub name: String,
    /// `None` when not connected; else whether the active route allows
    /// scheduled replication.
    pub link: Option<bool>,
    pub mode: PeerMode,
    /// When its schedule counts from (`schedule_anchor`).
    pub anchor: Option<i64>,
    /// Its cadence in seconds (`cadence`).
    pub cadence: u64,
}

/// Some queued manual request names `name`.
pub open spec fn requested(manual: Seq<String>, name: Seq<char>) -> bool {
    exists|i: int| 0 <= i < manual.len() && (#[trigger] manual[i])@ == name
}

/// An auto target is due: never synced, or its cadence has elapsed.
pub open spec fn due(t: TargetView, now: i64) -> bool {
    match t.anchor {
        None => true,
        Some(ts) => now - ts >= t.cadence,
    }
}

/// What a cycle does with target `t`: the reason it is selected, or the
/// error it reports, or neither.
///
/// - a manual request always selects it over whatever route is active,
///   or reports that the peer is not connected; it outranks pause, for
///   the peer it names only;
/// - paused jobs and manual-mode peers are otherwise skipped;
/// - an auto peer connected over an auto-eligible route is selected
///   when due;
/// - otherwise an auto peer whose last sync is more than three cadences
///   old is reported stale.
pub open spec fn target_pick(t: TargetView, manual: Seq<String>, paused: bool, now: i64) -> (Option<Seq<char>>, Option<Seq<char>>) {
    if requested(manual, t.name@) {
        if t.link is Some {
            (Some("manual"@), None)
        } else {
            (None, Some("manual push to "@ + debug_form(t.name@) + ": peer not connected"@))
        }
    } else if paused || t.mode != PeerMode::Auto {
        (None, None)
    } else if t.link == Some(true) {
        if due(t, now) { (Some("auto"@), None) } else { (None, None) }
    } else if t.anchor is Some && now - t.anchor.unwrap() > 3 * t.cadence {
        (None, Some("auto target "@ + debug_form(t.name@) + " has no auto-eligible route and last successful sync is "@
            + decimal(((now - t.anchor.unwrap()) / 3600) as nat) + "h old"@))
    } else {
        (None, None)
    }
}

/// A route marked `auto = false`, a peer in manual mode, or a paused job
/// never replicates on schedule: a target nobody asked for is picked only
/// when the job runs, the peer is automatic, its active route allows
/// scheduled replication, and it is due.
pub proof fn lemma_unrequested_pick_is_scheduled(t: TargetView, manual: Seq<String>, paused: bool, now: i64)
    requires
        target_pick(t, manual, paused, now).0 is Some,
        !requested(manual, t.name@),
    ensures
        !paused,
        t.mode == PeerMode::Auto,
        t.link == Some(true),
        due(t, now),
{
}

/// A manual request reaches a connected peer whatever the schedule says:
/// paused job, manual mode or metered route.
pub proof fn lemma_manual_request_carried(t: TargetView, manual: Seq<String>, paused: bool, now: i64)
    requires
        requested(manual, t.name@),
        t.link is Some,
    ensures
        target_pick(t, manual, paused, now).0 == Some("manual"@),
{
}

/// The selections among the first `n` targets, in order.
pub open spec fn selected_upto(ts: Seq<TargetView>, manual: Seq<String>, paused: bool, now: i64, n: int) -> Seq<(Seq<char>, Seq<char>)>
    decreases n,
{
    if n <= 0 {
        Seq::empty()
    } else {
        let a = selected_upto(ts, manual, paused, now, n - 1);
        match target_pick(ts[n - 1], manual, paused, now).0 {
            Some(reason) => a.push((ts[n - 1].name@, reason)),
            None => a,
        }
    }
}

/// The errors among the first `n` targets, in order.
pub open spec fn pick_errors_upto(ts: Seq<TargetView>, manual: Seq<String>, paused: bool, now: i64, n: int) -> Seq<Seq<char>>
    decreases n,
{
    if n <= 0 {
        Seq::empty()
    } else {
        let a = pick_errors_upto(ts, manual, paused, now, n - 1);
        match target_pick(ts[n - 1], manual, paused, now).1 {
            Some(m) => a.push(m),
            None => a,
        }
    }
}

/// A selection's name and reason.
pub open spec fn selection_view(s: (String, &'static str)) -> (Seq<char>, Seq<char>) {
    (s.0@, s.1@)
}

/// A reported error's text.
pub open spec fn error_view(e: StepError) -> Seq<char> {
    step_error_text(e)
}

fn is_requested(manual: &[String], name: &str) -> (r: bool)
    ensures
        r == requested(manual@, name@),
{
    let mut i: usize = 0;
    while i < manual.len()
        invariant
            i <= manual@.len(),
            forall|k: int| 0 <= k < i ==> (#[trigger] manual@[k])@ != name@,
        decreases manual.len() - i,
    {
        if str_eq(manual[i].as_str(), name) {
            return true;
        }
        i += 1;
    }
    false
}

fn pick(t: &TargetView, manual: &[String], paused: bool, now: i64) -> (r: (Option<&'static str>, Option<String>))
    ensures
        match target_pick(*t, manual@, paused, now).0 {
            Some(x) => r.0 matches Some(y) && y@ == x,
            None => r.0 is None,
        },
        match target_pick(*t, manual@, paused, now).1 {
            Some(x) => r.1 matches Some(y) && y@ == x,
            None => r.1 is None,
        },
{
    if is_requested(manual, t.name.as_str()) {
        if t.link.is_some() {
            return (Some("manual"), None);
        }
        let mut m = to_owned_string("manual push to ");
        let d = debug_str(t.name.as_str());
        push_str(&mut m, d.as_str());
        push_str(&mut m, ": peer not connected");
        return (None, Some(m));
    }
    let auto = match t.mode {
        PeerMode::Auto => true,
        PeerMode::Manual => false,
    };
    if paused || !auto {
        return (None, None);
    }
    let auto_link = match t.link {
        Some(true) => true,
        _ => false,
    };
    if auto_link {
        let is_due = match t.anchor {
            None => true,
            Some(ts) => (now as i128) - (ts as i128) >= t.cadence as i128,
        };
        return if is_due { (Some("auto"), None) } else { (None, None) };
    }
    match t.anchor {
        Some(ts) => {
            let age = (now as i128) - (ts as i128);
            if age > 3 * (t.cadence as i128) {
                let hours = age / 3600;
                let mut m = to_owned_string("auto target ");
                let d = debug_str(t.name.as_str());
                push_str(&mut m, d.as_str());
                push_str(&mut m, " has no auto-eligible route and last successful sync is ");
                let h = decimal_string(hours as u64);
                push_str(&mut m, h.as_str());
                push_str(&mut m, "h old");
                (None, Some(m))
            } else {
                (None, None)
            }
        },
        None => (None, None),
    }
}

/// Decides which targets this cycle replicates to, and what to report
/// about those it cannot reach.
pub fn select_targets(targets: &[TargetView], manual: &[String], paused: bool, now: i64) -> (r: (Vec<(String, &'static str)>, Vec<StepError>))
    ensures
        r.0@.map_values(|s: (String, &'static str)| selection_view(s))
            == selected_upto(targets@, manual@, paused, now, targets@.len() as int),
        r.1@.map_values(|e: StepError| error_view(e))
            == pick_errors_upto(targets@, manual@, paused, now, targets@.len() as int),
{
    let mut selected: Vec<(String, &'static str)> = Vec::new();
    let mut errors: Vec<StepError> = Vec::new();
    let mut i: usize = 0;
    while i < targets.len()
        invariant
            i <= targets@.len(),
            selected@.map_values(|s: (String, &'static str)| selection_view(s))
                == selected_upto(targets@, manual@, paused, now, i as int),
            errors@.map_values(|e: StepError| error_view(e))
                == pick_errors_upto(targets@, manual@, paused, now, i as int),
        decreases targets.len() - i,
    {
        let t = &targets[i];
        let (reason, err) = pick(t, manual, paused, now);
        match reason {
            Some(x) => selected.push((t.name.clone(), x)),
            None => {},
        }
        match err {
            Some(m) => errors.push(StepError::Failed(m)),
            None => {},
        }
        assert(selected@.map_values(|s: (String, &'static str)| selection_view(s))
            =~= selected_upto(targets@, manual@, paused, now, i + 1));
        assert(errors@.map_values(|e: StepError| error_view(e))
            =~= pick_errors_upto(targets@, manual@, paused, now, i + 1));
        i += 1;
    }
    (selected, errors)
}

/// The earliest due time among the first `n` auto-mode targets (unix
/// seconds; a never-synced one is due `now`), if there is one.
pub open spec fn earliest_due(ts: Seq<TargetView>, now: i64, n: int) -> Option<int>
    decreases n,
{
    if n <= 0 {
        None
    } else {
        let e = earliest_due(ts, now, n - 1);
        let t = ts[n - 1];
        if t.mode != PeerMode::Auto {
            e
        } else {
            let at: int = match t.anchor {
                Some(a) => a + t.cadence,
                None => now as int,
            };
            match e {
                None => Some(at),
                Some(x) => Some(if at < x { at } else { x }),
            }
        }
    }
}

/// How long to sleep (nanoseconds) before the next decision: until the
/// earliest auto target is due, at most `fallback`; a fixed retry when
/// one is due already (it is blocked, or it would have run); the
/// fallback when there is no auto target; never less than the floor.
pub open spec fn wake_after(ts: Seq<TargetView>, now: i64, fallback: u128) -> u128 {
    let nap: u128 = match earliest_due(ts, now, ts.len() as int) {
        None => fallback,
        Some(at) => if at <= now {
            BLOCKED_RETRY_NANOS
        } else {
            let d = ((at - now) * 1_000_000_000) as u128;
            if d < fallback { d } else { fallback }
        },
    };
    if nap < MIN_NAP_NANOS { MIN_NAP_NANOS } else { nap }
}

/// How long to sleep before the next scheduling decision.
pub fn next_wake(targets: &[TargetView], now: i64, fallback: u128) -> (r: u128)
    ensures
        r == wake_after(targets@, now, fallback),
{
    let mut earliest: Option<i128> = None;
    let mut i: usize = 0;
    while i < targets.len()
        invariant
            i <= targets@.len(),
            match earliest_due(targets@, now, i as int) {
                None => earliest is None,
                Some(x) => earliest == Some(x as i128),
            },
            match earliest_due(targets@, now, i as int) {
                None => true,
                Some(x) => i64::MIN <= x <= i64::MAX + u64::MAX,
            },
        decreases targets.len() - i,
    {
        let t = &targets[i];
        let auto = match t.mode {
            PeerMode::Auto => true,
            PeerMode::Manual => false,
        };
        if auto {
            let at: i128 = match t.anchor {
                Some(a) => a as i128 + t.cadence as i128,
                None => now as i128,
            };
            earliest = match earliest {
                None => Some(at),
                Some(x) => Some(if at < x { at } else { x }),
            };
        }
        i += 1;
    }
    let nap: u128 = match earliest {
        None => fallback,
        Some(at) => if at <= now as i128 {
            BLOCKED_RETRY_NANOS
        } else {
            let secs = (at - now as i128) as u128;
            let d = secs * 1_000_000_000;
            if d < fallback { d } else { fallback }
        },
    };
    if nap < MIN_NAP_NANOS { MIN_NAP_NANOS } else { nap }
}

/// Whether stopping the running cycle still cuts short real work: some
/// filesystem has not started, or there is no transfer yet, or some
/// transfer has not reached the hand-off to `zfs recv`.
pub open spec fn cancellable(queued: usize, phases: Seq<String>) -> bool {
    queued > 0 || phases.len() == 0 || exists|i: int| 0 <= i < phases.len()
        && !((#[trigger] phases[i])@ == "finalizing"@ || phases[i]@ == "committing"@ || phases[i]@ == "cancelling"@)
}

/// A transfer past the hand-off to `zfs recv`: stopping the cycle now
/// cuts nothing of it short.
pub open spec fn handed_off(p: TransferPhase) -> bool {
    p == TransferPhase::Finalizing || p == TransferPhase::Committing || p == TransferPhase::Cancelling
}

/// Whether stopping a cycle with these in-flight transfers still cuts
/// short real work: a filesystem has not started, no transfer has, or
/// one has not reached the hand-off.
pub open spec fn transfers_cancellable(queued: usize, ts: Seq<TransferInfo>) -> bool {
    queued > 0 || ts.len() == 0 || exists|i: int| 0 <= i < ts.len() && !handed_off(#[trigger] ts[i].phase)
}

fn any_unfinished(queued: usize, ts: &[TransferInfo]) -> (r: bool)
    ensures
        r == transfers_cancellable(queued, ts@),
{
    if queued > 0 || ts.len() == 0 {
        return true;
    }
    let mut i: usize = 0;
    while i < ts.len()
        invariant
            i <= ts@.len(),
            forall|k: int| 0 <= k < i ==> handed_off(#[trigger] ts@[k].phase),
        decreases ts.len() - i,
    {
        match ts[i].phase {
            TransferPhase::Finalizing | TransferPhase::Committing | TransferPhase::Cancelling => {},
            _ => {
                return true;
            },
        }
        i += 1;
    }
    false
}

/// A push job's status as the API reports it: its record rendered, the
/// pause and dry-run flags, the in-flight transfers in display order,
/// whether a cancel would still act (a cycle is running and stopping it
/// cuts real work short; `cancel_current` and `pause` decide the same
/// way), and the per-target statuses.
pub fn push_status(
    name: &str,
    record: &PeriodicStatus,
    paused: bool,
    dry_run: bool,
    transfers: Vec<TransferInfo>,
    cycle_running: bool,
    queued: usize,
    targets: Vec<TargetStatus>,
) -> (r: PushJobStatus)
    ensures
        r.name@ == name@,
        r.running == record.running,
        r.last_error == record.last_error,
        match shown(record.last_run) {
            Some(x) => r.last_run matches Some(s) && s@ == x,
            None => r.last_run is None,
        },
        match shown(record.next_run) {
            Some(x) => r.next_run matches Some(s) && s@ == x,
            None => r.next_run is None,
        },
        r.paused == paused,
        r.dry_run == dry_run,
        r.transfers@.to_multiset() == transfers@.to_multiset(),
        transfers_ordered(r.transfers@),
        r.cancellable == (cycle_running && transfers_cancellable(queued, transfers@)),
        r.targets@ == targets@,
{
    let base = record.render(name);
    let cancellable = if cycle_running {
        any_unfinished(queued, transfers.as_slice())
    } else {
        false
    };
    let ordered = order_transfers(transfers);
    PushJobStatus {
        name: base.name,
        last_run: base.last_run,
        next_run: base.next_run,
        last_error: base.last_error,
        running: base.running,
        paused,
        cancellable,
        dry_run,
        transfers: ordered,
        targets,
    }
}

/// Whether aborting the cycle would still cut short real work.
pub fn cancellable_now(queued: usize, phases: &[String]) -> (r: bool)
    ensures
        r == cancellable(queued, phases@),
{
    if queued > 0 || phases.len() == 0 {
        return true;
    }
    let mut i: usize = 0;
    while i < phases.len()
        invariant
            i <= phases@.len(),
            forall|k: int| 0 <= k < i ==> ((#[trigger] phases@[k])@ == "finalizing"@ || phases@[k]@ == "committing"@
                || phases@[k]@ == "cancelling"@),
        decreases phases.len() - i,
    {
        let p = phases[i].as_str();
        if !(str_eq(p, "finalizing") || str_eq(p, "committing") || str_eq(p, "cancelling")) {
            return true;
        }
        i += 1;
    }
    false
}

// ---------------------------------------------------------------------
// One filesystem, step by step
// ---------------------------------------------------------------------

/// What one replication step did to the receiver.
#[derive(Debug, Clone)]
pub enum StepOutcome {
    /// The receiver already holds the sender's head: nothing was sent.
    Done,
    /// A stream landed; the receiver may still be behind, so re-plan.
    Advanced,
    Failed(StepError),
}

/// Steps one filesystem may take in one cycle.
pub const MAX_STEPS_PER_CYCLE: usize = 16;

/// After step number `step` ended with `outcome`: `None` to plan another
/// step, else how the filesystem ends (with its error, if any). A dry
/// run or a cancelled cycle stops after one step, and the step limit
/// keeps a sender that races ahead from holding the cycle forever.
pub open spec fn after_step_spec(outcome: StepOutcome, step: usize, dry_run: bool, cancelled: bool) -> Option<Option<StepError>> {
    match outcome {
        StepOutcome::Done => Some(None),
        StepOutcome::Failed(e) => Some(Some(e)),
        StepOutcome::Advanced => if dry_run || cancelled || step >= MAX_STEPS_PER_CYCLE {
            Some(None)
        } else {
            None
        },
    }
}

/// Whether to plan another step for a filesystem.
pub fn after_step(outcome: StepOutcome, step: usize, dry_run: bool, cancelled: bool) -> (r: Option<Option<StepError>>)
    ensures
        r == after_step_spec(outcome, step, dry_run, cancelled),
{
    match outcome {
        StepOutcome::Done => Some(None),
        StepOutcome::Failed(e) => Some(Some(e)),
        StepOutcome::Advanced => if dry_run || cancelled || step >= MAX_STEPS_PER_CYCLE {
            Some(None)
        } else {
            None
        },
    }
}

/// The plan asks the receiver to drop a partial receive first.
pub open spec fn plan_discards(p: SnapshotPlan) -> bool {
    match p {
        SnapshotPlan::Full { discard_partial_recv, .. } => discard_partial_recv,
        SnapshotPlan::Incremental { discard_partial_recv, .. } => discard_partial_recv,
        SnapshotPlan::IncrementalAll { discard_partial_recv, .. } => discard_partial_recv,
        SnapshotPlan::IncrementalFromBookmark { discard_partial_recv, .. } => discard_partial_recv,
        _ => false,
    }
}

/// Whether the plan needs the explicit discard before the receive.
pub fn needs_discard(p: &SnapshotPlan) -> (r: bool)
    ensures
        r == plan_discards(*p),
{
    match p {
        SnapshotPlan::Full { discard_partial_recv, .. } => *discard_partial_recv,
        SnapshotPlan::Incremental { discard_partial_recv, .. } => *discard_partial_recv,
        SnapshotPlan::IncrementalAll { discard_partial_recv, .. } => *discard_partial_recv,
        SnapshotPlan::IncrementalFromBookmark { discard_partial_recv, .. } => *discard_partial_recv,
        _ => false,
    }
}

/// Whether the step sends the discard request before it opens the recv
/// channel: the plan asks for it and this is not a dry run (a dry run
/// only says it would).
pub fn discard_now(p: &SnapshotPlan, dry_run: bool) -> (r: bool)
    ensures
        r == (plan_discards(*p) && !dry_run),
{
    needs_discard(p) && !dry_run
}

/// What a step ends with before anything is opened: `Done` with nothing
/// sent when the plan is to send nothing; in a dry run, `Advanced` with
/// nothing sent (no transfer is published, no channel opened); else
/// `None`, and the step goes on to send.
pub fn step_before_send(p: &SnapshotPlan, dry_run: bool) -> (r: Option<(u64, StepOutcome)>)
    ensures
        p is Nothing ==> r matches Some((0, StepOutcome::Done)),
        !(p is Nothing) && dry_run ==> r matches Some((0, StepOutcome::Advanced)),
        !(p is Nothing) && !dry_run ==> r is None,
{
    match p {
        SnapshotPlan::Nothing => Some((0, StepOutcome::Done)),
        _ => if dry_run {
            Some((0, StepOutcome::Advanced))
        } else {
            None
        },
    }
}

/// How a transfer of this plan is labelled: `full`, `incremental` or
/// `resume`; `None` for a plan that sends nothing.
pub open spec fn plan_kind(p: SnapshotPlan) -> Option<Seq<char>> {
    match p {
        SnapshotPlan::Nothing => None,
        SnapshotPlan::Full { .. } => Some("full"@),
        SnapshotPlan::Resume { .. } => Some("resume"@),
        _ => Some("incremental"@),
    }
}

/// The label of a transfer of this plan.
pub fn transfer_kind(p: &SnapshotPlan) -> (r: Option<&'static str>)
    ensures
        match plan_kind(*p) {
            None => r is None,
            Some(k) => r matches Some(s) && s@ == k,
        },
{
    match p {
        SnapshotPlan::Nothing => None,
        SnapshotPlan::Full { .. } => Some("full"),
        SnapshotPlan::Resume { .. } => Some("resume"),
        _ => Some("incremental"),
    }
}

/// The receiver-side dataset of `sender`: `<root_fs>/<sender>`.
pub fn target_dataset(root_fs: &str, sender: &str) -> (r: String)
    ensures
        r@ == root_fs@ + seq!['/'] + sender@,
{
    let mut r = to_owned_string(root_fs);
    push_str(&mut r, "/");
    push_str(&mut r, sender);
    proof {
        reveal_strlit("/");
    }
    r
}

/// The key of a transfer slot: `<peer>:<dataset>`.
pub fn transfer_key(peer: &str, dataset: &str) -> (r: String)
    ensures
        r@ == peer@ + seq![':'] + dataset@,
{
    let mut r = to_owned_string(peer);
    push_str(&mut r, ":");
    push_str(&mut r, dataset);
    proof {
        reveal_strlit(":");
    }
    r
}

/// A manual push may only name one of the job's targets.
pub open spec fn push_request_error(targets: Seq<String>, job: Seq<char>, peer: Seq<char>) -> Option<Seq<char>> {
    if requested(targets, peer) {
        None
    } else {
        Some("peer "@ + debug_form(peer) + " is not a target of job "@ + debug_form(job))
    }
}

/// Checks a manual push request against the job's targets.
pub fn check_push_request(targets: &[String], job: &str, peer: &str) -> (r: Result<(), String>)
    ensures
        crate::names::result_matches(r, push_request_error(targets@, job@, peer@)),
{
    if is_requested(targets, peer) {
        return Ok(());
    }
    let mut m = to_owned_string("peer ");
    let d = debug_str(peer);
    push_str(&mut m, d.as_str());
    push_str(&mut m, " is not a target of job ");
    let j = debug_str(job);
    push_str(&mut m, j.as_str());
    Err(m)
}

} // verus!
