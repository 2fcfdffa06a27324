//! Filling per-job fields from `[defaults]`, and folding the single-value
//! shorthands (`ssh_target = "x"`, `peer = "x"`) into their list forms.
//!
//! After a successful `resolve_defaults` every peer has its routes and no
//! `ssh_target`, every push job its `targets` and no `peer`, and every
//! snap job an interval and a prefix.

use vstd::prelude::*;

use crate::grid::GridSpec;
use crate::names::result_matches;
use crate::pattern::{anchored_prefix_pattern, escape, regex_is_match};
use crate::prune::all_destroy;
use crate::retention::SnapshotEntry;
use crate::schema::{
    chosen_or, effective_flags, flag_or, Config, Defaults, JobConfig, KeepRule, PeerConfig, PruneJobConfig, PruningConfig, PruningDefaults,
    PushJobConfig, RouteConfig, SendFlagChoices, SendFlagsConfig, SnapJobConfig, SnapshotFilterConfig, SnapshottingConfig,
};
use crate::text::{decimal, decimal_string, push_str, to_owned_string};

verus! {

// ---------------------------------------------------------------------
// What a resolved value looks like
// ---------------------------------------------------------------------

/// Peer `i` gives both or neither of `ssh_target` and `routes`.
pub open spec fn peer_conflict(i: nat, p: PeerConfig) -> Option<Seq<char>> {
    if p.ssh_target is Some && p.routes@.len() > 0 {
        Some("peers["@ + decimal(i) + "]: `ssh_target` and `routes` are mutually exclusive — use one or the other"@)
    } else if p.ssh_target is None && p.routes@.len() == 0 {
        Some("peers["@ + decimal(i) + "]: missing connection — set `ssh_target = \"...\"` or [[peers.routes]]"@)
    } else {
        None
    }
}

/// `new` is peer `old` with its shorthand folded into one route named
/// `default` (scheduled replication allowed).
pub open spec fn peer_resolved(old: PeerConfig, new: PeerConfig) -> bool {
    &&& new.name == old.name
    &&& new.mode == old.mode
    &&& new.auto_interval == old.auto_interval
    &&& new.ssh_target is None
    &&& match old.ssh_target {
        Some(t) => {
            &&& new.routes@.len() == 1
            &&& new.routes@[0].name@ == "default"@
            &&& new.routes@[0].ssh_target@ == t@
            &&& new.routes@[0].auto
        },
        None => new.routes == old.routes,
    }
}

/// Peer `p` as a refusal leaves it: its `ssh_target` taken out.
pub open spec fn peer_left(p: PeerConfig) -> PeerConfig {
    PeerConfig { ssh_target: None, ..p }
}

/// Job `i` cannot be completed from `d`.
pub open spec fn job_conflict(d: Defaults, i: nat, j: JobConfig) -> Option<Seq<char>> {
    let h = "jobs["@ + decimal(i);
    match j {
        JobConfig::Snap(s) => if s.snapshotting.interval == 0 && d.snapshotting is None {
            Some(h + "].snapshotting.interval: missing — set [jobs.snapshotting].interval or [defaults.snapshotting]"@)
        } else if s.snapshotting.prefix@.len() == 0 && d.prefix is None {
            Some(h + "].snapshotting.prefix: missing — set [defaults.prefix] or [jobs.snapshotting].prefix"@)
        } else {
            None
        },
        JobConfig::Push(p) => if p.peer is Some && p.targets@.len() > 0 {
            Some(h + "]: `peer` and `targets` are mutually exclusive — use one or the other"@)
        } else if p.peer is None && p.targets@.len() == 0 {
            Some(h + "]: missing target peer — set `peer = \"...\"` or `targets = [\"...\"]`"@)
        } else {
            None
        },
        JobConfig::Prune(_) => None,
    }
}

/// Job `j` as a refusal leaves it: a snap job with a missing interval
/// filled when the defaults have one (the prefix is what was missing), a
/// push job with its `peer` taken out.
pub open spec fn job_left(d: Defaults, j: JobConfig) -> JobConfig {
    match j {
        JobConfig::Snap(s) => JobConfig::Snap(SnapJobConfig {
            snapshotting: SnapshottingConfig {
                interval: if s.snapshotting.interval == 0 && d.snapshotting is Some {
                    d.snapshotting.unwrap().interval
                } else {
                    s.snapshotting.interval
                },
                ..s.snapshotting
            },
            ..s
        }),
        JobConfig::Push(p) => JobConfig::Push(PushJobConfig { peer: None, ..p }),
        JobConfig::Prune(p) => JobConfig::Prune(p),
    }
}

/// `p` is the keep list `[defaults.pruning]` stands for, aimed at the
/// snapshots of `prefix`: the grid over `^<prefix>.*`, and with
/// `protect_non_prefixed` a negated rule over the same pattern that
/// keeps every snapshot without the prefix.
pub open spec fn default_pruning(pd: PruningDefaults, prefix: Seq<char>, p: PruningConfig) -> bool {
    let anchored = anchored_prefix_pattern(prefix);
    let k = p.keep@;
    &&& k.len() == if pd.protect_non_prefixed { 2nat } else { 1nat }
    &&& k[0] matches KeepRule::Grid { grid, regex } && grid.0@ == pd.grid.0@ && regex@ == anchored
    &&& pd.protect_non_prefixed ==> (k[1] matches KeepRule::Regex { regex, negate } && regex@ == anchored && negate)
}

/// Manual snapshots are protected by default: under the keep list that
/// `[defaults.pruning]` stands for with `protect_non_prefixed`, no
/// snapshot whose name lacks the prefix is ever destroyed.
pub proof fn lemma_default_pruning_spares_unprefixed(
    pd: PruningDefaults,
    prefix: Seq<char>,
    p: PruningConfig,
    entries: Seq<SnapshotEntry>,
    i: int,
)
    requires
        default_pruning(pd, prefix, p),
        pd.protect_non_prefixed,
        0 <= i < entries.len(),
        !regex_is_match(anchored_prefix_pattern(prefix), entries[i].name@),
    ensures
        !all_destroy(p.keep@, entries)(i),
{
    assert(!crate::prune::rule_destroys(p.keep@[1], entries, i));
}

/// `new` is snap job `old` completed from `d`.
pub open spec fn snap_resolved(d: Defaults, old: SnapJobConfig, new: SnapJobConfig) -> bool {
    &&& new.name == old.name
    &&& new.filesystems == old.filesystems
    &&& new.snapshotting.interval == if old.snapshotting.interval == 0 {
        d.snapshotting.unwrap().interval
    } else {
        old.snapshotting.interval
    }
    &&& new.snapshotting.prefix@ == if old.snapshotting.prefix@.len() == 0 {
        d.prefix.unwrap()@
    } else {
        old.snapshotting.prefix@
    }
    &&& if old.pruning.keep@.len() == 0 && d.pruning is Some {
        default_pruning(d.pruning.unwrap(), new.snapshotting.prefix@, new.pruning)
    } else {
        new.pruning == old.pruning
    }
}

/// A push job's send flags completed from `[defaults.send]`: a flag the
/// job sets stays as it is, an unset one takes the default's value.
pub open spec fn completed_send(c: SendFlagChoices, d: SendFlagsConfig) -> SendFlagChoices {
    SendFlagChoices {
        encrypted: Some(chosen_or(c.encrypted, d.encrypted)),
        embedded_data: Some(chosen_or(c.embedded_data, d.embedded_data)),
        compressed: Some(chosen_or(c.compressed, d.compressed)),
        large_blocks: Some(chosen_or(c.large_blocks, d.large_blocks)),
    }
}

fn complete_send(c: SendFlagChoices, d: &SendFlagsConfig) -> (r: SendFlagChoices)
    ensures
        r == completed_send(c, *d),
{
    SendFlagChoices {
        encrypted: Some(flag_or(c.encrypted, d.encrypted)),
        embedded_data: Some(flag_or(c.embedded_data, d.embedded_data)),
        compressed: Some(flag_or(c.compressed, d.compressed)),
        large_blocks: Some(flag_or(c.large_blocks, d.large_blocks)),
    }
}

/// `new` is push job `old` completed from `d`.
pub open spec fn push_resolved(d: Defaults, old: PushJobConfig, new: PushJobConfig) -> bool {
    &&& new.name == old.name
    &&& new.interval == old.interval
    &&& new.filesystems == old.filesystems
    &&& new.target == old.target
    &&& new.send == completed_send(old.send, d.send)
    &&& new.dry_run == old.dry_run
    &&& new.replicate == old.replicate
    &&& new.parallel == old.parallel
    &&& new.bandwidth_limit == old.bandwidth_limit
    &&& new.peer is None
    &&& match old.peer {
        Some(x) => new.targets@.len() == 1 && new.targets@[0]@ == x@,
        None => new.targets == old.targets,
    }
    &&& if old.snapshot_filter.prefix is None && old.snapshot_filter.regex is None && d.prefix is Some {
        new.snapshot_filter.regex is None && new.snapshot_filter.prefix is Some
            && new.snapshot_filter.prefix.unwrap()@ == d.prefix.unwrap()@
    } else {
        new.snapshot_filter == old.snapshot_filter
    }
}

/// `[defaults.send]` is the host-wide default of the send flags: after
/// resolution a push job runs with each flag it sets itself, and with
/// the default's value for each flag it leaves unset.
pub proof fn lemma_default_send_applies(d: Defaults, old: PushJobConfig, new: PushJobConfig)
    requires
        push_resolved(d, old, new),
    ensures
        effective_flags(new.send).encrypted == chosen_or(old.send.encrypted, d.send.encrypted),
        effective_flags(new.send).embedded_data == chosen_or(old.send.embedded_data, d.send.embedded_data),
        effective_flags(new.send).compressed == chosen_or(old.send.compressed, d.send.compressed),
        effective_flags(new.send).large_blocks == chosen_or(old.send.large_blocks, d.send.large_blocks),
{
}

/// `new` is prune job `old` completed from `d`: a standalone prune job
/// takes no snapshots, so the defaults' prefix is what it cleans up.
pub open spec fn prune_resolved(d: Defaults, old: PruneJobConfig, new: PruneJobConfig) -> bool {
    &&& new.name == old.name
    &&& new.filesystems == old.filesystems
    &&& new.interval == old.interval
    &&& if old.pruning.keep@.len() == 0 && d.prefix is Some && d.pruning is Some {
        default_pruning(d.pruning.unwrap(), d.prefix.unwrap()@, new.pruning)
    } else {
        new.pruning == old.pruning
    }
}

/// `new` is job `old` completed from `d`.
pub open spec fn job_resolved(d: Defaults, old: JobConfig, new: JobConfig) -> bool {
    match (old, new) {
        (JobConfig::Snap(o), JobConfig::Snap(n)) => snap_resolved(d, o, n),
        (JobConfig::Push(o), JobConfig::Push(n)) => push_resolved(d, o, n),
        (JobConfig::Prune(o), JobConfig::Prune(n)) => prune_resolved(d, o, n),
        _ => false,
    }
}

/// The first peer conflict at or after `k`.
pub open spec fn first_peer_conflict(peers: Seq<PeerConfig>, k: int) -> Option<Seq<char>>
    decreases peers.len() - k,
{
    if k < 0 || k >= peers.len() {
        None
    } else if peer_conflict(k as nat, peers[k]) is Some {
        peer_conflict(k as nat, peers[k])
    } else {
        first_peer_conflict(peers, k + 1)
    }
}

/// The first job conflict at or after `k`.
pub open spec fn first_job_conflict(d: Defaults, jobs: Seq<JobConfig>, k: int) -> Option<Seq<char>>
    decreases jobs.len() - k,
{
    if k < 0 || k >= jobs.len() {
        None
    } else if job_conflict(d, k as nat, jobs[k]) is Some {
        job_conflict(d, k as nat, jobs[k])
    } else {
        first_job_conflict(d, jobs, k + 1)
    }
}

/// Where the first peer conflict at or after `k` is.
pub open spec fn first_peer_conflict_at(peers: Seq<PeerConfig>, k: int) -> Option<int>
    decreases peers.len() - k,
{
    if k < 0 || k >= peers.len() {
        None
    } else if peer_conflict(k as nat, peers[k]) is Some {
        Some(k)
    } else {
        first_peer_conflict_at(peers, k + 1)
    }
}

/// Where the first job conflict at or after `k` is.
pub open spec fn first_job_conflict_at(d: Defaults, jobs: Seq<JobConfig>, k: int) -> Option<int>
    decreases jobs.len() - k,
{
    if k < 0 || k >= jobs.len() {
        None
    } else if job_conflict(d, k as nat, jobs[k]) is Some {
        Some(k)
    } else {
        first_job_conflict_at(d, jobs, k + 1)
    }
}

/// What keeps `cfg` from being completed: the first peer conflict, else
/// the first job conflict; `None` when it can be.
pub open spec fn defaults_error(cfg: Config) -> Option<Seq<char>> {
    let p = first_peer_conflict(cfg.peers@, 0);
    if p is Some { p } else { first_job_conflict(cfg.defaults, cfg.jobs@, 0) }
}

// ---------------------------------------------------------------------
// Building
// ---------------------------------------------------------------------

fn copy_grid(g: &GridSpec) -> (r: GridSpec)
    ensures
        r.0@ == g.0@,
{
    let mut v = Vec::new();
    let mut i: usize = 0;
    while i < g.0.len()
        invariant
            i <= g.0@.len(),
            v@ == g.0@.subrange(0, i as int),
        decreases g.0.len() - i,
    {
        v.push(g.0[i]);
        assert(g.0@.subrange(0, i + 1) =~= g.0@.subrange(0, i as int).push(g.0@[i as int]));
        i += 1;
    }
    assert(g.0@.subrange(0, g.0@.len() as int) =~= g.0@);
    GridSpec(v)
}

fn build_default_pruning(pd: &PruningDefaults, prefix: &str) -> (r: PruningConfig)
    ensures
        default_pruning(*pd, prefix@, r),
{
    let mut anchored = to_owned_string("^");
    let e = escape(prefix);
    push_str(&mut anchored, e.as_str());
    push_str(&mut anchored, ".*");
    proof {
        reveal_strlit("^");
        reveal_strlit(".*");
        assert(anchored@ =~= anchored_prefix_pattern(prefix@));
    }
    let mut keep: Vec<KeepRule> = Vec::new();
    keep.push(KeepRule::Grid { grid: copy_grid(&pd.grid), regex: anchored.clone() });
    if pd.protect_non_prefixed {
        keep.push(KeepRule::Regex { regex: anchored, negate: true });
    }
    PruningConfig { keep }
}

fn jobs_string(i: usize, tail: &str) -> (r: String)
    ensures
        r@ == "jobs["@ + decimal(i as nat) + tail@,
{
    let mut m = to_owned_string("jobs[");
    let d = decimal_string(i as u64);
    push_str(&mut m, d.as_str());
    push_str(&mut m, tail);
    m
}

fn peers_string(i: usize, tail: &str) -> (r: String)
    ensures
        r@ == "peers["@ + decimal(i as nat) + tail@,
{
    let mut m = to_owned_string("peers[");
    let d = decimal_string(i as u64);
    push_str(&mut m, d.as_str());
    push_str(&mut m, tail);
    m
}

fn resolve_peer(i: usize, p: PeerConfig) -> (r: Result<PeerConfig, (PeerConfig, String)>)
    ensures
        match r {
            Ok(n) => peer_conflict(i as nat, p) is None && peer_resolved(p, n),
            Err((q, m)) => peer_conflict(i as nat, p) == Some(m@) && q == peer_left(p),
        },
{
    let mut p = p;
    let target = p.ssh_target.take();
    match target {
        Some(t) => {
            if p.routes.len() == 0 {
                let mut routes = Vec::new();
                routes.push(RouteConfig { name: to_owned_string("default"), ssh_target: t, auto: true });
                p.routes = routes;
                Ok(p)
            } else {
                Err((p, peers_string(i, "]: `ssh_target` and `routes` are mutually exclusive — use one or the other")))
            }
        },
        None => {
            if p.routes.len() == 0 {
                Err((p, peers_string(i, "]: missing connection — set `ssh_target = \"...\"` or [[peers.routes]]")))
            } else {
                Ok(p)
            }
        },
    }
}

fn clone_prefix(d: &Option<String>) -> (r: Option<String>)
    ensures
        r is Some == d is Some,
        r is Some ==> r.unwrap()@ == d.unwrap()@,
{
    match d {
        Some(s) => Some(s.clone()),
        None => None,
    }
}

fn resolve_job(d: &Defaults, i: usize, job: JobConfig) -> (r: Result<JobConfig, (JobConfig, String)>)
    ensures
        match r {
            Ok(n) => job_conflict(*d, i as nat, job) is None && job_resolved(*d, job, n),
            Err((q, m)) => job_conflict(*d, i as nat, job) == Some(m@) && q == job_left(*d, job),
        },
{
    match job {
        JobConfig::Snap(s) => {
            let ghost o = s;
            let mut s = s;
            if s.snapshotting.interval == 0 {
                match &d.snapshotting {
                    Some(ds) => {
                        s.snapshotting.interval = ds.interval;
                    },
                    None => {
                        let m = jobs_string(
                            i,
                            "].snapshotting.interval: missing — set [jobs.snapshotting].interval or [defaults.snapshotting]",
                        );
                        return Err((JobConfig::Snap(s), m));
                    },
                }
            }
            if s.snapshotting.prefix.as_str().is_empty() {
                match clone_prefix(&d.prefix) {
                    Some(p) => {
                        s.snapshotting.prefix = p;
                    },
                    None => {
                        let m = jobs_string(
                            i,
                            "].snapshotting.prefix: missing — set [defaults.prefix] or [jobs.snapshotting].prefix",
                        );
                        return Err((JobConfig::Snap(s), m));
                    },
                }
            }
            if s.pruning.keep.len() == 0 {
                match &d.pruning {
                    Some(pd) => {
                        s.pruning = build_default_pruning(pd, s.snapshotting.prefix.as_str());
                    },
                    None => {},
                }
            }
            Ok(JobConfig::Snap(s))
        },
        JobConfig::Push(p) => {
            let mut p = p;
            let peer = p.peer.take();
            match peer {
                Some(single) => {
                    if p.targets.len() == 0 {
                        let mut t = Vec::new();
                        t.push(single);
                        p.targets = t;
                    } else {
                        let m = jobs_string(i, "]: `peer` and `targets` are mutually exclusive — use one or the other");
                        return Err((JobConfig::Push(p), m));
                    }
                },
                None => {
                    if p.targets.len() == 0 {
                        let m = jobs_string(
                            i,
                            "]: missing target peer — set `peer = \"...\"` or `targets = [\"...\"]`",
                        );
                        return Err((JobConfig::Push(p), m));
                    }
                },
            }
            p.send = complete_send(p.send, &d.send);
            if p.snapshot_filter.prefix.is_none() && p.snapshot_filter.regex.is_none() {
                match clone_prefix(&d.prefix) {
                    Some(prefix) => {
                        p.snapshot_filter = SnapshotFilterConfig { prefix: Some(prefix), regex: None };
                    },
                    None => {},
                }
            }
            Ok(JobConfig::Push(p))
        },
        JobConfig::Prune(p) => {
            let mut p = p;
            if p.pruning.keep.len() == 0 {
                match (&d.prefix, &d.pruning) {
                    (Some(prefix), Some(pd)) => {
                        p.pruning = build_default_pruning(pd, prefix.as_str());
                    },
                    _ => {},
                }
            }
            Ok(JobConfig::Prune(p))
        },
    }
}

/// Every peer of `old` resolved into `new`, in place.
pub open spec fn peers_resolved(old: Seq<PeerConfig>, new: Seq<PeerConfig>) -> bool {
    &&& new.len() == old.len()
    &&& forall|i: int| 0 <= i < old.len() ==> peer_resolved(old[i], #[trigger] new[i])
}

/// `new` is `old` as a refusal at peer `k` leaves it: the peers before
/// `k` resolved, peer `k` without its `ssh_target`, the rest untouched.
pub open spec fn peers_stopped_at(old: Seq<PeerConfig>, new: Seq<PeerConfig>, k: int) -> bool {
    &&& new.len() == old.len()
    &&& 0 <= k < old.len()
    &&& forall|i: int| 0 <= i < k ==> peer_resolved(old[i], #[trigger] new[i])
    &&& new[k] == peer_left(old[k])
    &&& forall|i: int| k < i < old.len() ==> #[trigger] new[i] == old[i]
}

/// Every job of `old` completed from `d` into `new`, in place.
pub open spec fn jobs_resolved(d: Defaults, old: Seq<JobConfig>, new: Seq<JobConfig>) -> bool {
    &&& new.len() == old.len()
    &&& forall|i: int| 0 <= i < old.len() ==> job_resolved(d, old[i], #[trigger] new[i])
}

/// `new` is `old` as a refusal at job `k` leaves it: the jobs before
/// `k` completed, job `k` as far as it got, the rest untouched.
pub open spec fn jobs_stopped_at(d: Defaults, old: Seq<JobConfig>, new: Seq<JobConfig>, k: int) -> bool {
    &&& new.len() == old.len()
    &&& 0 <= k < old.len()
    &&& forall|i: int| 0 <= i < k ==> job_resolved(d, old[i], #[trigger] new[i])
    &&& new[k] == job_left(d, old[k])
    &&& forall|i: int| k < i < old.len() ==> #[trigger] new[i] == old[i]
}

proof fn lemma_peer_conflict_found(peers: Seq<PeerConfig>, k: int)
    requires
        0 <= k < peers.len(),
        peer_conflict(k as nat, peers[k]) is Some,
    ensures
        first_peer_conflict_at(peers, k) == Some(k),
        first_peer_conflict(peers, k) == peer_conflict(k as nat, peers[k]),
{
}

proof fn lemma_job_conflict_found(d: Defaults, jobs: Seq<JobConfig>, k: int)
    requires
        0 <= k < jobs.len(),
        job_conflict(d, k as nat, jobs[k]) is Some,
    ensures
        first_job_conflict_at(d, jobs, k) == Some(k),
        first_job_conflict(d, jobs, k) == job_conflict(d, k as nat, jobs[k]),
{
}

/// Fills missing per-job fields from `[defaults]` and normalises the
/// peer and push-target shorthands. On success every peer is resolved
/// and every job completed, the rest of `cfg` untouched; the error names
/// the first `peers[N]` or `jobs[N]` field that neither the entry nor
/// the defaults supply (or that is given twice), and `cfg` is left as
/// the walk had got when it stopped there.
#[verifier::loop_isolation(false)]
pub fn resolve_defaults(cfg: &mut Config) -> (r: Result<(), String>)
    ensures
        result_matches(r, defaults_error(*old(cfg))),
        final(cfg).state_dir == old(cfg).state_dir,
        final(cfg).socket == old(cfg).socket,
        final(cfg).defaults == old(cfg).defaults,
        final(cfg).allowed_clients == old(cfg).allowed_clients,
        r is Ok ==> peers_resolved(old(cfg).peers@, final(cfg).peers@)
            && jobs_resolved(old(cfg).defaults, old(cfg).jobs@, final(cfg).jobs@),
        r is Err ==> match first_peer_conflict_at(old(cfg).peers@, 0) {
            Some(k) => peers_stopped_at(old(cfg).peers@, final(cfg).peers@, k)
                && final(cfg).jobs@ == old(cfg).jobs@,
            None => peers_resolved(old(cfg).peers@, final(cfg).peers@) && match first_job_conflict_at(
                old(cfg).defaults,
                old(cfg).jobs@,
                0,
            ) {
                Some(k) => jobs_stopped_at(old(cfg).defaults, old(cfg).jobs@, final(cfg).jobs@, k),
                None => false,
            },
        },
{
    let ghost old_peers = cfg.peers@;
    let ghost old_jobs = cfg.jobs@;
    let ghost d = cfg.defaults;
    let np = cfg.peers.len();
    let nj = cfg.jobs.len();
    let mut peers: Vec<PeerConfig> = Vec::new();
    std::mem::swap(&mut peers, &mut cfg.peers);
    let mut out: Vec<PeerConfig> = Vec::new();
    let mut k: usize = 0;
    while peers.len() > 0
        invariant
            k + peers@.len() == old_peers.len() == np,
            peers@ == old_peers.subrange(k as int, old_peers.len() as int),
            out@.len() == k,
            forall|x: int| 0 <= x < k ==> peer_resolved(old_peers[x], #[trigger] out@[x]),
            first_peer_conflict(old_peers, 0) == first_peer_conflict(old_peers, k as int),
            first_peer_conflict_at(old_peers, 0) == first_peer_conflict_at(old_peers, k as int),
            cfg.jobs@ == old_jobs,
            cfg.defaults == d,
            cfg.state_dir == old(cfg).state_dir,
            cfg.socket == old(cfg).socket,
            cfg.allowed_clients == old(cfg).allowed_clients,
        decreases peers@.len(),
    {
        let p = peers.remove(0);
        assert(p == old_peers[k as int]);
        match resolve_peer(k, p) {
            Ok(n) => {
                out.push(n);
            },
            Err((q, m)) => {
                proof {
                    lemma_peer_conflict_found(old_peers, k as int);
                }
                out.push(q);
                out.append(&mut peers);
                assert(forall|x: int| k < x < old_peers.len() ==> #[trigger] out@[x] == old_peers[x]);
                cfg.peers = out;
                return Err(m);
            },
        }
        k += 1;
    }
    cfg.peers = out;
    let mut jobs: Vec<JobConfig> = Vec::new();
    std::mem::swap(&mut jobs, &mut cfg.jobs);
    let mut outj: Vec<JobConfig> = Vec::new();
    let mut k: usize = 0;
    assert(jobs@ =~= old_jobs.subrange(0, old_jobs.len() as int));
    while jobs.len() > 0
        invariant
            k + jobs@.len() == old_jobs.len() == nj,
            jobs@ == old_jobs.subrange(k as int, old_jobs.len() as int),
            outj@.len() == k,
            cfg.defaults == d,
            forall|x: int| 0 <= x < k ==> job_resolved(d, old_jobs[x], #[trigger] outj@[x]),
            first_job_conflict(d, old_jobs, 0) == first_job_conflict(d, old_jobs, k as int),
            first_job_conflict_at(d, old_jobs, 0) == first_job_conflict_at(d, old_jobs, k as int),
            first_peer_conflict(old_peers, 0) is None,
            first_peer_conflict_at(old_peers, 0) is None,
            peers_resolved(old_peers, cfg.peers@),
            cfg.state_dir == old(cfg).state_dir,
            cfg.socket == old(cfg).socket,
            cfg.allowed_clients == old(cfg).allowed_clients,
        decreases jobs@.len(),
    {
        let j = jobs.remove(0);
        assert(j == old_jobs[k as int]);
        match resolve_job(&cfg.defaults, k, j) {
            Ok(n) => {
                outj.push(n);
            },
            Err((q, m)) => {
                proof {
                    lemma_job_conflict_found(d, old_jobs, k as int);
                }
                outj.push(q);
                outj.append(&mut jobs);
                assert(forall|x: int| k < x < old_jobs.len() ==> #[trigger] outj@[x] == old_jobs[x]);
                cfg.jobs = outj;
                return Err(m);
            },
        }
        k += 1;
    }
    cfg.jobs = outj;
    Ok(())
}

} // verus!
