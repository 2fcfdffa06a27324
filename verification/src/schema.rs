//! The configuration model of `arctern.toml`.
//!
//! These are the bare types the rest of the library reasons about. All
//! durations are held as whole nanoseconds (`u128`), the resolution of
//! `std::time::Duration`; filesystem paths are held as their text.

use vstd::prelude::*;

use crate::grid::GridSpec;
use crate::pattern::{escape, prefix_pattern};
use crate::text::{push_str, to_owned_string};

verus! {

/// A whole configuration file.
#[derive(Debug, Clone, Default)]
pub struct Config {
    /// Per-host state directory; `None` means the daemon's default.
    pub state_dir: Option<String>,
    /// Path of the daemon's UNIX API socket; `None` means the default.
    pub socket: Option<String>,
    /// Host-wide defaults applied to every job at load time.
    pub defaults: Defaults,
    pub jobs: Vec<JobConfig>,
    /// Receiver-side access list for the SSH transport.
    pub allowed_clients: Vec<AllowedClient>,
    /// Outbound peers.
    pub peers: Vec<PeerConfig>,
}

/// Host-wide defaults, resolved into every job at load time.
#[derive(Debug, Clone, Default)]
pub struct Defaults {
    /// Snapshot tag prefix shared by snap, push and prune jobs.
    pub prefix: Option<String>,
    pub snapshotting: Option<SnapshottingDefaults>,
    pub pruning: Option<PruningDefaults>,
    pub send: SendFlagsConfig,
}

#[derive(Debug, Clone, Default)]
pub struct SnapshottingDefaults {
    /// Nanoseconds.
    pub interval: u128,
}

#[derive(Debug, Clone)]
pub struct PruningDefaults {
    pub grid: GridSpec,
    /// Append a negated prefix rule so snapshots without the prefix
    /// survive pruning (on by default).
    pub protect_non_prefixed: bool,
}

/// One outbound peer: a physical host reachable over one or more
/// routes. After loading, `ssh_target` is `None` and `routes` is the
/// single source of truth.
#[derive(Debug, Clone)]
pub struct PeerConfig {
    pub name: String,
    pub ssh_target: Option<String>,
    /// Routes in priority order.
    pub routes: Vec<RouteConfig>,
    pub mode: PeerMode,
    /// Least time between automatic syncs, in nanoseconds.
    pub auto_interval: Option<u128>,
}

/// One network route to a peer.
#[derive(Debug, Clone)]
pub struct RouteConfig {
    pub name: String,
    /// Handed verbatim to `ssh(1)`.
    pub ssh_target: String,
    /// Whether scheduled replication may run over this route.
    pub auto: bool,
}

/// When a push job replicates to a peer.
#[derive(Debug, Clone, Copy, PartialEq, Eq, Default)]
pub enum PeerMode {
    #[default]
    Auto,
    Manual,
}

/// Which filtered snapshots a push replicates.
#[derive(Debug, Clone, Copy, PartialEq, Eq, Default)]
pub enum ReplicateMode {
    /// Only the newest filtered snapshot.
    #[default]
    Latest,
    /// Every filtered snapshot.
    All,
}

/// One inbound client entry of the receiver's access list.
#[derive(Debug, Clone)]
pub struct AllowedClient {
    pub identity: String,
    pub fingerprint: Option<String>,
    pub jobs: Vec<String>,
    pub operations: Vec<String>,
    pub root_fs: Option<String>,
    pub recv: RecvConfig,
}

/// Receiver-side `zfs recv` property knobs for one client.
#[derive(Debug, Clone, Default)]
pub struct RecvConfig {
    pub inherit_properties: Vec<String>,
    /// `(key, value)` pairs in key order.
    pub override_properties: Vec<(String, String)>,
}

/// A configured job.
#[derive(Debug, Clone)]
pub enum JobConfig {
    Snap(SnapJobConfig),
    Push(PushJobConfig),
    /// Prune-only job: retention without taking snapshots.
    Prune(PruneJobConfig),
}

/// The name of a job, whatever its kind.
pub open spec fn job_name(j: JobConfig) -> Seq<char> {
    match j {
        JobConfig::Snap(s) => s.name@,
        JobConfig::Push(s) => s.name@,
        JobConfig::Prune(s) => s.name@,
    }
}

impl JobConfig {
    pub fn name(&self) -> (r: &str)
        ensures
            r@ == job_name(*self),
    {
        match self {
            JobConfig::Snap(s) => s.name.as_str(),
            JobConfig::Push(s) => s.name.as_str(),
            JobConfig::Prune(s) => s.name.as_str(),
        }
    }
}

#[derive(Debug, Clone)]
pub struct PruneJobConfig {
    pub name: String,
    pub filesystems: Vec<FilesystemFilter>,
    /// Nanoseconds between prune passes.
    pub interval: u128,
    pub pruning: PruningConfig,
}

impl PruneJobConfig {
    pub fn pruning(&self) -> (r: &PruningConfig)
        ensures
            *r == self.pruning,
    {
        &self.pruning
    }
}

#[derive(Debug, Clone)]
pub struct SnapJobConfig {
    pub name: String,
    pub filesystems: Vec<FilesystemFilter>,
    pub snapshotting: SnapshottingConfig,
    pub pruning: PruningConfig,
}

impl SnapJobConfig {
    pub fn snapshotting(&self) -> (r: &SnapshottingConfig)
        ensures
            *r == self.snapshotting,
    {
        &self.snapshotting
    }

    pub fn pruning(&self) -> (r: &PruningConfig)
        ensures
            *r == self.pruning,
    {
        &self.pruning
    }
}

/// Which datasets a job covers: `path` itself, and with `recursive`
/// every descendant not excluded.
#[derive(Debug, Clone)]
pub struct FilesystemFilter {
    pub path: String,
    pub recursive: bool,
    pub exclude: Vec<String>,
}

/// Periodic snapshot creation. Both fields blank is the "unset"
/// sentinel that `[defaults.snapshotting]` replaces.
#[derive(Debug, Clone, Default)]
pub struct SnapshottingConfig {
    /// Nanoseconds.
    pub interval: u128,
    pub prefix: String,
}

impl SnapshottingConfig {
    /// Both fields blank.
    pub fn is_unset(&self) -> (r: bool)
        ensures
            r == (self.interval == 0 && self.prefix@.len() == 0),
    {
        self.interval == 0 && self.prefix.as_str().is_empty()
    }
}

#[derive(Debug, Clone, Default)]
pub struct PruningConfig {
    pub keep: Vec<KeepRule>,
}

/// One retention rule.
#[derive(Debug, Clone)]
pub enum KeepRule {
    /// Snapshots whose name matches `regex` are kept as the grid says;
    /// all others are in this rule's destroy list.
    Grid { grid: GridSpec, regex: String },
    /// Snapshots matching `regex` are kept (with `negate`, those NOT
    /// matching are kept); the rest are in this rule's destroy list.
    Regex { regex: String, negate: bool },
}

/// The pattern of a keep rule, whatever its kind.
pub open spec fn keep_rule_regex(k: KeepRule) -> Seq<char> {
    match k {
        KeepRule::Grid { regex, .. } => regex@,
        KeepRule::Regex { regex, .. } => regex@,
    }
}

/// Push job: the active sender.
#[derive(Debug, Clone)]
pub struct PushJobConfig {
    pub name: String,
    /// Legacy single-target form; folded into `targets` at load time.
    pub peer: Option<String>,
    pub targets: Vec<String>,
    /// Nanoseconds between planner cycles; `None` means the fallback poll.
    pub interval: Option<u128>,
    pub filesystems: Vec<FilesystemFilter>,
    pub target: PushTarget,
    /// The job's own `[jobs.send]` flags; those it leaves unset take
    /// their value from `[defaults.send]` when defaults are resolved.
    pub send: SendFlagChoices,
    /// Plan only: list and log, never send.
    pub dry_run: bool,
    pub snapshot_filter: SnapshotFilterConfig,
    pub replicate: ReplicateMode,
    /// Filesystems replicated concurrently per peer.
    pub parallel: Option<u32>,
    /// Shared bandwidth cap, e.g. `"10MiB"`.
    pub bandwidth_limit: Option<String>,
}

impl PushJobConfig {
    pub fn snapshot_filter(&self) -> (r: &SnapshotFilterConfig)
        ensures
            *r == self.snapshot_filter,
    {
        &self.snapshot_filter
    }

    /// The `zfs send` flags the job runs with: each flag as set, an
    /// unset one on (the flags' default).
    pub fn send_flags(&self) -> (r: SendFlagsConfig)
        ensures
            r == effective_flags(self.send),
    {
        SendFlagsConfig {
            encrypted: flag_or(self.send.encrypted, true),
            embedded_data: flag_or(self.send.embedded_data, true),
            compressed: flag_or(self.send.compressed, true),
            large_blocks: flag_or(self.send.large_blocks, true),
        }
    }
}

/// The `zfs send` flags a push job's `[jobs.send]` table spells out;
/// `None` is a flag the job leaves unset.
#[derive(Debug, Clone, Copy, PartialEq, Eq, Default)]
pub struct SendFlagChoices {
    pub encrypted: Option<bool>,
    pub embedded_data: Option<bool>,
    pub compressed: Option<bool>,
    pub large_blocks: Option<bool>,
}

/// A flag as chosen, else `fallback`.
pub open spec fn chosen_or(c: Option<bool>, fallback: bool) -> bool {
    match c {
        Some(b) => b,
        None => fallback,
    }
}

/// A flag as chosen, else `fallback`.
pub fn flag_or(c: Option<bool>, fallback: bool) -> (r: bool)
    ensures
        r == chosen_or(c, fallback),
{
    match c {
        Some(b) => b,
        None => fallback,
    }
}

/// The flags `c` stands for: each as chosen, an unset one on.
pub open spec fn effective_flags(c: SendFlagChoices) -> SendFlagsConfig {
    SendFlagsConfig {
        encrypted: chosen_or(c.encrypted, true),
        embedded_data: chosen_or(c.embedded_data, true),
        compressed: chosen_or(c.compressed, true),
        large_blocks: chosen_or(c.large_blocks, true),
    }
}

#[derive(Debug, Clone)]
pub struct PushTarget {
    /// Receiver-side root; the target dataset is `<root_fs>/<sender path>`.
    pub root_fs: String,
}

/// `zfs send` replication flags; all four default to on.
#[derive(Debug, Clone, Copy, PartialEq, Eq)]
pub struct SendFlagsConfig {
    pub encrypted: bool,
    pub embedded_data: bool,
    pub compressed: bool,
    pub large_blocks: bool,
}

impl Default for SendFlagsConfig {
    fn default() -> (r: Self)
        ensures
            r.encrypted && r.embedded_data && r.compressed && r.large_blocks,
    {
        SendFlagsConfig { encrypted: true, embedded_data: true, compressed: true, large_blocks: true }
    }
}

/// The default of boolean settings that are on unless turned off.
pub fn yes() -> (r: bool)
    ensures
        r,
{
    true
}

/// Per-job snapshot filter: exactly one of `prefix` or `regex` once
/// validated.
#[derive(Debug, Clone, Default)]
pub struct SnapshotFilterConfig {
    pub prefix: Option<String>,
    pub regex: Option<String>,
}

/// The pattern a snapshot filter stands for: `^<escaped prefix>` for a
/// prefix, the regex verbatim otherwise; `None` when neither is set.
pub open spec fn filter_pattern(f: SnapshotFilterConfig) -> Option<Seq<char>> {
    match f.prefix {
        Some(p) => Some(prefix_pattern(p@)),
        None => match f.regex {
            Some(r) => Some(r@),
            None => None,
        },
    }
}

impl SnapshotFilterConfig {
    /// The filter as a regex string ready for the wire and the planner.
    pub fn as_regex_str(&self) -> (r: Option<String>)
        ensures
            match r {
                Some(s) => filter_pattern(*self) == Some(s@),
                None => filter_pattern(*self) is None,
            },
    {
        match &self.prefix {
            Some(p) => {
                let mut s = to_owned_string("^");
                let e = escape(p.as_str());
                push_str(&mut s, e.as_str());
                proof {
                    reveal_strlit("^");
                    assert(s@ =~= prefix_pattern(p@));
                }
                Some(s)
            },
            None => match &self.regex {
                Some(r) => Some(r.clone()),
                None => None,
            },
        }
    }
}

} // verus!
