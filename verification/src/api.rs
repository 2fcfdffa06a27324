//! The wire types of the HTTP API: closed string enums with a checked
//! round trip, and the job status shapes every client reads.
//!
//! Each wire enum reads and writes one lowercase snake_case word per
//! variant; a word that names no variant is an `UnknownVariant`.

use vstd::prelude::*;

use crate::text::{debug_form, debug_str, push_str, str_eq, to_owned_string};

verus! {

/// A string that is not one of an enum's wire values.
#[derive(Debug, Clone, PartialEq, Eq)]
pub struct UnknownVariant {
    /// The enum's name.
    pub kind: &'static str,
    pub value: String,
}

impl UnknownVariant {
    /// How the refusal reads: `"<value>" is not a valid <kind>`.
    pub fn to_string(&self) -> (r: String)
        ensures
            r@ == debug_form(self.value@) + " is not a valid "@ + self.kind@,
    {
        let mut m = debug_str(self.value.as_str());
        push_str(&mut m, " is not a valid ");
        push_str(&mut m, self.kind);
        m
    }
}

/// `zfs list -t` kinds, lowercase as `zfs(8)` prints them.
#[derive(Debug, Clone, Copy, PartialEq, Eq, Hash)]
pub enum DatasetType {
    Filesystem,
    Volume,
    Snapshot,
    Bookmark,
}

/// The wire word of each `DatasetType`.
pub open spec fn dataset_type_word(v: DatasetType) -> Seq<char> {
    match v {
        DatasetType::Filesystem => "filesystem"@,
        DatasetType::Volume => "volume"@,
        DatasetType::Snapshot => "snapshot"@,
        DatasetType::Bookmark => "bookmark"@,
    }
}

impl DatasetType {
    /// The wire word.
    pub fn as_str(self) -> (r: &'static str)
        ensures
            r@ == dataset_type_word(self),
    {
        match self {
            DatasetType::Filesystem => "filesystem",
            DatasetType::Volume => "volume",
            DatasetType::Snapshot => "snapshot",
            DatasetType::Bookmark => "bookmark",
        }
    }

    /// Reads a wire word; any other text is refused.
    pub fn parse(s: &str) -> (r: Result<Self, UnknownVariant>)
        ensures
            match r {
                Ok(v) => dataset_type_word(v) == s@,
                Err(e) => (forall|v: DatasetType| dataset_type_word(v) != s@) && e.kind@ == "DatasetType"@ && e.value@ == s@,
            },
    {
        if str_eq(s, "filesystem") {
            Ok(DatasetType::Filesystem)
        } else if str_eq(s, "volume") {
            Ok(DatasetType::Volume)
        } else if str_eq(s, "snapshot") {
            Ok(DatasetType::Snapshot)
        } else if str_eq(s, "bookmark") {
            Ok(DatasetType::Bookmark)
        } else {
            proof {
                reveal_strlit("filesystem");
                reveal_strlit("volume");
                reveal_strlit("snapshot");
                reveal_strlit("bookmark");
            }
            Err(UnknownVariant { kind: "DatasetType", value: to_owned_string(s) })
        }
    }
}

/// Reading back the word of a `DatasetType` gives it back.
pub proof fn lemma_dataset_type_round_trip(v: DatasetType, w: DatasetType)
    ensures
        dataset_type_word(v) == dataset_type_word(w) ==> v == w,
{
    reveal_strlit("filesystem");
    reveal_strlit("volume");
    reveal_strlit("snapshot");
    reveal_strlit("bookmark");
    match (v, w) {
        (DatasetType::Filesystem, DatasetType::Volume) => assert(dataset_type_word(v).len() != dataset_type_word(w).len()),
        (DatasetType::Filesystem, DatasetType::Snapshot) => assert(dataset_type_word(v).len() != dataset_type_word(w).len()),
        (DatasetType::Filesystem, DatasetType::Bookmark) => assert(dataset_type_word(v).len() != dataset_type_word(w).len()),
        (DatasetType::Volume, DatasetType::Filesystem) => assert(dataset_type_word(v).len() != dataset_type_word(w).len()),
        (DatasetType::Volume, DatasetType::Snapshot) => assert(dataset_type_word(v).len() != dataset_type_word(w).len()),
        (DatasetType::Volume, DatasetType::Bookmark) => assert(dataset_type_word(v).len() != dataset_type_word(w).len()),
        (DatasetType::Snapshot, DatasetType::Filesystem) => assert(dataset_type_word(v).len() != dataset_type_word(w).len()),
        (DatasetType::Snapshot, DatasetType::Volume) => assert(dataset_type_word(v).len() != dataset_type_word(w).len()),
        (DatasetType::Snapshot, DatasetType::Bookmark) => assert(dataset_type_word(v)[0] != dataset_type_word(w)[0]),
        (DatasetType::Bookmark, DatasetType::Filesystem) => assert(dataset_type_word(v).len() != dataset_type_word(w).len()),
        (DatasetType::Bookmark, DatasetType::Volume) => assert(dataset_type_word(v).len() != dataset_type_word(w).len()),
        (DatasetType::Bookmark, DatasetType::Snapshot) => assert(dataset_type_word(v)[0] != dataset_type_word(w)[0]),
        _ => {},
    }
}

/// The `type` of a `[[jobs]]` entry.
#[derive(Debug, Clone, Copy, PartialEq, Eq, Hash)]
pub enum JobKind {
    Snap,
    Push,
    Prune,
}

/// The wire word of each `JobKind`.
pub open spec fn job_kind_word(v: JobKind) -> Seq<char> {
    match v {
        JobKind::Snap => "snap"@,
        JobKind::Push => "push"@,
        JobKind::Prune => "prune"@,
    }
}

impl JobKind {
    /// The wire word.
    pub fn as_str(self) -> (r: &'static str)
        ensures
            r@ == job_kind_word(self),
    {
        match self {
            JobKind::Snap => "snap",
            JobKind::Push => "push",
            JobKind::Prune => "prune",
        }
    }

    /// Reads a wire word; any other text is refused.
    pub fn parse(s: &str) -> (r: Result<Self, UnknownVariant>)
        ensures
            match r {
                Ok(v) => job_kind_word(v) == s@,
                Err(e) => (forall|v: JobKind| job_kind_word(v) != s@) && e.kind@ == "JobKind"@ && e.value@ == s@,
            },
    {
        if str_eq(s, "snap") {
            Ok(JobKind::Snap)
        } else if str_eq(s, "push") {
            Ok(JobKind::Push)
        } else if str_eq(s, "prune") {
            Ok(JobKind::Prune)
        } else {
            proof {
                reveal_strlit("snap");
                reveal_strlit("push");
                reveal_strlit("prune");
            }
            Err(UnknownVariant { kind: "JobKind", value: to_owned_string(s) })
        }
    }
}

/// Reading back the word of a `JobKind` gives it back.
pub proof fn lemma_job_kind_round_trip(v: JobKind, w: JobKind)
    ensures
        job_kind_word(v) == job_kind_word(w) ==> v == w,
{
    reveal_strlit("snap");
    reveal_strlit("push");
    reveal_strlit("prune");
    match (v, w) {
        (JobKind::Snap, JobKind::Push) => assert(job_kind_word(v)[0] != job_kind_word(w)[0]),
        (JobKind::Snap, JobKind::Prune) => assert(job_kind_word(v).len() != job_kind_word(w).len()),
        (JobKind::Push, JobKind::Snap) => assert(job_kind_word(v)[0] != job_kind_word(w)[0]),
        (JobKind::Push, JobKind::Prune) => assert(job_kind_word(v).len() != job_kind_word(w).len()),
        (JobKind::Prune, JobKind::Snap) => assert(job_kind_word(v).len() != job_kind_word(w).len()),
        (JobKind::Prune, JobKind::Push) => assert(job_kind_word(v).len() != job_kind_word(w).len()),
        _ => {},
    }
}

/// Terminal (or in-flight) state of one job cycle, as stored in the run
/// history and the per-peer sync records.
#[derive(Debug, Clone, Copy, PartialEq, Eq, Hash)]
pub enum RunStatus {
    Succeeded,
    Error,
    Running,
    Cancelled,
    DryRun,
    Interrupted,
}

/// The wire word of each `RunStatus`.
pub open spec fn run_status_word(v: RunStatus) -> Seq<char> {
    match v {
        RunStatus::Succeeded => "ok"@,
        RunStatus::Error => "error"@,
        RunStatus::Running => "running"@,
        RunStatus::Cancelled => "cancelled"@,
        RunStatus::DryRun => "dry_run"@,
        RunStatus::Interrupted => "interrupted"@,
    }
}

impl RunStatus {
    /// The wire word.
    pub fn as_str(self) -> (r: &'static str)
        ensures
            r@ == run_status_word(self),
    {
        match self {
            RunStatus::Succeeded => "ok",
            RunStatus::Error => "error",
            RunStatus::Running => "running",
            RunStatus::Cancelled => "cancelled",
            RunStatus::DryRun => "dry_run",
            RunStatus::Interrupted => "interrupted",
        }
    }

    /// Reads a wire word; any other text is refused.
    pub fn parse(s: &str) -> (r: Result<Self, UnknownVariant>)
        ensures
            match r {
                Ok(v) => run_status_word(v) == s@,
                Err(e) => (forall|v: RunStatus| run_status_word(v) != s@) && e.kind@ == "RunStatus"@ && e.value@ == s@,
            },
    {
        if str_eq(s, "ok") {
            Ok(RunStatus::Succeeded)
        } else if str_eq(s, "error") {
            Ok(RunStatus::Error)
        } else if str_eq(s, "running") {
            Ok(RunStatus::Running)
        } else if str_eq(s, "cancelled") {
            Ok(RunStatus::Cancelled)
        } else if str_eq(s, "dry_run") {
            Ok(RunStatus::DryRun)
        } else if str_eq(s, "interrupted") {
            Ok(RunStatus::Interrupted)
        } else {
            proof {
                reveal_strlit("ok");
                reveal_strlit("error");
                reveal_strlit("running");
                reveal_strlit("cancelled");
                reveal_strlit("dry_run");
                reveal_strlit("interrupted");
            }
            Err(UnknownVariant { kind: "RunStatus", value: to_owned_string(s) })
        }
    }
}

/// Reading back the word of a `RunStatus` gives it back.
pub proof fn lemma_run_status_round_trip(v: RunStatus, w: RunStatus)
    ensures
        run_status_word(v) == run_status_word(w) ==> v == w,
{
    reveal_strlit("ok");
    reveal_strlit("error");
    reveal_strlit("running");
    reveal_strlit("cancelled");
    reveal_strlit("dry_run");
    reveal_strlit("interrupted");
    match (v, w) {
        (RunStatus::Succeeded, RunStatus::Error) => assert(run_status_word(v).len() != run_status_word(w).len()),
        (RunStatus::Succeeded, RunStatus::Running) => assert(run_status_word(v).len() != run_status_word(w).len()),
        (RunStatus::Succeeded, RunStatus::Cancelled) => assert(run_status_word(v).len() != run_status_word(w).len()),
        (RunStatus::Succeeded, RunStatus::DryRun) => assert(run_status_word(v).len() != run_status_word(w).len()),
        (RunStatus::Succeeded, RunStatus::Interrupted) => assert(run_status_word(v).len() != run_status_word(w).len()),
        (RunStatus::Error, RunStatus::Succeeded) => assert(run_status_word(v).len() != run_status_word(w).len()),
        (RunStatus::Error, RunStatus::Running) => assert(run_status_word(v).len() != run_status_word(w).len()),
        (RunStatus::Error, RunStatus::Cancelled) => assert(run_status_word(v).len() != run_status_word(w).len()),
        (RunStatus::Error, RunStatus::DryRun) => assert(run_status_word(v).len() != run_status_word(w).len()),
        (RunStatus::Error, RunStatus::Interrupted) => assert(run_status_word(v).len() != run_status_word(w).len()),
        (RunStatus::Running, RunStatus::Succeeded) => assert(run_status_word(v).len() != run_status_word(w).len()),
        (RunStatus::Running, RunStatus::Error) => assert(run_status_word(v).len() != run_status_word(w).len()),
        (RunStatus::Running, RunStatus::Cancelled) => assert(run_status_word(v).len() != run_status_word(w).len()),
        (RunStatus::Running, RunStatus::DryRun) => assert(run_status_word(v)[0] != run_status_word(w)[0]),
        (RunStatus::Running, RunStatus::Interrupted) => assert(run_status_word(v).len() != run_status_word(w).len()),
        (RunStatus::Cancelled, RunStatus::Succeeded) => assert(run_status_word(v).len() != run_status_word(w).len()),
        (RunStatus::Cancelled, RunStatus::Error) => assert(run_status_word(v).len() != run_status_word(w).len()),
        (RunStatus::Cancelled, RunStatus::Running) => assert(run_status_word(v).len() != run_status_word(w).len()),
        (RunStatus::Cancelled, RunStatus::DryRun) => assert(run_status_word(v).len() != run_status_word(w).len()),
        (RunStatus::Cancelled, RunStatus::Interrupted) => assert(run_status_word(v).len() != run_status_word(w).len()),
        (RunStatus::DryRun, RunStatus::Succeeded) => assert(run_status_word(v).len() != run_status_word(w).len()),
        (RunStatus::DryRun, RunStatus::Error) => assert(run_status_word(v).len() != run_status_word(w).len()),
        (RunStatus::DryRun, RunStatus::Running) => assert(run_status_word(v)[0] != run_status_word(w)[0]),
        (RunStatus::DryRun, RunStatus::Cancelled) => assert(run_status_word(v).len() != run_status_word(w).len()),
        (RunStatus::DryRun, RunStatus::Interrupted) => assert(run_status_word(v).len() != run_status_word(w).len()),
        (RunStatus::Interrupted, RunStatus::Succeeded) => assert(run_status_word(v).len() != run_status_word(w).len()),
        (RunStatus::Interrupted, RunStatus::Error) => assert(run_status_word(v).len() != run_status_word(w).len()),
        (RunStatus::Interrupted, RunStatus::Running) => assert(run_status_word(v).len() != run_status_word(w).len()),
        (RunStatus::Interrupted, RunStatus::Cancelled) => assert(run_status_word(v).len() != run_status_word(w).len()),
        (RunStatus::Interrupted, RunStatus::DryRun) => assert(run_status_word(v).len() != run_status_word(w).len()),
        _ => {},
    }
}

/// What kind of `zfs send` stream a transfer carries.
#[derive(Debug, Clone, Copy, PartialEq, Eq, Hash)]
pub enum TransferKind {
    Full,
    Incremental,
    Resume,
}

/// The wire word of each `TransferKind`.
pub open spec fn transfer_kind_word(v: TransferKind) -> Seq<char> {
    match v {
        TransferKind::Full => "full"@,
        TransferKind::Incremental => "incremental"@,
        TransferKind::Resume => "resume"@,
    }
}

impl TransferKind {
    /// The wire word.
    pub fn as_str(self) -> (r: &'static str)
        ensures
            r@ == transfer_kind_word(self),
    {
        match self {
            TransferKind::Full => "full",
            TransferKind::Incremental => "incremental",
            TransferKind::Resume => "resume",
        }
    }

    /// Reads a wire word; any other text is refused.
    pub fn parse(s: &str) -> (r: Result<Self, UnknownVariant>)
        ensures
            match r {
                Ok(v) => transfer_kind_word(v) == s@,
                Err(e) => (forall|v: TransferKind| transfer_kind_word(v) != s@) && e.kind@ == "TransferKind"@ && e.value@ == s@,
            },
    {
        if str_eq(s, "full") {
            Ok(TransferKind::Full)
        } else if str_eq(s, "incremental") {
            Ok(TransferKind::Incremental)
        } else if str_eq(s, "resume") {
            Ok(TransferKind::Resume)
        } else {
            proof {
                reveal_strlit("full");
                reveal_strlit("incremental");
                reveal_strlit("resume");
            }
            Err(UnknownVariant { kind: "TransferKind", value: to_owned_string(s) })
        }
    }
}

/// Reading back the word of a `TransferKind` gives it back.
pub proof fn lemma_transfer_kind_round_trip(v: TransferKind, w: TransferKind)
    ensures
        transfer_kind_word(v) == transfer_kind_word(w) ==> v == w,
{
    reveal_strlit("full");
    reveal_strlit("incremental");
    reveal_strlit("resume");
    match (v, w) {
        (TransferKind::Full, TransferKind::Incremental) => assert(transfer_kind_word(v).len() != transfer_kind_word(w).len()),
        (TransferKind::Full, TransferKind::Resume) => assert(transfer_kind_word(v).len() != transfer_kind_word(w).len()),
        (TransferKind::Incremental, TransferKind::Full) => assert(transfer_kind_word(v).len() != transfer_kind_word(w).len()),
        (TransferKind::Incremental, TransferKind::Resume) => assert(transfer_kind_word(v).len() != transfer_kind_word(w).len()),
        (TransferKind::Resume, TransferKind::Full) => assert(transfer_kind_word(v).len() != transfer_kind_word(w).len()),
        (TransferKind::Resume, TransferKind::Incremental) => assert(transfer_kind_word(v).len() != transfer_kind_word(w).len()),
        _ => {},
    }
}

/// Where the executor is in one transfer. Phases past `finalizing`
/// cannot be cancelled: the bytes are with the receiver.
#[derive(Debug, Clone, Copy, PartialEq, Eq, Hash)]
pub enum TransferPhase {
    Sending,
    WaitingSender,
    WaitingReceiver,
    Finalizing,
    Committing,
    Cancelling,
}

/// The wire word of each `TransferPhase`.
pub open spec fn transfer_phase_word(v: TransferPhase) -> Seq<char> {
    match v {
        TransferPhase::Sending => "sending"@,
        TransferPhase::WaitingSender => "waiting_sender"@,
        TransferPhase::WaitingReceiver => "waiting_receiver"@,
        TransferPhase::Finalizing => "finalizing"@,
        TransferPhase::Committing => "committing"@,
        TransferPhase::Cancelling => "cancelling"@,
    }
}

impl TransferPhase {
    /// The wire word.
    pub fn as_str(self) -> (r: &'static str)
        ensures
            r@ == transfer_phase_word(self),
    {
        match self {
            TransferPhase::Sending => "sending",
            TransferPhase::WaitingSender => "waiting_sender",
            TransferPhase::WaitingReceiver => "waiting_receiver",
            TransferPhase::Finalizing => "finalizing",
            TransferPhase::Committing => "committing",
            TransferPhase::Cancelling => "cancelling",
        }
    }

    /// Reads a wire word; any other text is refused.
    pub fn parse(s: &str) -> (r: Result<Self, UnknownVariant>)
        ensures
            match r {
                Ok(v) => transfer_phase_word(v) == s@,
                Err(e) => (forall|v: TransferPhase| transfer_phase_word(v) != s@) && e.kind@ == "TransferPhase"@ && e.value@ == s@,
            },
    {
        if str_eq(s, "sending") {
            Ok(TransferPhase::Sending)
        } else if str_eq(s, "waiting_sender") {
            Ok(TransferPhase::WaitingSender)
        } else if str_eq(s, "waiting_receiver") {
            Ok(TransferPhase::WaitingReceiver)
        } else if str_eq(s, "finalizing") {
            Ok(TransferPhase::Finalizing)
        } else if str_eq(s, "committing") {
            Ok(TransferPhase::Committing)
        } else if str_eq(s, "cancelling") {
            Ok(TransferPhase::Cancelling)
        } else {
            proof {
                reveal_strlit("sending");
                reveal_strlit("waiting_sender");
                reveal_strlit("waiting_receiver");
                reveal_strlit("finalizing");
                reveal_strlit("committing");
                reveal_strlit("cancelling");
            }
            Err(UnknownVariant { kind: "TransferPhase", value: to_owned_string(s) })
        }
    }
}

/// Reading back the word of a `TransferPhase` gives it back.
pub proof fn lemma_transfer_phase_round_trip(v: TransferPhase, w: TransferPhase)
    ensures
        transfer_phase_word(v) == transfer_phase_word(w) ==> v == w,
{
    reveal_strlit("sending");
    reveal_strlit("waiting_sender");
    reveal_strlit("waiting_receiver");
    reveal_strlit("finalizing");
    reveal_strlit("committing");
    reveal_strlit("cancelling");
    match (v, w) {
        (TransferPhase::Sending, TransferPhase::WaitingSender) => assert(transfer_phase_word(v).len() != transfer_phase_word(w).len()),
        (TransferPhase::Sending, TransferPhase::WaitingReceiver) => assert(transfer_phase_word(v).len() != transfer_phase_word(w).len()),
        (TransferPhase::Sending, TransferPhase::Finalizing) => assert(transfer_phase_word(v).len() != transfer_phase_word(w).len()),
        (TransferPhase::Sending, TransferPhase::Committing) => assert(transfer_phase_word(v).len() != transfer_phase_word(w).len()),
        (TransferPhase::Sending, TransferPhase::Cancelling) => assert(transfer_phase_word(v).len() != transfer_phase_word(w).len()),
        (TransferPhase::WaitingSender, TransferPhase::Sending) => assert(transfer_phase_word(v).len() != transfer_phase_word(w).len()),
        (TransferPhase::WaitingSender, TransferPhase::WaitingReceiver) => assert(transfer_phase_word(v).len() != transfer_phase_word(w).len()),
        (TransferPhase::WaitingSender, TransferPhase::Finalizing) => assert(transfer_phase_word(v).len() != transfer_phase_word(w).len()),
        (TransferPhase::WaitingSender, TransferPhase::Committing) => assert(transfer_phase_word(v).len() != transfer_phase_word(w).len()),
        (TransferPhase::WaitingSender, TransferPhase::Cancelling) => assert(transfer_phase_word(v).len() != transfer_phase_word(w).len()),
        (TransferPhase::WaitingReceiver, TransferPhase::Sending) => assert(transfer_phase_word(v).len() != transfer_phase_word(w).len()),
        (TransferPhase::WaitingReceiver, TransferPhase::WaitingSender) => assert(transfer_phase_word(v).len() != transfer_phase_word(w).len()),
        (TransferPhase::WaitingReceiver, TransferPhase::Finalizing) => assert(transfer_phase_word(v).len() != transfer_phase_word(w).len()),
        (TransferPhase::WaitingReceiver, TransferPhase::Committing) => assert(transfer_phase_word(v).len() != transfer_phase_word(w).len()),
        (TransferPhase::WaitingReceiver, TransferPhase::Cancelling) => assert(transfer_phase_word(v).len() != transfer_phase_word(w).len()),
        (TransferPhase::Finalizing, TransferPhase::Sending) => assert(transfer_phase_word(v).len() != transfer_phase_word(w).len()),
        (TransferPhase::Finalizing, TransferPhase::WaitingSender) => assert(transfer_phase_word(v).len() != transfer_phase_word(w).len()),
        (TransferPhase::Finalizing, TransferPhase::WaitingReceiver) => assert(transfer_phase_word(v).len() != transfer_phase_word(w).len()),
        (TransferPhase::Finalizing, TransferPhase::Committing) => assert(transfer_phase_word(v)[0] != transfer_phase_word(w)[0]),
        (TransferPhase::Finalizing, TransferPhase::Cancelling) => assert(transfer_phase_word(v)[0] != transfer_phase_word(w)[0]),
        (TransferPhase::Committing, TransferPhase::Sending) => assert(transfer_phase_word(v).len() != transfer_phase_word(w).len()),
        (TransferPhase::Committing, TransferPhase::WaitingSender) => assert(transfer_phase_word(v).len() != transfer_phase_word(w).len()),
        (TransferPhase::Committing, TransferPhase::WaitingReceiver) => assert(transfer_phase_word(v).len() != transfer_phase_word(w).len()),
        (TransferPhase::Committing, TransferPhase::Finalizing) => assert(transfer_phase_word(v)[0] != transfer_phase_word(w)[0]),
        (TransferPhase::Committing, TransferPhase::Cancelling) => assert(transfer_phase_word(v)[1] != transfer_phase_word(w)[1]),
        (TransferPhase::Cancelling, TransferPhase::Sending) => assert(transfer_phase_word(v).len() != transfer_phase_word(w).len()),
        (TransferPhase::Cancelling, TransferPhase::WaitingSender) => assert(transfer_phase_word(v).len() != transfer_phase_word(w).len()),
        (TransferPhase::Cancelling, TransferPhase::WaitingReceiver) => assert(transfer_phase_word(v).len() != transfer_phase_word(w).len()),
        (TransferPhase::Cancelling, TransferPhase::Finalizing) => assert(transfer_phase_word(v)[0] != transfer_phase_word(w)[0]),
        (TransferPhase::Cancelling, TransferPhase::Committing) => assert(transfer_phase_word(v)[1] != transfer_phase_word(w)[1]),
        _ => {},
    }
}

/// Replication policy for one peer of a push job.
#[derive(Debug, Clone, Copy, PartialEq, Eq, Hash)]
pub enum PeerMode {
    Auto,
    Manual,
}

/// The wire word of each `PeerMode`.
pub open spec fn peer_mode_word(v: PeerMode) -> Seq<char> {
    match v {
        PeerMode::Auto => "auto"@,
        PeerMode::Manual => "manual"@,
    }
}

impl PeerMode {
    /// The wire word.
    pub fn as_str(self) -> (r: &'static str)
        ensures
            r@ == peer_mode_word(self),
    {
        match self {
            PeerMode::Auto => "auto",
            PeerMode::Manual => "manual",
        }
    }

    /// Reads a wire word; any other text is refused.
    pub fn parse(s: &str) -> (r: Result<Self, UnknownVariant>)
        ensures
            match r {
                Ok(v) => peer_mode_word(v) == s@,
                Err(e) => (forall|v: PeerMode| peer_mode_word(v) != s@) && e.kind@ == "PeerMode"@ && e.value@ == s@,
            },
    {
        if str_eq(s, "auto") {
            Ok(PeerMode::Auto)
        } else if str_eq(s, "manual") {
            Ok(PeerMode::Manual)
        } else {
            proof {
                reveal_strlit("auto");
                reveal_strlit("manual");
            }
            Err(UnknownVariant { kind: "PeerMode", value: to_owned_string(s) })
        }
    }
}

/// Reading back the word of a `PeerMode` gives it back.
pub proof fn lemma_peer_mode_round_trip(v: PeerMode, w: PeerMode)
    ensures
        peer_mode_word(v) == peer_mode_word(w) ==> v == w,
{
    reveal_strlit("auto");
    reveal_strlit("manual");
    match (v, w) {
        (PeerMode::Auto, PeerMode::Manual) => assert(peer_mode_word(v).len() != peer_mode_word(w).len()),
        (PeerMode::Manual, PeerMode::Auto) => assert(peer_mode_word(v).len() != peer_mode_word(w).len()),
        _ => {},
    }
}

/// What a scrub request asks of a pool.
#[derive(Debug, Clone, Copy, PartialEq, Eq, Hash)]
pub enum ScrubAction {
    Start,
    Pause,
    Resume,
    Stop,
}

/// The wire word of each `ScrubAction`.
pub open spec fn scrub_action_word(v: ScrubAction) -> Seq<char> {
    match v {
        ScrubAction::Start => "start"@,
        ScrubAction::Pause => "pause"@,
        ScrubAction::Resume => "resume"@,
        ScrubAction::Stop => "stop"@,
    }
}

impl ScrubAction {
    /// The wire word.
    pub fn as_str(self) -> (r: &'static str)
        ensures
            r@ == scrub_action_word(self),
    {
        match self {
            ScrubAction::Start => "start",
            ScrubAction::Pause => "pause",
            ScrubAction::Resume => "resume",
            ScrubAction::Stop => "stop",
        }
    }

    /// Reads a wire word; any other text is refused.
    pub fn parse(s: &str) -> (r: Result<Self, UnknownVariant>)
        ensures
            match r {
                Ok(v) => scrub_action_word(v) == s@,
                Err(e) => (forall|v: ScrubAction| scrub_action_word(v) != s@) && e.kind@ == "ScrubAction"@ && e.value@ == s@,
            },
    {
        if str_eq(s, "start") {
            Ok(ScrubAction::Start)
        } else if str_eq(s, "pause") {
            Ok(ScrubAction::Pause)
        } else if str_eq(s, "resume") {
            Ok(ScrubAction::Resume)
        } else if str_eq(s, "stop") {
            Ok(ScrubAction::Stop)
        } else {
            proof {
                reveal_strlit("start");
                reveal_strlit("pause");
                reveal_strlit("resume");
                reveal_strlit("stop");
            }
            Err(UnknownVariant { kind: "ScrubAction", value: to_owned_string(s) })
        }
    }
}

/// Reading back the word of a `ScrubAction` gives it back.
pub proof fn lemma_scrub_action_round_trip(v: ScrubAction, w: ScrubAction)
    ensures
        scrub_action_word(v) == scrub_action_word(w) ==> v == w,
{
    reveal_strlit("start");
    reveal_strlit("pause");
    reveal_strlit("resume");
    reveal_strlit("stop");
    match (v, w) {
        (ScrubAction::Start, ScrubAction::Pause) => assert(scrub_action_word(v)[0] != scrub_action_word(w)[0]),
        (ScrubAction::Start, ScrubAction::Resume) => assert(scrub_action_word(v).len() != scrub_action_word(w).len()),
        (ScrubAction::Start, ScrubAction::Stop) => assert(scrub_action_word(v).len() != scrub_action_word(w).len()),
        (ScrubAction::Pause, ScrubAction::Start) => assert(scrub_action_word(v)[0] != scrub_action_word(w)[0]),
        (ScrubAction::Pause, ScrubAction::Resume) => assert(scrub_action_word(v).len() != scrub_action_word(w).len()),
        (ScrubAction::Pause, ScrubAction::Stop) => assert(scrub_action_word(v).len() != scrub_action_word(w).len()),
        (ScrubAction::Resume, ScrubAction::Start) => assert(scrub_action_word(v).len() != scrub_action_word(w).len()),
        (ScrubAction::Resume, ScrubAction::Pause) => assert(scrub_action_word(v).len() != scrub_action_word(w).len()),
        (ScrubAction::Resume, ScrubAction::Stop) => assert(scrub_action_word(v).len() != scrub_action_word(w).len()),
        (ScrubAction::Stop, ScrubAction::Start) => assert(scrub_action_word(v).len() != scrub_action_word(w).len()),
        (ScrubAction::Stop, ScrubAction::Pause) => assert(scrub_action_word(v).len() != scrub_action_word(w).len()),
        (ScrubAction::Stop, ScrubAction::Resume) => assert(scrub_action_word(v).len() != scrub_action_word(w).len()),
        _ => {},
    }
}

/// Last connect result for one route.
#[derive(Debug, Clone, Copy, PartialEq, Eq, Hash)]
pub enum RouteHealth {
    Unknown,
    Connected,
    Failed,
}

/// The wire word of each `RouteHealth`.
pub open spec fn route_health_word(v: RouteHealth) -> Seq<char> {
    match v {
        RouteHealth::Unknown => "unknown"@,
        RouteHealth::Connected => "connected"@,
        RouteHealth::Failed => "failed"@,
    }
}

impl RouteHealth {
    /// The wire word.
    pub fn as_str(self) -> (r: &'static str)
        ensures
            r@ == route_health_word(self),
    {
        match self {
            RouteHealth::Unknown => "unknown",
            RouteHealth::Connected => "connected",
            RouteHealth::Failed => "failed",
        }
    }

    /// Reads a wire word; any other text is refused.
    pub fn parse(s: &str) -> (r: Result<Self, UnknownVariant>)
        ensures
            match r {
                Ok(v) => route_health_word(v) == s@,
                Err(e) => (forall|v: RouteHealth| route_health_word(v) != s@) && e.kind@ == "RouteHealth"@ && e.value@ == s@,
            },
    {
        if str_eq(s, "unknown") {
            Ok(RouteHealth::Unknown)
        } else if str_eq(s, "connected") {
            Ok(RouteHealth::Connected)
        } else if str_eq(s, "failed") {
            Ok(RouteHealth::Failed)
        } else {
            proof {
                reveal_strlit("unknown");
                reveal_strlit("connected");
                reveal_strlit("failed");
            }
            Err(UnknownVariant { kind: "RouteHealth", value: to_owned_string(s) })
        }
    }
}

/// Reading back the word of a `RouteHealth` gives it back.
pub proof fn lemma_route_health_round_trip(v: RouteHealth, w: RouteHealth)
    ensures
        route_health_word(v) == route_health_word(w) ==> v == w,
{
    reveal_strlit("unknown");
    reveal_strlit("connected");
    reveal_strlit("failed");
    match (v, w) {
        (RouteHealth::Unknown, RouteHealth::Connected) => assert(route_health_word(v).len() != route_health_word(w).len()),
        (RouteHealth::Unknown, RouteHealth::Failed) => assert(route_health_word(v).len() != route_health_word(w).len()),
        (RouteHealth::Connected, RouteHealth::Unknown) => assert(route_health_word(v).len() != route_health_word(w).len()),
        (RouteHealth::Connected, RouteHealth::Failed) => assert(route_health_word(v).len() != route_health_word(w).len()),
        (RouteHealth::Failed, RouteHealth::Unknown) => assert(route_health_word(v).len() != route_health_word(w).len()),
        (RouteHealth::Failed, RouteHealth::Connected) => assert(route_health_word(v).len() != route_health_word(w).len()),
        _ => {},
    }
}

/// Fields every periodic job reports.
#[derive(Debug, Clone, Default)]
pub struct PeriodicJobStatus {
    pub name: String,
    /// RFC 3339; `None` until the job has completed a cycle.
    pub last_run: Option<String>,
    /// RFC 3339; set once the loop knows when it fires next.
    pub next_run: Option<String>,
    /// `None` when the latest cycle finished cleanly.
    pub last_error: Option<String>,
    /// A cycle is executing now.
    pub running: bool,
}

/// Progress of an in-flight `zfs send` stream.
#[derive(Debug, Clone)]
pub struct TransferInfo {
    pub dataset: String,
    pub peer: String,
    pub kind: TransferKind,
    pub bytes_sent: u64,
    /// Dry-run estimate; `None` for a resume.
    pub total_bytes: Option<u64>,
    /// Unix seconds.
    pub started_at: i64,
    pub phase: TransferPhase,
    /// Unix seconds when `phase` last changed.
    pub phase_since: i64,
}

/// The phase a transfer record without one is read with.
pub fn default_transfer_phase() -> (r: TransferPhase)
    ensures
        r == TransferPhase::Sending,
{
    TransferPhase::Sending
}

/// One replication target of a push job.
#[derive(Debug, Clone)]
pub struct TargetStatus {
    pub peer: String,
    pub mode: PeerMode,
    pub connected: bool,
    /// The active route while connected.
    pub route: Option<String>,
    /// The active route permits scheduled replication.
    pub route_auto: bool,
    /// A manual push to this peer is queued for the next cycle.
    pub manual_queued: bool,
    /// The peer's `auto_interval` in seconds.
    pub auto_interval_secs: Option<u64>,
    /// Unix seconds of the last successful sync.
    pub last_success: Option<i64>,
    /// Unix seconds of the latest attempt, whatever its outcome.
    pub last_attempt: Option<i64>,
    pub last_outcome: Option<RunStatus>,
    /// Context of the latest attempt that did not succeed.
    pub last_message: Option<String>,
    /// The latest attempt's message when it was a real error.
    pub last_error: Option<String>,
}

/// Status of a push job: the periodic fields plus transfer state.
#[derive(Debug, Clone, Default)]
pub struct PushJobStatus {
    pub name: String,
    pub last_run: Option<String>,
    pub next_run: Option<String>,
    pub last_error: Option<String>,
    pub running: bool,
    /// Paused: the current transfer was aborted (resumably) and scheduled
    /// cycles wait for a resume.
    pub paused: bool,
    /// A cancel request would still abort something.
    pub cancellable: bool,
    /// Configured to plan and log only.
    pub dry_run: bool,
    /// In-flight transfers, one per parallel send slot.
    pub transfers: Vec<TransferInfo>,
    /// Per-target policy and last outcome.
    pub targets: Vec<TargetStatus>,
}

/// One job's status, discriminated by its kind.
#[derive(Debug, Clone)]
pub enum JobStatus {
    Snap(PeriodicJobStatus),
    Prune(PeriodicJobStatus),
    Push(PushJobStatus),
}

/// The name a job status carries.
pub open spec fn status_name(s: JobStatus) -> Seq<char> {
    match s {
        JobStatus::Snap(p) => p.name@,
        JobStatus::Prune(p) => p.name@,
        JobStatus::Push(p) => p.name@,
    }
}

/// The kind a job status is tagged with.
pub open spec fn status_kind(s: JobStatus) -> JobKind {
    match s {
        JobStatus::Snap(_) => JobKind::Snap,
        JobStatus::Prune(_) => JobKind::Prune,
        JobStatus::Push(_) => JobKind::Push,
    }
}

impl JobStatus {
    /// The job's name.
    pub fn name(&self) -> (r: &str)
        ensures
            r@ == status_name(*self),
    {
        match self {
            JobStatus::Snap(s) => s.name.as_str(),
            JobStatus::Prune(s) => s.name.as_str(),
            JobStatus::Push(s) => s.name.as_str(),
        }
    }

    /// The job's kind.
    pub fn kind(&self) -> (r: JobKind)
        ensures
            r == status_kind(*self),
    {
        match self {
            JobStatus::Snap(_) => JobKind::Snap,
            JobStatus::Prune(_) => JobKind::Prune,
            JobStatus::Push(_) => JobKind::Push,
        }
    }
}

/// `s` with every `/` written `%2F`: the one character of a dataset
/// name that would split a URL path.
pub open spec fn encoded_segment(s: Seq<char>) -> Seq<char>
    decreases s.len(),
{
    if s.len() == 0 {
        Seq::empty()
    } else {
        encoded_segment(s.drop_last()) + if s.last() == '/' { seq!['%', '2', 'F'] } else { seq![s.last()] }
    }
}

/// Percent-encodes a dataset name for use as one URL path segment.
pub fn encode_segment(s: &str) -> (r: String)
    ensures
        r@ == encoded_segment(s@),
{
    let v = crate::text::chars_of(s);
    let mut out = String::new();
    let mut i: usize = 0;
    while i < v.len()
        invariant
            i <= v@.len(),
            out@ == encoded_segment(v@.subrange(0, i as int)),
        decreases v.len() - i,
    {
        if v[i] == '/' {
            push_str(&mut out, "%2F");
        } else {
            crate::text::push_char(&mut out, v[i]);
        }
        proof {
            reveal_strlit("%2F");
            assert(v@.subrange(0, i + 1).drop_last() =~= v@.subrange(0, i as int));
        }
        i += 1;
    }
    assert(v@.subrange(0, v@.len() as int) =~= v@);
    out
}

/// A `zfs list` entry: name, type and properties (in key order).
#[derive(Debug, Clone)]
pub struct DatasetSummary {
    pub name: String,
    pub dataset_type: DatasetType,
    pub properties: Vec<(String, String)>,
}

/// The identity of the daemon serving the API.
#[derive(Debug, Clone)]
pub struct SystemInfo {
    /// The daemon's version.
    pub version: String,
}

/// One pool in the pool list; sizes as `zpool` prints them.
#[derive(Debug, Clone)]
pub struct PoolSummary {
    pub name: String,
    pub state: String,
    pub error_count: String,
    pub alloc_space: String,
    pub total_space: String,
    pub scan: Option<ScanSummary>,
}

/// The latest scrub or resilver of a pool.
#[derive(Debug, Clone)]
pub struct ScanSummary {
    pub function: String,
    pub state: String,
    pub start_time: Option<String>,
    pub end_time: Option<String>,
    pub to_examine: Option<String>,
    pub examined: Option<String>,
    pub errors: Option<String>,
    pub pass_start: Option<String>,
    pub scrub_pause: Option<String>,
    pub issued: Option<String>,
}

/// One pool in detail, with its vdev tree.
#[derive(Debug)]
pub struct PoolStatus {
    pub name: String,
    pub state: String,
    pub error_count: String,
    pub pool_guid: String,
    pub txg: String,
    pub scan: Option<ScanSummary>,
    pub vdevs: Vec<VdevNode>,
}

/// One node of a pool's vdev tree.
#[derive(Debug)]
pub struct VdevNode {
    pub name: String,
    pub vdev_type: String,
    pub state: String,
    pub alloc_space: String,
    pub total_space: String,
    pub read_errors: String,
    pub write_errors: String,
    pub checksum_errors: String,
    pub path: Option<String>,
    pub children: Vec<VdevNode>,
}

/// A scrub request for one pool.
#[derive(Debug, Clone, Copy)]
pub struct ScrubRequest {
    pub action: ScrubAction,
}

/// One user hold on a snapshot.
#[derive(Debug, Clone)]
pub struct SnapshotHold {
    pub tag: String,
    /// Unix seconds.
    pub timestamp: u64,
}

/// One sample of the ARC size history.
#[derive(Debug, Clone, Copy)]
pub struct ArcHistoryPoint {
    /// Unix seconds.
    pub timestamp: i64,
    pub size: u64,
    pub c: u64,
    pub hits: u64,
    pub misses: u64,
}

/// The configuration file the daemon runs with.
#[derive(Debug, Clone)]
pub struct ConfigView {
    pub path: String,
    pub content_toml: String,
}

/// One recorded job cycle.
#[derive(Debug, Clone)]
pub struct JobRun {
    pub started_at: i64,
    pub finished_at: Option<i64>,
    pub status: RunStatus,
    pub error_message: Option<String>,
    pub bytes_sent: Option<i64>,
}

/// A request to place a user hold.
#[derive(Debug, Clone)]
pub struct CreateHoldRequest {
    pub tag: String,
}

/// The body of every API error: a machine code and a message.
#[derive(Debug, Clone)]
pub struct ApiErrorBody {
    pub error: String,
    pub message: String,
}

/// Whether a peer is reachable, as its reconnect loop last saw it.
#[derive(Debug, Clone)]
pub enum PeerReachability {
    /// The session is up and the control channel answers.
    Connected,
    /// Between reconnect attempts; `since` is when the link went down
    /// (RFC 3339).
    Reconnecting { since: String },
    /// The last attempt failed on every route.
    Failed { since: String, last_error: String },
}

/// One route of a peer, in priority order.
#[derive(Debug, Clone)]
pub struct PeerRoute {
    pub name: String,
    pub ssh_target: String,
    pub auto: bool,
    pub health: RouteHealth,
    pub last_error: Option<String>,
    /// RFC 3339 time of the last attempt.
    pub last_checked: Option<String>,
}

/// One peer in the peer list.
#[derive(Debug, Clone)]
pub struct PeerSummary {
    pub name: String,
    pub reachability: PeerReachability,
    pub active_route: Option<String>,
    pub routes: Vec<PeerRoute>,
}

/// One completed inbound transfer.
#[derive(Debug, Clone)]
pub struct RecvTransfer {
    pub id: i64,
    /// Unix seconds.
    pub completed_at: i64,
    pub job: String,
    pub identity: String,
    pub dataset: String,
    pub to_snapshot: String,
    pub from_snapshot: Option<String>,
    pub bytes: i64,
    pub duration_ms: i64,
}

/// One event-log entry.
#[derive(Debug, Clone)]
pub struct LogEvent {
    pub id: u64,
    /// Unix seconds.
    pub timestamp: i64,
    pub level: String,
    pub job_name: Option<String>,
    pub message: String,
}

/// A request to snapshot a dataset; the dataset is in the path.
#[derive(Debug, Clone, Default)]
pub struct CreateSnapshotRequest {
    pub snapshot_name: String,
    pub recursive: bool,
    /// User properties, in key order.
    pub properties: Vec<(String, String)>,
}

} // verus!
