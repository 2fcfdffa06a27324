//! The decisions around executing one planned step: what goes on the
//! recv channel and to `zfs send`, which snapshots the step holds, when
//! progress is published, and how a failed or finished stream is
//! reported. The daemon moves the bytes.

use vstd::prelude::*;

use crate::plan::{build_send_header, header_fits, SnapshotPlan};
use crate::protocol::{RecvHeader, Response, PROTOCOL_VERSION};
use crate::schedule::StepError;
use crate::schema::SendFlagsConfig;
use crate::send_args::{build_send_args, send_request_for, zfs_send_args};
use crate::text::{push_str, to_owned_string};

verus! {

/// What a step sends: the recv channel's first frame and the `zfs send`
/// arguments.
pub struct PreparedSend {
    pub header: RecvHeader,
    pub args: zfskit::send::SendArgs,
}

/// Builds the recv header and the send arguments for a plan that sends
/// something; a plan that sends nothing has neither, which is reported.
pub fn prepare_send(plan: &SnapshotPlan, target_dataset: &str, sender_dataset: &str, flags: &SendFlagsConfig)
    -> (r: Result<PreparedSend, StepError>)
    ensures
        match r {
            Ok(p) => p.header.version == PROTOCOL_VERSION && p.header.target_dataset@ == target_dataset@
                && header_fits(*plan, *flags, p.header.send)
                && (send_request_for(*plan, sender_dataset@, *flags) matches Some(q) && p.args == zfs_send_args(q)),
            Err(StepError::Failed(m)) => *plan is Nothing
                && m@ == "build_send_header returned None for non-Nothing plan"@,
            Err(StepError::Cancelled) => false,
        },
{
    let header = match build_send_header(plan, flags) {
        Some(h) => h,
        None => {
            return Err(StepError::Failed(to_owned_string("build_send_header returned None for non-Nothing plan")));
        },
    };
    let args = match build_send_args(plan, sender_dataset, flags) {
        Some(a) => a,
        None => {
            return Err(StepError::Failed(to_owned_string("build_send_args returned None for non-Nothing plan")));
        },
    };
    Ok(PreparedSend {
        header: RecvHeader { version: PROTOCOL_VERSION, target_dataset: to_owned_string(target_dataset), send: header },
        args,
    })
}

/// Bytes between progress updates, at most.
pub const PUBLISH_EVERY_BYTES: u64 = 8 * 1024 * 1024;

/// Milliseconds between progress updates, at most.
pub const PUBLISH_EVERY_MILLIS: u64 = 250;

/// Whether to publish the copied byte count now: 8 MiB since the last
/// update, or a quarter second.
pub fn should_publish(copied: u64, last_published: u64, millis_since: u64) -> (r: bool)
    requires
        last_published <= copied,
    ensures
        r == (copied - last_published >= PUBLISH_EVERY_BYTES || millis_since >= PUBLISH_EVERY_MILLIS),
{
    copied - last_published >= PUBLISH_EVERY_BYTES || millis_since >= PUBLISH_EVERY_MILLIS
}

/// How a stream that died mid-copy is reported: the receiver's own
/// refusal when it wrote one before exiting, else the copy error.
pub open spec fn copy_failure_text(receiver_refusal: Option<Seq<char>>, copy_error: Seq<char>) -> Seq<char> {
    match receiver_refusal {
        Some(m) => "receiver: "@ + m,
        None => "stream copy: "@ + copy_error,
    }
}

/// The error a failed copy ends the step with.
pub fn copy_failure(receiver_refusal: Option<String>, copy_error: &str) -> (r: StepError)
    ensures
        r matches StepError::Failed(m) && m@ == copy_failure_text(match receiver_refusal {
            Some(s) => Some(s@),
            None => None,
        }, copy_error@),
{
    match receiver_refusal {
        Some(m) => {
            let mut t = to_owned_string("receiver: ");
            push_str(&mut t, m.as_str());
            StepError::Failed(t)
        },
        None => {
            let mut t = to_owned_string("stream copy: ");
            push_str(&mut t, copy_error);
            StepError::Failed(t)
        },
    }
}

/// How a copy that stopped early ends the step: a cancellation stays
/// `Cancelled` whatever I/O error followed it; any other stop is the
/// failure `copy_failure` names.
pub fn copy_outcome(cancelled: bool, receiver_refusal: Option<String>, copy_error: &str) -> (r: StepError)
    ensures
        cancelled ==> r is Cancelled,
        !cancelled ==> (r matches StepError::Failed(m) && m@ == copy_failure_text(match receiver_refusal {
            Some(s) => Some(s@),
            None => None,
        }, copy_error@)),
{
    if cancelled {
        StepError::Cancelled
    } else {
        copy_failure(receiver_refusal, copy_error)
    }
}

/// The receiver's verdict on a completed stream.
pub fn finish_response(resp: &Response) -> (r: Result<(), StepError>)
    ensures
        match *resp {
            Response::Success => r is Ok,
            Response::Error { message, .. } => r matches Err(StepError::Failed(m)) && m@ == "receiver: "@ + message@,
        },
{
    match resp {
        Response::Success => Ok(()),
        Response::Error { message, .. } => {
            let mut t = to_owned_string("receiver: ");
            push_str(&mut t, message.as_str());
            Err(StepError::Failed(t))
        },
    }
}

/// The snapshots a step holds: the `from` of a snapshot-based
/// incremental (a bookmark cannot be held, and prune cannot destroy one),
/// and the `to` with its GUID (for a resume, the full name the token
/// names).
pub open spec fn hold_targets(plan: SnapshotPlan, sender: Seq<char>) -> (Option<Seq<char>>, Option<(Seq<char>, u64)>) {
    let to: Option<(Seq<char>, u64)> = match plan {
        SnapshotPlan::Full { to, .. } => Some((sender + seq!['@'] + to.name@, to.guid)),
        SnapshotPlan::Incremental { to, .. } => Some((sender + seq!['@'] + to.name@, to.guid)),
        SnapshotPlan::IncrementalAll { to, .. } => Some((sender + seq!['@'] + to.name@, to.guid)),
        SnapshotPlan::IncrementalFromBookmark { to, .. } => Some((sender + seq!['@'] + to.name@, to.guid)),
        SnapshotPlan::Resume { decoded, .. } => Some((decoded.to_name@, decoded.to_guid)),
        SnapshotPlan::Nothing => None,
    };
    let from: Option<Seq<char>> = match plan {
        SnapshotPlan::Incremental { from, .. } => Some(sender + seq!['@'] + from.name@),
        SnapshotPlan::IncrementalAll { from, .. } => Some(sender + seq!['@'] + from.name@),
        _ => None,
    };
    (from, to)
}

fn at_name(dataset: &str, snap: &str) -> (r: String)
    ensures
        r@ == dataset@ + seq!['@'] + snap@,
{
    let mut r = to_owned_string(dataset);
    push_str(&mut r, "@");
    push_str(&mut r, snap);
    proof {
        reveal_strlit("@");
    }
    r
}

/// The snapshots one step of `plan` holds while it runs.
pub fn step_holds(plan: &SnapshotPlan, sender: &str) -> (r: (Option<String>, Option<(String, u64)>))
    ensures
        match hold_targets(*plan, sender@).0 {
            Some(f) => r.0 matches Some(s) && s@ == f,
            None => r.0 is None,
        },
        match hold_targets(*plan, sender@).1 {
            Some(t) => r.1 matches Some(p) && p.0@ == t.0 && p.1 == t.1,
            None => r.1 is None,
        },
{
    let to = match plan {
        SnapshotPlan::Full { to, .. } => Some((at_name(sender, to.name.as_str()), to.guid)),
        SnapshotPlan::Incremental { to, .. } => Some((at_name(sender, to.name.as_str()), to.guid)),
        SnapshotPlan::IncrementalAll { to, .. } => Some((at_name(sender, to.name.as_str()), to.guid)),
        SnapshotPlan::IncrementalFromBookmark { to, .. } => Some((at_name(sender, to.name.as_str()), to.guid)),
        SnapshotPlan::Resume { decoded, .. } => Some((decoded.to_name.clone(), decoded.to_guid)),
        SnapshotPlan::Nothing => None,
    };
    let from = match plan {
        SnapshotPlan::Incremental { from, .. } => Some(at_name(sender, from.name.as_str())),
        SnapshotPlan::IncrementalAll { from, .. } => Some(at_name(sender, from.name.as_str())),
        _ => None,
    };
    (from, to)
}

/// Why placing a step hold failed.
pub fn hold_failure(snapshot: &str, tag: &str, error: &str) -> (r: StepError)
    ensures
        r matches StepError::Failed(m) && m@ == "step hold failed for "@ + snapshot@ + " with tag "@ + tag@ + ": "@ + error@,
{
    let mut t = to_owned_string("step hold failed for ");
    push_str(&mut t, snapshot);
    push_str(&mut t, " with tag ");
    push_str(&mut t, tag);
    push_str(&mut t, ": ");
    push_str(&mut t, error);
    StepError::Failed(t)
}

/// Context added to a failed step's message (never around the
/// variant, so a cancellation stays one).
pub fn with_context(prefix: &str, path: &str, e: StepError) -> (r: StepError)
    ensures
        match e {
            StepError::Cancelled => r is Cancelled,
            StepError::Failed(m) => r matches StepError::Failed(n) && n@ == prefix@ + path@ + ": "@ + m@,
        },
{
    match e {
        StepError::Cancelled => StepError::Cancelled,
        StepError::Failed(m) => {
            let mut t = to_owned_string(prefix);
            push_str(&mut t, path);
            push_str(&mut t, ": ");
            push_str(&mut t, m.as_str());
            StepError::Failed(t)
        },
    }
}

} // verus!
