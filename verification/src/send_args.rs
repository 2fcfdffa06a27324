//! The `zfs send` invocation a plan stands for, built as a
//! `zfskit::send::SendArgs`.

use vstd::prelude::*;

use crate::plan::SnapshotPlan;
use crate::schema::SendFlagsConfig;
use crate::text::{push_char, push_str, to_owned_string};

verus! {

#[verifier::external_type_specification]
#[verifier::external_body]
pub struct ExSendArgs(zfskit::send::SendArgs);

/// The source of an incremental or resumed send (mirrors
/// `zfskit::send::SendFrom`).
#[derive(Debug, Clone, PartialEq, Eq)]
pub enum SendSource {
    /// `-i <from>`.
    Incremental(String),
    /// `-I <from>`: also every snapshot in between.
    IncrementalAll(String),
    /// `-t <token>`.
    ResumeToken(String),
}

/// The fields of a `zfskit::send::SendArgs`, as plain values.
#[derive(Debug, Clone, PartialEq, Eq)]
pub struct SendRequest {
    /// Snapshot to send; empty for a resumed send.
    pub target: String,
    pub from: Option<SendSource>,
    /// `-R`.
    pub replicate: bool,
    /// `-w`.
    pub raw: bool,
    /// `-p`.
    pub properties: bool,
    /// `-c`.
    pub compressed: bool,
    /// `-L`.
    pub large_blocks: bool,
    /// `-e`.
    pub embedded: bool,
}

/// The meaning of a `SendSource`.
pub enum SourceText {
    Incremental(Seq<char>),
    IncrementalAll(Seq<char>),
    ResumeToken(Seq<char>),
}

/// The meaning of a `SendRequest`.
pub struct RequestText {
    pub target: Seq<char>,
    pub from: Option<SourceText>,
    pub replicate: bool,
    pub raw: bool,
    pub properties: bool,
    pub compressed: bool,
    pub large_blocks: bool,
    pub embedded: bool,
}

pub open spec fn source_text(s: Option<SendSource>) -> Option<SourceText> {
    match s {
        None => None,
        Some(SendSource::Incremental(x)) => Some(SourceText::Incremental(x@)),
        Some(SendSource::IncrementalAll(x)) => Some(SourceText::IncrementalAll(x@)),
        Some(SendSource::ResumeToken(x)) => Some(SourceText::ResumeToken(x@)),
    }
}

pub open spec fn request_text(r: SendRequest) -> RequestText {
    RequestText {
        target: r.target@,
        from: source_text(r.from),
        replicate: r.replicate,
        raw: r.raw,
        properties: r.properties,
        compressed: r.compressed,
        large_blocks: r.large_blocks,
        embedded: r.embedded,
    }
}

/// The `zfskit::send::SendArgs` whose fields are those of `r`.
pub uninterp spec fn zfs_send_args(r: RequestText) -> zfskit::send::SendArgs;

/// Builds the `zfskit::send::SendArgs` with exactly the fields of `r`.
#[verifier::external_body]
fn into_send_args(r: SendRequest) -> (a: zfskit::send::SendArgs)
    ensures
        a == zfs_send_args(request_text(r)),
{
    let from = match r.from {
        None => None,
        Some(SendSource::Incremental(s)) => Some(zfskit::send::SendFrom::Incremental(s)),
        Some(SendSource::IncrementalAll(s)) => Some(zfskit::send::SendFrom::IncrementalAll(s)),
        Some(SendSource::ResumeToken(s)) => Some(zfskit::send::SendFrom::ResumeToken(s)),
    };
    zfskit::send::SendArgs { target: r.target, from, replicate: r.replicate, raw: r.raw, properties: r.properties,
        compressed: r.compressed, large_blocks: r.large_blocks, embedded: r.embedded }
}

/// `<dataset><sep><leaf>`.
pub open spec fn joined(dataset: Seq<char>, sep: char, leaf: Seq<char>) -> Seq<char> {
    dataset.push(sep) + leaf
}

/// The send a plan stands for: the snapshot `<dataset>@<to>` with the
/// job's stream flags, and its base; a resumed send carries only the
/// token. `None` for Nothing.
pub open spec fn send_request_for(plan: SnapshotPlan, dataset: Seq<char>, flags: SendFlagsConfig) -> Option<RequestText> {
    let streamed = |to: Seq<char>, from: Option<SourceText>| RequestText {
        target: joined(dataset, '@', to),
        from,
        replicate: false,
        raw: flags.encrypted,
        properties: false,
        compressed: flags.compressed,
        large_blocks: flags.large_blocks,
        embedded: flags.embedded_data,
    };
    match plan {
        SnapshotPlan::Nothing => None,
        SnapshotPlan::Resume { token, .. } => Some(RequestText {
            target: Seq::empty(),
            from: Some(SourceText::ResumeToken(token@)),
            replicate: false,
            raw: false,
            properties: false,
            compressed: false,
            large_blocks: false,
            embedded: false,
        }),
        SnapshotPlan::Full { to, .. } => Some(streamed(to.name@, None)),
        SnapshotPlan::Incremental { from, to, .. } => Some(
            streamed(to.name@, Some(SourceText::Incremental(joined(dataset, '@', from.name@)))),
        ),
        SnapshotPlan::IncrementalAll { from, to, .. } => Some(
            streamed(to.name@, Some(SourceText::IncrementalAll(joined(dataset, '@', from.name@)))),
        ),
        SnapshotPlan::IncrementalFromBookmark { from, to, .. } => Some(
            streamed(to.name@, Some(SourceText::Incremental(joined(dataset, '#', from.name@)))),
        ),
    }
}

/// Every plan that streams snapshots (full or incremental, from a
/// snapshot or a bookmark) is sent with the job's own stream flags: raw
/// (`-w`) exactly when the job is encrypted, and `-c`, `-L`, `-e` exactly
/// as configured, never `-R` or `-p`; the plan's kind changes only the
/// target and its base.
pub proof fn lemma_stream_flags_follow_config(plan: SnapshotPlan, dataset: Seq<char>, flags: SendFlagsConfig)
    requires
        !(plan is Nothing),
        !(plan is Resume),
    ensures
        send_request_for(plan, dataset, flags) matches Some(q) && q.raw == flags.encrypted && q.compressed
            == flags.compressed && q.large_blocks == flags.large_blocks && q.embedded == flags.embedded_data
            && !q.replicate && !q.properties,
{
}

/// What each plan sends: nothing for Nothing; `<dataset>@<to>` for a full
/// send; the same with base `-i <dataset>@<from>`, `-I <dataset>@<from>`
/// or `-i <dataset>#<bookmark>` for the incremental kinds; and for a
/// resumed send only `-t <token>`, with no target and no stream flag.
pub proof fn lemma_send_request_targets(plan: SnapshotPlan, dataset: Seq<char>, flags: SendFlagsConfig)
    ensures
        plan is Nothing <==> send_request_for(plan, dataset, flags) is None,
        match plan {
            SnapshotPlan::Nothing => true,
            SnapshotPlan::Resume { token, .. } => send_request_for(plan, dataset, flags) matches Some(q) && q.target
                == Seq::<char>::empty() && q.from == Some(SourceText::ResumeToken(token@)) && !q.raw && !q.compressed
                && !q.large_blocks && !q.embedded && !q.replicate && !q.properties,
            SnapshotPlan::Full { to, .. } => send_request_for(plan, dataset, flags) matches Some(q) && q.target
                == dataset + seq!['@'] + to.name@ && q.from is None,
            SnapshotPlan::Incremental { from, to, .. } => send_request_for(plan, dataset, flags) matches Some(q)
                && q.target == dataset + seq!['@'] + to.name@ && q.from == Some(
                SourceText::Incremental(dataset + seq!['@'] + from.name@),
            ),
            SnapshotPlan::IncrementalAll { from, to, .. } => send_request_for(plan, dataset, flags) matches Some(q)
                && q.target == dataset + seq!['@'] + to.name@ && q.from == Some(
                SourceText::IncrementalAll(dataset + seq!['@'] + from.name@),
            ),
            SnapshotPlan::IncrementalFromBookmark { from, to, .. } => send_request_for(plan, dataset, flags) matches Some(
                q,
            ) && q.target == dataset + seq!['@'] + to.name@ && q.from == Some(
                SourceText::Incremental(dataset + seq!['#'] + from.name@),
            ),
        },
{
    match plan {
        SnapshotPlan::Full { to, .. } => {
            assert(joined(dataset, '@', to.name@) =~= dataset + seq!['@'] + to.name@);
        },
        SnapshotPlan::Incremental { from, to, .. } | SnapshotPlan::IncrementalAll { from, to, .. } => {
            assert(joined(dataset, '@', to.name@) =~= dataset + seq!['@'] + to.name@);
            assert(joined(dataset, '@', from.name@) =~= dataset + seq!['@'] + from.name@);
        },
        SnapshotPlan::IncrementalFromBookmark { from, to, .. } => {
            assert(joined(dataset, '@', to.name@) =~= dataset + seq!['@'] + to.name@);
            assert(joined(dataset, '#', from.name@) =~= dataset + seq!['#'] + from.name@);
        },
        _ => {},
    }
}

fn join_name(dataset: &str, sep: char, leaf: &str) -> (r: String)
    ensures
        r@ == joined(dataset@, sep, leaf@),
{
    let mut s = to_owned_string(dataset);
    push_char(&mut s, sep);
    push_str(&mut s, leaf);
    s
}

/// The send request for `plan` on `sender_dataset`, as plain values.
pub fn build_send_request(plan: &SnapshotPlan, sender_dataset: &str, flags: &SendFlagsConfig) -> (r: Option<SendRequest>)
    ensures
        match r {
            None => send_request_for(*plan, sender_dataset@, *flags) is None,
            Some(q) => send_request_for(*plan, sender_dataset@, *flags) == Some(request_text(q)),
        },
        !(plan is Nothing) && !(plan is Resume) ==> (r matches Some(q) && q.raw == flags.encrypted && q.compressed
            == flags.compressed && q.large_blocks == flags.large_blocks && q.embedded == flags.embedded_data
            && !q.replicate && !q.properties),
{
    let (to, from) = match plan {
        SnapshotPlan::Nothing => return None,
        SnapshotPlan::Resume { token, .. } => {
            return Some(SendRequest {
                target: String::new(),
                from: Some(SendSource::ResumeToken(token.clone())),
                replicate: false,
                raw: false,
                properties: false,
                compressed: false,
                large_blocks: false,
                embedded: false,
            });
        },
        SnapshotPlan::Full { to, .. } => (to, None),
        SnapshotPlan::Incremental { from, to, .. } => (
            to,
            Some(SendSource::Incremental(join_name(sender_dataset, '@', from.name.as_str()))),
        ),
        SnapshotPlan::IncrementalAll { from, to, .. } => (
            to,
            Some(SendSource::IncrementalAll(join_name(sender_dataset, '@', from.name.as_str()))),
        ),
        SnapshotPlan::IncrementalFromBookmark { from, to, .. } => (
            to,
            Some(SendSource::Incremental(join_name(sender_dataset, '#', from.name.as_str()))),
        ),
    };
    let r = SendRequest {
        target: join_name(sender_dataset, '@', to.name.as_str()),
        from,
        replicate: false,
        raw: flags.encrypted,
        properties: false,
        compressed: flags.compressed,
        large_blocks: flags.large_blocks,
        embedded: flags.embedded_data,
    };
    assert(send_request_for(*plan, sender_dataset@, *flags) == Some(request_text(r)));
    Some(r)
}

/// The `zfs send` arguments for `plan` on `sender_dataset`; `None` for Nothing.
pub fn build_send_args(plan: &SnapshotPlan, sender_dataset: &str, flags: &SendFlagsConfig) -> (r: Option<
    zfskit::send::SendArgs,
>)
    ensures
        match send_request_for(*plan, sender_dataset@, *flags) {
            None => r is None,
            Some(q) => r == Some(zfs_send_args(q)),
        },
{
    match build_send_request(plan, sender_dataset, flags) {
        None => None,
        Some(q) => Some(into_send_args(q)),
    }
}

} // verus!
