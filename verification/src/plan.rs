//! The push planner: what to send for one filesystem, from which base,
//! and the `zfs send` arguments and wire header that express it.
//!
//! Sender and receiver are intersected by GUID only. A sender bookmark
//! whose GUID the receiver still holds can stand in for a pruned common
//! snapshot, so an offline gap longer than the sender's retention
//! resynchronises incrementally instead of by a full resend.

use vstd::prelude::*;

use crate::pattern::{is_match, regex_is_match, Pattern};
use crate::protocol::{
    compile_prefix_regex, SendFlagsWire, SendHeader, SendKind, SnapshotEntry, SnapshotRef,
};
use crate::schema::{filter_pattern, ReplicateMode, SendFlagsConfig, SnapshotFilterConfig};
use crate::text::{
    chars_of, decimal, decimal_string, find_char, index_of_from, push_char, push_str, string_of, to_owned_string,
};

verus! {

/// A sender-side bookmark: leaf name (after `#`), GUID, creation txg.
#[derive(Debug, Clone, PartialEq, Eq)]
pub struct BookmarkRef {
    pub leaf: String,
    pub guid: u64,
    pub createtxg: u64,
}

/// A decoded `receive_resume_token`.
#[derive(Debug, Clone, PartialEq, Eq)]
pub struct ResumeToken {
    /// The raw token, as handed to `zfs send -t`.
    pub token: String,
    /// `dataset@snapshot` the interrupted stream was destined for.
    pub to_name: String,
    pub to_guid: u64,
    /// Base of an interrupted incremental; `None` for a full send.
    pub from_guid: Option<u64>,
    pub bytes_received: u64,
}

/// What to send for one filesystem.
#[derive(Debug, Clone, PartialEq, Eq)]
pub enum SnapshotPlan {
    Nothing,
    Full { to: SnapshotRef, discard_partial_recv: bool },
    Incremental { from: SnapshotRef, to: SnapshotRef, discard_partial_recv: bool },
    /// `zfs send -I`: the stream also carries every snapshot between.
    IncrementalAll { from: SnapshotRef, to: SnapshotRef, discard_partial_recv: bool },
    /// `zfs send -i <dataset>#<bookmark>`; `from.name` is the bookmark leaf.
    IncrementalFromBookmark { from: SnapshotRef, to: SnapshotRef, discard_partial_recv: bool },
    Resume { token: String, decoded: ResumeToken },
}

/// Why no plan could be made for one filesystem.
#[derive(Debug, Clone, PartialEq, Eq)]
pub enum PlanError {
    /// Listing the sender's snapshots failed.
    SenderList { dataset: String, message: String },
    /// Asking the receiver for its GUIDs failed.
    ReceiverList { target: String, message: String },
    /// The receiver holds snapshots but shares none (and no bookmark)
    /// with the sender: only a full send would apply, and it cannot be
    /// received over existing data.
    Diverged { target: String, receiver_snapshots: usize },
    /// The target exists without snapshots (a placeholder a child's
    /// receive created); a full stream cannot land on it.
    Placeholder { target: String },
}

/// How a plan error reads.
pub open spec fn plan_error_text(e: PlanError) -> Seq<char> {
    match e {
        PlanError::SenderList { dataset, message } => "list sender snapshots on "@ + dataset@ + ": "@ + message@,
        PlanError::ReceiverList { target, message } => "list receiver snapshots on "@ + target@ + ": "@ + message@,
        PlanError::Diverged { target, receiver_snapshots } => target@ + " holds "@ + decimal(receiver_snapshots as nat)
            + " snapshot(s) but shares no snapshot or bookmark with the sender, so only a full send applies and a full send cannot be received over existing data. The two have diverged; reconcile by hand \u{2014} destroy "@
            + target@ + " to allow a fresh full send, or restore a common base on the sender."@,
        PlanError::Placeholder { target } => target@
            + " exists but has no snapshots, and a full send cannot be received over an existing dataset. It is most likely a placeholder created for a child's receive. If nothing lives under it, destroy it and the next cycle will send it in full; if received children already live under it, move them aside first."@,
    }
}

impl PlanError {
    /// The error's message.
    pub fn to_string(&self) -> (r: String)
        ensures
            r@ == plan_error_text(*self),
    {
        match self {
            PlanError::SenderList { dataset, message } => {
                let mut s = to_owned_string("list sender snapshots on ");
                push_str(&mut s, dataset.as_str());
                push_str(&mut s, ": ");
                push_str(&mut s, message.as_str());
                s
            },
            PlanError::ReceiverList { target, message } => {
                let mut s = to_owned_string("list receiver snapshots on ");
                push_str(&mut s, target.as_str());
                push_str(&mut s, ": ");
                push_str(&mut s, message.as_str());
                s
            },
            PlanError::Diverged { target, receiver_snapshots } => {
                let mut s = to_owned_string(target.as_str());
                push_str(&mut s, " holds ");
                let n = decimal_string(*receiver_snapshots as u64);
                push_str(&mut s, n.as_str());
                push_str(&mut s, " snapshot(s) but shares no snapshot or bookmark with the sender, so only a full send applies and a full send cannot be received over existing data. The two have diverged; reconcile by hand \u{2014} destroy ");
                push_str(&mut s, target.as_str());
                push_str(&mut s, " to allow a fresh full send, or restore a common base on the sender.");
                s
            },
            PlanError::Placeholder { target } => {
                let mut s = to_owned_string(target.as_str());
                push_str(&mut s, " exists but has no snapshots, and a full send cannot be received over an existing dataset. It is most likely a placeholder created for a child's receive. If nothing lives under it, destroy it and the next cycle will send it in full; if received children already live under it, move them aside first.");
                s
            },
        }
    }
}

// ---------------------------------------------------------------------
// Spec
// ---------------------------------------------------------------------

pub open spec fn ref_of(e: SnapshotEntry) -> SnapshotRef {
    SnapshotRef { name: e.name, guid: e.guid }
}

/// Some entry of `rs` has GUID `g`.
pub open spec fn has_guid(rs: Seq<SnapshotEntry>, g: u64) -> bool {
    exists|j: int| 0 <= j < rs.len() && #[trigger] rs[j].guid == g
}

/// Some bookmark has GUID `g`.
pub open spec fn has_bookmark_guid(bs: Seq<BookmarkRef>, g: u64) -> bool {
    exists|j: int| 0 <= j < bs.len() && #[trigger] bs[j].guid == g
}

/// The last of the first `m` sender snapshots the receiver also holds.
pub open spec fn last_common(sender: Seq<SnapshotEntry>, receiver: Seq<SnapshotEntry>, m: int) -> Option<int>
    decreases m,
{
    if m <= 0 {
        None
    } else if has_guid(receiver, sender[m - 1].guid) {
        Some(m - 1)
    } else {
        last_common(sender, receiver, m - 1)
    }
}

/// The plan for `sender` (oldest first) against `receiver`.
pub open spec fn planned(
    sender: Seq<SnapshotEntry>,
    receiver: Seq<SnapshotEntry>,
    discard: bool,
    mode: ReplicateMode,
) -> SnapshotPlan {
    if sender.len() == 0 {
        SnapshotPlan::Nothing
    } else {
        let latest = sender[sender.len() - 1];
        let full_target = match mode {
            ReplicateMode::All => sender[0],
            ReplicateMode::Latest => latest,
        };
        let full = SnapshotPlan::Full { to: ref_of(full_target), discard_partial_recv: discard };
        if receiver.len() == 0 {
            full
        } else {
            match last_common(sender, receiver, sender.len() as int) {
                None => full,
                Some(i) => if sender[i].guid == latest.guid {
                    SnapshotPlan::Nothing
                } else if mode == ReplicateMode::All && i + 2 < sender.len() {
                    SnapshotPlan::IncrementalAll {
                        from: ref_of(sender[i]),
                        to: ref_of(latest),
                        discard_partial_recv: discard,
                    }
                } else {
                    SnapshotPlan::Incremental {
                        from: ref_of(sender[i]),
                        to: ref_of(latest),
                        discard_partial_recv: discard,
                    }
                },
            }
        }
    }
}

/// The first sender snapshot at or after `k` with GUID `g`.
pub open spec fn first_with_guid(sender: Seq<SnapshotEntry>, g: u64, k: int) -> Option<int>
    decreases sender.len() - k,
{
    if k < 0 || k >= sender.len() {
        None
    } else if sender[k].guid == g {
        Some(k)
    } else {
        first_with_guid(sender, g, k + 1)
    }
}

/// The first sender snapshot at or after `k` created after txg `t`.
pub open spec fn first_after_txg(sender: Seq<SnapshotEntry>, t: u64, k: int) -> Option<int>
    decreases sender.len() - k,
{
    if k < 0 || k >= sender.len() {
        None
    } else if sender[k].createtxg > t {
        Some(k)
    } else {
        first_after_txg(sender, t, k + 1)
    }
}

/// Among the first `m` bookmarks whose GUID the receiver holds, the
/// youngest by txg (the last of equals).
pub open spec fn best_bookmark(bs: Seq<BookmarkRef>, receiver: Seq<SnapshotEntry>, m: int) -> Option<int>
    decreases m,
{
    if m <= 0 {
        None
    } else {
        let prev = best_bookmark(bs, receiver, m - 1);
        if has_guid(receiver, bs[m - 1].guid) && (prev is None || bs[m - 1].createtxg >= bs[prev.unwrap()].createtxg) {
            Some(m - 1)
        } else {
            prev
        }
    }
}

/// `plan` after preferring a bookmark base that is strictly newer than
/// the snapshot base (or that rescues a degraded full send).
pub open spec fn with_bookmark_fallback(
    plan: SnapshotPlan,
    sender: Seq<SnapshotEntry>,
    receiver: Seq<SnapshotEntry>,
    bs: Seq<BookmarkRef>,
    mode: ReplicateMode,
) -> SnapshotPlan {
    if receiver.len() == 0 {
        plan
    } else {
        let (applies, to, discard, base_txg) = match plan {
            SnapshotPlan::Full { to, discard_partial_recv } => (true, to, discard_partial_recv, None::<u64>),
            SnapshotPlan::Incremental { from, to, discard_partial_recv } => (
                true,
                to,
                discard_partial_recv,
                match first_with_guid(sender, from.guid, 0) { Some(k) => Some(sender[k].createtxg), None => None },
            ),
            SnapshotPlan::IncrementalAll { from, to, discard_partial_recv } => (
                true,
                to,
                discard_partial_recv,
                match first_with_guid(sender, from.guid, 0) { Some(k) => Some(sender[k].createtxg), None => None },
            ),
            _ => (false, SnapshotRef { name: arbitrary(), guid: 0 }, false, None),
        };
        if !applies {
            plan
        } else {
            match best_bookmark(bs, receiver, bs.len() as int) {
                None => plan,
                Some(b) => if base_txg is Some && bs[b].createtxg <= base_txg.unwrap() {
                    plan
                } else {
                    let target = match mode {
                        ReplicateMode::Latest => Some(to),
                        ReplicateMode::All => match first_after_txg(sender, bs[b].createtxg, 0) {
                            Some(k) => Some(ref_of(sender[k])),
                            None => None,
                        },
                    };
                    match target {
                        None => SnapshotPlan::Nothing,
                        Some(t) => if bs[b].guid == t.guid {
                            SnapshotPlan::Nothing
                        } else {
                            SnapshotPlan::IncrementalFromBookmark {
                                from: SnapshotRef { name: bs[b].leaf, guid: bs[b].guid },
                                to: t,
                                discard_partial_recv: discard,
                            }
                        },
                    }
                },
            }
        }
    }
}

/// A resume token can be continued: the snapshot it sends is still on
/// the sender, and so is its base (a snapshot or a bookmark), if any.
pub open spec fn resumable(d: ResumeToken, sender: Seq<SnapshotEntry>, bs: Seq<BookmarkRef>) -> bool {
    &&& has_guid(sender, d.to_guid)
    &&& match d.from_guid {
        None => true,
        Some(g) => has_guid(sender, g) || has_bookmark_guid(bs, g),
    }
}

// ---------------------------------------------------------------------
// Lemmas
// ---------------------------------------------------------------------

/// A fresh plan never resumes: only a live resume token leads to `Resume`.
pub proof fn lemma_planned_never_resumes(
    sender: Seq<SnapshotEntry>,
    receiver: Seq<SnapshotEntry>,
    discard: bool,
    mode: ReplicateMode,
)
    ensures
        !(planned(sender, receiver, discard, mode) is Resume),
{
}

/// A partial receive can be continued exactly when the sender still holds
/// a snapshot with the token's target GUID and, for an incremental token,
/// a snapshot or bookmark with its base GUID; a token whose target
/// snapshot was destroyed on the sender cannot be resumed.
pub proof fn lemma_resume_needs_live_ends(d: ResumeToken, sender: Seq<SnapshotEntry>, bs: Seq<BookmarkRef>)
    ensures
        resumable(d, sender, bs) <==> ({
            &&& exists|j: int| 0 <= j < sender.len() && #[trigger] sender[j].guid == d.to_guid
            &&& match d.from_guid {
                None => true,
                Some(g) => (exists|j: int| 0 <= j < sender.len() && #[trigger] sender[j].guid == g) || (exists|j: int|
                    0 <= j < bs.len() && #[trigger] bs[j].guid == g),
            }
        }),
        (forall|j: int| 0 <= j < sender.len() ==> #[trigger] sender[j].guid != d.to_guid) ==> !resumable(d, sender, bs),
{
}

proof fn lemma_last_common_none(sender: Seq<SnapshotEntry>, receiver: Seq<SnapshotEntry>, m: int)
    requires
        forall|k: int| 0 <= k < m ==> !has_guid(receiver, #[trigger] sender[k].guid),
    ensures
        last_common(sender, receiver, m) is None,
    decreases m,
{
    if m > 0 {
        lemma_last_common_none(sender, receiver, m - 1);
    }
}

proof fn lemma_last_common_some(sender: Seq<SnapshotEntry>, receiver: Seq<SnapshotEntry>, m: int, i: int)
    requires
        0 <= i < m,
        has_guid(receiver, sender[i].guid),
        forall|k: int| i < k < m ==> !has_guid(receiver, #[trigger] sender[k].guid),
    ensures
        last_common(sender, receiver, m) == Some(i),
    decreases m - i,
{
    if m - 1 > i {
        lemma_last_common_some(sender, receiver, m - 1, i);
    }
}

proof fn lemma_first_with_guid(sender: Seq<SnapshotEntry>, g: u64, k: int, j: int)
    requires
        0 <= k <= j <= sender.len(),
        j < sender.len() ==> sender[j].guid == g,
        forall|x: int| k <= x < j ==> sender[x].guid != g,
    ensures
        first_with_guid(sender, g, k) == (if j < sender.len() { Some(j) } else { None::<int> }),
    decreases j - k,
{
    if k < j {
        lemma_first_with_guid(sender, g, k + 1, j);
    }
}

proof fn lemma_first_after_txg(sender: Seq<SnapshotEntry>, t: u64, k: int, j: int)
    requires
        0 <= k <= j <= sender.len(),
        j < sender.len() ==> sender[j].createtxg > t,
        forall|x: int| k <= x < j ==> sender[x].createtxg <= t,
    ensures
        first_after_txg(sender, t, k) == (if j < sender.len() { Some(j) } else { None::<int> }),
    decreases j - k,
{
    if k < j {
        lemma_first_after_txg(sender, t, k + 1, j);
    }
}

proof fn lemma_best_bookmark_bound(bs: Seq<BookmarkRef>, receiver: Seq<SnapshotEntry>, m: int)
    ensures
        best_bookmark(bs, receiver, m) matches Some(b) ==> 0 <= b < m,
    decreases m,
{
    if m > 0 {
        lemma_best_bookmark_bound(bs, receiver, m - 1);
    }
}

/// What `last_common` finds: a sender snapshot the receiver holds, with
/// none after it (among the first `m`) that the receiver holds; `None`
/// when the receiver holds none of them.
proof fn lemma_last_common(sender: Seq<SnapshotEntry>, receiver: Seq<SnapshotEntry>, m: int)
    requires
        0 <= m <= sender.len(),
    ensures
        match last_common(sender, receiver, m) {
            Some(i) => 0 <= i < m && has_guid(receiver, sender[i].guid) && forall|k: int|
                i < k < m ==> !has_guid(receiver, #[trigger] sender[k].guid),
            None => forall|k: int| 0 <= k < m ==> !has_guid(receiver, #[trigger] sender[k].guid),
        },
    decreases m,
{
    if m > 0 && !has_guid(receiver, sender[m - 1].guid) {
        lemma_last_common(sender, receiver, m - 1);
    }
}

/// The receiver is up to date exactly when it already holds the
/// sender's newest snapshot (or the sender has none): only then is
/// there nothing to send.
pub proof fn lemma_nothing_iff_newest_held(
    sender: Seq<SnapshotEntry>,
    receiver: Seq<SnapshotEntry>,
    discard: bool,
    mode: ReplicateMode,
)
    ensures
        planned(sender, receiver, discard, mode) is Nothing <==> (sender.len() == 0 || has_guid(
            receiver,
            sender.last().guid,
        )),
{
    let n = sender.len() as int;
    if n > 0 {
        lemma_last_common(sender, receiver, n);
        if has_guid(receiver, sender.last().guid) {
            assert(receiver.len() > 0);
            lemma_last_common_some(sender, receiver, n, n - 1);
        }
    }
}

/// A full send happens only when the two sides share no snapshot: with
/// any snapshot in common the planner sends incrementally or nothing.
pub proof fn lemma_full_only_without_common(
    sender: Seq<SnapshotEntry>,
    receiver: Seq<SnapshotEntry>,
    discard: bool,
    mode: ReplicateMode,
)
    requires
        planned(sender, receiver, discard, mode) is Full,
    ensures
        forall|k: int| 0 <= k < sender.len() ==> !has_guid(receiver, #[trigger] sender[k].guid),
{
    lemma_last_common(sender, receiver, sender.len() as int);
    if receiver.len() == 0 {
        assert forall|k: int| 0 <= k < sender.len() implies !has_guid(receiver, #[trigger] sender[k].guid) by {
        }
    }
}

/// The base and target of an incremental snapshot-to-snapshot plan.
pub open spec fn incremental_ends(p: SnapshotPlan) -> Option<(SnapshotRef, SnapshotRef)> {
    match p {
        SnapshotPlan::Incremental { from, to, .. } => Some((from, to)),
        SnapshotPlan::IncrementalAll { from, to, .. } => Some((from, to)),
        _ => None,
    }
}

/// An incremental send starts from the newest snapshot both sides hold
/// (matched by GUID) and ends at the sender's newest snapshot.
pub proof fn lemma_incremental_from_newest_common(
    sender: Seq<SnapshotEntry>,
    receiver: Seq<SnapshotEntry>,
    discard: bool,
    mode: ReplicateMode,
    from: SnapshotRef,
    to: SnapshotRef,
)
    requires
        incremental_ends(planned(sender, receiver, discard, mode)) == Some((from, to)),
    ensures
        to == ref_of(sender.last()),
        exists|i: int|
            0 <= i < sender.len() && ref_of(#[trigger] sender[i]) == from && has_guid(receiver, sender[i].guid)
                && forall|k: int| i < k < sender.len() ==> !has_guid(receiver, #[trigger] sender[k].guid),
{
    lemma_last_common(sender, receiver, sender.len() as int);
    let i = last_common(sender, receiver, sender.len() as int).unwrap();
    assert(ref_of(sender[i]) == from);
}

// ---------------------------------------------------------------------
// Exec
// ---------------------------------------------------------------------

fn entries_have_guid(rs: &[SnapshotEntry], g: u64) -> (r: bool)
    ensures
        r == has_guid(rs@, g),
{
    let mut j: usize = 0;
    while j < rs.len()
        invariant
            j <= rs@.len(),
            forall|k: int| 0 <= k < j ==> rs@[k].guid != g,
        decreases rs.len() - j,
    {
        if rs[j].guid == g {
            assert(rs@[j as int].guid == g);
            return true;
        }
        j += 1;
    }
    false
}

fn bookmarks_have_guid(bs: &[BookmarkRef], g: u64) -> (r: bool)
    ensures
        r == has_bookmark_guid(bs@, g),
{
    let mut j: usize = 0;
    while j < bs.len()
        invariant
            j <= bs@.len(),
            forall|k: int| 0 <= k < j ==> bs@[k].guid != g,
        decreases bs.len() - j,
    {
        if bs[j].guid == g {
            assert(bs@[j as int].guid == g);
            return true;
        }
        j += 1;
    }
    false
}

fn snap_ref(s: &SnapshotEntry) -> (r: SnapshotRef)
    ensures
        r == ref_of(*s),
{
    SnapshotRef { name: s.name.clone(), guid: s.guid }
}

fn copy_ref(s: &SnapshotRef) -> (r: SnapshotRef)
    ensures
        r == *s,
{
    SnapshotRef { name: s.name.clone(), guid: s.guid }
}

fn copy_token(d: &ResumeToken) -> (r: ResumeToken)
    ensures
        r == *d,
{
    ResumeToken {
        token: d.token.clone(),
        to_name: d.to_name.clone(),
        to_guid: d.to_guid,
        from_guid: d.from_guid,
        bytes_received: d.bytes_received,
    }
}

/// A copy of `p`.
pub fn copy_plan(p: &SnapshotPlan) -> (r: SnapshotPlan)
    ensures
        r == *p,
{
    match p {
        SnapshotPlan::Nothing => SnapshotPlan::Nothing,
        SnapshotPlan::Full { to, discard_partial_recv } => SnapshotPlan::Full {
            to: copy_ref(to),
            discard_partial_recv: *discard_partial_recv,
        },
        SnapshotPlan::Incremental { from, to, discard_partial_recv } => SnapshotPlan::Incremental {
            from: copy_ref(from),
            to: copy_ref(to),
            discard_partial_recv: *discard_partial_recv,
        },
        SnapshotPlan::IncrementalAll { from, to, discard_partial_recv } => SnapshotPlan::IncrementalAll {
            from: copy_ref(from),
            to: copy_ref(to),
            discard_partial_recv: *discard_partial_recv,
        },
        SnapshotPlan::IncrementalFromBookmark { from, to, discard_partial_recv } => SnapshotPlan::IncrementalFromBookmark {
            from: copy_ref(from),
            to: copy_ref(to),
            discard_partial_recv: *discard_partial_recv,
        },
        SnapshotPlan::Resume { token, decoded } => SnapshotPlan::Resume {
            token: token.clone(),
            decoded: copy_token(decoded),
        },
    }
}

/// The plan for `sender` (sorted by createtxg) against `receiver`.
pub fn pick_plan(sender: &[SnapshotEntry], receiver: &[SnapshotEntry], mode: ReplicateMode) -> (r: SnapshotPlan)
    ensures
        r == planned(sender@, receiver@, false, mode),
{
    pick_plan_with_discard(sender, receiver, false, mode)
}

/// `pick_plan`, with the discard directive given. In `All` mode a first
/// replication starts from the OLDEST snapshot so the history after it
/// can follow; `Latest` goes straight to the head.
pub fn pick_plan_with_discard(
    sender: &[SnapshotEntry],
    receiver: &[SnapshotEntry],
    discard_partial_recv: bool,
    mode: ReplicateMode,
) -> (r: SnapshotPlan)
    ensures
        r == planned(sender@, receiver@, discard_partial_recv, mode),
{
    let n = sender.len();
    if n == 0 {
        return SnapshotPlan::Nothing;
    }
    let latest = &sender[n - 1];
    let full_target = match mode {
        ReplicateMode::All => &sender[0],
        ReplicateMode::Latest => latest,
    };
    if receiver.len() == 0 {
        return SnapshotPlan::Full { to: snap_ref(full_target), discard_partial_recv };
    }
    // The last sender snapshot whose GUID the receiver holds.
    let mut m = n;
    while m > 0 && !entries_have_guid(receiver, sender[m - 1].guid)
        invariant
            m <= n == sender@.len(),
            forall|k: int| m <= k < n ==> !has_guid(receiver@, #[trigger] sender@[k].guid),
        decreases m,
    {
        m -= 1;
    }
    if m == 0 {
        proof {
            lemma_last_common_none(sender@, receiver@, n as int);
        }
        return SnapshotPlan::Full { to: snap_ref(full_target), discard_partial_recv };
    }
    let i = m - 1;
    proof {
        lemma_last_common_some(sender@, receiver@, n as int, i as int);
    }
    if sender[i].guid == latest.guid {
        SnapshotPlan::Nothing
    } else {
        let all = match mode {
            ReplicateMode::All => true,
            ReplicateMode::Latest => false,
        };
        if all && n - i > 2 {
            SnapshotPlan::IncrementalAll {
                from: snap_ref(&sender[i]),
                to: snap_ref(latest),
                discard_partial_recv,
            }
        } else {
            SnapshotPlan::Incremental {
                from: snap_ref(&sender[i]),
                to: snap_ref(latest),
                discard_partial_recv,
            }
        }
    }
}

/// Prefers a sender bookmark as the incremental base when it is a
/// STRICTLY newer common point than the snapshot base, or when there is
/// no common snapshot and the plan degraded to `Full`. A common snapshot
/// at least as new as the bookmark wins (snapshots can carry holds).
/// Resume and Nothing plans, and a first replication, pass through.
/// `-I` cannot start from a bookmark, so in `All` mode the bookmark step
/// goes only to the first snapshot past the bookmark.
pub fn apply_bookmark_fallback(
    plan: SnapshotPlan,
    sender: &[SnapshotEntry],
    receiver: &[SnapshotEntry],
    bookmarks: &[BookmarkRef],
    mode: ReplicateMode,
) -> (r: SnapshotPlan)
    ensures
        r == with_bookmark_fallback(plan, sender@, receiver@, bookmarks@, mode),
{
    if receiver.len() == 0 {
        return plan;
    }
    let (to, discard, base_txg): (SnapshotRef, bool, Option<u64>) = match &plan {
        SnapshotPlan::Full { to, discard_partial_recv } => (copy_ref(to), *discard_partial_recv, None),
        SnapshotPlan::Incremental { from, to, discard_partial_recv }
        | SnapshotPlan::IncrementalAll { from, to, discard_partial_recv } => {
            let mut k: usize = 0;
            while k < sender.len() && sender[k].guid != from.guid
                invariant
                    k <= sender@.len(),
                    forall|x: int| 0 <= x < k ==> sender@[x].guid != from.guid,
                decreases sender.len() - k,
            {
                k += 1;
            }
            proof {
                lemma_first_with_guid(sender@, from.guid, 0, k as int);
            }
            let txg = if k < sender.len() { Some(sender[k].createtxg) } else { None };
            (copy_ref(to), *discard_partial_recv, txg)
        },
        _ => return plan,
    };
    // The youngest bookmark the receiver holds.
    let mut best: Option<usize> = None;
    let mut j: usize = 0;
    while j < bookmarks.len()
        invariant
            j <= bookmarks@.len(),
            match best {
                Some(b) => best_bookmark(bookmarks@, receiver@, j as int) == Some(b as int) && b < j,
                None => best_bookmark(bookmarks@, receiver@, j as int) is None,
            },
        decreases bookmarks.len() - j,
    {
        if entries_have_guid(receiver, bookmarks[j].guid) {
            match best {
                None => { best = Some(j); },
                Some(b) => {
                    if bookmarks[j].createtxg >= bookmarks[b].createtxg {
                        best = Some(j);
                    }
                },
            }
        }
        j += 1;
    }
    let b = match best {
        None => return plan,
        Some(b) => b,
    };
    if let Some(txg) = base_txg {
        if bookmarks[b].createtxg <= txg {
            return plan;
        }
    }
    let target = match mode {
        ReplicateMode::Latest => to,
        ReplicateMode::All => {
            let mut k: usize = 0;
            while k < sender.len() && sender[k].createtxg <= bookmarks[b].createtxg
                invariant
                    k <= sender@.len(),
                    b < bookmarks@.len(),
                    forall|x: int| 0 <= x < k ==> sender@[x].createtxg <= bookmarks@[b as int].createtxg,
                decreases sender.len() - k,
            {
                k += 1;
            }
            proof {
                lemma_first_after_txg(sender@, bookmarks@[b as int].createtxg, 0, k as int);
            }
            if k == sender.len() {
                return SnapshotPlan::Nothing;
            }
            snap_ref(&sender[k])
        },
    };
    if bookmarks[b].guid == target.guid {
        return SnapshotPlan::Nothing;
    }
    SnapshotPlan::IncrementalFromBookmark {
        from: SnapshotRef { name: bookmarks[b].leaf.clone(), guid: bookmarks[b].guid },
        to: target,
        discard_partial_recv: discard,
    }
}

/// With a receiver resume token (and its decoding), continue the partial
/// receive when both its ends are still on the sender; otherwise plan
/// afresh and tell the receiver to discard the partial state.
pub fn pick_plan_with_token(
    sender: &[SnapshotEntry],
    receiver: &[SnapshotEntry],
    token: Option<&str>,
    decoded: Option<&ResumeToken>,
    sender_bookmarks: &[BookmarkRef],
    mode: ReplicateMode,
) -> (r: SnapshotPlan)
    ensures
        match (token, decoded) {
            (Some(t), Some(d)) => if resumable(*d, sender@, sender_bookmarks@) {
                r matches SnapshotPlan::Resume { token: rt, decoded: rd } && rt@ == t@ && rd == *d
            } else {
                r == planned(sender@, receiver@, true, mode)
            },
            _ => r == planned(sender@, receiver@, false, mode),
        },
        r is Resume ==> match decoded {
            None => false,
            Some(d) => {
                &&& exists|j: int| 0 <= j < sender@.len() && #[trigger] sender@[j].guid == d.to_guid
                &&& match d.from_guid {
                    None => true,
                    Some(g) => (exists|j: int| 0 <= j < sender@.len() && #[trigger] sender@[j].guid == g)
                        || (exists|j: int| 0 <= j < sender_bookmarks@.len() && #[trigger] sender_bookmarks@[j].guid == g),
                }
            },
        },
        match decoded {
            None => true,
            Some(d) => token is Some && (forall|j: int| 0 <= j < sender@.len() ==> #[trigger] sender@[j].guid != d.to_guid)
                ==> r == planned(sender@, receiver@, true, mode),
        },
{
    let (t, d) = match (token, decoded) {
        (Some(t), Some(d)) => (t, d),
        _ => {
            proof {
                lemma_planned_never_resumes(sender@, receiver@, false, mode);
            }
            return pick_plan(sender, receiver, mode);
        },
    };
    let to_live = entries_have_guid(sender, d.to_guid);
    let from_live = match d.from_guid {
        None => true,
        Some(g) => entries_have_guid(sender, g) || bookmarks_have_guid(sender_bookmarks, g),
    };
    if to_live && from_live {
        SnapshotPlan::Resume { token: to_owned_string(t), decoded: copy_token(d) }
    } else {
        proof {
            lemma_planned_never_resumes(sender@, receiver@, true, mode);
        }
        pick_plan_with_discard(sender, receiver, true, mode)
    }
}

/// The wire flags for a job's send flags.
pub open spec fn wire_flags(f: SendFlagsConfig) -> SendFlagsWire {
    SendFlagsWire { raw: f.encrypted, embedded: f.embedded_data, compressed: f.compressed, large_blocks: f.large_blocks }
}

/// The leaf of a `dataset@snapshot` name (the whole name without `@`).
pub open spec fn leaf_of(name: Seq<char>) -> Seq<char> {
    let at = index_of_from(name, '@', 0);
    if at < name.len() { name.subrange(at + 1, name.len() as int) } else { name }
}

/// `h` is the header that announces `plan` (a plan that sends something).
pub open spec fn header_fits(plan: SnapshotPlan, flags: SendFlagsConfig, h: SendHeader) -> bool {
    match plan {
        SnapshotPlan::Nothing => false,
        SnapshotPlan::Full { to, discard_partial_recv } => h == SendHeader {
            send_kind: SendKind::Full,
            from_snap: None,
            to_snap: to,
            flags: wire_flags(flags),
            discard_partial_recv,
        },
        SnapshotPlan::Incremental { from, to, discard_partial_recv }
        | SnapshotPlan::IncrementalAll { from, to, discard_partial_recv }
        | SnapshotPlan::IncrementalFromBookmark { from, to, discard_partial_recv } => h == SendHeader {
            send_kind: SendKind::Incremental,
            from_snap: Some(from),
            to_snap: to,
            flags: wire_flags(flags),
            discard_partial_recv,
        },
        SnapshotPlan::Resume { decoded, .. } => h.send_kind == SendKind::Resume
            && h.from_snap is None
            && h.to_snap.name@ == leaf_of(decoded.to_name@)
            && h.to_snap.guid == decoded.to_guid
            && h.flags == wire_flags(flags)
            && !h.discard_partial_recv,
    }
}

/// The header announcing `plan` on the recv channel; `None` for Nothing.
/// A bookmark base and a `-I` stream are plain incrementals on the wire.
pub fn build_send_header(plan: &SnapshotPlan, flags: &SendFlagsConfig) -> (r: Option<SendHeader>)
    ensures
        match *plan {
            SnapshotPlan::Nothing => r is None,
            SnapshotPlan::Full { to, discard_partial_recv } => r == Some(SendHeader {
                send_kind: SendKind::Full,
                from_snap: None,
                to_snap: to,
                flags: wire_flags(*flags),
                discard_partial_recv,
            }),
            SnapshotPlan::Incremental { from, to, discard_partial_recv }
            | SnapshotPlan::IncrementalAll { from, to, discard_partial_recv }
            | SnapshotPlan::IncrementalFromBookmark { from, to, discard_partial_recv } => r == Some(SendHeader {
                send_kind: SendKind::Incremental,
                from_snap: Some(from),
                to_snap: to,
                flags: wire_flags(*flags),
                discard_partial_recv,
            }),
            SnapshotPlan::Resume { decoded, .. } => r matches Some(h)
                && h.send_kind == SendKind::Resume
                && h.from_snap is None
                && h.to_snap.name@ == leaf_of(decoded.to_name@)
                && h.to_snap.guid == decoded.to_guid
                && h.flags == wire_flags(*flags)
                && !h.discard_partial_recv,
        },
{
    let wf = SendFlagsWire {
        raw: flags.encrypted,
        embedded: flags.embedded_data,
        compressed: flags.compressed,
        large_blocks: flags.large_blocks,
    };
    match plan {
        SnapshotPlan::Nothing => None,
        SnapshotPlan::Full { to, discard_partial_recv } => Some(SendHeader {
            send_kind: SendKind::Full,
            from_snap: None,
            to_snap: copy_ref(to),
            flags: wf,
            discard_partial_recv: *discard_partial_recv,
        }),
        SnapshotPlan::Incremental { from, to, discard_partial_recv }
        | SnapshotPlan::IncrementalAll { from, to, discard_partial_recv }
        | SnapshotPlan::IncrementalFromBookmark { from, to, discard_partial_recv } => Some(SendHeader {
            send_kind: SendKind::Incremental,
            from_snap: Some(copy_ref(from)),
            to_snap: copy_ref(to),
            flags: wf,
            discard_partial_recv: *discard_partial_recv,
        }),
        SnapshotPlan::Resume { decoded, .. } => {
            let v = chars_of(decoded.to_name.as_str());
            let at = find_char(&v, '@', 0);
            let name = if at < v.len() { string_of(&v, at + 1, v.len()) } else { decoded.to_name.clone() };
            // Resume must not discard: that partial IS what continues.
            Some(SendHeader {
                send_kind: SendKind::Resume,
                from_snap: None,
                to_snap: SnapshotRef { name, guid: decoded.to_guid },
                flags: wf,
                discard_partial_recv: false,
            })
        },
    }
}

/// A full plan only applies to a target that does not exist yet: against
/// a populated receiver it means the two diverged, against an existing
/// empty dataset it would land on a placeholder. Other plans pass.
pub fn reject_unreceivable_full(
    plan: SnapshotPlan,
    target_dataset: &str,
    receiver: &[SnapshotEntry],
    target_exists: bool,
) -> (r: Result<SnapshotPlan, PlanError>)
    ensures
        match plan {
            SnapshotPlan::Full { .. } => if receiver@.len() > 0 {
                r matches Err(PlanError::Diverged { target, receiver_snapshots })
                    && target@ == target_dataset@ && receiver_snapshots == receiver@.len()
            } else if target_exists {
                r matches Err(PlanError::Placeholder { target }) && target@ == target_dataset@
            } else {
                r == Ok::<SnapshotPlan, PlanError>(plan)
            },
            _ => r == Ok::<SnapshotPlan, PlanError>(plan),
        },
{
    match plan {
        SnapshotPlan::Full { .. } => {},
        _ => return Ok(plan),
    }
    if receiver.len() > 0 {
        return Err(PlanError::Diverged { target: to_owned_string(target_dataset), receiver_snapshots: receiver.len() });
    }
    if target_exists {
        return Err(PlanError::Placeholder { target: to_owned_string(target_dataset) });
    }
    Ok(plan)
}

/// Whether the bookmark fallback could change `plan`.
pub open spec fn fallback_applies(plan: SnapshotPlan, receiver: Seq<SnapshotEntry>) -> bool {
    receiver.len() > 0 && (plan is Full || plan is Incremental || plan is IncrementalAll)
}

/// The last two steps of planning one filesystem, after the listings:
/// apply the bookmark fallback when it could help and the sender's
/// bookmarks were listed (`None`: the listing failed, keep the plan),
/// then refuse an unreceivable full send.
pub fn settle_plan(
    plan: SnapshotPlan,
    sender: &[SnapshotEntry],
    receiver: &[SnapshotEntry],
    bookmarks: Option<&[BookmarkRef]>,
    target_dataset: &str,
    target_exists: bool,
    mode: ReplicateMode,
) -> (r: Result<SnapshotPlan, PlanError>)
    ensures
        ({
            let p = match bookmarks {
                Some(bs) => if fallback_applies(plan, receiver@) {
                    with_bookmark_fallback(plan, sender@, receiver@, bs@, mode)
                } else {
                    plan
                },
                None => plan,
            };
            match p {
                SnapshotPlan::Full { .. } => if receiver@.len() > 0 {
                    r matches Err(PlanError::Diverged { target, receiver_snapshots })
                        && target@ == target_dataset@ && receiver_snapshots == receiver@.len()
                } else if target_exists {
                    r matches Err(PlanError::Placeholder { target }) && target@ == target_dataset@
                } else {
                    r == Ok::<SnapshotPlan, PlanError>(p)
                },
                _ => r == Ok::<SnapshotPlan, PlanError>(p),
            }
        }),
{
    let applies = receiver.len() > 0 && match &plan {
        SnapshotPlan::Full { .. } | SnapshotPlan::Incremental { .. } | SnapshotPlan::IncrementalAll { .. } => true,
        _ => false,
    };
    let p = match bookmarks {
        Some(bs) => if applies {
            apply_bookmark_fallback(plan, sender, receiver, bs, mode)
        } else {
            plan
        },
        None => plan,
    };
    reject_unreceivable_full(p, target_dataset, receiver, target_exists)
}

/// The receiver side as the planner sees it: each GUID the receiver
/// reported, in an otherwise empty entry (the planner intersects on GUID
/// alone).
pub fn receiver_entries(guids: &[u64]) -> (r: Vec<SnapshotEntry>)
    ensures
        r@.len() == guids@.len(),
        forall|i: int| 0 <= i < guids@.len() ==> (#[trigger] r@[i]).guid == guids@[i]
            && r@[i].name@.len() == 0 && r@[i].createtxg == 0,
{
    let mut out: Vec<SnapshotEntry> = Vec::new();
    let mut i: usize = 0;
    while i < guids.len()
        invariant
            i <= guids@.len(),
            out@.len() == i,
            forall|k: int| 0 <= k < i ==> (#[trigger] out@[k]).guid == guids@[k]
                && out@[k].name@.len() == 0 && out@[k].createtxg == 0,
        decreases guids.len() - i,
    {
        out.push(SnapshotEntry { name: String::new(), guid: guids[i], createtxg: 0 });
        i += 1;
    }
    out
}

/// What became of decoding the receiver's resume token.
#[derive(Debug, Clone)]
pub enum TokenState {
    /// The receiver holds no partial receive.
    Absent,
    /// The token did not decode: it is stale, so plan afresh and have
    /// the receiver discard the partial state.
    Undecodable,
    /// The token and what it names.
    Decoded { token: String, decoded: ResumeToken },
}

/// The outcome of settling `plan` (see `settle_plan`): the bookmark
/// fallback when it could help and the bookmarks are known, then the
/// refusal of an unreceivable full send.
pub open spec fn settled(
    plan: SnapshotPlan,
    sender: Seq<SnapshotEntry>,
    receiver: Seq<SnapshotEntry>,
    bookmarks: Option<Seq<BookmarkRef>>,
    target_dataset: Seq<char>,
    target_exists: bool,
    mode: ReplicateMode,
    r: Result<SnapshotPlan, PlanError>,
) -> bool {
    let p = match bookmarks {
        Some(bs) => if fallback_applies(plan, receiver) {
            with_bookmark_fallback(plan, sender, receiver, bs, mode)
        } else {
            plan
        },
        None => plan,
    };
    match p {
        SnapshotPlan::Full { .. } => if receiver.len() > 0 {
            r matches Err(PlanError::Diverged { target, receiver_snapshots })
                && target@ == target_dataset && receiver_snapshots == receiver.len()
        } else if target_exists {
            r matches Err(PlanError::Placeholder { target }) && target@ == target_dataset
        } else {
            r == Ok::<SnapshotPlan, PlanError>(p)
        },
        _ => r == Ok::<SnapshotPlan, PlanError>(p),
    }
}

/// Plans one filesystem once the sender's snapshots, the receiver's
/// GUIDs and its resume token are known (and, with a decoded token, the
/// sender's bookmarks): resume a live partial receive, else plan afresh
/// (discarding a stale partial state), then settle the plan.
pub fn plan_filesystem(
    sender: &[SnapshotEntry],
    receiver: &[SnapshotEntry],
    token: &TokenState,
    bookmarks: Option<&[BookmarkRef]>,
    target_dataset: &str,
    target_exists: bool,
    mode: ReplicateMode,
) -> (r: Result<SnapshotPlan, PlanError>)
    ensures
        ({
            let bs = match bookmarks { Some(b) => b@, None => Seq::<BookmarkRef>::empty() };
            let bo = match bookmarks { Some(b) => Some(b@), None => None };
            match *token {
                TokenState::Absent => settled(planned(sender@, receiver@, false, mode), sender@, receiver@, bo,
                    target_dataset@, target_exists, mode, r),
                TokenState::Undecodable => settled(planned(sender@, receiver@, true, mode), sender@, receiver@, bo,
                    target_dataset@, target_exists, mode, r),
                TokenState::Decoded { token: t, decoded: d } => if resumable(d, sender@, bs) {
                    r matches Ok(SnapshotPlan::Resume { token: rt, decoded: rd }) && rt@ == t@ && rd == d
                } else {
                    settled(planned(sender@, receiver@, true, mode), sender@, receiver@, bo,
                        target_dataset@, target_exists, mode, r)
                },
            }
        }),
{
    let none: Vec<BookmarkRef> = Vec::new();
    let bs: &[BookmarkRef] = match bookmarks {
        Some(b) => b,
        None => none.as_slice(),
    };
    let p0 = match token {
        TokenState::Absent => pick_plan(sender, receiver, mode),
        TokenState::Undecodable => pick_plan_with_discard(sender, receiver, true, mode),
        TokenState::Decoded { token: t, decoded: d } => pick_plan_with_token(sender, receiver, Some(t.as_str()), Some(d), bs, mode),
    };
    settle_plan(p0, sender, receiver, bookmarks, target_dataset, target_exists, mode)
}

/// A job's snapshot filter, compiled.
#[derive(Debug)]
pub struct CompiledFilter {
    re: Option<Pattern>,
}

impl CompiledFilter {
    /// The pattern the filter matches with, if any.
    pub closed spec fn pattern(&self) -> Option<Seq<char>> {
        match self.re {
            Some(p) => Some(p.source()),
            None => None,
        }
    }

    /// Compiles the filter of `cfg`; fails when its pattern does not compile.
    pub fn from_config(cfg: &SnapshotFilterConfig) -> (r: Result<CompiledFilter, regex::Error>)
        ensures
            match filter_pattern(*cfg) {
                None => r matches Ok(f) && f.pattern() is None,
                Some(p) => match r {
                    Ok(f) => f.pattern() == Some(p) && crate::pattern::regex_compiles(p),
                    Err(_) => !crate::pattern::regex_compiles(p),
                },
            },
    {
        let s = cfg.as_regex_str();
        let re = match &s {
            Some(x) => compile_prefix_regex(Some(x.as_str())),
            None => compile_prefix_regex(None),
        };
        match re {
            Ok(re) => Ok(CompiledFilter { re }),
            Err(e) => Err(e),
        }
    }

    /// Whether `snap_name` passes the filter (no pattern: everything does).
    pub fn matches(&self, snap_name: &str) -> (r: bool)
        ensures
            r == match self.pattern() {
                None => true,
                Some(p) => regex_is_match(p, snap_name@),
            },
    {
        match &self.re {
            None => true,
            Some(r) => is_match(r, snap_name),
        }
    }
}

} // verus!
