use arctern::plan::{ResumeToken, SnapshotPlan};
use arctern::protocol::{Response, ErrorCode, SnapshotRef, PROTOCOL_VERSION};
use arctern::schedule::{
    after_step, discard_now, needs_discard, step_before_send, transfer_kind, StepError, StepOutcome, MAX_STEPS_PER_CYCLE,
};
use arctern::schema::SendFlagsConfig;
use arctern::step::{copy_failure, copy_outcome, finish_response, hold_failure, prepare_send, should_publish, step_holds, with_context};

fn r(name: &str, guid: u64) -> SnapshotRef {
    SnapshotRef { name: name.into(), guid }
}

#[test]
fn a_prepared_send_carries_header_and_argv() {
    let plan = SnapshotPlan::Incremental { from: r("a", 1), to: r("b", 2), discard_partial_recv: true };
    let p = match prepare_send(&plan, "backup/nova/tank/data", "tank/data", &SendFlagsConfig::default()) {
        Ok(p) => p,
        Err(e) => panic!("got {e:?}"),
    };
    assert_eq!(p.header.version, PROTOCOL_VERSION);
    assert_eq!(p.header.target_dataset, "backup/nova/tank/data");
    assert!(p.header.send.discard_partial_recv);
    assert_eq!(
        p.args.build_args(false).unwrap(),
        vec!["send", "-w", "-c", "-L", "-e", "-i", "tank/data@a", "tank/data@b"]
    );
    match prepare_send(&SnapshotPlan::Nothing, "x/y", "tank/data", &SendFlagsConfig::default()) {
        Err(StepError::Failed(m)) => assert_eq!(m, "build_send_header returned None for non-Nothing plan"),
        _ => panic!("a plan that sends nothing has nothing to prepare"),
    }
}

#[test]
fn progress_is_published_by_size_or_time() {
    assert!(!should_publish(100, 0, 10));
    assert!(should_publish(8 * 1024 * 1024, 0, 10));
    assert!(should_publish(100, 0, 250));
}

#[test]
fn a_receiver_refusal_is_preferred_over_the_copy_error() {
    match copy_failure(Some("dataset busy".into()), "broken pipe") {
        StepError::Failed(m) => assert_eq!(m, "receiver: dataset busy"),
        other => panic!("got {other:?}"),
    }
    match copy_failure(None, "broken pipe") {
        StepError::Failed(m) => assert_eq!(m, "stream copy: broken pipe"),
        other => panic!("got {other:?}"),
    }
}

#[test]
fn the_final_response_decides_the_step() {
    assert!(finish_response(&Response::Success).is_ok());
    match finish_response(&Response::Error { code: ErrorCode::Zfs, message: "recv failed".into() }) {
        Err(StepError::Failed(m)) => assert_eq!(m, "receiver: recv failed"),
        other => panic!("got {other:?}"),
    }
}

#[test]
fn step_holds_cover_base_and_target() {
    let plan = SnapshotPlan::Incremental { from: r("a", 1), to: r("b", 2), discard_partial_recv: false };
    let (from, to) = step_holds(&plan, "tank/data");
    assert_eq!(from.as_deref(), Some("tank/data@a"));
    assert_eq!(to, Some(("tank/data@b".to_string(), 2)));
    let resume = SnapshotPlan::Resume {
        token: "1-abc".into(),
        decoded: ResumeToken { token: "1-abc".into(), to_name: "tank/data@s".into(), to_guid: 9, from_guid: None, bytes_received: 1 },
    };
    assert_eq!(step_holds(&resume, "tank/data"), (None, Some(("tank/data@s".to_string(), 9))));
    assert_eq!(step_holds(&SnapshotPlan::Nothing, "tank/data"), (None, None));
}

#[test]
fn context_never_turns_cancellation_into_failure() {
    assert!(matches!(with_context("execute ", "tank/a", StepError::Cancelled), StepError::Cancelled));
    match with_context("execute ", "tank/a", StepError::Failed("boom".into())) {
        StepError::Failed(m) => assert_eq!(m, "execute tank/a: boom"),
        other => panic!("got {other:?}"),
    }
    match hold_failure("tank/a@s", "t", "busy") {
        StepError::Failed(m) => assert_eq!(m, "step hold failed for tank/a@s with tag t: busy"),
        other => panic!("got {other:?}"),
    }
}

#[test]
fn steps_repeat_until_done_within_the_limit() {
    assert!(after_step(StepOutcome::Advanced, 1, false, false).is_none());
    assert!(matches!(after_step(StepOutcome::Advanced, 1, true, false), Some(None)));
    assert!(matches!(after_step(StepOutcome::Advanced, MAX_STEPS_PER_CYCLE, false, false), Some(None)));
    assert!(matches!(after_step(StepOutcome::Done, 1, false, false), Some(None)));
    assert!(matches!(after_step(StepOutcome::Failed(StepError::Cancelled), 1, false, false), Some(Some(StepError::Cancelled))));
}

#[test]
fn a_resume_is_labelled_and_never_discards() {
    let resume = SnapshotPlan::Resume {
        token: "t".into(),
        decoded: ResumeToken { token: "t".into(), to_name: "a@b".into(), to_guid: 1, from_guid: None, bytes_received: 0 },
    };
    assert!(!needs_discard(&resume));
    assert_eq!(transfer_kind(&resume), Some("resume"));
    assert_eq!(transfer_kind(&SnapshotPlan::Nothing), None);
    let full = SnapshotPlan::Full { to: r("a", 1), discard_partial_recv: true };
    assert!(needs_discard(&full));
    assert_eq!(transfer_kind(&full), Some("full"));
}

#[test]
fn a_cancel_during_a_copy_stays_a_cancellation() {
    use_copy_outcome();
}

fn use_copy_outcome() {
    assert!(matches!(copy_outcome(true, Some("refused".into()), "Broken pipe"), StepError::Cancelled));
    match copy_outcome(false, Some("dataset busy".into()), "Broken pipe") {
        StepError::Failed(m) => assert_eq!(m, "receiver: dataset busy"),
        other => panic!("expected a failure, got {other:?}"),
    }
    match copy_outcome(false, None, "Broken pipe") {
        StepError::Failed(m) => assert_eq!(m, "stream copy: Broken pipe"),
        other => panic!("expected a failure, got {other:?}"),
    }
}

#[test]
fn a_dry_run_step_advances_without_sending() {
    let full = SnapshotPlan::Full { to: r("tank@b", 2), discard_partial_recv: true };
    assert!(matches!(step_before_send(&full, true), Some((0, StepOutcome::Advanced))));
    assert!(step_before_send(&full, false).is_none());
    assert!(matches!(step_before_send(&SnapshotPlan::Nothing, true), Some((0, StepOutcome::Done))));
    assert!(matches!(step_before_send(&SnapshotPlan::Nothing, false), Some((0, StepOutcome::Done))));
    assert!(discard_now(&full, false));
    assert!(!discard_now(&full, true));
}
