use arctern::schedule::{
    cadence_secs, cancellable_now, check_push_request, classify_peer_attempt, classify_run, cycle_result,
    depth_levels, next_wake, peer_schedule_anchor, record_attempt, select_targets, target_dataset, transfer_key,
    order_transfers, push_status, target_status, PeerOutcome, StepError, TargetView,
};
use arctern::jobs::PeriodicStatus;
use arctern::api::{PeerMode as WireMode, RunStatus, TransferInfo, TransferKind, TransferPhase};
use arctern::schema::{PeerConfig, PeerMode};

#[test]
fn filesystems_are_scheduled_parents_first() {
    let paths: Vec<String> = ["tank/a/b/c", "tank/a", "tank/z", "tank", "tank/a/b", "tank/z/y"]
        .iter()
        .map(|s| s.to_string())
        .collect();
    assert_eq!(
        depth_levels(&paths),
        vec![
            vec!["tank"],
            vec!["tank/a", "tank/z"],
            vec!["tank/a/b", "tank/z/y"],
            vec!["tank/a/b/c"],
        ]
    );
    let none: Vec<String> = Vec::new();
    assert!(depth_levels(&none).is_empty());
}

#[test]
fn cancellation_is_not_a_peer_error() {
    assert_eq!(classify_peer_attempt(true, false, &[StepError::Cancelled]), ("cancelled", None));
}

#[test]
fn a_cancelled_step_outranks_a_token_that_already_cleared() {
    assert_eq!(classify_peer_attempt(false, false, &[StepError::Cancelled]), ("cancelled", None));
}

#[test]
fn a_clean_dry_run_is_not_a_sync() {
    assert_eq!(classify_peer_attempt(false, true, &[]), ("dry_run", None));
    assert_eq!(classify_peer_attempt(false, true, &[StepError::Cancelled]), ("cancelled", None));
    assert_eq!(
        classify_peer_attempt(false, true, &[StepError::Failed("plan: boom".into())]).0,
        "error"
    );
}

#[test]
fn a_failure_mentioning_cancellation_is_still_a_failure() {
    let (status, message) = classify_peer_attempt(
        false,
        false,
        &[StepError::Failed("execute tank/a: receiver: cancelled".into())],
    );
    assert_eq!(status, "error");
    assert_eq!(message.as_deref(), Some("execute tank/a: receiver: cancelled"));
}

#[test]
fn several_failures_are_reported_together() {
    let (status, message) = classify_peer_attempt(
        false,
        false,
        &[
            StepError::Failed("plan tank/a: boom".into()),
            StepError::Failed("plan tank/b: bang".into()),
        ],
    );
    assert_eq!(status, "error");
    assert_eq!(message.as_deref(), Some("plan tank/a: boom; plan tank/b: bang"));
}

#[test]
fn a_clean_peer_attempt_is_ok() {
    assert_eq!(classify_peer_attempt(false, false, &[]), ("ok", None));
}

#[test]
fn a_cycle_result_joins_failures_and_keeps_cancellation() {
    assert!(cycle_result(&[]).is_ok());
    match cycle_result(&[StepError::Failed("a".into()), StepError::Cancelled]) {
        Err(StepError::Cancelled) => {}
        other => panic!("got {other:?}"),
    }
    match cycle_result(&[StepError::Failed("a".into()), StepError::Failed("b".into())]) {
        Err(StepError::Failed(m)) => assert_eq!(m, "a; b"),
        other => panic!("got {other:?}"),
    }
}

#[test]
fn a_run_is_classified_like_a_peer_attempt() {
    assert_eq!(classify_run(&Ok(()), false), ("ok", None));
    assert_eq!(classify_run(&Ok(()), true), ("dry_run", None));
    assert_eq!(classify_run(&Err(StepError::Cancelled), false), ("cancelled", None));
    assert_eq!(
        classify_run(&Err(StepError::Failed("x".into())), true),
        ("error", Some("x".to_string()))
    );
}

#[test]
fn step_error_reads_as_its_message() {
    assert_eq!(StepError::Cancelled.to_string(), "cancelled");
    assert_eq!(StepError::Failed("boom".into()).to_string(), "boom");
}

fn target(name: &str, link: Option<bool>, mode: PeerMode, anchor: Option<i64>, cadence: u64) -> TargetView {
    TargetView { name: name.to_string(), link, mode, anchor, cadence }
}

#[test]
fn a_peer_without_its_own_interval_follows_the_jobs_interval() {
    assert_eq!(cadence_secs(None, Some(600_000_000_000)), 600);
    assert_eq!(cadence_secs(Some(60_000_000_000), Some(600_000_000_000)), 60);
}

#[test]
fn a_peer_that_has_never_synced_is_due_at_once() {
    let t = vec![target("mira", Some(true), PeerMode::Auto, None, 600)];
    let (sel, errs) = select_targets(&t, &[], false, 1_000);
    assert_eq!(sel, vec![("mira".to_string(), "auto")]);
    assert!(errs.is_empty());
}

#[test]
fn a_manual_push_does_not_resume_a_paused_jobs_schedule() {
    let t = vec![
        target("mira", Some(true), PeerMode::Auto, None, 600),
        target("nas", Some(true), PeerMode::Auto, None, 600),
    ];
    let (sel, errs) = select_targets(&t, &["nas".to_string()], true, 1_000);
    assert_eq!(sel, vec![("nas".to_string(), "manual")]);
    assert!(errs.is_empty());
}

#[test]
fn a_metered_route_carries_manual_pushes_only() {
    let t = vec![target("mira", Some(false), PeerMode::Auto, None, 600)];
    let (sel, _) = select_targets(&t, &[], false, 1_000);
    assert!(sel.is_empty());
    let (sel, _) = select_targets(&t, &["mira".to_string()], false, 1_000);
    assert_eq!(sel, vec![("mira".to_string(), "manual")]);
}

#[test]
fn a_manual_push_to_a_disconnected_peer_is_an_error() {
    let t = vec![target("mira", None, PeerMode::Auto, None, 600)];
    let (sel, errs) = select_targets(&t, &["mira".to_string()], false, 1_000);
    assert!(sel.is_empty());
    assert_eq!(errs.len(), 1);
    assert_eq!(errs[0].to_string(), "manual push to \"mira\": peer not connected");
}

#[test]
fn a_stale_auto_target_without_an_auto_route_is_flagged() {
    let t = vec![target("mira", Some(false), PeerMode::Auto, Some(0), 3600)];
    let (sel, errs) = select_targets(&t, &[], false, 4 * 3600);
    assert!(sel.is_empty());
    assert_eq!(
        errs[0].to_string(),
        "auto target \"mira\" has no auto-eligible route and last successful sync is 4h old"
    );
}

#[test]
fn a_target_not_yet_due_waits() {
    let t = vec![target("mira", Some(true), PeerMode::Auto, Some(1_000), 600)];
    let (sel, _) = select_targets(&t, &[], false, 1_500);
    assert!(sel.is_empty());
    let (sel, _) = select_targets(&t, &[], false, 1_600);
    assert_eq!(sel.len(), 1);
}

#[test]
fn next_wake_sleeps_until_the_earliest_due_target() {
    let t = vec![
        target("a", Some(true), PeerMode::Auto, Some(1_000), 600),
        target("b", Some(true), PeerMode::Auto, Some(1_000), 300),
    ];
    assert_eq!(next_wake(&t, 1_100, 900_000_000_000), 200_000_000_000);
}

#[test]
fn cancellable_tracks_the_transfer_phases() {
    assert!(cancellable_now(0, &[]));
    assert!(cancellable_now(0, &["sending".to_string()]));
    assert!(!cancellable_now(0, &["finalizing".to_string()]));
    assert!(cancellable_now(0, &["finalizing".to_string(), "waiting_receiver".to_string()]));
}

#[test]
fn a_cycle_with_queued_filesystems_can_still_be_stopped() {
    assert!(!cancellable_now(0, &["finalizing".to_string()]));
    assert!(cancellable_now(2, &["finalizing".to_string()]));
}

#[test]
fn manual_request_rejects_a_peer_that_is_not_a_target() {
    let targets = vec!["mira".to_string()];
    assert!(check_push_request(&targets, "push_job", "nowhere").is_err());
    assert!(check_push_request(&targets, "push_job", "mira").is_ok());
}

#[test]
fn receiver_dataset_and_transfer_key_are_joined() {
    assert_eq!(target_dataset("backup/nova", "tank/data"), "backup/nova/tank/data");
    assert!(!transfer_key("mira", "tank/data").is_empty());
}

#[test]
fn a_cancelled_attempt_anchors_the_schedule_to_itself() {
    let mut o = PeerOutcome::default();
    record_attempt(&mut o, 100, "ok", None);
    assert_eq!(o.last_success, Some(100));
    assert_eq!(peer_schedule_anchor(&o), Some(100));
    record_attempt(&mut o, 200, "error", Some("boom".into()));
    assert_eq!(o.last_success, Some(100));
    assert_eq!(peer_schedule_anchor(&o), Some(100));
    record_attempt(&mut o, 300, "cancelled", None);
    assert_eq!(peer_schedule_anchor(&o), Some(300));
    assert_eq!(o.last_attempt, Some(300));
    assert_eq!(o.outcome.as_deref(), Some("cancelled"));
}

fn peer_cfg(name: &str, mode: PeerMode, auto_interval: Option<u128>) -> PeerConfig {
    PeerConfig { name: name.into(), ssh_target: None, routes: vec![], mode, auto_interval }
}

#[test]
fn manual_request_is_visible_in_status_until_the_cycle_drains_it() {
    let peers = vec![peer_cfg("mira", PeerMode::Manual, Some(86_400_000_000_000))];
    let t = target_status("mira", &peers, (true, Some("lan".into()), true), true, &PeerOutcome::default());
    assert!(t.manual_queued);
    assert_eq!(t.mode, WireMode::Manual);
    assert_eq!(t.auto_interval_secs, Some(86_400));
    assert_eq!(t.route.as_deref(), Some("lan"));
    let t = target_status("mira", &peers, (true, Some("lan".into()), true), false, &PeerOutcome::default());
    assert!(!t.manual_queued);
}

#[test]
fn a_target_shows_its_last_outcome_and_only_errors_as_errors() {
    let mut o = PeerOutcome::default();
    record_attempt(&mut o, 50, "error", Some("boom".into()));
    let t = target_status("nas", &[], (false, None, false), false, &o);
    assert_eq!(t.mode, WireMode::Auto);
    assert_eq!(t.auto_interval_secs, None);
    assert!(!t.connected);
    assert_eq!(t.last_outcome, Some(RunStatus::Error));
    assert_eq!(t.last_error.as_deref(), Some("boom"));
    record_attempt(&mut o, 60, "cancelled", Some("stopped by the operator".into()));
    let t = target_status("nas", &[], (false, None, false), false, &o);
    assert_eq!(t.last_outcome, Some(RunStatus::Cancelled));
    assert_eq!(t.last_message.as_deref(), Some("stopped by the operator"));
    assert_eq!(t.last_error, None);
    assert_eq!(t.last_attempt, Some(60));
}

fn transfer(dataset: &str, started_at: i64) -> TransferInfo {
    TransferInfo {
        dataset: dataset.into(),
        peer: "mira".into(),
        kind: TransferKind::Incremental,
        bytes_sent: 0,
        total_bytes: None,
        started_at,
        phase: TransferPhase::Sending,
        phase_since: started_at,
    }
}

#[test]
fn transfers_are_listed_by_start_then_dataset() {
    let v = vec![transfer("tank/b", 20), transfer("tank/c", 10), transfer("tank/a", 20)];
    let got: Vec<(String, i64)> = order_transfers(v).into_iter().map(|t| (t.dataset, t.started_at)).collect();
    assert_eq!(
        got,
        vec![("tank/c".to_string(), 10), ("tank/a".to_string(), 20), ("tank/b".to_string(), 20)]
    );
    assert!(order_transfers(vec![]).is_empty());
}

fn finalizing(dataset: &str) -> TransferInfo {
    TransferInfo { phase: TransferPhase::Finalizing, ..transfer(dataset, 5) }
}

#[test]
fn cancellable_is_false_without_a_running_cycle() {
    let idle = PeriodicStatus::default();
    let s = push_status("push_job", &idle, false, false, vec![], false, 0, vec![]);
    assert!(!s.cancellable);
    let s = push_status("push_job", &idle, false, false, vec![], true, 0, vec![]);
    assert!(s.cancellable);
}

#[test]
fn a_cycle_past_the_hand_off_cannot_be_stopped_unless_work_is_queued() {
    let idle = PeriodicStatus::default();
    let s = push_status("p", &idle, false, false, vec![finalizing("a")], true, 0, vec![]);
    assert!(!s.cancellable);
    let s = push_status("p", &idle, false, false, vec![finalizing("a")], true, 2, vec![]);
    assert!(s.cancellable);
    let s = push_status("p", &idle, false, false, vec![finalizing("a"), transfer("b", 3)], true, 0, vec![]);
    assert!(s.cancellable);
    assert_eq!(s.transfers[0].dataset, "b");
}

#[test]
fn a_dry_run_job_says_so_in_its_status() {
    let idle = PeriodicStatus::default();
    assert!(push_status("push_test", &idle, false, true, vec![], false, 0, vec![]).dry_run);
    assert!(!push_status("push_test", &idle, false, false, vec![], false, 0, vec![]).dry_run);
    let paused = push_status("push_test", &idle, true, false, vec![], false, 0, vec![]);
    assert!(paused.paused);
    assert_eq!(paused.name, "push_test");
    assert!(paused.last_run.is_none());
}
