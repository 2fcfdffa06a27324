use arctern::api::RunStatus;
use arctern::http_error::ZfsErrorKind;
use arctern::jobs::{
    after_destroy, after_snapshot, destroy_names, finish_periodic, finish_push_cycle, format_rfc3339, prune_entries, record_idle_tick, snapshot_tag,
    snapshot_tag_at, CycleErrors, DatasetError, ListedSnapshot, PeriodicStatus, PruneError, PushRequestError,
};
use arctern::schema::KeepRule;

#[test]
fn snapshot_tag_strips_colons() {
    let t = snapshot_tag("zrepl_").unwrap();
    assert!(t.starts_with("zrepl_"));
    assert!(!t.contains(':'));
}

#[test]
fn snapshot_tag_is_second_precision() {
    let t = snapshot_tag("arctern_").unwrap();
    assert!(!t.contains('.'), "got: {t}");
    assert!(t.ends_with('Z'));
}

#[test]
fn a_snapshot_tag_at_a_known_instant() {
    assert_eq!(snapshot_tag_at("arctern_", 1_783_535_172).as_deref(), Some("arctern_2026-07-08T182612Z"));
    assert_eq!(snapshot_tag_at("x_", 0).as_deref(), Some("x_1970-01-01T000000Z"));
    assert_eq!(snapshot_tag_at("x_", i64::MAX), None);
}

#[test]
fn timestamps_render_as_rfc3339() {
    assert_eq!(format_rfc3339(0).as_deref(), Some("1970-01-01T00:00:00Z"));
    assert_eq!(format_rfc3339(-1).as_deref(), Some("1969-12-31T23:59:59Z"));
}

#[test]
fn a_finished_cycle_schedules_the_next_from_its_start() {
    let mut s = PeriodicStatus { running: true, ..Default::default() };
    finish_periodic(&mut s, 100, 130, 60, Some("boom".into()));
    assert_eq!(s.last_run, Some(130));
    assert_eq!(s.next_run, Some(160));
    assert_eq!(s.last_error.as_deref(), Some("boom"));
    assert!(!s.running);
    let r = s.render("snap_job");
    assert_eq!(r.name, "snap_job");
    assert_eq!(r.last_run.as_deref(), Some("1970-01-01T00:02:10Z"));
}

#[test]
fn push_request_errors_read_as_sentences() {
    let e = PushRequestError::NotATarget { job: "push".into(), peer: "nowhere".into() };
    assert_eq!(e.to_string(), "peer \"nowhere\" is not a target of job \"push\"");
    assert_eq!(PushRequestError::NoSuchJob.to_string(), "no such job");
}

#[test]
fn cycle_errors_are_joined() {
    assert!(CycleErrors::from_vec(vec![]).is_ok());
    let err = CycleErrors::from_vec(vec![
        DatasetError::ListDatasets("zfs gone".into()),
        DatasetError::Prune {
            dataset: "tank".into(),
            source: PruneError::Destroy { snapshot: "tank@a".into(), message: "busy".into() },
        },
    ])
    .unwrap_err();
    assert_eq!(err.to_string(), "list datasets: zfs gone; prune tank: destroy tank@a: busy");
}

#[test]
fn prune_entries_skip_unreadable_creation_times() {
    let listing = vec![
        ListedSnapshot { name: "tank@a".into(), creation: Some("100".into()) },
        ListedSnapshot { name: "tank@b".into(), creation: Some("soon".into()) },
        ListedSnapshot { name: "tank@c".into(), creation: None },
        ListedSnapshot { name: "tank@d".into(), creation: Some("200".into()) },
    ];
    let (entries, names) = prune_entries(&listing);
    assert_eq!(entries.len(), 2);
    assert_eq!(entries[0].name, "a");
    assert_eq!(entries[0].creation, 100_000_000_000);
    assert_eq!(names, vec!["tank@a".to_string(), "tank@d".to_string()]);
}

#[test]
fn destroy_names_follow_the_keep_rules() {
    let listing = vec![
        ListedSnapshot { name: "tank@zrepl_a".into(), creation: Some("100".into()) },
        ListedSnapshot { name: "tank@manual".into(), creation: Some("150".into()) },
    ];
    let (entries, names) = prune_entries(&listing);
    let rules = vec![KeepRule::Regex { regex: "^zrepl_".into(), negate: true }];
    assert_eq!(destroy_names(&rules, &entries, &names).unwrap(), vec!["tank@zrepl_a".to_string()]);
    assert!(destroy_names(&[], &entries, &names).unwrap().is_empty());
}

#[test]
fn run_status_words_match_the_history() {
    assert_eq!(RunStatus::DryRun.as_str(), "dry_run");
}

#[test]
fn push_cycles_and_idle_ticks_move_the_schedule_differently() {
    let mut s = PeriodicStatus::default();
    finish_push_cycle(&mut s, 1_000, 60, Some("peer down".into()));
    assert_eq!(s.last_run, Some(1_000));
    assert_eq!(s.next_run, Some(1_060));
    record_idle_tick(&mut s, 1_500, 60);
    assert_eq!(s.last_run, Some(1_000));
    assert_eq!(s.next_run, Some(1_560));
    assert_eq!(s.last_error.as_deref(), Some("peer down"));
    record_idle_tick(&mut s, i64::MAX, 60);
    assert_eq!(s.next_run, Some(i64::MAX));
}

#[test]
fn held_and_busy_snapshots_are_skipped_by_prune() {
    assert!(after_destroy("tank@a", Ok(())).is_ok());
    assert!(after_destroy("tank@a", Err((ZfsErrorKind::SnapshotHeld, "held".into()))).is_ok());
    assert!(after_destroy("tank@a", Err((ZfsErrorKind::Busy, "busy".into()))).is_ok());
    match after_destroy("tank@a", Err((ZfsErrorKind::PermissionDenied, "denied".into()))) {
        Err(e @ PruneError::Destroy { .. }) => assert_eq!(e.to_string(), "destroy tank@a: denied"),
        other => panic!("expected a destroy error, got {other:?}"),
    }
}

#[test]
fn an_existing_snapshot_is_a_no_op_for_the_snap_cycle() {
    assert!(after_snapshot("tank/data", "zrepl_x", Ok(())).is_none());
    assert!(after_snapshot("tank/data", "zrepl_x", Err((ZfsErrorKind::SnapshotExists, "exists".into()))).is_none());
    let e = after_snapshot("tank/data", "zrepl_x", Err((ZfsErrorKind::NoSpace, "out of space".into()))).unwrap();
    assert_eq!(e.to_string(), "snapshot tank/data@zrepl_x: out of space");
}
