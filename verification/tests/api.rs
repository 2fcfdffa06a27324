use arctern::api::{
    default_transfer_phase, encode_segment, DatasetType, JobKind, JobStatus, PeerMode, PeriodicJobStatus,
    PushJobStatus, RouteHealth, RunStatus, ScrubAction, TransferKind, TransferPhase,
};

#[test]
fn wire_enums_round_trip_through_their_strings() {
    for status in [
        RunStatus::Succeeded,
        RunStatus::Error,
        RunStatus::Running,
        RunStatus::Cancelled,
        RunStatus::DryRun,
        RunStatus::Interrupted,
    ] {
        assert_eq!(RunStatus::parse(status.as_str()).unwrap(), status);
    }
    assert_eq!(RunStatus::Succeeded.as_str(), "ok");
    let err = RunStatus::parse("bogus").unwrap_err();
    assert_eq!(err.kind, "RunStatus");
    assert_eq!(err.value, "bogus");
    assert_eq!(err.to_string(), "\"bogus\" is not a valid RunStatus");
}

#[test]
fn every_wire_enum_round_trips() {
    for v in [DatasetType::Filesystem, DatasetType::Volume, DatasetType::Snapshot, DatasetType::Bookmark] {
        assert_eq!(DatasetType::parse(v.as_str()).unwrap(), v);
    }
    for v in [JobKind::Snap, JobKind::Push, JobKind::Prune] {
        assert_eq!(JobKind::parse(v.as_str()).unwrap(), v);
    }
    for v in [TransferKind::Full, TransferKind::Incremental, TransferKind::Resume] {
        assert_eq!(TransferKind::parse(v.as_str()).unwrap(), v);
    }
    for v in [PeerMode::Auto, PeerMode::Manual] {
        assert_eq!(PeerMode::parse(v.as_str()).unwrap(), v);
    }
    for v in [ScrubAction::Start, ScrubAction::Stop, ScrubAction::Pause] {
        assert_eq!(ScrubAction::parse(v.as_str()).unwrap(), v);
    }
    for v in [RouteHealth::Unknown, RouteHealth::Connected, RouteHealth::Failed] {
        assert_eq!(RouteHealth::parse(v.as_str()).unwrap(), v);
    }
    assert!(TransferPhase::parse(TransferPhase::Sending.as_str()).is_ok());
    assert!(DatasetType::parse("Filesystem").is_err());
}

#[test]
fn job_status_is_tagged_by_kind() {
    let status = JobStatus::Push(PushJobStatus { name: "push".into(), ..Default::default() });
    assert_eq!(status.kind(), JobKind::Push);
    assert_eq!(status.name(), "push");
    assert_eq!(status.kind().as_str(), "push");
    let snap = JobStatus::Snap(PeriodicJobStatus { name: "s".into(), ..Default::default() });
    assert!(matches!(snap, JobStatus::Snap(_)));
    assert_eq!(snap.kind(), JobKind::Snap);
    assert_eq!(snap.name(), "s");
}

#[test]
fn transfer_info_defaults_old_payload_to_sending() {
    assert_eq!(default_transfer_phase(), TransferPhase::Sending);
}

#[test]
fn dataset_names_are_encoded_as_one_path_segment() {
    assert_eq!(encode_segment("tank/data/home"), "tank%2Fdata%2Fhome");
    assert_eq!(encode_segment("tank"), "tank");
}
