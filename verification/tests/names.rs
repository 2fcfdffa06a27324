use arctern::names::{parse_snapshot_target, validate_dataset_name, validate_snapshot_leaf, validate_component};

#[test]
fn dataset_name_accepts_common_zfs_paths() {
    validate_dataset_name("tank/backups/laptop/root").unwrap();
    validate_dataset_name("rpool/ROOT/arch-2026.05.15").unwrap();
    validate_dataset_name("pool/user:home+data").unwrap();
}

#[test]
fn dataset_name_rejects_ambiguous_or_unsafe_paths() {
    for name in [
        "",
        "/tank/data",
        "tank/data/",
        "tank//data",
        "tank/../data",
        "tank/data@s1",
        "tank/data#b1",
        "tank/data with spaces",
        "-tank/data",
        "tank/-data",
        "-F",
    ] {
        assert!(validate_dataset_name(name).is_err(), "accepted {name:?}");
    }
}

#[test]
fn snapshot_leaf_rejects_leading_dash() {
    assert!(validate_snapshot_leaf("-nv").is_err());
    assert!(parse_snapshot_target("tank/data@-R").is_err());
}

#[test]
fn snapshot_target_accepts_dataset_at_snapshot() {
    let parsed = parse_snapshot_target("tank/data@snap_2026-05-15").unwrap();
    assert_eq!(parsed.dataset, "tank/data");
    assert_eq!(parsed.snapshot, "snap_2026-05-15");
}

#[test]
fn snapshot_target_rejects_non_snapshots() {
    for name in [
        "tank/data",
        "tank/data@",
        "@snap",
        "tank/data@snap/child",
        "tank/data@snap@other",
        "tank/data#bookmark",
    ] {
        assert!(parse_snapshot_target(name).is_err(), "accepted {name:?}");
    }
}

#[test]
fn component_rejects_dot_components() {
    assert!(validate_component(".").is_err());
    assert!(validate_component("..").is_err());
    assert!(validate_component("a.b").is_ok());
}
