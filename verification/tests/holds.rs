use arctern::holds::{
    candidates, commit_keep, cursor_bookmark_name, is_cursor_bookmark_leaf, releases, stale_cursors, step_hold_tag,
    HoldRecord,
};
use arctern::protocol::SnapshotEntry;

fn check_step_hold_tag() {
    assert_eq!(step_hold_tag("backup", "home"), "arctern_step_J_backup_P_home");
}

fn check_cursor_bookmark_name() {
    let name = cursor_bookmark_name("tank/data", "backup", "home", 0x2a);
    assert_eq!(name, "tank/data#arctern_cursor_G_2a_J_backup_P_home");
    let leaf = name.split_once('#').unwrap().1;
    assert!(is_cursor_bookmark_leaf(leaf, "backup", "home"));
    assert!(!is_cursor_bookmark_leaf(leaf, "backup", "other"));
    assert!(!is_cursor_bookmark_leaf(leaf, "other", "home"));
}

#[test]
fn push_step_hold_tag_includes_peer_for_multi_target_isolation() {
    check_step_hold_tag();
}

#[test]
fn push_cursor_bookmark_name_includes_guid_job_and_peer() {
    check_cursor_bookmark_name();
}

#[test]
fn holds_step_hold_tag_includes_peer_for_multi_target_isolation() {
    check_step_hold_tag();
}

#[test]
fn holds_cursor_bookmark_name_includes_guid_job_and_peer() {
    check_cursor_bookmark_name();
}

#[test]
fn a_cursor_leaf_of_a_longer_peer_name_is_not_ours() {
    let name = cursor_bookmark_name("tank/data", "backup", "home2", 7);
    let leaf = name.split_once('#').unwrap().1;
    assert!(!is_cursor_bookmark_leaf(leaf, "backup", "home"));
    assert!(!is_cursor_bookmark_leaf("zrepl_CURSOR_G_2a_J_backup_P_home", "backup", "home"));
}

fn snap(name: &str) -> SnapshotEntry {
    SnapshotEntry { name: name.to_string(), guid: 0, createtxg: 0 }
}

fn hold(snapshot: &str, tag: &str) -> HoldRecord {
    HoldRecord { dataset: snapshot.to_string(), tag: tag.to_string() }
}

#[test]
fn candidates_cover_sender_snapshots_and_extras_once() {
    let c = candidates("tank/data", &[snap("a"), snap("b")], &["tank/data@b", "tank/data@z"]);
    assert_eq!(c, vec!["tank/data@a", "tank/data@b", "tank/data@z"]);
}

#[test]
fn stale_holds_from_earlier_failed_cycles_are_released() {
    let tag = step_hold_tag("backup", "home");
    let holds = vec![hold("tank/data@old", &tag), hold("tank/data@new", &tag)];
    assert_eq!(releases(&holds, &tag, &["tank/data@new"]), vec!["tank/data@old"]);
}

#[test]
fn holds_belonging_to_another_job_are_left_alone() {
    let tag = step_hold_tag("backup", "home");
    let holds = vec![hold("tank/data@old", "arctern_step_J_other_P_home")];
    assert!(releases(&holds, &tag, &[]).is_empty());
}

#[test]
fn a_failed_cursor_bookmark_keeps_the_hold_on_the_sent_snapshot() {
    assert_eq!(commit_keep(false, "tank/data@new"), vec!["tank/data@new"]);
    assert!(commit_keep(true, "tank/data@new").is_empty());
}

#[test]
fn stale_cursors_spare_the_current_one_and_foreign_ones() {
    let current = cursor_bookmark_name("tank/data", "backup", "home", 0x2b);
    let old = cursor_bookmark_name("tank/data", "backup", "home", 0x2a);
    let foreign = cursor_bookmark_name("tank/data", "backup", "mira", 0x2a);
    let bms = vec![old.clone(), current.clone(), foreign.clone(), "tank/data#manual".to_string()];
    assert_eq!(stale_cursors(&bms, &current, "backup", "home"), vec![old]);
}
