use arctern::plan::{
    apply_bookmark_fallback, build_send_header, copy_plan, pick_plan, pick_plan_with_token, plan_filesystem,
    receiver_entries, reject_unreceivable_full, BookmarkRef, CompiledFilter, PlanError, ResumeToken, SnapshotPlan,
    TokenState,
};
use arctern::protocol::{SendKind, SnapshotEntry, SnapshotRef};
use arctern::schema::{ReplicateMode, SendFlagsConfig, SnapshotFilterConfig};
use arctern::send_args::build_send_args;

fn s(name: &str, guid: u64) -> SnapshotEntry {
    SnapshotEntry { name: name.into(), guid, createtxg: guid }
}
fn r(name: &str, guid: u64) -> SnapshotRef {
    SnapshotRef { name: name.into(), guid }
}
fn e(name: &str, guid: u64, createtxg: u64) -> SnapshotEntry {
    SnapshotEntry { name: name.into(), guid, createtxg }
}
fn bm(leaf: &str, guid: u64, createtxg: u64) -> BookmarkRef {
    BookmarkRef { leaf: leaf.into(), guid, createtxg }
}
fn token(to_name: &str, to_guid: u64, from_guid: Option<u64>, bytes: u64) -> ResumeToken {
    ResumeToken { token: "1-abc".into(), to_name: to_name.into(), to_guid, from_guid, bytes_received: bytes }
}
fn args_of(plan: &SnapshotPlan) -> Vec<String> {
    build_send_args(plan, "tank/data", &SendFlagsConfig::default()).unwrap().build_args(false).unwrap()
}

fn check_empty_sender(modes: &[ReplicateMode]) {
    for mode in modes {
        assert_eq!(pick_plan(&[], &[], *mode), SnapshotPlan::Nothing);
        assert_eq!(pick_plan(&[], &[e("a", 1, 1)], *mode), SnapshotPlan::Nothing);
    }
}

fn check_empty_receiver() {
    let sender = vec![s("a", 1), s("b", 2)];
    assert_eq!(
        pick_plan(&sender, &[], ReplicateMode::Latest),
        SnapshotPlan::Full { to: r("b", 2), discard_partial_recv: false }
    );
}

fn check_already_at_latest() {
    let sender = vec![s("a", 1), s("b", 2)];
    let receiver = vec![e("a", 1, 1), e("b", 2, 2)];
    assert_eq!(pick_plan(&sender, &receiver, ReplicateMode::Latest), SnapshotPlan::Nothing);
}

fn check_ahead_by_one() {
    let sender = vec![s("a", 1), s("b", 2), s("c", 3)];
    let receiver = vec![e("a", 1, 1), e("b", 2, 2)];
    assert_eq!(
        pick_plan(&sender, &receiver, ReplicateMode::Latest),
        SnapshotPlan::Incremental { from: r("b", 2), to: r("c", 3), discard_partial_recv: false }
    );
}

fn check_above_i64_max() {
    let sender = vec![
        s("zrepl_001", 11587258101628135412),
        s("zrepl_002", 1711743136468914064),
        s("manual_001", 14719774020884296672),
    ];
    let receiver = vec![e("zrepl_001", 11587258101628135412, 8)];
    assert_eq!(
        pick_plan(&sender, &receiver, ReplicateMode::Latest),
        SnapshotPlan::Incremental {
            from: r("zrepl_001", 11587258101628135412),
            to: r("manual_001", 14719774020884296672),
            discard_partial_recv: false,
        }
    );
}

fn check_compiled_filter() {
    let cfg = SnapshotFilterConfig { prefix: Some("zrepl_".into()), regex: None };
    let f = CompiledFilter::from_config(&cfg).unwrap();
    assert!(f.matches("zrepl_001"));
    assert!(!f.matches("manual_001"));
}

fn check_full_args() {
    let plan = SnapshotPlan::Full { to: r("snap1", 1), discard_partial_recv: false };
    assert_eq!(args_of(&plan), vec!["send", "-w", "-c", "-L", "-e", "tank/data@snap1"]);
}

fn check_resume_args() {
    let plan = SnapshotPlan::Resume { token: "1-abc".into(), decoded: token("tank/data@snap1", 42, None, 1024) };
    assert_eq!(args_of(&plan), vec!["send", "-t", "1-abc"]);
}

fn check_resume_with_bookmark_base() {
    let decoded = token("tank/data@zrepl_new", 42, Some(777), 4096);
    let sender = vec![s("zrepl_new", 42)];
    let receiver = vec![e("old", 1, 1)];
    let bookmarks = vec![bm("arctern_cursor_G_309_J_push_P_mira", 777, 10)];
    let got = pick_plan_with_token(&sender, &receiver, Some("1-abc"), Some(&decoded), &bookmarks, ReplicateMode::Latest);
    assert!(matches!(got, SnapshotPlan::Resume { .. }), "got {got:?}");
}

fn check_resume_with_vanished_base() {
    let decoded = token("tank/data@zrepl_new", 42, Some(777), 4096);
    let sender = vec![s("zrepl_new", 42)];
    let receiver = vec![e("zrepl_new", 42, 9)];
    let got = pick_plan_with_token(&sender, &receiver, Some("1-abc"), Some(&decoded), &[], ReplicateMode::Latest);
    assert!(!matches!(got, SnapshotPlan::Resume { .. }), "must not resume, got {got:?}");
}

fn check_fallback_downgrades_full() {
    let plan = SnapshotPlan::Full { to: r("zrepl_new", 42), discard_partial_recv: false };
    let receiver = vec![e("zrepl_old", 13681249742552200977, 100)];
    let bookmarks = vec![
        bm("zrepl_CURSOR_G_bddd90278c3a7711_J_push_to_local", 13681249742552200977, 100),
        bm("unrelated", 7, 999),
    ];
    let got = apply_bookmark_fallback(plan, &[], &receiver, &bookmarks, ReplicateMode::Latest);
    assert_eq!(
        got,
        SnapshotPlan::IncrementalFromBookmark {
            from: SnapshotRef {
                name: "zrepl_CURSOR_G_bddd90278c3a7711_J_push_to_local".into(),
                guid: 13681249742552200977,
            },
            to: r("zrepl_new", 42),
            discard_partial_recv: false,
        }
    );
}

fn check_fallback_youngest() {
    let plan = SnapshotPlan::Full { to: r("new", 42), discard_partial_recv: true };
    let receiver = vec![e("a", 1, 10), e("b", 2, 20)];
    let bookmarks = vec![bm("old_cursor", 1, 10), bm("newer_cursor", 2, 20)];
    let got = apply_bookmark_fallback(plan, &[], &receiver, &bookmarks, ReplicateMode::Latest);
    let SnapshotPlan::IncrementalFromBookmark { from, discard_partial_recv, .. } = got else {
        panic!("expected IncrementalFromBookmark, got {got:?}");
    };
    assert_eq!(from.name, "newer_cursor");
    assert_eq!(from.guid, 2);
    assert!(discard_partial_recv);
}

fn check_fallback_no_match() {
    let plan = SnapshotPlan::Full { to: r("new", 42), discard_partial_recv: false };
    let receiver = vec![e("a", 1, 10)];
    let bookmarks = vec![bm("cursor", 999, 10)];
    let got = apply_bookmark_fallback(plan.clone(), &[], &receiver, &bookmarks, ReplicateMode::Latest);
    assert_eq!(got, plan);
}

fn check_fallback_ignores() {
    let full = SnapshotPlan::Full { to: r("new", 42), discard_partial_recv: false };
    let bookmarks = vec![bm("cursor", 42, 10)];
    assert_eq!(apply_bookmark_fallback(full.clone(), &[], &[], &bookmarks, ReplicateMode::Latest), full);
    let incr = SnapshotPlan::Incremental { from: r("a", 1), to: r("b", 2), discard_partial_recv: false };
    let sender = vec![s("a", 1), s("b", 2)];
    let receiver = vec![e("a", 1, 10)];
    assert_eq!(apply_bookmark_fallback(incr.clone(), &sender, &receiver, &bookmarks, ReplicateMode::Latest), incr);
}

fn check_bookmark_newer_than_common() {
    let sender = vec![s("old_common", 10), s("new", 40)];
    let receiver = vec![e("", 10, 0), e("", 30, 0)];
    let bookmarks = vec![bm("arctern_cursor_G_1e_J_push_P_mira", 30, 30)];
    let plan = pick_plan(&sender, &receiver, ReplicateMode::Latest);
    assert_eq!(
        plan,
        SnapshotPlan::Incremental { from: r("old_common", 10), to: r("new", 40), discard_partial_recv: false }
    );
    assert_eq!(
        apply_bookmark_fallback(plan, &sender, &receiver, &bookmarks, ReplicateMode::Latest),
        SnapshotPlan::IncrementalFromBookmark {
            from: SnapshotRef { name: "arctern_cursor_G_1e_J_push_P_mira".into(), guid: 30 },
            to: r("new", 40),
            discard_partial_recv: false,
        }
    );
}

fn check_common_as_new_as_bookmark() {
    let sender = vec![s("common", 30), s("new", 40)];
    let receiver = vec![e("", 30, 0)];
    let bookmarks = vec![bm("cursor_same_point", 30, 30)];
    let plan = pick_plan(&sender, &receiver, ReplicateMode::Latest);
    assert_eq!(apply_bookmark_fallback(plan.clone(), &sender, &receiver, &bookmarks, ReplicateMode::Latest), plan);
}

fn check_bookmark_of_latest() {
    let sender = vec![s("old_common", 10), s("new", 40)];
    let receiver = vec![e("", 10, 0), e("", 40, 0)];
    let bookmarks = vec![bm("cursor_at_head", 40, 40)];
    let plan = pick_plan(&sender, &receiver, ReplicateMode::Latest);
    assert_eq!(plan, SnapshotPlan::Nothing);
    assert_eq!(
        apply_bookmark_fallback(plan, &sender, &receiver, &bookmarks, ReplicateMode::Latest),
        SnapshotPlan::Nothing
    );
}

fn bookmark_plan() -> SnapshotPlan {
    SnapshotPlan::IncrementalFromBookmark {
        from: SnapshotRef { name: "zrepl_CURSOR_G_bddd_J_push".into(), guid: 1 },
        to: r("zrepl_new", 2),
        discard_partial_recv: false,
    }
}

fn check_bookmark_args() {
    assert_eq!(
        args_of(&bookmark_plan()),
        vec!["send", "-w", "-c", "-L", "-e", "-i", "tank/data#zrepl_CURSOR_G_bddd_J_push", "tank/data@zrepl_new"]
    );
}

fn check_bookmark_header() {
    let h = build_send_header(&bookmark_plan(), &SendFlagsConfig::default()).unwrap();
    assert_eq!(h.send_kind, SendKind::Incremental);
    assert_eq!(h.from_snap.as_ref().map(|f| f.name.as_str()), Some("zrepl_CURSOR_G_bddd_J_push"));
    assert_eq!(h.to_snap.name, "zrepl_new");
}

fn check_resume_header() {
    let plan = SnapshotPlan::Resume { token: "1-abc".into(), decoded: token("tank/data@snap1", 42, None, 1024) };
    let h = build_send_header(&plan, &SendFlagsConfig::default()).unwrap();
    assert_eq!(h.send_kind, SendKind::Resume);
    assert!(!h.discard_partial_recv);
    assert_eq!(h.to_snap.name, "snap1");
    assert_eq!(h.to_snap.guid, 42);
}

#[test]
fn plan_empty_sender_means_nothing() {
    check_empty_sender(&[ReplicateMode::Latest, ReplicateMode::All]);
}
#[test]
fn push_empty_sender_means_nothing() {
    check_empty_sender(&[ReplicateMode::Latest]);
}
#[test]
fn plan_empty_receiver_means_full_send_of_latest() {
    check_empty_receiver();
}
#[test]
fn push_empty_receiver_means_full_send_of_latest() {
    check_empty_receiver();
}
#[test]
fn plan_sender_already_at_receiver_latest_means_nothing() {
    check_already_at_latest();
}
#[test]
fn push_sender_already_at_receiver_latest_means_nothing() {
    check_already_at_latest();
}
#[test]
fn plan_sender_ahead_by_one_means_incremental() {
    check_ahead_by_one();
}
#[test]
fn push_sender_ahead_by_one_means_incremental() {
    check_ahead_by_one();
}
#[test]
fn plan_intersects_correctly_at_u64_above_i64_max() {
    check_above_i64_max();
}
#[test]
fn push_intersects_correctly_at_u64_above_i64_max() {
    check_above_i64_max();
}
#[test]
fn plan_compiled_filter_prefix_matches() {
    check_compiled_filter();
}
#[test]
fn push_compiled_filter_prefix_matches() {
    check_compiled_filter();
}
#[test]
fn plan_build_send_args_full_with_all_flags() {
    check_full_args();
}
#[test]
fn push_build_send_args_full_with_all_flags() {
    check_full_args();
}
#[test]
fn plan_build_send_args_resume_uses_dash_t() {
    check_resume_args();
}
#[test]
fn push_build_send_args_resume_uses_dash_t() {
    check_resume_args();
}
#[test]
fn plan_resume_token_with_bookmark_base_stays_resume() {
    check_resume_with_bookmark_base();
}
#[test]
fn push_resume_token_with_bookmark_base_stays_resume() {
    check_resume_with_bookmark_base();
}
#[test]
fn plan_resume_token_with_vanished_base_discards() {
    check_resume_with_vanished_base();
}
#[test]
fn push_resume_token_with_vanished_base_discards() {
    check_resume_with_vanished_base();
}
#[test]
fn plan_bookmark_fallback_downgrades_full_to_incremental() {
    check_fallback_downgrades_full();
}
#[test]
fn push_bookmark_fallback_downgrades_full_to_incremental() {
    check_fallback_downgrades_full();
}
#[test]
fn plan_bookmark_fallback_picks_youngest_matching_base() {
    check_fallback_youngest();
}
#[test]
fn push_bookmark_fallback_picks_youngest_matching_base() {
    check_fallback_youngest();
}
#[test]
fn plan_bookmark_fallback_keeps_full_when_no_guid_matches() {
    check_fallback_no_match();
}
#[test]
fn push_bookmark_fallback_keeps_full_when_no_guid_matches() {
    check_fallback_no_match();
}
#[test]
fn plan_bookmark_fallback_ignores_first_replication_and_non_full_plans() {
    check_fallback_ignores();
}
#[test]
fn push_bookmark_fallback_ignores_first_replication_and_non_full_plans() {
    check_fallback_ignores();
}
#[test]
fn plan_bookmark_newer_than_common_snapshot_replaces_incremental_base() {
    check_bookmark_newer_than_common();
}
#[test]
fn push_bookmark_newer_than_common_snapshot_replaces_incremental_base() {
    check_bookmark_newer_than_common();
}
#[test]
fn plan_common_snapshot_at_least_as_new_as_bookmark_keeps_snapshot_base() {
    check_common_as_new_as_bookmark();
}
#[test]
fn push_common_snapshot_at_least_as_new_as_bookmark_keeps_snapshot_base() {
    check_common_as_new_as_bookmark();
}
#[test]
fn plan_bookmark_of_latest_snapshot_means_nothing_to_do() {
    check_bookmark_of_latest();
}
#[test]
fn push_bookmark_of_latest_snapshot_means_nothing_to_do() {
    check_bookmark_of_latest();
}
#[test]
fn plan_build_send_args_incremental_from_bookmark_uses_hash_base() {
    check_bookmark_args();
}
#[test]
fn push_build_send_args_incremental_from_bookmark_uses_hash_base() {
    check_bookmark_args();
}
#[test]
fn plan_build_send_header_incremental_from_bookmark_is_wire_incremental() {
    check_bookmark_header();
}
#[test]
fn push_build_send_header_incremental_from_bookmark_is_wire_incremental() {
    check_bookmark_header();
}
#[test]
fn plan_build_send_header_resume_does_not_set_discard_and_uses_leaf_name() {
    check_resume_header();
}
#[test]
fn push_build_send_header_resume_does_not_set_discard_and_uses_leaf_name() {
    check_resume_header();
}

#[test]
fn a_full_plan_against_a_populated_receiver_is_refused_with_a_remedy() {
    let plan = SnapshotPlan::Full { to: r("b", 2), discard_partial_recv: false };
    let err = reject_unreceivable_full(plan, "backup/nova/data", &[s("x", 9)], true)
        .expect_err("a full send cannot land on a populated receiver");
    assert!(
        matches!(&err, PlanError::Diverged { target, receiver_snapshots: 1 } if target == "backup/nova/data"),
        "got: {err:?}"
    );
    let text = err.to_string();
    assert!(text.contains("diverged"), "got: {text}");
    assert!(text.contains("destroy"), "no remedy offered: {text}");
}

#[test]
fn a_full_plan_against_an_empty_receiver_is_the_normal_first_sync() {
    let plan = SnapshotPlan::Full { to: r("b", 2), discard_partial_recv: false };
    assert_eq!(reject_unreceivable_full(plan.clone(), "backup/nova/data", &[], false).unwrap(), plan);
}

#[test]
fn a_full_plan_against_an_existing_empty_dataset_names_the_placeholder() {
    let plan = SnapshotPlan::Full { to: r("b", 2), discard_partial_recv: false };
    let err = reject_unreceivable_full(plan, "backup/nova/data", &[], true)
        .expect_err("a full send cannot land on an existing dataset");
    assert!(matches!(err, PlanError::Placeholder { .. }), "got: {err:?}");
    let text = err.to_string();
    assert!(text.contains("placeholder"), "got: {text}");
    assert!(text.contains("destroy"), "no remedy offered: {text}");
    assert!(!text.contains("diverged"), "nothing diverged here: {text}");
}

#[test]
fn other_plans_pass_a_populated_receiver_untouched() {
    for plan in [
        SnapshotPlan::Nothing,
        SnapshotPlan::Incremental { from: r("a", 1), to: r("b", 2), discard_partial_recv: false },
        SnapshotPlan::IncrementalFromBookmark { from: r("cursor", 1), to: r("b", 2), discard_partial_recv: false },
    ] {
        assert_eq!(reject_unreceivable_full(plan.clone(), "backup/nova/data", &[s("x", 9)], true).unwrap(), plan);
    }
}

#[test]
fn all_mode_carries_the_intermediate_snapshots() {
    let sender = vec![s("a", 1), s("b", 2), s("c", 3), s("d", 4)];
    let receiver = vec![e("a", 1, 1)];
    assert_eq!(
        pick_plan(&sender, &receiver, ReplicateMode::All),
        SnapshotPlan::IncrementalAll { from: r("a", 1), to: r("d", 4), discard_partial_recv: false }
    );
    assert_eq!(
        pick_plan(&sender, &receiver, ReplicateMode::Latest),
        SnapshotPlan::Incremental { from: r("a", 1), to: r("d", 4), discard_partial_recv: false }
    );
}

#[test]
fn all_mode_with_no_intermediate_snapshot_is_a_plain_incremental() {
    let sender = vec![s("a", 1), s("b", 2)];
    let receiver = vec![e("a", 1, 1)];
    assert_eq!(
        pick_plan(&sender, &receiver, ReplicateMode::All),
        SnapshotPlan::Incremental { from: r("a", 1), to: r("b", 2), discard_partial_recv: false }
    );
}

#[test]
fn all_mode_first_sync_starts_from_the_oldest_snapshot() {
    let sender = vec![s("a", 1), s("b", 2), s("c", 3)];
    assert_eq!(
        pick_plan(&sender, &[], ReplicateMode::All),
        SnapshotPlan::Full { to: r("a", 1), discard_partial_recv: false }
    );
    assert_eq!(
        pick_plan(&sender, &[], ReplicateMode::Latest),
        SnapshotPlan::Full { to: r("c", 3), discard_partial_recv: false }
    );
}

#[test]
fn all_mode_bookmark_fallback_stops_at_the_first_snapshot_past_it() {
    let sender = vec![s("b", 20), s("c", 30)];
    let receiver = vec![e("", 15, 0)];
    let bookmarks = vec![bm("cursor", 15, 15)];
    let plan = pick_plan(&sender, &receiver, ReplicateMode::All);
    assert!(matches!(plan, SnapshotPlan::Full { .. }), "got {plan:?}");
    assert_eq!(
        apply_bookmark_fallback(plan, &sender, &receiver, &bookmarks, ReplicateMode::All),
        SnapshotPlan::IncrementalFromBookmark {
            from: SnapshotRef { name: "cursor".into(), guid: 15 },
            to: r("b", 20),
            discard_partial_recv: false,
        }
    );
    let receiver = vec![e("", 15, 0), e("", 20, 0)];
    let sender = vec![s("b", 20), s("c", 30), s("d", 40)];
    assert_eq!(
        pick_plan(&sender, &receiver, ReplicateMode::All),
        SnapshotPlan::IncrementalAll { from: r("b", 20), to: r("d", 40), discard_partial_recv: false }
    );
}

#[test]
fn all_mode_bookmark_at_or_past_every_snapshot_means_nothing() {
    let sender = vec![s("a", 10)];
    let receiver = vec![e("", 15, 0)];
    let bookmarks = vec![bm("cursor", 15, 15)];
    let plan = pick_plan(&sender, &receiver, ReplicateMode::All);
    assert_eq!(
        apply_bookmark_fallback(plan, &sender, &receiver, &bookmarks, ReplicateMode::All),
        SnapshotPlan::Nothing
    );
}

#[test]
fn build_send_args_incremental_all_uses_dash_capital_i() {
    let plan = SnapshotPlan::IncrementalAll { from: r("a", 1), to: r("d", 4), discard_partial_recv: false };
    assert_eq!(args_of(&plan), vec!["send", "-w", "-c", "-L", "-e", "-I", "tank/data@a", "tank/data@d"]);
    let h = build_send_header(&plan, &SendFlagsConfig::default()).unwrap();
    assert_eq!(h.send_kind, SendKind::Incremental);
    assert_eq!(h.from_snap.as_ref().map(|f| f.name.as_str()), Some("a"));
    assert_eq!(h.to_snap.name, "d");
}

#[test]
fn send_flags_can_be_turned_off() {
    let flags = SendFlagsConfig { encrypted: false, embedded_data: false, compressed: true, large_blocks: false };
    let plan = SnapshotPlan::Full { to: r("snap1", 1), discard_partial_recv: false };
    let v = build_send_args(&plan, "tank/data", &flags).unwrap().build_args(false).unwrap();
    assert_eq!(v, vec!["send", "-c", "tank/data@snap1"]);
    assert!(build_send_args(&SnapshotPlan::Nothing, "tank/data", &flags).is_none());
}

#[test]
fn an_undecodable_token_discards_and_replans() {
    let sender = vec![s("a", 1), s("b", 2)];
    let receiver = vec![e("a", 1, 1)];
    let got = plan_filesystem(&sender, &receiver, &TokenState::Undecodable, None, "backup/x", true, ReplicateMode::Latest)
        .unwrap();
    assert_eq!(got, SnapshotPlan::Incremental { from: r("a", 1), to: r("b", 2), discard_partial_recv: true });
}

#[test]
fn a_diverged_receiver_is_reported_through_the_planner() {
    let sender = vec![s("a", 1)];
    let receiver = vec![e("z", 9, 1)];
    let got = plan_filesystem(&sender, &receiver, &TokenState::Absent, Some(&[]), "backup/x", true, ReplicateMode::Latest);
    assert!(matches!(got, Err(PlanError::Diverged { receiver_snapshots: 1, .. })), "got {got:?}");
}

#[test]
fn receiver_guids_become_anonymous_entries() {
    let rs = receiver_entries(&[5, 9]);
    assert_eq!(rs, vec![e("", 5, 0), e("", 9, 0)]);
    let plan = SnapshotPlan::Full { to: r("a", 1), discard_partial_recv: true };
    assert_eq!(copy_plan(&plan), plan);
}

#[test]
fn the_plan_follows_the_newest_common_snapshot() {
    let sender = vec![s("a", 1), s("b", 2), s("c", 3)];
    // The receiver holds the newest: nothing to send.
    assert_eq!(pick_plan(&sender, &[e("", 3, 0)], ReplicateMode::Latest), SnapshotPlan::Nothing);
    // It holds older ones: the newest common is the base, the newest sender snapshot the target.
    assert_eq!(
        pick_plan(&sender, &[e("", 1, 0), e("", 2, 0)], ReplicateMode::Latest),
        SnapshotPlan::Incremental { from: r("b", 2), to: r("c", 3), discard_partial_recv: false }
    );
    // Nothing in common: a full send.
    assert_eq!(
        pick_plan(&sender, &[e("", 9, 0)], ReplicateMode::Latest),
        SnapshotPlan::Full { to: r("c", 3), discard_partial_recv: false }
    );
}
