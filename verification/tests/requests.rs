use arctern::api::SnapshotHold;
use arctern::requests::{
    live_event_is_new, sort_holds,
    backlog_cursor, check_create_hold, check_dataset, check_hold_tag, check_snapshot_leaf, clamp_limit, resume_from,
    snapshot_passes, StreamEventsQuery,
};

#[test]
fn a_fresh_client_gets_the_whole_replay() {
    assert_eq!(resume_from(None, &StreamEventsQuery::default()), 0);
}

#[test]
fn the_standard_header_is_honoured() {
    assert_eq!(resume_from(Some("41"), &StreamEventsQuery::default()), 41);
}

#[test]
fn the_query_parameter_covers_a_deliberate_reconnect() {
    let q = StreamEventsQuery { since: Some(41) };
    assert_eq!(resume_from(None, &q), 41);
}

#[test]
fn a_malformed_cursor_replays_rather_than_skipping() {
    for bad in ["not a number", "-7"] {
        assert_eq!(resume_from(Some(bad), &StreamEventsQuery::default()), 0, "{bad:?} should fall back to a full replay");
    }
}

#[test]
fn the_header_wins_over_the_query() {
    assert_eq!(resume_from(Some("5"), &StreamEventsQuery { since: Some(41) }), 5);
    assert_eq!(resume_from(Some("x"), &StreamEventsQuery { since: Some(41) }), 41);
}

#[test]
fn a_caught_up_client_gets_no_replayed_event_twice() {
    assert_eq!(backlog_cursor(Some(10), 4), 10);
    assert_eq!(backlog_cursor(Some(3), 7), 7);
    assert_eq!(backlog_cursor(None, 7), 7);
}

#[test]
fn limits_are_clamped_with_a_default() {
    assert_eq!(clamp_limit(None, 50, 1, 500), 50);
    assert_eq!(clamp_limit(Some(0), 50, 1, 500), 1);
    assert_eq!(clamp_limit(Some(9999), 50, 1, 500), 500);
    assert_eq!(clamp_limit(Some(20), 50, 1, 500), 20);
}

#[test]
fn request_names_are_validated() {
    assert!(check_dataset("tank/data").is_ok());
    assert!(check_dataset("tank//data").is_err());
    assert!(check_snapshot_leaf("manual-1").is_ok());
    assert!(check_snapshot_leaf("-R").is_err());
    assert!(check_hold_tag("keep").is_ok());
    assert!(check_hold_tag("").is_err());
}

#[test]
fn the_daemons_own_hold_tags_are_reserved() {
    assert!(check_create_hold("tank/data", "s1", "mine").is_ok());
    let err = check_create_hold("tank/data", "s1", "arctern_step_J_x_P_y").unwrap_err();
    assert!(err.contains("arctern_"), "got: {err}");
}

#[test]
fn snapshot_listing_filters_by_prefix() {
    assert!(snapshot_passes("tank/data@zrepl_1", Some("zrepl_")));
    assert!(!snapshot_passes("tank/data@manual", Some("zrepl_")));
    assert!(snapshot_passes("tank/data@manual", None));
}

#[test]
fn holds_are_listed_oldest_first_ties_in_listing_order() {
    let h = |tag: &str, timestamp: u64| SnapshotHold { tag: tag.into(), timestamp };
    let sorted = sort_holds(vec![h("c", 30), h("a", 10), h("b2", 20), h("b1", 20), h("z", 5)]);
    let tags: Vec<&str> = sorted.iter().map(|x| x.tag.as_str()).collect();
    assert_eq!(tags, vec!["z", "a", "b2", "b1", "c"]);
    assert!(sort_holds(vec![]).is_empty());
}

#[test]
fn only_events_after_the_replay_go_out_live() {
    use_cursor();
}

fn use_cursor() {
    let cursor = backlog_cursor(Some(7), 0);
    assert!(!live_event_is_new(cursor, 7));
    assert!(live_event_is_new(cursor, 8));
    assert!(live_event_is_new(backlog_cursor(None, 0), 1));
}
