use std::time::Duration;

use arctern::api::{PeerReachability, RouteHealth as WireHealth};
use arctern::peer::{
    after_all_failed, after_attempt, begin_round, ConnectStep, Connecting, last_failure, next_delay, on_probe_failed, on_reranked, on_tick, proxy_target,
    record_route_attempt, remote_stderr, render_reachability, render_route, route_states, strip_ansi, ParkedLink,
    PeerStatus, RouteHealth, Severity, TickAction,
};
use arctern::schema::RouteConfig;

#[test]
fn strip_ansi_removes_colour_codes() {
    let colored = "\u{1b}[2m2026-07-07T20:38:17Z\u{1b}[0m \u{1b}[32m INFO\u{1b}[0m opening channel \u{1b}[3midentity\u{1b}[0m\u{1b}[2m=\u{1b}[0m\"laptop_nova\"";
    assert_eq!(
        strip_ansi(colored),
        "2026-07-07T20:38:17Z  INFO opening channel identity=\"laptop_nova\""
    );
}

#[test]
fn strip_ansi_passes_plain_text_through() {
    let plain = "zsh:1: permission denied: /usr/local/bin/arctern";
    assert_eq!(strip_ansi(plain), plain);
}

#[test]
fn strip_ansi_drops_a_lone_escape_and_an_unterminated_sequence() {
    assert_eq!(strip_ansi("a\u{1b}b"), "ab");
    assert_eq!(strip_ansi("a\u{1b}[12"), "a");
}

#[test]
fn first_attempt_is_1s() {
    assert_eq!(Duration::from_secs(next_delay(0)), Duration::from_secs(1));
}

#[test]
fn doubles_until_cap() {
    assert_eq!(Duration::from_secs(next_delay(1)), Duration::from_secs(2));
    assert_eq!(Duration::from_secs(next_delay(2)), Duration::from_secs(4));
    assert_eq!(Duration::from_secs(next_delay(3)), Duration::from_secs(8));
    assert_eq!(Duration::from_secs(next_delay(4)), Duration::from_secs(16));
    assert_eq!(Duration::from_secs(next_delay(5)), Duration::from_secs(32));
}

#[test]
fn caps_at_60s() {
    assert_eq!(Duration::from_secs(next_delay(6)), Duration::from_secs(60));
    assert_eq!(Duration::from_secs(next_delay(20)), Duration::from_secs(60));
    assert_eq!(Duration::from_secs(next_delay(u32::MAX)), Duration::from_secs(60));
}

#[test]
fn backoff_never_shrinks_between_attempts() {
    for a in 0..40u32 {
        assert!(next_delay(a) <= next_delay(a + 1));
    }
    assert_eq!(after_all_failed(3), (8, 4));
    assert_eq!(after_all_failed(u32::MAX), (60, u32::MAX));
}

fn routes() -> Vec<RouteConfig> {
    vec![
        RouteConfig { name: "lan".into(), ssh_target: "a".into(), auto: true },
        RouteConfig { name: "wg".into(), ssh_target: "b".into(), auto: false },
    ]
}

#[test]
fn route_states_mirror_config_order_and_auto() {
    let states = route_states(&routes());
    assert_eq!(states.len(), 2);
    assert_eq!(states[0].name, "lan");
    assert!(states[0].auto);
    assert!(matches!(states[0].health, RouteHealth::Unknown));
    assert_eq!(states[1].name, "wg");
    assert!(!states[1].auto);
}

#[test]
fn route_attempts_are_recorded_and_the_last_failure_reported() {
    let mut states = route_states(&routes());
    assert_eq!(last_failure(&states), "no routes attempted");
    record_route_attempt(&mut states, 0, Err("lan down".into()), 100);
    record_route_attempt(&mut states, 1, Err("wg down".into()), 101);
    assert_eq!(states[0].last_checked, Some(100));
    assert_eq!(last_failure(&states), "wg down");
    record_route_attempt(&mut states, 1, Ok(()), 102);
    assert!(matches!(states[1].health, RouteHealth::Connected));
    assert_eq!(last_failure(&states), "lan down");
}

#[test]
fn a_route_renders_for_the_api() {
    let mut states = route_states(&routes());
    record_route_attempt(&mut states, 0, Err("refused".into()), 0);
    let r = render_route(&states[0]);
    assert_eq!(r.name, "lan");
    assert_eq!(r.health, WireHealth::Failed);
    assert_eq!(r.last_error.as_deref(), Some("refused"));
    assert_eq!(r.last_checked.as_deref(), Some("1970-01-01T00:00:00Z"));
}

#[test]
fn a_parked_link_probes_between_transfers_and_reranks_periodically() {
    let mut link = ParkedLink { active: 1, ticks: 0 };
    assert_eq!(on_tick(&mut link, 2), TickAction::Skip);
    assert_eq!(on_tick(&mut link, 0), TickAction::Probe { rerank: false });
    on_tick(&mut link, 0);
    assert_eq!(on_tick(&mut link, 0), TickAction::Probe { rerank: true });
    let mut top = ParkedLink { active: 0, ticks: 3 };
    assert_eq!(on_tick(&mut top, 0), TickAction::Probe { rerank: false });
}

#[test]
fn a_formatted_remote_line_keeps_its_level_and_loses_its_prefix() {
    let (sev, msg) = remote_stderr("mira", "recv", "2026-07-07T20:38:17Z WARN arctern::recv: disk nearly full");
    assert_eq!(sev, Severity::Warn);
    assert_eq!(msg, "mira recv: disk nearly full");
    let (sev, msg) = remote_stderr("mira", "recv", "\u{1b}[2m2026-07-07T20:38:17Z\u{1b}[0m ERROR x: boom");
    assert_eq!(sev, Severity::Error);
    assert_eq!(msg, "mira recv: boom");
}

#[test]
fn a_padded_level_field_is_not_recognised() {
    // splitn on single whitespace: a padded level leaves the field empty.
    let (sev, msg) = remote_stderr("mira", "recv", "2026-07-07T20:38:17Z  INFO x: hi");
    assert_eq!(sev, Severity::Warn);
    assert_eq!(msg, "mira recv: 2026-07-07T20:38:17Z  INFO x: hi");
}

#[test]
fn an_unformatted_remote_line_is_a_warning_as_is() {
    let (sev, msg) = remote_stderr("mira", "control", "zsh:1: permission denied: /usr/local/bin/arctern");
    assert_eq!(sev, Severity::Warn);
    assert_eq!(msg, "mira control: zsh:1: permission denied: /usr/local/bin/arctern");
}

#[test]
fn proxied_paths_keep_their_query() {
    assert_eq!(
        proxy_target("/api/v1/peers/mira/proxy/api/v1/jobs", Some("limit=5")).as_deref(),
        Some("/api/v1/jobs?limit=5")
    );
    assert_eq!(proxy_target("/api/v1/jobs", None), None);
}

#[test]
fn a_failed_probe_marks_the_active_route() {
    let mut states = route_states(&routes());
    record_route_attempt(&mut states, 1, Ok(()), 10);
    on_probe_failed(&mut states, 1, "timeout", 20);
    assert_eq!(states[1].last_checked, Some(20));
    match &states[1].health {
        RouteHealth::Failed { last_error } => assert_eq!(last_error, "probe: timeout"),
        other => panic!("got {other:?}"),
    }
    assert!(matches!(states[0].health, RouteHealth::Unknown));
}

#[test]
fn a_rerank_moves_to_the_better_route_and_forgets_the_old_health() {
    let mut states = route_states(&routes());
    record_route_attempt(&mut states, 1, Ok(()), 10);
    let mut link = ParkedLink { active: 1, ticks: 3 };
    on_reranked(&mut link, &mut states, 0);
    assert_eq!(link.active, 0);
    assert_eq!(link.ticks, 3);
    assert!(matches!(states[1].health, RouteHealth::Unknown));
    assert_eq!(states[1].last_checked, Some(10));
}

#[test]
fn reachability_renders_with_rfc3339_times() {
    assert!(matches!(render_reachability(&PeerStatus::Connected), PeerReachability::Connected));
    match render_reachability(&PeerStatus::Failed { since: 60, last_error: "refused".into() }) {
        PeerReachability::Failed { since, last_error } => {
            assert_eq!(since, "1970-01-01T00:01:00Z");
            assert_eq!(last_error, "refused");
        }
        other => panic!("got {other:?}"),
    }
}

#[test]
fn a_connect_round_tries_routes_in_order_then_backs_off() {
    let mut c = Connecting { next_route: 0, failed_rounds: 0 };
    assert_eq!(begin_round(&mut c, 2), ConnectStep::Try(0));
    assert_eq!(after_attempt(&mut c, 2, false), ConnectStep::Try(1));
    assert_eq!(after_attempt(&mut c, 2, false), ConnectStep::FailedSleep(1));
    assert_eq!(c, Connecting { next_route: 0, failed_rounds: 1 });
    assert_eq!(begin_round(&mut c, 2), ConnectStep::Try(0));
    assert_eq!(after_attempt(&mut c, 2, false), ConnectStep::Try(1));
    assert_eq!(after_attempt(&mut c, 2, false), ConnectStep::FailedSleep(2));
    assert_eq!(begin_round(&mut c, 2), ConnectStep::Try(0));
    assert_eq!(after_attempt(&mut c, 2, true), ConnectStep::Park(0));
    assert_eq!(c.failed_rounds, 0);
    let mut none = Connecting { next_route: 0, failed_rounds: 6 };
    assert_eq!(begin_round(&mut none, 0), ConnectStep::FailedSleep(60));
}
