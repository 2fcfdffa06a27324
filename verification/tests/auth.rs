use arctern::auth::{
    csrf_check, loopback_host_check, same_uid_check, PeerCredentials, SessionTable, MAX_SESSIONS,
    SESSION_TTL_NANOS,
};

#[test]
fn cross_site_post_is_blocked() {
    let err = csrf_check("POST", Some("cross-site")).unwrap_err();
    assert_eq!(err.error, "cross_origin");
    assert_eq!(err.message, "cross-origin POST blocked (Sec-Fetch-Site: cross-site)");
}

#[test]
fn same_site_post_is_blocked() {
    assert!(csrf_check("POST", Some("same-site")).is_err());
}

#[test]
fn same_origin_authenticated_post_passes_csrf() {
    assert!(csrf_check("POST", Some("same-origin")).is_ok());
    assert!(csrf_check("DELETE", Some("none")).is_ok());
}

#[test]
fn reads_and_non_browser_clients_pass_the_csrf_guard() {
    assert!(csrf_check("GET", Some("cross-site")).is_ok());
    assert!(csrf_check("POST", None).is_ok());
    assert!(csrf_check("PATCH", Some("")).is_err());
}

#[test]
fn rebound_host_is_blocked_even_for_get() {
    let err = loopback_host_check(Some("attacker.example:7878")).unwrap_err();
    assert_eq!(err.error, "bad_host");
    assert_eq!(err.message, "host \"attacker.example:7878\" is not a loopback name");
}

#[test]
fn loopback_hosts_are_allowed() {
    for host in ["127.0.0.1:7878", "127.0.0.1", "localhost:7878", "localhost", "[::1]:7878"] {
        assert!(loopback_host_check(Some(host)).is_ok(), "host {host}");
    }
    assert!(loopback_host_check(None).is_ok());
    assert!(loopback_host_check(Some("[::2]:7878")).is_err());
    assert!(loopback_host_check(Some("localhost.evil:80")).is_err());
}

#[test]
fn only_the_daemons_own_user_may_use_the_socket() {
    assert!(same_uid_check(&PeerCredentials { uid: 1000 }, 1000).is_ok());
    let err = same_uid_check(&PeerCredentials { uid: 0 }, 1000).unwrap_err();
    assert_eq!(err.error, "peer_uid_mismatch");
    assert_eq!(err.message, "peer uid 0 is not allowed (daemon uid 1000)");
}

#[test]
fn login_session_and_logout_flow() {
    let mut t = SessionTable::new();
    let id = [7u8; 32];
    assert!(!t.is_valid(&id, 0));
    t.create(id, 100);
    assert!(t.is_valid(&id, 100));
    assert!(t.is_valid(&id, 100 + SESSION_TTL_NANOS - 1));
    assert!(!t.is_valid(&id, 100 + SESSION_TTL_NANOS));
    assert!(!t.is_valid(&[8u8; 32], 100));
    t.revoke(&id);
    assert!(!t.is_valid(&id, 100));
}

#[test]
fn a_full_table_evicts_the_session_closest_to_expiry() {
    let mut t = SessionTable::new();
    for i in 0..MAX_SESSIONS {
        t.create([i as u8; 32], i as u64);
    }
    assert!(t.is_valid(&[0u8; 32], 200));
    t.create([200u8; 32], 200);
    assert!(!t.is_valid(&[0u8; 32], 200));
    assert!(t.is_valid(&[1u8; 32], 200));
    assert!(t.is_valid(&[200u8; 32], 200));
}

#[test]
fn expired_sessions_are_dropped_at_the_next_login() {
    let mut t = SessionTable::new();
    t.create([1u8; 32], 0);
    t.create([2u8; 32], SESSION_TTL_NANOS + 5);
    assert!(!t.is_valid(&[1u8; 32], SESSION_TTL_NANOS + 5));
    assert!(t.is_valid(&[2u8; 32], SESSION_TTL_NANOS + 5));
}
