use arctern::auth::SessionTable;
use arctern::token::{
    check_state_dir, check_token_file, decode_token, random_id, session_cookie_name, session_cookie_value,
    session_id_of, token_file_text, token_matches, FileRefusal, FileRefusalKind, ADMIN_TOKEN_FILE,
};

fn seq32() -> [u8; 32] {
    let mut t = [0u8; 32];
    for (i, b) in t.iter_mut().enumerate() {
        *b = i as u8;
    }
    t
}

#[test]
fn cookie_namespace_is_stable_and_daemon_specific() {
    let first = session_cookie_name(&[1; 32]);
    let same = session_cookie_name(&[1; 32]);
    let second = session_cookie_name(&[2; 32]);
    assert_eq!(first, same);
    assert_ne!(first, second);
    assert!(first.starts_with("arctern_session_"));
}

#[test]
fn the_cookie_name_is_the_prefix_and_nine_digest_bytes() {
    assert_eq!(session_cookie_name(&[1; 32]), "arctern_session_cs1uhCLEB_tt");
    assert_eq!(session_cookie_name(&[2; 32]), "arctern_session_dYd7tB05O1-4");
}

#[test]
fn a_token_file_is_one_line_of_url_safe_base64() {
    assert_eq!(token_file_text(&[7; 32]), "BwcHBwcHBwcHBwcHBwcHBwcHBwcHBwcHBwcHBwcHBwc\n");
    assert_eq!(token_file_text(&seq32()), "AAECAwQFBgcICQoLDA0ODxAREhMUFRYXGBkaGxwdHh8\n");
    assert_eq!(ADMIN_TOKEN_FILE, "admin.token");
}

#[test]
fn a_written_token_reads_back_and_logs_in() {
    let t = seq32();
    let text = token_file_text(&t);
    assert_eq!(decode_token("/state/admin.token", &text).unwrap(), t);
    assert!(token_matches(&t, text.trim()));
    assert!(token_matches(&t, &text));
    assert!(token_matches(&t, "  AAECAwQFBgcICQoLDA0ODxAREhMUFRYXGBkaGxwdHh8 \n"));
}

#[test]
fn a_wrong_or_malformed_login_token_is_refused() {
    let t = seq32();
    assert!(!token_matches(&t, "BwcHBwcHBwcHBwcHBwcHBwcHBwcHBwcHBwcHBwcHBwc"));
    assert!(!token_matches(&t, "AAEC"));
    assert!(!token_matches(&t, "not base64!"));
    assert!(!token_matches(&t, ""));
}

#[test]
fn a_token_file_that_does_not_decode_to_32_bytes_is_invalid_data() {
    let e = decode_token("/s/admin.token", "AAECAw\n").unwrap_err();
    assert_eq!(
        e,
        FileRefusal {
            kind: FileRefusalKind::InvalidData,
            message: "admin token /s/admin.token must decode to 32 bytes".into(),
        }
    );
    let e = decode_token("/s/admin.token", "!!!!").unwrap_err();
    assert_eq!(e.kind, FileRefusalKind::InvalidData);
    assert_eq!(e.message, "decode admin token /s/admin.token: Invalid symbol 33, offset 0.");
}

#[test]
fn token_file_rejects_group_or_other_access() {
    assert!(check_token_file("/s/admin.token", true, 1000, 0o600, 1000).is_ok());
    let e = check_token_file("/s/admin.token", true, 1000, 0o644, 1000).unwrap_err();
    assert_eq!(e.kind, FileRefusalKind::PermissionDenied);
    assert_eq!(e.message, "admin token /s/admin.token must be owned by uid 1000 and not accessible by group/other");
    assert_eq!(check_token_file("/s/t", true, 0, 0o600, 1000).unwrap_err().kind, FileRefusalKind::PermissionDenied);
    let e = check_token_file("/s/t", false, 1000, 0o600, 1000).unwrap_err();
    assert_eq!(e.kind, FileRefusalKind::InvalidData);
    assert_eq!(e.message, "admin token /s/t is not a regular file");
}

#[test]
fn the_state_directory_must_be_private_to_the_daemon() {
    assert!(check_state_dir("/var/lib/arctern", true, 0, 0o700, 0).is_ok());
    assert!(check_state_dir("/var/lib/arctern", true, 0, 0o755, 0).is_ok());
    let e = check_state_dir("/var/lib/arctern", true, 0, 0o775, 0).unwrap_err();
    assert_eq!(e.kind, FileRefusalKind::PermissionDenied);
    assert_eq!(e.message, "state directory /var/lib/arctern must be owned by uid 0 and not writable by group/other");
    assert!(check_state_dir("/d", true, 0, 0o702, 0).is_err());
    assert!(check_state_dir("/d", false, 0, 0o700, 0).is_err());
    assert!(check_state_dir("/d", true, 5, 0o700, 0).is_err());
}

#[test]
fn a_session_cookie_carries_its_session_id() {
    let id = seq32();
    let v = session_cookie_value(&id);
    assert_eq!(v, "AAECAwQFBgcICQoLDA0ODxAREhMUFRYXGBkaGxwdHh8");
    assert_eq!(session_id_of(&v), Some(id));
    assert_eq!(session_id_of("AAEC"), None);
    assert_eq!(session_id_of("%%"), None);
}

#[test]
fn a_login_opens_a_fresh_live_session() {
    let a = random_id().unwrap();
    let b = random_id().unwrap();
    assert_ne!(a, b);
    let mut t = SessionTable::new();
    let id = t.create_session(1_000).unwrap();
    assert!(t.is_valid(&id, 2_000));
    t.revoke(&id);
    assert!(!t.is_valid(&id, 2_000));
}
