use arctern::paths::{default_socket_path, resolve_socket_path, state_dir, DEFAULT_STATE_DIR};
use arctern::schema::Config;

#[test]
fn socket_path_prefers_the_flag_then_the_config() {
    let env = Some("/run/user/1000");
    assert_eq!(resolve_socket_path(Some("/tmp/flag.sock"), Some("/tmp/cfg.sock"), env), "/tmp/flag.sock");
    assert_eq!(resolve_socket_path(None, Some("/tmp/cfg.sock"), env), "/tmp/cfg.sock");
    assert_eq!(resolve_socket_path(None, None, env), default_socket_path(env));
}

#[test]
fn the_runtime_directory_holds_the_default_socket() {
    assert_eq!(default_socket_path(Some("/run/user/1000")), "/run/user/1000/arctern.sock");
    assert_eq!(default_socket_path(Some("/run/user/1000/")), "/run/user/1000/arctern.sock");
    assert_eq!(default_socket_path(Some("")), "/run/arctern.sock");
    assert_eq!(default_socket_path(None), "/run/arctern.sock");
}

#[test]
fn the_state_directory_defaults_to_var_lib() {
    assert_eq!(state_dir(&Config::default()), DEFAULT_STATE_DIR);
    assert_eq!(DEFAULT_STATE_DIR, "/var/lib/arctern");
    let c = Config { state_dir: Some("/srv/arctern".into()), ..Config::default() };
    assert_eq!(state_dir(&c), "/srv/arctern");
}
