use arctern::config::{validate, validate_identifier, MAX_IDENTIFIER_LEN};
use arctern::defaults::resolve_defaults;
use arctern::grid::GridSpec;
use arctern::schema::{
    AllowedClient, Config, Defaults, FilesystemFilter, JobConfig, KeepRule, PeerConfig, PeerMode, PruneJobConfig,
    PruningConfig, PruningDefaults, PushJobConfig, PushTarget, RecvConfig, ReplicateMode, RouteConfig,
    SendFlagChoices, SendFlagsConfig, SnapJobConfig, SnapshotFilterConfig, SnapshottingConfig, SnapshottingDefaults,
};

const SEC: u128 = 1_000_000_000;
const MIN: u128 = 60 * SEC;

/// What loading does after the TOML is read: fill from defaults, then validate.
fn load(mut cfg: Config) -> Result<Config, String> {
    resolve_defaults(&mut cfg)?;
    validate(&cfg)?;
    Ok(cfg)
}

fn fs(path: &str) -> FilesystemFilter {
    FilesystemFilter { path: path.into(), recursive: false, exclude: vec![] }
}

fn snap_job(name: &str, interval: u128, prefix: &str, keep: Vec<KeepRule>) -> JobConfig {
    JobConfig::Snap(SnapJobConfig {
        name: name.into(),
        filesystems: vec![fs("tank")],
        snapshotting: SnapshottingConfig { interval, prefix: prefix.into() },
        pruning: PruningConfig { keep },
    })
}

fn with_jobs(jobs: Vec<JobConfig>) -> Config {
    Config { jobs, ..Config::default() }
}

fn min_ok() -> Config {
    with_jobs(vec![snap_job("x", SEC, "x_", vec![])])
}

fn grid_rule(grid: &str, regex: &str) -> KeepRule {
    KeepRule::Grid { grid: GridSpec::parse(grid).unwrap(), regex: regex.into() }
}

fn prune_job(filesystems: Vec<FilesystemFilter>, keep: Vec<KeepRule>, interval: u128) -> JobConfig {
    JobConfig::Prune(PruneJobConfig { name: "p".into(), filesystems, interval, pruning: PruningConfig { keep } })
}

fn peer(name: &str, ssh: Option<&str>, routes: Vec<RouteConfig>) -> PeerConfig {
    PeerConfig { name: name.into(), ssh_target: ssh.map(|s| s.into()), routes, mode: PeerMode::Auto, auto_interval: None }
}

fn route(name: &str, target: &str, auto: bool) -> RouteConfig {
    RouteConfig { name: name.into(), ssh_target: target.into(), auto }
}

fn push_job(peer: Option<&str>, targets: &[&str], root_fs: &str, filter: SnapshotFilterConfig) -> PushJobConfig {
    PushJobConfig {
        name: "p".into(),
        peer: peer.map(|s| s.into()),
        targets: targets.iter().map(|s| s.to_string()).collect(),
        interval: Some(5 * MIN),
        filesystems: vec![fs("tank/data")],
        target: PushTarget { root_fs: root_fs.into() },
        send: SendFlagChoices::default(),
        dry_run: false,
        snapshot_filter: filter,
        replicate: ReplicateMode::Latest,
        parallel: None,
        bandwidth_limit: None,
    }
}

fn prefix_filter(p: &str) -> SnapshotFilterConfig {
    SnapshotFilterConfig { prefix: Some(p.into()), regex: None }
}

fn push_ok() -> Config {
    Config {
        peers: vec![peer("home", Some("user@host"), vec![])],
        jobs: vec![JobConfig::Push(PushJobConfig {
            name: "push_to_server".into(),
            filesystems: vec![fs("okdata/data/home")],
            interval: Some(15 * MIN),
            ..push_job(Some("home"), &[], "okdata/backups/laptop", prefix_filter("zrepl_"))
        })],
        ..Config::default()
    }
}

fn client(identity: &str, operations: &[&str], root_fs: Option<&str>) -> AllowedClient {
    AllowedClient {
        identity: identity.into(),
        fingerprint: None,
        jobs: vec!["backup".into()],
        operations: operations.iter().map(|s| s.to_string()).collect(),
        root_fs: root_fs.map(|s| s.into()),
        recv: RecvConfig::default(),
    }
}

fn zrepl_defaults(grid: Option<&str>, protect: bool) -> Defaults {
    Defaults {
        prefix: Some("zrepl_".into()),
        snapshotting: Some(SnapshottingDefaults { interval: 15 * MIN }),
        pruning: grid.map(|g| PruningDefaults { grid: GridSpec::parse(g).unwrap(), protect_non_prefixed: protect }),
        send: SendFlagsConfig::default(),
    }
}

fn the_push(c: &Config) -> &PushJobConfig {
    match &c.jobs[0] {
        JobConfig::Push(p) => p,
        other => panic!("expected Push, got {other:?}"),
    }
}

fn the_snap(c: &Config) -> &SnapJobConfig {
    match &c.jobs[0] {
        JobConfig::Snap(s) => s,
        other => panic!("expected Snap, got {other:?}"),
    }
}

#[test]
fn minimal_valid_parses() {
    let c = load(min_ok()).unwrap();
    assert_eq!(c.jobs.len(), 1);
}

#[test]
fn empty_jobs_table_is_ok() {
    let c = load(Config::default()).unwrap();
    assert!(c.jobs.is_empty());
}

#[test]
fn duplicate_names_rejected() {
    let c = with_jobs(vec![snap_job("x", SEC, "x_", vec![]), snap_job("x", SEC, "x_", vec![])]);
    let msg = load(c).unwrap_err();
    assert!(msg.contains("duplicate"));
}

#[test]
fn ordinary_job_names_are_accepted() {
    for name in ["push_to_mira", "snapshot_arch0", "nas-remote", "a.b:c"] {
        load(with_jobs(vec![snap_job(name, SEC, "x_", vec![])])).unwrap_or_else(|e| panic!("{name:?} rejected: {e}"));
    }
}

#[test]
fn job_names_that_break_the_dispatcher_or_zfs_are_rejected() {
    for name in ["two words", "-rf", "a/b", "a@b", "a#b", ""] {
        assert!(load(with_jobs(vec![snap_job(name, SEC, "x_", vec![])])).is_err(), "{name:?} should be rejected");
    }
}

#[test]
fn the_cursor_scheme_markers_are_rejected_in_names() {
    let err = load(with_jobs(vec![snap_job("x_J_y", SEC, "x_", vec![])])).unwrap_err();
    assert!(err.contains("_J_"), "got: {err}");
    assert!(load(with_jobs(vec![snap_job("x_P_y", SEC, "x_", vec![])])).is_err());
}

#[test]
fn over_long_names_are_rejected() {
    let long = "a".repeat(MAX_IDENTIFIER_LEN + 1);
    assert!(load(with_jobs(vec![snap_job(&long, SEC, "x_", vec![])])).is_err());
    assert!(load(with_jobs(vec![snap_job(&"a".repeat(MAX_IDENTIFIER_LEN), SEC, "x_", vec![])])).is_ok());
}

#[test]
fn identifiers_are_checked_alone() {
    assert!(validate_identifier("mira").is_ok());
    assert!(validate_identifier("a b").is_err());
    assert!(validate_identifier("").is_err());
}

fn keep() -> Vec<KeepRule> {
    vec![grid_rule("1x1d", "^x_")]
}

#[test]
fn a_well_formed_prune_job_is_accepted() {
    load(with_jobs(vec![prune_job(vec![fs("tank")], keep(), 60 * MIN)])).expect("valid prune job");
}

#[test]
fn prune_jobs_that_would_be_silent_no_ops_are_rejected() {
    assert!(load(with_jobs(vec![prune_job(vec![], keep(), 60 * MIN)])).is_err(), "no filesystems");
    assert!(load(with_jobs(vec![prune_job(vec![fs("tank")], vec![], 60 * MIN)])).is_err(), "no keep rules");
}

#[test]
fn a_zero_prune_interval_is_rejected() {
    assert!(load(with_jobs(vec![prune_job(vec![fs("tank")], keep(), 0)])).is_err());
}

fn snap_with_grid(interval: u128, grid: &str) -> Config {
    with_jobs(vec![snap_job("x", interval, "x_", vec![grid_rule(grid, "^x_")])])
}

#[test]
fn a_first_bucket_longer_than_the_interval_needs_keep_all() {
    let err = load(snap_with_grid(15 * MIN, "24x1h | 14x1d")).unwrap_err();
    assert!(err.contains("keep=all"), "got: {err}");
    assert!(err.contains("1h"), "got: {err}");
    load(snap_with_grid(15 * MIN, "1x1h(keep=all) | 24x1h")).expect("keep=all lead");
    load(snap_with_grid(15 * MIN, "4x15m | 24x1h")).expect("bucket equals interval");
    load(snap_with_grid(240 * MIN, "4x15m | 24x1h")).expect("bucket shorter than interval");
}

#[test]
fn the_first_bucket_message_is_exact() {
    let err = load(snap_with_grid(15 * MIN, "24x1h | 14x1d")).unwrap_err();
    assert_eq!(
        err,
        "jobs[0].pruning.keep[0].grid: the first bucket (1h) is longer than the snapshot interval (15m) and is not \
         keep=all, so every new snapshot would be destroyed as soon as it is taken; start the grid with \
         `1x1h(keep=all)` or a bucket no longer than the interval"
    );
}

#[test]
fn duplicate_allowed_client_identities_rejected() {
    let c = Config {
        allowed_clients: vec![
            client("laptop", &["recv"], Some("tank/backups")),
            client("laptop", &["recv", "control"], Some("tank/backups")),
        ],
        ..Config::default()
    };
    let err = load(c).unwrap_err();
    assert!(err.contains("duplicate identity"), "got: {err}");
}

#[test]
fn default_pruning_follows_the_jobs_own_prefix() {
    let c = Config {
        defaults: Defaults {
            prefix: Some("arctern_".into()),
            ..zrepl_defaults(Some("1x1h(keep=all) | 24x1h"), true)
        },
        jobs: vec![JobConfig::Snap(SnapJobConfig {
            name: "myapp".into(),
            filesystems: vec![fs("tank/myapp")],
            snapshotting: SnapshottingConfig { interval: 15 * MIN, prefix: "myapp_".into() },
            pruning: PruningConfig::default(),
        })],
        ..Config::default()
    };
    let c = load(c).expect("parses");
    let job = the_snap(&c);
    assert!(!job.pruning.keep.is_empty());
    for rule in &job.pruning.keep {
        let regex = match rule {
            KeepRule::Grid { regex, .. } | KeepRule::Regex { regex, .. } => regex,
        };
        assert!(regex.contains("myapp_"), "rule aimed at the wrong prefix: {regex}");
        assert!(!regex.contains("arctern_"), "rule still aimed at the defaults prefix: {regex}");
    }
}

#[test]
fn a_standalone_prune_job_still_uses_the_defaults_prefix() {
    let c = Config {
        defaults: Defaults {
            prefix: Some("arctern_".into()),
            snapshotting: None,
            pruning: Some(PruningDefaults { grid: GridSpec::parse("24x1h").unwrap(), protect_non_prefixed: true }),
            send: SendFlagsConfig::default(),
        },
        jobs: vec![prune_job(vec![fs("tank")], vec![], 60 * MIN)],
        ..Config::default()
    };
    let c = load(c).expect("parses");
    let JobConfig::Prune(job) = &c.jobs[0] else { panic!("expected a prune job") };
    let KeepRule::Grid { regex, .. } = &job.pruning.keep[0] else { panic!("expected a grid rule") };
    assert!(regex.contains("arctern_"), "got: {regex}");
}

#[test]
fn exclude_without_recursive_rejected() {
    let mut c = min_ok();
    if let JobConfig::Snap(s) = &mut c.jobs[0] {
        s.filesystems[0].exclude = vec!["tank/foo".into()];
    }
    assert!(load(c).is_err());
}

#[test]
fn exclude_outside_subtree_rejected() {
    let mut c = min_ok();
    if let JobConfig::Snap(s) = &mut c.jobs[0] {
        s.filesystems[0] = FilesystemFilter { path: "tank/data".into(), recursive: true, exclude: vec!["other/foo".into()] };
    }
    assert!(load(c).is_err());
}

#[test]
fn bad_regex_rejected_at_validate() {
    let c = with_jobs(vec![snap_job("x", SEC, "x_", vec![KeepRule::Regex { regex: "(".into(), negate: false }])]);
    assert!(load(c).is_err());
}

#[test]
fn minimal_push_parses() {
    let c = load(push_ok()).unwrap();
    let p = the_push(&c);
    assert_eq!(p.name, "push_to_server");
    assert!(p.peer.is_none());
    assert_eq!(p.targets, vec!["home".to_string()]);
    assert_eq!(p.target.root_fs, "okdata/backups/laptop");
    assert_eq!(p.snapshot_filter().prefix.as_deref(), Some("zrepl_"));
}

#[test]
fn allowed_client_with_recv_requires_root_fs() {
    let c = Config { allowed_clients: vec![client("laptop", &["recv"], None)], ..Config::default() };
    let msg = load(c).unwrap_err();
    assert!(msg.contains("allowed_clients[0].root_fs"), "got: {msg}");
}

#[test]
fn allowed_client_with_control_requires_root_fs() {
    let c = Config { allowed_clients: vec![client("laptop", &["control"], None)], ..Config::default() };
    let msg = load(c).unwrap_err();
    assert!(msg.contains("allowed_clients[0].root_fs"), "got: {msg}");
}

#[test]
fn allowed_client_with_root_fs_parses() {
    let c = Config {
        allowed_clients: vec![client("laptop", &["control", "recv"], Some("tank/backups/laptop"))],
        ..Config::default()
    };
    let c = load(c).unwrap();
    assert_eq!(c.allowed_clients[0].root_fs.as_deref(), Some("tank/backups/laptop"));
}

#[test]
fn push_dry_run_defaults_false() {
    let c = load(push_ok()).unwrap();
    assert!(!the_push(&c).dry_run);
}

#[test]
fn push_dry_run_can_be_enabled() {
    let mut c = push_ok();
    if let JobConfig::Push(p) = &mut c.jobs[0] {
        p.dry_run = true;
    }
    let c = load(c).unwrap();
    assert!(the_push(&c).dry_run);
}

#[test]
fn allowed_client_root_fs_must_be_relative_dataset_path() {
    let c = Config {
        allowed_clients: vec![client("laptop", &["recv"], Some("/tank/backups/laptop"))],
        ..Config::default()
    };
    let msg = load(c).unwrap_err();
    assert!(msg.contains("must not start or end"), "got: {msg}");
}

#[test]
fn push_send_flags_default_true_when_omitted() {
    let c = load(push_ok()).unwrap();
    let p = the_push(&c).send_flags();
    assert!(p.encrypted);
    assert!(p.embedded_data);
    assert!(p.compressed);
    assert!(p.large_blocks);
}

#[test]
fn push_send_flags_can_be_overridden() {
    let mut c = push_ok();
    if let JobConfig::Push(p) = &mut c.jobs[0] {
        p.send.encrypted = Some(false);
    }
    let c = load(c).unwrap();
    assert!(!the_push(&c).send_flags().encrypted);
    assert!(the_push(&c).send_flags().embedded_data);
}

#[test]
fn defaults_send_flips_a_flag_for_jobs_that_leave_it_unset() {
    let mut c = push_ok();
    c.defaults.send = SendFlagsConfig { encrypted: false, embedded_data: true, compressed: true, large_blocks: true };
    let c = load(c).unwrap();
    let f = the_push(&c).send_flags();
    assert!(!f.encrypted);
    assert!(f.embedded_data && f.compressed && f.large_blocks);
    assert_eq!(the_push(&c).send.encrypted, Some(false));

    let mut c = push_ok();
    c.defaults.send = SendFlagsConfig { encrypted: false, embedded_data: false, compressed: true, large_blocks: true };
    if let JobConfig::Push(p) = &mut c.jobs[0] {
        p.send.encrypted = Some(true);
    }
    let c = load(c).unwrap();
    let f = the_push(&c).send_flags();
    assert!(f.encrypted, "a flag the job sets stays as set");
    assert!(!f.embedded_data);
}

#[test]
fn defaults_fill_in_snap_snapshotting_and_pruning() {
    let c = Config {
        defaults: zrepl_defaults(Some("4x15m | 24x1h"), true),
        jobs: vec![snap_job("minimal", 0, "", vec![])],
        ..Config::default()
    };
    let c = load(c).unwrap();
    let snap = the_snap(&c);
    assert_eq!(snap.snapshotting().interval, 15 * MIN);
    assert_eq!(snap.snapshotting().prefix, "zrepl_");
    let keep = &snap.pruning().keep;
    assert_eq!(keep.len(), 2);
    assert!(matches!(keep[0], KeepRule::Grid { .. }));
    assert!(matches!(keep[1], KeepRule::Regex { negate: true, .. }));
}

#[test]
fn defaults_fill_in_push_snapshot_filter() {
    let c = Config {
        defaults: Defaults { prefix: Some("zrepl_".into()), ..Defaults::default() },
        peers: vec![peer("home", Some("user@host"), vec![])],
        jobs: vec![JobConfig::Push(push_job(Some("home"), &[], "okdata/backups/laptop", SnapshotFilterConfig::default()))],
        ..Config::default()
    };
    let c = load(c).unwrap();
    assert_eq!(the_push(&c).snapshot_filter().prefix.as_deref(), Some("zrepl_"));
}

#[test]
fn defaults_protect_non_prefixed_false_drops_negate_rule() {
    let c = Config {
        defaults: zrepl_defaults(Some("4x15m"), false),
        jobs: vec![snap_job("x", 0, "", vec![])],
        ..Config::default()
    };
    let c = load(c).unwrap();
    assert_eq!(the_snap(&c).pruning().keep.len(), 1);
}

#[test]
fn push_multi_target_parses() {
    let c = Config {
        defaults: Defaults { prefix: Some("zrepl_".into()), ..Defaults::default() },
        peers: vec![peer("home", Some("u@h1"), vec![]), peer("remote", Some("u@h2"), vec![])],
        jobs: vec![JobConfig::Push(push_job(None, &["home", "remote"], "okdata/backups/laptop", SnapshotFilterConfig::default()))],
        ..Config::default()
    };
    let c = load(c).unwrap();
    assert_eq!(the_push(&c).targets, vec!["home".to_string(), "remote".to_string()]);
}

#[test]
fn push_target_referencing_unknown_peer_rejected() {
    let c = Config {
        defaults: Defaults { prefix: Some("zrepl_".into()), ..Defaults::default() },
        peers: vec![peer("home", Some("u@h1"), vec![])],
        jobs: vec![JobConfig::Push(push_job(None, &["hoem"], "okdata/backups/laptop", SnapshotFilterConfig::default()))],
        ..Config::default()
    };
    let err = load(c).unwrap_err();
    assert!(err.contains("does not match any [[peers]]"), "got: {err}");
}

#[test]
fn duplicate_peer_names_rejected() {
    let c = Config { peers: vec![peer("home", Some("u@h1"), vec![]), peer("home", Some("u@h2"), vec![])], ..Config::default() };
    let err = load(c).unwrap_err();
    assert!(err.contains("duplicate"), "got: {err}");
}

#[test]
fn peer_shorthand_normalises_to_single_route() {
    let c = load(Config { peers: vec![peer("home", Some("u@h1"), vec![])], ..Config::default() }).unwrap();
    assert!(c.peers[0].ssh_target.is_none());
    assert_eq!(c.peers[0].routes.len(), 1);
    assert_eq!(c.peers[0].routes[0].name, "default");
    assert_eq!(c.peers[0].routes[0].ssh_target, "u@h1");
    assert!(c.peers[0].routes[0].auto);
}

#[test]
fn peer_routes_parse_in_order_with_auto_flag() {
    let mut p = peer("mira", None, vec![route("lan", "arctern-mira-lan", true), route("wg", "arctern-mira-wg", false)]);
    p.auto_interval = Some(86_400 * SEC);
    let c = load(Config { peers: vec![p], ..Config::default() }).unwrap();
    let p = &c.peers[0];
    assert_eq!(p.routes.len(), 2);
    assert_eq!(p.routes[0].name, "lan");
    assert!(p.routes[0].auto);
    assert_eq!(p.routes[1].name, "wg");
    assert!(!p.routes[1].auto);
}

#[test]
fn peer_ssh_target_and_routes_both_rejected() {
    let c = Config { peers: vec![peer("mira", Some("u@h"), vec![route("lan", "u@h2", true)])], ..Config::default() };
    let err = load(c).unwrap_err();
    assert!(err.contains("mutually exclusive"), "got: {err}");
}

#[test]
fn peer_without_connection_rejected() {
    let c = Config { peers: vec![peer("mira", None, vec![])], ..Config::default() };
    let err = load(c).unwrap_err();
    assert!(err.contains("missing connection"), "got: {err}");
}

#[test]
fn peer_duplicate_route_names_rejected() {
    let c = Config { peers: vec![peer("mira", None, vec![route("lan", "a", true), route("lan", "b", true)])], ..Config::default() };
    let err = load(c).unwrap_err();
    assert!(err.contains("duplicate route"), "got: {err}");
}

#[test]
fn peer_with_empty_ssh_target_rejected() {
    let c = Config { peers: vec![peer("home", Some(""), vec![])], ..Config::default() };
    let err = load(c).unwrap_err();
    assert!(err.contains("ssh_target"), "got: {err}");
}

#[test]
fn push_peer_and_targets_both_given_rejected() {
    let c = Config {
        defaults: Defaults { prefix: Some("zrepl_".into()), ..Defaults::default() },
        jobs: vec![JobConfig::Push(push_job(Some("home"), &["home"], "okdata/backups/laptop", SnapshotFilterConfig::default()))],
        ..Config::default()
    };
    let err = load(c).unwrap_err();
    assert!(err.contains("mutually exclusive"), "got: {err}");
}

#[test]
fn push_neither_peer_nor_targets_rejected() {
    let c = Config {
        defaults: Defaults { prefix: Some("zrepl_".into()), ..Defaults::default() },
        jobs: vec![JobConfig::Push(push_job(None, &[], "okdata/backups/laptop", SnapshotFilterConfig::default()))],
        ..Config::default()
    };
    let err = load(c).unwrap_err();
    assert!(err.contains("target peer"), "got: {err}");
}

#[test]
fn missing_snapshotting_without_defaults_errors() {
    let msg = load(with_jobs(vec![snap_job("x", 0, "", vec![])])).unwrap_err();
    assert!(msg.contains("snapshotting"), "got: {msg}");
}

fn push_alone(root_fs: &str, filter: SnapshotFilterConfig) -> Config {
    with_jobs(vec![JobConfig::Push(push_job(Some("p"), &[], root_fs, filter))])
}

#[test]
fn push_filter_neither_prefix_nor_regex_rejected() {
    let err = load(push_alone("tank/sink", SnapshotFilterConfig::default())).unwrap_err();
    assert!(err.contains("exactly one"), "got: {err}");
}

#[test]
fn push_filter_both_prefix_and_regex_rejected() {
    let f = SnapshotFilterConfig { prefix: Some("zrepl_".into()), regex: Some("^zrepl_.*".into()) };
    let err = load(push_alone("tank/sink", f)).unwrap_err();
    assert!(err.contains("mutually exclusive"), "got: {err}");
}

#[test]
fn push_bad_regex_rejected() {
    let f = SnapshotFilterConfig { prefix: None, regex: Some("(".into()) };
    assert!(load(push_alone("tank/sink", f)).is_err());
}

#[test]
fn push_bad_root_fs_rejected() {
    for root in &["", "/tank", "tank/"] {
        let err = load(push_alone(root, prefix_filter("x_"))).unwrap_err();
        assert!(err.contains("root_fs"), "expected root_fs error for {root:?}");
    }
}

#[test]
fn invalid_filesystem_paths_are_rejected() {
    let mut c = min_ok();
    if let JobConfig::Snap(s) = &mut c.jobs[0] {
        s.filesystems[0].path = "tank/data//escape".into();
    }
    let err = load(c).unwrap_err();
    assert!(err.contains("invalid dataset name"), "got: {err}");
}

#[test]
fn invalid_filesystem_excludes_are_rejected() {
    let mut job = push_job(Some("p"), &[], "tank/sink", prefix_filter("x_"));
    job.filesystems = vec![FilesystemFilter {
        path: "tank/data".into(),
        recursive: true,
        exclude: vec!["tank/data#bookmark".into()],
    }];
    let err = load(with_jobs(vec![JobConfig::Push(job)])).unwrap_err();
    assert!(err.contains("invalid dataset name"), "got: {err}");
}

#[test]
fn push_missing_peer_rejected() {
    let c = with_jobs(vec![JobConfig::Push(push_job(None, &[], "tank/sink", prefix_filter("x_")))]);
    assert!(load(c).is_err());
}

#[test]
fn push_filter_as_regex_str_escapes_prefix() {
    let f = SnapshotFilterConfig { prefix: Some("zrepl_".into()), regex: None };
    assert_eq!(f.as_regex_str().as_deref(), Some("^zrepl_"));
    let f = SnapshotFilterConfig { prefix: Some("a.b".into()), regex: None };
    assert_eq!(f.as_regex_str().as_deref(), Some("^a\\.b"));
}

#[test]
fn an_unset_snapshotting_block_is_recognised() {
    assert!(SnapshottingConfig::default().is_unset());
    assert!(!SnapshottingConfig { interval: SEC, prefix: String::new() }.is_unset());
    assert!(arctern::schema::yes());
}

#[test]
fn a_refused_peer_leaves_the_rest_as_the_walk_found_it() {
    let mut c = Config {
        peers: vec![
            peer("a", Some("u@a"), vec![]),
            peer("b", Some("u@b"), vec![route("lan", "u@b2", true)]),
            peer("c", Some("u@c"), vec![]),
        ],
        ..min_ok()
    };
    let err = resolve_defaults(&mut c).unwrap_err();
    assert!(err.starts_with("peers[1]:"), "got: {err}");
    assert!(c.peers[0].ssh_target.is_none());
    assert_eq!(c.peers[0].routes.len(), 1);
    assert_eq!(c.peers[0].routes[0].ssh_target, "u@a");
    assert!(c.peers[1].ssh_target.is_none());
    assert_eq!(c.peers[1].routes.len(), 1);
    assert_eq!(c.peers[2].ssh_target.as_deref(), Some("u@c"));
    assert!(c.peers[2].routes.is_empty());
    assert_eq!(the_snap(&c).snapshotting.interval, SEC);
}

#[test]
fn a_refused_job_keeps_what_was_filled_before_the_refusal() {
    let d = Defaults { prefix: None, ..zrepl_defaults(None, false) };
    let mut c = Config {
        defaults: d,
        jobs: vec![snap_job("a", 0, "a_", vec![]), snap_job("b", 0, "", vec![]), snap_job("c", 0, "", vec![])],
        ..Config::default()
    };
    let err = resolve_defaults(&mut c).unwrap_err();
    assert_eq!(
        err,
        "jobs[1].snapshotting.prefix: missing — set [defaults.prefix] or [jobs.snapshotting].prefix"
    );
    let interval = |j: &JobConfig| match j {
        JobConfig::Snap(s) => s.snapshotting.interval,
        other => panic!("expected Snap, got {other:?}"),
    };
    assert_eq!(interval(&c.jobs[0]), 15 * MIN);
    assert_eq!(interval(&c.jobs[1]), 15 * MIN);
    assert_eq!(interval(&c.jobs[2]), 0);
}
