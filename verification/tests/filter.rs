use arctern::filter::{resolve_all, unmatched, map_to_filters, UnmatchedFilters};
use arctern::schema::FilesystemFilter;

fn f(path: &str, recursive: bool, exclude: &[&str]) -> FilesystemFilter {
    FilesystemFilter {
        path: path.into(),
        recursive,
        exclude: exclude.iter().map(|s| (*s).to_string()).collect(),
    }
}

#[test]
fn non_recursive_exact_match() {
    let f = f("tank/data", false, &[]);
    let cands = vec!["tank", "tank/data", "tank/data/home"];
    assert_eq!(f.resolve(&cands), vec!["tank/data"]);
}

#[test]
fn recursive_includes_descendants() {
    let f = f("tank/data", true, &[]);
    let cands = vec!["tank", "tank/data", "tank/data/home", "tank/other"];
    assert_eq!(f.resolve(&cands), vec!["tank/data", "tank/data/home"]);
}

#[test]
fn recursive_excludes_root_keeps_descendants() {
    let f = f("tank/data", true, &["tank/data"]);
    let cands = vec!["tank/data", "tank/data/home", "tank/data/var"];
    assert_eq!(f.resolve(&cands), vec!["tank/data/home", "tank/data/var"]);
}

#[test]
fn recursive_excludes_subtree() {
    let f = f("tank", true, &["tank/data"]);
    let cands = vec!["tank", "tank/data", "tank/data/home", "tank/var"];
    assert_eq!(f.resolve(&cands), vec!["tank", "tank/var"]);
}

#[test]
fn zrepl_tree_pattern_with_excludes_translates() {
    let f = f("novafs/arch0", true, &["novafs/arch0", "novafs/arch0/data"]);
    let cands = vec![
        "novafs",
        "novafs/arch0",
        "novafs/arch0/data",
        "novafs/arch0/data/home",
        "novafs/arch0/data/root",
        "novafs/arch0/root",
        "novafs/arch0/vm",
        "novafs/arch0/docker",
    ];
    assert_eq!(
        f.resolve(&cands),
        vec!["novafs/arch0/root", "novafs/arch0/vm", "novafs/arch0/docker"],
    );
}

#[test]
fn resolve_all_dedupes() {
    let f1 = f("tank/data", false, &[]);
    let f2 = f("tank", true, &[]);
    let cands = vec!["tank", "tank/data", "tank/var"];
    let out = resolve_all(&[f1, f2], &cands);
    assert_eq!(out.len(), 3);
    assert!(out.contains(&"tank/data"));
}

#[test]
fn resolve_all_keeps_first_seen_order() {
    let f1 = f("tank/var", false, &[]);
    let f2 = f("tank", true, &[]);
    let cands = vec!["tank", "tank/data", "tank/var"];
    assert_eq!(resolve_all(&[f1, f2], &cands), vec!["tank/var", "tank", "tank/data"]);
}

#[test]
fn a_similar_prefix_is_not_a_descendant() {
    let f = f("tank/data", true, &[]);
    let cands = vec!["tank/data2", "tank/data/x"];
    assert_eq!(f.resolve(&cands), vec!["tank/data/x"]);
}

#[test]
fn unmatched_lists_filters_selecting_nothing() {
    let filters = vec![f("tank/data", false, &[]), f("gone/pool", true, &[])];
    let cands = vec!["tank", "tank/data"];
    assert_eq!(unmatched(&filters, &cands), vec!["gone/pool".to_string()]);
}

#[test]
fn unmatched_filters_reports_once_then_stays_quiet() {
    let filters = vec![f("tank/gone", false, &[])];
    let cands = vec!["tank", "tank/data"];
    let mut w = UnmatchedFilters::new();
    assert_eq!(w.take_change(&filters, &cands), Some(vec!["tank/gone".to_string()]));
    assert_eq!(w.take_change(&filters, &cands), None);
    assert_eq!(w.take_change(&filters, &cands), None);
}

#[test]
fn unmatched_filters_announces_recovery_after_a_rename() {
    let filters = vec![f("tank/renamed", false, &[])];
    let mut w = UnmatchedFilters::new();
    assert_eq!(
        w.take_change(&filters, &["tank", "tank/old"]),
        Some(vec!["tank/renamed".to_string()])
    );
    assert_eq!(w.take_change(&filters, &["tank", "tank/renamed"]), Some(vec![]));
    assert_eq!(w.take_change(&filters, &["tank", "tank/renamed"]), None);
}

#[test]
fn unmatched_filters_reports_again_when_the_set_grows() {
    let filters = vec![f("tank/a", false, &[]), f("tank/b", false, &[])];
    let mut w = UnmatchedFilters::new();
    assert_eq!(w.take_change(&filters, &["tank/b"]), Some(vec!["tank/a".to_string()]));
    assert_eq!(
        w.take_change(&filters, &["tank"]),
        Some(vec!["tank/a".to_string(), "tank/b".to_string()])
    );
}

#[test]
fn a_healthy_config_never_reports() {
    let filters = vec![f("tank", true, &[])];
    let mut w = UnmatchedFilters::new();
    for _ in 0..3 {
        assert_eq!(w.take_change(&filters, &["tank", "tank/data"]), None);
    }
}

fn entries(items: &[(&str, bool)]) -> Vec<(String, bool)> {
    items.iter().map(|(k, v)| (k.to_string(), *v)).collect()
}

#[test]
fn filesystems_map_form_translates_to_filters() {
    let out = map_to_filters(&entries(&[
        ("novafs/arch0", false),
        ("novafs/arch0/", true),
        ("novafs/arch0/data", false),
    ]))
    .unwrap();
    assert_eq!(out.len(), 1);
    let f = &out[0];
    assert_eq!(f.path, "novafs/arch0");
    assert!(f.recursive);
    assert!(f.exclude.contains(&"novafs/arch0".to_string()));
    assert!(f.exclude.contains(&"novafs/arch0/data".to_string()));
}

#[test]
fn filesystems_map_bare_key_is_exact_match() {
    let out = map_to_filters(&entries(&[("tank/data/home", true)])).unwrap();
    assert_eq!(out.len(), 1);
    let f = &out[0];
    assert_eq!(f.path, "tank/data/home");
    assert!(!f.recursive);
    assert!(f.exclude.is_empty());
}

#[test]
fn filesystems_map_orphan_exclude_errors() {
    let err = map_to_filters(&entries(&[("tank/data", true), ("tank/other", false)])).unwrap_err();
    assert!(err.contains("tank/other"), "got: {err}");
}

#[test]
fn filesystems_map_empty_root_errors() {
    let err = map_to_filters(&entries(&[("/", true)])).unwrap_err();
    assert_eq!(err, "filesystems: empty key with `/` suffix is not a valid path");
}

#[test]
fn filesystems_map_excludes_go_to_their_own_subtree() {
    let out = map_to_filters(&entries(&[
        ("tank/a/", true),
        ("tank/b/", true),
        ("tank/b/x", false),
    ]))
    .unwrap();
    assert_eq!(out.len(), 2);
    assert!(out[0].exclude.is_empty());
    assert_eq!(out[1].exclude, vec!["tank/b/x".to_string()]);
}
