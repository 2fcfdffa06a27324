use arctern::grid::GridSpec;
use arctern::prune::{evaluate, PruneError};
use arctern::retention::SnapshotEntry;
use arctern::schema::KeepRule;

fn entry(name: &str, t: i64) -> SnapshotEntry {
    SnapshotEntry { name: name.into(), creation: t as i128 * 1_000_000_000 }
}

#[test]
fn regex_negate_destroys_matched() {
    let rule = KeepRule::Regex { regex: "^zrepl_".into(), negate: true };
    let entries = vec![entry("zrepl_a", 1), entry("manual_b", 1)];
    let d = rule.destroy_set(&entries).unwrap();
    assert!(d.contains(&0));
    assert!(!d.contains(&1));
}

#[test]
fn regex_default_destroys_unmatched() {
    let rule = KeepRule::Regex { regex: "^zrepl_".into(), negate: false };
    let entries = vec![entry("zrepl_a", 1), entry("manual_b", 1)];
    let d = rule.destroy_set(&entries).unwrap();
    assert!(!d.contains(&0));
    assert!(d.contains(&1));
}

#[test]
fn intersection_protects_manual_snapshots() {
    let rules = vec![
        KeepRule::Grid { grid: GridSpec::parse("1x1h").unwrap(), regex: "^zrepl_".into() },
        KeepRule::Regex { regex: "^zrepl_".into(), negate: true },
    ];
    let entries = vec![entry("zrepl_old", 0), entry("zrepl_recent", 3600), entry("manual_snapshot", 100)];
    let destroy = evaluate(&rules, &entries).unwrap();
    let names: Vec<&str> = destroy.iter().map(|i| entries[*i].name.as_str()).collect();
    assert!(names.contains(&"zrepl_old"));
    assert!(!names.contains(&"zrepl_recent"));
    assert!(!names.contains(&"manual_snapshot"));
}

#[test]
fn no_rules_means_no_destroy() {
    let entries = vec![entry("a", 1)];
    let destroy = evaluate(&[], &entries).unwrap();
    assert!(destroy.is_empty());
}

#[test]
fn invalid_regex_surfaces_error() {
    let rule = KeepRule::Regex { regex: "(".into(), negate: false };
    let entries = vec![entry("a", 1)];
    assert!(rule.destroy_set(&entries).is_err());
}

#[test]
fn the_first_bad_pattern_is_the_one_reported() {
    let rules = vec![
        KeepRule::Regex { regex: "^ok".into(), negate: false },
        KeepRule::Regex { regex: "[".into(), negate: false },
        KeepRule::Regex { regex: "(".into(), negate: false },
    ];
    match evaluate(&rules, &[entry("a", 1)]) {
        Err(PruneError::Regex { pattern, .. }) => assert_eq!(pattern, "["),
        other => panic!("got {other:?}"),
    }
}

#[test]
fn a_grid_rule_judges_only_the_entries_its_pattern_matches() {
    let rule = KeepRule::Grid { grid: GridSpec::parse("1x1h").unwrap(), regex: "^zrepl_".into() };
    // now is the youngest MATCHING entry; the later manual snapshot does not move it.
    let entries = vec![entry("zrepl_a", 0), entry("manual", 100_000), entry("zrepl_b", 10)];
    let d = rule.destroy_set(&entries).unwrap();
    let mut v: Vec<usize> = d.into_iter().collect();
    v.sort_unstable();
    assert_eq!(v, vec![1, 2]);
}
