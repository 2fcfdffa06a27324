use std::collections::BTreeSet;

use arctern::grid::{GridSpec, KeepCount, RetentionInterval};
use arctern::retention::SnapshotEntry;

const SEC: i128 = 1_000_000_000;

fn entry(name: &str, t: i64) -> SnapshotEntry {
    SnapshotEntry { name: name.into(), creation: t as i128 * SEC }
}

fn names<'a>(entries: &'a [SnapshotEntry], idx: &[usize]) -> Vec<&'a str> {
    idx.iter().map(|i| entries[*i].name.as_str()).collect()
}

#[test]
fn empty_input_is_noop() {
    let g = GridSpec::parse("3x1h").unwrap();
    let (k, d) = g.fit(&[]);
    assert!(k.is_empty() && d.is_empty());
}

#[test]
fn keeps_the_oldest_per_bucket_by_default() {
    let g = GridSpec::parse("3x1h").unwrap();
    let entries = vec![entry("s_now", 3600), entry("s_older_in_same_bucket", 3500), entry("s_old", -10000)];
    let (keep, destroy) = g.fit(&entries);
    assert_eq!(names(&entries, &keep), vec!["s_older_in_same_bucket"]);
    assert_eq!(names(&entries, &destroy), vec!["s_now", "s_old"]);
}

#[test]
fn matches_the_worked_example_from_zrepl_docs() {
    let g = GridSpec::parse("1x1h(keep=all) | 2x2h | 1x3h").unwrap();
    let placement: [(&str, i64); 30] = [
        ("a", 0),
        ("b", 20),
        ("c", 40),
        ("d", 70),
        ("e", 90),
        ("f", 110),
        ("g", 130),
        ("h", 150),
        ("i", 170),
        ("j", 190),
        ("k", 210),
        ("l", 230),
        ("m", 250),
        ("n", 270),
        ("o", 280),
        ("p", 295),
        ("q", 310),
        ("r", 330),
        ("s", 350),
        ("t", 370),
        ("u", 390),
        ("v", 410),
        ("w", 430),
        ("x", 450),
        ("y", 465),
        ("z", 475),
        ("A", 490),
        ("B", 505),
        ("C", 520),
        ("D", 535),
    ];
    let now = 9 * 3600;
    let entries: Vec<SnapshotEntry> =
        placement.iter().map(|(n, minutes_ago)| entry(n, now - minutes_ago * 60)).collect();
    let (keep, _destroy) = g.fit(&entries);
    assert_eq!(names(&entries, &keep), vec!["a", "b", "c", "i", "p", "z"]);
}

#[test]
fn a_snap_job_replayed_over_time_fills_every_bucket() {
    let g = GridSpec::parse("4x15m | 24x1h | 14x1d").unwrap();
    let step = 15 * 60;
    let mut snaps: Vec<SnapshotEntry> = Vec::new();
    let mut t = 0i64;
    while t <= 20 * 86_400 {
        snaps.push(entry(&format!("s{t}"), t));
        let (_keep, destroy) = g.fit(&snaps);
        let doomed: BTreeSet<usize> = destroy.into_iter().collect();
        snaps = snaps.into_iter().enumerate().filter(|(i, _)| !doomed.contains(i)).map(|(_, e)| e).collect();
        t += step;
    }
    let now = snaps.iter().map(|e| e.creation).max().unwrap();
    let mut ages_h: Vec<i128> = snaps.iter().map(|e| (now - e.creation) / SEC / 60 / 60).collect();
    ages_h.sort_unstable();
    assert_eq!(snaps.len(), 4 + 24 + 14, "ages (h): {ages_h:?}");
    assert_eq!(*ages_h.last().unwrap(), 15 * 24, "ages (h): {ages_h:?}");
    assert_eq!(&ages_h[..8], &[0, 0, 0, 0, 1, 2, 3, 4], "ages (h): {ages_h:?}");
}

#[test]
fn keep_all_retains_every_bucket_entry() {
    let g = GridSpec::parse("1x1h(keep=all)").unwrap();
    let entries = vec![entry("a", 3600), entry("b", 3500), entry("c", 3000), entry("d", -1)];
    let (keep, destroy) = g.fit(&entries);
    let kn = names(&entries, &keep);
    let dn = names(&entries, &destroy);
    assert!(kn.contains(&"a") && kn.contains(&"b") && kn.contains(&"c"));
    assert!(dn.contains(&"d"));
}

#[test]
fn the_newest_snapshot_is_not_special() {
    let g = GridSpec::parse("1x1h").unwrap();
    let entries = vec![entry("older", 3600), entry("newest", 4000)];
    let (keep, destroy) = g.fit(&entries);
    assert_eq!(names(&entries, &keep), vec!["older"]);
    assert_eq!(names(&entries, &destroy), vec!["newest"]);
}

#[test]
fn duration_arithmetic_uses_time_crate() {
    let g = GridSpec(vec![RetentionInterval { length: 3600 * SEC as u128, keep_count: KeepCount::Exactly(1) }]);
    let (k, d) = g.fit(&[entry("a", 3600), entry("b", 0)]);
    assert!(!k.is_empty());
    assert!(!d.is_empty());
}

#[test]
fn every_entry_is_kept_or_destroyed_exactly_once() {
    let g = GridSpec::parse("2x1h(keep=2) | 1x1d").unwrap();
    let entries: Vec<SnapshotEntry> = (0..30).map(|i| entry(&format!("s{i}"), i * 1000)).collect();
    let (keep, destroy) = g.fit(&entries);
    let mut all: Vec<usize> = keep.iter().chain(destroy.iter()).copied().collect();
    all.sort_unstable();
    assert_eq!(all, (0..30).collect::<Vec<usize>>());
}

#[test]
fn a_bucket_keeps_at_most_its_count() {
    let g = GridSpec::parse("1x1h(keep=2)").unwrap();
    let entries = vec![entry("a", 3600), entry("b", 3000), entry("c", 2000), entry("d", 1000)];
    let (keep, _) = g.fit(&entries);
    assert_eq!(names(&entries, &keep), vec!["c", "d"]);
}

#[test]
fn bucket_bounds_saturate_at_the_earliest_instant() {
    let g = GridSpec::parse("1x1h | 1x300000y").unwrap();
    let entries = vec![entry("a", 0), entry("b", -3601)];
    let (keep, destroy) = g.fit(&entries);
    assert_eq!(names(&entries, &keep), vec!["a", "b"]);
    assert!(destroy.is_empty());
}
