use arctern::inventory::{bookmark_entry, pool_roots, sender_bookmarks, sender_snapshots, snapshot_entry, ListedEntry};
use arctern::plan::CompiledFilter;
use arctern::schema::{FilesystemFilter, SnapshotFilterConfig};

fn filter(path: &str) -> FilesystemFilter {
    FilesystemFilter { path: path.into(), recursive: true, exclude: Vec::new() }
}

#[test]
fn pool_roots_dedupe_and_sort() {
    let roots = pool_roots(&[filter("tank/data"), filter("tank/home"), filter("backup/x"), filter("tank")]);
    assert_eq!(roots, vec!["backup", "tank"]);
}

fn snap(name: &str, leaf: &str, guid: &str, txg: &str) -> ListedEntry {
    ListedEntry { name: name.into(), snapshot_name: Some(leaf.into()), guid: Some(guid.into()), createtxg: txg.into() }
}

fn bookmark(name: &str, guid: &str, txg: &str) -> ListedEntry {
    ListedEntry { name: name.into(), snapshot_name: None, guid: Some(guid.into()), createtxg: txg.into() }
}

#[test]
fn unusable_listing_entries_are_skipped() {
    assert!(snapshot_entry(&snap("t@a", "a", "x", "1")).is_none());
    assert!(snapshot_entry(&snap("t@a", "a", "5", "-1")).is_none());
    let s = snapshot_entry(&snap("t@a", "a", "18446744073709551615", "7")).unwrap();
    assert_eq!(s.guid, u64::MAX);
    assert_eq!(s.createtxg, 7);
    let b = bookmark_entry(&bookmark("t#c", "9", "3")).unwrap();
    assert_eq!(b.leaf, "c");
    assert!(bookmark_entry(&snap("t@a", "a", "5", "1")).is_none());
}

#[test]
fn sender_snapshots_are_filtered_and_ordered_by_createtxg() {
    let entries = vec![
        snap("t@zrepl_b", "zrepl_b", "2", "20"),
        snap("t@manual", "manual", "3", "15"),
        snap("t@zrepl_a", "zrepl_a", "1", "10"),
        snap("t@zrepl_c", "zrepl_c", "4", "20"),
    ];
    let f = CompiledFilter::from_config(&SnapshotFilterConfig { prefix: Some("zrepl_".into()), regex: None }).unwrap();
    let got: Vec<String> = sender_snapshots(&entries, &f).into_iter().map(|s| s.name).collect();
    assert_eq!(got, vec!["zrepl_a", "zrepl_b", "zrepl_c"]);
}

#[test]
fn sender_bookmarks_keep_listing_order() {
    let entries = vec![bookmark("t#b", "2", "20"), snap("t@s", "s", "1", "1"), bookmark("t#a", "1", "10")];
    let got: Vec<String> = sender_bookmarks(&entries).into_iter().map(|b| b.leaf).collect();
    assert_eq!(got, vec!["b", "a"]);
}
