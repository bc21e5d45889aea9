use key_snapshot::diff::diff_keys;
use key_snapshot::report::render_report;
use key_snapshot::snapshot::read_snapshot;
use std::collections::BTreeSet;

fn strings(items: &[&str]) -> Vec<String> {
    items.iter().map(|s| s.to_string()).collect()
}

fn set(v: &[String]) -> BTreeSet<String> {
    v.iter().cloned().collect()
}

#[test]
fn diff_finds_added_and_removed() {
    let d = diff_keys(&strings(&["a", "b", "d"]), &strings(&["a", "c"]));
    assert_eq!(set(&d.added), set(&strings(&["b", "d"])));
    assert_eq!(set(&d.removed), set(&strings(&["c"])));
}

#[test]
fn diff_of_equal_sets_is_empty() {
    let d = diff_keys(&strings(&["a", "b", "a"]), &strings(&["b", "a"]));
    assert!(d.added.is_empty());
    assert!(d.removed.is_empty());
}

#[test]
fn diff_collapses_duplicates() {
    let d = diff_keys(&strings(&["n", "n", "n"]), &strings(&["o", "o"]));
    assert_eq!(d.added, strings(&["n"]));
    assert_eq!(d.removed, strings(&["o"]));
}

#[test]
fn diff_added_and_removed_are_disjoint() {
    let d = diff_keys(&strings(&["a", "b", "c"]), &strings(&["c", "d", "e"]));
    let added = set(&d.added);
    let removed = set(&d.removed);
    assert!(added.is_disjoint(&removed));
    assert_eq!(added.len(), 2);
    assert_eq!(removed.len(), 2);
}

#[test]
fn diff_against_missing_snapshot_adds_everything() {
    let current = strings(&["k1", "k2", "k3"]);
    let d = diff_keys(&current, &read_snapshot(None));
    assert_eq!(set(&d.added), set(&current));
    assert!(d.removed.is_empty());
}

#[test]
fn report_of_empty_diff() {
    let d = diff_keys(&Vec::new(), &Vec::new());
    assert_eq!(render_report(&d), "Added keys (0):\n\nRemoved keys (0):\n");
}

#[test]
fn report_counts_in_decimal() {
    let current: Vec<String> = (0..12).map(|i| format!("k{}", i)).collect();
    let d = diff_keys(&current, &strings(&["gone"]));
    let text = render_report(&d);
    assert!(text.starts_with("Added keys (12):\nk0\nk1\n"));
    assert!(text.ends_with("k11\n\nRemoved keys (1):\ngone\n"));
}
