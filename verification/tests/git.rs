use imperium::commands::git::{
    ReportedStatus, StatusMap, INDEX_MODIFIED, INDEX_NEW, WT_MODIFIED, WT_NEW,
};

fn report(path: &str, status: u32) -> ReportedStatus {
    ReportedStatus { path: Some(path.to_string()), status }
}

#[test]
fn status_flags_are_those_of_git2() {
    assert_eq!(INDEX_NEW, git2::Status::INDEX_NEW.bits());
    assert_eq!(INDEX_MODIFIED, git2::Status::INDEX_MODIFIED.bits());
    assert_eq!(WT_NEW, git2::Status::WT_NEW.bits());
    assert_eq!(WT_MODIFIED, git2::Status::WT_MODIFIED.bits());
}

#[test]
fn status_map_starts_empty() {
    let map = StatusMap::new();
    assert_eq!(map.get("a"), None);
    assert_eq!(map.get(""), None);
}

#[test]
fn status_map_keeps_the_later_of_two_statuses() {
    let mut map = StatusMap::new();
    map.insert("a".to_string(), WT_NEW);
    map.insert("b".to_string(), INDEX_NEW);
    assert_eq!(map.get("a"), Some(WT_NEW));
    map.insert("a".to_string(), WT_MODIFIED);
    assert_eq!(map.get("a"), Some(WT_MODIFIED));
    assert_eq!(map.get("b"), Some(INDEX_NEW));
    assert_eq!(map.get("c"), None);
}

#[test]
fn from_reports_keys_by_last_component() {
    let map = StatusMap::from_reports(&vec![
        report("src/main.rs", WT_MODIFIED),
        report("docs/", WT_NEW),
        report("Cargo.toml", INDEX_MODIFIED),
    ]);
    assert_eq!(map.get("main.rs"), Some(WT_MODIFIED));
    assert_eq!(map.get("docs"), Some(WT_NEW));
    assert_eq!(map.get("Cargo.toml"), Some(INDEX_MODIFIED));
    assert_eq!(map.get("src/main.rs"), None);
    assert_eq!(map.get("src"), None);
}

#[test]
fn from_reports_passes_over_reports_without_a_name() {
    let map = StatusMap::from_reports(&vec![
        ReportedStatus { path: None, status: WT_NEW },
        report("..", WT_NEW),
        report("", WT_NEW),
        report("a/mod.rs", INDEX_NEW),
        report("b/mod.rs", WT_MODIFIED),
    ]);
    assert_eq!(map.get(".."), None);
    assert_eq!(map.get(""), None);
    assert_eq!(map.get("mod.rs"), Some(WT_MODIFIED));
}
