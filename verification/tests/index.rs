use forge::index::{fresh_index, load_index, IndexSource, ProjectEntry, ProjectIndex};

fn entry(name: &str, path: &str) -> ProjectEntry {
    ProjectEntry {
        name: name.into(),
        lang: "rust".into(),
        path: path.into(),
        added_at: "1".into(),
        last_opened: None,
        open_count: 0,
    }
}

#[test]
fn new_index_has_version_3() {
    let index = ProjectIndex::new("/tmp/x/sync".into());
    assert_eq!(index.version, 3);
    assert!(index.projects.is_empty());
}

#[test]
fn load_nonexistent_returns_default_index() {
    assert_eq!(load_index(false, false), IndexSource::Fresh);
    let index = fresh_index(Some("/home/me"));
    assert_eq!(index.version, 3);
    assert_eq!(index.sync_base, "/home/me/sync");
    assert!(index.projects.is_empty());
    assert_eq!(fresh_index(None).sync_base, "sync");
}

#[test]
fn load_index_prefers_current_then_old() {
    assert_eq!(load_index(true, true), IndexSource::Current);
    assert_eq!(load_index(false, true), IndexSource::Old);
}

#[test]
fn find_returns_first_match() {
    let mut index = ProjectIndex::new("s".into());
    index.projects.push(entry("a", "/p/a"));
    index.projects.push(entry("b", "/p/b"));
    index.projects.push(entry("a", "/p/a2"));
    assert_eq!(index.find("a"), Some(0));
    assert_eq!(index.find("b"), Some(1));
    assert_eq!(index.find("zz"), None);
}

#[test]
fn position_by_path_compares_components() {
    let mut index = ProjectIndex::new("s".into());
    index.projects.push(entry("a", "/p/a"));
    index.projects.push(entry("b", "/p/b/"));
    assert_eq!(index.position_by_path("/p/b"), Some(1));
    assert_eq!(index.position_by_path("/p//a"), Some(0));
    assert_eq!(index.position_by_path("/p/c"), None);
}

#[test]
fn remove_named_removes_every_match() {
    let mut index = ProjectIndex::new("s".into());
    index.projects.push(entry("a", "/p/a"));
    index.projects.push(entry("b", "/p/b"));
    index.projects.push(entry("a", "/p/a2"));
    assert!(index.remove_named("a"));
    assert_eq!(index.projects.len(), 1);
    assert_eq!(index.projects[0].name, "b");
    assert!(!index.remove_named("a"));
}

#[test]
fn mark_opened_updates_first_match() {
    let mut index = ProjectIndex::new("s".into());
    index.projects.push(entry("a", "/p/a"));
    index.projects.push(entry("a", "/p/a2"));
    index.mark_opened("a", "1700000000".into());
    assert_eq!(index.projects[0].last_opened, Some("1700000000".into()));
    assert_eq!(index.projects[0].open_count, 1);
    assert_eq!(index.projects[1].open_count, 0);
    index.mark_opened("a", "1700000001".into());
    assert_eq!(index.projects[0].open_count, 2);
}

#[test]
fn add_if_absent_skips_duplicates() {
    let mut index = ProjectIndex::new("s".into());
    assert!(index.add_if_absent("a", "rust", "/p/a", "5".into()));
    assert!(!index.add_if_absent("a", "go", "/p/other", "6".into()));
    assert_eq!(index.projects.len(), 1);
    assert_eq!(index.projects[0].lang, "rust");
    assert_eq!(index.projects[0].added_at, "5");
    assert_eq!(index.projects[0].open_count, 0);
}
