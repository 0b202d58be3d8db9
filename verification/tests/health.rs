use forge::health::{entries_to_check, health_report, EntryProbe};
use forge::index::ProjectEntry;

fn entry(name: &str, path: &str) -> ProjectEntry {
    ProjectEntry {
        name: name.into(),
        lang: "rust".into(),
        path: path.into(),
        added_at: "1".into(),
        last_opened: None,
        open_count: 0,
    }
}

fn probe(wl_exists: bool, parsed: Result<bool, String>, state_exists: bool) -> EntryProbe {
    EntryProbe { wl_exists, parsed, state_exists }
}

#[test]
fn health_fix_removes_duplicates_and_stale_entries() {
    let es = vec![entry("a", "/p/a"), entry("b", "/p/b"), entry("a", "/p/a"), entry("a", "/p/a2")];
    let checked = entries_to_check(&es, true);
    assert_eq!(checked.len(), 2);
    assert_eq!(checked[0].path, "/p/a");
    assert_eq!(checked[1].path, "/p/b");
    let probes = vec![probe(true, Ok(false), true), probe(false, Ok(false), false)];
    let r = health_report(&es, &probes, true);
    assert_eq!(
        r.lines,
        vec![
            "\u{2705} index.json: 4 projects",
            "\u{26a0}\u{fe0f}  duplicate name \"a\" (3 occurrences): /p/a, /p/a, /p/a2",
            "\u{2705} fixed: removed 2 duplicate(s) of \"a\"",
            "\u{2705} \"a\": .wl valid",
            "  \u{2705} .forge/state present",
            "\u{274c} project \"b\": path /p/b does not exist (stale entry)",
            "\u{2705} removing stale entry \"b\"",
            "",
            "\u{274c} 1 error(s)",
            "\u{26a0}\u{fe0f}  1 warning(s)",
            "",
            "=== Fixes applied ===",
            "  removed 2 duplicate(s) of \"a\"",
            "  removed stale entry \"b\"",
        ]
    );
    assert!(r.save);
    assert_eq!(r.after_save, vec!["", "\u{2705} index updated"]);
    assert_eq!(r.projects.len(), 1);
    assert_eq!(r.projects[0].path, "/p/a");
    assert!(r.failed);
}

#[test]
fn health_fix_keeps_first_of_a_name_with_other_paths() {
    let es = vec![entry("a", "/p/one"), entry("c", "/p/c"), entry("a", "/p/two")];
    let fixed = entries_to_check(&es, true);
    assert_eq!(fixed.len(), 2);
    assert_eq!(fixed[0].path, "/p/one");
    assert_eq!(fixed[1].name, "c");
    let probes = vec![probe(true, Ok(false), true), probe(true, Ok(false), true)];
    let r = health_report(&es, &probes, true);
    assert_eq!(r.lines[2], "\u{2705} fixed: removed 1 duplicate(s) of \"a\"");
    assert_eq!(r.projects.len(), 2);
    assert_eq!(r.projects[0].path, "/p/one");
    assert_eq!(r.projects[1].path, "/p/c");
    assert!(r.save);
}

#[test]
fn health_clean_index() {
    let es = vec![entry("a", "/p/a")];
    let probes = vec![probe(true, Ok(false), true)];
    let r = health_report(&es, &probes, false);
    assert_eq!(
        r.lines,
        vec![
            "\u{2705} index.json: 1 projects",
            "\u{2705} \"a\": .wl valid",
            "  \u{2705} .forge/state present",
            "",
            "\u{2705} no issues found",
        ]
    );
    assert!(!r.save);
    assert!(r.after_save.is_empty());
    assert!(!r.failed);
    assert_eq!(r.projects.len(), 1);
}

#[test]
fn health_empty_index_and_syntax_error() {
    let r = health_report(&vec![], &vec![], false);
    assert_eq!(
        r.lines,
        vec!["\u{26a0}\u{fe0f}  index is empty (no projects)", "", "\u{2705} no issues found"]
    );
    let es = vec![entry("x", "/p/x")];
    let probes = vec![probe(true, Err("bad".into()), true)];
    let r = health_report(&es, &probes, true);
    assert_eq!(r.lines[1], "\u{274c} project \"x\": .wl syntax error \u{2014} bad");
    assert!(r.failed);
    assert!(!r.save);
}

#[test]
fn health_without_fix_keeps_duplicates() {
    let es = vec![entry("a", "/p/a"), entry("a", "/p/a/")];
    let checked = entries_to_check(&es, false);
    assert_eq!(checked.len(), 2);
    let fixed = entries_to_check(&es, true);
    assert_eq!(fixed.len(), 1);
    let probes = vec![probe(true, Ok(false), true), probe(true, Ok(false), true)];
    let r = health_report(&es, &probes, false);
    assert_eq!(r.projects.len(), 2);
    assert!(!r.save);
    assert!(!r.failed);
}

#[test]
fn name_missing_for_absent_or_empty_name() {
    use_name_missing();
}

fn use_name_missing() {
    let mut wl = forge::wl_parser::WlFile {
        name: None,
        lang: None,
        desc: None,
        tags: vec![],
        includes: vec![],
        build: None,
        run: None,
        test: None,
        check: None,
        overseer_template: None,
        setup: None,
    };
    assert!(forge::health::name_missing(&wl));
    wl.name = Some(String::new());
    assert!(forge::health::name_missing(&wl));
    wl.name = Some("x".into());
    assert!(!forge::health::name_missing(&wl));
}
