use forge::index::ProjectEntry;
use forge::sync::{
    count_line, include_info, include_info_would_panic, lang_record, rebuild_entries,
    stale_entry_lines, sync_summary, FoundProject,
};
use forge::wl_parser::Language;

fn entry(name: &str, opened: Option<&str>, count: u32) -> ProjectEntry {
    ProjectEntry {
        name: name.into(),
        lang: "rust".into(),
        path: format!("/old/{}", name),
        added_at: "1".into(),
        last_opened: opened.map(|s| s.to_string()),
        open_count: count,
    }
}

#[test]
fn rebuild_keeps_open_history_by_name() {
    let old = vec![entry("a", Some("10"), 3), entry("gone", Some("20"), 9), entry("a", Some("30"), 4)];
    let alive = vec![true, false, true];
    let found = vec![
        FoundProject { name: Some("a".into()), lang: None, dir_name: "dir_a".into(), path: "/s/a".into() },
        FoundProject { name: None, lang: Some("go".into()), dir_name: "gone".into(), path: "/s/gone".into() },
        FoundProject { name: None, lang: None, dir_name: "new".into(), path: "/s/new".into() },
    ];
    let r = rebuild_entries(&old, &alive, &found, "99");
    assert_eq!(r.len(), 3);
    assert_eq!(r[0].name, "a");
    assert_eq!(r[0].lang, "txt");
    assert_eq!(r[0].last_opened, Some("30".into()));
    assert_eq!(r[0].open_count, 4);
    assert_eq!(r[0].added_at, "99");
    assert_eq!(r[1].name, "gone");
    assert_eq!(r[1].lang, "go");
    assert_eq!(r[1].last_opened, None);
    assert_eq!(r[1].open_count, 0);
    assert_eq!(r[2].name, "new");
    assert_eq!(r[2].path, "/s/new");
    assert_eq!(stale_entry_lines(&old, &alive), vec!["removed: gone (directory gone)"]);
}

#[test]
fn sync_summaries() {
    assert_eq!(sync_summary(3, 1), "synced 3 projects (removed 1)");
    assert_eq!(count_line("langs.json: ", 12, " entries written"), "langs.json: 12 entries written");
}

#[test]
fn include_info_reads_description_and_provides() {
    let text = "# c\nname=\"git\"\ndescription = \"Git setup\"\nprovides=[\"vcs\", 'hooks']\nbad line\n";
    assert!(!include_info_would_panic(text));
    let (d, p) = include_info(text);
    assert_eq!(d, "Git setup");
    assert_eq!(p, vec!["vcs", "hooks"]);
    let (d2, p2) = include_info("description=\"a\"\ndescription=b");
    assert_eq!(d2, "b");
    assert!(p2.is_empty());
    assert!(include_info_would_panic("description=\""));
}

#[test]
fn lang_record_falls_back_to_dir_name() {
    let lang = Language {
        name: "".into(),
        desc: "Rust".into(),
        path: "rust".into(),
        direnv: "use nix".into(),
        build: Some("cargo build".into()),
        run: None,
        test: None,
        check: None,
    };
    let r = lang_record(&lang, "rust-dir", "/langs/rust-dir");
    assert_eq!(r.name, "rust-dir");
    assert_eq!(r.description, "Rust");
    assert_eq!(r.flake, "/langs/rust-dir/flake.nix");
    assert_eq!(r.lang.build, Some("cargo build".into()));
    assert_eq!(r.lang.run, Some("".into()));
    let named = Language { name: "rs".into(), ..lang };
    assert_eq!(lang_record(&named, "d", "/x").name, "rs");
}
