use forge::project_state::{parse_state_file, state_would_panic, ProjectState};
use forge::wl_parser::WlFile;

fn sample_wl() -> WlFile {
    WlFile {
        name: Some("myproject".into()),
        lang: Some("rust".into()),
        desc: Some("A test project".into()),
        tags: vec!["cli".into(), "wasm".into()],
        includes: vec!["git".into()],
        build: Some("cargo build".into()),
        run: Some("cargo run".into()),
        test: Some("cargo test".into()),
        check: Some("cargo clippy".into()),
        overseer_template: None,
        setup: None,
    }
}

fn blank(name: &str, lang: &str) -> ProjectState {
    ProjectState {
        name: name.into(),
        lang: lang.into(),
        desc: "".into(),
        tags: vec![],
        includes: vec![],
        build: "".into(),
        run: "".into(),
        test: "".into(),
        check: "".into(),
        last_wl_mtime: 0,
    }
}

#[test]
fn from_wl_extracts_all_fields() {
    let wl = sample_wl();
    let state = ProjectState::from_wl(&wl, 1234567890);
    assert_eq!(state.name, "myproject");
    assert_eq!(state.lang, "rust");
    assert_eq!(state.desc, "A test project");
    assert_eq!(state.tags, vec!["cli".to_string(), "wasm".to_string()]);
    assert_eq!(state.includes, vec!["git".to_string()]);
    assert_eq!(state.build, "cargo build");
    assert_eq!(state.last_wl_mtime, 1234567890);
}

#[test]
fn diff_detects_changed_fields() {
    let old = ProjectState {
        name: "myproject".into(),
        lang: "rust".into(),
        desc: "old desc".into(),
        tags: vec![],
        includes: vec![],
        build: "cargo build".into(),
        run: "".into(),
        test: "".into(),
        check: "".into(),
        last_wl_mtime: 0,
    };
    let new = ProjectState {
        name: "renamed".into(),
        lang: "rust".into(),
        desc: "new desc".into(),
        tags: vec!["cli".into()],
        includes: vec!["git".into()],
        build: "cargo build".into(),
        run: "".into(),
        test: "".into(),
        check: "".into(),
        last_wl_mtime: 999,
    };
    let changed = old.diff(&new);
    assert!(changed.contains(&"name"));
    assert!(changed.contains(&"desc"));
    assert!(changed.contains(&"tags"));
    assert!(changed.contains(&"includes"));
    assert!(changed.contains(&"last_wl_mtime"));
    assert!(!changed.contains(&"lang"));
    assert!(!changed.contains(&"build"));
}

#[test]
fn diff_empty_when_identical() {
    let state = blank("test", "rust");
    assert!(state.diff(&state).is_empty());
}

#[test]
fn diff_lists_fields_in_declaration_order() {
    let a = blank("a", "rust");
    let mut b = blank("b", "go");
    b.check = "x".into();
    b.last_wl_mtime = 5;
    assert_eq!(a.diff(&b), vec!["name", "lang", "check", "last_wl_mtime"]);
}

#[test]
fn project_state_save_and_load_roundtrip() {
    let state = ProjectState {
        name: "myproject".into(),
        lang: "rust".into(),
        desc: "A cool project".into(),
        tags: vec!["cli".into(), "wasm".into()],
        includes: vec!["git".into(), "overseer".into()],
        build: "cargo build".into(),
        run: "cargo run".into(),
        test: "cargo test".into(),
        check: "cargo clippy".into(),
        last_wl_mtime: 1234567890,
    };
    let text = state.to_string();
    assert!(!state_would_panic(&text));
    let loaded = parse_state_file(&text);
    assert_eq!(loaded.name, state.name);
    assert_eq!(loaded.lang, state.lang);
    assert_eq!(loaded.tags, state.tags);
    assert_eq!(loaded.includes, state.includes);
    assert_eq!(loaded.last_wl_mtime, state.last_wl_mtime);
    assert_eq!(loaded.desc, state.desc);
    assert_eq!(loaded.check, state.check);
}

#[test]
fn load_returns_default_when_no_state_file() {
    let state = ProjectState::default();
    assert!(state.name.is_empty());
    assert!(state.lang.is_empty());
}

#[test]
fn to_string_writes_every_field() {
    let mut s = blank("p", "rust");
    s.tags = vec!["cli".into()];
    s.last_wl_mtime = 42;
    assert_eq!(
        s.to_string(),
        "name=\"p\"\nlang=\"rust\"\ndesc=\"\"\ntags=[\"cli\"]\nincludes=[]\nbuild=\"\"\nrun=\"\"\ntest=\"\"\ncheck=\"\"\nlast_wl_mtime=\"42\""
    );
}

#[test]
fn parse_state_file_reads_quoted_mtime() {
    let s = parse_state_file("name=\"x\"\nlast_wl_mtime=\"123\"\n");
    assert_eq!(s.name, "x");
    assert_eq!(s.last_wl_mtime, 123);
}

#[test]
fn parse_state_file_bad_mtime_reads_zero() {
    let s = parse_state_file("last_wl_mtime=\"soon\"");
    assert_eq!(s.last_wl_mtime, 0);
}

#[test]
fn parse_state_file_ignores_unknown_keys_and_comments() {
    let s = parse_state_file("# c\nfoo=\"bar\"\nno equals here\nlang = 'go'");
    assert_eq!(s.lang, "go");
    assert!(s.name.is_empty());
}

#[test]
fn state_would_panic_on_lone_quote() {
    assert!(state_would_panic("name=\""));
    assert!(!state_would_panic("name=\"ok\""));
}

#[test]
fn diff_reports_fields_in_order() {
    let old = ProjectState {
        name: "myproject".into(),
        lang: "rust".into(),
        desc: "old desc".into(),
        tags: vec![],
        includes: vec![],
        build: "cargo build".into(),
        run: "".into(),
        test: "".into(),
        check: "".into(),
        last_wl_mtime: 0,
    };
    let new = ProjectState {
        name: "renamed".into(),
        desc: "new desc".into(),
        tags: vec!["cli".into()],
        includes: vec!["git".into()],
        last_wl_mtime: 999,
        ..old.clone()
    };
    assert_eq!(old.diff(&new), vec!["name", "desc", "tags", "includes", "last_wl_mtime"]);
}
