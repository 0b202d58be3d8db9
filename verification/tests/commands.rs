use forge::create::{records_by_diff, runs_lang_setup};
use forge::applied_includes::plan_include_sync;
use forge::cli::{sync_tasks, SyncFlags};
use forge::completion::{completion_request, list_shells, shell_named, unsupported_shell, wants_lang_dir, Shell};
use forge::config::ForgeConfig;
use forge::create::{build_wl_content, split_comma_list};
use forge::help::{help_topic, HelpTopic};
use forge::include_registry::{include_listing, include_show, merge_include_fields, parse_include_wl, run as include_run, IncludeCommand};
use forge::fields::FieldMap;
use forge::index::{ProjectEntry, ProjectIndex};
use forge::lang_pack::{lang_add_args, lang_wl_template, pack_header, pack_row_line, LangAddError};
use forge::paths::{expand_tilde, resolve_project_path_in};
use forge::project_state::ProjectState;
use forge::scripts::{include_env, lang_env};
use forge::session::{run as session_run, SessionError};
use forge::tmux::{has_session_args, session_name_for, switch_or_create};
use forge::verify_and_diff::record_wl_change;
use forge::wl_parser::{parse_wl_content, Language, WlFile};

fn config() -> ForgeConfig {
    ForgeConfig::from_parts(
        "/home/u/sync".into(),
        "nvim".into(),
        "tmux".into(),
        "me".into(),
        "/langs".into(),
        "/incs".into(),
        "/home/u/.forge".into(),
    )
}

fn rust_lang() -> Language {
    Language {
        name: "rust".into(),
        desc: "Rust".into(),
        path: "Code/Rust".into(),
        direnv: "use nix".into(),
        build: Some("cargo build".into()),
        run: Some("".into()),
        test: None,
        check: Some("cargo clippy".into()),
    }
}

fn state(name: &str, lang: &str) -> ProjectState {
    ProjectState {
        name: name.into(),
        lang: lang.into(),
        desc: "".into(),
        tags: vec![],
        includes: vec![],
        build: "".into(),
        run: "".into(),
        test: "".into(),
        check: "".into(),
        last_wl_mtime: 0,
    }
}

#[test]
fn session_names_are_prefixed() {
    assert_eq!(session_name_for("web"), "forge-web");
}

#[test]
fn switch_or_create_plans() {
    assert_eq!(switch_or_create("forge-a", "/p/a", true), vec![vec!["switch-client", "-t", "forge-a"]]);
    assert_eq!(
        switch_or_create("forge-a", "/p/a", false),
        vec![
            vec!["new-session", "-d", "-s", "forge-a", "-c", "/p/a"],
            vec!["switch-client", "-t", "forge-a"],
        ]
    );
    assert_eq!(has_session_args("forge-a"), vec!["has-session", "-t", "forge-a"]);
}

#[test]
fn session_run_finds_project() {
    let mut index = ProjectIndex::new("s".into());
    index.projects.push(ProjectEntry {
        name: "web".into(),
        lang: "rust".into(),
        path: "/p/web".into(),
        added_at: "1".into(),
        last_opened: None,
        open_count: 0,
    });
    let plan = session_run(Some("web"), &index).unwrap();
    assert_eq!(plan.session, "forge-web");
    assert_eq!(plan.path, "/p/web");
    assert_eq!(plan.position, 0);
    assert_eq!(session_run(None, &index).unwrap_err(), SessionError::NameRequired);
    assert_eq!(session_run(Some("x"), &index).unwrap_err(), SessionError::NotFound);
}

#[test]
fn shells_and_completion_args() {
    assert_eq!(list_shells(), "zsh, bash, fish, powershell");
    assert_eq!(shell_named("fish"), Some(Shell::Fish));
    assert_eq!(shell_named("tcsh"), None);
    assert_eq!(unsupported_shell("tcsh"), "Unsupported shell: tcsh. Use: zsh, bash, fish, powershell");
    let args: Vec<String> = vec!["forge".into(), "--generate-completion".into(), "zsh".into()];
    assert_eq!(completion_request(&args), Some("zsh".into()));
    let last: Vec<String> = vec!["forge".into(), "--generate-completion".into()];
    assert_eq!(completion_request(&last), None);
    assert!(wants_lang_dir(&vec!["forge".into(), "--print-lang-dir".into()]));
    assert!(!wants_lang_dir(&vec!["forge".into()]));
}

#[test]
fn help_topics() {
    assert_eq!(help_topic("  ").1, HelpTopic::Global);
    assert_eq!(help_topic(" create ").1, HelpTopic::Create);
    assert_eq!(help_topic("overseer-def").1, HelpTopic::OverseerDef);
    let (c, t) = help_topic("frob");
    assert_eq!(c, "frob");
    assert_eq!(t, HelpTopic::Unknown);
}

#[test]
fn sync_tasks_default_to_projects() {
    assert_eq!(sync_tasks(SyncFlags { langs: false, includes: false }), (false, false, true));
    assert_eq!(sync_tasks(SyncFlags { langs: true, includes: false }), (true, false, false));
}

#[test]
fn config_paths() {
    let c = config();
    assert_eq!(c.index_path(), "/home/u/.forge/index.json");
    assert_eq!(c.state_dir(), "/home/u/.forge/state");
    assert_eq!(c.projects_dir(), "/home/u/sync");
    assert_eq!(c.config_dir(), "/home/u/.forge");
    assert_eq!(c.lang_default_dir(), "/langs/default");
    assert_eq!(c.include_custom_dir(), "/incs/custom");
}

#[test]
fn resolve_project_path_rules() {
    let c = config();
    let l = rust_lang();
    assert_eq!(resolve_project_path_in("web", &l, &c, None, Some("/home/u".into())), "/home/u/sync/Code/Rust/web");
    assert_eq!(resolve_project_path_in("web", &l, &c, Some("/abs/web"), None), "/abs/web");
    assert_eq!(resolve_project_path_in("web", &l, &c, Some("~/x"), Some("/home/u".into())), "/home/u/x");
    assert_eq!(resolve_project_path_in("web", &l, &c, Some("rel/x"), None), "/home/u/sync/rel/x");
    assert_eq!(expand_tilde("~", Some("/h".into())), "/h");
}

#[test]
fn build_wl_content_new_project() {
    let l = rust_lang();
    let inc = vec!["git".to_string(), "overseer".to_string()];
    let text = build_wl_content("web", &l, None, &inc);
    assert_eq!(
        text,
        "name=\"web\"\nlang=\"rust\"\ndesc=\"\"\ntags=[]\nincludes=[\"git\",\"overseer\"]\nbuild=\"cargo build\"\ncheck=\"cargo clippy\"\n"
    );
    let wl = parse_wl_content(&text).unwrap();
    assert_eq!(wl.name, Some("web".into()));
    assert_eq!(wl.lang, Some("rust".into()));
    assert_eq!(wl.desc, Some("".into()));
    assert!(wl.tags.is_empty());
    assert_eq!(wl.includes, inc);
    assert_eq!(wl.build, Some("cargo build".into()));
    assert_eq!(wl.run, None);
    assert_eq!(wl.test, None);
    assert_eq!(wl.check, Some("cargo clippy".into()));
}

#[test]
fn build_wl_content_carries_over_existing() {
    let l = rust_lang();
    let existing = WlFile {
        name: Some("web".into()),
        lang: Some("rust".into()),
        desc: Some("site".into()),
        tags: vec!["a".into()],
        includes: vec![],
        build: Some("make".into()),
        run: Some("x".into()),
        test: None,
        check: None,
        overseer_template: None,
        setup: None,
    };
    let text = build_wl_content("web", &l, Some(&existing), &vec![]);
    assert_eq!(
        text,
        "name=\"web\"\nlang=\"rust\"\ndesc=\"site\"\ntags=[\"a\"]\nincludes=[]\nbuild=\"make\"\ncheck=\"cargo clippy\"\n"
    );
}

#[test]
fn comma_list_trims_items() {
    assert_eq!(split_comma_list("git, overseer"), vec!["git", "overseer"]);
}

#[test]
fn lang_pack_scaffold() {
    assert_eq!(
        lang_wl_template("zig", "Code/Zig", "none"),
        "name=\"zig\"\ndesc=\"zig\"\npath=\"Code/Zig\"\ndirenv=\"none\"\nrequires=[]\nsetup_priority=\"10\"\nbuild=\"nix build\"\nrun=\"nix run\"\ntest=\"nix flake check\"\ncheck=\"nix flake check\"\n"
    );
    assert_eq!(lang_add_args(None, Some("p"), None), Err(LangAddError::MissingName));
    assert_eq!(lang_add_args(Some("z"), None, None), Err(LangAddError::MissingPath));
    assert_eq!(
        lang_add_args(Some("z"), Some("p"), None),
        Ok(("z".to_string(), "p".to_string(), "none".to_string()))
    );
    let h = pack_header();
    assert_eq!(h[0], format!("{:15} {:15} {:40}", "LANGUAGE", "PATH", "DESCRIPTION"));
    assert_eq!(h[1], "-".repeat(75));
    let l = rust_lang();
    assert_eq!(pack_row_line("rust", Some(&l)), format!("{:15} {:15} {:40}", "rust", "Code/Rust", "Rust"));
    assert_eq!(pack_row_line("odd", None), format!("{:15} {:15} {:40}", "odd", "", ""));
}

#[test]
fn include_command_and_lines() {
    assert!(matches!(include_run(true, Some("git")), IncludeCommand::List));
    assert!(matches!(include_run(false, None), IncludeCommand::List));
    match include_run(false, Some("git")) {
        IncludeCommand::Show(n) => assert_eq!(n, "git"),
        _ => panic!("expected show"),
    }
    let e = parse_include_wl("name=\"git\"\ndesc=\"Git\"\nversion=\"1\"\nprovides=[\"vcs\",\"hooks\"]", String::new(), "/incs/git".into());
    assert_eq!(e.name, "git");
    assert_eq!(e.provides, vec!["vcs", "hooks"]);
    assert_eq!(include_listing("git", &e), vec!["git", "  Git", "  provides: vcs, hooks", ""]);
    assert_eq!(
        include_show(&e),
        vec!["include: git", "description: Git", "version: 1", "provides: vcs, hooks"]
    );
}

#[test]
fn merge_keeps_project_values_and_inherits() {
    let mut project = FieldMap::new();
    project.insert("name", "web");
    project.insert("build", "make");
    project.insert("tags", "[\"a\"]");
    let inc = parse_include_wl(
        "name=\"git\"\nbuild=\"cargo build\"\nrun=\"cargo run\"\ntags=[\"a\",\"b\"]\nfoo=\"bar\"",
        String::new(),
        "/incs/git".into(),
    );
    let incs = vec![inc];
    merge_include_fields(&mut project, &incs);
    assert_eq!(project.get("name"), Some("web".into()));
    assert_eq!(project.get("build"), Some("make".into()));
    assert_eq!(project.get("run"), Some("cargo run".into()));
    assert_eq!(project.get("tags"), Some("[\"a\",\"b\"]".into()));
    assert_eq!(project.get("foo"), None);
}

#[test]
fn merge_arrays_drop_every_repeat() {
    let mut project = FieldMap::new();
    project.insert("tags", "[\"a\",\"a\"]");
    let inc = parse_include_wl("tags=[\"b\",\"a\",\"b\"]", "x".into(), "/incs/x".into());
    merge_include_fields(&mut project, &vec![inc]);
    assert_eq!(project.get("tags"), Some("[\"a\",\"b\"]".into()));
}

#[test]
fn record_wl_change_updates_index_entry() {
    let mut index = ProjectIndex::new("s".into());
    index.projects.push(ProjectEntry {
        name: "old".into(),
        lang: "rust".into(),
        path: "/p/web".into(),
        added_at: "1".into(),
        last_opened: None,
        open_count: 2,
    });
    let prev = state("old", "rust");
    let mut cur = state("web", "go");
    cur.last_wl_mtime = 7;
    let msgs = record_wl_change(&mut index, "/p/web/", "web", &prev, &cur, "9".into(), &vec!["git".into()]);
    assert_eq!(
        msgs,
        vec![
            "web: name: \"old\" \u{2192} \"web\"",
            "web: lang: \"rust\" \u{2192} \"go\"",
            "web: applied includes: git",
            "web: changed: name, lang, last_wl_mtime",
        ]
    );
    assert_eq!(index.projects.len(), 1);
    assert_eq!(index.projects[0].name, "web");
    assert_eq!(index.projects[0].lang, "go");
    assert_eq!(index.projects[0].open_count, 2);
}

#[test]
fn record_wl_change_adds_new_project() {
    let mut index = ProjectIndex::new("s".into());
    let prev = ProjectState::default();
    let cur = state("web", "rust");
    let msgs = record_wl_change(&mut index, "/p/web", "web", &prev, &cur, "9".into(), &vec![]);
    assert_eq!(
        msgs,
        vec!["web: added to index", "web: no include changes", "web: changed: name, lang"]
    );
    assert_eq!(index.projects.len(), 1);
    assert_eq!(index.projects[0].added_at, "9");
    assert_eq!(index.projects[0].path, "/p/web");
}

#[test]
fn include_sync_plan_for_edit() {
    let plan = plan_include_sync(&vec!["a".into(), "b".into()], &vec![]);
    assert_eq!(plan.to_run, vec!["a", "b"]);
}

#[test]
fn create_records_through_diff_unless_no_open() {
    assert!(records_by_diff(false, false));
    assert!(records_by_diff(true, true));
    assert!(!records_by_diff(true, false));
    let mut l = rust_lang();
    assert!(runs_lang_setup(&l));
    l.direnv = "none".into();
    assert!(!runs_lang_setup(&l));
}

#[test]
fn registry_candidates_default_then_custom() {
    let c = config();
    assert_eq!(
        c.lang_file_candidates("rust"),
        vec!["/langs/default/rust/lang.wl", "/langs/custom/rust/lang.wl"]
    );
    assert_eq!(c.include_dir_candidates("git"), vec!["/incs/default/git", "/incs/custom/git"]);
    assert_eq!(forge::config::first_existing(&vec![false, true]), Some(1));
    assert_eq!(forge::config::first_existing(&vec![true, true]), Some(0));
    assert_eq!(forge::config::first_existing(&vec![false, false]), None);
}

fn pairs(v: &[(&str, &str)]) -> Vec<(String, String)> {
    v.iter().map(|(k, x)| (k.to_string(), x.to_string())).collect()
}

#[test]
fn include_env_lists_common_variables() {
    let env = include_env(&config(), "demo", "/home/u/sync/demo");
    assert_eq!(
        env,
        pairs(&[
            ("FORGE_PROJECT_NAME", "demo"),
            ("FORGE_PROJECT_PATH", "/home/u/sync/demo"),
            ("FORGE_SYNC_BASE", "/home/u/sync"),
            ("FORGE_GITHUB_USER", "me"),
            ("FORGE_EDITOR", "nvim"),
            ("FORGE_DRY_RUN", "0"),
        ])
    );
}

#[test]
fn lang_env_adds_language_variables() {
    let env = lang_env(&config(), "demo", "/p/demo", "rust", "/langs/rust");
    assert_eq!(
        env,
        pairs(&[
            ("FORGE_PROJECT_NAME", "demo"),
            ("FORGE_PROJECT_PATH", "/p/demo"),
            ("FORGE_LANG", "rust"),
            ("FORGE_LANG_TEMPLATE_DIR", "/langs/rust"),
            ("FORGE_SYNC_BASE", "/home/u/sync"),
            ("FORGE_GITHUB_USER", "me"),
            ("FORGE_EDITOR", "nvim"),
            ("FORGE_DRY_RUN", "0"),
        ])
    );
}
