use forge::index::ProjectEntry;
use forge::listing::{
    edit_command, editor_command, fzf_input, has_all_tags, list_lines, parse_fzf_output,
    parse_tag_filter, pick_action, project_rows, PickAction, PickError, ProjectRow,
};
use forge::wl_parser::WlFile;

fn entry(name: &str, lang: &str, path: &str) -> ProjectEntry {
    ProjectEntry {
        name: name.into(),
        lang: lang.into(),
        path: path.into(),
        added_at: "1".into(),
        last_opened: None,
        open_count: 0,
    }
}

fn wl(desc: Option<&str>, tags: &[&str]) -> WlFile {
    WlFile {
        name: None,
        lang: None,
        desc: desc.map(|d| d.to_string()),
        tags: tags.iter().map(|t| t.to_string()).collect(),
        includes: vec![],
        build: None,
        run: None,
        test: None,
        check: None,
        overseer_template: None,
        setup: None,
    }
}

#[test]
fn tag_filter_splits_and_trims() {
    assert_eq!(parse_tag_filter(Some("cli, web ,x")), vec!["cli", "web", "x"]);
    assert_eq!(parse_tag_filter(None), Vec::<String>::new());
    assert_eq!(parse_tag_filter(Some("a,")), vec!["a", ""]);
}

#[test]
fn has_all_tags_requires_every_tag() {
    let tags = vec!["cli".to_string(), "web".to_string()];
    assert!(has_all_tags(&vec![], &tags));
    assert!(has_all_tags(&vec!["web".to_string()], &tags));
    assert!(!has_all_tags(&vec!["web".to_string(), "db".to_string()], &tags));
}

#[test]
fn project_rows_filters_and_fills_from_wl() {
    let projects = vec![
        entry("a", "rust", "/p/a"),
        entry("b", "go", "/p/b"),
        entry("c", "c", "/p/c"),
    ];
    let wls = vec![Some(wl(Some("first"), &["cli"])), None, Some(wl(None, &["cli", "web"]))];
    let all = project_rows(&projects, &wls, &vec![]);
    assert_eq!(all.len(), 3);
    assert_eq!(all[0].desc, "first");
    assert_eq!(all[1].desc, "");
    assert!(all[1].tags.is_empty());
    let cli = project_rows(&projects, &wls, &vec!["cli".to_string()]);
    assert_eq!(cli.len(), 2);
    assert_eq!(cli[0].name, "a");
    assert_eq!(cli[1].name, "c");
    assert_eq!(cli[1].lang, "c");
}

#[test]
fn fzf_input_one_line_per_row() {
    let rows = vec![
        ProjectRow {
            name: "a".into(),
            lang: "rust".into(),
            path: "/p/a".into(),
            desc: "d".into(),
            tags: vec!["x".into(), "y".into()],
        },
        ProjectRow {
            name: "b".into(),
            lang: "go".into(),
            path: "/p/b".into(),
            desc: "".into(),
            tags: vec![],
        },
    ];
    assert_eq!(fzf_input(&rows), "a\t/p/a\td\tx,y\nb\t/p/b\t\t");
}

#[test]
fn parse_fzf_output_reads_choice() {
    let c = parse_fzf_output("ctrl-e\nproj\t/p/proj\tdesc\ttags\n").unwrap().unwrap();
    assert_eq!(c.key, "ctrl-e");
    assert_eq!(c.name, "proj");
    assert_eq!(c.path, "/p/proj");
    let enter = parse_fzf_output("\nproj\t/p\n").unwrap().unwrap();
    assert_eq!(enter.key, "");
    assert!(parse_fzf_output("").unwrap().is_none());
    assert!(parse_fzf_output("enter\n").unwrap().is_none());
    assert_eq!(parse_fzf_output("enter\nnotabs").unwrap_err(), PickError::InvalidFzfOutput);
}

#[test]
fn fzf_roundtrip_on_concrete_row() {
    let rows = vec![ProjectRow {
        name: "web".into(),
        lang: "rust".into(),
        path: "/home/u/web".into(),
        desc: "site".into(),
        tags: vec!["a".into()],
    }];
    let out = format!("enter\n{}\n", fzf_input(&rows));
    let c = parse_fzf_output(&out).unwrap().unwrap();
    assert_eq!((c.key.as_str(), c.name.as_str(), c.path.as_str()), ("enter", "web", "/home/u/web"));
}

#[test]
fn pick_action_by_key() {
    assert_eq!(pick_action("enter"), PickAction::Open);
    assert_eq!(pick_action(""), PickAction::Open);
    assert_eq!(pick_action("ctrl-r"), PickAction::Remove);
    assert_eq!(pick_action("ctrl-e"), PickAction::Edit);
    assert_eq!(pick_action("ctrl-o"), PickAction::OpenDir);
    assert_eq!(pick_action("ctrl-d"), PickAction::DryRun);
    assert_eq!(pick_action("ctrl-s"), PickAction::Setup);
    assert_eq!(pick_action("f1"), PickAction::Nothing);
}

#[test]
fn editor_command_adds_oil_for_nvim() {
    assert_eq!(editor_command("nvim", None), "nvim -c Oil");
    assert_eq!(editor_command("/usr/bin/nvim", Some("/p/.wl")), "/usr/bin/nvim -c Oil /p/.wl");
    assert_eq!(editor_command("vim", None), "vim");
    assert_eq!(editor_command("code -w", Some("f")), "code -w f");
    assert_eq!(edit_command("nvim", "/p/.wl"), "nvim /p/.wl");
}

#[test]
fn list_lines_table() {
    let rows = vec![ProjectRow {
        name: "a".into(),
        lang: "rust".into(),
        path: "/p/a".into(),
        desc: "0123456789012345678901234567890123456789".into(),
        tags: vec!["x".into(), "y".into()],
    }];
    let out = list_lines(&rows);
    assert_eq!(out.len(), 3);
    assert_eq!(out[0], format!("{:25} {:10} {:35} {:30}", "NAME", "LANG", "DESC", "TAGS"));
    assert_eq!(out[1], "-".repeat(100));
    assert_eq!(
        out[2],
        format!("{:25} {:10} {:35} {:30}", "a", "rust", "012345678901234567890123456789012", "x,y")
    );
    assert_eq!(list_lines(&vec![]), vec!["no projects found"]);
}
