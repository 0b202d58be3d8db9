use forge::overseer::{action, OverseerAction, OverseerError};
use forge::overseer::{build_command, escape_lua, project_templates, task_commands, task_template, template_file_names};
use forge::wl_parser::WlFile;

fn wl(build: Option<&str>, test: Option<&str>, check: Option<&str>) -> WlFile {
    WlFile {
        name: None,
        lang: None,
        desc: None,
        tags: vec![],
        includes: vec![],
        build: build.map(|s| s.to_string()),
        run: None,
        test: test.map(|s| s.to_string()),
        check: check.map(|s| s.to_string()),
        overseer_template: None,
        setup: None,
    }
}

#[test]
fn escape_lua_escapes_backslash_and_quote() {
    assert_eq!(escape_lua("a\"b\\c"), "a\\\"b\\\\c");
    assert_eq!(escape_lua("plain"), "plain");
}

#[test]
fn task_template_content() {
    let (file, content) = task_template("web", "/p/web", "build", "make \"all\"", "BUILD");
    assert_eq!(file, "web_build.lua");
    let expected = "return {\n  name = \"web_build\",\n  builder = function()\n    return {\n      cmd = { \"bash\", \"-c\", \"make \\\"all\\\"\" },\n      cwd = \"/p/web\",\n      components = { \"default\" },\n    }\n  end,\n  tags = { overseer.TAG.BUILD },\n  desc = \"web_build\",\n}\n";
    assert_eq!(content, expected);
}

#[test]
fn task_commands_fall_back_to_nix() {
    let (b, r, c) = task_commands(None);
    assert_eq!((b.as_str(), r.as_str(), c.as_str()), ("nix build", "nix run", "nix flake check"));
    let w = wl(Some("cargo build"), None, Some("cargo clippy"));
    let (b, r, c) = task_commands(Some(&w));
    assert_eq!((b.as_str(), r.as_str(), c.as_str()), ("cargo build", "nix run", "cargo clippy"));
    let w2 = wl(None, Some("cargo test"), Some("cargo clippy"));
    let (_, _, c2) = task_commands(Some(&w2));
    assert_eq!(c2, "cargo test");
}

#[test]
fn project_templates_three_tasks() {
    let t = project_templates("p", "/p", None);
    assert_eq!(t.len(), 3);
    assert_eq!(t[0].0, "p_build.lua");
    assert_eq!(t[1].0, "p_run.lua");
    assert_eq!(t[2].0, "p_check.lua");
    assert!(t[2].1.contains("overseer.TAG.TEST"));
    assert!(t[1].1.contains("\"nix run\""));
    assert_eq!(template_file_names("p"), vec!["p_build.lua", "p_run.lua", "p_check.lua"]);
}

#[test]
fn overseer_def_build_command() {
    assert_eq!(build_command(&wl(None, None, None)), "nix build");
    assert_eq!(build_command(&wl(Some("make"), None, None)), "make");
}

#[test]
fn overseer_action_choice() {
    assert_eq!(action(false, None, true).unwrap_err(), OverseerError::RmNeedsName);
    assert!(matches!(action(true, Some("p"), true), Ok(OverseerAction::Remove(ref n)) if n == "p"));
    assert!(matches!(action(false, None, false), Ok(OverseerAction::Picker)));
    assert!(matches!(action(true, None, false), Ok(OverseerAction::All)));
    assert!(matches!(action(false, Some("p"), false), Ok(OverseerAction::One(ref n)) if n == "p"));
}
