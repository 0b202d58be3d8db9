use forge::check::{
    check_content_would_panic, check_probes, check_wl, line_number, report_lines, run,
    validate_array_syntax, validate_syntax, ArraySyntax, CheckError, CheckResult,
    CheckTargetError, CheckWarning,
};
use forge::index::{ProjectEntry, ProjectIndex};

fn chars(s: &str) -> Vec<char> {
    s.chars().collect()
}

#[test]
fn validate_syntax_reports_each_bad_line() {
    let errs = validate_syntax("name=test\nfoo\n# ok\ntags=[\"a]");
    assert_eq!(errs.len(), 3);
    assert_eq!(errs[0].line, Some(1));
    assert_eq!(errs[0].msg, "string value must be quoted: test");
    assert_eq!(errs[1].line, Some(2));
    assert_eq!(
        errs[1].msg,
        "malformed line: expected key=\"value\" or key=[array], got: foo"
    );
    assert_eq!(errs[2].line, Some(4));
    assert_eq!(errs[2].msg, "unclosed string in array");
}

#[test]
fn validate_array_syntax_cases() {
    assert_eq!(validate_array_syntax(&chars("[\"a\",\"b\"]")), ArraySyntax::Valid);
    assert_eq!(validate_array_syntax(&chars("[]")), ArraySyntax::Valid);
    assert_eq!(validate_array_syntax(&chars("\"a\"")), ArraySyntax::NotArray);
    assert_eq!(validate_array_syntax(&chars("[\"a\\")), ArraySyntax::NotArray);
    assert_eq!(validate_array_syntax(&chars("[\"a\\]")), ArraySyntax::TrailingBackslash);
    assert_eq!(validate_array_syntax(&chars("[\"a]")), ArraySyntax::UnclosedString);
}

#[test]
fn line_number_is_one_based_or_one() {
    assert_eq!(line_number("a\nb\nc", "c"), 3);
    assert_eq!(line_number("a\nb", "zz"), 1);
}

#[test]
fn check_wl_stops_at_syntax_errors() {
    let content = "name=test\nlang=\"rust\"";
    assert!(!check_content_would_panic(content));
    let r = check_wl("/p/.wl", content, Some("/l"), Some("/i"), &[]);
    assert_eq!(r.path, "/p/.wl");
    assert_eq!(r.errors.len(), 1);
    assert_eq!(r.errors[0].line, Some(1));
    assert!(r.warnings.is_empty());
}

#[test]
fn check_wl_reports_missing_dirs_and_empty_commands() {
    let content = "name=\"p\"\nlang=\"rust\"\nincludes=[\"git\"]\nbuild=\"\"";
    let probes = check_probes(content, Some("/l"), Some("/i"));
    assert_eq!(probes, vec!["/l/rust", "/i/git"]);
    let existing = vec!["/l/rust".to_string()];
    let r = check_wl("/p/.wl", content, Some("/l"), Some("/i"), &existing);
    assert_eq!(r.errors.len(), 1);
    assert_eq!(r.errors[0].line, None);
    assert_eq!(
        r.errors[0].msg,
        "includes=[\"git\"] \u{2014} no such include (expected dir: /i/git)"
    );
    assert_eq!(r.warnings.len(), 1);
    assert_eq!(
        r.warnings[0].msg,
        "build=\"\" \u{2014} empty; overseer will fall back to \"nix build\""
    );
}

#[test]
fn check_wl_reports_missing_language() {
    let content = "name=\"p\"\nlang=\"zig\"";
    let r = check_wl("x", content, Some("/l"), None, &[]);
    assert_eq!(r.errors.len(), 1);
    assert_eq!(
        r.errors[0].msg,
        "lang=\"zig\" \u{2014} no such language (expected dir: /l/zig)"
    );
}

#[test]
fn check_wl_reports_duplicate_keys() {
    let content = "name=\"a\"\nname=\"b\"";
    let r = check_wl("x", content, None, None, &[]);
    assert_eq!(r.errors.len(), 1);
    assert_eq!(r.errors[0].line, Some(2));
    assert_eq!(r.errors[0].msg, "duplicate field key \"name\"");
}

#[test]
fn report_lines_formats_result() {
    let ok = CheckResult { path: "a".into(), errors: vec![], warnings: vec![] };
    assert_eq!(report_lines(&ok), vec!["\u{2705} a"]);
    let bad = CheckResult {
        path: "b".into(),
        errors: vec![CheckError { line: Some(3), msg: "oops".into() }],
        warnings: vec![CheckWarning { line: None, msg: "hmm".into() }],
    };
    assert_eq!(
        report_lines(&bad),
        vec!["\u{274c} b", "   error:3: oops", "   warning: hmm"]
    );
    let warn = CheckResult {
        path: "c".into(),
        errors: vec![],
        warnings: vec![CheckWarning { line: None, msg: "w".into() }],
    };
    assert_eq!(report_lines(&warn), vec!["\u{26a0}\u{fe0f}  c", "   warning: w"]);
}

#[test]
fn check_run_selects_projects() {
    let mut index = ProjectIndex::new("s".into());
    for n in ["a", "b"] {
        index.projects.push(ProjectEntry {
            name: n.into(),
            lang: "rust".into(),
            path: format!("/p/{}", n),
            added_at: "1".into(),
            last_opened: None,
            open_count: 0,
        });
    }
    assert_eq!(run(&index, None), Ok(vec![0, 1]));
    assert_eq!(run(&index, Some("b")), Ok(vec![1]));
    assert_eq!(run(&index, Some("c")), Err(CheckTargetError::NotFound));
}

fn check_text(content: &str) -> CheckResult {
    assert!(!check_content_would_panic(content));
    let existing = vec!["/l/rust".to_string(), "/i/git".to_string()];
    check_wl("p/.wl", content, Some("/l"), Some("/i"), &existing)
}

#[test]
fn check_wl_valid_file_is_clean() {
    let r = check_text("name=\"test\"\nlang=\"rust\"\ndesc=\"A test project\"\ntags=[\"cli\"]\nincludes=[]\nbuild=\"cargo build\"\n");
    assert!(r.errors.is_empty());
    assert!(r.warnings.is_empty());
}

#[test]
fn check_wl_malformed_line_number() {
    let r = check_text("name=\"test\"\nlang=\"rust\"\nthis line is malformed\n");
    assert_eq!(r.errors.len(), 1);
    assert_eq!(r.errors[0].line, Some(3));
    assert!(r.errors[0].msg.contains("malformed line"));
}

#[test]
fn check_wl_unclosed_bracket() {
    let r = check_text("name=\"test\"\ntags=[\"cli\n");
    assert_eq!(r.errors.len(), 1);
    assert_eq!(r.errors[0].line, Some(2));
    assert!(r.errors[0].msg.contains("unclosed"));
}

#[test]
fn check_wl_unknown_lang_and_include() {
    let r = check_text("name=\"test\"\nlang=\"rustt\"\n");
    assert_eq!(r.errors.len(), 1);
    assert!(r.errors[0].msg.contains("no such language"));
    let r = check_text("name=\"test\"\nincludes=[\"overseerr\"]\n");
    assert_eq!(r.errors.len(), 1);
    assert!(r.errors[0].msg.contains("no such include"));
}

#[test]
fn check_wl_empty_commands_warn() {
    let r = check_text("name=\"test\"\nlang=\"rust\"\nbuild=\"\"\nrun=\"\"\ntest=\"\"\ncheck=\"\"\n");
    assert!(r.errors.is_empty());
    assert_eq!(r.warnings.len(), 4);
}

#[test]
fn check_wl_duplicate_and_unquoted() {
    let r = check_text("name=\"test\"\nname=\"test2\"\n");
    assert_eq!(r.errors.len(), 1);
    assert!(r.errors[0].msg.contains("duplicate"));
    let r = check_text("name=test\n");
    assert_eq!(r.errors.len(), 1);
    assert_eq!(r.errors[0].line, Some(1));
    assert!(r.errors[0].msg.contains("quoted"));
}

#[test]
fn check_wl_arrays_valid() {
    let r = check_text("name=\"test\"\nincludes=[]\ntags=[]\n");
    assert!(r.errors.is_empty() && r.warnings.is_empty());
    let r = check_text("name=\"test\"\ntags=[\"rust\",\"wasm\",\"cli\"]\n");
    assert!(r.errors.is_empty() && r.warnings.is_empty());
}
