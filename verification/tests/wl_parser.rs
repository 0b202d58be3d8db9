use forge::wl_parser::render_array_chars;
use forge::wl_parser::repeated_keys;
use forge::wl_parser::{
    fields_would_panic, is_bracket_balanced, json_array_would_panic, parse_fields,
    parse_json_array, parse_lang_wl_content, parse_wl_content, strip_quotes,
    wl_content_would_panic, WlError,
};

#[test]
fn strip_quotes_double() {
    assert_eq!(strip_quotes("\"hello\""), "hello");
}

#[test]
fn strip_quotes_single() {
    assert_eq!(strip_quotes("'world'"), "world");
}

#[test]
fn strip_quotes_no_quotes() {
    assert_eq!(strip_quotes("plain"), "plain");
}

#[test]
fn strip_quotes_with_whitespace() {
    assert_eq!(strip_quotes("  \"spacy\"  "), "spacy");
}

#[test]
fn strip_quotes_mismatched_kept() {
    assert_eq!(strip_quotes("\"half'"), "\"half'");
}

#[test]
fn parse_json_array_empty() {
    assert_eq!(parse_json_array("[]"), Vec::<String>::new());
}

#[test]
fn parse_json_array_single() {
    assert_eq!(parse_json_array("[\"rust\"]"), vec!["rust"]);
}

#[test]
fn parse_json_array_multiple() {
    assert_eq!(parse_json_array("[\"cli\",\"wasm\",\"test\"]"), vec!["cli", "wasm", "test"]);
}

#[test]
fn parse_json_array_with_whitespace() {
    assert_eq!(parse_json_array("[  \"a\", \"b\"  ]"), vec!["a", "b"]);
}

#[test]
fn parse_json_array_not_array() {
    assert_eq!(parse_json_array("\"not\""), Vec::<String>::new());
}

#[test]
fn parse_json_array_single_quotes() {
    assert_eq!(parse_json_array("['rust','python']"), vec!["rust", "python"]);
}

#[test]
fn parse_json_array_unbalanced_is_empty() {
    assert_eq!(parse_json_array("[\"a\"]]"), Vec::<String>::new());
    assert!(!is_bracket_balanced(&"[\"a\"]]".chars().collect::<Vec<char>>()));
}

#[test]
fn json_array_lone_quote_detected() {
    let v: Vec<char> = "[']".chars().collect();
    assert!(json_array_would_panic(&v));
    let unbalanced: Vec<char> = "[\"]".chars().collect();
    assert!(!json_array_would_panic(&unbalanced));
}

#[test]
fn parse_wl_minimal() {
    let wl = parse_wl_content("name=\"myproject\"\nlang=\"rust\"").unwrap();
    assert_eq!(wl.name, Some("myproject".into()));
    assert_eq!(wl.lang, Some("rust".into()));
}

#[test]
fn parse_wl_all_fields() {
    let text = r#"name="test"
lang="rust"
desc="A test project"
tags=["cli","wasm"]
includes=["git","overseer"]
build="cargo build"
run="cargo run"
test="cargo test"
check="cargo clippy"
"#;
    assert!(!wl_content_would_panic(text));
    let wl = parse_wl_content(text).unwrap();
    assert_eq!(wl.name, Some("test".into()));
    assert_eq!(wl.desc, Some("A test project".into()));
    assert_eq!(wl.tags, vec!["cli", "wasm"]);
    assert_eq!(wl.includes, vec!["git", "overseer"]);
    assert_eq!(wl.build, Some("cargo build".into()));
}

#[test]
fn parse_wl_empty_arrays() {
    let wl = parse_wl_content("name=\"test\"\ntags=[]\nincludes=[]").unwrap();
    assert!(wl.tags.is_empty());
    assert!(wl.includes.is_empty());
}

#[test]
fn parse_wl_ignores_comments() {
    let wl = parse_wl_content("# comment\nname=\"test\"\nlang=\"rust\" # inline").unwrap();
    assert_eq!(wl.name, Some("test".into()));
    assert_eq!(wl.lang, Some("rust".into()));
}

#[test]
fn parse_wl_malformed_line() {
    let result = parse_wl_content("name=\"test\"\nthis line is malformed\nlang=\"rust\"");
    assert!(result.is_err());
    match result {
        Err(WlError::MalformedLine { line }) => assert_eq!(line, "this line is malformed"),
        _ => panic!("expected a malformed line"),
    }
}

#[test]
fn parse_wl_unclosed_bracket() {
    let wl = parse_wl_content("name=\"test\"\ntags=[\"cli").unwrap();
    assert_eq!(wl.name, Some("test".into()));
    assert_eq!(wl.tags, Vec::<String>::new());
}

#[test]
fn parse_wl_unquoted_string() {
    let result = parse_wl_content("name=test");
    assert!(result.is_err());
    match result {
        Err(WlError::UnquotedValue { raw }) => assert_eq!(raw, "test"),
        _ => panic!("expected an unquoted value"),
    }
}

#[test]
fn parse_wl_duplicate_key_keeps_last() {
    let wl = parse_wl_content("name=\"first\"\nname=\"second\"").unwrap();
    assert_eq!(wl.name, Some("second".into()));
}

#[test]
fn parse_wl_extra_fields() {
    let wl = parse_wl_content("overseer_template=\"t\"\nsetup=\"s\"").unwrap();
    assert_eq!(wl.overseer_template, Some("t".into()));
    assert_eq!(wl.setup, Some("s".into()));
    assert_eq!(wl.name, None);
}

#[test]
fn parse_lang_wl_basic() {
    let text = r#"name="rust"
desc="Rust language support"
path="languages/rust"
direnv="use nix"
setup_priority="100"
build="cargo build"
run="cargo run"
"#;
    let lang = parse_lang_wl_content(text).unwrap();
    assert_eq!(lang.name, "rust");
    assert_eq!(lang.build, Some("cargo build".into()));
    assert_eq!(lang.path, "languages/rust");
}

#[test]
fn parse_lang_wl_optional_fields_absent() {
    let lang =
        parse_lang_wl_content("name=\"python\"\ndesc=\"Python\"\npath=\"python\"\ndirenv=\"use poetry\"")
            .unwrap();
    assert_eq!(lang.name, "python");
    assert_eq!(lang.build, None);
    assert_eq!(lang.direnv, "use poetry");
}

#[test]
fn parse_fields_reads_keys() {
    let f = parse_fields("a = \"1\"\nb='2'").unwrap();
    assert_eq!(f.get("a"), Some("1".to_string()));
    assert_eq!(f.get("b"), Some("2".to_string()));
    assert_eq!(f.len(), 2);
    assert!(!fields_would_panic("a=\"1\""));
    assert!(fields_would_panic("a=\""));
}

#[test]
fn rendered_array_reads_back() {
    let xs: Vec<Vec<char>> = vec!["cli".chars().collect(), "a b".chars().collect()];
    let text: String = render_array_chars(&xs).into_iter().collect();
    assert_eq!(text, "[\"cli\",\"a b\"]");
    assert_eq!(parse_json_array(&text), vec!["cli", "a b"]);
}

#[test]
fn repeated_keys_lists_each_key_set_twice() {
    let content = "name=\"first\"\n# name=\"x\"\nlang=\"rust\"\nname=\"second\"\nname=\"third\"\ntags=[]\ntags=[\"a\"]\n";
    assert_eq!(repeated_keys(content), vec!["name".to_string(), "tags".to_string()]);
    let w = parse_wl_content(content).unwrap();
    assert_eq!(w.name, Some("third".to_string()));
    assert!(repeated_keys("name=\"a\"\nlang=\"b\"\n").is_empty());
}
