use forge::applied_includes::{diff_applied, parse_applied, plan_include_sync, render_applied};

#[test]
fn load_returns_empty_when_file_missing() {
    // A missing file reads as empty content.
    let result = parse_applied("");
    assert_eq!(result, Vec::<String>::new());
}

#[test]
fn load_reads_single_include() {
    let result = parse_applied("git\n");
    assert_eq!(result, vec!["git"]);
}

#[test]
fn load_reads_multiple_includes() {
    let result = parse_applied("git\noverseer\nsomething\n");
    assert_eq!(result, vec!["git", "overseer", "something"]);
}

#[test]
fn load_ignores_empty_lines() {
    let result = parse_applied("git\n\noverseer\n\n");
    assert_eq!(result, vec!["git", "overseer"]);
}

#[test]
fn applied_includes_save_and_load_roundtrip() {
    let inc = vec!["git".to_string(), "overseer".to_string()];
    let text = render_applied(&inc);
    let loaded = parse_applied(&text);
    assert_eq!(loaded, inc);
}

#[test]
fn diff_applied_returns_new_includes() {
    let current = vec!["git".to_string(), "overseer".to_string()];
    let applied = vec!["git".to_string()];
    let result = diff_applied(&current, &applied);
    assert_eq!(result, vec!["overseer"]);
}

#[test]
fn diff_applied_empty_when_all_applied() {
    let current = vec!["git".to_string()];
    let applied = vec!["git".to_string()];
    let result = diff_applied(&current, &applied);
    assert!(result.is_empty());
}

#[test]
fn diff_applied_empty_when_no_current() {
    let current: Vec<String> = vec![];
    let applied = vec!["git".to_string()];
    let result = diff_applied(&current, &applied);
    assert!(result.is_empty());
}

#[test]
fn render_applied_writes_one_name_per_line() {
    let inc = vec!["git".to_string(), "overseer".to_string()];
    assert_eq!(render_applied(&inc), "git\noverseer");
}

#[test]
fn parse_applied_trims_lines() {
    assert_eq!(parse_applied("  git  \r\noverseer"), vec!["git", "overseer"]);
}

#[test]
fn diff_applied_keeps_order_of_current() {
    let current = vec!["c".to_string(), "a".to_string(), "b".to_string()];
    let applied = vec!["a".to_string()];
    assert_eq!(diff_applied(&current, &applied), vec!["c", "b"]);
}

#[test]
fn plan_include_sync_runs_new_and_records_them() {
    let current = vec!["git".to_string(), "overseer".to_string()];
    let applied = vec!["git".to_string()];
    let plan = plan_include_sync(&current, &applied);
    assert_eq!(plan.to_run, vec!["overseer"]);
    assert_eq!(plan.save, Some(vec!["git".to_string(), "overseer".to_string()]));
}

#[test]
fn plan_include_sync_nothing_to_do() {
    let current = vec!["git".to_string()];
    let applied = vec!["git".to_string()];
    let plan = plan_include_sync(&current, &applied);
    assert!(plan.to_run.is_empty());
    assert_eq!(plan.save, None);
    // after a sync, nothing is left to apply
    let again = diff_applied(&current, &applied);
    assert!(again.is_empty());
}

#[test]
fn after_recording_a_sync_nothing_is_left() {
    let current = vec!["git".to_string(), "overseer".to_string(), "nix".to_string()];
    let applied = vec!["nix".to_string()];
    let plan = plan_include_sync(&current, &applied);
    let saved = plan.save.unwrap();
    assert_eq!(saved, vec!["nix", "git", "overseer"]);
    assert!(diff_applied(&current, &saved).is_empty());
}

#[test]
fn record_setup_keeps_setups_that_ran_before_a_failure() {
    let applied = vec!["a".to_string()];
    let plan = forge::applied_includes::plan_include_sync(
        &vec!["a".to_string(), "i1".to_string(), "i2".to_string()],
        &applied,
    );
    assert_eq!(plan.to_run, vec!["i1".to_string(), "i2".to_string()]);
    let after_i1 = forge::applied_includes::record_setup(&applied, "i1", true);
    assert_eq!(after_i1, vec!["a".to_string(), "i1".to_string()]);
    let after_i2 = forge::applied_includes::record_setup(&after_i1, "i2", false);
    assert_eq!(after_i2, vec!["a".to_string(), "i1".to_string()]);
    let all_ok = forge::applied_includes::record_setup(&after_i1, "i2", true);
    assert_eq!(Some(all_ok), plan.save);
}
