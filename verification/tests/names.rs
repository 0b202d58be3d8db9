use forge::names::{sort_names, str_less};

#[test]
fn str_less_orders_like_str() {
    assert!(str_less("a", "b"));
    assert!(str_less("ab", "abc"));
    assert!(!str_less("abc", "ab"));
    assert!(!str_less("x", "x"));
    assert!(str_less("Z", "a"));
    assert_eq!(str_less("é", "z"), "é" < "z");
}

#[test]
fn sort_names_sorts_and_keeps_duplicates() {
    let v: Vec<String> = vec!["rust".into(), "c".into(), "python".into(), "cpp".into(), "c".into()];
    assert_eq!(sort_names(&v), vec!["c", "c", "cpp", "python", "rust"]);
    let mut expected = v.clone();
    expected.sort();
    assert_eq!(sort_names(&v), expected);
    assert!(sort_names(&vec![]).is_empty());
}
