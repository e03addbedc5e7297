use cerf::ast::Arg;
use cerf::globbing::{
    contains_glob_chars, expand_arg, expand_globs, expand_globs_with, expand_tilde,
};

#[test]
fn test_no_glob_chars_passes_through() {
    let args = vec![Arg::plain("hello"), Arg::plain("-la")];
    let result = expand_globs(&args);
    assert_eq!(result, vec!["hello", "-la"]);
}

#[test]
fn test_quoted_arg_not_expanded() {
    let args = vec![Arg::new("*.rs", true)];
    let result = expand_globs(&args);
    assert_eq!(result, vec!["*.rs"]);
}

#[test]
fn test_glob_no_matches_kept_as_is() {
    let args = vec![Arg::plain("*.this_extension_should_not_exist_xyzzy")];
    let result = expand_globs(&args);
    assert_eq!(result, vec!["*.this_extension_should_not_exist_xyzzy"]);
}

#[test]
fn wildcard_characters_are_recognised() {
    assert!(contains_glob_chars("*.rs"));
    assert!(contains_glob_chars("file?"));
    assert!(contains_glob_chars("[ab]c"));
    assert!(!contains_glob_chars("plain.txt"));
    assert!(!contains_glob_chars(""));
    assert!(!contains_glob_chars("a]b{c}"));
}

#[test]
fn matches_come_out_sorted() {
    let arg = Arg::plain("*.txt");
    let answer = Some(vec![
        Some("b.txt".to_string()),
        None,
        Some("a.txt".to_string()),
        Some("B.txt".to_string()),
        Some("a.txt".to_string()),
    ]);
    assert_eq!(expand_arg(&arg, answer), vec!["B.txt", "a.txt", "a.txt", "b.txt"]);
}

#[test]
fn answer_without_readable_match_keeps_the_pattern() {
    let arg = Arg::plain("x*");
    assert_eq!(expand_arg(&arg, None), vec!["x*"]);
    assert_eq!(expand_arg(&arg, Some(vec![])), vec!["x*"]);
    assert_eq!(expand_arg(&arg, Some(vec![None, None])), vec!["x*"]);
}

#[test]
fn quoted_argument_ignores_the_answer() {
    let arg = Arg::new("*.rs", true);
    let answer = Some(vec![Some("main.rs".to_string())]);
    assert_eq!(expand_arg(&arg, answer), vec!["*.rs"]);
    let plain = Arg::plain("main");
    let answer = Some(vec![Some("other".to_string())]);
    assert_eq!(expand_arg(&plain, answer), vec!["main"]);
}

#[test]
fn arguments_expand_one_after_the_other() {
    let args = vec![Arg::plain("ls"), Arg::plain("*.c"), Arg::new("*.c", true), Arg::plain("z?")];
    let answers = vec![
        None,
        Some(vec![Some("y.c".to_string()), Some("x.c".to_string())]),
        Some(vec![Some("never.c".to_string())]),
        Some(vec![]),
    ];
    assert_eq!(expand_globs_with(&args, answers), vec!["ls", "x.c", "y.c", "*.c", "z?"]);
}

#[test]
fn glob_lists_the_root_in_order() {
    let result = expand_globs(&[Arg::plain("/*")]);
    assert!(!result.is_empty());
    assert!(result.iter().all(|p| p.starts_with('/') && !p.contains('*')));
    let mut sorted = result.clone();
    sorted.sort();
    assert_eq!(result, sorted);
    assert_eq!(expand_globs(&[Arg::new("/*", true)]), vec!["/*"]);
}

#[test]
fn tilde_is_expanded_in_unquoted_words() {
    let args = vec![
        Arg::plain("~"),
        Arg::plain("~/src/../x"),
        Arg::new("~/quoted", true),
        Arg::plain("a~"),
        Arg::plain("~user"),
        Arg::plain("plain/../kept"),
    ];
    assert_eq!(
        expand_tilde(&args, Some("/home/al")),
        vec![
            Arg::plain("/home/al"),
            Arg::plain("/home/al/x"),
            Arg::new("~/quoted", true),
            Arg::plain("a~"),
            Arg::plain("~user"),
            Arg::plain("plain/../kept"),
        ]
    );
    assert_eq!(expand_tilde(&args, None), args);
}
