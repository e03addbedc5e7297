use cerf::expand::expand_vars;
use cerf::strmap::StrMap;

#[test]
fn expand_test_expand_known_var() {
    let mut vars = StrMap::new();
    vars.insert("CERF_TEST_VAR", "hello");
    assert_eq!(expand_vars("$CERF_TEST_VAR", &vars), "hello");
    assert_eq!(expand_vars("${CERF_TEST_VAR}", &vars), "hello");
}

#[test]
fn expand_test_expand_missing_var_is_empty() {
    let vars = StrMap::new();
    assert_eq!(expand_vars("$CERF_UNDEFINED_XYZ", &vars), "");
    assert_eq!(expand_vars("${CERF_UNDEFINED_XYZ}", &vars), "");
}

#[test]
fn expand_test_expand_dollar_dollar_escape() {
    let vars = StrMap::new();
    assert_eq!(expand_vars("$$", &vars), "$");
    assert_eq!(expand_vars("$$$", &vars), "$$");
    assert_eq!(expand_vars("cost: $$5", &vars), "cost: $5");
}

#[test]
fn expand_test_expand_bare_dollar_kept() {
    let vars = StrMap::new();
    assert_eq!(expand_vars("$ ", &vars), "$ ");
    assert_eq!(expand_vars("$", &vars), "$");
}

#[test]
fn expand_test_expand_inline() {
    let mut vars = StrMap::new();
    vars.insert("CERF_GREET", "world");
    assert_eq!(expand_vars("hello $CERF_GREET!", &vars), "hello world!");
}

#[test]
fn expand_test_expand_multiple_vars() {
    let mut vars = StrMap::new();
    vars.insert("CERF_A", "foo");
    vars.insert("CERF_B", "bar");
    assert_eq!(expand_vars("$CERF_A/$CERF_B", &vars), "foo/bar");
}

#[test]
fn expand_test_expand_no_dollar_unchanged() {
    let vars = StrMap::new();
    assert_eq!(expand_vars("ls -la", &vars), "ls -la");
    assert_eq!(expand_vars("", &vars), "");
}

#[test]
fn parser_test_expand_known_var() {
    let mut vars = StrMap::new();
    vars.insert("CERF_TEST_VAR", "hello");
    assert_eq!(expand_vars("$CERF_TEST_VAR", &vars), "hello");
    assert_eq!(expand_vars("${CERF_TEST_VAR}", &vars), "hello");
}

#[test]
fn parser_test_expand_missing_var_is_empty() {
    let vars = StrMap::new();
    assert_eq!(expand_vars("$CERF_UNDEFINED_XYZ", &vars), "");
    assert_eq!(expand_vars("${CERF_UNDEFINED_XYZ}", &vars), "");
}

#[test]
fn parser_test_expand_dollar_dollar_escape() {
    let vars = StrMap::new();
    assert_eq!(expand_vars("$$", &vars), "$");
    assert_eq!(expand_vars("$$$", &vars), "$$");
    assert_eq!(expand_vars("cost: $$5", &vars), "cost: $5");
}

#[test]
fn parser_test_expand_bare_dollar_kept() {
    let vars = StrMap::new();
    assert_eq!(expand_vars("$ ", &vars), "$ ");
    assert_eq!(expand_vars("$", &vars), "$");
}

#[test]
fn parser_test_expand_inline() {
    let mut vars = StrMap::new();
    vars.insert("CERF_GREET", "world");
    assert_eq!(expand_vars("hello $CERF_GREET!", &vars), "hello world!");
}

#[test]
fn parser_test_expand_multiple_vars() {
    let mut vars = StrMap::new();
    vars.insert("CERF_A", "foo");
    vars.insert("CERF_B", "bar");
    assert_eq!(expand_vars("$CERF_A/$CERF_B", &vars), "foo/bar");
}

#[test]
fn parser_test_expand_no_dollar_unchanged() {
    let vars = StrMap::new();
    assert_eq!(expand_vars("ls -la", &vars), "ls -la");
    assert_eq!(expand_vars("", &vars), "");
}

#[test]
fn braces_without_close_take_the_rest() {
    let mut vars = StrMap::new();
    vars.insert("A", "x");
    assert_eq!(expand_vars("${A", &vars), "x");
    assert_eq!(expand_vars("a${A}b${}c", &vars), "axbc");
}

#[test]
fn name_stops_at_the_first_other_character() {
    let mut vars = StrMap::new();
    vars.insert("A", "x");
    vars.insert("A_1", "y");
    assert_eq!(expand_vars("$A-$A_1.$1", &vars), "x-y.$1");
}

#[test]
fn map_rebinds_and_unbinds() {
    let mut vars = StrMap::new();
    vars.insert("b", "1");
    vars.insert("a", "2");
    vars.insert("b", "3");
    assert_eq!(vars.len(), 2);
    assert_eq!(vars.get("b").map(|s| s.as_str()), Some("3"));
    let listed = vars.to_vec();
    assert_eq!(listed, vec![("a".to_string(), "2".to_string()), ("b".to_string(), "3".to_string())]);
    assert!(vars.remove("a"));
    assert!(!vars.remove("a"));
    assert!(!vars.contains_key("a"));
    assert!(vars.contains_key("b"));
}

#[test]
fn parser_test_parse_line_expands_path_var() {
    let path_val = "/usr/local/bin:/usr/bin:/bin";
    let mut vars = StrMap::new();
    vars.insert("PATH", path_val);
    let expanded = expand_vars("echo $PATH", &vars);
    assert!(expanded.contains(path_val), "expanded line should contain the PATH value");
    assert_eq!(expanded, "echo /usr/local/bin:/usr/bin:/bin");
}

#[test]
fn mod_test_parse_line_expands_path_var() {
    let path_val = "/usr/local/bin:/usr/bin:/bin";
    let mut vars = StrMap::new();
    vars.insert("PATH", path_val);
    let expanded = expand_vars("echo $PATH", &vars);
    assert!(expanded.contains(path_val), "expanded line should contain the PATH value");
    assert_eq!(expand_vars("echo ${PATH}", &vars), expanded);
}
