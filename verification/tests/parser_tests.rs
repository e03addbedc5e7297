use cerf::ast::{arg_values, Connector, RedirectKind};
use cerf::jobs::format_command;
use cerf::parser::{parse, parse_input, parse_line, parse_pipeline, ParsedLine};
use cerf::strmap::StrMap;

fn no_vars() -> StrMap {
    StrMap::new()
}

#[test]
fn parser_test_parse_simple() {
    let cmd = parse_line("ls -la", &no_vars()).unwrap();
    assert_eq!(cmd.name.as_deref(), Some("ls"));
    assert_eq!(arg_values(&cmd.args), vec!["-la"]);
}

#[test]
fn parser_test_parse_quoted() {
    let cmd = parse_line("echo \"hello world\"", &no_vars()).unwrap();
    assert_eq!(cmd.name.as_deref(), Some("echo"));
    assert_eq!(arg_values(&cmd.args), vec!["hello world"]);
}

#[test]
fn parser_test_parse_mixed() {
    let cmd = parse_line("cd \"My Documents\" backup", &no_vars()).unwrap();
    assert_eq!(cmd.name.as_deref(), Some("cd"));
    assert_eq!(arg_values(&cmd.args), vec!["My Documents", "backup"]);
}

#[test]
fn parser_test_extra_spaces() {
    let cmd = parse_line("  ls   -la  ", &no_vars()).unwrap();
    assert_eq!(cmd.name.as_deref(), Some("ls"));
    assert_eq!(arg_values(&cmd.args), vec!["-la"]);
}

#[test]
fn parser_test_empty() {
    assert!(parse_line("", &no_vars()).is_none());
    assert!(parse_line("   ", &no_vars()).is_none());
}

#[test]
fn parser_test_comment() {
    assert!(parse_line("# comment", &no_vars()).is_none());
    assert!(parse_line("   # comment indented", &no_vars()).is_none());
}

#[test]
fn parser_test_semicolon_two_commands() {
    let entries = parse_pipeline("echo hello ; echo world", &no_vars()).unwrap();
    assert_eq!(entries.len(), 2);
    assert_eq!(entries[0].connector, None);
    assert_eq!(entries[0].pipeline.commands[0].name.as_deref(), Some("echo"));
    assert_eq!(entries[1].connector, Some(Connector::Semi));
    assert_eq!(entries[1].pipeline.commands[0].name.as_deref(), Some("echo"));
}

#[test]
fn parser_test_and_operator() {
    let entries = parse_pipeline("make && make install", &no_vars()).unwrap();
    assert_eq!(entries.len(), 2);
    assert_eq!(entries[0].connector, None);
    assert_eq!(entries[0].pipeline.commands[0].name.as_deref(), Some("make"));
    assert_eq!(entries[1].connector, Some(Connector::And));
    assert_eq!(entries[1].pipeline.commands[0].name.as_deref(), Some("make"));
    assert_eq!(arg_values(&entries[1].pipeline.commands[0].args), vec!["install"]);
}

#[test]
fn parser_test_or_operator() {
    let entries = parse_pipeline("cat file.txt || echo missing", &no_vars()).unwrap();
    assert_eq!(entries.len(), 2);
    assert_eq!(entries[0].pipeline.commands[0].name.as_deref(), Some("cat"));
    assert_eq!(entries[1].connector, Some(Connector::Or));
    assert_eq!(entries[1].pipeline.commands[0].name.as_deref(), Some("echo"));
    assert_eq!(arg_values(&entries[1].pipeline.commands[0].args), vec!["missing"]);
}

#[test]
fn parser_test_chained_operators() {
    let entries = parse_pipeline("a && b || c ; d", &no_vars()).unwrap();
    assert_eq!(entries.len(), 4);
    assert_eq!(entries[1].connector, Some(Connector::And));
    assert_eq!(entries[2].connector, Some(Connector::Or));
    assert_eq!(entries[3].connector, Some(Connector::Semi));
}

#[test]
fn parser_test_parse_line_expands_var_in_arg() {
    let mut vars = StrMap::new();
    vars.insert("CERF_DIR", "/tmp/test");
    let cmd = parse_line("cd $CERF_DIR", &vars).unwrap();
    assert_eq!(cmd.name.as_deref(), Some("cd"));
    assert_eq!(arg_values(&cmd.args), vec!["/tmp/test"]);
}

#[test]
fn parser_test_parse_line_expands_var_in_quoted_arg() {
    let mut vars = StrMap::new();
    vars.insert("CERF_MSG", "hello world");
    let cmd = parse_line("echo \"$CERF_MSG\"", &vars).unwrap();
    assert_eq!(cmd.name.as_deref(), Some("echo"));
    assert_eq!(arg_values(&cmd.args), vec!["hello world"]);
}

#[test]
fn mod_test_parse_simple() {
    let cmd = parse_line("ls -la", &no_vars()).unwrap();
    assert_eq!(cmd.name.as_deref(), Some("ls"));
    assert_eq!(arg_values(&cmd.args), vec!["-la"]);
}

#[test]
fn mod_test_parse_quoted() {
    let cmd = parse_line("echo \"hello world\"", &no_vars()).unwrap();
    assert_eq!(cmd.name.as_deref(), Some("echo"));
    assert_eq!(arg_values(&cmd.args), vec!["hello world"]);
}

#[test]
fn mod_test_parse_mixed() {
    let cmd = parse_line("cd \"My Documents\" backup", &no_vars()).unwrap();
    assert_eq!(cmd.name.as_deref(), Some("cd"));
    assert_eq!(arg_values(&cmd.args), vec!["My Documents", "backup"]);
}

#[test]
fn mod_test_extra_spaces() {
    let cmd = parse_line("  ls   -la  ", &no_vars()).unwrap();
    assert_eq!(cmd.name.as_deref(), Some("ls"));
    assert_eq!(arg_values(&cmd.args), vec!["-la"]);
}

#[test]
fn mod_test_empty() {
    assert!(parse_line("", &no_vars()).is_none());
    assert!(parse_line("   ", &no_vars()).is_none());
}

#[test]
fn mod_test_comment() {
    assert!(parse_line("# comment", &no_vars()).is_none());
    assert!(parse_line("   # comment indented", &no_vars()).is_none());
}

#[test]
fn mod_test_semicolon_two_commands() {
    let entries = parse_pipeline("echo hello ; echo world", &no_vars()).unwrap();
    assert_eq!(entries.len(), 2);
    assert_eq!(entries[0].connector, None);
    assert_eq!(entries[0].pipeline.commands[0].name.as_deref(), Some("echo"));
    assert_eq!(entries[1].connector, Some(Connector::Semi));
    assert_eq!(entries[1].pipeline.commands[0].name.as_deref(), Some("echo"));
}

#[test]
fn mod_test_and_operator() {
    let entries = parse_pipeline("make && make install", &no_vars()).unwrap();
    assert_eq!(entries.len(), 2);
    assert_eq!(entries[0].connector, None);
    assert_eq!(entries[0].pipeline.commands[0].name.as_deref(), Some("make"));
    assert_eq!(entries[1].connector, Some(Connector::And));
    assert_eq!(entries[1].pipeline.commands[0].name.as_deref(), Some("make"));
    assert_eq!(arg_values(&entries[1].pipeline.commands[0].args), vec!["install"]);
}

#[test]
fn mod_test_or_operator() {
    let entries = parse_pipeline("cat file.txt || echo missing", &no_vars()).unwrap();
    assert_eq!(entries.len(), 2);
    assert_eq!(entries[0].pipeline.commands[0].name.as_deref(), Some("cat"));
    assert_eq!(entries[1].connector, Some(Connector::Or));
    assert_eq!(entries[1].pipeline.commands[0].name.as_deref(), Some("echo"));
    assert_eq!(arg_values(&entries[1].pipeline.commands[0].args), vec!["missing"]);
}

#[test]
fn mod_test_chained_operators() {
    let entries = parse_pipeline("a && b || c ; d", &no_vars()).unwrap();
    assert_eq!(entries.len(), 4);
    assert_eq!(entries[1].connector, Some(Connector::And));
    assert_eq!(entries[2].connector, Some(Connector::Or));
    assert_eq!(entries[3].connector, Some(Connector::Semi));
}

#[test]
fn test_single_pipe() {
    let entries = parse_pipeline("ls | grep foo", &no_vars()).unwrap();
    assert_eq!(entries.len(), 1);
    let pipeline = &entries[0].pipeline;
    assert_eq!(pipeline.commands.len(), 2);
    assert_eq!(pipeline.commands[0].name.as_deref(), Some("ls"));
    assert_eq!(pipeline.commands[1].name.as_deref(), Some("grep"));
    assert_eq!(arg_values(&pipeline.commands[1].args), vec!["foo"]);
}

#[test]
fn test_multi_pipe() {
    let entries = parse_pipeline("cat f | sort | uniq", &no_vars()).unwrap();
    assert_eq!(entries.len(), 1);
    let pipeline = &entries[0].pipeline;
    assert_eq!(pipeline.commands.len(), 3);
    assert_eq!(pipeline.commands[0].name.as_deref(), Some("cat"));
    assert_eq!(pipeline.commands[1].name.as_deref(), Some("sort"));
    assert_eq!(pipeline.commands[2].name.as_deref(), Some("uniq"));
}

#[test]
fn test_not_operator() {
    let entries = parse_pipeline("! ls", &no_vars()).unwrap();
    assert_eq!(entries.len(), 1);
    assert!(entries[0].pipeline.negated);
    assert_eq!(entries[0].pipeline.commands[0].name.as_deref(), Some("ls"));

    let entries = parse_pipeline("!  ls -la", &no_vars()).unwrap();
    assert_eq!(entries[0].pipeline.commands[0].name.as_deref(), Some("ls"));
    assert!(entries[0].pipeline.negated);
}

#[test]
fn test_not_with_pipe() {
    let entries = parse_pipeline("! ls | grep foo", &no_vars()).unwrap();
    assert_eq!(entries.len(), 1);
    assert!(entries[0].pipeline.negated);
    assert_eq!(entries[0].pipeline.commands.len(), 2);
}

#[test]
fn test_pipe_with_connectors() {
    let entries = parse_pipeline("ls | grep foo && echo done", &no_vars()).unwrap();
    assert_eq!(entries.len(), 2);
    assert_eq!(entries[0].pipeline.commands.len(), 2);
    assert_eq!(entries[0].pipeline.commands[0].name.as_deref(), Some("ls"));
    assert_eq!(entries[0].pipeline.commands[1].name.as_deref(), Some("grep"));
    assert_eq!(entries[1].connector, Some(Connector::And));
    assert_eq!(entries[1].pipeline.commands.len(), 1);
    assert_eq!(entries[1].pipeline.commands[0].name.as_deref(), Some("echo"));
}

#[test]
fn test_redirect_stdout() {
    let entries = parse_pipeline("echo hi > out.txt", &no_vars()).unwrap();
    let cmd = &entries[0].pipeline.commands[0];
    assert_eq!(cmd.name.as_deref(), Some("echo"));
    assert_eq!(arg_values(&cmd.args), vec!["hi"]);
    assert_eq!(cmd.redirects.len(), 1);
    assert_eq!(cmd.redirects[0].kind, RedirectKind::StdoutOverwrite);
    assert_eq!(cmd.redirects[0].file, "out.txt");
}

#[test]
fn test_redirect_append() {
    let entries = parse_pipeline("echo hi >> out.txt", &no_vars()).unwrap();
    let cmd = &entries[0].pipeline.commands[0];
    assert_eq!(cmd.redirects.len(), 1);
    assert_eq!(cmd.redirects[0].kind, RedirectKind::StdoutAppend);
    assert_eq!(cmd.redirects[0].file, "out.txt");
}

#[test]
fn test_redirect_stdin() {
    let entries = parse_pipeline("sort < in.txt", &no_vars()).unwrap();
    let cmd = &entries[0].pipeline.commands[0];
    assert_eq!(cmd.name.as_deref(), Some("sort"));
    assert_eq!(cmd.redirects.len(), 1);
    assert_eq!(cmd.redirects[0].kind, RedirectKind::StdinFrom);
    assert_eq!(cmd.redirects[0].file, "in.txt");
}

#[test]
fn test_pipe_with_redirect() {
    let entries = parse_pipeline("cat < in.txt | sort > out.txt", &no_vars()).unwrap();
    let pipeline = &entries[0].pipeline;
    assert_eq!(pipeline.commands.len(), 2);
    assert_eq!(pipeline.commands[0].name.as_deref(), Some("cat"));
    assert_eq!(pipeline.commands[0].redirects.len(), 1);
    assert_eq!(pipeline.commands[0].redirects[0].kind, RedirectKind::StdinFrom);
    assert_eq!(pipeline.commands[1].name.as_deref(), Some("sort"));
    assert_eq!(pipeline.commands[1].redirects.len(), 1);
    assert_eq!(pipeline.commands[1].redirects[0].kind, RedirectKind::StdoutOverwrite);
}

#[test]
fn mod_test_parse_line_expands_var_in_arg() {
    let mut vars = StrMap::new();
    vars.insert("CERF_DIR", "/tmp/test");
    let cmd = parse_line("cd $CERF_DIR", &vars).unwrap();
    assert_eq!(cmd.name.as_deref(), Some("cd"));
    assert_eq!(arg_values(&cmd.args), vec!["/tmp/test"]);
}

#[test]
fn mod_test_parse_line_expands_var_in_quoted_arg() {
    let mut vars = StrMap::new();
    vars.insert("CERF_MSG", "hello world");
    let cmd = parse_line("echo \"$CERF_MSG\"", &vars).unwrap();
    assert_eq!(cmd.name.as_deref(), Some("echo"));
    assert_eq!(arg_values(&cmd.args), vec!["hello world"]);
}

#[test]
fn test_parse_assignment_only() {
    let cmd = parse_line("FOO=bar", &no_vars()).unwrap();
    assert!(cmd.name.is_none());
    assert_eq!(cmd.assignments, vec![("FOO".to_string(), "bar".to_string())]);
}

#[test]
fn test_parse_multiple_assignments() {
    let cmd = parse_line("A=1 B=2 C=3", &no_vars()).unwrap();
    assert_eq!(cmd.assignments.len(), 3);
    assert_eq!(cmd.assignments[0], ("A".to_string(), "1".to_string()));
    assert_eq!(cmd.assignments[2], ("C".to_string(), "3".to_string()));
}

#[test]
fn test_parse_assignment_with_command() {
    let cmd = parse_line("VAR=val ls -l", &no_vars()).unwrap();
    assert_eq!(cmd.name.as_deref(), Some("ls"));
    assert_eq!(cmd.assignments, vec![("VAR".to_string(), "val".to_string())]);
    assert_eq!(arg_values(&cmd.args), vec!["-l"]);
}

#[test]
fn test_parse_assignment_quoted_value() {
    let cmd = parse_line("MSG=\"hello world\" echo", &no_vars()).unwrap();
    assert_eq!(cmd.assignments, vec![("MSG".to_string(), "hello world".to_string())]);
    assert_eq!(cmd.name.as_deref(), Some("echo"));
}

#[test]
fn lone_semicolon_runs_nothing() {
    assert!(parse_input(";", &no_vars()).is_none());
    assert_eq!(parse(";", &no_vars()), ParsedLine::Invalid);
}

#[test]
fn lone_bang_is_rejected() {
    assert_eq!(parse("!", &no_vars()), ParsedLine::Invalid);
    assert_eq!(parse("! ", &no_vars()), ParsedLine::Invalid);
    assert!(parse_input("!", &no_vars()).is_none());
}

#[test]
fn pipe_without_right_side_is_rejected() {
    assert_eq!(parse("ls |", &no_vars()), ParsedLine::Invalid);
    assert_eq!(parse("ls | ", &no_vars()), ParsedLine::Invalid);
    assert_eq!(parse("ls | ; echo", &no_vars()), ParsedLine::Invalid);
    assert!(parse_input("ls |", &no_vars()).is_none());
}

#[test]
fn dangling_logical_connector_is_rejected() {
    assert_eq!(parse("ls &&", &no_vars()), ParsedLine::Invalid);
    assert_eq!(parse("ls ||", &no_vars()), ParsedLine::Invalid);
    assert_eq!(parse("ls ; ; ls", &no_vars()), ParsedLine::Invalid);
}

#[test]
fn unterminated_quote_is_rejected() {
    assert_eq!(parse("echo \"abc", &no_vars()), ParsedLine::Invalid);
    assert_eq!(parse("echo 'abc", &no_vars()), ParsedLine::Invalid);
}

#[test]
fn trailing_semicolon_ends_the_list() {
    let entries = parse_input("ls ;", &no_vars()).unwrap();
    assert_eq!(entries.len(), 1);
    assert!(!entries[0].pipeline.background);
}

#[test]
fn trailing_ampersand_detaches() {
    let entries = parse_input("sleep 60 &", &no_vars()).unwrap();
    assert_eq!(entries.len(), 1);
    assert!(entries[0].pipeline.background);
    assert_eq!(arg_values(&entries[0].pipeline.commands[0].args), vec!["60"]);
}

#[test]
fn ampersand_between_pipelines() {
    let entries = parse_input("a & b", &no_vars()).unwrap();
    assert_eq!(entries.len(), 2);
    assert!(entries[0].pipeline.background);
    assert_eq!(entries[0].connector, None);
    assert_eq!(entries[1].connector, Some(Connector::Amp));
    assert!(!entries[1].pipeline.background);
}

#[test]
fn quoting_flag_follows_the_segments() {
    let cmd = parse_line("echo \"*.rs\" '*.c' a\"b c\" plain \"\"", &no_vars()).unwrap();
    let flags: Vec<bool> = cmd.args.iter().map(|a| a.quoted).collect();
    assert_eq!(arg_values(&cmd.args), vec!["*.rs", "*.c", "ab c", "plain", ""]);
    assert_eq!(flags, vec![true, true, false, false, true]);
}

#[test]
fn single_quotes_keep_double_quotes() {
    let cmd = parse_line("echo 'say \"hi\"' \"it's\"", &no_vars()).unwrap();
    assert_eq!(arg_values(&cmd.args), vec!["say \"hi\"", "it's"]);
}

#[test]
fn bang_inside_a_word_does_not_negate() {
    let entries = parse_input("!ls", &no_vars()).unwrap();
    assert!(!entries[0].pipeline.negated);
    assert_eq!(entries[0].pipeline.commands[0].name.as_deref(), Some("!ls"));
}

#[test]
fn redirect_without_blanks_and_last_wins_order_kept() {
    let cmd = parse_line("cmd >a >>b <c arg", &no_vars()).unwrap();
    assert_eq!(cmd.redirects.len(), 3);
    assert_eq!(cmd.redirects[0].kind, RedirectKind::StdoutOverwrite);
    assert_eq!(cmd.redirects[1].kind, RedirectKind::StdoutAppend);
    assert_eq!(cmd.redirects[1].file, "b");
    assert_eq!(cmd.redirects[2].kind, RedirectKind::StdinFrom);
    assert_eq!(arg_values(&cmd.args), vec!["arg"]);
}

#[test]
fn assignment_needs_an_identifier() {
    let cmd = parse_line("a-b=c", &no_vars()).unwrap();
    assert!(cmd.assignments.is_empty());
    assert_eq!(cmd.name.as_deref(), Some("a-b=c"));
    let cmd = parse_line("EMPTY= ls", &no_vars()).unwrap();
    assert_eq!(cmd.assignments, vec![("EMPTY".to_string(), String::new())]);
    assert_eq!(cmd.name.as_deref(), Some("ls"));
}

#[test]
fn assignment_then_redirect_has_no_name() {
    let cmd = parse_line("FOO=1 > out.txt", &no_vars()).unwrap();
    assert!(cmd.name.is_none());
    assert_eq!(cmd.redirects.len(), 1);
    assert_eq!(cmd.redirects[0].file, "out.txt");
}

#[test]
fn line_that_expands_to_nothing_is_empty() {
    assert_eq!(parse("$CERF_UNSET_VARIABLE", &no_vars()), ParsedLine::Empty);
    assert_eq!(parse("", &no_vars()), ParsedLine::Empty);
    assert_eq!(parse("  # note", &no_vars()), ParsedLine::Empty);
}

#[test]
fn expansion_takes_part_in_splitting() {
    let mut vars = StrMap::new();
    vars.insert("TWO", "a b");
    let cmd = parse_line("echo $TWO", &vars).unwrap();
    assert_eq!(arg_values(&cmd.args), vec!["a", "b"]);
}

#[test]
fn display_string_of_plain_commands_reads_back() {
    for line in [
        "ls -la",
        "cat f | sort | uniq -c",
        "sleep 60 &",
        "make && make install || echo failed ; ls",
        "a | b & c",
    ] {
        let entries = parse_input(line, &no_vars()).unwrap();
        let shown: Vec<String> = entries.iter().map(|e| format_command(&e.pipeline)).collect();
        let mut again = String::new();
        for (entry, text) in entries.iter().zip(&shown) {
            match entry.connector {
                Some(Connector::And) => again.push_str(" && "),
                Some(Connector::Or) => again.push_str(" || "),
                Some(Connector::Semi) => again.push_str(" ; "),
                Some(Connector::Amp) | None => again.push(' '),
            }
            again.push_str(text);
        }
        assert_eq!(parse_input(&again, &no_vars()).unwrap(), entries, "{}", again);
    }
}

#[test]
fn blanks_and_quoting_style_do_not_change_the_list() {
    let a = parse_input("echo  'a b'   >out|wc   -l&&x", &no_vars()).unwrap();
    let b = parse_input("  echo \"a b\" > out | wc -l && x  ", &no_vars()).unwrap();
    assert_eq!(a, b);
}
