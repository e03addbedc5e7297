use cerf::builtins::dirs::{
    cd_target, dir_message, dirs_line, entered, popd_done, popd_target, pushd_done, pushd_target,
    DirError,
};
use cerf::builtins::environment::{assign, export, unset};
use cerf::builtins::settings;
use cerf::builtins::settings::{set_positional_params, shell_quote};
use cerf::builtins::source::{script_lines, source_enter, source_leave, MAX_SOURCE_DEPTH};
use cerf::builtins::{text, Line};
use cerf::state::{
    init_env_vars, option_by_char, option_by_name, option_name, option_names, split_lines,
    EnvChange, ShellOption, ShellOptions, ShellState,
};
use cerf::strmap::StrMap;

fn strings(items: &[&str]) -> Vec<String> {
    items.iter().map(|s| s.to_string()).collect()
}

fn shell() -> ShellState {
    ShellState::new(&vec![("HOME".to_string(), "/home/al".to_string())], Some("/other"))
}

#[test]
fn text_joins_its_pieces() {
    assert_eq!(text(&["a", "", "bc"]), "abc");
    assert_eq!(text(&[]), "");
}

#[test]
fn export_then_unset_leaves_nothing() {
    let mut state = shell();
    let report = export(&strings(&["FOO=bar"]), &mut state.variables, &mut state.env);
    assert_eq!(report.code, 0);
    assert_eq!(report.changes, vec![EnvChange::Put("FOO".to_string(), "bar".to_string())]);
    assert_eq!(state.variables.get("FOO").map(|s| s.as_str()), Some("bar"));
    assert_eq!(state.env.get("FOO").map(|s| s.as_str()), Some("bar"));
    let report = unset(&strings(&["FOO"]), &mut state.variables, &mut state.env);
    assert_eq!(report.code, 0);
    assert_eq!(report.changes, vec![EnvChange::Drop("FOO".to_string())]);
    assert!(state.variables.get("FOO").is_none());
    assert!(state.env.get("FOO").is_none());
}

#[test]
fn export_promotes_and_refuses() {
    let mut vars = StrMap::new();
    let mut env = StrMap::new();
    vars.insert("A", "1");
    let report = export(&strings(&["A", "MISSING", "=x", "B=2=3", "C="]), &mut vars, &mut env);
    assert_eq!(report.code, 1);
    assert_eq!(
        report.lines,
        vec![Line::Diag("cerf: export: '=x': not a valid identifier".to_string())]
    );
    assert_eq!(
        report.changes,
        vec![
            EnvChange::Put("A".to_string(), "1".to_string()),
            EnvChange::Put("B".to_string(), "2=3".to_string()),
            EnvChange::Put("C".to_string(), "".to_string()),
        ]
    );
    assert_eq!(env.to_vec().len(), 3);
    assert!(!vars.contains_key("MISSING"));
    let listed = export(&[], &mut vars, &mut env);
    assert_eq!(listed.code, 0);
    assert_eq!(
        listed.lines,
        vec![
            Line::Out("export A='1'".to_string()),
            Line::Out("export B='2=3'".to_string()),
            Line::Out("export C=''".to_string()),
        ]
    );
    assert!(listed.changes.is_empty());
}

#[test]
fn assignment_follows_the_environment_only_for_exported_names() {
    let mut vars = StrMap::new();
    let mut env = StrMap::new();
    env.insert("PATH", "/bin");
    vars.insert("PATH", "/bin");
    let changes = assign(
        &[("PATH".to_string(), "/usr/bin".to_string()), ("X".to_string(), "1".to_string())],
        &mut vars,
        &mut env,
    );
    assert_eq!(changes, vec![EnvChange::Put("PATH".to_string(), "/usr/bin".to_string())]);
    assert_eq!(env.get("PATH").map(|s| s.as_str()), Some("/usr/bin"));
    assert_eq!(vars.get("X").map(|s| s.as_str()), Some("1"));
    assert!(!env.contains_key("X"));
}

#[test]
fn initial_variables_get_defaults() {
    let vars = init_env_vars(&vec![("A".to_string(), "1".to_string()), ("A".to_string(), "2".to_string())], Some("/h"));
    assert_eq!(vars.get("A").map(|s| s.as_str()), Some("2"));
    assert_eq!(vars.get("HOME").map(|s| s.as_str()), Some("/h"));
    assert_eq!(vars.get("PATH").map(|s| s.as_str()), Some("/usr/local/bin:/usr/bin:/bin"));
    assert_eq!(vars.get("EDITOR").map(|s| s.as_str()), Some("vi"));
    let set = init_env_vars(
        &vec![
            ("HOME".to_string(), "/x".to_string()),
            ("PATH".to_string(), "/p".to_string()),
            ("EDITOR".to_string(), "ed".to_string()),
        ],
        Some("/h"),
    );
    assert_eq!(set.to_vec().len(), 3);
    assert_eq!(set.get("HOME").map(|s| s.as_str()), Some("/x"));
    assert!(init_env_vars(&vec![], None).get("HOME").is_none());
    let state = shell();
    assert_eq!(state.env.to_vec(), state.variables.to_vec());
    assert_eq!(state.jobs.next_job_id(), 1);
}

#[test]
fn cd_targets() {
    let mut state = shell();
    assert_eq!(cd_target(&[], &state, None), Ok("/home/al".to_string()));
    assert_eq!(cd_target(&strings(&["-"]), &state, None), Err(DirError::NoPrevious));
    assert_eq!(cd_target(&strings(&["~/x/.."]), &state, Some("/h")), Ok("/h".to_string()));
    assert_eq!(cd_target(&strings(&["/a/./b", "ignored"]), &state, None), Ok("/a/b".to_string()));
    entered(&mut state, "/start");
    assert_eq!(cd_target(&strings(&["-"]), &state, None), Ok("/start".to_string()));
    state.variables.remove("HOME");
    assert_eq!(cd_target(&[], &state, Some("/h")), Err(DirError::NoHome));
}

#[test]
fn pushd_then_popd_returns() {
    let mut state = shell();
    let before = state.dir_stack.clone();
    let target = pushd_target(&strings(&["/tmp/./x"]), &state, None).unwrap();
    assert_eq!(target, "/tmp/x");
    pushd_done(&mut state, false, "/start");
    assert_eq!(state.dir_stack.len(), before.len() + 1);
    assert_eq!(state.previous_dir.as_deref(), Some("/start"));
    assert_eq!(popd_target(&state), Ok("/start".to_string()));
    popd_done(&mut state, &target);
    assert_eq!(state.dir_stack, before);
    assert_eq!(state.previous_dir.as_deref(), Some("/tmp/x"));
}

#[test]
fn pushd_without_argument_swaps_with_the_top() {
    let mut state = shell();
    assert_eq!(pushd_target(&[], &state, None), Err(DirError::NoOtherDir));
    assert_eq!(popd_target(&state), Err(DirError::StackEmpty));
    pushd_done(&mut state, false, "/a");
    pushd_done(&mut state, false, "/b");
    assert_eq!(pushd_target(&[], &state, None), Ok("/b".to_string()));
    pushd_done(&mut state, true, "/c");
    assert_eq!(state.dir_stack, strings(&["/a", "/c"]));
    assert_eq!(dirs_line("/b", &state.dir_stack), "/b /c /a");
    assert_eq!(dirs_line("/only", &vec![]), "/only");
    popd_done(&mut state, "/b");
    popd_done(&mut state, "/c");
    popd_done(&mut state, "/a");
    assert!(state.dir_stack.is_empty());
}

#[test]
fn directory_complaints() {
    assert_eq!(dir_message(DirError::NoHome), "cd: HOME not set");
    assert_eq!(dir_message(DirError::NoPrevious), "cd: OLDPWD not set");
    assert_eq!(dir_message(DirError::NoOtherDir), "pushd: no other directory");
    assert_eq!(dir_message(DirError::StackEmpty), "popd: directory stack empty");
}

#[test]
fn values_are_quoted_for_display() {
    assert_eq!(shell_quote(""), "''");
    assert_eq!(shell_quote("plain-value_1.2"), "plain-value_1.2");
    assert_eq!(shell_quote("two words"), "'two words'");
    assert_eq!(shell_quote("it's"), "'it'\\''s'");
    assert_eq!(shell_quote("$HOME"), "'$HOME'");
    assert_eq!(shell_quote("a\u{a0}b"), "'a\u{a0}b'");
    for c in "\"\\`!#&|;(){}".chars() {
        assert_eq!(shell_quote(&c.to_string()), format!("'{}'", c));
    }
}

#[test]
fn options_by_name_and_flag() {
    assert_eq!(
        option_names(),
        vec![
            "errexit", "hashall", "noclobber", "noexec", "noglob", "notify", "nounset", "verbose",
            "xtrace"
        ]
    );
    for (flag, name) in [
        ('e', "errexit"),
        ('u', "nounset"),
        ('x', "xtrace"),
        ('f', "noglob"),
        ('n', "noexec"),
        ('v', "verbose"),
        ('h', "hashall"),
        ('b', "notify"),
        ('C', "noclobber"),
    ] {
        let o = option_by_char(flag).unwrap();
        assert_eq!(option_name(o), name);
        assert_eq!(option_by_name(name), Some(o));
    }
    assert_eq!(option_by_char('c'), None);
    assert_eq!(option_by_name("pipefail"), None);
    let mut options = ShellOptions::new();
    options.switch(ShellOption::Noglob, true);
    assert!(options.contains(ShellOption::Noglob));
    assert!(!options.contains(ShellOption::Errexit));
    options.switch(ShellOption::Noglob, false);
    assert_eq!(options, ShellOptions::new());
}

#[test]
fn set_switches_options() {
    let mut state = shell();
    let (code, lines) =
        settings::set(&strings(&["-eu", "-o", "xtrace", "+u"]), &mut state.set_options, &mut state.variables);
    assert_eq!((code, lines.len()), (0, 0));
    assert!(state.set_options.errexit && state.set_options.xtrace && !state.set_options.nounset);
    let (code, lines) =
        settings::set(&strings(&["-f", "-o", "bogus", "-x"]), &mut state.set_options, &mut state.variables);
    assert_eq!(code, 1);
    assert_eq!(lines, vec![Line::Diag("cerf: set: unrecognised option: bogus".to_string())]);
    assert!(state.set_options.noglob);
    let (code, lines) = settings::set(&strings(&["-vZn"]), &mut state.set_options, &mut state.variables);
    assert_eq!(code, 1);
    assert_eq!(lines, vec![Line::Diag("cerf: set: invalid option: -Z".to_string())]);
    assert!(state.set_options.verbose && !state.set_options.noexec);
}

#[test]
fn set_shows_options() {
    let mut state = shell();
    state.set_options.switch(ShellOption::Noclobber, true);
    let (code, lines) = settings::set(&strings(&["-o"]), &mut state.set_options, &mut state.variables);
    assert_eq!(code, 0);
    assert_eq!(lines.len(), 9);
    assert_eq!(lines[0], Line::Out("errexit         off".to_string()));
    assert_eq!(lines[2], Line::Out("noclobber       on".to_string()));
    let (code, lines) = settings::set(&strings(&["+o"]), &mut state.set_options, &mut state.variables);
    assert_eq!(code, 0);
    assert_eq!(lines[0], Line::Out("set +o errexit".to_string()));
    assert_eq!(lines[2], Line::Out("set -o noclobber".to_string()));
    assert_eq!(lines[8], Line::Out("set +o xtrace".to_string()));
}

#[test]
fn set_positional_parameters() {
    let mut state = shell();
    let (code, _) =
        settings::set(&strings(&["-e", "--", "a", "-x", "c d"]), &mut state.set_options, &mut state.variables);
    assert_eq!(code, 0);
    assert!(state.set_options.errexit && !state.set_options.xtrace);
    assert_eq!(state.variables.get("1").map(|s| s.as_str()), Some("a"));
    assert_eq!(state.variables.get("2").map(|s| s.as_str()), Some("-x"));
    assert_eq!(state.variables.get("3").map(|s| s.as_str()), Some("c d"));
    assert_eq!(state.variables.get("#").map(|s| s.as_str()), Some("3"));
    let (code, _) = settings::set(&strings(&["only", "-e"]), &mut state.set_options, &mut state.variables);
    assert_eq!(code, 0);
    assert_eq!(state.variables.get("1").map(|s| s.as_str()), Some("only"));
    assert_eq!(state.variables.get("2").map(|s| s.as_str()), Some("-e"));
    assert!(state.variables.get("3").is_none());
    assert_eq!(state.variables.get("#").map(|s| s.as_str()), Some("2"));
    settings::set(&strings(&["--"]), &mut state.set_options, &mut state.variables);
    assert!(state.variables.get("1").is_none());
    assert_eq!(state.variables.get("#").map(|s| s.as_str()), Some("0"));
    assert_eq!(state.variables.get("HOME").map(|s| s.as_str()), Some("/home/al"));
}

#[test]
fn many_positional_parameters() {
    let mut vars = StrMap::new();
    vars.insert("0", "shell");
    vars.insert("007", "bond");
    vars.insert("12", "old");
    let params: Vec<String> = (1..=11).map(|i| format!("v{}", i)).collect();
    set_positional_params(&params, &mut vars);
    assert_eq!(vars.get("10").map(|s| s.as_str()), Some("v10"));
    assert_eq!(vars.get("11").map(|s| s.as_str()), Some("v11"));
    assert!(vars.get("12").is_none());
    assert_eq!(vars.get("#").map(|s| s.as_str()), Some("11"));
    assert_eq!(vars.get("0").map(|s| s.as_str()), Some("shell"));
    assert_eq!(vars.get("007").map(|s| s.as_str()), Some("bond"));
}

#[test]
fn set_lists_variables() {
    let mut vars = StrMap::new();
    vars.insert("B", "two words");
    vars.insert("A", "");
    vars.insert("C", "x");
    let mut options = ShellOptions::new();
    let (code, lines) = settings::set(&[], &mut options, &mut vars);
    assert_eq!(code, 0);
    assert_eq!(
        lines,
        vec![
            Line::Out("A=''".to_string()),
            Line::Out("B='two words'".to_string()),
            Line::Out("C=x".to_string()),
        ]
    );
}

#[test]
fn lines_are_split_like_the_standard_library_does() {
    for s in ["", "a", "a\n", "a\nb", "a\r\nb\r\n", "\n\na\n\n", "a\rb\n", "x\r", "\r\n", "a\n\r"] {
        let want: Vec<String> = s.lines().map(|l| l.to_string()).collect();
        assert_eq!(split_lines(s), want, "{:?}", s);
    }
}

#[test]
fn history_is_loaded_and_extended() {
    let mut state = shell();
    state.load_history("ls\n\necho hi\r\n\n");
    assert_eq!(state.history, strings(&["ls", "echo hi"]));
    state.add_history("pwd");
    assert_eq!(state.history, strings(&["ls", "echo hi", "pwd"]));
    state.load_history("");
    assert!(state.history.is_empty());
}

#[test]
fn script_lines_skip_blanks_and_comments() {
    assert_eq!(
        script_lines("# rc\n\n  alias ll='ls -la'  \n\t# indented\nFOO=1\r\n   \nlast"),
        strings(&["alias ll='ls -la'", "FOO=1", "last"])
    );
    assert!(script_lines("").is_empty());
}

#[test]
fn sourcing_is_bounded() {
    let mut state = shell();
    for depth in 0..MAX_SOURCE_DEPTH {
        assert_eq!(state.source_depth, depth);
        assert!(source_enter(&mut state));
    }
    assert_eq!(MAX_SOURCE_DEPTH, 64);
    assert!(!source_enter(&mut state));
    assert_eq!(state.source_depth, 64);
    source_leave(&mut state);
    assert_eq!(state.source_depth, 63);
    assert!(source_enter(&mut state));
    state.source_depth = 0;
    source_leave(&mut state);
    assert_eq!(state.source_depth, 0);
}
