use cerf::ast::{CommandEntry, Connector, Pipeline};
use cerf::builtins::boolean::{echo, exit_code, run_false, run_true};
use cerf::builtins::environment::assign;
use cerf::engine::{
    failure_code, pipeline_exit, plan_pipeline, should_skip, Failure, ListRun, ListStep, Plan,
    Sink, Source, Stage,
};
use cerf::globbing::expand_globs;
use cerf::parser::parse_input;
use cerf::registry::{find_command, info, Builtin};
use cerf::state::{ExecutionResult, ShellState};
use cerf::strmap::StrMap;

#[test]
fn pipeline_exit_inverts_when_negated() {
    assert_eq!(pipeline_exit(0, false), 0);
    assert_eq!(pipeline_exit(7, false), 7);
    assert_eq!(pipeline_exit(-1, false), -1);
    assert_eq!(pipeline_exit(0, true), 1);
    assert_eq!(pipeline_exit(7, true), 0);
    assert_eq!(pipeline_exit(-1, true), 0);
}

#[test]
fn connectors_decide_what_is_skipped() {
    assert!(!should_skip(None, 1));
    assert!(!should_skip(Some(Connector::Semi), 1));
    assert!(!should_skip(Some(Connector::Amp), 1));
    assert!(should_skip(Some(Connector::And), 1));
    assert!(!should_skip(Some(Connector::And), 0));
    assert!(should_skip(Some(Connector::Or), 0));
    assert!(!should_skip(Some(Connector::Or), 127));
}

#[test]
fn failures_have_their_exit_status() {
    assert_eq!(failure_code(Failure::NotFound), 127);
    assert_eq!(failure_code(Failure::SpawnFailed), 127);
    assert_eq!(failure_code(Failure::RedirectFailed), 1);
}

/// A shell with the default aliases and a given environment.
fn shell() -> ShellState {
    ShellState::new(&vec![("PATH".to_string(), "/bin".to_string())], Some("/home/al"))
}

/// Runs a line with builtins only, and gives what was written and the last
/// exit status. Anything that would need a process counts as not found.
fn run(line: &str, state: &mut ShellState) -> (String, i32, ExecutionResult) {
    let mut out = String::new();
    let entries: Vec<CommandEntry> = match parse_input(line, &state.variables) {
        Some(entries) => entries,
        None => return (out, 0, ExecutionResult::KeepRunning),
    };
    let mut list = ListRun::start();
    loop {
        match list.step(&entries) {
            ListStep::Finished(result) => return (out, list.last_code, result),
            ListStep::Run(k) => {
                let (expanded, plan) = plan_pipeline(&entries[k].pipeline, &state.aliases);
                let (result, code) = match plan {
                    Plan::Assign => {
                        assign(
                            &expanded.commands[0].assignments,
                            &mut state.variables,
                            &mut state.env,
                        );
                        (ExecutionResult::KeepRunning, 0)
                    }
                    Plan::Builtin(Builtin::True) => (ExecutionResult::KeepRunning, run_true()),
                    Plan::Builtin(Builtin::False) => (ExecutionResult::KeepRunning, run_false()),
                    Plan::Builtin(Builtin::Echo) => {
                        out.push_str(&echo(&expand_globs(&expanded.commands[0].args)));
                        out.push('\n');
                        (ExecutionResult::KeepRunning, 0)
                    }
                    Plan::Builtin(Builtin::Exit) => {
                        let args = expand_globs(&expanded.commands[0].args);
                        (ExecutionResult::Exit, exit_code(&args, list.last_code))
                    }
                    Plan::ExitShell => (ExecutionResult::Exit, 0),
                    _ => (ExecutionResult::KeepRunning, failure_code(Failure::NotFound)),
                };
                list.record(result, pipeline_exit(code, expanded.negated));
            }
        }
    }
}

#[test]
fn echo_writes_its_arguments() {
    let mut state = shell();
    assert_eq!(run("echo hello world", &mut state), ("hello world\n".to_string(), 0, ExecutionResult::KeepRunning));
}

#[test]
fn connectors_short_circuit() {
    let mut state = shell();
    let (out, code, _) = run("false && echo x ; true || echo y ; echo z", &mut state);
    assert_eq!(out, "z\n");
    assert_eq!(code, 0);
}

#[test]
fn connector_rules_on_two_pipelines() {
    let mut state = shell();
    assert_eq!(run("true && echo b", &mut state).0, "b\n");
    assert_eq!(run("false && echo b", &mut state), (String::new(), 1, ExecutionResult::KeepRunning));
    assert_eq!(run("true || echo b", &mut state), (String::new(), 0, ExecutionResult::KeepRunning));
    assert_eq!(run("false || echo b", &mut state).0, "b\n");
    assert_eq!(run("false ; echo b", &mut state).0, "b\n");
    assert_eq!(run("true ; echo b", &mut state).0, "b\n");
    assert_eq!(run("false && echo a || echo b", &mut state).0, "b\n");
    assert_eq!(run("true || echo a && echo b", &mut state).0, "b\n");
}

#[test]
fn negation_inverts_the_status() {
    let mut state = shell();
    assert_eq!(run("! true", &mut state).1, 1);
    assert_eq!(run("! false", &mut state).1, 0);
    assert_eq!(run("! false && echo yes", &mut state).0, "yes\n");
}

#[test]
fn assignment_is_seen_by_the_next_line_and_by_the_rest_of_the_list() {
    let mut state = shell();
    assert_eq!(run("FOO=bar", &mut state).1, 0);
    assert_eq!(run("echo $FOO", &mut state).0, "bar\n");
    assert_eq!(state.variables.get("FOO").map(|s| s.as_str()), Some("bar"));
    assert!(!state.env.contains_key("FOO"));
}

#[test]
fn nothing_runs_on_an_empty_or_malformed_line() {
    let mut state = shell();
    for line in [";", "!", "ls |", "", "# echo x", "echo x |"] {
        assert_eq!(run(line, &mut state), (String::new(), 0, ExecutionResult::KeepRunning));
    }
}

#[test]
fn exit_ends_the_list() {
    let mut state = shell();
    let (out, code, result) = run("echo a ; false ; exit ; echo b", &mut state);
    assert_eq!((out.as_str(), code, result), ("a\n", 1, ExecutionResult::Exit));
    let (_, code, result) = run("exit 7 ; echo b", &mut state);
    assert_eq!((code, result), (7, ExecutionResult::Exit));
    let mut list = ListRun::start();
    list.record(ExecutionResult::Exit, 3);
    assert_eq!(list.step(&vec![]), ListStep::Finished(ExecutionResult::Exit));
}

fn plan(line: &str, aliases: &StrMap) -> (Pipeline, Plan) {
    let entries = parse_input(line, &StrMap::new()).unwrap();
    plan_pipeline(&entries[0].pipeline, aliases)
}

#[test]
fn single_commands_are_planned() {
    let state = shell();
    assert_eq!(plan("FOO=1 BAR=2 > out", &state.aliases).1, Plan::Assign);
    assert_eq!(plan("cd /tmp", &state.aliases).1, Plan::Builtin(Builtin::Cd));
    assert_eq!(plan("dir.cd /tmp", &state.aliases).1, Plan::Builtin(Builtin::Cd));
    assert_eq!(plan("[ -n x ]", &state.aliases).1, Plan::Builtin(Builtin::Test));
    assert_eq!(
        plan("ls -l", &state.aliases).1,
        Plan::Spawn(vec![Stage { command: 0, stdin: Source::Inherit, stdout: Sink::Inherit }])
    );
    assert_eq!(
        plan("cd /tmp", &StrMap::new()).1,
        Plan::Spawn(vec![Stage { command: 0, stdin: Source::Inherit, stdout: Sink::Inherit }])
    );
}

#[test]
fn background_builtin_is_started_as_a_process() {
    let state = shell();
    assert_eq!(
        plan("echo hi &", &state.aliases).1,
        Plan::Spawn(vec![Stage { command: 0, stdin: Source::Null, stdout: Sink::Inherit }])
    );
    assert_eq!(
        plan("sleep 60 < in &", &state.aliases).1,
        Plan::Spawn(vec![Stage { command: 0, stdin: Source::File(0), stdout: Sink::Inherit }])
    );
}

#[test]
fn pipes_and_redirections_are_wired() {
    let state = shell();
    let (expanded, p) = plan("cat < a < b > ignored | sort < no | uniq > c >> d", &state.aliases);
    assert_eq!(
        p,
        Plan::Spawn(vec![
            Stage { command: 0, stdin: Source::File(1), stdout: Sink::Pipe },
            Stage { command: 1, stdin: Source::Pipe, stdout: Sink::Pipe },
            Stage { command: 2, stdin: Source::Pipe, stdout: Sink::File(1) },
        ])
    );
    assert_eq!(expanded.commands[0].redirects[1].file, "b");
    assert_eq!(expanded.commands[2].redirects[1].file, "d");
}

#[test]
fn commands_without_name_get_no_stage() {
    let state = shell();
    assert_eq!(
        plan("A=1 | cat | B=2", &state.aliases).1,
        Plan::Spawn(vec![Stage { command: 1, stdin: Source::Pipe, stdout: Sink::Pipe }])
    );
}

#[test]
fn exit_inside_a_pipeline_ends_the_shell() {
    let state = shell();
    assert_eq!(plan("ls | exit", &state.aliases).1, Plan::ExitShell);
    assert_eq!(plan("exit | ls", &state.aliases).1, Plan::ExitShell);
    assert_eq!(plan("exit", &state.aliases).1, Plan::Builtin(Builtin::Exit));
}

#[test]
fn aliases_are_expanded_in_every_command() {
    let mut aliases = StrMap::new();
    aliases.insert("ll", "ls -la");
    aliases.insert("c", "wc -l");
    let (expanded, p) = plan("ll x | c", &aliases);
    assert_eq!(expanded.commands[0].name.as_deref(), Some("ls"));
    assert_eq!(expanded.commands[1].name.as_deref(), Some("wc"));
    assert_eq!(expanded.commands[0].args.len(), 2);
    assert!(matches!(p, Plan::Spawn(stages) if stages.len() == 2));
}

#[test]
fn redirections_of_two_lines_truncate_then_append() {
    let state = shell();
    let entries =
        parse_input("echo hi > /tmp/out.txt ; echo bye >> /tmp/out.txt", &state.variables).unwrap();
    let kinds: Vec<(String, cerf::ast::RedirectKind)> = entries
        .iter()
        .map(|e| {
            let r = &e.pipeline.commands[0].redirects[0];
            (r.file.clone(), r.kind)
        })
        .collect();
    assert_eq!(
        kinds,
        vec![
            ("/tmp/out.txt".to_string(), cerf::ast::RedirectKind::StdoutOverwrite),
            ("/tmp/out.txt".to_string(), cerf::ast::RedirectKind::StdoutAppend),
        ]
    );
}

#[test]
fn registry_finds_each_builtin_by_its_name() {
    for b in cerf::registry::all_builtins() {
        assert_eq!(find_command(info(b).name), Some(b));
        assert!(!info(b).description.is_empty());
        assert!(info(b).usage.starts_with(info(b).name));
    }
    assert_eq!(cerf::registry::all_builtins().len(), 29);
    assert_eq!(find_command("cd"), None);
    assert_eq!(find_command(""), None);
    assert_eq!(find_command("sys.exit"), Some(Builtin::Exit));
}

#[test]
fn echo_and_exit_code() {
    assert_eq!(echo(&vec![]), "");
    assert_eq!(echo(&vec!["a".to_string(), "".to_string(), "b c".to_string()]), "a  b c");
    assert_eq!(exit_code(&[], 5), 5);
    assert_eq!(exit_code(&["3".to_string()], 5), 3);
    assert_eq!(exit_code(&["x".to_string()], 5), 5);
    assert_eq!(exit_code(&["99999999999".to_string()], 5), 5);
    cerf::builtins::boolean::exit();
}
