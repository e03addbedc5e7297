use cerf::alias::{expand_alias, shell_split};
use cerf::ast::{arg_values, Arg, ParsedCommand};
use cerf::builtins::aliases::{alias, unalias};
use cerf::builtins::Line;
use cerf::state::init_default_aliases;
use cerf::strmap::StrMap;

fn command(name: Option<&str>, args: &[&str]) -> ParsedCommand {
    ParsedCommand {
        assignments: vec![],
        name: name.map(|n| n.to_string()),
        args: args.iter().map(|a| Arg::plain(a)).collect(),
        redirects: vec![],
    }
}

#[test]
fn split_honours_single_quotes_only() {
    assert_eq!(shell_split("ls -la"), vec!["ls", "-la"]);
    assert_eq!(shell_split("  a \t b  "), vec!["a", "b"]);
    assert_eq!(shell_split("grep 'a b' c"), vec!["grep", "a b", "c"]);
    assert_eq!(shell_split("a'b c'd"), vec!["ab cd"]);
    assert_eq!(shell_split("say \"a b\""), vec!["say", "\"a", "b\""]);
    assert_eq!(shell_split("'' x"), vec!["x"]);
    assert_eq!(shell_split("open 'never closed"), vec!["open", "never closed"]);
    assert!(shell_split("").is_empty());
    assert!(shell_split("   ").is_empty());
}

#[test]
fn alias_replaces_the_name_and_prepends_its_arguments() {
    let mut aliases = StrMap::new();
    aliases.insert("ll", "ls -la 'my dir'");
    let mut cmd = command(Some("ll"), &["x"]);
    assert!(expand_alias(&mut cmd, &aliases));
    assert_eq!(cmd.name.as_deref(), Some("ls"));
    assert_eq!(arg_values(&cmd.args), vec!["-la", "my dir", "x"]);
    assert!(cmd.args.iter().all(|a| !a.quoted));
}

#[test]
fn alias_is_expanded_once() {
    let mut aliases = StrMap::new();
    aliases.insert("a", "b");
    aliases.insert("b", "c");
    let mut cmd = command(Some("a"), &[]);
    assert!(expand_alias(&mut cmd, &aliases));
    assert_eq!(cmd.name.as_deref(), Some("b"));
}

#[test]
fn alias_leaves_other_commands_alone() {
    let mut aliases = StrMap::new();
    aliases.insert("ll", "ls");
    aliases.insert("blank", "   ");
    let mut cmd = command(Some("ls"), &["ll"]);
    assert!(!expand_alias(&mut cmd, &aliases));
    assert_eq!(cmd, command(Some("ls"), &["ll"]));
    let mut none = command(None, &[]);
    assert!(!expand_alias(&mut none, &aliases));
    let mut blank = command(Some("blank"), &["x"]);
    assert!(!expand_alias(&mut blank, &aliases));
    assert_eq!(blank, command(Some("blank"), &["x"]));
}

fn strings(items: &[&str]) -> Vec<String> {
    items.iter().map(|s| s.to_string()).collect()
}

#[test]
fn alias_defines_shows_and_lists() {
    let mut aliases = StrMap::new();
    let (code, lines) = alias(&strings(&["ll=ls -la", "g=git"]), &mut aliases);
    assert_eq!(code, 0);
    assert!(lines.is_empty());
    let (code, lines) = alias(&strings(&["ll"]), &mut aliases);
    assert_eq!(code, 0);
    assert_eq!(lines, vec![Line::Out("alias ll='ls -la'".to_string())]);
    let (code, lines) = alias(&[], &mut aliases);
    assert_eq!(code, 0);
    assert_eq!(
        lines,
        vec![Line::Out("alias g='git'".to_string()), Line::Out("alias ll='ls -la'".to_string())]
    );
}

#[test]
fn alias_refuses_empty_names_and_builtins() {
    let mut aliases = StrMap::new();
    let (code, lines) = alias(&strings(&["=x", "dir.cd=ls", "ok=1=2"]), &mut aliases);
    assert_eq!(code, 1);
    assert_eq!(
        lines,
        vec![
            Line::Diag("cerf: alias: '=x': invalid alias name".to_string()),
            Line::Diag("cerf: alias: 'dir.cd': cannot override builtin command".to_string()),
        ]
    );
    assert_eq!(aliases.len(), 1);
    assert_eq!(aliases.get("ok").map(|s| s.as_str()), Some("1=2"));
}

#[test]
fn alias_then_unalias_reports_not_found() {
    let mut aliases = StrMap::new();
    assert_eq!(alias(&strings(&["a=b"]), &mut aliases).0, 0);
    let (code, lines) = unalias(&strings(&["a"]), &mut aliases);
    assert_eq!(code, 0);
    assert!(lines.is_empty());
    let (code, lines) = alias(&strings(&["a"]), &mut aliases);
    assert_eq!(code, 1);
    assert_eq!(lines, vec![Line::Diag("cerf: alias: a: not found".to_string())]);
}

#[test]
fn unalias_complains_and_clears() {
    let mut aliases = StrMap::new();
    aliases.insert("a", "1");
    aliases.insert("b", "2");
    aliases.insert("c", "3");
    let (code, lines) = unalias(&strings(&["x", "a"]), &mut aliases);
    assert_eq!(code, 1);
    assert_eq!(lines, vec![Line::Diag("cerf: unalias: x: not found".to_string())]);
    assert_eq!(aliases.len(), 2);
    let (code, lines) = unalias(&strings(&["b", "-a", "zzz"]), &mut aliases);
    assert_eq!(code, 0);
    assert!(lines.is_empty());
    assert_eq!(aliases.len(), 0);
    let (code, lines) = unalias(&[], &mut aliases);
    assert_eq!(code, 1);
    assert_eq!(
        lines,
        vec![Line::Diag("cerf: unalias: usage: unalias [-a] name [name ...]".to_string())]
    );
}

#[test]
fn default_aliases_name_the_builtins() {
    let aliases = init_default_aliases();
    assert_eq!(aliases.len(), 31);
    assert_eq!(aliases.get("cd").map(|s| s.as_str()), Some("dir.cd"));
    assert_eq!(aliases.get(".").map(|s| s.as_str()), Some("env.source"));
    assert_eq!(aliases.get("[").map(|s| s.as_str()), Some("test.check"));
    assert_eq!(aliases.get("echo").map(|s| s.as_str()), Some("io.echo"));
    assert_eq!(aliases.get("set").map(|s| s.as_str()), Some("env.set"));
    for (_, target) in aliases.to_vec() {
        assert!(cerf::registry::find_command(&target).is_some());
    }
}
