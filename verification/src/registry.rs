//! The commands that the shell runs itself.

use vstd::prelude::*;

verus! {

/// A command that the shell runs itself.
#[derive(Debug, Clone, Copy, PartialEq, Eq)]
pub enum Builtin {
    Cd,
    Pwd,
    Pushd,
    Popd,
    Dirs,
    Jobs,
    Fg,
    Bg,
    Wait,
    Kill,
    Tether,
    Untether,
    Export,
    Unset,
    Settings,
    Source,
    Alias,
    Unalias,
    Exit,
    Clear,
    Exec,
    History,
    Help,
    Type,
    Echo,
    Read,
    True,
    False,
    Test,
}

/// The name under which a builtin is registered, and what it is for.
pub struct CommandInfo {
    pub name: &'static str,
    pub description: &'static str,
    pub usage: &'static str,
    pub builtin: Builtin,
}

/// The registered name of `b`.
pub open spec fn spec_name(b: Builtin) -> Seq<char> {
    match b {
        Builtin::Cd => "dir.cd"@,
        Builtin::Pwd => "dir.pwd"@,
        Builtin::Pushd => "dir.pushd"@,
        Builtin::Popd => "dir.popd"@,
        Builtin::Dirs => "dir.dirs"@,
        Builtin::Jobs => "job.list"@,
        Builtin::Fg => "job.fg"@,
        Builtin::Bg => "job.bg"@,
        Builtin::Wait => "job.wait"@,
        Builtin::Kill => "job.kill"@,
        Builtin::Tether => "job.tether"@,
        Builtin::Untether => "job.untether"@,
        Builtin::Export => "env.export"@,
        Builtin::Unset => "env.unset"@,
        Builtin::Settings => "env.set"@,
        Builtin::Source => "env.source"@,
        Builtin::Alias => "alias.set"@,
        Builtin::Unalias => "alias.unset"@,
        Builtin::Exit => "sys.exit"@,
        Builtin::Clear => "sys.clear"@,
        Builtin::Exec => "sys.exec"@,
        Builtin::History => "sys.history"@,
        Builtin::Help => "sys.help"@,
        Builtin::Type => "sys.type"@,
        Builtin::Echo => "io.echo"@,
        Builtin::Read => "io.read"@,
        Builtin::True => "test.true"@,
        Builtin::False => "test.false"@,
        Builtin::Test => "test.check"@,
    }
}

/// Whether a builtin is registered under `name`.
pub open spec fn is_builtin_name(name: Seq<char>) -> bool {
    exists|b: Builtin| #[trigger] spec_name(b) == name
}

/// No two builtins are registered under one name.
pub proof fn lemma_names_differ()
    ensures
        forall|a: Builtin, b: Builtin| spec_name(a) == spec_name(b) ==> a == b,
{
    reveal_strlit("dir.cd");
    reveal_strlit("dir.pwd");
    reveal_strlit("dir.pushd");
    reveal_strlit("dir.popd");
    reveal_strlit("dir.dirs");
    reveal_strlit("job.list");
    reveal_strlit("job.fg");
    reveal_strlit("job.bg");
    reveal_strlit("job.wait");
    reveal_strlit("job.kill");
    reveal_strlit("job.tether");
    reveal_strlit("job.untether");
    reveal_strlit("env.export");
    reveal_strlit("env.unset");
    reveal_strlit("env.set");
    reveal_strlit("env.source");
    reveal_strlit("alias.set");
    reveal_strlit("alias.unset");
    reveal_strlit("sys.exit");
    reveal_strlit("sys.clear");
    reveal_strlit("sys.exec");
    reveal_strlit("sys.history");
    reveal_strlit("sys.help");
    reveal_strlit("sys.type");
    reveal_strlit("io.echo");
    reveal_strlit("io.read");
    reveal_strlit("test.true");
    reveal_strlit("test.false");
    reveal_strlit("test.check");
    assert forall|a: Builtin, b: Builtin| spec_name(a) == spec_name(b) implies a == b by {
        let x = spec_name(a);
        let y = spec_name(b);
        if a != b {
            // Names of one length differ in a character.
            assert(x.len() != y.len() || x[4] != y[4] || x[5] != y[5] || x[0] != y[0] || x[6]
                != y[6] || x[3] != y[3] || x[7] != y[7]);
        }
    }
}

/// The registered name of `b`, and what it is for.
pub fn info(b: Builtin) -> (r: CommandInfo)
    ensures
        r.builtin == b,
        r.name@ == spec_name(b),
{
    match b {
        Builtin::Cd => CommandInfo {
            name: "dir.cd",
            description: "Change the shell working directory.",
            usage: "dir.cd [dir]\n\nChange the current directory to DIR. The default DIR \
                is the value of the HOME shell variable.",
            builtin: b,
        },
        Builtin::Pwd => CommandInfo {
            name: "dir.pwd",
            description: "Print the name of the current working directory.",
            usage: "dir.pwd\n\nPrint the absolute pathname of the current working directory.",
            builtin: b,
        },
        Builtin::Pushd => CommandInfo {
            name: "dir.pushd",
            description: "Add a directory to the directory stack, or rotate the stack.",
            usage: "dir.pushd [-n] [+N | -N | dir]\n\nAdds a directory to the top of the \
                directory stack, or rotates the stack, making the new top of the stack \
                the current working directory.",
            builtin: b,
        },
        Builtin::Popd => CommandInfo {
            name: "dir.popd",
            description: "Remove directories from the directory stack.",
            usage: "dir.popd [-n] [+N | -N]\n\nRemoves entries from the directory stack.",
            builtin: b,
        },
        Builtin::Dirs => CommandInfo {
            name: "dir.dirs",
            description: "Display the list of currently remembered directories.",
            usage: "dir.dirs [-clpv] [+N] [-N]\n\nDisplay the list of currently remembered \
                directories.",
            builtin: b,
        },
        Builtin::Jobs => CommandInfo {
            name: "job.list",
            description: "Display status of jobs.",
            usage: "job.list\n\nLists the active jobs. JOBSpec restricts output to that job.",
            builtin: b,
        },
        Builtin::Fg => CommandInfo {
            name: "job.fg",
            description: "Move job to the foreground.",
            usage: "job.fg [job_spec]\n\nPlace the job identified by JOB_SPEC in the \
                foreground, making it the current job.",
            builtin: b,
        },
        Builtin::Bg => CommandInfo {
            name: "job.bg",
            description: "Move jobs to the background.",
            usage: "job.bg [job_spec ...]\n\nPlace the jobs identified by each JOB_SPEC in \
                the background, as if they had been started with `&`.",
            builtin: b,
        },
        Builtin::Wait => CommandInfo {
            name: "job.wait",
            description: "Wait for job completion and return exit status.",
            usage: "job.wait [job_spec]\n\nWait for the job identified by JOB_SPEC, or for \
                every job, and return its exit status.",
            builtin: b,
        },
        Builtin::Kill => CommandInfo {
            name: "job.kill",
            description: "Send a signal to a job.",
            usage: "job.kill [-s sigspec | -sigspec] pid | job_spec ...\n\nSend the signal \
                named by SIGSPEC, or TERM, to the processes identified by PID or \
                JOB_SPEC.",
            builtin: b,
        },
        Builtin::Tether => CommandInfo {
            name: "job.tether",
            description: "Tether a job to the shell.",
            usage: "job.tether [pid]\n\nTether a job so it terminates when the shell exits \
                (Windows only).",
            builtin: b,
        },
        Builtin::Untether => CommandInfo {
            name: "job.untether",
            description: "Untether a job from the shell.",
            usage: "job.untether [pid]\n\nUntether a job so it survives when the shell \
                exits (Windows only).",
            builtin: b,
        },
        Builtin::Export => CommandInfo {
            name: "env.export",
            description: "Set export attribute for shell variables.",
            usage: "env.export [name[=value] ...]\n\nMarks each NAME for automatic export \
                to the environment of subsequently executed commands. If VALUE is \
                supplied, assign VALUE before exporting.",
            builtin: b,
        },
        Builtin::Unset => CommandInfo {
            name: "env.unset",
            description: "Unset values and attributes of shell variables and functions.",
            usage: "env.unset [-f] [-v] [-n] [name ...]\n\nUnset values and attributes of \
                shell variables and functions.",
            builtin: b,
        },
        Builtin::Settings => CommandInfo {
            name: "env.set",
            description: "Set or unset values of shell options and positional parameters.",
            usage: "env.set [-befhnuvxC] [+befhnuvxC] [-o option-name] [--] [arg \
                ...]\n\nSet or unset values of shell options and positional \
                parameters.",
            builtin: b,
        },
        Builtin::Source => CommandInfo {
            name: "env.source",
            description: "Execute commands from a file in the current shell.",
            usage: "env.source filename [arguments]\n\nExecute commands from a file in the \
                current shell.",
            builtin: b,
        },
        Builtin::Alias => CommandInfo {
            name: "alias.set",
            description: "Define or display aliases.",
            usage: "alias.set [name[=value] ... ]\n\nAlias with no arguments or with the \
                -p option prints the list of aliases in the form alias NAME=VALUE on \
                standard output. Otherwise, an alias is defined for each NAME whose \
                VALUE is given.",
            builtin: b,
        },
        Builtin::Unalias => CommandInfo {
            name: "alias.unset",
            description: "Remove each NAME from the list of defined aliases.",
            usage: "alias.unset [-a] name [name ...]\n\nRemove each NAME from the list of \
                defined aliases. If -a is supplied, all alias definitions are removed.",
            builtin: b,
        },
        Builtin::Exit => CommandInfo {
            name: "sys.exit",
            description: "Exit the shell.",
            usage: "sys.exit\n\nExit the shell.",
            builtin: b,
        },
        Builtin::Clear => CommandInfo {
            name: "sys.clear",
            description: "Clear the terminal screen.",
            usage: "sys.clear\n\nClear the terminal screen.",
            builtin: b,
        },
        Builtin::Exec => CommandInfo {
            name: "sys.exec",
            description: "Replace the shell with the given command.",
            usage: "sys.exec [command [arguments ...]]\n\nReplace the shell with the given \
                command.",
            builtin: b,
        },
        Builtin::History => CommandInfo {
            name: "sys.history",
            description: "Display the history list with line numbers.",
            usage: "sys.history\n\nDisplay the history list with line numbers. Lines \
                listed with a `*` have been modified.",
            builtin: b,
        },
        Builtin::Help => CommandInfo {
            name: "sys.help",
            description: "Display information about builtin commands.",
            usage: "sys.help [pattern ...]\n\nDisplay information about builtin commands. \
                If PATTERN is specified,\ngives detailed help on all commands matching \
                PATTERN, otherwise prints\na list of the builtins and their \
                descriptions.",
            builtin: b,
        },
        Builtin::Type => CommandInfo {
            name: "sys.type",
            description: "Display information about command type.",
            usage: "sys.type name [name ...]\n\nFor each NAME, indicate how it would be \
                interpreted if used as a command name.",
            builtin: b,
        },
        Builtin::Echo => CommandInfo {
            name: "io.echo",
            description: "Write arguments to the standard output.",
            usage: "io.echo [arg ...]",
            builtin: b,
        },
        Builtin::Read => CommandInfo {
            name: "io.read",
            description: "Read a line from the standard input and split it into fields.",
            usage: "io.read [-prs] [-a array] [-d delim] [-i text] [-n nchars] [-N nchars] \
                [-t timeout] [-u fd] [name ...]\n\nRead a line from the standard input \
                and split it into fields.",
            builtin: b,
        },
        Builtin::True => CommandInfo {
            name: "test.true",
            description: "Return a successful result.",
            usage: "test.true\n\nReturn a successful result.",
            builtin: b,
        },
        Builtin::False => CommandInfo {
            name: "test.false",
            description: "Return an unsuccessful result.",
            usage: "test.false\n\nReturn an unsuccessful result.",
            builtin: b,
        },
        Builtin::Test => CommandInfo {
            name: "test.check",
            description: "Evaluate conditional expression.",
            usage: "test.check [expr]\n\nEvaluate conditional expression. Exits with a \
                status of 0 (true) or 1 (false) depending on the evaluation of EXPR.",
            builtin: b,
        },
    }
}

/// Every builtin, in the order in which `help` lists them.
pub open spec fn builtin_list() -> Seq<Builtin> {
    seq![
        Builtin::Alias,
        Builtin::Unalias,
        Builtin::Cd,
        Builtin::Dirs,
        Builtin::Popd,
        Builtin::Pushd,
        Builtin::Pwd,
        Builtin::Export,
        Builtin::Settings,
        Builtin::Source,
        Builtin::Unset,
        Builtin::Echo,
        Builtin::Read,
        Builtin::Bg,
        Builtin::Fg,
        Builtin::Kill,
        Builtin::Jobs,
        Builtin::Tether,
        Builtin::Untether,
        Builtin::Wait,
        Builtin::Clear,
        Builtin::Exec,
        Builtin::Exit,
        Builtin::Help,
        Builtin::History,
        Builtin::Type,
        Builtin::Test,
        Builtin::False,
        Builtin::True,
    ]
}

/// The position of `b` in the list of builtins.
pub open spec fn builtin_index(b: Builtin) -> int {
    match b {
        Builtin::Alias => 0,
        Builtin::Unalias => 1,
        Builtin::Cd => 2,
        Builtin::Dirs => 3,
        Builtin::Popd => 4,
        Builtin::Pushd => 5,
        Builtin::Pwd => 6,
        Builtin::Export => 7,
        Builtin::Settings => 8,
        Builtin::Source => 9,
        Builtin::Unset => 10,
        Builtin::Echo => 11,
        Builtin::Read => 12,
        Builtin::Bg => 13,
        Builtin::Fg => 14,
        Builtin::Kill => 15,
        Builtin::Jobs => 16,
        Builtin::Tether => 17,
        Builtin::Untether => 18,
        Builtin::Wait => 19,
        Builtin::Clear => 20,
        Builtin::Exec => 21,
        Builtin::Exit => 22,
        Builtin::Help => 23,
        Builtin::History => 24,
        Builtin::Type => 25,
        Builtin::Test => 26,
        Builtin::False => 27,
        Builtin::True => 28,
    }
}

/// The list of builtins holds every builtin, once.
pub proof fn lemma_builtin_list(b: Builtin)
    ensures
        0 <= builtin_index(b) < builtin_list().len(),
        builtin_list()[builtin_index(b)] == b,
{
}

/// Every builtin, in the order in which `help` lists them.
pub fn all_builtins() -> (r: Vec<Builtin>)
    ensures
        r@ == builtin_list(),
{
    vec![
        Builtin::Alias,
        Builtin::Unalias,
        Builtin::Cd,
        Builtin::Dirs,
        Builtin::Popd,
        Builtin::Pushd,
        Builtin::Pwd,
        Builtin::Export,
        Builtin::Settings,
        Builtin::Source,
        Builtin::Unset,
        Builtin::Echo,
        Builtin::Read,
        Builtin::Bg,
        Builtin::Fg,
        Builtin::Kill,
        Builtin::Jobs,
        Builtin::Tether,
        Builtin::Untether,
        Builtin::Wait,
        Builtin::Clear,
        Builtin::Exec,
        Builtin::Exit,
        Builtin::Help,
        Builtin::History,
        Builtin::Type,
        Builtin::Test,
        Builtin::False,
        Builtin::True,
    ]
}

/// The builtin registered under `name`.
pub fn find_command(name: &str) -> (r: Option<Builtin>)
    ensures
        match r {
            Some(b) => spec_name(b) == name@,
            None => !is_builtin_name(name@),
        },
{
    let all = all_builtins();
    let mut i: usize = 0;
    while i < all.len()
        invariant
            0 <= i <= all.len(),
            all@ == builtin_list(),
            forall|k: int| 0 <= k < i ==> spec_name(#[trigger] all[k]) != name@,
        decreases all.len() - i,
    {
        let b = all[i];
        if info(b).name.eq(name) {
            return Some(b);
        }
        i += 1;
    }
    proof {
        assert forall|b: Builtin| spec_name(b) != name@ by {
            lemma_builtin_list(b);
            assert(spec_name(all[builtin_index(b)]) != name@);
        }
    }
    None
}

} // verus!
