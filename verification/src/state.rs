//! The state of a shell: aliases, variables, the environment handed to
//! children, options, directories visited, history, and jobs.

use crate::ast::view_seq;
use crate::job_control::JobTable;
use crate::registry::{info, spec_name, Builtin};
use crate::strmap::StrMap;
use crate::text::chars_of;
use vstd::prelude::*;

verus! {

/// What the shell does after a command.
#[derive(Debug, Clone, Copy, PartialEq, Eq)]
pub enum ExecutionResult {
    KeepRunning,
    Exit,
}

/// An option that `set` switches.
#[derive(Debug, Clone, Copy, PartialEq, Eq)]
pub enum ShellOption {
    Errexit,
    Hashall,
    Noclobber,
    Noexec,
    Noglob,
    Notify,
    Nounset,
    Verbose,
    Xtrace,
}

/// The options that are switched on.
#[derive(Debug, Clone, Copy, PartialEq, Eq)]
pub struct ShellOptions {
    pub errexit: bool,
    pub hashall: bool,
    pub noclobber: bool,
    pub noexec: bool,
    pub noglob: bool,
    pub notify: bool,
    pub nounset: bool,
    pub verbose: bool,
    pub xtrace: bool,
}

/// The long name of an option.
pub open spec fn spec_option_name(o: ShellOption) -> Seq<char> {
    match o {
        ShellOption::Errexit => "errexit"@,
        ShellOption::Hashall => "hashall"@,
        ShellOption::Noclobber => "noclobber"@,
        ShellOption::Noexec => "noexec"@,
        ShellOption::Noglob => "noglob"@,
        ShellOption::Notify => "notify"@,
        ShellOption::Nounset => "nounset"@,
        ShellOption::Verbose => "verbose"@,
        ShellOption::Xtrace => "xtrace"@,
    }
}

/// The option that a short flag stands for.
pub open spec fn spec_option_for_char(ch: char) -> Option<ShellOption> {
    if ch == 'e' {
        Some(ShellOption::Errexit)
    } else if ch == 'u' {
        Some(ShellOption::Nounset)
    } else if ch == 'x' {
        Some(ShellOption::Xtrace)
    } else if ch == 'f' {
        Some(ShellOption::Noglob)
    } else if ch == 'n' {
        Some(ShellOption::Noexec)
    } else if ch == 'v' {
        Some(ShellOption::Verbose)
    } else if ch == 'h' {
        Some(ShellOption::Hashall)
    } else if ch == 'b' {
        Some(ShellOption::Notify)
    } else if ch == 'C' {
        Some(ShellOption::Noclobber)
    } else {
        None
    }
}

/// The long name of an option.
pub fn option_name(o: ShellOption) -> (r: &'static str)
    ensures
        r@ == spec_option_name(o),
{
    match o {
        ShellOption::Errexit => "errexit",
        ShellOption::Hashall => "hashall",
        ShellOption::Noclobber => "noclobber",
        ShellOption::Noexec => "noexec",
        ShellOption::Noglob => "noglob",
        ShellOption::Notify => "notify",
        ShellOption::Nounset => "nounset",
        ShellOption::Verbose => "verbose",
        ShellOption::Xtrace => "xtrace",
    }
}

/// Every option, in the order of their names.
pub fn all_options() -> (r: Vec<ShellOption>)
    ensures
        r@ == seq![
            ShellOption::Errexit,
            ShellOption::Hashall,
            ShellOption::Noclobber,
            ShellOption::Noexec,
            ShellOption::Noglob,
            ShellOption::Notify,
            ShellOption::Nounset,
            ShellOption::Verbose,
            ShellOption::Xtrace,
        ],
{
    vec![
        ShellOption::Errexit,
        ShellOption::Hashall,
        ShellOption::Noclobber,
        ShellOption::Noexec,
        ShellOption::Noglob,
        ShellOption::Notify,
        ShellOption::Nounset,
        ShellOption::Verbose,
        ShellOption::Xtrace,
    ]
}

/// The names of the options, in order.
pub fn option_names() -> (r: Vec<&'static str>)
    ensures
        r.len() == 9,
        forall|i: int| 0 <= i < 9 ==> (#[trigger] r[i])@ == spec_option_name(all_options_spec()[i]),
{
    let all = all_options();
    let mut r: Vec<&'static str> = Vec::new();
    let mut i: usize = 0;
    while i < all.len()
        invariant
            0 <= i <= all.len(),
            all@ == all_options_spec(),
            r.len() == i,
            forall|k: int| 0 <= k < i ==> (#[trigger] r[k])@ == spec_option_name(all[k]),
        decreases all.len() - i,
    {
        r.push(option_name(all[i]));
        i += 1;
    }
    r
}

/// Every option, in the order of their names.
pub open spec fn all_options_spec() -> Seq<ShellOption> {
    seq![
        ShellOption::Errexit,
        ShellOption::Hashall,
        ShellOption::Noclobber,
        ShellOption::Noexec,
        ShellOption::Noglob,
        ShellOption::Notify,
        ShellOption::Nounset,
        ShellOption::Verbose,
        ShellOption::Xtrace,
    ]
}

/// No two options have one name.
pub proof fn lemma_option_names_differ()
    ensures
        forall|a: ShellOption, b: ShellOption| spec_option_name(a) == spec_option_name(b) ==> a == b,
{
    reveal_strlit("errexit");
    reveal_strlit("hashall");
    reveal_strlit("noclobber");
    reveal_strlit("noexec");
    reveal_strlit("noglob");
    reveal_strlit("notify");
    reveal_strlit("nounset");
    reveal_strlit("verbose");
    reveal_strlit("xtrace");
    assert forall|a: ShellOption, b: ShellOption| spec_option_name(a) == spec_option_name(
        b,
    ) implies a == b by {
        let x = spec_option_name(a);
        let y = spec_option_name(b);
        if a != b {
            assert(x.len() != y.len() || x[0] != y[0] || x[2] != y[2] || x[3] != y[3]);
        }
    }
}

/// The option with the long name `name`.
pub fn option_by_name(name: &str) -> (r: Option<ShellOption>)
    ensures
        match r {
            Some(o) => spec_option_name(o) == name@,
            None => forall|o: ShellOption| spec_option_name(o) != name@,
        },
{
    let all = all_options();
    let mut i: usize = 0;
    while i < all.len()
        invariant
            0 <= i <= all.len(),
            all@ == all_options_spec(),
            forall|k: int| 0 <= k < i ==> spec_option_name(#[trigger] all[k]) != name@,
        decreases all.len() - i,
    {
        if option_name(all[i]).eq(name) {
            return Some(all[i]);
        }
        i += 1;
    }
    proof {
        assert forall|o: ShellOption| spec_option_name(o) != name@ by {
            let k: int = match o {
                ShellOption::Errexit => 0,
                ShellOption::Hashall => 1,
                ShellOption::Noclobber => 2,
                ShellOption::Noexec => 3,
                ShellOption::Noglob => 4,
                ShellOption::Notify => 5,
                ShellOption::Nounset => 6,
                ShellOption::Verbose => 7,
                ShellOption::Xtrace => 8,
            };
            assert(all[k] == o);
        }
    }
    None
}

/// The option that the short flag `ch` stands for.
pub fn option_by_char(ch: char) -> (r: Option<ShellOption>)
    ensures
        r == spec_option_for_char(ch),
{
    if ch == 'e' {
        Some(ShellOption::Errexit)
    } else if ch == 'u' {
        Some(ShellOption::Nounset)
    } else if ch == 'x' {
        Some(ShellOption::Xtrace)
    } else if ch == 'f' {
        Some(ShellOption::Noglob)
    } else if ch == 'n' {
        Some(ShellOption::Noexec)
    } else if ch == 'v' {
        Some(ShellOption::Verbose)
    } else if ch == 'h' {
        Some(ShellOption::Hashall)
    } else if ch == 'b' {
        Some(ShellOption::Notify)
    } else if ch == 'C' {
        Some(ShellOption::Noclobber)
    } else {
        None
    }
}

impl ShellOptions {
    /// Whether `o` is switched on.
    pub open spec fn has(self, o: ShellOption) -> bool {
        match o {
            ShellOption::Errexit => self.errexit,
            ShellOption::Hashall => self.hashall,
            ShellOption::Noclobber => self.noclobber,
            ShellOption::Noexec => self.noexec,
            ShellOption::Noglob => self.noglob,
            ShellOption::Notify => self.notify,
            ShellOption::Nounset => self.nounset,
            ShellOption::Verbose => self.verbose,
            ShellOption::Xtrace => self.xtrace,
        }
    }

    /// No option is switched on.
    pub fn new() -> (r: ShellOptions)
        ensures
            forall|o: ShellOption| !r.has(o),
    {
        ShellOptions {
            errexit: false,
            hashall: false,
            noclobber: false,
            noexec: false,
            noglob: false,
            notify: false,
            nounset: false,
            verbose: false,
            xtrace: false,
        }
    }

    /// Whether `o` is switched on.
    pub fn contains(&self, o: ShellOption) -> (r: bool)
        ensures
            r == self.has(o),
    {
        match o {
            ShellOption::Errexit => self.errexit,
            ShellOption::Hashall => self.hashall,
            ShellOption::Noclobber => self.noclobber,
            ShellOption::Noexec => self.noexec,
            ShellOption::Noglob => self.noglob,
            ShellOption::Notify => self.notify,
            ShellOption::Nounset => self.nounset,
            ShellOption::Verbose => self.verbose,
            ShellOption::Xtrace => self.xtrace,
        }
    }

    /// These options with `o` switched on or off.
    pub open spec fn with(self, o: ShellOption, enable: bool) -> ShellOptions {
        ShellOptions {
            errexit: if o == ShellOption::Errexit {
                enable
            } else {
                self.errexit
            },
            hashall: if o == ShellOption::Hashall {
                enable
            } else {
                self.hashall
            },
            noclobber: if o == ShellOption::Noclobber {
                enable
            } else {
                self.noclobber
            },
            noexec: if o == ShellOption::Noexec {
                enable
            } else {
                self.noexec
            },
            noglob: if o == ShellOption::Noglob {
                enable
            } else {
                self.noglob
            },
            notify: if o == ShellOption::Notify {
                enable
            } else {
                self.notify
            },
            nounset: if o == ShellOption::Nounset {
                enable
            } else {
                self.nounset
            },
            verbose: if o == ShellOption::Verbose {
                enable
            } else {
                self.verbose
            },
            xtrace: if o == ShellOption::Xtrace {
                enable
            } else {
                self.xtrace
            },
        }
    }

    /// Switches `o` on or off, and leaves the other options as they are.
    pub fn switch(&mut self, o: ShellOption, enable: bool)
        ensures
            *final(self) == old(self).with(o, enable),
            forall|p: ShellOption|
                final(self).has(p) == if p == o {
                    enable
                } else {
                    old(self).has(p)
                },
    {
        match o {
            ShellOption::Errexit => {
                self.errexit = enable;
            },
            ShellOption::Hashall => {
                self.hashall = enable;
            },
            ShellOption::Noclobber => {
                self.noclobber = enable;
            },
            ShellOption::Noexec => {
                self.noexec = enable;
            },
            ShellOption::Noglob => {
                self.noglob = enable;
            },
            ShellOption::Notify => {
                self.notify = enable;
            },
            ShellOption::Nounset => {
                self.nounset = enable;
            },
            ShellOption::Verbose => {
                self.verbose = enable;
            },
            ShellOption::Xtrace => {
                self.xtrace = enable;
            },
        }
    }
}

/// A change that the shell asks to be made to the environment of the
/// process: what it has already made to its own picture of it.
#[derive(Debug, Clone, PartialEq, Eq)]
pub enum EnvChange {
    /// Bind the name to the value.
    Put(String, String),
    /// Unbind the name.
    Drop(String),
}

/// What an `EnvChange` holds.
pub enum EnvChangeView {
    Put(Seq<char>, Seq<char>),
    Drop(Seq<char>),
}

impl View for EnvChange {
    type V = EnvChangeView;

    open spec fn view(&self) -> EnvChangeView {
        match self {
            EnvChange::Put(k, v) => EnvChangeView::Put(k@, v@),
            EnvChange::Drop(k) => EnvChangeView::Drop(k@),
        }
    }
}

/// The environment `env` after `changes` have been made in order.
pub open spec fn env_after(env: Map<Seq<char>, Seq<char>>, changes: Seq<EnvChangeView>) -> Map<
    Seq<char>,
    Seq<char>,
>
    decreases changes.len(),
{
    if changes.len() == 0 {
        env
    } else {
        match changes.last() {
            EnvChangeView::Put(k, v) => env_after(env, changes.drop_last()).insert(k, v),
            EnvChangeView::Drop(k) => env_after(env, changes.drop_last()).remove(k),
        }
    }
}

/// The short names under which the builtins are known, each with the
/// builtin that it stands for.
pub open spec fn default_alias_table() -> Seq<(Seq<char>, Builtin)> {
    seq![
        ("cd"@, Builtin::Cd),
        ("pwd"@, Builtin::Pwd),
        ("pushd"@, Builtin::Pushd),
        ("popd"@, Builtin::Popd),
        ("dirs"@, Builtin::Dirs),
        ("jobs"@, Builtin::Jobs),
        ("fg"@, Builtin::Fg),
        ("bg"@, Builtin::Bg),
        ("wait"@, Builtin::Wait),
        ("kill"@, Builtin::Kill),
        ("tether"@, Builtin::Tether),
        ("untether"@, Builtin::Untether),
        ("export"@, Builtin::Export),
        ("unset"@, Builtin::Unset),
        ("set"@, Builtin::Settings),
        ("source"@, Builtin::Source),
        ("."@, Builtin::Source),
        ("alias"@, Builtin::Alias),
        ("unalias"@, Builtin::Unalias),
        ("exit"@, Builtin::Exit),
        ("clear"@, Builtin::Clear),
        ("exec"@, Builtin::Exec),
        ("history"@, Builtin::History),
        ("help"@, Builtin::Help),
        ("type"@, Builtin::Type),
        ("echo"@, Builtin::Echo),
        ("read"@, Builtin::Read),
        ("true"@, Builtin::True),
        ("false"@, Builtin::False),
        ("test"@, Builtin::Test),
        ("["@, Builtin::Test),
    ]
}

fn default_alias_list() -> (r: Vec<(&'static str, Builtin)>)
    ensures
        r.len() == default_alias_table().len(),
        forall|i: int|
            0 <= i < r.len() ==> (#[trigger] r[i]).0@ == default_alias_table()[i].0 && r[i].1
                == default_alias_table()[i].1,
{
    vec![
        ("cd", Builtin::Cd),
        ("pwd", Builtin::Pwd),
        ("pushd", Builtin::Pushd),
        ("popd", Builtin::Popd),
        ("dirs", Builtin::Dirs),
        ("jobs", Builtin::Jobs),
        ("fg", Builtin::Fg),
        ("bg", Builtin::Bg),
        ("wait", Builtin::Wait),
        ("kill", Builtin::Kill),
        ("tether", Builtin::Tether),
        ("untether", Builtin::Untether),
        ("export", Builtin::Export),
        ("unset", Builtin::Unset),
        ("set", Builtin::Settings),
        ("source", Builtin::Source),
        (".", Builtin::Source),
        ("alias", Builtin::Alias),
        ("unalias", Builtin::Unalias),
        ("exit", Builtin::Exit),
        ("clear", Builtin::Clear),
        ("exec", Builtin::Exec),
        ("history", Builtin::History),
        ("help", Builtin::Help),
        ("type", Builtin::Type),
        ("echo", Builtin::Echo),
        ("read", Builtin::Read),
        ("true", Builtin::True),
        ("false", Builtin::False),
        ("test", Builtin::Test),
        ("[", Builtin::Test),
    ]
}

/// The aliases that bind the first `n` short names of `table` to the
/// registered names of their builtins.
pub open spec fn aliases_from(table: Seq<(Seq<char>, Builtin)>, n: int) -> Map<
    Seq<char>,
    Seq<char>,
>
    decreases n,
{
    if n <= 0 || n > table.len() {
        Map::empty()
    } else {
        aliases_from(table, n - 1).insert(table[n - 1].0, spec_name(table[n - 1].1))
    }
}

/// The aliases that a shell starts with: each short name of a builtin
/// stands for the name under which the builtin is registered.
pub fn init_default_aliases() -> (r: StrMap)
    ensures
        r.wf(),
        r@ == aliases_from(default_alias_table(), default_alias_table().len() as int),
{
    let list = default_alias_list();
    let mut aliases = StrMap::new();
    let mut i: usize = 0;
    while i < list.len()
        invariant
            0 <= i <= list.len(),
            aliases.wf(),
            list.len() == default_alias_table().len(),
            forall|k: int|
                0 <= k < list.len() ==> (#[trigger] list[k]).0@ == default_alias_table()[k].0
                    && list[k].1 == default_alias_table()[k].1,
            aliases@ == aliases_from(default_alias_table(), i as int),
        decreases list.len() - i,
    {
        let (short, builtin) = list[i];
        aliases.insert(short, info(builtin).name);
        i += 1;
    }
    aliases
}

/// The state of a shell.
pub struct ShellState {
    /// The directory that was current before the last change of directory.
    pub previous_dir: Option<String>,
    /// The directories that `pushd` has put aside, the last on top.
    pub dir_stack: Vec<String>,
    pub aliases: StrMap,
    pub variables: StrMap,
    /// The shell's picture of the environment of the process: the exported
    /// variables.
    pub env: StrMap,
    pub set_options: ShellOptions,
    pub history: Vec<String>,
    pub jobs: JobTable,
    /// How many files are being sourced, one inside the other.
    pub source_depth: u32,
}

/// The variables of `pairs`, a later binding of a name replacing an earlier.
pub open spec fn map_of_pairs(pairs: Seq<(Seq<char>, Seq<char>)>) -> Map<Seq<char>, Seq<char>>
    decreases pairs.len(),
{
    if pairs.len() == 0 {
        Map::empty()
    } else {
        map_of_pairs(pairs.drop_last()).insert(pairs.last().0, pairs.last().1)
    }
}

/// `m`, with `name` bound to `value` where it was not bound.
pub open spec fn with_default(
    m: Map<Seq<char>, Seq<char>>,
    name: Seq<char>,
    value: Option<Seq<char>>,
) -> Map<Seq<char>, Seq<char>> {
    match value {
        Some(v) => if m.contains_key(name) {
            m
        } else {
            m.insert(name, v)
        },
        None => m,
    }
}

/// The variables that a shell starts with, given the environment of the
/// process and the home directory of the user: those of the environment,
/// and `HOME`, `PATH` and `EDITOR` where the environment lacks them.
pub open spec fn initial_variables(
    environment: Seq<(Seq<char>, Seq<char>)>,
    home: Option<Seq<char>>,
) -> Map<Seq<char>, Seq<char>> {
    with_default(
        with_default(
            with_default(map_of_pairs(environment), "HOME"@, home),
            "PATH"@,
            Some("/usr/local/bin:/usr/bin:/bin"@),
        ),
        "EDITOR"@,
        Some("vi"@),
    )
}

fn put_default(vars: &mut StrMap, name: &str, value: Option<&str>)
    requires
        old(vars).wf(),
    ensures
        final(vars).wf(),
        final(vars)@ == with_default(
            old(vars)@,
            name@,
            match value {
                Some(v) => Some(v@),
                None => None,
            },
        ),
{
    match value {
        Some(v) => {
            if !vars.contains_key(name) {
                vars.insert(name, v);
            }
        },
        None => {},
    }
}

/// The variables that a shell starts with.
pub fn init_env_vars(environment: &Vec<(String, String)>, home: Option<&str>) -> (r: StrMap)
    ensures
        r.wf(),
        r@ == initial_variables(
            view_seq(environment@),
            match home {
                Some(h) => Some(h@),
                None => None,
            },
        ),
{
    let ghost pairs = view_seq(environment@);
    let mut vars = StrMap::new();
    let mut i: usize = 0;
    assert(pairs.take(0) =~= Seq::<(Seq<char>, Seq<char>)>::empty());
    while i < environment.len()
        invariant
            0 <= i <= environment.len(),
            vars.wf(),
            pairs == view_seq(environment@),
            vars@ == map_of_pairs(pairs.take(i as int)),
        decreases environment.len() - i,
    {
        proof {
            assert(pairs.take(i + 1).drop_last() =~= pairs.take(i as int));
            assert(pairs.take(i + 1).last() == environment[i as int]@);
        }
        vars.insert(environment[i].0.as_str(), environment[i].1.as_str());
        i += 1;
    }
    assert(pairs.take(i as int) =~= pairs);
    put_default(&mut vars, "HOME", home);
    put_default(&mut vars, "PATH", Some("/usr/local/bin:/usr/bin:/bin"));
    put_default(&mut vars, "EDITOR", Some("vi"));
    vars
}

/// The lines of `s`: the pieces between line feeds, a carriage return
/// before a line feed not counted, and a last piece without line feed
/// counted where it is not empty.
pub open spec fn lines_from(s: Seq<char>, i: int) -> Seq<Seq<char>>
    decreases s.len() - i,
{
    if i < 0 || i >= s.len() {
        Seq::empty()
    } else {
        let j = crate::text::run_end(s, i, crate::text::CharClass::Until('\n'));
        proof {
            crate::text::lemma_run_end(s, i, crate::text::CharClass::Until('\n'));
        }
        if j >= s.len() {
            seq![s.subrange(i, j)]
        } else {
            let end = if j > i && s[j - 1] == '\r' {
                j - 1
            } else {
                j
            };
            seq![s.subrange(i, end)] + lines_from(s, j + 1)
        }
    }
}

/// The lines among `lines` that are not empty, in order.
pub open spec fn nonempty(lines: Seq<Seq<char>>) -> Seq<Seq<char>>
    decreases lines.len(),
{
    if lines.len() == 0 {
        Seq::empty()
    } else if lines.last().len() == 0 {
        nonempty(lines.drop_last())
    } else {
        nonempty(lines.drop_last()).push(lines.last())
    }
}

/// The lines of `contents`.
pub fn split_lines(contents: &str) -> (r: Vec<String>)
    ensures
        view_seq(r@) == lines_from(contents@, 0),
{
    let s = chars_of(contents);
    let n = s.len();
    let mut out: Vec<String> = Vec::new();
    let mut cur: usize = 0;
    assert(view_seq(out@) + lines_from(s@, 0) =~= lines_from(s@, 0));
    while cur < n
        invariant
            cur <= n,
            n == s.len(),
            s@ == contents@,
            lines_from(s@, 0) == view_seq(out@) + lines_from(s@, cur as int),
        decreases n - cur,
    {
        let j = crate::text::scan(&s, cur, crate::text::CharClass::Until('\n'));
        if j >= n {
            let line = crate::text::substring(&s, cur, j);
            proof {
                assert(lines_from(s@, cur as int) == seq![line@]);
                crate::ast::lemma_view_seq_push(out@, line);
                assert(view_seq(out@).push(line@) =~= view_seq(out@) + seq![line@]);
            }
            out.push(line);
            return out;
        }
        let end = if j > cur && s[j - 1] == '\r' {
            j - 1
        } else {
            j
        };
        let line = crate::text::substring(&s, cur, end);
        proof {
            let rest = lines_from(s@, j + 1);
            assert(lines_from(s@, cur as int) == seq![line@] + rest);
            crate::ast::lemma_view_seq_push(out@, line);
            assert(view_seq(out@).push(line@) + rest =~= view_seq(out@) + (seq![line@] + rest));
        }
        out.push(line);
        cur = j + 1;
    }
    assert(view_seq(out@) + Seq::<Seq<char>>::empty() =~= view_seq(out@));
    out
}

impl ShellState {
    /// The maps and the job table are well formed.
    pub open spec fn wf(&self) -> bool {
        &&& self.aliases.wf()
        &&& self.variables.wf()
        &&& self.env.wf()
        &&& self.jobs@.wf()
    }

    /// The state of a shell that starts in the environment given.
    pub fn new(environment: &Vec<(String, String)>, home: Option<&str>) -> (state: ShellState)
        ensures
            state.wf(),
            state.previous_dir is None,
            state.dir_stack@.len() == 0,
            state.history@.len() == 0,
            state.source_depth == 0,
            state.jobs@.jobs.len() == 0,
            state.jobs@.next_id == 1,
            state.aliases@ == aliases_from(
                default_alias_table(),
                default_alias_table().len() as int,
            ),
            state.variables@ == initial_variables(
                view_seq(environment@),
                match home {
                    Some(h) => Some(h@),
                    None => None,
                },
            ),
            state.env@ == state.variables@,
            forall|o: ShellOption| !state.set_options.has(o),
    {
        ShellState {
            previous_dir: None,
            dir_stack: Vec::new(),
            aliases: init_default_aliases(),
            variables: init_env_vars(environment, home),
            env: init_env_vars(environment, home),
            set_options: ShellOptions::new(),
            history: Vec::new(),
            jobs: JobTable::new(),
            source_depth: 0,
        }
    }

    /// Replaces the history by the lines of `contents` that are not empty.
    pub fn load_history(&mut self, contents: &str)
        ensures
            view_seq(final(self).history@) == nonempty(lines_from(contents@, 0)),
            final(self).previous_dir == old(self).previous_dir,
            final(self).dir_stack == old(self).dir_stack,
            final(self).aliases == old(self).aliases,
            final(self).variables == old(self).variables,
            final(self).env == old(self).env,
            final(self).set_options == old(self).set_options,
            final(self).jobs == old(self).jobs,
            final(self).source_depth == old(self).source_depth,
    {
        let lines = split_lines(contents);
        let ghost ls = view_seq(lines@);
        let mut kept: Vec<String> = Vec::new();
        let mut i: usize = 0;
        assert(view_seq(kept@) =~= nonempty(ls.take(0)));
        while i < lines.len()
            invariant
                0 <= i <= lines.len(),
                ls == view_seq(lines@),
                view_seq(kept@) == nonempty(ls.take(i as int)),
            decreases lines.len() - i,
        {
            proof {
                assert(ls.take(i + 1).drop_last() =~= ls.take(i as int));
                assert(ls.take(i + 1).last() == lines[i as int]@);
            }
            if lines[i].as_str().unicode_len() > 0 {
                proof {
                    crate::ast::lemma_view_seq_push(kept@, lines[i as int]);
                }
                kept.push(lines[i].clone());
            }
            i += 1;
        }
        assert(ls.take(i as int) =~= ls);
        self.history = kept;
    }

    /// Adds `line` to the history.
    pub fn add_history(&mut self, line: &str)
        ensures
            view_seq(final(self).history@) == view_seq(old(self).history@).push(line@),
            final(self).previous_dir == old(self).previous_dir,
            final(self).dir_stack == old(self).dir_stack,
            final(self).aliases == old(self).aliases,
            final(self).variables == old(self).variables,
            final(self).env == old(self).env,
            final(self).set_options == old(self).set_options,
            final(self).jobs == old(self).jobs,
            final(self).source_depth == old(self).source_depth,
    {
        let owned = line.to_owned();
        proof {
            crate::ast::lemma_view_seq_push(self.history@, owned);
        }
        self.history.push(owned);
    }
}

} // verus!
