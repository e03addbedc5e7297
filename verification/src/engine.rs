//! What the shell decides when it evaluates a command list: which
//! pipelines run, how each is run, how the processes of a pipeline are
//! wired, and which exit status results.
//!
//! Starting a process and waiting for it are for the caller to do. The
//! caller asks `ListRun::step` for the next pipeline, asks `plan_pipeline`
//! how to run it, runs it, and tells `ListRun::record` how it ended.

use crate::alias::{expand_alias, spec_expand_alias};
use crate::ast::{
    view_seq, CommandEntry, CommandView, Connector, EntryView, ParsedCommand, Pipeline, PipelineView, RedirectKind,
};
use crate::grammar::entries_of;
use crate::redirect::last_redirect;
use crate::registry::{find_command, is_builtin_name, spec_name, Builtin};
use crate::state::ExecutionResult;
use crate::strmap::StrMap;
use vstd::prelude::*;

verus! {

/// The exit status of a pipeline whose last command ended with `code`:
/// `code` itself, or for a negated pipeline 1 where `code` is 0 and 0 where
/// it is not.
pub open spec fn spec_pipeline_exit(code: i32, negated: bool) -> i32 {
    if negated {
        if code == 0 {
            1i32
        } else {
            0i32
        }
    } else {
        code
    }
}

/// The exit status of a pipeline whose last command ended with `code`.
pub fn pipeline_exit(code: i32, negated: bool) -> (r: i32)
    ensures
        r == spec_pipeline_exit(code, negated),
{
    if negated {
        if code == 0 {
            1
        } else {
            0
        }
    } else {
        code
    }
}

/// Whether a pipeline behind `connector` is passed over after the exit
/// status `last_code`: behind `&&` after a failure, behind `||` after a
/// success, and never else.
pub open spec fn skips(connector: Option<Connector>, last_code: i32) -> bool {
    match connector {
        Some(Connector::And) => last_code != 0,
        Some(Connector::Or) => last_code == 0,
        _ => false,
    }
}

/// Whether a pipeline behind `connector` is passed over after `last_code`.
pub fn should_skip(connector: Option<Connector>, last_code: i32) -> (r: bool)
    ensures
        r == skips(connector, last_code),
{
    match connector {
        Some(Connector::And) => last_code != 0,
        Some(Connector::Or) => last_code == 0,
        _ => false,
    }
}

/// The index of the first entry at or after `from` that is not passed
/// over after `last_code`; the number of entries where all are.
pub open spec fn next_to_run(entries: Seq<EntryView>, from: int, last_code: i32) -> int
    decreases entries.len() - from,
{
    if from < 0 || from >= entries.len() {
        entries.len() as int
    } else if skips(entries[from].connector, last_code) {
        next_to_run(entries, from + 1, last_code)
    } else {
        from
    }
}

/// `next_to_run` names the first entry at or after `from` that the exit
/// status does not pass over: every entry before it is passed over, and it
/// is not.
pub proof fn lemma_next_to_run(entries: Seq<EntryView>, from: int, last_code: i32)
    requires
        0 <= from <= entries.len(),
    ensures
        from <= next_to_run(entries, from, last_code) <= entries.len(),
        forall|k: int|
            from <= k < next_to_run(entries, from, last_code) ==> skips(
                (#[trigger] entries[k]).connector,
                last_code,
            ),
        next_to_run(entries, from, last_code) < entries.len() ==> !skips(
            entries[next_to_run(entries, from, last_code)].connector,
            last_code,
        ),
    decreases entries.len() - from,
{
    if from < entries.len() && skips(entries[from].connector, last_code) {
        lemma_next_to_run(entries, from + 1, last_code);
    }
}

/// After a pipeline `A` that ended with status `code`, the pipeline `B`
/// written behind it runs or not as the connector between them says:
/// behind `&&` exactly when `code` is 0, behind `||` exactly when `code` is
/// not 0, behind `;` and behind `&` always.
pub proof fn lemma_connector_logic(a: PipelineView, b: PipelineView, c: Connector, code: i32)
    ensures
        ({
            let entries = seq![
                EntryView { connector: None, pipeline: a },
                EntryView { connector: Some(c), pipeline: b },
            ];
            let runs_b = next_to_run(entries, 1, code) == 1;
            &&& next_to_run(entries, 0, 0) == 0
            &&& c == Connector::And ==> (runs_b <==> code == 0)
            &&& c == Connector::Or ==> (runs_b <==> code != 0)
            &&& c == Connector::Semi ==> runs_b
            &&& c == Connector::Amp ==> runs_b
        }),
{
    let entries = seq![
        EntryView { connector: None, pipeline: a },
        EntryView { connector: Some(c), pipeline: b },
    ];
    assert(next_to_run(entries, 2, code) == 2);
}

/// In a list as the grammar reads it, a pipeline is a background pipeline
/// exactly when `&` is the connector written behind it: when the next
/// entry has the connector `&`, or when it is the last and `&` ends the list.
pub proof fn lemma_amp_detaches(items: Seq<(PipelineView, Option<Connector>)>, k: int)
    requires
        0 <= k < items.len(),
    ensures
        entries_of(items)[k].pipeline.background == (items[k].1 == Some(Connector::Amp)),
        k + 1 < items.len() ==> entries_of(items)[k + 1].connector == items[k].1,
        k + 1 < items.len() ==> (entries_of(items)[k].pipeline.background <==> entries_of(
            items,
        )[k + 1].connector == Some(Connector::Amp)),
{
}

/// The evaluation of a command list in progress.
#[derive(Debug, Clone, Copy, PartialEq, Eq)]
pub struct ListRun {
    /// The index of the entry that is looked at next.
    pub next: usize,
    /// The exit status of the pipeline that ran last, 0 before the first.
    pub last_code: i32,
    /// Whether a command has asked the shell to exit.
    pub exited: bool,
}

/// What the evaluation of a list asks for next.
#[derive(Debug, Clone, Copy, PartialEq, Eq)]
pub enum ListStep {
    /// Run the pipeline of the entry with this index.
    Run(usize),
    /// The list is over.
    Finished(ExecutionResult),
}

impl ListRun {
    /// The start of an evaluation: nothing has run, the status is 0.
    pub fn start() -> (r: ListRun)
        ensures
            r == (ListRun { next: 0, last_code: 0, exited: false }),
    {
        ListRun { next: 0, last_code: 0, exited: false }
    }

    /// What to do next: run the first entry from `next` on that is not
    /// passed over, or finish where there is none or a command has asked
    /// the shell to exit.
    pub fn step(&mut self, entries: &Vec<CommandEntry>) -> (r: ListStep)
        requires
            old(self).next <= entries.len(),
        ensures
            final(self).last_code == old(self).last_code,
            final(self).exited == old(self).exited,
            old(self).exited ==> r == ListStep::Finished(ExecutionResult::Exit) && final(self).next
                == old(self).next,
            !old(self).exited ==> {
                let k = next_to_run(view_seq(entries@), old(self).next as int, old(self).last_code);
                &&& final(self).next == k
                &&& r == if k < entries.len() {
                    ListStep::Run(k as usize)
                } else {
                    ListStep::Finished(ExecutionResult::KeepRunning)
                }
            },
    {
        if self.exited {
            return ListStep::Finished(ExecutionResult::Exit);
        }
        let ghost es = view_seq(entries@);
        let ghost start = self.next;
        while self.next < entries.len()
            invariant
                start <= self.next <= entries.len(),
                start == old(self).next,
                !old(self).exited,
                es == view_seq(entries@),
                self.last_code == old(self).last_code,
                self.exited == old(self).exited,
                next_to_run(es, start as int, self.last_code) == next_to_run(
                    es,
                    self.next as int,
                    self.last_code,
                ),
            decreases entries.len() - self.next,
        {
            assert(es[self.next as int].connector == entries[self.next as int].connector);
            if !should_skip(entries[self.next].connector, self.last_code) {
                return ListStep::Run(self.next);
            }
            self.next = self.next + 1;
        }
        ListStep::Finished(ExecutionResult::KeepRunning)
    }

    /// Takes note of how the pipeline that `step` asked for has ended.
    pub fn record(&mut self, result: ExecutionResult, code: i32)
        requires
            old(self).next < usize::MAX,
        ensures
            final(self).next == old(self).next + 1,
            final(self).last_code == code,
            final(self).exited == (old(self).exited || result == ExecutionResult::Exit),
    {
        self.next = self.next + 1;
        self.last_code = code;
        match result {
            ExecutionResult::Exit => {
                self.exited = true;
            },
            ExecutionResult::KeepRunning => {},
        }
    }
}

/// Where a process reads its standard input from.
#[derive(Debug, Clone, Copy, PartialEq, Eq)]
pub enum Source {
    /// From where the shell reads its own.
    Inherit,
    /// From the null device.
    Null,
    /// From the file of the command's redirection with this index.
    File(usize),
    /// From the standard output of the process before it.
    Pipe,
}

/// Where a process writes its standard output to.
#[derive(Debug, Clone, Copy, PartialEq, Eq)]
pub enum Sink {
    /// To where the shell writes its own.
    Inherit,
    /// To the file of the command's redirection with this index, truncated
    /// or appended to as the redirection says.
    File(usize),
    /// To the standard input of the process after it.
    Pipe,
}

/// One process of a pipeline.
#[derive(Debug, Clone, Copy, PartialEq, Eq)]
pub struct Stage {
    /// The index of its command in the pipeline.
    pub command: usize,
    pub stdin: Source,
    pub stdout: Sink,
}

/// How a pipeline is run.
#[derive(Debug, Clone, PartialEq, Eq)]
pub enum Plan {
    /// The one command consists of assignments: they are applied to the
    /// shell's variables, and its redirections are opened and closed.
    Assign,
    /// The one command is a builtin: the shell runs it itself.
    Builtin(Builtin),
    /// One of several commands is `exit`: the shell exits.
    ExitShell,
    /// The commands are started as processes, wired as the stages say.
    Spawn(Vec<Stage>),
}

/// What a `Plan` holds.
pub enum PlanView {
    Assign,
    Builtin(Builtin),
    ExitShell,
    Spawn(Seq<Stage>),
}

impl View for Plan {
    type V = PlanView;

    open spec fn view(&self) -> PlanView {
        match self {
            Plan::Assign => PlanView::Assign,
            Plan::Builtin(b) => PlanView::Builtin(*b),
            Plan::ExitShell => PlanView::ExitShell,
            Plan::Spawn(stages) => PlanView::Spawn(stages@),
        }
    }
}

/// The commands `cs`, each after one round of alias expansion of its name.
pub open spec fn with_aliases(cs: Seq<CommandView>, aliases: Map<Seq<char>, Seq<char>>) -> Seq<
    CommandView,
> {
    Seq::new(cs.len(), |i: int| spec_expand_alias(cs[i], aliases))
}

/// The standard input of the command at position `i` of a pipeline: the
/// process before it for all but the first; for the first, the file of its
/// last `<`, else the null device in a background pipeline.
pub open spec fn stdin_of(c: CommandView, i: int, background: bool) -> Source {
    if i > 0 {
        Source::Pipe
    } else {
        match last_redirect(c.redirects, true) {
            Some(k) => Source::File(k as usize),
            None => if background {
                Source::Null
            } else {
                Source::Inherit
            },
        }
    }
}

/// The standard output of the command at position `i` of a pipeline of
/// `n` commands: the process after it for all but the last; for the last,
/// the file of its last `>` or `>>`.
pub open spec fn stdout_of(c: CommandView, i: int, n: int) -> Sink {
    if i + 1 < n {
        Sink::Pipe
    } else {
        match last_redirect(c.redirects, false) {
            Some(k) => Sink::File(k as usize),
            None => Sink::Inherit,
        }
    }
}

/// The stages of the first `upto` commands of `cs`: one for each command
/// that has a name, in order.
pub open spec fn stages_of(cs: Seq<CommandView>, background: bool, upto: int) -> Seq<Stage>
    decreases upto,
{
    if upto <= 0 || upto > cs.len() {
        Seq::empty()
    } else {
        let i = upto - 1;
        if cs[i].name is Some {
            stages_of(cs, background, i).push(
                Stage {
                    command: i as usize,
                    stdin: stdin_of(cs[i], i, background),
                    stdout: stdout_of(cs[i], i, cs.len() as int),
                },
            )
        } else {
            stages_of(cs, background, i)
        }
    }
}

/// Whether one of `cs` is the builtin `exit`.
pub open spec fn names_exit(cs: Seq<CommandView>) -> bool {
    exists|i: int| 0 <= i < cs.len() && (#[trigger] cs[i]).name == Some(spec_name(Builtin::Exit))
}

/// How the commands `cs`, aliases already expanded, are run.
///
/// A single command without a name is a list of assignments. A single
/// builtin in a foreground pipeline is run by the shell itself. `exit`
/// among several commands ends the shell. Anything else is started as
/// processes.
pub open spec fn spec_plan(cs: Seq<CommandView>, background: bool) -> PlanView {
    if cs.len() == 1 {
        match cs[0].name {
            None => PlanView::Assign,
            Some(n) => if is_builtin_name(n) && !background {
                PlanView::Builtin(choose|b: Builtin| spec_name(b) == n)
            } else {
                PlanView::Spawn(stages_of(cs, background, 1))
            },
        }
    } else if names_exit(cs) {
        PlanView::ExitShell
    } else {
        PlanView::Spawn(stages_of(cs, background, cs.len() as int))
    }
}

/// `pipeline` with the name of each command expanded once by `aliases`.
pub fn expand_aliases(pipeline: &Pipeline, aliases: &StrMap) -> (r: Pipeline)
    requires
        aliases.wf(),
    ensures
        r@.commands == with_aliases(pipeline@.commands, aliases@),
        r.negated == pipeline.negated,
        r.background == pipeline.background,
        r.commands.len() == pipeline.commands.len(),
{
    let ghost want = with_aliases(pipeline@.commands, aliases@);
    let mut commands: Vec<ParsedCommand> = Vec::new();
    let mut i: usize = 0;
    while i < pipeline.commands.len()
        invariant
            0 <= i <= pipeline.commands.len(),
            aliases.wf(),
            commands.len() == i,
            want == with_aliases(pipeline@.commands, aliases@),
            forall|k: int| 0 <= k < i ==> (#[trigger] commands[k])@ == want[k],
        decreases pipeline.commands.len() - i,
    {
        let mut c = pipeline.commands[i].copy();
        expand_alias(&mut c, aliases);
        assert(pipeline@.commands[i as int] == pipeline.commands[i as int]@);
        commands.push(c);
        i += 1;
    }
    assert(view_seq(commands@) =~= want);
    Pipeline { commands, negated: pipeline.negated, background: pipeline.background }
}

fn stage_for(c: &ParsedCommand, i: usize, n: usize, background: bool) -> (r: Stage)
    requires
        i < n,
    ensures
        r == (Stage {
            command: i,
            stdin: stdin_of(c@, i as int, background),
            stdout: stdout_of(c@, i as int, n as int),
        }),
{
    let ghost rs = view_seq(c.redirects@);
    let mut input: Option<usize> = None;
    let mut output: Option<usize> = None;
    let mut k: usize = 0;
    assert(rs.take(0) =~= Seq::empty());
    while k < c.redirects.len()
        invariant
            0 <= k <= c.redirects.len(),
            rs == view_seq(c.redirects@),
            match input {
                Some(x) => last_redirect(rs.take(k as int), true) == Some(x as int),
                None => last_redirect(rs.take(k as int), true) is None,
            },
            match output {
                Some(x) => last_redirect(rs.take(k as int), false) == Some(x as int),
                None => last_redirect(rs.take(k as int), false) is None,
            },
        decreases c.redirects.len() - k,
    {
        proof {
            assert(rs.take(k + 1).drop_last() =~= rs.take(k as int));
            assert(rs.take(k + 1).last() == c.redirects[k as int]@);
        }
        match c.redirects[k].kind {
            RedirectKind::StdinFrom => {
                input = Some(k);
            },
            _ => {
                output = Some(k);
            },
        }
        k += 1;
    }
    assert(rs.take(k as int) =~= rs);
    let stdin = if i > 0 {
        Source::Pipe
    } else {
        match input {
            Some(x) => Source::File(x),
            None => if background {
                Source::Null
            } else {
                Source::Inherit
            },
        }
    };
    let stdout = if i + 1 < n {
        Sink::Pipe
    } else {
        match output {
            Some(x) => Sink::File(x),
            None => Sink::Inherit,
        }
    };
    Stage { command: i, stdin, stdout }
}

/// How `pipeline`, its aliases already expanded, is run.
pub fn plan_commands(pipeline: &Pipeline) -> (r: Plan)
    requires
        pipeline.wf(),
    ensures
        r@ == spec_plan(pipeline@.commands, pipeline.background),
{
    let ghost cs = pipeline@.commands;
    let n = pipeline.commands.len();
    proof {
        reveal_strlit("sys.exit");
    }
    if n == 1 {
        let c = &pipeline.commands[0];
        assert(cs[0] == c@);
        match &c.name {
            None => {
                return Plan::Assign;
            },
            Some(name) => {
                if !pipeline.background {
                    match find_command(name.as_str()) {
                        Some(b) => {
                            proof {
                                crate::registry::lemma_names_differ();
                                let other = choose|x: Builtin| spec_name(x) == name@;
                                assert(spec_name(other) == spec_name(b));
                            }
                            return Plan::Builtin(b);
                        },
                        None => {},
                    }
                }
            },
        }
    } else {
        let mut i: usize = 0;
        while i < n
            invariant
                0 <= i <= n == pipeline.commands.len(),
                n != 1,
                cs == pipeline@.commands,
                forall|k: int|
                    0 <= k < i ==> (#[trigger] cs[k]).name != Some(spec_name(Builtin::Exit)),
            decreases n - i,
        {
            assert(cs[i as int] == pipeline.commands[i as int]@);
            let is_exit = match &pipeline.commands[i].name {
                Some(name) => name.as_str().eq("sys.exit"),
                None => false,
            };
            if is_exit {
                assert(cs[i as int].name == Some(spec_name(Builtin::Exit)));
                return Plan::ExitShell;
            }
            i += 1;
        }
    }
    let mut stages: Vec<Stage> = Vec::new();
    let mut i: usize = 0;
    while i < n
        invariant
            0 <= i <= n == pipeline.commands.len(),
            cs == pipeline@.commands,
            stages@ == stages_of(cs, pipeline.background, i as int),
        decreases n - i,
    {
        let c = &pipeline.commands[i];
        assert(cs[i as int] == c@);
        if c.name.is_some() {
            stages.push(stage_for(c, i, n, pipeline.background));
        }
        i += 1;
    }
    Plan::Spawn(stages)
}

/// How `pipeline` is run under `aliases`: the pipeline with its aliases
/// expanded, and the plan for it.
pub fn plan_pipeline(pipeline: &Pipeline, aliases: &StrMap) -> (r: (Pipeline, Plan))
    requires
        aliases.wf(),
        pipeline.wf(),
    ensures
        r.0@.commands == with_aliases(pipeline@.commands, aliases@),
        r.0.negated == pipeline.negated,
        r.0.background == pipeline.background,
        r.1@ == spec_plan(r.0@.commands, pipeline.background),
{
    let expanded = expand_aliases(pipeline, aliases);
    let plan = plan_commands(&expanded);
    (expanded, plan)
}

/// Why a pipeline could not be started.
#[derive(Debug, Clone, Copy, PartialEq, Eq)]
pub enum Failure {
    /// No such command.
    NotFound,
    /// The command was found and could not be started.
    SpawnFailed,
    /// A file of a redirection could not be opened.
    RedirectFailed,
}

/// The exit status of a pipeline that could not be started: 127 where a
/// command is missing or cannot be started, 1 where a redirection fails.
pub open spec fn spec_failure_code(f: Failure) -> i32 {
    match f {
        Failure::NotFound => 127,
        Failure::SpawnFailed => 127,
        Failure::RedirectFailed => 1,
    }
}

/// The exit status of a pipeline that could not be started.
pub fn failure_code(f: Failure) -> (r: i32)
    ensures
        r == spec_failure_code(f),
{
    match f {
        Failure::NotFound => 127,
        Failure::SpawnFailed => 127,
        Failure::RedirectFailed => 1,
    }
}

} // verus!
