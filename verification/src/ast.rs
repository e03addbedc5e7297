//! The command list that a line of input is parsed into.

use vstd::prelude::*;

verus! {

/// The views of the items of `s`, in order.
pub open spec fn view_seq<T: View>(s: Seq<T>) -> Seq<T::V> {
    Seq::new(s.len(), |i: int| s[i]@)
}

/// The views of a sequence with one more item are the views of the
/// sequence with the view of the item added.
pub proof fn lemma_view_seq_push<T: View>(s: Seq<T>, x: T)
    ensures
        view_seq(s.push(x)) == view_seq(s).push(x@),
{
    assert(view_seq(s.push(x)) =~= view_seq(s).push(x@));
}

/// One argument of a command, with the way it was quoted.
///
/// `quoted` is true when the word was written as exactly one quoted
/// segment; such an argument is never glob-expanded.
#[derive(Debug, PartialEq, Eq, Clone)]
pub struct Arg {
    pub value: String,
    pub quoted: bool,
}

/// What an `Arg` holds.
pub struct ArgView {
    pub value: Seq<char>,
    pub quoted: bool,
}

impl View for Arg {
    type V = ArgView;

    open spec fn view(&self) -> ArgView {
        ArgView { value: self.value@, quoted: self.quoted }
    }
}

impl Arg {
    /// An argument with the value and the quoting given.
    pub fn new(value: &str, quoted: bool) -> (r: Arg)
        ensures
            r@ == (ArgView { value: value@, quoted }),
    {
        Arg { value: value.to_owned(), quoted }
    }

    /// An argument that was not quoted.
    pub fn plain(value: &str) -> (r: Arg)
        ensures
            r@ == (ArgView { value: value@, quoted: false }),
    {
        Arg::new(value, false)
    }

    /// Another argument with the same value and quoting.
    pub fn copy(&self) -> (r: Arg)
        ensures
            r == *self,
    {
        Arg { value: self.value.clone(), quoted: self.quoted }
    }
}

/// The values of `args`, in order, without the quoting flags.
pub open spec fn spec_arg_values(args: Seq<ArgView>) -> Seq<Seq<char>> {
    Seq::new(args.len(), |i: int| args[i].value)
}

/// The values of `args`, in order, without the quoting flags.
pub fn arg_values(args: &[Arg]) -> (r: Vec<&str>)
    ensures
        view_seq(r@) == spec_arg_values(view_seq(args@)),
{
    let mut r: Vec<&str> = Vec::new();
    let mut i: usize = 0;
    while i < args.len()
        invariant
            0 <= i <= args.len(),
            r.len() == i,
            forall|k: int| 0 <= k < i ==> (#[trigger] r[k])@ == args[k].value@,
        decreases args.len() - i,
    {
        r.push(args[i].value.as_str());
        i += 1;
    }
    assert(view_seq(r@) =~= spec_arg_values(view_seq(args@)));
    r
}

/// Where a redirection points a command's input or output.
#[derive(Debug, PartialEq, Eq, Clone, Copy)]
pub enum RedirectKind {
    /// `> file`: standard output, the file truncated first.
    StdoutOverwrite,
    /// `>> file`: standard output, appended to the file.
    StdoutAppend,
    /// `< file`: standard input read from the file.
    StdinFrom,
}

/// A redirection of a command: its kind and the file that it names.
#[derive(Debug, PartialEq, Eq, Clone)]
pub struct Redirect {
    pub kind: RedirectKind,
    pub file: String,
}

/// What a `Redirect` holds.
pub struct RedirectView {
    pub kind: RedirectKind,
    pub file: Seq<char>,
}

impl View for Redirect {
    type V = RedirectView;

    open spec fn view(&self) -> RedirectView {
        RedirectView { kind: self.kind, file: self.file@ }
    }
}

impl Redirect {
    /// Another redirection of the same kind to the same file.
    pub fn copy(&self) -> (r: Redirect)
        ensures
            r == *self,
    {
        Redirect { kind: self.kind, file: self.file.clone() }
    }
}

/// One command of a pipeline: the assignments written before it, its name
/// (absent when the command consists of assignments), its arguments and its
/// redirections, each list in the order written.
#[derive(Debug, PartialEq, Eq, Clone)]
pub struct ParsedCommand {
    pub assignments: Vec<(String, String)>,
    pub name: Option<String>,
    pub args: Vec<Arg>,
    pub redirects: Vec<Redirect>,
}

/// What a `ParsedCommand` holds.
pub struct CommandView {
    pub assignments: Seq<(Seq<char>, Seq<char>)>,
    pub name: Option<Seq<char>>,
    pub args: Seq<ArgView>,
    pub redirects: Seq<RedirectView>,
}

/// The view of the string that `o` holds, if it holds one.
pub open spec fn opt_view(o: Option<String>) -> Option<Seq<char>> {
    match o {
        Some(s) => Some(s@),
        None => None,
    }
}

impl View for ParsedCommand {
    type V = CommandView;

    open spec fn view(&self) -> CommandView {
        CommandView {
            assignments: view_seq(self.assignments@),
            name: opt_view(self.name),
            args: view_seq(self.args@),
            redirects: view_seq(self.redirects@),
        }
    }
}

impl ParsedCommand {
    /// Another command that holds the same.
    pub fn copy(&self) -> (r: ParsedCommand)
        ensures
            r@ == self@,
    {
        let mut assignments: Vec<(String, String)> = Vec::new();
        let mut i: usize = 0;
        while i < self.assignments.len()
            invariant
                0 <= i <= self.assignments.len(),
                assignments.len() == i,
                view_seq(assignments@) == view_seq(self.assignments@).take(i as int),
            decreases self.assignments.len() - i,
        {
            assignments.push((self.assignments[i].0.clone(), self.assignments[i].1.clone()));
            assert(view_seq(assignments@) =~= view_seq(self.assignments@).take(i + 1));
            i += 1;
        }
        let name = match &self.name {
            Some(n) => Some(n.clone()),
            None => None,
        };
        let mut args: Vec<Arg> = Vec::new();
        let mut i: usize = 0;
        while i < self.args.len()
            invariant
                0 <= i <= self.args.len(),
                args.len() == i,
                view_seq(args@) == view_seq(self.args@).take(i as int),
            decreases self.args.len() - i,
        {
            args.push(self.args[i].copy());
            assert(view_seq(args@) =~= view_seq(self.args@).take(i + 1));
            i += 1;
        }
        let mut redirects: Vec<Redirect> = Vec::new();
        let mut i: usize = 0;
        while i < self.redirects.len()
            invariant
                0 <= i <= self.redirects.len(),
                redirects.len() == i,
                view_seq(redirects@) == view_seq(self.redirects@).take(i as int),
            decreases self.redirects.len() - i,
        {
            redirects.push(self.redirects[i].copy());
            assert(view_seq(redirects@) =~= view_seq(self.redirects@).take(i + 1));
            i += 1;
        }
        assert(view_seq(assignments@) =~= view_seq(self.assignments@));
        assert(view_seq(args@) =~= view_seq(self.args@));
        assert(view_seq(redirects@) =~= view_seq(self.redirects@));
        ParsedCommand { assignments, name, args, redirects }
    }
}

/// One or more commands joined by `|`.
///
/// `negated` inverts the exit status of the whole pipeline; `background`
/// detaches it as a job.
#[derive(Debug, PartialEq, Eq, Clone)]
pub struct Pipeline {
    pub commands: Vec<ParsedCommand>,
    pub negated: bool,
    pub background: bool,
}

/// What a `Pipeline` holds.
pub struct PipelineView {
    pub commands: Seq<CommandView>,
    pub negated: bool,
    pub background: bool,
}

impl View for Pipeline {
    type V = PipelineView;

    open spec fn view(&self) -> PipelineView {
        PipelineView {
            commands: view_seq(self.commands@),
            negated: self.negated,
            background: self.background,
        }
    }
}

impl Pipeline {
    /// A pipeline holds at least one command.
    pub open spec fn wf(&self) -> bool {
        self.commands.len() > 0
    }

    /// Another pipeline that holds the same.
    pub fn copy(&self) -> (r: Pipeline)
        ensures
            r@ == self@,
            r.wf() == self.wf(),
    {
        let mut commands: Vec<ParsedCommand> = Vec::new();
        let mut i: usize = 0;
        while i < self.commands.len()
            invariant
                0 <= i <= self.commands.len(),
                commands.len() == i,
                view_seq(commands@) == view_seq(self.commands@).take(i as int),
            decreases self.commands.len() - i,
        {
            commands.push(self.commands[i].copy());
            assert(view_seq(commands@) =~= view_seq(self.commands@).take(i + 1));
            i += 1;
        }
        assert(view_seq(commands@) =~= view_seq(self.commands@));
        Pipeline { commands, negated: self.negated, background: self.background }
    }
}

/// How a pipeline is joined to the one before it.
#[derive(Debug, PartialEq, Eq, Clone, Copy)]
pub enum Connector {
    /// `;`: the next pipeline always runs.
    Semi,
    /// `&&`: the next pipeline runs only after exit status 0.
    And,
    /// `||`: the next pipeline runs only after a non-zero exit status.
    Or,
    /// `&`: the pipeline before is detached, and the next always runs.
    Amp,
}

/// One pipeline of a command list, with the connector written before it
/// (`None` for the first).
#[derive(Debug, PartialEq, Eq, Clone)]
pub struct CommandEntry {
    pub connector: Option<Connector>,
    pub pipeline: Pipeline,
}

/// What a `CommandEntry` holds.
pub struct EntryView {
    pub connector: Option<Connector>,
    pub pipeline: PipelineView,
}

impl View for CommandEntry {
    type V = EntryView;

    open spec fn view(&self) -> EntryView {
        EntryView { connector: self.connector, pipeline: self.pipeline@ }
    }
}

} // verus!
