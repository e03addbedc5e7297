//! Jobs: the pipelines that the shell has started, the state of their
//! processes, and the table that names them.

use crate::ast::{view_seq, CommandView, Pipeline, PipelineView};
use crate::text::{join_with, push_joined, string_of};
use vstd::prelude::*;

verus! {

/// The state of a process, and of a job as a whole.
#[derive(Debug, Clone, Copy, PartialEq, Eq)]
pub enum JobState {
    Running,
    Stopped,
    /// Finished, with its exit status.
    Done(i32),
}

impl JobState {
    /// `Running`, `Stopped`, or `Done`.
    pub fn label(&self) -> (r: &'static str)
        ensures
            r@ == match self {
                JobState::Running => "Running"@,
                JobState::Stopped => "Stopped"@,
                JobState::Done(_) => "Done"@,
            },
    {
        match self {
            JobState::Running => "Running",
            JobState::Stopped => "Stopped",
            JobState::Done(_) => "Done",
        }
    }
}

/// One process of a job.
#[derive(Debug, Clone)]
pub struct ProcessInfo {
    pub pid: u32,
    pub name: String,
    pub state: JobState,
}

/// A pipeline that was started, with its processes.
#[derive(Debug, Clone)]
pub struct Job {
    pub id: usize,
    /// The process group of the job: the process id of its first process.
    pub pgid: u32,
    /// The command line, for display.
    pub command: String,
    pub processes: Vec<ProcessInfo>,
    /// Whether the end of the job has been reported to the user.
    pub reported_done: bool,
}

/// Every process has finished.
pub open spec fn all_done(ps: Seq<ProcessInfo>) -> bool {
    forall|i: int| 0 <= i < ps.len() ==> (#[trigger] ps[i]).state is Done
}

/// No process is running, and at least one is stopped.
pub open spec fn all_halted_some_stopped(ps: Seq<ProcessInfo>) -> bool {
    &&& forall|i: int| 0 <= i < ps.len() ==> !((#[trigger] ps[i]).state is Running)
    &&& exists|i: int| 0 <= i < ps.len() && (#[trigger] ps[i]).state is Stopped
}

/// The state of a job with the processes `ps`: `Done` with the status of
/// the last process when all have finished (0 where there is no process);
/// `Stopped` when none runs and one is stopped; else `Running`.
pub open spec fn state_of(ps: Seq<ProcessInfo>) -> JobState {
    if all_done(ps) {
        JobState::Done(
            if ps.len() > 0 {
                ps.last().state->0
            } else {
                0
            },
        )
    } else if all_halted_some_stopped(ps) {
        JobState::Stopped
    } else {
        JobState::Running
    }
}

/// The state of a job follows from the states of its processes, whatever
/// updates have led to them: it is `Done` exactly when every process has
/// finished, and then carries the status of the last one; it is `Stopped`
/// exactly when no process runs and at least one is stopped; it is
/// `Running` in every other case.
pub proof fn lemma_state_rules(ps: Seq<ProcessInfo>)
    ensures
        state_of(ps) is Done <==> all_done(ps),
        state_of(ps) is Done && ps.len() > 0 ==> ps.last().state == state_of(ps),
        state_of(ps) is Stopped <==> all_halted_some_stopped(ps),
        state_of(ps) is Running <==> !all_done(ps) && !all_halted_some_stopped(ps),
{
    if all_done(ps) && all_halted_some_stopped(ps) {
        let i = choose|i: int| 0 <= i < ps.len() && (#[trigger] ps[i]).state is Stopped;
        assert(ps[i].state is Done);
    }
    if all_done(ps) && ps.len() > 0 {
        assert(ps[ps.len() - 1].state is Done);
    }
}

impl Job {
    /// Whether every process has finished.
    pub fn is_done(&self) -> (r: bool)
        ensures
            r == all_done(self.processes@),
    {
        let mut i: usize = 0;
        while i < self.processes.len()
            invariant
                0 <= i <= self.processes.len(),
                forall|k: int| 0 <= k < i ==> (#[trigger] self.processes[k]).state is Done,
            decreases self.processes.len() - i,
        {
            match self.processes[i].state {
                JobState::Done(_) => {},
                _ => {
                    return false;
                },
            }
            i += 1;
        }
        true
    }

    /// Whether no process runs and at least one is stopped.
    pub fn is_stopped(&self) -> (r: bool)
        ensures
            r == all_halted_some_stopped(self.processes@),
    {
        let mut any_stopped = false;
        let mut i: usize = 0;
        while i < self.processes.len()
            invariant
                0 <= i <= self.processes.len(),
                forall|k: int| 0 <= k < i ==> !((#[trigger] self.processes[k]).state is Running),
                any_stopped == exists|k: int|
                    0 <= k < i && (#[trigger] self.processes[k]).state is Stopped,
            decreases self.processes.len() - i,
        {
            match self.processes[i].state {
                JobState::Running => {
                    return false;
                },
                JobState::Stopped => {
                    any_stopped = true;
                },
                JobState::Done(_) => {},
            }
            i += 1;
        }
        any_stopped
    }

    /// The state of the job, derived from the states of its processes.
    pub fn state(&self) -> (r: JobState)
        ensures
            r == state_of(self.processes@),
    {
        if self.is_done() {
            let n = self.processes.len();
            let code = if n > 0 {
                match self.processes[n - 1].state {
                    JobState::Done(c) => c,
                    _ => 0,
                }
            } else {
                0
            };
            JobState::Done(code)
        } else if self.is_stopped() {
            JobState::Stopped
        } else {
            JobState::Running
        }
    }

    /// Whether the process `pid` belongs to the job.
    pub fn has_pid(&self, pid: u32) -> (r: bool)
        ensures
            r == exists|k: int| 0 <= k < self.processes.len() && (#[trigger] self.processes[k]).pid
                == pid,
    {
        let mut i: usize = 0;
        while i < self.processes.len()
            invariant
                0 <= i <= self.processes.len(),
                forall|k: int| 0 <= k < i ==> (#[trigger] self.processes[k]).pid != pid,
            decreases self.processes.len() - i,
        {
            if self.processes[i].pid == pid {
                return true;
            }
            i += 1;
        }
        false
    }
}

/// The processes `ps` after the process `pid` has taken the state `to`:
/// every process with that id has it, and nothing else has changed.
pub open spec fn with_pid_state(ps: Seq<ProcessInfo>, pid: u32, to: JobState) -> Seq<ProcessInfo> {
    Seq::new(
        ps.len(),
        |i: int|
            if ps[i].pid == pid {
                ProcessInfo { pid: ps[i].pid, name: ps[i].name, state: to }
            } else {
                ps[i]
            },
    )
}

/// The processes `ps` after every one in the state `from` has taken the
/// state `to`.
pub open spec fn with_state_replaced(ps: Seq<ProcessInfo>, from: JobState, to: JobState) -> Seq<
    ProcessInfo,
> {
    Seq::new(
        ps.len(),
        |i: int|
            if ps[i].state == from {
                ProcessInfo { pid: ps[i].pid, name: ps[i].name, state: to }
            } else {
                ps[i]
            },
    )
}

pub(crate) fn set_pid_state(ps: &mut Vec<ProcessInfo>, pid: u32, to: JobState)
    ensures
        final(ps)@ == with_pid_state(old(ps)@, pid, to),
{
    let n = ps.len();
    let mut i: usize = 0;
    while i < n
        invariant
            0 <= i <= n == ps.len(),
            n == old(ps).len(),
            forall|k: int| 0 <= k < i ==> #[trigger] ps[k] == with_pid_state(old(ps)@, pid, to)[k],
            forall|k: int| i <= k < n ==> #[trigger] ps[k] == old(ps)[k],
        decreases n - i,
    {
        if ps[i].pid == pid {
            ps[i].state = to;
        }
        i += 1;
    }
    assert(ps@ =~= with_pid_state(old(ps)@, pid, to));
}

pub(crate) fn replace_state(ps: &mut Vec<ProcessInfo>, from: JobState, to: JobState)
    ensures
        final(ps)@ == with_state_replaced(old(ps)@, from, to),
{
    let n = ps.len();
    let mut i: usize = 0;
    while i < n
        invariant
            0 <= i <= n == ps.len(),
            n == old(ps).len(),
            forall|k: int|
                0 <= k < i ==> #[trigger] ps[k] == with_state_replaced(old(ps)@, from, to)[k],
            forall|k: int| i <= k < n ==> #[trigger] ps[k] == old(ps)[k],
        decreases n - i,
    {
        let same = match (ps[i].state, from) {
            (JobState::Running, JobState::Running) => true,
            (JobState::Stopped, JobState::Stopped) => true,
            (JobState::Done(a), JobState::Done(b)) => a == b,
            _ => false,
        };
        if same {
            ps[i].state = to;
        }
        i += 1;
    }
    assert(ps@ =~= with_state_replaced(old(ps)@, from, to));
}

/// What the system reports of the shell's children.
#[derive(Debug, Clone, Copy, PartialEq, Eq)]
pub enum WaitEvent {
    /// The process ended by itself, with this exit status.
    Exited(u32, i32),
    /// The process was ended by this signal.
    Signaled(u32, u8),
    /// The process was stopped.
    Stopped(u32),
    /// The process was resumed.
    Continued(u32),
    /// The shell has no children.
    NoChild,
    /// No child has changed state.
    WouldBlock,
}

/// The process that `event` is about, and the state that it takes: the
/// exit status for a process that ended, 128 plus the signal for one that a
/// signal ended. `None` for an event about no process.
pub open spec fn event_effect(event: WaitEvent) -> Option<(u32, JobState)> {
    match event {
        WaitEvent::Exited(pid, code) => Some((pid, JobState::Done(code))),
        WaitEvent::Signaled(pid, sig) => Some((pid, JobState::Done((128 + sig) as i32))),
        WaitEvent::Stopped(pid) => Some((pid, JobState::Stopped)),
        WaitEvent::Continued(pid) => Some((pid, JobState::Running)),
        WaitEvent::NoChild => None,
        WaitEvent::WouldBlock => None,
    }
}

/// The process that `event` is about, and the state that it takes.
pub fn effect_of(event: WaitEvent) -> (r: Option<(u32, JobState)>)
    ensures
        r == event_effect(event),
{
    match event {
        WaitEvent::Exited(pid, code) => Some((pid, JobState::Done(code))),
        WaitEvent::Signaled(pid, sig) => {
            let code: i32 = 128 + sig as i32;
            Some((pid, JobState::Done(code)))
        },
        WaitEvent::Stopped(pid) => Some((pid, JobState::Stopped)),
        WaitEvent::Continued(pid) => Some((pid, JobState::Running)),
        WaitEvent::NoChild => None,
        WaitEvent::WouldBlock => None,
    }
}

/// The words of a command, for display: its name, then its arguments.
pub open spec fn command_words(c: CommandView) -> Seq<Seq<char>> {
    (match c.name {
        Some(n) => seq![n],
        None => Seq::empty(),
    }) + Seq::new(c.args.len(), |i: int| c.args[i].value)
}

/// A command as it is displayed: its words with a space between each two.
pub open spec fn command_text(c: CommandView) -> Seq<char> {
    join_with(command_words(c), seq![' '])
}

/// A pipeline as it is displayed: its commands with ` | ` between each
/// two, and ` &` at the end of a background pipeline.
pub open spec fn spec_format_command(p: PipelineView) -> Seq<char> {
    join_with(Seq::new(p.commands.len(), |i: int| command_text(p.commands[i])), seq![' ', '|', ' '])
        + (if p.background {
        seq![' ', '&']
    } else {
        Seq::empty()
    })
}

/// The display string of a pipeline.
pub fn format_command(pipeline: &Pipeline) -> (r: String)
    ensures
        r@ == spec_format_command(pipeline@),
{
    proof {
        reveal_strlit(" ");
        reveal_strlit(" | ");
        assert(" "@ =~= seq![' ']);
    }
    let ghost p = pipeline@;
    let mut texts: Vec<String> = Vec::new();
    let mut i: usize = 0;
    while i < pipeline.commands.len()
        invariant
            0 <= i <= pipeline.commands.len(),
            p == pipeline@,
            " "@ == seq![' '],
            texts.len() == i,
            forall|k: int| 0 <= k < i ==> (#[trigger] texts[k])@ == command_text(p.commands[k]),
        decreases pipeline.commands.len() - i,
    {
        let c = &pipeline.commands[i];
        let ghost cv = p.commands[i as int];
        assert(cv == c@);
        let mut words: Vec<String> = Vec::new();
        match &c.name {
            Some(n) => {
                words.push(n.clone());
            },
            None => {},
        }
        let ghost head = view_seq(words@);
        assert(head =~= match cv.name {
            Some(n) => seq![n],
            None => Seq::<Seq<char>>::empty(),
        });
        let mut j: usize = 0;
        while j < c.args.len()
            invariant
                0 <= j <= c.args.len(),
                cv == c@,
                words.len() == head.len() + j,
                forall|k: int| 0 <= k < head.len() ==> (#[trigger] words[k])@ == head[k],
                forall|k: int| 0 <= k < j ==> (#[trigger] words[head.len() + k])@ == c.args[k].value@,
            decreases c.args.len() - j,
        {
            words.push(c.args[j].value.clone());
            j += 1;
        }
        assert(view_seq(words@) =~= command_words(cv)) by {
            assert(view_seq(words@).len() == command_words(cv).len());
            assert forall|k: int| 0 <= k < words.len() implies view_seq(words@)[k]
                == command_words(cv)[k] by {
                if k >= head.len() {
                    assert(words[head.len() + (k - head.len())]@ == c.args[k - head.len()].value@);
                    assert(cv.args[k - head.len()] == c.args[k - head.len()]@);
                }
            }
        }
        let mut text: Vec<char> = Vec::new();
        push_joined(&mut text, &words, " ");
        assert(text@ =~= command_text(cv));
        texts.push(string_of(&text));
        i += 1;
    }
    assert(view_seq(texts@) =~= Seq::new(
        p.commands.len(),
        |i: int| command_text(p.commands[i]),
    ));
    let mut out: Vec<char> = Vec::new();
    assert(" | "@ =~= seq![' ', '|', ' ']);
    push_joined(&mut out, &texts, " | ");
    if pipeline.background {
        out.push(' ');
        out.push('&');
    }
    assert(out@ =~= spec_format_command(p));
    string_of(&out)
}

} // verus!
