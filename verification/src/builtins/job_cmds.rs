//! `jobs`, `fg`, `bg`, `wait` and `kill`: what they say and which jobs and
//! processes they mean. Sending signals and waiting are for the caller to do.

use crate::ast::{lemma_view_seq_push, view_seq};

use crate::job_control::{unreported, JobSpecError, JobTable, TableModel};
use crate::jobs::{state_of, Job, JobState};
use crate::text::{
    chars_of, decimal, number_of, parse_number, push_decimal, push_str, string_of,
};
use vstd::prelude::*;

verus! {

/// The mark of a job in the list of jobs: `+` for the current job, `-`
/// for the previous one, a space for any other.
pub open spec fn mark_of(m: TableModel, id: usize) -> char {
    if m.current == Some(id) {
        '+'
    } else if m.previous == Some(id) {
        '-'
    } else {
        ' '
    }
}

/// The word for a state in the list of jobs.
pub open spec fn state_label(s: JobState) -> Seq<char> {
    match s {
        JobState::Running => "Running"@,
        JobState::Stopped => "Stopped"@,
        JobState::Done(_) => "Done"@,
    }
}

/// The line of a job in the list of jobs: its id in brackets, its mark,
/// its state, and its command.
pub open spec fn job_line(m: TableModel, job: Job) -> Seq<char> {
    seq!['['] + decimal(job.id as nat) + seq![']', ' ', mark_of(m, job.id), ' '] + state_label(
        state_of(job.processes@),
    ) + seq![' ', ' '] + job.command@
}

/// The lines that `jobs` shows: one for each job, by rising id.
pub open spec fn job_lines(m: TableModel) -> Seq<Seq<char>> {
    Seq::new(m.jobs.len(), |i: int| job_line(m, m.jobs[i]))
}

/// The line that reports the end of a job.
pub open spec fn done_line(job: Job) -> Seq<char> {
    seq!['['] + decimal(job.id as nat) + "] Done "@ + job.command@
}

/// The line that reports that a job in the foreground has stopped.
pub open spec fn stopped_line(job: Job) -> Seq<char> {
    seq!['\n', '['] + decimal(job.id as nat) + "] Stopped  "@ + job.command@
}

/// The line that reports the start of a job in the background.
pub open spec fn started_line(id: usize, pgid: u32) -> Seq<char> {
    seq!['['] + decimal(id as nat) + seq![']', ' '] + decimal(pgid as nat)
}

/// The lines that `jobs` shows.
pub fn jobs(table: &JobTable) -> (r: Vec<String>)
    requires
        table@.wf(),
    ensures
        view_seq(r@) == job_lines(table@),
{
    let n = table.len();
    let mut lines: Vec<String> = Vec::new();
    let mut i: usize = 0;
    while i < n
        invariant
            0 <= i <= n == table@.jobs.len(),
            lines.len() == i,
            forall|k: int| 0 <= k < i ==> (#[trigger] lines[k])@ == job_line(table@, table@.jobs[k]),
        decreases n - i,
    {
        let job = table.job_at(i);
        let mark = match table.current_job() {
            Some(c) if c == job.id => '+',
            _ => match table.previous_job() {
                Some(p) if p == job.id => '-',
                _ => ' ',
            },
        };
        let mut out: Vec<char> = Vec::new();
        out.push('[');
        push_decimal(&mut out, job.id as u64);
        out.push(']');
        out.push(' ');
        out.push(mark);
        out.push(' ');
        push_str(&mut out, job.state().label());
        out.push(' ');
        out.push(' ');
        push_str(&mut out, job.command.as_str());
        assert(out@ =~= job_line(table@, *job));
        lines.push(string_of(&out));
        i += 1;
    }
    assert(view_seq(lines@) =~= job_lines(table@));
    lines
}

/// The line that reports the end of `job`.
pub fn report_done(job: &Job) -> (r: String)
    ensures
        r@ == done_line(*job),
{
    let mut out: Vec<char> = Vec::new();
    out.push('[');
    push_decimal(&mut out, job.id as u64);
    push_str(&mut out, "] Done ");
    push_str(&mut out, job.command.as_str());
    assert(out@ =~= done_line(*job));
    string_of(&out)
}

/// The line that reports that `job` has stopped.
pub fn report_stopped(job: &Job) -> (r: String)
    ensures
        r@ == stopped_line(*job),
{
    let mut out: Vec<char> = Vec::new();
    out.push('\n');
    out.push('[');
    push_decimal(&mut out, job.id as u64);
    push_str(&mut out, "] Stopped  ");
    push_str(&mut out, job.command.as_str());
    assert(out@ =~= stopped_line(*job));
    string_of(&out)
}

/// The line that reports the start of the job `id` in the background.
pub fn report_started(id: usize, pgid: u32) -> (r: String)
    ensures
        r@ == started_line(id, pgid),
{
    let mut out: Vec<char> = Vec::new();
    out.push('[');
    push_decimal(&mut out, id as u64);
    out.push(']');
    out.push(' ');
    push_decimal(&mut out, pgid as u64);
    assert(out@ =~= started_line(id, pgid));
    string_of(&out)
}

/// Takes the finished jobs out of the table, and gives the lines that
/// report the end of those that have not been reported yet.
pub fn update_jobs(table: &mut JobTable) -> (r: Vec<String>)
    requires
        old(table)@.wf(),
    ensures
        final(table)@.wf(),
        final(table)@ == old(table)@.reaped(),
        view_seq(r@) == Seq::new(
            unreported(old(table)@.jobs).len(),
            |i: int| done_line(unreported(old(table)@.jobs)[i]),
        ),
{
    let ended = table.reap_done();
    let mut lines: Vec<String> = Vec::new();
    let mut i: usize = 0;
    while i < ended.len()
        invariant
            0 <= i <= ended.len(),
            lines.len() == i,
            forall|k: int| 0 <= k < i ==> (#[trigger] lines[k])@ == done_line(ended[k]),
        decreases ended.len() - i,
    {
        lines.push(report_done(&ended[i]));
        i += 1;
    }
    assert(view_seq(lines@) =~= Seq::new(ended@.len(), |i: int| done_line(ended@[i])));
    lines
}

/// The job that `fg` or `bg` means: the one that its first argument
/// names; without argument the current job, or where that names none the
/// job with the greatest id.
pub open spec fn spec_select(m: TableModel, args: Seq<Seq<char>>) -> Result<usize, JobSpecError> {
    if args.len() > 0 {
        m.resolve(args[0])
    } else {
        match m.named(m.current, JobSpecError::NoCurrent) {
            Ok(id) => Ok(id),
            Err(e) => if m.jobs.len() > 0 {
                Ok(m.jobs.last().id)
            } else {
                Err(JobSpecError::NoCurrent)
            },
        }
    }
}

/// The job that `fg` or `bg` with the arguments `args` means.
pub fn select_job(table: &JobTable, args: &[String]) -> (r: Result<usize, JobSpecError>)
    requires
        table@.wf(),
    ensures
        r == spec_select(table@, view_seq(args@)),
        r matches Ok(id) ==> table@.has(id),
{
    if args.len() > 0 {
        assert(view_seq(args@)[0] == args[0]@);
        table.resolve_job_specifier(args[0].as_str())
    } else {
        let current = match table.current_job() {
            Some(id) => if table.contains(id) {
                Some(id)
            } else {
                None
            },
            None => None,
        };
        match current {
            Some(id) => Ok(id),
            None => {
                let n = table.len();
                if n > 0 {
                    let job = table.job_at(n - 1);
                    assert(table@.jobs[n - 1].id == job.id);
                    Ok(job.id)
                } else {
                    Err(JobSpecError::NoCurrent)
                }
            },
        }
    }
}

/// What `fg`, `bg`, `wait` or `kill` says of a specifier that names no job.
pub open spec fn spec_job_error(command: Seq<char>, spec: Seq<char>, e: JobSpecError) -> Seq<char> {
    "cerf: "@ + command + seq![':', ' '] + spec + match e {
        JobSpecError::NoCurrent => ": no current job"@,
        JobSpecError::NoPrevious => ": no previous job"@,
        JobSpecError::NoSuchJob => ": no such job"@,
        JobSpecError::Ambiguous => ": ambiguous job spec"@,
        JobSpecError::Invalid => ": not a pid or valid job spec"@,
    }
}

/// What `command` says of the specifier `spec` that names no job.
pub fn job_error(command: &str, spec: &str, e: JobSpecError) -> (r: String)
    ensures
        r@ == spec_job_error(command@, spec@, e),
{
    let mut out: Vec<char> = Vec::new();
    push_str(&mut out, "cerf: ");
    push_str(&mut out, command);
    out.push(':');
    out.push(' ');
    push_str(&mut out, spec);
    push_str(
        &mut out,
        match e {
            JobSpecError::NoCurrent => ": no current job",
            JobSpecError::NoPrevious => ": no previous job",
            JobSpecError::NoSuchJob => ": no such job",
            JobSpecError::Ambiguous => ": ambiguous job spec",
            JobSpecError::Invalid => ": not a pid or valid job spec",
        },
    );
    assert(out@ =~= spec_job_error(command@, spec@, e));
    string_of(&out)
}

/// The exit status of `wait` for a specifier that names no job: 127 for
/// a job that does not exist, 1 for anything else.
pub open spec fn spec_wait_failure(e: JobSpecError) -> i32 {
    match e {
        JobSpecError::NoSuchJob => 127,
        _ => 1,
    }
}

/// The exit status of `wait` for a specifier that names no job.
pub fn wait_failure(e: JobSpecError) -> (r: i32)
    ensures
        r == spec_wait_failure(e),
{
    match e {
        JobSpecError::NoSuchJob => 127,
        _ => 1,
    }
}

/// The ids of the jobs, by rising id: what `wait` without argument waits for.
pub fn job_ids(table: &JobTable) -> (r: Vec<usize>)
    ensures
        r@ == Seq::new(table@.jobs.len(), |i: int| table@.jobs[i].id),
{
    let n = table.len();
    let mut ids: Vec<usize> = Vec::new();
    let mut i: usize = 0;
    while i < n
        invariant
            0 <= i <= n == table@.jobs.len(),
            ids.len() == i,
            forall|k: int| 0 <= k < i ==> ids[k] == table@.jobs[k].id,
        decreases n - i,
    {
        ids.push(table.job_at(i).id);
        i += 1;
    }
    assert(ids@ =~= Seq::new(table@.jobs.len(), |i: int| table@.jobs[i].id));
    ids
}

/// A signal that `kill` sends.
#[derive(Debug, Clone, Copy, PartialEq, Eq)]
pub enum KillSignal {
    Term,
    Kill,
    Stop,
    Cont,
    Int,
}

/// The signal that a name or number stands for.
pub open spec fn spec_signal_named(s: Seq<char>) -> Option<KillSignal> {
    if s == "KILL"@ || s == "9"@ {
        Some(KillSignal::Kill)
    } else if s == "STOP"@ || s == "19"@ {
        Some(KillSignal::Stop)
    } else if s == "CONT"@ || s == "18"@ {
        Some(KillSignal::Cont)
    } else if s == "INT"@ || s == "2"@ {
        Some(KillSignal::Int)
    } else if s == "TERM"@ || s == "15"@ {
        Some(KillSignal::Term)
    } else {
        None
    }
}

/// The signal that the name or number `s` stands for.
pub fn signal_named(s: &str) -> (r: Option<KillSignal>)
    ensures
        r == spec_signal_named(s@),
{
    if s.eq("KILL") || s.eq("9") {
        Some(KillSignal::Kill)
    } else if s.eq("STOP") || s.eq("19") {
        Some(KillSignal::Stop)
    } else if s.eq("CONT") || s.eq("18") {
        Some(KillSignal::Cont)
    } else if s.eq("INT") || s.eq("2") {
        Some(KillSignal::Int)
    } else if s.eq("TERM") || s.eq("15") {
        Some(KillSignal::Term)
    } else {
        None
    }
}

/// `current`, or the signal that `name` stands for where it stands for one.
pub open spec fn signal_or(name: Seq<char>, current: KillSignal) -> KillSignal {
    match spec_signal_named(name) {
        Some(s) => s,
        None => current,
    }
}

/// Whether `arg` is an option of `kill`: `-` and at least one more character.
pub open spec fn is_kill_option(arg: Seq<char>) -> bool {
    arg.len() > 1 && arg[0] == '-'
}

/// What the arguments `args[i..]` of `kill` ask for, given the signal and
/// the targets that the arguments before have left: `-s NAME` and `-NAME`
/// choose the signal, the last of them counting; everything else is a target.
pub open spec fn kill_scan(
    args: Seq<Seq<char>>,
    i: int,
    signal: KillSignal,
    targets: Seq<Seq<char>>,
) -> (KillSignal, Seq<Seq<char>>)
    decreases args.len() - i,
{
    if i < 0 || i >= args.len() {
        (signal, targets)
    } else if args[i] == "-s"@ && i + 1 < args.len() {
        kill_scan(args, i + 2, signal_or(args[i + 1], signal), targets)
    } else if is_kill_option(args[i]) {
        kill_scan(args, i + 1, signal_or(args[i].skip(1), signal), targets)
    } else {
        kill_scan(args, i + 1, signal, targets.push(args[i]))
    }
}

/// The signal and the targets that the arguments of `kill` ask for; the
/// signal is `Term` where none is chosen.
pub fn kill_request(args: &[String]) -> (r: (KillSignal, Vec<String>))
    ensures
        (r.0, view_seq(r.1@)) == kill_scan(view_seq(args@), 0, KillSignal::Term, Seq::empty()),
{
    let ghost all = view_seq(args@);
    let mut signal = KillSignal::Term;
    let mut targets: Vec<String> = Vec::new();
    let n = args.len();
    let mut i: usize = 0;
    assert(view_seq(targets@) =~= Seq::<Seq<char>>::empty());
    while i < n
        invariant
            0 <= i <= n == args.len(),
            all == view_seq(args@),
            kill_scan(all, 0, KillSignal::Term, Seq::empty()) == kill_scan(
                all,
                i as int,
                signal,
                view_seq(targets@),
            ),
        decreases n - i,
    {
        let arg = args[i].as_str();
        assert(all[i as int] == arg@);
        if arg.eq("-s") && i + 1 < n {
            assert(all[i + 1] == args[i + 1]@);
            match signal_named(args[i + 1].as_str()) {
                Some(s) => {
                    signal = s;
                },
                None => {},
            }
            i += 2;
        } else {
            let a = chars_of(arg);
            if a.len() > 1 && a[0] == '-' {
                let rest = crate::text::substring(&a, 1, a.len());
                assert(rest@ =~= arg@.skip(1));
                match signal_named(rest.as_str()) {
                    Some(s) => {
                        signal = s;
                    },
                    None => {},
                }
            } else {
                proof {
                    lemma_view_seq_push(targets@, args[i as int]);
                }
                targets.push(args[i].clone());
            }
            i += 1;
        }
    }
    (signal, targets)
}

/// What a signal is sent to.
#[derive(Debug, Clone, Copy, PartialEq, Eq)]
pub enum KillTarget {
    /// Every process of the process group.
    Group(u32),
    /// The process.
    Process(i32),
}

/// Why a target of `kill` names nothing.
#[derive(Debug, Clone, Copy, PartialEq, Eq)]
pub enum KillError {
    /// A job specifier that names no job.
    Job(JobSpecError),
    /// Neither a job specifier nor a process id.
    NotAnId,
}

/// What the target `t` of `kill` names: for a job specifier the process
/// group of the job, else the process with the id that its digits spell.
pub open spec fn spec_kill_target(m: TableModel, t: Seq<char>) -> Result<KillTarget, KillError> {
    if t.len() > 0 && t[0] == '%' {
        match m.resolve(t) {
            Ok(id) => Ok(KillTarget::Group(m.job(id).pgid)),
            Err(e) => Err(KillError::Job(e)),
        }
    } else {
        match number_of(t) {
            Some(n) => if n <= i32::MAX {
                Ok(KillTarget::Process(n as i32))
            } else {
                Err(KillError::NotAnId)
            },
            None => Err(KillError::NotAnId),
        }
    }
}

/// What the target `t` of `kill` names.
pub fn kill_target(table: &JobTable, t: &str) -> (r: Result<KillTarget, KillError>)
    requires
        table@.wf(),
    ensures
        r == spec_kill_target(table@, t@),
{
    let v = chars_of(t);
    if v.len() > 0 && v[0] == '%' {
        match table.resolve_job_specifier(t) {
            Ok(id) => match table.get(id) {
                Some(job) => Ok(KillTarget::Group(job.pgid)),
                None => Err(KillError::Job(JobSpecError::NoSuchJob)),
            },
            Err(e) => Err(KillError::Job(e)),
        }
    } else {
        assert(v@.subrange(0, v.len() as int) =~= v@);
        match parse_number(&v, 0, v.len()) {
            Some(n) => if n <= 0x7fff_ffff {
                Ok(KillTarget::Process(n as i32))
            } else {
                Err(KillError::NotAnId)
            },
            None => Err(KillError::NotAnId),
        }
    }
}

} // verus!
