//! The job table: which jobs exist, under which ids, and how the reports
//! of the system about their processes change them.

use crate::jobs::{
    all_done, effect_of, event_effect, state_of, with_pid_state, with_state_replaced, Job,
    JobState, ProcessInfo, WaitEvent,
};
use crate::text::{chars_of, is_ascii_digit, number_of, parse_number};
use vstd::prelude::*;

verus! {

/// What a job table holds.
pub struct TableModel {
    /// The jobs, by rising id.
    pub jobs: Seq<Job>,
    /// The id that the next job gets.
    pub next_id: nat,
    /// The job that was created or resumed last.
    pub current: Option<usize>,
    /// The job that was current before that.
    pub previous: Option<usize>,
}

/// The jobs among `jobs` that have not finished, in order.
pub open spec fn unfinished(jobs: Seq<Job>) -> Seq<Job>
    decreases jobs.len(),
{
    if jobs.len() == 0 {
        Seq::empty()
    } else if all_done(jobs.last().processes@) {
        unfinished(jobs.drop_last())
    } else {
        unfinished(jobs.drop_last()).push(jobs.last())
    }
}

/// The jobs among `jobs` that have finished and whose end has not been
/// reported, in order.
pub open spec fn unreported(jobs: Seq<Job>) -> Seq<Job>
    decreases jobs.len(),
{
    if jobs.len() == 0 {
        Seq::empty()
    } else if all_done(jobs.last().processes@) && !jobs.last().reported_done {
        unreported(jobs.drop_last()).push(jobs.last())
    } else {
        unreported(jobs.drop_last())
    }
}

/// Whether `s` begins with `p`.
pub open spec fn begins_with(s: Seq<char>, p: Seq<char>) -> bool {
    p.len() <= s.len() && s.subrange(0, p.len() as int) == p
}

/// The ids of the jobs among `jobs` whose display string begins with `p`.
pub open spec fn matching(jobs: Seq<Job>, p: Seq<char>) -> Seq<usize>
    decreases jobs.len(),
{
    if jobs.len() == 0 {
        Seq::empty()
    } else if begins_with(jobs.last().command@, p) {
        matching(jobs.drop_last(), p).push(jobs.last().id)
    } else {
        matching(jobs.drop_last(), p)
    }
}

/// Whether `s` is one or more decimal digits.
pub open spec fn all_digits(s: Seq<char>) -> bool {
    s.len() > 0 && forall|i: int| 0 <= i < s.len() ==> is_ascii_digit(#[trigger] s[i])
}

/// Why a job specifier names no job.
#[derive(Debug, Clone, Copy, PartialEq, Eq)]
pub enum JobSpecError {
    /// `%+` or `%%` while no job is current.
    NoCurrent,
    /// `%-` while no job is previous.
    NoPrevious,
    /// The job named does not exist.
    NoSuchJob,
    /// More than one job begins with the prefix given.
    Ambiguous,
    /// Neither `%` and a specifier nor a number.
    Invalid,
}

impl TableModel {
    /// Ids start at 1, rise along the table, and stay below the next id.
    pub open spec fn wf(self) -> bool {
        &&& self.next_id >= 1
        &&& self.next_id <= usize::MAX
        &&& forall|i: int| 0 <= i < self.jobs.len() ==> 1 <= (#[trigger] self.jobs[i]).id < self.next_id
        &&& forall|i: int, j: int|
            0 <= i < j < self.jobs.len() ==> (#[trigger] self.jobs[i]).id < (#[trigger] self.jobs[j]).id
    }

    /// Whether the table holds a job with the id `id`.
    pub open spec fn has(self, id: usize) -> bool {
        exists|i: int| 0 <= i < self.jobs.len() && (#[trigger] self.jobs[i]).id == id
    }

    /// The position of the job `id`.
    pub open spec fn position(self, id: usize) -> int {
        choose|i: int| 0 <= i < self.jobs.len() && (#[trigger] self.jobs[i]).id == id
    }

    /// The job `id`.
    pub open spec fn job(self, id: usize) -> Job {
        self.jobs[self.position(id)]
    }

    /// The table with the job `id` current, and the job that was current
    /// before it previous.
    pub open spec fn with_current(self, id: usize) -> TableModel {
        TableModel {
            jobs: self.jobs,
            next_id: self.next_id,
            current: Some(id),
            previous: if self.current == Some(id) {
                self.previous
            } else {
                self.current
            },
        }
    }

    /// The table with `job` added under the next id and made current.
    pub open spec fn added(self, job: Job) -> TableModel {
        TableModel {
            jobs: self.jobs.push(job),
            next_id: self.next_id + 1,
            current: Some(job.id),
            previous: self.current,
        }
    }

    /// The table without the job `id`.
    pub open spec fn without(self, id: usize) -> TableModel {
        TableModel {
            jobs: if self.has(id) {
                self.jobs.remove(self.position(id))
            } else {
                self.jobs
            },
            next_id: self.next_id,
            current: self.current,
            previous: self.previous,
        }
    }

    /// The table without the jobs that have finished.
    pub open spec fn reaped(self) -> TableModel {
        TableModel {
            jobs: unfinished(self.jobs),
            next_id: self.next_id,
            current: self.current,
            previous: self.previous,
        }
    }

    /// The job that `id` names, if there is one.
    pub open spec fn named(self, id: Option<usize>, missing: JobSpecError) -> Result<
        usize,
        JobSpecError,
    > {
        match id {
            Some(id) => if self.has(id) {
                Ok(id)
            } else {
                Err(JobSpecError::NoSuchJob)
            },
            None => Err(missing),
        }
    }

    /// The job that the digits `s` name.
    pub open spec fn numbered(self, s: Seq<char>) -> Result<usize, JobSpecError> {
        match number_of(s) {
            Some(n) => if n <= usize::MAX && self.has(n as usize) {
                Ok(n as usize)
            } else {
                Err(JobSpecError::NoSuchJob)
            },
            None => Err(JobSpecError::NoSuchJob),
        }
    }

    /// The job that a specifier names: `%+` and `%%` the current job, `%-`
    /// the previous one, `%` and a number or a bare number the job with
    /// that id, `%` and anything else the one job whose display string
    /// begins with it.
    pub open spec fn resolve(self, s: Seq<char>) -> Result<usize, JobSpecError> {
        if s.len() > 0 && s[0] == '%' {
            let rest = s.skip(1);
            if rest == seq!['+'] || rest == seq!['%'] {
                self.named(self.current, JobSpecError::NoCurrent)
            } else if rest == seq!['-'] {
                self.named(self.previous, JobSpecError::NoPrevious)
            } else if all_digits(rest) {
                self.numbered(rest)
            } else {
                let found = matching(self.jobs, rest);
                if found.len() == 1 {
                    Ok(found[0])
                } else if found.len() == 0 {
                    Err(JobSpecError::NoSuchJob)
                } else {
                    Err(JobSpecError::Ambiguous)
                }
            }
        } else if all_digits(s) {
            self.numbered(s)
        } else {
            Err(JobSpecError::Invalid)
        }
    }
}

/// A job gets an id that no job in the table has and that is greater than
/// all of them, and the next job gets a greater one again.
pub proof fn lemma_ids_rise(m: TableModel, first: Job, second: Job)
    requires
        m.wf(),
        m.next_id + 2 <= usize::MAX,
        first.id == m.next_id,
        second.id == m.added(first).next_id,
    ensures
        !m.has(first.id),
        forall|i: int| 0 <= i < m.jobs.len() ==> (#[trigger] m.jobs[i]).id < first.id,
        first.id < second.id,
        m.added(first).wf(),
        m.added(first).added(second).wf(),
        !m.added(first).has(second.id),
{
    let m1 = m.added(first);
    assert forall|i: int, j: int| 0 <= i < j < m1.jobs.len() implies (#[trigger] m1.jobs[i]).id < (
    #[trigger] m1.jobs[j]).id by {
        if j < m.jobs.len() {
            assert(m1.jobs[i] == m.jobs[i]);
            assert(m1.jobs[j] == m.jobs[j]);
        } else {
            assert(m1.jobs[i] == m.jobs[i]);
        }
    }
    assert(m1.wf());
    let m2 = m1.added(second);
    assert forall|i: int, j: int| 0 <= i < j < m2.jobs.len() implies (#[trigger] m2.jobs[i]).id < (
    #[trigger] m2.jobs[j]).id by {
        if j < m1.jobs.len() {
            assert(m2.jobs[i] == m1.jobs[i]);
            assert(m2.jobs[j] == m1.jobs[j]);
        } else {
            assert(m2.jobs[i] == m1.jobs[i]);
        }
    }
    assert forall|i: int| 0 <= i < m2.jobs.len() implies 1 <= (#[trigger] m2.jobs[i]).id
        < m2.next_id by {
        if i < m1.jobs.len() {
            assert(m2.jobs[i] == m1.jobs[i]);
        }
    }
}

/// Dropping a job, reaping finished jobs and choosing the current job
/// leave the next id as it is, and no job of the table holds it: an id is
/// never handed out again while, or after, a job holds it.
pub proof fn lemma_ids_are_not_reused(m: TableModel, id: usize)
    requires
        m.wf(),
    ensures
        m.without(id).next_id == m.next_id,
        m.reaped().next_id == m.next_id,
        m.with_current(id).next_id == m.next_id,
        forall|i: int| 0 <= i < m.jobs.len() ==> (#[trigger] m.jobs[i]).id != m.next_id,
{
}

/// Whether one of `jobs` has the id `id`.
pub open spec fn some_has_id(jobs: Seq<Job>, id: usize) -> bool {
    exists|i: int| 0 <= i < jobs.len() && (#[trigger] jobs[i]).id == id
}

/// A specifier's prefix matches only jobs of the table.
pub proof fn lemma_matching(jobs: Seq<Job>, p: Seq<char>)
    ensures
        forall|k: int|
            0 <= k < matching(jobs, p).len() ==> some_has_id(jobs, #[trigger] matching(jobs, p)[k]),
    decreases jobs.len(),
{
    if jobs.len() > 0 {
        let front = jobs.drop_last();
        lemma_matching(front, p);
        let found = matching(jobs, p);
        assert forall|k: int| 0 <= k < found.len() implies some_has_id(jobs, #[trigger] found[k]) by {
            if k < matching(front, p).len() {
                assert(some_has_id(front, matching(front, p)[k]));
                let i = choose|i: int|
                    0 <= i < front.len() && (#[trigger] front[i]).id == matching(front, p)[k];
                assert(jobs[i].id == found[k]);
            } else {
                assert(jobs[jobs.len() - 1].id == found[k]);
            }
        }
    }
}

/// The job table of the shell.
pub struct JobTable {
    jobs: Vec<Job>,
    next_job_id: usize,
    current_job: Option<usize>,
    previous_job: Option<usize>,
}

impl View for JobTable {
    type V = TableModel;

    closed spec fn view(&self) -> TableModel {
        TableModel {
            jobs: self.jobs@,
            next_id: self.next_job_id as nat,
            current: self.current_job,
            previous: self.previous_job,
        }
    }
}

/// What the shell does next about a job that it waits for.
#[derive(Debug, Clone, Copy, PartialEq, Eq)]
pub enum WaitPoll {
    /// There is no such job: the wait is over, with status 0.
    Gone,
    /// The job is stopped: the wait is over, with status 0.
    Stopped,
    /// The job has finished with this status: the wait is over.
    Done(i32),
    /// The job runs: wait for the next event.
    Block,
}

/// What happens next about the job `id`, which is waited for.
pub open spec fn spec_poll(m: TableModel, id: usize) -> WaitPoll {
    if !m.has(id) {
        WaitPoll::Gone
    } else {
        match state_of(m.job(id).processes@) {
            JobState::Stopped => WaitPoll::Stopped,
            JobState::Done(code) => WaitPoll::Done(code),
            JobState::Running => WaitPoll::Block,
        }
    }
}

impl JobTable {
    /// A table without jobs, in which the first job gets the id 1.
    pub fn new() -> (t: JobTable)
        ensures
            t@.wf(),
            t@ == (TableModel { jobs: Seq::empty(), next_id: 1, current: None, previous: None }),
    {
        JobTable { jobs: Vec::new(), next_job_id: 1, current_job: None, previous_job: None }
    }

    /// The number of jobs.
    pub fn len(&self) -> (n: usize)
        ensures
            n == self@.jobs.len(),
    {
        self.jobs.len()
    }

    /// The id that the next job gets.
    pub fn next_job_id(&self) -> (n: usize)
        ensures
            n == self@.next_id,
    {
        self.next_job_id
    }

    /// The job that was created or resumed last.
    pub fn current_job(&self) -> (r: Option<usize>)
        ensures
            r == self@.current,
    {
        self.current_job
    }

    /// The job that was current before the current one.
    pub fn previous_job(&self) -> (r: Option<usize>)
        ensures
            r == self@.previous,
    {
        self.previous_job
    }

    /// The job at position `k` in the order of the ids.
    pub fn job_at(&self, k: usize) -> (job: &Job)
        requires
            k < self@.jobs.len(),
        ensures
            *job == self@.jobs[k as int],
    {
        &self.jobs[k]
    }

    /// The position of the job `id`.
    fn find(&self, id: usize) -> (r: Option<usize>)
        requires
            self@.wf(),
        ensures
            match r {
                Some(k) => k < self.jobs.len() && self.jobs[k as int].id == id && self@.has(id)
                    && self@.position(id) == k,
                None => !self@.has(id),
            },
    {
        let mut k: usize = 0;
        while k < self.jobs.len()
            invariant
                0 <= k <= self.jobs.len(),
                self@.wf(),
                forall|i: int| 0 <= i < k ==> (#[trigger] self.jobs[i]).id != id,
            decreases self.jobs.len() - k,
        {
            if self.jobs[k].id == id {
                proof {
                    let p = self@.position(id);
                    assert(self@.jobs[k as int].id == id);
                    if p < k {
                        assert(self@.jobs[p].id < self@.jobs[k as int].id);
                    } else if p > k {
                        assert(self@.jobs[k as int].id < self@.jobs[p].id);
                    }
                }
                return Some(k);
            }
            k += 1;
        }
        None
    }

    /// Whether the table holds a job with the id `id`.
    pub fn contains(&self, id: usize) -> (r: bool)
        requires
            self@.wf(),
        ensures
            r == self@.has(id),
    {
        self.find(id).is_some()
    }

    /// The job `id`.
    pub fn get(&self, id: usize) -> (r: Option<&Job>)
        requires
            self@.wf(),
        ensures
            match r {
                Some(job) => self@.has(id) && *job == self@.job(id),
                None => !self@.has(id),
            },
    {
        match self.find(id) {
            Some(k) => Some(&self.jobs[k]),
            None => None,
        }
    }

    /// Makes the job `id` the current one.
    pub fn set_current_job(&mut self, id: usize)
        ensures
            final(self)@ == old(self)@.with_current(id),
    {
        let same = match self.current_job {
            Some(c) => c == id,
            None => false,
        };
        if !same {
            self.previous_job = self.current_job;
        }
        self.current_job = Some(id);
    }

    /// Enters a job that was started, under the next id, and makes it the
    /// current one. Gives the id, or `None` where the ids are used up.
    pub fn add_job(&mut self, pgid: u32, command: String, processes: Vec<ProcessInfo>) -> (r:
        Option<usize>)
        requires
            old(self)@.wf(),
        ensures
            final(self)@.wf(),
            match r {
                Some(id) => {
                    &&& id == old(self)@.next_id
                    &&& old(self)@.next_id < usize::MAX
                    &&& final(self)@ == old(self)@.added(
                        Job { id, pgid, command, processes, reported_done: false },
                    )
                },
                None => old(self)@.next_id == usize::MAX && final(self)@ == old(self)@,
            },
    {
        if self.next_job_id == usize::MAX {
            return None;
        }
        let id = self.next_job_id;
        let job = Job { id, pgid, command, processes, reported_done: false };
        self.jobs.push(job);
        self.next_job_id = id + 1;
        self.previous_job = self.current_job;
        self.current_job = Some(id);
        proof {
            let m = old(self)@;
            assert forall|i: int, j: int| 0 <= i < j < self.jobs.len() implies (
            #[trigger] self.jobs[i]).id < (#[trigger] self.jobs[j]).id by {
                if j < m.jobs.len() {
                    assert(self.jobs[i] == m.jobs[i]);
                    assert(self.jobs[j] == m.jobs[j]);
                } else {
                    assert(self.jobs[i] == m.jobs[i]);
                }
            }
            assert forall|i: int| 0 <= i < self.jobs.len() implies 1 <= (
            #[trigger] self.jobs[i]).id < self.next_job_id by {
                if i < m.jobs.len() {
                    assert(self.jobs[i] == m.jobs[i]);
                }
            }
        }
        Some(id)
    }

    /// Gives every process `pid` the state `to`.
    pub fn update_pid_state(&mut self, pid: u32, to: JobState)
        requires
            old(self)@.wf(),
        ensures
            final(self)@.wf(),
            final(self)@.jobs.len() == old(self)@.jobs.len(),
            forall|i: int|
                0 <= i < old(self)@.jobs.len() ==> {
                    let was = old(self)@.jobs[i];
                    let now = #[trigger] final(self)@.jobs[i];
                    &&& now.id == was.id
                    &&& now.pgid == was.pgid
                    &&& now.command == was.command
                    &&& now.reported_done == was.reported_done
                    &&& now.processes@ == with_pid_state(was.processes@, pid, to)
                },
            final(self)@.next_id == old(self)@.next_id,
            final(self)@.current == old(self)@.current,
            final(self)@.previous == old(self)@.previous,
    {
        let n = self.jobs.len();
        let mut k: usize = 0;
        while k < n
            invariant
                0 <= k <= n == self.jobs.len(),
                n == old(self).jobs.len(),
                self.next_job_id == old(self).next_job_id,
                self.current_job == old(self).current_job,
                self.previous_job == old(self).previous_job,
                forall|i: int|
                    0 <= i < n ==> {
                        let was = old(self).jobs[i];
                        let now = #[trigger] self.jobs[i];
                        &&& now.id == was.id
                        &&& now.pgid == was.pgid
                        &&& now.command == was.command
                        &&& now.reported_done == was.reported_done
                        &&& now.processes@ == if i < k {
                            with_pid_state(was.processes@, pid, to)
                        } else {
                            was.processes@
                        }
                    },
            decreases n - k,
        {
            let mut ps: Vec<ProcessInfo> = Vec::new();
            core::mem::swap(&mut ps, &mut self.jobs[k].processes);
            crate::jobs::set_pid_state(&mut ps, pid, to);
            core::mem::swap(&mut ps, &mut self.jobs[k].processes);
            k += 1;
        }
    }

    /// Takes note of what the system reports, and says whether the report
    /// was about a process.
    pub fn apply_event(&mut self, event: WaitEvent) -> (r: bool)
        requires
            old(self)@.wf(),
        ensures
            final(self)@.wf(),
            r == event_effect(event) is Some,
            !r ==> final(self)@ == old(self)@,
            final(self)@.jobs.len() == old(self)@.jobs.len(),
            final(self)@.next_id == old(self)@.next_id,
            final(self)@.current == old(self)@.current,
            final(self)@.previous == old(self)@.previous,
            event_effect(event) matches Some(e) ==> forall|i: int|
                0 <= i < old(self)@.jobs.len() ==> {
                    let was = old(self)@.jobs[i];
                    let now = #[trigger] final(self)@.jobs[i];
                    &&& now.id == was.id
                    &&& now.pgid == was.pgid
                    &&& now.command == was.command
                    &&& now.reported_done == was.reported_done
                    &&& now.processes@ == with_pid_state(was.processes@, e.0, e.1)
                },
    {
        match effect_of(event) {
            Some((pid, to)) => {
                self.update_pid_state(pid, to);
                true
            },
            None => false,
        }
    }

    /// Replaces, in the job `id`, the state `from` by the state `to`, and
    /// says whether there is such a job.
    fn replace_in(&mut self, id: usize, from: JobState, to: JobState, reset_report: bool) -> (r:
        bool)
        requires
            old(self)@.wf(),
        ensures
            final(self)@.wf(),
            r == old(self)@.has(id),
            !r ==> final(self)@ == old(self)@,
            final(self)@.jobs.len() == old(self)@.jobs.len(),
            final(self)@.next_id == old(self)@.next_id,
            final(self)@.current == old(self)@.current,
            final(self)@.previous == old(self)@.previous,
            r ==> {
                let k = old(self)@.position(id);
                let was = old(self)@.jobs[k];
                let now = final(self)@.jobs[k];
                &&& final(self)@.jobs == old(self)@.jobs.update(k, now)
                &&& now.id == was.id
                &&& now.pgid == was.pgid
                &&& now.command == was.command
                &&& now.reported_done == (was.reported_done && !reset_report)
                &&& now.processes@ == with_state_replaced(was.processes@, from, to)
            },
    {
        match self.find(id) {
            Some(k) => {
                let ghost before = self.jobs@;
                let mut ps: Vec<ProcessInfo> = Vec::new();
                core::mem::swap(&mut ps, &mut self.jobs[k].processes);
                crate::jobs::replace_state(&mut ps, from, to);
                core::mem::swap(&mut ps, &mut self.jobs[k].processes);
                if reset_report {
                    self.jobs[k].reported_done = false;
                }
                proof {
                    assert(self.jobs@ =~= before.update(k as int, self.jobs@[k as int]));
                    assert forall|i: int| 0 <= i < self.jobs.len() implies (
                    #[trigger] self.jobs[i]).id == before[i].id by {}
                }
                true
            },
            None => false,
        }
    }

    /// Gives up on the processes of the job `id` that still count as
    /// running, after the system has said that the shell has no children:
    /// each is taken to have finished with status 0.
    pub fn abandon(&mut self, id: usize) -> (r: bool)
        requires
            old(self)@.wf(),
        ensures
            final(self)@.wf(),
            r == old(self)@.has(id),
            !r ==> final(self)@ == old(self)@,
            final(self)@.jobs.len() == old(self)@.jobs.len(),
            final(self)@.next_id == old(self)@.next_id,
            final(self)@.current == old(self)@.current,
            final(self)@.previous == old(self)@.previous,
            r ==> {
                let k = old(self)@.position(id);
                let was = old(self)@.jobs[k];
                let now = final(self)@.jobs[k];
                &&& final(self)@.jobs == old(self)@.jobs.update(k, now)
                &&& now.id == was.id
                &&& now.pgid == was.pgid
                &&& now.command == was.command
                &&& now.reported_done == was.reported_done
                &&& now.processes@ == with_state_replaced(
                    was.processes@,
                    JobState::Running,
                    JobState::Done(0),
                )
            },
    {
        self.replace_in(id, JobState::Running, JobState::Done(0), false)
    }

    /// Resumes the job `id` in the background: its stopped processes count
    /// as running, its end is to be reported again, and it becomes the
    /// current job. Says whether there is such a job.
    pub fn resume(&mut self, id: usize) -> (r: bool)
        requires
            old(self)@.wf(),
        ensures
            final(self)@.wf(),
            r == old(self)@.has(id),
            !r ==> final(self)@ == old(self)@,
            final(self)@.jobs.len() == old(self)@.jobs.len(),
            final(self)@.next_id == old(self)@.next_id,
            r ==> {
                let k = old(self)@.position(id);
                let was = old(self)@.jobs[k];
                let now = final(self)@.jobs[k];
                &&& final(self)@.jobs == old(self)@.jobs.update(k, now)
                &&& final(self)@.current == old(self)@.with_current(id).current
                &&& final(self)@.previous == old(self)@.with_current(id).previous
                &&& now.id == was.id
                &&& now.pgid == was.pgid
                &&& now.command == was.command
                &&& !now.reported_done
                &&& now.processes@ == with_state_replaced(
                    was.processes@,
                    JobState::Stopped,
                    JobState::Running,
                )
            },
    {
        if self.replace_in(id, JobState::Stopped, JobState::Running, true) {
            self.set_current_job(id);
            true
        } else {
            false
        }
    }

    /// Takes the job `id` out of the table, and gives it back.
    pub fn remove(&mut self, id: usize) -> (r: Option<Job>)
        requires
            old(self)@.wf(),
        ensures
            final(self)@.wf(),
            final(self)@ == old(self)@.without(id),
            match r {
                Some(job) => old(self)@.has(id) && job == old(self)@.job(id),
                None => !old(self)@.has(id),
            },
    {
        match self.find(id) {
            Some(k) => {
                let ghost before = self.jobs@;
                let job = self.jobs.remove(k);
                proof {
                    assert forall|i: int, j: int| 0 <= i < j < self.jobs.len() implies (
                    #[trigger] self.jobs[i]).id < (#[trigger] self.jobs[j]).id by {
                        let a = if i < k {
                            i
                        } else {
                            i + 1
                        };
                        let b = if j < k {
                            j
                        } else {
                            j + 1
                        };
                        assert(self.jobs[i] == before[a]);
                        assert(self.jobs[j] == before[b]);
                    }
                    assert forall|i: int| 0 <= i < self.jobs.len() implies 1 <= (
                    #[trigger] self.jobs[i]).id < self.next_job_id by {
                        let a = if i < k {
                            i
                        } else {
                            i + 1
                        };
                        assert(self.jobs[i] == before[a]);
                    }
                }
                Some(job)
            },
            None => None,
        }
    }

    /// What happens next about the job `id`, which is waited for in the
    /// foreground (`fg`) or by `wait`. A job that has finished while it was
    /// waited for in the foreground leaves the table.
    pub fn wait_poll(&mut self, id: usize, fg: bool) -> (r: WaitPoll)
        requires
            old(self)@.wf(),
        ensures
            final(self)@.wf(),
            r == spec_poll(old(self)@, id),
            final(self)@ == if fg && r is Done {
                old(self)@.without(id)
            } else {
                old(self)@
            },
    {
        let state = match self.get(id) {
            Some(job) => job.state(),
            None => {
                return WaitPoll::Gone;
            },
        };
        match state {
            JobState::Stopped => WaitPoll::Stopped,
            JobState::Done(code) => {
                if fg {
                    self.remove(id);
                }
                WaitPoll::Done(code)
            },
            JobState::Running => WaitPoll::Block,
        }
    }

    /// Takes the finished jobs out of the table, and gives back those whose
    /// end has not been reported yet, by rising id.
    pub fn reap_done(&mut self) -> (r: Vec<Job>)
        requires
            old(self)@.wf(),
        ensures
            final(self)@.wf(),
            final(self)@ == old(self)@.reaped(),
            r@ == unreported(old(self)@.jobs),
    {
        let ghost all = self.jobs@;
        let ghost bound = self.next_job_id;
        let mut rest: Vec<Job> = Vec::new();
        core::mem::swap(&mut rest, &mut self.jobs);
        let mut reports: Vec<Job> = Vec::new();
        let ghost mut k: int = 0;
        assert(all.take(0) =~= Seq::<Job>::empty());
        while rest.len() > 0
            invariant
                0 <= k <= all.len(),
                rest@ == all.skip(k),
                self.jobs@ == unfinished(all.take(k)),
                reports@ == unreported(all.take(k)),
                self.next_job_id == old(self).next_job_id,
                self.current_job == old(self).current_job,
                self.previous_job == old(self).previous_job,
                bound == self.next_job_id,
                old(self)@.wf(),
                all == old(self).jobs@,
                forall|i: int| 0 <= i < self.jobs.len() ==> 1 <= (#[trigger] self.jobs[i]).id < bound,
                forall|i: int, j: int|
                    0 <= i < j < self.jobs.len() ==> (#[trigger] self.jobs[i]).id < (
                    #[trigger] self.jobs[j]).id,
                forall|i: int| 0 <= i < self.jobs.len() && k < all.len() ==> (
                #[trigger] self.jobs[i]).id < all[k].id,
            decreases rest.len(),
        {
            let job = rest.remove(0);
            proof {
                assert(job == all[k]);
                assert(all.take(k + 1).drop_last() =~= all.take(k));
                assert(all.take(k + 1).last() == job);
                assert(rest@ =~= all.skip(k + 1));
                assert(old(self)@.jobs == all);
                assert(1 <= old(self)@.jobs[k].id < bound);
                if k + 1 < all.len() {
                    assert(old(self)@.jobs[k].id < old(self)@.jobs[k + 1].id);
                }
            }
            let ghost kept = self.jobs@;
            if job.is_done() {
                if !job.reported_done {
                    reports.push(job);
                }
            } else {
                self.jobs.push(job);
                proof {
                    assert forall|i: int, j: int| 0 <= i < j < self.jobs.len() implies (
                    #[trigger] self.jobs[i]).id < (#[trigger] self.jobs[j]).id by {
                        assert(self.jobs[i] == kept[i]);
                        if j < kept.len() {
                            assert(self.jobs[j] == kept[j]);
                        }
                    }
                    assert forall|i: int| 0 <= i < self.jobs.len() implies 1 <= (
                    #[trigger] self.jobs[i]).id < bound by {
                        if i < kept.len() {
                            assert(self.jobs[i] == kept[i]);
                        }
                    }
                }
            }
            proof {
                assert forall|i: int| 0 <= i < self.jobs.len() && k + 1 < all.len() implies (
                #[trigger] self.jobs[i]).id < all[k + 1].id by {
                    if i < kept.len() {
                        assert(self.jobs[i] == kept[i]);
                    }
                }
                k = k + 1;
            }
        }
        proof {
            assert(all.skip(k).len() == 0);
            assert(all.take(k) =~= all);
        }
        reports
    }

    /// The job that a specifier names.
    pub fn resolve_job_specifier(&self, spec: &str) -> (r: Result<usize, JobSpecError>)
        requires
            self@.wf(),
        ensures
            r == self@.resolve(spec@),
            r matches Ok(id) ==> self@.has(id),
    {
        let s = chars_of(spec);
        let n = s.len();
        if n > 0 && s[0] == '%' {
            let ghost rest = s@.skip(1);
            assert(rest =~= s@.subrange(1, n as int));
            if n == 2 && (s[1] == '+' || s[1] == '%') {
                assert(rest =~= seq![s[1]]);
                self.check_named(self.current_job, JobSpecError::NoCurrent)
            } else if n == 2 && s[1] == '-' {
                assert(rest =~= seq!['-']);
                self.check_named(self.previous_job, JobSpecError::NoPrevious)
            } else {
                proof {
                    if rest == seq!['+'] || rest == seq!['%'] || rest == seq!['-'] {
                        assert(rest.len() == 1);
                        assert(rest[0] == s[1]);
                    }
                }
                if digits_only(&s, 1, n) {
                    self.check_numbered(&s, 1, n)
                } else {
                    self.unique_match(&s, 1)
                }
            }
        } else {
            assert(s@.subrange(0, n as int) =~= s@);
            if digits_only(&s, 0, n) {
                self.check_numbered(&s, 0, n)
            } else {
                Err(JobSpecError::Invalid)
            }
        }
    }

    fn check_named(&self, id: Option<usize>, missing: JobSpecError) -> (r: Result<
        usize,
        JobSpecError,
    >)
        requires
            self@.wf(),
        ensures
            r == self@.named(id, missing),
    {
        match id {
            Some(id) => if self.contains(id) {
                Ok(id)
            } else {
                Err(JobSpecError::NoSuchJob)
            },
            None => Err(missing),
        }
    }

    fn check_numbered(&self, s: &Vec<char>, from: usize, to: usize) -> (r: Result<
        usize,
        JobSpecError,
    >)
        requires
            self@.wf(),
            from <= to <= s.len(),
        ensures
            r == self@.numbered(s@.subrange(from as int, to as int)),
    {
        match parse_number(s, from, to) {
            Some(id) => if self.contains(id) {
                Ok(id)
            } else {
                Err(JobSpecError::NoSuchJob)
            },
            None => Err(JobSpecError::NoSuchJob),
        }
    }

    /// The one job whose display string begins with `s[from..]`.
    fn unique_match(&self, s: &Vec<char>, from: usize) -> (r: Result<usize, JobSpecError>)
        requires
            self@.wf(),
            from <= s.len(),
        ensures
            r == ({
                let found = matching(self@.jobs, s@.skip(from as int));
                if found.len() == 1 {
                    Ok(found[0])
                } else if found.len() == 0 {
                    Err(JobSpecError::NoSuchJob)
                } else {
                    Err(JobSpecError::Ambiguous)
                }
            }),
            r matches Ok(id) ==> self@.has(id),
    {
        proof {
            lemma_matching(self@.jobs, s@.skip(from as int));
        }
        let ghost p = s@.skip(from as int);
        let ghost all = self.jobs@;
        let mut first: Option<usize> = None;
        let mut many = false;
        let mut k: usize = 0;
        assert(all.take(0) =~= Seq::<Job>::empty());
        while k < self.jobs.len()
            invariant
                0 <= k <= self.jobs.len(),
                all == self.jobs@,
                p == s@.skip(from as int),
                from <= s.len(),
                match first {
                    Some(id) => matching(all.take(k as int), p).len() >= 1 && matching(
                        all.take(k as int),
                        p,
                    )[0] == id,
                    None => matching(all.take(k as int), p).len() == 0,
                },
                many == (matching(all.take(k as int), p).len() > 1),
            decreases self.jobs.len() - k,
        {
            proof {
                assert(all.take(k + 1).drop_last() =~= all.take(k as int));
                assert(all.take(k + 1).last() == all[k as int]);
            }
            let c = chars_of(self.jobs[k].command.as_str());
            if starts_with(&c, s, from) {
                match first {
                    Some(_) => {
                        many = true;
                    },
                    None => {
                        first = Some(self.jobs[k].id);
                    },
                }
            }
            k += 1;
        }
        assert(all.take(k as int) =~= all);
        match first {
            Some(id) => if many {
                Err(JobSpecError::Ambiguous)
            } else {
                Ok(id)
            },
            None => Err(JobSpecError::NoSuchJob),
        }
    }
}

fn digits_only(s: &Vec<char>, from: usize, to: usize) -> (r: bool)
    requires
        from <= to <= s.len(),
    ensures
        r == all_digits(s@.subrange(from as int, to as int)),
{
    if from == to {
        return false;
    }
    let ghost t = s@.subrange(from as int, to as int);
    let mut i: usize = from;
    while i < to
        invariant
            from <= i <= to <= s.len(),
            t == s@.subrange(from as int, to as int),
            forall|k: int| 0 <= k < i - from ==> is_ascii_digit(#[trigger] t[k]),
        decreases to - i,
    {
        let c = s[i];
        if !('0' <= c && c <= '9') {
            assert(t[i - from] == c);
            return false;
        }
        i += 1;
    }
    true
}

fn starts_with(c: &Vec<char>, s: &Vec<char>, from: usize) -> (r: bool)
    requires
        from <= s.len(),
    ensures
        r == begins_with(c@, s@.skip(from as int)),
{
    let ghost p = s@.skip(from as int);
    let m = s.len() - from;
    if m > c.len() {
        return false;
    }
    let mut i: usize = 0;
    while i < m
        invariant
            0 <= i <= m,
            m == s.len() - from,
            m <= c.len(),
            p == s@.skip(from as int),
            forall|k: int| 0 <= k < i ==> c[k] == #[trigger] p[k],
        decreases m - i,
    {
        if c[i] != s[from + i] {
            assert(c@.subrange(0, m as int)[i as int] != p[i as int]);
            return false;
        }
        i += 1;
    }
    assert(c@.subrange(0, m as int) =~= p);
    true
}

} // verus!
