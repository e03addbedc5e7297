use cerf::ast::{Arg, ParsedCommand, Pipeline};
use cerf::builtins::job_cmds::{
    job_error, job_ids, jobs, kill_request, kill_target, report_done, report_started,
    report_stopped, select_job, signal_named, update_jobs, wait_failure, KillError, KillSignal,
    KillTarget,
};
use cerf::job_control::{JobSpecError, JobTable, WaitPoll};
use cerf::jobs::JobState::{Done, Running, Stopped};
use cerf::jobs::{effect_of, format_command, Job, JobState, ProcessInfo, WaitEvent};

fn process(pid: u32, state: JobState) -> ProcessInfo {
    ProcessInfo { pid, name: format!("p{}", pid), state }
}

fn job(states: &[JobState]) -> Job {
    Job {
        id: 1,
        pgid: 100,
        command: "cmd".to_string(),
        processes: states.iter().enumerate().map(|(i, s)| process(100 + i as u32, *s)).collect(),
        reported_done: false,
    }
}

#[test]
fn job_state_follows_its_processes() {
    assert_eq!(job(&[Done(0), Done(3)]).state(), Done(3));
    assert_eq!(job(&[Done(3), Done(0)]).state(), Done(0));
    assert_eq!(job(&[Stopped, Done(1)]).state(), Stopped);
    assert_eq!(job(&[Done(1), Stopped, Stopped]).state(), Stopped);
    assert_eq!(job(&[Running, Stopped]).state(), Running);
    assert_eq!(job(&[Done(0), Running]).state(), Running);
    assert_eq!(job(&[Running]).state(), Running);
    assert_eq!(job(&[]).state(), Done(0));
}

#[test]
fn job_predicates() {
    assert!(job(&[Done(0)]).is_done());
    assert!(job(&[]).is_done());
    assert!(!job(&[Done(0), Stopped]).is_done());
    assert!(job(&[Done(0), Stopped]).is_stopped());
    assert!(!job(&[Done(0)]).is_stopped());
    assert!(!job(&[Running, Stopped]).is_stopped());
    assert!(!job(&[]).is_stopped());
    assert!(job(&[Running]).has_pid(100));
    assert!(!job(&[Running]).has_pid(7));
}

#[test]
fn events_become_states() {
    assert_eq!(effect_of(WaitEvent::Exited(5, 3)), Some((5, JobState::Done(3))));
    assert_eq!(effect_of(WaitEvent::Signaled(5, 15)), Some((5, JobState::Done(143))));
    assert_eq!(effect_of(WaitEvent::Signaled(5, 255)), Some((5, JobState::Done(383))));
    assert_eq!(effect_of(WaitEvent::Stopped(5)), Some((5, JobState::Stopped)));
    assert_eq!(effect_of(WaitEvent::Continued(5)), Some((5, JobState::Running)));
    assert_eq!(effect_of(WaitEvent::NoChild), None);
    assert_eq!(effect_of(WaitEvent::WouldBlock), None);
}

fn command(name: Option<&str>, args: &[&str]) -> ParsedCommand {
    ParsedCommand {
        assignments: vec![],
        name: name.map(|n| n.to_string()),
        args: args.iter().map(|a| Arg::plain(a)).collect(),
        redirects: vec![],
    }
}

#[test]
fn command_is_formatted_for_display() {
    let p = Pipeline {
        commands: vec![command(Some("ls"), &["-l", "a b"]), command(Some("wc"), &[])],
        negated: true,
        background: false,
    };
    assert_eq!(format_command(&p), "ls -l a b | wc");
    let q = Pipeline {
        commands: vec![command(Some("sleep"), &["60"])],
        negated: false,
        background: true,
    };
    assert_eq!(format_command(&q), "sleep 60 &");
    let r = Pipeline { commands: vec![command(None, &[])], negated: false, background: false };
    assert_eq!(format_command(&r), "");
}

fn running(pid: u32) -> Vec<ProcessInfo> {
    vec![process(pid, JobState::Running)]
}

#[test]
fn job_ids_rise_and_are_not_reused() {
    let mut t = JobTable::new();
    assert_eq!(t.next_job_id(), 1);
    assert_eq!(t.add_job(10, "a".to_string(), running(10)), Some(1));
    assert_eq!(t.add_job(20, "b".to_string(), running(20)), Some(2));
    assert!(t.remove(1).is_some());
    assert!(t.remove(1).is_none());
    assert_eq!(t.add_job(30, "c".to_string(), running(30)), Some(3));
    assert!(t.apply_event(WaitEvent::Exited(20, 0)));
    assert!(update_jobs(&mut t).len() == 1);
    assert_eq!(t.add_job(40, "d".to_string(), running(40)), Some(4));
    assert_eq!(job_ids(&t), vec![3, 4]);
    assert_eq!(t.next_job_id(), 5);
}

#[test]
fn current_and_previous_follow_creation_and_resumption() {
    let mut t = JobTable::new();
    assert_eq!(t.current_job(), None);
    t.add_job(10, "a".to_string(), running(10));
    assert_eq!((t.current_job(), t.previous_job()), (Some(1), None));
    t.add_job(20, "b".to_string(), running(20));
    assert_eq!((t.current_job(), t.previous_job()), (Some(2), Some(1)));
    t.set_current_job(2);
    assert_eq!((t.current_job(), t.previous_job()), (Some(2), Some(1)));
    t.set_current_job(1);
    assert_eq!((t.current_job(), t.previous_job()), (Some(1), Some(2)));
}

#[test]
fn events_reach_the_process_they_name() {
    let mut t = JobTable::new();
    t.add_job(10, "a | b".to_string(), vec![process(10, JobState::Running), process(11, JobState::Running)]);
    t.add_job(20, "c".to_string(), running(20));
    assert!(t.apply_event(WaitEvent::Stopped(11)));
    assert_eq!(t.get(1).unwrap().state(), JobState::Running);
    assert!(t.apply_event(WaitEvent::Exited(10, 4)));
    assert_eq!(t.get(1).unwrap().state(), JobState::Stopped);
    assert_eq!(t.get(2).unwrap().state(), JobState::Running);
    assert!(t.apply_event(WaitEvent::Continued(11)));
    assert_eq!(t.get(1).unwrap().state(), JobState::Running);
    assert!(t.apply_event(WaitEvent::Signaled(11, 9)));
    assert_eq!(t.get(1).unwrap().state(), JobState::Done(137));
    assert!(!t.apply_event(WaitEvent::NoChild));
    assert!(!t.apply_event(WaitEvent::WouldBlock));
    assert!(t.apply_event(WaitEvent::Exited(999, 0)));
    assert_eq!(t.get(2).unwrap().state(), JobState::Running);
}

#[test]
fn wait_poll_decides_the_next_step() {
    let mut t = JobTable::new();
    t.add_job(10, "a".to_string(), running(10));
    assert_eq!(t.wait_poll(7, true), WaitPoll::Gone);
    assert_eq!(t.wait_poll(1, true), WaitPoll::Block);
    assert_eq!(t.wait_poll(1, false), WaitPoll::Block);
    t.apply_event(WaitEvent::Stopped(10));
    assert_eq!(t.wait_poll(1, true), WaitPoll::Stopped);
    assert!(t.contains(1));
    t.apply_event(WaitEvent::Exited(10, 5));
    assert_eq!(t.wait_poll(1, false), WaitPoll::Done(5));
    assert!(t.contains(1));
    assert_eq!(t.wait_poll(1, true), WaitPoll::Done(5));
    assert!(!t.contains(1));
    assert_eq!(t.wait_poll(1, true), WaitPoll::Gone);
}

#[test]
fn abandon_and_resume() {
    let mut t = JobTable::new();
    t.add_job(10, "a".to_string(), vec![process(10, JobState::Running), process(11, JobState::Stopped)]);
    assert!(!t.abandon(9));
    assert!(t.abandon(1));
    let states: Vec<JobState> = t.get(1).unwrap().processes.iter().map(|p| p.state).collect();
    assert_eq!(states, vec![JobState::Done(0), JobState::Stopped]);
    t.add_job(20, "b".to_string(), running(20));
    assert!(t.resume(1));
    let states: Vec<JobState> = t.get(1).unwrap().processes.iter().map(|p| p.state).collect();
    assert_eq!(states, vec![JobState::Done(0), JobState::Running]);
    assert_eq!((t.current_job(), t.previous_job()), (Some(1), Some(2)));
    assert!(!t.resume(5));
}

#[test]
fn finished_jobs_are_reported_once_and_removed() {
    let mut t = JobTable::new();
    t.add_job(10, "first".to_string(), running(10));
    t.add_job(20, "second &".to_string(), running(20));
    t.add_job(30, "third".to_string(), running(30));
    assert!(update_jobs(&mut t).is_empty());
    t.apply_event(WaitEvent::Exited(30, 0));
    t.apply_event(WaitEvent::Signaled(10, 15));
    assert_eq!(update_jobs(&mut t), vec!["[1] Done first", "[3] Done third"]);
    assert_eq!(job_ids(&t), vec![2]);
    assert!(update_jobs(&mut t).is_empty());
}

fn table() -> JobTable {
    let mut t = JobTable::new();
    t.add_job(10, "sleep 60 &".to_string(), running(10));
    t.add_job(20, "sort big | uniq".to_string(), running(20));
    t.add_job(30, "sleep 5".to_string(), running(30));
    t
}

#[test]
fn job_specifiers_are_resolved() {
    let t = table();
    assert_eq!(t.resolve_job_specifier("%+"), Ok(3));
    assert_eq!(t.resolve_job_specifier("%%"), Ok(3));
    assert_eq!(t.resolve_job_specifier("%-"), Ok(2));
    assert_eq!(t.resolve_job_specifier("%1"), Ok(1));
    assert_eq!(t.resolve_job_specifier("2"), Ok(2));
    assert_eq!(t.resolve_job_specifier("%so"), Ok(2));
    assert_eq!(t.resolve_job_specifier("%sleep 6"), Ok(1));
    assert_eq!(t.resolve_job_specifier("%sleep"), Err(JobSpecError::Ambiguous));
    assert_eq!(t.resolve_job_specifier("%s"), Err(JobSpecError::Ambiguous));
    assert_eq!(t.resolve_job_specifier("%"), Err(JobSpecError::Ambiguous));
    assert_eq!(t.resolve_job_specifier("%vim"), Err(JobSpecError::NoSuchJob));
    assert_eq!(t.resolve_job_specifier("%9"), Err(JobSpecError::NoSuchJob));
    assert_eq!(t.resolve_job_specifier("9"), Err(JobSpecError::NoSuchJob));
    assert_eq!(
        t.resolve_job_specifier("%99999999999999999999999999"),
        Err(JobSpecError::NoSuchJob)
    );
    assert_eq!(t.resolve_job_specifier("sleep"), Err(JobSpecError::Invalid));
    assert_eq!(t.resolve_job_specifier(""), Err(JobSpecError::Invalid));
    let empty = JobTable::new();
    assert_eq!(empty.resolve_job_specifier("%+"), Err(JobSpecError::NoCurrent));
    assert_eq!(empty.resolve_job_specifier("%-"), Err(JobSpecError::NoPrevious));
    assert_eq!(empty.resolve_job_specifier("%"), Err(JobSpecError::NoSuchJob));
}

#[test]
fn specifier_of_a_job_that_is_gone() {
    let mut t = table();
    t.remove(3);
    assert_eq!(t.resolve_job_specifier("%+"), Err(JobSpecError::NoSuchJob));
    assert_eq!(select_job(&t, &[]), Ok(2));
    assert_eq!(select_job(&t, &["%1".to_string()]), Ok(1));
    assert_eq!(select_job(&t, &["%7".to_string()]), Err(JobSpecError::NoSuchJob));
    assert_eq!(select_job(&JobTable::new(), &[]), Err(JobSpecError::NoCurrent));
}

#[test]
fn jobs_are_listed_with_marks() {
    let mut t = table();
    t.apply_event(WaitEvent::Stopped(20));
    assert_eq!(
        jobs(&t),
        vec![
            "[1]   Running  sleep 60 &",
            "[2] - Stopped  sort big | uniq",
            "[3] + Running  sleep 5",
        ]
    );
    assert!(jobs(&JobTable::new()).is_empty());
}

#[test]
fn report_lines() {
    let t = table();
    assert_eq!(report_done(t.get(1).unwrap()), "[1] Done sleep 60 &");
    assert_eq!(report_stopped(t.get(2).unwrap()), "\n[2] Stopped  sort big | uniq");
    assert_eq!(report_started(12, 4711), "[12] 4711");
    assert_eq!(report_started(0, 0), "[0] 0");
    assert_eq!(job_error("fg", "%x", JobSpecError::NoSuchJob), "cerf: fg: %x: no such job");
    assert_eq!(job_error("bg", "%s", JobSpecError::Ambiguous), "cerf: bg: %s: ambiguous job spec");
    assert_eq!(job_error("fg", "%+", JobSpecError::NoCurrent), "cerf: fg: %+: no current job");
    assert_eq!(job_error("fg", "%-", JobSpecError::NoPrevious), "cerf: fg: %-: no previous job");
    assert_eq!(
        job_error("wait", "x", JobSpecError::Invalid),
        "cerf: wait: x: not a pid or valid job spec"
    );
    assert_eq!(wait_failure(JobSpecError::NoSuchJob), 127);
    assert_eq!(wait_failure(JobSpecError::Invalid), 1);
}

fn strings(items: &[&str]) -> Vec<String> {
    items.iter().map(|s| s.to_string()).collect()
}

#[test]
fn kill_arguments() {
    assert_eq!(kill_request(&strings(&["%1"])), (KillSignal::Term, strings(&["%1"])));
    assert_eq!(kill_request(&strings(&["-9", "12", "%2"])), (KillSignal::Kill, strings(&["12", "%2"])));
    assert_eq!(kill_request(&strings(&["-s", "STOP", "5"])), (KillSignal::Stop, strings(&["5"])));
    assert_eq!(kill_request(&strings(&["-CONT", "5", "-INT"])), (KillSignal::Int, strings(&["5"])));
    assert_eq!(kill_request(&strings(&["-s", "BOGUS", "5"])), (KillSignal::Term, strings(&["5"])));
    assert_eq!(kill_request(&strings(&["-KILL", "-BOGUS", "5"])), (KillSignal::Kill, strings(&["5"])));
    assert_eq!(kill_request(&strings(&["5", "-s"])), (KillSignal::Term, strings(&["5"])));
    assert_eq!(kill_request(&strings(&["-", "5"])), (KillSignal::Term, strings(&["-", "5"])));
    assert_eq!(kill_request(&[]), (KillSignal::Term, vec![]));
    assert_eq!(signal_named("15"), Some(KillSignal::Term));
    assert_eq!(signal_named("TERM"), Some(KillSignal::Term));
    assert_eq!(signal_named("term"), None);
}

#[test]
fn kill_targets() {
    let t = table();
    assert_eq!(kill_target(&t, "%2"), Ok(KillTarget::Group(20)));
    assert_eq!(kill_target(&t, "%+"), Ok(KillTarget::Group(30)));
    assert_eq!(kill_target(&t, "1234"), Ok(KillTarget::Process(1234)));
    assert_eq!(kill_target(&t, "2147483647"), Ok(KillTarget::Process(2147483647)));
    assert_eq!(kill_target(&t, "2147483648"), Err(KillError::NotAnId));
    assert_eq!(kill_target(&t, "abc"), Err(KillError::NotAnId));
    assert_eq!(kill_target(&t, ""), Err(KillError::NotAnId));
    assert_eq!(kill_target(&t, "%8"), Err(KillError::Job(JobSpecError::NoSuchJob)));
    assert_eq!(kill_target(&t, "%sl"), Err(KillError::Job(JobSpecError::Ambiguous)));
}

#[test]
fn background_job_is_listed_and_reported_when_killed() {
    let vars = cerf::strmap::StrMap::new();
    let entries = cerf::parser::parse_input("sleep 60 &", &vars).unwrap();
    let pipeline = &entries[0].pipeline;
    assert!(pipeline.background);
    let mut t = JobTable::new();
    let id = t.add_job(4242, format_command(pipeline), running(4242)).unwrap();
    assert_eq!(report_started(id, 4242), "[1] 4242");
    let listed = jobs(&t);
    assert_eq!(listed.len(), 1);
    assert!(listed[0].starts_with("[1] "));
    assert!(listed[0].contains(" Running "));
    assert!(listed[0].ends_with("sleep 60 &"));
    let (signal, targets) = kill_request(&strings(&["%1"]));
    assert_eq!(signal, KillSignal::Term);
    assert_eq!(kill_target(&t, &targets[0]), Ok(KillTarget::Group(4242)));
    assert!(t.apply_event(WaitEvent::Signaled(4242, 15)));
    assert_eq!(update_jobs(&mut t), vec!["[1] Done sleep 60 &"]);
    assert!(jobs(&t).is_empty());
}
