//! What each event does: to the exit code, the foreground, the jobs, the groups and the processes,
//! and what is to be done about it.

use vstd::prelude::*;
use crate::error::ShellError;
use crate::launch::{
    asked, child_steps, next_of, plan_of, stage_texts, strings, ChildStep, ForkPlan, Launch,
    LaunchEvent, Phase, Plan, Request, Stage, Start,
};
use crate::laws::law_command_is_the_words;
use crate::message::{Action, Notice, ShellMsg};
use crate::number::{signed_number, unsigned_number};
use crate::os::{errno_text, signal_text, ErrorKind, SysError, WaitStatus};
use crate::parser::Command;
use crate::process::{Pid, ProcInfo, ProcState};
use crate::shell::{prompt_of, turn_of, Input, Turn};
use crate::table::{listing, takes, Acts, Step, Table};
use crate::text::{is_blank, law_trimmed_ends, trimmed, words_of};
use crate::worker::{is_built_in, stages_of, waits_on};

verus! {

// The table.

/// A shell that has started nothing has the exit code 0 and no job, and its first job is to have
/// the number 1.
pub proof fn law_beginning(shell_pg_id: Pid)
    ensures
        Table::initial(shell_pg_id).exit_code == 0,
        Table::initial(shell_pg_id).fg is None,
        Table::initial(shell_pg_id).jobs == Map::<usize, (Pid, Seq<char>)>::empty(),
        Table::initial(shell_pg_id).groups == Map::<Pid, (usize, Set<Pid>)>::empty(),
        Table::initial(shell_pg_id).procs == Map::<Pid, ProcInfo>::empty(),
        Table::initial(shell_pg_id).shell_pg_id == shell_pg_id,
        Table::initial(shell_pg_id).wf(),
        Table::initial(shell_pg_id).next_job_id() == Some(1usize),
{
}

/// A table is well formed exactly where no job has the number 0, each job and its group name each
/// other, each group has a process that has not ended, what is in a group is known to be in it,
/// the first process of each group is known, and the foreground, if it is not the shell's, is a
/// job's.
pub proof fn law_well_formed(t: Table)
    ensures
        t.wf() <==> {
            &&& !t.jobs.contains_key(0)
            &&& forall|job: usize| #[trigger]
                t.jobs.contains_key(job) ==> t.groups.contains_key(t.jobs[job].0)
                    && t.groups[t.jobs[job].0].0 == job
            &&& forall|pg: Pid| #[trigger]
                t.groups.contains_key(pg) ==> {
                    &&& t.jobs.contains_key(t.groups[pg].0)
                    &&& t.jobs[t.groups[pg].0].0 == pg
                    &&& t.procs.contains_key(pg)
                    &&& !(t.groups[pg].1 =~= Set::empty())
                }
            &&& forall|pg: Pid, pid: Pid|
                t.groups.contains_key(pg) && #[trigger] t.groups[pg].1.contains(pid)
                    ==> t.procs.contains_key(pid) && t.procs[pid].pg_id == pg
            &&& t.fg matches Some(pg) ==> t.groups.contains_key(pg)
        },
{
    assert forall|pg: Pid| #[trigger] t.groups.contains_key(pg) implies (
    !t.groups[pg].1.is_empty() <==> !(t.groups[pg].1 =~= Set::empty())) by {
        if t.groups[pg].1.is_empty() {
            assert(t.groups[pg].1 =~= Set::empty());
        }
    }
}

/// A step is taken exactly where the table is the one it leads to, and its actions come behind
/// those that were there.
pub proof fn law_step_is_taken(step: Step, before: Acts, after: Table, now: Acts)
    ensures
        takes(step, before, after, now) <==> after == step.0 && now == before + step.1,
{
}

// What becomes of a process.

/// The end of a process takes it out of its group. The job leaves the table exactly where no
/// other process is left, and then it is told to be done. A job in the foreground gives the
/// terminal back exactly where none of its other processes runs; where some of them are left, it
/// is told to have stopped. Nothing else changes.
pub proof fn law_end_of_a_process(t: Table, pid: Pid)
    requires
        t.wf(),
        t.procs.contains_key(pid),
        t.groups.contains_key(t.procs[pid].pg_id),
    ensures
        ({
            let pg = t.procs[pid].pg_id;
            let (job, all) = t.groups[pg];
            let command = t.jobs[job].1;
            let left = exists|p: Pid| p != pid && #[trigger] all.contains(p);
            let runs = exists|p: Pid|
                p != pid && #[trigger] all.contains(p) && t.procs[p].state == ProcState::Run;
            let leaves = t.fg == Some(pg) && !runs;
            let (after, acts) = t.ended(pid);
            &&& after.exit_code == t.exit_code
            &&& after.shell_pg_id == t.shell_pg_id
            &&& after.procs == t.procs
            &&& after.fg == (if leaves {
                None
            } else {
                t.fg
            })
            &&& after.jobs == (if left {
                t.jobs
            } else {
                t.jobs.remove(job)
            })
            &&& after.groups == (if left {
                t.groups.insert(pg, (job, all.remove(pid)))
            } else {
                t.groups.remove(pg)
            })
            &&& acts == (if !left {
                seq![Action::Tell(Notice::Done { job, command })]
            } else if leaves {
                seq![Action::Tell(Notice::Stopped { job, command })]
            } else {
                seq![]
            }) + (if leaves {
                seq![
                    Action::SetForeground(t.shell_pg_id),
                    Action::Send(ShellMsg::Continue(t.exit_code)),
                ]
            } else {
                seq![]
            })
        }),
{
    let pg = t.procs[pid].pg_id;
    let (job, all) = t.groups[pg];
    let rest = all.remove(pid);
    let middle = t.without_member(pid);
    assert(middle.groups[pg].1 == rest);
    let (after, acts) = t.ended(pid);
    if exists|p: Pid| p != pid && #[trigger] all.contains(p) {
        let p = choose|p: Pid| p != pid && #[trigger] all.contains(p);
        assert(rest.contains(p));
        assert(!rest.is_empty());
        if exists|p: Pid|
            p != pid && #[trigger] all.contains(p) && t.procs[p].state == ProcState::Run {
            let p = choose|p: Pid|
                p != pid && #[trigger] all.contains(p) && t.procs[p].state == ProcState::Run;
            assert(middle.groups[pg].1.contains(p));
            assert(!middle.all_stopped(pg));
        } else {
            assert forall|p: Pid| #[trigger]
                middle.groups[pg].1.contains(p) implies middle.procs[p].state
                != ProcState::Run by {
                assert(all.contains(p));
            }
            assert(middle.all_stopped(pg));
        }
    } else {
        assert(rest =~= Set::empty());
        assert(rest.is_empty());
        assert(after.groups =~= t.groups.remove(pg));
    }
}

/// The end of a process that is not known, or whose job is over, changes nothing.
pub proof fn law_end_of_a_stranger(t: Table, pid: Pid)
    requires
        !t.procs.contains_key(pid) || !t.groups.contains_key(t.procs[pid].pg_id),
    ensures
        t.ended(pid).0 == t,
        t.ended(pid).1.len() == 0,
{
}

/// The stop of a process gives it the state of one that has stopped. A job in the foreground
/// gives the terminal back exactly where none of its other processes runs, and then it is told to
/// have stopped. Nothing else changes.
pub proof fn law_stop_of_a_process(t: Table, pid: Pid)
    requires
        t.wf(),
        t.procs.contains_key(pid),
        t.groups.contains_key(t.procs[pid].pg_id),
    ensures
        ({
            let pg = t.procs[pid].pg_id;
            let (job, all) = t.groups[pg];
            let runs = exists|p: Pid|
                p != pid && #[trigger] all.contains(p) && t.procs[p].state == ProcState::Run;
            let leaves = t.fg == Some(pg) && !runs;
            let (after, acts) = t.stopped(pid);
            &&& after.exit_code == t.exit_code
            &&& after.shell_pg_id == t.shell_pg_id
            &&& after.jobs == t.jobs
            &&& after.groups == t.groups
            &&& after.procs == t.procs.insert(pid, ProcInfo { state: ProcState::Stop, pg_id: pg })
            &&& after.fg == (if leaves {
                None
            } else {
                t.fg
            })
            &&& acts == (if leaves {
                seq![
                    Action::Tell(Notice::Stopped { job, command: t.jobs[job].1 }),
                    Action::SetForeground(t.shell_pg_id),
                    Action::Send(ShellMsg::Continue(t.exit_code)),
                ]
            } else {
                seq![]
            })
        }),
{
    let pg = t.procs[pid].pg_id;
    let (job, all) = t.groups[pg];
    let middle = t.with_state(pid, ProcState::Stop);
    assert(!all.is_empty());
    if exists|p: Pid|
        p != pid && #[trigger] all.contains(p) && t.procs[p].state == ProcState::Run {
        let p = choose|p: Pid|
            p != pid && #[trigger] all.contains(p) && t.procs[p].state == ProcState::Run;
        assert(middle.groups[pg].1.contains(p));
        assert(!middle.all_stopped(pg));
    } else {
        assert(middle.all_stopped(pg));
    }
}

/// A process that is continued runs, whatever the other processes do. Nothing else changes, and
/// nothing is to be done; of a process that is not known nothing is learnt.
pub proof fn law_continue_of_a_process(t: Table, pid: Pid)
    ensures
        ({
            let (after, acts) = t.waited(Ok(WaitStatus::Continued(pid)));
            &&& acts.len() == 0
            &&& after.exit_code == t.exit_code
            &&& after.fg == t.fg
            &&& after.jobs == t.jobs
            &&& after.groups == t.groups
            &&& after.shell_pg_id == t.shell_pg_id
            &&& after.procs == (if t.procs.contains_key(pid) {
                t.procs.insert(
                    pid,
                    ProcInfo { state: ProcState::Run, pg_id: t.procs[pid].pg_id },
                )
            } else {
                t.procs
            })
        }),
        t.waited(Ok(WaitStatus::PtraceSyscall(pid))) == t.waited(Ok(WaitStatus::Continued(pid))),
{
}

/// After a process has been continued, what happens to another one of its group takes the
/// terminal from no job: while one process of a job runs, the job keeps the foreground.
pub proof fn law_continued_job_keeps_the_terminal(t: Table, pid: Pid, other: Pid, status: i32)
    requires
        t.wf(),
        t.groups.contains_key(t.procs[pid].pg_id),
        t.groups[t.procs[pid].pg_id].1.contains(pid),
        t.groups[t.procs[pid].pg_id].1.contains(other),
        other != pid,
    ensures
        ({
            let resumed = t.waited(Ok(WaitStatus::Continued(pid))).0;
            let pg = t.procs[pid].pg_id;
            &&& resumed.procs[pid].state == ProcState::Run
            &&& !resumed.all_stopped(pg)
            &&& resumed.waited(Ok(WaitStatus::Exited(other, status))).0.fg == t.fg
            &&& resumed.waited(Ok(WaitStatus::Exited(other, status))).1.len() == 0
            &&& resumed.waited(Ok(WaitStatus::Stopped(other))).0.fg == t.fg
            &&& resumed.waited(Ok(WaitStatus::Stopped(other))).1.len() == 0
        }),
{
    let pg = t.procs[pid].pg_id;
    let resumed = t.waited(Ok(WaitStatus::Continued(pid))).0;
    law_continue_of_a_process(t, pid);
    t.lemma_waited(Ok(WaitStatus::Continued(pid)));
    assert(resumed.groups[pg].1.contains(pid) && resumed.groups[pg].1.contains(other));
    assert(resumed.procs[other].pg_id == pg);
    law_stop_of_a_process(resumed, other);
    let coded = Table { exit_code: status, ..resumed };
    law_end_of_a_process(coded, other);
    law_wait_reports_a_child(resumed, other, status);
}

/// A wait that reports a child changes the exit code, where the child has ended, and for the rest
/// does what the end or the stop of the process does. A child that was killed is told of first.
pub proof fn law_wait_reports_a_child(t: Table, pid: Pid, n: i32)
    ensures
        t.waited(Ok(WaitStatus::Exited(pid, n))) == (Table { exit_code: n, ..t }).ended(pid),
        t.waited(Ok(WaitStatus::Stopped(pid))) == t.stopped(pid),
        t.waited(Ok(WaitStatus::PtraceEvent(pid))) == t.stopped(pid),
        n <= i32::MAX - 128 ==> (signal_text(n) matches Some(name) ==> {
            let (after, acts) = t.waited(Ok(WaitStatus::Signaled(pid, n)));
            let ended = (Table { exit_code: (128 + n) as i32, ..t }).ended(pid);
            &&& after == ended.0
            &&& acts == seq![Action::Tell(Notice::Terminated { pid, signal: name })] + ended.1
        }),
{
}

/// What is done about a child that was killed by a signal of a given name.
pub proof fn law_death_by_a_signal(t: Table, pid: Pid, n: i32, name: Seq<char>)
    requires
        n <= i32::MAX - 128,
    ensures
        t.killed(pid, n, name).0 == (Table { exit_code: (128 + n) as i32, ..t }).ended(pid).0,
        t.killed(pid, n, name).1 == seq![
            Action::Tell(Notice::Terminated { pid, signal: name }),
        ] + (Table { exit_code: (128 + n) as i32, ..t }).ended(pid).1,
{
}

/// A wait without news changes nothing.
pub proof fn law_wait_without_news(t: Table, errno: i32)
    ensures
        t.waited(Ok(WaitStatus::StillAlive)).0 == t,
        t.waited(Ok(WaitStatus::StillAlive)).1.len() == 0,
        t.waited(Err(SysError { kind: ErrorKind::NoChild, errno })).0 == t,
        t.waited(Err(SysError { kind: ErrorKind::NoChild, errno })).1.len() == 0,
{
}

/// A wait that has failed is told with its reason, and the program ends with the code 1. So is one
/// that cannot name the signal.
pub proof fn law_failed_wait_ends_the_program(
    t: Table,
    e: SysError,
    pid: Pid,
    n: i32,
    text: Seq<char>,
)
    ensures
        e.kind != ErrorKind::NoChild ==> t.waited(Err(e)).0 == t && t.waited(Err(e)).1 == seq![
            Action::Tell(Notice::WaitFailed(errno_text(e.errno))),
            Action::Exit(1),
        ],
        signal_text(n) is None ==> t.waited(Ok(WaitStatus::Signaled(pid, n))).0 == t && t.waited(
            Ok(WaitStatus::Signaled(pid, n)),
        ).1 == seq![
            Action::Tell(Notice::WaitFailed("EINVAL: Invalid argument"@)),
            Action::Exit(1),
        ],
        t.wait_failed(text).0 == t,
        t.wait_failed(text).1 == seq![Action::Tell(Notice::WaitFailed(text)), Action::Exit(1)],
{
}

/// There is another wait exactly after one that has reported a child.
pub proof fn law_waits_go_on_while_there_is_news(pid: Pid, n: i32, e: SysError)
    ensures
        waits_on(Ok(WaitStatus::Exited(pid, n))),
        waits_on(Ok(WaitStatus::Stopped(pid))),
        waits_on(Ok(WaitStatus::PtraceEvent(pid))),
        waits_on(Ok(WaitStatus::PtraceSyscall(pid))),
        waits_on(Ok(WaitStatus::Continued(pid))),
        waits_on(Ok(WaitStatus::Signaled(pid, n))) <==> signal_text(n) is Some,
        !waits_on(Ok(WaitStatus::StillAlive)),
        !waits_on(Err(e)),
{
}

/// Every outcome of a wait is one that the worker can take, but for the stop of a process of no
/// job, and for a signal whose number leaves no room for an exit code.
pub proof fn law_what_a_wait_may_bring(t: Table, pid: Pid, n: i32, e: SysError)
    ensures
        t.expects(Ok(WaitStatus::Exited(pid, n))),
        t.expects(Ok(WaitStatus::Continued(pid))),
        t.expects(Ok(WaitStatus::PtraceSyscall(pid))),
        t.expects(Ok(WaitStatus::StillAlive)),
        t.expects(Err(e)),
        t.expects(Ok(WaitStatus::Signaled(pid, n))) <==> n + 128 <= i32::MAX,
        t.expects(Ok(WaitStatus::Stopped(pid))) <==> t.procs.contains_key(pid)
            && t.groups.contains_key(t.procs[pid].pg_id),
        t.expects(Ok(WaitStatus::PtraceEvent(pid))) <==> t.procs.contains_key(pid)
            && t.groups.contains_key(t.procs[pid].pg_id),
{
}

// The commands of the shell itself.

/// `exit` leaves with the number in second place, whatever it is and whatever the exit code so
/// far; with the exit code so far where there is no second place. What is no number there is
/// refused. The table changes only by the exit code of a refusal.
pub proof fn law_exit_leaves_with_the_number(t: Table, args: Seq<Seq<char>>, n: int)
    requires
        t.jobs == Map::<usize, (Pid, Seq<char>)>::empty(),
    ensures
        args.len() < 2 ==> t.exit(args).0 == t && t.exit(args).1 == seq![
            Action::<Seq<char>>::Send(ShellMsg::Quit(t.exit_code)),
        ],
        args.len() >= 2 && signed_number(args[1]) == Some(n) && i32::MIN <= n <= i32::MAX
            ==> t.exit(args).0 == t && t.exit(args).1 == seq![
            Action::<Seq<char>>::Send(ShellMsg::Quit(n as i32)),
        ],
        args.len() >= 2 && (signed_number(args[1]) matches Some(m) ==> !(i32::MIN <= m
            <= i32::MAX)) ==> t.exit(args).0 == (Table { exit_code: 1, ..t }) && t.exit(args).1
            == seq![
            Action::Tell(Notice::InvalidArgument(args[1])),
            Action::Send(ShellMsg::Continue(1)),
        ],
{
    assert(t.jobs.dom() =~= Set::empty());
    assert(t.jobs.is_empty());
}

/// While there is a job, `exit` is refused, whatever stands behind it.
pub proof fn law_exit_waits_for_the_jobs(t: Table, args: Seq<Seq<char>>, job: usize)
    requires
        t.jobs.contains_key(job),
    ensures
        t.exit(args).0 == (Table { exit_code: 1, ..t }),
        t.exit(args).1 == seq![
            Action::Tell(Notice::<Seq<char>>::StoppedJobs),
            Action::Send(ShellMsg::Continue(1)),
        ],
{
    assert(t.jobs.dom().contains(job));
}

/// `cd` changes to the directory in second place, if there is one, and lets the shell read on.
/// The table stays as it is.
pub proof fn law_cd_changes_the_directory(t: Table, args: Seq<Seq<char>>)
    ensures
        t.cd(args).0 == t,
        args.len() < 2 ==> t.cd(args).1 == seq![
            Action::<Seq<char>>::Send(ShellMsg::Continue(t.exit_code)),
        ],
        args.len() >= 2 ==> t.cd(args).1 == seq![
            Action::ChangeDir(args[1]),
            Action::Send(ShellMsg::Continue(t.exit_code)),
        ],
{
}

/// `jobs` lists the jobs and lets the shell read on. The table stays as it is.
pub proof fn law_jobs_lists_the_jobs(t: Table)
    ensures
        t.list().0 == t,
        t.list().1 == listing(t.jobs).push(Action::Send(ShellMsg::Continue(t.exit_code))),
{
    assert(t.list().1 =~= listing(t.jobs).push(Action::Send(ShellMsg::Continue(t.exit_code))));
}

/// `fg` gives the terminal to the job whose number is in second place and resumes it. The shell
/// reads on only where there is no such job. Either way the exit code is 1, and jobs, groups and
/// processes stay as they are.
pub proof fn law_fg_gives_the_terminal(t: Table, args: Seq<Seq<char>>, job: usize)
    ensures
        t.foreground(args).0 == (Table { exit_code: 1, fg: t.foreground(args).0.fg, ..t }),
        args.len() < 2 ==> t.foreground(args).0.fg == t.fg && t.foreground(args).1 == seq![
            Action::Tell(Notice::<Seq<char>>::MissingArgument),
            Action::Send(ShellMsg::Continue(1)),
        ],
        args.len() >= 2 && unsigned_number(args[1]) == Some(job as int) && t.jobs.contains_key(job)
            ==> t.foreground(args).0.fg == Some(t.jobs[job].0) && t.foreground(args).1 == seq![
            Action::Tell(Notice::Continued { job, command: t.jobs[job].1 }),
            Action::SetForeground(t.jobs[job].0),
            Action::Resume(t.jobs[job].0),
        ],
        args.len() >= 2 && (forall|k: usize| #[trigger]
            t.jobs.contains_key(k) ==> unsigned_number(args[1]) != Some(k as int))
            ==> t.foreground(args).0.fg == t.fg && t.foreground(args).1 == seq![
            Action::Tell(Notice::JobNotFound(args[1])),
            Action::Send(ShellMsg::Continue(1)),
        ],
{
    if args.len() >= 2 {
        if let Some(n) = unsigned_number(args[1]) {
            if 0 <= n <= usize::MAX {
                assert((n as usize) as int == n);
            }
        }
    }
}

/// The commands of the shell itself are `exit`, `cd`, `jobs` and `fg`, each by its own name, and
/// only where they stand alone in the line.
pub proof fn law_names_of_the_shell(t: Table, name: Seq<char>, args: Seq<Seq<char>>)
    ensures
        t.built_in("exit"@, args) == Some(t.exit(args)),
        t.built_in("cd"@, args) == Some(t.cd(args)),
        t.built_in("jobs"@, args) == Some(t.list()),
        t.built_in("fg"@, args) == Some(t.foreground(args)),
        name != "exit"@ && name != "cd"@ && name != "jobs"@ && name != "fg"@ <==> t.built_in(
            name,
            args,
        ) is None,
        is_built_in(seq![Command { name, args }]) <==> t.built_in(name, args) is Some,
        forall|cmds: Seq<Command>| cmds.len() != 1 ==> !#[trigger] is_built_in(cmds),
{
    reveal_strlit("exit");
    reveal_strlit("cd");
    reveal_strlit("jobs");
    reveal_strlit("fg");
    assert("exit"@.len() == 4 && "jobs"@.len() == 4 && "fg"@.len() == 2 && "cd"@.len() == 2);
    assert("exit"@[0] == 'e' && "jobs"@[0] == 'j');
    assert("cd"@[0] == 'c' && "fg"@[0] == 'f');
}

// The start of a job.

/// A new process joins its group first and runs its program last, each once. In between it makes
/// the input that it was given its standard input, and the output its standard output, and only
/// what it was given; then it closes the file descriptors 3 to 6, each once.
pub proof fn law_steps_of_a_child(group: Pid, input: Option<i32>, output: Option<i32>)
    ensures
        ({
            let steps = child_steps(group, input, output);
            let end = steps.len() - 1;
            &&& forall|i: int|
                0 <= i <= end ==> ((#[trigger] steps[i]) == ChildStep::Exec <==> i == end)
            &&& forall|i: int|
                0 <= i <= end ==> ((#[trigger] steps[i]) is JoinGroup <==> i == 0)
            &&& end > 0 && steps[0] == ChildStep::JoinGroup(group)
            &&& input matches Some(fd) ==> steps.contains(ChildStep::Redirect { from: fd, to: 0 })
            &&& output matches Some(fd) ==> steps.contains(ChildStep::Redirect { from: fd, to: 1 })
            &&& forall|i: int|
                0 <= i <= end ==> ((#[trigger] steps[i]) matches ChildStep::Redirect { from, to }
                    ==> (to == 0 && input == Some(from)) || (to == 1 && output == Some(from)))
            &&& steps.contains(ChildStep::Close(3)) && steps.contains(ChildStep::Close(4))
            &&& steps.contains(ChildStep::Close(5)) && steps.contains(ChildStep::Close(6))
            &&& forall|i: int|
                0 <= i <= end ==> ((#[trigger] steps[i]) matches ChildStep::Close(fd) ==> 3 <= fd
                    <= 6)
            &&& forall|i: int, j: int|
                0 <= i < j <= end ==> (#[trigger] steps[i]) != (#[trigger] steps[j])
            &&& forall|i: int, j: int|
                0 <= i < j <= end ==> ((#[trigger] steps[i]) matches ChildStep::Redirect {
                    to: early,
                    ..
                } ==> ((#[trigger] steps[j]) matches ChildStep::Redirect { to: late, .. } ==> early
                    < late))
            &&& forall|i: int, j: int|
                0 <= i < j <= end ==> ((#[trigger] steps[i]) matches ChildStep::Close(early) ==> ((
                #[trigger] steps[j]) matches ChildStep::Close(late) ==> early < late))
            &&& forall|i: int, j: int|
                0 <= i < j <= end && (#[trigger] steps[j]) is Redirect ==> !((
                #[trigger] steps[i]) is Close)
        }),
{
    let steps = child_steps(group, input, output);
    let k: int = 1 + (if input is Some {
        1int
    } else {
        0int
    }) + (if output is Some {
        1int
    } else {
        0int
    });
    assert(steps.len() == k + 5);
    assert(steps[k] == ChildStep::Close(3));
    assert(steps[k + 1] == ChildStep::Close(4));
    assert(steps[k + 2] == ChildStep::Close(5));
    assert(steps[k + 3] == ChildStep::Close(6));
    assert(steps[k + 4] == ChildStep::Exec);
    if let Some(fd) = input {
        assert(steps[1] == ChildStep::Redirect { from: fd, to: 0 });
    }
    if let Some(fd) = output {
        assert(steps[k - 1] == ChildStep::Redirect { from: fd, to: 1 });
    }
}

/// A plan is for the command it was made for: its name, all its arguments, and the steps of a
/// child in that group with that input and that output.
pub proof fn law_plan_of_a_command(
    group: Pid,
    command: Command,
    input: Option<i32>,
    output: Option<i32>,
)
    ensures
        plan_of(group, command, input, output).group == group,
        plan_of(group, command, input, output).filename == command.name,
        plan_of(group, command, input, output).args == command.args,
        plan_of(group, command, input, output).child == child_steps(group, input, output),
{
}

/// The start of a single command asks for a process in a new group that runs the command with its
/// arguments and keeps the standard input and output of the shell. It has the smallest free
/// number, and it is for that line and that command.
pub proof fn law_start_of_one_command(t: Table, line: Seq<char>, command: Command, id: usize)
    requires
        t.next_job_id() == Some(id),
        !command.name.contains('\0'),
    ensures
        t.begin(line, seq![command]) matches Ok((start, request)) && {
            &&& start.job_id == id
            &&& start.line == line
            &&& start.stages == seq![command]
            &&& start.phase == Phase::First(None)
            &&& request matches Request::Fork(plan) && {
                &&& plan.group == 0
                &&& plan.filename == command.name
                &&& plan.args == command.args
                &&& forall|i: int|
                    0 <= i < plan.child.len() ==> !((#[trigger] plan.child[i]) is Redirect)
                &&& plan.child.len() > 0 && plan.child[0] == ChildStep::JoinGroup(0)
                &&& plan.child.last() == ChildStep::Exec
                &&& plan.child == child_steps(0, None, None)
            }
        },
{
    let steps = child_steps(0, None, None);
    law_steps_of_a_child(0, None, None);
}

/// The start of two commands asks for a pipe. It has the smallest free number, and it is for that
/// line and those commands.
pub proof fn law_start_of_two_commands(
    t: Table,
    line: Seq<char>,
    first: Command,
    second: Command,
    id: usize,
)
    requires
        t.next_job_id() == Some(id),
    ensures
        t.begin(line, seq![first, second]) matches Ok((start, request)) && {
            &&& start.job_id == id
            &&& start.line == line
            &&& start.stages == seq![first, second]
            &&& start.phase == Phase::Pipe
            &&& request == Request::<Plan>::Pipe
        },
{
}

/// A start is refused exactly where no number is left, where there are more than two commands, or
/// where a single command has the character NUL in its name, and for the first of these reasons
/// that holds.
pub proof fn law_refused_start(t: Table, line: Seq<char>, cmds: Seq<Command>)
    requires
        cmds.len() > 0,
    ensures
        t.begin(line, cmds) == Err::<(Start, Request<Plan>), ShellError>(ShellError::TooManyJobs)
            <==> t.next_job_id() is None,
        t.begin(line, cmds) == Err::<(Start, Request<Plan>), ShellError>(
            ShellError::PipelineTooLong,
        ) <==> t.next_job_id() is Some && cmds.len() > 2,
        t.begin(line, cmds) == Err::<(Start, Request<Plan>), ShellError>(ShellError::NulInName)
            <==> t.next_job_id() is Some && cmds.len() == 1 && cmds[0].name.contains('\0'),
{
}

/// A command line that is a command of the shell itself is done at once and starts nothing. Any
/// other leaves the table as it is: its start begins, or it is refused, and then the shell reads
/// on with the exit code so far.
pub proof fn law_command_line(t: Table, line: Seq<char>)
    ensures
        ({
            let cmds = stages_of(line);
            let own = cmds.len() == 1 && (cmds[0].name == "exit"@ || cmds[0].name == "cd"@
                || cmds[0].name == "jobs"@ || cmds[0].name == "fg"@);
            let (after, acts, next) = t.commanded(line);
            &&& own ==> next is None && t.built_in(cmds[0].name, cmds[0].args) == Some(
                (after, acts),
            )
            &&& !own ==> after == t && match t.begin(line, cmds) {
                Ok(begun) => acts.len() == 0 && next == Some(begun),
                Err(_) => acts == seq![
                    Action::<Seq<char>>::Send(ShellMsg::Continue(t.exit_code)),
                ] && next is None,
            }
        }),
{
    let cmds = stages_of(line);
    assert(t.give_up(None).1 =~= seq![
        Action::<Seq<char>>::Send(ShellMsg::Continue(t.exit_code)),
    ]);
}

/// A command line can be run where it holds a command. The one exception is a single program that
/// is to be started with the character NUL in an argument but not in its name.
pub proof fn law_lines_that_can_be_run(t: Table, cmds: Seq<Command>)
    ensures
        t.can_run(cmds) <==> cmds.len() > 0 && !({
            &&& cmds.len() == 1
            &&& t.next_job_id() is Some
            &&& !(cmds[0].name == "exit"@ || cmds[0].name == "cd"@ || cmds[0].name == "jobs"@
                || cmds[0].name == "fg"@)
            &&& !cmds[0].name.contains('\0')
            &&& exists|i: int|
                0 <= i < cmds[0].args.len() && (#[trigger] cmds[0].args[i]).contains('\0')
        }),
{
}

/// Once there is a pipe, the first process is asked for, in a new group, with the end to write to
/// as its output. Where its name holds the character NUL, the pipe is closed and the shell reads
/// on.
pub proof fn law_pipe_leads_to_the_first_process(t: Table, start: Start, input: i32, output: i32)
    requires
        start.phase == Phase::Pipe,
    ensures
        ({
            let (after, acts, next) = t.advance(start, LaunchEvent::Pipe(input, output));
            &&& after == t
            &&& !start.stages[0].name.contains('\0') ==> acts.len() == 0 && next == Some(
                (
                    Start { phase: Phase::First(Some((input, output))), ..start },
                    Request::Fork(plan_of(0, start.stages[0], None, Some(output))),
                ),
            )
            &&& start.stages[0].name.contains('\0') ==> next is None && acts == seq![
                Action::<Seq<char>>::Close(input),
                Action::Close(output),
                Action::Send(ShellMsg::Continue(t.exit_code)),
            ]
        }),
{
    let acts = t.advance(start, LaunchEvent::Pipe(input, output)).1;
    if start.stages[0].name.contains('\0') {
        assert(acts =~= seq![
            Action::<Seq<char>>::Close(input),
            Action::Close(output),
            Action::Send(ShellMsg::Continue(t.exit_code)),
        ]);
    }
}

/// Once the first process of two is there, the second is asked for, in the group of the first,
/// with the end to read from as its input. Where its name holds the character NUL, the pipe is
/// closed and the shell reads on.
pub proof fn law_first_process_leads_to_the_second(
    t: Table,
    start: Start,
    input: i32,
    output: i32,
    pid: Pid,
)
    requires
        start.phase == Phase::First(Some((input, output))),
    ensures
        ({
            let (after, acts, next) = t.advance(start, LaunchEvent::Child(pid));
            &&& after == t
            &&& !start.stages[1].name.contains('\0') ==> acts.len() == 0 && next == Some(
                (
                    Start { phase: Phase::Second(input, output, pid), ..start },
                    Request::Fork(plan_of(pid, start.stages[1], Some(input), None)),
                ),
            )
            &&& start.stages[1].name.contains('\0') ==> next is None && acts == seq![
                Action::<Seq<char>>::Close(input),
                Action::Close(output),
                Action::Send(ShellMsg::Continue(t.exit_code)),
            ]
        }),
{
    let acts = t.advance(start, LaunchEvent::Child(pid)).1;
    if start.stages[1].name.contains('\0') {
        assert(acts =~= seq![
            Action::<Seq<char>>::Close(input),
            Action::Close(output),
            Action::Send(ShellMsg::Continue(t.exit_code)),
        ]);
    }
}

/// Once all the processes of a job are there, the pipe between them, if there is one, is closed,
/// and the terminal is asked for, for the group of the job. The job is in the table with its
/// number, its line and its processes, all of them running, and in the foreground. The jobs,
/// groups and processes that were there stay as they are.
pub proof fn law_last_process_completes_the_job(
    t: Table,
    start: Start,
    input: i32,
    output: i32,
    pg: Pid,
    pid: Pid,
)
    requires
        start.phase == Phase::First(None) && pg == pid || start.phase == Phase::Second(
            input,
            output,
            pg,
        ),
    ensures
        ({
            let (after, acts, next) = t.advance(start, LaunchEvent::Child(pid));
            let job = start.job_id;
            let info = ProcInfo { state: ProcState::Run, pg_id: pg };
            &&& next == Some(
                (Start { phase: Phase::Grant(pg), ..start }, Request::<Plan>::Grant(pg)),
            )
            &&& acts == (if start.phase is Second {
                seq![Action::<Seq<char>>::Close(input), Action::Close(output)]
            } else {
                seq![]
            })
            &&& after.exit_code == t.exit_code
            &&& after.shell_pg_id == t.shell_pg_id
            &&& after.fg == Some(pg)
            &&& after.jobs == t.jobs.insert(job, (pg, start.line))
            &&& after.groups.dom() == t.groups.dom().insert(pg)
            &&& forall|g: Pid| #[trigger]
                after.groups.contains_key(g) && g != pg ==> after.groups[g] == t.groups[g]
            &&& after.groups[pg].0 == job
            &&& forall|p: Pid| #[trigger]
                after.groups[pg].1.contains(p) <==> p == pg || p == pid
            &&& after.procs == t.procs.insert(pg, info).insert(pid, info)
        }),
{
    let (after, acts, next) = t.advance(start, LaunchEvent::Child(pid));
    let info = ProcInfo { state: ProcState::Run, pg_id: pg };
    assert(after.procs =~= t.procs.insert(pg, info).insert(pid, info));
    assert(after.groups.dom() =~= t.groups.dom().insert(pg));
}

/// Once the job has the terminal, the start is over and nothing is left to do.
pub proof fn law_granted_terminal_ends_the_start(t: Table, start: Start, pg: Pid)
    requires
        start.phase == Phase::Grant(pg),
    ensures
        t.advance(start, LaunchEvent::Granted).0 == t,
        t.advance(start, LaunchEvent::Granted).1.len() == 0,
        t.advance(start, LaunchEvent::Granted).2 is None,
{
}

/// A step that has failed ends the start, wherever it is: the table stays as it is, the pipe, if
/// there is one, is closed, and the shell reads on with the exit code so far.
pub proof fn law_failed_step_ends_the_start(
    t: Table,
    start: Start,
    input: i32,
    output: i32,
    pg: Pid,
)
    ensures
        t.advance(start, LaunchEvent::Failed).0 == t,
        t.advance(start, LaunchEvent::Failed).2 is None,
        start.phase == Phase::First(Some((input, output))) || start.phase == Phase::Second(
            input,
            output,
            pg,
        ) ==> t.advance(start, LaunchEvent::Failed).1 == seq![
            Action::<Seq<char>>::Close(input),
            Action::Close(output),
            Action::Send(ShellMsg::Continue(t.exit_code)),
        ],
        start.phase is Pipe || start.phase is Grant || start.phase == Phase::First(None)
            ==> t.advance(start, LaunchEvent::Failed).1 == seq![
            Action::<Seq<char>>::Send(ShellMsg::Continue(t.exit_code)),
        ],
{
    let acts = t.advance(start, LaunchEvent::Failed).1;
    let answer = Action::<Seq<char>>::Send(ShellMsg::Continue(t.exit_code));
    if start.phase is Pipe || start.phase is Grant || start.phase == Phase::First(None) {
        assert(acts =~= seq![answer]);
    } else if start.phase == Phase::First(Some((input, output))) || start.phase == Phase::Second(
        input,
        output,
        pg,
    ) {
        assert(acts =~= seq![Action::Close(input), Action::Close(output), answer]);
    }
}

/// A start takes a failure at any time, and otherwise only what it has asked for. A pipe or a
/// first process is taken where the arguments of the program that comes next do not hold the
/// character NUL, or its name does. The last process is taken where it and the others are new and
/// the number of the job is free.
pub proof fn law_answers_that_a_start_takes(
    t: Table,
    start: Start,
    a: i32,
    b: i32,
    pg: Pid,
    pid: Pid,
)
    ensures
        t.accepts(start, LaunchEvent::Failed),
        t.accepts(start, LaunchEvent::Granted) <==> start.phase is Grant,
        t.accepts(start, LaunchEvent::Pipe(a, b)) <==> start.phase is Pipe && (
        start.stages[0].name.contains('\0') || forall|i: int|
            0 <= i < start.stages[0].args.len() ==> !(#[trigger] start.stages[0].args[i]).contains(
                '\0',
            )),
        start.phase is Pipe || start.phase is Grant ==> !t.accepts(start, LaunchEvent::Child(pid)),
        start.phase == Phase::First(Some((a, b))) ==> (t.accepts(start, LaunchEvent::Child(pid))
            <==> start.stages[1].name.contains('\0') || forall|i: int|
            0 <= i < start.stages[1].args.len() ==> !(#[trigger] start.stages[1].args[i]).contains(
                '\0',
            )),
        start.phase == Phase::First(None) ==> (t.accepts(start, LaunchEvent::Child(pid)) <==> {
            &&& !t.jobs.contains_key(start.job_id)
            &&& !t.procs.contains_key(pid)
        }),
        start.phase == Phase::Second(a, b, pg) ==> (t.accepts(start, LaunchEvent::Child(pid)) <==> {
            &&& !t.jobs.contains_key(start.job_id)
            &&& !t.procs.contains_key(pg)
            &&& !t.procs.contains_key(pid)
        }),
{
}

/// A start is well formed where its number is not 0, and it has two commands where it is about a
/// pipe, one where its only process is awaited, and one or two once its processes are there.
pub proof fn law_well_formed_start(start: Start, a: i32, b: i32, pg: Pid)
    ensures
        start.wf() ==> start.job_id != 0,
        start.job_id != 0 && start.stages.len() == 2 && (start.phase is Pipe || start.phase
            == Phase::First(Some((a, b))) || start.phase == Phase::Second(a, b, pg)) ==> start.wf(),
        start.job_id != 0 && start.stages.len() == 1 && start.phase == Phase::First(None)
            ==> start.wf(),
        start.job_id != 0 && 1 <= start.stages.len() <= 2 && start.phase == Phase::Grant(pg)
            ==> start.wf(),
{
}

/// A plan and a request say what they hold.
pub proof fn law_requests_say_what_they_hold(plan: ForkPlan, launch: Launch, pg: Pid)
    ensures
        plan@.group == plan.group,
        plan@.filename == plan.filename@,
        plan@.args.len() == plan.args@.len(),
        forall|i: int| 0 <= i < plan.args@.len() ==> #[trigger] plan@.args[i] == plan.args@[i]@,
        plan@.child == plan.child@,
        asked(Request::Pipe) == Request::<Plan>::Pipe,
        asked(Request::Fork(plan)) == Request::Fork(plan@),
        asked(Request::Grant(pg)) == Request::<Plan>::Grant(pg),
        next_of(Some((launch, Request::Fork(plan)))) == Some((launch@, Request::Fork(plan@))),
        next_of(Some((launch, Request::Pipe))) == Some((launch@, Request::<Plan>::Pipe)),
        next_of(Some((launch, Request::Grant(pg)))) == Some((launch@, Request::<Plan>::Grant(pg))),
        next_of(None) is None,
{
}

/// What is said of a sequence of strings is said of each of them, and so with commands.
pub proof fn law_strings_and_stages_keep_their_order(v: Seq<String>, w: Seq<Stage>)
    ensures
        strings(v).len() == v.len(),
        forall|i: int| 0 <= i < v.len() ==> #[trigger] strings(v)[i] == v[i]@,
        stage_texts(w).len() == w.len(),
        forall|i: int| 0 <= i < w.len() ==> #[trigger] stage_texts(w)[i] == w[i]@,
{
}

// The conversation with the user.

/// The prompt has a dollar sign exactly after a command that succeeded.
pub proof fn law_prompt(prev: i32)
    ensures
        prev == 0 ==> prompt_of(prev) == "ZeroSh $ "@,
        prev != 0 ==> prompt_of(prev) == "ZeroSh ! "@,
{
}

/// What the shell does with each thing that the editor gives: a line with something in it goes to
/// the worker unchanged, and to the history without the white space around it; a blank one is
/// passed over; an interruption is told; the end of the input is the command `exit`; a failure is
/// told, and the shell leaves with the code 1.
pub proof fn law_turns(line: Seq<char>, reason: Seq<char>)
    ensures
        is_blank(line) <==> turn_of(Input::Line(line)) is Again,
        !is_blank(line) ==> turn_of(Input::Line(line)) == (Turn::Submit {
            history: Some(trimmed(line)),
            line,
        }),
        turn_of(Input::Interrupted) == Turn::Tell(Notice::<Seq<char>>::Interrupted),
        turn_of(Input::Eof) == (Turn::Submit { history: None, line: "exit"@ }),
        turn_of(Input::Failed(reason)) == Turn::Leave(Notice::ReadFailed(reason), 1),
{
    law_trimmed_ends(line);
}

/// What comes in and what the shell does with it say what they hold.
pub proof fn law_turns_say_what_they_hold(s: String, h: String, notice: Notice<String>, code: i32)
    ensures
        Input::Line(s)@ == Input::Line(s@),
        Input::<String>::Interrupted@ == Input::<Seq<char>>::Interrupted,
        Input::<String>::Eof@ == Input::<Seq<char>>::Eof,
        Input::Failed(s)@ == Input::Failed(s@),
        Turn::<String>::Again@ == Turn::<Seq<char>>::Again,
        Turn::Tell(notice)@ == Turn::Tell(notice@),
        (Turn::Submit { history: Some(h), line: s })@ == (Turn::Submit {
            history: Some(h@),
            line: s@,
        }),
        (Turn::Submit { history: None, line: s })@ == (Turn::Submit { history: None, line: s@ }),
        Turn::Leave(notice, code)@ == Turn::Leave(notice@, code),
{
}

// From the line to the process.

/// A line without a pipe character whose first word is no name of the shell's own starts that
/// word as a program, with the other words as its arguments.
pub proof fn law_line_starts_its_first_word(t: Table, line: Seq<char>, id: usize)
    requires
        t.next_job_id() == Some(id),
        !line.contains('|'),
        !line.contains('\0'),
        words_of(line).len() > 0,
        words_of(line)[0] != "exit"@,
        words_of(line)[0] != "cd"@,
        words_of(line)[0] != "jobs"@,
        words_of(line)[0] != "fg"@,
    ensures
        t.can_run(stages_of(line)),
        t.commanded(line).0 == t,
        t.commanded(line).1.len() == 0,
        t.commanded(line).2 matches Some((start, Request::Fork(plan))) && {
            &&& start.job_id == id
            &&& start.line == line
            &&& seq![plan.filename] + plan.args == words_of(line)
            &&& plan.group == 0
            &&& plan.child == child_steps(0, None, None)
        },
{
    law_command_is_the_words(line);
    let cmds = stages_of(line);
    let words = words_of(line);
    let c = cmds[0];
    assert(cmds.len() == 1);
    assert((seq![c.name] + c.args)[0] == c.name);
    crate::text::law_words_come_from_the_text(line, '\0');
    assert(!words[0].contains('\0'));
    assert forall|i: int| 0 <= i < c.args.len() implies !(#[trigger] c.args[i]).contains('\0') by {
        assert((seq![c.name] + c.args)[i + 1] == c.args[i]);
        assert(words[i + 1] == c.args[i]);
    }
    assert(cmds == seq![c]);
    law_start_of_one_command(t, line, c, id);
    law_command_line(t, line);
    law_lines_that_can_be_run(t, cmds);
}

} // verus!
