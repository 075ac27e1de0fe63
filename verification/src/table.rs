//! The state of the worker as mathematics: the table of jobs, groups and processes, and what each
//! event makes of it.

use vstd::prelude::*;
use crate::message::{Action, Notice, ShellMsg};
use crate::number::{signed_number, unsigned_number};
use crate::os::{errno_text, signal_text, ErrorKind, SysError, WaitStatus};
use crate::process::{Pid, ProcInfo, ProcState};

verus! {

/// Actions in the order in which they are to be carried out.
pub type Acts = Seq<Action<Seq<char>>>;

/// The state of the worker.
#[verifier::ext_equal]
pub struct Table {
    /// The exit code so far.
    pub exit_code: i32,
    /// The process group in the foreground, if it is not the shell's own.
    pub fg: Option<Pid>,
    /// The process group and the command line of each job.
    pub jobs: Map<usize, (Pid, Seq<char>)>,
    /// The job of each process group, and the processes in the group that have not ended.
    pub groups: Map<Pid, (usize, Set<Pid>)>,
    /// What is known of each process that was ever started.
    pub procs: Map<Pid, ProcInfo>,
    /// The shell's own process group.
    pub shell_pg_id: Pid,
}

/// What an event makes of the table, and what is to be done.
pub type Step = (Table, Acts);

/// The smallest number from `n` on that is not in `taken`, if there is one.
pub open spec fn first_free(taken: Set<usize>, n: int) -> Option<usize>
    decreases usize::MAX + 1 - n,
{
    if n > usize::MAX {
        None
    } else if taken.contains(n as usize) {
        first_free(taken, n + 1)
    } else {
        Some(n as usize)
    }
}

/// The numbers below `n` that are in `ids`, in ascending order.
pub open spec fn ascending(ids: Set<usize>, n: nat) -> Seq<usize>
    decreases n,
{
    if n == 0 {
        seq![]
    } else if ids.contains((n - 1) as usize) {
        ascending(ids, (n - 1) as nat).push((n - 1) as usize)
    } else {
        ascending(ids, (n - 1) as nat)
    }
}

/// The line of each job, in ascending order of the job numbers.
pub open spec fn listing(jobs: Map<usize, (Pid, Seq<char>)>) -> Acts {
    ascending(jobs.dom(), usize::MAX as nat + 1).map_values(
        |job: usize|
            Action::List { job: job, pg_id: jobs[job].0, command: jobs[job].1 },
    )
}

impl Table {
    /// The table of a shell that has started nothing.
    pub open spec fn initial(shell_pg_id: Pid) -> Table {
        Table {
            exit_code: 0,
            fg: None,
            jobs: Map::empty(),
            groups: Map::empty(),
            procs: Map::empty(),
            shell_pg_id: shell_pg_id,
        }
    }

    /// Jobs and process groups belong together one to one, what is in a group is known as a
    /// member of that group, and the group in the foreground is that of a job.
    pub open spec fn linked(self) -> bool {
        &&& !self.jobs.contains_key(0)
        &&& forall|job: usize| #[trigger]
            self.jobs.contains_key(job) ==> self.groups.contains_key(self.jobs[job].0)
                && self.groups[self.jobs[job].0].0 == job
        &&& forall|pg: Pid| #[trigger]
            self.groups.contains_key(pg) ==> self.jobs.contains_key(self.groups[pg].0)
                && self.jobs[self.groups[pg].0].0 == pg && self.procs.contains_key(pg)
        &&& forall|pg: Pid, pid: Pid|
            self.groups.contains_key(pg) && #[trigger] self.groups[pg].1.contains(pid)
                ==> self.procs.contains_key(pid) && self.procs[pid].pg_id == pg
        &&& self.fg matches Some(pg) ==> self.groups.contains_key(pg)
    }

    /// The table is linked, and no job is without a process that has not ended.
    pub open spec fn wf(self) -> bool {
        &&& self.linked()
        &&& forall|pg: Pid| #[trigger]
            self.groups.contains_key(pg) ==> !self.groups[pg].1.is_empty()
    }

    /// Whether `pid` is a known process of a job that has not ended.
    pub open spec fn tracks(self, pid: Pid) -> bool {
        self.procs.contains_key(pid) && self.groups.contains_key(self.procs[pid].pg_id)
    }

    /// Whether no process of the group `pg` runs.
    pub open spec fn all_stopped(self, pg: Pid) -> bool {
        forall|pid: Pid| #[trigger]
            self.groups[pg].1.contains(pid) ==> self.procs[pid].state != ProcState::Run
    }

    /// The smallest job number that is free.
    pub open spec fn next_job_id(self) -> Option<usize> {
        first_free(self.jobs.dom(), 1)
    }

    /// The terminal goes back to the shell, and the shell may read on.
    pub open spec fn hand_back(self) -> Step {
        (
            Table { fg: None, ..self },
            seq![
                Action::SetForeground(self.shell_pg_id),
                Action::Send(ShellMsg::Continue(self.exit_code)),
            ],
        )
    }

    /// The table with a job, its group, and what is known of each of its processes.
    pub open spec fn inserted(
        self,
        job: usize,
        pg: Pid,
        infos: Map<Pid, ProcInfo>,
        command: Seq<char>,
    ) -> Table {
        Table {
            jobs: self.jobs.insert(job, (pg, command)),
            groups: self.groups.insert(pg, (job, infos.dom())),
            procs: self.procs.union_prefer_right(infos),
            ..self
        }
    }

    /// The table without `job` and its group, where there is that job.
    pub open spec fn removed(self, job: usize) -> Table {
        if self.jobs.contains_key(job) {
            self.without_job(job)
        } else {
            self
        }
    }

    /// The table without `job` and its group.
    pub open spec fn without_job(self, job: usize) -> Table {
        Table {
            jobs: self.jobs.remove(job),
            groups: self.groups.remove(self.jobs[job].0),
            ..self
        }
    }

    /// What follows from a change in the group `pg` of `job`. A job without processes is done and
    /// leaves the table. A job in the foreground that is done or has stopped hands the terminal
    /// back.
    pub open spec fn settle(self, job: usize, pg: Pid) -> Step {
        let command = self.jobs[job].1;
        if self.groups[pg].1.is_empty() {
            let rest = self.without_job(job);
            let done = seq![Action::Tell(Notice::Done { job, command })];
            if self.fg == Some(pg) {
                (rest.hand_back().0, done + rest.hand_back().1)
            } else {
                (rest, done)
            }
        } else if self.fg == Some(pg) && self.all_stopped(pg) {
            let stopped = seq![Action::Tell(Notice::Stopped { job, command })];
            (self.hand_back().0, stopped + self.hand_back().1)
        } else {
            (self, seq![])
        }
    }

    /// The table with `pid` out of its group.
    pub open spec fn without_member(self, pid: Pid) -> Table {
        let pg = self.procs[pid].pg_id;
        Table {
            groups: self.groups.insert(
                pg,
                (self.groups[pg].0, self.groups[pg].1.remove(pid)),
            ),
            ..self
        }
    }

    /// The table with `pid` out of its group, where `pid` is tracked.
    pub open spec fn released(self, pid: Pid) -> Table {
        if self.tracks(pid) {
            self.without_member(pid)
        } else {
            self
        }
    }

    /// The process `pid` has ended.
    pub open spec fn ended(self, pid: Pid) -> Step {
        if self.tracks(pid) {
            let pg = self.procs[pid].pg_id;
            self.without_member(pid).settle(self.groups[pg].0, pg)
        } else {
            (self, seq![])
        }
    }

    /// The table with `state` for `pid`, where `pid` is known.
    pub open spec fn with_state(self, pid: Pid, state: ProcState) -> Table {
        if self.procs.contains_key(pid) {
            Table {
                procs: self.procs.insert(
                    pid,
                    ProcInfo { state, pg_id: self.procs[pid].pg_id },
                ),
                ..self
            }
        } else {
            self
        }
    }

    /// The process `pid` has stopped.
    pub open spec fn stopped(self, pid: Pid) -> Step {
        let pg = self.procs[pid].pg_id;
        self.with_state(pid, ProcState::Stop).settle(self.groups[pg].0, pg)
    }

    /// The wait has failed for the reason `text`.
    pub open spec fn wait_failed(self, text: Seq<char>) -> Step {
        (self, seq![Action::Tell(Notice::WaitFailed(text)), Action::Exit(1)])
    }

    /// Whether the outcome of a wait is one that the worker can take: a process that has stopped
    /// is one of a job, and a signal number leaves room for the exit code that stands for it.
    pub open spec fn expects(self, outcome: Result<WaitStatus, SysError>) -> bool {
        match outcome {
            Ok(WaitStatus::Signaled(_, signal)) => signal <= i32::MAX - 128,
            Ok(WaitStatus::Stopped(pid)) => self.tracks(pid),
            Ok(WaitStatus::PtraceEvent(pid)) => self.tracks(pid),
            _ => true,
        }
    }

    /// What the outcome of a wait makes of the table. A child that was killed by a signal that the
    /// platform has no name for cannot be reported, so the wait has failed.
    pub open spec fn waited(self, outcome: Result<WaitStatus, SysError>) -> Step {
        match outcome {
            Ok(WaitStatus::Exited(pid, status)) => Table { exit_code: status, ..self }.ended(pid),
            Ok(WaitStatus::Signaled(pid, signal)) => match signal_text(signal) {
                Some(name) => self.killed(pid, signal, name),
                None => self.wait_failed("EINVAL: Invalid argument"@),
            },
            Ok(WaitStatus::Stopped(pid)) => self.stopped(pid),
            Ok(WaitStatus::PtraceEvent(pid)) => self.stopped(pid),
            Ok(WaitStatus::Continued(pid)) => (self.with_state(pid, ProcState::Run), seq![]),
            Ok(WaitStatus::PtraceSyscall(pid)) => (self.with_state(pid, ProcState::Run), seq![]),
            Ok(WaitStatus::StillAlive) => (self, seq![]),
            Err(e) => if e.kind == ErrorKind::NoChild {
                (self, seq![])
            } else {
                self.wait_failed(errno_text(e.errno))
            },
        }
    }

    /// The process `pid` was killed by the signal of number `signal` and name `name`.
    pub open spec fn killed(self, pid: Pid, signal: i32, name: Seq<char>) -> Step {
        let step = Table { exit_code: (128 + signal) as i32, ..self }.ended(pid);
        (step.0, seq![Action::Tell(Notice::Terminated { pid, signal: name })] + step.1)
    }

    /// The table with an exit code, and the answer that goes with it.
    pub open spec fn refuse(self, notice: Notice<Seq<char>>) -> Step {
        (
            Table { exit_code: 1, ..self },
            seq![Action::Tell(notice), Action::Send(ShellMsg::Continue(1))],
        )
    }

    /// The answer that lets the shell read on.
    pub open spec fn go_on(self) -> Acts {
        seq![Action::Send(ShellMsg::Continue(self.exit_code))]
    }

    /// The command `exit`: refused while there are jobs; otherwise it leaves with the number in
    /// the second place of `args`, or with the exit code so far where there is no second place.
    pub open spec fn exit(self, args: Seq<Seq<char>>) -> Step {
        if !self.jobs.is_empty() {
            self.refuse(Notice::StoppedJobs)
        } else if args.len() < 2 {
            (self, seq![Action::Send(ShellMsg::Quit(self.exit_code))])
        } else {
            match signed_number(args[1]) {
                Some(n) if i32::MIN <= n <= i32::MAX => (
                    self,
                    seq![Action::Send(ShellMsg::Quit(n as i32))],
                ),
                _ => self.refuse(Notice::InvalidArgument(args[1])),
            }
        }
    }

    /// The command `cd`: changes to the directory in the second place of `args`, if there is one.
    pub open spec fn cd(self, args: Seq<Seq<char>>) -> Step {
        if args.len() < 2 {
            (self, self.go_on())
        } else {
            (self, seq![Action::ChangeDir(args[1])] + self.go_on())
        }
    }

    /// The command `jobs`: lists the jobs.
    pub open spec fn list(self) -> Step {
        (self, listing(self.jobs) + self.go_on())
    }

    /// The command `fg`: brings the job whose number is in the second place of `args` to the
    /// foreground. The exit code is 1 until that job says otherwise.
    pub open spec fn foreground(self, args: Seq<Seq<char>>) -> Step {
        if args.len() < 2 {
            self.refuse(Notice::MissingArgument)
        } else {
            match unsigned_number(args[1]) {
                Some(n) if n <= usize::MAX && self.jobs.contains_key(n as usize) => {
                    let (pg, command) = self.jobs[n as usize];
                    (
                        Table { exit_code: 1, fg: Some(pg), ..self },
                        seq![
                            Action::Tell(Notice::Continued { job: n as usize, command }),
                            Action::SetForeground(pg),
                            Action::Resume(pg),
                        ],
                    )
                },
                _ => self.refuse(Notice::JobNotFound(args[1])),
            }
        }
    }

    /// What a command of the shell itself does, where `name` is one.
    pub open spec fn built_in(self, name: Seq<char>, args: Seq<Seq<char>>) -> Option<Step> {
        if name == "exit"@ {
            Some(self.exit(args))
        } else if name == "cd"@ {
            Some(self.cd(args))
        } else if name == "jobs"@ {
            Some(self.list())
        } else if name == "fg"@ {
            Some(self.foreground(args))
        } else {
            None
        }
    }

    /// The table with a new job in the foreground: its number, its group and its processes, all
    /// of them running.
    pub open spec fn with_job(
        self,
        job: usize,
        pg: Pid,
        pids: Set<Pid>,
        command: Seq<char>,
    ) -> Table {
        Table {
            fg: Some(pg),
            jobs: self.jobs.insert(job, (pg, command)),
            groups: self.groups.insert(pg, (job, pids)),
            procs: self.procs.union_prefer_right(
                Map::new(
                    |pid: Pid| pids.contains(pid),
                    |pid: Pid| ProcInfo { state: ProcState::Run, pg_id: pg },
                ),
            ),
            ..self
        }
    }
}

/// Whether `after` and `now` are what `step` makes of what was there, with `before` done first.
pub open spec fn takes(step: Step, before: Acts, after: Table, now: Acts) -> bool {
    after =~= step.0 && now =~= before + step.1
}

/// The first free number is the smallest one that is free; there is none only where all are taken.
pub proof fn lemma_first_free(taken: Set<usize>, n: int)
    requires
        n >= 0,
    ensures
        match first_free(taken, n) {
            Some(id) => {
                &&& n <= id
                &&& !taken.contains(id)
                &&& forall|k: usize| n <= k < id ==> #[trigger] taken.contains(k)
            },
            None => forall|k: usize| n <= k ==> #[trigger] taken.contains(k),
        },
    decreases usize::MAX + 1 - n,
{
    if n <= usize::MAX && taken.contains(n as usize) {
        lemma_first_free(taken, n + 1);
    }
}

impl Table {
    /// A table that is well formed but for the emptiness of one group is so again once that group
    /// has been settled.
    pub proof fn lemma_settle(self, job: usize, pg: Pid)
        requires
            self.linked(),
            self.groups.contains_key(pg),
            self.groups[pg].0 == job,
            forall|other: Pid| #[trigger]
                self.groups.contains_key(other) && other != pg
                    ==> !self.groups[other].1.is_empty(),
        ensures
            self.settle(job, pg).0.wf(),
    {
    }

    /// The end of a process keeps the table well formed.
    pub proof fn lemma_ended(self, pid: Pid)
        requires
            self.wf(),
        ensures
            self.ended(pid).0.wf(),
    {
        if self.tracks(pid) {
            let pg = self.procs[pid].pg_id;
            let next = self.without_member(pid);
            assert(next.linked());
            next.lemma_settle(self.groups[pg].0, pg);
        }
    }

    /// A change of state of a process keeps the table well formed.
    pub proof fn lemma_with_state(self, pid: Pid, state: ProcState)
        requires
            self.wf(),
        ensures
            self.with_state(pid, state).wf(),
    {
    }

    /// The stop of a process keeps the table well formed.
    pub proof fn lemma_stopped(self, pid: Pid)
        requires
            self.wf(),
            self.tracks(pid),
        ensures
            self.stopped(pid).0.wf(),
    {
        let pg = self.procs[pid].pg_id;
        let next = self.with_state(pid, ProcState::Stop);
        self.lemma_with_state(pid, ProcState::Stop);
        next.lemma_settle(self.groups[pg].0, pg);
    }

    /// A new job whose processes are all new keeps the table well formed.
    pub proof fn lemma_with_job(self, job: usize, pg: Pid, pids: Set<Pid>, command: Seq<char>)
        requires
            self.wf(),
            job != 0,
            !self.jobs.contains_key(job),
            pids.contains(pg),
            forall|pid: Pid| #[trigger] pids.contains(pid) ==> !self.procs.contains_key(pid),
        ensures
            self.with_job(job, pg, pids, command).wf(),
    {
        let next = self.with_job(job, pg, pids, command);
        assert(!self.groups.contains_key(pg));
        assert forall|g: Pid, pid: Pid|
            next.groups.contains_key(g) && #[trigger] next.groups[g].1.contains(
                pid,
            ) implies next.procs.contains_key(pid) && next.procs[pid].pg_id == g by {
            if g != pg {
                assert(self.groups[g].1.contains(pid));
            }
        }
        assert(!pids.is_empty());
    }

    /// The commands of the shell itself keep the table well formed.
    pub proof fn lemma_built_in(self, name: Seq<char>, args: Seq<Seq<char>>)
        requires
            self.wf(),
            self.built_in(name, args) is Some,
        ensures
            self.built_in(name, args) matches Some(step) && step.0.wf(),
    {
    }

    /// Every outcome of a wait keeps the table well formed.
    pub proof fn lemma_waited(self, outcome: Result<WaitStatus, SysError>)
        requires
            self.wf(),
            self.expects(outcome),
        ensures
            self.waited(outcome).0.wf(),
    {
        match outcome {
            Ok(WaitStatus::Exited(pid, status)) => {
                Table { exit_code: status, ..self }.lemma_ended(pid);
            },
            Ok(WaitStatus::Signaled(pid, signal)) => {
                Table { exit_code: (128 + signal) as i32, ..self }.lemma_ended(pid);
            },
            Ok(WaitStatus::Stopped(pid)) => {
                self.lemma_stopped(pid);
            },
            Ok(WaitStatus::PtraceEvent(pid)) => {
                self.lemma_stopped(pid);
            },
            _ => {},
        }
    }
}

} // verus!
