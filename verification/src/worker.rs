//! The worker: it runs the commands of the shell itself, starts jobs, and follows what becomes of
//! them.

use std::collections::{BTreeMap, HashMap, HashSet};
use vstd::prelude::*;
use crate::error::ShellError;
use crate::message::{actions, Action, Notice, ShellMsg};
use crate::number::{parse_i32, parse_usize};
use crate::os::{errno_message, signal_name, signal_text, ErrorKind, SysError, WaitStatus};
use crate::parser::{command_of, Command, PIPE};
use crate::process::{Pid, ProcInfo, ProcState};
use crate::table::{ascending, first_free, listing, takes, Table};
use crate::text::{fields, fields_of, same_text, texts, words, words_of};

verus! {

broadcast use {
    vstd::std_specs::hash::group_hash_axioms,
    vstd::std_specs::btree::group_btree_axioms,
};

/// The commands of a pipeline: the name of each, and its arguments.
pub type Cmd<'a> = Vec<(&'a str, Vec<&'a str>)>;

/// What the commands of a pipeline say.
pub open spec fn stages(v: Seq<(&str, Vec<&str>)>) -> Seq<Command> {
    v.map_values(|c: (&str, Vec<&str>)| Command { name: c.0@, args: texts(c.1@) })
}

/// Whether `part` holds a word.
pub open spec fn has_word(part: Seq<char>) -> bool {
    words_of(part).len() > 0
}

/// The commands of `line`, one for each part between the pipe characters that holds a word.
pub open spec fn stages_of(line: Seq<char>) -> Seq<Command> {
    fields_of(line, PIPE).filter(|part: Seq<char>| has_word(part)).map_values(
        |part: Seq<char>| command_of(part),
    )
}

/// Takes a command line apart at its pipe characters, and each part into words. Parts without a
/// word are left out.
pub fn parse_cmd<'a>(line: &'a str) -> (r: Result<Cmd<'a>, ShellError>)
    ensures
        r matches Ok(cmd) && stages(cmd@) == stages_of(line@),
{
    let parts = fields(line, PIPE);
    let ghost all = fields_of(line@, PIPE);
    let ghost keep = |part: Seq<char>| has_word(part);
    let ghost read = |part: Seq<char>| command_of(part);
    let mut cmd: Cmd<'a> = Vec::new();
    let mut i: usize = 0;
    assert(all.take(0).filter(keep).map_values(read) == stages(cmd@)) by {
        reveal(Seq::filter);
    }
    while i < parts.len()
        invariant
            i <= parts@.len(),
            texts(parts@) == all,
            keep == (|part: Seq<char>| has_word(part)),
            read == (|part: Seq<char>| command_of(part)),
            stages(cmd@) == all.take(i as int).filter(keep).map_values(read),
        decreases parts@.len() - i,
    {
        let ghost before = cmd@;
        let ghost part = parts@[i as int]@;
        assert(all[i as int] == part);
        assert(all.take(i + 1) == all.take(i as int).push(part));
        proof {
            all.take(i as int).lemma_filter_push(part, keep);
        }
        let mut w = words(parts[i]);
        assert(texts(w@).len() == w@.len());
        if w.len() > 0 {
            let ghost all_words = texts(w@);
            let name = w.remove(0);
            cmd.push((name, w));
            proof {
                assert(all_words[0] == name@);
                assert(texts(w@) == all_words.drop_first());
                assert(stages(cmd@) == stages(before).push(command_of(part)));
                all.take(i as int).filter(keep).lemma_push_map_commute(read, part);
            }
        }
        i = i + 1;
    }
    assert(all.take(i as int) == all);
    Ok(cmd)
}

/// Whether a pipeline is a command of the shell itself.
pub open spec fn is_built_in(cmds: Seq<Command>) -> bool {
    cmds.len() == 1 && (cmds[0].name == "exit"@ || cmds[0].name == "cd"@ || cmds[0].name == "jobs"@
        || cmds[0].name == "fg"@)
}

/// The processes of a new job: the leader of its group, and the second one where there is one.
pub open spec fn members(pg_id: Pid, second: Option<Pid>) -> Set<Pid> {
    match second {
        Some(pid) => set![pg_id, pid],
        None => set![pg_id],
    }
}

/// Whether another wait is due after `outcome`.
pub open spec fn waits_on(outcome: Result<WaitStatus, SysError>) -> bool {
    match outcome {
        Ok(WaitStatus::StillAlive) => false,
        Ok(WaitStatus::Signaled(_, signal)) => signal_text(signal) is Some,
        Ok(_) => true,
        Err(_) => false,
    }
}

/// The worker: what it knows of the jobs, and the exit code so far.
#[derive(Debug)]
pub struct Worker {
    exit_code: i32,
    fg: Option<Pid>,
    jobs: BTreeMap<usize, (Pid, String)>,
    pg_id_to_pids: HashMap<Pid, (usize, HashSet<Pid>)>,
    pid_to_info: HashMap<Pid, ProcInfo>,
    shell_pg_id: Pid,
}

impl View for Worker {
    type V = Table;

    closed spec fn view(&self) -> Table {
        Table {
            exit_code: self.exit_code,
            fg: self.fg,
            jobs: self.jobs@.map_values(|v: (Pid, String)| (v.0, v.1@)),
            groups: self.pg_id_to_pids@.map_values(|v: (usize, HashSet<Pid>)| (v.0, v.1@)),
            procs: self.pid_to_info@,
            shell_pg_id: self.shell_pg_id,
        }
    }
}

/// Adds an action at the end.
fn act(out: &mut Vec<Action<String>>, action: Action<String>)
    ensures
        actions(final(out)@) == actions(old(out)@).push(action@),
{
    out.push(action);
    assert(actions(out@) == actions(old(out)@).push(action@));
}

impl Worker {
    /// A worker that has started nothing, for a shell in the process group `shell_pg_id`.
    pub fn new(shell_pg_id: Pid) -> (r: Self)
        ensures
            r@ == Table::initial(shell_pg_id),
            r@.wf(),
    {
        let r = Worker {
            exit_code: 0,
            fg: None,
            jobs: BTreeMap::new(),
            pg_id_to_pids: HashMap::new(),
            pid_to_info: HashMap::new(),
            shell_pg_id,
        };
        assert(r@ =~= Table::initial(shell_pg_id));
        r
    }

    /// The command `exit`.
    pub fn run_exit(&mut self, arg: &Vec<&str>, out: &mut Vec<Action<String>>) -> (r: bool)
        ensures
            r,
            takes(
                old(self)@.exit(texts(arg@)),
                actions(old(out)@),
                final(self)@,
                actions(final(out)@),
            ),
    {
        assert(self@.jobs.dom() =~= self.jobs@.dom());
        if !self.jobs.is_empty() {
            self.exit_code = 1;
            act(out, Action::Tell(Notice::StoppedJobs));
            act(out, Action::Send(ShellMsg::Continue(self.exit_code)));
            return true;
        }
        let exit_code: i32 = if arg.len() > 1 {
            assert(texts(arg@)[1] == arg@[1]@);
            match parse_i32(arg[1]) {
                Ok(n) => n,
                Err(_) => {
                    self.exit_code = 1;
                    act(out, Action::Tell(Notice::InvalidArgument(arg[1].to_owned())));
                    act(out, Action::Send(ShellMsg::Continue(self.exit_code)));
                    return true;
                },
            }
        } else {
            self.exit_code
        };
        act(out, Action::Send(ShellMsg::Quit(exit_code)));
        true
    }

    /// The command `cd`.
    pub fn run_cd(&mut self, arg: &Vec<&str>, out: &mut Vec<Action<String>>) -> (r: bool)
        ensures
            r,
            takes(
                old(self)@.cd(texts(arg@)),
                actions(old(out)@),
                final(self)@,
                actions(final(out)@),
            ),
    {
        if arg.len() > 1 {
            assert(texts(arg@)[1] == arg@[1]@);
            act(out, Action::ChangeDir(arg[1].to_owned()));
        }
        act(out, Action::Send(ShellMsg::Continue(self.exit_code)));
        true
    }

    /// The command `jobs`.
    pub fn run_jobs(&mut self, out: &mut Vec<Action<String>>) -> (r: bool)
        ensures
            r,
            takes(
                old(self)@.list(),
                actions(old(out)@),
                final(self)@,
                actions(final(out)@),
            ),
    {
        let ghost before = actions(out@);
        let lines = self.jobs.iter();
        let ghost all = vstd::std_specs::iter::IteratorSpec::remaining(&lines);
        let ghost ids = all.map_values(|kv: (&usize, &(Pid, String))| *kv.0);
        let ghost jobs = self@.jobs;
        proof {
            lemma_increasing(ids);
            assert forall|k: usize| #[trigger] ids.contains(k) <==> self.jobs@.contains_key(k) by {
                if ids.contains(k) {
                    let i = choose|i: int| 0 <= i < ids.len() && ids[i] == k;
                    assert(self.jobs@.contains_key(*all[i].0));
                }
                if self.jobs@.contains_key(k) {
                    assert(all.contains((&k, &self.jobs@[k])));
                    let i = choose|i: int| 0 <= i < all.len() && all[i] == (&k, &self.jobs@[k]);
                    assert(ids[i] == k);
                }
            }
            lemma_ascending(self.jobs@.dom(), ids, usize::MAX as nat + 1);
            assert(jobs.dom() =~= self.jobs@.dom());
            assert(before + listing(jobs).take(0) == before);
        }
        for (job, info) in it: lines
            invariant
                it.seq() == all,
                jobs == self@.jobs,
                ids == all.map_values(|kv: (&usize, &(Pid, String))| *kv.0),
                ids == ascending(jobs.dom(), usize::MAX as nat + 1),
                forall|i: int|
                    0 <= i < all.len() ==> self.jobs@.contains_key(*(#[trigger] all[i]).0)
                        && self.jobs@[*all[i].0] == *all[i].1,
                actions(out@) == before + listing(jobs).take(it.index() as int),
        {
            let ghost i = it.index();
            act(
                out,
                Action::List { job: *job, pg_id: info.0, command: info.1.clone() },
            );
            assert(all[i].0 == job);
            assert(ids[i] == *job);
            assert(listing(jobs).take(i + 1) == listing(jobs).take(i as int).push(
                Action::List { job: *job, pg_id: jobs[*job].0, command: jobs[*job].1 },
            ));
        }
        assert(listing(jobs).take(all.len() as int) == listing(jobs));
        act(out, Action::Send(ShellMsg::Continue(self.exit_code)));
        true
    }

    /// The command `fg`.
    pub fn run_fg(&mut self, arg: &Vec<&str>, out: &mut Vec<Action<String>>) -> (r: bool)
        ensures
            r,
            takes(
                old(self)@.foreground(texts(arg@)),
                actions(old(out)@),
                final(self)@,
                actions(final(out)@),
            ),
    {
        self.exit_code = 1;
        if arg.len() < 2 {
            act(out, Action::Tell(Notice::MissingArgument));
            act(out, Action::Send(ShellMsg::Continue(self.exit_code)));
            return true;
        }
        assert(texts(arg@)[1] == arg@[1]@);
        match parse_usize(arg[1]) {
            Ok(n) => {
                if let Some(info) = self.jobs.get(&n) {
                    let pg_id: Pid = info.0;
                    act(out, Action::Tell(Notice::Continued { job: n, command: info.1.clone() }));
                    self.fg = Some(pg_id);
                    act(out, Action::SetForeground(pg_id));
                    act(out, Action::Resume(pg_id));
                    return true;
                }
            },
            Err(_) => {},
        }
        act(out, Action::Tell(Notice::JobNotFound(arg[1].to_owned())));
        act(out, Action::Send(ShellMsg::Continue(self.exit_code)));
        true
    }

    /// Runs the command of the shell itself that `cmd` is, if it is one.
    pub fn built_in_cmd(&mut self, cmd: &Cmd<'_>, out: &mut Vec<Action<String>>) -> (r: bool)
        requires
            old(self)@.wf(),
        ensures
            r == is_built_in(stages(cmd@)),
            r ==> (old(self)@.built_in(stages(cmd@)[0].name, stages(cmd@)[0].args) matches Some(
                step,
            ) && takes(step, actions(old(out)@), final(self)@, actions(final(out)@))),
            !r ==> final(self)@ == old(self)@ && final(out)@ == old(out)@,
            final(self)@.wf(),
    {
        if cmd.len() != 1 {
            return false;
        }
        let name = cmd[0].0;
        assert(stages(cmd@)[0] == Command { name: name@, args: texts(cmd@[0].1@) });
        proof {
            if self@.built_in(stages(cmd@)[0].name, stages(cmd@)[0].args) is Some {
                self@.lemma_built_in(stages(cmd@)[0].name, stages(cmd@)[0].args);
            }
        }
        if same_text(name, "exit") {
            self.run_exit(&cmd[0].1, out)
        } else if same_text(name, "cd") {
            self.run_cd(&cmd[0].1, out)
        } else if same_text(name, "jobs") {
            self.run_jobs(out)
        } else if same_text(name, "fg") {
            self.run_fg(&cmd[0].1, out)
        } else {
            false
        }
    }

    /// The smallest job number that is free, if there is one.
    pub fn get_next_job_id(&self) -> (r: Option<usize>)
        ensures
            r == self@.next_job_id(),
    {
        let mut n: usize = 1;
        assert(self@.jobs.dom() =~= self.jobs@.dom());
        while self.jobs.contains_key(&n)
            invariant
                self@.jobs.dom() == self.jobs@.dom(),
                self@.next_job_id() == first_free(self@.jobs.dom(), n as int),
            decreases usize::MAX - n,
        {
            if n == usize::MAX {
                assert(first_free(self@.jobs.dom(), usize::MAX + 1) is None);
                return None;
            }
            n = n + 1;
        }
        Some(n)
    }

    /// The exit code so far.
    pub(crate) fn exit_code(&self) -> (r: i32)
        ensures
            r == self@.exit_code,
    {
        self.exit_code
    }

    /// Whether there is a job of number `job_id`.
    pub(crate) fn has_job(&self, job_id: usize) -> (r: bool)
        ensures
            r == self@.jobs.contains_key(job_id),
    {
        self.jobs.contains_key(&job_id)
    }

    /// Whether `pid` is a process that the worker knows.
    pub(crate) fn knows_pid(&self, pid: Pid) -> (r: bool)
        ensures
            r == self@.procs.contains_key(pid),
    {
        self.pid_to_info.contains_key(&pid)
    }

    /// Whether `pid` is a known process of a job that has not ended.
    fn tracks_pid(&self, pid: Pid) -> (r: bool)
        ensures
            r == self@.tracks(pid),
    {
        match self.pid_to_info.get(&pid) {
            Some(info) => self.pg_id_to_pids.contains_key(&info.pg_id),
            None => false,
        }
    }

    /// Whether the outcome of a wait is one that the worker can take.
    pub fn expects(&self, outcome: &Result<WaitStatus, SysError>) -> (r: bool)
        ensures
            r == self@.expects(*outcome),
    {
        match outcome {
            Ok(WaitStatus::Signaled(_, signal)) => *signal <= i32::MAX - 128,
            Ok(WaitStatus::Stopped(pid)) => self.tracks_pid(*pid),
            Ok(WaitStatus::PtraceEvent(pid)) => self.tracks_pid(*pid),
            _ => true,
        }
    }

    /// Gives `pid` a new state where it is known, and returns the one it had.
    fn set_pid_state(&mut self, pid: Pid, state: ProcState) -> (r: Option<ProcState>)
        ensures
            final(self)@ == old(self)@.with_state(pid, state),
            r == (if old(self)@.procs.contains_key(pid) {
                Some(old(self)@.procs[pid].state)
            } else {
                None
            }),
    {
        match self.pid_to_info.get(&pid) {
            Some(info) => {
                let old_info: ProcInfo = *info;
                self.pid_to_info.insert(pid, ProcInfo { state, pg_id: old_info.pg_id });
                Some(old_info.state)
            },
            None => None,
        }
    }

    /// Takes `pid` out of its group where it is tracked, and returns the job and the group.
    fn remove_pid(&mut self, pid: Pid) -> (r: Option<(usize, Pid)>)
        ensures
            match r {
                Some((job_id, pg_id)) => {
                    &&& old(self)@.tracks(pid)
                    &&& pg_id == old(self)@.procs[pid].pg_id
                    &&& job_id == old(self)@.groups[pg_id].0
                },
                None => !old(self)@.tracks(pid),
            },
            final(self)@ == old(self)@.released(pid),
    {
        let pg_id: Pid = match self.pid_to_info.get(&pid) {
            Some(info) => info.pg_id,
            None => {
                return None;
            },
        };
        match self.pg_id_to_pids.remove(&pg_id) {
            Some((job_id, pids)) => {
                let mut pids = pids;
                pids.remove(&pid);
                self.pg_id_to_pids.insert(pg_id, (job_id, pids));
                assert(self@ =~= old(self)@.without_member(pid));
                Some((job_id, pg_id))
            },
            None => {
                assert(self@ =~= old(self)@);
                None
            },
        }
    }

    /// Whether no process is left in the group `pg_id`.
    fn is_group_empty(&self, pg_id: Pid) -> (r: bool)
        requires
            self@.groups.contains_key(pg_id),
        ensures
            r == self@.groups[pg_id].1.is_empty(),
    {
        match self.pg_id_to_pids.get(&pg_id) {
            Some(group) => group.1.is_empty(),
            None => true,
        }
    }

    /// Whether no process of the group `pg_id` runs, if there is that group.
    fn is_group_stop(&self, pg_id: Pid) -> (r: Option<bool>)
        requires
            self@.linked(),
        ensures
            r == (if self@.groups.contains_key(pg_id) {
                Some(self@.all_stopped(pg_id))
            } else {
                None
            }),
    {
        match self.pg_id_to_pids.get(&pg_id) {
            Some(group) => {
                let members = group.1.iter();
                let ghost all = vstd::std_specs::iter::IteratorSpec::remaining(&members).unref();
                assert(self@.groups[pg_id].1 == all.to_set());
                for pid in it: members
                    invariant
                        it.seq().unref() == all,
                        self@.linked(),
                        self@.groups.contains_key(pg_id),
                        self@.groups[pg_id].1 == all.to_set(),
                        forall|k: int|
                            0 <= k < it.index() ==> self@.procs[#[trigger] all[k]].state
                                != ProcState::Run,
                {
                    assert(all[it.index() as int] == *pid);
                    assert(all.contains(*pid));
                    assert(self@.groups[pg_id].1.contains(*pid));
                    if let Some(info) = self.pid_to_info.get(pid) {
                        if info.state == ProcState::Run {
                            return Some(false);
                        }
                    }
                }
                assert forall|pid: Pid| #[trigger]
                    self@.groups[pg_id].1.contains(pid) implies self@.procs[pid].state
                    != ProcState::Run by {
                    assert(all.contains(pid));
                }
                Some(true)
            },
            None => None,
        }
    }

    /// Adds a job with its group and its processes.
    fn insert_job(
        &mut self,
        job_id: usize,
        pg_id: Pid,
        pids: HashMap<Pid, ProcInfo>,
        line: &str,
    )
        requires
            !old(self)@.jobs.contains_key(job_id),
            !old(self)@.groups.contains_key(pg_id),
            forall|pid: Pid| #[trigger]
                pids@.contains_key(pid) ==> !old(self)@.procs.contains_key(pid),
        ensures
            final(self)@ == old(self)@.inserted(job_id, pg_id, pids@, line@),
    {
        self.jobs.insert(job_id, (pg_id, line.to_owned()));
        let mut procs: HashSet<Pid> = HashSet::new();
        let entries = pids.iter();
        let ghost all = vstd::std_specs::iter::IteratorSpec::remaining(&entries);
        let ghost known = self.pid_to_info@;
        let ghost middle = *self;
        for (pid, info) in it: entries
            invariant
                it.seq() == all,
                self.exit_code == middle.exit_code,
                self.fg == middle.fg,
                self.jobs == middle.jobs,
                self.pg_id_to_pids == middle.pg_id_to_pids,
                self.shell_pg_id == middle.shell_pg_id,
                forall|k: int|
                    0 <= k < all.len() ==> pids@.contains_key(*(#[trigger] all[k]).0)
                        && pids@[*all[k].0] == *all[k].1,
                forall|p: Pid| #[trigger]
                    procs@.contains(p) <==> exists|k: int|
                        0 <= k < it.index() && *(#[trigger] all[k]).0 == p,
                forall|p: Pid| #[trigger]
                    self.pid_to_info@.contains_key(p) <==> known.contains_key(p)
                        || procs@.contains(p),
                forall|p: Pid| #[trigger]
                    procs@.contains(p) ==> pids@.contains_key(p) && self.pid_to_info@[p] == pids@[p],
                forall|p: Pid|
                    !procs@.contains(p) && known.contains_key(p) ==> #[trigger] self.pid_to_info@[p]
                        == known[p],
        {
            let ghost i = it.index() as int;
            let ghost seen = procs@;
            procs.insert(*pid);
            self.pid_to_info.insert(*pid, *info);
            assert(*all[i].0 == *pid);
            assert forall|p: Pid| #[trigger] procs@.contains(p) <==> exists|k: int|
                0 <= k < i + 1 && *(#[trigger] all[k]).0 == p by {
                if procs@.contains(p) {
                    if p != *pid {
                        assert(seen.contains(p));
                    }
                }
                if exists|k: int| 0 <= k < i + 1 && *(#[trigger] all[k]).0 == p {
                    let k = choose|k: int| 0 <= k < i + 1 && *(#[trigger] all[k]).0 == p;
                    if k < i {
                        assert(seen.contains(p));
                    }
                }
            }
        }
        assert(procs@ =~= pids@.dom()) by {
            assert forall|p: Pid| #[trigger] pids@.contains_key(p) implies procs@.contains(p) by {
                assert(all.contains((&p, &pids@[p])));
                let k = choose|k: int| 0 <= k < all.len() && all[k] == (&p, &pids@[p]);
                assert(*all[k].0 == p);
            }
        }
        assert(self.pid_to_info@ =~= known.union_prefer_right(pids@));
        self.pg_id_to_pids.insert(pg_id, (job_id, procs));
        assert(self@ =~= old(self)@.inserted(job_id, pg_id, pids@, line@));
    }

    /// Adds a job in the foreground whose processes run: the leader of its group, and the second
    /// one where there is one.
    pub(crate) fn register(
        &mut self,
        job_id: usize,
        pg_id: Pid,
        second: Option<Pid>,
        line: &str,
    )
        requires
            old(self)@.wf(),
            job_id != 0,
            !old(self)@.jobs.contains_key(job_id),
            !old(self)@.procs.contains_key(pg_id),
            second matches Some(pid) ==> !old(self)@.procs.contains_key(pid),
        ensures
            final(self)@ == old(self)@.with_job(job_id, pg_id, members(pg_id, second), line@),
            final(self)@.wf(),
    {
        let info = ProcInfo { state: ProcState::Run, pg_id };
        let mut pids: HashMap<Pid, ProcInfo> = HashMap::new();
        pids.insert(pg_id, info);
        if let Some(pid) = second {
            pids.insert(pid, info);
        }
        proof {
            assert(pids@.dom() =~= members(pg_id, second));
            old(self)@.lemma_with_job(job_id, pg_id, members(pg_id, second), line@);
        }
        self.fg = Some(pg_id);
        self.insert_job(job_id, pg_id, pids, line);
        assert(self@ =~= old(self)@.with_job(job_id, pg_id, members(pg_id, second), line@));
    }

    /// Takes `job_id` and its group out of the table, where there is such a job.
    fn remove_job(&mut self, job_id: usize)
        requires
            old(self)@.jobs.contains_key(job_id) && old(self)@.groups.contains_key(
                old(self)@.jobs[job_id].0,
            ) ==> old(self)@.groups[old(self)@.jobs[job_id].0].1.is_empty(),
        ensures
            final(self)@ == old(self)@.removed(job_id),
    {
        match self.jobs.remove(&job_id) {
            Some((pg_id, _)) => {
                self.pg_id_to_pids.remove(&pg_id);
                assert(self@ =~= old(self)@.without_job(job_id));
            },
            None => {
                assert(self@ =~= old(self)@);
            },
        }
    }

    /// Gives the terminal back to the shell and lets it read on.
    fn set_shell_fg(&mut self, out: &mut Vec<Action<String>>)
        ensures
            takes(
                old(self)@.hand_back(),
                actions(old(out)@),
                final(self)@,
                actions(final(out)@),
            ),
    {
        self.fg = None;
        act(out, Action::SetForeground(self.shell_pg_id));
        act(out, Action::Send(ShellMsg::Continue(self.exit_code)));
    }

    /// Does what follows from a change in the group `pg_id` of the job `job_id`.
    fn manage_job(&mut self, job_id: usize, pg_id: Pid, out: &mut Vec<Action<String>>)
        requires
            old(self)@.linked(),
            old(self)@.groups.contains_key(pg_id),
            old(self)@.groups[pg_id].0 == job_id,
        ensures
            takes(
                old(self)@.settle(job_id, pg_id),
                actions(old(out)@),
                final(self)@,
                actions(final(out)@),
            ),
    {
        let is_fg = match self.fg {
            Some(fg) => fg == pg_id,
            None => false,
        };
        let line: String = match self.jobs.get(&job_id) {
            Some(info) => info.1.clone(),
            None => String::new(),
        };
        if is_fg {
            if self.is_group_empty(pg_id) {
                act(out, Action::Tell(Notice::Done { job: job_id, command: line }));
                self.remove_job(job_id);
                self.set_shell_fg(out);
            } else if self.is_group_stop(pg_id) == Some(true) {
                act(out, Action::Tell(Notice::Stopped { job: job_id, command: line }));
                self.set_shell_fg(out);
            }
        } else if self.is_group_empty(pg_id) {
            act(out, Action::Tell(Notice::Done { job: job_id, command: line }));
            self.remove_job(job_id);
        }
    }

    /// The process `pid` has ended.
    fn process_term(&mut self, pid: Pid, out: &mut Vec<Action<String>>)
        requires
            old(self)@.wf(),
        ensures
            takes(
                old(self)@.ended(pid),
                actions(old(out)@),
                final(self)@,
                actions(final(out)@),
            ),
    {
        if let Some((job_id, pg_id)) = self.remove_pid(pid) {
            assert(self@.linked());
            self.manage_job(job_id, pg_id, out);
        }
    }

    /// The process `pid` has stopped.
    fn process_stop(&mut self, pid: Pid, out: &mut Vec<Action<String>>)
        requires
            old(self)@.wf(),
            old(self)@.tracks(pid),
        ensures
            takes(
                old(self)@.stopped(pid),
                actions(old(out)@),
                final(self)@,
                actions(final(out)@),
            ),
    {
        self.set_pid_state(pid, ProcState::Stop);
        proof {
            old(self)@.lemma_with_state(pid, ProcState::Stop);
        }
        if let Some(info) = self.pid_to_info.get(&pid) {
            let pg_id: Pid = info.pg_id;
            if let Some(group) = self.pg_id_to_pids.get(&pg_id) {
                let job_id: usize = group.0;
                self.manage_job(job_id, pg_id, out);
            }
        }
    }

    /// The process `pid` has been continued.
    fn process_continue(&mut self, pid: Pid)
        ensures
            final(self)@ == old(self)@.with_state(pid, ProcState::Run),
    {
        self.set_pid_state(pid, ProcState::Run);
    }

    /// Takes the outcome of one wait. The result says whether to wait once more: so exactly when
    /// a child has changed state and the program goes on.
    pub fn wait_child(
        &mut self,
        outcome: Result<WaitStatus, SysError>,
        out: &mut Vec<Action<String>>,
    ) -> (more: bool)
        requires
            old(self)@.wf(),
            old(self)@.expects(outcome),
        ensures
            takes(
                old(self)@.waited(outcome),
                actions(old(out)@),
                final(self)@,
                actions(final(out)@),
            ),
            final(self)@.wf(),
            more == waits_on(outcome),
    {
        proof {
            self@.lemma_waited(outcome);
        }
        match outcome {
            Ok(WaitStatus::Exited(pid, status)) => {
                self.exit_code = status;
                self.process_term(pid, out);
                true
            },
            Ok(WaitStatus::Signaled(pid, signal)) => match signal_name(signal) {
                Some(name) => {
                    self.process_killed(pid, signal, name, out);
                    true
                },
                None => {
                    self.wait_failed("EINVAL: Invalid argument".to_owned(), out);
                    false
                },
            },
            Ok(WaitStatus::Stopped(pid)) => {
                self.process_stop(pid, out);
                true
            },
            Ok(WaitStatus::PtraceEvent(pid)) => {
                self.process_stop(pid, out);
                true
            },
            Ok(WaitStatus::Continued(pid)) => {
                self.process_continue(pid);
                true
            },
            Ok(WaitStatus::PtraceSyscall(pid)) => {
                self.process_continue(pid);
                true
            },
            Ok(WaitStatus::StillAlive) => false,
            Err(e) => {
                if e.kind != ErrorKind::NoChild {
                    let text = errno_message(e.errno);
                    self.wait_failed(text, out);
                }
                false
            },
        }
    }

    /// The process `pid` was killed by the signal of number `signal` and name `name`.
    pub fn process_killed(
        &mut self,
        pid: Pid,
        signal: i32,
        name: String,
        out: &mut Vec<Action<String>>,
    )
        requires
            old(self)@.wf(),
            signal <= i32::MAX - 128,
        ensures
            takes(
                old(self)@.killed(pid, signal, name@),
                actions(old(out)@),
                final(self)@,
                actions(final(out)@),
            ),
            final(self)@.wf(),
    {
        act(out, Action::Tell(Notice::Terminated { pid, signal: name }));
        self.exit_code = 128 + signal;
        assert(self@ == (Table { exit_code: (128 + signal) as i32, ..old(self)@ }));
        proof {
            self@.lemma_ended(pid);
        }
        self.process_term(pid, out);
    }

    /// The wait has failed for the reason `text`: the program ends.
    pub fn wait_failed(&self, text: String, out: &mut Vec<Action<String>>)
        ensures
            actions(final(out)@) == actions(old(out)@) + self@.wait_failed(text@).1,
    {
        act(out, Action::Tell(Notice::WaitFailed(text)));
        act(out, Action::Exit(1));
    }
}

/// The keys of a map of jobs, strictly increasing and complete, are the ids in ascending order.
proof fn lemma_ascending(ids: Set<usize>, s: Seq<usize>, n: nat)
    requires
        n <= usize::MAX + 1,
        forall|i: int, j: int| 0 <= i < j < s.len() ==> s[i] < s[j],
        forall|k: usize| #[trigger] s.contains(k) <==> ids.contains(k) && k < n,
    ensures
        s == ascending(ids, n),
    decreases n,
{
    if n == 0 {
        if s.len() > 0 {
            assert(s.contains(s[0]));
        }
        assert(s == Seq::<usize>::empty());
    } else {
        let top = (n - 1) as usize;
        if ids.contains(top) {
            assert(s.contains(top));
            let i = choose|i: int| 0 <= i < s.len() && s[i] == top;
            assert(s.contains(s.last()));
            assert(i == s.len() - 1);
            let front = s.drop_last();
            assert forall|k: usize| #[trigger] front.contains(k) <==> ids.contains(k) && k < n
                - 1 by {
                if front.contains(k) {
                    let j = choose|j: int| 0 <= j < front.len() && front[j] == k;
                    assert(s[j] == k);
                    assert(s.contains(k));
                }
                if ids.contains(k) && k < n - 1 {
                    assert(s.contains(k));
                    let j = choose|j: int| 0 <= j < s.len() && s[j] == k;
                    assert(front[j] == k);
                }
            }
            lemma_ascending(ids, front, (n - 1) as nat);
            assert(s == front.push(top));
        } else {
            assert forall|k: usize| #[trigger] s.contains(k) <==> ids.contains(k) && k < n - 1 by {
                if s.contains(k) && k >= n - 1 {
                    assert(k == top);
                }
            }
            lemma_ascending(ids, s, (n - 1) as nat);
        }
    }
}

/// An increasing sequence of job numbers goes up from each place to each later one.
proof fn lemma_increasing(ids: Seq<usize>)
    requires
        vstd::std_specs::btree::increasing_seq(ids),
    ensures
        forall|i: int, j: int| 0 <= i < j < ids.len() ==> ids[i] < ids[j],
{
    broadcast use vstd::laws_cmp::group_laws_cmp;

    assert forall|i: int, j: int| 0 <= i < j < ids.len() implies ids[i] < ids[j] by {
        assert(vstd::std_specs::cmp::OrdSpec::cmp_spec(&ids[i], &ids[j]) is Less);
    }
}

} // verus!
