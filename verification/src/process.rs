//! Processes and process groups.

use std::collections::HashSet;
use vstd::prelude::*;

verus! {

/// The number of a process or of a process group.
pub type Pid = i32;

/// Whether a process of a job runs or is stopped.
#[derive(Debug, PartialEq, Eq, Clone, Copy, Structural)]
pub enum ProcState {
    Run,
    Stop,
}

/// What the shell keeps of a process: its state and its process group.
#[derive(Debug, PartialEq, Eq, Clone, Copy, Structural)]
pub struct ProcInfo {
    pub state: ProcState,
    pub pg_id: Pid,
}

/// Whether a process runs or is stopped.
#[derive(Debug, PartialEq, Eq, Clone, Copy, Structural)]
pub enum ProcessState {
    Run,
    Stop,
}

/// A process.
#[derive(Debug, Clone, Copy)]
pub struct Process {
    pub pgid: Pid,
    pub state: ProcessState,
}

/// A process group with the processes in it and the job it belongs to.
#[derive(Debug)]
pub struct ProcessGroup {
    pub pgid: Pid,
    pub pids: HashSet<Pid>,
    pub job_id: usize,
}

impl Clone for ProcessGroup {
    fn clone(&self) -> (r: Self)
        ensures
            r.pgid == self.pgid,
            r.pids@ == self.pids@,
            r.job_id == self.job_id,
    {
        broadcast use vstd::std_specs::hash::group_hash_axioms;

        let mut pids: HashSet<Pid> = HashSet::new();
        let members = self.pids.iter();
        let ghost all = vstd::std_specs::iter::IteratorSpec::remaining(&members).unref();
        for pid in it: members
            invariant
                it.seq().unref() == all,
                pids@ == all.take(it.index() as int).to_set(),
        {
            pids.insert(*pid);
            proof {
                assert(all.take(it.index() + 1) == all.take(it.index() as int).push(*pid));
                all.take(it.index() as int).lemma_push_to_set_commute(*pid);
            }
        }
        assert(all.take(all.len() as int) == all);
        ProcessGroup { pgid: self.pgid, pids, job_id: self.job_id }
    }
}

/// A job.
#[derive(Debug)]
pub struct Job {
    pub job_id: usize,
    pub pgid: Pid,
    pub command: String,
}

impl Clone for Job {
    fn clone(&self) -> (r: Self)
        ensures
            r == *self,
    {
        Job { job_id: self.job_id, pgid: self.pgid, command: self.command.clone() }
    }
}

impl Job {
    /// The process group of the job, with no process in it yet.
    pub fn get_process_group(&self) -> (r: ProcessGroup)
        ensures
            r.pgid == self.pgid,
            r.pids@ == Set::<Pid>::empty(),
            r.job_id == self.job_id,
    {
        ProcessGroup { pgid: self.pgid, pids: HashSet::new(), job_id: self.job_id }
    }
}

} // verus!
