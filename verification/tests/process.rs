use std::collections::HashSet;
use zerosh::process::{Job, Process, ProcessGroup, ProcessState};

#[test]
fn process_group_of_a_job_is_empty() {
    let job = Job { job_id: 4, pgid: 1200, command: "cat | wc".to_string() };
    let group = job.get_process_group();
    assert_eq!(group.job_id, 4);
    assert_eq!(group.pgid, 1200);
    assert!(group.pids.is_empty());
}

#[test]
fn process_group_is_cloned_with_its_processes() {
    let mut pids = HashSet::new();
    pids.insert(5);
    pids.insert(6);
    pids.insert(7);
    let group = ProcessGroup { pgid: 5, pids, job_id: 1 };
    let copy = group.clone();
    assert_eq!(copy.pgid, 5);
    assert_eq!(copy.job_id, 1);
    assert_eq!(copy.pids, group.pids);
    assert_eq!(copy.pids.len(), 3);
}

#[test]
fn job_is_cloned_whole() {
    let job = Job { job_id: 2, pgid: 31, command: "vi".to_string() };
    let copy = job.clone();
    assert_eq!((copy.job_id, copy.pgid, copy.command.as_str()), (2, 31, "vi"));
}

#[test]
fn process_is_copied_with_its_state() {
    let process = Process { pgid: 8, state: ProcessState::Stop };
    let copy = process.clone();
    assert_eq!(copy.pgid, 8);
    assert_eq!(copy.state, ProcessState::Stop);
    assert_ne!(copy.state, ProcessState::Run);
}
