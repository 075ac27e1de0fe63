use zerosh::error::ShellError;
use zerosh::launch::{
    fork_exec, ChildStep, ForkPlan, Launch, LaunchEvent, Request, STDIN, STDOUT,
};
use zerosh::message::{Action, ShellMsg};
use zerosh::worker::{parse_cmd, Worker};

fn begin(worker: &mut Worker, line: &str) -> (Launch, Request<ForkPlan>) {
    let mut out = Vec::new();
    assert!(worker.can_run(line));
    match worker.run_cmd(line, &mut out) {
        Some(begun) => {
            assert!(out.is_empty());
            begun
        }
        None => panic!("the start of {} does not begin", line),
    }
}

fn step(
    worker: &mut Worker,
    launch: Launch,
    event: LaunchEvent,
) -> (Vec<Action<String>>, Option<(Launch, Request<ForkPlan>)>) {
    assert!(worker.accepts(&launch, &event));
    let mut out = Vec::new();
    let next = worker.spawn_step(launch, event, &mut out);
    (out, next)
}

fn plan(request: Request<ForkPlan>) -> ForkPlan {
    match request {
        Request::Fork(plan) => plan,
        other => panic!("{:?}", other),
    }
}

fn closes(out: &[Action<String>]) -> Vec<i32> {
    out.iter()
        .filter_map(|action| match action {
            Action::Close(fd) => Some(*fd),
            _ => None,
        })
        .collect()
}

fn answers(out: &[Action<String>]) -> Vec<ShellMsg> {
    out.iter()
        .filter_map(|action| match action {
            Action::Send(msg) => Some(*msg),
            _ => None,
        })
        .collect()
}

#[test]
fn plan_of_a_single_program() {
    let args = vec!["-l".to_string(), "/".to_string()];
    match fork_exec(0, "ls", &args, None, None) {
        Ok(plan) => {
            assert_eq!(plan.group, 0);
            assert_eq!(plan.filename, "ls");
            assert_eq!(plan.args, args);
            assert_eq!(
                plan.child,
                vec![
                    ChildStep::JoinGroup(0),
                    ChildStep::Close(3),
                    ChildStep::Close(4),
                    ChildStep::Close(5),
                    ChildStep::Close(6),
                    ChildStep::Exec,
                ]
            );
        }
        Err(e) => panic!("{:?}", e),
    }
}

#[test]
fn plan_with_both_ends_redirected() {
    match fork_exec(77, "sort", &Vec::new(), Some(8), Some(9)) {
        Ok(plan) => assert_eq!(
            plan.child,
            vec![
                ChildStep::JoinGroup(77),
                ChildStep::Redirect { from: 8, to: STDIN },
                ChildStep::Redirect { from: 9, to: STDOUT },
                ChildStep::Close(3),
                ChildStep::Close(4),
                ChildStep::Close(5),
                ChildStep::Close(6),
                ChildStep::Exec,
            ]
        ),
        Err(e) => panic!("{:?}", e),
    }
}

#[test]
fn name_with_nul_is_refused() {
    assert_eq!(
        fork_exec(0, "l\0s", &Vec::new(), None, None).err(),
        Some(ShellError::NulInName)
    );
    let mut worker = Worker::new(1);
    let cmd = parse_cmd("l\0s").unwrap_or_default();
    assert_eq!(worker.spawn_child("l\0s", &cmd).err(), Some(ShellError::NulInName));
    let mut out = Vec::new();
    assert!(worker.can_run("l\0s"));
    assert!(worker.run_cmd("l\0s", &mut out).is_none());
    assert_eq!(answers(&out), vec![ShellMsg::Continue(0)]);
}

#[test]
fn pipeline_of_three_is_refused() {
    let mut worker = Worker::new(1);
    let cmd = parse_cmd("a | b | c").unwrap_or_default();
    assert_eq!(worker.spawn_child("a | b | c", &cmd).err(), Some(ShellError::PipelineTooLong));
    let mut out = Vec::new();
    assert!(worker.can_run("a | b | c"));
    assert!(worker.run_cmd("a | b | c", &mut out).is_none());
    assert_eq!(answers(&out), vec![ShellMsg::Continue(0)]);
    assert_eq!(out.len(), 1);
}

#[test]
fn line_without_a_command_cannot_be_run() {
    let worker = Worker::new(1);
    assert!(!worker.can_run("|"));
    assert!(!worker.can_run(" | | "));
    assert!(!worker.can_run(""));
    assert!(worker.can_run("| ls |"));
}

#[test]
fn argument_with_nul_cannot_be_run() {
    let worker = Worker::new(1);
    assert!(!worker.can_run("ls a\0b"));
    assert!(worker.can_run("cd a\0b"));
    assert!(worker.can_run("l\0s a\0b"));
}

#[test]
fn start_of_one_command() {
    let mut worker = Worker::new(1);
    let (launch, request) = begin(&mut worker, "ls -l");
    let first = plan(request);
    assert_eq!((first.group, first.filename.as_str()), (0, "ls"));
    assert_eq!(first.args, vec!["-l".to_string()]);
    assert!(!worker.accepts(&launch, &LaunchEvent::Granted));
    assert!(!worker.accepts(&launch, &LaunchEvent::Pipe(3, 4)));
    let (out, next) = step(&mut worker, launch, LaunchEvent::Child(100));
    assert!(out.is_empty());
    assert_eq!(worker.get_next_job_id(), Some(2));
    match next {
        Some((launch, Request::Grant(pg_id))) => {
            assert_eq!(pg_id, 100);
            let (out, next) = step(&mut worker, launch, LaunchEvent::Granted);
            assert!(out.is_empty());
            assert!(next.is_none());
        }
        other => panic!("{:?}", other),
    }
}

#[test]
fn start_of_two_commands_connects_them() {
    let mut worker = Worker::new(1);
    let (launch, request) = begin(&mut worker, "cat a | wc -l");
    assert!(matches!(request, Request::Pipe));
    let (out, next) = step(&mut worker, launch, LaunchEvent::Pipe(5, 6));
    assert!(out.is_empty());
    let (launch, request) = match next {
        Some(next) => next,
        None => panic!("the start is over"),
    };
    let first = plan(request);
    assert_eq!((first.group, first.filename.as_str()), (0, "cat"));
    assert_eq!(first.child[1], ChildStep::Redirect { from: 6, to: STDOUT });
    let (out, next) = step(&mut worker, launch, LaunchEvent::Child(100));
    assert!(out.is_empty());
    assert_eq!(worker.get_next_job_id(), Some(1));
    let (launch, request) = match next {
        Some(next) => next,
        None => panic!("the start is over"),
    };
    let second = plan(request);
    assert_eq!((second.group, second.filename.as_str()), (100, "wc"));
    assert_eq!(second.args, vec!["-l".to_string()]);
    assert_eq!(second.child[1], ChildStep::Redirect { from: 5, to: STDIN });
    let (out, next) = step(&mut worker, launch, LaunchEvent::Child(101));
    assert_eq!(closes(&out), vec![5, 6]);
    assert!(answers(&out).is_empty());
    assert!(matches!(next, Some((_, Request::Grant(100)))));
    assert_eq!(worker.get_next_job_id(), Some(2));
}

#[test]
fn failed_pipe_is_answered() {
    let mut worker = Worker::new(1);
    let (launch, _) = begin(&mut worker, "cat a | wc");
    let (out, next) = step(&mut worker, launch, LaunchEvent::Failed);
    assert!(next.is_none());
    assert!(closes(&out).is_empty());
    assert_eq!(answers(&out), vec![ShellMsg::Continue(0)]);
    assert_eq!(worker.get_next_job_id(), Some(1));
}

#[test]
fn failed_process_closes_the_pipe_and_is_answered() {
    let mut worker = Worker::new(1);
    let (launch, _) = begin(&mut worker, "cat a | wc");
    let (_, next) = step(&mut worker, launch, LaunchEvent::Pipe(5, 6));
    match next {
        Some((launch, _)) => {
            let (out, next) = step(&mut worker, launch, LaunchEvent::Failed);
            assert!(next.is_none());
            assert_eq!(closes(&out), vec![5, 6]);
            assert_eq!(answers(&out), vec![ShellMsg::Continue(0)]);
        }
        None => panic!("the start is over"),
    }
}

#[test]
fn failed_second_process_closes_the_pipe_and_is_answered() {
    let mut worker = Worker::new(1);
    let (launch, _) = begin(&mut worker, "cat a | wc");
    let (_, next) = step(&mut worker, launch, LaunchEvent::Pipe(5, 6));
    let (_, next) = match next {
        Some((launch, _)) => step(&mut worker, launch, LaunchEvent::Child(100)),
        None => panic!("the start is over"),
    };
    match next {
        Some((launch, _)) => {
            let (out, next) = step(&mut worker, launch, LaunchEvent::Failed);
            assert!(next.is_none());
            assert_eq!(closes(&out), vec![5, 6]);
            assert_eq!(answers(&out), vec![ShellMsg::Continue(0)]);
            assert_eq!(worker.get_next_job_id(), Some(1));
        }
        None => panic!("the start is over"),
    }
}

#[test]
fn first_name_with_nul_in_a_pipeline_closes_the_pipe() {
    let mut worker = Worker::new(1);
    let (launch, _) = begin(&mut worker, "c\0at | wc");
    let (out, next) = step(&mut worker, launch, LaunchEvent::Pipe(5, 6));
    assert!(next.is_none());
    assert_eq!(closes(&out), vec![5, 6]);
    assert_eq!(answers(&out), vec![ShellMsg::Continue(0)]);
}

#[test]
fn second_name_with_nul_in_a_pipeline_closes_the_pipe() {
    let mut worker = Worker::new(1);
    let (launch, _) = begin(&mut worker, "cat | w\0c");
    let (_, next) = step(&mut worker, launch, LaunchEvent::Pipe(5, 6));
    match next {
        Some((launch, _)) => {
            let (out, next) = step(&mut worker, launch, LaunchEvent::Child(100));
            assert!(next.is_none());
            assert_eq!(closes(&out), vec![5, 6]);
            assert_eq!(answers(&out), vec![ShellMsg::Continue(0)]);
        }
        None => panic!("the start is over"),
    }
}

#[test]
fn job_without_the_terminal_is_answered_and_stays() {
    let mut worker = Worker::new(1);
    let (launch, _) = begin(&mut worker, "ls");
    let (_, next) = step(&mut worker, launch, LaunchEvent::Child(100));
    match next {
        Some((launch, _)) => {
            let (out, next) = step(&mut worker, launch, LaunchEvent::Failed);
            assert!(next.is_none());
            assert_eq!(answers(&out), vec![ShellMsg::Continue(0)]);
            assert_eq!(worker.get_next_job_id(), Some(2));
        }
        None => panic!("the start is over"),
    }
}
