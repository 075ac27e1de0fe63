use zerosh::launch::{LaunchEvent, Request, Task};
use zerosh::message::{list_line, Action, ShellMsg, WorkerMsg};
use zerosh::os::{ErrorKind, SysError, WaitStatus};
use zerosh::worker::{parse_cmd, Worker};

const SHELL: i32 = 50;

fn shown(out: &[Action<String>]) -> Vec<String> {
    out.iter()
        .map(|action| match action {
            Action::Tell(notice) => notice.text(),
            Action::List { job, pg_id, command } => list_line(*job, *pg_id, command),
            Action::Send(ShellMsg::Continue(n)) => format!("continue {}", n),
            Action::Send(ShellMsg::Quit(n)) => format!("quit {}", n),
            Action::SetForeground(pg_id) => format!("foreground {}", pg_id),
            Action::Resume(pg_id) => format!("resume {}", pg_id),
            Action::ChangeDir(dir) => format!("change to {}", dir),
            Action::Close(fd) => format!("close {}", fd),
            Action::Exit(n) => format!("exit {}", n),
        })
        .collect()
}

/// Runs a line that leads to no start.
fn run(worker: &mut Worker, line: &str) -> Vec<String> {
    assert!(worker.can_run(line));
    let mut out = Vec::new();
    match worker.handle(WorkerMsg::Cmd(line.to_string()), &mut out) {
        Task::Done => shown(&out),
        other => panic!("{:?}", other),
    }
}

/// Starts a job whose processes get the numbers `pids`.
fn start(worker: &mut Worker, line: &str, pids: &[i32]) -> Vec<String> {
    assert!(worker.can_run(line));
    let mut out = Vec::new();
    let mut pids = pids.iter();
    let mut task = match worker.handle(WorkerMsg::Cmd(line.to_string()), &mut out) {
        Task::Start(launch, request) => Some((launch, request)),
        other => panic!("{:?}", other),
    };
    while let Some((launch, request)) = task {
        let event = match request {
            Request::Pipe => LaunchEvent::Pipe(3, 4),
            Request::Fork(_) => match pids.next() {
                Some(pid) => LaunchEvent::Child(*pid),
                None => LaunchEvent::Failed,
            },
            Request::Grant(_) => LaunchEvent::Granted,
        };
        assert!(worker.accepts(&launch, &event));
        task = worker.spawn_step(launch, event, &mut out);
    }
    shown(&out)
}

fn wait(worker: &mut Worker, status: WaitStatus) -> Vec<String> {
    assert!(worker.expects(&Ok(status)));
    let mut out = Vec::new();
    assert!(worker.wait_child(Ok(status), &mut out));
    shown(&out)
}

fn stages(line: &str) -> Vec<(String, Vec<String>)> {
    match parse_cmd(line) {
        Ok(cmd) => cmd
            .iter()
            .map(|(name, args)| {
                (name.to_string(), args.iter().map(|a| a.to_string()).collect())
            })
            .collect(),
        Err(_) => panic!("a line is always taken apart"),
    }
}

fn stage(name: &str, args: &[&str]) -> (String, Vec<String>) {
    (name.to_string(), args.iter().map(|a| a.to_string()).collect())
}

#[test]
fn parts_without_a_word_are_left_out() {
    assert_eq!(stages("| ls -a | | wc |"), vec![stage("ls", &["-a"]), stage("wc", &[])]);
    assert!(stages(" | ").is_empty());
    assert!(stages("").is_empty());
}

#[test]
fn plain_line_is_one_command() {
    assert_eq!(stages("  echo a  b "), vec![stage("echo", &["a", "b"])]);
}

#[test]
fn commands_are_made_of_words() {
    for (name, args) in stages("a b|c\td |e") {
        for word in std::iter::once(&name).chain(args.iter()) {
            assert!(!word.is_empty());
            assert!(!word.contains('|') && !word.contains(char::is_whitespace));
        }
    }
}

#[test]
fn exit_leaves_with_the_exit_code_so_far() {
    let mut worker = Worker::new(SHELL);
    assert_eq!(run(&mut worker, "exit"), vec!["quit 0"]);
    wait(&mut worker, WaitStatus::Exited(9, 6));
    assert_eq!(run(&mut worker, "exit"), vec!["quit 6"]);
}

#[test]
fn exit_leaves_with_the_number_in_second_place() {
    let mut worker = Worker::new(SHELL);
    assert_eq!(run(&mut worker, "exit 3"), vec!["quit 0"]);
    assert_eq!(run(&mut worker, "exit with 3"), vec!["quit 3"]);
    assert_eq!(run(&mut worker, "exit with -12"), vec!["quit -12"]);
    assert_eq!(run(&mut worker, "exit with +7 8"), vec!["quit 7"]);
    assert_eq!(run(&mut worker, "exit with 2147483647"), vec!["quit 2147483647"]);
    assert_eq!(run(&mut worker, "exit with -2147483648"), vec!["quit -2147483648"]);
}

#[test]
fn exit_refuses_what_is_no_number() {
    for word in ["x", "3x", "--3", "+", "-", "2147483648", "-2147483649", "1.5"] {
        let mut worker = Worker::new(SHELL);
        assert_eq!(
            run(&mut worker, &format!("exit with {}", word)),
            vec![format!("ZeroSh: Invalid argument: {}", word), "continue 1".to_string()]
        );
        assert_eq!(run(&mut worker, "exit"), vec!["quit 1"]);
    }
}

#[test]
fn exit_is_refused_while_there_are_jobs() {
    let mut worker = Worker::new(SHELL);
    start(&mut worker, "vi", &[100]);
    wait(&mut worker, WaitStatus::Stopped(100));
    assert_eq!(
        run(&mut worker, "exit"),
        vec!["ZeroSh: There are stopped jobs.", "continue 1"]
    );
    assert_eq!(
        run(&mut worker, "exit with 3"),
        vec!["ZeroSh: There are stopped jobs.", "continue 1"]
    );
    assert_eq!(run(&mut worker, "cd"), vec!["continue 1"]);
}

#[test]
fn cd_changes_to_the_directory_in_second_place() {
    let mut worker = Worker::new(SHELL);
    assert_eq!(run(&mut worker, "cd"), vec!["continue 0"]);
    assert_eq!(run(&mut worker, "cd /tmp"), vec!["continue 0"]);
    assert_eq!(run(&mut worker, "cd to /tmp"), vec!["change to /tmp", "continue 0"]);
}

#[test]
fn jobs_are_listed_in_the_order_of_their_numbers() {
    let mut worker = Worker::new(SHELL);
    assert_eq!(run(&mut worker, "jobs"), vec!["continue 0"]);
    for (line, pid) in [("vi c", 300), ("vi b", 200), ("vi a", 100)] {
        start(&mut worker, line, &[pid]);
        wait(&mut worker, WaitStatus::Stopped(pid));
    }
    assert_eq!(
        run(&mut worker, "jobs"),
        vec!["[1] 300 vi c", "[2] 200 vi b", "[3] 100 vi a", "continue 0"]
    );
}

#[test]
fn new_job_gets_the_smallest_free_number() {
    let mut worker = Worker::new(SHELL);
    assert_eq!(worker.get_next_job_id(), Some(1));
    for pid in [100, 200, 300] {
        start(&mut worker, "vi", &[pid]);
        wait(&mut worker, WaitStatus::Stopped(pid));
    }
    assert_eq!(worker.get_next_job_id(), Some(4));
    wait(&mut worker, WaitStatus::Exited(200, 0));
    assert_eq!(worker.get_next_job_id(), Some(2));
    start(&mut worker, "vi", &[400]);
    assert_eq!(worker.get_next_job_id(), Some(4));
}

#[test]
fn fg_refuses_what_names_no_job() {
    let mut worker = Worker::new(SHELL);
    assert_eq!(run(&mut worker, "fg"), vec!["ZeroSh: fg: Missing argument", "continue 1"]);
    assert_eq!(run(&mut worker, "fg 1"), vec!["ZeroSh: fg: Missing argument", "continue 1"]);
    for word in ["1", "0", "x", "-1", "99999999999999999999999"] {
        assert_eq!(
            run(&mut worker, &format!("fg job {}", word)),
            vec![format!("ZeroSh: fg: Job not found: {}", word), "continue 1".to_string()]
        );
    }
    assert_eq!(run(&mut worker, "exit"), vec!["quit 1"]);
}

#[test]
fn fg_brings_a_job_to_the_foreground() {
    let mut worker = Worker::new(SHELL);
    start(&mut worker, "vi notes", &[100]);
    wait(&mut worker, WaitStatus::Stopped(100));
    assert_eq!(
        run(&mut worker, "fg job +1"),
        vec!["ZeroSh: [1] continued vi notes", "foreground 100", "resume 100"]
    );
    assert!(wait(&mut worker, WaitStatus::Continued(100)).is_empty());
    assert_eq!(
        wait(&mut worker, WaitStatus::Exited(100, 2)),
        vec!["ZeroSh: [1] Done vi notes", "foreground 50", "continue 2"]
    );
    assert_eq!(run(&mut worker, "jobs"), vec!["continue 2"]);
}

#[test]
fn job_of_one_process_starts_and_ends() {
    let mut worker = Worker::new(SHELL);
    assert!(start(&mut worker, "sleep 5", &[100]).is_empty());
    assert_eq!(
        wait(&mut worker, WaitStatus::Exited(100, 0)),
        vec!["ZeroSh: [1] Done sleep 5", "foreground 50", "continue 0"]
    );
    assert_eq!(worker.get_next_job_id(), Some(1));
}

#[test]
fn job_of_two_processes_ends_with_the_second() {
    for (first, second) in [(100, 101), (101, 100)] {
        let mut worker = Worker::new(SHELL);
        assert_eq!(start(&mut worker, "cat a | wc", &[100, 101]), vec!["close 3", "close 4"]);
        assert!(wait(&mut worker, WaitStatus::Exited(first, 1)).is_empty());
        assert_eq!(worker.get_next_job_id(), Some(2));
        assert_eq!(
            wait(&mut worker, WaitStatus::Exited(second, 5)),
            vec!["ZeroSh: [1] Done cat a | wc", "foreground 50", "continue 5"]
        );
        assert_eq!(worker.get_next_job_id(), Some(1));
    }
}

#[test]
fn stopped_job_gives_the_terminal_back_and_stays() {
    let mut worker = Worker::new(SHELL);
    start(&mut worker, "cat a | less", &[100, 101]);
    assert!(wait(&mut worker, WaitStatus::Stopped(100)).is_empty());
    assert_eq!(
        wait(&mut worker, WaitStatus::Stopped(101)),
        vec!["ZeroSh: [1] Stopped cat a | less", "foreground 50", "continue 0"]
    );
    assert_eq!(run(&mut worker, "jobs"), vec!["[1] 100 cat a | less", "continue 0"]);
}

#[test]
fn job_whose_last_running_process_ends_is_stopped() {
    let mut worker = Worker::new(SHELL);
    start(&mut worker, "cat a | less", &[100, 101]);
    wait(&mut worker, WaitStatus::Stopped(101));
    assert_eq!(
        wait(&mut worker, WaitStatus::Exited(100, 0)),
        vec!["ZeroSh: [1] Stopped cat a | less", "foreground 50", "continue 0"]
    );
}

#[test]
fn continued_process_runs_again() {
    let mut worker = Worker::new(SHELL);
    start(&mut worker, "cat a | less", &[100, 101]);
    wait(&mut worker, WaitStatus::Stopped(100));
    wait(&mut worker, WaitStatus::Continued(100));
    assert!(wait(&mut worker, WaitStatus::Stopped(101)).is_empty());
    wait(&mut worker, WaitStatus::PtraceSyscall(101));
    assert!(wait(&mut worker, WaitStatus::Stopped(100)).is_empty());
}

#[test]
fn trace_event_counts_as_a_stop() {
    let mut worker = Worker::new(SHELL);
    start(&mut worker, "vi", &[100]);
    assert_eq!(
        wait(&mut worker, WaitStatus::PtraceEvent(100)),
        vec!["ZeroSh: [1] Stopped vi", "foreground 50", "continue 0"]
    );
}

#[test]
fn background_job_is_quiet() {
    let mut worker = Worker::new(SHELL);
    start(&mut worker, "cat a | less", &[100, 101]);
    wait(&mut worker, WaitStatus::Stopped(100));
    wait(&mut worker, WaitStatus::Stopped(101));
    assert!(wait(&mut worker, WaitStatus::Continued(100)).is_empty());
    assert!(wait(&mut worker, WaitStatus::Stopped(100)).is_empty());
    assert!(wait(&mut worker, WaitStatus::Exited(100, 0)).is_empty());
    assert_eq!(
        wait(&mut worker, WaitStatus::Exited(101, 0)),
        vec!["ZeroSh: [1] Done cat a | less"]
    );
}

#[test]
fn killed_process_gives_the_exit_code_of_its_signal() {
    let mut worker = Worker::new(SHELL);
    start(&mut worker, "sleep 5", &[100]);
    assert_eq!(
        wait(&mut worker, WaitStatus::Signaled(100, 9)),
        vec![
            "ZeroSh: Process 100 terminated by signal SIGKILL",
            "ZeroSh: [1] Done sleep 5",
            "foreground 50",
            "continue 137",
        ]
    );
    assert_eq!(
        wait(&mut worker, WaitStatus::Signaled(100, 15)),
        vec!["ZeroSh: Process 100 terminated by signal SIGTERM"]
    );
    assert_eq!(run(&mut worker, "exit"), vec!["quit 143"]);
}

#[test]
fn death_by_a_signal_of_given_name() {
    let mut worker = Worker::new(SHELL);
    start(&mut worker, "sleep 5", &[100]);
    let mut out = Vec::new();
    worker.process_killed(100, 2, "SIGINT".to_string(), &mut out);
    assert_eq!(
        shown(&out),
        vec![
            "ZeroSh: Process 100 terminated by signal SIGINT",
            "ZeroSh: [1] Done sleep 5",
            "foreground 50",
            "continue 130",
        ]
    );
}

#[test]
fn signal_without_a_name_fails_the_wait() {
    let mut worker = Worker::new(SHELL);
    let mut out = Vec::new();
    assert!(!worker.wait_child(Ok(WaitStatus::Signaled(100, 0)), &mut out));
    assert_eq!(shown(&out), vec!["ZeroSh: waitpid: EINVAL: Invalid argument", "exit 1"]);
}

#[test]
fn waits_end_when_there_is_nothing_to_hear() {
    let mut worker = Worker::new(SHELL);
    let mut out = Vec::new();
    assert!(!worker.wait_child(Ok(WaitStatus::StillAlive), &mut out));
    let none = SysError { kind: ErrorKind::NoChild, errno: 10 };
    assert!(worker.expects(&Err(none)));
    assert!(!worker.wait_child(Err(none), &mut out));
    assert!(out.is_empty());
}

#[test]
fn failed_wait_ends_the_program() {
    let mut worker = Worker::new(SHELL);
    let mut out = Vec::new();
    let failure = SysError { kind: ErrorKind::Other, errno: nix::errno::Errno::EINVAL as i32 };
    assert!(!worker.wait_child(Err(failure), &mut out));
    assert_eq!(shown(&out), vec!["ZeroSh: waitpid: EINVAL: Invalid argument", "exit 1"]);
    out.clear();
    worker.wait_failed("no reason".to_string(), &mut out);
    assert_eq!(shown(&out), vec!["ZeroSh: waitpid: no reason", "exit 1"]);
}

#[test]
fn unknown_process_may_end_or_go_on_but_not_stop() {
    let mut worker = Worker::new(SHELL);
    assert!(worker.expects(&Ok(WaitStatus::Exited(7, 0))));
    assert!(worker.expects(&Ok(WaitStatus::Continued(7))));
    assert!(!worker.expects(&Ok(WaitStatus::Stopped(7))));
    assert!(!worker.expects(&Ok(WaitStatus::PtraceEvent(7))));
    assert!(!worker.expects(&Ok(WaitStatus::Signaled(7, i32::MAX))));
    assert!(wait(&mut worker, WaitStatus::Exited(7, 3)).is_empty());
    assert!(wait(&mut worker, WaitStatus::Continued(7)).is_empty());
    assert_eq!(run(&mut worker, "exit"), vec!["quit 3"]);
}

#[test]
fn processes_are_remembered() {
    let mut worker = Worker::new(SHELL);
    start(&mut worker, "ls", &[100]);
    wait(&mut worker, WaitStatus::Exited(100, 0));
    assert!(!worker.expects(&Ok(WaitStatus::Stopped(100))));
    let mut out = Vec::new();
    match worker.handle(WorkerMsg::Cmd("ls".to_string()), &mut out) {
        Task::Start(launch, _) => {
            assert!(!worker.accepts(&launch, &LaunchEvent::Child(100)));
            assert!(worker.accepts(&launch, &LaunchEvent::Child(101)));
        }
        other => panic!("{:?}", other),
    }
}

#[test]
fn signal_calls_for_a_look_at_the_children() {
    let mut worker = Worker::new(SHELL);
    let mut out = Vec::new();
    assert!(matches!(worker.handle(WorkerMsg::SignalMsg(17), &mut out), Task::Reap));
    assert!(out.is_empty());
}

#[test]
fn every_command_line_is_answered_once() {
    let mut worker = Worker::new(SHELL);
    let answers = |out: &[String]| {
        out.iter().filter(|s| s.starts_with("continue ") || s.starts_with("quit ")).count()
    };
    for line in ["cd", "cd to /", "jobs", "fg", "fg job 3", "exit with x", "exit"] {
        assert_eq!(answers(&run(&mut worker, line)), 1, "{}", line);
    }
    let mut out = start(&mut worker, "cat | less", &[100, 101]);
    assert_eq!(answers(&out), 0);
    out.extend(wait(&mut worker, WaitStatus::Exited(100, 0)));
    assert_eq!(answers(&out), 0);
    out.extend(wait(&mut worker, WaitStatus::Stopped(101)));
    assert_eq!(answers(&out), 1);
    out.extend(wait(&mut worker, WaitStatus::Continued(101)));
    out.extend(wait(&mut worker, WaitStatus::Exited(101, 0)));
    assert_eq!(answers(&out), 1);
}

#[test]
fn commands_of_the_shell_do_not_work_in_a_pipeline() {
    let mut worker = Worker::new(SHELL);
    let mut out = Vec::new();
    let cmd = parse_cmd("exit | cat").unwrap_or_default();
    assert!(!worker.built_in_cmd(&cmd, &mut out));
    let cmd = parse_cmd("exit |").unwrap_or_default();
    assert!(worker.built_in_cmd(&cmd, &mut out));
    let cmd = parse_cmd("exits").unwrap_or_default();
    assert!(!worker.built_in_cmd(&cmd, &mut out));
    assert_eq!(shown(&out), vec!["quit 0"]);
}

#[test]
fn commands_of_the_shell_one_by_one() {
    let mut worker = Worker::new(SHELL);
    let mut out = Vec::new();
    assert!(worker.run_cd(&vec!["to", "/usr"], &mut out));
    assert!(worker.run_jobs(&mut out));
    assert!(worker.run_fg(&vec![], &mut out));
    assert!(worker.run_exit(&vec!["with", "9"], &mut out));
    assert_eq!(
        shown(&out),
        vec![
            "change to /usr",
            "continue 0",
            "continue 0",
            "ZeroSh: fg: Missing argument",
            "continue 1",
            "quit 9",
        ]
    );
}

#[test]
fn exit_status_is_the_exit_code_however_large() {
    let mut worker = Worker::new(SHELL);
    for status in [i32::MAX, i32::MIN, 255] {
        wait(&mut worker, WaitStatus::Exited(9, status));
        assert_eq!(run(&mut worker, "exit"), vec![format!("quit {}", status)]);
    }
}

#[test]
fn state_given_back_restores_the_job() {
    let mut worker = Worker::new(SHELL);
    start(&mut worker, "cat a | less", &[100, 101]);
    assert!(wait(&mut worker, WaitStatus::Stopped(100)).is_empty());
    assert!(wait(&mut worker, WaitStatus::Continued(100)).is_empty());
    assert!(wait(&mut worker, WaitStatus::Stopped(101)).is_empty());
    assert_eq!(
        wait(&mut worker, WaitStatus::Stopped(100)),
        vec!["ZeroSh: [1] Stopped cat a | less", "foreground 50", "continue 0"]
    );
}

#[test]
fn job_that_came_and_went_leaves_the_others() {
    let mut worker = Worker::new(SHELL);
    start(&mut worker, "vi", &[100]);
    wait(&mut worker, WaitStatus::Stopped(100));
    let before = run(&mut worker, "jobs");
    start(&mut worker, "cat a | wc", &[200, 201]);
    assert_eq!(worker.get_next_job_id(), Some(3));
    wait(&mut worker, WaitStatus::Exited(201, 0));
    wait(&mut worker, WaitStatus::Exited(200, 0));
    assert_eq!(run(&mut worker, "jobs"), before);
    assert_eq!(worker.get_next_job_id(), Some(2));
    assert!(wait(&mut worker, WaitStatus::Exited(200, 0)).is_empty());
    assert_eq!(run(&mut worker, "jobs"), before);
}
