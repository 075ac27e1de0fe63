use zerosh::message::{list_line, Notice};

fn text(notice: Notice<String>) -> String {
    notice.text()
}

#[test]
fn notices_of_the_commands_of_the_shell() {
    assert_eq!(text(Notice::StoppedJobs), "ZeroSh: There are stopped jobs.");
    assert_eq!(
        text(Notice::InvalidArgument("x1".to_string())),
        "ZeroSh: Invalid argument: x1"
    );
    assert_eq!(text(Notice::MissingArgument), "ZeroSh: fg: Missing argument");
    assert_eq!(
        text(Notice::JobNotFound("9".to_string())),
        "ZeroSh: fg: Job not found: 9"
    );
}

#[test]
fn notices_about_jobs() {
    let command = || "cat a | wc".to_string();
    assert_eq!(
        text(Notice::Continued { job: 2, command: command() }),
        "ZeroSh: [2] continued cat a | wc"
    );
    assert_eq!(text(Notice::Done { job: 13, command: command() }), "ZeroSh: [13] Done cat a | wc");
    assert_eq!(
        text(Notice::Stopped { job: 1, command: command() }),
        "ZeroSh: [1] Stopped cat a | wc"
    );
}

#[test]
fn notices_about_processes() {
    assert_eq!(
        text(Notice::Terminated { pid: 4321, signal: "SIGKILL".to_string() }),
        "ZeroSh: Process 4321 terminated by signal SIGKILL"
    );
    assert_eq!(
        text(Notice::WaitFailed("EINVAL: Invalid argument".to_string())),
        "ZeroSh: waitpid: EINVAL: Invalid argument"
    );
    assert_eq!(text(Notice::UnknownCommand), "ZeroSh: Unknown command");
}

#[test]
fn notices_of_the_shell() {
    assert_eq!(text(Notice::Interrupted), "ZeroSh: Interrupted");
    assert_eq!(text(Notice::ReadFailed("oops".to_string())), "ZeroSh: Error: oops");
    assert_eq!(
        text(Notice::HistoryNotLoaded("no file".to_string())),
        "ZeroSh: Unable to load history: no file"
    );
    assert_eq!(
        text(Notice::HistoryNotSaved("full".to_string())),
        "ZeroSh: Unable to save history: full"
    );
}

#[test]
fn line_of_a_job() {
    assert_eq!(list_line(3, 1024, "sleep 9"), "[3] 1024 sleep 9");
    assert_eq!(list_line(10, -1, ""), "[10] -1 ");
}
