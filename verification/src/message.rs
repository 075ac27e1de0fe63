//! What the shell's parts tell each other, and what they tell the user.
//!
//! The types that hold text are generic in it: with `String` they are what the program passes
//! around, with `Seq<char>` what a contract speaks of.

use vstd::prelude::*;
use crate::number::{decimal, push_decimal, push_signed, signed_decimal};
use crate::process::Pid;

verus! {

/// What the worker is told.
#[derive(Debug)]
pub enum WorkerMsg {
    /// A signal came in.
    SignalMsg(i32),
    /// A command line came in.
    Cmd(String),
}

/// What the worker answers to a command line.
#[derive(Debug, PartialEq, Eq, Clone, Copy, Structural)]
pub enum ShellMsg {
    /// Go on reading; the exit code so far.
    Continue(i32),
    /// Leave the shell with this exit code.
    Quit(i32),
}

/// A notice to the user.
#[derive(Debug)]
pub enum Notice<T> {
    StoppedJobs,
    InvalidArgument(T),
    MissingArgument,
    JobNotFound(T),
    Continued { job: usize, command: T },
    Done { job: usize, command: T },
    Stopped { job: usize, command: T },
    Terminated { pid: Pid, signal: T },
    WaitFailed(T),
    Interrupted,
    ReadFailed(T),
    HistoryNotLoaded(T),
    HistoryNotSaved(T),
    UnknownCommand,
}

/// Something that the worker has decided and that is to be carried out.
#[derive(Debug)]
pub enum Action<T> {
    /// Write a notice to standard error.
    Tell(Notice<T>),
    /// Write the line of a job to standard output.
    List { job: usize, pg_id: Pid, command: T },
    /// Answer the shell.
    Send(ShellMsg),
    /// Make a process group the foreground group of the terminal.
    SetForeground(Pid),
    /// Send SIGCONT to a process group.
    Resume(Pid),
    /// Change the working directory.
    ChangeDir(T),
    /// Close a file descriptor.
    Close(i32),
    /// Leave the program with this exit code.
    Exit(i32),
}

impl View for Notice<String> {
    type V = Notice<Seq<char>>;

    open spec fn view(&self) -> Notice<Seq<char>> {
        match self {
            Notice::StoppedJobs => Notice::StoppedJobs,
            Notice::InvalidArgument(s) => Notice::InvalidArgument(s@),
            Notice::MissingArgument => Notice::MissingArgument,
            Notice::JobNotFound(s) => Notice::JobNotFound(s@),
            Notice::Continued { job, command } => Notice::Continued {
                job: *job,
                command: command@,
            },
            Notice::Done { job, command } => Notice::Done { job: *job, command: command@ },
            Notice::Stopped { job, command } => Notice::Stopped { job: *job, command: command@ },
            Notice::Terminated { pid, signal } => Notice::Terminated { pid: *pid, signal: signal@ },
            Notice::WaitFailed(s) => Notice::WaitFailed(s@),
            Notice::Interrupted => Notice::Interrupted,
            Notice::ReadFailed(s) => Notice::ReadFailed(s@),
            Notice::HistoryNotLoaded(s) => Notice::HistoryNotLoaded(s@),
            Notice::HistoryNotSaved(s) => Notice::HistoryNotSaved(s@),
            Notice::UnknownCommand => Notice::UnknownCommand,
        }
    }
}

impl View for Action<String> {
    type V = Action<Seq<char>>;

    open spec fn view(&self) -> Action<Seq<char>> {
        match self {
            Action::Tell(n) => Action::Tell(n@),
            Action::List { job, pg_id, command } => Action::List {
                job: *job,
                pg_id: *pg_id,
                command: command@,
            },
            Action::Send(m) => Action::Send(*m),
            Action::SetForeground(p) => Action::SetForeground(*p),
            Action::Resume(p) => Action::Resume(*p),
            Action::ChangeDir(s) => Action::ChangeDir(s@),
            Action::Close(fd) => Action::Close(*fd),
            Action::Exit(n) => Action::Exit(*n),
        }
    }
}

/// What a sequence of actions says.
pub open spec fn actions(v: Seq<Action<String>>) -> Seq<Action<Seq<char>>> {
    v.map_values(|a: Action<String>| a@)
}

/// The text of a notice about a job.
pub open spec fn job_text(job: usize, word: Seq<char>, command: Seq<char>) -> Seq<char> {
    "ZeroSh: ["@ + decimal(job as nat) + "] "@ + word + " "@ + command
}

/// The text of a notice, as the user reads it.
pub open spec fn notice_text(n: Notice<Seq<char>>) -> Seq<char> {
    match n {
        Notice::StoppedJobs => "ZeroSh: There are stopped jobs."@,
        Notice::InvalidArgument(s) => "ZeroSh: Invalid argument: "@ + s,
        Notice::MissingArgument => "ZeroSh: fg: Missing argument"@,
        Notice::JobNotFound(s) => "ZeroSh: fg: Job not found: "@ + s,
        Notice::Continued { job, command } => job_text(job, "continued"@, command),
        Notice::Done { job, command } => job_text(job, "Done"@, command),
        Notice::Stopped { job, command } => job_text(job, "Stopped"@, command),
        Notice::Terminated { pid, signal } => "ZeroSh: Process "@ + signed_decimal(pid as int)
            + " terminated by signal "@ + signal,
        Notice::WaitFailed(s) => "ZeroSh: waitpid: "@ + s,
        Notice::Interrupted => "ZeroSh: Interrupted"@,
        Notice::ReadFailed(s) => "ZeroSh: Error: "@ + s,
        Notice::HistoryNotLoaded(s) => "ZeroSh: Unable to load history: "@ + s,
        Notice::HistoryNotSaved(s) => "ZeroSh: Unable to save history: "@ + s,
        Notice::UnknownCommand => "ZeroSh: Unknown command"@,
    }
}

/// The line of a job in the list of jobs.
pub open spec fn list_text(job: usize, pg_id: Pid, command: Seq<char>) -> Seq<char> {
    "["@ + decimal(job as nat) + "] "@ + signed_decimal(pg_id as int) + " "@ + command
}

/// `head` followed by `tail`.
fn joined(head: &str, tail: &str) -> (r: String)
    ensures
        r@ == head@ + tail@,
{
    let mut r = head.to_owned();
    r.append(tail);
    r
}

fn job_notice(job: usize, word: &str, command: &str) -> (r: String)
    ensures
        r@ == job_text(job, word@, command@),
{
    let mut r = "ZeroSh: [".to_owned();
    push_decimal(&mut r, job as u64);
    r.append("] ");
    r.append(word);
    r.append(" ");
    r.append(command);
    r
}

impl Notice<String> {
    /// The text of the notice.
    pub fn text(&self) -> (r: String)
        ensures
            r@ == notice_text(self@),
    {
        match self {
            Notice::StoppedJobs => "ZeroSh: There are stopped jobs.".to_owned(),
            Notice::InvalidArgument(s) => joined("ZeroSh: Invalid argument: ", s.as_str()),
            Notice::MissingArgument => "ZeroSh: fg: Missing argument".to_owned(),
            Notice::JobNotFound(s) => joined("ZeroSh: fg: Job not found: ", s.as_str()),
            Notice::Continued { job, command } => job_notice(*job, "continued", command.as_str()),
            Notice::Done { job, command } => job_notice(*job, "Done", command.as_str()),
            Notice::Stopped { job, command } => job_notice(*job, "Stopped", command.as_str()),
            Notice::Terminated { pid, signal } => {
                let mut r = "ZeroSh: Process ".to_owned();
                push_signed(&mut r, *pid);
                r.append(" terminated by signal ");
                r.append(signal.as_str());
                r
            },
            Notice::WaitFailed(s) => joined("ZeroSh: waitpid: ", s.as_str()),
            Notice::Interrupted => "ZeroSh: Interrupted".to_owned(),
            Notice::ReadFailed(s) => joined("ZeroSh: Error: ", s.as_str()),
            Notice::HistoryNotLoaded(s) => joined("ZeroSh: Unable to load history: ", s.as_str()),
            Notice::HistoryNotSaved(s) => joined("ZeroSh: Unable to save history: ", s.as_str()),
            Notice::UnknownCommand => "ZeroSh: Unknown command".to_owned(),
        }
    }
}

/// A notice says what it holds, and to the user it says it in these words.
pub proof fn law_notices_to_the_user(job: usize, pid: Pid, s: String, t: Seq<char>)
    ensures
        Notice::<String>::StoppedJobs@ == Notice::<Seq<char>>::StoppedJobs,
        Notice::<String>::MissingArgument@ == Notice::<Seq<char>>::MissingArgument,
        Notice::<String>::Interrupted@ == Notice::<Seq<char>>::Interrupted,
        Notice::<String>::UnknownCommand@ == Notice::<Seq<char>>::UnknownCommand,
        Notice::InvalidArgument(s)@ == Notice::InvalidArgument(s@),
        Notice::JobNotFound(s)@ == Notice::JobNotFound(s@),
        (Notice::Continued { job, command: s })@ == (Notice::Continued { job, command: s@ }),
        (Notice::Done { job, command: s })@ == (Notice::Done { job, command: s@ }),
        (Notice::Stopped { job, command: s })@ == (Notice::Stopped { job, command: s@ }),
        (Notice::Terminated { pid, signal: s })@ == (Notice::Terminated { pid, signal: s@ }),
        Notice::WaitFailed(s)@ == Notice::WaitFailed(s@),
        Notice::ReadFailed(s)@ == Notice::ReadFailed(s@),
        Notice::HistoryNotLoaded(s)@ == Notice::HistoryNotLoaded(s@),
        Notice::HistoryNotSaved(s)@ == Notice::HistoryNotSaved(s@),
        notice_text(Notice::StoppedJobs) == "ZeroSh: There are stopped jobs."@,
        notice_text(Notice::InvalidArgument(t)) == "ZeroSh: Invalid argument: "@ + t,
        notice_text(Notice::MissingArgument) == "ZeroSh: fg: Missing argument"@,
        notice_text(Notice::JobNotFound(t)) == "ZeroSh: fg: Job not found: "@ + t,
        notice_text(Notice::Continued { job, command: t }) == "ZeroSh: ["@ + decimal(job as nat)
            + "] continued "@ + t,
        notice_text(Notice::Done { job, command: t }) == "ZeroSh: ["@ + decimal(job as nat)
            + "] Done "@ + t,
        notice_text(Notice::Stopped { job, command: t }) == "ZeroSh: ["@ + decimal(job as nat)
            + "] Stopped "@ + t,
        notice_text(Notice::Terminated { pid, signal: t }) == "ZeroSh: Process "@ + signed_decimal(
            pid as int,
        ) + " terminated by signal "@ + t,
        notice_text(Notice::WaitFailed(t)) == "ZeroSh: waitpid: "@ + t,
        notice_text(Notice::Interrupted) == "ZeroSh: Interrupted"@,
        notice_text(Notice::ReadFailed(t)) == "ZeroSh: Error: "@ + t,
        notice_text(Notice::HistoryNotLoaded(t)) == "ZeroSh: Unable to load history: "@ + t,
        notice_text(Notice::HistoryNotSaved(t)) == "ZeroSh: Unable to save history: "@ + t,
        notice_text(Notice::UnknownCommand) == "ZeroSh: Unknown command"@,
{
    reveal_strlit("] ");
    reveal_strlit(" ");
    reveal_strlit("continued");
    reveal_strlit("Done");
    reveal_strlit("Stopped");
    reveal_strlit("] continued ");
    reveal_strlit("] Done ");
    reveal_strlit("] Stopped ");
    assert("] "@ + "continued"@ + " "@ =~= "] continued "@);
    assert("] "@ + "Done"@ + " "@ =~= "] Done "@);
    assert("] "@ + "Stopped"@ + " "@ =~= "] Stopped "@);
    let head = "ZeroSh: ["@ + decimal(job as nat);
    assert(head + "] "@ + "continued"@ + " "@ + t =~= head + ("] "@ + "continued"@ + " "@) + t);
    assert(head + "] "@ + "Done"@ + " "@ + t =~= head + ("] "@ + "Done"@ + " "@) + t);
    assert(head + "] "@ + "Stopped"@ + " "@ + t =~= head + ("] "@ + "Stopped"@ + " "@) + t);
}

/// An action says what it holds.
pub proof fn law_actions_say_what_they_hold(
    job: usize,
    number: i32,
    s: String,
    notice: Notice<String>,
    msg: ShellMsg,
)
    ensures
        Action::Tell(notice)@ == Action::Tell(notice@),
        (Action::List { job, pg_id: number, command: s })@ == (Action::List {
            job,
            pg_id: number,
            command: s@,
        }),
        Action::<String>::Send(msg)@ == Action::<Seq<char>>::Send(msg),
        Action::<String>::SetForeground(number)@ == Action::<Seq<char>>::SetForeground(number),
        Action::<String>::Resume(number)@ == Action::<Seq<char>>::Resume(number),
        Action::ChangeDir(s)@ == Action::ChangeDir(s@),
        Action::<String>::Close(number)@ == Action::<Seq<char>>::Close(number),
        Action::<String>::Exit(number)@ == Action::<Seq<char>>::Exit(number),
{
}

/// What is said of a sequence of actions is said of each of them, in order.
pub proof fn law_actions_keep_their_order(v: Seq<Action<String>>)
    ensures
        actions(v).len() == v.len(),
        forall|i: int| 0 <= i < v.len() ==> #[trigger] actions(v)[i] == v[i]@,
{
}

/// The line of a job names its number, its group and its command, in this order.
pub proof fn law_line_of_a_job(job: usize, pg_id: Pid, command: Seq<char>)
    ensures
        list_text(job, pg_id, command) == "["@ + decimal(job as nat) + "] "@ + signed_decimal(
            pg_id as int,
        ) + " "@ + command,
{
}

/// The line of a job in the list of jobs.
pub fn list_line(job: usize, pg_id: Pid, command: &str) -> (r: String)
    ensures
        r@ == list_text(job, pg_id, command@),
{
    let mut r = "[".to_owned();
    push_decimal(&mut r, job as u64);
    r.append("] ");
    push_signed(&mut r, pg_id);
    r.append(" ");
    r.append(command);
    r
}

} // verus!
