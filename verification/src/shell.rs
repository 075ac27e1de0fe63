//! The shell: it reads command lines, hands them to the worker, and goes by the answers.

use vstd::prelude::*;
use crate::message::{Notice, ShellMsg};
use crate::text::{trim, trimmed};

verus! {

/// The shell, with the file that keeps its history.
#[derive(Debug)]
pub struct Shell {
    logfile: String,
}

impl Shell {
    /// The name of the file that keeps the history.
    pub closed spec fn file(self) -> Seq<char> {
        self.logfile@
    }

    /// A shell that keeps its history in `logfile`.
    pub fn new(logfile: &str) -> (r: Self)
        ensures
            r.file() == logfile@,
    {
        Shell { logfile: logfile.to_owned() }
    }

    /// The name of the file that keeps the history.
    pub fn logfile(&self) -> (r: &str)
        ensures
            r@ == self.file(),
    {
        self.logfile.as_str()
    }
}

/// What the editor gives when it is asked for a line.
#[derive(Debug)]
pub enum Input<T> {
    /// A line.
    Line(T),
    /// The user interrupted the line.
    Interrupted,
    /// There is nothing more to read.
    Eof,
    /// The editor failed, for this reason.
    Failed(T),
}

/// What the shell does with what the editor gave.
#[derive(Debug)]
pub enum Turn<T> {
    /// Ask for another line.
    Again,
    /// Write a notice to standard error and ask for another line.
    Tell(Notice<T>),
    /// Put `history` into the history, if there is something, hand `line` to the worker and wait
    /// for the answer.
    Submit { history: Option<T>, line: T },
    /// Write a notice to standard error and leave with this exit code.
    Leave(Notice<T>, i32),
}

impl View for Input<String> {
    type V = Input<Seq<char>>;

    open spec fn view(&self) -> Input<Seq<char>> {
        match self {
            Input::Line(s) => Input::Line(s@),
            Input::Interrupted => Input::Interrupted,
            Input::Eof => Input::Eof,
            Input::Failed(s) => Input::Failed(s@),
        }
    }
}

impl View for Turn<String> {
    type V = Turn<Seq<char>>;

    open spec fn view(&self) -> Turn<Seq<char>> {
        match self {
            Turn::Again => Turn::Again,
            Turn::Tell(n) => Turn::Tell(n@),
            Turn::Submit { history, line } => Turn::Submit {
                history: (match history {
                    Some(s) => Some(s@),
                    None => None,
                }),
                line: line@,
            },
            Turn::Leave(n, code) => Turn::Leave(n@, *code),
        }
    }
}

/// A conversation with the worker: the exit code of the last command, and whether the worker has
/// been asked to end it.
#[derive(Debug, PartialEq, Eq, Clone, Copy, Structural)]
pub struct Session {
    pub prev: i32,
    pub last: bool,
}

/// The prompt after a command with the exit code `prev`.
pub open spec fn prompt_of(prev: i32) -> Seq<char> {
    if prev == 0 {
        "ZeroSh $ "@
    } else {
        "ZeroSh ! "@
    }
}

/// What the shell does with what the editor gave. A line of white space alone is passed over; any
/// other goes to the worker as it is, and to the history without the white space around it. The
/// end of the input is taken for the command `exit`.
pub open spec fn turn_of(input: Input<Seq<char>>) -> Turn<Seq<char>> {
    match input {
        Input::Line(line) => if trimmed(line).len() == 0 {
            Turn::Again
        } else {
            Turn::Submit { history: Some(trimmed(line)), line }
        },
        Input::Interrupted => Turn::Tell(Notice::Interrupted),
        Input::Eof => Turn::Submit { history: None, line: "exit"@ },
        Input::Failed(reason) => Turn::Leave(Notice::ReadFailed(reason), 1),
    }
}

impl Session {
    /// A conversation that has just begun.
    pub fn new() -> (r: Self)
        ensures
            r == (Session { prev: 0, last: false }),
    {
        Session { prev: 0, last: false }
    }

    /// The prompt for the next line.
    pub fn prompt(&self) -> (r: String)
        ensures
            r@ == prompt_of(self.prev),
    {
        if self.prev == 0 {
            "ZeroSh $ ".to_owned()
        } else {
            "ZeroSh ! ".to_owned()
        }
    }

    /// Takes what the editor gave.
    pub fn read(&mut self, input: Input<String>) -> (r: Turn<String>)
        ensures
            r@ == turn_of(input@),
            *final(self) == (Session { last: old(self).last || input is Eof, ..*old(self) }),
    {
        match input {
            Input::Line(line) => {
                let line_trimmed = trim(line.as_str());
                if line_trimmed.is_empty() {
                    Turn::Again
                } else {
                    let history = line_trimmed.to_owned();
                    Turn::Submit { history: Some(history), line }
                }
            },
            Input::Interrupted => Turn::Tell(Notice::Interrupted),
            Input::Eof => {
                self.last = true;
                Turn::Submit { history: None, line: "exit".to_owned() }
            },
            Input::Failed(reason) => Turn::Leave(Notice::ReadFailed(reason), 1),
        }
    }

    /// Takes the answer of the worker: the exit code to leave with, or nothing where the shell
    /// reads on. Once the worker has been asked to end the conversation it does not let it go on.
    pub fn reply(&mut self, msg: ShellMsg) -> (r: Option<i32>)
        requires
            old(self).last ==> msg is Quit,
        ensures
            match msg {
                ShellMsg::Continue(n) => r is None && *final(self) == (Session {
                    prev: n,
                    ..*old(self)
                }),
                ShellMsg::Quit(n) => r == Some(n) && *final(self) == *old(self),
            },
    {
        match msg {
            ShellMsg::Continue(n) => {
                self.prev = n;
                None
            },
            ShellMsg::Quit(n) => Some(n),
        }
    }
}

} // verus!
