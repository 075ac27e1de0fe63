//! The start of a job: what the operating system is asked for, one step after the other, and what
//! each answer leads to.

use vstd::prelude::*;
use crate::error::ShellError;
use crate::message::{actions, Action, ShellMsg, WorkerMsg};
use crate::parser::Command;
use crate::process::Pid;
use crate::table::{Acts, Table};
use crate::text::{has_nul, same_text, texts};
use crate::worker::{is_built_in, members, parse_cmd, stages, stages_of, Cmd, Worker};

verus! {

/// The file descriptor of standard input.
pub const STDIN: i32 = 0;

/// The file descriptor of standard output.
pub const STDOUT: i32 = 1;

/// A command of a pipeline that is about to be started.
#[derive(Debug)]
pub struct Stage {
    name: String,
    args: Vec<String>,
}

/// The texts that a sequence of strings holds.
pub open spec fn strings(v: Seq<String>) -> Seq<Seq<char>> {
    v.map_values(|s: String| s@)
}

impl View for Stage {
    type V = Command;

    closed spec fn view(&self) -> Command {
        Command { name: self.name@, args: strings(self.args@) }
    }
}

/// Something that a new process does before it runs its program.
#[derive(Debug, PartialEq, Eq, Clone, Copy, Structural)]
pub enum ChildStep {
    /// Join a process group; 0 stands for a new one.
    JoinGroup(Pid),
    /// Make `to` another name of the file descriptor `from`.
    Redirect { from: i32, to: i32 },
    /// Close a file descriptor, open or not.
    Close(i32),
    /// Run the program.
    Exec,
}

/// How a process is to be started.
#[derive(Debug)]
pub struct ForkPlan {
    /// The process group that it joins; 0 stands for a new one.
    pub group: Pid,
    /// The program.
    pub filename: String,
    /// The arguments of the program.
    pub args: Vec<String>,
    /// What the new process does, in order.
    pub child: Vec<ChildStep>,
}

/// What a fork plan says.
#[verifier::ext_equal]
pub struct Plan {
    pub group: Pid,
    pub filename: Seq<char>,
    pub args: Seq<Seq<char>>,
    pub child: Seq<ChildStep>,
}

impl View for ForkPlan {
    type V = Plan;

    open spec fn view(&self) -> Plan {
        Plan {
            group: self.group,
            filename: self.filename@,
            args: strings(self.args@),
            child: self.child@,
        }
    }
}

/// What a new process does before it runs its program: it joins its group, takes the ends of the
/// pipe that it was given for its standard input and output, and lets go of the file descriptors
/// 3 to 6.
pub open spec fn child_steps(
    group: Pid,
    input: Option<i32>,
    output: Option<i32>,
) -> Seq<ChildStep> {
    seq![ChildStep::JoinGroup(group)] + (match input {
        Some(fd) => seq![ChildStep::Redirect { from: fd, to: STDIN }],
        None => seq![],
    }) + (match output {
        Some(fd) => seq![ChildStep::Redirect { from: fd, to: STDOUT }],
        None => seq![],
    }) + seq![
        ChildStep::Close(3),
        ChildStep::Close(4),
        ChildStep::Close(5),
        ChildStep::Close(6),
        ChildStep::Exec,
    ]
}

/// The plan for a command in the group `group`.
pub open spec fn plan_of(
    group: Pid,
    command: Command,
    input: Option<i32>,
    output: Option<i32>,
) -> Plan {
    Plan {
        group,
        filename: command.name,
        args: command.args,
        child: child_steps(group, input, output),
    }
}

/// Whether no argument holds the character NUL, or the name of the program does.
pub open spec fn encodable(command: Command) -> bool {
    command.name.contains('\0') || forall|i: int|
        0 <= i < command.args.len() ==> !(#[trigger] command.args[i]).contains('\0')
}

/// Plans the start of a program. A name with the character NUL in it is refused.
pub fn fork_exec(
    pg_id: Pid,
    filename: &str,
    args: &Vec<String>,
    input: Option<i32>,
    output: Option<i32>,
) -> (r: Result<ForkPlan, ShellError>)
    requires
        encodable((Command { name: filename@, args: strings(args@) })),
    ensures
        match r {
            Ok(plan) => {
                &&& !filename@.contains('\0')
                &&& plan@ == plan_of(
                    pg_id,
                    (Command { name: filename@, args: strings(args@) }),
                    input,
                    output,
                )
            },
            Err(e) => filename@.contains('\0') && e == ShellError::NulInName,
        },
{
    if has_nul(filename) {
        return Err(ShellError::NulInName);
    }
    let mut child: Vec<ChildStep> = Vec::new();
    child.push(ChildStep::JoinGroup(pg_id));
    if let Some(fd) = input {
        child.push(ChildStep::Redirect { from: fd, to: STDIN });
    }
    if let Some(fd) = output {
        child.push(ChildStep::Redirect { from: fd, to: STDOUT });
    }
    let ghost before = child@;
    let mut fd: i32 = 3;
    while fd <= 6
        invariant
            3 <= fd <= 7,
            child@ == before + seq![
                ChildStep::Close(3),
                ChildStep::Close(4),
                ChildStep::Close(5),
                ChildStep::Close(6),
            ].take(fd - 3),
        decreases 7 - fd,
    {
        child.push(ChildStep::Close(fd));
        fd = fd + 1;
    }
    child.push(ChildStep::Exec);
    assert(child@ == child_steps(pg_id, input, output));
    let plan = ForkPlan { group: pg_id, filename: filename.to_owned(), args: own_all(args), child };
    Ok(plan)
}

/// The same strings once more.
fn own_all(v: &Vec<String>) -> (r: Vec<String>)
    ensures
        strings(r@) == strings(v@),
{
    let mut r: Vec<String> = Vec::new();
    let mut i: usize = 0;
    while i < v.len()
        invariant
            i <= v@.len(),
            strings(r@) == strings(v@).take(i as int),
        decreases v@.len() - i,
    {
        let ghost before = r@;
        r.push(v[i].clone());
        assert(strings(r@) == strings(before).push(v@[i as int]@));
        assert(strings(v@).take(i + 1) == strings(v@).take(i as int).push(v@[i as int]@));
        i = i + 1;
    }
    assert(strings(v@).take(i as int) == strings(v@));
    r
}

/// Which answer the start of a job waits for.
#[derive(Debug, Clone, Copy)]
pub enum Phase {
    /// The pipe between two commands.
    Pipe,
    /// The first process, with the ends of the pipe where there is one.
    First(Option<(i32, i32)>),
    /// The second process, with the ends of the pipe and the first process.
    Second(i32, i32, Pid),
    /// The terminal, for the group of the job.
    Grant(Pid),
}

/// An answer of the operating system.
#[derive(Debug, PartialEq, Eq, Clone, Copy, Structural)]
pub enum LaunchEvent {
    /// A pipe, with the end to read from and the end to write to.
    Pipe(i32, i32),
    /// A new process.
    Child(Pid),
    /// The terminal belongs to the group of the job.
    Granted,
    /// The step has failed.
    Failed,
}

/// What the operating system is asked for; `P` is what holds a plan.
#[derive(Debug)]
pub enum Request<P> {
    /// Open a pipe.
    Pipe,
    /// Start a process.
    Fork(P),
    /// Make a process group the foreground group of the terminal.
    Grant(Pid),
}

/// What a request says.
pub open spec fn asked(r: Request<ForkPlan>) -> Request<Plan> {
    match r {
        Request::Pipe => Request::Pipe,
        Request::Fork(plan) => Request::Fork(plan@),
        Request::Grant(pg_id) => Request::Grant(pg_id),
    }
}

/// The start of a job that is under way.
#[derive(Debug)]
pub struct Launch {
    job_id: usize,
    line: String,
    stages: Vec<Stage>,
    phase: Phase,
}

/// What the start of a job is about: its number, its command line, its commands, and what it
/// waits for.
#[verifier::ext_equal]
pub struct Start {
    pub job_id: usize,
    pub line: Seq<char>,
    pub stages: Seq<Command>,
    pub phase: Phase,
}

/// What a sequence of stages says.
pub open spec fn stage_texts(v: Seq<Stage>) -> Seq<Command> {
    v.map_values(|s: Stage| s@)
}

impl View for Launch {
    type V = Start;

    closed spec fn view(&self) -> Start {
        Start {
            job_id: self.job_id,
            line: self.line@,
            stages: stage_texts(self.stages@),
            phase: self.phase,
        }
    }
}

/// A start and what it asks for; nothing once it is over.
pub type Next = Option<(Start, Request<Plan>)>;

/// What an answer makes of the table, what is to be done, and how the start goes on.
pub type Advance = (Table, Acts, Next);

/// The actions that close the ends of a pipe.
pub open spec fn closing(pipe: Option<(i32, i32)>) -> Acts {
    match pipe {
        Some((input, output)) => seq![Action::Close(input), Action::Close(output)],
        None => seq![],
    }
}

impl Table {
    /// The start is given up: the pipe is closed, and the shell may read on.
    pub open spec fn give_up(self, pipe: Option<(i32, i32)>) -> Advance {
        (self, closing(pipe) + self.go_on(), None)
    }

    /// How the start of a pipeline begins, or why it does not.
    pub open spec fn begin(self, line: Seq<char>, cmds: Seq<Command>) -> Result<
        (Start, Request<Plan>),
        ShellError,
    > {
        match self.next_job_id() {
            None => Err(ShellError::TooManyJobs),
            Some(job_id) => if cmds.len() > 2 {
                Err(ShellError::PipelineTooLong)
            } else if cmds.len() == 2 {
                Ok((Start { job_id, line, stages: cmds, phase: Phase::Pipe }, Request::Pipe))
            } else if cmds[0].name.contains('\0') {
                Err(ShellError::NulInName)
            } else {
                Ok(
                    (
                        Start { job_id, line, stages: cmds, phase: Phase::First(None) },
                        Request::Fork(plan_of(0, cmds[0], None, None)),
                    ),
                )
            },
        }
    }

    /// The job of `start` is there, in the foreground, and the terminal is asked for.
    pub open spec fn started(
        self,
        start: Start,
        pg_id: Pid,
        second: Option<Pid>,
        pipe: Option<(i32, i32)>,
    ) -> Advance {
        (
            self.with_job(start.job_id, pg_id, members(pg_id, second), start.line),
            closing(pipe),
            Some((Start { phase: Phase::Grant(pg_id), ..start }, Request::Grant(pg_id))),
        )
    }

    /// What an answer makes of a start.
    pub open spec fn advance(self, start: Start, event: LaunchEvent) -> Advance {
        match (start.phase, event) {
            (Phase::Pipe, LaunchEvent::Pipe(input, output)) => {
                let pipe = Some((input, output));
                if start.stages[0].name.contains('\0') {
                    self.give_up(pipe)
                } else {
                    (
                        self,
                        seq![],
                        Some(
                            (
                                Start { phase: Phase::First(pipe), ..start },
                                Request::Fork(plan_of(0, start.stages[0], None, Some(output))),
                            ),
                        ),
                    )
                }
            },
            (Phase::First(Some((input, output))), LaunchEvent::Child(pid)) => if start.stages[1]
                .name.contains('\0') {
                self.give_up(Some((input, output)))
            } else {
                (
                    self,
                    seq![],
                    Some(
                        (
                            Start { phase: Phase::Second(input, output, pid), ..start },
                            Request::Fork(plan_of(pid, start.stages[1], Some(input), None)),
                        ),
                    ),
                )
            },
            (Phase::First(None), LaunchEvent::Child(pid)) => self.started(start, pid, None, None),
            (Phase::Second(input, output, pg_id), LaunchEvent::Child(pid)) => self.started(
                start,
                pg_id,
                Some(pid),
                Some((input, output)),
            ),
            (Phase::Grant(_), LaunchEvent::Granted) => (self, seq![], None),
            (Phase::First(pipe), _) => self.give_up(pipe),
            (Phase::Second(input, output, _), _) => self.give_up(Some((input, output))),
            (_, _) => self.give_up(None),
        }
    }

    /// Whether `event` is an answer that the start can take: the one it waits for, or a failure.
    /// The processes of a new job are new, its number is free, and the arguments of a program
    /// that is to be started do not hold the character NUL.
    pub open spec fn accepts(self, start: Start, event: LaunchEvent) -> bool {
        match (start.phase, event) {
            (_, LaunchEvent::Failed) => true,
            (Phase::Pipe, LaunchEvent::Pipe(..)) => encodable(start.stages[0]),
            (Phase::First(Some(_)), LaunchEvent::Child(_)) => encodable(start.stages[1]),
            (Phase::First(None), LaunchEvent::Child(pid)) => {
                &&& !self.jobs.contains_key(start.job_id)
                &&& !self.procs.contains_key(pid)
            },
            (Phase::Second(_, _, pg_id), LaunchEvent::Child(pid)) => {
                &&& !self.jobs.contains_key(start.job_id)
                &&& !self.procs.contains_key(pg_id)
                &&& !self.procs.contains_key(pid)
            },
            (Phase::Grant(_), LaunchEvent::Granted) => true,
            (_, _) => false,
        }
    }
}

impl Start {
    /// A job number is not 0, and there are two commands exactly where there is a pipe.
    pub open spec fn wf(self) -> bool {
        &&& self.job_id != 0
        &&& match self.phase {
            Phase::Pipe => self.stages.len() == 2,
            Phase::First(Some(_)) => self.stages.len() == 2,
            Phase::First(None) => self.stages.len() == 1,
            Phase::Second(..) => self.stages.len() == 2,
            Phase::Grant(_) => 1 <= self.stages.len() <= 2,
        }
    }
}

/// What an optional start and its request say.
pub open spec fn next_of(r: Option<(Launch, Request<ForkPlan>)>) -> Next {
    match r {
        Some((launch, request)) => Some((launch@, asked(request))),
        None => None,
    }
}

/// The command `name` with its arguments, for keeps.
fn own_stage(name: &str, args: &Vec<&str>) -> (r: Stage)
    ensures
        r@ == (Command { name: name@, args: texts(args@) }),
{
    let mut owned: Vec<String> = Vec::new();
    let mut i: usize = 0;
    while i < args.len()
        invariant
            i <= args@.len(),
            strings(owned@) == texts(args@).take(i as int),
        decreases args@.len() - i,
    {
        let ghost before = owned@;
        owned.push(args[i].to_owned());
        assert(strings(owned@) == strings(before).push(args@[i as int]@));
        assert(texts(args@).take(i + 1) == texts(args@).take(i as int).push(args@[i as int]@));
        i = i + 1;
    }
    assert(texts(args@).take(i as int) == texts(args@));
    Stage { name: name.to_owned(), args: owned }
}

/// The commands of a pipeline, for keeps.
fn own_stages(cmd: &Cmd<'_>) -> (r: Vec<Stage>)
    ensures
        stage_texts(r@) == stages(cmd@),
{
    let mut r: Vec<Stage> = Vec::new();
    let mut i: usize = 0;
    while i < cmd.len()
        invariant
            i <= cmd@.len(),
            stage_texts(r@) == stages(cmd@).take(i as int),
        decreases cmd@.len() - i,
    {
        let ghost before = r@;
        let stage = own_stage(cmd[i].0, &cmd[i].1);
        assert(stage@ == stages(cmd@)[i as int]);
        r.push(stage);
        assert(stage_texts(r@) == stage_texts(before).push(stage@));
        assert(stages(cmd@).take(i + 1) == stages(cmd@).take(i as int).push(stage@));
        i = i + 1;
    }
    assert(stages(cmd@).take(i as int) == stages(cmd@));
    r
}

impl Stage {
    /// Plans the start of the command.
    fn plan(&self, group: Pid, input: Option<i32>, output: Option<i32>) -> (r: Result<
        ForkPlan,
        ShellError,
    >)
        requires
            encodable(self@),
        ensures
            match r {
                Ok(plan) => !self@.name.contains('\0') && plan@ == plan_of(
                    group,
                    self@,
                    input,
                    output,
                ),
                Err(e) => self@.name.contains('\0') && e == ShellError::NulInName,
            },
    {
        fork_exec(group, self.name.as_str(), &self.args, input, output)
    }

    /// Whether no argument holds the character NUL, or the name does.
    fn is_encodable(&self) -> (r: bool)
        ensures
            r == encodable(self@),
    {
        if has_nul(self.name.as_str()) {
            return true;
        }
        let mut i: usize = 0;
        while i < self.args.len()
            invariant
                i <= self.args@.len(),
                !self@.name.contains('\0'),
                forall|k: int| 0 <= k < i ==> !(#[trigger] self@.args[k]).contains('\0'),
            decreases self.args@.len() - i,
        {
            if has_nul(self.args[i].as_str()) {
                assert(self@.args[i as int] == self.args@[i as int]@);
                return false;
            }
            i = i + 1;
        }
        true
    }
}

impl Worker {
    /// Begins the start of a pipeline.
    pub fn spawn_child(&self, line: &str, cmd: &Cmd<'_>) -> (r: Result<
        (Launch, Request<ForkPlan>),
        ShellError,
    >)
        requires
            self@.wf(),
            cmd@.len() != 0,
            cmd@.len() == 1 && self@.next_job_id() is Some ==> encodable(stages(cmd@)[0]),
        ensures
            match (r, self@.begin(line@, stages(cmd@))) {
                (Ok((launch, request)), Ok((start, asks))) => {
                    launch@ == start && asked(request) == asks && start.wf()
                },
                (Err(e), Err(why)) => e == why,
                _ => false,
            },
    {
        let job_id: usize = match self.get_next_job_id() {
            Some(id) => id,
            None => {
                return Err(ShellError::TooManyJobs);
            },
        };
        if cmd.len() > 2 {
            return Err(ShellError::PipelineTooLong);
        }
        let owned = own_stages(cmd);
        assert(stage_texts(owned@).len() == owned@.len());
        proof {
            crate::table::lemma_first_free(self@.jobs.dom(), 1);
        }
        if cmd.len() == 2 {
            let launch = Launch {
                job_id,
                line: line.to_owned(),
                stages: owned,
                phase: Phase::Pipe,
            };
            Ok((launch, Request::Pipe))
        } else {
            assert(stage_texts(owned@)[0] == owned@[0]@);
            match owned[0].plan(0, None, None) {
                Ok(plan) => {
                    let launch = Launch {
                        job_id,
                        line: line.to_owned(),
                        stages: owned,
                        phase: Phase::First(None),
                    };
                    Ok((launch, Request::Fork(plan)))
                },
                Err(e) => Err(e),
            }
        }
    }

    /// Whether `event` is an answer that the start can take.
    pub fn accepts(&self, launch: &Launch, event: &LaunchEvent) -> (r: bool)
        requires
            launch@.wf(),
        ensures
            r == self@.accepts(launch@, *event),
    {
        assert(stage_texts(launch.stages@).len() == launch.stages@.len());
        match (launch.phase, *event) {
            (_, LaunchEvent::Failed) => true,
            (Phase::Pipe, LaunchEvent::Pipe(_, _)) => {
                assert(launch@.stages[0] == launch.stages@[0]@);
                launch.stages[0].is_encodable()
            },
            (Phase::First(Some(_)), LaunchEvent::Child(_)) => {
                assert(launch@.stages[1] == launch.stages@[1]@);
                launch.stages[1].is_encodable()
            },
            (Phase::First(None), LaunchEvent::Child(pid)) => {
                !self.has_job(launch.job_id) && !self.knows_pid(pid)
            },
            (Phase::Second(_, _, pg_id), LaunchEvent::Child(pid)) => {
                !self.has_job(launch.job_id) && !self.knows_pid(pg_id) && !self.knows_pid(pid)
            },
            (Phase::Grant(_), LaunchEvent::Granted) => true,
            (_, _) => false,
        }
    }

    /// Gives the start up: closes the pipe and lets the shell read on.
    fn give_up(&self, pipe: Option<(i32, i32)>, out: &mut Vec<Action<String>>)
        ensures
            actions(final(out)@) == actions(old(out)@) + self@.give_up(pipe).1,
    {
        close_pipe(pipe, out);
        let ghost middle = actions(out@);
        out.push(Action::Send(ShellMsg::Continue(self.exit_code())));
        assert(actions(out@) == middle + self@.go_on());
    }

    /// Takes an answer of the operating system to what the start of a job has asked for.
    pub fn spawn_step(
        &mut self,
        launch: Launch,
        event: LaunchEvent,
        out: &mut Vec<Action<String>>,
    ) -> (r: Option<(Launch, Request<ForkPlan>)>)
        requires
            old(self)@.wf(),
            launch@.wf(),
            old(self)@.accepts(launch@, event),
        ensures
            final(self)@ == old(self)@.advance(launch@, event).0,
            actions(final(out)@) == actions(old(out)@) + old(self)@.advance(launch@, event).1,
            next_of(r) == old(self)@.advance(launch@, event).2,
            final(self)@.wf(),
            r matches Some((next, _)) ==> next@.wf(),
    {
        let Launch { job_id, line, stages: owned, phase } = launch;
        assert(launch@.stages == stage_texts(owned@));
        assert(stage_texts(owned@).len() == owned@.len());
        match (phase, event) {
            (Phase::Pipe, LaunchEvent::Pipe(input, output)) => {
                assert(launch@.stages[0] == owned@[0]@);
                match owned[0].plan(0, None, Some(output)) {
                    Ok(plan) => {
                        let next = Launch {
                            job_id,
                            line,
                            stages: owned,
                            phase: Phase::First(Some((input, output))),
                        };
                        Some((next, Request::Fork(plan)))
                    },
                    Err(_) => {
                        self.give_up(Some((input, output)), out);
                        None
                    },
                }
            },
            (Phase::First(Some((input, output))), LaunchEvent::Child(pid)) => {
                assert(launch@.stages[1] == owned@[1]@);
                match owned[1].plan(pid, Some(input), None) {
                    Ok(plan) => {
                        let next = Launch {
                            job_id,
                            line,
                            stages: owned,
                            phase: Phase::Second(input, output, pid),
                        };
                        Some((next, Request::Fork(plan)))
                    },
                    Err(_) => {
                        self.give_up(Some((input, output)), out);
                        None
                    },
                }
            },
            (Phase::First(None), LaunchEvent::Child(pid)) => {
                self.register(job_id, pid, None, line.as_str());
                let next = Launch { job_id, line, stages: owned, phase: Phase::Grant(pid) };
                Some((next, Request::Grant(pid)))
            },
            (Phase::Second(input, output, pg_id), LaunchEvent::Child(pid)) => {
                close_pipe(Some((input, output)), out);
                self.register(job_id, pg_id, Some(pid), line.as_str());
                let next = Launch { job_id, line, stages: owned, phase: Phase::Grant(pg_id) };
                Some((next, Request::Grant(pg_id)))
            },
            (Phase::Grant(_), LaunchEvent::Granted) => None,
            (Phase::First(pipe), _) => {
                self.give_up(pipe, out);
                None
            },
            (Phase::Second(input, output, _), _) => {
                self.give_up(Some((input, output)), out);
                None
            },
            (_, _) => {
                self.give_up(None, out);
                None
            },
        }
    }

    /// Whether a command line is one that the worker can run.
    pub fn can_run(&self, line: &str) -> (r: bool)
        ensures
            r == self@.can_run(stages_of(line@)),
    {
        match parse_cmd(line) {
            Ok(cmd) => {
                assert(stages(cmd@).len() == cmd@.len());
                if cmd.len() == 0 {
                    false
                } else if cmd.len() == 1 && self.get_next_job_id().is_some() {
                    let stage = own_stage(cmd[0].0, &cmd[0].1);
                    assert(stage@ == stages(cmd@)[0]);
                    stage.is_encodable() || names_built_in(cmd[0].0)
                } else {
                    true
                }
            },
            Err(_) => true,
        }
    }

    /// Runs a command line: a command of the shell itself at once, anything else by a start that
    /// is begun, or answered where it cannot be.
    pub fn run_cmd(&mut self, line: &str, out: &mut Vec<Action<String>>) -> (r: Option<
        (Launch, Request<ForkPlan>),
    >)
        requires
            old(self)@.wf(),
            old(self)@.can_run(stages_of(line@)),
        ensures
            final(self)@ == old(self)@.commanded(line@).0,
            actions(final(out)@) == actions(old(out)@) + old(self)@.commanded(line@).1,
            next_of(r) == old(self)@.commanded(line@).2,
            final(self)@.wf(),
            r matches Some((launch, _)) ==> launch@.wf(),
    {
        match parse_cmd(line) {
            Ok(cmd) => {
                assert(stages(cmd@).len() == cmd@.len());
                if self.built_in_cmd(&cmd, out) {
                    return None;
                }
                match self.spawn_child(line, &cmd) {
                    Ok(begun) => Some(begun),
                    Err(_) => {
                        self.give_up(None, out);
                        None
                    },
                }
            },
            Err(_) => {
                self.give_up(None, out);
                None
            },
        }
    }

    /// Takes a message: a command line is run, a signal calls for a look at the children.
    pub fn handle(&mut self, msg: WorkerMsg, out: &mut Vec<Action<String>>) -> (r: Task)
        requires
            old(self)@.wf(),
            msg matches WorkerMsg::Cmd(line) ==> old(self)@.can_run(stages_of(line@)),
        ensures
            final(self)@.wf(),
            match msg {
                WorkerMsg::Cmd(line) => {
                    &&& final(self)@ == old(self)@.commanded(line@).0
                    &&& actions(final(out)@) == actions(old(out)@) + old(self)@.commanded(
                        line@,
                    ).1
                    &&& match r {
                        Task::Start(launch, request) => launch@.wf() && old(self)@.commanded(
                            line@,
                        ).2 == Some((launch@, asked(request))),
                        Task::Done => old(self)@.commanded(line@).2 is None,
                        Task::Reap => false,
                    }
                },
                WorkerMsg::SignalMsg(_) => {
                    final(self)@ == old(self)@ && final(out)@ == old(out)@ && r is Reap
                },
            },
    {
        match msg {
            WorkerMsg::Cmd(line) => match self.run_cmd(line.as_str(), out) {
                Some((launch, request)) => Task::Start(launch, request),
                None => Task::Done,
            },
            WorkerMsg::SignalMsg(_) => Task::Reap,
        }
    }
}

/// What is left to do after a message.
#[derive(Debug)]
pub enum Task {
    /// Nothing.
    Done,
    /// Wait for children until there is nothing more to hear of them.
    Reap,
    /// Ask the operating system, and take its answers.
    Start(Launch, Request<ForkPlan>),
}

/// Closes the ends of a pipe.
fn close_pipe(pipe: Option<(i32, i32)>, out: &mut Vec<Action<String>>)
    ensures
        actions(final(out)@) == actions(old(out)@) + closing(pipe),
{
    if let Some((input, output)) = pipe {
        out.push(Action::Close(input));
        out.push(Action::Close(output));
    }
    assert(actions(out@) == actions(old(out)@) + closing(pipe));
}

/// Whether `name` is that of a command of the shell itself.
fn names_built_in(name: &str) -> (r: bool)
    ensures
        r == (name@ == "exit"@ || name@ == "cd"@ || name@ == "jobs"@ || name@ == "fg"@),
{
    same_text(name, "exit") || same_text(name, "cd") || same_text(name, "jobs") || same_text(
        name,
        "fg",
    )
}

impl Table {
    /// Whether a pipeline is one that the worker can run: there is a command, and where it is to
    /// be started at once its arguments do not hold the character NUL.
    pub open spec fn can_run(self, cmds: Seq<Command>) -> bool {
        &&& cmds.len() != 0
        &&& cmds.len() == 1 && self.next_job_id() is Some && !is_built_in(cmds) ==> encodable(
            cmds[0],
        )
    }

    /// What a command line makes of the table.
    pub open spec fn commanded(self, line: Seq<char>) -> Advance {
        let cmds = stages_of(line);
        if is_built_in(cmds) {
            let step = self.built_in(cmds[0].name, cmds[0].args)->0;
            (step.0, step.1, None)
        } else {
            match self.begin(line, cmds) {
                Ok(next) => (self, seq![], Some(next)),
                Err(_) => self.give_up(None),
            }
        }
    }
}

} // verus!
