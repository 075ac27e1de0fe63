//! What holds of the shell as a whole.

use vstd::prelude::*;
use crate::launch::{child_steps, ChildStep, LaunchEvent, Phase, Request, Start, STDIN, STDOUT};
use crate::message::{Action, Notice, ShellMsg};
use crate::os::{signal_text, SysError, WaitStatus};
use crate::parser::{command_of, commands, commands_of, Cmd, Command, PIPE};
use crate::process::{Pid, ProcInfo, ProcState};
use crate::shell::{turn_of, Input, Turn};
use crate::table::{ascending, lemma_first_free, listing, Acts, Step, Table};
use crate::text::{
    fields_of, is_blank, is_white_space, law_blank_has_no_words, law_fields_count,
    law_fields_hold_no_separator, law_separator_parts_fields,
    law_text_without_separator_is_one_field, law_trimmed_ends, law_words_come_from_the_text,
    law_words_hold_no_white_space, trimmed, words_of,
};
use crate::worker::{has_word, is_built_in, members, stages, stages_of};

verus! {

// Command lines.

/// A line has one command more than it has pipe characters.
pub proof fn law_one_command_per_part(line: Seq<char>)
    ensures
        commands_of(line).len() == 1 + line.filter(|c: char| c == PIPE).len(),
{
    law_fields_count(line, PIPE);
}

proof fn lemma_named(part: Seq<char>)
    ensures
        command_of(part).name.len() > 0 <==> has_word(part),
{
    law_words_hold_no_white_space(part);
}

proof fn lemma_filter_named(parts: Seq<Seq<char>>)
    ensures
        parts.filter(|part: Seq<char>| has_word(part)).map_values(
            |part: Seq<char>| command_of(part),
        ) == parts.map_values(|part: Seq<char>| command_of(part)).filter(
            |c: Command| c.name.len() > 0,
        ),
    decreases parts.len(),
{
    let keep = |part: Seq<char>| has_word(part);
    let read = |part: Seq<char>| command_of(part);
    let named = |c: Command| c.name.len() > 0;
    reveal(Seq::filter);
    if parts.len() > 0 {
        let front = parts.drop_last();
        let part = parts.last();
        lemma_filter_named(front);
        lemma_named(part);
        assert(parts.map_values(read) == front.map_values(read).push(read(part)));
        assert(parts.map_values(read).drop_last() == front.map_values(read));
        assert(parts == front.push(part));
        if keep(part) {
            assert(front.filter(keep).push(part).map_values(read) == front.filter(keep).map_values(
                read,
            ).push(read(part)));
        }
    } else {
        assert(parts.filter(keep).map_values(read) == parts.map_values(read).filter(named));
    }
}

/// The commands that the worker runs are those of the line that have a name.
pub proof fn law_stages_are_the_named_commands(line: Seq<char>)
    ensures
        stages_of(line) == commands_of(line).filter(|c: Command| c.name.len() > 0),
{
    lemma_filter_named(fields_of(line, PIPE));
}

/// A line without a pipe character that is not blank is one command, made of the words of the
/// line.
pub proof fn law_plain_line(line: Seq<char>)
    requires
        !line.contains(PIPE),
        !is_blank(line),
    ensures
        stages_of(line) == seq![command_of(line)],
        command_of(line) == (Command { name: words_of(line)[0], args: words_of(line).drop_first() }),
{
    law_fields_count(line, PIPE);
    let is_pipe = |c: char| c == PIPE;
    assert forall|i: int| 0 <= i < line.len() implies !is_pipe(#[trigger] line[i]) by {
        assert(line.contains(line[i]));
    }
    line.lemma_all_neg_filter_empty(is_pipe);
    crate::text::law_fields_join(line, PIPE);
    assert(fields_of(line, PIPE) == seq![line]);
    law_blank_has_no_words(line);
    let keep = |part: Seq<char>| has_word(part);
    assert(seq![line].filter(keep) == seq![line]) by {
        reveal(Seq::filter);
        assert(seq![line].drop_last() == Seq::<Seq<char>>::empty());
        assert(Seq::<Seq<char>>::empty().filter(keep) == Seq::<Seq<char>>::empty());
    }
}

/// A pipe character parts commands: the commands of a line are those before it and those after
/// it.
pub proof fn law_pipe_parts_commands(a: Seq<char>, b: Seq<char>)
    ensures
        commands_of(a + seq!['|'] + b) == commands_of(a) + commands_of(b),
        stages_of(a + seq!['|'] + b) == stages_of(a) + stages_of(b),
{
    law_separator_parts_fields(a, PIPE, b);
    let keep = |part: Seq<char>| has_word(part);
    let left = fields_of(a, PIPE);
    let right = fields_of(b, PIPE);
    Seq::filter_distributes_over_add(left, right, keep);
    assert(commands_of(a + seq!['|'] + b) =~= commands_of(a) + commands_of(b));
    assert(stages_of(a + seq!['|'] + b) =~= stages_of(a) + stages_of(b));
}

/// Without a pipe character a line is one command, and its name and its arguments are the words
/// of the line, all of them and in order. Where there are no words, the name is empty, there are
/// no arguments, and there is nothing to run.
pub proof fn law_command_is_the_words(line: Seq<char>)
    requires
        !line.contains('|'),
    ensures
        commands_of(line).len() == 1,
        words_of(line).len() > 0 ==> seq![commands_of(line)[0].name] + commands_of(line)[0].args
            == words_of(line) && stages_of(line) == commands_of(line),
        words_of(line).len() == 0 ==> commands_of(line)[0].name.len() == 0 && commands_of(
            line,
        )[0].args.len() == 0 && stages_of(line).len() == 0,
{
    law_text_without_separator_is_one_field(line, PIPE);
    let parts = fields_of(line, PIPE);
    let keep = |part: Seq<char>| has_word(part);
    assert(parts == seq![line]);
    assert(parts.filter(keep) == if has_word(line) {
        parts
    } else {
        seq![]
    }) by {
        reveal(Seq::filter);
        assert(parts.drop_last() == Seq::<Seq<char>>::empty());
        assert(Seq::<Seq<char>>::empty().filter(keep) == Seq::<Seq<char>>::empty());
    }
    let c = commands_of(line)[0];
    assert(c == command_of(line));
    if words_of(line).len() > 0 {
        assert(seq![c.name] + c.args =~= words_of(line));
        assert(stages_of(line) =~= commands_of(line));
    }
}

/// What is said of the commands of a line is said of each of them: its name, and each of its
/// arguments.
pub proof fn law_commands_say_what_they_hold(
    v: Seq<Cmd<'_>>,
    w: Seq<(&str, Vec<&str>)>,
)
    ensures
        commands(v).len() == v.len(),
        forall|i: int|
            0 <= i < v.len() ==> (#[trigger] commands(v)[i]).name == v[i].name@ && commands(
                v,
            )[i].args == v[i].args@.map_values(|s: &str| s@),
        stages(w).len() == w.len(),
        forall|i: int|
            0 <= i < w.len() ==> (#[trigger] stages(w)[i]).name == w[i].0@ && stages(w)[i].args
                == w[i].1@.map_values(|s: &str| s@),
{
}

/// The name and the arguments of a command are words: they are not empty, and they hold neither
/// white space nor the pipe character.
pub proof fn law_commands_are_made_of_words(line: Seq<char>, i: int)
    requires
        0 <= i < stages_of(line).len(),
    ensures
        is_word(stages_of(line)[i].name),
        forall|k: int|
            0 <= k < stages_of(line)[i].args.len() ==> is_word(
                #[trigger] stages_of(line)[i].args[k],
            ),
{
    let parts = fields_of(line, PIPE);
    let keep = |part: Seq<char>| has_word(part);
    let part = parts.filter(keep)[i];
    parts.lemma_filter_pred(keep, i);
    parts.lemma_filter_contains_rev(keep, part);
    law_fields_hold_no_separator(line, PIPE);
    law_words_come_from_the_text(part, PIPE);
    law_words_hold_no_white_space(part);
    let w = words_of(part);
    assert forall|k: int| 0 <= k < w.len() implies is_word(#[trigger] w[k]) by {
        assert forall|j: int| 0 <= j < w[k].len() implies !is_white_space(#[trigger] w[k][j])
            && w[k][j] != PIPE by {
            assert(w[k].contains(w[k][j]));
        }
    }
    assert(stages_of(line)[i] == command_of(part));
    assert forall|k: int| 0 <= k < stages_of(line)[i].args.len() implies is_word(
        #[trigger] stages_of(line)[i].args[k],
    ) by {
        assert(stages_of(line)[i].args[k] == w[k + 1]);
    }
}

/// Whether `s` is a word of a command: not empty, without white space and pipe characters.
pub open spec fn is_word(s: Seq<char>) -> bool {
    &&& s.len() > 0
    &&& forall|j: int| 0 <= j < s.len() ==> !is_white_space(#[trigger] s[j]) && s[j] != PIPE
}

// The table of jobs.

/// No two jobs share a process group.
pub proof fn law_one_group_per_job(t: Table, a: usize, b: usize)
    requires
        t.wf(),
        t.jobs.contains_key(a),
        t.jobs.contains_key(b),
        t.jobs[a].0 == t.jobs[b].0,
    ensures
        a == b,
{
}

/// No process is in two groups.
pub proof fn law_one_group_per_process(t: Table, a: Pid, b: Pid, pid: Pid)
    requires
        t.wf(),
        t.groups.contains_key(a),
        t.groups.contains_key(b),
        t.groups[a].1.contains(pid),
        t.groups[b].1.contains(pid),
    ensures
        a == b,
{
}

/// A number is the one for a new job exactly where it is free and all smaller ones from 1 on are
/// taken; there is none exactly where all from 1 on are taken.
pub proof fn law_number_for_a_new_job(t: Table, id: usize)
    ensures
        t.next_job_id() == Some(id) <==> id >= 1 && !t.jobs.contains_key(id) && forall|k: usize|
            1 <= k < id ==> #[trigger] t.jobs.contains_key(k),
        t.next_job_id() is None <==> forall|k: usize| k >= 1 ==> #[trigger] t.jobs.contains_key(k),
{
    lemma_first_free(t.jobs.dom(), 1);
    assert(forall|k: usize| t.jobs.dom().contains(k) == #[trigger] t.jobs.contains_key(k));
    match t.next_job_id() {
        Some(found) => {
            assert(!t.jobs.contains_key(found));
            assert(forall|k: usize| 1 <= k < found ==> #[trigger] t.jobs.contains_key(k));
            if found < id {
                assert(!t.jobs.contains_key(found));
            }
        },
        None => {
            assert(forall|k: usize| k >= 1 ==> #[trigger] t.jobs.contains_key(k));
        },
    }
}

/// The number of a new job is the smallest one from 1 on that no job has.
pub proof fn law_smallest_free_number(t: Table, id: usize)
    requires
        t.next_job_id() == Some(id),
    ensures
        id >= 1,
        !t.jobs.contains_key(id),
        forall|k: usize| 1 <= k < id ==> #[trigger] t.jobs.contains_key(k),
{
    lemma_first_free(t.jobs.dom(), 1);
}

/// The list of jobs names each job once, in ascending order of the numbers.
pub proof fn law_listing_is_complete_and_sorted(jobs: Map<usize, (Pid, Seq<char>)>)
    ensures
        forall|i: int, j: int|
            0 <= i < j < listing(jobs).len() ==> (#[trigger] listing(jobs)[i])->job < (
            #[trigger] listing(jobs)[j])->job,
        forall|k: usize|
            jobs.contains_key(k) <==> listing(jobs).contains(
                #[trigger] line_of(jobs, k),
            ),
        forall|i: int|
            0 <= i < listing(jobs).len() ==> ((#[trigger] listing(jobs)[i]) matches Action::List {
                job,
                pg_id,
                command,
            } && jobs.contains_key(job) && jobs[job] == (pg_id, command)),
{
    let ids = ascending(jobs.dom(), usize::MAX as nat + 1);
    lemma_ascending_sorted(jobs.dom(), usize::MAX as nat + 1);
    assert forall|i: int| 0 <= i < listing(jobs).len() implies ((#[trigger] listing(
        jobs,
    )[i]) matches Action::List { job, pg_id, command } && jobs.contains_key(job) && jobs[job] == (
        pg_id,
        command,
    )) by {
        assert(ids.contains(ids[i]));
    }
    assert forall|k: usize| jobs.contains_key(k) <==> listing(jobs).contains(
        #[trigger] line_of(jobs, k),
    ) by {
        if jobs.contains_key(k) {
            assert(ids.contains(k));
            let i = choose|i: int| 0 <= i < ids.len() && ids[i] == k;
            assert(listing(jobs)[i] == line_of(jobs, k));
        }
        if listing(jobs).contains(line_of(jobs, k)) {
            let i = choose|i: int| 0 <= i < ids.len() && listing(jobs)[i] == line_of(jobs, k);
            assert(ids[i] == k);
            assert(ids.contains(k));
        }
    }
}

/// The line of the job `k` in the list of jobs.
pub open spec fn line_of(jobs: Map<usize, (Pid, Seq<char>)>, k: usize) -> Action<Seq<char>> {
    Action::List { job: k, pg_id: jobs[k].0, command: jobs[k].1 }
}

proof fn lemma_ascending_sorted(ids: Set<usize>, n: nat)
    requires
        n <= usize::MAX + 1,
    ensures
        forall|i: int, j: int|
            0 <= i < j < ascending(ids, n).len() ==> ascending(ids, n)[i] < ascending(ids, n)[j],
        forall|k: usize| #[trigger] ascending(ids, n).contains(k) <==> ids.contains(k) && k < n,
    decreases n,
{
    if n > 0 {
        let s = ascending(ids, (n - 1) as nat);
        let top = (n - 1) as usize;
        lemma_ascending_sorted(ids, (n - 1) as nat);
        if ids.contains(top) {
            assert forall|i: int, j: int| 0 <= i < j < s.push(top).len() implies s.push(top)[i]
                < s.push(top)[j] by {
                if j == s.len() {
                    assert(s.contains(s[i]));
                }
            }
            assert forall|k: usize| #[trigger] s.push(top).contains(k) <==> ids.contains(k) && k
                < n by {
                if s.push(top).contains(k) {
                    let i = choose|i: int| 0 <= i < s.push(top).len() && s.push(top)[i] == k;
                    if i < s.len() {
                        assert(s.contains(k));
                    }
                }
                if ids.contains(k) && k < n {
                    if k == top {
                        assert(s.push(top)[s.len() as int] == k);
                    } else {
                        assert(s.contains(k));
                        let i = choose|i: int| 0 <= i < s.len() && s[i] == k;
                        assert(s.push(top)[i] == k);
                    }
                }
            }
        }
    }
}

// Answers.

/// The answers among the actions, in order.
pub open spec fn answers(acts: Acts) -> Seq<ShellMsg>
    decreases acts.len(),
{
    if acts.len() == 0 {
        seq![]
    } else {
        match acts.last() {
            Action::Send(msg) => answers(acts.drop_last()).push(msg),
            _ => answers(acts.drop_last()),
        }
    }
}

/// The answer that an action is, if it is one.
pub open spec fn answer_of(a: Action<Seq<char>>) -> Seq<ShellMsg> {
    match a {
        Action::Send(msg) => seq![msg],
        _ => seq![],
    }
}

broadcast proof fn lemma_answers_of_few(acts: Acts)
    requires
        acts.len() <= 3,
    ensures
        #![trigger answers(acts)]
        acts.len() == 0 ==> answers(acts) == Seq::<ShellMsg>::empty(),
        acts.len() == 1 ==> answers(acts) == answer_of(acts[0]),
        acts.len() == 2 ==> answers(acts) == answer_of(acts[0]) + answer_of(acts[1]),
        acts.len() == 3 ==> answers(acts) == answer_of(acts[0]) + answer_of(acts[1]) + answer_of(
            acts[2],
        ),
    decreases acts.len(),
{
    if acts.len() > 0 {
        lemma_answers_of_few(acts.drop_last());
        assert(answers(acts) == answers(acts.drop_last()) + answer_of(acts.last()));
    }
}

broadcast proof fn lemma_answers_add(a: Acts, b: Acts)
    ensures
        #[trigger] answers(a + b) == answers(a) + answers(b),
    decreases b.len(),
{
    if b.len() == 0 {
        assert(a + b == a);
        assert(answers(b) == Seq::<ShellMsg>::empty());
    } else {
        assert((a + b).drop_last() == a + b.drop_last());
        lemma_answers_add(a, b.drop_last());
    }
}

proof fn lemma_answers_of_listing(acts: Acts)
    requires
        forall|i: int| 0 <= i < acts.len() ==> (#[trigger] acts[i]) is List,
    ensures
        answers(acts) == Seq::<ShellMsg>::empty(),
    decreases acts.len(),
{
    if acts.len() > 0 {
        lemma_answers_of_listing(acts.drop_last());
    }
}

/// Whether `args` names a job to bring to the foreground.
pub open spec fn names_job(t: Table, args: Seq<Seq<char>>) -> bool {
    &&& args.len() >= 2
    &&& crate::number::unsigned_number(args[1]) matches Some(n) && n <= usize::MAX
        && t.jobs.contains_key(n as usize)
}

/// A command of the shell itself is answered once and at once, and leaves the foreground as it
/// is. The one exception is a `fg` that finds its job: it puts the job into the foreground, and
/// the answer comes from that job.
pub proof fn law_built_in_is_answered_once(t: Table, name: Seq<char>, args: Seq<Seq<char>>)
    requires
        t.wf(),
        t.built_in(name, args) is Some,
    ensures
        t.built_in(name, args) matches Some((after, acts)) && if name == "fg"@ && names_job(
            t,
            args,
        ) {
            answers(acts).len() == 0 && after.fg is Some
        } else {
            answers(acts).len() == 1 && after.fg == t.fg
        },
{
    broadcast use {lemma_answers_of_few, lemma_answers_add};

    reveal_strlit("exit");
    reveal_strlit("cd");
    reveal_strlit("jobs");
    reveal_strlit("fg");
    assert("exit"@.len() == 4 && "jobs"@.len() == 4 && "fg"@.len() == 2);
    assert("cd"@[0] == 'c' && "fg"@[0] == 'f');
    lemma_answers_of_listing(listing(t.jobs));
}

/// The shell is let go only by the command `exit`, and only while there are no jobs.
pub proof fn law_quit_only_without_jobs(t: Table, name: Seq<char>, args: Seq<Seq<char>>)
    requires
        t.built_in(name, args) is Some,
    ensures
        t.built_in(name, args) matches Some((_, acts)) && forall|i: int|
            0 <= i < answers(acts).len() && (#[trigger] answers(acts)[i]) is Quit ==> name
                == "exit"@ && t.jobs.is_empty(),
{
    broadcast use {lemma_answers_of_few, lemma_answers_add};

    lemma_answers_of_listing(listing(t.jobs));
}

/// While there are jobs, `exit` is refused: the exit code becomes 1, and the shell reads on.
pub proof fn law_exit_is_refused_while_there_are_jobs(t: Table, args: Seq<Seq<char>>)
    requires
        !t.jobs.is_empty(),
    ensures
        t.exit(args).0 == (Table { exit_code: 1, ..t }),
        answers(t.exit(args).1) == seq![ShellMsg::Continue(1)],
{
    broadcast use lemma_answers_of_few;

}

/// A change in a child is answered exactly when it takes the foreground away from a job, and the
/// answer carries the exit code that holds then.
pub proof fn law_wait_answers_when_the_foreground_falls_back(
    t: Table,
    outcome: Result<WaitStatus, SysError>,
)
    requires
        t.wf(),
        t.expects(outcome),
    ensures
        t.fg is Some && t.waited(outcome).0.fg is None ==> answers(t.waited(outcome).1) == seq![
            ShellMsg::Continue(t.waited(outcome).0.exit_code),
        ],
        t.fg == t.waited(outcome).0.fg ==> answers(t.waited(outcome).1).len() == 0,
        t.fg is Some && t.waited(outcome).0.fg is None || t.fg == t.waited(outcome).0.fg,
{
    broadcast use {lemma_answers_of_few, lemma_answers_add};

}

/// What the outcomes of several waits make of the table, and all that is to be done.
pub open spec fn waited_all(t: Table, outcomes: Seq<Result<WaitStatus, SysError>>) -> Step
    decreases outcomes.len(),
{
    if outcomes.len() == 0 {
        (t, seq![])
    } else {
        let (between, acts) = t.waited(outcomes[0]);
        let rest = waited_all(between, outcomes.drop_first());
        (rest.0, acts + rest.1)
    }
}

/// Whether each of the outcomes is one that the worker can take when it comes.
pub open spec fn all_expected(t: Table, outcomes: Seq<Result<WaitStatus, SysError>>) -> bool
    decreases outcomes.len(),
{
    outcomes.len() > 0 ==> t.expects(outcomes[0]) && all_expected(
        t.waited(outcomes[0]).0,
        outcomes.drop_first(),
    )
}

/// However many waits there are, a job in the foreground is answered for once: when it has left
/// the foreground, not before and not again. Without a job in the foreground there is no answer.
pub proof fn law_foreground_job_is_answered_once(
    t: Table,
    outcomes: Seq<Result<WaitStatus, SysError>>,
)
    requires
        t.wf(),
        all_expected(t, outcomes),
    ensures
        waited_all(t, outcomes).0.wf(),
        waited_all(t, outcomes).0.fg is None || waited_all(t, outcomes).0.fg == t.fg,
        answers(waited_all(t, outcomes).1).len() == (if t.fg is Some && waited_all(
            t,
            outcomes,
        ).0.fg is None {
            1int
        } else {
            0int
        }),
    decreases outcomes.len(),
{
    broadcast use {lemma_answers_of_few, lemma_answers_add};

    if outcomes.len() > 0 {
        t.lemma_waited(outcomes[0]);
        law_wait_answers_when_the_foreground_falls_back(t, outcomes[0]);
        law_foreground_job_is_answered_once(t.waited(outcomes[0]).0, outcomes.drop_first());
    }
}

/// What happens to a process of a job in the background changes neither the foreground nor the
/// answers.
pub proof fn law_background_is_quiet(t: Table, pid: Pid)
    requires
        t.wf(),
        t.tracks(pid),
        t.fg != Some(t.procs[pid].pg_id),
    ensures
        t.ended(pid).0.fg == t.fg,
        answers(t.ended(pid).1).len() == 0,
        t.stopped(pid).0.fg == t.fg,
        answers(t.stopped(pid).1).len() == 0,
{
    broadcast use {lemma_answers_of_few, lemma_answers_add};

}

// The life of a job.

/// A job leaves the table with the last of its processes: after the end of a process its job is
/// there exactly when another process of the group is left. All other jobs stay as they are.
pub proof fn law_job_ends_with_its_last_process(t: Table, pid: Pid)
    requires
        t.wf(),
        t.tracks(pid),
    ensures
        ({
            let pg = t.procs[pid].pg_id;
            let job = t.groups[pg].0;
            let after = t.ended(pid).0;
            &&& after.jobs.contains_key(job) <==> exists|other: Pid|
                other != pid && #[trigger] t.groups[pg].1.contains(other)
            &&& forall|k: usize|
                k != job ==> (#[trigger] after.jobs.contains_key(k) <==> t.jobs.contains_key(k))
            &&& forall|k: usize| #[trigger]
                after.jobs.contains_key(k) ==> after.jobs[k] == t.jobs[k]
        }),
{
    let pg = t.procs[pid].pg_id;
    let left = t.groups[pg].1.remove(pid);
    if exists|other: Pid| other != pid && #[trigger] t.groups[pg].1.contains(other) {
        let other = choose|other: Pid| other != pid && #[trigger] t.groups[pg].1.contains(other);
        assert(left.contains(other));
        assert(!left.is_empty());
    } else {
        assert(left =~= Set::empty());
        assert(left.is_empty());
    }
}

/// What is known of a process is never forgotten, and a process never changes its group.
pub proof fn law_processes_are_remembered(
    t: Table,
    outcome: Result<WaitStatus, SysError>,
    pid: Pid,
)
    requires
        t.wf(),
        t.expects(outcome),
        t.procs.contains_key(pid),
    ensures
        t.waited(outcome).0.procs.contains_key(pid),
        t.waited(outcome).0.procs[pid].pg_id == t.procs[pid].pg_id,
{
}

/// A process that runs, stops and is continued is where it was.
pub proof fn law_continue_undoes_stop(t: Table, pid: Pid)
    requires
        t.wf(),
        t.tracks(pid),
        t.procs[pid].state == ProcState::Run,
    ensures
        t.stopped(pid).0.with_state(pid, ProcState::Run).procs == t.procs,
        t.stopped(pid).0.with_state(pid, ProcState::Run).jobs == t.jobs,
        t.stopped(pid).0.with_state(pid, ProcState::Run).groups == t.groups,
{
    let after = t.stopped(pid).0.with_state(pid, ProcState::Run);
    assert(!t.groups[t.procs[pid].pg_id].1.is_empty());
    assert(after.procs =~= t.procs);
}

/// A new state is that of the one process, which stays in its group, and of nothing else; a
/// process that is not known gets none.
pub proof fn law_state_changes_one_process(t: Table, pid: Pid, state: ProcState)
    ensures
        t.procs.contains_key(pid) ==> t.with_state(pid, state).procs[pid] == (ProcInfo {
            state,
            pg_id: t.procs[pid].pg_id,
        }),
        t.with_state(pid, state).procs.dom() == t.procs.dom(),
        forall|other: Pid|
            other != pid && t.procs.contains_key(other) ==> #[trigger] t.with_state(
                pid,
                state,
            ).procs[other] == t.procs[other],
        t.with_state(pid, state) == (Table { procs: t.with_state(pid, state).procs, ..t }),
        !t.procs.contains_key(pid) ==> t.with_state(pid, state) == t,
{
}

/// A process that is given a state, and then the state that it had, leaves the table as it was.
pub proof fn law_state_given_back_restores_the_table(t: Table, pid: Pid, state: ProcState)
    requires
        t.procs.contains_key(pid),
    ensures
        t.with_state(pid, state).with_state(pid, t.procs[pid].state) == t,
{
    let after = t.with_state(pid, state).with_state(pid, t.procs[pid].state);
    assert(after.procs =~= t.procs);
    assert(after =~= t);
}

/// The table with the processes of `order` taken out of their groups, one after the other.
pub open spec fn released_all(t: Table, order: Seq<Pid>) -> Table
    decreases order.len(),
{
    if order.len() == 0 {
        t
    } else {
        released_all(t, order.drop_last()).released(order.last())
    }
}

proof fn lemma_released_all(
    t: Table,
    job: usize,
    pg: Pid,
    infos: Map<Pid, ProcInfo>,
    command: Seq<char>,
    order: Seq<Pid>,
)
    requires
        forall|pid: Pid| #[trigger] infos.contains_key(pid) ==> infos[pid].pg_id == pg,
        forall|pid: Pid| #[trigger] order.contains(pid) ==> infos.contains_key(pid),
    ensures
        ({
            let with = t.inserted(job, pg, infos, command);
            released_all(with, order) == (Table {
                groups: with.groups.insert(pg, (job, infos.dom().difference(order.to_set()))),
                ..with
            })
        }),
    decreases order.len(),
{
    let with = t.inserted(job, pg, infos, command);
    let left = infos.dom().difference(order.to_set());
    if order.len() == 0 {
        assert(left =~= infos.dom());
        assert(released_all(with, order) =~= (Table {
            groups: with.groups.insert(pg, (job, left)),
            ..with
        }));
    } else {
        let front = order.drop_last();
        let pid = order.last();
        assert forall|p: Pid| #[trigger] front.contains(p) implies infos.contains_key(p) by {
            let i = choose|i: int| 0 <= i < front.len() && front[i] == p;
            assert(order[i] == p);
            assert(order.contains(p));
        }
        lemma_released_all(t, job, pg, infos, command, front);
        assert(order.contains(pid));
        assert(order == front.push(pid));
        front.lemma_push_to_set_commute(pid);
        assert(infos.dom().difference(front.to_set()).remove(pid) =~= left);
        let before = released_all(with, front);
        assert(before.tracks(pid) && before.procs[pid].pg_id == pg);
        assert(released_all(with, order) =~= (Table {
            groups: with.groups.insert(pg, (job, left)),
            ..with
        }));
    }
}

/// A new job that is added with any number of new processes, and then taken out again once each
/// of its processes has been taken out, in whichever order, leaves the table as it was, but that
/// the processes are remembered. The group is empty when the job is taken out, and to take the
/// job out once more changes nothing.
pub proof fn law_removal_undoes_insertion(
    t: Table,
    job: usize,
    pg: Pid,
    infos: Map<Pid, ProcInfo>,
    command: Seq<char>,
    order: Seq<Pid>,
)
    requires
        !t.jobs.contains_key(job),
        !t.groups.contains_key(pg),
        forall|pid: Pid| #[trigger]
            infos.contains_key(pid) ==> !t.procs.contains_key(pid) && infos[pid].pg_id == pg,
        forall|pid: Pid| #[trigger] order.contains(pid) <==> infos.contains_key(pid),
    ensures
        ({
            let emptied = released_all(t.inserted(job, pg, infos, command), order);
            let after = emptied.removed(job);
            &&& emptied.jobs.contains_key(job) && emptied.jobs[job] == (pg, command)
            &&& emptied.groups.contains_key(pg) && emptied.groups[pg].1.is_empty()
            &&& after == (Table { procs: t.procs.union_prefer_right(infos), ..t })
            &&& after.removed(job) == after
        }),
{
    let with = t.inserted(job, pg, infos, command);
    let emptied = released_all(with, order);
    let after = emptied.removed(job);
    lemma_released_all(t, job, pg, infos, command, order);
    let left = infos.dom().difference(order.to_set());
    assert forall|pid: Pid| !left.contains(pid) by {
        if infos.contains_key(pid) {
            assert(order.contains(pid));
        }
    }
    assert(left =~= Set::empty());
    assert(after.jobs =~= t.jobs);
    assert(after.groups =~= t.groups);
    assert(after =~= (Table { procs: t.procs.union_prefer_right(infos), ..t }));
}

/// A stop of a process takes no job off the table.
pub proof fn law_stop_keeps_the_jobs(t: Table, pid: Pid)
    requires
        t.wf(),
        t.tracks(pid),
    ensures
        t.stopped(pid).0.jobs == t.jobs,
        t.stopped(pid).0.groups == t.groups,
{
}

/// When every process of the job in the foreground has stopped, the shell gets the terminal back
/// and the job stays.
pub proof fn law_stopped_job_gives_the_terminal_back(t: Table, pid: Pid)
    requires
        t.wf(),
        t.tracks(pid),
        t.fg == Some(t.procs[pid].pg_id),
        forall|other: Pid|
            other != pid && #[trigger] t.groups[t.procs[pid].pg_id].1.contains(other)
                ==> t.procs[other].state == ProcState::Stop,
    ensures
        ({
            let pg = t.procs[pid].pg_id;
            let job = t.groups[pg].0;
            &&& t.stopped(pid).0.fg is None
            &&& t.stopped(pid).0.jobs.contains_key(job)
            &&& t.stopped(pid).1 == seq![
                Action::Tell(Notice::Stopped { job, command: t.jobs[job].1 }),
                Action::SetForeground(t.shell_pg_id),
                Action::Send(ShellMsg::Continue(t.exit_code)),
            ]
        }),
{
    let pg = t.procs[pid].pg_id;
    assert(t.with_state(pid, ProcState::Stop).all_stopped(pg));
}

/// A job of one process that is started and ends leaves the jobs and groups as they were, and the
/// shell gets the terminal back.
pub proof fn law_start_and_end(t: Table, job: usize, pg: Pid, command: Seq<char>)
    requires
        t.wf(),
        job != 0,
        !t.jobs.contains_key(job),
        !t.procs.contains_key(pg),
    ensures
        ({
            let started = t.with_job(job, pg, members(pg, None), command);
            let (after, acts) = started.ended(pg);
            &&& after.jobs == t.jobs
            &&& after.groups == t.groups
            &&& after.fg is None
            &&& acts == seq![
                Action::Tell(Notice::Done { job, command }),
                Action::SetForeground(t.shell_pg_id),
                Action::Send(ShellMsg::Continue(t.exit_code)),
            ]
        }),
{
    let started = t.with_job(job, pg, members(pg, None), command);
    assert(!t.groups.contains_key(pg));
    assert(members(pg, None).contains(pg));
    assert(started.procs[pg].pg_id == pg);
    assert(started.tracks(pg));
    let left = members(pg, None).remove(pg);
    assert(left =~= Set::empty());
    assert(left.is_empty());
    let (after, acts) = started.ended(pg);
    assert(after.jobs =~= t.jobs);
    assert(after.groups =~= t.groups);
}

/// A job of two processes is there until both have ended, in whichever order; then the jobs and
/// groups are as they were, and the shell gets the terminal back.
pub proof fn law_start_and_end_of_two(
    t: Table,
    job: usize,
    pg: Pid,
    second: Pid,
    command: Seq<char>,
    leader_first: bool,
)
    requires
        t.wf(),
        job != 0,
        !t.jobs.contains_key(job),
        !t.procs.contains_key(pg),
        !t.procs.contains_key(second),
        pg != second,
    ensures
        ({
            let (a, b) = if leader_first {
                (pg, second)
            } else {
                (second, pg)
            };
            let started = t.with_job(job, pg, members(pg, Some(second)), command);
            let (between, early) = started.ended(a);
            let (after, late) = between.ended(b);
            &&& early == Seq::<Action<Seq<char>>>::empty()
            &&& between.jobs == started.jobs
            &&& between.fg == Some(pg)
            &&& after.jobs == t.jobs
            &&& after.groups == t.groups
            &&& after.fg is None
            &&& late == seq![
                Action::Tell(Notice::Done { job, command }),
                Action::SetForeground(t.shell_pg_id),
                Action::Send(ShellMsg::Continue(t.exit_code)),
            ]
        }),
{
    let (a, b) = if leader_first {
        (pg, second)
    } else {
        (second, pg)
    };
    let all = members(pg, Some(second));
    let started = t.with_job(job, pg, all, command);
    assert(!t.groups.contains_key(pg));
    assert(all.contains(pg) && all.contains(second));
    assert(started.procs[a].pg_id == pg && started.procs[b].pg_id == pg);
    assert(started.tracks(a));
    let one = all.remove(a);
    assert(one.contains(b));
    assert(!one.is_empty());
    assert(started.procs[b].state == ProcState::Run);
    let middle = started.without_member(a);
    assert(middle.groups[pg].1 == one);
    assert(!middle.all_stopped(pg));
    let (between, early) = started.ended(a);
    assert(between == middle);
    assert(between.tracks(b));
    let none = one.remove(b);
    assert(none =~= Set::empty());
    assert(none.is_empty());
    let (after, late) = between.ended(b);
    assert(after.jobs =~= t.jobs);
    assert(after.groups =~= t.groups);
}

/// `fg` with the number of a job puts its group into the foreground and asks for it to be
/// continued; the jobs stay as they are.
pub proof fn law_fg_resumes_the_job(t: Table, args: Seq<Seq<char>>, n: usize)
    requires
        t.wf(),
        args.len() >= 2,
        crate::number::unsigned_number(args[1]) == Some(n as int),
        t.jobs.contains_key(n),
    ensures
        ({
            let (after, acts) = t.foreground(args);
            let pg = t.jobs[n].0;
            &&& after.fg == Some(pg)
            &&& after.jobs == t.jobs
            &&& after.groups == t.groups
            &&& after.procs == t.procs
            &&& acts == seq![
                Action::Tell(Notice::Continued { job: n, command: t.jobs[n].1 }),
                Action::SetForeground(pg),
                Action::Resume(pg),
            ]
        }),
{
}

/// Where a wait reports a child, the exit code is its exit status, or 128 more than the number of
/// the signal that killed it.
pub proof fn law_exit_code_follows_the_child(t: Table, pid: Pid, n: i32)
    requires
        t.wf(),
    ensures
        t.waited(Ok(WaitStatus::Exited(pid, n))).0.exit_code == n,
        n <= i32::MAX - 128 && signal_text(n) is Some ==> t.waited(Ok(WaitStatus::Signaled(pid, n))).0.exit_code == 128
            + n,
{
}

// The start of a job.

/// The file descriptors that the actions close, in order.
pub open spec fn closes(acts: Acts) -> Seq<i32>
    decreases acts.len(),
{
    if acts.len() == 0 {
        seq![]
    } else {
        match acts.last() {
            Action::Close(fd) => closes(acts.drop_last()).push(fd),
            _ => closes(acts.drop_last()),
        }
    }
}

/// The file descriptor that an action closes, if it closes one.
pub open spec fn closed_by(a: Action<Seq<char>>) -> Seq<i32> {
    match a {
        Action::Close(fd) => seq![fd],
        _ => seq![],
    }
}

broadcast proof fn lemma_closes_of_few(acts: Acts)
    requires
        acts.len() <= 2,
    ensures
        #![trigger closes(acts)]
        acts.len() == 0 ==> closes(acts) == Seq::<i32>::empty(),
        acts.len() == 1 ==> closes(acts) == closed_by(acts[0]),
        acts.len() == 2 ==> closes(acts) == closed_by(acts[0]) + closed_by(acts[1]),
    decreases acts.len(),
{
    if acts.len() > 0 {
        lemma_closes_of_few(acts.drop_last());
        assert(closes(acts) == closes(acts.drop_last()) + closed_by(acts.last()));
    }
}

broadcast proof fn lemma_closes_add(a: Acts, b: Acts)
    ensures
        #[trigger] closes(a + b) == closes(a) + closes(b),
    decreases b.len(),
{
    if b.len() == 0 {
        assert(a + b == a);
        assert(closes(b) == Seq::<i32>::empty());
    } else {
        assert((a + b).drop_last() == a + b.drop_last());
        lemma_closes_add(a, b.drop_last());
    }
}

/// The ends of a pipe that a start holds open.
pub open spec fn held(phase: Phase) -> Seq<i32> {
    match phase {
        Phase::First(Some((input, output))) => seq![input, output],
        Phase::Second(input, output, _) => seq![input, output],
        _ => seq![],
    }
}

/// The ends of the pipe that an answer brings.
pub open spec fn brought(event: LaunchEvent) -> Seq<i32> {
    match event {
        LaunchEvent::Pipe(input, output) => seq![input, output],
        _ => seq![],
    }
}

/// No end of a pipe is lost and none is closed twice: what a start holds or is given, it either
/// still holds after the answer or closes with it.
pub proof fn law_pipe_ends_are_closed_once(t: Table, start: Start, event: LaunchEvent)
    requires
        start.wf(),
        t.accepts(start, event),
    ensures
        ({
            let (_, acts, next) = t.advance(start, event);
            held(start.phase) + brought(event) == (match next {
                Some((later, _)) => held(later.phase),
                None => seq![],
            }) + closes(acts)
        }),
{
    broadcast use {lemma_closes_of_few, lemma_closes_add};

    let (_, acts, next) = t.advance(start, event);
    assert(held(start.phase) + brought(event) =~= (match next {
        Some((later, _)) => held(later.phase),
        None => seq![],
    }) + closes(acts));
}

/// A start is answered exactly when a step of it fails, and then it is over.
pub proof fn law_failed_start_is_answered_once(t: Table, start: Start, event: LaunchEvent)
    requires
        start.wf(),
        t.accepts(start, event),
    ensures
        ({
            let (after, acts, next) = t.advance(start, event);
            &&& answers(acts).len() <= 1
            &&& answers(acts).len() == 1 ==> next is None && answers(acts)[0]
                == ShellMsg::Continue(t.exit_code) && after == t
            &&& answers(acts).len() == 0 && next is None ==> event is Granted
            &&& event is Failed ==> answers(acts).len() == 1
        }),
{
    broadcast use {lemma_answers_of_few, lemma_answers_add};

}

/// A job gets into the table only once all its processes are there, in the foreground and with
/// the smallest free number it was promised; until then the table stays as it was.
pub proof fn law_job_is_added_whole(t: Table, start: Start, event: LaunchEvent)
    requires
        start.wf(),
        t.accepts(start, event),
    ensures
        ({
            let (after, _, next) = t.advance(start, event);
            match next {
                Some((later, _)) => if later.phase is Grant {
                    &&& after.jobs.contains_key(start.job_id)
                    &&& after.jobs[start.job_id].1 == start.line
                    &&& after.fg == Some(after.jobs[start.job_id].0)
                    &&& after.groups[after.jobs[start.job_id].0].1.len() <= start.stages.len()
                } else {
                    after == t
                },
                None => after == t,
            }
        }),
{
    let (after, _, next) = t.advance(start, event);
    if next is Some {
        match (start.phase, event) {
            (Phase::First(None), LaunchEvent::Child(pid)) => {
                assert(members(pid, None) == Set::<Pid>::empty().insert(pid));
            },
            (Phase::Second(_, _, pg), LaunchEvent::Child(pid)) => {
                assert(members(pg, Some(pid)) == Set::<Pid>::empty().insert(pg).insert(pid));
            },
            _ => {},
        }
    }
}

/// A pipeline of two commands is connected: the first process leads a new group and writes to the
/// end of the pipe that is for writing, the second joins that group and reads from the other end.
pub proof fn law_pipeline_is_connected(
    t: Table,
    start: Start,
    input: i32,
    output: i32,
    pid: Pid,
)
    requires
        start.wf(),
        start.phase is Pipe,
        !start.stages[0].name.contains('\0'),
        !start.stages[1].name.contains('\0'),
    ensures
        t.advance(start, LaunchEvent::Pipe(input, output)).2 matches Some((middle, first)) && {
            &&& first matches Request::Fork(plan) && plan.group == 0 && plan.filename
                == start.stages[0].name && plan.args == start.stages[0].args
                && plan.child.contains(ChildStep::Redirect { from: output, to: STDOUT })
            &&& t.advance(middle, LaunchEvent::Child(pid)).2 matches Some((_, second)) && {
                second matches Request::Fork(plan) && plan.group == pid && plan.filename
                    == start.stages[1].name && plan.args == start.stages[1].args
                    && plan.child.contains(ChildStep::Redirect { from: input, to: STDIN })
            }
        },
{
    let write = child_steps(0, None, Some(output));
    assert(write[1] == ChildStep::Redirect { from: output, to: STDOUT });
    let read = child_steps(pid, Some(input), None);
    assert(read[1] == ChildStep::Redirect { from: input, to: STDIN });
}

/// What a sequence of answers of the operating system makes of a start: the table, all that is to
/// be done, and the start as it then is, unless it is over.
pub open spec fn run_of(t: Table, start: Start, events: Seq<LaunchEvent>) -> (
    Table,
    Acts,
    Option<Start>,
)
    decreases events.len(),
{
    if events.len() == 0 {
        (t, seq![], Some(start))
    } else {
        let (between, acts, next) = t.advance(start, events[0]);
        match next {
            None => (between, acts, None),
            Some((later, _)) => {
                let rest = run_of(between, later, events.drop_first());
                (rest.0, acts + rest.1, rest.2)
            },
        }
    }
}

/// Whether each of the answers is one that the start can take when it comes, and none comes after
/// the end.
pub open spec fn all_accepted(t: Table, start: Start, events: Seq<LaunchEvent>) -> bool
    decreases events.len(),
{
    events.len() > 0 ==> t.accepts(start, events[0]) && match t.advance(start, events[0]).2 {
        None => events.len() == 1,
        Some((later, _)) => all_accepted(
            t.advance(start, events[0]).0,
            later,
            events.drop_first(),
        ),
    }
}

/// The ends of pipes that the answers bring, in order.
pub open spec fn all_brought(events: Seq<LaunchEvent>) -> Seq<i32>
    decreases events.len(),
{
    if events.len() == 0 {
        seq![]
    } else {
        brought(events[0]) + all_brought(events.drop_first())
    }
}

/// An answer leaves a start well formed.
pub proof fn law_start_stays_well_formed(t: Table, start: Start, event: LaunchEvent)
    requires
        start.wf(),
        t.accepts(start, event),
    ensures
        t.advance(start, event).2 matches Some((later, _)) ==> later.wf() && later.job_id
            == start.job_id && later.line == start.line && later.stages == start.stages,
{
}

/// However the start of a job goes, once it is over every end of a pipe that it was given has
/// been closed, each once.
pub proof fn law_whole_start_closes_its_pipe(t: Table, start: Start, events: Seq<LaunchEvent>)
    requires
        start.wf(),
        all_accepted(t, start, events),
        run_of(t, start, events).2 is None,
    ensures
        closes(run_of(t, start, events).1) == held(start.phase) + all_brought(events),
    decreases events.len(),
{
    broadcast use {lemma_closes_of_few, lemma_closes_add};

    let (between, acts, next) = t.advance(start, events[0]);
    law_pipe_ends_are_closed_once(t, start, events[0]);
    law_start_stays_well_formed(t, start, events[0]);
    let later_events = events.drop_first();
    match next {
        None => {
            assert(all_brought(later_events) == Seq::<i32>::empty());
            assert(closes(acts) =~= held(start.phase) + all_brought(events));
        },
        Some((later, _)) => {
            law_whole_start_closes_its_pipe(between, later, later_events);
            lemma_pipe_is_kept_or_closed(t, start, events[0]);
            assert(closes(run_of(t, start, events).1) =~= held(start.phase) + all_brought(events))
            by {
                if held(later.phase).len() == 0 {
                    lemma_no_pipe_after(between, later, later_events);
                }
            }
        },
    }
}

proof fn lemma_pipe_is_kept_or_closed(t: Table, start: Start, event: LaunchEvent)
    requires
        start.wf(),
        t.accepts(start, event),
        t.advance(start, event).2 is Some,
    ensures
        t.advance(start, event).2 matches Some((later, _)) && (closes(
            t.advance(start, event).1,
        ).len() == 0 || later.phase is Grant),
{
    broadcast use {lemma_closes_of_few, lemma_closes_add};

}

proof fn lemma_no_pipe_after(t: Table, start: Start, events: Seq<LaunchEvent>)
    requires
        start.phase is Grant,
        all_accepted(t, start, events),
    ensures
        all_brought(events) == Seq::<i32>::empty(),
{
    if events.len() > 0 {
        assert(t.advance(start, events[0]).2 is None);
        assert(all_brought(events.drop_first()) == Seq::<i32>::empty());
    }
}

/// However the start of a job goes, once it is over one of three things holds. It failed before
/// the job was there: the table is as it was, and the shell was answered once. Or the job is in
/// the foreground, and the shell was not answered. Or the job is in the foreground, but it was
/// not given the terminal, and the shell was answered once.
pub proof fn law_whole_start(t: Table, start: Start, events: Seq<LaunchEvent>)
    requires
        start.wf(),
        !(start.phase is Grant),
        all_accepted(t, start, events),
        run_of(t, start, events).2 is None,
    ensures
        ({
            let (after, acts, _) = run_of(t, start, events);
            let answered = answers(acts) == seq![ShellMsg::Continue(t.exit_code)];
            let there = after.jobs.contains_key(start.job_id) && after.fg == Some(
                after.jobs[start.job_id].0,
            );
            ||| after == t && answered && !(events.last() is Granted)
            ||| there && answers(acts).len() == 0 && events.last() is Granted
            ||| there && answered && events.last() is Failed
        }),
    decreases events.len(),
{
    broadcast use {lemma_answers_of_few, lemma_answers_add};

    let (between, acts, next) = t.advance(start, events[0]);
    let later_events = events.drop_first();
    law_failed_start_is_answered_once(t, start, events[0]);
    law_start_stays_well_formed(t, start, events[0]);
    match next {
        None => {
            assert(answers(acts) =~= seq![ShellMsg::Continue(t.exit_code)]);
        },
        Some((later, _)) => {
            assert(run_of(between, later, later_events).2 is None);
            assert(all_accepted(between, later, later_events));
            assert(events.last() == later_events.last());
            law_job_is_added_whole(t, start, events[0]);
            if later.phase is Grant {
                law_failed_start_is_answered_once(between, later, later_events[0]);
                assert(later_events.len() == 1);
                let last = between.advance(later, later_events[0]);
                assert(run_of(between, later, later_events) == (last.0, last.1, None::<Start>));
                assert(answers(run_of(t, start, events).1) =~= answers(last.1));
                if later_events[0] is Failed {
                    assert(answers(last.1) =~= seq![ShellMsg::Continue(t.exit_code)]);
                }
            } else {
                law_whole_start(between, later, later_events);
                assert(answers(run_of(t, start, events).1) =~= answers(
                    run_of(between, later, later_events).1,
                ));
            }
        },
    }
}

/// A command line is answered at once, or it leads to a start, or to a job in the foreground.
pub proof fn law_command_line_is_answered_or_pending(t: Table, line: Seq<char>)
    requires
        t.wf(),
        t.can_run(stages_of(line)),
    ensures
        ({
            let (after, acts, next) = t.commanded(line);
            ||| answers(acts).len() == 1 && next is None && after.fg == t.fg
            ||| answers(acts).len() == 0 && next is Some && after == t
            ||| answers(acts).len() == 0 && next is None && after.fg is Some
        }),
{
    broadcast use {lemma_answers_of_few, lemma_answers_add};

    let cmds = stages_of(line);
    if is_built_in(cmds) {
        law_built_in_is_answered_once(t, cmds[0].name, cmds[0].args);
    }
}

/// However the start of a job goes, the table stays well formed.
pub proof fn law_whole_start_keeps_the_table_well_formed(
    t: Table,
    start: Start,
    events: Seq<LaunchEvent>,
)
    requires
        t.wf(),
        start.wf(),
        all_accepted(t, start, events),
    ensures
        run_of(t, start, events).0.wf(),
    decreases events.len(),
{
    if events.len() > 0 {
        let event = events[0];
        let (between, _, next) = t.advance(start, event);
        law_start_stays_well_formed(t, start, event);
        match (start.phase, event) {
            (Phase::First(None), LaunchEvent::Child(pid)) => {
                t.lemma_with_job(start.job_id, pid, members(pid, None), start.line);
            },
            (Phase::Second(_, _, pg), LaunchEvent::Child(pid)) => {
                t.lemma_with_job(start.job_id, pg, members(pg, Some(pid)), start.line);
            },
            _ => {},
        }
        if let Some((later, _)) = next {
            law_whole_start_keeps_the_table_well_formed(between, later, events.drop_first());
        }
    }
}

/// What becomes of a command line: it is run, the answers `events` come to the start that it may
/// lead to, and then the waits turn out as `outcomes` say.
pub open spec fn whole_course(
    t: Table,
    line: Seq<char>,
    events: Seq<LaunchEvent>,
    outcomes: Seq<Result<WaitStatus, SysError>>,
) -> Step {
    let (first, acts, next) = t.commanded(line);
    let (second, more) = match next {
        Some((start, _)) => (run_of(first, start, events).0, run_of(first, start, events).1),
        None => (first, seq![]),
    };
    let (third, rest) = waited_all(second, outcomes);
    (third, acts + more + rest)
}

/// Whether the start that a command line may lead to takes all the answers and ends with them,
/// and its job, if it gets that far, is given the terminal.
pub open spec fn runs_through(t: Table, line: Seq<char>, events: Seq<LaunchEvent>) -> bool {
    match t.commanded(line).2 {
        Some((start, _)) => {
            &&& all_accepted(t, start, events)
            &&& run_of(t, start, events).2 is None
            &&& run_of(t, start, events).0 != t ==> events.last() is Granted
        },
        None => events.len() == 0,
    }
}

/// A command line that comes in while no job is in the foreground is answered once: at the latest
/// when the job that it started or brought to the foreground has left it, and not before.
pub proof fn law_command_line_is_answered_once(
    t: Table,
    line: Seq<char>,
    events: Seq<LaunchEvent>,
    outcomes: Seq<Result<WaitStatus, SysError>>,
)
    requires
        t.wf(),
        t.fg is None,
        t.can_run(stages_of(line)),
        runs_through(t, line, events),
        match t.commanded(line).2 {
            Some((start, _)) => all_expected(run_of(t, start, events).0, outcomes),
            None => all_expected(t.commanded(line).0, outcomes),
        },
    ensures
        answers(whole_course(t, line, events, outcomes).1).len() == (if whole_course(
            t,
            line,
            events,
            outcomes,
        ).0.fg is None {
            1int
        } else {
            0int
        }),
{
    broadcast use {lemma_answers_of_few, lemma_answers_add};

    let (first, acts, next) = t.commanded(line);
    let cmds = stages_of(line);
    law_command_line_is_answered_or_pending(t, line);
    match next {
        Some((start, _)) => {
            lemma_first_free(t.jobs.dom(), 1);
            assert(start.wf());
            law_whole_start(t, start, events);
            law_whole_start_keeps_the_table_well_formed(t, start, events);
            law_foreground_job_is_answered_once(run_of(t, start, events).0, outcomes);
        },
        None => {
            if is_built_in(cmds) {
                t.lemma_built_in(cmds[0].name, cmds[0].args);
            }
            law_foreground_job_is_answered_once(first, outcomes);
        },
    }
}

// The conversation with the shell.

/// A line goes to the worker exactly where it is not blank, and it goes there unchanged.
pub proof fn law_blank_lines_are_passed_over(line: Seq<char>)
    ensures
        match turn_of(Input::Line(line)) {
            Turn::Submit { history, line: sent } => !is_blank(line) && sent == line && history
                == Some(trimmed(line)),
            Turn::Again => is_blank(line),
            _ => false,
        },
{
    law_trimmed_ends(line);
}

/// At the end of the input the worker is asked to exit, and while there are no jobs it lets the
/// shell go with the exit code so far.
pub proof fn law_end_of_input_leaves(t: Table)
    requires
        t.wf(),
        t.jobs.is_empty(),
    ensures
        turn_of(Input::Eof) == (Turn::Submit { history: None, line: "exit"@ }),
        t.can_run(stages_of("exit"@)),
        t.commanded("exit"@).0 == t,
        t.commanded("exit"@).1 == seq![
            Action::<Seq<char>>::Send(ShellMsg::Quit(t.exit_code)),
        ],
        t.commanded("exit"@).2 is None,
{
    let line = "exit"@;
    reveal_strlit("exit");
    assert(line.len() == 4);
    assert(!is_white_space(line[0]));
    assert(!is_blank(line));
    assert(!line.contains(PIPE));
    law_plain_line(line);
    assert(words_of(line) == seq![line]) by {
        reveal_with_fuel(words_of, 2);
        reveal_with_fuel(crate::text::word_len, 5);
        let d1 = line.drop_first();
        let d2 = d1.drop_first();
        let d3 = d2.drop_first();
        let d4 = d3.drop_first();
        assert(d1[0] == 'x' && d2[0] == 'i' && d3[0] == 't' && d4.len() == 0);
        assert(crate::text::word_len(d4) == 0);
        assert(crate::text::word_len(d3) == 1);
        assert(crate::text::word_len(d2) == 2);
        assert(crate::text::word_len(d1) == 3);
        assert(crate::text::word_len(line) == 4);
        assert(line.take(4) == line);
        assert(line.skip(4).len() == 0);
        assert(words_of(line.skip(4)) == Seq::<Seq<char>>::empty());
    }
    assert(stages_of(line)[0].args =~= Seq::<Seq<char>>::empty());
    assert(is_built_in(stages_of(line)));
}

} // verus!
