//! Command lines: the commands of a pipeline, with their arguments.

use vstd::prelude::*;
use crate::error::ShellError;
use crate::text::{fields, fields_of, texts, words, words_of};

verus! {

/// The character between the commands of a pipeline.
pub const PIPE: char = '|';

/// One command of a pipeline.
pub struct Cmd<'a> {
    pub name: &'a str,
    pub args: Vec<&'a str>,
}

/// What a command says: its name and its arguments.
#[verifier::ext_equal]
pub struct Command {
    pub name: Seq<char>,
    pub args: Seq<Seq<char>>,
}

impl<'a> View for Cmd<'a> {
    type V = Command;

    open spec fn view(&self) -> Command {
        Command { name: self.name@, args: texts(self.args@) }
    }
}

/// What a sequence of commands says.
pub open spec fn commands(v: Seq<Cmd<'_>>) -> Seq<Command> {
    v.map_values(|c: Cmd<'_>| c@)
}

/// The command written in `part`: its first word is the name, the others are the arguments.
/// Where there is no word, the name is empty and there are no arguments.
pub open spec fn command_of(part: Seq<char>) -> Command {
    let w = words_of(part);
    if w.len() == 0 {
        Command { name: seq![], args: seq![] }
    } else {
        Command { name: w[0], args: w.drop_first() }
    }
}

/// The commands of `line`, one for each part between the pipe characters.
pub open spec fn commands_of(line: Seq<char>) -> Seq<Command> {
    fields_of(line, PIPE).map_values(|part: Seq<char>| command_of(part))
}

/// The command whose name is the first word and whose arguments are the others.
fn name_and_args<'a>(w: Vec<&'a str>) -> (r: Cmd<'a>)
    requires
        w@.len() > 0,
    ensures
        r@ == (Command { name: w@[0]@, args: texts(w@).drop_first() }),
{
    let mut args = w;
    let name = args.remove(0);
    assert(texts(args@) == texts(w@).drop_first());
    Cmd { name, args }
}

/// Takes a command line apart at its pipe characters, and each part into words.
pub fn parse_cmd<'a>(line: &'a str) -> (r: Result<Vec<Cmd<'a>>, ShellError>)
    ensures
        r matches Ok(cmds) && commands(cmds@) == commands_of(line@),
{
    let parts = fields(line, PIPE);
    let mut cmds: Vec<Cmd<'a>> = Vec::new();
    let mut i: usize = 0;
    while i < parts.len()
        invariant
            i <= parts@.len(),
            texts(parts@) == fields_of(line@, PIPE),
            commands(cmds@) == commands_of(line@).take(i as int),
        decreases parts@.len() - i,
    {
        let ghost before = cmds@;
        let w = words(parts[i]);
        assert(texts(parts@)[i as int] == parts@[i as int]@);
        assert(texts(w@).len() == w@.len());
        if w.len() == 0 {
            proof {
                reveal_strlit("");
            }
            let cmd = Cmd { name: "", args: Vec::new() };
            assert(cmd@ == command_of(parts@[i as int]@));
            cmds.push(cmd);
        } else {
            assert(texts(w@)[0] == w@[0]@);
            let cmd = name_and_args(w);
            assert(cmd@ == command_of(parts@[i as int]@));
            cmds.push(cmd);
        }
        assert(commands(cmds@) == commands(before).push(cmds@.last()@));
        assert(commands_of(line@).take(i + 1) == commands_of(line@).take(i as int).push(
            command_of(parts@[i as int]@),
        ));
        i = i + 1;
    }
    assert(commands_of(line@).take(i as int) == commands_of(line@));
    Ok(cmds)
}

} // verus!
