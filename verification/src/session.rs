//! The session around the engine: where its input comes from, what follows
//! each outcome, and how the process ends.

use crate::engine::{Outcome, OutcomeV};
use crate::lexer::{ParseError, ParseErrorV};
use crate::parser::{shell_from_value, shell_parsed_view, shell_string_spec, shell_view};
use crate::shell::{default_shell, text_view, RuntimeConfig, ShellDef, ShellDefV};
use crate::text::{append_text, texts};
use vstd::prelude::*;

verus! {

/// The first `n` of the parts, one behind the other.
pub open spec fn concat_upto(parts: Seq<Seq<char>>, n: int) -> Seq<char>
    decreases n,
{
    if n <= 0 {
        Seq::empty()
    } else {
        concat_upto(parts, n - 1) + parts[n - 1]
    }
}

/// The parts, one behind the other.
pub open spec fn concat_spec(parts: Seq<Seq<char>>) -> Seq<char> {
    concat_upto(parts, parts.len() as int)
}

/// Joins the fragments of input that were given in advance into the run of
/// characters that is replayed before the first key is read.
pub fn concat_input(fragments: &Vec<Vec<char>>) -> (r: Vec<char>)
    ensures
        r@ == concat_spec(texts(fragments@)),
{
    let mut r: Vec<char> = Vec::new();
    let mut i: usize = 0;
    while i < fragments.len()
        invariant
            i <= fragments.len(),
            r@ == concat_upto(texts(fragments@), i as int),
        decreases fragments.len() - i,
    {
        assert(texts(fragments@)[i as int] == fragments@[i as int]@);
        append_text(&mut r, fragments[i].as_slice());
        i += 1;
    }
    r
}

/// The value of a [`Move`].
pub ghost enum MoveV {
    Run(Seq<char>),
    Await,
    Quit,
    Incomplete,
}

/// What the session does next.
#[derive(Clone, Debug, PartialEq, Eq)]
pub enum Move {
    /// Expand this template and run it; the session is over.
    Run(Vec<char>),
    /// Show the menu and read the next key.
    Await,
    /// Leave without running anything.
    Quit,
    /// No command was chosen and no key can be read: the selection is
    /// incomplete.
    Incomplete,
}

impl View for Move {
    type V = MoveV;

    open spec fn view(&self) -> MoveV {
        match self {
            Move::Run(t) => MoveV::Run(t@),
            Move::Await => MoveV::Await,
            Move::Quit => MoveV::Quit,
            Move::Incomplete => MoveV::Incomplete,
        }
    }
}

/// What follows an outcome: a command is run, a cancel ends the session,
/// and anything else awaits a key, which takes a terminal.
pub open spec fn next_move_spec(outcome: OutcomeV, interactive: bool) -> MoveV {
    match outcome {
        OutcomeV::Resolved(template) => MoveV::Run(template),
        OutcomeV::Cancelled => MoveV::Quit,
        _ => if interactive {
            MoveV::Await
        } else {
            MoveV::Incomplete
        },
    }
}

/// Decides what follows an outcome of the engine. `interactive` says
/// whether a terminal is attached to read keys from.
pub fn next_move(outcome: Outcome, interactive: bool) -> (r: Move)
    ensures
        r@ == next_move_spec(outcome@, interactive),
{
    match outcome {
        Outcome::Resolved(template) => Move::Run(template),
        Outcome::Cancelled => Move::Quit,
        _ => if interactive {
            Move::Await
        } else {
            Move::Incomplete
        },
    }
}

/// How a session ended.
#[derive(Clone, Copy, Debug, PartialEq, Eq)]
pub enum Ending {
    /// The command ran and left this status.
    Ran(i32),
    /// The user gave up; nothing ran.
    Cancelled,
    /// The configuration, the selection, the expansion or the start of the
    /// program failed.
    Failed,
}

/// The exit code of the process: the command's own status where it ran, 0
/// after a cancel, 1 after a failure.
pub fn exit_code(ending: Ending) -> (code: i32)
    ensures
        code == match ending {
            Ending::Ran(status) => status,
            Ending::Cancelled => 0i32,
            Ending::Failed => 1i32,
        },
{
    match ending {
        Ending::Ran(status) => status,
        Ending::Cancelled => 0,
        Ending::Failed => 1,
    }
}

/// How a child that has come to its end counts: by its status, or as a
/// failure where it has none because a signal ended it.
pub fn child_ending(status: Option<i32>) -> (r: Ending)
    ensures
        r == match status {
            Some(code) => Ending::Ran(code),
            None => Ending::Failed,
        },
{
    match status {
        Some(code) => Ending::Ran(code),
        None => Ending::Failed,
    }
}

/// The value of an optional text that is borrowed.
pub open spec fn value_view(value: Option<&[char]>) -> Option<Seq<char>> {
    match value {
        Some(v) => Some(v@),
        None => None,
    }
}

/// The value of what reading the environment's shell returns.
pub open spec fn env_shell_view(r: Result<Option<ShellDef>, ParseError>) -> Result<
    Option<ShellDefV>,
    ParseErrorV,
> {
    match r {
        Ok(shell) => Ok(shell_view(shell)),
        Err(e) => Err(e@),
    }
}

/// What the environment says of the shell: nothing where the variable is
/// not set; else what the directive `shell <value>` means, so that a value
/// that cannot be read is a fault and never a default.
pub open spec fn env_shell_spec(value: Option<Seq<char>>) -> Result<Option<ShellDefV>, ParseErrorV> {
    match value {
        None => Ok(None),
        Some(v) => match shell_string_spec("shell "@ + v) {
            Ok(def) => Ok(Some(def)),
            Err(e) => Err(e),
        },
    }
}

/// Reads the shell that the environment names, from the value of its
/// variable where that is set.
pub fn shell_from_env(value: Option<&[char]>) -> (r: Result<Option<ShellDef>, ParseError>)
    ensures
        env_shell_view(r) == env_shell_spec(value_view(value)),
{
    match value {
        None => Ok(None),
        Some(v) => match shell_from_value(v) {
            Ok(def) => Ok(Some(def)),
            Err(e) => Err(e),
        },
    }
}

/// The shell of a session: the one that the configuration defines; where
/// it defines none, the one that the environment's value names; where that
/// is not set either, the default. The environment's value is read only
/// where the configuration defines no shell.
pub open spec fn session_shell_spec(file: Option<ShellDefV>, env_value: Option<Seq<char>>) -> Result<
    ShellDefV,
    ParseErrorV,
> {
    match file {
        Some(def) => Ok(def),
        None => match env_value {
            None => Ok(default_shell()),
            Some(v) => shell_string_spec("shell "@ + v),
        },
    }
}

/// Chooses the shell of a session from what the configuration defines and
/// the value of the environment's variable.
pub fn session_shell(file: Option<ShellDef>, env_value: Option<&[char]>) -> (r: Result<
    ShellDef,
    ParseError,
>)
    ensures
        shell_parsed_view(r) == session_shell_spec(shell_view(file), value_view(env_value)),
        file is Some ==> r is Ok && r->Ok_0@ == file->Some_0@,
        file is None && env_value is None ==> r is Ok && r->Ok_0@ == default_shell(),
        file is None && env_value is Some ==> shell_parsed_view(r) == shell_string_spec(
            "shell "@ + env_value->Some_0@,
        ),
{
    match file {
        Some(def) => Ok(def),
        None => match env_value {
            None => Ok(ShellDef::default()),
            Some(v) => shell_from_value(v),
        },
    }
}

/// The value of what setting a session up returns.
pub open spec fn session_config_view(r: Result<RuntimeConfig, ParseError>) -> Result<
    (Option<Seq<char>>, ShellDefV),
    ParseErrorV,
> {
    match r {
        Ok(rt) => Ok((text_view(rt.working_directory), rt.shell@)),
        Err(e) => Err(e@),
    }
}

/// The settings of a session: the directory of a configuration found
/// nearby, if there was one, and the shell that `session_shell` chooses.
pub fn session_config(
    local_dir: Option<Vec<char>>,
    file_shell: Option<ShellDef>,
    env_value: Option<&[char]>,
) -> (r: Result<RuntimeConfig, ParseError>)
    ensures
        session_config_view(r) == match session_shell_spec(
            shell_view(file_shell),
            value_view(env_value),
        ) {
            Ok(shell) => Ok((text_view(local_dir), shell)),
            Err(e) => Err(e),
        },
{
    match session_shell(file_shell, env_value) {
        Ok(shell) => Ok(RuntimeConfig { working_directory: local_dir, shell }),
        Err(e) => Err(e),
    }
}

} // verus!
