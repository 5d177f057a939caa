//! Shell definitions: which program runs a command and with which
//! arguments, and how a finished session maps to an exit code.

use crate::text::{copy_text, copy_texts, text_is, text_of, texts};
use vstd::prelude::*;

verus! {

/// The value of a [`ShellDef`]: the program, and the arguments that stand
/// before and after the command in its invocation. The command has exactly
/// one place.
pub ghost struct ShellDefV {
    pub program: Seq<char>,
    pub before: Seq<Seq<char>>,
    pub after: Seq<Seq<char>>,
}

/// How to run a command: `program before.. command after..`.
#[derive(Clone, Debug, PartialEq, Eq)]
pub struct ShellDef {
    pub program: Vec<char>,
    pub before: Vec<Vec<char>>,
    pub after: Vec<Vec<char>>,
}

impl View for ShellDef {
    type V = ShellDefV;

    open spec fn view(&self) -> ShellDefV {
        ShellDefV {
            program: self.program@,
            before: texts(self.before@),
            after: texts(self.after@),
        }
    }
}

/// Why a shell specification was refused.
#[derive(Clone, Copy, Debug, PartialEq, Eq)]
pub enum ShellFault {
    /// A single word that names no shell known here.
    UnknownName,
    /// No word at all, or arguments that do not hold the command's place
    /// exactly once.
    Malformed,
}

/// The word that marks the command's place among the arguments.
pub open spec fn slot() -> Seq<char> {
    "{}"@
}

/// A shell that takes the command behind one flag.
pub open spec fn flag_shell(program: Seq<char>, flag: Seq<char>) -> ShellDefV {
    ShellDefV { program, before: seq![flag], after: Seq::empty() }
}

/// The invocation that a shell's short name stands for.
pub open spec fn builtin_shell(name: Seq<char>) -> Option<ShellDefV> {
    if name == "bash"@ || name == "zsh"@ || name == "fish"@ || name == "sh"@ {
        Some(flag_shell(name, "-c"@))
    } else if name == "cmd"@ {
        Some(flag_shell(name, "/c"@))
    } else if name == "powershell"@ || name == "pwsh"@ {
        Some(flag_shell(name, "-Command"@))
    } else {
        None
    }
}

/// The shell that is used where nothing names one.
pub open spec fn default_shell() -> ShellDefV {
    flag_shell("bash"@, "-c"@)
}

/// `k` is the one place among `args` that holds the slot.
pub open spec fn is_only_slot(args: Seq<Seq<char>>, k: int) -> bool {
    &&& 0 <= k < args.len()
    &&& args[k] == slot()
    &&& forall|j: int| 0 <= j < args.len() && j != k ==> #[trigger] args[j] != slot()
}

/// What the words of a shell specification mean: one word is a short name;
/// more are a program and its arguments, one of which is the slot.
pub open spec fn shell_spec(words: Seq<Seq<char>>) -> Result<ShellDefV, ShellFault> {
    if words.len() == 0 {
        Err(ShellFault::Malformed)
    } else if words.len() == 1 {
        match builtin_shell(words[0]) {
            Some(def) => Ok(def),
            None => Err(ShellFault::UnknownName),
        }
    } else if exists|k: int| is_only_slot(words.skip(1), k) {
        let k = choose|k: int| is_only_slot(words.skip(1), k);
        Ok(
            ShellDefV {
                program: words[0],
                before: words.skip(1).take(k),
                after: words.skip(1).skip(k + 1),
            },
        )
    } else {
        Err(ShellFault::Malformed)
    }
}

/// A program with arguments keeps them all: the definition holds the
/// arguments before the slot and those after it, in order, and the slot
/// stands in neither.
pub proof fn lemma_explicit_shell_keeps_arguments(words: Seq<Seq<char>>)
    requires
        words.len() >= 2,
        shell_spec(words) is Ok,
    ensures
        shell_spec(words)->Ok_0.program == words[0],
        shell_spec(words)->Ok_0.before + seq![slot()] + shell_spec(words)->Ok_0.after
            == words.skip(1),
        !shell_spec(words)->Ok_0.before.contains(slot()),
        !shell_spec(words)->Ok_0.after.contains(slot()),
{
    let args = words.skip(1);
    let k = choose|k: int| is_only_slot(args, k);
    let def = shell_spec(words)->Ok_0;
    assert(def.before + seq![slot()] + def.after =~= args);
    if def.before.contains(slot()) {
        let j = choose|j: int| 0 <= j < def.before.len() && def.before[j] == slot();
        assert(args[j] == slot());
    }
    if def.after.contains(slot()) {
        let j = choose|j: int| 0 <= j < def.after.len() && def.after[j] == slot();
        assert(args[k + 1 + j] == slot());
    }
}

fn flag_shell_of(name: &[char], flag: &str) -> (r: ShellDef)
    ensures
        r@ == flag_shell(name@, flag@),
{
    let mut before: Vec<Vec<char>> = Vec::new();
    let f = text_of(flag);
    before.push(f);
    let r = ShellDef { program: copy_text(name), before, after: Vec::new() };
    assert(r@.before =~= seq![flag@]);
    assert(r@.after =~= Seq::<Seq<char>>::empty());
    r
}

/// Looks a short name up among the shells known here.
pub fn builtin(name: &[char]) -> (r: Option<ShellDef>)
    ensures
        r is Some == builtin_shell(name@) is Some,
        r is Some ==> r->Some_0@ == builtin_shell(name@)->Some_0,
{
    if text_is(name, "bash") || text_is(name, "zsh") || text_is(name, "fish") || text_is(
        name,
        "sh",
    ) {
        Some(flag_shell_of(name, "-c"))
    } else if text_is(name, "cmd") {
        Some(flag_shell_of(name, "/c"))
    } else if text_is(name, "powershell") || text_is(name, "pwsh") {
        Some(flag_shell_of(name, "-Command"))
    } else {
        None
    }
}

impl Default for ShellDef {
    fn default() -> (r: ShellDef)
        ensures
            r@ == default_shell(),
    {
        let name = text_of("bash");
        flag_shell_of(name.as_slice(), "-c")
    }
}

/// Builds a shell definition from the words of its specification.
pub fn shell_from_words(words: &Vec<Vec<char>>) -> (r: Result<ShellDef, ShellFault>)
    ensures
        r is Ok == shell_spec(texts(words@)) is Ok,
        r is Ok ==> r->Ok_0@ == shell_spec(texts(words@))->Ok_0,
        r is Err ==> shell_spec(texts(words@)) == Err::<ShellDefV, ShellFault>(r->Err_0),
{
    let ghost all = texts(words@);
    if words.len() == 0 {
        return Err(ShellFault::Malformed);
    }
    if words.len() == 1 {
        assert(all[0] == words@[0]@);
        return match builtin(words[0].as_slice()) {
            Some(def) => Ok(def),
            None => Err(ShellFault::UnknownName),
        };
    }
    let ghost args = all.skip(1);
    let mut place: Option<usize> = None;
    let mut twice = false;
    let mut i: usize = 1;
    while i < words.len()
        invariant
            1 <= i <= words.len(),
            all == texts(words@),
            args == all.skip(1),
            place is None ==> !twice && forall|j: int| 0 <= j < i - 1 ==> args[j] != slot(),
            place is Some ==> {
                let k = place->Some_0 as int;
                &&& 0 <= k < i - 1
                &&& args[k] == slot()
                &&& !twice ==> forall|j: int| 0 <= j < i - 1 && j != k ==> args[j] != slot()
                &&& twice ==> exists|j: int| 0 <= j < i - 1 && j != k && args[j] == slot()
            },
        decreases words.len() - i,
    {
        assert(args[i - 1] == words@[i as int]@);
        if text_is(words[i].as_slice(), "{}") {
            if place.is_some() {
                twice = true;
            } else {
                place = Some(i - 1);
            }
        }
        i += 1;
    }
    match place {
        Some(k) => {
            if twice {
                assert(!exists|n: int| is_only_slot(args, n));
                return Err(ShellFault::Malformed);
            }
            assert(is_only_slot(args, k as int));
            let ghost chosen = choose|n: int| is_only_slot(args, n);
            assert(chosen == k);
            let before = copy_texts(words, 1, k + 1);
            let after = copy_texts(words, k + 2, words.len());
            let def = ShellDef { program: copy_text(words[0].as_slice()), before, after };
            assert(all[0] == words@[0]@);
            assert(def@.before =~= args.take(k as int));
            assert(def@.after =~= args.skip(k + 1));
            Ok(def)
        },
        None => {
            assert(!exists|n: int| is_only_slot(args, n));
            Err(ShellFault::Malformed)
        },
    }
}

/// The arguments that the program is started with for a command: those
/// before the command's place, the command, those after it.
pub open spec fn command_line_spec(shell: ShellDefV, command: Seq<char>) -> Seq<Seq<char>> {
    shell.before + seq![command] + shell.after
}

/// The arguments that the program is started with for `command`.
pub fn command_line(shell: &ShellDef, command: &[char]) -> (r: Vec<Vec<char>>)
    ensures
        texts(r@) == command_line_spec(shell@, command@),
{
    let mut r = copy_texts(&shell.before, 0, shell.before.len());
    let ghost head = r@;
    assert(texts(head) =~= shell@.before);
    let c = copy_text(command);
    r.push(c);
    assert(texts(r@) =~= shell@.before + seq![command@]);
    let mut i: usize = 0;
    while i < shell.after.len()
        invariant
            i <= shell.after.len(),
            texts(r@) == shell@.before + seq![command@] + shell@.after.subrange(0, i as int),
        decreases shell.after.len() - i,
    {
        let ghost done = r@;
        let t = copy_text(shell.after[i].as_slice());
        r.push(t);
        assert(texts(r@) =~= texts(done).push(t@));
        assert(shell@.after.subrange(0, i + 1) =~= shell@.after.subrange(0, i as int).push(
            shell.after@[i as int]@,
        ));
        assert(texts(r@) =~= shell@.before + seq![command@] + shell@.after.subrange(0, i + 1));
        i += 1;
    }
    assert(shell@.after.subrange(0, shell.after@.len() as int) =~= shell@.after);
    r
}

/// The shell of a session: the one the configuration names, else the one
/// the environment names, else the default.
pub fn choose_shell(file: Option<ShellDef>, env: Option<ShellDef>) -> (r: ShellDef)
    ensures
        r@ == match file {
            Some(f) => f@,
            None => match env {
                Some(e) => e@,
                None => default_shell(),
            },
        },
{
    match file {
        Some(f) => f,
        None => match env {
            Some(e) => e,
            None => ShellDef::default(),
        },
    }
}

/// What a session runs with, fixed once before the first key is read.
#[derive(Clone, Debug, PartialEq, Eq)]
pub struct RuntimeConfig {
    /// The directory to run the command in; `None` is the caller's own.
    pub working_directory: Option<Vec<char>>,
    pub shell: ShellDef,
}

impl RuntimeConfig {
    /// The settings of a session, from the directory of a configuration
    /// found nearby, if there was one, and the two places that may name a
    /// shell.
    pub fn new(
        local_dir: Option<Vec<char>>,
        file_shell: Option<ShellDef>,
        env_shell: Option<ShellDef>,
    ) -> (r: RuntimeConfig)
        ensures
            r.working_directory == local_dir,
            r.shell@ == match file_shell {
                Some(f) => f@,
                None => match env_shell {
                    Some(e) => e@,
                    None => default_shell(),
                },
            },
    {
        RuntimeConfig { working_directory: local_dir, shell: choose_shell(file_shell, env_shell) }
    }
}

/// What is handed to the operating system to run a command.
#[derive(Clone, Debug, PartialEq, Eq)]
pub struct Invocation {
    pub program: Vec<char>,
    pub args: Vec<Vec<char>>,
    /// The directory to run in; `None` is the caller's own.
    pub working_directory: Option<Vec<char>>,
}

/// The value of an optional text.
pub open spec fn text_view(t: Option<Vec<char>>) -> Option<Seq<char>> {
    match t {
        Some(text) => Some(text@),
        None => None,
    }
}

/// Puts a command into the shell's invocation: the shell's program, its
/// arguments with the command in its place, and the session's directory.
pub fn invocation(rt: &RuntimeConfig, command: &[char]) -> (r: Invocation)
    ensures
        r.program@ == rt.shell@.program,
        texts(r.args@) == command_line_spec(rt.shell@, command@),
        text_view(r.working_directory) == text_view(rt.working_directory),
{
    let working_directory = match &rt.working_directory {
        Some(dir) => Some(copy_text(dir.as_slice())),
        None => None,
    };
    Invocation {
        program: copy_text(rt.shell.program.as_slice()),
        args: command_line(&rt.shell, command),
        working_directory,
    }
}

} // verus!
