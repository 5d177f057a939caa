use dotree::lexer::{find_block_end, pass_trivia, read_quoted, split_words, trim_end};
use dotree::lexer::{position, Position};
use dotree::session::{concat_input, exit_code, next_move, Ending, Move};
use dotree::engine::Outcome;
use dotree::shell::{
    builtin, choose_shell, command_line, invocation, shell_from_words, Invocation, RuntimeConfig,
    ShellDef, ShellFault,
};
use dotree::text::{append_text, copy_range, starts_with, text_eq, text_is, text_of};

fn t(s: &str) -> Vec<char> {
    s.chars().collect()
}

fn words(list: &[&str]) -> Vec<Vec<char>> {
    list.iter().map(|w| t(w)).collect()
}

#[test]
fn short_names_stand_for_their_invocations() {
    for name in ["bash", "zsh", "fish", "sh"] {
        assert_eq!(
            builtin(&t(name)),
            Some(ShellDef { program: t(name), before: vec![t("-c")], after: vec![] })
        );
    }
    assert_eq!(
        builtin(&t("cmd")),
        Some(ShellDef { program: t("cmd"), before: vec![t("/c")], after: vec![] })
    );
    for name in ["powershell", "pwsh"] {
        assert_eq!(
            builtin(&t(name)),
            Some(ShellDef { program: t(name), before: vec![t("-Command")], after: vec![] })
        );
    }
    assert_eq!(builtin(&t("Bash")), None);
    assert_eq!(builtin(&t("")), None);
}

#[test]
fn default_shell_is_bash() {
    assert_eq!(
        ShellDef::default(),
        ShellDef { program: t("bash"), before: vec![t("-c")], after: vec![] }
    );
}

#[test]
fn words_make_a_shell() {
    assert_eq!(shell_from_words(&words(&[])), Err(ShellFault::Malformed));
    assert_eq!(shell_from_words(&words(&["ksh"])), Err(ShellFault::UnknownName));
    assert_eq!(shell_from_words(&words(&["{}"])), Err(ShellFault::UnknownName));
    assert_eq!(shell_from_words(&words(&["ksh", "-c"])), Err(ShellFault::Malformed));
    assert_eq!(shell_from_words(&words(&["ksh", "{}", "-x", "{}"])), Err(ShellFault::Malformed));
    assert_eq!(
        shell_from_words(&words(&["ksh", "{}"])),
        Ok(ShellDef { program: t("ksh"), before: vec![], after: vec![] })
    );
    assert_eq!(
        shell_from_words(&words(&["{}", "a", "{}", "b", "c"])),
        Ok(ShellDef { program: t("{}"), before: vec![t("a")], after: vec![t("b"), t("c")] })
    );
}

#[test]
fn command_takes_the_slot() {
    let shell = ShellDef { program: t("nu"), before: vec![t("-l"), t("-c")], after: vec![t("-q")] };
    assert_eq!(
        command_line(&shell, &t("ls -la")),
        vec![t("-l"), t("-c"), t("ls -la"), t("-q")]
    );
    let bare = ShellDef { program: t("run"), before: vec![], after: vec![] };
    assert_eq!(command_line(&bare, &t("")), vec![t("")]);
}

#[test]
fn file_shell_wins_over_environment() {
    let file = ShellDef { program: t("zsh"), before: vec![t("-c")], after: vec![] };
    let env = ShellDef { program: t("fish"), before: vec![t("-c")], after: vec![] };
    assert_eq!(choose_shell(Some(file.clone()), Some(env.clone())), file);
    assert_eq!(choose_shell(None, Some(env.clone())), env);
    assert_eq!(choose_shell(None, None), ShellDef::default());
    let rt = RuntimeConfig::new(Some(t("/work")), None, Some(env.clone()));
    assert_eq!(rt.working_directory, Some(t("/work")));
    assert_eq!(rt.shell, env);
    let rt = RuntimeConfig::new(None, Some(file.clone()), None);
    assert_eq!(rt.working_directory, None);
    assert_eq!(rt.shell, file);
}

#[test]
fn exit_codes_are_fixed() {
    assert_eq!(exit_code(Ending::Ran(0)), 0);
    assert_eq!(exit_code(Ending::Ran(3)), 3);
    assert_eq!(exit_code(Ending::Ran(-1)), -1);
    assert_eq!(exit_code(Ending::Cancelled), 0);
    assert_eq!(exit_code(Ending::Failed), 1);
}

#[test]
fn text_helpers_compare_and_copy() {
    assert!(starts_with(&t("shell"), &t("sh")));
    assert!(starts_with(&t("sh"), &t("sh")));
    assert!(starts_with(&t("sh"), &t("")));
    assert!(!starts_with(&t("s"), &t("sh")));
    assert!(!starts_with(&t("shell"), &t("Sh")));
    assert!(text_eq(&t("ab"), &t("ab")));
    assert!(!text_eq(&t("ab"), &t("abc")));
    assert!(!text_eq(&t("ab"), &t("ac")));
    assert!(text_is(&t("menu"), "menu"));
    assert!(!text_is(&t("menu"), "men"));
    assert_eq!(text_of("héllo"), t("héllo"));
    assert_eq!(copy_range(&t("abcdef"), 2, 4), t("cd"));
    let mut out = t("ab");
    append_text(&mut out, &t("cd"));
    assert_eq!(out, t("abcd"));
}

#[test]
fn scanners_find_their_places() {
    assert_eq!(pass_trivia(&t("  # note\n\t x"), 0), 11);
    assert_eq!(pass_trivia(&t("# only"), 0), 6);
    assert_eq!(pass_trivia(&t("x"), 0), 0);
    assert_eq!(trim_end(&t("ab  \t"), 0, 5), 2);
    assert_eq!(trim_end(&t("   "), 1, 3), 1);
    assert_eq!(find_block_end(&t("a{b}c}d"), 0), Some(5));
    assert_eq!(find_block_end(&t("a{b}c"), 0), None);
    assert_eq!(read_quoted(&t("x\"a\\tb\" y"), 1), Ok((t("a\tb"), 7)));
    assert_eq!(split_words(&t("  a bc\t d  "), 0, 11), words(&["a", "bc", "d"]));
    assert_eq!(split_words(&t("a bc d"), 1, 4), words(&["bc"]));
    assert_eq!(split_words(&t("   "), 0, 3), words(&[]));
}

#[test]
fn invocation_holds_program_arguments_and_directory() {
    let shell = ShellDef { program: t("sh"), before: vec![t("-c")], after: vec![] };
    let rt = RuntimeConfig::new(Some(t("/repo")), Some(shell), None);
    assert_eq!(
        invocation(&rt, &t("make test")),
        Invocation {
            program: t("sh"),
            args: vec![t("-c"), t("make test")],
            working_directory: Some(t("/repo")),
        }
    );
    let rt = RuntimeConfig::new(None, None, None);
    assert_eq!(
        invocation(&rt, &t("ls")),
        Invocation { program: t("bash"), args: vec![t("-c"), t("ls")], working_directory: None }
    );
}

#[test]
fn input_fragments_are_joined() {
    assert_eq!(concat_input(&words(&["g", "sh", "", "x"])), t("gshx"));
    assert_eq!(concat_input(&words(&[])), t(""));
}

#[test]
fn outcomes_decide_the_next_move() {
    assert_eq!(next_move(Outcome::Resolved(t("ls")), true), Move::Run(t("ls")));
    assert_eq!(next_move(Outcome::Resolved(t("ls")), false), Move::Run(t("ls")));
    assert_eq!(next_move(Outcome::Cancelled, true), Move::Quit);
    assert_eq!(next_move(Outcome::Cancelled, false), Move::Quit);
    assert_eq!(next_move(Outcome::Pending, true), Move::Await);
    assert_eq!(next_move(Outcome::Invalid, true), Move::Await);
    assert_eq!(next_move(Outcome::Pending, false), Move::Incomplete);
    assert_eq!(next_move(Outcome::Invalid, false), Move::Incomplete);
}

#[test]
fn offsets_become_lines_and_columns() {
    let source = t("ab\ncd\n\nxyz");
    assert_eq!(position(&source, 0), Position { line: 0, column: 0 });
    assert_eq!(position(&source, 2), Position { line: 0, column: 2 });
    assert_eq!(position(&source, 3), Position { line: 1, column: 0 });
    assert_eq!(position(&source, 6), Position { line: 2, column: 0 });
    assert_eq!(position(&source, 9), Position { line: 3, column: 2 });
    assert_eq!(position(&source, 10), Position { line: 3, column: 3 });
}
