use dotree::lexer::{ParseError, ParseErrorKind};
use dotree::locate::{default_config_dir, search_start, search_step, SearchMove};
use dotree::session::{child_ending, session_config, session_shell, shell_from_env, Ending};
use dotree::shell::{RuntimeConfig, ShellDef};

fn t(s: &str) -> Vec<char> {
    s.chars().collect()
}

fn flag_shell(name: &str, flag: &str) -> ShellDef {
    ShellDef { program: t(name), before: vec![t(flag)], after: vec![] }
}

/// Runs a whole search over a chain and tells how it ended and which places
/// it asked.
fn search(exists: &[bool]) -> (SearchMove, Vec<usize>) {
    let mut asked = Vec::new();
    let mut next = search_start(exists.len());
    while let SearchMove::Probe(at) = next {
        asked.push(at);
        next = search_step(exists.len(), at, exists[at]);
    }
    (next, asked)
}

#[test]
fn named_directory_wins_over_the_platform() {
    assert_eq!(default_config_dir(Some(t("/xdg")), Some(t("/home/u/.config"))), Some(t("/xdg")));
    assert_eq!(default_config_dir(Some(t("/xdg")), None), Some(t("/xdg")));
    assert_eq!(default_config_dir(None, Some(t("/home/u/.config"))), Some(t("/home/u/.config")));
    assert_eq!(default_config_dir::<Vec<char>>(None, None), None);
    assert_eq!(default_config_dir(Some(t("")), Some(t("/p"))), Some(t("")));
}

#[test]
fn search_starts_at_the_nearest_directory() {
    assert_eq!(search_start(3), SearchMove::Probe(0));
    assert_eq!(search_start(1), SearchMove::Probe(0));
    assert_eq!(search_start(0), SearchMove::NotFound);
}

#[test]
fn search_step_follows_the_answer() {
    assert_eq!(search_step(3, 0, true), SearchMove::Found(0));
    assert_eq!(search_step(3, 0, false), SearchMove::Probe(1));
    assert_eq!(search_step(3, 1, false), SearchMove::Probe(2));
    assert_eq!(search_step(3, 2, true), SearchMove::Found(2));
    assert_eq!(search_step(3, 2, false), SearchMove::NotFound);
    assert_eq!(search_step(1, 0, false), SearchMove::NotFound);
}

#[test]
fn nearest_file_wins() {
    assert_eq!(search(&[false, true, false, true]), (SearchMove::Found(1), vec![0, 1]));
    assert_eq!(search(&[true, true]), (SearchMove::Found(0), vec![0]));
}

#[test]
fn root_is_asked_too() {
    assert_eq!(search(&[false, false, true]), (SearchMove::Found(2), vec![0, 1, 2]));
    assert_eq!(search(&[true]), (SearchMove::Found(0), vec![0]));
}

#[test]
fn no_file_on_the_chain_is_not_found() {
    assert_eq!(search(&[false, false, false]), (SearchMove::NotFound, vec![0, 1, 2]));
    assert_eq!(search(&[false]), (SearchMove::NotFound, vec![0]));
    assert_eq!(search(&[]), (SearchMove::NotFound, vec![]));
}

#[test]
fn unset_variable_names_no_shell() {
    assert_eq!(shell_from_env(None), Ok(None));
}

#[test]
fn set_variable_is_read_as_a_directive() {
    assert_eq!(shell_from_env(Some(&t("bash"))), Ok(Some(flag_shell("bash", "-c"))));
    assert_eq!(
        shell_from_env(Some(&t("nu -c {} -q"))),
        Ok(Some(ShellDef { program: t("nu"), before: vec![t("-c")], after: vec![t("-q")] }))
    );
}

#[test]
fn bad_variable_is_a_fault_and_no_default() {
    assert_eq!(
        shell_from_env(Some(&t("nosuch"))),
        Err(ParseError { kind: ParseErrorKind::UnknownShellName, offset: 6 })
    );
    assert_eq!(
        shell_from_env(Some(&t(""))),
        Err(ParseError { kind: ParseErrorKind::MalformedShellSpec, offset: 6 })
    );
    assert_eq!(
        shell_from_env(Some(&t("sh -c"))),
        Err(ParseError { kind: ParseErrorKind::MalformedShellSpec, offset: 6 })
    );
}

#[test]
fn file_shell_is_used_without_reading_the_variable() {
    let file = flag_shell("zsh", "-c");
    assert_eq!(session_shell(Some(file.clone()), None), Ok(file.clone()));
    assert_eq!(session_shell(Some(file.clone()), Some(&t("fish"))), Ok(file.clone()));
    assert_eq!(session_shell(Some(file.clone()), Some(&t("nosuch"))), Ok(file.clone()));
    assert_eq!(session_shell(Some(file.clone()), Some(&t(""))), Ok(file));
}

#[test]
fn variable_is_used_where_the_file_names_no_shell() {
    assert_eq!(session_shell(None, Some(&t("fish"))), Ok(flag_shell("fish", "-c")));
    assert_eq!(
        session_shell(None, Some(&t("nosuch"))),
        Err(ParseError { kind: ParseErrorKind::UnknownShellName, offset: 6 })
    );
    assert_eq!(session_shell(None, None), Ok(ShellDef::default()));
}

#[test]
fn session_settings_hold_directory_and_shell() {
    assert_eq!(
        session_config(Some(t("/repo")), None, Some(&t("sh"))),
        Ok(RuntimeConfig { working_directory: Some(t("/repo")), shell: flag_shell("sh", "-c") })
    );
    assert_eq!(
        session_config(None, Some(flag_shell("cmd", "/c")), Some(&t("nosuch"))),
        Ok(RuntimeConfig { working_directory: None, shell: flag_shell("cmd", "/c") })
    );
    assert_eq!(
        session_config(Some(t("/repo")), None, Some(&t("nosuch"))),
        Err(ParseError { kind: ParseErrorKind::UnknownShellName, offset: 6 })
    );
}

#[test]
fn child_without_status_counts_as_failure() {
    assert_eq!(child_ending(Some(0)), Ending::Ran(0));
    assert_eq!(child_ending(Some(7)), Ending::Ran(7));
    assert_eq!(child_ending(None), Ending::Failed);
}
