use dotree::lexer::{ParseError, ParseErrorKind};
use dotree::model::{Entry, Menu, Node};
use dotree::parser::{parse, parse_shell_string, shell_from_value};
use dotree::shell::ShellDef;
use dotree::snippet::Snippet;

fn t(s: &str) -> Vec<char> {
    s.chars().collect()
}

fn action(trigger: &str, label: &str, template: &str) -> Entry {
    Entry { trigger: t(trigger), label: t(label), child: Node::Action(t(template)) }
}

fn submenu(trigger: &str, label: &str, entries: Vec<Entry>) -> Entry {
    Entry { trigger: t(trigger), label: t(label), child: Node::Menu(Menu { entries }) }
}

fn fails(source: &str, kind: ParseErrorKind, offset: usize) {
    assert_eq!(parse(&t(source)).unwrap_err(), ParseError { kind, offset });
}

#[test]
fn parses_nested_menus_in_order() {
    let source = "# launcher\nmenu {\n    g \"Git\" {\n        s \"Status\" => git status\n        p \"Push\" => \"git push\"\n    }\n    q \"Quit\" => exit 0\n}\n";
    let config = parse(&t(source)).unwrap();
    assert_eq!(
        config.menu,
        Menu {
            entries: vec![
                submenu(
                    "g",
                    "Git",
                    vec![action("s", "Status", "git status"), action("p", "Push", "git push")]
                ),
                action("q", "Quit", "exit 0"),
            ]
        }
    );
    assert_eq!(config.shell_def, None);
    assert!(config.snippet_table.snippets.is_empty());
}

#[test]
fn parses_an_empty_menu() {
    let config = parse(&t("menu{}")).unwrap();
    assert!(config.menu.entries.is_empty());
}

#[test]
fn sections_may_come_in_any_order() {
    let source = "snippet branch { main }\nshell zsh\nmenu { p \"Push\" => git push origin @{branch}\n}";
    let config = parse(&t(source)).unwrap();
    assert_eq!(
        config.snippet_table.snippets,
        vec![Snippet { name: t("branch"), template: t("main") }]
    );
    assert_eq!(
        config.shell_def,
        Some(ShellDef { program: t("zsh"), before: vec![t("-c")], after: vec![] })
    );
    assert_eq!(config.menu.entries, vec![action("p", "Push", "git push origin @{branch}")]);
}

#[test]
fn bare_command_runs_to_the_end_of_the_line() {
    let config = parse(&t("menu {\n a \"A\" =>   echo hi # not a comment  \r\n}")).unwrap();
    assert_eq!(config.menu.entries, vec![action("a", "A", "echo hi # not a comment")]);
}

#[test]
fn quoted_command_holds_escapes_and_lines() {
    let source = "menu { a \"say \\\"hi\\\"\" => \"echo one\necho\\ttwo\\\\ \\n\" }";
    let config = parse(&t(source)).unwrap();
    assert_eq!(
        config.menu.entries,
        vec![action("a", "say \"hi\"", "echo one\necho\ttwo\\ \n")]
    );
}

#[test]
fn snippet_body_keeps_nested_braces() {
    let config = parse(&t("menu {}\nsnippet env {\n  echo ${HOME} @{other}\n}")).unwrap();
    assert_eq!(
        config.snippet_table.snippets,
        vec![Snippet { name: t("env"), template: t("echo ${HOME} @{other}") }]
    );
}

#[test]
fn prefix_triggers_are_accepted() {
    let config = parse(&t("menu {\n s \"Status\" => git status\n sh \"Shell\" => bash\n}")).unwrap();
    assert_eq!(
        config.menu.entries,
        vec![action("s", "Status", "git status"), action("sh", "Shell", "bash")]
    );
}

#[test]
fn duplicate_trigger_is_refused() {
    fails(
        "menu {\n a \"One\" => one\n a \"Two\" => two\n}",
        ParseErrorKind::DuplicateTrigger,
        24,
    );
}

#[test]
fn duplicate_trigger_of_a_submenu_is_refused() {
    fails("menu { a \"A\" { }\n a \"B\" => b\n}", ParseErrorKind::DuplicateTrigger, 18);
}

#[test]
fn same_trigger_in_different_menus_is_accepted() {
    let config = parse(&t("menu { a \"A\" { a \"Inner\" => x\n } }")).unwrap();
    assert_eq!(config.menu.entries, vec![submenu("a", "A", vec![action("a", "Inner", "x")])]);
}

#[test]
fn unterminated_menu_is_refused() {
    fails("menu {\n a \"A\" {\n", ParseErrorKind::UnterminatedBlock, 14);
    fails("menu {", ParseErrorKind::UnterminatedBlock, 5);
}

#[test]
fn unterminated_label_is_refused() {
    fails("menu { a \"A", ParseErrorKind::UnterminatedBlock, 9);
    fails("menu { a \"A\\", ParseErrorKind::UnterminatedBlock, 9);
}

#[test]
fn unterminated_snippet_is_refused() {
    fails("menu {}\nsnippet a { {x}", ParseErrorKind::UnterminatedBlock, 18);
}

#[test]
fn unexpected_tokens_are_refused() {
    fails("hello", ParseErrorKind::UnexpectedToken, 0);
    fails("menu x", ParseErrorKind::UnexpectedToken, 5);
    fails("menu { a b }", ParseErrorKind::UnexpectedToken, 9);
    fails("menu { a \"A\" b }", ParseErrorKind::UnexpectedToken, 13);
    fails("menu { a \"A\" =>\n}", ParseErrorKind::UnexpectedToken, 15);
    fails("menu { \"A\" => x\n}", ParseErrorKind::UnexpectedToken, 7);
    fails("menu { a \"\\q\" => x\n}", ParseErrorKind::UnexpectedToken, 10);
    fails("menu {}\nsnippet { x }", ParseErrorKind::UnexpectedToken, 16);
    fails("menu {}\nsnippet a x", ParseErrorKind::UnexpectedToken, 18);
    fails("}", ParseErrorKind::UnexpectedToken, 0);
}

#[test]
fn malformed_reference_in_a_command_is_refused() {
    fails("menu { a \"A\" => echo @{}\n}", ParseErrorKind::UnexpectedToken, 16);
    fails("menu { a \"A\" => \"echo @{a b}\"\n}", ParseErrorKind::UnexpectedToken, 16);
}

#[test]
fn missing_menu_is_refused() {
    fails("", ParseErrorKind::MissingMenu, 0);
    fails("shell bash\n# none", ParseErrorKind::MissingMenu, 17);
}

#[test]
fn second_menu_or_shell_is_refused() {
    fails("menu {}\nmenu {}", ParseErrorKind::DuplicateDirective, 8);
    fails("shell sh\nshell sh\nmenu {}", ParseErrorKind::DuplicateDirective, 9);
}

#[test]
fn duplicate_snippet_is_refused() {
    fails("snippet a { x }\nsnippet a { y }\nmenu {}", ParseErrorKind::DuplicateSnippet, 24);
}

#[test]
fn unknown_shell_name_is_refused() {
    fails("menu {}\nshell   tcsh", ParseErrorKind::UnknownShellName, 16);
}

#[test]
fn malformed_shell_spec_is_refused() {
    fails("menu {}\nshell", ParseErrorKind::MalformedShellSpec, 13);
    fails("menu {}\nshell sh -c", ParseErrorKind::MalformedShellSpec, 14);
    fails("menu {}\nshell sh {} {}", ParseErrorKind::MalformedShellSpec, 14);
}

#[test]
fn explicit_shell_spec_keeps_arguments_around_the_slot() {
    let config = parse(&t("shell nu --login -c {} --quiet\nmenu {}")).unwrap();
    assert_eq!(
        config.shell_def,
        Some(ShellDef {
            program: t("nu"),
            before: vec![t("--login"), t("-c")],
            after: vec![t("--quiet")],
        })
    );
}

#[test]
fn shell_string_is_read_like_the_directive() {
    let alone = parse_shell_string(&t("shell fish")).unwrap();
    let in_file = parse(&t("shell fish\nmenu {}")).unwrap().shell_def.unwrap();
    assert_eq!(alone, in_file);
    assert_eq!(alone, ShellDef { program: t("fish"), before: vec![t("-c")], after: vec![] });
}

#[test]
fn shell_string_refuses_anything_else() {
    assert_eq!(
        parse_shell_string(&t("menu {}")).unwrap_err(),
        ParseError { kind: ParseErrorKind::UnexpectedToken, offset: 0 }
    );
    assert_eq!(
        parse_shell_string(&t("shell bash\nmenu {}")).unwrap_err(),
        ParseError { kind: ParseErrorKind::UnexpectedToken, offset: 11 }
    );
    assert_eq!(
        parse_shell_string(&t("")).unwrap_err(),
        ParseError { kind: ParseErrorKind::UnexpectedToken, offset: 0 }
    );
}

#[test]
fn shell_from_value_wraps_the_value() {
    assert_eq!(
        shell_from_value(&t("pwsh")).unwrap(),
        ShellDef { program: t("pwsh"), before: vec![t("-Command")], after: vec![] }
    );
    assert_eq!(
        shell_from_value(&t("env sh -c {}")).unwrap(),
        ShellDef { program: t("env"), before: vec![t("sh"), t("-c")], after: vec![] }
    );
    assert_eq!(
        shell_from_value(&t("nosuch")).unwrap_err(),
        ParseError { kind: ParseErrorKind::UnknownShellName, offset: 6 }
    );
    assert_eq!(
        shell_from_value(&t("")).unwrap_err(),
        ParseError { kind: ParseErrorKind::MalformedShellSpec, offset: 6 }
    );
}
