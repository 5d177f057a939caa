use dotree::parser::parse;
use dotree::shell::{command_line, ShellDef};
use dotree::snippet::{check_refs, expand, find_snippet, ExpandError, Snippet, SnippetTable};

fn t(s: &str) -> Vec<char> {
    s.chars().collect()
}

fn table(pairs: &[(&str, &str)]) -> SnippetTable {
    SnippetTable {
        snippets: pairs.iter().map(|(n, b)| Snippet { name: t(n), template: t(b) }).collect(),
    }
}

#[test]
fn snippet_text_reaches_the_command() {
    let source = "menu {\n p \"Push\" => git push origin @{branch}\n}\nsnippet branch { main }";
    let config = parse(&t(source)).unwrap();
    let template = match &config.menu.entries[0].child {
        dotree::model::Node::Action(template) => template.clone(),
        dotree::model::Node::Menu(_) => panic!("an action was expected"),
    };
    let command = expand(&template, &config.snippet_table).unwrap();
    assert_eq!(command, t("git push origin main"));
    let args = command_line(&ShellDef::default(), &command);
    assert_eq!(args, vec![t("-c"), t("git push origin main")]);
}

#[test]
fn plain_text_expands_to_itself() {
    let snippets = table(&[("a", "x")]);
    for text in ["", "echo hi", "mail me@example.org", "@", "a @ {b} ${HOME}", "price: 5@"] {
        assert_eq!(expand(&t(text), &snippets).unwrap(), t(text));
    }
}

#[test]
fn expansion_is_idempotent_on_its_result() {
    let snippets = table(&[("a", "one @{b}"), ("b", "two")]);
    let once = expand(&t("say @{a}!"), &snippets).unwrap();
    assert_eq!(once, t("say one two!"));
    assert_eq!(expand(&once, &snippets).unwrap(), once);
}

#[test]
fn references_expand_transitively_and_repeatedly() {
    let snippets = table(&[("a", "[@{b}@{b}]"), ("b", "<@{c}>"), ("c", "x")]);
    assert_eq!(expand(&t("@{a}-@{c}@{a}"), &snippets).unwrap(), t("[<x><x>]-x[<x><x>]"));
}

#[test]
fn cycle_of_two_is_named() {
    let snippets = table(&[("a", "1 @{b}"), ("b", "2 @{a}")]);
    assert_eq!(
        expand(&t("run @{a}"), &snippets).unwrap_err(),
        ExpandError::Cyclic(vec![t("a"), t("b"), t("a")])
    );
    assert_eq!(
        expand(&t("run @{b}"), &snippets).unwrap_err(),
        ExpandError::Cyclic(vec![t("b"), t("a"), t("b")])
    );
}

#[test]
fn self_reference_is_a_cycle() {
    let snippets = table(&[("a", "@{a}")]);
    assert_eq!(
        expand(&t("@{a}"), &snippets).unwrap_err(),
        ExpandError::Cyclic(vec![t("a"), t("a")])
    );
}

#[test]
fn unused_cycle_does_no_harm() {
    let snippets = table(&[("a", "@{b}"), ("b", "@{a}"), ("c", "fine")]);
    assert_eq!(expand(&t("@{c}"), &snippets).unwrap(), t("fine"));
}

#[test]
fn unknown_snippet_is_named() {
    let snippets = table(&[("a", "@{missing}")]);
    assert_eq!(expand(&t("@{nope}"), &snippets).unwrap_err(), ExpandError::Unknown(t("nope")));
    assert_eq!(expand(&t("x @{a}"), &snippets).unwrap_err(), ExpandError::Unknown(t("missing")));
}

#[test]
fn first_fault_from_the_left_wins() {
    let snippets = table(&[("a", "@{a}")]);
    assert_eq!(expand(&t("@{zz} @{a}"), &snippets).unwrap_err(), ExpandError::Unknown(t("zz")));
    assert_eq!(
        expand(&t("@{a} @{zz}"), &snippets).unwrap_err(),
        ExpandError::Cyclic(vec![t("a"), t("a")])
    );
}

#[test]
fn malformed_reference_is_located() {
    let snippets = table(&[("a", "x")]);
    assert_eq!(expand(&t("ab @{}"), &snippets).unwrap_err(), ExpandError::Malformed(3));
    assert_eq!(expand(&t("@{a"), &snippets).unwrap_err(), ExpandError::Malformed(0));
    assert_eq!(expand(&t("@{a b}"), &snippets).unwrap_err(), ExpandError::Malformed(0));
    assert_eq!(expand(&t("@{"), &snippets).unwrap_err(), ExpandError::Malformed(0));
}

#[test]
fn check_refs_tells_well_formed_templates() {
    assert!(check_refs(&t("")));
    assert!(check_refs(&t("echo @{a_b-1} @ {x} @")));
    assert!(!check_refs(&t("echo @{a.b}")));
    assert!(!check_refs(&t("echo @{")));
}

#[test]
fn find_snippet_gives_the_place() {
    let snippets = table(&[("a", "1"), ("b", "2")]);
    assert_eq!(find_snippet(&snippets, &t("b")), Some(1));
    assert_eq!(find_snippet(&snippets, &t("a")), Some(0));
    assert_eq!(find_snippet(&snippets, &t("c")), None);
}
