use dotree::engine::{breadcrumb, replay, step, visible_entries, Key, Outcome, State};
use dotree::matching::matching_entries;
use dotree::model::Menu;
use dotree::parser::parse;
use dotree::session::{exit_code, Ending};

fn t(s: &str) -> Vec<char> {
    s.chars().collect()
}

fn menu(source: &str) -> Menu {
    parse(&t(source)).unwrap().menu
}

fn git_menu() -> Menu {
    menu("menu {\n g \"Git\" {\n  s \"Status\" => git status\n  sh \"Show\" => git show\n  l \"Log\" { o \"Oneline\" => git log --oneline\n }\n }\n q \"Quit\" => exit 0\n}")
}

fn at(path: Vec<usize>, buffer: &str) -> State {
    State { path, buffer: t(buffer) }
}

#[test]
fn single_key_resolves_at_once() {
    let root = git_menu();
    let (state, outcome) = replay(&root, State::new(), &t("q"));
    assert_eq!(outcome, Outcome::Resolved(t("exit 0")));
    assert_eq!(state, at(vec![], "q"));
}

#[test]
fn shared_prefix_waits_then_resolves() {
    let root = menu("menu {\n s \"Status\" => git status\n sh \"Shell\" => bash\n}");
    let (state, outcome) = replay(&root, State::new(), &t("s"));
    assert_eq!(outcome, Outcome::Pending);
    assert_eq!(state, at(vec![], "s"));
    assert_eq!(visible_entries(&root, &state), vec![0, 1]);
    let (state, outcome) = step(&root, state, Key::Char('h'));
    assert_eq!(outcome, Outcome::Resolved(t("bash")));
    assert_eq!(state, at(vec![], "sh"));
}

#[test]
fn cancel_mid_buffer_runs_nothing() {
    let root = menu("menu {\n s \"Status\" => git status\n sh \"Shell\" => bash\n}");
    let (state, _) = step(&root, State::new(), Key::Char('s'));
    let (state, outcome) = step(&root, state, Key::Cancel);
    assert_eq!(outcome, Outcome::Cancelled);
    assert_eq!(state, at(vec![], "s"));
    assert_eq!(exit_code(Ending::Cancelled), 0);
}

#[test]
fn matching_keeps_menu_order() {
    let root = menu("menu {\n ab \"1\" => 1\n b \"2\" => 2\n a \"3\" => 3\n abc \"4\" => 4\n}");
    assert_eq!(matching_entries(&root, &t("")), vec![0, 1, 2, 3]);
    assert_eq!(matching_entries(&root, &t("a")), vec![0, 2, 3]);
    assert_eq!(matching_entries(&root, &t("ab")), vec![0, 3]);
    assert_eq!(matching_entries(&root, &t("abc")), vec![3]);
    assert_eq!(matching_entries(&root, &t("abcd")), Vec::<usize>::new());
    assert_eq!(matching_entries(&root, &t("A")), Vec::<usize>::new());
    assert_eq!(matching_entries(&root, &t("a")), matching_entries(&root, &t("a")));
}

#[test]
fn descends_into_a_submenu() {
    let root = git_menu();
    let (state, outcome) = step(&root, State::new(), Key::Char('g'));
    assert_eq!(outcome, Outcome::Pending);
    assert_eq!(state, at(vec![0], ""));
    assert_eq!(visible_entries(&root, &state), vec![0, 1, 2]);
    assert_eq!(breadcrumb(&root, &state), vec![t("Git")]);
    let (state, outcome) = replay(&root, state, &t("lo"));
    assert_eq!(outcome, Outcome::Resolved(t("git log --oneline")));
    assert_eq!(state, at(vec![0, 2], "o"));
    assert_eq!(breadcrumb(&root, &state), vec![t("Git"), t("Log")]);
}

#[test]
fn replay_walks_the_whole_path() {
    let root = git_menu();
    let (state, outcome) = replay(&root, State::new(), &t("gsh"));
    assert_eq!(outcome, Outcome::Resolved(t("git show")));
    assert_eq!(state, at(vec![0], "sh"));
}

#[test]
fn replay_stops_at_the_first_command() {
    let root = git_menu();
    let (state, outcome) = replay(&root, State::new(), &t("qgs"));
    assert_eq!(outcome, Outcome::Resolved(t("exit 0")));
    assert_eq!(state, at(vec![], "q"));
}

#[test]
fn replay_of_nothing_waits() {
    let root = git_menu();
    let (state, outcome) = replay(&root, State::new(), &t(""));
    assert_eq!(outcome, Outcome::Pending);
    assert_eq!(state, State::new());
}

#[test]
fn replay_that_runs_out_is_incomplete() {
    let root = git_menu();
    let (state, outcome) = replay(&root, State::new(), &t("gs"));
    assert_eq!(outcome, Outcome::Pending);
    assert_eq!(state, at(vec![0], "s"));
}

#[test]
fn invalid_key_is_dropped() {
    let root = git_menu();
    let (state, outcome) = step(&root, State::new(), Key::Char('x'));
    assert_eq!(outcome, Outcome::Invalid);
    assert_eq!(state, State::new());
    let (state, outcome) = replay(&root, state, &t("gsx"));
    assert_eq!(outcome, Outcome::Invalid);
    assert_eq!(state, at(vec![0], "s"));
}

#[test]
fn erase_takes_the_last_character() {
    let root = git_menu();
    let (typed, _) = replay(&root, State::new(), &t("gs"));
    let (erased, outcome) = step(&root, typed, Key::Erase);
    assert_eq!(outcome, Outcome::Pending);
    assert_eq!(erased, at(vec![0], ""));
}

#[test]
fn erase_with_nothing_typed_goes_up() {
    let root = git_menu();
    let (inner, _) = replay(&root, State::new(), &t("gl"));
    assert_eq!(inner, at(vec![0, 2], ""));
    let (up, _) = step(&root, inner, Key::Erase);
    assert_eq!(up, at(vec![0], ""));
    let (top, _) = step(&root, up, Key::Erase);
    assert_eq!(top, State::new());
}

#[test]
fn erase_at_the_root_does_nothing() {
    let root = git_menu();
    let (state, outcome) = step(&root, State::new(), Key::Erase);
    assert_eq!(outcome, Outcome::Pending);
    assert_eq!(state, State::new());
}

#[test]
fn erase_undoes_a_kept_character() {
    let root = git_menu();
    let (before, _) = replay(&root, State::new(), &t("g"));
    let (typed, outcome) = step(&root, before.clone(), Key::Char('s'));
    assert_eq!(outcome, Outcome::Pending);
    let (back, _) = step(&root, typed, Key::Erase);
    assert_eq!(back, before);
    let (entered, _) = step(&root, State::new(), Key::Char('g'));
    let (back, _) = step(&root, entered, Key::Erase);
    assert_eq!(back, State::new());
}

#[test]
fn typing_a_trigger_reaches_its_entry() {
    let root = menu("menu {\n build \"Build\" => make\n bench \"Bench\" => make bench\n}");
    let (state, outcome) = replay(&root, State::new(), &t("buil"));
    assert_eq!(outcome, Outcome::Pending);
    assert_eq!(visible_entries(&root, &state), vec![0]);
    let (_, outcome) = step(&root, state, Key::Char('d'));
    assert_eq!(outcome, Outcome::Resolved(t("make")));
}

#[test]
fn empty_menu_rejects_every_key() {
    let root = menu("menu {}");
    let (state, outcome) = step(&root, State::new(), Key::Char('a'));
    assert_eq!(outcome, Outcome::Invalid);
    assert_eq!(state, State::new());
    assert_eq!(visible_entries(&root, &state), Vec::<usize>::new());
}

#[test]
fn states_are_checked_against_the_tree() {
    let root = git_menu();
    assert!(dotree::engine::state_fits(&root, &State::new()));
    assert!(dotree::engine::state_fits(&root, &at(vec![0], "s")));
    assert!(dotree::engine::state_fits(&root, &at(vec![0, 2], "")));
    assert!(!dotree::engine::state_fits(&root, &at(vec![1], "")));
    assert!(!dotree::engine::state_fits(&root, &at(vec![2], "")));
    assert!(!dotree::engine::state_fits(&root, &at(vec![0, 0], "")));
}
