//! The navigation engine: a state machine over the menu tree that takes one
//! key at a time and says when a command has been chosen.

use crate::matching::{indices, lemma_matching_selects_in_order, matching, matching_entries};
use crate::model::{EntryV, Menu, Node, NodeV};
use crate::text::{copy_text, is_prefix, text_eq, texts};
use vstd::prelude::*;

verus! {

/// One unit of input.
#[derive(Clone, Copy, Debug, PartialEq, Eq)]
pub enum Key {
    /// An ordinary character.
    Char(char),
    /// Backspace.
    Erase,
    /// The quit key or an interrupt.
    Cancel,
}

/// The value of a [`State`].
pub ghost struct StateV {
    /// The entries entered so far, from the root down, each by its index in
    /// the menu that holds it.
    pub path: Seq<int>,
    /// The characters typed in the current menu and not yet resolved.
    pub buffer: Seq<char>,
}

/// The value of an [`Outcome`].
pub ghost enum OutcomeV {
    Pending,
    Invalid,
    Resolved(Seq<char>),
    Cancelled,
}

/// Where the session stands: the menu that is open and what has been typed
/// in it.
#[derive(Clone, Debug, PartialEq, Eq)]
pub struct State {
    pub path: Vec<usize>,
    pub buffer: Vec<char>,
}

/// What a key did.
#[derive(Clone, Debug, PartialEq, Eq)]
pub enum Outcome {
    /// The session goes on and awaits the next key.
    Pending,
    /// The key fits no entry and was dropped; the state is as before.
    Invalid,
    /// A leaf was reached: its command template.
    Resolved(Vec<char>),
    /// The session was given up; nothing is to be run.
    Cancelled,
}

impl View for State {
    type V = StateV;

    open spec fn view(&self) -> StateV {
        StateV { path: indices(self.path@), buffer: self.buffer@ }
    }
}

impl View for Outcome {
    type V = OutcomeV;

    open spec fn view(&self) -> OutcomeV {
        match self {
            Outcome::Pending => OutcomeV::Pending,
            Outcome::Invalid => OutcomeV::Invalid,
            Outcome::Resolved(t) => OutcomeV::Resolved(t@),
            Outcome::Cancelled => OutcomeV::Cancelled,
        }
    }
}

/// The submenu behind entry `i` of `menu`, if that entry exists and leads to
/// one.
pub open spec fn child_menu(menu: Seq<EntryV>, i: int) -> Option<Seq<EntryV>> {
    if 0 <= i < menu.len() {
        match menu[i].child {
            NodeV::Menu(entries) => Some(entries),
            NodeV::Action(_) => None,
        }
    } else {
        None
    }
}

/// The menu reached from `root` along `path`, if the path exists in the tree.
pub open spec fn menu_at(root: Seq<EntryV>, path: Seq<int>) -> Option<Seq<EntryV>>
    decreases path.len(),
{
    if path.len() == 0 {
        Some(root)
    } else {
        match menu_at(root, path.drop_last()) {
            Some(menu) => child_menu(menu, path.last()),
            None => None,
        }
    }
}

/// A state belongs to a tree when its path leads to a menu of that tree.
pub open spec fn state_wf(root: Seq<EntryV>, state: StateV) -> bool {
    menu_at(root, state.path) is Some
}

/// The transition function of the engine.
pub open spec fn step_spec(root: Seq<EntryV>, state: StateV, key: Key) -> (StateV, OutcomeV) {
    match key {
        Key::Cancel => (state, OutcomeV::Cancelled),
        Key::Erase => if state.buffer.len() > 0 {
            (StateV { path: state.path, buffer: state.buffer.drop_last() }, OutcomeV::Pending)
        } else if state.path.len() > 0 {
            (StateV { path: state.path.drop_last(), buffer: Seq::empty() }, OutcomeV::Pending)
        } else {
            (state, OutcomeV::Pending)
        },
        Key::Char(c) => {
            let menu = menu_at(root, state.path)->Some_0;
            let buffer = state.buffer.push(c);
            let found = matching(menu, buffer);
            if found.len() == 0 {
                (state, OutcomeV::Invalid)
            } else if found.len() == 1 && menu[found[0]].trigger == buffer {
                match menu[found[0]].child {
                    NodeV::Menu(_) => (
                        StateV { path: state.path.push(found[0]), buffer: Seq::empty() },
                        OutcomeV::Pending,
                    ),
                    NodeV::Action(template) => (
                        StateV { path: state.path, buffer },
                        OutcomeV::Resolved(template),
                    ),
                }
            } else {
                (StateV { path: state.path, buffer }, OutcomeV::Pending)
            }
        },
    }
}

/// Every prefix of a path that exists in the tree exists in it too.
pub proof fn lemma_path_prefix(root: Seq<EntryV>, path: Seq<int>, k: int)
    requires
        menu_at(root, path) is Some,
        0 <= k <= path.len(),
    ensures
        menu_at(root, path.take(k)) is Some,
    decreases path.len() - k,
{
    if k == path.len() {
        assert(path.take(k) =~= path);
    } else {
        lemma_path_prefix(root, path.drop_last(), k);
        assert(path.drop_last().take(k) =~= path.take(k));
    }
}

impl State {
    /// The state in which a session starts: at the root, nothing typed.
    pub fn new() -> (s: State)
        ensures
            s@.path == Seq::<int>::empty(),
            s@.buffer == Seq::<char>::empty(),
            forall|root: Seq<EntryV>| state_wf(root, s@),
    {
        let s = State { path: Vec::new(), buffer: Vec::new() };
        assert(s@.path =~= Seq::<int>::empty());
        s
    }
}

/// A path whose start leads nowhere leads nowhere.
pub proof fn lemma_path_dead_end(root: Seq<EntryV>, path: Seq<int>, k: int)
    requires
        0 <= k <= path.len(),
        menu_at(root, path.take(k)) is None,
    ensures
        menu_at(root, path) is None,
{
    if menu_at(root, path) is Some {
        lemma_path_prefix(root, path, k);
    }
}

/// Tells whether a state belongs to a tree: whether its path leads to a
/// menu of it.
pub fn state_fits(root: &Menu, state: &State) -> (r: bool)
    ensures
        r == state_wf(root@, state@),
{
    let ghost full = state@.path;
    let mut menu: &Menu = root;
    let mut k: usize = 0;
    assert(full.take(0) =~= Seq::<int>::empty());
    while k < state.path.len()
        invariant
            k <= state.path.len(),
            full == indices(state.path@),
            menu_at(root@, full.take(k as int)) == Some(menu@),
        decreases state.path.len() - k,
    {
        proof {
            assert(full.take(k + 1).drop_last() =~= full.take(k as int));
            assert(full.take(k + 1).last() == state.path@[k as int] as int);
        }
        let i = state.path[k];
        if i >= menu.entries.len() {
            proof {
                lemma_path_dead_end(root@, full, k + 1);
            }
            return false;
        }
        assert(menu@[i as int] == menu.entries@[i as int]@);
        match &menu.entries[i].child {
            Node::Menu(below) => {
                menu = below;
            },
            Node::Action(_) => {
                proof {
                    lemma_path_dead_end(root@, full, k + 1);
                }
                return false;
            },
        }
        k += 1;
    }
    assert(full.take(state.path@.len() as int) =~= full);
    true
}

/// The menu that is open when the entries of `path` have been entered.
pub fn current_menu<'a>(root: &'a Menu, path: &Vec<usize>) -> (menu: &'a Menu)
    requires
        menu_at(root@, indices(path@)) is Some,
    ensures
        menu_at(root@, indices(path@)) == Some(menu@),
{
    let ghost full = indices(path@);
    let mut menu: &Menu = root;
    let mut k: usize = 0;
    assert(full.take(0) =~= Seq::<int>::empty());
    while k < path.len()
        invariant
            k <= path.len(),
            full == indices(path@),
            menu_at(root@, full) is Some,
            menu_at(root@, full.take(k as int)) == Some(menu@),
        decreases path.len() - k,
    {
        proof {
            lemma_path_prefix(root@, full, k + 1);
            assert(full.take(k + 1).drop_last() =~= full.take(k as int));
            assert(full.take(k + 1).last() == path@[k as int] as int);
        }
        let i = path[k];
        assert(menu@[i as int] == menu.entries@[i as int]@);
        match &menu.entries[i].child {
            Node::Menu(below) => {
                menu = below;
            },
            Node::Action(_) => {
                assert(false);
            },
        }
        k += 1;
    }
    assert(full.take(path@.len() as int) =~= full);
    menu
}

/// Applies one key to the state and says what came of it.
///
/// A cancel leaves the state alone. An erase drops the last typed character,
/// or, with nothing typed, goes back to the parent menu; at the root it does
/// nothing. A character is added to the buffer: if no entry of the open menu
/// starts with the buffer it is dropped again; if the buffer is the whole
/// trigger of the only entry left, that entry is taken, which opens its
/// submenu or yields its command; otherwise the session waits for more.
pub fn step(root: &Menu, state: State, key: Key) -> (r: (State, Outcome))
    requires
        state_wf(root@, state@),
    ensures
        (r.0@, r.1@) == step_spec(root@, state@, key),
        state_wf(root@, r.0@),
{
    let ghost before = state@;
    let mut state = state;
    match key {
        Key::Cancel => (state, Outcome::Cancelled),
        Key::Erase => {
            if state.buffer.len() > 0 {
                state.buffer.pop();
            } else if state.path.len() > 0 {
                state.path.pop();
                assert(state@.path =~= before.path.drop_last());
                assert(state@.buffer =~= Seq::<char>::empty());
            }
            (state, Outcome::Pending)
        },
        Key::Char(c) => {
            let menu = current_menu(root, &state.path);
            state.buffer.push(c);
            let found = matching_entries(menu, state.buffer.as_slice());
            proof {
                lemma_matching_selects_in_order(menu@, state.buffer@);
            }
            if found.len() == 0 {
                state.buffer.pop();
                assert(state@.buffer =~= before.buffer);
                (state, Outcome::Invalid)
            } else if found.len() == 1 {
                let i = found[0];
                assert(indices(found@)[0] == i as int);
                assert(menu@[i as int] == menu.entries@[i as int]@);
                let entry = &menu.entries[i];
                if text_eq(entry.trigger.as_slice(), state.buffer.as_slice()) {
                    match &entry.child {
                        Node::Menu(_) => {
                            state.path.push(i);
                            state.buffer.clear();
                            assert(state@.path =~= before.path.push(i as int));
                            assert(state@.path.drop_last() =~= before.path);
                            assert(state@.buffer =~= Seq::<char>::empty());
                            (state, Outcome::Pending)
                        },
                        Node::Action(template) => {
                            let command = copy_text(template.as_slice());
                            (state, Outcome::Resolved(command))
                        },
                    }
                } else {
                    (state, Outcome::Pending)
                }
            } else {
                (state, Outcome::Pending)
            }
        },
    }
}

/// What a run of characters does to a state: each is applied in turn, until
/// one of them reaches a command or none is left. `last` is the outcome of
/// the character before.
pub open spec fn feed(root: Seq<EntryV>, state: StateV, last: OutcomeV, input: Seq<char>) -> (
    StateV,
    OutcomeV,
)
    decreases input.len(),
{
    if input.len() == 0 || last is Resolved {
        (state, last)
    } else {
        let next = step_spec(root, state, Key::Char(input[0]));
        feed(root, next.0, next.1, input.skip(1))
    }
}

/// What a run of characters does to a state that awaits input.
pub open spec fn replay_spec(root: Seq<EntryV>, state: StateV, input: Seq<char>) -> (
    StateV,
    OutcomeV,
) {
    feed(root, state, OutcomeV::Pending, input)
}

/// Applies the characters of `input` in order, as if each had been typed,
/// and stops at the first that reaches a command. The outcome is that of the
/// last character applied; `Pending` or `Invalid` says that the input ran
/// out before a command was chosen.
pub fn replay(root: &Menu, state: State, input: &[char]) -> (r: (State, Outcome))
    requires
        state_wf(root@, state@),
    ensures
        (r.0@, r.1@) == replay_spec(root@, state@, input@),
        state_wf(root@, r.0@),
{
    let ghost start = state@;
    let mut state = state;
    let mut outcome = Outcome::Pending;
    let mut resolved = false;
    let mut k: usize = 0;
    assert(input@.skip(0) =~= input@);
    while k < input.len() && !resolved
        invariant
            k <= input.len(),
            state_wf(root@, state@),
            resolved == (outcome@ is Resolved),
            feed(root@, state@, outcome@, input@.skip(k as int)) == replay_spec(
                root@,
                start,
                input@,
            ),
        decreases input.len() - k,
    {
        assert(input@.skip(k as int).skip(1) =~= input@.skip(k + 1));
        let next = step(root, state, Key::Char(input[k]));
        state = next.0;
        outcome = next.1;
        resolved = match &outcome {
            Outcome::Resolved(_) => true,
            _ => false,
        };
        k += 1;
    }
    (state, outcome)
}

/// The entries to show in a state: those of the open menu that the buffer
/// has not ruled out, by index and in menu order.
pub fn visible_entries(root: &Menu, state: &State) -> (r: Vec<usize>)
    requires
        state_wf(root@, state@),
    ensures
        indices(r@) == matching(menu_at(root@, state@.path)->Some_0, state@.buffer),
{
    let menu = current_menu(root, &state.path);
    matching_entries(menu, state.buffer.as_slice())
}

/// The labels of the entries entered along `path`, from the root down.
pub open spec fn breadcrumb_spec(root: Seq<EntryV>, path: Seq<int>) -> Seq<Seq<char>>
    decreases path.len(),
{
    if path.len() == 0 {
        Seq::empty()
    } else {
        breadcrumb_spec(root, path.drop_last()).push(
            menu_at(root, path.drop_last())->Some_0[path.last()].label,
        )
    }
}

/// The labels of the entries entered so far, from the root down.
pub fn breadcrumb(root: &Menu, state: &State) -> (r: Vec<Vec<char>>)
    requires
        state_wf(root@, state@),
    ensures
        texts(r@) == breadcrumb_spec(root@, state@.path),
{
    let ghost full = state@.path;
    let mut r: Vec<Vec<char>> = Vec::new();
    let mut menu: &Menu = root;
    let mut k: usize = 0;
    assert(full.take(0) =~= Seq::<int>::empty());
    assert(texts(r@) =~= breadcrumb_spec(root@, full.take(0)));
    while k < state.path.len()
        invariant
            k <= state.path.len(),
            full == indices(state.path@),
            menu_at(root@, full) is Some,
            menu_at(root@, full.take(k as int)) == Some(menu@),
            texts(r@) == breadcrumb_spec(root@, full.take(k as int)),
        decreases state.path.len() - k,
    {
        proof {
            lemma_path_prefix(root@, full, k + 1);
            assert(full.take(k + 1).drop_last() =~= full.take(k as int));
            assert(full.take(k + 1).last() == state.path@[k as int] as int);
        }
        let i = state.path[k];
        assert(menu@[i as int] == menu.entries@[i as int]@);
        let label = copy_text(menu.entries[i].label.as_slice());
        let ghost shown = r@;
        r.push(label);
        assert(texts(r@) =~= texts(shown).push(label@));
        match &menu.entries[i].child {
            Node::Menu(below) => {
                menu = below;
            },
            Node::Action(_) => {
                assert(false);
            },
        }
        k += 1;
    }
    assert(full.take(state.path@.len() as int) =~= full);
    r
}

/// Where typing the whole trigger of entry `e` leads.
pub open spec fn entry_target(path: Seq<int>, menu: Seq<EntryV>, e: int) -> (StateV, OutcomeV) {
    match menu[e].child {
        NodeV::Menu(_) => (StateV { path: path.push(e), buffer: Seq::empty() }, OutcomeV::Pending),
        NodeV::Action(template) => (
            StateV { path, buffer: menu[e].trigger },
            OutcomeV::Resolved(template),
        ),
    }
}

proof fn lemma_trigger_tail(root: Seq<EntryV>, path: Seq<int>, e: int, k: int)
    requires
        menu_at(root, path) is Some,
        0 <= e < menu_at(root, path)->Some_0.len(),
        forall|j: int|
            0 <= j < menu_at(root, path)->Some_0.len() && j != e ==> !is_prefix(
                menu_at(root, path)->Some_0[e].trigger,
                #[trigger] menu_at(root, path)->Some_0[j].trigger,
            ),
        0 <= k < menu_at(root, path)->Some_0[e].trigger.len(),
    ensures
        feed(
            root,
            StateV { path, buffer: menu_at(root, path)->Some_0[e].trigger.take(k) },
            OutcomeV::Pending,
            menu_at(root, path)->Some_0[e].trigger.skip(k),
        ) == entry_target(path, menu_at(root, path)->Some_0, e),
    decreases menu_at(root, path)->Some_0[e].trigger.len() - k,
{
    let menu = menu_at(root, path)->Some_0;
    let t = menu[e].trigger;
    let state = StateV { path, buffer: t.take(k) };
    let buffer = t.take(k).push(t.skip(k)[0]);
    assert(buffer =~= t.take(k + 1));
    let found = matching(menu, buffer);
    lemma_matching_selects_in_order(menu, buffer);
    assert(t.subrange(0, k + 1) =~= t.take(k + 1));
    assert(is_prefix(buffer, menu[e].trigger));
    assert(found.contains(e));
    let next = step_spec(root, state, Key::Char(t.skip(k)[0]));
    assert(t.skip(k).skip(1) =~= t.skip(k + 1));
    assert(feed(root, state, OutcomeV::Pending, t.skip(k)) == feed(
        root,
        next.0,
        next.1,
        t.skip(k + 1),
    ));
    if k + 1 < t.len() {
        if found.len() == 1 {
            assert(found[0] == e);
        }
        assert(next == (StateV { path, buffer }, OutcomeV::Pending));
        lemma_trigger_tail(root, path, e, k + 1);
    } else {
        assert(buffer =~= t);
        assert forall|a: int| 0 <= a < found.len() implies found[a] == e by {
            let i = found[a];
            assert(is_prefix(buffer, menu[i].trigger));
        }
        if found.len() > 1 {
            assert(found[0] < found[1]);
        }
        assert(found.len() == 1);
        assert(next == entry_target(path, menu, e));
        assert(t.skip(k + 1).len() == 0);
    }
}

/// Typing a trigger resolves it: in a menu where no other entry's trigger
/// starts with the trigger of entry `e`, typing that trigger character by
/// character, with nothing typed before, opens the submenu of `e` or yields
/// its command.
pub proof fn lemma_typing_trigger_resolves(root: Seq<EntryV>, path: Seq<int>, e: int)
    requires
        menu_at(root, path) is Some,
        0 <= e < menu_at(root, path)->Some_0.len(),
        menu_at(root, path)->Some_0[e].trigger.len() > 0,
        forall|j: int|
            0 <= j < menu_at(root, path)->Some_0.len() && j != e ==> !is_prefix(
                menu_at(root, path)->Some_0[e].trigger,
                #[trigger] menu_at(root, path)->Some_0[j].trigger,
            ),
    ensures
        replay_spec(
            root,
            StateV { path, buffer: Seq::empty() },
            menu_at(root, path)->Some_0[e].trigger,
        ) == entry_target(path, menu_at(root, path)->Some_0, e),
{
    let t = menu_at(root, path)->Some_0[e].trigger;
    lemma_trigger_tail(root, path, e, 0);
    assert(t.take(0) =~= Seq::<char>::empty());
    assert(t.skip(0) =~= t);
}

/// A shared prefix never resolves: while the buffer with the new character
/// is the start of the triggers of two entries of the open menu, the engine
/// keeps the character and waits.
pub proof fn lemma_shared_prefix_waits(root: Seq<EntryV>, state: StateV, c: char, i: int, j: int)
    requires
        state_wf(root, state),
        0 <= i < j < menu_at(root, state.path)->Some_0.len(),
        is_prefix(state.buffer.push(c), menu_at(root, state.path)->Some_0[i].trigger),
        is_prefix(state.buffer.push(c), menu_at(root, state.path)->Some_0[j].trigger),
    ensures
        step_spec(root, state, Key::Char(c)) == (
            StateV { path: state.path, buffer: state.buffer.push(c) },
            OutcomeV::Pending,
        ),
{
    let menu = menu_at(root, state.path)->Some_0;
    let found = matching(menu, state.buffer.push(c));
    lemma_matching_selects_in_order(menu, state.buffer.push(c));
    assert(found.contains(i));
    assert(found.contains(j));
    if found.len() == 1 {
        assert(found[0] == i);
        assert(found[0] == j);
    }
}

/// Erasing undoes typing: after a character that the engine kept, an erase
/// leads back to the state before it. This holds of a character that opened
/// a submenu only where nothing had been typed before it, since an erase in
/// the submenu returns to the parent with an empty buffer.
pub proof fn lemma_erase_undoes_char(root: Seq<EntryV>, state: StateV, c: char)
    requires
        state_wf(root, state),
        !(step_spec(root, state, Key::Char(c)).1 is Invalid),
        step_spec(root, state, Key::Char(c)).0.path == state.path || state.buffer.len() == 0,
    ensures
        step_spec(root, step_spec(root, state, Key::Char(c)).0, Key::Erase).0 == state,
{
    let typed = step_spec(root, state, Key::Char(c)).0;
    let erased = step_spec(root, typed, Key::Erase).0;
    if typed.path == state.path {
        if typed.buffer.len() == 0 {
            let menu = menu_at(root, state.path)->Some_0;
            let found = matching(menu, state.buffer.push(c));
            assert(typed.path == state.path.push(found[0]));
            assert(typed.path.len() == state.path.len() + 1);
        }
        assert(typed.buffer == state.buffer.push(c));
        assert(typed.buffer.drop_last() =~= state.buffer);
    } else {
        let menu = menu_at(root, state.path)->Some_0;
        let found = matching(menu, state.buffer.push(c));
        assert(typed.path == state.path.push(found[0]));
        assert(typed.path.drop_last() =~= state.path);
        assert(state.buffer =~= Seq::<char>::empty());
    }
    assert(erased.path == state.path);
    assert(erased.buffer == state.buffer);
}

} // verus!
