//! The parser of the configuration language.
//!
//! A source holds one `menu { .. }` block, at most one `shell` directive and
//! any number of `snippet name { .. }` blocks, in any order, with blanks and
//! `#` comments between them. An entry of a menu is a trigger, a quoted
//! label, and either `=>` with a command or a nested `{ .. }` menu:
//!
//! ```text
//! menu {
//!     g "Git" {
//!         s "Status" => git status
//!         p "Push"   => "git push origin @{branch}"
//!     }
//!     q "Quit" => exit 0
//! }
//! shell bash
//! snippet branch { main }
//! ```
//!
//! The grammar is stated as a machine that reads one item at a time and
//! keeps the menus that are still open on a stack.

use crate::lexer::{
    block_end, fault, find_block_end, find_line_end, lemma_block_end, lemma_line_end,
    lemma_skip_blanks, lemma_skip_trivia, lemma_string_from, lemma_word_end,
    line_end, pass_blanks, pass_trivia, quoted, read_quoted, scan_word, skip_blanks, skip_trivia,
    split_words, trim_end, trimmed_end, word_end, words_from, ParseError, ParseErrorKind,
    ParseErrorV,
};
use crate::model::{menu_wf, node_wf, Entry, EntryV, Menu, Node, NodeV};
use crate::shell::{shell_from_words, shell_spec, ShellDef, ShellDefV, ShellFault};
use crate::snippet::{
    check_refs, find_snippet, lemma_lookup_from, lemma_name_end, lookup, name_end,
    refs_well_formed, scan_name, table_wf, Snippet, SnippetTable, SnippetV,
};
use crate::text::{append_text, copy_range, text_eq, text_is, text_of};
use vstd::prelude::*;

verus! {

/// The value of a [`Config`].
pub ghost struct ConfigV {
    pub menu: Seq<EntryV>,
    pub shell_def: Option<ShellDefV>,
    pub snippet_table: Seq<SnippetV>,
}

/// What a source text holds: the root menu, the shell if one is named, and
/// the snippets.
#[derive(Debug, PartialEq, Eq)]
pub struct Config {
    pub menu: Menu,
    pub shell_def: Option<ShellDef>,
    pub snippet_table: SnippetTable,
}

/// The value of an optional shell definition.
pub open spec fn shell_view(shell: Option<ShellDef>) -> Option<ShellDefV> {
    match shell {
        Some(def) => Some(def@),
        None => None,
    }
}

impl View for Config {
    type V = ConfigV;

    open spec fn view(&self) -> ConfigV {
        ConfigV {
            menu: self.menu@,
            shell_def: shell_view(self.shell_def),
            snippet_table: self.snippet_table@,
        }
    }
}

/// A menu that is still open: where its `{` stands, the trigger and label
/// of the entry that it belongs to, and the entries read so far. The root
/// menu has an empty trigger and label.
pub ghost struct FrameV {
    pub open: int,
    pub trigger: Seq<char>,
    pub label: Seq<char>,
    pub entries: Seq<EntryV>,
}

/// What has been read of a source: the finished parts and the open menus,
/// outermost first.
pub ghost struct ProgressV {
    pub menu: Option<Seq<EntryV>>,
    pub shell: Option<ShellDefV>,
    pub snippets: Seq<SnippetV>,
    pub stack: Seq<FrameV>,
}

struct Frame {
    open: usize,
    trigger: Vec<char>,
    label: Vec<char>,
    menu: Menu,
}

struct Progress {
    menu: Option<Menu>,
    shell: Option<ShellDef>,
    snippets: SnippetTable,
    stack: Vec<Frame>,
}

impl View for Frame {
    type V = FrameV;

    closed spec fn view(&self) -> FrameV {
        FrameV {
            open: self.open as int,
            trigger: self.trigger@,
            label: self.label@,
            entries: self.menu@,
        }
    }
}

impl View for Progress {
    type V = ProgressV;

    closed spec fn view(&self) -> ProgressV {
        ProgressV {
            menu: match self.menu {
                Some(m) => Some(m@),
                None => None,
            },
            shell: shell_view(self.shell),
            snippets: self.snippets@,
            stack: self.stack@.map_values(|f: Frame| f@),
        }
    }
}

/// Nothing read yet.
pub open spec fn start() -> ProgressV {
    ProgressV { menu: None, shell: None, snippets: Seq::empty(), stack: Seq::empty() }
}

/// Some entry of the menu has this trigger.
pub open spec fn has_trigger(entries: Seq<EntryV>, trigger: Seq<char>) -> bool {
    exists|i: int| 0 <= i < entries.len() && (#[trigger] entries[i]).trigger == trigger
}

/// The shell directive whose keyword ends at `e`: its specification is the
/// rest of the line. Yields the definition and the end of the line.
pub open spec fn shell_directive(s: Seq<char>, e: int) -> Result<(ShellDefV, int), ParseErrorV> {
    let end = line_end(s, e);
    match shell_spec(words_from(s, e, end, Seq::empty())) {
        Ok(def) => Ok((def, end)),
        Err(ShellFault::UnknownName) => Err(
            fault(ParseErrorKind::UnknownShellName, skip_blanks(s, e, end)),
        ),
        Err(ShellFault::Malformed) => Err(
            fault(ParseErrorKind::MalformedShellSpec, skip_blanks(s, e, end)),
        ),
    }
}

/// The command behind a `=>` that ends at `p`: a quoted text, or the rest
/// of the line without the blanks around it. Its references must be well
/// formed. Yields the template and the place behind it.
pub open spec fn action_at(s: Seq<char>, p: int) -> Result<(Seq<char>, int), ParseErrorV> {
    let end = line_end(s, p);
    let a = skip_blanks(s, p, end);
    if a >= end {
        Err(fault(ParseErrorKind::UnexpectedToken, a))
    } else {
        let read = if s[a] == '"' {
            quoted(s, a)
        } else {
            Ok((s.subrange(a, trimmed_end(s, a, end)), end))
        };
        match read {
            Err(e) => Err(e),
            Ok((template, next)) => if refs_well_formed(template) {
                Ok((template, next))
            } else {
                Err(fault(ParseErrorKind::UnexpectedToken, a))
            },
        }
    }
}

/// The snippet block whose keyword ends at `e`: a name that `table` does
/// not hold yet, and a brace block whose content, without the blanks around
/// it, is the template. Yields the snippet and the place behind the block.
pub open spec fn snippet_at(s: Seq<char>, e: int, table: Seq<SnippetV>) -> Result<
    (SnippetV, int),
    ParseErrorV,
> {
    let j = skip_trivia(s, e);
    let n = name_end(s, j);
    let k = skip_trivia(s, n);
    if n <= j {
        Err(fault(ParseErrorKind::UnexpectedToken, j))
    } else if lookup(table, s.subrange(j, n)) is Some {
        Err(fault(ParseErrorKind::DuplicateSnippet, j))
    } else if !(k < s.len() && s[k] == '{') {
        Err(fault(ParseErrorKind::UnexpectedToken, k))
    } else {
        match block_end(s, k + 1, 1) {
            None => Err(fault(ParseErrorKind::UnterminatedBlock, k)),
            Some(c) => {
                let lo = skip_blanks(s, k + 1, c);
                Ok(
                    (
                        SnippetV {
                            name: s.subrange(j, n),
                            template: s.subrange(lo, trimmed_end(s, lo, c)),
                        },
                        c + 1,
                    ),
                )
            },
        }
    }
}

/// The state with one more open menu.
pub open spec fn open_frame(st: ProgressV, frame: FrameV) -> ProgressV {
    ProgressV { menu: st.menu, shell: st.shell, snippets: st.snippets, stack: st.stack.push(frame) }
}

/// The state with one more entry in the innermost open menu.
pub open spec fn add_entry(st: ProgressV, entry: EntryV) -> ProgressV {
    let top = st.stack.last();
    ProgressV {
        menu: st.menu,
        shell: st.shell,
        snippets: st.snippets,
        stack: st.stack.drop_last().push(
            FrameV {
                open: top.open,
                trigger: top.trigger,
                label: top.label,
                entries: top.entries.push(entry),
            },
        ),
    }
}

/// The state with the innermost open menu closed: the root menu is
/// finished; any other becomes an entry of the menu around it.
pub open spec fn close_frame(st: ProgressV) -> ProgressV {
    let top = st.stack.last();
    let outer = ProgressV {
        menu: st.menu,
        shell: st.shell,
        snippets: st.snippets,
        stack: st.stack.drop_last(),
    };
    if st.stack.len() <= 1 {
        ProgressV {
            menu: Some(top.entries),
            shell: st.shell,
            snippets: st.snippets,
            stack: Seq::empty(),
        }
    } else {
        add_entry(
            outer,
            EntryV { trigger: top.trigger, label: top.label, child: NodeV::Menu(top.entries) },
        )
    }
}

/// One item outside any menu, starting at `i`: the opening of the menu
/// block, a shell directive, or a snippet.
pub open spec fn top_item(s: Seq<char>, i: int, st: ProgressV) -> Result<
    (int, ProgressV),
    ParseErrorV,
> {
    let e = word_end(s, i);
    let word = s.subrange(i, e);
    if e <= i {
        Err(fault(ParseErrorKind::UnexpectedToken, i))
    } else if word == "menu"@ {
        let j = skip_trivia(s, e);
        if st.menu is Some {
            Err(fault(ParseErrorKind::DuplicateDirective, i))
        } else if j < s.len() && s[j] == '{' {
            Ok(
                (
                    j + 1,
                    open_frame(
                        st,
                        FrameV {
                            open: j,
                            trigger: Seq::empty(),
                            label: Seq::empty(),
                            entries: Seq::empty(),
                        },
                    ),
                ),
            )
        } else {
            Err(fault(ParseErrorKind::UnexpectedToken, j))
        }
    } else if word == "shell"@ {
        if st.shell is Some {
            Err(fault(ParseErrorKind::DuplicateDirective, i))
        } else {
            match shell_directive(s, e) {
                Err(err) => Err(err),
                Ok((def, next)) => Ok(
                    (
                        next,
                        ProgressV {
                            menu: st.menu,
                            shell: Some(def),
                            snippets: st.snippets,
                            stack: st.stack,
                        },
                    ),
                ),
            }
        }
    } else if word == "snippet"@ {
        match snippet_at(s, e, st.snippets) {
            Err(err) => Err(err),
            Ok((snippet, next)) => Ok(
                (
                    next,
                    ProgressV {
                        menu: st.menu,
                        shell: st.shell,
                        snippets: st.snippets.push(snippet),
                        stack: st.stack,
                    },
                ),
            ),
        }
    } else {
        Err(fault(ParseErrorKind::UnexpectedToken, i))
    }
}

/// One item inside a menu, starting at `i`: the `}` that closes the menu,
/// or an entry. An entry whose trigger the menu already holds is refused
/// where the trigger stands.
pub open spec fn menu_item(s: Seq<char>, i: int, st: ProgressV) -> Result<
    (int, ProgressV),
    ParseErrorV,
> {
    let e = word_end(s, i);
    let trigger = s.subrange(i, e);
    let j = skip_trivia(s, e);
    if s[i] == '}' {
        Ok((i + 1, close_frame(st)))
    } else if e <= i {
        Err(fault(ParseErrorKind::UnexpectedToken, i))
    } else if has_trigger(st.stack.last().entries, trigger) {
        Err(fault(ParseErrorKind::DuplicateTrigger, i))
    } else if !(j < s.len() && s[j] == '"') {
        Err(fault(ParseErrorKind::UnexpectedToken, j))
    } else {
        match quoted(s, j) {
            Err(err) => Err(err),
            Ok((label, after)) => {
                let k = skip_trivia(s, after);
                if k < s.len() && s[k] == '{' {
                    Ok(
                        (
                            k + 1,
                            open_frame(st, FrameV { open: k, trigger, label, entries: Seq::empty() }),
                        ),
                    )
                } else if k + 1 < s.len() && s[k] == '=' && s[k + 1] == '>' {
                    match action_at(s, k + 2) {
                        Err(err) => Err(err),
                        Ok((template, next)) => Ok(
                            (
                                next,
                                add_entry(
                                    st,
                                    EntryV { trigger, label, child: NodeV::Action(template) },
                                ),
                            ),
                        ),
                    }
                } else {
                    Err(fault(ParseErrorKind::UnexpectedToken, k))
                }
            },
        }
    }
}

/// The item that starts at `i`.
pub open spec fn item(s: Seq<char>, i: int, st: ProgressV) -> Result<
    (int, ProgressV),
    ParseErrorV,
> {
    if st.stack.len() == 0 {
        top_item(s, i, st)
    } else {
        menu_item(s, i, st)
    }
}

/// What the source holds when its end is reached: every menu must be
/// closed, and the menu block must have been there.
pub open spec fn finish(s: Seq<char>, st: ProgressV) -> Result<ConfigV, ParseErrorV> {
    if st.stack.len() > 0 {
        Err(fault(ParseErrorKind::UnterminatedBlock, st.stack.last().open))
    } else {
        match st.menu {
            None => Err(fault(ParseErrorKind::MissingMenu, s.len() as int)),
            Some(menu) => Ok(ConfigV { menu, shell_def: st.shell, snippet_table: st.snippets }),
        }
    }
}

/// The meaning of the source from `pos` on, with `st` read before.
pub open spec fn parse_from(s: Seq<char>, pos: int, st: ProgressV) -> Result<ConfigV, ParseErrorV>
    decreases s.len() - pos,
    via parse_from_decreases
{
    let i = skip_trivia(s, pos);
    if pos < 0 || i >= s.len() {
        finish(s, st)
    } else {
        match item(s, i, st) {
            Err(e) => Err(e),
            Ok((next, st2)) => parse_from(s, next, st2),
        }
    }
}

#[via_fn]
proof fn parse_from_decreases(s: Seq<char>, pos: int, st: ProgressV) {
    if 0 <= pos && skip_trivia(s, pos) < s.len() {
        lemma_skip_trivia(s, pos);
        lemma_item_advances(s, skip_trivia(s, pos), st);
    }
}

/// The meaning of a source text.
pub open spec fn parse_spec(s: Seq<char>) -> Result<ConfigV, ParseErrorV> {
    parse_from(s, 0, start())
}

/// Every item takes at least one character.
pub proof fn lemma_item_advances(s: Seq<char>, i: int, st: ProgressV)
    requires
        0 <= i < s.len(),
    ensures
        item(s, i, st) is Ok ==> i < item(s, i, st)->Ok_0.0 <= s.len(),
{
    let e = word_end(s, i);
    lemma_word_end(s, i);
    lemma_skip_trivia(s, e);
    if st.stack.len() == 0 {
        if e > i {
            lemma_line_end(s, e);
            let j = skip_trivia(s, e);
            lemma_name_end(s, j);
            let n = name_end(s, j);
            lemma_skip_trivia(s, n);
            let k = skip_trivia(s, n);
            if k < s.len() {
                lemma_block_end(s, k + 1, 1);
            }
        }
    } else {
        let j = skip_trivia(s, e);
        if j < s.len() {
            lemma_string_from(s, j + 1, j, Seq::empty());
            if quoted(s, j) is Ok {
                let after = quoted(s, j)->Ok_0.1;
                lemma_skip_trivia(s, after);
                let k = skip_trivia(s, after);
                if k + 1 < s.len() {
                    lemma_action_advances(s, k + 2);
                }
            }
        }
    }
}

proof fn lemma_action_advances(s: Seq<char>, p: int)
    requires
        0 <= p <= s.len(),
    ensures
        action_at(s, p) is Ok ==> p < action_at(s, p)->Ok_0.1 <= s.len(),
{
    lemma_line_end(s, p);
    let end = line_end(s, p);
    lemma_skip_blanks(s, p, end);
    let a = skip_blanks(s, p, end);
    if a < end {
        lemma_string_from(s, a + 1, a, Seq::empty());
    }
}

/// The value of what a scan of one construct returns.
pub open spec fn shell_step_view(r: Result<(ShellDef, usize), ParseError>) -> Result<
    (ShellDefV, int),
    ParseErrorV,
> {
    match r {
        Ok((def, next)) => Ok((def@, next as int)),
        Err(e) => Err(e@),
    }
}

/// The value of what a scan of a command returns.
pub open spec fn action_view(r: Result<(Vec<char>, usize), ParseError>) -> Result<
    (Seq<char>, int),
    ParseErrorV,
> {
    match r {
        Ok((template, next)) => Ok((template@, next as int)),
        Err(e) => Err(e@),
    }
}

/// The value of what a scan of a snippet block returns.
pub open spec fn snippet_step_view(r: Result<(Snippet, usize), ParseError>) -> Result<
    (SnippetV, int),
    ParseErrorV,
> {
    match r {
        Ok((snippet, next)) => Ok((snippet@, next as int)),
        Err(e) => Err(e@),
    }
}

/// The value of what a parse returns.
pub open spec fn parsed_view(r: Result<Config, ParseError>) -> Result<ConfigV, ParseErrorV> {
    match r {
        Ok(config) => Ok(config@),
        Err(e) => Err(e@),
    }
}

/// The value of what a parse of a shell directive returns.
pub open spec fn shell_parsed_view(r: Result<ShellDef, ParseError>) -> Result<
    ShellDefV,
    ParseErrorV,
> {
    match r {
        Ok(def) => Ok(def@),
        Err(e) => Err(e@),
    }
}

/// Tells whether some entry of the menu has this trigger.
pub fn menu_has_trigger(menu: &Menu, trigger: &[char]) -> (r: bool)
    ensures
        r == has_trigger(menu@, trigger@),
{
    let mut i: usize = 0;
    while i < menu.entries.len()
        invariant
            i <= menu.entries.len(),
            menu@.len() == menu.entries@.len(),
            forall|j: int| 0 <= j < i ==> (#[trigger] menu@[j]).trigger != trigger@,
        decreases menu.entries.len() - i,
    {
        assert(menu@[i as int] == menu.entries@[i as int]@);
        if text_eq(menu.entries[i].trigger.as_slice(), trigger) {
            return true;
        }
        i += 1;
    }
    false
}

/// Reads the shell directive whose keyword ends at `e`.
pub fn read_shell_directive(s: &[char], e: usize) -> (r: Result<(ShellDef, usize), ParseError>)
    requires
        e <= s.len(),
    ensures
        shell_step_view(r) == shell_directive(s@, e as int),
        r is Ok ==> e <= r->Ok_0.1 <= s.len(),
{
    let end = find_line_end(s, e);
    let words = split_words(s, e, end);
    match shell_from_words(&words) {
        Ok(def) => Ok((def, end)),
        Err(ShellFault::UnknownName) => Err(
            ParseError { kind: ParseErrorKind::UnknownShellName, offset: pass_blanks(s, e, end) },
        ),
        Err(ShellFault::Malformed) => Err(
            ParseError { kind: ParseErrorKind::MalformedShellSpec, offset: pass_blanks(s, e, end) },
        ),
    }
}

/// Reads the command behind a `=>` that ends at `p`.
pub fn read_action(s: &[char], p: usize) -> (r: Result<(Vec<char>, usize), ParseError>)
    requires
        p <= s.len(),
    ensures
        action_view(r) == action_at(s@, p as int),
        r is Ok ==> p < r->Ok_0.1 <= s.len(),
{
    let end = find_line_end(s, p);
    let a = pass_blanks(s, p, end);
    if a >= end {
        return Err(ParseError { kind: ParseErrorKind::UnexpectedToken, offset: a });
    }
    let read = if s[a] == '"' {
        read_quoted(s, a)
    } else {
        Ok((copy_range(s, a, trim_end(s, a, end)), end))
    };
    match read {
        Err(e) => Err(e),
        Ok((template, next)) => {
            if check_refs(template.as_slice()) {
                Ok((template, next))
            } else {
                Err(ParseError { kind: ParseErrorKind::UnexpectedToken, offset: a })
            }
        },
    }
}

/// Reads the snippet block whose keyword ends at `e`.
pub fn read_snippet(s: &[char], e: usize, table: &SnippetTable) -> (r: Result<
    (Snippet, usize),
    ParseError,
>)
    requires
        e <= s.len(),
    ensures
        snippet_step_view(r) == snippet_at(s@, e as int, table@),
        r is Ok ==> e < r->Ok_0.1 <= s.len(),
{
    let j = pass_trivia(s, e);
    let n = scan_name(s, j);
    if n <= j {
        return Err(ParseError { kind: ParseErrorKind::UnexpectedToken, offset: j });
    }
    let name = copy_range(s, j, n);
    if find_snippet(table, name.as_slice()).is_some() {
        return Err(ParseError { kind: ParseErrorKind::DuplicateSnippet, offset: j });
    }
    let k = pass_trivia(s, n);
    if !(k < s.len() && s[k] == '{') {
        return Err(ParseError { kind: ParseErrorKind::UnexpectedToken, offset: k });
    }
    match find_block_end(s, k + 1) {
        None => Err(ParseError { kind: ParseErrorKind::UnterminatedBlock, offset: k }),
        Some(c) => {
            let lo = pass_blanks(s, k + 1, c);
            let hi = trim_end(s, lo, c);
            Ok((Snippet { name, template: copy_range(s, lo, hi) }, c + 1))
        },
    }
}

spec fn item_view(r: Result<(usize, Progress), ParseError>) -> Result<(int, ProgressV), ParseErrorV> {
    match r {
        Ok((next, st)) => Ok((next as int, st@)),
        Err(e) => Err(e@),
    }
}

fn begin() -> (st: Progress)
    ensures
        st@ == start(),
{
    let st = Progress {
        menu: None,
        shell: None,
        snippets: SnippetTable { snippets: Vec::new() },
        stack: Vec::new(),
    };
    assert(st@.snippets =~= Seq::<SnippetV>::empty());
    assert(st@.stack =~= Seq::<FrameV>::empty());
    st
}

fn push_frame(st: &mut Progress, open: usize, trigger: Vec<char>, label: Vec<char>)
    ensures
        final(st)@ == open_frame(
            old(st)@,
            FrameV { open: open as int, trigger: trigger@, label: label@, entries: Seq::empty() },
        ),
{
    let frame = Frame { open, trigger, label, menu: Menu { entries: Vec::new() } };
    assert(frame@.entries =~= Seq::<EntryV>::empty());
    st.stack.push(frame);
    assert(st@.stack =~= old(st)@.stack.push(frame@));
}

fn push_entry(st: &mut Progress, entry: Entry)
    requires
        old(st)@.stack.len() > 0,
    ensures
        final(st)@ == add_entry(old(st)@, entry@),
{
    let ghost before = st@;
    let mut top = st.stack.pop().unwrap();
    let ghost shown = top@;
    assert(shown == before.stack.last());
    top.menu.entries.push(entry);
    assert(top@.entries =~= shown.entries.push(entry@));
    st.stack.push(top);
    assert(st@.stack =~= before.stack.drop_last().push(top@));
}

fn close_top(st: &mut Progress)
    requires
        old(st)@.stack.len() > 0,
    ensures
        final(st)@ == close_frame(old(st)@),
{
    let ghost before = st@;
    let top = st.stack.pop().unwrap();
    assert(top@ == before.stack.last());
    assert(st@.stack =~= before.stack.drop_last());
    if st.stack.len() == 0 {
        st.menu = Some(top.menu);
        assert(st@.stack =~= Seq::<FrameV>::empty());
    } else {
        let entry = Entry { trigger: top.trigger, label: top.label, child: Node::Menu(top.menu) };
        push_entry(st, entry);
    }
}

fn read_top_item(s: &[char], i: usize, st: Progress) -> (r: Result<(usize, Progress), ParseError>)
    requires
        i < s.len(),
    ensures
        item_view(r) == top_item(s@, i as int, st@),
{
    let mut st = st;
    let e = scan_word(s, i);
    if e <= i {
        return Err(ParseError { kind: ParseErrorKind::UnexpectedToken, offset: i });
    }
    let word = copy_range(s, i, e);
    if text_is(word.as_slice(), "menu") {
        let j = pass_trivia(s, e);
        if st.menu.is_some() {
            Err(ParseError { kind: ParseErrorKind::DuplicateDirective, offset: i })
        } else if j < s.len() && s[j] == '{' {
            push_frame(&mut st, j, Vec::new(), Vec::new());
            Ok((j + 1, st))
        } else {
            Err(ParseError { kind: ParseErrorKind::UnexpectedToken, offset: j })
        }
    } else if text_is(word.as_slice(), "shell") {
        if st.shell.is_some() {
            Err(ParseError { kind: ParseErrorKind::DuplicateDirective, offset: i })
        } else {
            match read_shell_directive(s, e) {
                Err(err) => Err(err),
                Ok((def, next)) => {
                    st.shell = Some(def);
                    Ok((next, st))
                },
            }
        }
    } else if text_is(word.as_slice(), "snippet") {
        match read_snippet(s, e, &st.snippets) {
            Err(err) => Err(err),
            Ok((snippet, next)) => {
                let ghost before = st@;
                st.snippets.snippets.push(snippet);
                assert(st@.snippets =~= before.snippets.push(snippet@));
                Ok((next, st))
            },
        }
    } else {
        Err(ParseError { kind: ParseErrorKind::UnexpectedToken, offset: i })
    }
}

fn read_menu_item(s: &[char], i: usize, st: Progress) -> (r: Result<(usize, Progress), ParseError>)
    requires
        i < s.len(),
        st@.stack.len() > 0,
    ensures
        item_view(r) == menu_item(s@, i as int, st@),
{
    let mut st = st;
    if s[i] == '}' {
        close_top(&mut st);
        return Ok((i + 1, st));
    }
    let e = scan_word(s, i);
    if e <= i {
        return Err(ParseError { kind: ParseErrorKind::UnexpectedToken, offset: i });
    }
    let trigger = copy_range(s, i, e);
    let n = st.stack.len();
    assert(st@.stack.last() == st.stack@[n - 1]@);
    if menu_has_trigger(&st.stack[n - 1].menu, trigger.as_slice()) {
        return Err(ParseError { kind: ParseErrorKind::DuplicateTrigger, offset: i });
    }
    let j = pass_trivia(s, e);
    if !(j < s.len() && s[j] == '"') {
        return Err(ParseError { kind: ParseErrorKind::UnexpectedToken, offset: j });
    }
    match read_quoted(s, j) {
        Err(err) => Err(err),
        Ok((label, after)) => {
            let k = pass_trivia(s, after);
            if k < s.len() && s[k] == '{' {
                push_frame(&mut st, k, trigger, label);
                Ok((k + 1, st))
            } else if k < s.len() && k + 1 < s.len() && s[k] == '=' && s[k + 1] == '>' {
                match read_action(s, k + 2) {
                    Err(err) => Err(err),
                    Ok((template, next)) => {
                        push_entry(&mut st, Entry { trigger, label, child: Node::Action(template) });
                        Ok((next, st))
                    },
                }
            } else {
                Err(ParseError { kind: ParseErrorKind::UnexpectedToken, offset: k })
            }
        },
    }
}

fn finish_parse(s: &[char], st: Progress) -> (r: Result<Config, ParseError>)
    ensures
        parsed_view(r) == finish(s@, st@),
{
    let n = st.stack.len();
    if n > 0 {
        assert(st@.stack.last() == st.stack@[n - 1]@);
        return Err(
            ParseError { kind: ParseErrorKind::UnterminatedBlock, offset: st.stack[n - 1].open },
        );
    }
    match st.menu {
        None => Err(ParseError { kind: ParseErrorKind::MissingMenu, offset: s.len() }),
        Some(menu) => Ok(Config { menu, shell_def: st.shell, snippet_table: st.snippets }),
    }
}

/// Parses a source text into its menu tree, its shell definition and its
/// snippets, or says what is wrong with it and where.
pub fn parse(source: &[char]) -> (r: Result<Config, ParseError>)
    ensures
        parsed_view(r) == parse_spec(source@),
        r is Ok ==> config_wf(r->Ok_0@),
{
    proof {
        lemma_parsed_is_wf(source@);
    }
    let mut st = begin();
    let mut pos: usize = 0;
    loop
        invariant
            pos <= source.len(),
            parse_from(source@, pos as int, st@) == parse_spec(source@),
            parse_spec(source@) is Ok ==> config_wf(parse_spec(source@)->Ok_0),
        decreases source.len() - pos,
    {
        let i = pass_trivia(source, pos);
        if i >= source.len() {
            return finish_parse(source, st);
        }
        proof {
            lemma_item_advances(source@, i as int, st@);
        }
        let read = if st.stack.len() == 0 {
            read_top_item(source, i, st)
        } else {
            read_menu_item(source, i, st)
        };
        match read {
            Err(e) => {
                return Err(e);
            },
            Ok((next, st2)) => {
                pos = next;
                st = st2;
            },
        }
    }
}

/// The meaning of a source that holds a shell directive and nothing else.
pub open spec fn shell_string_spec(s: Seq<char>) -> Result<ShellDefV, ParseErrorV> {
    let i = skip_trivia(s, 0);
    let e = word_end(s, i);
    if s.subrange(i, e) != "shell"@ {
        Err(fault(ParseErrorKind::UnexpectedToken, i))
    } else {
        match shell_directive(s, e) {
            Err(err) => Err(err),
            Ok((def, end)) => if skip_trivia(s, end) >= s.len() {
                Ok(def)
            } else {
                Err(fault(ParseErrorKind::UnexpectedToken, skip_trivia(s, end)))
            },
        }
    }
}

/// Parses a source that holds a shell directive and nothing else, by the
/// rule that reads the directive in a whole configuration.
pub fn parse_shell_string(source: &[char]) -> (r: Result<ShellDef, ParseError>)
    ensures
        shell_parsed_view(r) == shell_string_spec(source@),
{
    let i = pass_trivia(source, 0);
    let e = scan_word(source, i);
    let word = copy_range(source, i, e);
    if !text_is(word.as_slice(), "shell") {
        return Err(ParseError { kind: ParseErrorKind::UnexpectedToken, offset: i });
    }
    match read_shell_directive(source, e) {
        Err(err) => Err(err),
        Ok((def, end)) => {
            let rest = pass_trivia(source, end);
            if rest >= source.len() {
                Ok(def)
            } else {
                Err(ParseError { kind: ParseErrorKind::UnexpectedToken, offset: rest })
            }
        },
    }
}

/// Reads a shell specification that stands alone, as the value of an
/// environment variable does: it is read as the directive `shell <value>`.
pub fn shell_from_value(value: &[char]) -> (r: Result<ShellDef, ParseError>)
    ensures
        shell_parsed_view(r) == shell_string_spec("shell "@ + value@),
{
    let mut source = text_of("shell ");
    append_text(&mut source, value);
    parse_shell_string(source.as_slice())
}

/// The invariant of a configuration: the menu tree and the snippet table
/// hold theirs.
pub open spec fn config_wf(c: ConfigV) -> bool {
    menu_wf(c.menu) && table_wf(c.snippet_table)
}

/// What holds of the parts read so far, at every point of a parse: the
/// finished parts hold their invariants, so does every open menu, and the
/// trigger of each open menu is new to the menu around it.
pub open spec fn progress_wf(st: ProgressV) -> bool {
    &&& st.menu is Some ==> menu_wf(st.menu->Some_0)
    &&& table_wf(st.snippets)
    &&& forall|k: int| 0 <= k < st.stack.len() ==> menu_wf((#[trigger] st.stack[k]).entries)
    &&& forall|k: int|
        1 <= k < st.stack.len() ==> (#[trigger] st.stack[k]).trigger.len() > 0 && !has_trigger(
            st.stack[k - 1].entries,
            st.stack[k].trigger,
        )
}

/// A menu stays well formed when it gets an entry with a new, non-empty
/// trigger and a well-formed child.
pub proof fn lemma_menu_wf_push(entries: Seq<EntryV>, entry: EntryV)
    requires
        menu_wf(entries),
        entry.trigger.len() > 0,
        node_wf(entry.child),
        !has_trigger(entries, entry.trigger),
    ensures
        menu_wf(entries.push(entry)),
{
    let more = entries.push(entry);
    assert forall|i: int, j: int| 0 <= i < j < more.len() implies #[trigger] more[i].trigger
        != #[trigger] more[j].trigger by {
        if j == entries.len() {
            assert(entries[i].trigger != entry.trigger);
        } else {
            assert(entries[i].trigger != entries[j].trigger);
        }
    }
    assert forall|i: int| 0 <= i < more.len() implies (#[trigger] more[i]).trigger.len() > 0
        && node_wf(more[i].child) by {
        if i < entries.len() {
            assert(entries[i].trigger.len() > 0 && node_wf(entries[i].child));
        }
    }
}

proof fn lemma_add_entry_wf(st: ProgressV, entry: EntryV)
    requires
        progress_wf(st),
        st.stack.len() > 0,
        entry.trigger.len() > 0,
        node_wf(entry.child),
        !has_trigger(st.stack.last().entries, entry.trigger),
    ensures
        progress_wf(add_entry(st, entry)),
{
    let next = add_entry(st, entry);
    let n = st.stack.len() as int;
    lemma_menu_wf_push(st.stack.last().entries, entry);
    assert(next.stack.len() == n);
    assert forall|k: int| 0 <= k < next.stack.len() implies menu_wf(
        (#[trigger] next.stack[k]).entries,
    ) by {
        if k < n - 1 {
            assert(next.stack[k] == st.stack[k]);
        }
    }
    assert forall|k: int| 1 <= k < next.stack.len() implies (#[trigger] next.stack[k]).trigger.len()
        > 0 && !has_trigger(next.stack[k - 1].entries, next.stack[k].trigger) by {
        assert(next.stack[k].trigger == st.stack[k].trigger);
        assert(next.stack[k - 1] == st.stack[k - 1]);
    }
}

proof fn lemma_open_frame_wf(st: ProgressV, frame: FrameV)
    requires
        progress_wf(st),
        frame.entries == Seq::<EntryV>::empty(),
        st.stack.len() > 0 ==> frame.trigger.len() > 0 && !has_trigger(
            st.stack.last().entries,
            frame.trigger,
        ),
    ensures
        progress_wf(open_frame(st, frame)),
{
    let next = open_frame(st, frame);
    let n = st.stack.len() as int;
    assert forall|k: int| 0 <= k < next.stack.len() implies menu_wf(
        (#[trigger] next.stack[k]).entries,
    ) by {
        if k < n {
            assert(next.stack[k] == st.stack[k]);
        }
    }
    assert forall|k: int| 1 <= k < next.stack.len() implies (#[trigger] next.stack[k]).trigger.len()
        > 0 && !has_trigger(next.stack[k - 1].entries, next.stack[k].trigger) by {
        assert(next.stack[k - 1] == st.stack[k - 1]);
        if k < n {
            assert(next.stack[k] == st.stack[k]);
        }
    }
}

proof fn lemma_close_frame_wf(st: ProgressV)
    requires
        progress_wf(st),
        st.stack.len() > 0,
    ensures
        progress_wf(close_frame(st)),
{
    let n = st.stack.len() as int;
    let top = st.stack.last();
    assert(menu_wf(st.stack[n - 1].entries));
    if n > 1 {
        let outer = ProgressV {
            menu: st.menu,
            shell: st.shell,
            snippets: st.snippets,
            stack: st.stack.drop_last(),
        };
        assert forall|k: int| 0 <= k < outer.stack.len() implies menu_wf(
            (#[trigger] outer.stack[k]).entries,
        ) by {
            assert(outer.stack[k] == st.stack[k]);
        }
        assert forall|k: int| 1 <= k < outer.stack.len() implies (
        #[trigger] outer.stack[k]).trigger.len() > 0 && !has_trigger(
            outer.stack[k - 1].entries,
            outer.stack[k].trigger,
        ) by {
            assert(outer.stack[k] == st.stack[k]);
            assert(outer.stack[k - 1] == st.stack[k - 1]);
        }
        assert(st.stack[n - 1].trigger.len() > 0);
        assert(outer.stack.last() == st.stack[n - 2]);
        lemma_add_entry_wf(
            outer,
            EntryV { trigger: top.trigger, label: top.label, child: NodeV::Menu(top.entries) },
        );
    }
}

/// Every item keeps what holds of the parts read so far.
pub proof fn lemma_item_keeps_wf(s: Seq<char>, i: int, st: ProgressV)
    requires
        0 <= i < s.len(),
        progress_wf(st),
        item(s, i, st) is Ok,
    ensures
        progress_wf(item(s, i, st)->Ok_0.1),
{
    let e = word_end(s, i);
    lemma_word_end(s, i);
    if st.stack.len() == 0 {
        let word = s.subrange(i, e);
        if word == "menu"@ {
            let j = skip_trivia(s, e);
            lemma_open_frame_wf(
                st,
                FrameV {
                    open: j,
                    trigger: Seq::empty(),
                    label: Seq::empty(),
                    entries: Seq::empty(),
                },
            );
        } else if word == "shell"@ {
        } else if word == "snippet"@ {
            let snippet = snippet_at(s, e, st.snippets)->Ok_0.0;
            lemma_lookup_from(st.snippets, snippet.name, 0);
            let more = st.snippets.push(snippet);
            assert forall|a: int, b: int| 0 <= a < b < more.len() implies #[trigger] more[a].name
                != #[trigger] more[b].name by {
                if b == st.snippets.len() {
                    assert(st.snippets[a].name != snippet.name);
                } else {
                    assert(st.snippets[a].name != st.snippets[b].name);
                }
            }
        }
    } else if s[i] == '}' {
        lemma_close_frame_wf(st);
    } else {
        let trigger = s.subrange(i, e);
        let j = skip_trivia(s, e);
        let label = quoted(s, j)->Ok_0.0;
        let after = quoted(s, j)->Ok_0.1;
        let k = skip_trivia(s, after);
        if k < s.len() && s[k] == '{' {
            lemma_open_frame_wf(st, FrameV { open: k, trigger, label, entries: Seq::empty() });
        } else {
            let template = action_at(s, k + 2)->Ok_0.0;
            lemma_add_entry_wf(st, EntryV { trigger, label, child: NodeV::Action(template) });
        }
    }
}

proof fn lemma_parse_from_wf(s: Seq<char>, pos: int, st: ProgressV)
    requires
        0 <= pos <= s.len(),
        progress_wf(st),
    ensures
        parse_from(s, pos, st) is Ok ==> config_wf(parse_from(s, pos, st)->Ok_0),
    decreases s.len() - pos,
{
    let i = skip_trivia(s, pos);
    lemma_skip_trivia(s, pos);
    if i < s.len() && item(s, i, st) is Ok {
        lemma_item_advances(s, i, st);
        lemma_item_keeps_wf(s, i, st);
        lemma_parse_from_wf(s, item(s, i, st)->Ok_0.0, item(s, i, st)->Ok_0.1);
    }
}

/// What parses is well formed: in the configuration of a source that is
/// accepted, no menu holds a trigger twice or an empty one, every reference
/// in a command is well formed, and no snippet name occurs twice.
pub proof fn lemma_parsed_is_wf(s: Seq<char>)
    ensures
        parse_spec(s) is Ok ==> config_wf(parse_spec(s)->Ok_0),
{
    lemma_parse_from_wf(s, 0, start());
}

/// A second entry with the same trigger fails the parse: where the next
/// item of an open menu is an entry whose trigger the menu already holds,
/// the source is refused with a duplicate-trigger fault at that trigger,
/// whatever follows.
pub proof fn lemma_duplicate_trigger_refused(s: Seq<char>, pos: int, st: ProgressV)
    requires
        0 <= pos,
        st.stack.len() > 0,
        skip_trivia(s, pos) < s.len(),
        s[skip_trivia(s, pos)] != '}',
        skip_trivia(s, pos) < word_end(s, skip_trivia(s, pos)),
        has_trigger(
            st.stack.last().entries,
            s.subrange(skip_trivia(s, pos), word_end(s, skip_trivia(s, pos))),
        ),
    ensures
        parse_from(s, pos, st) == Err::<ConfigV, ParseErrorV>(
            fault(ParseErrorKind::DuplicateTrigger, skip_trivia(s, pos)),
        ),
{
}

/// Blanks and comments between items carry no meaning: a source means from
/// a place what it means from the next place that is neither.
pub proof fn lemma_trivia_ignored(s: Seq<char>, pos: int, st: ProgressV)
    requires
        0 <= pos <= s.len(),
    ensures
        parse_from(s, pos, st) == parse_from(s, skip_trivia(s, pos), st),
{
    lemma_skip_trivia(s, pos);
    let i = skip_trivia(s, pos);
    assert(skip_trivia(s, i) == i);
}

} // verus!
