//! Snippets: named pieces of text that a command template refers to, and
//! their expansion.
//!
//! A reference is written `@{name}`, where the name is a non-empty run of
//! letters, digits, `_` and `-`. An `@` that no `{` follows is plain text.

use crate::text::{append_text, copy_range, copy_text, copy_texts, text_eq, texts};
use vstd::prelude::*;

verus! {

/// The value of a [`Snippet`].
pub ghost struct SnippetV {
    pub name: Seq<char>,
    pub template: Seq<char>,
}

/// A named piece of text.
#[derive(Clone, Debug, PartialEq, Eq)]
pub struct Snippet {
    pub name: Vec<char>,
    pub template: Vec<char>,
}

impl View for Snippet {
    type V = SnippetV;

    open spec fn view(&self) -> SnippetV {
        SnippetV { name: self.name@, template: self.template@ }
    }
}

/// The snippets of a configuration. The order carries no meaning.
#[derive(Clone, Debug, PartialEq, Eq)]
pub struct SnippetTable {
    pub snippets: Vec<Snippet>,
}

impl View for SnippetTable {
    type V = Seq<SnippetV>;

    open spec fn view(&self) -> Seq<SnippetV> {
        self.snippets@.map_values(|s: Snippet| s@)
    }
}

/// The invariant of a table: no name occurs twice.
pub open spec fn table_wf(table: Seq<SnippetV>) -> bool {
    forall|i: int, j: int|
        0 <= i < j < table.len() ==> #[trigger] table[i].name != #[trigger] table[j].name
}

/// The value of an [`ExpandError`].
pub ghost enum ExpandErrorV {
    Cyclic(Seq<Seq<char>>),
    Unknown(Seq<char>),
    Malformed(int),
}

/// Why a template could not be expanded.
#[derive(Clone, Debug, PartialEq, Eq)]
pub enum ExpandError {
    /// A snippet refers to itself, directly or through others. The names
    /// are those under expansion, outermost first, and then the name that
    /// was met again.
    Cyclic(Vec<Vec<char>>),
    /// A reference names no snippet of the table.
    Unknown(Vec<char>),
    /// An `@{` at this position, in the template or in the snippet under
    /// expansion, is not followed by a name and a `}`.
    Malformed(usize),
}

impl View for ExpandError {
    type V = ExpandErrorV;

    open spec fn view(&self) -> ExpandErrorV {
        match self {
            ExpandError::Cyclic(chain) => ExpandErrorV::Cyclic(texts(chain@)),
            ExpandError::Unknown(name) => ExpandErrorV::Unknown(name@),
            ExpandError::Malformed(at) => ExpandErrorV::Malformed(*at as int),
        }
    }
}

/// The value of what an expansion returns.
pub open spec fn expanded_view(r: Result<Vec<char>, ExpandError>) -> Result<
    Seq<char>,
    ExpandErrorV,
> {
    match r {
        Ok(text) => Ok(text@),
        Err(e) => Err(e@),
    }
}

/// The characters that a snippet's name is made of.
pub open spec fn is_name_char(c: char) -> bool {
    ('a' <= c && c <= 'z') || ('A' <= c && c <= 'Z') || ('0' <= c && c <= '9') || c == '_' || c
        == '-'
}

/// Where the run of name characters that starts at `i` ends.
pub open spec fn name_end(t: Seq<char>, i: int) -> int
    decreases t.len() - i,
{
    if 0 <= i < t.len() && is_name_char(t[i]) {
        name_end(t, i + 1)
    } else {
        i
    }
}

/// A reference opens at `i`.
pub open spec fn opens_ref(t: Seq<char>, i: int) -> bool {
    0 <= i && i + 1 < t.len() && t[i] == '@' && t[i + 1] == '{'
}

/// The reference that opens at `i` has a name and is closed.
pub open spec fn ref_ok(t: Seq<char>, i: int) -> bool {
    let end = name_end(t, i + 2);
    i + 2 < end && end < t.len() && t[end] == '}'
}

/// The name of the reference that opens at `i`.
pub open spec fn ref_name(t: Seq<char>, i: int) -> Seq<char> {
    t.subrange(i + 2, name_end(t, i + 2))
}

/// The position behind the reference that opens at `i`.
pub open spec fn ref_after(t: Seq<char>, i: int) -> int {
    name_end(t, i + 2) + 1
}

/// Every reference of the template is well formed.
pub open spec fn refs_well_formed(t: Seq<char>) -> bool {
    forall|i: int| opens_ref(t, i) ==> ref_ok(t, i)
}

/// The place of the first snippet at or after `i` that is called `name`.
pub open spec fn lookup_from(table: Seq<SnippetV>, name: Seq<char>, i: int) -> Option<int>
    decreases table.len() - i,
{
    if i < 0 || i >= table.len() {
        None
    } else if table[i].name == name {
        Some(i)
    } else {
        lookup_from(table, name, i + 1)
    }
}

/// The place of the snippet called `name`.
pub open spec fn lookup(table: Seq<SnippetV>, name: Seq<char>) -> Option<int> {
    lookup_from(table, name, 0)
}

/// How many of the first `n` snippets are not under expansion.
pub open spec fn free_upto(table: Seq<SnippetV>, chain: Seq<Seq<char>>, n: int) -> nat
    decreases n,
{
    if n <= 0 {
        0
    } else if chain.contains(table[n - 1].name) {
        free_upto(table, chain, n - 1)
    } else {
        free_upto(table, chain, n - 1) + 1
    }
}

/// How many snippets are not under expansion.
pub open spec fn free(table: Seq<SnippetV>, chain: Seq<Seq<char>>) -> nat {
    free_upto(table, chain, table.len() as int)
}

/// A name ends at or behind its start, holds name characters only, and
/// stops at what is none.
pub proof fn lemma_name_end(t: Seq<char>, i: int)
    requires
        0 <= i <= t.len(),
    ensures
        i <= name_end(t, i) <= t.len(),
        forall|j: int| i <= j < name_end(t, i) ==> is_name_char(#[trigger] t[j]),
        name_end(t, i) < t.len() ==> !is_name_char(t[name_end(t, i)]),
    decreases t.len() - i,
{
    if i < t.len() && is_name_char(t[i]) {
        lemma_name_end(t, i + 1);
    }
}

/// A lookup finds a snippet of the name asked for, or there is none.
pub proof fn lemma_lookup_from(table: Seq<SnippetV>, name: Seq<char>, i: int)
    requires
        0 <= i,
    ensures
        match lookup_from(table, name, i) {
            Some(k) => i <= k < table.len() && table[k].name == name,
            None => forall|j: int| i <= j < table.len() ==> (#[trigger] table[j]).name != name,
        },
    decreases table.len() - i,
{
    if i < table.len() && table[i].name != name {
        lemma_lookup_from(table, name, i + 1);
    }
}

proof fn lemma_free_push(table: Seq<SnippetV>, chain: Seq<Seq<char>>, name: Seq<char>, n: int)
    requires
        0 <= n <= table.len(),
        !chain.contains(name),
    ensures
        free_upto(table, chain.push(name), n) <= free_upto(table, chain, n),
        (exists|k: int| 0 <= k < n && table[k].name == name) ==> free_upto(
            table,
            chain.push(name),
            n,
        ) < free_upto(table, chain, n),
    decreases n,
{
    if n > 0 {
        lemma_free_push(table, chain, name, n - 1);
        let x = table[n - 1].name;
        assert(chain.push(name).last() == name);
        if chain.contains(x) {
            let at = choose|a: int| 0 <= a < chain.len() && chain[a] == x;
            assert(chain.push(name)[at] == x);
        }
        if x == name {
            assert(chain.push(name).contains(x));
        } else if chain.push(name).contains(x) {
            let at = choose|a: int| 0 <= a < chain.push(name).len() && chain.push(name)[a] == x;
            assert(chain[at] == x);
        }
        if exists|k: int| 0 <= k < n && table[k].name == name {
            let k = choose|k: int| 0 <= k < n && table[k].name == name;
            if k < n - 1 {
                assert(exists|k: int| 0 <= k < n - 1 && table[k].name == name);
            }
        }
    }
}

/// Taking a snippet under expansion leaves fewer that are not.
pub proof fn lemma_free_decreases(table: Seq<SnippetV>, chain: Seq<Seq<char>>, name: Seq<char>)
    requires
        lookup(table, name) is Some,
        !chain.contains(name),
    ensures
        free(table, chain.push(name)) < free(table, chain),
{
    lemma_lookup_from(table, name, 0);
    lemma_free_push(table, chain, name, table.len() as int);
}

/// Joins what was expanded before a point with the expansion from there on.
pub open spec fn prepend(head: Seq<char>, rest: Result<Seq<char>, ExpandErrorV>) -> Result<
    Seq<char>,
    ExpandErrorV,
> {
    match rest {
        Ok(tail) => Ok(head + tail),
        Err(e) => Err(e),
    }
}

/// The expansion of `t` from `pos` on, while the snippets named in `chain`
/// are under expansion: plain characters stand for themselves, and a
/// reference stands for the expansion of the snippet it names. The first
/// fault from left to right, inner before outer, is the result.
pub open spec fn expand_from(
    t: Seq<char>,
    pos: int,
    table: Seq<SnippetV>,
    chain: Seq<Seq<char>>,
) -> Result<Seq<char>, ExpandErrorV>
    decreases free(table, chain), t.len() - pos,
    via expand_from_decreases
{
    if pos < 0 || pos >= t.len() {
        Ok(Seq::empty())
    } else if !opens_ref(t, pos) {
        prepend(seq![t[pos]], expand_from(t, pos + 1, table, chain))
    } else if !ref_ok(t, pos) {
        Err(ExpandErrorV::Malformed(pos))
    } else if chain.contains(ref_name(t, pos)) {
        Err(ExpandErrorV::Cyclic(chain.push(ref_name(t, pos))))
    } else {
        match lookup(table, ref_name(t, pos)) {
            None => Err(ExpandErrorV::Unknown(ref_name(t, pos))),
            Some(k) => match expand_from(
                table[k].template,
                0,
                table,
                chain.push(ref_name(t, pos)),
            ) {
                Err(e) => Err(e),
                Ok(body) => prepend(body, expand_from(t, ref_after(t, pos), table, chain)),
            },
        }
    }
}

#[via_fn]
proof fn expand_from_decreases(
    t: Seq<char>,
    pos: int,
    table: Seq<SnippetV>,
    chain: Seq<Seq<char>>,
) {
    if 0 <= pos < t.len() && opens_ref(t, pos) && ref_ok(t, pos) && !chain.contains(
        ref_name(t, pos),
    ) {
        if lookup(table, ref_name(t, pos)) is Some {
            lemma_free_decreases(table, chain, ref_name(t, pos));
        }
    }
}

/// The expansion of a template against a table.
pub open spec fn expand_spec(t: Seq<char>, table: Seq<SnippetV>) -> Result<
    Seq<char>,
    ExpandErrorV,
> {
    expand_from(t, 0, table, Seq::empty())
}

/// Tells whether `c` may stand in a snippet's name.
pub fn name_char(c: char) -> (r: bool)
    ensures
        r == is_name_char(c),
{
    ('a' <= c && c <= 'z') || ('A' <= c && c <= 'Z') || ('0' <= c && c <= '9') || c == '_' || c
        == '-'
}

/// Finds where the run of name characters that starts at `from` ends.
pub fn scan_name(t: &[char], from: usize) -> (end: usize)
    requires
        from <= t.len(),
    ensures
        end == name_end(t@, from as int),
        from <= end <= t.len(),
{
    let mut end: usize = from;
    while end < t.len() && name_char(t[end])
        invariant
            from <= end <= t.len(),
            name_end(t@, end as int) == name_end(t@, from as int),
        decreases t.len() - end,
    {
        end += 1;
    }
    end
}

/// Tells whether every reference of the template is well formed.
pub fn check_refs(t: &[char]) -> (r: bool)
    ensures
        r == refs_well_formed(t@),
{
    let mut i: usize = 0;
    while i < t.len()
        invariant
            i <= t.len(),
            forall|j: int| 0 <= j < i && opens_ref(t@, j) ==> ref_ok(t@, j),
        decreases t.len() - i,
    {
        if t[i] == '@' && i + 1 < t.len() && t[i + 1] == '{' {
            let end = scan_name(t, i + 2);
            if !(end > i + 2 && end < t.len() && t[end] == '}') {
                assert(opens_ref(t@, i as int) && !ref_ok(t@, i as int));
                return false;
            }
        }
        i += 1;
    }
    true
}

fn chain_holds(chain: &Vec<Vec<char>>, name: &[char]) -> (r: bool)
    ensures
        r == texts(chain@).contains(name@),
{
    let mut i: usize = 0;
    while i < chain.len()
        invariant
            i <= chain.len(),
            forall|j: int| 0 <= j < i ==> texts(chain@)[j] != name@,
        decreases chain.len() - i,
    {
        assert(texts(chain@)[i as int] == chain@[i as int]@);
        if text_eq(chain[i].as_slice(), name) {
            return true;
        }
        i += 1;
    }
    false
}

/// Finds the snippet called `name`.
pub fn find_snippet(table: &SnippetTable, name: &[char]) -> (r: Option<usize>)
    ensures
        match r {
            Some(k) => lookup(table@, name@) == Some(k as int),
            None => lookup(table@, name@) is None,
        },
{
    let mut i: usize = 0;
    while i < table.snippets.len()
        invariant
            i <= table.snippets.len(),
            table@.len() == table.snippets@.len(),
            lookup_from(table@, name@, i as int) == lookup(table@, name@),
        decreases table.snippets.len() - i,
    {
        assert(table@[i as int] == table.snippets@[i as int]@);
        if text_eq(table.snippets[i].name.as_slice(), name) {
            return Some(i);
        }
        i += 1;
    }
    None
}

fn chain_with(chain: &Vec<Vec<char>>, name: &[char]) -> (r: Vec<Vec<char>>)
    ensures
        texts(r@) == texts(chain@).push(name@),
{
    let mut r = copy_texts(chain, 0, chain.len());
    let ghost copied = r@;
    assert(texts(copied) =~= texts(chain@));
    let n = copy_text(name);
    r.push(n);
    assert(texts(r@) =~= texts(copied).push(name@));
    r
}

fn expand_under(t: &[char], table: &SnippetTable, chain: &Vec<Vec<char>>) -> (r: Result<
    Vec<char>,
    ExpandError,
>)
    ensures
        expanded_view(r) == expand_from(t@, 0, table@, texts(chain@)),
    decreases free(table@, texts(chain@)),
{
    let ghost whole = expand_from(t@, 0, table@, texts(chain@));
    let mut out: Vec<char> = Vec::new();
    let mut pos: usize = 0;
    assert(Seq::<char>::empty() + out@ =~= out@);
    assert(whole == prepend(out@, whole)) by {
        match whole {
            Ok(x) => {
                assert(out@ + x =~= x);
            },
            Err(_) => {},
        }
    }
    while pos < t.len()
        invariant
            pos <= t.len(),
            whole == expand_from(t@, 0, table@, texts(chain@)),
            whole == prepend(out@, expand_from(t@, pos as int, table@, texts(chain@))),
        decreases t.len() - pos,
    {
        let ghost here = expand_from(t@, pos as int, table@, texts(chain@));
        if t[pos] == '@' && pos + 1 < t.len() && t[pos + 1] == '{' {
            let end = scan_name(t, pos + 2);
            if !(end > pos + 2 && end < t.len() && t[end] == '}') {
                return Err(ExpandError::Malformed(pos));
            }
            let name = copy_range(t, pos + 2, end);
            if chain_holds(chain, name.as_slice()) {
                let cycle = chain_with(chain, name.as_slice());
                return Err(ExpandError::Cyclic(cycle));
            }
            match find_snippet(table, name.as_slice()) {
                None => {
                    return Err(ExpandError::Unknown(name));
                },
                Some(k) => {
                    let inner = chain_with(chain, name.as_slice());
                    proof {
                        lemma_free_decreases(table@, texts(chain@), name@);
                        lemma_lookup_from(table@, name@, 0);
                    }
                    assert(table@[k as int] == table.snippets@[k as int]@);
                    match expand_under(table.snippets[k].template.as_slice(), table, &inner) {
                        Err(e) => {
                            return Err(e);
                        },
                        Ok(body) => {
                            let ghost done = out@;
                            append_text(&mut out, body.as_slice());
                            let ghost rest = expand_from(
                                t@,
                                end + 1,
                                table@,
                                texts(chain@),
                            );
                            assert(here == prepend(body@, rest));
                            assert(prepend(done, prepend(body@, rest)) == prepend(out@, rest)) by {
                                match rest {
                                    Ok(x) => {
                                        assert(done + (body@ + x) =~= (done + body@) + x);
                                    },
                                    Err(_) => {},
                                }
                            }
                            pos = end + 1;
                        },
                    }
                },
            }
        } else {
            let ghost done = out@;
            let ghost rest = expand_from(t@, pos + 1, table@, texts(chain@));
            out.push(t[pos]);
            assert(here == prepend(seq![t@[pos as int]], rest));
            assert(prepend(done, here) == prepend(out@, rest)) by {
                match rest {
                    Ok(x) => {
                        assert(done + (seq![t@[pos as int]] + x) =~= done.push(t@[pos as int]) + x);
                    },
                    Err(_) => {},
                }
            }
            pos += 1;
        }
    }
    assert(out@ + Seq::<char>::empty() =~= out@);
    Ok(out)
}

/// Expands a command template: every reference `@{name}` is replaced by the
/// expansion of the snippet of that name, so that a snippet may refer to
/// others.
///
/// Fails with `Unknown` where a reference names no snippet, with `Cyclic`
/// where a snippet is met again while it is under expansion, and with
/// `Malformed` where `@{` opens no well-formed reference.
pub fn expand(template: &[char], table: &SnippetTable) -> (r: Result<Vec<char>, ExpandError>)
    ensures
        expanded_view(r) == expand_spec(template@, table@),
{
    let chain: Vec<Vec<char>> = Vec::new();
    assert(texts(chain@) =~= Seq::<Seq<char>>::empty());
    expand_under(template, table, &chain)
}

proof fn lemma_plain_from(t: Seq<char>, pos: int, table: Seq<SnippetV>, chain: Seq<Seq<char>>)
    requires
        0 <= pos <= t.len(),
        forall|i: int| !opens_ref(t, i),
    ensures
        expand_from(t, pos, table, chain) == Ok::<Seq<char>, ExpandErrorV>(t.skip(pos)),
    decreases t.len() - pos,
{
    if pos < t.len() {
        lemma_plain_from(t, pos + 1, table, chain);
        assert(!opens_ref(t, pos));
        assert(seq![t[pos]] + t.skip(pos + 1) =~= t.skip(pos));
    } else {
        assert(t.skip(pos) =~= Seq::<char>::empty());
    }
}

/// Expansion leaves plain text alone: a text that holds no reference, as
/// one that has been expanded to the end does, expands to itself, whatever
/// the table holds.
pub proof fn lemma_expand_plain_text(t: Seq<char>, table: Seq<SnippetV>)
    requires
        forall|i: int| !opens_ref(t, i),
    ensures
        expand_spec(t, table) == Ok::<Seq<char>, ExpandErrorV>(t),
{
    lemma_plain_from(t, 0, table, Seq::empty());
    assert(t.skip(0) =~= t);
}

/// In `t`, the first reference opens at `at`, is well formed and names
/// `name`.
pub open spec fn first_ref(t: Seq<char>, at: int, name: Seq<char>) -> bool {
    &&& forall|i: int| i < at ==> !opens_ref(t, i)
    &&& opens_ref(t, at)
    &&& ref_ok(t, at)
    &&& ref_name(t, at) == name
}

proof fn lemma_plain_until(
    t: Seq<char>,
    pos: int,
    at: int,
    table: Seq<SnippetV>,
    chain: Seq<Seq<char>>,
)
    requires
        0 <= pos <= at < t.len(),
        forall|i: int| i < at ==> !opens_ref(t, i),
    ensures
        expand_from(t, pos, table, chain) == prepend(
            t.subrange(pos, at),
            expand_from(t, at, table, chain),
        ),
    decreases at - pos,
{
    let rest = expand_from(t, at, table, chain);
    if pos < at {
        lemma_plain_until(t, pos + 1, at, table, chain);
        assert(!opens_ref(t, pos));
        match rest {
            Ok(x) => {
                assert(seq![t[pos]] + (t.subrange(pos + 1, at) + x) =~= t.subrange(pos, at) + x);
            },
            Err(_) => {},
        }
    } else {
        match rest {
            Ok(x) => {
                assert(t.subrange(pos, at) + x =~= x);
            },
            Err(_) => {},
        }
    }
}

/// Two snippets that refer to each other cannot be expanded: where the
/// first reference of a text names `a`, the first of `a` names `b` and the
/// first of `b` names `a`, the expansion fails with a cycle that names
/// both.
pub proof fn lemma_mutual_reference_is_cyclic(
    t: Seq<char>,
    table: Seq<SnippetV>,
    a: Seq<char>,
    b: Seq<char>,
    at: int,
    in_a: int,
    in_b: int,
)
    requires
        a != b,
        lookup(table, a) is Some,
        lookup(table, b) is Some,
        first_ref(t, at, a),
        first_ref(table[lookup(table, a)->Some_0].template, in_a, b),
        first_ref(table[lookup(table, b)->Some_0].template, in_b, a),
    ensures
        expand_spec(t, table) == Err::<Seq<char>, ExpandErrorV>(
            ExpandErrorV::Cyclic(seq![a, b, a]),
        ),
{
    let ta = table[lookup(table, a)->Some_0].template;
    let tb = table[lookup(table, b)->Some_0].template;
    let none = Seq::<Seq<char>>::empty();
    let fault = Err::<Seq<char>, ExpandErrorV>(ExpandErrorV::Cyclic(seq![a, b, a]));
    assert(none.push(a).push(b).push(a) =~= seq![a, b, a]);
    assert(none.push(a).push(b).contains(a)) by {
        assert(none.push(a).push(b)[0] == a);
    }
    assert(!none.push(a).contains(b)) by {
        if none.push(a).contains(b) {
            let k = choose|k: int| 0 <= k < none.push(a).len() && none.push(a)[k] == b;
            assert(none.push(a)[k] == a);
        }
    }
    assert(expand_from(tb, in_b, table, none.push(a).push(b)) == fault);
    lemma_plain_until(tb, 0, in_b, table, none.push(a).push(b));
    assert(expand_from(tb, 0, table, none.push(a).push(b)) == fault);
    assert(expand_from(ta, in_a, table, none.push(a)) == fault);
    lemma_plain_until(ta, 0, in_a, table, none.push(a));
    assert(expand_from(ta, 0, table, none.push(a)) == fault);
    assert(expand_from(t, at, table, none) == fault);
    lemma_plain_until(t, 0, at, table, none);
}

} // verus!
