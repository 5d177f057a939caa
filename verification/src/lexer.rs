//! The lexical layer of the configuration language: blanks, comments,
//! words, quoted texts, brace blocks and the words of a line.
//!
//! Every scanner is a function from the source and a position to a
//! position, stated as a recursive definition and computed by a loop.

use crate::text::copy_range;
use vstd::prelude::*;

verus! {

/// What was wrong with a source text.
#[derive(Clone, Copy, Debug, PartialEq, Eq)]
pub enum ParseErrorKind {
    /// Something else was expected at this place.
    UnexpectedToken,
    /// A `{` or a `"` at this place is never closed.
    UnterminatedBlock,
    /// The menu already has an entry with the trigger at this place.
    DuplicateTrigger,
    /// The single word of a shell specification names no known shell.
    UnknownShellName,
    /// A shell specification is empty, or its arguments do not hold `{}`
    /// exactly once.
    MalformedShellSpec,
    /// A second snippet of the same name.
    DuplicateSnippet,
    /// A second `menu` block or `shell` directive.
    DuplicateDirective,
    /// The source holds no `menu` block.
    MissingMenu,
}

/// The value of a [`ParseError`].
pub ghost struct ParseErrorV {
    pub kind: ParseErrorKind,
    pub offset: int,
}

/// A fault in a source text, with the position of the character at which it
/// was found, counted from 0.
#[derive(Clone, Copy, Debug, PartialEq, Eq)]
pub struct ParseError {
    pub kind: ParseErrorKind,
    pub offset: usize,
}

impl View for ParseError {
    type V = ParseErrorV;

    open spec fn view(&self) -> ParseErrorV {
        ParseErrorV { kind: self.kind, offset: self.offset as int }
    }
}

/// A fault of the given kind at the given place.
pub open spec fn fault(kind: ParseErrorKind, offset: int) -> ParseErrorV {
    ParseErrorV { kind, offset }
}

/// Space, tab, carriage return and line feed.
pub open spec fn is_blank(c: char) -> bool {
    c == ' ' || c == '\t' || c == '\r' || c == '\n'
}

/// A character that may stand in a keyword or a trigger: any but a blank
/// and the four that have a meaning of their own.
pub open spec fn is_word_char(c: char) -> bool {
    !is_blank(c) && c != '"' && c != '{' && c != '}' && c != '#'
}

/// The end of the line that `i` lies in: the place of the next line feed,
/// or the end of the source.
pub open spec fn line_end(s: Seq<char>, i: int) -> int
    decreases s.len() - i,
{
    if 0 <= i < s.len() && s[i] != '\n' {
        line_end(s, i + 1)
    } else {
        i
    }
}

/// The first place at or after `i` and before `hi` that holds no blank, or
/// `hi`.
pub open spec fn skip_blanks(s: Seq<char>, i: int, hi: int) -> int
    decreases hi - i,
{
    if 0 <= i < hi <= s.len() && is_blank(s[i]) {
        skip_blanks(s, i + 1, hi)
    } else {
        i
    }
}

/// The first place at or after `i` and before `hi` that holds a blank, or
/// `hi`.
pub open spec fn skip_solid(s: Seq<char>, i: int, hi: int) -> int
    decreases hi - i,
{
    if 0 <= i < hi <= s.len() && !is_blank(s[i]) {
        skip_solid(s, i + 1, hi)
    } else {
        i
    }
}

/// The end of `s[lo..hi]` once the blanks at its end are taken off.
pub open spec fn trimmed_end(s: Seq<char>, lo: int, hi: int) -> int
    decreases hi - lo,
{
    if 0 <= lo < hi <= s.len() && is_blank(s[hi - 1]) {
        trimmed_end(s, lo, hi - 1)
    } else {
        hi
    }
}

/// The first place at or after `i` that is neither a blank nor inside a
/// comment. A comment runs from `#` to the end of its line.
pub open spec fn skip_trivia(s: Seq<char>, i: int) -> int
    decreases s.len() - i,
    via skip_trivia_decreases
{
    if 0 <= i < s.len() && is_blank(s[i]) {
        skip_trivia(s, i + 1)
    } else if 0 <= i < s.len() && s[i] == '#' {
        skip_trivia(s, line_end(s, i + 1))
    } else {
        i
    }
}

#[via_fn]
proof fn skip_trivia_decreases(s: Seq<char>, i: int) {
    if 0 <= i < s.len() {
        lemma_line_end(s, i + 1);
    }
}

/// Where the run of word characters that starts at `i` ends.
pub open spec fn word_end(s: Seq<char>, i: int) -> int
    decreases s.len() - i,
{
    if 0 <= i < s.len() && is_word_char(s[i]) {
        word_end(s, i + 1)
    } else {
        i
    }
}

/// The character that stands for `\` and `c` inside quotes.
pub open spec fn unescape(c: char) -> Option<char> {
    if c == 'n' {
        Some('\n')
    } else if c == 't' {
        Some('\t')
    } else if c == '"' || c == '\\' {
        Some(c)
    } else {
        None
    }
}

/// The rest of a quoted text from `i` on, where the quote opened at `open`
/// and `acc` has been read so far: the text, and the place behind the
/// closing quote. Line feeds may stand in it; `\n`, `\t`, `\"` and `\\` are
/// the escapes.
pub open spec fn string_from(s: Seq<char>, i: int, open: int, acc: Seq<char>) -> Result<
    (Seq<char>, int),
    ParseErrorV,
>
    decreases s.len() - i,
{
    if i < 0 || i >= s.len() {
        Err(fault(ParseErrorKind::UnterminatedBlock, open))
    } else if s[i] == '"' {
        Ok((acc, i + 1))
    } else if s[i] != '\\' {
        string_from(s, i + 1, open, acc.push(s[i]))
    } else if i + 1 >= s.len() {
        Err(fault(ParseErrorKind::UnterminatedBlock, open))
    } else {
        match unescape(s[i + 1]) {
            Some(c) => string_from(s, i + 2, open, acc.push(c)),
            None => Err(fault(ParseErrorKind::UnexpectedToken, i)),
        }
    }
}

/// The quoted text whose opening quote stands at `open`.
pub open spec fn quoted(s: Seq<char>, open: int) -> Result<(Seq<char>, int), ParseErrorV> {
    string_from(s, open + 1, open, Seq::empty())
}

/// The place of the `}` that closes a block, seen from `i` with `depth`
/// blocks open; braces inside the block nest.
pub open spec fn block_end(s: Seq<char>, i: int, depth: nat) -> Option<int>
    decreases s.len() - i,
{
    if i < 0 || i >= s.len() {
        None
    } else if s[i] == '{' {
        block_end(s, i + 1, depth + 1)
    } else if s[i] != '}' {
        block_end(s, i + 1, depth)
    } else if depth <= 1 {
        Some(i)
    } else {
        block_end(s, i + 1, (depth - 1) as nat)
    }
}

/// The words of `s[i..hi]`, which blanks separate, behind those in `acc`.
pub open spec fn words_from(s: Seq<char>, i: int, hi: int, acc: Seq<Seq<char>>) -> Seq<
    Seq<char>,
>
    decreases hi - i,
    via words_from_decreases
{
    let a = skip_blanks(s, i, hi);
    if 0 <= i && a < hi <= s.len() {
        words_from(s, skip_solid(s, a, hi), hi, acc.push(s.subrange(a, skip_solid(s, a, hi))))
    } else {
        acc
    }
}

#[via_fn]
proof fn words_from_decreases(s: Seq<char>, i: int, hi: int, acc: Seq<Seq<char>>) {
    if 0 <= i && i <= hi <= s.len() {
        lemma_skip_blanks(s, i, hi);
        let a = skip_blanks(s, i, hi);
        if a < hi {
            lemma_skip_solid(s, a, hi);
        }
    }
}

/// The end of a line lies at or behind the place asked for, at a line feed
/// or at the end of the source, with no line feed before it.
pub proof fn lemma_line_end(s: Seq<char>, i: int)
    requires
        0 <= i <= s.len(),
    ensures
        i <= line_end(s, i) <= s.len(),
        line_end(s, i) < s.len() ==> s[line_end(s, i)] == '\n',
        forall|j: int| i <= j < line_end(s, i) ==> s[j] != '\n',
    decreases s.len() - i,
{
    if i < s.len() && s[i] != '\n' {
        lemma_line_end(s, i + 1);
    }
}

/// Passing blanks moves forward, stays below the bound, and stops at what
/// is no blank.
pub proof fn lemma_skip_blanks(s: Seq<char>, i: int, hi: int)
    requires
        0 <= i <= hi <= s.len(),
    ensures
        i <= skip_blanks(s, i, hi) <= hi,
        skip_blanks(s, i, hi) < hi ==> !is_blank(s[skip_blanks(s, i, hi)]),
    decreases hi - i,
{
    if i < hi && is_blank(s[i]) {
        lemma_skip_blanks(s, i + 1, hi);
    }
}

/// Passing what is no blank moves forward, and past the first character
/// where that is no blank.
pub proof fn lemma_skip_solid(s: Seq<char>, i: int, hi: int)
    requires
        0 <= i <= hi <= s.len(),
    ensures
        i <= skip_solid(s, i, hi) <= hi,
        i < hi && !is_blank(s[i]) ==> i < skip_solid(s, i, hi),
    decreases hi - i,
{
    if i < hi && !is_blank(s[i]) {
        lemma_skip_solid(s, i + 1, hi);
    }
}

/// Passing blanks and comments moves forward and stops at a character that
/// starts something.
pub proof fn lemma_skip_trivia(s: Seq<char>, i: int)
    requires
        0 <= i <= s.len(),
    ensures
        i <= skip_trivia(s, i) <= s.len(),
        skip_trivia(s, i) < s.len() ==> !is_blank(s[skip_trivia(s, i)]) && s[skip_trivia(s, i)]
            != '#',
    decreases s.len() - i,
{
    if i < s.len() && is_blank(s[i]) {
        lemma_skip_trivia(s, i + 1);
    } else if i < s.len() && s[i] == '#' {
        lemma_line_end(s, i + 1);
        lemma_skip_trivia(s, line_end(s, i + 1));
    }
}

/// A word ends at or behind its start, and behind it where a word
/// character stands there.
pub proof fn lemma_word_end(s: Seq<char>, i: int)
    requires
        0 <= i <= s.len(),
    ensures
        i <= word_end(s, i) <= s.len(),
        i < s.len() && is_word_char(s[i]) ==> i < word_end(s, i),
    decreases s.len() - i,
{
    if i < s.len() && is_word_char(s[i]) {
        lemma_word_end(s, i + 1);
    }
}

/// A quoted text that is closed ends behind the place it is read from.
pub proof fn lemma_string_from(s: Seq<char>, i: int, open: int, acc: Seq<char>)
    requires
        0 <= i <= s.len(),
    ensures
        string_from(s, i, open, acc) is Ok ==> i < string_from(s, i, open, acc)->Ok_0.1
            <= s.len(),
    decreases s.len() - i,
{
    if i < s.len() && s[i] != '"' {
        if s[i] != '\\' {
            lemma_string_from(s, i + 1, open, acc.push(s[i]));
        } else if i + 1 < s.len() {
            match unescape(s[i + 1]) {
                Some(c) => {
                    lemma_string_from(s, i + 2, open, acc.push(c));
                },
                None => {},
            }
        }
    }
}

/// The brace that closes a block stands inside the source.
pub proof fn lemma_block_end(s: Seq<char>, i: int, depth: nat)
    requires
        0 <= i <= s.len(),
    ensures
        block_end(s, i, depth) is Some ==> i <= block_end(s, i, depth)->Some_0 < s.len(),
    decreases s.len() - i,
{
    if i < s.len() {
        if s[i] == '{' {
            lemma_block_end(s, i + 1, depth + 1);
        } else if s[i] != '}' {
            lemma_block_end(s, i + 1, depth);
        } else if depth > 1 {
            lemma_block_end(s, i + 1, (depth - 1) as nat);
        }
    }
}

/// Tells whether `c` is a blank.
pub fn blank(c: char) -> (r: bool)
    ensures
        r == is_blank(c),
{
    c == ' ' || c == '\t' || c == '\r' || c == '\n'
}

/// Tells whether `c` may stand in a keyword or a trigger.
pub fn word_char(c: char) -> (r: bool)
    ensures
        r == is_word_char(c),
{
    !blank(c) && c != '"' && c != '{' && c != '}' && c != '#'
}

/// Finds the end of the line that `from` lies in.
pub fn find_line_end(s: &[char], from: usize) -> (end: usize)
    requires
        from <= s.len(),
    ensures
        end == line_end(s@, from as int),
        from <= end <= s.len(),
{
    let mut end: usize = from;
    while end < s.len() && s[end] != '\n'
        invariant
            from <= end <= s.len(),
            line_end(s@, end as int) == line_end(s@, from as int),
        decreases s.len() - end,
    {
        end += 1;
    }
    end
}

/// Passes over the blanks from `from` on, up to `hi`.
pub fn pass_blanks(s: &[char], from: usize, hi: usize) -> (at: usize)
    requires
        from <= hi <= s.len(),
    ensures
        at == skip_blanks(s@, from as int, hi as int),
        from <= at <= hi,
{
    let mut at: usize = from;
    while at < hi && blank(s[at])
        invariant
            from <= at <= hi <= s.len(),
            skip_blanks(s@, at as int, hi as int) == skip_blanks(s@, from as int, hi as int),
        decreases hi - at,
    {
        at += 1;
    }
    at
}

/// Passes over what is no blank from `from` on, up to `hi`.
pub fn pass_solid(s: &[char], from: usize, hi: usize) -> (at: usize)
    requires
        from <= hi <= s.len(),
    ensures
        at == skip_solid(s@, from as int, hi as int),
        from <= at <= hi,
{
    let mut at: usize = from;
    while at < hi && !blank(s[at])
        invariant
            from <= at <= hi <= s.len(),
            skip_solid(s@, at as int, hi as int) == skip_solid(s@, from as int, hi as int),
        decreases hi - at,
    {
        at += 1;
    }
    at
}

/// Finds the end of `s[lo..hi]` without the blanks at its end.
pub fn trim_end(s: &[char], lo: usize, hi: usize) -> (end: usize)
    requires
        lo <= hi <= s.len(),
    ensures
        end == trimmed_end(s@, lo as int, hi as int),
        lo <= end <= hi,
{
    let mut end: usize = hi;
    while lo < end && blank(s[end - 1])
        invariant
            lo <= end <= hi <= s.len(),
            trimmed_end(s@, lo as int, end as int) == trimmed_end(s@, lo as int, hi as int),
        decreases end - lo,
    {
        end -= 1;
    }
    end
}

/// Passes over blanks and comments from `from` on.
pub fn pass_trivia(s: &[char], from: usize) -> (at: usize)
    requires
        from <= s.len(),
    ensures
        at == skip_trivia(s@, from as int),
        from <= at <= s.len(),
{
    let mut at: usize = from;
    while at < s.len() && (blank(s[at]) || s[at] == '#')
        invariant
            from <= at <= s.len(),
            skip_trivia(s@, at as int) == skip_trivia(s@, from as int),
        decreases s.len() - at,
    {
        if s[at] == '#' {
            at = find_line_end(s, at + 1);
        } else {
            at += 1;
        }
    }
    at
}

/// Finds where the run of word characters that starts at `from` ends.
pub fn scan_word(s: &[char], from: usize) -> (end: usize)
    requires
        from <= s.len(),
    ensures
        end == word_end(s@, from as int),
        from <= end <= s.len(),
{
    let mut end: usize = from;
    while end < s.len() && word_char(s[end])
        invariant
            from <= end <= s.len(),
            word_end(s@, end as int) == word_end(s@, from as int),
        decreases s.len() - end,
    {
        end += 1;
    }
    end
}

/// The value of what a scan of a quoted text returns.
pub open spec fn quoted_view(r: Result<(Vec<char>, usize), ParseError>) -> Result<
    (Seq<char>, int),
    ParseErrorV,
> {
    match r {
        Ok((text, next)) => Ok((text@, next as int)),
        Err(e) => Err(e@),
    }
}

/// Reads the quoted text whose opening quote stands at `open`: the text
/// with its escapes resolved, and the place behind the closing quote.
pub fn read_quoted(s: &[char], open: usize) -> (r: Result<(Vec<char>, usize), ParseError>)
    requires
        open < s.len(),
    ensures
        quoted_view(r) == quoted(s@, open as int),
        r is Ok ==> open < r->Ok_0.1 <= s.len(),
{
    let mut text: Vec<char> = Vec::new();
    let mut i: usize = open + 1;
    while i < s.len()
        invariant
            open < i <= s.len(),
            string_from(s@, i as int, open as int, text@) == quoted(s@, open as int),
        decreases s.len() - i,
    {
        let c = s[i];
        if c == '"' {
            return Ok((text, i + 1));
        } else if c != '\\' {
            text.push(c);
            i += 1;
        } else if i + 1 >= s.len() {
            return Err(ParseError { kind: ParseErrorKind::UnterminatedBlock, offset: open });
        } else {
            let e = s[i + 1];
            if e == 'n' {
                text.push('\n');
            } else if e == 't' {
                text.push('\t');
            } else if e == '"' || e == '\\' {
                text.push(e);
            } else {
                return Err(ParseError { kind: ParseErrorKind::UnexpectedToken, offset: i });
            }
            i += 2;
        }
    }
    Err(ParseError { kind: ParseErrorKind::UnterminatedBlock, offset: open })
}

/// Finds the `}` that closes the block whose content starts at `from`.
pub fn find_block_end(s: &[char], from: usize) -> (r: Option<usize>)
    requires
        from <= s.len(),
    ensures
        match r {
            Some(at) => block_end(s@, from as int, 1) == Some(at as int) && from <= at < s.len(),
            None => block_end(s@, from as int, 1) is None,
        },
{
    let mut inner: usize = 0;
    let mut i: usize = from;
    while i < s.len()
        invariant
            from <= i <= s.len(),
            inner <= i - from,
            block_end(s@, i as int, (inner + 1) as nat) == block_end(s@, from as int, 1),
        decreases s.len() - i,
    {
        let c = s[i];
        if c == '{' {
            inner += 1;
        } else if c == '}' {
            if inner == 0 {
                return Some(i);
            }
            inner -= 1;
        }
        i += 1;
    }
    None
}

/// Splits `s[from..hi]` into its words.
pub fn split_words(s: &[char], from: usize, hi: usize) -> (r: Vec<Vec<char>>)
    requires
        from <= hi <= s.len(),
    ensures
        crate::text::texts(r@) == words_from(s@, from as int, hi as int, Seq::empty()),
{
    let mut r: Vec<Vec<char>> = Vec::new();
    let mut i: usize = from;
    assert(crate::text::texts(r@) =~= Seq::<Seq<char>>::empty());
    loop
        invariant
            from <= i <= hi <= s.len(),
            words_from(s@, i as int, hi as int, crate::text::texts(r@)) == words_from(
                s@,
                from as int,
                hi as int,
                Seq::empty(),
            ),
        decreases hi - i,
    {
        let a = pass_blanks(s, i, hi);
        if a >= hi {
            return r;
        }
        let b = pass_solid(s, a, hi);
        proof {
            lemma_skip_blanks(s@, i as int, hi as int);
            lemma_skip_solid(s@, a as int, hi as int);
        }
        let ghost before = r@;
        let w = copy_range(s, a, b);
        r.push(w);
        assert(crate::text::texts(r@) =~= crate::text::texts(before).push(
            s@.subrange(a as int, b as int),
        ));
        i = b;
    }
}

/// How many line feeds stand before place `n`.
pub open spec fn lines_before(s: Seq<char>, n: int) -> nat
    decreases n,
{
    if n <= 0 || n > s.len() {
        0
    } else if s[n - 1] == '\n' {
        lines_before(s, n - 1) + 1
    } else {
        lines_before(s, n - 1)
    }
}

/// Where the line that place `n` lies in starts.
pub open spec fn line_start(s: Seq<char>, n: int) -> int
    decreases n,
{
    if n <= 0 || n > s.len() {
        0
    } else if s[n - 1] == '\n' {
        n
    } else {
        line_start(s, n - 1)
    }
}

/// A place in a source, as a line and a column, both counted from 0.
#[derive(Clone, Copy, Debug, PartialEq, Eq)]
pub struct Position {
    pub line: usize,
    pub column: usize,
}

/// Turns an offset into the line and the column that it stands at.
pub fn position(source: &[char], offset: usize) -> (r: Position)
    requires
        offset <= source.len(),
    ensures
        r.line == lines_before(source@, offset as int),
        r.column == offset - line_start(source@, offset as int),
{
    let mut line: usize = 0;
    let mut start: usize = 0;
    let mut i: usize = 0;
    while i < offset
        invariant
            i <= offset <= source.len(),
            line <= i,
            start <= i,
            line == lines_before(source@, i as int),
            start == line_start(source@, i as int),
        decreases offset - i,
    {
        if source[i] == '\n' {
            line += 1;
            start = i + 1;
        }
        i += 1;
    }
    Position { line, column: offset - start }
}

} // verus!
