//! The master-file grammar as mathematics.
//!
//! Everything here is a function of the whole input `s`, a sequence of
//! characters, and of indices into it.  The executable lexer is proved to
//! compute exactly these functions.

use crate::chars::{
    char_bytes, digit_value, ends_field, is_blank, is_control, is_digit, is_line_break,
};
use crate::token::{ErrorKind, LexError, TokenView};
use vstd::prelude::*;
use vstd::utf8::encode_utf8;

verus! {

/// The line of index `i`: the number of line feeds before it.
pub open spec fn line_at(s: Seq<char>, i: int) -> int
    decreases i,
{
    if i <= 0 {
        0
    } else if s[i - 1] == '\n' {
        line_at(s, i - 1) + 1
    } else {
        line_at(s, i - 1)
    }
}

/// The column of index `i`: the number of characters between the last line
/// feed before it, or the start of the input, and `i`.
pub open spec fn column_at(s: Seq<char>, i: int) -> int
    decreases i,
{
    if i <= 0 || s[i - 1] == '\n' {
        0
    } else {
        column_at(s, i - 1) + 1
    }
}

/// The end of the longest run of characters satisfying `p` that starts at `i`.
pub open spec fn run_end(s: Seq<char>, i: int, p: spec_fn(char) -> bool) -> int
    decreases s.len() - i,
{
    if 0 <= i < s.len() && p(s[i]) {
        run_end(s, i + 1, p)
    } else {
        i
    }
}

/// A run ends inside the input or at its end; every character of the run
/// satisfies `p`, and the character after it, if there is one, does not.
pub proof fn lemma_run_end(s: Seq<char>, i: int, p: spec_fn(char) -> bool)
    requires
        0 <= i <= s.len(),
    ensures
        i <= run_end(s, i, p) <= s.len(),
        run_end(s, i, p) < s.len() ==> !p(s[run_end(s, i, p)]),
        forall|k: int| i <= k < run_end(s, i, p) ==> p(#[trigger] s[k]),
    decreases s.len() - i,
{
    if i < s.len() && p(s[i]) {
        lemma_run_end(s, i + 1, p);
    }
}

/// The first index from `i` on that holds neither a space nor a tab.
pub open spec fn skip_blanks(s: Seq<char>, i: int) -> int {
    run_end(s, i, |c: char| is_blank(c))
}

/// The first index from `i` on that holds neither a carriage return nor a
/// line feed.
pub open spec fn skip_breaks(s: Seq<char>, i: int) -> int {
    run_end(s, i, |c: char| is_line_break(c))
}

/// Whether `c` separates fields without ending the entry.  A carriage return
/// always does; a line feed does inside parentheses.
pub open spec fn is_gap(c: char, grouped: bool) -> bool {
    is_blank(c) || c == '\r' || (grouped && c == '\n')
}

/// The first index from `i` on that holds no gap character.
pub open spec fn skip_gap(s: Seq<char>, i: int, grouped: bool) -> int {
    run_end(s, i, |c: char| is_gap(c, grouped))
}

/// The end of the digits that start at `i`.
pub open spec fn digits_end(s: Seq<char>, i: int) -> int {
    run_end(s, i, |c: char| is_digit(c))
}

/// The index of the first line feed from `i` on, or the end of the input.
pub open spec fn line_end(s: Seq<char>, i: int) -> int {
    run_end(s, i, |c: char| c != '\n')
}

/// The end of the directive name that starts at `i`: the first space or
/// control character.
pub open spec fn name_end(s: Seq<char>, i: int) -> int {
    run_end(s, i, |c: char| !is_blank(c) && !is_control(c))
}

/// The number that the digits `s[i..j]` spell in decimal.
pub open spec fn decimal(s: Seq<char>, i: int, j: int) -> int
    decreases j - i,
{
    if j <= i {
        0
    } else {
        decimal(s, i, j - 1) * 10 + digit_value(s[j - 1])
    }
}

/// The body of a comment as bytes: its characters in UTF-8, carriage returns
/// left out.
pub open spec fn comment_bytes(body: Seq<char>) -> Seq<u8> {
    encode_utf8(body.filter(|c: char| c != '\r'))
}

/// The result of reading one piece of text from an index on.
pub ghost enum Scan {
    /// The text ends before `end` and stands for `bytes`.
    Done { end: int, bytes: Seq<u8> },
    /// Reading stopped at `end` with an error of kind `kind`, reported for
    /// line `line`.
    Fail { end: int, kind: ErrorKind, line: int },
}

impl Scan {
    /// This result, as the rest of a text that began with `prefix`.
    pub open spec fn after(self, prefix: Seq<u8>) -> Scan {
        match self {
            Scan::Done { end, bytes } => Scan::Done { end, bytes: prefix + bytes },
            Scan::Fail { .. } => self,
        }
    }

    /// Where reading stopped.
    pub open spec fn end(self) -> int {
        match self {
            Scan::Done { end, .. } => end,
            Scan::Fail { end, .. } => end,
        }
    }
}

/// The value of the three digits at `i`.
pub open spec fn escape_value(s: Seq<char>, i: int) -> int {
    digit_value(s[i]) * 100 + digit_value(s[i + 1]) * 10 + digit_value(s[i + 2])
}

/// Decodes the escape whose backslash stands just before `i`.
///
/// Three digits stand for the octet of that decimal value.  Any other
/// character stands for itself.
pub open spec fn scan_escape(s: Seq<char>, i: int) -> Scan {
    if i >= s.len() {
        Scan::Fail { end: i, kind: ErrorKind::DanglingEscape, line: line_at(s, i) }
    } else if !is_digit(s[i]) {
        Scan::Done { end: i + 1, bytes: char_bytes(s[i]) }
    } else if i + 1 >= s.len() || !is_digit(s[i + 1]) {
        Scan::Fail { end: i + 1, kind: ErrorKind::InvalidOctalEscape, line: line_at(s, i + 1) }
    } else if i + 2 >= s.len() || !is_digit(s[i + 2]) {
        Scan::Fail { end: i + 2, kind: ErrorKind::InvalidOctalEscape, line: line_at(s, i + 2) }
    } else if escape_value(s, i) > 255 {
        Scan::Fail { end: i + 3, kind: ErrorKind::InvalidOctalEscape, line: line_at(s, i + 3) }
    } else {
        Scan::Done { end: i + 3, bytes: seq![escape_value(s, i) as u8] }
    }
}

/// Reads the inside of a quoted string from `i` on, up to and including the
/// closing quote.  The opening quote stands on line `open`, and a string
/// that is never closed is reported for that line.
pub open spec fn scan_quoted(s: Seq<char>, i: int, open: int) -> Scan
    decreases s.len() - i,
{
    if i < 0 || i >= s.len() {
        Scan::Fail { end: i, kind: ErrorKind::UnterminatedQuote, line: open }
    } else if s[i] == '"' {
        Scan::Done { end: i + 1, bytes: Seq::empty() }
    } else if s[i] == '\\' {
        match scan_escape(s, i + 1) {
            Scan::Done { end, bytes } => scan_quoted(s, end, open).after(bytes),
            Scan::Fail { end, kind, line } => Scan::Fail { end, kind, line },
        }
    } else {
        scan_quoted(s, i + 1, open).after(char_bytes(s[i]))
    }
}

/// Reads the field that starts at `i`.
///
/// The field runs up to the first blank, line break, `;`, `(` or `)`, none
/// of which belongs to it, or through the closing quote of a quoted string.
pub open spec fn scan_field(s: Seq<char>, i: int) -> Scan
    decreases s.len() - i,
{
    if i < 0 || i >= s.len() || ends_field(s[i]) {
        Scan::Done { end: i, bytes: Seq::empty() }
    } else if s[i] == '"' {
        scan_quoted(s, i + 1, line_at(s, i))
    } else if s[i] == '\\' {
        match scan_escape(s, i + 1) {
            Scan::Done { end, bytes } => scan_field(s, end).after(bytes),
            Scan::Fail { end, kind, line } => Scan::Fail { end, kind, line },
        }
    } else if is_control(s[i]) {
        Scan::Fail { end: i, kind: ErrorKind::UnexpectedControlCharacter, line: line_at(s, i) }
    } else {
        scan_field(s, i + 1).after(char_bytes(s[i]))
    }
}

/// Whether the digits at `i` are a TTL: at least one digit, a value of at
/// most 31 bits, and nothing after the digits but the end of a field.
pub open spec fn ttl_at(s: Seq<char>, i: int) -> bool {
    let j = digits_end(s, i);
    &&& i < j
    &&& j >= s.len() || ends_field(s[j])
    &&& decimal(s, i, j) <= i32::MAX
}

/// The names of the three directives.
pub open spec fn origin_name() -> Seq<char> {
    seq!['O', 'R', 'I', 'G', 'I', 'N']
}

pub open spec fn include_name() -> Seq<char> {
    seq!['I', 'N', 'C', 'L', 'U', 'D', 'E']
}

pub open spec fn ttl_name() -> Seq<char> {
    seq!['T', 'T', 'L']
}

/// What a call of the lexer finds the lexer in.  Inside a call, reading a
/// directive, a field or a quoted string is the work of the function of that
/// name, which holds the text read so far.
#[derive(Clone, Copy, PartialEq, Eq, Debug, Structural)]
pub enum State {
    /// At the start of a line.
    StartLine,
    /// Inside an entry, after its first token.
    RestOfLine,
    /// At the `;` of a comment whose `Comment` token has been given out.
    Comment,
    /// After the end of the input.
    EOF,
    /// After an error.
    Failed(LexError),
}

/// What holds of a lexer between calls: the position `pos` lies in the
/// input `s`; no more parentheses are open than characters were consumed,
/// and none at the start of a line; in state `Comment` the next character is
/// the `;` of the comment.
pub open spec fn consistent(s: Seq<char>, pos: int, depth: int, state: State) -> bool {
    &&& 0 <= pos <= s.len()
    &&& 0 <= depth <= pos
    &&& state is StartLine ==> depth == 0
    &&& state is Comment ==> pos < s.len() && s[pos] == ';'
}

/// What one call of the lexer does: where it leaves the lexer, and what it
/// returns.
pub ghost struct Step {
    pub pos: int,
    pub depth: int,
    pub state: State,
    pub result: Result<TokenView, LexError>,
}

/// The step that returns `token`.
pub open spec fn emit(pos: int, depth: int, state: State, token: TokenView) -> Step {
    Step { pos, depth, state, result: Ok(token) }
}

/// The error of kind `kind` for line `line`.
pub open spec fn error_on(kind: ErrorKind, line: int) -> LexError {
    LexError { kind, lineno: line as usize }
}

/// The step that stops at `end` with an error.
pub open spec fn fail(end: int, depth: int, kind: ErrorKind, line: int) -> Step {
    Step {
        pos: end,
        depth,
        state: State::Failed(error_on(kind, line)),
        result: Err(error_on(kind, line)),
    }
}

/// The step for `$ORIGIN`, its argument expected from `i` on.
pub open spec fn step_origin(s: Seq<char>, i: int) -> Step {
    match scan_field(s, skip_blanks(s, i)) {
        Scan::Done { end, bytes } => emit(
            end,
            0,
            State::RestOfLine,
            TokenView::Origin { domain_name: bytes, lineno: line_at(s, end) },
        ),
        Scan::Fail { end, kind, line } => fail(end, 0, kind, line),
    }
}

/// The step for `$INCLUDE`, its arguments expected from `i` on.  A domain
/// name is present if a field starts after the file name on the same line.
pub open spec fn step_include(s: Seq<char>, i: int) -> Step {
    match scan_field(s, skip_blanks(s, i)) {
        Scan::Done { end, bytes } => {
            let k = skip_blanks(s, end);
            if k >= s.len() || ends_field(s[k]) {
                emit(
                    k,
                    0,
                    State::RestOfLine,
                    TokenView::Include { file_name: bytes, domain_name: None, lineno: line_at(s, k) },
                )
            } else {
                match scan_field(s, k) {
                    Scan::Done { end: last, bytes: name } => emit(
                        last,
                        0,
                        State::RestOfLine,
                        TokenView::Include {
                            file_name: bytes,
                            domain_name: Some(name),
                            lineno: line_at(s, last),
                        },
                    ),
                    Scan::Fail { end: last, kind, line } => fail(last, 0, kind, line),
                }
            }
        },
        Scan::Fail { end, kind, line } => fail(end, 0, kind, line),
    }
}

/// The step for `$TTL`, its argument expected from `i` on.  The digits are
/// consumed whether or not they are a TTL.
pub open spec fn step_ttl(s: Seq<char>, i: int) -> Step {
    let k = skip_blanks(s, i);
    let j = digits_end(s, k);
    if ttl_at(s, k) {
        emit(
            j,
            0,
            State::RestOfLine,
            TokenView::TTL { ttl: decimal(s, k, j), lineno: line_at(s, j) },
        )
    } else {
        fail(j, 0, ErrorKind::InvalidTtl, line_at(s, j))
    }
}

/// The step for the directive whose name starts at `i`, after the `$`.
///
/// The name runs up to a space or a tab, and is one of `ORIGIN`, `INCLUDE`
/// and `TTL` in upper case.  The arguments follow after any number of
/// blanks.
pub open spec fn step_directive(s: Seq<char>, i: int) -> Step {
    let j = name_end(s, i);
    if j >= s.len() || is_line_break(s[j]) {
        fail(j, 0, ErrorKind::UnexpectedEndOfLine, line_at(s, j))
    } else if !is_blank(s[j]) {
        fail(j, 0, ErrorKind::UnexpectedControlCharacter, line_at(s, j))
    } else if s.subrange(i, j) == origin_name() {
        step_origin(s, j + 1)
    } else if s.subrange(i, j) == include_name() {
        step_include(s, j + 1)
    } else if s.subrange(i, j) == ttl_name() {
        step_ttl(s, j + 1)
    } else {
        fail(j, 0, ErrorKind::UnknownDirective, line_at(s, j))
    }
}

/// The step from the start of a line at `i`.
///
/// Empty lines are passed over.  Then the end of the input yields `EOF`; a
/// `;` yields `Comment` and a `$` a directive; a blank yields `Blank`, and so
/// does a parenthesis, which separates fields as a blank does; anything else
/// is read as a field and yields `DomainName`.  `Comment` and `Blank` consume
/// nothing.
pub open spec fn step_start(s: Seq<char>, i: int) -> Step {
    let j = skip_breaks(s, i);
    if j >= s.len() {
        emit(j, 0, State::EOF, TokenView::EOF)
    } else if s[j] == ';' {
        emit(j, 0, State::Comment, TokenView::Comment)
    } else if s[j] == '$' {
        step_directive(s, j + 1)
    } else if is_blank(s[j]) || s[j] == '(' || s[j] == ')' {
        emit(j, 0, State::RestOfLine, TokenView::Blank)
    } else {
        match scan_field(s, j) {
            Scan::Done { end, bytes } => emit(end, 0, State::RestOfLine, TokenView::DomainName(bytes)),
            Scan::Fail { end, kind, line } => fail(end, 0, kind, line),
        }
    }
}

/// The step from inside an entry at `i`, with `depth` parentheses open.
///
/// The gap before the next item is passed over; inside parentheses line
/// feeds belong to it.  Then the end of the input yields `EOF`; a line feed
/// ends the entry, and the step is the one from the start of the next line;
/// a `;` yields `Comment`, which consumes nothing; `(` yields `OpenParen`;
/// `)` yields `CloseParen` if a parenthesis is open and is an error if none
/// is; anything else is read as a field and yields `Text`.
pub open spec fn step_rest(s: Seq<char>, i: int, depth: int) -> Step {
    let j = skip_gap(s, i, depth > 0);
    if j >= s.len() {
        emit(j, depth, State::EOF, TokenView::EOF)
    } else if s[j] == '\n' {
        step_start(s, j + 1)
    } else if s[j] == ';' {
        emit(j, depth, State::Comment, TokenView::Comment)
    } else if s[j] == '(' {
        emit(j + 1, depth + 1, State::RestOfLine, TokenView::OpenParen)
    } else if s[j] == ')' {
        if depth <= 0 {
            fail(j, depth, ErrorKind::UnbalancedParenthesis, line_at(s, j))
        } else {
            emit(j + 1, depth - 1, State::RestOfLine, TokenView::CloseParen)
        }
    } else {
        match scan_field(s, j) {
            Scan::Done { end, bytes } => emit(end, depth, State::RestOfLine, TokenView::Text(bytes)),
            Scan::Fail { end, kind, line } => fail(end, depth, kind, line),
        }
    }
}

/// The step from the `;` of a comment at `i`: the body runs to the next line
/// feed, which stays unconsumed, or to the end of the input.
pub open spec fn step_comment(s: Seq<char>, i: int, depth: int) -> Step {
    let end = line_end(s, i + 1);
    emit(end, depth, State::RestOfLine, TokenView::Text(comment_bytes(s.subrange(i + 1, end))))
}

/// What the next call does, for a lexer at index `pos` of `s` with `depth`
/// parentheses open and in state `state`.
pub open spec fn step(s: Seq<char>, pos: int, depth: int, state: State) -> Step {
    match state {
        State::StartLine => step_start(s, pos),
        State::RestOfLine => step_rest(s, pos, depth),
        State::Comment => step_comment(s, pos, depth),
        State::EOF => emit(pos, depth, State::EOF, TokenView::EOF),
        State::Failed(error) => Step { pos, depth, state, result: Err(error) },
    }
}

} // verus!
