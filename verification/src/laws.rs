//! What holds of the grammar in general, proved from its definition.

use crate::chars::{char_bytes, ends_field, is_blank, is_control, is_digit, is_line_break};
use crate::grammar::{
    consistent, emit, escape_value, fail, is_gap, lemma_run_end, line_at, name_end, scan_escape,
    scan_field, scan_quoted, skip_blanks, skip_breaks, skip_gap, step, step_comment,
    step_directive, step_rest, step_start, Scan, State,
};
use crate::token::{ErrorKind, LexError, TokenView};
use vstd::prelude::*;
use vstd::utf8::encode_utf8;

verus! {

/// A character with no special meaning in a field: it neither ends the
/// field nor opens a quoted string or an escape, and is no control
/// character.
pub open spec fn is_plain(c: char) -> bool {
    !ends_field(c) && !is_control(c) && c != '"' && c != '\\'
}

/// Whether `s[i..j]` is a word: plain characters only, followed by the end
/// of the input or by a character that ends a field.
pub open spec fn is_word(s: Seq<char>, i: int, j: int) -> bool {
    &&& 0 <= i <= j <= s.len()
    &&& forall|k: int| i <= k < j ==> is_plain(#[trigger] s[k])
    &&& j == s.len() || ends_field(s[j])
}

/// A word read as a field is the field: it ends where the word ends, and its
/// bytes are the word in UTF-8.
pub proof fn law_word_is_field(s: Seq<char>, i: int, j: int)
    requires
        is_word(s, i, j),
    ensures
        scan_field(s, i) == (Scan::Done { end: j, bytes: encode_utf8(s.subrange(i, j)) }),
    decreases j - i,
{
    if i == j {
        assert(s.subrange(i, j) =~= Seq::<char>::empty());
        assert(encode_utf8(Seq::<char>::empty()) =~= Seq::<u8>::empty());
    } else {
        law_word_is_field(s, i + 1, j);
        assert(is_plain(s[i]));
        assert(s.subrange(i, j).drop_first() =~= s.subrange(i + 1, j));
        assert(s.subrange(i, j)[0] == s[i]);
        assert(encode_utf8(s.subrange(i, j)) == char_bytes(s[i]) + encode_utf8(
            s.subrange(i + 1, j),
        ));
    }
}

/// A line that starts with a space or a tab yields `Blank`, which consumes
/// nothing; the fields of the line follow.
pub proof fn law_blank_opens_line(s: Seq<char>, i: int)
    requires
        0 <= i < s.len(),
        is_blank(s[i]),
    ensures
        step_start(s, i) == emit(i, 0, State::RestOfLine, TokenView::Blank),
{
}

/// A line that starts with a word, other than a directive, yields that word
/// as a `DomainName`.
pub proof fn law_word_opens_line(s: Seq<char>, i: int, j: int)
    requires
        is_word(s, i, j),
        i < j,
        s[i] != '$',
    ensures
        step_start(s, i) == emit(
            j,
            0,
            State::RestOfLine,
            TokenView::DomainName(encode_utf8(s.subrange(i, j))),
        ),
{
    assert(is_plain(s[i]));
    law_word_is_field(s, i, j);
}

/// A word inside an entry, gaps before it passed over, yields that word as a
/// `Text`.
pub proof fn law_word_inside_line(s: Seq<char>, i: int, j: int, depth: int)
    requires
        is_word(s, i, j),
        i < j,
    ensures
        step_rest(s, i, depth) == emit(
            j,
            depth,
            State::RestOfLine,
            TokenView::Text(encode_utf8(s.subrange(i, j))),
        ),
{
    assert(is_plain(s[i]));
    law_word_is_field(s, i, j);
}

/// Only the start of a line yields `DomainName` or `Blank`: a step inside an
/// entry that does not pass a line end yields neither, and the body of a
/// comment is a `Text`.
pub proof fn law_one_owner_per_line(s: Seq<char>, i: int, depth: int)
    requires
        0 <= i <= s.len(),
    ensures
        ({
            let j = skip_gap(s, i, depth > 0);
            j >= s.len() || s[j] != '\n' ==> !(step_rest(s, i, depth).result matches Ok(
                TokenView::DomainName(_),
            )) && step_rest(s, i, depth).result != Ok::<TokenView, LexError>(TokenView::Blank)
        }),
        step_comment(s, i, depth).result matches Ok(TokenView::Text(_)),
{
}

/// Inside parentheses a line feed is a gap like any blank: the step from it
/// is the step from the character after it, in the same entry.
pub proof fn law_line_feed_inside_parentheses(s: Seq<char>, i: int, depth: int)
    requires
        0 <= i < s.len(),
        s[i] == '\n',
        depth > 0,
    ensures
        step_rest(s, i, depth) == step_rest(s, i + 1, depth),
{
    assert(is_gap(s[i], depth > 0));
}

/// Outside parentheses a line feed ends the entry: the step from it is the
/// step from the start of the next line.
pub proof fn law_line_feed_outside_parentheses(s: Seq<char>, i: int)
    requires
        0 <= i < s.len(),
        s[i] == '\n',
    ensures
        step_rest(s, i, 0) == step_start(s, i + 1),
{
    assert(!is_gap(s[i], false));
}

/// A `)` with no parenthesis open is an error, reported for its line.
pub proof fn law_unmatched_close(s: Seq<char>, i: int)
    requires
        0 <= i < s.len(),
        s[i] == ')',
    ensures
        step_rest(s, i, 0) == fail(i, 0, ErrorKind::UnbalancedParenthesis, line_at(s, i)),
{
    assert(!is_gap(s[i], false));
}

/// The depth counts the parentheses: `OpenParen` adds one, `CloseParen`
/// takes one away and is given out only when one is open, and no other step
/// changes the depth.
pub proof fn law_depth_counts_parentheses(s: Seq<char>, pos: int, depth: int, state: State)
    requires
        consistent(s, pos, depth, state),
    ensures
        ({
            let next = step(s, pos, depth, state);
            match next.result {
                Ok(TokenView::OpenParen) => next.depth == depth + 1,
                Ok(TokenView::CloseParen) => depth > 0 && next.depth == depth - 1,
                _ => next.depth == depth,
            }
        }),
{
    lemma_run_end(s, pos, |c: char| is_gap(c, depth > 0));
}

/// An escaped character that is no digit stands for itself.
pub proof fn law_escape_keeps_character(s: Seq<char>, i: int)
    requires
        0 <= i < s.len(),
        !is_digit(s[i]),
    ensures
        scan_escape(s, i) == (Scan::Done { end: i + 1, bytes: char_bytes(s[i]) }),
{
}

/// Three escaped digits that spell at most 255 stand for that one octet.
pub proof fn law_escape_decimal(s: Seq<char>, i: int)
    requires
        0 <= i,
        i + 2 < s.len(),
        is_digit(s[i]),
        is_digit(s[i + 1]),
        is_digit(s[i + 2]),
        escape_value(s, i) <= 255,
    ensures
        scan_escape(s, i) == (Scan::Done { end: i + 3, bytes: seq![escape_value(s, i) as u8] }),
{
}

/// An escape that begins with a digit has exactly three: with fewer it is
/// an error.
pub proof fn law_escape_width(s: Seq<char>, i: int)
    requires
        0 <= i < s.len(),
        is_digit(s[i]),
        i + 1 >= s.len() || !is_digit(s[i + 1]) || i + 2 >= s.len() || !is_digit(s[i + 2]),
    ensures
        scan_escape(s, i) matches Scan::Fail { kind, .. } && kind
            == ErrorKind::InvalidOctalEscape,
{
}

/// The two forms of an escape agree: an ASCII character escaped as itself
/// and the three digits of its code stand for the same single byte.
pub proof fn law_escape_forms_agree(s: Seq<char>, i: int, t: Seq<char>, j: int)
    requires
        0 <= i < s.len(),
        !is_digit(s[i]),
        s[i] as u32 <= 0x7f,
        0 <= j,
        j + 2 < t.len(),
        is_digit(t[j]),
        is_digit(t[j + 1]),
        is_digit(t[j + 2]),
        escape_value(t, j) == s[i] as u32,
    ensures
        scan_escape(s, i) == (Scan::Done { end: i + 1, bytes: seq![escape_value(t, j) as u8] }),
        scan_escape(t, j) == (Scan::Done { end: j + 3, bytes: seq![escape_value(t, j) as u8] }),
{
    let v = s[i] as u32;
    assert(v & 0x7f == v) by (bit_vector)
        requires
            v <= 0x7f,
    ;
    assert(char_bytes(s[i]) =~= seq![escape_value(t, j) as u8]);
}

/// What stands between two quotes is kept as it is: where no `"` and no
/// `\` occurs in `s[i..j]` and `s[j]` is the closing quote, the string
/// stands for `s[i..j]` in UTF-8, be it blanks, `;`, parentheses or line
/// breaks, and ends after the closing quote.
pub proof fn law_quoted_verbatim(s: Seq<char>, i: int, j: int, open: int)
    requires
        0 <= i <= j < s.len(),
        forall|k: int| i <= k < j ==> #[trigger] s[k] != '"' && s[k] != '\\',
        s[j] == '"',
    ensures
        scan_quoted(s, i, open) == (Scan::Done { end: j + 1, bytes: encode_utf8(s.subrange(i, j)) }),
    decreases j - i,
{
    if i == j {
        assert(s.subrange(i, j) =~= Seq::<char>::empty());
        assert(encode_utf8(Seq::<char>::empty()) =~= Seq::<u8>::empty());
    } else {
        law_quoted_verbatim(s, i + 1, j, open);
        assert(s[i] != '"' && s[i] != '\\');
        assert(s.subrange(i, j).drop_first() =~= s.subrange(i + 1, j));
        assert(s.subrange(i, j)[0] == s[i]);
        assert(encode_utf8(s.subrange(i, j)) == char_bytes(s[i]) + encode_utf8(
            s.subrange(i + 1, j),
        ));
    }
}

/// A quoted string inside an entry is one `Text`, whatever stands between
/// its quotes.
pub proof fn law_quoted_is_one_token(s: Seq<char>, i: int, j: int, depth: int)
    requires
        0 <= i < j < s.len(),
        s[i] == '"',
        forall|k: int| i < k < j ==> #[trigger] s[k] != '"' && s[k] != '\\',
        s[j] == '"',
    ensures
        step_rest(s, i, depth) == emit(
            j + 1,
            depth,
            State::RestOfLine,
            TokenView::Text(encode_utf8(s.subrange(i + 1, j))),
        ),
{
    law_quoted_verbatim(s, i + 1, j, line_at(s, i));
    assert(!is_gap(s[i], depth > 0));
}

/// After the end of the input every step yields `EOF` and changes nothing.
pub proof fn law_end_is_final(s: Seq<char>, pos: int, depth: int)
    ensures
        step(s, pos, depth, State::EOF) == emit(pos, depth, State::EOF, TokenView::EOF),
{
}

/// After an error every step yields that error and changes nothing.
pub proof fn law_error_is_final(s: Seq<char>, pos: int, depth: int, error: LexError)
    ensures
        step(s, pos, depth, State::Failed(error)).result == Err::<TokenView, LexError>(error),
        step(s, pos, depth, State::Failed(error)).state == State::Failed(error),
        step(s, pos, depth, State::Failed(error)).pos == pos,
        step(s, pos, depth, State::Failed(error)).depth == depth,
{
}

/// An escape ends inside the input; one that is decoded ends after its
/// start.
pub proof fn lemma_escape_ends(s: Seq<char>, i: int)
    requires
        0 <= i <= s.len(),
    ensures
        i <= scan_escape(s, i).end() <= s.len(),
        scan_escape(s, i) is Done ==> i < scan_escape(s, i).end(),
{
}

/// A quoted string ends inside the input; one that is closed ends after
/// its start.
pub proof fn lemma_quoted_ends(s: Seq<char>, i: int, open: int)
    requires
        0 <= i <= s.len(),
    ensures
        i <= scan_quoted(s, i, open).end() <= s.len(),
        scan_quoted(s, i, open) is Done ==> i < scan_quoted(s, i, open).end(),
    decreases s.len() - i,
{
    if i < s.len() && s[i] != '"' {
        if s[i] == '\\' {
            lemma_escape_ends(s, i + 1);
            if scan_escape(s, i + 1) is Done {
                lemma_quoted_ends(s, scan_escape(s, i + 1).end(), open);
            }
        } else {
            lemma_quoted_ends(s, i + 1, open);
        }
    }
}

/// A field ends inside the input; one that starts with a character that
/// does not end it is not empty.
pub proof fn lemma_field_ends(s: Seq<char>, i: int)
    requires
        0 <= i <= s.len(),
    ensures
        i <= scan_field(s, i).end() <= s.len(),
        i < s.len() && !ends_field(s[i]) && scan_field(s, i) is Done ==> i < scan_field(
            s,
            i,
        ).end(),
    decreases s.len() - i,
{
    if i < s.len() && !ends_field(s[i]) {
        if s[i] == '"' {
            lemma_quoted_ends(s, i + 1, line_at(s, i));
        } else if s[i] == '\\' {
            lemma_escape_ends(s, i + 1);
            if scan_escape(s, i + 1) is Done {
                lemma_field_ends(s, scan_escape(s, i + 1).end());
            }
        } else if !is_control(s[i]) {
            lemma_field_ends(s, i + 1);
        }
    }
}

/// How far a lexer is from its last token: it falls with every character
/// consumed, and with every step that consumes none.
pub open spec fn distance(s: Seq<char>, pos: int, state: State) -> int {
    3 * (s.len() - pos) + match state {
        State::StartLine => 2int,
        State::RestOfLine => 1int,
        _ => 0int,
    }
}

/// What a step from the start of a line at `i` leads to.
proof fn lemma_step_start(s: Seq<char>, i: int)
    requires
        0 <= i <= s.len(),
    ensures
        ({
            let next = step_start(s, i);
            &&& consistent(s, next.pos, next.depth, next.state)
            &&& i <= next.pos
            &&& next.state is EOF || next.state is Failed || distance(s, next.pos, next.state)
                < distance(s, i, State::StartLine)
        }),
{
    lemma_run_end(s, i, |c: char| is_line_break(c));
    let j = skip_breaks(s, i);
    if j < s.len() {
        if s[j] == '$' {
            lemma_step_directive(s, j + 1);
        } else {
            lemma_field_ends(s, j);
        }
    }
}

/// What the step for a directive, its name at `i`, leads to.
proof fn lemma_step_directive(s: Seq<char>, i: int)
    requires
        0 <= i <= s.len(),
    ensures
        ({
            let next = step_directive(s, i);
            &&& consistent(s, next.pos, next.depth, next.state)
            &&& i <= next.pos
            &&& next.state is Failed || next.state is RestOfLine
        }),
{
    lemma_run_end(s, i, |c: char| !is_blank(c) && !is_control(c));
    let j = name_end(s, i);
    if j < s.len() && is_blank(s[j]) {
        lemma_run_end(s, j + 1, |c: char| is_blank(c));
        let k = skip_blanks(s, j + 1);
        lemma_field_ends(s, k);
        lemma_run_end(s, k, |c: char| is_digit(c));
        if scan_field(s, k) is Done {
            let end = scan_field(s, k).end();
            lemma_run_end(s, end, |c: char| is_blank(c));
            lemma_field_ends(s, skip_blanks(s, end));
        }
    }
}

/// Between calls the lexer stays consistent and never moves backwards.
pub proof fn law_step_keeps_consistent(s: Seq<char>, pos: int, depth: int, state: State)
    requires
        consistent(s, pos, depth, state),
    ensures
        ({
            let next = step(s, pos, depth, state);
            &&& consistent(s, next.pos, next.depth, next.state)
            &&& pos <= next.pos
        }),
{
    lemma_step_makes_progress(s, pos, depth, state);
}

/// The lexer never stalls: a step leads to the end of the input, to an
/// error, or nearer to them.  So a consumer that calls until it sees `EOF`
/// or an error makes finitely many calls.
pub proof fn law_step_makes_progress(s: Seq<char>, pos: int, depth: int, state: State)
    requires
        consistent(s, pos, depth, state),
        !(state is EOF),
        !(state is Failed),
    ensures
        ({
            let next = step(s, pos, depth, state);
            next.state is EOF || next.state is Failed || 0 <= distance(s, next.pos, next.state)
                < distance(s, pos, state)
        }),
{
    lemma_step_makes_progress(s, pos, depth, state);
}

/// The two laws above, proved together.
proof fn lemma_step_makes_progress(s: Seq<char>, pos: int, depth: int, state: State)
    requires
        consistent(s, pos, depth, state),
    ensures
        ({
            let next = step(s, pos, depth, state);
            &&& consistent(s, next.pos, next.depth, next.state)
            &&& pos <= next.pos
            &&& state is EOF || state is Failed || next.state is EOF || next.state is Failed || 0
                <= distance(s, next.pos, next.state) < distance(s, pos, state)
        }),
{
    match state {
        State::StartLine => {
            lemma_step_start(s, pos);
        },
        State::RestOfLine => {
            lemma_run_end(s, pos, |c: char| is_gap(c, depth > 0));
            let j = skip_gap(s, pos, depth > 0);
            if j < s.len() {
                if s[j] == '\n' {
                    lemma_step_start(s, j + 1);
                } else {
                    lemma_field_ends(s, j);
                }
            }
        },
        State::Comment => {
            lemma_run_end(s, pos + 1, |c: char| c != '\n');
        },
        _ => {},
    }
}

} // verus!
