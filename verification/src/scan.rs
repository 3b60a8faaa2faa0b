//! Reading pieces of text with a cursor: gaps, escapes, quoted strings,
//! fields, numbers and comment bodies.

use crate::chars::{
    blank, char_bytes, control, digit, digit_of, field_end, is_blank, is_control, is_line_break,
    lemma_encode_push, line_break, push_char,
};
use crate::cursor::Cursor;
use crate::grammar;
use crate::grammar::{error_on, is_gap, line_at, Scan};
use crate::token::{ErrorKind, LexError};
use vstd::prelude::*;

verus! {

/// Whether a read that appended to a buffer did what `scan` says: on
/// success the buffer grew from `before` to `after` by the bytes of the text
/// and the cursor stands at `pos`, the end of the text; on failure the error
/// is the one of `scan`.
pub open spec fn scanned(
    scan: Scan,
    before: Seq<u8>,
    after: Seq<u8>,
    pos: int,
    r: Result<(), LexError>,
) -> bool {
    match scan {
        Scan::Done { end, bytes } => r is Ok && pos == end && after == before + bytes,
        Scan::Fail { end, kind, line } => r == Err::<(), LexError>(error_on(kind, line)) && pos
            == end,
    }
}

/// A text that began with `a`, then `b`, began with `a + b`.
pub proof fn lemma_after_twice(scan: Scan, a: Seq<u8>, b: Seq<u8>)
    ensures
        scan.after(b).after(a) == scan.after(a + b),
{
    match scan {
        Scan::Done { end, bytes } => {
            assert(a + (b + bytes) =~= (a + b) + bytes);
        },
        Scan::Fail { .. } => {},
    }
}

impl Cursor {
    /// Passes over spaces and tabs.
    pub fn skip_blanks(&mut self)
        requires
            old(self).wf(),
        ensures
            final(self).wf(),
            final(self).input() == old(self).input(),
            old(self).pos() <= final(self).pos(),
            final(self).pos() == grammar::skip_blanks(old(self).input(), old(self).pos()),
            final(self).pos() < final(self).input().len() ==> !is_blank(
                final(self).input()[final(self).pos()],
            ),
    {
        proof {
            self.lemma_in_bounds();
        }
        loop
            invariant
                self.wf(),
                self.input() == old(self).input(),
                0 <= old(self).pos() <= self.pos() <= self.input().len(),
                grammar::skip_blanks(self.input(), self.pos()) == grammar::skip_blanks(
                    old(self).input(),
                    old(self).pos(),
                ),
            ensures
                self.wf(),
                self.input() == old(self).input(),
                old(self).pos() <= self.pos(),
                self.pos() == grammar::skip_blanks(old(self).input(), old(self).pos()),
                self.pos() < self.input().len() ==> !is_blank(self.input()[self.pos()]),
            decreases self.input().len() - self.pos(),
        {
            match self.peek() {
                Some(c) => {
                    if blank(c) {
                        self.advance();
                    } else {
                        break ;
                    }
                },
                None => {
                    break ;
                },
            }
        }
    }

    /// Passes over carriage returns and line feeds.
    pub fn skip_breaks(&mut self)
        requires
            old(self).wf(),
        ensures
            final(self).wf(),
            final(self).input() == old(self).input(),
            old(self).pos() <= final(self).pos(),
            final(self).pos() == grammar::skip_breaks(old(self).input(), old(self).pos()),
            final(self).pos() < final(self).input().len() ==> !is_line_break(
                final(self).input()[final(self).pos()],
            ),
    {
        proof {
            self.lemma_in_bounds();
        }
        loop
            invariant
                self.wf(),
                self.input() == old(self).input(),
                0 <= old(self).pos() <= self.pos() <= self.input().len(),
                grammar::skip_breaks(self.input(), self.pos()) == grammar::skip_breaks(
                    old(self).input(),
                    old(self).pos(),
                ),
            ensures
                self.wf(),
                self.input() == old(self).input(),
                old(self).pos() <= self.pos(),
                self.pos() == grammar::skip_breaks(old(self).input(), old(self).pos()),
                self.pos() < self.input().len() ==> !is_line_break(self.input()[self.pos()]),
            decreases self.input().len() - self.pos(),
        {
            match self.peek() {
                Some(c) => {
                    if line_break(c) {
                        self.advance();
                    } else {
                        break ;
                    }
                },
                None => {
                    break ;
                },
            }
        }
    }

    /// Passes over what separates the fields of an entry: spaces, tabs and
    /// carriage returns, and inside parentheses (`grouped`) line feeds too.
    pub fn skip_gap(&mut self, grouped: bool)
        requires
            old(self).wf(),
        ensures
            final(self).wf(),
            final(self).input() == old(self).input(),
            old(self).pos() <= final(self).pos(),
            final(self).pos() == grammar::skip_gap(old(self).input(), old(self).pos(), grouped),
            final(self).pos() < final(self).input().len() ==> !is_gap(
                final(self).input()[final(self).pos()],
                grouped,
            ),
    {
        proof {
            self.lemma_in_bounds();
        }
        loop
            invariant
                self.wf(),
                self.input() == old(self).input(),
                0 <= old(self).pos() <= self.pos() <= self.input().len(),
                grammar::skip_gap(self.input(), self.pos(), grouped) == grammar::skip_gap(
                    old(self).input(),
                    old(self).pos(),
                    grouped,
                ),
            ensures
                self.wf(),
                self.input() == old(self).input(),
                old(self).pos() <= self.pos(),
                self.pos() == grammar::skip_gap(old(self).input(), old(self).pos(), grouped),
                self.pos() < self.input().len() ==> !is_gap(self.input()[self.pos()], grouped),
            decreases self.input().len() - self.pos(),
        {
            match self.peek() {
                Some(c) => {
                    if blank(c) || c == '\r' || (grouped && c == '\n') {
                        self.advance();
                    } else {
                        break ;
                    }
                },
                None => {
                    break ;
                },
            }
        }
    }

    /// Decodes an escape whose backslash has just been consumed, and appends
    /// what it stands for to `buf`.
    pub fn escape(&mut self, buf: &mut Vec<u8>) -> (r: Result<(), LexError>)
        requires
            old(self).wf(),
        ensures
            final(self).wf(),
            final(self).input() == old(self).input(),
            old(self).pos() <= final(self).pos(),
            scanned(
                grammar::scan_escape(old(self).input(), old(self).pos()),
                old(buf)@,
                final(buf)@,
                final(self).pos(),
                r,
            ),
    {
        proof {
            self.lemma_in_bounds();
        }
        let first = match self.peek() {
            Some(c) => c,
            None => {
                return Err(LexError { kind: ErrorKind::DanglingEscape, lineno: self.line() });
            },
        };
        self.advance();
        if !digit(first) {
            push_char(buf, first);
            return Ok(());
        }
        let second = match self.peek() {
            Some(c) => c,
            None => {
                return Err(LexError { kind: ErrorKind::InvalidOctalEscape, lineno: self.line() });
            },
        };
        if !digit(second) {
            return Err(LexError { kind: ErrorKind::InvalidOctalEscape, lineno: self.line() });
        }
        self.advance();
        let third = match self.peek() {
            Some(c) => c,
            None => {
                return Err(LexError { kind: ErrorKind::InvalidOctalEscape, lineno: self.line() });
            },
        };
        if !digit(third) {
            return Err(LexError { kind: ErrorKind::InvalidOctalEscape, lineno: self.line() });
        }
        self.advance();
        let value: u16 = digit_of(first) as u16 * 100 + digit_of(second) as u16 * 10 + digit_of(
            third,
        ) as u16;
        if value > 255 {
            return Err(LexError { kind: ErrorKind::InvalidOctalEscape, lineno: self.line() });
        }
        buf.push(value as u8);
        assert(buf@ =~= old(buf)@ + seq![value as u8]);
        Ok(())
    }

    /// Reads the inside of a quoted string, through its closing quote, and
    /// appends its bytes to `buf`.  The opening quote, on line `open`, has
    /// just been consumed.
    pub fn quoted(&mut self, buf: &mut Vec<u8>, open: usize) -> (r: Result<(), LexError>)
        requires
            old(self).wf(),
        ensures
            final(self).wf(),
            final(self).input() == old(self).input(),
            old(self).pos() <= final(self).pos(),
            scanned(
                grammar::scan_quoted(old(self).input(), old(self).pos(), open as int),
                old(buf)@,
                final(buf)@,
                final(self).pos(),
                r,
            ),
    {
        let ghost s = self.input();
        let ghost whole = grammar::scan_quoted(s, self.pos(), open as int);
        let ghost mut seen: Seq<u8> = Seq::empty();
        proof {
            self.lemma_in_bounds();
            assert(buf@ =~= old(buf)@ + seen);
            assert(whole.after(seen) == whole) by {
                match whole {
                    Scan::Done { end, bytes } => {
                        assert(seen + bytes =~= bytes);
                    },
                    Scan::Fail { .. } => {},
                }
            }
        }
        loop
            invariant
                self.wf(),
                self.input() == s,
                s == old(self).input(),
                0 <= old(self).pos() <= self.pos() <= s.len(),
                buf@ == old(buf)@ + seen,
                whole == grammar::scan_quoted(s, old(self).pos(), open as int),
                whole == grammar::scan_quoted(s, self.pos(), open as int).after(seen),
            decreases s.len() - self.pos(),
        {
            let ghost here = self.pos();
            match self.peek() {
                None => {
                    return Err(LexError { kind: ErrorKind::UnterminatedQuote, lineno: open });
                },
                Some(c) => {
                    self.advance();
                    if c == '"' {
                        assert(seen + Seq::<u8>::empty() =~= seen);
                        return Ok(());
                    } else if c == '\\' {
                        match self.escape(buf) {
                            Err(error) => {
                                return Err(error);
                            },
                            Ok(()) => {
                                proof {
                                    let bytes = grammar::scan_escape(s, here + 1)->Done_bytes;
                                    lemma_after_twice(
                                        grammar::scan_quoted(s, self.pos(), open as int),
                                        seen,
                                        bytes,
                                    );
                                    assert(buf@ =~= old(buf)@ + (seen + bytes));
                                    seen = seen + bytes;
                                }
                            },
                        }
                    } else {
                        push_char(buf, c);
                        proof {
                            lemma_after_twice(
                                grammar::scan_quoted(s, self.pos(), open as int),
                                seen,
                                char_bytes(c),
                            );
                            assert(buf@ =~= old(buf)@ + (seen + char_bytes(c)));
                            seen = seen + char_bytes(c);
                        }
                    }
                },
            }
        }
    }

    /// Reads a field and returns its bytes.
    pub fn field(&mut self) -> (r: Result<Vec<u8>, LexError>)
        requires
            old(self).wf(),
        ensures
            final(self).wf(),
            final(self).input() == old(self).input(),
            old(self).pos() <= final(self).pos(),
            final(self).pos() == grammar::scan_field(old(self).input(), old(self).pos()).end(),
            match grammar::scan_field(old(self).input(), old(self).pos()) {
                Scan::Done { bytes, .. } => r matches Ok(text) && text@ == bytes,
                Scan::Fail { kind, line, .. } => r == Err::<Vec<u8>, LexError>(
                    error_on(kind, line),
                ),
            },
    {
        let ghost s = self.input();
        let ghost whole = grammar::scan_field(s, self.pos());
        let mut buf: Vec<u8> = Vec::new();
        proof {
            self.lemma_in_bounds();
            assert(whole.after(buf@) == whole) by {
                match whole {
                    Scan::Done { end, bytes } => {
                        assert(buf@ + bytes =~= bytes);
                    },
                    Scan::Fail { .. } => {},
                }
            }
        }
        loop
            invariant
                self.wf(),
                self.input() == s,
                s == old(self).input(),
                0 <= old(self).pos() <= self.pos() <= s.len(),
                whole == grammar::scan_field(s, old(self).pos()),
                whole == grammar::scan_field(s, self.pos()).after(buf@),
            decreases s.len() - self.pos(),
        {
            let ghost here = self.pos();
            let ghost seen = buf@;
            match self.peek() {
                None => {
                    assert(seen + Seq::<u8>::empty() =~= seen);
                    return Ok(buf);
                },
                Some(c) => {
                    if field_end(c) {
                        assert(seen + Seq::<u8>::empty() =~= seen);
                        return Ok(buf);
                    } else if c == '"' {
                        let open = self.line();
                        self.advance();
                        return match self.quoted(&mut buf, open) {
                            Ok(()) => Ok(buf),
                            Err(error) => Err(error),
                        };
                    } else if c == '\\' {
                        self.advance();
                        match self.escape(&mut buf) {
                            Err(error) => {
                                return Err(error);
                            },
                            Ok(()) => {
                                proof {
                                    lemma_after_twice(
                                        grammar::scan_field(s, self.pos()),
                                        seen,
                                        grammar::scan_escape(s, here + 1)->Done_bytes,
                                    );
                                }
                            },
                        }
                    } else if control(c) {
                        return Err(
                            LexError {
                                kind: ErrorKind::UnexpectedControlCharacter,
                                lineno: self.line(),
                            },
                        );
                    } else {
                        push_char(&mut buf, c);
                        self.advance();
                        proof {
                            lemma_after_twice(
                                grammar::scan_field(s, self.pos()),
                                seen,
                                char_bytes(c),
                            );
                        }
                    }
                },
            }
        }
    }

    /// Reads a `$TTL` argument: decimal digits that stand for a number of at
    /// most 31 bits and are followed by the end of a field.
    pub fn ttl(&mut self) -> (r: Result<i32, LexError>)
        requires
            old(self).wf(),
        ensures
            final(self).wf(),
            final(self).input() == old(self).input(),
            old(self).pos() <= final(self).pos(),
            final(self).pos() == grammar::digits_end(old(self).input(), old(self).pos()),
            match r {
                Ok(value) => {
                    &&& grammar::ttl_at(old(self).input(), old(self).pos())
                    &&& value == grammar::decimal(
                        old(self).input(),
                        old(self).pos(),
                        final(self).pos(),
                    )
                },
                Err(error) => {
                    &&& !grammar::ttl_at(old(self).input(), old(self).pos())
                    &&& error == error_on(
                        ErrorKind::InvalidTtl,
                        line_at(old(self).input(), final(self).pos()),
                    )
                },
            },
    {
        let ghost s = self.input();
        let ghost start = self.pos();
        let mut value: i64 = 0;
        let mut fits: bool = true;
        let mut any: bool = false;
        proof {
            self.lemma_in_bounds();
        }
        loop
            invariant
                self.wf(),
                self.input() == s,
                s == old(self).input(),
                start == old(self).pos(),
                0 <= start <= self.pos() <= s.len(),
                any == (start < self.pos()),
                grammar::digits_end(s, self.pos()) == grammar::digits_end(s, start),
                0 <= grammar::decimal(s, start, self.pos()),
                fits ==> value == grammar::decimal(s, start, self.pos()) && value <= i32::MAX,
                !fits ==> grammar::decimal(s, start, self.pos()) > i32::MAX,
            ensures
                self.wf(),
                self.input() == s,
                0 <= start <= self.pos() <= s.len(),
                any == (start < self.pos()),
                self.pos() == grammar::digits_end(s, start),
                fits ==> value == grammar::decimal(s, start, self.pos()) && 0 <= value <= i32::MAX,
                !fits ==> grammar::decimal(s, start, self.pos()) > i32::MAX,
            decreases s.len() - self.pos(),
        {
            match self.peek() {
                Some(c) => {
                    if digit(c) {
                        let d: i64 = digit_of(c) as i64;
                        self.advance();
                        any = true;
                        if fits {
                            let next: i64 = value * 10 + d;
                            if next > 0x7fff_ffff {
                                fits = false;
                            } else {
                                value = next;
                            }
                        }
                    } else {
                        break ;
                    }
                },
                None => {
                    break ;
                },
            }
        }
        let ended = match self.peek() {
            Some(c) => field_end(c),
            None => true,
        };
        if any && fits && ended {
            Ok(value as i32)
        } else {
            Err(LexError { kind: ErrorKind::InvalidTtl, lineno: self.line() })
        }
    }

    /// Reads the body of a comment: everything up to the next line feed.
    /// Carriage returns are consumed and left out.
    pub fn comment_body(&mut self) -> (body: Vec<u8>)
        requires
            old(self).wf(),
        ensures
            final(self).wf(),
            final(self).input() == old(self).input(),
            old(self).pos() <= final(self).pos(),
            final(self).pos() == grammar::line_end(old(self).input(), old(self).pos()),
            body@ == grammar::comment_bytes(
                old(self).input().subrange(old(self).pos(), final(self).pos()),
            ),
    {
        let ghost s = self.input();
        let ghost start = self.pos();
        let mut body: Vec<u8> = Vec::new();
        proof {
            self.lemma_in_bounds();
            assert(s.subrange(start, start) =~= Seq::<char>::empty());
            assert(grammar::comment_bytes(Seq::<char>::empty()) =~= Seq::<u8>::empty());
        }
        loop
            invariant
                self.wf(),
                self.input() == s,
                s == old(self).input(),
                start == old(self).pos(),
                0 <= start <= self.pos() <= s.len(),
                grammar::line_end(s, self.pos()) == grammar::line_end(s, start),
                body@ == grammar::comment_bytes(s.subrange(start, self.pos())),
            ensures
                self.wf(),
                self.input() == s,
                start <= self.pos(),
                self.pos() == grammar::line_end(s, start),
                body@ == grammar::comment_bytes(s.subrange(start, self.pos())),
            decreases s.len() - self.pos(),
        {
            let ghost here = self.pos();
            match self.peek() {
                Some(c) => {
                    if c == '\n' {
                        break ;
                    }
                    self.advance();
                    if c != '\r' {
                        push_char(&mut body, c);
                    }
                    proof {
                        let kept = |c: char| c != '\r';
                        let run = s.subrange(start, here);
                        assert(s.subrange(start, here + 1) =~= run.push(c));
                        assert(run.push(c).drop_last() =~= run);
                        reveal_with_fuel(Seq::filter, 2);
                        if c != '\r' {
                            assert(run.push(c).filter(kept) == run.filter(kept).push(c));
                            lemma_encode_push(run.filter(kept), c);
                        } else {
                            assert(run.push(c).filter(kept) == run.filter(kept));
                        }
                    }
                },
                None => {
                    break ;
                },
            }
        }
        body
    }

    /// Reads the name of a directive: everything up to the next space or
    /// control character.
    pub fn name(&mut self) -> (name: Vec<char>)
        requires
            old(self).wf(),
        ensures
            final(self).wf(),
            final(self).input() == old(self).input(),
            old(self).pos() <= final(self).pos(),
            final(self).pos() == grammar::name_end(old(self).input(), old(self).pos()),
            final(self).pos() < final(self).input().len() ==> is_blank(
                final(self).input()[final(self).pos()],
            ) || is_control(final(self).input()[final(self).pos()]),
            name@ == old(self).input().subrange(old(self).pos(), final(self).pos()),
    {
        let ghost s = self.input();
        let ghost start = self.pos();
        let mut name: Vec<char> = Vec::new();
        proof {
            self.lemma_in_bounds();
        }
        loop
            invariant
                self.wf(),
                self.input() == s,
                s == old(self).input(),
                start == old(self).pos(),
                0 <= start <= self.pos() <= s.len(),
                grammar::name_end(s, self.pos()) == grammar::name_end(s, start),
                name@ =~= s.subrange(start, self.pos()),
            ensures
                self.wf(),
                self.input() == s,
                start <= self.pos(),
                self.pos() == grammar::name_end(s, start),
                self.pos() < s.len() ==> is_blank(s[self.pos()]) || is_control(s[self.pos()]),
                name@ =~= s.subrange(start, self.pos()),
            decreases s.len() - self.pos(),
        {
            match self.peek() {
                Some(c) => {
                    if blank(c) || control(c) {
                        break ;
                    }
                    self.advance();
                    name.push(c);
                },
                None => {
                    break ;
                },
            }
        }
        name
    }
}

} // verus!
