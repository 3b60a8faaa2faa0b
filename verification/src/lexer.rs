//! The lexer: one token for each call.

use crate::chars::{blank, char_bytes, field_end, line_break, push_char};
use crate::cursor::Cursor;
use crate::grammar::{
    column_at, consistent, include_name, line_at, origin_name, step, step_comment, step_directive,
    step_include, step_origin, step_rest, step_start, step_ttl, ttl_name, State, Step,
};
use crate::token::{ErrorKind, LexError, Token};
use vstd::prelude::*;

verus! {

/// The three directives.
pub enum Directive {
    Origin,
    Include,
    Ttl,
}

/// The directive that `name` names, if it names one.  Upper case only.
pub open spec fn directive_named(name: Seq<char>) -> Option<Directive> {
    if name == origin_name() {
        Some(Directive::Origin)
    } else if name == include_name() {
        Some(Directive::Include)
    } else if name == ttl_name() {
        Some(Directive::Ttl)
    } else {
        None
    }
}

/// Looks `name` up among the directives.
pub fn directive_of(name: &Vec<char>) -> (found: Option<Directive>)
    ensures
        found == directive_named(name@),
{
    if name.len() == 6 && name[0] == 'O' && name[1] == 'R' && name[2] == 'I' && name[3] == 'G'
        && name[4] == 'I' && name[5] == 'N' {
        assert(name@ =~= origin_name());
        Some(Directive::Origin)
    } else if name.len() == 7 && name[0] == 'I' && name[1] == 'N' && name[2] == 'C' && name[3]
        == 'L' && name[4] == 'U' && name[5] == 'D' && name[6] == 'E' {
        assert(name@ =~= include_name());
        Some(Directive::Include)
    } else if name.len() == 3 && name[0] == 'T' && name[1] == 'T' && name[2] == 'L' {
        assert(name@ =~= ttl_name());
        Some(Directive::Ttl)
    } else {
        None
    }
}

/// A lexer over the text of one master file.
pub struct Lexer {
    cursor: Cursor,
    depth: usize,
    state: State,
}

impl Lexer {
    /// The whole input.
    pub closed spec fn input(&self) -> Seq<char> {
        self.cursor.input()
    }

    /// The number of characters consumed so far.
    pub closed spec fn pos(&self) -> int {
        self.cursor.pos()
    }

    /// The number of parentheses that are open.
    pub closed spec fn depth(&self) -> int {
        self.depth as int
    }

    /// What the next call finds the lexer in.
    pub closed spec fn state(&self) -> State {
        self.state
    }

    /// The lexer's invariant: its cursor is well-formed, and position, depth
    /// and state are [`consistent`].
    pub closed spec fn wf(&self) -> bool {
        &&& self.cursor.wf()
        &&& consistent(self.cursor.input(), self.cursor.pos(), self.depth as int, self.state)
    }

    /// What the invariant says of position, depth and state.
    pub proof fn lemma_consistent(&self)
        requires
            self.wf(),
        ensures
            consistent(self.input(), self.pos(), self.depth(), self.state()),
    {
    }

    /// What holds of the lexer in the middle of a step as well.
    spec fn tidy(&self) -> bool {
        &&& self.cursor.wf()
        &&& self.depth <= self.cursor.pos()
    }

    /// Whether this lexer is what `step` leaves behind of the lexer `before`,
    /// and `r` what `step` returns.
    spec fn took(&self, before: Lexer, step: Step, r: Result<Token, LexError>) -> bool {
        &&& self.wf()
        &&& self.input() == before.input()
        &&& self.pos() == step.pos
        &&& self.depth() == step.depth
        &&& self.state() == step.state
        &&& match step.result {
            Ok(token) => r matches Ok(t) && t@ == token,
            Err(error) => r == Err::<Token, LexError>(error),
        }
    }

    /// A lexer at the start of `zonefile`.
    pub fn new(zonefile: &str) -> (lexer: Lexer)
        ensures
            lexer.wf(),
            lexer.input() == zonefile@,
            lexer.pos() == 0,
            lexer.depth() == 0,
            lexer.state() == State::StartLine,
    {
        Lexer { cursor: Cursor::new(zonefile), depth: 0, state: State::StartLine }
    }

    /// The line the lexer stands on; the first line is line 0.
    pub fn line(&self) -> (line: usize)
        requires
            self.wf(),
        ensures
            line == line_at(self.input(), self.pos()),
    {
        self.cursor.line()
    }

    /// The column the lexer stands at; a line starts at column 0.
    pub fn column(&self) -> (column: usize)
        requires
            self.wf(),
        ensures
            column == column_at(self.input(), self.pos()),
    {
        self.cursor.column()
    }

    /// Appends the bytes of `ch` to the text that `chars` holds.
    pub fn push_to_str(chars: &mut Option<Vec<u8>>, ch: char)
        requires
            *old(chars) is Some,
        ensures
            *final(chars) matches Some(text) && text@ == old(chars)->0@ + char_bytes(ch),
    {
        let mut text = chars.take().unwrap();
        push_char(&mut text, ch);
        *chars = Some(text);
    }

    /// Returns the next token.
    ///
    /// The call does what [`step`] says of the lexer's input, position,
    /// parenthesis depth and state.  After the end of the input every call
    /// returns `EOF`, and after an error every call returns that error.
    pub fn next_token(&mut self) -> (result: Result<Option<Token>, LexError>)
        requires
            old(self).wf(),
        ensures
            final(self).wf(),
            final(self).input() == old(self).input(),
            final(self).pos() == old(self).next_step().pos,
            final(self).depth() == old(self).next_step().depth,
            final(self).state() == old(self).next_step().state,
            match old(self).next_step().result {
                Ok(token) => result matches Ok(Some(t)) && t@ == token,
                Err(error) => result == Err::<Option<Token>, LexError>(error),
            },
    {
        let r = match self.state {
            State::StartLine => self.start_line(),
            State::RestOfLine => self.rest_of_line(),
            State::Comment => self.comment(),
            State::EOF => Ok(Token::EOF),
            State::Failed(error) => Err(error),
        };
        match r {
            Ok(token) => Ok(Some(token)),
            Err(error) => Err(error),
        }
    }

    /// What the next call does.
    pub open spec fn next_step(&self) -> Step {
        step(self.input(), self.pos(), self.depth(), self.state())
    }

    /// Stops with `error`: every later call returns it again.
    fn fail(&mut self, error: LexError) -> (r: Result<Token, LexError>)
        requires
            old(self).tidy(),
        ensures
            final(self).wf(),
            final(self).cursor == old(self).cursor,
            final(self).depth == old(self).depth,
            final(self).state == State::Failed(error),
            r == Err::<Token, LexError>(error),
    {
        proof {
            self.cursor.lemma_in_bounds();
        }
        self.state = State::Failed(error);
        Err(error)
    }

    /// The step from the start of a line.
    fn start_line(&mut self) -> (r: Result<Token, LexError>)
        requires
            old(self).tidy(),
            old(self).depth() == 0,
        ensures
            final(self).took(*old(self), step_start(old(self).input(), old(self).pos()), r),
    {
        self.cursor.skip_breaks();
        proof {
            self.cursor.lemma_in_bounds();
        }
        match self.cursor.peek() {
            None => {
                self.state = State::EOF;
                Ok(Token::EOF)
            },
            Some(c) => {
                if c == ';' {
                    self.state = State::Comment;
                    Ok(Token::Comment)
                } else if c == '$' {
                    self.cursor.advance();
                    self.directive()
                } else if blank(c) || c == '(' || c == ')' {
                    self.state = State::RestOfLine;
                    Ok(Token::Blank)
                } else {
                    match self.cursor.field() {
                        Ok(name) => {
                            proof {
                                self.cursor.lemma_in_bounds();
                            }
                            self.state = State::RestOfLine;
                            Ok(Token::DomainName(name))
                        },
                        Err(error) => self.fail(error),
                    }
                }
            },
        }
    }

    /// The step for a directive, its `$` consumed.
    fn directive(&mut self) -> (r: Result<Token, LexError>)
        requires
            old(self).tidy(),
            old(self).depth() == 0,
        ensures
            final(self).took(*old(self), step_directive(old(self).input(), old(self).pos()), r),
    {
        let name = self.cursor.name();
        proof {
            self.cursor.lemma_in_bounds();
        }
        match self.cursor.peek() {
            None => {
                let line = self.cursor.line();
                self.fail(LexError { kind: ErrorKind::UnexpectedEndOfLine, lineno: line })
            },
            Some(c) => {
                let line = self.cursor.line();
                if line_break(c) {
                    self.fail(LexError { kind: ErrorKind::UnexpectedEndOfLine, lineno: line })
                } else if !blank(c) {
                    self.fail(
                        LexError { kind: ErrorKind::UnexpectedControlCharacter, lineno: line },
                    )
                } else {
                    match directive_of(&name) {
                        Some(Directive::Origin) => {
                            self.cursor.advance();
                            self.origin()
                        },
                        Some(Directive::Include) => {
                            self.cursor.advance();
                            self.include_file()
                        },
                        Some(Directive::Ttl) => {
                            self.cursor.advance();
                            self.ttl()
                        },
                        None => self.fail(
                            LexError { kind: ErrorKind::UnknownDirective, lineno: line },
                        ),
                    }
                }
            },
        }
    }

    /// The step for `$ORIGIN`, its name and one blank consumed.
    fn origin(&mut self) -> (r: Result<Token, LexError>)
        requires
            old(self).tidy(),
            old(self).depth() == 0,
        ensures
            final(self).took(*old(self), step_origin(old(self).input(), old(self).pos()), r),
    {
        self.cursor.skip_blanks();
        match self.cursor.field() {
            Ok(domain_name) => {
                proof {
                    self.cursor.lemma_in_bounds();
                }
                self.state = State::RestOfLine;
                Ok(Token::Origin { domain_name, lineno: self.cursor.line() })
            },
            Err(error) => self.fail(error),
        }
    }

    /// The step for `$INCLUDE`, its name and one blank consumed.
    fn include_file(&mut self) -> (r: Result<Token, LexError>)
        requires
            old(self).tidy(),
            old(self).depth() == 0,
        ensures
            final(self).took(*old(self), step_include(old(self).input(), old(self).pos()), r),
    {
        self.cursor.skip_blanks();
        let file_name = match self.cursor.field() {
            Ok(text) => text,
            Err(error) => {
                return self.fail(error);
            },
        };
        self.cursor.skip_blanks();
        proof {
            self.cursor.lemma_in_bounds();
        }
        let more = match self.cursor.peek() {
            Some(c) => !field_end(c),
            None => false,
        };
        if more {
            match self.cursor.field() {
                Ok(domain_name) => {
                    proof {
                        self.cursor.lemma_in_bounds();
                    }
                    self.state = State::RestOfLine;
                    Ok(
                        Token::Include {
                            file_name,
                            domain_name: Some(domain_name),
                            lineno: self.cursor.line(),
                        },
                    )
                },
                Err(error) => self.fail(error),
            }
        } else {
            self.state = State::RestOfLine;
            Ok(Token::Include { file_name, domain_name: None, lineno: self.cursor.line() })
        }
    }

    /// The step for `$TTL`, its name and one blank consumed.
    fn ttl(&mut self) -> (r: Result<Token, LexError>)
        requires
            old(self).tidy(),
            old(self).depth() == 0,
        ensures
            final(self).took(*old(self), step_ttl(old(self).input(), old(self).pos()), r),
    {
        self.cursor.skip_blanks();
        match self.cursor.ttl() {
            Ok(ttl) => {
                proof {
                    self.cursor.lemma_in_bounds();
                }
                self.state = State::RestOfLine;
                Ok(Token::TTL { ttl, lineno: self.cursor.line() })
            },
            Err(error) => self.fail(error),
        }
    }

    /// The step from inside an entry.
    fn rest_of_line(&mut self) -> (r: Result<Token, LexError>)
        requires
            old(self).tidy(),
        ensures
            final(self).took(
                *old(self),
                step_rest(old(self).input(), old(self).pos(), old(self).depth()),
                r,
            ),
    {
        self.cursor.skip_gap(self.depth > 0);
        proof {
            self.cursor.lemma_in_bounds();
        }
        match self.cursor.peek() {
            None => {
                self.state = State::EOF;
                Ok(Token::EOF)
            },
            Some(c) => {
                if c == '\n' {
                    self.cursor.advance();
                    self.start_line()
                } else if c == ';' {
                    self.state = State::Comment;
                    Ok(Token::Comment)
                } else if c == '(' {
                    self.cursor.advance();
                    self.depth = self.depth + 1;
                    self.state = State::RestOfLine;
                    Ok(Token::OpenParen)
                } else if c == ')' {
                    if self.depth == 0 {
                        let line = self.cursor.line();
                        self.fail(
                            LexError { kind: ErrorKind::UnbalancedParenthesis, lineno: line },
                        )
                    } else {
                        self.cursor.advance();
                        self.depth = self.depth - 1;
                        self.state = State::RestOfLine;
                        Ok(Token::CloseParen)
                    }
                } else {
                    match self.cursor.field() {
                        Ok(text) => {
                            proof {
                                self.cursor.lemma_in_bounds();
                            }
                            self.state = State::RestOfLine;
                            Ok(Token::Text(text))
                        },
                        Err(error) => self.fail(error),
                    }
                }
            },
        }
    }

    /// The step from the `;` of a comment.
    fn comment(&mut self) -> (r: Result<Token, LexError>)
        requires
            old(self).wf(),
            old(self).state() is Comment,
        ensures
            final(self).took(
                *old(self),
                step_comment(old(self).input(), old(self).pos(), old(self).depth()),
                r,
            ),
    {
        self.cursor.advance();
        let body = self.cursor.comment_body();
        proof {
            self.cursor.lemma_in_bounds();
        }
        self.state = State::RestOfLine;
        Ok(Token::Text(body))
    }
}

} // verus!
