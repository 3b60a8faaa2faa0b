//! The cursor: the input as a sequence of characters, a position in it, and
//! the line and column of that position.

use crate::grammar::{column_at, line_at};
use vstd::prelude::*;
use vstd::std_specs::iter::IteratorSpec;

verus! {

/// Collects the characters of `text` in order.
pub fn chars_of(text: &str) -> (v: Vec<char>)
    ensures
        v@ == text@,
{
    let mut v: Vec<char> = Vec::new();
    let mut it = text.chars();
    loop
        invariant
            it.remaining().len() + v@.len() == text@.len(),
            v@ + it.remaining() == text@,
        ensures
            v@ == text@,
        decreases text@.len() - v@.len(),
    {
        match it.next() {
            Some(c) => {
                v.push(c);
            },
            None => {
                assert(v@ =~= v@ + it.remaining());
                break;
            },
        }
    }
    v
}

/// Neither the line nor the column of an index exceeds the index.
pub proof fn lemma_position_bounded(s: Seq<char>, i: int)
    requires
        0 <= i,
    ensures
        0 <= line_at(s, i) <= i,
        0 <= column_at(s, i) <= i,
    decreases i,
{
    if i > 0 {
        lemma_position_bounded(s, i - 1);
    }
}

/// A position in an input.  It moves forward one character at a time, and
/// shows the character it stands at without moving.
pub struct Cursor {
    input: Vec<char>,
    pos: usize,
    lineno: usize,
    charno: usize,
}

impl Cursor {
    /// The whole input.
    pub closed spec fn input(&self) -> Seq<char> {
        self.input@
    }

    /// The number of characters consumed so far.
    pub closed spec fn pos(&self) -> int {
        self.pos as int
    }

    /// The position lies in the input, and the line and the column are those
    /// of the position.
    pub closed spec fn wf(&self) -> bool {
        &&& self.pos <= self.input@.len() <= usize::MAX
        &&& self.lineno == line_at(self.input@, self.pos as int)
        &&& self.charno == column_at(self.input@, self.pos as int)
    }

    /// A well-formed cursor stands inside its input or at its end.
    pub proof fn lemma_in_bounds(&self)
        requires
            self.wf(),
        ensures
            0 <= self.pos() <= self.input().len(),
            self.input().len() <= usize::MAX,
            0 <= line_at(self.input(), self.pos()) <= usize::MAX,
    {
        lemma_position_bounded(self.input@, self.pos as int);
    }

    /// A cursor at the start of `text`.
    pub fn new(text: &str) -> (cursor: Cursor)
        ensures
            cursor.wf(),
            cursor.input() == text@,
            cursor.pos() == 0,
    {
        let input = chars_of(text);
        assert(input@.len() == input.len());
        Cursor { input, pos: 0, lineno: 0, charno: 0 }
    }

    /// The next character, which stays unconsumed; `None` at the end of the
    /// input.
    pub fn peek(&self) -> (next: Option<char>)
        requires
            self.wf(),
        ensures
            next == if self.pos() < self.input().len() {
                Some(self.input()[self.pos()])
            } else {
                None
            },
    {
        if self.pos < self.input.len() {
            Some(self.input[self.pos])
        } else {
            None
        }
    }

    /// Consumes one character.  A line feed starts a new line; any other
    /// character moves one column on.  At the end of the input nothing
    /// changes.
    pub fn advance(&mut self)
        requires
            old(self).wf(),
        ensures
            final(self).wf(),
            final(self).input() == old(self).input(),
            final(self).pos() == if old(self).pos() < old(self).input().len() {
                old(self).pos() + 1
            } else {
                old(self).pos()
            },
    {
        if self.pos < self.input.len() {
            proof {
                lemma_position_bounded(self.input@, self.pos as int);
            }
            if self.input[self.pos] == '\n' {
                self.lineno = self.lineno + 1;
                self.charno = 0;
            } else {
                self.charno = self.charno + 1;
            }
            self.pos = self.pos + 1;
        }
    }

    /// The line of the position; the first line is line 0.
    pub fn line(&self) -> (line: usize)
        requires
            self.wf(),
        ensures
            line == line_at(self.input(), self.pos()),
    {
        self.lineno
    }

    /// The column of the position; a line starts at column 0.
    pub fn column(&self) -> (column: usize)
        requires
            self.wf(),
        ensures
            column == column_at(self.input(), self.pos()),
    {
        self.charno
    }
}

} // verus!
