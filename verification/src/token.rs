//! The tokens the lexer produces and the errors it reports.

use vstd::prelude::*;

verus! {

/// What can be wrong with the text of a master file.
#[derive(Clone, Copy, PartialEq, Eq, Debug, Structural)]
pub enum ErrorKind {
    /// A control character where only printable text may stand.
    UnexpectedControlCharacter,
    /// A `$` entry whose name is none of `ORIGIN`, `INCLUDE` and `TTL`.
    UnknownDirective,
    /// A `$` entry whose line, or the input, ends right after its name.
    UnexpectedEndOfLine,
    /// A `$TTL` argument that is not a decimal number of at most 31 bits.
    InvalidTtl,
    /// A `)` that no `(` precedes.
    UnbalancedParenthesis,
    /// A `"` that no later `"` closes.
    UnterminatedQuote,
    /// A `\DDD` escape with fewer than three digits or a value above 255.
    InvalidOctalEscape,
    /// A `\` that is the last character of the input.
    DanglingEscape,
}

/// An error, with the line it was found on (the first line is line 0).
#[derive(Clone, Copy, PartialEq, Eq, Debug, Structural)]
pub struct LexError {
    pub kind: ErrorKind,
    pub lineno: usize,
}

/// One token of a master file.
///
/// Names, file names and fields are byte strings: a `\DDD` escape can put
/// any octet into them, so they need not be valid UTF-8.
#[derive(Clone, PartialEq, Eq, Debug)]
#[allow(inconsistent_fields)]
pub enum Token {
    /// `$ORIGIN <domain-name>`
    Origin { domain_name: Vec<u8>, lineno: usize },
    /// `$INCLUDE <file-name> [<domain-name>]`
    Include { file_name: Vec<u8>, domain_name: Option<Vec<u8>>, lineno: usize },
    /// `$TTL <seconds>`
    TTL { ttl: i32, lineno: usize },
    /// A field of an entry, or the body of a comment.
    Text(Vec<u8>),
    /// The owner name that opens an entry.
    DomainName(Vec<u8>),
    /// The blank that opens an entry which keeps the previous owner.
    Blank,
    /// The `;` that opens a comment; the next token is its body.
    Comment,
    /// `(`, which opens a group: until it is closed, a line feed does not
    /// end the entry.
    OpenParen,
    /// `)`, which closes a group.
    CloseParen,
    /// The end of the input.
    EOF,
}

/// A token as a mathematical value.
#[allow(inconsistent_fields)]
pub ghost enum TokenView {
    Origin { domain_name: Seq<u8>, lineno: int },
    Include { file_name: Seq<u8>, domain_name: Option<Seq<u8>>, lineno: int },
    TTL { ttl: int, lineno: int },
    Text(Seq<u8>),
    DomainName(Seq<u8>),
    Blank,
    Comment,
    OpenParen,
    CloseParen,
    EOF,
}

impl View for Token {
    type V = TokenView;

    open spec fn view(&self) -> TokenView {
        match *self {
            Token::Origin { domain_name, lineno } => TokenView::Origin {
                domain_name: domain_name@,
                lineno: lineno as int,
            },
            Token::Include { file_name, domain_name, lineno } => TokenView::Include {
                file_name: file_name@,
                domain_name: match domain_name {
                    Some(name) => Some(name@),
                    None => None,
                },
                lineno: lineno as int,
            },
            Token::TTL { ttl, lineno } => TokenView::TTL { ttl: ttl as int, lineno: lineno as int },
            Token::Text(bytes) => TokenView::Text(bytes@),
            Token::DomainName(bytes) => TokenView::DomainName(bytes@),
            Token::Blank => TokenView::Blank,
            Token::Comment => TokenView::Comment,
            Token::OpenParen => TokenView::OpenParen,
            Token::CloseParen => TokenView::CloseParen,
            Token::EOF => TokenView::EOF,
        }
    }
}

} // verus!
