//! A lexer for DNS zone master files in the RFC 1035 text format.
//!
//! The lexer turns the text of one master file into a stream of tokens:
//! directives, owner names, fields, comments and grouping parentheses.
//! Quoting, backslash escapes and parenthesised continuation lines are
//! resolved here; what a field means is left to the consumer.
//!
//! - [`grammar`] says in mathematical terms what each call of the lexer
//!   does, and [`laws`] proves what follows from that in general.
//! - [`lexer`] holds the lexer itself; [`cursor`] and [`scan`] read the
//!   input one character at a time; [`chars`] knows the character classes
//!   and [`token`] the tokens and errors.

pub mod chars;
pub mod cursor;
pub mod grammar;
pub mod laws;
pub mod lexer;
pub mod scan;
pub mod token;

pub use crate::grammar::State;
pub use crate::lexer::Lexer;
pub use crate::token::{ErrorKind, LexError, Token};
