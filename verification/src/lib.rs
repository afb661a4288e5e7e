//! A parser for CQL, the Contextual Query Language.
//!
//! A query text is read character by character from a [`source::Source`],
//! cut into tokens by the [`lexer::Lexer`] and turned into a tree of
//! [`node::CqlNode`] values by the [`parser::Parser`].
//!
//! What a text means is written down over sequences of characters and of
//! tokens, in [`lexical`] and in [`grammar`]; the lexer and the parser are
//! proved to compute just that, and [`laws`] holds what follows from it for
//! every query.
pub mod error;
pub mod source;
pub mod token;
pub mod lexical;
pub mod lexer;
pub mod node;
pub mod grammar;
pub mod parser;
pub mod laws;
