//! The error taxonomy of the library: one variant per stage that can fail.

use vstd::prelude::*;

verus! {

/// Everything that can go wrong while converting a document.
///
/// `LexerError` marks a malformed line context found while the input is cut
/// into tokens; `ParserError` marks a token stream that the tree builder
/// cannot finish (such as tokens after the end-of-input marker);
/// `ParComError` marks a span that the combinator engine could not consume;
/// `IntoTagError` marks a signature word that names no known tag.
#[derive(Debug, Clone)]
pub enum Error {
    LexerError,
    ParserError,
    ParComError { msg: &'static str },
    IntoTagError,
}

impl Error {
    /// A short human-readable description of the error.
    pub fn message(&self) -> (r: &'static str)
        ensures
            r@ == self.spec_message(),
    {
        match self {
            Error::LexerError => "the lexer broke",
            Error::ParserError => "the parser broke",
            Error::ParComError { msg } => *msg,
            Error::IntoTagError => "into tag error",
        }
    }

    pub open spec fn spec_message(&self) -> Seq<char> {
        match self {
            Error::LexerError => "the lexer broke"@,
            Error::ParserError => "the parser broke"@,
            Error::ParComError { msg } => msg@,
            Error::IntoTagError => "into tag error"@,
        }
    }
}

} // verus!
