//! The query language: lexer, parser and syntax tree.

pub mod lexer;
pub mod parser;

pub use parser::{BinaryOp, Expression as SearchExpression, UnaryOp};

use lexer::{tokens_of, LexError};
use parser::{parse_tokens, ParseError};
use vstd::prelude::*;

verus! {

#[derive(Debug, PartialEq, Eq, Clone, Copy, Structural)]
pub enum SearchError {
    /// The query could not be split into tokens.
    LexError(LexError),
    /// The tokens do not form an expression.
    ParseError(ParseError),
}

impl SearchError {
    /// The message of this error.
    pub open spec fn message(self) -> Seq<char> {
        match self {
            SearchError::LexError(_) => "Failed to lex input"@,
            SearchError::ParseError(_) => "Failed to parse tokens"@,
        }
    }

    /// The message of this error.
    pub fn to_string(&self) -> (message: String)
        ensures
            message@ == self.message(),
    {
        match self {
            SearchError::LexError(_) => "Failed to lex input".to_owned(),
            SearchError::ParseError(_) => "Failed to parse tokens".to_owned(),
        }
    }
}

/// Parses a search query: the tokens of `input`, read as an expression.
///
/// The only queries that are refused are those whose tokens do not parse; the
/// error then says why.
pub fn parse(input: &str) -> (r: Result<SearchExpression, SearchError>)
    ensures
        match parse_tokens(tokens_of(input@)) {
            Ok(expression) => r matches Ok(e) && e@ == expression,
            Err(error) => r matches Err(SearchError::ParseError(e)) && e == error,
        },
{
    let tokens = match lexer::lex(input) {
        Ok(tokens) => tokens,
        Err(e) => {
            return Err(SearchError::LexError(e));
        },
    };
    match parser::parse(tokens) {
        Ok(expression) => Ok(expression),
        Err(e) => Err(SearchError::ParseError(e)),
    }
}

} // verus!
