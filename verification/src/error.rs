//! Error types of the lexer and the parser, with their diagnostic
//! messages.

use vstd::prelude::*;

use crate::data::{push_char, token_text, Token, TokenView};

verus! {

/// A lexical error. Any such error aborts the whole tokenization.
#[derive(Debug, Clone, Copy, PartialEq, Eq)]
pub enum TokenError {
    InvalidChar(char),
    InvalidPunct(char),
    UnterminatedCharLiteral,
    UnterminatedStringLiteral,
}

/// A syntactic error. Any such error aborts the whole parse.
#[derive(Debug)]
pub enum ParseError {
    UnexpectedToken { actual: Token },
    NoToken,
    MismatchedToken { expected: Token, actual: Token },
    DroppedToken { expected: Token },
    DroppedIdent,
}

/// The mathematical value of a [`ParseError`].
pub enum ParseErrorView {
    UnexpectedToken { actual: TokenView },
    NoToken,
    MismatchedToken { expected: TokenView, actual: TokenView },
    DroppedToken { expected: TokenView },
    DroppedIdent,
}

impl View for ParseError {
    type V = ParseErrorView;

    open spec fn view(&self) -> ParseErrorView {
        match self {
            ParseError::UnexpectedToken { actual } => ParseErrorView::UnexpectedToken {
                actual: actual@,
            },
            ParseError::NoToken => ParseErrorView::NoToken,
            ParseError::MismatchedToken { expected, actual } => ParseErrorView::MismatchedToken {
                expected: expected@,
                actual: actual@,
            },
            ParseError::DroppedToken { expected } => ParseErrorView::DroppedToken {
                expected: expected@,
            },
            ParseError::DroppedIdent => ParseErrorView::DroppedIdent,
        }
    }
}

/// The diagnostic message for a lexical error.
pub open spec fn token_error_text(e: TokenError) -> Seq<char> {
    match e {
        TokenError::InvalidChar(c) => "invalid character '"@ + seq![c] + "'"@,
        TokenError::InvalidPunct(c) => "invalid punctuation '"@ + seq![c] + "'"@,
        TokenError::UnterminatedCharLiteral => "unterminated character literal"@,
        TokenError::UnterminatedStringLiteral => "unterminated string literal"@,
    }
}

/// The diagnostic message for a syntactic error.
pub open spec fn parse_error_text(e: ParseErrorView) -> Seq<char> {
    match e {
        ParseErrorView::UnexpectedToken { actual } => "unexpected token '"@ + token_text(actual)
            + "'"@,
        ParseErrorView::NoToken => "no token"@,
        ParseErrorView::MismatchedToken { expected, actual } => "expected token '"@ + token_text(
            expected,
        ) + "', actual '"@ + token_text(actual) + "'"@,
        ParseErrorView::DroppedToken { expected } => "expected token '"@ + token_text(expected)
            + "'"@,
        ParseErrorView::DroppedIdent => "expected an identifier"@,
    }
}

impl TokenError {
    /// The human-readable message for this error.
    pub fn message(&self) -> (r: String)
        ensures
            r@ == token_error_text(*self),
    {
        match self {
            TokenError::InvalidChar(c) => {
                let mut s = String::from_str("invalid character '");
                push_char(&mut s, *c);
                s.append("'");
                s
            },
            TokenError::InvalidPunct(c) => {
                let mut s = String::from_str("invalid punctuation '");
                push_char(&mut s, *c);
                s.append("'");
                s
            },
            TokenError::UnterminatedCharLiteral => String::from_str(
                "unterminated character literal",
            ),
            TokenError::UnterminatedStringLiteral => String::from_str(
                "unterminated string literal",
            ),
        }
    }
}

impl ParseError {
    /// The human-readable message for this error.
    pub fn message(&self) -> (r: String)
        ensures
            r@ == parse_error_text(self@),
    {
        match self {
            ParseError::UnexpectedToken { actual } => {
                let mut s = String::from_str("unexpected token '");
                let t = actual.render();
                s.append(t.as_str());
                s.append("'");
                s
            },
            ParseError::NoToken => String::from_str("no token"),
            ParseError::MismatchedToken { expected, actual } => {
                let mut s = String::from_str("expected token '");
                let t1 = expected.render();
                s.append(t1.as_str());
                s.append("', actual '");
                let t2 = actual.render();
                s.append(t2.as_str());
                s.append("'");
                s
            },
            ParseError::DroppedToken { expected } => {
                let mut s = String::from_str("expected token '");
                let t = expected.render();
                s.append(t.as_str());
                s.append("'");
                s
            },
            ParseError::DroppedIdent => String::from_str("expected an identifier"),
        }
    }
}

} // verus!
