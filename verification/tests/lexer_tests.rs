//! Tests of the lexer: token classification, two-character symbols,
//! maximal runs, wrapping number accumulation, the four lexical errors,
//! and the canonical rendering of tokens.

use minicc::data::{KeywordKind, PunctKind, Token};
use minicc::error::TokenError;
use minicc::lexer::tokenize;

#[test]
fn empty_and_whitespace_sources() {
    assert_eq!(tokenize("").unwrap(), vec![]);
    assert_eq!(tokenize(" \t\n\r  ").unwrap(), vec![]);
}

#[test]
fn keywords_and_identifiers() {
    assert_eq!(
        tokenize("let func return").unwrap(),
        vec![
            Token::Keyword(KeywordKind::Let),
            Token::Keyword(KeywordKind::Func),
            Token::Keyword(KeywordKind::Return),
        ]
    );
    assert_eq!(
        tokenize("letx fun returns x1y").unwrap(),
        vec![
            Token::Ident(String::from("letx")),
            Token::Ident(String::from("fun")),
            Token::Ident(String::from("returns")),
            Token::Ident(String::from("x1y")),
        ]
    );
}

#[test]
fn number_literals_accumulate() {
    assert_eq!(tokenize("0 7 123 007").unwrap(), vec![
        Token::Num(0),
        Token::Num(7),
        Token::Num(123),
        Token::Num(7),
    ]);
}

#[test]
fn number_literals_wrap_silently() {
    // 4294967296 == 2^32 wraps to 0; 4294967297 wraps to 1.
    assert_eq!(tokenize("4294967295 4294967296 4294967297").unwrap(), vec![
        Token::Num(4294967295),
        Token::Num(0),
        Token::Num(1),
    ]);
}

#[test]
fn punctuation_table() {
    let toks = tokenize("( ) { } ; || && ! == != <= < >= > + - * / %").unwrap();
    let expected = vec![
        Token::Punct(PunctKind::OpenParen),
        Token::Punct(PunctKind::CloseParen),
        Token::Punct(PunctKind::OpenBrace),
        Token::Punct(PunctKind::CloseBrace),
        Token::Punct(PunctKind::SemiColon),
        Token::Punct(PunctKind::VertVert),
        Token::Punct(PunctKind::AndAnd),
        Token::Punct(PunctKind::Ex),
        Token::Punct(PunctKind::EqEq),
        Token::Punct(PunctKind::ExEq),
        Token::Punct(PunctKind::LtEq),
        Token::Punct(PunctKind::Lt),
        Token::Punct(PunctKind::GtEq),
        Token::Punct(PunctKind::Gt),
        Token::Punct(PunctKind::Plus),
        Token::Punct(PunctKind::Minus),
        Token::Punct(PunctKind::Asterisk),
        Token::Punct(PunctKind::Slash),
        Token::Punct(PunctKind::Percent),
    ];
    assert_eq!(toks, expected);
}

#[test]
fn two_character_symbols_need_no_spaces() {
    assert_eq!(tokenize("1<=2").unwrap(), vec![
        Token::Num(1),
        Token::Punct(PunctKind::LtEq),
        Token::Num(2),
    ]);
    assert_eq!(tokenize("1<2").unwrap(), vec![
        Token::Num(1),
        Token::Punct(PunctKind::Lt),
        Token::Num(2),
    ]);
    assert_eq!(tokenize("!x").unwrap(), vec![
        Token::Punct(PunctKind::Ex),
        Token::Ident(String::from("x")),
    ]);
    assert_eq!(tokenize("!=x").unwrap(), vec![
        Token::Punct(PunctKind::ExEq),
        Token::Ident(String::from("x")),
    ]);
}

#[test]
fn char_and_string_literals() {
    assert_eq!(tokenize("'a' 'b'").unwrap(), vec![Token::Char('a'), Token::Char('b')]);
    assert_eq!(tokenize("\"hello world\"").unwrap(), vec![
        Token::Str(String::from("hello world")),
    ]);
    assert_eq!(tokenize("\"\"").unwrap(), vec![Token::Str(String::new())]);
}

#[test]
fn invalid_char_error() {
    assert_eq!(tokenize("1 + \u{20AC}").unwrap_err(), TokenError::InvalidChar('\u{20AC}'));
}

#[test]
fn invalid_punct_error() {
    assert_eq!(tokenize("1 @ 2").unwrap_err(), TokenError::InvalidPunct('@'));
    assert_eq!(tokenize("1 | 2").unwrap_err(), TokenError::InvalidPunct('|'));
    assert_eq!(tokenize("1 & 2").unwrap_err(), TokenError::InvalidPunct('&'));
    assert_eq!(tokenize("x = 2").unwrap_err(), TokenError::InvalidPunct('='));
}

#[test]
fn unterminated_char_literal_error() {
    assert_eq!(tokenize("'a").unwrap_err(), TokenError::UnterminatedCharLiteral);
    assert_eq!(tokenize("'ab'").unwrap_err(), TokenError::UnterminatedCharLiteral);
    assert_eq!(tokenize("'").unwrap_err(), TokenError::UnterminatedCharLiteral);
}

#[test]
fn unterminated_string_literal_error() {
    assert_eq!(tokenize("\"abc").unwrap_err(), TokenError::UnterminatedStringLiteral);
    assert_eq!(tokenize("1 + 2 \"abc").unwrap_err(), TokenError::UnterminatedStringLiteral);
}

#[test]
fn error_aborts_whole_tokenization() {
    // Even with clean tokens before it, the error wins and no partial
    // token list is returned.
    assert!(tokenize("let x @").is_err());
}

#[test]
fn render_reproduces_significant_lexemes() {
    // Re-rendering each token and concatenating reproduces the source
    // with its whitespace removed.
    let source = "func main ( ) { return 1 + 23 <= foo % 4 ; }";
    let stripped: String = source.chars().filter(|c| !c.is_whitespace()).collect();
    let rendered: String = tokenize(source)
        .unwrap()
        .iter()
        .map(|t| t.render())
        .collect::<Vec<String>>()
        .concat();
    assert_eq!(rendered, stripped);
}

#[test]
fn render_canonical_forms() {
    assert_eq!(Token::Keyword(KeywordKind::Return).render(), "return");
    assert_eq!(Token::Punct(PunctKind::GtEq).render(), ">=");
    assert_eq!(Token::Ident(String::from("abc")).render(), "abc");
    assert_eq!(Token::Num(0).render(), "0");
    assert_eq!(Token::Num(40960).render(), "40960");
    assert_eq!(Token::Char('x').render(), "x");
    assert_eq!(Token::Str(String::from("hi")).render(), "hi");
}

#[test]
fn error_messages() {
    assert_eq!(TokenError::InvalidChar('~').message(), "invalid character '~'");
    assert_eq!(TokenError::InvalidPunct('|').message(), "invalid punctuation '|'");
    assert_eq!(TokenError::UnterminatedCharLiteral.message(), "unterminated character literal");
    assert_eq!(TokenError::UnterminatedStringLiteral.message(), "unterminated string literal");
}
