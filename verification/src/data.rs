//! Tokens and the abstract syntax tree, together with their spec-level
//! views and the canonical textual form of each token.

use vstd::prelude::*;

use crate::decimal::{dec_seq, u64_to_string};

verus! {

#[derive(Debug, Clone, Copy, PartialEq, Eq, Structural)]
pub enum KeywordKind {
    Let,
    Func,
    Return,
}

#[derive(Debug, Clone, Copy, PartialEq, Eq, Structural)]
pub enum PunctKind {
    OpenParen,
    CloseParen,
    OpenBrace,
    CloseBrace,
    SemiColon,
    VertVert,
    AndAnd,
    Ex,
    EqEq,
    ExEq,
    LtEq,
    Lt,
    GtEq,
    Gt,
    Plus,
    Minus,
    Asterisk,
    Slash,
    Percent,
}

/// A lexeme of the source language. Tokens own their text.
#[derive(Debug)]
pub enum Token {
    Punct(PunctKind),
    Keyword(KeywordKind),
    Ident(String),
    Num(u32),
    Char(char),
    Str(String),
}

/// The mathematical value of a [`Token`]: identifier and string text
/// abstracted to character sequences.
pub enum TokenView {
    Punct(PunctKind),
    Keyword(KeywordKind),
    Ident(Seq<char>),
    Num(u32),
    Char(char),
    Str(Seq<char>),
}

impl View for Token {
    type V = TokenView;

    open spec fn view(&self) -> TokenView {
        match self {
            Token::Punct(p) => TokenView::Punct(*p),
            Token::Keyword(k) => TokenView::Keyword(*k),
            Token::Ident(s) => TokenView::Ident(s@),
            Token::Num(n) => TokenView::Num(*n),
            Token::Char(c) => TokenView::Char(*c),
            Token::Str(s) => TokenView::Str(s@),
        }
    }
}

impl Clone for Token {
    fn clone(&self) -> (r: Self)
        ensures
            r@ == self@,
    {
        match self {
            Token::Punct(p) => Token::Punct(*p),
            Token::Keyword(k) => Token::Keyword(*k),
            Token::Ident(s) => Token::Ident(s.clone()),
            Token::Num(n) => Token::Num(*n),
            Token::Char(c) => Token::Char(*c),
            Token::Str(s) => Token::Str(s.clone()),
        }
    }
}

impl PartialEq for Token {
    fn eq(&self, other: &Self) -> (r: bool) {
        match (self, other) {
            (Token::Punct(a), Token::Punct(b)) => *a == *b,
            (Token::Keyword(a), Token::Keyword(b)) => *a == *b,
            (Token::Ident(a), Token::Ident(b)) => *a == *b,
            (Token::Num(a), Token::Num(b)) => *a == *b,
            (Token::Char(a), Token::Char(b)) => *a == *b,
            (Token::Str(a), Token::Str(b)) => *a == *b,
            _ => false,
        }
    }
}

impl vstd::std_specs::cmp::PartialEqSpecImpl for Token {
    open spec fn obeys_eq_spec() -> bool {
        true
    }

    open spec fn eq_spec(&self, other: &Self) -> bool {
        self@ == other@
    }
}

#[derive(Debug, Clone, Copy, PartialEq, Eq, Structural)]
pub enum BinOpKind {
    LogicOr,
    LogicAnd,
    Eq,
    Neq,
    Leq,
    Lt,
    Add,
    Sub,
    Mul,
    Div,
    Mod,
}

#[derive(Debug, Clone, Copy, PartialEq, Eq, Structural)]
pub enum UnOpKind {
    LogicNot,
    Neg,
}

/// An expression. Strictly a tree: every node is owned by its parent.
#[derive(Debug, PartialEq)]
#[allow(inconsistent_fields)]
pub enum Expr {
    BinOp { kind: BinOpKind, lhs: Box<Expr>, rhs: Box<Expr> },
    UnOp { kind: UnOpKind, operand: Box<Expr> },
    Num(u32),
}

#[derive(Debug, PartialEq)]
pub enum Stmt {
    ExprStmt(Expr),
    Return(Expr),
}

/// A function definition, the sole top-level compilation unit.
#[derive(Debug, PartialEq)]
pub enum Defn {
    FuncDef { name: String, stmts: Vec<Stmt> },
}

/// The mathematical value of a [`Defn`].
pub struct DefnView {
    pub name: Seq<char>,
    pub stmts: Seq<Stmt>,
}

impl View for Defn {
    type V = DefnView;

    open spec fn view(&self) -> DefnView {
        match self {
            Defn::FuncDef { name, stmts } => DefnView { name: name@, stmts: stmts@ },
        }
    }
}

/// The canonical spelling of a keyword.
pub open spec fn keyword_text(k: KeywordKind) -> Seq<char> {
    match k {
        KeywordKind::Let => "let"@,
        KeywordKind::Func => "func"@,
        KeywordKind::Return => "return"@,
    }
}

/// The canonical symbol of a punctuation token.
pub open spec fn punct_text(p: PunctKind) -> Seq<char> {
    match p {
        PunctKind::OpenParen => "("@,
        PunctKind::CloseParen => ")"@,
        PunctKind::OpenBrace => "{"@,
        PunctKind::CloseBrace => "}"@,
        PunctKind::SemiColon => ";"@,
        PunctKind::VertVert => "||"@,
        PunctKind::AndAnd => "&&"@,
        PunctKind::Ex => "!"@,
        PunctKind::EqEq => "=="@,
        PunctKind::ExEq => "!="@,
        PunctKind::LtEq => "<="@,
        PunctKind::Lt => "<"@,
        PunctKind::GtEq => ">="@,
        PunctKind::Gt => ">"@,
        PunctKind::Plus => "+"@,
        PunctKind::Minus => "-"@,
        PunctKind::Asterisk => "*"@,
        PunctKind::Slash => "/"@,
        PunctKind::Percent => "%"@,
    }
}

/// The canonical textual form of a token: identical to its source lexeme
/// for keywords, punctuation, identifiers and canonically written numbers;
/// the raw text for character and string literals.
pub open spec fn token_text(t: TokenView) -> Seq<char> {
    match t {
        TokenView::Punct(p) => punct_text(p),
        TokenView::Keyword(k) => keyword_text(k),
        TokenView::Ident(s) => s,
        TokenView::Num(n) => dec_seq(n as nat),
        TokenView::Char(c) => seq![c],
        TokenView::Str(s) => s,
    }
}

impl KeywordKind {
    /// The keyword's spelling.
    pub fn render(&self) -> (r: &'static str)
        ensures
            r@ == keyword_text(*self),
    {
        match self {
            KeywordKind::Let => "let",
            KeywordKind::Func => "func",
            KeywordKind::Return => "return",
        }
    }
}

impl PunctKind {
    /// The punctuation's symbol.
    pub fn render(&self) -> (r: &'static str)
        ensures
            r@ == punct_text(*self),
    {
        match self {
            PunctKind::OpenParen => "(",
            PunctKind::CloseParen => ")",
            PunctKind::OpenBrace => "{",
            PunctKind::CloseBrace => "}",
            PunctKind::SemiColon => ";",
            PunctKind::VertVert => "||",
            PunctKind::AndAnd => "&&",
            PunctKind::Ex => "!",
            PunctKind::EqEq => "==",
            PunctKind::ExEq => "!=",
            PunctKind::LtEq => "<=",
            PunctKind::Lt => "<",
            PunctKind::GtEq => ">=",
            PunctKind::Gt => ">",
            PunctKind::Plus => "+",
            PunctKind::Minus => "-",
            PunctKind::Asterisk => "*",
            PunctKind::Slash => "/",
            PunctKind::Percent => "%",
        }
    }
}

/// Relies on `String::push`: appends exactly the given character.
#[verifier::external_body]
pub(crate) fn push_char(s: &mut String, c: char)
    ensures
        final(s)@ == old(s)@ + seq![c],
{
    s.push(c);
}

impl Token {
    /// The token's canonical textual form, used for diagnostics.
    pub fn render(&self) -> (r: String)
        ensures
            r@ == token_text(self@),
    {
        match self {
            Token::Punct(p) => String::from_str(p.render()),
            Token::Keyword(k) => String::from_str(k.render()),
            Token::Ident(s) => s.clone(),
            Token::Num(n) => u64_to_string(*n as u64),
            Token::Char(c) => {
                let mut s = String::new();
                push_char(&mut s, *c);
                proof {
                    assert(s@ =~= seq![*c]);
                }
                s
            },
            Token::Str(s) => s.clone(),
        }
    }
}

} // verus!
