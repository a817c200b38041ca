//! The parser: token sequence to abstract syntax tree for one function
//! definition, by recursive descent with one parsing function per
//! operator-precedence level and one token of lookahead, never
//! backtracking.
//!
//! The `spec_parse_*` functions are the mathematical description of the
//! grammar; [`parse`] is proved to return exactly their value.

use vstd::prelude::*;

use crate::data::{
    BinOpKind, Defn, DefnView, Expr, KeywordKind, PunctKind, Stmt, Token, TokenView, UnOpKind,
};
use crate::error::{ParseError, ParseErrorView};
use crate::lexer::tokens_view;

verus! {

/// The token at `pos`, if any.
pub open spec fn peek_tok(ts: Seq<TokenView>, pos: nat) -> Option<TokenView> {
    if pos < ts.len() {
        Some(ts[pos as int])
    } else {
        None
    }
}

/// Consuming one expected literal token: the position after it on a
/// match, the error naming the expectation otherwise.
pub open spec fn spec_consume(ts: Seq<TokenView>, pos: nat, expected: TokenView) -> Result<
    nat,
    ParseErrorView,
> {
    match peek_tok(ts, pos) {
        None => Err(ParseErrorView::DroppedToken { expected }),
        Some(actual) => if actual == expected {
            Ok((pos + 1) as nat)
        } else {
            Err(ParseErrorView::MismatchedToken { expected, actual })
        },
    }
}

/// Consuming one identifier token.
pub open spec fn spec_next_ident(ts: Seq<TokenView>, pos: nat) -> Result<
    (Seq<char>, nat),
    ParseErrorView,
> {
    match peek_tok(ts, pos) {
        None => Err(ParseErrorView::NoToken),
        Some(TokenView::Ident(s)) => Ok((s, (pos + 1) as nat)),
        Some(_) => Err(ParseErrorView::DroppedIdent),
    }
}

/// A primary expression: a parenthesized subexpression or a number
/// literal; any other token is a parse error.
pub open spec fn spec_parse_primary(ts: Seq<TokenView>, pos: nat) -> Result<
    (Expr, nat),
    ParseErrorView,
>
    decreases ts.len() - pos, 1int,
{
    match peek_tok(ts, pos) {
        None => Err(ParseErrorView::NoToken),
        Some(TokenView::Punct(PunctKind::OpenParen)) => {
            match spec_parse_expr(ts, (pos + 1) as nat) {
                Err(e) => Err(e),
                Ok((e, p1)) => match spec_consume(ts, p1, TokenView::Punct(PunctKind::CloseParen)) {
                    Err(pe) => Err(pe),
                    Ok(p2) => Ok((e, p2)),
                },
            }
        },
        Some(TokenView::Num(v)) => Ok((Expr::Num(v), (pos + 1) as nat)),
        Some(t) => Err(ParseErrorView::UnexpectedToken { actual: t }),
    }
}

/// A unary expression: stacked prefix `!` and `-` over a primary.
pub open spec fn spec_parse_unary(ts: Seq<TokenView>, pos: nat) -> Result<
    (Expr, nat),
    ParseErrorView,
>
    decreases ts.len() - pos, 2int,
{
    match peek_tok(ts, pos) {
        None => Err(ParseErrorView::NoToken),
        Some(TokenView::Punct(PunctKind::Ex)) => {
            match spec_parse_unary(ts, (pos + 1) as nat) {
                Err(e) => Err(e),
                Ok((e, p1)) => Ok(
                    (Expr::UnOp { kind: UnOpKind::LogicNot, operand: Box::new(e) }, p1),
                ),
            }
        },
        Some(TokenView::Punct(PunctKind::Minus)) => {
            match spec_parse_unary(ts, (pos + 1) as nat) {
                Err(e) => Err(e),
                Ok((e, p1)) => Ok((Expr::UnOp { kind: UnOpKind::Neg, operand: Box::new(e) }, p1)),
            }
        },
        Some(_) => spec_parse_primary(ts, pos),
    }
}

/// The left fold of `* / %` over unary expressions, starting from `lhs`.
pub open spec fn spec_mul_loop(ts: Seq<TokenView>, pos: nat, lhs: Expr) -> Result<
    (Expr, nat),
    ParseErrorView,
>
    decreases ts.len() - pos, 5int,
{
    let op = match peek_tok(ts, pos) {
        Some(TokenView::Punct(PunctKind::Asterisk)) => Some(BinOpKind::Mul),
        Some(TokenView::Punct(PunctKind::Slash)) => Some(BinOpKind::Div),
        Some(TokenView::Punct(PunctKind::Percent)) => Some(BinOpKind::Mod),
        _ => None,
    };
    match op {
        None => Ok((lhs, pos)),
        Some(kind) => match spec_parse_unary(ts, (pos + 1) as nat) {
            Err(e) => Err(e),
            Ok((rhs, p1)) => if pos < p1 && p1 <= ts.len() {
                spec_mul_loop(
                    ts,
                    p1,
                    Expr::BinOp { kind, lhs: Box::new(lhs), rhs: Box::new(rhs) },
                )
            } else {
                arbitrary()
            },
        },
    }
}

/// A multiplicative expression: left-associative `* / %`.
pub open spec fn spec_parse_mul(ts: Seq<TokenView>, pos: nat) -> Result<(Expr, nat), ParseErrorView>
    decreases ts.len() - pos, 6int,
{
    match spec_parse_unary(ts, pos) {
        Err(e) => Err(e),
        Ok((lhs, p1)) => if pos <= p1 && p1 <= ts.len() {
            spec_mul_loop(ts, p1, lhs)
        } else {
            arbitrary()
        },
    }
}

/// The left fold of `+ -` over multiplicative expressions.
pub open spec fn spec_add_loop(ts: Seq<TokenView>, pos: nat, lhs: Expr) -> Result<
    (Expr, nat),
    ParseErrorView,
>
    decreases ts.len() - pos, 7int,
{
    let op = match peek_tok(ts, pos) {
        Some(TokenView::Punct(PunctKind::Plus)) => Some(BinOpKind::Add),
        Some(TokenView::Punct(PunctKind::Minus)) => Some(BinOpKind::Sub),
        _ => None,
    };
    match op {
        None => Ok((lhs, pos)),
        Some(kind) => match spec_parse_mul(ts, (pos + 1) as nat) {
            Err(e) => Err(e),
            Ok((rhs, p1)) => if pos < p1 && p1 <= ts.len() {
                spec_add_loop(
                    ts,
                    p1,
                    Expr::BinOp { kind, lhs: Box::new(lhs), rhs: Box::new(rhs) },
                )
            } else {
                arbitrary()
            },
        },
    }
}

/// An additive expression: left-associative `+ -`.
pub open spec fn spec_parse_add(ts: Seq<TokenView>, pos: nat) -> Result<(Expr, nat), ParseErrorView>
    decreases ts.len() - pos, 8int,
{
    match spec_parse_mul(ts, pos) {
        Err(e) => Err(e),
        Ok((lhs, p1)) => if pos <= p1 && p1 <= ts.len() {
            spec_add_loop(ts, p1, lhs)
        } else {
            arbitrary()
        },
    }
}

/// A comparison: two additive expressions joined by at most one of
/// `== != <= < >= >`; not chainable. `>=` and `>` are desugared by
/// swapping the already-parsed operands onto `<=` and `<`, so the
/// right-hand text becomes the left operand of the comparison node.
pub open spec fn spec_parse_compare(ts: Seq<TokenView>, pos: nat) -> Result<
    (Expr, nat),
    ParseErrorView,
>
    decreases ts.len() - pos, 9int,
{
    match spec_parse_add(ts, pos) {
        Err(e) => Err(e),
        Ok((lhs, p1)) => if pos <= p1 {
            match peek_tok(ts, p1) {
                Some(TokenView::Punct(PunctKind::EqEq)) => {
                    match spec_parse_add(ts, (p1 + 1) as nat) {
                        Err(e) => Err(e),
                        Ok((rhs, p2)) => Ok(
                            (
                                Expr::BinOp {
                                    kind: BinOpKind::Eq,
                                    lhs: Box::new(lhs),
                                    rhs: Box::new(rhs),
                                },
                                p2,
                            ),
                        ),
                    }
                },
                Some(TokenView::Punct(PunctKind::ExEq)) => {
                    match spec_parse_add(ts, (p1 + 1) as nat) {
                        Err(e) => Err(e),
                        Ok((rhs, p2)) => Ok(
                            (
                                Expr::BinOp {
                                    kind: BinOpKind::Neq,
                                    lhs: Box::new(lhs),
                                    rhs: Box::new(rhs),
                                },
                                p2,
                            ),
                        ),
                    }
                },
                Some(TokenView::Punct(PunctKind::LtEq)) => {
                    match spec_parse_add(ts, (p1 + 1) as nat) {
                        Err(e) => Err(e),
                        Ok((rhs, p2)) => Ok(
                            (
                                Expr::BinOp {
                                    kind: BinOpKind::Leq,
                                    lhs: Box::new(lhs),
                                    rhs: Box::new(rhs),
                                },
                                p2,
                            ),
                        ),
                    }
                },
                Some(TokenView::Punct(PunctKind::Lt)) => {
                    match spec_parse_add(ts, (p1 + 1) as nat) {
                        Err(e) => Err(e),
                        Ok((rhs, p2)) => Ok(
                            (
                                Expr::BinOp {
                                    kind: BinOpKind::Lt,
                                    lhs: Box::new(lhs),
                                    rhs: Box::new(rhs),
                                },
                                p2,
                            ),
                        ),
                    }
                },
                Some(TokenView::Punct(PunctKind::GtEq)) => {
                    match spec_parse_add(ts, (p1 + 1) as nat) {
                        Err(e) => Err(e),
                        Ok((rhs, p2)) => Ok(
                            (
                                Expr::BinOp {
                                    kind: BinOpKind::Leq,
                                    lhs: Box::new(rhs),
                                    rhs: Box::new(lhs),
                                },
                                p2,
                            ),
                        ),
                    }
                },
                Some(TokenView::Punct(PunctKind::Gt)) => {
                    match spec_parse_add(ts, (p1 + 1) as nat) {
                        Err(e) => Err(e),
                        Ok((rhs, p2)) => Ok(
                            (
                                Expr::BinOp {
                                    kind: BinOpKind::Lt,
                                    lhs: Box::new(rhs),
                                    rhs: Box::new(lhs),
                                },
                                p2,
                            ),
                        ),
                    }
                },
                _ => Ok((lhs, p1)),
            }
        } else {
            arbitrary()
        },
    }
}

/// The left fold of `&&` over comparisons.
pub open spec fn spec_land_loop(ts: Seq<TokenView>, pos: nat, lhs: Expr) -> Result<
    (Expr, nat),
    ParseErrorView,
>
    decreases ts.len() - pos, 10int,
{
    match peek_tok(ts, pos) {
        Some(TokenView::Punct(PunctKind::AndAnd)) => {
            match spec_parse_compare(ts, (pos + 1) as nat) {
                Err(e) => Err(e),
                Ok((rhs, p1)) => if pos < p1 && p1 <= ts.len() {
                    spec_land_loop(
                        ts,
                        p1,
                        Expr::BinOp {
                            kind: BinOpKind::LogicAnd,
                            lhs: Box::new(lhs),
                            rhs: Box::new(rhs),
                        },
                    )
                } else {
                    arbitrary()
                },
            }
        },
        _ => Ok((lhs, pos)),
    }
}

/// A logical-and expression: left-associative `&&`.
pub open spec fn spec_parse_logic_and(ts: Seq<TokenView>, pos: nat) -> Result<
    (Expr, nat),
    ParseErrorView,
>
    decreases ts.len() - pos, 11int,
{
    match spec_parse_compare(ts, pos) {
        Err(e) => Err(e),
        Ok((lhs, p1)) => if pos <= p1 && p1 <= ts.len() {
            spec_land_loop(ts, p1, lhs)
        } else {
            arbitrary()
        },
    }
}

/// The left fold of `||` over logical-and expressions.
pub open spec fn spec_lor_loop(ts: Seq<TokenView>, pos: nat, lhs: Expr) -> Result<
    (Expr, nat),
    ParseErrorView,
>
    decreases ts.len() - pos, 12int,
{
    match peek_tok(ts, pos) {
        Some(TokenView::Punct(PunctKind::VertVert)) => {
            match spec_parse_logic_and(ts, (pos + 1) as nat) {
                Err(e) => Err(e),
                Ok((rhs, p1)) => if pos < p1 && p1 <= ts.len() {
                    spec_lor_loop(
                        ts,
                        p1,
                        Expr::BinOp {
                            kind: BinOpKind::LogicOr,
                            lhs: Box::new(lhs),
                            rhs: Box::new(rhs),
                        },
                    )
                } else {
                    arbitrary()
                },
            }
        },
        _ => Ok((lhs, pos)),
    }
}

/// A logical-or expression: left-associative `||`, the lowest-precedence
/// level.
pub open spec fn spec_parse_logic_or(ts: Seq<TokenView>, pos: nat) -> Result<
    (Expr, nat),
    ParseErrorView,
>
    decreases ts.len() - pos, 13int,
{
    match spec_parse_logic_and(ts, pos) {
        Err(e) => Err(e),
        Ok((lhs, p1)) => if pos <= p1 && p1 <= ts.len() {
            spec_lor_loop(ts, p1, lhs)
        } else {
            arbitrary()
        },
    }
}

/// A whole expression.
pub open spec fn spec_parse_expr(ts: Seq<TokenView>, pos: nat) -> Result<
    (Expr, nat),
    ParseErrorView,
>
    decreases ts.len() - pos, 14int,
{
    spec_parse_logic_or(ts, pos)
}

/// One statement: `return` expression `;`, or an expression statement
/// expression `;`.
pub open spec fn spec_parse_stmt(ts: Seq<TokenView>, pos: nat) -> Result<
    (Stmt, nat),
    ParseErrorView,
>
    decreases ts.len() - pos, 15int,
{
    match peek_tok(ts, pos) {
        None => Err(ParseErrorView::NoToken),
        Some(TokenView::Keyword(KeywordKind::Return)) => {
            match spec_parse_expr(ts, (pos + 1) as nat) {
                Err(e) => Err(e),
                Ok((e, p1)) => match spec_consume(ts, p1, TokenView::Punct(PunctKind::SemiColon)) {
                    Err(pe) => Err(pe),
                    Ok(p2) => Ok((Stmt::Return(e), p2)),
                },
            }
        },
        Some(_) => match spec_parse_expr(ts, pos) {
            Err(e) => Err(e),
            Ok((e, p1)) => match spec_consume(ts, p1, TokenView::Punct(PunctKind::SemiColon)) {
                Err(pe) => Err(pe),
                Ok(p2) => Ok((Stmt::ExprStmt(e), p2)),
            },
        },
    }
}

/// The statements of a function body, up to (not including) the closing
/// brace.
pub open spec fn spec_parse_stmts(ts: Seq<TokenView>, pos: nat) -> Result<
    (Seq<Stmt>, nat),
    ParseErrorView,
>
    decreases ts.len() - pos, 16int,
{
    if peek_tok(ts, pos) == Some(TokenView::Punct(PunctKind::CloseBrace)) {
        Ok((seq![], pos))
    } else {
        match spec_parse_stmt(ts, pos) {
            Err(e) => Err(e),
            Ok((st, p1)) => if pos < p1 && p1 <= ts.len() {
                match spec_parse_stmts(ts, p1) {
                    Err(e) => Err(e),
                    Ok((rest, p2)) => Ok((seq![st] + rest, p2)),
                }
            } else {
                arbitrary()
            },
        }
    }
}

/// One function definition:
/// `func` identifier `(` `)` `{` statements `}`.
pub open spec fn spec_parse_defn(ts: Seq<TokenView>, pos: nat) -> Result<DefnView, ParseErrorView>
    decreases ts.len() - pos, 17int,
{
    match peek_tok(ts, pos) {
        None => Err(ParseErrorView::NoToken),
        Some(TokenView::Keyword(KeywordKind::Func)) => {
            match spec_next_ident(ts, (pos + 1) as nat) {
                Err(e) => Err(e),
                Ok((name, p1)) => match spec_consume(
                    ts,
                    p1,
                    TokenView::Punct(PunctKind::OpenParen),
                ) {
                    Err(e) => Err(e),
                    Ok(p2) => match spec_consume(ts, p2, TokenView::Punct(PunctKind::CloseParen)) {
                        Err(e) => Err(e),
                        Ok(p3) => match spec_consume(
                            ts,
                            p3,
                            TokenView::Punct(PunctKind::OpenBrace),
                        ) {
                            Err(e) => Err(e),
                            Ok(p4) => match spec_parse_stmts(ts, p4) {
                                Err(e) => Err(e),
                                Ok((stmts, p5)) => match spec_consume(
                                    ts,
                                    p5,
                                    TokenView::Punct(PunctKind::CloseBrace),
                                ) {
                                    Err(e) => Err(e),
                                    Ok(_) => Ok(DefnView { name, stmts }),
                                },
                            },
                        },
                    },
                },
            }
        },
        Some(t) => Err(ParseErrorView::UnexpectedToken { actual: t }),
    }
}

/// The whole parse: one function definition read from the start of the
/// token sequence (tokens after it are ignored).
pub open spec fn spec_parse(ts: Seq<TokenView>) -> Result<DefnView, ParseErrorView> {
    spec_parse_defn(ts, 0)
}

/// How an executable expression-parsing result corresponds to its
/// specification: same expression and final position, or the same error.
pub open spec fn expr_result_matches(
    r: Result<Expr, ParseError>,
    s: Result<(Expr, nat), ParseErrorView>,
    endpos: nat,
) -> bool {
    match (r, s) {
        (Ok(e), Ok((se, sp))) => e == se && endpos == sp,
        (Err(pe), Err(spe)) => pe@ == spe,
        _ => false,
    }
}

/// Statements already parsed, followed by the parse of the rest of the
/// body.
pub open spec fn stmts_combine(
    pre: Seq<Stmt>,
    r: Result<(Seq<Stmt>, nat), ParseErrorView>,
) -> Result<(Seq<Stmt>, nat), ParseErrorView> {
    match r {
        Ok((rest, p)) => Ok((pre + rest, p)),
        Err(e) => Err(e),
    }
}

/// Parses one function definition from the token sequence.
pub fn parse(tokens: Vec<Token>) -> (r: Result<Defn, ParseError>)
    ensures
        match spec_parse(tokens_view(tokens@)) {
            Ok(d) => r matches Ok(defn) && defn@ == d,
            Err(e) => r matches Err(pe) && pe@ == e,
        },
{
    let mut parser = Parser::new(tokens);
    parser.parse()
}

/// Owns the single forward index into the token sequence.
struct Parser {
    tokens: Vec<Token>,
    pos: usize,
}

impl Parser {
    spec fn wf(&self) -> bool {
        self.pos <= self.tokens@.len()
    }

    /// The views of the tokens being parsed.
    spec fn toks(&self) -> Seq<TokenView> {
        tokens_view(self.tokens@)
    }

    fn new(tokens: Vec<Token>) -> (p: Self)
        ensures
            p.wf(),
            p.tokens@ == tokens@,
            p.pos == 0,
    {
        Parser { tokens, pos: 0 }
    }

    fn parse(&mut self) -> (r: Result<Defn, ParseError>)
        requires
            old(self).wf(),
            old(self).pos == 0,
        ensures
            match spec_parse(old(self).toks()) {
                Ok(d) => r matches Ok(defn) && defn@ == d,
                Err(e) => r matches Err(pe) && pe@ == e,
            },
    {
        self.parse_defn()
    }

    fn peek(&self) -> (r: Option<Token>)
        requires
            self.wf(),
        ensures
            match r {
                Some(t) => self.pos < self.tokens@.len() && t@ == self.toks()[self.pos as int],
                None => self.pos == self.tokens@.len(),
            },
            peek_tok(self.toks(), self.pos as nat) == match r {
                Some(t) => Some(t@),
                None => None::<TokenView>,
            },
    {
        if self.pos < self.tokens.len() {
            let t = self.tokens[self.pos].clone();
            proof {
                assert(self.toks()[self.pos as int] == self.tokens@[self.pos as int]@);
            }
            Some(t)
        } else {
            None
        }
    }

    fn next(&mut self) -> (r: Option<Token>)
        requires
            old(self).wf(),
        ensures
            final(self).wf(),
            final(self).tokens@ == old(self).tokens@,
            match r {
                Some(t) => old(self).pos < old(self).tokens@.len() && t@ == old(self).toks()[old(
                    self,
                ).pos as int] && final(self).pos == old(self).pos + 1,
                None => old(self).pos == old(self).tokens@.len() && final(self).pos == old(self).pos,
            },
    {
        if self.pos < self.tokens.len() {
            let t = self.tokens[self.pos].clone();
            proof {
                assert(self.toks()[self.pos as int] == self.tokens@[self.pos as int]@);
            }
            self.pos = self.pos + 1;
            Some(t)
        } else {
            None
        }
    }

    /// Consumes the next token, which must be an identifier, and returns
    /// its text.
    fn next_ident(&mut self) -> (r: Result<String, ParseError>)
        requires
            old(self).wf(),
        ensures
            final(self).wf(),
            final(self).tokens@ == old(self).tokens@,
            match spec_next_ident(old(self).toks(), old(self).pos as nat) {
                Ok((s, p)) => r matches Ok(name) && name@ == s && final(self).pos == p,
                Err(e) => r matches Err(pe) && pe@ == e,
            },
    {
        match self.next() {
            None => Err(ParseError::NoToken),
            Some(t) => match t {
                Token::Ident(s) => Ok(s),
                _ => Err(ParseError::DroppedIdent),
            },
        }
    }

    /// Consumes the next token, which must equal `expected`.
    fn consume(&mut self, expected: Token) -> (r: Result<(), ParseError>)
        requires
            old(self).wf(),
        ensures
            final(self).wf(),
            final(self).tokens@ == old(self).tokens@,
            match spec_consume(old(self).toks(), old(self).pos as nat, expected@) {
                Ok(p) => r is Ok && final(self).pos == p,
                Err(e) => r matches Err(pe) && pe@ == e,
            },
    {
        if let Some(actual) = self.next() {
            if expected == actual {
                Ok(())
            } else {
                Err(ParseError::MismatchedToken { expected, actual })
            }
        } else {
            Err(ParseError::DroppedToken { expected })
        }
    }

    fn parse_primary(&mut self) -> (r: Result<Expr, ParseError>)
        requires
            old(self).wf(),
        ensures
            final(self).wf(),
            final(self).tokens@ == old(self).tokens@,
            expr_result_matches(
                r,
                spec_parse_primary(old(self).toks(), old(self).pos as nat),
                final(self).pos as nat,
            ),
            r is Ok ==> old(self).pos < final(self).pos,
        decreases self.tokens@.len() - self.pos, 1int,
    {
        match self.peek() {
            None => Err(ParseError::NoToken),
            Some(Token::Punct(PunctKind::OpenParen)) => {
                let _ = self.next();
                let expr = match self.parse_expr() {
                    Ok(e) => e,
                    Err(e) => {
                        return Err(e);
                    },
                };
                match self.consume(Token::Punct(PunctKind::CloseParen)) {
                    Ok(_) => Ok(expr),
                    Err(e) => Err(e),
                }
            },
            Some(Token::Num(val)) => {
                let _ = self.next();
                Ok(Expr::Num(val))
            },
            Some(other) => Err(ParseError::UnexpectedToken { actual: other }),
        }
    }

    fn parse_unary(&mut self) -> (r: Result<Expr, ParseError>)
        requires
            old(self).wf(),
        ensures
            final(self).wf(),
            final(self).tokens@ == old(self).tokens@,
            expr_result_matches(
                r,
                spec_parse_unary(old(self).toks(), old(self).pos as nat),
                final(self).pos as nat,
            ),
            r is Ok ==> old(self).pos < final(self).pos,
        decreases self.tokens@.len() - self.pos, 2int,
    {
        match self.peek() {
            None => Err(ParseError::NoToken),
            Some(Token::Punct(PunctKind::Ex)) => {
                let _ = self.next();
                match self.parse_unary() {
                    Ok(e) => Ok(Expr::UnOp { kind: UnOpKind::LogicNot, operand: Box::new(e) }),
                    Err(e) => Err(e),
                }
            },
            Some(Token::Punct(PunctKind::Minus)) => {
                let _ = self.next();
                match self.parse_unary() {
                    Ok(e) => Ok(Expr::UnOp { kind: UnOpKind::Neg, operand: Box::new(e) }),
                    Err(e) => Err(e),
                }
            },
            Some(_) => self.parse_primary(),
        }
    }

    fn parse_mul(&mut self) -> (r: Result<Expr, ParseError>)
        requires
            old(self).wf(),
        ensures
            final(self).wf(),
            final(self).tokens@ == old(self).tokens@,
            expr_result_matches(
                r,
                spec_parse_mul(old(self).toks(), old(self).pos as nat),
                final(self).pos as nat,
            ),
            r is Ok ==> old(self).pos < final(self).pos,
        decreases self.tokens@.len() - self.pos, 6int,
    {
        let ghost ts = old(self).toks();
        let ghost pos0 = old(self).pos as nat;
        let mut lhs = match self.parse_unary() {
            Ok(e) => e,
            Err(e) => {
                return Err(e);
            },
        };
        loop
            invariant
                ts == old(self).toks(),
                pos0 == old(self).pos,
                self.wf(),
                self.tokens@ == old(self).tokens@,
                pos0 < self.pos,
                spec_parse_mul(ts, pos0) == spec_mul_loop(ts, self.pos as nat, lhs),
            ensures
                ts == old(self).toks(),
                pos0 == old(self).pos,
                self.wf(),
                self.tokens@ == old(self).tokens@,
                pos0 < self.pos,
                spec_parse_mul(ts, pos0) == Ok::<(Expr, nat), ParseErrorView>(
                    (lhs, self.pos as nat),
                ),
            decreases self.tokens@.len() - self.pos,
        {
            let kind = match self.peek() {
                Some(Token::Punct(PunctKind::Asterisk)) => BinOpKind::Mul,
                Some(Token::Punct(PunctKind::Slash)) => BinOpKind::Div,
                Some(Token::Punct(PunctKind::Percent)) => BinOpKind::Mod,
                _ => {
                    break ;
                },
            };
            let _ = self.next();
            let rhs = match self.parse_unary() {
                Ok(e) => e,
                Err(e) => {
                    return Err(e);
                },
            };
            lhs = Expr::BinOp { kind, lhs: Box::new(lhs), rhs: Box::new(rhs) };
        }
        Ok(lhs)
    }

    fn parse_add(&mut self) -> (r: Result<Expr, ParseError>)
        requires
            old(self).wf(),
        ensures
            final(self).wf(),
            final(self).tokens@ == old(self).tokens@,
            expr_result_matches(
                r,
                spec_parse_add(old(self).toks(), old(self).pos as nat),
                final(self).pos as nat,
            ),
            r is Ok ==> old(self).pos < final(self).pos,
        decreases self.tokens@.len() - self.pos, 8int,
    {
        let ghost ts = old(self).toks();
        let ghost pos0 = old(self).pos as nat;
        let mut lhs = match self.parse_mul() {
            Ok(e) => e,
            Err(e) => {
                return Err(e);
            },
        };
        loop
            invariant
                ts == old(self).toks(),
                pos0 == old(self).pos,
                self.wf(),
                self.tokens@ == old(self).tokens@,
                pos0 < self.pos,
                spec_parse_add(ts, pos0) == spec_add_loop(ts, self.pos as nat, lhs),
            ensures
                ts == old(self).toks(),
                pos0 == old(self).pos,
                self.wf(),
                self.tokens@ == old(self).tokens@,
                pos0 < self.pos,
                spec_parse_add(ts, pos0) == Ok::<(Expr, nat), ParseErrorView>(
                    (lhs, self.pos as nat),
                ),
            decreases self.tokens@.len() - self.pos,
        {
            let kind = match self.peek() {
                Some(Token::Punct(PunctKind::Plus)) => BinOpKind::Add,
                Some(Token::Punct(PunctKind::Minus)) => BinOpKind::Sub,
                _ => {
                    break ;
                },
            };
            let _ = self.next();
            let rhs = match self.parse_mul() {
                Ok(e) => e,
                Err(e) => {
                    return Err(e);
                },
            };
            lhs = Expr::BinOp { kind, lhs: Box::new(lhs), rhs: Box::new(rhs) };
        }
        Ok(lhs)
    }

    fn parse_compare(&mut self) -> (r: Result<Expr, ParseError>)
        requires
            old(self).wf(),
        ensures
            final(self).wf(),
            final(self).tokens@ == old(self).tokens@,
            expr_result_matches(
                r,
                spec_parse_compare(old(self).toks(), old(self).pos as nat),
                final(self).pos as nat,
            ),
            r is Ok ==> old(self).pos < final(self).pos,
        decreases self.tokens@.len() - self.pos, 9int,
    {
        let lhs = match self.parse_add() {
            Ok(e) => e,
            Err(e) => {
                return Err(e);
            },
        };
        let kind_swap: Option<(BinOpKind, bool)> = match self.peek() {
            Some(Token::Punct(PunctKind::EqEq)) => Some((BinOpKind::Eq, false)),
            Some(Token::Punct(PunctKind::ExEq)) => Some((BinOpKind::Neq, false)),
            Some(Token::Punct(PunctKind::LtEq)) => Some((BinOpKind::Leq, false)),
            Some(Token::Punct(PunctKind::Lt)) => Some((BinOpKind::Lt, false)),
            Some(Token::Punct(PunctKind::GtEq)) => Some((BinOpKind::Leq, true)),
            Some(Token::Punct(PunctKind::Gt)) => Some((BinOpKind::Lt, true)),
            _ => None,
        };
        match kind_swap {
            None => Ok(lhs),
            Some((kind, swap)) => {
                let _ = self.next();
                let rhs = match self.parse_add() {
                    Ok(e) => e,
                    Err(e) => {
                        return Err(e);
                    },
                };
                if swap {
                    Ok(Expr::BinOp { kind, lhs: Box::new(rhs), rhs: Box::new(lhs) })
                } else {
                    Ok(Expr::BinOp { kind, lhs: Box::new(lhs), rhs: Box::new(rhs) })
                }
            },
        }
    }

    fn parse_logic_and(&mut self) -> (r: Result<Expr, ParseError>)
        requires
            old(self).wf(),
        ensures
            final(self).wf(),
            final(self).tokens@ == old(self).tokens@,
            expr_result_matches(
                r,
                spec_parse_logic_and(old(self).toks(), old(self).pos as nat),
                final(self).pos as nat,
            ),
            r is Ok ==> old(self).pos < final(self).pos,
        decreases self.tokens@.len() - self.pos, 11int,
    {
        let ghost ts = old(self).toks();
        let ghost pos0 = old(self).pos as nat;
        let mut lhs = match self.parse_compare() {
            Ok(e) => e,
            Err(e) => {
                return Err(e);
            },
        };
        loop
            invariant
                ts == old(self).toks(),
                pos0 == old(self).pos,
                self.wf(),
                self.tokens@ == old(self).tokens@,
                pos0 < self.pos,
                spec_parse_logic_and(ts, pos0) == spec_land_loop(ts, self.pos as nat, lhs),
            ensures
                ts == old(self).toks(),
                pos0 == old(self).pos,
                self.wf(),
                self.tokens@ == old(self).tokens@,
                pos0 < self.pos,
                spec_parse_logic_and(ts, pos0) == Ok::<(Expr, nat), ParseErrorView>(
                    (lhs, self.pos as nat),
                ),
            decreases self.tokens@.len() - self.pos,
        {
            match self.peek() {
                Some(Token::Punct(PunctKind::AndAnd)) => {},
                _ => {
                    break ;
                },
            }
            let _ = self.next();
            let rhs = match self.parse_compare() {
                Ok(e) => e,
                Err(e) => {
                    return Err(e);
                },
            };
            lhs = Expr::BinOp { kind: BinOpKind::LogicAnd, lhs: Box::new(lhs), rhs: Box::new(rhs) };
        }
        Ok(lhs)
    }

    fn parse_logic_or(&mut self) -> (r: Result<Expr, ParseError>)
        requires
            old(self).wf(),
        ensures
            final(self).wf(),
            final(self).tokens@ == old(self).tokens@,
            expr_result_matches(
                r,
                spec_parse_logic_or(old(self).toks(), old(self).pos as nat),
                final(self).pos as nat,
            ),
            r is Ok ==> old(self).pos < final(self).pos,
        decreases self.tokens@.len() - self.pos, 13int,
    {
        let ghost ts = old(self).toks();
        let ghost pos0 = old(self).pos as nat;
        let mut lhs = match self.parse_logic_and() {
            Ok(e) => e,
            Err(e) => {
                return Err(e);
            },
        };
        loop
            invariant
                ts == old(self).toks(),
                pos0 == old(self).pos,
                self.wf(),
                self.tokens@ == old(self).tokens@,
                pos0 < self.pos,
                spec_parse_logic_or(ts, pos0) == spec_lor_loop(ts, self.pos as nat, lhs),
            ensures
                ts == old(self).toks(),
                pos0 == old(self).pos,
                self.wf(),
                self.tokens@ == old(self).tokens@,
                pos0 < self.pos,
                spec_parse_logic_or(ts, pos0) == Ok::<(Expr, nat), ParseErrorView>(
                    (lhs, self.pos as nat),
                ),
            decreases self.tokens@.len() - self.pos,
        {
            match self.peek() {
                Some(Token::Punct(PunctKind::VertVert)) => {},
                _ => {
                    break ;
                },
            }
            let _ = self.next();
            let rhs = match self.parse_logic_and() {
                Ok(e) => e,
                Err(e) => {
                    return Err(e);
                },
            };
            lhs = Expr::BinOp { kind: BinOpKind::LogicOr, lhs: Box::new(lhs), rhs: Box::new(rhs) };
        }
        Ok(lhs)
    }

    fn parse_expr(&mut self) -> (r: Result<Expr, ParseError>)
        requires
            old(self).wf(),
        ensures
            final(self).wf(),
            final(self).tokens@ == old(self).tokens@,
            expr_result_matches(
                r,
                spec_parse_expr(old(self).toks(), old(self).pos as nat),
                final(self).pos as nat,
            ),
            r is Ok ==> old(self).pos < final(self).pos,
        decreases self.tokens@.len() - self.pos, 14int,
    {
        self.parse_logic_or()
    }

    fn parse_stmt(&mut self) -> (r: Result<Stmt, ParseError>)
        requires
            old(self).wf(),
        ensures
            final(self).wf(),
            final(self).tokens@ == old(self).tokens@,
            match spec_parse_stmt(old(self).toks(), old(self).pos as nat) {
                Ok((st, p)) => r matches Ok(s2) && s2 == st && final(self).pos == p,
                Err(e) => r matches Err(pe) && pe@ == e,
            },
            r is Ok ==> old(self).pos < final(self).pos,
        decreases self.tokens@.len() - self.pos, 15int,
    {
        match self.peek() {
            None => Err(ParseError::NoToken),
            Some(Token::Keyword(KeywordKind::Return)) => {
                let _ = self.next();
                let expr = match self.parse_expr() {
                    Ok(e) => e,
                    Err(e) => {
                        return Err(e);
                    },
                };
                match self.consume(Token::Punct(PunctKind::SemiColon)) {
                    Ok(_) => Ok(Stmt::Return(expr)),
                    Err(e) => Err(e),
                }
            },
            Some(_) => {
                let expr = match self.parse_expr() {
                    Ok(e) => e,
                    Err(e) => {
                        return Err(e);
                    },
                };
                match self.consume(Token::Punct(PunctKind::SemiColon)) {
                    Ok(_) => Ok(Stmt::ExprStmt(expr)),
                    Err(e) => Err(e),
                }
            },
        }
    }

    #[verifier::rlimit(60)]
    fn parse_defn(&mut self) -> (r: Result<Defn, ParseError>)
        requires
            old(self).wf(),
        ensures
            final(self).wf(),
            final(self).tokens@ == old(self).tokens@,
            match spec_parse_defn(old(self).toks(), old(self).pos as nat) {
                Ok(d) => r matches Ok(defn) && defn@ == d,
                Err(e) => r matches Err(pe) && pe@ == e,
            },
        decreases self.tokens@.len() - self.pos, 17int,
    {
        let ghost ts = old(self).toks();
        let ghost pos0 = old(self).pos as nat;
        match self.peek() {
            None => Err(ParseError::NoToken),
            Some(Token::Keyword(KeywordKind::Func)) => {
                let _ = self.next();
                let name = match self.next_ident() {
                    Ok(n) => n,
                    Err(e) => {
                        return Err(e);
                    },
                };
                match self.consume(Token::Punct(PunctKind::OpenParen)) {
                    Ok(_) => {},
                    Err(e) => {
                        return Err(e);
                    },
                }
                match self.consume(Token::Punct(PunctKind::CloseParen)) {
                    Ok(_) => {},
                    Err(e) => {
                        return Err(e);
                    },
                }
                match self.consume(Token::Punct(PunctKind::OpenBrace)) {
                    Ok(_) => {},
                    Err(e) => {
                        return Err(e);
                    },
                }
                let ghost body_pos = self.pos as nat;
                let mut stmts: Vec<Stmt> = Vec::new();
                proof {
                    assert(stmts@ + Seq::<Stmt>::empty() =~= stmts@);
                }
                loop
                    invariant
                        ts == old(self).toks(),
                        pos0 == old(self).pos,
                        self.wf(),
                        self.tokens@ == old(self).tokens@,
                        body_pos <= self.pos,
                        spec_parse_stmts(ts, body_pos) == stmts_combine(
                            stmts@,
                            spec_parse_stmts(ts, self.pos as nat),
                        ),
                        spec_parse_defn(ts, pos0) == (match spec_parse_stmts(ts, body_pos) {
                            Err(e) => Err(e),
                            Ok((body, p5)) => match spec_consume(
                                ts,
                                p5,
                                TokenView::Punct(PunctKind::CloseBrace),
                            ) {
                                Err(e) => Err(e),
                                Ok(_) => Ok(DefnView { name: name@, stmts: body }),
                            },
                        }),
                    ensures
                        ts == old(self).toks(),
                        self.wf(),
                        self.tokens@ == old(self).tokens@,
                        spec_parse_stmts(ts, body_pos) == Ok::<(Seq<Stmt>, nat), ParseErrorView>(
                            (stmts@, self.pos as nat),
                        ),
                    decreases self.tokens@.len() - self.pos,
                {
                    let ghost pre = stmts@;
                    match self.peek() {
                        Some(Token::Punct(PunctKind::CloseBrace)) => {
                            proof {
                                assert(pre + Seq::<Stmt>::empty() =~= pre);
                            }
                            break ;
                        },
                        _ => {},
                    }
                    let st = match self.parse_stmt() {
                        Ok(s) => s,
                        Err(e) => {
                            return Err(e);
                        },
                    };
                    proof {
                        match spec_parse_stmts(ts, self.pos as nat) {
                            Ok((rest, p2)) => {
                                assert(pre + (seq![st] + rest) =~= pre.push(st) + rest);
                                assert(pre.push(st) =~= stmts@.push(st));
                            },
                            Err(_) => {},
                        }
                    }
                    stmts.push(st);
                }
                match self.consume(Token::Punct(PunctKind::CloseBrace)) {
                    Ok(_) => {},
                    Err(e) => {
                        return Err(e);
                    },
                }
                Ok(Defn::FuncDef { name, stmts })
            },
            Some(t) => Err(ParseError::UnexpectedToken { actual: t }),
        }
    }
}

} // verus!
