//! Theorems about the pipeline as a whole: bounds tying the parser to
//! the code generator's label counter, and the laws the library
//! guarantees across its stages.

use vstd::prelude::*;

use crate::codegen::{binop_labels, defn_labels, expr_labels, stmt_labels, stmts_labels};
use crate::data::{
    token_text, BinOpKind, DefnView, Expr, KeywordKind, PunctKind, Stmt, TokenView, UnOpKind,
};
use crate::decimal::{dec_seq, digit_char};
use crate::error::{ParseErrorView, TokenError};
use crate::lexer::{
    alnum_run, dec_val, digit_run, digit_val, find_quote, is_alnum, is_digit, is_punct_char,
    is_space, lemma_alnum_run_bounds, lemma_digit_run_bounds, lemma_find_quote,
    lemma_lex_number_head, lemma_lex_single_punct_head, lemma_lex_step_consumes,
    lemma_lex_word_head, lemma_num_val_dec, lemma_tokenize_concat, lex_step, num_val, punct_step,
    spec_tokenize, word_token,
};
use crate::semantics::{eval_expr, eval_stmts, exit_code, lemma_wrap64_small, low_byte, wrap64};
use crate::parser::{
    peek_tok, spec_add_loop, spec_consume, spec_land_loop, spec_lor_loop, spec_mul_loop,
    spec_next_ident, spec_parse, spec_parse_add, spec_parse_compare, spec_parse_defn,
    spec_parse_expr, spec_parse_logic_and, spec_parse_logic_or, spec_parse_mul, spec_parse_primary,
    spec_parse_stmt, spec_parse_stmts, spec_parse_unary,
};

verus! {

/// A successful primary parse consumes at least one token and allocates
/// at most one label per consumed token.
pub proof fn lemma_parse_primary_bounds(ts: Seq<TokenView>, pos: nat)
    ensures
        match spec_parse_primary(ts, pos) {
            Ok((e, p)) => pos < p <= ts.len() && expr_labels(e) <= p - pos,
            Err(_) => true,
        },
    decreases ts.len() - pos, 1int,
{
    match peek_tok(ts, pos) {
        Some(TokenView::Punct(PunctKind::OpenParen)) => {
            lemma_parse_expr_bounds(ts, (pos + 1) as nat);
        },
        _ => {},
    }
}

/// A successful unary parse consumes at least one token and allocates
/// at most one label per consumed token.
pub proof fn lemma_parse_unary_bounds(ts: Seq<TokenView>, pos: nat)
    ensures
        match spec_parse_unary(ts, pos) {
            Ok((e, p)) => pos < p <= ts.len() && expr_labels(e) <= p - pos,
            Err(_) => true,
        },
    decreases ts.len() - pos, 2int,
{
    match peek_tok(ts, pos) {
        Some(TokenView::Punct(PunctKind::Ex)) => {
            lemma_parse_unary_bounds(ts, (pos + 1) as nat);
        },
        Some(TokenView::Punct(PunctKind::Minus)) => {
            lemma_parse_unary_bounds(ts, (pos + 1) as nat);
        },
        Some(_) => {
            lemma_parse_primary_bounds(ts, pos);
        },
        None => {},
    }
}

/// The multiplicative fold advances the position and allocates at most
/// one label per consumed token beyond those of `lhs`.
pub proof fn lemma_mul_loop_bounds(ts: Seq<TokenView>, pos: nat, lhs: Expr)
    requires
        pos <= ts.len(),
    ensures
        match spec_mul_loop(ts, pos, lhs) {
            Ok((e, p)) => pos <= p <= ts.len() && expr_labels(e) <= expr_labels(lhs) + (p - pos),
            Err(_) => true,
        },
    decreases ts.len() - pos, 5int,
{
    let op = match peek_tok(ts, pos) {
        Some(TokenView::Punct(PunctKind::Asterisk)) => Some(BinOpKind::Mul),
        Some(TokenView::Punct(PunctKind::Slash)) => Some(BinOpKind::Div),
        Some(TokenView::Punct(PunctKind::Percent)) => Some(BinOpKind::Mod),
        _ => None,
    };
    match op {
        None => {},
        Some(kind) => {
            lemma_parse_unary_bounds(ts, (pos + 1) as nat);
            match spec_parse_unary(ts, (pos + 1) as nat) {
                Ok((rhs, p1)) => {
                    lemma_mul_loop_bounds(
                        ts,
                        p1,
                        Expr::BinOp { kind, lhs: Box::new(lhs), rhs: Box::new(rhs) },
                    );
                },
                Err(_) => {},
            }
        },
    }
}

/// A successful multiplicative parse consumes at least one token and
/// allocates at most one label per consumed token.
pub proof fn lemma_parse_mul_bounds(ts: Seq<TokenView>, pos: nat)
    ensures
        match spec_parse_mul(ts, pos) {
            Ok((e, p)) => pos < p <= ts.len() && expr_labels(e) <= p - pos,
            Err(_) => true,
        },
    decreases ts.len() - pos, 6int,
{
    lemma_parse_unary_bounds(ts, pos);
    match spec_parse_unary(ts, pos) {
        Ok((lhs, p1)) => {
            lemma_mul_loop_bounds(ts, p1, lhs);
        },
        Err(_) => {},
    }
}

/// The additive fold advances the position and allocates at most one
/// label per consumed token beyond those of `lhs`.
pub proof fn lemma_add_loop_bounds(ts: Seq<TokenView>, pos: nat, lhs: Expr)
    requires
        pos <= ts.len(),
    ensures
        match spec_add_loop(ts, pos, lhs) {
            Ok((e, p)) => pos <= p <= ts.len() && expr_labels(e) <= expr_labels(lhs) + (p - pos),
            Err(_) => true,
        },
    decreases ts.len() - pos, 7int,
{
    let op = match peek_tok(ts, pos) {
        Some(TokenView::Punct(PunctKind::Plus)) => Some(BinOpKind::Add),
        Some(TokenView::Punct(PunctKind::Minus)) => Some(BinOpKind::Sub),
        _ => None,
    };
    match op {
        None => {},
        Some(kind) => {
            lemma_parse_mul_bounds(ts, (pos + 1) as nat);
            match spec_parse_mul(ts, (pos + 1) as nat) {
                Ok((rhs, p1)) => {
                    lemma_add_loop_bounds(
                        ts,
                        p1,
                        Expr::BinOp { kind, lhs: Box::new(lhs), rhs: Box::new(rhs) },
                    );
                },
                Err(_) => {},
            }
        },
    }
}

/// A successful additive parse consumes at least one token and allocates
/// at most one label per consumed token.
pub proof fn lemma_parse_add_bounds(ts: Seq<TokenView>, pos: nat)
    ensures
        match spec_parse_add(ts, pos) {
            Ok((e, p)) => pos < p <= ts.len() && expr_labels(e) <= p - pos,
            Err(_) => true,
        },
    decreases ts.len() - pos, 8int,
{
    lemma_parse_mul_bounds(ts, pos);
    match spec_parse_mul(ts, pos) {
        Ok((lhs, p1)) => {
            lemma_add_loop_bounds(ts, p1, lhs);
        },
        Err(_) => {},
    }
}

/// A successful comparison parse consumes at least one token and
/// allocates at most one label per consumed token.
pub proof fn lemma_parse_compare_bounds(ts: Seq<TokenView>, pos: nat)
    ensures
        match spec_parse_compare(ts, pos) {
            Ok((e, p)) => pos < p <= ts.len() && expr_labels(e) <= p - pos,
            Err(_) => true,
        },
    decreases ts.len() - pos, 9int,
{
    lemma_parse_add_bounds(ts, pos);
    match spec_parse_add(ts, pos) {
        Ok((lhs, p1)) => {
            match peek_tok(ts, p1) {
                Some(TokenView::Punct(PunctKind::EqEq)) => {
                    lemma_parse_add_bounds(ts, (p1 + 1) as nat);
                },
                Some(TokenView::Punct(PunctKind::ExEq)) => {
                    lemma_parse_add_bounds(ts, (p1 + 1) as nat);
                },
                Some(TokenView::Punct(PunctKind::LtEq)) => {
                    lemma_parse_add_bounds(ts, (p1 + 1) as nat);
                },
                Some(TokenView::Punct(PunctKind::Lt)) => {
                    lemma_parse_add_bounds(ts, (p1 + 1) as nat);
                },
                Some(TokenView::Punct(PunctKind::GtEq)) => {
                    lemma_parse_add_bounds(ts, (p1 + 1) as nat);
                },
                Some(TokenView::Punct(PunctKind::Gt)) => {
                    lemma_parse_add_bounds(ts, (p1 + 1) as nat);
                },
                _ => {},
            }
        },
        Err(_) => {},
    }
}

/// The logical-and fold advances the position; each `&&` pays for its
/// own short-circuit label with the token it consumes.
pub proof fn lemma_land_loop_bounds(ts: Seq<TokenView>, pos: nat, lhs: Expr)
    requires
        pos <= ts.len(),
    ensures
        match spec_land_loop(ts, pos, lhs) {
            Ok((e, p)) => pos <= p <= ts.len() && expr_labels(e) <= expr_labels(lhs) + (p - pos),
            Err(_) => true,
        },
    decreases ts.len() - pos, 10int,
{
    match peek_tok(ts, pos) {
        Some(TokenView::Punct(PunctKind::AndAnd)) => {
            lemma_parse_compare_bounds(ts, (pos + 1) as nat);
            match spec_parse_compare(ts, (pos + 1) as nat) {
                Ok((rhs, p1)) => {
                    lemma_land_loop_bounds(
                        ts,
                        p1,
                        Expr::BinOp {
                            kind: BinOpKind::LogicAnd,
                            lhs: Box::new(lhs),
                            rhs: Box::new(rhs),
                        },
                    );
                },
                Err(_) => {},
            }
        },
        _ => {},
    }
}

/// A successful logical-and parse consumes at least one token and
/// allocates at most one label per consumed token.
pub proof fn lemma_parse_logic_and_bounds(ts: Seq<TokenView>, pos: nat)
    ensures
        match spec_parse_logic_and(ts, pos) {
            Ok((e, p)) => pos < p <= ts.len() && expr_labels(e) <= p - pos,
            Err(_) => true,
        },
    decreases ts.len() - pos, 11int,
{
    lemma_parse_compare_bounds(ts, pos);
    match spec_parse_compare(ts, pos) {
        Ok((lhs, p1)) => {
            lemma_land_loop_bounds(ts, p1, lhs);
        },
        Err(_) => {},
    }
}

/// The logical-or fold advances the position; each `||` pays for its
/// own short-circuit label with the token it consumes.
pub proof fn lemma_lor_loop_bounds(ts: Seq<TokenView>, pos: nat, lhs: Expr)
    requires
        pos <= ts.len(),
    ensures
        match spec_lor_loop(ts, pos, lhs) {
            Ok((e, p)) => pos <= p <= ts.len() && expr_labels(e) <= expr_labels(lhs) + (p - pos),
            Err(_) => true,
        },
    decreases ts.len() - pos, 12int,
{
    match peek_tok(ts, pos) {
        Some(TokenView::Punct(PunctKind::VertVert)) => {
            lemma_parse_logic_and_bounds(ts, (pos + 1) as nat);
            match spec_parse_logic_and(ts, (pos + 1) as nat) {
                Ok((rhs, p1)) => {
                    lemma_lor_loop_bounds(
                        ts,
                        p1,
                        Expr::BinOp {
                            kind: BinOpKind::LogicOr,
                            lhs: Box::new(lhs),
                            rhs: Box::new(rhs),
                        },
                    );
                },
                Err(_) => {},
            }
        },
        _ => {},
    }
}

/// A successful logical-or parse consumes at least one token and
/// allocates at most one label per consumed token.
pub proof fn lemma_parse_logic_or_bounds(ts: Seq<TokenView>, pos: nat)
    ensures
        match spec_parse_logic_or(ts, pos) {
            Ok((e, p)) => pos < p <= ts.len() && expr_labels(e) <= p - pos,
            Err(_) => true,
        },
    decreases ts.len() - pos, 13int,
{
    lemma_parse_logic_and_bounds(ts, pos);
    match spec_parse_logic_and(ts, pos) {
        Ok((lhs, p1)) => {
            lemma_lor_loop_bounds(ts, p1, lhs);
        },
        Err(_) => {},
    }
}

/// A successful expression parse consumes at least one token and
/// allocates at most one label per consumed token.
pub proof fn lemma_parse_expr_bounds(ts: Seq<TokenView>, pos: nat)
    ensures
        match spec_parse_expr(ts, pos) {
            Ok((e, p)) => pos < p <= ts.len() && expr_labels(e) <= p - pos,
            Err(_) => true,
        },
    decreases ts.len() - pos, 14int,
{
    lemma_parse_logic_or_bounds(ts, pos);
}

/// A successful statement parse consumes at least one token and
/// allocates at most one label per consumed token.
pub proof fn lemma_parse_stmt_bounds(ts: Seq<TokenView>, pos: nat)
    ensures
        match spec_parse_stmt(ts, pos) {
            Ok((s, p)) => pos < p <= ts.len() && stmt_labels(s) <= p - pos,
            Err(_) => true,
        },
    decreases ts.len() - pos, 15int,
{
    match peek_tok(ts, pos) {
        Some(TokenView::Keyword(KeywordKind::Return)) => {
            lemma_parse_expr_bounds(ts, (pos + 1) as nat);
        },
        Some(_) => {
            lemma_parse_expr_bounds(ts, pos);
        },
        None => {},
    }
}

/// A successfully parsed statement sequence allocates at most one label
/// per consumed token.
pub proof fn lemma_parse_stmts_bounds(ts: Seq<TokenView>, pos: nat)
    ensures
        match spec_parse_stmts(ts, pos) {
            Ok((ss, p)) => pos <= p <= ts.len() && stmts_labels(ss) <= p - pos,
            Err(_) => true,
        },
    decreases ts.len() - pos, 16int,
{
    if peek_tok(ts, pos) == Some(TokenView::Punct(PunctKind::CloseBrace)) {
    } else {
        lemma_parse_stmt_bounds(ts, pos);
        match spec_parse_stmt(ts, pos) {
            Ok((st, p1)) => {
                lemma_parse_stmts_bounds(ts, p1);
                match spec_parse_stmts(ts, p1) {
                    Ok((rest, p2)) => {
                        assert((seq![st] + rest)[0] == st);
                        assert((seq![st] + rest).drop_first() =~= rest);
                    },
                    Err(_) => {},
                }
            },
            Err(_) => {},
        }
    }
}

/// A successfully parsed definition allocates at most one label per
/// token of the whole sequence, so the label counter, started at zero,
/// never outruns the token count.
pub proof fn lemma_parse_defn_labels(ts: Seq<TokenView>, pos: nat)
    ensures
        match spec_parse_defn(ts, pos) {
            Ok(d) => defn_labels(d) <= ts.len(),
            Err(_) => true,
        },
    decreases ts.len() - pos, 17int,
{
    match peek_tok(ts, pos) {
        Some(TokenView::Keyword(KeywordKind::Func)) => {
            match spec_next_ident(ts, (pos + 1) as nat) {
                Ok((name, p1)) => {
                    match spec_consume(ts, p1, TokenView::Punct(PunctKind::OpenParen)) {
                        Ok(p2) => match spec_consume(
                            ts,
                            p2,
                            TokenView::Punct(PunctKind::CloseParen),
                        ) {
                            Ok(p3) => match spec_consume(
                                ts,
                                p3,
                                TokenView::Punct(PunctKind::OpenBrace),
                            ) {
                                Ok(p4) => {
                                    lemma_parse_stmts_bounds(ts, p4);
                                },
                                Err(_) => {},
                            },
                            Err(_) => {},
                        },
                        Err(_) => {},
                    }
                },
                Err(_) => {},
            }
        },
        _ => {},
    }
}

/// What [`spec_parse`] accepts never needs more labels than it has
/// tokens.
pub proof fn lemma_parse_labels(ts: Seq<TokenView>)
    ensures
        match spec_parse(ts) {
            Ok(d) => defn_labels(d) <= ts.len(),
            Err(_) => true,
        },
{
    lemma_parse_defn_labels(ts, 0);
}

/// Strict ascent: every element is below every later one.
pub open spec fn strictly_increasing(s: Seq<nat>) -> bool {
    forall|i: int, j: int| 0 <= i < j < s.len() ==> s[i] < s[j]
}

/// The label numbers the code generator allocates for an expression, in
/// allocation order, when the counter stands at `l`: each short-circuit
/// operator takes the counter's value before its operands are visited.
pub open spec fn gen_labels(e: Expr, l: nat) -> Seq<nat>
    decreases e,
{
    match e {
        Expr::BinOp { kind, lhs, rhs } => if binop_labels(kind) == 1 {
            seq![l] + gen_labels(*lhs, (l + 1) as nat) + gen_labels(
                *rhs,
                (l + 1 + expr_labels(*lhs)) as nat,
            )
        } else {
            gen_labels(*lhs, l) + gen_labels(*rhs, (l + expr_labels(*lhs)) as nat)
        },
        Expr::UnOp { kind, operand } => gen_labels(*operand, l),
        Expr::Num(_) => seq![],
    }
}

/// The labels allocated while a whole statement sequence is generated.
pub open spec fn stmts_gen_labels(ss: Seq<Stmt>, l: nat) -> Seq<nat>
    decreases ss.len(),
{
    if ss.len() == 0 {
        seq![]
    } else {
        (match ss[0] {
            Stmt::Return(e) => gen_labels(e, l),
            Stmt::ExprStmt(e) => gen_labels(e, l),
        }) + stmts_gen_labels(ss.drop_first(), (l + stmt_labels(ss[0])) as nat)
    }
}

/// Short-circuit branch labels never collide: the labels allocated for
/// an expression are exactly one per `||` or `&&`, all lie in the
/// half-open window the counter sweeps, and are allocated in strictly
/// increasing order, so they are pairwise distinct.
pub proof fn lemma_expr_labels_distinct(e: Expr, l: nat)
    ensures
        gen_labels(e, l).len() == expr_labels(e),
        forall|i: int|
            0 <= i < gen_labels(e, l).len() ==> l <= #[trigger] gen_labels(e, l)[i] < l
                + expr_labels(e),
        strictly_increasing(gen_labels(e, l)),
    decreases e,
{
    match e {
        Expr::BinOp { kind, lhs, rhs } => {
            if binop_labels(kind) == 1 {
                lemma_expr_labels_distinct(*lhs, (l + 1) as nat);
                lemma_expr_labels_distinct(*rhs, (l + 1 + expr_labels(*lhs)) as nat);
            } else {
                lemma_expr_labels_distinct(*lhs, l);
                lemma_expr_labels_distinct(*rhs, (l + expr_labels(*lhs)) as nat);
            }
        },
        Expr::UnOp { kind, operand } => {
            lemma_expr_labels_distinct(*operand, l);
        },
        Expr::Num(_) => {},
    }
}

/// Labels stay distinct across a whole function body: the counter is
/// threaded through every statement, never reused and never reset.
pub proof fn lemma_defn_labels_distinct(ss: Seq<Stmt>, l: nat)
    ensures
        stmts_gen_labels(ss, l).len() == stmts_labels(ss),
        forall|i: int|
            0 <= i < stmts_gen_labels(ss, l).len() ==> l <= #[trigger] stmts_gen_labels(ss, l)[i]
                < l + stmts_labels(ss),
        strictly_increasing(stmts_gen_labels(ss, l)),
    decreases ss.len(),
{
    if ss.len() > 0 {
        match ss[0] {
            Stmt::Return(e) => {
                lemma_expr_labels_distinct(e, l);
            },
            Stmt::ExprStmt(e) => {
                lemma_expr_labels_distinct(e, l);
            },
        }
        lemma_defn_labels_distinct(ss.drop_first(), (l + stmt_labels(ss[0])) as nat);
    }
}

/// `>=` between two additive expressions is desugared by swapping the
/// already-parsed operands onto `<=`: the textually right operand
/// becomes the comparison node's left child.
pub proof fn lemma_ge_desugar(ts: Seq<TokenView>, pos: nat, e1: Expr, p1: nat, e2: Expr, p2: nat)
    requires
        spec_parse_add(ts, pos) == Ok::<(Expr, nat), ParseErrorView>((e1, p1)),
        peek_tok(ts, p1) == Some(TokenView::Punct(PunctKind::GtEq)),
        spec_parse_add(ts, (p1 + 1) as nat) == Ok::<(Expr, nat), ParseErrorView>((e2, p2)),
    ensures
        spec_parse_compare(ts, pos) == Ok::<(Expr, nat), ParseErrorView>(
            (Expr::BinOp { kind: BinOpKind::Leq, lhs: Box::new(e2), rhs: Box::new(e1) }, p2),
        ),
{
    lemma_parse_add_bounds(ts, pos);
}

/// `>` between two additive expressions is desugared by swapping the
/// already-parsed operands onto `<`.
pub proof fn lemma_gt_desugar(ts: Seq<TokenView>, pos: nat, e1: Expr, p1: nat, e2: Expr, p2: nat)
    requires
        spec_parse_add(ts, pos) == Ok::<(Expr, nat), ParseErrorView>((e1, p1)),
        peek_tok(ts, p1) == Some(TokenView::Punct(PunctKind::Gt)),
        spec_parse_add(ts, (p1 + 1) as nat) == Ok::<(Expr, nat), ParseErrorView>((e2, p2)),
    ensures
        spec_parse_compare(ts, pos) == Ok::<(Expr, nat), ParseErrorView>(
            (Expr::BinOp { kind: BinOpKind::Lt, lhs: Box::new(e2), rhs: Box::new(e1) }, p2),
        ),
{
    lemma_parse_add_bounds(ts, pos);
}

/// Source text that reaches an unterminated string literal is rejected
/// with exactly `UnterminatedStringLiteral`: whatever clean tokens stand
/// before the opening quote, if no closing quote follows, the whole
/// tokenization fails with that error and nothing is produced.
pub proof fn law_unterminated_string(a: Seq<char>, b: Seq<char>, ta: Seq<TokenView>)
    requires
        spec_tokenize(a) == Ok::<Seq<TokenView>, TokenError>(ta),
        b.len() > 0,
        b[0] == '"',
        forall|k: int| 1 <= k < b.len() ==> b[k] != '"',
    ensures
        spec_tokenize(a + b) == Err::<Seq<TokenView>, TokenError>(
            TokenError::UnterminatedStringLiteral,
        ),
{
    lemma_tokenize_concat(a, b, ta);
    lemma_find_quote(b.drop_first());
    match find_quote(b.drop_first()) {
        Some(j) => {
            assert(b.drop_first()[j as int] == b[j as int + 1]);
            assert(false);
        },
        None => {},
    }
}

/// Tokenizing an optional leading `-` followed by digits yields exactly
/// the minus token (if present) and one number literal carrying the
/// wrapping accumulation of the digits.
pub proof fn lemma_tokenize_number(ds: Seq<char>)
    requires
        ds.len() > 0,
        forall|i: int| 0 <= i < ds.len() ==> is_digit(ds[i]),
    ensures
        spec_tokenize(ds) == Ok::<Seq<TokenView>, TokenError>(seq![TokenView::Num(num_val(ds))]),
        spec_tokenize(seq!['-'] + ds) == Ok::<Seq<TokenView>, TokenError>(
            seq![TokenView::Punct(PunctKind::Minus), TokenView::Num(num_val(ds))],
        ),
{
    lemma_digit_run_bounds(ds);
    assert(digit_run(ds) == ds.len());
    assert(ds.take(ds.len() as int) =~= ds);
    assert(ds.skip(ds.len() as int) =~= Seq::<char>::empty());
    assert(is_digit(ds[0]));
    assert(!crate::lexer::is_space(ds[0]) && !crate::lexer::is_punct_char(ds[0])
        && !crate::lexer::is_alpha(ds[0]) && ds[0] != '\'' && ds[0] != '"');
    assert(crate::lexer::lex_step(ds) == Ok::<(TokenView, nat), TokenError>(
        (TokenView::Num(num_val(ds)), ds.len() as nat),
    ));
    assert(spec_tokenize(ds.skip(ds.len() as int)) == Ok::<Seq<TokenView>, TokenError>(
        Seq::<TokenView>::empty(),
    ));
    assert(seq![TokenView::Num(num_val(ds))] + Seq::<TokenView>::empty() =~= seq![
        TokenView::Num(num_val(ds)),
    ]);
    let m = seq!['-'] + ds;
    assert(m[0] == '-');
    assert(m.len() == ds.len() + 1);
    assert(m.skip(1) =~= ds);
    assert(seq![TokenView::Punct(PunctKind::Minus)] + seq![TokenView::Num(num_val(ds))] =~= seq![
        TokenView::Punct(PunctKind::Minus),
        TokenView::Num(num_val(ds)),
    ]);
}

/// The tokens of a program whose single statement returns a number
/// literal, optionally negated.
pub open spec fn return_number_tokens(name: Seq<char>, v: u32, neg: bool) -> Seq<TokenView> {
    seq![
        TokenView::Keyword(KeywordKind::Func),
        TokenView::Ident(name),
        TokenView::Punct(PunctKind::OpenParen),
        TokenView::Punct(PunctKind::CloseParen),
        TokenView::Punct(PunctKind::OpenBrace),
        TokenView::Keyword(KeywordKind::Return),
    ] + (if neg {
        seq![TokenView::Punct(PunctKind::Minus)]
    } else {
        Seq::<TokenView>::empty()
    }) + seq![
        TokenView::Num(v),
        TokenView::Punct(PunctKind::SemiColon),
        TokenView::Punct(PunctKind::CloseBrace),
    ]
}

/// The expression such a program returns.
pub open spec fn return_number_expr(v: u32, neg: bool) -> Expr {
    if neg {
        Expr::UnOp { kind: UnOpKind::Neg, operand: Box::new(Expr::Num(v)) }
    } else {
        Expr::Num(v)
    }
}

/// Parsing a `return` of an optionally negated number literal yields
/// exactly that one-statement definition, and its execution exits with
/// the literal's value (negated if so written) reduced modulo 256 in
/// two's complement.
pub proof fn lemma_return_number_program(name: Seq<char>, v: u32, neg: bool)
    ensures
        spec_parse(return_number_tokens(name, v, neg)) == Ok::<DefnView, ParseErrorView>(
            DefnView { name, stmts: seq![Stmt::Return(return_number_expr(v, neg))] },
        ),
        exit_code(DefnView { name, stmts: seq![Stmt::Return(return_number_expr(v, neg))] })
            == Some(
            low_byte(wrap64(if neg {
                -(v as int)
            } else {
                v as int
            })),
        ),
{
    let ts = return_number_tokens(name, v, neg);
    let e = return_number_expr(v, neg);
    let base: nat = if neg { 7 } else { 6 };
    assert(ts.len() == base + 3);
    assert(ts[0] == TokenView::Keyword(KeywordKind::Func));
    assert(ts[1] == TokenView::Ident(name));
    assert(ts[2] == TokenView::Punct(PunctKind::OpenParen));
    assert(ts[3] == TokenView::Punct(PunctKind::CloseParen));
    assert(ts[4] == TokenView::Punct(PunctKind::OpenBrace));
    assert(ts[5] == TokenView::Keyword(KeywordKind::Return));
    if neg {
        assert(ts[6] == TokenView::Punct(PunctKind::Minus));
    }
    assert(ts[base as int] == TokenView::Num(v));
    assert(ts[base as int + 1] == TokenView::Punct(PunctKind::SemiColon));
    assert(ts[base as int + 2] == TokenView::Punct(PunctKind::CloseBrace));
    assert(spec_next_ident(ts, 1) == Ok::<(Seq<char>, nat), ParseErrorView>((name, 2)));
    assert(spec_consume(ts, 2, TokenView::Punct(PunctKind::OpenParen)) == Ok::<
        nat,
        ParseErrorView,
    >(3));
    assert(spec_consume(ts, 3, TokenView::Punct(PunctKind::CloseParen)) == Ok::<
        nat,
        ParseErrorView,
    >(4));
    assert(spec_consume(ts, 4, TokenView::Punct(PunctKind::OpenBrace)) == Ok::<
        nat,
        ParseErrorView,
    >(5));
    assert(spec_parse_primary(ts, base) == Ok::<(Expr, nat), ParseErrorView>(
        (Expr::Num(v), (base + 1) as nat),
    ));
    assert(spec_parse_unary(ts, base) == Ok::<(Expr, nat), ParseErrorView>(
        (Expr::Num(v), (base + 1) as nat),
    ));
    assert(spec_parse_unary(ts, 6) == Ok::<(Expr, nat), ParseErrorView>((e, (base + 1) as nat)));
    assert(spec_mul_loop(ts, (base + 1) as nat, e) == Ok::<(Expr, nat), ParseErrorView>(
        (e, (base + 1) as nat),
    ));
    assert(spec_parse_mul(ts, 6) == Ok::<(Expr, nat), ParseErrorView>((e, (base + 1) as nat)));
    assert(spec_add_loop(ts, (base + 1) as nat, e) == Ok::<(Expr, nat), ParseErrorView>(
        (e, (base + 1) as nat),
    ));
    assert(spec_parse_add(ts, 6) == Ok::<(Expr, nat), ParseErrorView>((e, (base + 1) as nat)));
    assert(spec_parse_compare(ts, 6) == Ok::<(Expr, nat), ParseErrorView>(
        (e, (base + 1) as nat),
    ));
    assert(spec_land_loop(ts, (base + 1) as nat, e) == Ok::<(Expr, nat), ParseErrorView>(
        (e, (base + 1) as nat),
    ));
    assert(spec_parse_logic_and(ts, 6) == Ok::<(Expr, nat), ParseErrorView>(
        (e, (base + 1) as nat),
    ));
    assert(spec_lor_loop(ts, (base + 1) as nat, e) == Ok::<(Expr, nat), ParseErrorView>(
        (e, (base + 1) as nat),
    ));
    assert(spec_parse_logic_or(ts, 6) == Ok::<(Expr, nat), ParseErrorView>(
        (e, (base + 1) as nat),
    ));
    assert(spec_parse_expr(ts, 6) == Ok::<(Expr, nat), ParseErrorView>((e, (base + 1) as nat)));
    assert(spec_consume(ts, (base + 1) as nat, TokenView::Punct(PunctKind::SemiColon)) == Ok::<
        nat,
        ParseErrorView,
    >((base + 2) as nat));
    assert(spec_parse_stmt(ts, 5) == Ok::<(Stmt, nat), ParseErrorView>(
        (Stmt::Return(e), (base + 2) as nat),
    ));
    assert(spec_parse_stmts(ts, (base + 2) as nat) == Ok::<(Seq<Stmt>, nat), ParseErrorView>(
        (Seq::<Stmt>::empty(), (base + 2) as nat),
    ));
    assert(seq![Stmt::Return(e)] + Seq::<Stmt>::empty() =~= seq![Stmt::Return(e)]);
    assert(spec_parse_stmts(ts, 5) == Ok::<(Seq<Stmt>, nat), ParseErrorView>(
        (seq![Stmt::Return(e)], (base + 2) as nat),
    ));
    assert(spec_consume(ts, (base + 2) as nat, TokenView::Punct(PunctKind::CloseBrace)) == Ok::<
        nat,
        ParseErrorView,
    >((base + 3) as nat));
    assert(spec_parse_defn(ts, 0) == Ok::<DefnView, ParseErrorView>(
        DefnView { name, stmts: seq![Stmt::Return(e)] },
    ));
    let ss = seq![Stmt::Return(e)];
    assert(ss[0] == Stmt::Return(e));
    assert(eval_expr(Expr::Num(v)) == Some(v as i64));
    if neg {
        assert(eval_expr(e) == Some(wrap64(-(v as int))));
    } else {
        assert(wrap64(v as int) == v as i64) by {
            assert((v as int) % 0x1_0000_0000_0000_0000 == v as int);
        }
    }
    assert(eval_stmts(ss) == Some(wrap64(if neg {
        -(v as int)
    } else {
        v as int
    })));
}

/// The source text of a program whose single statement returns an
/// optionally negated decimal literal.
pub open spec fn numeric_program_source(ds: Seq<char>, neg: bool) -> Seq<char> {
    "func main(){return "@ + (if neg {
        seq!['-']
    } else {
        Seq::<char>::empty()
    }) + ds + ";}"@
}

/// Such a source tokenizes to exactly the expected token sequence.
#[verifier::rlimit(100)]
proof fn lemma_tokenize_numeric_program(ds: Seq<char>, neg: bool)
    requires
        ds.len() >= 1,
        forall|i: int| 0 <= i < ds.len() ==> is_digit(ds[i]),
    ensures
        spec_tokenize(numeric_program_source(ds, neg)) == Ok::<Seq<TokenView>, TokenError>(
            return_number_tokens("main"@, num_val(ds), neg),
        ),
{
    reveal_strlit("func main(){return ");
    reveal_strlit("func");
    reveal_strlit("main");
    reveal_strlit("let");
    reveal_strlit("return");
    reveal_strlit(";}");
    let p0 = "func main(){return "@;
    let sign: Seq<char> = if neg {
        seq!['-']
    } else {
        Seq::<char>::empty()
    };
    let tail = sign + ds + ";}"@;
    let src = numeric_program_source(ds, neg);
    assert(src =~= p0 + tail);
    assert(p0.len() == 19);
    assert(forall|i: int| 0 <= i < 19 ==> src[i] == p0[i]);

    let num_tail = ds + ";}"@;
    assert(";}"@.skip(1) =~= seq!['}']);
    lemma_lex_single_punct_head(seq!['}'], PunctKind::CloseBrace);
    assert(seq!['}'].skip(1) =~= Seq::<char>::empty());
    assert(spec_tokenize(seq!['}']) == Ok::<Seq<TokenView>, TokenError>(
        seq![TokenView::Punct(PunctKind::CloseBrace)],
    )) by {
        assert(seq![TokenView::Punct(PunctKind::CloseBrace)] + Seq::<TokenView>::empty() =~= seq![
            TokenView::Punct(PunctKind::CloseBrace),
        ]);
    }
    lemma_lex_single_punct_head(";}"@, PunctKind::SemiColon);
    assert(spec_tokenize(";}"@) == Ok::<Seq<TokenView>, TokenError>(
        seq![TokenView::Punct(PunctKind::SemiColon), TokenView::Punct(PunctKind::CloseBrace)],
    )) by {
        assert(seq![TokenView::Punct(PunctKind::SemiColon)] + seq![
            TokenView::Punct(PunctKind::CloseBrace),
        ] =~= seq![
            TokenView::Punct(PunctKind::SemiColon),
            TokenView::Punct(PunctKind::CloseBrace),
        ]);
    }
    assert(num_tail[ds.len() as int] == ';');
    lemma_lex_number_head(num_tail, ds.len() as nat);
    assert(num_tail.take(ds.len() as int) =~= ds);
    assert(num_tail.skip(ds.len() as int) =~= ";}"@);
    assert(spec_tokenize(num_tail) == Ok::<Seq<TokenView>, TokenError>(
        seq![
            TokenView::Num(num_val(ds)),
            TokenView::Punct(PunctKind::SemiColon),
            TokenView::Punct(PunctKind::CloseBrace),
        ],
    )) by {
        assert(seq![TokenView::Num(num_val(ds))] + seq![
            TokenView::Punct(PunctKind::SemiColon),
            TokenView::Punct(PunctKind::CloseBrace),
        ] =~= seq![
            TokenView::Num(num_val(ds)),
            TokenView::Punct(PunctKind::SemiColon),
            TokenView::Punct(PunctKind::CloseBrace),
        ]);
    }
    let tail_toks: Seq<TokenView> = (if neg {
        seq![TokenView::Punct(PunctKind::Minus)]
    } else {
        Seq::<TokenView>::empty()
    }) + seq![
        TokenView::Num(num_val(ds)),
        TokenView::Punct(PunctKind::SemiColon),
        TokenView::Punct(PunctKind::CloseBrace),
    ];
    if neg {
        assert(tail[0] == '-');
        lemma_lex_single_punct_head(tail, PunctKind::Minus);
        assert(tail.skip(1) =~= num_tail);
        assert(spec_tokenize(tail) == Ok::<Seq<TokenView>, TokenError>(tail_toks)) by {
            assert(seq![TokenView::Punct(PunctKind::Minus)] + seq![
                TokenView::Num(num_val(ds)),
                TokenView::Punct(PunctKind::SemiColon),
                TokenView::Punct(PunctKind::CloseBrace),
            ] =~= tail_toks);
        }
    } else {
        assert(tail =~= num_tail);
        assert(Seq::<TokenView>::empty() + seq![
            TokenView::Num(num_val(ds)),
            TokenView::Punct(PunctKind::SemiColon),
            TokenView::Punct(PunctKind::CloseBrace),
        ] =~= tail_toks);
        assert(spec_tokenize(tail) == Ok::<Seq<TokenView>, TokenError>(tail_toks));
    }

    // Walk the fixed prefix, token by token.
    let s6 = src.skip(12);
    assert(s6[0] == 'r' && s6[1] == 'e' && s6[2] == 't' && s6[3] == 'u' && s6[4] == 'r' && s6[5]
        == 'n' && s6[6] == ' ');
    lemma_lex_word_head(s6, 6);
    assert(s6.take(6) =~= "return"@);
    assert(word_token("return"@) == TokenView::Keyword(KeywordKind::Return));
    assert(s6.skip(6) =~= src.skip(18));
    assert(src.skip(18)[0] == ' ');
    assert(crate::lexer::is_space(' '));
    assert(src.skip(18).drop_first() =~= tail) by {
        assert(src.skip(18).drop_first() =~= src.skip(19));
        assert(src.skip(19) =~= tail);
    }
    assert(spec_tokenize(src.skip(18)) == spec_tokenize(tail));
    assert(spec_tokenize(s6) == Ok::<Seq<TokenView>, TokenError>(
        seq![TokenView::Keyword(KeywordKind::Return)] + tail_toks,
    ));
    let s5 = src.skip(11);
    assert(s5[0] == '{');
    lemma_lex_single_punct_head(s5, PunctKind::OpenBrace);
    assert(s5.skip(1) =~= s6);
    assert(spec_tokenize(s5) == Ok::<Seq<TokenView>, TokenError>(
        seq![TokenView::Punct(PunctKind::OpenBrace)] + (seq![
            TokenView::Keyword(KeywordKind::Return),
        ] + tail_toks),
    ));
    let s4 = src.skip(10);
    assert(s4[0] == ')');
    lemma_lex_single_punct_head(s4, PunctKind::CloseParen);
    assert(s4.skip(1) =~= s5);
    let s3 = src.skip(9);
    assert(s3[0] == '(');
    lemma_lex_single_punct_head(s3, PunctKind::OpenParen);
    assert(s3.skip(1) =~= s4);
    let s2 = src.skip(5);
    assert(s2[0] == 'm' && s2[1] == 'a' && s2[2] == 'i' && s2[3] == 'n' && s2[4] == '(');
    lemma_lex_word_head(s2, 4);
    assert(s2.take(4) =~= "main"@);
    assert(word_token("main"@) == TokenView::Ident("main"@)) by {
        assert("main"@ != "let"@);
        assert("main"@ != "func"@) by {
            assert("main"@[0] != "func"@[0]);
        }
        assert("main"@ != "return"@);
    }
    assert(s2.skip(4) =~= s3);
    let s1 = src.skip(4);
    assert(s1[0] == ' ');
    assert(s1.drop_first() =~= s2);
    assert(spec_tokenize(s1) == spec_tokenize(s2));
    lemma_lex_word_head(src, 4);
    assert(src.take(4) =~= "func"@);
    assert(word_token("func"@) == TokenView::Keyword(KeywordKind::Func)) by {
        assert("func"@ != "let"@);
    }
    assert(src.skip(4) =~= s1);

    let t_num = seq![
        TokenView::Num(num_val(ds)),
        TokenView::Punct(PunctKind::SemiColon),
        TokenView::Punct(PunctKind::CloseBrace),
    ];
    assert(seq![TokenView::Keyword(KeywordKind::Func)] + (seq![TokenView::Ident("main"@)] + (seq![
        TokenView::Punct(PunctKind::OpenParen),
    ] + (seq![TokenView::Punct(PunctKind::CloseParen)] + (seq![
        TokenView::Punct(PunctKind::OpenBrace),
    ] + (seq![TokenView::Keyword(KeywordKind::Return)] + tail_toks))))) =~= return_number_tokens(
        "main"@,
        num_val(ds),
        neg,
    ));
}

/// Compiling an optional leading `-` followed by digits, embedded as the
/// returned expression of a one-statement program, succeeds, and the
/// program's exit code is the denoted value modulo 256, negative values
/// wrapping as two's-complement.
pub proof fn law_numeric_literal_program(ds: Seq<char>, neg: bool)
    requires
        ds.len() >= 1,
        forall|i: int| 0 <= i < ds.len() ==> is_digit(ds[i]),
    ensures
        spec_tokenize(numeric_program_source(ds, neg)) == Ok::<Seq<TokenView>, TokenError>(
            return_number_tokens("main"@, num_val(ds), neg),
        ),
        crate::spec_compile(numeric_program_source(ds, neg)) matches Ok(_),
        exit_code(
            DefnView {
                name: "main"@,
                stmts: seq![Stmt::Return(return_number_expr(num_val(ds), neg))],
            },
        ) == Some(
            (((if neg {
                -dec_val(ds)
            } else {
                dec_val(ds)
            }) % 256) as u8),
        ),
{
    lemma_tokenize_numeric_program(ds, neg);
    lemma_return_number_program("main"@, num_val(ds), neg);
    lemma_num_val_dec(ds);
    let v = num_val(ds);
    let m32 = 0x1_0000_0000;
    let x: int = if neg {
        -(v as int)
    } else {
        v as int
    };
    lemma_wrap64_small(x);
    let dv = if neg {
        -dec_val(ds)
    } else {
        dec_val(ds)
    };
    assert(x % 256 == dv % 256) by {
        assert(256 * 0x100_0000 == m32);
        vstd::arithmetic::div_mod::lemma_mod_mod(dec_val(ds), 256, 0x100_0000);
        assert((dec_val(ds) % m32) % 256 == dec_val(ds) % 256);
        if neg {
            let q = dec_val(ds) / m32;
            assert(dec_val(ds) == m32 * q + dec_val(ds) % m32) by {
                vstd::arithmetic::div_mod::lemma_fundamental_div_mod(dec_val(ds), m32);
            }
            assert(x - dv == dec_val(ds) - (dec_val(ds) % m32));
            assert(dec_val(ds) - (dec_val(ds) % m32) == m32 * q);
            assert((x - dv) % 256 == 0) by {
                assert(0x1_0000_0000 * q == 256 * (0x100_0000 * q)) by (nonlinear_arith);
                vstd::arithmetic::div_mod::lemma_mod_multiples_basic(0x100_0000 * q, 256);
            }
            vstd::arithmetic::div_mod::lemma_mod_equivalence(x, dv, 256);
        }
    }
}

/// The digit character of a digit's value is the character itself.
proof fn lemma_digit_char_val(c: char)
    requires
        is_digit(c),
    ensures
        digit_char(digit_val(c) as nat) == c,
{
}

/// A digit other than `'0'` has a nonzero value.
proof fn lemma_digit_nonzero(c: char)
    requires
        is_digit(c),
        c != '0',
    ensures
        digit_val(c) >= 1,
{
    if c as u32 == 0x30 {
        assert(c == '0');
    }
}

/// A digit sequence with a nonzero leading digit denotes at least one,
/// and in general a nonnegative value.
proof fn lemma_dec_val_pos(ds: Seq<char>)
    requires
        forall|i: int| 0 <= i < ds.len() ==> is_digit(ds[i]),
    ensures
        dec_val(ds) >= 0,
        ds.len() >= 1 && ds[0] != '0' ==> dec_val(ds) >= 1,
    decreases ds.len(),
{
    if ds.len() > 0 {
        lemma_dec_val_pos(ds.drop_last());
        assert(is_digit(ds[0]) && is_digit(ds.last()));
        if ds.len() == 1 {
            assert(ds.last() == ds[0]);
            assert(ds.drop_last() =~= Seq::<char>::empty());
            assert(dec_val(Seq::<char>::empty()) == 0);
            assert(dec_val(ds) == digit_val(ds[0]));
            if ds[0] != '0' {
                lemma_digit_nonzero(ds[0]);
            }
        } else {
            assert(ds.drop_last()[0] == ds[0]);
            if ds[0] != '0' {
                assert(dec_val(ds) >= 10 * dec_val(ds.drop_last()));
            }
        }
    }
}

/// Rendering the denoted value of a canonically written digit sequence
/// (no redundant leading zero) reproduces the sequence itself.
proof fn lemma_dec_seq_of_val(ds: Seq<char>)
    requires
        ds.len() >= 1,
        forall|i: int| 0 <= i < ds.len() ==> is_digit(ds[i]),
        ds[0] != '0' || ds.len() == 1,
    ensures
        dec_seq(dec_val(ds) as nat) == ds,
    decreases ds.len(),
{
    lemma_dec_val_pos(ds);
    assert(is_digit(ds.last()));
    let d = digit_val(ds.last()) as int;
    if ds.len() == 1 {
        lemma_digit_char_val(ds[0]);
        assert(ds.last() == ds[0]);
        assert(ds.drop_last() =~= Seq::<char>::empty());
        assert(dec_val(Seq::<char>::empty()) == 0);
        assert(dec_val(ds) == digit_val(ds[0]));
        assert(dec_val(ds) < 10);
        assert(dec_seq(dec_val(ds) as nat) =~= ds);
    } else {
        let bl = ds.drop_last();
        assert(bl[0] == ds[0]);
        lemma_dec_val_pos(bl);
        lemma_dec_seq_of_val(bl);
        let n = dec_val(ds);
        assert(n == 10 * dec_val(bl) + d);
        assert(n >= 10);
        assert(n / 10 == dec_val(bl) && n % 10 == d) by {
            vstd::arithmetic::div_mod::lemma_fundamental_div_mod_converse(
                n,
                10,
                dec_val(bl),
                d,
            );
        }
        lemma_digit_char_val(ds.last());
        assert(dec_seq(n as nat) == dec_seq(dec_val(bl) as nat).push(ds.last()));
        assert(bl.push(ds.last()) =~= ds);
    }
}

/// The predicate keeping everything but whitespace.
pub open spec fn nonspace() -> spec_fn(char) -> bool {
    |c: char| !is_space(c)
}

/// The concatenation of the canonical textual forms of a token
/// sequence.
pub open spec fn render_all(ts: Seq<TokenView>) -> Seq<char>
    decreases ts.len(),
{
    if ts.len() == 0 {
        Seq::<char>::empty()
    } else {
        token_text(ts[0]) + render_all(ts.drop_first())
    }
}

/// A sequence without whitespace is unchanged by filtering whitespace
/// away.
proof fn lemma_filter_nonspace_id(s: Seq<char>)
    requires
        forall|i: int| 0 <= i < s.len() ==> !is_space(s[i]),
    ensures
        s.filter(nonspace()) == s,
    decreases s.len(),
{
    reveal_with_fuel(Seq::filter, 2);
    if s.len() == 0 {
        assert(s.filter(nonspace()) =~= s);
    } else {
        lemma_filter_nonspace_id(s.drop_last());
        assert(nonspace()(s.last()));
        assert(s.filter(nonspace()) =~= s);
    }
}

/// A punctuation token's canonical text is exactly the characters the
/// lexer consumed for it, none of which is whitespace or a digit.
proof fn lemma_punct_step_text(cs: Seq<char>)
    requires
        cs.len() >= 1,
        punct_step(cs) matches Ok(p) && p.1 <= cs.len(),
    ensures
        match punct_step(cs) {
            Ok((t, n)) => token_text(t) == cs.take(n as int) && forall|i: int|
                0 <= i < n ==> !is_space(#[trigger] cs[i]) && !is_digit(cs[i]),
            Err(_) => true,
        },
{
    reveal_strlit("(");
    reveal_strlit(")");
    reveal_strlit("{");
    reveal_strlit("}");
    reveal_strlit(";");
    reveal_strlit("||");
    reveal_strlit("&&");
    reveal_strlit("!");
    reveal_strlit("==");
    reveal_strlit("!=");
    reveal_strlit("<=");
    reveal_strlit("<");
    reveal_strlit(">=");
    reveal_strlit(">");
    reveal_strlit("+");
    reveal_strlit("-");
    reveal_strlit("*");
    reveal_strlit("/");
    reveal_strlit("%");
    match punct_step(cs) {
        Ok((t, n)) => {
            assert(token_text(t) =~= cs.take(n as int));
        },
        Err(_) => {},
    }
}





/// Every maximal digit run in `s` is written canonically: no redundant
/// leading zero, and a denoted value that fits the number token's width.
pub open spec fn canonical_number_runs(s: Seq<char>) -> bool {
    forall|i: int|
        0 <= i < s.len() && is_digit(s[i]) && (i == 0 || !is_digit(s[i - 1])) ==> ((s[i] != '0'
            || digit_run(#[trigger] s.skip(i)) == 1) && dec_val(
            s.skip(i).take(digit_run(s.skip(i)) as int),
        ) < 0x1_0000_0000)
}

/// Idempotence of token rendering: re-rendering every token of a
/// successful tokenization in its canonical textual form and
/// concatenating reproduces the significant lexemes of the source,
/// that is, the source with its whitespace removed. Character and
/// string literals are excluded (their canonical form drops the
/// quotes), as are numbers not written canonically (the token keeps
/// only their value).
#[verifier::rlimit(100)]
pub proof fn law_render_round_trip(s: Seq<char>, ts: Seq<TokenView>)
    requires
        spec_tokenize(s) == Ok::<Seq<TokenView>, TokenError>(ts),
        forall|i: int| 0 <= i < s.len() ==> #[trigger] s[i] != '\'' && s[i] != '"',
        canonical_number_runs(s),
    ensures
        render_all(ts) == s.filter(nonspace()),
    decreases s.len(),
{
    reveal_with_fuel(Seq::filter, 2);
    if s.len() == 0 {
        assert(ts =~= Seq::<TokenView>::empty());
        assert(s.filter(nonspace()) =~= Seq::<char>::empty());
        assert(render_all(ts) =~= Seq::<char>::empty());
    } else if is_space(s[0]) {
        let s1 = s.drop_first();
        assert(forall|i: int| 0 <= i < s1.len() ==> #[trigger] s1[i] != '\'' && s1[i] != '"')
            by {
            assert(forall|i: int| 0 <= i < s1.len() ==> #[trigger] s1[i] == s[i + 1]);
        }
        assert(canonical_number_runs(s1)) by {
            assert forall|j: int|
                0 <= j < s1.len() && is_digit(s1[j]) && (j == 0 || !is_digit(s1[j - 1]))
                    implies ((s1[j] != '0' || digit_run(#[trigger] s1.skip(j)) == 1) && dec_val(
                s1.skip(j).take(digit_run(s1.skip(j)) as int),
            ) < 0x1_0000_0000) by {
                assert(s1.skip(j) =~= s.skip(j + 1));
                assert(s1[j] == s[j + 1]);
                if j > 0 {
                    assert(s1[j - 1] == s[j]);
                }
                assert(s.skip(j + 1) == s1.skip(j));
            }
        }
        law_render_round_trip(s1, ts);
        assert(s =~= seq![s[0]] + s1);
        Seq::<char>::filter_distributes_over_add(seq![s[0]], s1, nonspace());
        assert(seq![s[0]].filter(nonspace()) =~= Seq::<char>::empty());
        assert(s.filter(nonspace()) == s1.filter(nonspace()));
    } else {
        lemma_lex_step_consumes(s);
        match lex_step(s) {
            Ok((t, n)) => {
                let taken = s.take(n as int);
                let rest = s.skip(n as int);
                match spec_tokenize(rest) {
                    Ok(ts2) => {
                        assert(ts == seq![t] + ts2);
                        // The consumed characters: the token's own text,
                        // with no whitespace among them.
                        assert(s[0] != '\'' && s[0] != '"');
                        if is_punct_char(s[0]) {
                            lemma_punct_step_text(s);
                            assert(token_text(t) == taken);
                            assert(forall|i: int|
                                0 <= i < n ==> !is_space(#[trigger] s[i]) && !is_digit(s[i]));
                        } else if crate::lexer::is_alpha(s[0]) {
                            lemma_alnum_run_bounds(s);
                            assert(n == alnum_run(s));
                            assert(forall|i: int| 0 <= i < n ==> is_alnum(#[trigger] s[i]));
                            assert(forall|i: int| 0 <= i < n ==> !is_space(#[trigger] s[i]));
                            assert(t == word_token(taken));
                            reveal_strlit("let");
                            reveal_strlit("func");
                            reveal_strlit("return");
                            assert(token_text(t) == taken);
                        } else {
                            assert(is_digit(s[0]));
                            lemma_digit_run_bounds(s);
                            assert(n == digit_run(s));
                            assert(forall|i: int| 0 <= i < n ==> is_digit(#[trigger] s[i]));
                            assert(forall|i: int| 0 <= i < n ==> !is_space(#[trigger] s[i]));
                            assert(s.skip(0) =~= s);
                            assert(digit_run(s.skip(0)) == digit_run(s));
                            assert(s.skip(0).take(digit_run(s.skip(0)) as int) == taken);
                            assert((s[0] != '0' || digit_run(s) == 1) && dec_val(taken)
                                < 0x1_0000_0000);
                            lemma_num_val_dec(taken);
                            assert(dec_val(taken) >= 0);
                            vstd::arithmetic::div_mod::lemma_small_mod(
                                dec_val(taken) as nat,
                                0x1_0000_0000,
                            );
                            assert(num_val(taken) == dec_val(taken));
                            lemma_dec_seq_of_val(taken);
                            assert(t == TokenView::Num(num_val(taken)));
                            assert(token_text(t) == dec_seq(num_val(taken) as nat));
                            assert(token_text(t) == taken);
                        }
                        // The rest of the source still meets the
                        // conditions.
                        assert(forall|i: int|
                            0 <= i < rest.len() ==> #[trigger] rest[i] != '\'' && rest[i]
                                != '"') by {
                            assert(forall|i: int|
                                0 <= i < rest.len() ==> #[trigger] rest[i] == s[i + n]);
                        }
                        assert(canonical_number_runs(rest)) by {
                            assert forall|j: int|
                                0 <= j < rest.len() && is_digit(rest[j]) && (j == 0 || !is_digit(
                                    rest[j - 1],
                                )) implies ((rest[j] != '0' || digit_run(
                                #[trigger] rest.skip(j),
                            ) == 1) && dec_val(rest.skip(j).take(digit_run(rest.skip(j)) as int))
                                < 0x1_0000_0000) by {
                                assert(rest.skip(j) =~= s.skip(n + j));
                                assert(rest[j] == s[n + j]);
                                if j > 0 {
                                    assert(rest[j - 1] == s[n + j - 1]);
                                } else {
                                    // The character before the rest is the
                                    // last consumed one, never a digit when
                                    // a digit follows.
                                    if is_punct_char(s[0]) {
                                        assert(!is_digit(s[n - 1]));
                                    } else if crate::lexer::is_alpha(s[0]) {
                                        assert(n < s.len() && !is_alnum(s[n as int]));
                                        assert(false);
                                    } else {
                                        assert(n < s.len() && !is_digit(s[n as int]));
                                        assert(false);
                                    }
                                }
                                assert(s.skip(n + j) == rest.skip(j));
                            }
                        }
                        law_render_round_trip(rest, ts2);
                        assert((seq![t] + ts2)[0] == t);
                        assert((seq![t] + ts2).drop_first() =~= ts2);
                        assert(render_all(ts) == token_text(t) + render_all(ts2));
                        assert(s =~= taken + rest);
                        Seq::<char>::filter_distributes_over_add(taken, rest, nonspace());
                        lemma_filter_nonspace_id(taken);
                        assert(s.filter(nonspace()) == taken + rest.filter(nonspace()));
                    },
                    Err(_) => {
                        assert(false);
                    },
                }
            },
            Err(_) => {
                assert(false);
            },
        }
    }
}

} // verus!
