//! The lexer: source text to ordered token sequence, in one
//! left-to-right pass.
//!
//! `spec_tokenize` is the mathematical description of the whole pass;
//! [`tokenize`] is proved to return exactly its value.

use vstd::prelude::*;

use crate::data::{KeywordKind, PunctKind, Token, TokenView};
use crate::error::TokenError;

verus! {

/// Whitespace, by the Unicode `White_Space` property.
pub open spec fn is_space(c: char) -> bool {
    let u = c as u32;
    (0x09 <= u && u <= 0x0D) || u == 0x20 || u == 0x85 || u == 0xA0 || u == 0x1680 || (0x2000 <= u
        && u <= 0x200A) || u == 0x2028 || u == 0x2029 || u == 0x202F || u == 0x205F || u == 0x3000
}

/// An ASCII decimal digit.
pub open spec fn is_digit(c: char) -> bool {
    0x30 <= c as u32 && c as u32 <= 0x39
}

/// An ASCII letter.
pub open spec fn is_alpha(c: char) -> bool {
    let u = c as u32;
    (0x41 <= u && u <= 0x5A) || (0x61 <= u && u <= 0x7A)
}

/// An ASCII letter or digit.
pub open spec fn is_alnum(c: char) -> bool {
    is_alpha(c) || is_digit(c)
}

/// An ASCII punctuation character.
pub open spec fn is_punct_char(c: char) -> bool {
    let u = c as u32;
    (0x21 <= u && u <= 0x2F) || (0x3A <= u && u <= 0x40) || (0x5B <= u && u <= 0x60) || (0x7B <= u
        && u <= 0x7E)
}

/// The numeric value of a digit character.
pub open spec fn digit_val(c: char) -> u32 {
    (c as u32 - 0x30) as u32
}

/// One step of the wrapping accumulation `value = value * 10 + digit`.
pub open spec fn wrap_digit(acc: u32, c: char) -> u32 {
    (((10 * acc) + digit_val(c)) % 0x1_0000_0000) as u32
}

/// The value accumulated over `ds`, starting from `acc`, wrapping at
/// the width of `u32`.
pub open spec fn num_val_from(ds: Seq<char>, acc: u32) -> u32
    decreases ds.len(),
{
    if ds.len() == 0 {
        acc
    } else {
        num_val_from(ds.drop_first(), wrap_digit(acc, ds[0]))
    }
}

/// The (wrapping) value of a digit run.
pub open spec fn num_val(ds: Seq<char>) -> u32 {
    num_val_from(ds, 0)
}

/// Length of the maximal leading run of letters and digits.
pub open spec fn alnum_run(cs: Seq<char>) -> nat
    decreases cs.len(),
{
    if cs.len() > 0 && is_alnum(cs[0]) {
        1 + alnum_run(cs.drop_first())
    } else {
        0
    }
}

/// Length of the maximal leading run of digits.
pub open spec fn digit_run(cs: Seq<char>) -> nat
    decreases cs.len(),
{
    if cs.len() > 0 && is_digit(cs[0]) {
        1 + digit_run(cs.drop_first())
    } else {
        0
    }
}

/// Position of the first double quote in `cs`, if any.
pub open spec fn find_quote(cs: Seq<char>) -> Option<nat>
    decreases cs.len(),
{
    if cs.len() == 0 {
        None
    } else if cs[0] == '"' {
        Some(0nat)
    } else {
        match find_quote(cs.drop_first()) {
            Some(i) => Some((i + 1) as nat),
            None => None,
        }
    }
}

/// The token for a maximal alphanumeric word: a keyword if it is spelled
/// like one, an identifier otherwise.
pub open spec fn word_token(w: Seq<char>) -> TokenView {
    if w == "let"@ {
        TokenView::Keyword(KeywordKind::Let)
    } else if w == "func"@ {
        TokenView::Keyword(KeywordKind::Func)
    } else if w == "return"@ {
        TokenView::Keyword(KeywordKind::Return)
    } else {
        TokenView::Ident(w)
    }
}

/// One punctuation token read from the head of `cs`, together with how
/// many characters it consumes. Two-character symbols are recognized by
/// one character of lookahead.
pub open spec fn punct_step(cs: Seq<char>) -> Result<(TokenView, nat), TokenError> {
    let c = cs[0];
    if c == '(' {
        Ok((TokenView::Punct(PunctKind::OpenParen), 1nat))
    } else if c == ')' {
        Ok((TokenView::Punct(PunctKind::CloseParen), 1nat))
    } else if c == '{' {
        Ok((TokenView::Punct(PunctKind::OpenBrace), 1nat))
    } else if c == '}' {
        Ok((TokenView::Punct(PunctKind::CloseBrace), 1nat))
    } else if c == ';' {
        Ok((TokenView::Punct(PunctKind::SemiColon), 1nat))
    } else if c == '+' {
        Ok((TokenView::Punct(PunctKind::Plus), 1nat))
    } else if c == '-' {
        Ok((TokenView::Punct(PunctKind::Minus), 1nat))
    } else if c == '*' {
        Ok((TokenView::Punct(PunctKind::Asterisk), 1nat))
    } else if c == '/' {
        Ok((TokenView::Punct(PunctKind::Slash), 1nat))
    } else if c == '%' {
        Ok((TokenView::Punct(PunctKind::Percent), 1nat))
    } else if c == '|' {
        if cs.len() >= 2 && cs[1] == '|' {
            Ok((TokenView::Punct(PunctKind::VertVert), 2nat))
        } else {
            Err(TokenError::InvalidPunct('|'))
        }
    } else if c == '&' {
        if cs.len() >= 2 && cs[1] == '&' {
            Ok((TokenView::Punct(PunctKind::AndAnd), 2nat))
        } else {
            Err(TokenError::InvalidPunct('&'))
        }
    } else if c == '=' {
        if cs.len() >= 2 && cs[1] == '=' {
            Ok((TokenView::Punct(PunctKind::EqEq), 2nat))
        } else {
            Err(TokenError::InvalidPunct('='))
        }
    } else if c == '!' {
        if cs.len() >= 2 && cs[1] == '=' {
            Ok((TokenView::Punct(PunctKind::ExEq), 2nat))
        } else {
            Ok((TokenView::Punct(PunctKind::Ex), 1nat))
        }
    } else if c == '<' {
        if cs.len() >= 2 && cs[1] == '=' {
            Ok((TokenView::Punct(PunctKind::LtEq), 2nat))
        } else {
            Ok((TokenView::Punct(PunctKind::Lt), 1nat))
        }
    } else if c == '>' {
        if cs.len() >= 2 && cs[1] == '=' {
            Ok((TokenView::Punct(PunctKind::GtEq), 2nat))
        } else {
            Ok((TokenView::Punct(PunctKind::Gt), 1nat))
        }
    } else {
        Err(TokenError::InvalidPunct(c))
    }
}

/// One token read from the head of `cs` (which must be nonempty and not
/// start with whitespace), together with how many characters it consumes.
/// The head character's class decides: quote, double quote, punctuation,
/// letter, digit; anything else is invalid.
pub open spec fn lex_step(cs: Seq<char>) -> Result<(TokenView, nat), TokenError> {
    let c = cs[0];
    if c == '\'' {
        if cs.len() >= 3 && cs[2] == '\'' {
            Ok((TokenView::Char(cs[1]), 3nat))
        } else {
            Err(TokenError::UnterminatedCharLiteral)
        }
    } else if c == '"' {
        match find_quote(cs.drop_first()) {
            Some(i) => Ok((TokenView::Str(cs.subrange(1, 1 + i as int)), (i + 2) as nat)),
            None => Err(TokenError::UnterminatedStringLiteral),
        }
    } else if is_punct_char(c) {
        punct_step(cs)
    } else if is_alpha(c) {
        Ok((word_token(cs.take(alnum_run(cs) as int)), alnum_run(cs)))
    } else if is_digit(c) {
        Ok((TokenView::Num(num_val(cs.take(digit_run(cs) as int))), digit_run(cs)))
    } else {
        Err(TokenError::InvalidChar(c))
    }
}

/// The whole tokenization of `cs`: whitespace is skipped, tokens are
/// read one [`lex_step`] at a time, and the first error aborts the pass.
pub open spec fn spec_tokenize(cs: Seq<char>) -> Result<Seq<TokenView>, TokenError>
    decreases cs.len(),
{
    if cs.len() == 0 {
        Ok(seq![])
    } else if is_space(cs[0]) {
        spec_tokenize(cs.drop_first())
    } else {
        match lex_step(cs) {
            Err(e) => Err(e),
            Ok((t, n)) => if 1 <= n && n <= cs.len() {
                match spec_tokenize(cs.skip(n as int)) {
                    Ok(ts) => Ok(seq![t] + ts),
                    Err(e) => Err(e),
                }
            } else {
                arbitrary()
            },
        }
    }
}

/// The run of letters and digits never outruns the sequence, and is
/// nonempty exactly when the head is alphanumeric.
pub proof fn lemma_alnum_run_bounds(cs: Seq<char>)
    ensures
        alnum_run(cs) <= cs.len(),
        cs.len() > 0 && is_alnum(cs[0]) ==> alnum_run(cs) >= 1,
        forall|i: int| 0 <= i < alnum_run(cs) ==> is_alnum(cs[i]),
        alnum_run(cs) < cs.len() ==> !is_alnum(cs[alnum_run(cs) as int]),
    decreases cs.len(),
{
    if cs.len() > 0 && is_alnum(cs[0]) {
        lemma_alnum_run_bounds(cs.drop_first());
        assert forall|i: int| 0 <= i < alnum_run(cs) implies is_alnum(cs[i]) by {
            if i > 0 {
                assert(is_alnum(cs.drop_first()[i - 1]));
            }
        }
        if alnum_run(cs) < cs.len() {
            assert(cs[alnum_run(cs) as int] == cs.drop_first()[alnum_run(cs.drop_first()) as int]);
        }
    }
}

/// The digit run never outruns the sequence, and is nonempty exactly
/// when the head is a digit.
pub proof fn lemma_digit_run_bounds(cs: Seq<char>)
    ensures
        digit_run(cs) <= cs.len(),
        cs.len() > 0 && is_digit(cs[0]) ==> digit_run(cs) >= 1,
        forall|i: int| 0 <= i < digit_run(cs) ==> is_digit(cs[i]),
        digit_run(cs) < cs.len() ==> !is_digit(cs[digit_run(cs) as int]),
    decreases cs.len(),
{
    if cs.len() > 0 && is_digit(cs[0]) {
        lemma_digit_run_bounds(cs.drop_first());
        assert forall|i: int| 0 <= i < digit_run(cs) implies is_digit(cs[i]) by {
            if i > 0 {
                assert(is_digit(cs.drop_first()[i - 1]));
            }
        }
        if digit_run(cs) < cs.len() {
            assert(cs[digit_run(cs) as int] == cs.drop_first()[digit_run(cs.drop_first()) as int]);
        }
    }
}

/// `find_quote` returns the position of the first double quote:
/// in range, a quote, and nothing but non-quotes before it.
pub proof fn lemma_find_quote(cs: Seq<char>)
    ensures
        match find_quote(cs) {
            Some(i) => i < cs.len() && cs[i as int] == '"' && forall|k: int|
                0 <= k < i ==> cs[k] != '"',
            None => forall|k: int| 0 <= k < cs.len() ==> cs[k] != '"',
        },
    decreases cs.len(),
{
    if cs.len() > 0 && cs[0] != '"' {
        lemma_find_quote(cs.drop_first());
        match find_quote(cs.drop_first()) {
            Some(j) => {
                assert forall|k: int| 0 <= k < j + 1 implies cs[k] != '"' by {
                    if k > 0 {
                        assert(cs.drop_first()[k - 1] != '"');
                    }
                }
            },
            None => {
                assert forall|k: int| 0 <= k < cs.len() implies cs[k] != '"' by {
                    if k > 0 {
                        assert(cs.drop_first()[k - 1] != '"');
                    }
                }
            },
        }
    }
}

/// A successful [`lex_step`] consumes at least one and at most all of
/// the remaining characters.
pub proof fn lemma_lex_step_consumes(cs: Seq<char>)
    requires
        cs.len() > 0,
    ensures
        match lex_step(cs) {
            Ok((t, n)) => 1 <= n && n <= cs.len(),
            Err(_) => true,
        },
{
    if cs[0] == '"' {
        lemma_find_quote(cs.drop_first());
    }
    lemma_alnum_run_bounds(cs);
    lemma_digit_run_bounds(cs);
}

/// Appending one digit to a run multiplies the accumulated value by ten
/// and adds the digit, wrapping.
proof fn lemma_num_val_push(ds: Seq<char>, acc: u32, c: char)
    ensures
        num_val_from(ds.push(c), acc) == wrap_digit(num_val_from(ds, acc), c),
    decreases ds.len(),
{
    if ds.len() == 0 {
        assert(ds.push(c)[0] == c);
        assert(ds.push(c).drop_first() =~= Seq::<char>::empty());
        assert(num_val_from(ds.push(c), acc) == num_val_from(
            ds.push(c).drop_first(),
            wrap_digit(acc, c),
        ));
        assert(num_val_from(ds.push(c).drop_first(), wrap_digit(acc, c)) == wrap_digit(acc, c));
    } else {
        assert(ds.push(c)[0] == ds[0]);
        assert(ds.push(c).drop_first() =~= ds.drop_first().push(c));
        lemma_num_val_push(ds.drop_first(), wrap_digit(acc, ds[0]), c);
        assert(num_val_from(ds.push(c), acc) == num_val_from(
            ds.drop_first().push(c),
            wrap_digit(acc, ds[0]),
        ));
    }
}

/// The views of a sequence of tokens.
pub open spec fn tokens_view(ts: Seq<Token>) -> Seq<TokenView> {
    ts.map_values(|t: Token| t@)
}

/// The view of a tokenization result.
pub open spec fn lex_result_view(r: Result<Vec<Token>, TokenError>) -> Result<
    Seq<TokenView>,
    TokenError,
> {
    match r {
        Ok(v) => Ok(tokens_view(v@)),
        Err(e) => Err(e),
    }
}

/// Tokens already read, followed by the tokenization of the rest.
pub open spec fn lex_combine(pre: Seq<TokenView>, r: Result<Seq<TokenView>, TokenError>) -> Result<
    Seq<TokenView>,
    TokenError,
> {
    match r {
        Ok(ts) => Ok(pre + ts),
        Err(e) => Err(e),
    }
}

fn is_space_char(c: char) -> (r: bool)
    ensures
        r == is_space(c),
{
    let u = c as u32;
    (0x09 <= u && u <= 0x0D) || u == 0x20 || u == 0x85 || u == 0xA0 || u == 0x1680 || (0x2000 <= u
        && u <= 0x200A) || u == 0x2028 || u == 0x2029 || u == 0x202F || u == 0x205F || u == 0x3000
}

fn is_digit_char(c: char) -> (r: bool)
    ensures
        r == is_digit(c),
{
    let u = c as u32;
    0x30 <= u && u <= 0x39
}

fn is_alpha_char(c: char) -> (r: bool)
    ensures
        r == is_alpha(c),
{
    let u = c as u32;
    (0x41 <= u && u <= 0x5A) || (0x61 <= u && u <= 0x7A)
}

fn is_alnum_char(c: char) -> (r: bool)
    ensures
        r == is_alnum(c),
{
    is_alpha_char(c) || is_digit_char(c)
}

fn is_punct_char_exec(c: char) -> (r: bool)
    ensures
        r == is_punct_char(c),
{
    let u = c as u32;
    (0x21 <= u && u <= 0x2F) || (0x3A <= u && u <= 0x40) || (0x5B <= u && u <= 0x60) || (0x7B <= u
        && u <= 0x7E)
}

/// Tokenizes the whole source text. Returns the token sequence in source
/// order, or the first lexical error; an error aborts the pass and no
/// partial token list is returned.
pub fn tokenize(code: &str) -> (r: Result<Vec<Token>, TokenError>)
    ensures
        lex_result_view(r) == spec_tokenize(code@),
{
    let mut lexer = Lexer::new(code);
    lexer.tokenize()
}

/// Owns the single forward cursor into the source text.
struct Lexer<'a> {
    chs: &'a str,
    pos: usize,
    end: usize,
}

impl<'a> Lexer<'a> {
    spec fn wf(&self) -> bool {
        self.end == self.chs@.len() && self.pos <= self.end
    }

    /// The source text not yet consumed.
    spec fn remaining(&self) -> Seq<char> {
        self.chs@.skip(self.pos as int)
    }

    fn new(code: &'a str) -> (l: Self)
        ensures
            l.wf(),
            l.chs@ == code@,
            l.pos == 0,
    {
        Lexer { chs: code, pos: 0, end: code.unicode_len() }
    }

    fn peek_char(&self) -> (r: Option<char>)
        requires
            self.wf(),
        ensures
            match r {
                Some(c) => self.pos < self.chs@.len() && c == self.chs@[self.pos as int],
                None => self.pos == self.chs@.len(),
            },
    {
        if self.pos < self.end {
            Some(self.chs.get_char(self.pos))
        } else {
            None
        }
    }

    fn next_char(&mut self) -> (r: Option<char>)
        requires
            old(self).wf(),
        ensures
            final(self).wf(),
            final(self).chs@ == old(self).chs@,
            final(self).end == old(self).end,
            match r {
                Some(c) => old(self).pos < old(self).chs@.len() && c == old(self).chs@[old(
                    self,
                ).pos as int] && final(self).pos == old(self).pos + 1,
                None => old(self).pos == old(self).chs@.len() && final(self).pos == old(self).pos,
            },
    {
        if self.pos < self.end {
            let c = self.chs.get_char(self.pos);
            self.pos = self.pos + 1;
            Some(c)
        } else {
            None
        }
    }

    /// Reads one punctuation token, recognizing two-character symbols by
    /// one character of lookahead.
    fn read_punct(&mut self) -> (r: Result<Token, TokenError>)
        requires
            old(self).wf(),
            old(self).pos < old(self).chs@.len(),
            is_punct_char(old(self).remaining()[0]),
            old(self).remaining()[0] != '\'',
            old(self).remaining()[0] != '"',
        ensures
            final(self).wf(),
            final(self).chs@ == old(self).chs@,
            final(self).end == old(self).end,
            match punct_step(old(self).remaining()) {
                Ok((tv, n)) => r matches Ok(t) && t@ == tv && final(self).pos == old(self).pos + n,
                Err(e) => r matches Err(e2) && e2 == e,
            },
    {
        proof {
            assert(old(self).remaining()[0] == self.chs@[self.pos as int]);
        }
        let c = self.chs.get_char(self.pos);
        self.pos = self.pos + 1;
        let two = if self.pos < self.end {
            Some(self.chs.get_char(self.pos))
        } else {
            None
        };
        proof {
            if old(self).pos + 1 < old(self).chs@.len() {
                assert(old(self).remaining()[1] == old(self).chs@[old(self).pos + 1]);
            }
        }
        match c {
            '(' => Ok(Token::Punct(PunctKind::OpenParen)),
            ')' => Ok(Token::Punct(PunctKind::CloseParen)),
            '{' => Ok(Token::Punct(PunctKind::OpenBrace)),
            '}' => Ok(Token::Punct(PunctKind::CloseBrace)),
            ';' => Ok(Token::Punct(PunctKind::SemiColon)),
            '+' => Ok(Token::Punct(PunctKind::Plus)),
            '-' => Ok(Token::Punct(PunctKind::Minus)),
            '*' => Ok(Token::Punct(PunctKind::Asterisk)),
            '/' => Ok(Token::Punct(PunctKind::Slash)),
            '%' => Ok(Token::Punct(PunctKind::Percent)),
            '|' => {
                if matches!(two, Some('|')) {
                    self.pos = self.pos + 1;
                    Ok(Token::Punct(PunctKind::VertVert))
                } else {
                    Err(TokenError::InvalidPunct('|'))
                }
            },
            '&' => {
                if matches!(two, Some('&')) {
                    self.pos = self.pos + 1;
                    Ok(Token::Punct(PunctKind::AndAnd))
                } else {
                    Err(TokenError::InvalidPunct('&'))
                }
            },
            '=' => {
                if matches!(two, Some('=')) {
                    self.pos = self.pos + 1;
                    Ok(Token::Punct(PunctKind::EqEq))
                } else {
                    Err(TokenError::InvalidPunct('='))
                }
            },
            '!' => {
                if matches!(two, Some('=')) {
                    self.pos = self.pos + 1;
                    Ok(Token::Punct(PunctKind::ExEq))
                } else {
                    Ok(Token::Punct(PunctKind::Ex))
                }
            },
            '<' => {
                if matches!(two, Some('=')) {
                    self.pos = self.pos + 1;
                    Ok(Token::Punct(PunctKind::LtEq))
                } else {
                    Ok(Token::Punct(PunctKind::Lt))
                }
            },
            '>' => {
                if matches!(two, Some('=')) {
                    self.pos = self.pos + 1;
                    Ok(Token::Punct(PunctKind::GtEq))
                } else {
                    Ok(Token::Punct(PunctKind::Gt))
                }
            },
            _ => Err(TokenError::InvalidPunct(c)),
        }
    }

    /// Reads a maximal alphanumeric word and classifies it against the
    /// keyword table.
    fn read_keyword_ident(&mut self) -> (t: Token)
        requires
            old(self).wf(),
            old(self).pos < old(self).chs@.len(),
            is_alpha(old(self).remaining()[0]),
        ensures
            final(self).wf(),
            final(self).chs@ == old(self).chs@,
            final(self).end == old(self).end,
            final(self).pos == old(self).pos + alnum_run(old(self).remaining()),
            t@ == word_token(
                old(self).remaining().take(alnum_run(old(self).remaining()) as int),
            ),
    {
        let ghost rem0 = self.remaining();
        let ghost run = alnum_run(rem0);
        proof {
            lemma_alnum_run_bounds(rem0);
        }
        let start = self.pos;
        loop
            invariant
                self.wf(),
                self.chs@ == old(self).chs@,
                self.end == old(self).end,
                rem0 == old(self).remaining(),
                run == alnum_run(rem0),
                start == old(self).pos,
                start <= self.pos,
                self.pos - start <= run,
            ensures
                self.wf(),
                self.chs@ == old(self).chs@,
                self.end == old(self).end,
                start == old(self).pos,
                self.pos - start == run,
            decreases self.end - self.pos,
        {
            proof {
                lemma_alnum_run_bounds(rem0);
            }
            if self.pos < self.end {
                let c = self.chs.get_char(self.pos);
                proof {
                    assert(c == rem0[self.pos - start]);
                }
                if is_alnum_char(c) {
                    proof {
                        if self.pos - start == run {
                            assert(!is_alnum(rem0[run as int]));
                            assert(false);
                        }
                    }
                    self.pos = self.pos + 1;
                } else {
                    proof {
                        if self.pos - start < run {
                            assert(is_alnum(rem0[self.pos - start]));
                            assert(false);
                        }
                    }
                    break ;
                }
            } else {
                proof {
                    if self.pos - start < run {
                        assert(is_alnum(rem0[self.pos - start]));
                        assert(false);
                    }
                }
                break ;
            }
        }
        let w = self.chs.substring_char(start, self.pos);
        proof {
            assert(w@ =~= rem0.take(run as int));
        }
        let n = self.pos - start;
        let is_let = n == 3 && w.get_char(0) == 'l' && w.get_char(1) == 'e' && w.get_char(2) == 't';
        let is_func = n == 4 && w.get_char(0) == 'f' && w.get_char(1) == 'u' && w.get_char(2) == 'n'
            && w.get_char(3) == 'c';
        let is_return = n == 6 && w.get_char(0) == 'r' && w.get_char(1) == 'e' && w.get_char(2)
            == 't' && w.get_char(3) == 'u' && w.get_char(4) == 'r' && w.get_char(5) == 'n';
        proof {
            reveal_strlit("let");
            reveal_strlit("func");
            reveal_strlit("return");
            assert(is_let == (w@ =~= "let"@));
            assert(is_func == (w@ =~= "func"@));
            assert(is_return == (w@ =~= "return"@));
        }
        if is_let {
            Token::Keyword(KeywordKind::Let)
        } else if is_func {
            Token::Keyword(KeywordKind::Func)
        } else if is_return {
            Token::Keyword(KeywordKind::Return)
        } else {
            Token::Ident(String::from_str(w))
        }
    }

    /// Reads a maximal digit run, accumulating `value = value * 10 + digit`
    /// and wrapping silently at the width of `u32`.
    fn read_num(&mut self) -> (t: Token)
        requires
            old(self).wf(),
            old(self).pos < old(self).chs@.len(),
            is_digit(old(self).remaining()[0]),
        ensures
            final(self).wf(),
            final(self).chs@ == old(self).chs@,
            final(self).end == old(self).end,
            final(self).pos == old(self).pos + digit_run(old(self).remaining()),
            t@ == TokenView::Num(
                num_val(old(self).remaining().take(digit_run(old(self).remaining()) as int)),
            ),
    {
        let ghost rem0 = self.remaining();
        let ghost run = digit_run(rem0);
        proof {
            lemma_digit_run_bounds(rem0);
        }
        let start = self.pos;
        let mut num: u32 = 0;
        loop
            invariant
                self.wf(),
                self.chs@ == old(self).chs@,
                self.end == old(self).end,
                rem0 == old(self).remaining(),
                run == digit_run(rem0),
                start == old(self).pos,
                start <= self.pos,
                self.pos - start <= run,
                num == num_val(rem0.take(self.pos - start)),
            ensures
                self.wf(),
                self.chs@ == old(self).chs@,
                self.end == old(self).end,
                start == old(self).pos,
                self.pos - start == run,
                num == num_val(rem0.take(self.pos - start)),
            decreases self.end - self.pos,
        {
            proof {
                lemma_digit_run_bounds(rem0);
            }
            if self.pos < self.end {
                let c = self.chs.get_char(self.pos);
                proof {
                    assert(c == rem0[self.pos - start]);
                }
                if is_digit_char(c) {
                    proof {
                        if self.pos - start == run {
                            assert(!is_digit(rem0[run as int]));
                            assert(false);
                        }
                    }
                    let d = (c as u32) - 48;
                    let wide: u64 = 10u64 * (num as u64) + (d as u64);
                    let next: u32 = (wide % 0x1_0000_0000u64) as u32;
                    proof {
                        let k = self.pos - start;
                        assert(next == wrap_digit(num, c));
                        assert(rem0.take(k + 1) =~= rem0.take(k).push(rem0[k]));
                        lemma_num_val_push(rem0.take(k), 0, rem0[k]);
                    }
                    num = next;
                    self.pos = self.pos + 1;
                } else {
                    proof {
                        if self.pos - start < run {
                            assert(is_digit(rem0[self.pos - start]));
                            assert(false);
                        }
                    }
                    break ;
                }
            } else {
                proof {
                    if self.pos - start < run {
                        assert(is_digit(rem0[self.pos - start]));
                        assert(false);
                    }
                }
                break ;
            }
        }
        Token::Num(num)
    }

    /// Reads a character literal: a quote, exactly one character, and a
    /// closing quote.
    fn read_char(&mut self) -> (r: Result<Token, TokenError>)
        requires
            old(self).wf(),
            old(self).pos < old(self).chs@.len(),
            old(self).remaining()[0] == '\'',
        ensures
            final(self).wf(),
            final(self).chs@ == old(self).chs@,
            final(self).end == old(self).end,
            ({
                let rem = old(self).remaining();
                if rem.len() >= 3 && rem[2] == '\'' {
                    r matches Ok(t) && t@ == TokenView::Char(rem[1]) && final(self).pos == old(
                        self,
                    ).pos + 3
                } else {
                    r matches Err(e) && e == TokenError::UnterminatedCharLiteral
                }
            }),
    {
        proof {
            let rem = old(self).remaining();
            if old(self).pos + 1 < old(self).chs@.len() {
                assert(rem[1] == old(self).chs@[old(self).pos + 1]);
            }
            if old(self).pos + 2 < old(self).chs@.len() {
                assert(rem[2] == old(self).chs@[old(self).pos + 2]);
            }
        }
        self.next_char();
        if let Some(c) = self.next_char() {
            if let Some(q) = self.next_char() {
                if q == '\'' {
                    return Ok(Token::Char(c));
                }
            }
        }
        Err(TokenError::UnterminatedCharLiteral)
    }

    /// Reads a string literal: everything up to the next double quote.
    fn read_string(&mut self) -> (r: Result<Token, TokenError>)
        requires
            old(self).wf(),
            old(self).pos < old(self).chs@.len(),
            old(self).remaining()[0] == '"',
        ensures
            final(self).wf(),
            final(self).chs@ == old(self).chs@,
            final(self).end == old(self).end,
            match find_quote(old(self).remaining().drop_first()) {
                Some(i) => r matches Ok(t) && t@ == TokenView::Str(
                    old(self).remaining().subrange(1, 1 + i as int),
                ) && final(self).pos == old(self).pos + i + 2,
                None => r matches Err(e) && e == TokenError::UnterminatedStringLiteral,
            },
    {
        let ghost rem1 = old(self).remaining().drop_first();
        let start = self.pos + 1;
        let mut i = start;
        loop
            invariant
                self.wf(),
                self.chs@ == old(self).chs@,
                self.end == old(self).end,
                self.pos == old(self).pos,
                old(self).pos < old(self).chs@.len(),
                rem1 == old(self).remaining().drop_first(),
                start == old(self).pos + 1,
                start <= i <= self.end,
                forall|k: int| start <= k < i ==> self.chs@[k] != '"',
            ensures
                self.wf(),
                self.chs@ == old(self).chs@,
                self.end == old(self).end,
                self.pos == old(self).pos,
                start <= i <= self.end,
                forall|k: int| start <= k < i ==> self.chs@[k] != '"',
                i < self.end ==> self.chs@[i as int] == '"',
            decreases self.end - i,
        {
            if i < self.end {
                let c = self.chs.get_char(i);
                if c == '"' {
                    break ;
                }
                i = i + 1;
            } else {
                break ;
            }
        }
        proof {
            lemma_find_quote(rem1);
            assert forall|k: int| 0 <= k < i - start implies rem1[k] == self.chs@[k + start] by {}
            if i == self.end {
                if let Some(j) = find_quote(rem1) {
                    assert(rem1[j as int] == self.chs@[j + start]);
                    assert(false);
                }
            } else {
                assert(self.chs@[i as int] == '"');
                assert(rem1[i - start] == '"');
                match find_quote(rem1) {
                    Some(j) => {
                        if j < i - start {
                            assert(rem1[j as int] == self.chs@[j + start]);
                            assert(false);
                        }
                        if j > i - start {
                            assert(rem1[i - start] != '"');
                            assert(false);
                        }
                    },
                    None => {
                        assert(rem1[i - start] != '"');
                        assert(false);
                    },
                }
            }
        }
        if i == self.end {
            return Err(TokenError::UnterminatedStringLiteral);
        }
        let w = self.chs.substring_char(start, i);
        proof {
            assert(w@ =~= old(self).remaining().subrange(1, 1 + (i - start)));
        }
        self.pos = i + 1;
        Ok(Token::Str(String::from_str(w)))
    }

    /// Tokenizes the remaining input, skipping whitespace and dispatching
    /// on the class of each leading character.
    fn tokenize(&mut self) -> (r: Result<Vec<Token>, TokenError>)
        requires
            old(self).wf(),
            old(self).pos == 0,
        ensures
            lex_result_view(r) == spec_tokenize(old(self).chs@),
    {
        let ghost src = old(self).chs@;
        let mut tokens: Vec<Token> = Vec::new();
        proof {
            assert(tokens_view(tokens@) =~= Seq::<TokenView>::empty());
            assert(src.skip(0) =~= src);
        }
        loop
            invariant
                src == old(self).chs@,
                self.wf(),
                self.chs@ == src,
                spec_tokenize(src) == lex_combine(
                    tokens_view(tokens@),
                    spec_tokenize(self.remaining()),
                ),
            ensures
                self.chs@ == src,
                self.pos == self.chs@.len(),
                spec_tokenize(src) == lex_combine(
                    tokens_view(tokens@),
                    spec_tokenize(self.remaining()),
                ),
            decreases self.end - self.pos,
        {
            let ghost rem = self.remaining();
            let ghost pre = tokens_view(tokens@);
            proof {
                if rem.len() > 0 {
                    assert(rem[0] == self.chs@[self.pos as int]);
                    lemma_lex_step_consumes(rem);
                }
            }
            let c = match self.peek_char() {
                Some(c) => c,
                None => {
                    break ;
                },
            };
            if is_space_char(c) {
                self.pos = self.pos + 1;
                proof {
                    assert(self.remaining() =~= rem.drop_first());
                }
                continue ;
            }
            let tok: Token = if c == '\'' {
                match self.read_char() {
                    Ok(t) => t,
                    Err(e) => {
                        proof {
                            assert(lex_step(rem) == Err::<(TokenView, nat), TokenError>(e));
                            assert(spec_tokenize(rem) == Err::<Seq<TokenView>, TokenError>(e));
                        }
                        return Err(e);
                    },
                }
            } else if c == '"' {
                match self.read_string() {
                    Ok(t) => t,
                    Err(e) => {
                        proof {
                            assert(lex_step(rem) == Err::<(TokenView, nat), TokenError>(e));
                            assert(spec_tokenize(rem) == Err::<Seq<TokenView>, TokenError>(e));
                        }
                        return Err(e);
                    },
                }
            } else if is_punct_char_exec(c) {
                match self.read_punct() {
                    Ok(t) => t,
                    Err(e) => {
                        proof {
                            assert(lex_step(rem) == Err::<(TokenView, nat), TokenError>(e));
                            assert(spec_tokenize(rem) == Err::<Seq<TokenView>, TokenError>(e));
                        }
                        return Err(e);
                    },
                }
            } else if is_alpha_char(c) {
                self.read_keyword_ident()
            } else if is_digit_char(c) {
                self.read_num()
            } else {
                proof {
                    assert(lex_step(rem) == Err::<(TokenView, nat), TokenError>(
                        TokenError::InvalidChar(c),
                    ));
                    assert(spec_tokenize(rem) == Err::<Seq<TokenView>, TokenError>(
                        TokenError::InvalidChar(c),
                    ));
                }
                return Err(TokenError::InvalidChar(c));
            };
            proof {
                match lex_step(rem) {
                    Ok((tv, n)) => {
                        assert(tok@ == tv);
                        assert(self.remaining() =~= rem.skip(n as int));
                        assert(tokens_view(tokens@.push(tok)) =~= pre.push(tv));
                        assert(pre + seq![tv] =~= pre.push(tv));
                        match spec_tokenize(rem.skip(n as int)) {
                            Ok(ts) => {
                                assert(pre.push(tv) + ts =~= pre + (seq![tv] + ts));
                            },
                            Err(_) => {},
                        }
                    },
                    Err(_) => {
                        assert(false);
                    },
                }
            }
            tokens.push(tok);
        }
        proof {
            assert(self.remaining() =~= Seq::<char>::empty());
            assert(lex_combine(tokens_view(tokens@), spec_tokenize(self.remaining()))
                == Ok::<Seq<TokenView>, TokenError>(tokens_view(tokens@) + seq![]));
            assert(tokens_view(tokens@) + seq![] =~= tokens_view(tokens@));
        }
        Ok(tokens)
    }
}

/// A quote found in `a` is still the first quote of `a + b`.
proof fn lemma_find_quote_concat(a: Seq<char>, b: Seq<char>)
    ensures
        find_quote(a) matches Some(i) ==> find_quote(a + b) == Some(i),
    decreases a.len(),
{
    if a.len() > 0 {
        assert((a + b)[0] == a[0]);
        if a[0] != '"' {
            lemma_find_quote_concat(a.drop_first(), b);
            assert((a + b).drop_first() =~= a.drop_first() + b);
        }
    }
}

/// A run of letters and digits is unchanged by appending text that does
/// not start with a letter or digit.
proof fn lemma_alnum_run_concat(a: Seq<char>, b: Seq<char>)
    requires
        b.len() > 0,
        !is_alnum(b[0]),
    ensures
        alnum_run(a + b) == alnum_run(a),
    decreases a.len(),
{
    if a.len() == 0 {
        assert(a + b =~= b);
    } else {
        assert((a + b)[0] == a[0]);
        if is_alnum(a[0]) {
            lemma_alnum_run_concat(a.drop_first(), b);
            assert((a + b).drop_first() =~= a.drop_first() + b);
        }
    }
}

/// A digit run is unchanged by appending text that does not start with
/// a letter or digit.
proof fn lemma_digit_run_concat(a: Seq<char>, b: Seq<char>)
    requires
        b.len() > 0,
        !is_alnum(b[0]),
    ensures
        digit_run(a + b) == digit_run(a),
    decreases a.len(),
{
    if a.len() == 0 {
        assert(a + b =~= b);
    } else {
        assert((a + b)[0] == a[0]);
        if is_digit(a[0]) {
            lemma_digit_run_concat(a.drop_first(), b);
            assert((a + b).drop_first() =~= a.drop_first() + b);
        }
    }
}

/// A token successfully read from the head of `a` is read unchanged
/// from the head of `a + b`, provided `b` opens with a character that
/// can neither extend an alphanumeric run nor complete a two-character
/// punctuation symbol.
proof fn lemma_lex_step_concat(a: Seq<char>, b: Seq<char>)
    requires
        a.len() > 0,
        lex_step(a) matches Ok(p) && p.1 <= a.len(),
        b.len() > 0,
        !is_alnum(b[0]),
        b[0] != '=',
        b[0] != '|',
        b[0] != '&',
    ensures
        lex_step(a + b) == lex_step(a),
{
    let c = a[0];
    assert((a + b)[0] == c);
    if c == '\'' {
        assert(a.len() >= 3 && a[2] == '\'');
        assert((a + b)[1] == a[1] && (a + b)[2] == a[2]);
    } else if c == '"' {
        lemma_find_quote_concat(a.drop_first(), b);
        assert((a + b).drop_first() =~= a.drop_first() + b);
        match find_quote(a.drop_first()) {
            Some(i) => {
                assert((a + b).subrange(1, 1 + i as int) =~= a.subrange(1, 1 + i as int));
            },
            None => {
                assert(false);
            },
        }
    } else if is_punct_char(c) {
        if a.len() >= 2 {
            assert((a + b)[1] == a[1]);
        } else {
            assert((a + b).len() >= 2 ==> (a + b)[1] == b[0]);
        }
    } else if is_alpha(c) {
        lemma_alnum_run_concat(a, b);
        lemma_alnum_run_bounds(a);
        assert((a + b).take(alnum_run(a + b) as int) =~= a.take(alnum_run(a) as int));
    } else if is_digit(c) {
        lemma_digit_run_concat(a, b);
        lemma_digit_run_bounds(a);
        assert((a + b).take(digit_run(a + b) as int) =~= a.take(digit_run(a) as int));
    }
}

/// Tokenizing a concatenation whose first part tokenizes cleanly yields
/// that part's tokens followed by the tokenization of the rest, provided
/// the rest opens with a character that cannot merge with the first
/// part's final token.
pub proof fn lemma_tokenize_concat(a: Seq<char>, b: Seq<char>, ta: Seq<TokenView>)
    requires
        spec_tokenize(a) == Ok::<Seq<TokenView>, TokenError>(ta),
        b.len() > 0,
        !is_alnum(b[0]),
        b[0] != '=',
        b[0] != '|',
        b[0] != '&',
    ensures
        spec_tokenize(a + b) == lex_combine(ta, spec_tokenize(b)),
    decreases a.len(),
{
    if a.len() == 0 {
        assert(a + b =~= b);
        assert(ta =~= Seq::<TokenView>::empty());
        match spec_tokenize(b) {
            Ok(ts) => {
                assert(ta + ts =~= ts);
            },
            Err(_) => {},
        }
    } else if is_space(a[0]) {
        assert((a + b)[0] == a[0]);
        assert((a + b).drop_first() =~= a.drop_first() + b);
        lemma_tokenize_concat(a.drop_first(), b, ta);
    } else {
        lemma_lex_step_consumes(a);
        assert((a + b)[0] == a[0]);
        match lex_step(a) {
            Ok((t, n)) => {
                lemma_lex_step_concat(a, b);
                match spec_tokenize(a.skip(n as int)) {
                    Ok(rest) => {
                        assert(ta == seq![t] + rest);
                        lemma_tokenize_concat(a.skip(n as int), b, rest);
                        assert((a + b).skip(n as int) =~= a.skip(n as int) + b);
                        match spec_tokenize(b) {
                            Ok(tb) => {
                                assert(seq![t] + (rest + tb) =~= (seq![t] + rest) + tb);
                            },
                            Err(_) => {},
                        }
                    },
                    Err(_) => {
                        assert(false);
                    },
                }
            },
            Err(_) => {
                assert(false);
            },
        }
    }
}

/// The integer a digit sequence denotes in decimal, without wrapping.
pub open spec fn dec_val(ds: Seq<char>) -> int
    decreases ds.len(),
{
    if ds.len() == 0 {
        0
    } else {
        10 * dec_val(ds.drop_last()) + digit_val(ds.last())
    }
}

/// The wrapping accumulation computes the denoted value modulo the
/// width of `u32`.
pub proof fn lemma_num_val_dec(ds: Seq<char>)
    requires
        forall|i: int| 0 <= i < ds.len() ==> is_digit(ds[i]),
    ensures
        num_val(ds) == dec_val(ds) % 0x1_0000_0000,
        dec_val(ds) >= 0,
    decreases ds.len(),
{
    if ds.len() == 0 {
    } else {
        let bl = ds.drop_last();
        lemma_num_val_dec(bl);
        assert(ds =~= bl.push(ds.last()));
        lemma_num_val_push(bl, 0, ds.last());
        let a = dec_val(bl);
        let d = digit_val(ds.last()) as int;
        let m = 0x1_0000_0000;
        vstd::arithmetic::div_mod::lemma_mul_mod_noop_right(10, a, m);
        vstd::arithmetic::div_mod::lemma_add_mod_noop(10 * a, d, m);
        vstd::arithmetic::div_mod::lemma_mod_twice(10 * a + d, m);
        assert((10 * (a % m) + d) % m == (10 * a + d) % m) by {
            vstd::arithmetic::div_mod::lemma_mul_mod_noop_right(10, a, m);
            vstd::arithmetic::div_mod::lemma_add_mod_noop(10 * (a % m), d, m);
            vstd::arithmetic::div_mod::lemma_add_mod_noop(10 * a, d, m);
            vstd::arithmetic::div_mod::lemma_mod_twice(d, m);
        }
    }
}

/// A maximal alphanumeric word of length `k` at the head of `cs` is
/// read as one keyword or identifier token.
pub proof fn lemma_lex_word_head(cs: Seq<char>, k: nat)
    requires
        1 <= k <= cs.len(),
        is_alpha(cs[0]),
        forall|i: int| 0 <= i < k ==> is_alnum(cs[i]),
        k < cs.len() ==> !is_alnum(cs[k as int]),
    ensures
        spec_tokenize(cs) == lex_combine(
            seq![word_token(cs.take(k as int))],
            spec_tokenize(cs.skip(k as int)),
        ),
{
    lemma_alnum_run_bounds(cs);
    assert(alnum_run(cs) == k) by {
        if alnum_run(cs) < k {
            assert(is_alnum(cs[alnum_run(cs) as int]));
        }
    }
    assert(lex_step(cs) == Ok::<(TokenView, nat), TokenError>(
        (word_token(cs.take(k as int)), k),
    ));
    match spec_tokenize(cs.skip(k as int)) {
        Ok(ts) => {},
        Err(_) => {},
    }
}

/// A single-character punctuation symbol at the head of `cs` is read as
/// its own token.
pub proof fn lemma_lex_single_punct_head(cs: Seq<char>, p: PunctKind)
    requires
        cs.len() >= 1,
        (cs[0] == '(' && p == PunctKind::OpenParen) || (cs[0] == ')' && p
            == PunctKind::CloseParen) || (cs[0] == '{' && p == PunctKind::OpenBrace) || (cs[0]
            == '}' && p == PunctKind::CloseBrace) || (cs[0] == ';' && p == PunctKind::SemiColon)
            || (cs[0] == '+' && p == PunctKind::Plus) || (cs[0] == '-' && p == PunctKind::Minus),
    ensures
        spec_tokenize(cs) == lex_combine(
            seq![TokenView::Punct(p)],
            spec_tokenize(cs.skip(1)),
        ),
{
    assert(lex_step(cs) == Ok::<(TokenView, nat), TokenError>((TokenView::Punct(p), 1nat)));
}

/// A maximal digit run of length `k` at the head of `cs` is read as one
/// number literal.
pub proof fn lemma_lex_number_head(cs: Seq<char>, k: nat)
    requires
        1 <= k <= cs.len(),
        forall|i: int| 0 <= i < k ==> is_digit(cs[i]),
        k < cs.len() ==> !is_digit(cs[k as int]),
    ensures
        spec_tokenize(cs) == lex_combine(
            seq![TokenView::Num(num_val(cs.take(k as int)))],
            spec_tokenize(cs.skip(k as int)),
        ),
{
    lemma_digit_run_bounds(cs);
    assert(digit_run(cs) == k) by {
        if digit_run(cs) < k {
            assert(is_digit(cs[digit_run(cs) as int]));
        }
    }
    assert(lex_step(cs) == Ok::<(TokenView, nat), TokenError>(
        (TokenView::Num(num_val(cs.take(k as int))), k),
    ));
}

} // verus!
