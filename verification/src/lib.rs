//! A small compiler from an expression/statement language to x86-64
//! assembly (Intel syntax), built as a three-stage pipeline:
//! lexer, recursive-descent parser, and stack-machine code generator.

pub mod data;
pub mod decimal;
pub mod error;
pub mod lexer;
pub mod parser;
pub mod codegen;
pub mod laws;
pub mod semantics;

use vstd::prelude::*;

use crate::codegen::{gen_program, spec_gen_program};
use crate::error::{parse_error_text, token_error_text};
use crate::laws::lemma_parse_labels;
use crate::lexer::{spec_tokenize, tokenize, tokens_view};
use crate::parser::{parse, spec_parse};

verus! {

/// The whole pipeline: tokenization, parsing, code generation. The
/// first failing stage aborts the run with its single diagnostic.
pub open spec fn spec_compile(s: Seq<char>) -> Result<Seq<char>, Seq<char>> {
    match spec_tokenize(s) {
        Err(e) => Err("token error: "@ + token_error_text(e)),
        Ok(ts) => match spec_parse(ts) {
            Err(e) => Err("parse error: "@ + parse_error_text(e)),
            Ok(d) => Ok(spec_gen_program(d)),
        },
    }
}

/// Compiles one source text to assembly text, running lexer, parser and
/// code generator in sequence; the first failing stage stops the
/// pipeline and its diagnostic is returned.
pub fn compile(code: &str) -> (r: Result<String, String>)
    ensures
        match spec_compile(code@) {
            Ok(text) => r matches Ok(out) && out@ == text,
            Err(msg) => r matches Err(m) && m@ == msg,
        },
{
    let tokens = match tokenize(code) {
        Ok(t) => t,
        Err(e) => {
            let mut m = String::from_str("token error: ");
            let t = e.message();
            m.append(t.as_str());
            return Err(m);
        },
    };
    let ghost ts = tokens_view(tokens@);
    let n = tokens.len();
    let defn = match parse(tokens) {
        Ok(d) => d,
        Err(e) => {
            let mut m = String::from_str("parse error: ");
            let t = e.message();
            m.append(t.as_str());
            return Err(m);
        },
    };
    proof {
        lemma_parse_labels(ts);
        assert(ts.len() == n);
    }
    Ok(gen_program(defn))
}

} // verus!
