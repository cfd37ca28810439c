//! A source-to-source translator for a small Lisp-family language.
//!
//! The pipeline is `text -> tokenize -> parse -> infer_types -> emit -> text`:
//! a scanner that classifies characters into tokens, a recursive-descent
//! parser over parenthesized S-expressions, a bottom-up type-inference pass,
//! and a syntax-directed emitter that renders the typed tree as source text
//! of a statically typed imperative target language.

use vstd::prelude::*;

pub mod ast;
pub mod codegen;
pub mod error;
pub mod number;
pub mod parser;
pub mod sexpr;
pub mod text;

verus! {

/// The whole pipeline on a character stream: scan, parse, infer, emit.
/// Failures surface as `SyntaxError` or `CodegenError`; nothing in the
/// pipeline produces an `InternalError`.
pub open spec fn translate_spec(s: Seq<char>) -> Result<Seq<char>, error::ErrV> {
    match parser::parse_source_spec(s) {
        Err(e) => Err(e),
        Ok(n) => match codegen::emit_spec(n) {
            Err(m) => Err(error::ErrV::CodegenError(m)),
            Ok(t) => Ok(t),
        },
    }
}

/// Translates source text of the Lisp-family surface language into target
/// source text: the composition of `tokenize`, `parse`, `infer_types` and
/// `generate_rust_code`, exactly as [`translate_spec`] states.
pub fn translate(input: &str) -> (r: Result<String, error::TranspilerError>)
    ensures
        ({
            let g = translate_spec(input@);
            match r {
                Ok(s) => g == Ok::<Seq<char>, error::ErrV>(s@),
                Err(e) => g == Err::<Seq<char>, error::ErrV>(e.deep_view()),
            }
        }),
        r is Err ==> (r->Err_0 is SyntaxError || r->Err_0 is CodegenError),
{
    let node = match parser::parse_shen_source(input) {
        Ok(n) => n,
        Err(e) => {
            return Err(e);
        },
    };
    codegen::generate_rust_code(&node)
}

/// A successfully parsed program always translates: after inference,
/// emission cannot fail, so the pipeline's only failures are lexical and
/// syntactic.
pub proof fn lemma_translate_total(source: Seq<char>)
    ensures
        parser::parse_source_spec(source) is Ok ==> translate_spec(source) is Ok,
{
    match parser::token::scan(source) {
        Ok(ts) => {
            match parser::parse_spec(ts) {
                Ok(_) => {
                    sexpr::lemma_parse_output_wf(source);
                    match parser::parse_expr_at(ts, 0, parser::MAX_NESTING_DEPTH as nat) {
                        Ok((n, _j)) => {
                            codegen::lemma_inferred_emits(n);
                        },
                        Err(_) => {},
                    }
                },
                Err(_) => {},
            }
        },
        Err(_) => {},
    }
}

} // verus!
