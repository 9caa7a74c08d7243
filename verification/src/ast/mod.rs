//! From source text to the syntax tree.
pub mod expression;
pub mod lex;
pub mod reports;
pub mod statement;

use crate::ast::lex::lexed;
use crate::ast::statement::program;
use crate::diag::{diagnostics_view, Diagnostic};
use crate::types::{nodes_view, tokens_view, Node, Token};
use vstd::prelude::*;

verus! {

/// Lexes a source. The tokens come back where the source has no lexical
/// error; the errors come back in any case, all of them.
pub fn lex(source: &[u8]) -> (r: (Option<Vec<Token>>, Vec<Diagnostic>))
    ensures
        diagnostics_view(r.1@) == lexed(source@).errors,
        r.0 matches Some(tokens) ==> tokens_view(tokens@) == lexed(source@).tokens,
        r.0 is Some <==> lexed(source@).errors.len() == 0,
{
    let (tokens, errors) = crate::ast::lex::lex(source);
    if errors.len() == 0 {
        (Some(tokens), errors)
    } else {
        (None, errors)
    }
}

/// Parses the tokens of a source into the statements of a program. The
/// parser recovers from every error, so the statements always come back,
/// with error nodes where the source is malformed, beside the diagnostics.
pub fn parse(tokens: &Vec<Token>, source: &[u8]) -> (r: (Option<Vec<Node>>, Vec<Diagnostic>))
    ensures
        r.0 matches Some(ast) && nodes_view(ast@) == program(
            tokens_view(tokens@),
            source.len(),
        ).nodes,
        diagnostics_view(r.1@) == program(tokens_view(tokens@), source.len()).errors,
{
    let (ast, errors) = crate::ast::statement::statement(tokens, source.len());
    (Some(ast), errors)
}

} // verus!
