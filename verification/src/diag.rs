//! Diagnostics: what the lexer and the parser report of a source that is not
//! well formed.
use crate::types::{ascii, text, Span};
use vstd::prelude::*;

verus! {

/// What is wrong at a place in the source.
#[derive(Clone, Copy, Debug, PartialEq, Eq, Structural)]
pub enum Problem {
    /// A character that begins no token.
    UnexpectedCharacter,
    /// A string without its closing quote.
    UnterminatedString,
    /// A block comment without its end.
    UnterminatedComment,
    /// A numeric literal too large to hold.
    NumberOutOfRange,
    /// Something else stands where an expression must begin.
    ExpectedExpression,
    /// Something else stands where a name must stand.
    ExpectedIdentifier,
    /// Something else stands where this closing delimiter must stand.
    ExpectedClosing(char),
    /// Something else stands where this opening delimiter must stand.
    ExpectedOpening(char),
    /// Something else stands where a `:` must stand.
    ExpectedColon,
    /// Something else stands where an object's key must stand.
    ExpectedKey,
    /// Something else stands where the statement must end.
    ExpectedTerminator,
}

/// The parts of the grammar that a diagnostic can name as its context.
#[derive(Clone, Copy, Debug, PartialEq, Eq, Structural)]
pub enum Production {
    Expression,
    Statement,
    Block,
    Arguments,
    Vector,
    Object,
    Parameters,
}

/// One diagnostic: what is wrong, where, and inside which parts of the
/// grammar, innermost first.
#[derive(Debug, PartialEq)]
pub struct Diagnostic {
    pub problem: Problem,
    pub span: Span,
    pub contexts: Vec<(Production, Span)>,
}

/// The model of a diagnostic.
pub ghost struct DiagnosticV {
    pub problem: Problem,
    pub span: Span,
    pub contexts: Seq<(Production, Span)>,
}

impl View for Diagnostic {
    type V = DiagnosticV;

    open spec fn view(&self) -> DiagnosticV {
        DiagnosticV { problem: self.problem, span: self.span, contexts: self.contexts@ }
    }
}

/// The models of a sequence of diagnostics.
pub open spec fn diagnostics_view(s: Seq<Diagnostic>) -> Seq<DiagnosticV> {
    Seq::new(s.len(), |i: int| s[i]@)
}

/// A delimiter as it is written in a message.
pub open spec fn delimiter_text(c: char) -> Seq<u8> {
    if c == '(' {
        ascii("'('"@)
    } else if c == ')' {
        ascii("')'"@)
    } else if c == '[' {
        ascii("'['"@)
    } else if c == ']' {
        ascii("']'"@)
    } else if c == '{' {
        ascii("'{'"@)
    } else if c == '}' {
        ascii("'}'"@)
    } else {
        ascii("a delimiter"@)
    }
}

/// The message of a problem.
pub open spec fn problem_text(p: Problem) -> Seq<u8> {
    match p {
        Problem::UnexpectedCharacter => ascii("unexpected character"@),
        Problem::UnterminatedString => ascii("string without its closing quote"@),
        Problem::UnterminatedComment => ascii("comment without its end"@),
        Problem::NumberOutOfRange => ascii("number out of range"@),
        Problem::ExpectedExpression => ascii("expected an expression"@),
        Problem::ExpectedIdentifier => ascii("expected an identifier"@),
        Problem::ExpectedClosing(c) => ascii("expected "@) + delimiter_text(c),
        Problem::ExpectedOpening(c) => ascii("expected "@) + delimiter_text(c),
        Problem::ExpectedColon => ascii("expected ':'"@),
        Problem::ExpectedKey => ascii("expected a number or a string as key"@),
        Problem::ExpectedTerminator => ascii("expected the end of the statement"@),
    }
}

/// The name of a part of the grammar.
pub open spec fn production_text(p: Production) -> Seq<u8> {
    match p {
        Production::Expression => ascii("expression"@),
        Production::Statement => ascii("statement"@),
        Production::Block => ascii("block"@),
        Production::Arguments => ascii("arguments"@),
        Production::Vector => ascii("vector"@),
        Production::Object => ascii("object"@),
        Production::Parameters => ascii("parameters"@),
    }
}

/// A delimiter as it is written in a message.
fn delimiter_to_text(c: char) -> (r: Vec<u8>)
    ensures
        r@ == delimiter_text(c),
{
    proof {
        reveal_strlit("'('");
        reveal_strlit("')'");
        reveal_strlit("'['");
        reveal_strlit("']'");
        reveal_strlit("'{'");
        reveal_strlit("'}'");
        reveal_strlit("a delimiter");
    }
    if c == '(' {
        text("'('")
    } else if c == ')' {
        text("')'")
    } else if c == '[' {
        text("'['")
    } else if c == ']' {
        text("']'")
    } else if c == '{' {
        text("'{'")
    } else if c == '}' {
        text("'}'")
    } else {
        text("a delimiter")
    }
}

impl Problem {
    /// The message of the problem.
    pub fn message(&self) -> (r: Vec<u8>)
        ensures
            r@ == problem_text(*self),
    {
        proof {
            reveal_strlit("unexpected character");
            reveal_strlit("string without its closing quote");
            reveal_strlit("comment without its end");
            reveal_strlit("number out of range");
            reveal_strlit("expected an expression");
            reveal_strlit("expected an identifier");
            reveal_strlit("expected ");
            reveal_strlit("expected ':'");
            reveal_strlit("expected a number or a string as key");
            reveal_strlit("expected the end of the statement");
        }
        match self {
            Problem::UnexpectedCharacter => text("unexpected character"),
            Problem::UnterminatedString => text("string without its closing quote"),
            Problem::UnterminatedComment => text("comment without its end"),
            Problem::NumberOutOfRange => text("number out of range"),
            Problem::ExpectedExpression => text("expected an expression"),
            Problem::ExpectedIdentifier => text("expected an identifier"),
            Problem::ExpectedClosing(c) => {
                let mut out = text("expected ");
                crate::types::push_bytes(&mut out, &delimiter_to_text(*c));
                out
            },
            Problem::ExpectedOpening(c) => {
                let mut out = text("expected ");
                crate::types::push_bytes(&mut out, &delimiter_to_text(*c));
                out
            },
            Problem::ExpectedColon => text("expected ':'"),
            Problem::ExpectedKey => text("expected a number or a string as key"),
            Problem::ExpectedTerminator => text("expected the end of the statement"),
        }
    }
}

impl Production {
    /// The name of the part of the grammar.
    pub fn label(&self) -> (r: Vec<u8>)
        ensures
            r@ == production_text(*self),
    {
        proof {
            reveal_strlit("expression");
            reveal_strlit("statement");
            reveal_strlit("block");
            reveal_strlit("arguments");
            reveal_strlit("vector");
            reveal_strlit("object");
            reveal_strlit("parameters");
        }
        match self {
            Production::Expression => text("expression"),
            Production::Statement => text("statement"),
            Production::Block => text("block"),
            Production::Arguments => text("arguments"),
            Production::Vector => text("vector"),
            Production::Object => text("object"),
            Production::Parameters => text("parameters"),
        }
    }
}

impl Clone for Diagnostic {
    fn clone(&self) -> (r: Self)
        ensures
            r@ == self@,
    {
        let mut contexts: Vec<(Production, Span)> = Vec::new();
        let mut i: usize = 0;
        while i < self.contexts.len()
            invariant
                i <= self.contexts.len(),
                contexts@ == self.contexts@.subrange(0, i as int),
            decreases self.contexts.len() - i,
        {
            contexts.push(self.contexts[i]);
            i = i + 1;
            assert(contexts@ =~= self.contexts@.subrange(0, i as int));
        }
        assert(self.contexts@.subrange(0, self.contexts.len() as int) =~= self.contexts@);
        Diagnostic { problem: self.problem, span: self.span, contexts }
    }
}

impl Diagnostic {
    /// The message of the diagnostic.
    pub fn message(&self) -> (r: Vec<u8>)
        ensures
            r@ == problem_text(self@.problem),
    {
        self.problem.message()
    }
}

} // verus!
