//! The statement parser: from tokens to the statements of a program.
//!
//! In this order of preference a statement is an assignment, a declaration, a
//! function definition, a `return`, a loop, a conditional, a block, or an
//! expression. It ends at a line end, at a `;`, at the end of the tokens,
//! before a closing brace, or after one.
use crate::ast::expression::{
    after_newlines, agrees, agrees_list, ahead, closer_of, closing, error_node, expression,
    expression_at, failed, failed_list, find_closing, in_bounds, is_delimiter, is_keyword,
    is_newline, is_symbol, join, joined, out_of_bounds, opens, parsed, parsed_list, peek_delimiter,
    peek_keyword, peek_newline, peek_symbol, problem, problem_at, record_once, recorded_once,
    recover, recovered, skip_newlines, span_at, span_of, tkn_at, value_node, within, inside,
    Parse, ParseList,
};
use crate::diag::{diagnostics_view, Diagnostic, DiagnosticV, Problem, Production};
use crate::types::{
    copy_bytes, names_view, nodes_view, tokens_view, Expr, ExprV, Keyword, Node, NodeV, Span,
    Symbol, Tkn, TknV, Token, TokenV, Value, ValueV,
};
use vstd::prelude::*;

verus! {

/// What parsing a list of names gave: the names and the place after them.
pub ghost struct ParseNames {
    pub names: Seq<Seq<u8>>,
    pub pos: int,
}

/// Whether a statement terminator stands at `pos`: a line end or a `;`.
pub open spec fn is_terminator(t: Seq<TokenV>, pos: int) -> bool {
    is_newline(t, pos) || is_symbol(t, pos, Symbol::Semicolon)
}

/// The first place from `pos` on where no terminator stands.
pub open spec fn after_terminators(t: Seq<TokenV>, pos: int) -> int
    decreases t.len() - pos,
{
    if is_terminator(t, pos) {
        after_terminators(t, pos + 1)
    } else {
        pos
    }
}

/// Whether a statement may end before `pos`: the tokens end there, a
/// terminator stands there, a closing brace stands there and the statement
/// is inside a block, or a closing brace stands just before.
pub open spec fn ends_statement(t: Seq<TokenV>, pos: int, nested: bool) -> bool {
    pos >= t.len() || is_terminator(t, pos) || (nested && is_delimiter(t, pos, '}'))
        || is_delimiter(t, pos - 1, '}')
}

/// Where parsing goes on after a statement that failed: at the first
/// terminator from `pos` on that is outside every group that is closed, or at
/// the end of the tokens.
pub open spec fn sync_from(t: Seq<TokenV>, pos: int) -> int
    decreases t.len() - pos,
{
    if pos < 0 || pos >= t.len() || is_terminator(t, pos) {
        pos
    } else {
        match t[pos].tkn {
            TknV::Delimiter(c) => if opens(c) {
                match closing(t, pos + 1, closer_of(c)) {
                    Some(m) => if pos < m < t.len() {
                        sync_from(t, m + 1)
                    } else {
                        sync_from(t, pos + 1)
                    },
                    None => sync_from(t, pos + 1),
                }
            } else {
                sync_from(t, pos + 1)
            },
            _ => sync_from(t, pos + 1),
        }
    }
}

/// The name that stands at `pos`, if an identifier stands there.
pub open spec fn name_at(t: Seq<TokenV>, pos: int) -> Option<Seq<u8>> {
    match tkn_at(t, pos) {
        Some(TknV::Identifier(name)) => Some(name),
        _ => None,
    }
}

/// The node that stands for a branch or a value that was not written.
pub open spec fn absent_node(span: Span) -> NodeV {
    NodeV { expr: ExprV::Val(ValueV::Undefined), span }
}

/// `let name` or `let name = expression`; `pos` is the place of the `let`.
pub open spec fn let_at(t: Seq<TokenV>, pos: int, end: usize, errors: Seq<DiagnosticV>) -> Parse {
    match name_at(t, pos + 1) {
        Some(name) => if is_symbol(t, pos + 2, Symbol::Assign) {
            let value = expression_at(t, pos + 3, end, errors);
            if value.failure is Some {
                value
            } else {
                parsed(
                    NodeV {
                        expr: ExprV::Let(name, Box::new(value.node)),
                        span: join(t[pos].span, value.node.span),
                    },
                    value.pos,
                    value.errors,
                )
            }
        } else {
            parsed(
                NodeV {
                    expr: ExprV::Let(name, Box::new(absent_node(t[pos + 1].span))),
                    span: join(t[pos].span, t[pos + 1].span),
                },
                pos + 2,
                errors,
            )
        },
        None => failed(
            problem_at(Problem::ExpectedIdentifier, span_at(t, pos + 1, end)),
            pos + 1,
            errors,
        ),
    }
}

/// `name = expression`; `pos` is the place of the name.
pub open spec fn assign_at(t: Seq<TokenV>, pos: int, end: usize, errors: Seq<DiagnosticV>)
    -> Parse {
    match name_at(t, pos) {
        Some(name) => {
            let value = expression_at(t, pos + 2, end, errors);
            if value.failure is Some {
                value
            } else {
                parsed(
                    NodeV {
                        expr: ExprV::Assign(name, Box::new(value.node)),
                        span: join(t[pos].span, value.node.span),
                    },
                    value.pos,
                    value.errors,
                )
            }
        },
        None => out_of_bounds(pos, end, errors),
    }
}

/// `return expression`; `pos` is the place of the `return`.
pub open spec fn return_at(t: Seq<TokenV>, pos: int, end: usize, errors: Seq<DiagnosticV>)
    -> Parse {
    let value = expression_at(t, pos + 1, end, errors);
    if value.failure is Some {
        value
    } else {
        parsed(
            NodeV {
                expr: ExprV::Return(Box::new(value.node)),
                span: join(t[pos].span, value.node.span),
            },
            value.pos,
            value.errors,
        )
    }
}

/// Names divided by `,` from `pos` on, added to those before; a `,` may
/// follow the last.
pub open spec fn params_from(t: Seq<TokenV>, pos: int, before: Seq<Seq<u8>>) -> ParseNames
    decreases t.len() - pos,
{
    match name_at(t, pos) {
        Some(name) => if is_symbol(t, pos + 1, Symbol::Comma) {
            params_from(t, pos + 2, before.push(name))
        } else {
            ParseNames { names: before.push(name), pos: pos + 1 }
        },
        None => ParseNames { names: before, pos },
    }
}

/// One statement that begins at `pos`.
pub open spec fn statement_at(t: Seq<TokenV>, pos: int, end: usize, errors: Seq<DiagnosticV>)
    -> Parse
    decreases t.len() - pos, 30nat,
{
    if !in_bounds(t, pos) {
        out_of_bounds(pos, end, errors)
    } else {
        match tkn_at(t, pos) {
            Some(TknV::Keyword(Keyword::Let)) => let_at(t, pos, end, errors),
            Some(TknV::Keyword(Keyword::Fn)) => fn_at(t, pos, end, errors),
            Some(TknV::Keyword(Keyword::Return)) => return_at(t, pos, end, errors),
            Some(TknV::Keyword(Keyword::While)) => while_at(t, pos, end, errors),
            Some(TknV::Keyword(Keyword::If)) => if_at(t, pos, end, errors),
            Some(TknV::Keyword(Keyword::Else)) => else_at(t, pos, end, errors),
            Some(TknV::Delimiter(c)) => if c == '{' {
                block_at(t, pos, end, errors)
            } else {
                expression_at(t, pos, end, errors)
            },
            Some(TknV::Identifier(_)) => if is_symbol(t, pos + 1, Symbol::Assign) {
                assign_at(t, pos, end, errors)
            } else {
                expression_at(t, pos, end, errors)
            },
            _ => expression_at(t, pos, end, errors),
        }
    }
}

/// A function definition; `pos` is the place of the `fn`. After the name and
/// the parameters in parentheses stands a block, or `=` and an expression
/// that the function returns.
pub open spec fn fn_at(t: Seq<TokenV>, pos: int, end: usize, errors: Seq<DiagnosticV>) -> Parse
    decreases t.len() - pos, 25nat,
{
    match name_at(t, pos + 1) {
        None => failed(
            problem_at(Problem::ExpectedIdentifier, span_at(t, pos + 1, end)),
            pos + 1,
            errors,
        ),
        Some(name) => if !is_delimiter(t, pos + 2, '(') {
            failed(
                problem_at(Problem::ExpectedOpening('('), span_at(t, pos + 2, end)),
                pos + 2,
                errors,
            )
        } else {
            let params = params_from(t, pos + 3, Seq::empty());
            let at_body = params.pos + 1;
            if !is_delimiter(t, params.pos, ')') || !ahead(t, pos, at_body) {
                failed(
                    within(
                        problem_at(Problem::ExpectedClosing(')'), span_at(t, params.pos, end)),
                        Production::Parameters,
                        t[pos + 2].span,
                    ),
                    params.pos,
                    errors,
                )
            } else {
                let body = if is_symbol(t, at_body, Symbol::Assign) {
                    let value = expression_at(t, at_body + 1, end, errors);
                    if value.failure is Some {
                        value
                    } else {
                        parsed(
                            NodeV {
                                expr: ExprV::Return(Box::new(value.node)),
                                span: value.node.span,
                            },
                            value.pos,
                            value.errors,
                        )
                    }
                } else if is_delimiter(t, at_body, '{') {
                    block_at(t, at_body, end, errors)
                } else {
                    failed(
                        problem_at(Problem::ExpectedOpening('{'), span_at(t, at_body, end)),
                        at_body,
                        errors,
                    )
                };
                if body.failure is Some {
                    body
                } else {
                    parsed(
                        NodeV {
                            expr: ExprV::Fn(name, params.names, Box::new(body.node)),
                            span: join(t[pos].span, body.node.span),
                        },
                        body.pos,
                        body.errors,
                    )
                }
            }
        },
    }
}

/// A loop; `pos` is the place of the `while`.
pub open spec fn while_at(t: Seq<TokenV>, pos: int, end: usize, errors: Seq<DiagnosticV>) -> Parse
    decreases t.len() - pos, 25nat,
{
    let cond = expression_at(t, pos + 1, end, errors);
    let from = after_newlines(t, cond.pos);
    if cond.failure is Some || !ahead(t, pos, from) {
        cond
    } else {
        let body = body_at(t, from, end, cond.errors);
        if body.failure is Some {
            body
        } else {
            parsed(
                NodeV {
                    expr: ExprV::While(Box::new(cond.node), Box::new(body.node)),
                    span: join(t[pos].span, body.node.span),
                },
                body.pos,
                body.errors,
            )
        }
    }
}

/// A conditional; `pos` is the place of the `if`. An `else` that follows
/// the first branch at once belongs to it.
pub open spec fn if_at(t: Seq<TokenV>, pos: int, end: usize, errors: Seq<DiagnosticV>) -> Parse
    decreases t.len() - pos, 25nat,
{
    let cond = expression_at(t, pos + 1, end, errors);
    let from = after_terminators(t, cond.pos);
    if cond.failure is Some || !ahead(t, pos, from) {
        cond
    } else {
        let then = body_at(t, from, end, cond.errors);
        if then.failure is Some || !ahead(t, pos, then.pos) {
            then
        } else {
            if_rest(t, pos, end, cond.node, then.node, then.pos, then.errors)
        }
    }
}

/// The conditional made of the three parts, with the span from the `if`
/// to its last branch.
pub open spec fn if_node(start: Span, cond: NodeV, then: NodeV, otherwise: NodeV, last: Span)
    -> NodeV {
    NodeV {
        expr: ExprV::If(Box::new(cond), Box::new(then), Box::new(otherwise)),
        span: join(start, last),
    }
}

/// What follows the first branch of the conditional that began at `start`:
/// an `else` with the other branch, or nothing.
pub open spec fn if_rest(
    t: Seq<TokenV>,
    start: int,
    end: usize,
    cond: NodeV,
    then: NodeV,
    pos: int,
    errors: Seq<DiagnosticV>,
) -> Parse
    decreases t.len() - pos, 38nat,
{
    let other = after_newlines(t, pos + 1);
    if is_keyword(t, pos, Keyword::Else) && ahead(t, pos, other) {
        let otherwise = body_at(t, other, end, errors);
        if otherwise.failure is Some {
            otherwise
        } else {
            parsed(
                if_node(t[start].span, cond, then, otherwise.node, otherwise.node.span),
                otherwise.pos,
                otherwise.errors,
            )
        }
    } else {
        parsed(
            if_node(
                t[start].span,
                cond,
                then,
                absent_node(join(t[start].span, then.span)),
                then.span,
            ),
            pos,
            errors,
        )
    }
}

/// An `else` that stands apart from its `if`; `pos` is its place.
pub open spec fn else_at(t: Seq<TokenV>, pos: int, end: usize, errors: Seq<DiagnosticV>) -> Parse
    decreases t.len() - pos, 25nat,
{
    let from = after_newlines(t, pos + 1);
    if !ahead(t, pos, from) {
        out_of_bounds(pos, end, errors)
    } else {
        let body = body_at(t, from, end, errors);
        if body.failure is Some {
            body
        } else {
            parsed(
                NodeV {
                    expr: ExprV::Else(Box::new(body.node)),
                    span: join(t[pos].span, body.node.span),
                },
                body.pos,
                body.errors,
            )
        }
    }
}

/// The body of a conditional or a loop: a block or one statement.
pub open spec fn body_at(t: Seq<TokenV>, pos: int, end: usize, errors: Seq<DiagnosticV>) -> Parse
    decreases t.len() - pos, 35nat,
{
    if is_delimiter(t, pos, '{') {
        block_at(t, pos, end, errors)
    } else {
        statement_at(t, pos, end, errors)
    }
}

/// A block; `pos` is the place of the `{`. A block with a statement that
/// fails becomes, where its closing brace is found, an error node.
pub open spec fn block_at(t: Seq<TokenV>, pos: int, end: usize, errors: Seq<DiagnosticV>) -> Parse
    decreases t.len() - pos, 25nat,
{
    if !is_delimiter(t, pos, '{') {
        out_of_bounds(pos, end, errors)
    } else {
        let list = statements_from(t, pos + 1, end, true, Seq::empty(), errors);
        let bad = match list.failure {
            Some(d) => Some(d),
            None => if is_delimiter(t, list.pos, '}') {
                None
            } else {
                Some(problem_at(Problem::ExpectedClosing('}'), span_at(t, list.pos, end)))
            },
        };
        match bad {
            None => parsed(
                NodeV { expr: ExprV::Block(list.nodes), span: join(t[pos].span, t[list.pos].span) },
                list.pos + 1,
                list.errors,
            ),
            Some(d) => recovered(
                t,
                pos,
                '}',
                Production::Block,
                errors.len() as int,
                list.errors,
                d,
            ),
        }
    }
}

/// What is wrong with the statement that was parsed from `p`, if anything:
/// its own failure, or that it does not end where it stops.
pub open spec fn flaw(t: Seq<TokenV>, p: int, end: usize, nested: bool, s: Parse) -> Option<
    DiagnosticV,
> {
    match s.failure {
        Some(d) => Some(d),
        None => if ahead(t, p, s.pos) && ends_statement(t, s.pos, nested) {
            None
        } else {
            Some(problem_at(Problem::ExpectedTerminator, span_at(t, s.pos, end)))
        },
    }
}

/// The error node that stands for the tokens from `p` up to `stop`.
pub open spec fn skipped(t: Seq<TokenV>, p: int, stop: int) -> NodeV {
    NodeV { expr: ExprV::Error, span: join(t[p].span, t[stop - 1].span) }
}

/// The diagnostics after the statement that began at `p` failed with `d`:
/// with `d` recorded, unless the statement recorded something itself.
pub open spec fn reported(
    t: Seq<TokenV>,
    p: int,
    errors: Seq<DiagnosticV>,
    mark: int,
    d: DiagnosticV,
) -> Seq<DiagnosticV> {
    recorded_once(errors, mark, within(d, Production::Statement, t[p].span))
}

/// The statements from `pos` on, added to those before: up to the end of the
/// tokens or, inside a block, up to its closing brace.
///
/// Inside a block a statement that fails makes the list fail. Outside, the
/// tokens up to the next terminator become an error node, one diagnostic is
/// recorded unless the statement recorded one already, and parsing goes on.
pub open spec fn statements_from(
    t: Seq<TokenV>,
    pos: int,
    end: usize,
    nested: bool,
    before: Seq<NodeV>,
    errors: Seq<DiagnosticV>,
) -> ParseList
    decreases t.len() - pos, 40nat,
{
    let p = after_terminators(t, pos);
    if !in_bounds(t, pos) || !(pos <= p <= t.len()) {
        parsed_list(before, pos, errors)
    } else if p >= t.len() || (nested && is_delimiter(t, p, '}')) {
        parsed_list(before, p, errors)
    } else {
        let s = statement_at(t, p, end, errors);
        match flaw(t, p, end, nested, s) {
            None => statements_from(t, s.pos, end, nested, before.push(s.node), s.errors),
            Some(d) => if nested {
                failed_list(d, p, s.errors)
            } else {
                let stop = sync_from(t, p);
                if !ahead(t, p, stop) {
                    parsed_list(before, p, s.errors)
                } else {
                    statements_from(
                        t,
                        stop,
                        end,
                        false,
                        before.push(skipped(t, p, stop)),
                        reported(t, p, s.errors, errors.len() as int, d),
                    )
                }
            },
        }
    }
}

/// The statements of a whole program, and the diagnostics of its syntax.
pub open spec fn program(t: Seq<TokenV>, end: usize) -> ParseList {
    statements_from(t, 0, end, false, Seq::empty(), Seq::empty())
}

/// Outside a block the list of statements never fails.
pub proof fn lemma_program_never_fails(
    t: Seq<TokenV>,
    pos: int,
    end: usize,
    before: Seq<NodeV>,
    errors: Seq<DiagnosticV>,
)
    ensures
        statements_from(t, pos, end, false, before, errors).failure is None,
    decreases t.len() - pos,
{
    let p = after_terminators(t, pos);
    if !in_bounds(t, pos) || !(pos <= p <= t.len()) {
    } else if p >= t.len() {
    } else {
        let s = statement_at(t, p, end, errors);
        match flaw(t, p, end, false, s) {
            None => {
                lemma_program_never_fails(t, s.pos, end, before.push(s.node), s.errors);
            },
            Some(d) => {
                let stop = sync_from(t, p);
                if ahead(t, p, stop) {
                    lemma_program_never_fails(
                        t,
                        stop,
                        end,
                        before.push(skipped(t, p, stop)),
                        reported(t, p, s.errors, errors.len() as int, d),
                    );
                }
            },
        }
    }
}

/// Whether a statement terminator stands at `pos`.
pub(crate) fn peek_terminator(tokens: &Vec<Token>, pos: usize) -> (r: bool)
    ensures
        r == is_terminator(tokens_view(tokens@), pos as int),
{
    peek_newline(tokens, pos) || peek_symbol(tokens, pos, Symbol::Semicolon)
}

/// The first place from `pos` on where no terminator stands.
pub(crate) fn skip_terminators(tokens: &Vec<Token>, pos: usize) -> (r: usize)
    requires
        pos <= tokens.len(),
    ensures
        r == after_terminators(tokens_view(tokens@), pos as int),
        pos <= r <= tokens.len(),
        !is_terminator(tokens_view(tokens@), r as int),
{
    let mut p = pos;
    while peek_terminator(tokens, p)
        invariant
            pos <= p <= tokens.len(),
            after_terminators(tokens_view(tokens@), pos as int) == after_terminators(
                tokens_view(tokens@),
                p as int,
            ),
        decreases tokens.len() - p,
    {
        p = p + 1;
    }
    p
}

/// Whether a statement may end before `pos`.
fn ends_here(tokens: &Vec<Token>, pos: usize, nested: bool) -> (r: bool)
    ensures
        r == ends_statement(tokens_view(tokens@), pos as int, nested),
{
    pos >= tokens.len() || peek_terminator(tokens, pos) || (nested && peek_delimiter(
        tokens,
        pos,
        '}',
    )) || (pos > 0 && peek_delimiter(tokens, pos - 1, '}'))
}

/// Where parsing goes on after a statement that failed.
pub(crate) fn sync(tokens: &Vec<Token>, pos: usize) -> (r: usize)
    requires
        pos <= tokens.len(),
    ensures
        r == sync_from(tokens_view(tokens@), pos as int),
        pos <= r <= tokens.len(),
        pos < tokens.len() && !is_terminator(tokens_view(tokens@), pos as int) ==> pos < r,
{
    let mut p = pos;
    while p < tokens.len() && !peek_terminator(tokens, p)
        invariant
            pos <= p <= tokens.len(),
            sync_from(tokens_view(tokens@), pos as int) == sync_from(
                tokens_view(tokens@),
                p as int,
            ),
        decreases tokens.len() - p,
    {
        let next = match &tokens[p].tkn {
            Tkn::Delimiter(c) => {
                if *c == '(' || *c == '[' || *c == '{' {
                    let closer = if *c == '(' {
                        ')'
                    } else if *c == '[' {
                        ']'
                    } else {
                        '}'
                    };
                    match find_closing(tokens, p + 1, closer) {
                        Some(m) => m + 1,
                        None => p + 1,
                    }
                } else {
                    p + 1
                }
            },
            _ => p + 1,
        };
        p = next;
    }
    p
}

/// The name that stands at `pos`, if an identifier stands there.
fn name_of(tokens: &Vec<Token>, pos: usize) -> (r: Option<Vec<u8>>)
    ensures
        r matches Some(n) ==> name_at(tokens_view(tokens@), pos as int) == Some(n@) && pos
            < tokens.len(),
        r is None ==> name_at(tokens_view(tokens@), pos as int) is None,
{
    if pos >= tokens.len() {
        return None;
    }
    match &tokens[pos].tkn {
        Tkn::Identifier(name) => Some(copy_bytes(name)),
        _ => None,
    }
}

/// The node that stands for a branch or a value that was not written.
fn absent(span: Span) -> (r: Node)
    ensures
        r@ == absent_node(span),
{
    value_node(Value::Undefined, span)
}

/// `let name` or `let name = expression`.
fn parse_let(tokens: &Vec<Token>, pos: usize, end: usize, errors: &mut Vec<Diagnostic>) -> (r:
    Result<(Node, usize), Diagnostic>)
    requires
        pos < tokens.len(),
    ensures
        agrees(
            r,
            final(errors)@,
            let_at(tokens_view(tokens@), pos as int, end, diagnostics_view(old(errors)@)),
        ),
        r matches Ok((_, q)) ==> pos < q <= tokens.len(),
{
    match name_of(tokens, pos + 1) {
        Some(name) => {
            if peek_symbol(tokens, pos + 2, Symbol::Assign) {
                match expression(tokens, pos + 3, end, errors) {
                    Err(d) => Err(d),
                    Ok((value, q)) => {
                        let span = joined(tokens[pos].span, value.span);
                        Ok((Node { expr: Expr::Let(name, Box::new(value)), span }, q))
                    },
                }
            } else {
                let span = joined(tokens[pos].span, tokens[pos + 1].span);
                let value = absent(tokens[pos + 1].span);
                Ok((Node { expr: Expr::Let(name, Box::new(value)), span }, pos + 2))
            }
        },
        None => Err(problem(Problem::ExpectedIdentifier, span_of(tokens, pos + 1, end))),
    }
}

/// `name = expression`.
fn parse_assign(tokens: &Vec<Token>, pos: usize, end: usize, errors: &mut Vec<Diagnostic>) -> (r:
    Result<(Node, usize), Diagnostic>)
    requires
        pos + 1 < tokens.len(),
        name_at(tokens_view(tokens@), pos as int) is Some,
    ensures
        agrees(
            r,
            final(errors)@,
            assign_at(tokens_view(tokens@), pos as int, end, diagnostics_view(old(errors)@)),
        ),
        r matches Ok((_, q)) ==> pos < q <= tokens.len(),
{
    match name_of(tokens, pos) {
        Some(name) => {
            match expression(tokens, pos + 2, end, errors) {
                Err(d) => Err(d),
                Ok((value, q)) => {
                    let span = joined(tokens[pos].span, value.span);
                    Ok((Node { expr: Expr::Assign(name, Box::new(value)), span }, q))
                },
            }
        },
        None => Err(problem(Problem::ExpectedExpression, Span { start: end, end })),
    }
}

/// `return expression`.
fn parse_return(tokens: &Vec<Token>, pos: usize, end: usize, errors: &mut Vec<Diagnostic>) -> (r:
    Result<(Node, usize), Diagnostic>)
    requires
        pos < tokens.len(),
    ensures
        agrees(
            r,
            final(errors)@,
            return_at(tokens_view(tokens@), pos as int, end, diagnostics_view(old(errors)@)),
        ),
        r matches Ok((_, q)) ==> pos < q <= tokens.len(),
{
    match expression(tokens, pos + 1, end, errors) {
        Err(d) => Err(d),
        Ok((value, q)) => {
            let span = joined(tokens[pos].span, value.span);
            Ok((Node { expr: Expr::Return(Box::new(value)), span }, q))
        },
    }
}

/// Names divided by `,` from `pos` on.
#[verifier::loop_isolation(false)]
fn parse_params(tokens: &Vec<Token>, pos: usize) -> (r: (Vec<Vec<u8>>, usize))
    requires
        pos <= tokens.len(),
    ensures
        names_view(r.0@) == params_from(tokens_view(tokens@), pos as int, Seq::empty()).names,
        r.1 == params_from(tokens_view(tokens@), pos as int, Seq::empty()).pos,
        pos <= r.1 <= tokens.len(),
{
    let ghost t = tokens_view(tokens@);
    let mut names: Vec<Vec<u8>> = Vec::new();
    let mut p = pos;
    assert(names_view(names@) =~= Seq::empty());
    loop
        invariant
            pos <= p <= tokens.len(),
            params_from(t, pos as int, Seq::empty()) == params_from(
                t,
                p as int,
                names_view(names@),
            ),
        decreases tokens.len() - p,
    {
        match name_of(tokens, p) {
            Some(name) => {
                let ghost before = names_view(names@);
                names.push(name);
                assert(names_view(names@) =~= before.push(name@));
                if peek_symbol(tokens, p + 1, Symbol::Comma) {
                    p = p + 2;
                } else {
                    return (names, p + 1);
                }
            },
            None => {
                return (names, p);
            },
        }
    }
}

/// Parses one statement that begins at `pos`.
pub fn parse_statement(
    tokens: &Vec<Token>,
    pos: usize,
    end: usize,
    errors: &mut Vec<Diagnostic>,
) -> (r: Result<(Node, usize), Diagnostic>)
    requires
        pos <= tokens.len(),
    ensures
        agrees(
            r,
            final(errors)@,
            statement_at(tokens_view(tokens@), pos as int, end, diagnostics_view(old(errors)@)),
        ),
        r matches Ok((_, q)) ==> pos < q <= tokens.len(),
    decreases tokens.len() - pos, 30nat,
{
    if pos >= tokens.len() {
        return expression(tokens, pos, end, errors);
    }
    match &tokens[pos].tkn {
        Tkn::Keyword(k) => match k {
            Keyword::Let => parse_let(tokens, pos, end, errors),
            Keyword::Fn => parse_fn(tokens, pos, end, errors),
            Keyword::Return => parse_return(tokens, pos, end, errors),
            Keyword::While => parse_while(tokens, pos, end, errors),
            Keyword::If => parse_if(tokens, pos, end, errors),
            Keyword::Else => parse_else(tokens, pos, end, errors),
        },
        Tkn::Delimiter(c) => {
            if *c == '{' {
                parse_block(tokens, pos, end, errors)
            } else {
                expression(tokens, pos, end, errors)
            }
        },
        Tkn::Identifier(_) => {
            if peek_symbol(tokens, pos + 1, Symbol::Assign) {
                parse_assign(tokens, pos, end, errors)
            } else {
                expression(tokens, pos, end, errors)
            }
        },
        _ => expression(tokens, pos, end, errors),
    }
}

/// The body of a function that is written as `=` and an expression.
fn parse_arrow(tokens: &Vec<Token>, pos: usize, end: usize, errors: &mut Vec<Diagnostic>) -> (r:
    Result<(Node, usize), Diagnostic>)
    requires
        pos < tokens.len(),
    ensures
        ({
            let value = expression_at(
                tokens_view(tokens@),
                pos + 1,
                end,
                diagnostics_view(old(errors)@),
            );
            agrees(
                r,
                final(errors)@,
                if value.failure is Some {
                    value
                } else {
                    parsed(
                        NodeV { expr: ExprV::Return(Box::new(value.node)), span: value.node.span },
                        value.pos,
                        value.errors,
                    )
                },
            )
        }),
        r matches Ok((_, q)) ==> pos < q <= tokens.len(),
{
    match expression(tokens, pos + 1, end, errors) {
        Err(d) => Err(d),
        Ok((value, q)) => {
            let span = value.span;
            Ok((Node { expr: Expr::Return(Box::new(value)), span }, q))
        },
    }
}

/// A function definition; `pos` is the place of the `fn`.
fn parse_fn(tokens: &Vec<Token>, pos: usize, end: usize, errors: &mut Vec<Diagnostic>) -> (r:
    Result<(Node, usize), Diagnostic>)
    requires
        pos < tokens.len(),
    ensures
        agrees(
            r,
            final(errors)@,
            fn_at(tokens_view(tokens@), pos as int, end, diagnostics_view(old(errors)@)),
        ),
        r matches Ok((_, q)) ==> pos < q <= tokens.len(),
    decreases tokens.len() - pos, 25nat,
{
    let name = match name_of(tokens, pos + 1) {
        None => {
            return Err(problem(Problem::ExpectedIdentifier, span_of(tokens, pos + 1, end)));
        },
        Some(name) => name,
    };
    if !peek_delimiter(tokens, pos + 2, '(') {
        return Err(problem(Problem::ExpectedOpening('('), span_of(tokens, pos + 2, end)));
    }
    let (params, close) = parse_params(tokens, pos + 3);
    if !peek_delimiter(tokens, close, ')') {
        return Err(
            inside(
                problem(Problem::ExpectedClosing(')'), span_of(tokens, close, end)),
                Production::Parameters,
                tokens[pos + 2].span,
            ),
        );
    }
    let at_body = close + 1;
    let body = if peek_symbol(tokens, at_body, Symbol::Assign) {
        parse_arrow(tokens, at_body, end, errors)
    } else if peek_delimiter(tokens, at_body, '{') {
        parse_block(tokens, at_body, end, errors)
    } else {
        Err(problem(Problem::ExpectedOpening('{'), span_of(tokens, at_body, end)))
    };
    match body {
        Err(d) => Err(d),
        Ok((node, q)) => {
            let span = joined(tokens[pos].span, node.span);
            Ok((Node { expr: Expr::Fn(name, params, Box::new(node)), span }, q))
        },
    }
}

/// A loop; `pos` is the place of the `while`.
fn parse_while(tokens: &Vec<Token>, pos: usize, end: usize, errors: &mut Vec<Diagnostic>) -> (r:
    Result<(Node, usize), Diagnostic>)
    requires
        pos < tokens.len(),
    ensures
        agrees(
            r,
            final(errors)@,
            while_at(tokens_view(tokens@), pos as int, end, diagnostics_view(old(errors)@)),
        ),
        r matches Ok((_, q)) ==> pos < q <= tokens.len(),
    decreases tokens.len() - pos, 25nat,
{
    match expression(tokens, pos + 1, end, errors) {
        Err(d) => Err(d),
        Ok((cond, p)) => {
            let from = skip_newlines(tokens, p);
            match parse_body(tokens, from, end, errors) {
                Err(d) => Err(d),
                Ok((body, q)) => {
                    let span = joined(tokens[pos].span, body.span);
                    Ok((Node { expr: Expr::While(Box::new(cond), Box::new(body)), span }, q))
                },
            }
        },
    }
}

/// A conditional; `pos` is the place of the `if`.
fn parse_if(tokens: &Vec<Token>, pos: usize, end: usize, errors: &mut Vec<Diagnostic>) -> (r:
    Result<(Node, usize), Diagnostic>)
    requires
        pos < tokens.len(),
    ensures
        agrees(
            r,
            final(errors)@,
            if_at(tokens_view(tokens@), pos as int, end, diagnostics_view(old(errors)@)),
        ),
        r matches Ok((_, q)) ==> pos < q <= tokens.len(),
    decreases tokens.len() - pos, 25nat,
{
    match expression(tokens, pos + 1, end, errors) {
        Err(d) => Err(d),
        Ok((cond, p)) => {
            let from = skip_terminators(tokens, p);
            match parse_body(tokens, from, end, errors) {
                Err(d) => Err(d),
                Ok((then, q)) => parse_if_rest(tokens, pos, end, cond, then, q, errors),
            }
        },
    }
}

/// The conditional made of the three parts.
fn make_if(start: Span, cond: Node, then: Node, otherwise: Node, last: Span) -> (r: Node)
    ensures
        r@ == if_node(start, cond@, then@, otherwise@, last),
{
    Node {
        expr: Expr::If(Box::new(cond), Box::new(then), Box::new(otherwise)),
        span: joined(start, last),
    }
}

/// What follows the first branch of the conditional that began at `start`.
fn parse_if_rest(
    tokens: &Vec<Token>,
    start: usize,
    end: usize,
    cond: Node,
    then: Node,
    pos: usize,
    errors: &mut Vec<Diagnostic>,
) -> (r: Result<(Node, usize), Diagnostic>)
    requires
        start < pos <= tokens.len(),
    ensures
        agrees(
            r,
            final(errors)@,
            if_rest(
                tokens_view(tokens@),
                start as int,
                end,
                cond@,
                then@,
                pos as int,
                diagnostics_view(old(errors)@),
            ),
        ),
        r matches Ok((_, q)) ==> pos <= q <= tokens.len(),
    decreases tokens.len() - pos, 38nat,
{
    if peek_keyword(tokens, pos, Keyword::Else) {
        let other = skip_newlines(tokens, pos + 1);
        match parse_body(tokens, other, end, errors) {
            Err(d) => Err(d),
            Ok((otherwise, e)) => {
                let last = otherwise.span;
                Ok((make_if(tokens[start].span, cond, then, otherwise, last), e))
            },
        }
    } else {
        let last = then.span;
        let otherwise = absent(joined(tokens[start].span, last));
        Ok((make_if(tokens[start].span, cond, then, otherwise, last), pos))
    }
}

/// An `else` that stands apart from its `if`.
fn parse_else(tokens: &Vec<Token>, pos: usize, end: usize, errors: &mut Vec<Diagnostic>) -> (r:
    Result<(Node, usize), Diagnostic>)
    requires
        pos < tokens.len(),
    ensures
        agrees(
            r,
            final(errors)@,
            else_at(tokens_view(tokens@), pos as int, end, diagnostics_view(old(errors)@)),
        ),
        r matches Ok((_, q)) ==> pos < q <= tokens.len(),
    decreases tokens.len() - pos, 25nat,
{
    let from = skip_newlines(tokens, pos + 1);
    match parse_body(tokens, from, end, errors) {
        Err(d) => Err(d),
        Ok((body, q)) => {
            let span = joined(tokens[pos].span, body.span);
            Ok((Node { expr: Expr::Else(Box::new(body)), span }, q))
        },
    }
}

/// The body of a conditional or a loop.
fn parse_body(tokens: &Vec<Token>, pos: usize, end: usize, errors: &mut Vec<Diagnostic>) -> (r:
    Result<(Node, usize), Diagnostic>)
    requires
        pos <= tokens.len(),
    ensures
        agrees(
            r,
            final(errors)@,
            body_at(tokens_view(tokens@), pos as int, end, diagnostics_view(old(errors)@)),
        ),
        r matches Ok((_, q)) ==> pos < q <= tokens.len(),
    decreases tokens.len() - pos, 35nat,
{
    if peek_delimiter(tokens, pos, '{') {
        parse_block(tokens, pos, end, errors)
    } else {
        parse_statement(tokens, pos, end, errors)
    }
}

/// A block; `pos` is the place of the `{`.
fn parse_block(tokens: &Vec<Token>, pos: usize, end: usize, errors: &mut Vec<Diagnostic>) -> (r:
    Result<(Node, usize), Diagnostic>)
    requires
        pos < tokens.len(),
        is_delimiter(tokens_view(tokens@), pos as int, '{'),
    ensures
        agrees(
            r,
            final(errors)@,
            block_at(tokens_view(tokens@), pos as int, end, diagnostics_view(old(errors)@)),
        ),
        r matches Ok((_, q)) ==> pos < q <= tokens.len(),
    decreases tokens.len() - pos, 25nat,
{
    let mark = errors.len();
    let bad = match parse_statements(tokens, pos + 1, end, true, errors) {
        Err(d) => d,
        Ok((nodes, close)) => {
            if peek_delimiter(tokens, close, '}') {
                let span = joined(tokens[pos].span, tokens[close].span);
                return Ok((Node { expr: Expr::Block(nodes), span }, close + 1));
            }
            problem(Problem::ExpectedClosing('}'), span_of(tokens, close, end))
        },
    };
    recover(tokens, pos, '}', Production::Block, mark, errors, bad)
}

/// Passes over the statement that began at `p` and failed with `d`: adds an
/// error node for its tokens and reports it; gives the place to go on at.
fn give_up(
    tokens: &Vec<Token>,
    p: usize,
    mark: usize,
    nodes: &mut Vec<Node>,
    errors: &mut Vec<Diagnostic>,
    d: Diagnostic,
) -> (stop: usize)
    requires
        p < tokens.len(),
        !is_terminator(tokens_view(tokens@), p as int),
    ensures
        stop == sync_from(tokens_view(tokens@), p as int),
        p < stop <= tokens.len(),
        nodes_view(final(nodes)@) == nodes_view(old(nodes)@).push(
            skipped(tokens_view(tokens@), p as int, stop as int),
        ),
        diagnostics_view(final(errors)@) == reported(
            tokens_view(tokens@),
            p as int,
            diagnostics_view(old(errors)@),
            mark as int,
            d@,
        ),
{
    let stop = sync(tokens, p);
    let ghost before = nodes_view(nodes@);
    let node = error_node(joined(tokens[p].span, tokens[stop - 1].span));
    nodes.push(node);
    assert(nodes_view(nodes@) =~= before.push(node@));
    record_once(errors, mark, inside(d, Production::Statement, tokens[p].span));
    stop
}

/// What one round of parsing a list of statements did.
pub enum Step {
    /// A statement was added, and parsing goes on at this place.
    Next(usize),
    /// The list has ended at this place.
    Done(usize),
    /// The list has failed.
    Fail(Diagnostic),
}

/// One round of parsing a list of statements: adds the statement that begins
/// after the terminators at `cur`, or finds that the list has ended or
/// failed.
fn parse_step(
    tokens: &Vec<Token>,
    cur: usize,
    end: usize,
    nested: bool,
    nodes: &mut Vec<Node>,
    errors: &mut Vec<Diagnostic>,
) -> (r: Step)
    requires
        cur <= tokens.len(),
    ensures
        ({
            let t = tokens_view(tokens@);
            let now = statements_from(
                t,
                cur as int,
                end,
                nested,
                nodes_view(old(nodes)@),
                diagnostics_view(old(errors)@),
            );
            match r {
                Step::Next(q) => cur < q <= tokens.len() && now == statements_from(
                    t,
                    q as int,
                    end,
                    nested,
                    nodes_view(final(nodes)@),
                    diagnostics_view(final(errors)@),
                ),
                Step::Done(p) => cur <= p <= tokens.len() && now == parsed_list(
                    nodes_view(final(nodes)@),
                    p as int,
                    diagnostics_view(final(errors)@),
                ),
                Step::Fail(d) => now.failure == Some(d@) && now.errors == diagnostics_view(
                    final(errors)@,
                ),
            }
        }),
    decreases tokens.len() - cur, 39nat,
{
    let p = skip_terminators(tokens, cur);
    if p >= tokens.len() || (nested && peek_delimiter(tokens, p, '}')) {
        return Step::Done(p);
    }
    let mark = errors.len();
    let ghost before = nodes_view(nodes@);
    let outcome = match parse_statement(tokens, p, end, errors) {
        Err(d) => Err(d),
        Ok((node, q)) => {
            if ends_here(tokens, q, nested) {
                Ok((node, q))
            } else {
                Err(problem(Problem::ExpectedTerminator, span_of(tokens, q, end)))
            }
        },
    };
    match outcome {
        Ok((node, q)) => {
            nodes.push(node);
            assert(nodes_view(nodes@) =~= before.push(node@));
            Step::Next(q)
        },
        Err(d) => {
            if nested {
                return Step::Fail(d);
            }
            Step::Next(give_up(tokens, p, mark, nodes, errors, d))
        },
    }
}

/// The statements from `pos` on: up to the end of the tokens or, inside a
/// block, up to its closing brace.
pub(crate) fn parse_statements(
    tokens: &Vec<Token>,
    pos: usize,
    end: usize,
    nested: bool,
    errors: &mut Vec<Diagnostic>,
) -> (r: Result<(Vec<Node>, usize), Diagnostic>)
    requires
        pos <= tokens.len(),
    ensures
        agrees_list(
            r,
            final(errors)@,
            statements_from(
                tokens_view(tokens@),
                pos as int,
                end,
                nested,
                Seq::empty(),
                diagnostics_view(old(errors)@),
            ),
        ),
        r matches Ok((_, q)) ==> pos <= q <= tokens.len(),
    decreases tokens.len() - pos, 40nat,
{
    let mut nodes: Vec<Node> = Vec::new();
    let mut cur = pos;
    assert(nodes_view(nodes@) =~= Seq::empty());
    loop
        invariant
            pos <= cur <= tokens.len(),
            statements_from(
                tokens_view(tokens@),
                pos as int,
                end,
                nested,
                Seq::empty(),
                diagnostics_view(old(errors)@),
            ) == statements_from(
                tokens_view(tokens@),
                cur as int,
                end,
                nested,
                nodes_view(nodes@),
                diagnostics_view(errors@),
            ),
        decreases tokens.len() - cur,
    {
        match parse_step(tokens, cur, end, nested, &mut nodes, errors) {
            Step::Next(q) => {
                cur = q;
            },
            Step::Done(p) => {
                return Ok((nodes, p));
            },
            Step::Fail(d) => {
                return Err(d);
            },
        }
    }
}

/// Parses the statements of a whole program. `end` is the length of the
/// source, where a diagnostic points that finds the tokens ended.
pub fn statement(tokens: &Vec<Token>, end: usize) -> (r: (Vec<Node>, Vec<Diagnostic>))
    ensures
        nodes_view(r.0@) == program(tokens_view(tokens@), end).nodes,
        diagnostics_view(r.1@) == program(tokens_view(tokens@), end).errors,
{
    let mut errors: Vec<Diagnostic> = Vec::new();
    assert(diagnostics_view(errors@) =~= Seq::empty());
    proof {
        lemma_program_never_fails(tokens_view(tokens@), 0, end, Seq::empty(), Seq::empty());
    }
    match parse_statements(tokens, 0, end, false, &mut errors) {
        Ok((nodes, _)) => (nodes, errors),
        Err(_) => (Vec::new(), errors),
    }
}

} // verus!
