//! What the parser reports does not depend on what was reported before: the
//! diagnostics of a source are those of its statements, one after the other.
use crate::ast::expression::{
    after_newlines, ahead, atom_at, call_at, closer_of, closing, entries_at, expression_at,
    group_at, in_bounds, is_delimiter, is_keyword, is_symbol, items_at, items_rest, join, key_at,
    object_at, op_at, opens, passable, prefix_at, problem_at, recorded_once, recovered, span_at,
    tier, tier_rest, tkn_at, unary_at, unary_in, vector_at, weakest, within, Parse, ParseEntries,
    ParseList,
};
use crate::ast::statement::{
    after_terminators, assign_at, block_at, body_at, else_at, flaw, fn_at, if_at, if_rest,
    is_terminator, let_at, name_at, params_from, program, reported, return_at, skipped,
    statement_at, statements_from, sync_from, while_at,
};
use crate::diag::{DiagnosticV, Problem, Production};
use crate::interpreter::operators::with_entry;
use crate::types::{ExprV, KeyV, Keyword, NodeV, Symbol, TknV, TokenV};
use vstd::prelude::*;

verus! {

/// No diagnostics.
pub open spec fn no_reports() -> Seq<DiagnosticV> {
    Seq::empty()
}

/// What was parsed, with its diagnostics after those from before.
pub open spec fn after(e: Seq<DiagnosticV>, p: Parse) -> Parse {
    Parse { node: p.node, pos: p.pos, errors: e + p.errors, failure: p.failure }
}

/// The same for a list of nodes.
pub open spec fn after_list(e: Seq<DiagnosticV>, p: ParseList) -> ParseList {
    ParseList { nodes: p.nodes, pos: p.pos, errors: e + p.errors, failure: p.failure }
}

/// The same for the entries of an object.
pub open spec fn after_entries(e: Seq<DiagnosticV>, p: ParseEntries) -> ParseEntries {
    ParseEntries { entries: p.entries, pos: p.pos, errors: e + p.errors, failure: p.failure }
}

proof fn lemma_after(e: Seq<DiagnosticV>, a: Seq<DiagnosticV>, p: Parse)
    ensures
        after(e + a, p) == after(e, after(a, p)),
        after(no_reports(), p) == p,
        e + no_reports() == e,
{
    assert((e + a) + p.errors =~= e + (a + p.errors));
    assert(no_reports() + p.errors =~= p.errors);
    assert(e + no_reports() =~= e);
}

proof fn lemma_after_list(e: Seq<DiagnosticV>, a: Seq<DiagnosticV>, p: ParseList)
    ensures
        after_list(e + a, p) == after_list(e, after_list(a, p)),
        after_list(no_reports(), p) == p,
        e + no_reports() == e,
{
    assert((e + a) + p.errors =~= e + (a + p.errors));
    assert(no_reports() + p.errors =~= p.errors);
    assert(e + no_reports() =~= e);
}

proof fn lemma_after_entries(e: Seq<DiagnosticV>, a: Seq<DiagnosticV>, p: ParseEntries)
    ensures
        after_entries(e + a, p) == after_entries(e, after_entries(a, p)),
        after_entries(no_reports(), p) == p,
        e + no_reports() == e,
{
    assert((e + a) + p.errors =~= e + (a + p.errors));
    assert(no_reports() + p.errors =~= p.errors);
    assert(e + no_reports() =~= e);
}

/// Recovery does not depend on what was reported before the group.
pub proof fn lemma_recovered_alone(
    t: Seq<TokenV>,
    pos: int,
    closer: char,
    production: Production,
    mark: int,
    own: Seq<DiagnosticV>,
    d: DiagnosticV,
    e: Seq<DiagnosticV>,
)
    ensures
        recovered(t, pos, closer, production, e.len() + mark, e + own, d) == after(
            e,
            recovered(t, pos, closer, production, mark, own, d),
        ),
{
    let inside = within(d, production, t[pos].span);
    assert(recorded_once(e + own, e.len() + mark, inside) =~= e + recorded_once(
        own,
        mark,
        inside,
    ));
}

/// An expression is parsed, and reports, the same whatever was reported
/// before it.
pub proof fn lemma_expression_alone(t: Seq<TokenV>, pos: int, end: usize, e: Seq<DiagnosticV>)
    ensures
        expression_at(t, pos, end, e) == after(e, expression_at(t, pos, end, no_reports())),
    decreases t.len() - pos, 12nat,
{
    reveal(expression_at);
    lemma_after(e, no_reports(), expression_at(t, pos, end, no_reports()));
    if in_bounds(t, pos) {
        lemma_tier_alone(t, pos, end, weakest(), e);
    }
}

proof fn lemma_tier_alone(t: Seq<TokenV>, pos: int, end: usize, level: nat, e: Seq<DiagnosticV>)
    ensures
        tier(t, pos, end, level, e) == after(e, tier(t, pos, end, level, no_reports())),
    decreases t.len() - pos, 2 * level + 3,
{
    lemma_after(e, no_reports(), tier(t, pos, end, level, no_reports()));
    if !in_bounds(t, pos) {
    } else if level == 0 || level > weakest() {
    } else {
        if level == 1 {
            lemma_unary_alone(t, pos, end, e);
        } else {
            lemma_tier_alone(t, pos, end, (level - 1) as nat, e);
        }
        let first = if level == 1 {
            unary_at(t, pos, end, no_reports())
        } else {
            tier(t, pos, end, (level - 1) as nat, no_reports())
        };
        if first.failure is Some || !ahead(t, pos, first.pos) {
        } else {
            lemma_tier_rest_alone(t, first.node, first.pos, end, level, e + first.errors);
            lemma_tier_rest_alone(t, first.node, first.pos, end, level, first.errors);
            lemma_after(
                e,
                first.errors,
                tier_rest(t, first.node, first.pos, end, level, no_reports()),
            );
        }
    }
}

proof fn lemma_tier_rest_alone(
    t: Seq<TokenV>,
    left: NodeV,
    pos: int,
    end: usize,
    level: nat,
    e: Seq<DiagnosticV>,
)
    ensures
        tier_rest(t, left, pos, end, level, e) == after(
            e,
            tier_rest(t, left, pos, end, level, no_reports()),
        ),
    decreases t.len() - pos, 2 * level + 2,
{
    lemma_after(e, no_reports(), tier_rest(t, left, pos, end, level, no_reports()));
    match op_at(t, pos, level) {
        Some(op) => {
            if level <= 1 {
                lemma_unary_alone(t, pos + 1, end, e);
            } else {
                lemma_tier_alone(t, pos + 1, end, (level - 1) as nat, e);
            }
            let right = if level <= 1 {
                unary_at(t, pos + 1, end, no_reports())
            } else {
                tier(t, pos + 1, end, (level - 1) as nat, no_reports())
            };
            if right.failure is Some || !ahead(t, pos, right.pos) {
            } else {
                let node = NodeV {
                    expr: ExprV::BnOp(Box::new(left), op, Box::new(right.node)),
                    span: join(left.span, right.node.span),
                };
                lemma_tier_rest_alone(t, node, right.pos, end, level, e + right.errors);
                lemma_tier_rest_alone(t, node, right.pos, end, level, right.errors);
                lemma_after(e, right.errors, tier_rest(t, node, right.pos, end, level, no_reports()));
            }
        },
        None => {},
    }
}

proof fn lemma_unary_alone(t: Seq<TokenV>, pos: int, end: usize, e: Seq<DiagnosticV>)
    ensures
        unary_at(t, pos, end, e) == after(e, unary_at(t, pos, end, no_reports())),
    decreases t.len() - pos, 3nat,
{
    lemma_after(e, no_reports(), unary_at(t, pos, end, no_reports()));
    if in_bounds(t, pos) {
        lemma_unary_in_alone(t, pos, end, e);
    }
}

proof fn lemma_unary_in_alone(t: Seq<TokenV>, pos: int, end: usize, e: Seq<DiagnosticV>)
    requires
        in_bounds(t, pos),
    ensures
        unary_in(t, pos, end, e) == after(e, unary_in(t, pos, end, no_reports())),
    decreases t.len() - pos, 2nat,
{
    match prefix_at(t, pos) {
        Some(op) => {
            lemma_unary_alone(t, pos + 1, end, e);
        },
        None => {
            lemma_call_alone(t, pos, end, e);
        },
    }
}

proof fn lemma_call_alone(t: Seq<TokenV>, pos: int, end: usize, e: Seq<DiagnosticV>)
    ensures
        call_at(t, pos, end, e) == after(e, call_at(t, pos, end, no_reports())),
    decreases t.len() - pos, 1nat,
{
    lemma_atom_alone(t, pos, end, e);
    let callee = atom_at(t, pos, end, no_reports());
    if callee.failure is Some || !ahead(t, pos, callee.pos) || !is_delimiter(t, callee.pos, '(') {
    } else {
        let open = callee.pos;
        lemma_items_alone(t, open + 1, end, ')', e + callee.errors);
        lemma_items_alone(t, open + 1, end, ')', callee.errors);
        let alone = items_at(t, open + 1, end, ')', no_reports());
        lemma_after_list(e, callee.errors, alone);
        let args = items_at(t, open + 1, end, ')', callee.errors);
        let bad = match args.failure {
            Some(d) => Some(d),
            None => if is_delimiter(t, args.pos, ')') {
                None
            } else {
                Some(problem_at(Problem::ExpectedClosing(')'), span_at(t, args.pos, end)))
            },
        };
        match bad {
            None => {},
            Some(d) => {
                lemma_recovered_alone(
                    t,
                    open,
                    ')',
                    Production::Arguments,
                    callee.errors.len() as int,
                    args.errors,
                    d,
                    e,
                );
                assert((e + callee.errors).len() == e.len() + callee.errors.len());
            },
        }
    }
}

proof fn lemma_atom_alone(t: Seq<TokenV>, pos: int, end: usize, e: Seq<DiagnosticV>)
    ensures
        atom_at(t, pos, end, e) == after(e, atom_at(t, pos, end, no_reports())),
    decreases t.len() - pos, 0nat,
{
    lemma_after(e, no_reports(), atom_at(t, pos, end, no_reports()));
    let here = span_at(t, pos, end);
    match tkn_at(t, pos) {
        Some(TknV::Delimiter(c)) => {
            if c == '(' {
                lemma_group_alone(t, pos, end, e);
            } else if c == '[' {
                lemma_vector_alone(t, pos, end, e);
            } else if c == '{' {
                lemma_object_alone(t, pos, end, e);
            }
        },
        Some(k) => {
            if passable(k) {
                let d = problem_at(Problem::ExpectedExpression, here);
                assert(e.push(d) =~= e + no_reports().push(d));
            }
        },
        None => {},
    }
}

proof fn lemma_group_alone(t: Seq<TokenV>, pos: int, end: usize, e: Seq<DiagnosticV>)
    ensures
        group_at(t, pos, end, e) == after(e, group_at(t, pos, end, no_reports())),
    decreases t.len() - pos - 1, 20nat,
{
    reveal(expression_at);
    lemma_after(e, no_reports(), group_at(t, pos, end, no_reports()));
    let start = after_newlines(t, pos + 1);
    if !is_delimiter(t, pos, '(') || !ahead(t, pos, start) {
    } else {
        lemma_expression_alone(t, start, end, e);
        let inner = expression_at(t, start, end, no_reports());
        let close = after_newlines(t, inner.pos);
        let bad = match inner.failure {
            Some(d) => Some(d),
            None => if is_delimiter(t, close, ')') {
                None
            } else {
                Some(problem_at(Problem::ExpectedClosing(')'), span_at(t, close, end)))
            },
        };
        match bad {
            None => {},
            Some(d) => {
                lemma_recovered_alone(
                    t,
                    pos,
                    ')',
                    Production::Expression,
                    0,
                    inner.errors,
                    d,
                    e,
                );
            },
        }
    }
}

proof fn lemma_vector_alone(t: Seq<TokenV>, pos: int, end: usize, e: Seq<DiagnosticV>)
    ensures
        vector_at(t, pos, end, e) == after(e, vector_at(t, pos, end, no_reports())),
    decreases t.len() - pos - 1, 20nat,
{
    lemma_after(e, no_reports(), vector_at(t, pos, end, no_reports()));
    if !is_delimiter(t, pos, '[') {
    } else {
        lemma_items_alone(t, pos + 1, end, ']', e);
        let items = items_at(t, pos + 1, end, ']', no_reports());
        let bad = match items.failure {
            Some(d) => Some(d),
            None => if is_delimiter(t, items.pos, ']') {
                None
            } else {
                Some(problem_at(Problem::ExpectedClosing(']'), span_at(t, items.pos, end)))
            },
        };
        match bad {
            None => {},
            Some(d) => {
                lemma_recovered_alone(t, pos, ']', Production::Vector, 0, items.errors, d, e);
            },
        }
    }
}

proof fn lemma_object_alone(t: Seq<TokenV>, pos: int, end: usize, e: Seq<DiagnosticV>)
    ensures
        object_at(t, pos, end, e) == after(e, object_at(t, pos, end, no_reports())),
    decreases t.len() - pos - 1, 20nat,
{
    lemma_after(e, no_reports(), object_at(t, pos, end, no_reports()));
    let start = after_newlines(t, pos + 1);
    if !is_delimiter(t, pos, '{') || is_delimiter(t, start, '}') || !ahead(t, pos, start) {
    } else {
        lemma_entries_alone(t, start, end, Seq::empty(), e);
    }
    let entries = if !is_delimiter(t, pos, '{') || is_delimiter(t, start, '}') || !ahead(
        t,
        pos,
        start,
    ) {
        ParseEntries { entries: Seq::empty(), pos: start, errors: no_reports(), failure: None }
    } else {
        entries_at(t, start, end, Seq::empty(), no_reports())
    };
    let bad = match entries.failure {
        Some(d) => Some(d),
        None => if is_delimiter(t, entries.pos, '}') {
            None
        } else {
            Some(problem_at(Problem::ExpectedClosing('}'), span_at(t, entries.pos, end)))
        },
    };
    match bad {
        None => {},
        Some(d) => {
            lemma_recovered_alone(t, pos, '}', Production::Object, 0, entries.errors, d, e);
        },
    }
}

proof fn lemma_items_alone(
    t: Seq<TokenV>,
    pos: int,
    end: usize,
    closer: char,
    e: Seq<DiagnosticV>,
)
    ensures
        items_at(t, pos, end, closer, e) == after_list(e, items_at(t, pos, end, closer, no_reports())),
    decreases t.len() - pos, 14nat,
{
    lemma_after_list(e, no_reports(), items_at(t, pos, end, closer, no_reports()));
    let start = after_newlines(t, pos);
    if is_delimiter(t, start, closer) || !in_bounds(t, pos) || start < pos || start > t.len() {
    } else {
        lemma_items_rest_alone(t, start, end, Seq::empty(), e);
    }
}

proof fn lemma_items_rest_alone(
    t: Seq<TokenV>,
    pos: int,
    end: usize,
    before: Seq<NodeV>,
    e: Seq<DiagnosticV>,
)
    ensures
        items_rest(t, pos, end, before, e) == after_list(
            e,
            items_rest(t, pos, end, before, no_reports()),
        ),
    decreases t.len() - pos, 13nat,
{
    reveal(expression_at);
    lemma_after_list(e, no_reports(), items_rest(t, pos, end, before, no_reports()));
    lemma_expression_alone(t, pos, end, e);
    let item = expression_at(t, pos, end, no_reports());
    match item.failure {
        Some(d) => {},
        None => {
            let after = after_newlines(t, item.pos);
            let next = after_newlines(t, after + 1);
            if is_symbol(t, after, Symbol::Comma) && ahead(t, pos, next) {
                let all = before.push(item.node);
                lemma_items_rest_alone(t, next, end, all, e + item.errors);
                lemma_items_rest_alone(t, next, end, all, item.errors);
                lemma_after_list(e, item.errors, items_rest(t, next, end, all, no_reports()));
            }
        },
    }
}

proof fn lemma_entries_alone(
    t: Seq<TokenV>,
    pos: int,
    end: usize,
    before: Seq<(KeyV, NodeV)>,
    e: Seq<DiagnosticV>,
)
    ensures
        entries_at(t, pos, end, before, e) == after_entries(
            e,
            entries_at(t, pos, end, before, no_reports()),
        ),
    decreases t.len() - pos, 13nat,
{
    reveal(expression_at);
    lemma_after_entries(e, no_reports(), entries_at(t, pos, end, before, no_reports()));
    match key_at(t, pos) {
        None => {},
        Some(key) => {
            let colon = after_newlines(t, pos + 1);
            let from = after_newlines(t, colon + 1);
            if !is_symbol(t, colon, Symbol::Colon) || !ahead(t, pos, from) {
            } else {
                lemma_expression_alone(t, from, end, e);
                let value = expression_at(t, from, end, no_reports());
                match value.failure {
                    Some(d) => {},
                    None => {
                        let all = with_entry(before, key, value.node);
                        let after = after_newlines(t, value.pos);
                        let next = after_newlines(t, after + 1);
                        if is_symbol(t, after, Symbol::Comma) && ahead(t, pos, next) {
                            if !is_delimiter(t, next, '}') {
                                lemma_entries_alone(t, next, end, all, e + value.errors);
                                lemma_entries_alone(t, next, end, all, value.errors);
                                lemma_after_entries(
                                    e,
                                    value.errors,
                                    entries_at(t, next, end, all, no_reports()),
                                );
                            }
                        }
                    },
                }
            }
        },
    }
}

proof fn lemma_let_alone(t: Seq<TokenV>, pos: int, end: usize, e: Seq<DiagnosticV>)
    ensures
        let_at(t, pos, end, e) == after(e, let_at(t, pos, end, no_reports())),
{
    lemma_after(e, no_reports(), let_at(t, pos, end, no_reports()));
    lemma_expression_alone(t, pos + 3, end, e);
}

proof fn lemma_assign_alone(t: Seq<TokenV>, pos: int, end: usize, e: Seq<DiagnosticV>)
    ensures
        assign_at(t, pos, end, e) == after(e, assign_at(t, pos, end, no_reports())),
{
    lemma_after(e, no_reports(), assign_at(t, pos, end, no_reports()));
    lemma_expression_alone(t, pos + 2, end, e);
}

proof fn lemma_return_alone(t: Seq<TokenV>, pos: int, end: usize, e: Seq<DiagnosticV>)
    ensures
        return_at(t, pos, end, e) == after(e, return_at(t, pos, end, no_reports())),
{
    lemma_after(e, no_reports(), return_at(t, pos, end, no_reports()));
    lemma_expression_alone(t, pos + 1, end, e);
}

/// A statement is parsed, and reports, the same whatever was reported
/// before it.
pub proof fn lemma_statement_alone(t: Seq<TokenV>, pos: int, end: usize, e: Seq<DiagnosticV>)
    ensures
        statement_at(t, pos, end, e) == after(e, statement_at(t, pos, end, no_reports())),
    decreases t.len() - pos, 30nat,
{
    lemma_after(e, no_reports(), statement_at(t, pos, end, no_reports()));
    if in_bounds(t, pos) {
        match tkn_at(t, pos) {
            Some(TknV::Keyword(Keyword::Let)) => lemma_let_alone(t, pos, end, e),
            Some(TknV::Keyword(Keyword::Fn)) => lemma_fn_alone(t, pos, end, e),
            Some(TknV::Keyword(Keyword::Return)) => lemma_return_alone(t, pos, end, e),
            Some(TknV::Keyword(Keyword::While)) => lemma_while_alone(t, pos, end, e),
            Some(TknV::Keyword(Keyword::If)) => lemma_if_alone(t, pos, end, e),
            Some(TknV::Keyword(Keyword::Else)) => lemma_else_alone(t, pos, end, e),
            Some(TknV::Delimiter(c)) => {
                if c == '{' {
                    lemma_block_alone(t, pos, end, e);
                } else {
                    lemma_expression_alone(t, pos, end, e);
                }
            },
            Some(TknV::Identifier(_)) => {
                if is_symbol(t, pos + 1, Symbol::Assign) {
                    lemma_assign_alone(t, pos, end, e);
                } else {
                    lemma_expression_alone(t, pos, end, e);
                }
            },
            _ => lemma_expression_alone(t, pos, end, e),
        }
    }
}

proof fn lemma_fn_alone(t: Seq<TokenV>, pos: int, end: usize, e: Seq<DiagnosticV>)
    ensures
        fn_at(t, pos, end, e) == after(e, fn_at(t, pos, end, no_reports())),
    decreases t.len() - pos, 25nat,
{
    lemma_after(e, no_reports(), fn_at(t, pos, end, no_reports()));
    match name_at(t, pos + 1) {
        None => {},
        Some(name) => {
            if is_delimiter(t, pos + 2, '(') {
                let params = params_from(t, pos + 3, Seq::empty());
                let at_body = params.pos + 1;
                if !is_delimiter(t, params.pos, ')') || !ahead(t, pos, at_body) {
                } else if is_symbol(t, at_body, Symbol::Assign) {
                    lemma_expression_alone(t, at_body + 1, end, e);
                } else if is_delimiter(t, at_body, '{') {
                    lemma_block_alone(t, at_body, end, e);
                }
            }
        },
    }
}

proof fn lemma_while_alone(t: Seq<TokenV>, pos: int, end: usize, e: Seq<DiagnosticV>)
    ensures
        while_at(t, pos, end, e) == after(e, while_at(t, pos, end, no_reports())),
    decreases t.len() - pos, 25nat,
{
    lemma_after(e, no_reports(), while_at(t, pos, end, no_reports()));
    lemma_expression_alone(t, pos + 1, end, e);
    let cond = expression_at(t, pos + 1, end, no_reports());
    let from = after_newlines(t, cond.pos);
    if cond.failure is Some || !ahead(t, pos, from) {
    } else {
        lemma_body_alone(t, from, end, e + cond.errors);
        lemma_body_alone(t, from, end, cond.errors);
        lemma_after(e, cond.errors, body_at(t, from, end, no_reports()));
    }
}

proof fn lemma_if_alone(t: Seq<TokenV>, pos: int, end: usize, e: Seq<DiagnosticV>)
    ensures
        if_at(t, pos, end, e) == after(e, if_at(t, pos, end, no_reports())),
    decreases t.len() - pos, 25nat,
{
    lemma_after(e, no_reports(), if_at(t, pos, end, no_reports()));
    lemma_expression_alone(t, pos + 1, end, e);
    let cond = expression_at(t, pos + 1, end, no_reports());
    let from = after_terminators(t, cond.pos);
    if cond.failure is Some || !ahead(t, pos, from) {
    } else {
        lemma_body_alone(t, from, end, e + cond.errors);
        lemma_body_alone(t, from, end, cond.errors);
        lemma_after(e, cond.errors, body_at(t, from, end, no_reports()));
        let then = body_at(t, from, end, cond.errors);
        if then.failure is Some || !ahead(t, pos, then.pos) {
        } else {
            lemma_if_rest_alone(t, pos, end, cond.node, then.node, then.pos, e + then.errors);
            lemma_if_rest_alone(t, pos, end, cond.node, then.node, then.pos, then.errors);
            lemma_after(
                e,
                then.errors,
                if_rest(t, pos, end, cond.node, then.node, then.pos, no_reports()),
            );
        }
    }
}

proof fn lemma_if_rest_alone(
    t: Seq<TokenV>,
    start: int,
    end: usize,
    cond: NodeV,
    then: NodeV,
    pos: int,
    e: Seq<DiagnosticV>,
)
    ensures
        if_rest(t, start, end, cond, then, pos, e) == after(
            e,
            if_rest(t, start, end, cond, then, pos, no_reports()),
        ),
    decreases t.len() - pos, 38nat,
{
    lemma_after(e, no_reports(), if_rest(t, start, end, cond, then, pos, no_reports()));
    let other = after_newlines(t, pos + 1);
    if is_keyword(t, pos, Keyword::Else) && ahead(t, pos, other) {
        lemma_body_alone(t, other, end, e);
    }
}

proof fn lemma_else_alone(t: Seq<TokenV>, pos: int, end: usize, e: Seq<DiagnosticV>)
    ensures
        else_at(t, pos, end, e) == after(e, else_at(t, pos, end, no_reports())),
    decreases t.len() - pos, 25nat,
{
    lemma_after(e, no_reports(), else_at(t, pos, end, no_reports()));
    let from = after_newlines(t, pos + 1);
    if ahead(t, pos, from) {
        lemma_body_alone(t, from, end, e);
    }
}

proof fn lemma_body_alone(t: Seq<TokenV>, pos: int, end: usize, e: Seq<DiagnosticV>)
    ensures
        body_at(t, pos, end, e) == after(e, body_at(t, pos, end, no_reports())),
    decreases t.len() - pos, 35nat,
{
    if is_delimiter(t, pos, '{') {
        lemma_block_alone(t, pos, end, e);
    } else {
        lemma_statement_alone(t, pos, end, e);
    }
}

proof fn lemma_block_alone(t: Seq<TokenV>, pos: int, end: usize, e: Seq<DiagnosticV>)
    ensures
        block_at(t, pos, end, e) == after(e, block_at(t, pos, end, no_reports())),
    decreases t.len() - pos, 25nat,
{
    lemma_after(e, no_reports(), block_at(t, pos, end, no_reports()));
    if is_delimiter(t, pos, '{') {
        lemma_statements_alone(t, pos + 1, end, true, Seq::empty(), e);
        let list = statements_from(t, pos + 1, end, true, Seq::empty(), no_reports());
        let bad = match list.failure {
            Some(d) => Some(d),
            None => if is_delimiter(t, list.pos, '}') {
                None
            } else {
                Some(problem_at(Problem::ExpectedClosing('}'), span_at(t, list.pos, end)))
            },
        };
        match bad {
            None => {},
            Some(d) => {
                lemma_recovered_alone(t, pos, '}', Production::Block, 0, list.errors, d, e);
            },
        }
    }
}

/// A list of statements is parsed, and reports, the same whatever was
/// reported before it: no diagnostic is masked by one that came earlier, and
/// none is added on account of one.
pub proof fn lemma_statements_alone(
    t: Seq<TokenV>,
    pos: int,
    end: usize,
    nested: bool,
    before: Seq<NodeV>,
    e: Seq<DiagnosticV>,
)
    ensures
        statements_from(t, pos, end, nested, before, e) == after_list(
            e,
            statements_from(t, pos, end, nested, before, no_reports()),
        ),
    decreases t.len() - pos, 40nat,
{
    lemma_after_list(e, no_reports(), statements_from(t, pos, end, nested, before, no_reports()));
    let p = after_terminators(t, pos);
    if !in_bounds(t, pos) || !(pos <= p <= t.len()) {
    } else if p >= t.len() || (nested && is_delimiter(t, p, '}')) {
    } else {
        lemma_statement_alone(t, p, end, e);
        let s = statement_at(t, p, end, no_reports());
        match flaw(t, p, end, nested, s) {
            None => {
                let all = before.push(s.node);
                lemma_statements_alone(t, s.pos, end, nested, all, e + s.errors);
                lemma_statements_alone(t, s.pos, end, nested, all, s.errors);
                lemma_after_list(
                    e,
                    s.errors,
                    statements_from(t, s.pos, end, nested, all, no_reports()),
                );
            },
            Some(d) => {
                if !nested {
                    let stop = sync_from(t, p);
                    if ahead(t, p, stop) {
                        let all = before.push(skipped(t, p, stop));
                        let own = reported(t, p, s.errors, 0, d);
                        assert(reported(t, p, e + s.errors, e.len() as int, d) =~= e + own);
                        lemma_statements_alone(t, stop, end, false, all, e + own);
                        lemma_statements_alone(t, stop, end, false, all, own);
                        lemma_after_list(
                            e,
                            own,
                            statements_from(t, stop, end, false, all, no_reports()),
                        );
                    }
                }
            },
        }
    }
}

/// After a statement that failed, parsing goes on behind it.
proof fn lemma_sync_ahead(t: Seq<TokenV>, p: int)
    requires
        0 <= p <= t.len(),
    ensures
        p <= sync_from(t, p) <= t.len(),
        p < t.len() && !is_terminator(t, p) ==> p < sync_from(t, p),
    decreases t.len() - p,
{
    if p < t.len() && !is_terminator(t, p) {
        lemma_sync_ahead(t, p + 1);
        match t[p].tkn {
            TknV::Delimiter(c) => {
                if opens(c) {
                    match closing(t, p + 1, closer_of(c)) {
                        Some(m) => {
                            if p < m < t.len() {
                                lemma_sync_ahead(t, m + 1);
                            }
                        },
                        None => {},
                    }
                }
            },
            _ => {},
        }
    }
}

/// No terminator stands where the terminators have ended.
proof fn lemma_after_terminators(t: Seq<TokenV>, pos: int)
    requires
        in_bounds(t, pos),
    ensures
        pos <= after_terminators(t, pos) <= t.len(),
        !is_terminator(t, after_terminators(t, pos)),
    decreases t.len() - pos,
{
    if is_terminator(t, pos) {
        lemma_after_terminators(t, pos + 1);
    }
}

/// What the statement that begins at `p`, outside every block, reports by
/// itself: what was recovered from inside it and, where it fails and nothing
/// was recovered from, its failure.
pub open spec fn own_reports(t: Seq<TokenV>, p: int, end: usize) -> Seq<DiagnosticV> {
    let s = statement_at(t, p, end, no_reports());
    match flaw(t, p, end, false, s) {
        None => s.errors,
        Some(d) => reported(t, p, s.errors, 0, d),
    }
}

/// Where parsing goes on after the statement that begins at `p`.
pub open spec fn next_place(t: Seq<TokenV>, p: int, end: usize) -> int {
    let s = statement_at(t, p, end, no_reports());
    match flaw(t, p, end, false, s) {
        None => s.pos,
        Some(_) => sync_from(t, p),
    }
}

/// What the statements from `pos` on report, each by itself, one after the
/// other.
pub open spec fn reports_from(t: Seq<TokenV>, pos: int, end: usize) -> Seq<DiagnosticV>
    decreases t.len() - pos,
{
    let p = after_terminators(t, pos);
    if !in_bounds(t, pos) || !(pos <= p < t.len()) || !ahead(t, p, next_place(t, p, end)) {
        no_reports()
    } else {
        own_reports(t, p, end) + reports_from(t, next_place(t, p, end), end)
    }
}

/// A statement that fails is reported, and once: where nothing was
/// recovered from inside it, it reports its failure and no more; where
/// something was, it reports that and not its failure on top.
pub proof fn lemma_failure_is_reported_once(t: Seq<TokenV>, p: int, end: usize)
    requires
        flaw(t, p, end, false, statement_at(t, p, end, no_reports())) is Some,
    ensures
        own_reports(t, p, end).len() >= 1,
        statement_at(t, p, end, no_reports()).errors.len() == 0 ==> own_reports(t, p, end).len() == 1,
        statement_at(t, p, end, no_reports()).errors.len() > 0 ==> own_reports(t, p, end)
            == statement_at(t, p, end, no_reports()).errors,
{
}

/// The diagnostics of a source are those of its statements, one after the
/// other: what one statement reports is neither masked nor doubled by what
/// another reports. So a source with two faulty statements that report one
/// diagnostic each, and no other fault, gives exactly two.
pub proof fn lemma_reports_are_those_of_the_statements(
    t: Seq<TokenV>,
    pos: int,
    end: usize,
    before: Seq<NodeV>,
)
    ensures
        statements_from(t, pos, end, false, before, no_reports()).errors == reports_from(t, pos, end),
    decreases t.len() - pos,
{
    let p = after_terminators(t, pos);
    if !in_bounds(t, pos) {
    } else {
        lemma_after_terminators(t, pos);
        if p >= t.len() {
        } else {
            lemma_sync_ahead(t, p);
            let s = statement_at(t, p, end, no_reports());
            let own = own_reports(t, p, end);
            let next = next_place(t, p, end);
            let all = match flaw(t, p, end, false, s) {
                None => before.push(s.node),
                Some(_) => before.push(skipped(t, p, next)),
            };
            assert(ahead(t, p, next));
            lemma_statements_alone(t, next, end, false, all, own);
            lemma_reports_are_those_of_the_statements(t, next, end, all);
        }
    }
}

/// The diagnostics of a whole program are those of its statements.
pub proof fn lemma_program_reports(t: Seq<TokenV>, end: usize)
    ensures
        program(t, end).errors == reports_from(t, 0, end),
{
    lemma_reports_are_those_of_the_statements(t, 0, end, Seq::empty());
}

} // verus!
