//! The expression parser: from tokens to expression trees, by a table of
//! binding strengths.
//!
//! From the strongest binding to the weakest: the prefix operators `!` and
//! `-`; then `*`, `/`, `%`; then `+`, `-`; then the comparisons; then `&&`
//! and `||`. Operators of one strength group to the left.
use crate::diag::{diagnostics_view, Diagnostic, DiagnosticV, Problem, Production};
use crate::interpreter::operators::{
    distinct_keys, lemma_with_entry_distinct, put_entry, with_entry,
};
use crate::types::{
    copy_bytes, entries_view, nodes_view, print_name, same_bytes, text, tokens_view, Expr, ExprV,
    Key, KeyV, Keyword, Node, NodeV, Op, Span, Symbol, Tkn, TknV, Token, TokenV, Value, ValueV,
};
use vstd::prelude::*;

verus! {

/// What parsing one node gave: the node and the place after it, or the
/// failure; and the diagnostics recorded so far.
pub ghost struct Parse {
    pub node: NodeV,
    pub pos: int,
    pub errors: Seq<DiagnosticV>,
    pub failure: Option<DiagnosticV>,
}

/// What parsing a list of nodes gave.
pub ghost struct ParseList {
    pub nodes: Seq<NodeV>,
    pub pos: int,
    pub errors: Seq<DiagnosticV>,
    pub failure: Option<DiagnosticV>,
}

/// What parsing the entries of an object gave.
pub ghost struct ParseEntries {
    pub entries: Seq<(KeyV, NodeV)>,
    pub pos: int,
    pub errors: Seq<DiagnosticV>,
    pub failure: Option<DiagnosticV>,
}

/// A node that was parsed.
pub open spec fn parsed(node: NodeV, pos: int, errors: Seq<DiagnosticV>) -> Parse {
    Parse { node, pos, errors, failure: None }
}

/// A failure at `pos`.
pub open spec fn failed(d: DiagnosticV, pos: int, errors: Seq<DiagnosticV>) -> Parse {
    Parse {
        node: NodeV { expr: ExprV::Error, span: d.span },
        pos,
        errors,
        failure: Some(d),
    }
}

/// A list that was parsed.
pub open spec fn parsed_list(nodes: Seq<NodeV>, pos: int, errors: Seq<DiagnosticV>) -> ParseList {
    ParseList { nodes, pos, errors, failure: None }
}

/// A list that failed.
pub open spec fn failed_list(d: DiagnosticV, pos: int, errors: Seq<DiagnosticV>) -> ParseList {
    ParseList { nodes: Seq::empty(), pos, errors, failure: Some(d) }
}

/// The token at `pos`, if there is one.
pub open spec fn tkn_at(t: Seq<TokenV>, pos: int) -> Option<TknV> {
    if 0 <= pos < t.len() {
        Some(t[pos].tkn)
    } else {
        None
    }
}

/// Whether the symbol stands at `pos`.
pub open spec fn is_symbol(t: Seq<TokenV>, pos: int, sym: Symbol) -> bool {
    tkn_at(t, pos) == Some(TknV::Symbol(sym))
}

/// Whether the delimiter stands at `pos`.
pub open spec fn is_delimiter(t: Seq<TokenV>, pos: int, c: char) -> bool {
    tkn_at(t, pos) == Some(TknV::Delimiter(c))
}

/// Whether the keyword stands at `pos`.
pub open spec fn is_keyword(t: Seq<TokenV>, pos: int, k: Keyword) -> bool {
    tkn_at(t, pos) == Some(TknV::Keyword(k))
}

/// Whether a line end stands at `pos`.
pub open spec fn is_newline(t: Seq<TokenV>, pos: int) -> bool {
    tkn_at(t, pos) == Some(TknV::Newline)
}

/// The span of the token at `pos`, or the end of the source where the tokens
/// have ended.
pub open spec fn span_at(t: Seq<TokenV>, pos: int, end: usize) -> Span {
    if 0 <= pos < t.len() {
        t[pos].span
    } else {
        Span { start: end, end }
    }
}

/// The span from the start of `a` to the end of `b`.
pub open spec fn join(a: Span, b: Span) -> Span {
    Span { start: a.start, end: b.end }
}

/// Whether `p` is a place after `pos` that is not past the end.
pub open spec fn ahead(t: Seq<TokenV>, pos: int, p: int) -> bool {
    pos < p <= t.len()
}

/// Whether `pos` is a place among the tokens or their end.
pub open spec fn in_bounds(t: Seq<TokenV>, pos: int) -> bool {
    0 <= pos <= t.len()
}

/// The failure of a parser that was started outside the tokens.
pub open spec fn out_of_bounds(pos: int, end: usize, errors: Seq<DiagnosticV>) -> Parse {
    failed(problem_at(Problem::ExpectedExpression, Span { start: end, end }), pos, errors)
}

/// A diagnostic without context.
pub open spec fn problem_at(problem: Problem, span: Span) -> DiagnosticV {
    DiagnosticV { problem, span, contexts: Seq::empty() }
}

/// The diagnostic with one more context, outside those it has.
pub open spec fn within(d: DiagnosticV, production: Production, span: Span) -> DiagnosticV {
    DiagnosticV { problem: d.problem, span: d.span, contexts: d.contexts.push((production, span)) }
}

/// The diagnostics with the failure recorded, unless something was recorded
/// since there were `mark` of them: one report for one malformed region.
pub open spec fn recorded_once(errors: Seq<DiagnosticV>, mark: int, d: DiagnosticV) -> Seq<
    DiagnosticV,
> {
    if errors.len() == mark {
        errors.push(d)
    } else {
        errors
    }
}

/// The first place from `pos` on where no line end stands.
pub open spec fn after_newlines(t: Seq<TokenV>, pos: int) -> int
    decreases t.len() - pos,
{
    if is_newline(t, pos) {
        after_newlines(t, pos + 1)
    } else {
        pos
    }
}

/// Whether the delimiter opens a group.
pub open spec fn opens(c: char) -> bool {
    c == '(' || c == '[' || c == '{'
}

/// The delimiter that closes what `c` opens.
pub open spec fn closer_of(c: char) -> char {
    if c == '(' {
        ')'
    } else if c == '[' {
        ']'
    } else {
        '}'
    }
}

/// The place of the delimiter `closer` that closes the group whose inside
/// begins at `pos`, honoring the groups nested in it; nothing where the group
/// is not closed or a wrong delimiter closes something in it.
pub open spec fn closing(t: Seq<TokenV>, pos: int, closer: char) -> Option<int>
    decreases t.len() - pos,
{
    if pos < 0 || pos >= t.len() {
        None
    } else {
        match t[pos].tkn {
            TknV::Delimiter(c) => if c == closer {
                Some(pos)
            } else if opens(c) {
                match closing(t, pos + 1, closer_of(c)) {
                    Some(m) => if pos < m < t.len() {
                        closing(t, m + 1, closer)
                    } else {
                        None
                    },
                    None => None,
                }
            } else {
                None
            },
            _ => closing(t, pos + 1, closer),
        }
    }
}

/// Whether a token may be passed over where an expression should begin: a
/// symbol other than `;` and `,`.
pub open spec fn passable(k: TknV) -> bool {
    k matches TknV::Symbol(s) && s != Symbol::Semicolon && s != Symbol::Comma
}

/// The binary operator of the given binding strength that the token at `pos`
/// is: 1 for `*`, `/`, `%`; 2 for `+`, `-`; 3 for the comparisons; 4 for `&&`
/// and `||`.
pub open spec fn op_at(t: Seq<TokenV>, pos: int, level: nat) -> Option<Op> {
    match tkn_at(t, pos) {
        Some(TknV::Symbol(s)) => if level == 1 {
            match s {
                Symbol::Star => Some(Op::Mul),
                Symbol::Slash => Some(Op::Div),
                Symbol::Percent => Some(Op::Mod),
                _ => None,
            }
        } else if level == 2 {
            match s {
                Symbol::Plus => Some(Op::Add),
                Symbol::Minus => Some(Op::Sub),
                _ => None,
            }
        } else if level == 3 {
            match s {
                Symbol::Greater => Some(Op::Gt),
                Symbol::GreaterEq => Some(Op::Gte),
                Symbol::Less => Some(Op::Lt),
                Symbol::LessEq => Some(Op::Lte),
                Symbol::EqEq => Some(Op::Eq),
                Symbol::NotEq => Some(Op::Neq),
                _ => None,
            }
        } else if level == 4 {
            match s {
                Symbol::And => Some(Op::And),
                Symbol::Or => Some(Op::Or),
                _ => None,
            }
        } else {
            None
        },
        _ => None,
    }
}

/// The prefix operator that the token at `pos` is.
pub open spec fn prefix_at(t: Seq<TokenV>, pos: int) -> Option<Op> {
    match tkn_at(t, pos) {
        Some(TknV::Symbol(Symbol::Bang)) => Some(Op::Not),
        Some(TknV::Symbol(Symbol::Minus)) => Some(Op::Neg),
        _ => None,
    }
}

/// The weakest binding strength.
pub open spec fn weakest() -> nat {
    4
}

/// What a malformed group that opens at `pos` becomes: where its closing
/// delimiter is found, an error node in its place and one report; else the
/// failure goes on outward.
pub open spec fn recovered(
    t: Seq<TokenV>,
    pos: int,
    closer: char,
    production: Production,
    mark: int,
    errors: Seq<DiagnosticV>,
    d: DiagnosticV,
) -> Parse {
    let inside = within(d, production, t[pos].span);
    match closing(t, pos + 1, closer) {
        Some(m) => parsed(
            NodeV { expr: ExprV::Error, span: join(t[pos].span, t[m].span) },
            m + 1,
            recorded_once(errors, mark, inside),
        ),
        None => failed(inside, pos, errors),
    }
}

/// An expression that begins at `pos`.
#[verifier::opaque]
pub open spec fn expression_at(t: Seq<TokenV>, pos: int, end: usize, errors: Seq<DiagnosticV>)
    -> Parse
    decreases t.len() - pos, 12nat,
{
    if !in_bounds(t, pos) {
        out_of_bounds(pos, end, errors)
    } else {
        tier(t, pos, end, weakest(), errors)
    }
}

/// Operands of the next stronger binding, joined by operators of the binding
/// strength `level`.
pub open spec fn tier(
    t: Seq<TokenV>,
    pos: int,
    end: usize,
    level: nat,
    errors: Seq<DiagnosticV>,
) -> Parse
    decreases t.len() - pos, 2 * level + 3,
{
    if !in_bounds(t, pos) {
        out_of_bounds(pos, end, errors)
    } else if level == 0 || level > weakest() {
        out_of_bounds(pos, end, errors)
    } else {
        let first = if level == 1 {
            unary_at(t, pos, end, errors)
        } else {
            tier(t, pos, end, (level - 1) as nat, errors)
        };
        if first.failure is Some || !ahead(t, pos, first.pos) {
            first
        } else {
            tier_rest(t, first.node, first.pos, end, level, first.errors)
        }
    }
}

/// What follows the operand `left`, which ended at `pos`: as long as an
/// operator of the binding strength stands there, the next operand.
pub open spec fn tier_rest(
    t: Seq<TokenV>,
    left: NodeV,
    pos: int,
    end: usize,
    level: nat,
    errors: Seq<DiagnosticV>,
) -> Parse
    decreases t.len() - pos, 2 * level + 2,
{
    match op_at(t, pos, level) {
        Some(op) => {
            let right = if level <= 1 {
                unary_at(t, pos + 1, end, errors)
            } else {
                tier(t, pos + 1, end, (level - 1) as nat, errors)
            };
            if right.failure is Some || !ahead(t, pos, right.pos) {
                right
            } else {
                tier_rest(
                    t,
                    NodeV {
                        expr: ExprV::BnOp(Box::new(left), op, Box::new(right.node)),
                        span: join(left.span, right.node.span),
                    },
                    right.pos,
                    end,
                    level,
                    right.errors,
                )
            }
        },
        None => parsed(left, pos, errors),
    }
}

/// Prefix operators, then what they apply to.
pub open spec fn unary_at(t: Seq<TokenV>, pos: int, end: usize, errors: Seq<DiagnosticV>) -> Parse
    decreases t.len() - pos, 3nat,
{
    if !in_bounds(t, pos) {
        out_of_bounds(pos, end, errors)
    } else {
        unary_in(t, pos, end, errors)
    }
}

/// Prefix operators, then what they apply to, at a place among the tokens.
pub open spec fn unary_in(t: Seq<TokenV>, pos: int, end: usize, errors: Seq<DiagnosticV>) -> Parse
    recommends
        in_bounds(t, pos),
    decreases t.len() - pos, 2nat,
{
    match prefix_at(t, pos) {
        Some(op) => {
            let operand = unary_at(t, pos + 1, end, errors);
            if operand.failure is Some {
                operand
            } else {
                parsed(
                    NodeV {
                        expr: ExprV::UnOp(op, Box::new(operand.node)),
                        span: join(t[pos].span, operand.node.span),
                    },
                    operand.pos,
                    operand.errors,
                )
            }
        },
        None => call_at(t, pos, end, errors),
    }
}

/// The call of `callee` with the arguments.
pub open spec fn call_of(callee: NodeV, args: Seq<NodeV>, span: Span) -> NodeV {
    match callee.expr {
        ExprV::Var(name) => if name == print_name() {
            NodeV { expr: ExprV::ReservedCall(name, args), span }
        } else {
            NodeV { expr: ExprV::Call(Box::new(callee), args), span }
        },
        _ => NodeV { expr: ExprV::Call(Box::new(callee), args), span },
    }
}

/// An atom and, where a `(` follows it, the arguments of a call.
pub open spec fn call_at(t: Seq<TokenV>, pos: int, end: usize, errors: Seq<DiagnosticV>) -> Parse
    decreases t.len() - pos, 1nat,
{
    let callee = atom_at(t, pos, end, errors);
    if callee.failure is Some || !ahead(t, pos, callee.pos) || !is_delimiter(t, callee.pos, '(') {
        callee
    } else {
        let open = callee.pos;
        let args = items_at(t, open + 1, end, ')', callee.errors);
        let bad = match args.failure {
            Some(d) => Some(d),
            None => if is_delimiter(t, args.pos, ')') {
                None
            } else {
                Some(problem_at(Problem::ExpectedClosing(')'), span_at(t, args.pos, end)))
            },
        };
        match bad {
            None => parsed(
                call_of(callee.node, args.nodes, join(callee.node.span, t[args.pos].span)),
                args.pos + 1,
                args.errors,
            ),
            Some(d) => {
                let r = recovered(
                    t,
                    open,
                    ')',
                    Production::Arguments,
                    callee.errors.len() as int,
                    args.errors,
                    d,
                );
                if r.failure is Some {
                    r
                } else {
                    parsed(
                        call_of(callee.node, seq![r.node], join(callee.node.span, r.node.span)),
                        r.pos,
                        r.errors,
                    )
                }
            },
        }
    }
}

/// A literal, a name, or a group in `(`, `[` or `{`. Where none begins, a
/// passable token is reported and stands as an error node; any other token
/// fails.
pub open spec fn atom_at(t: Seq<TokenV>, pos: int, end: usize, errors: Seq<DiagnosticV>) -> Parse
    decreases t.len() - pos, 0nat,
{
    let here = span_at(t, pos, end);
    match tkn_at(t, pos) {
        Some(TknV::Number(n)) => parsed(
            NodeV { expr: ExprV::Val(ValueV::Num(n)), span: here },
            pos + 1,
            errors,
        ),
        Some(TknV::Str(s)) => parsed(
            NodeV { expr: ExprV::Val(ValueV::Str(s)), span: here },
            pos + 1,
            errors,
        ),
        Some(TknV::Bool(b)) => parsed(
            NodeV { expr: ExprV::Val(ValueV::Bool(b)), span: here },
            pos + 1,
            errors,
        ),
        Some(TknV::Identifier(name)) => parsed(
            NodeV { expr: ExprV::Var(name), span: here },
            pos + 1,
            errors,
        ),
        Some(TknV::Delimiter(c)) => if c == '(' {
            group_at(t, pos, end, errors)
        } else if c == '[' {
            vector_at(t, pos, end, errors)
        } else if c == '{' {
            object_at(t, pos, end, errors)
        } else {
            failed(problem_at(Problem::ExpectedExpression, here), pos, errors)
        },
        Some(k) => if passable(k) {
            parsed(
                NodeV { expr: ExprV::Error, span: here },
                pos + 1,
                errors.push(problem_at(Problem::ExpectedExpression, here)),
            )
        } else {
            failed(problem_at(Problem::ExpectedExpression, here), pos, errors)
        },
        None => failed(problem_at(Problem::ExpectedExpression, here), pos, errors),
    }
}

/// An expression in parentheses; `pos` is the place of the `(`.
pub open spec fn group_at(t: Seq<TokenV>, pos: int, end: usize, errors: Seq<DiagnosticV>) -> Parse
    decreases t.len() - pos - 1, 20nat,
{
    let start = after_newlines(t, pos + 1);
    if !is_delimiter(t, pos, '(') || !ahead(t, pos, start) {
        out_of_bounds(pos, end, errors)
    } else {
        let inner = expression_at(t, start, end, errors);
        let close = after_newlines(t, inner.pos);
        let bad = match inner.failure {
            Some(d) => Some(d),
            None => if is_delimiter(t, close, ')') {
                None
            } else {
                Some(problem_at(Problem::ExpectedClosing(')'), span_at(t, close, end)))
            },
        };
        match bad {
            None => parsed(inner.node, close + 1, inner.errors),
            Some(d) => recovered(
                t,
                pos,
                ')',
                Production::Expression,
                errors.len() as int,
                inner.errors,
                d,
            ),
        }
    }
}

/// A vector literal; `pos` is the place of the `[`.
pub open spec fn vector_at(t: Seq<TokenV>, pos: int, end: usize, errors: Seq<DiagnosticV>) -> Parse
    decreases t.len() - pos - 1, 20nat,
{
    if !is_delimiter(t, pos, '[') {
        out_of_bounds(pos, end, errors)
    } else {
        let items = items_at(t, pos + 1, end, ']', errors);
        let bad = match items.failure {
            Some(d) => Some(d),
            None => if is_delimiter(t, items.pos, ']') {
                None
            } else {
                Some(problem_at(Problem::ExpectedClosing(']'), span_at(t, items.pos, end)))
            },
        };
        match bad {
            None => parsed(
                NodeV {
                    expr: ExprV::Val(ValueV::Vec(items.nodes)),
                    span: join(t[pos].span, t[items.pos].span),
                },
                items.pos + 1,
                items.errors,
            ),
            Some(d) => recovered(
                t,
                pos,
                ']',
                Production::Vector,
                errors.len() as int,
                items.errors,
                d,
            ),
        }
    }
}

/// An object literal; `pos` is the place of the `{`.
pub open spec fn object_at(t: Seq<TokenV>, pos: int, end: usize, errors: Seq<DiagnosticV>) -> Parse
    decreases t.len() - pos - 1, 20nat,
{
    let start = after_newlines(t, pos + 1);
    let entries = if !is_delimiter(t, pos, '{') || is_delimiter(t, start, '}') || !ahead(
        t,
        pos,
        start,
    ) {
        ParseEntries { entries: Seq::empty(), pos: start, errors, failure: None }
    } else {
        entries_at(t, start, end, Seq::empty(), errors)
    };
    let bad = match entries.failure {
        Some(d) => Some(d),
        None => if is_delimiter(t, entries.pos, '}') {
            None
        } else {
            Some(problem_at(Problem::ExpectedClosing('}'), span_at(t, entries.pos, end)))
        },
    };
    match bad {
        None => parsed(
            NodeV {
                expr: ExprV::Val(ValueV::Obj(entries.entries)),
                span: join(t[pos].span, t[entries.pos].span),
            },
            entries.pos + 1,
            entries.errors,
        ),
        Some(d) => recovered(
            t,
            pos,
            '}',
            Production::Object,
            errors.len() as int,
            entries.errors,
            d,
        ),
    }
}

/// Expressions divided by `,`, up to the delimiter `closer`; line ends may
/// stand around each.
pub open spec fn items_at(
    t: Seq<TokenV>,
    pos: int,
    end: usize,
    closer: char,
    errors: Seq<DiagnosticV>,
) -> ParseList
    decreases t.len() - pos, 14nat,
{
    let start = after_newlines(t, pos);
    if is_delimiter(t, start, closer) || !in_bounds(t, pos) || start < pos || start > t.len() {
        parsed_list(Seq::empty(), start, errors)
    } else {
        items_rest(t, start, end, Seq::empty(), errors)
    }
}

/// The expression at `pos` and those after it, added to those before.
pub open spec fn items_rest(
    t: Seq<TokenV>,
    pos: int,
    end: usize,
    before: Seq<NodeV>,
    errors: Seq<DiagnosticV>,
) -> ParseList
    decreases t.len() - pos, 13nat,
{
    let item = expression_at(t, pos, end, errors);
    match item.failure {
        Some(d) => failed_list(d, item.pos, item.errors),
        None => {
            let after = after_newlines(t, item.pos);
            if is_symbol(t, after, Symbol::Comma) && ahead(t, pos, after_newlines(t, after + 1)) {
                items_rest(
                    t,
                    after_newlines(t, after + 1),
                    end,
                    before.push(item.node),
                    item.errors,
                )
            } else {
                parsed_list(before.push(item.node), after, item.errors)
            }
        },
    }
}

/// The key that a token is: a number or a string.
pub open spec fn key_at(t: Seq<TokenV>, pos: int) -> Option<KeyV> {
    match tkn_at(t, pos) {
        Some(TknV::Number(n)) => Some(KeyV::Num(n)),
        Some(TknV::Str(s)) => Some(KeyV::Str(s)),
        _ => None,
    }
}

/// The entry at `pos`, a key, `:` and an expression, and those after it,
/// added to those before; a later entry takes the place of an earlier one
/// under the same key. A `,` may follow the last entry.
pub open spec fn entries_at(
    t: Seq<TokenV>,
    pos: int,
    end: usize,
    before: Seq<(KeyV, NodeV)>,
    errors: Seq<DiagnosticV>,
) -> ParseEntries
    decreases t.len() - pos, 13nat,
{
    match key_at(t, pos) {
        None => ParseEntries {
            entries: before,
            pos,
            errors,
            failure: Some(problem_at(Problem::ExpectedKey, span_at(t, pos, end))),
        },
        Some(key) => {
            let colon = after_newlines(t, pos + 1);
            let from = after_newlines(t, colon + 1);
            if !is_symbol(t, colon, Symbol::Colon) || !ahead(t, pos, from) {
                ParseEntries {
                    entries: before,
                    pos: colon,
                    errors,
                    failure: Some(problem_at(Problem::ExpectedColon, span_at(t, colon, end))),
                }
            } else {
                let value = expression_at(t, from, end, errors);
                match value.failure {
                    Some(d) => ParseEntries {
                        entries: before,
                        pos: value.pos,
                        errors: value.errors,
                        failure: Some(d),
                    },
                    None => {
                        let all = with_entry(before, key, value.node);
                        let after = after_newlines(t, value.pos);
                        let next = after_newlines(t, after + 1);
                        if is_symbol(t, after, Symbol::Comma) && ahead(t, pos, next) {
                            if is_delimiter(t, next, '}') {
                                ParseEntries {
                                    entries: all,
                                    pos: next,
                                    errors: value.errors,
                                    failure: None,
                                }
                            } else {
                                entries_at(t, next, end, all, value.errors)
                            }
                        } else {
                            ParseEntries {
                                entries: all,
                                pos: after,
                                errors: value.errors,
                                failure: None,
                            }
                        }
                    },
                }
            }
        },
    }
}

/// The entries that the parser gathers hold each key once, where those
/// before did.
pub proof fn lemma_entries_distinct(
    t: Seq<TokenV>,
    pos: int,
    end: usize,
    before: Seq<(KeyV, NodeV)>,
    errors: Seq<DiagnosticV>,
)
    requires
        distinct_keys(before),
    ensures
        distinct_keys(entries_at(t, pos, end, before, errors).entries),
    decreases t.len() - pos,
{
    reveal(expression_at);
    match key_at(t, pos) {
        None => {},
        Some(key) => {
            let colon = after_newlines(t, pos + 1);
            let from = after_newlines(t, colon + 1);
            if !is_symbol(t, colon, Symbol::Colon) || !ahead(t, pos, from) {
            } else {
                let value = expression_at(t, from, end, errors);
                match value.failure {
                    Some(d) => {},
                    None => {
                        let all = with_entry(before, key, value.node);
                        lemma_with_entry_distinct(before, key, value.node);
                        let after = after_newlines(t, value.pos);
                        let next = after_newlines(t, after + 1);
                        if is_symbol(t, after, Symbol::Comma) && ahead(t, pos, next) {
                            if !is_delimiter(t, next, '}') {
                                lemma_entries_distinct(t, next, end, all, value.errors);
                            }
                        }
                    },
                }
            }
        },
    }
}

/// An object literal is parsed into an object that holds each key once.
pub proof fn lemma_object_literal_distinct(
    t: Seq<TokenV>,
    pos: int,
    end: usize,
    errors: Seq<DiagnosticV>,
)
    ensures
        object_at(t, pos, end, errors).node.expr matches ExprV::Val(ValueV::Obj(entries))
            ==> distinct_keys(entries),
{
    let start = after_newlines(t, pos + 1);
    if !is_delimiter(t, pos, '{') || is_delimiter(t, start, '}') || !ahead(t, pos, start) {
    } else {
        lemma_entries_distinct(t, start, end, Seq::empty(), errors);
    }
}

/// Whether what the parser returned, with the diagnostics it left, is what
/// the grammar says.
pub open spec fn agrees(r: Result<(Node, usize), Diagnostic>, errors: Seq<Diagnostic>, p: Parse)
    -> bool {
    &&& diagnostics_view(errors) == p.errors
    &&& match r {
        Ok((n, q)) => p.failure is None && n@ == p.node && q == p.pos,
        Err(d) => p.failure == Some(d@),
    }
}

/// The same for a list of nodes.
pub open spec fn agrees_list(
    r: Result<(Vec<Node>, usize), Diagnostic>,
    errors: Seq<Diagnostic>,
    p: ParseList,
) -> bool {
    &&& diagnostics_view(errors) == p.errors
    &&& match r {
        Ok((l, q)) => p.failure is None && nodes_view(l@) == p.nodes && q == p.pos,
        Err(d) => p.failure == Some(d@),
    }
}

/// The same for the entries of an object.
pub open spec fn agrees_entries(
    r: Result<(Vec<(Key, Node)>, usize), Diagnostic>,
    errors: Seq<Diagnostic>,
    p: ParseEntries,
) -> bool {
    &&& diagnostics_view(errors) == p.errors
    &&& match r {
        Ok((l, q)) => p.failure is None && entries_view(l@) == p.entries && q == p.pos,
        Err(d) => p.failure == Some(d@),
    }
}

/// A diagnostic without context.
pub(crate) fn problem(what: Problem, span: Span) -> (r: Diagnostic)
    ensures
        r@ == problem_at(what, span),
{
    Diagnostic { problem: what, span, contexts: Vec::new() }
}

/// The diagnostic with one more context.
pub(crate) fn inside(d: Diagnostic, production: Production, span: Span) -> (r: Diagnostic)
    ensures
        r@ == within(d@, production, span),
{
    let mut d = d;
    d.contexts.push((production, span));
    d
}

/// Records the failure, unless something was recorded since there were
/// `mark` diagnostics.
pub(crate) fn record_once(errors: &mut Vec<Diagnostic>, mark: usize, d: Diagnostic)
    ensures
        diagnostics_view(final(errors)@) == recorded_once(
            diagnostics_view(old(errors)@),
            mark as int,
            d@,
        ),
{
    if errors.len() == mark {
        let ghost before = diagnostics_view(errors@);
        errors.push(d);
        assert(diagnostics_view(errors@) =~= before.push(d@));
    }
}

/// Whether the symbol stands at `pos`.
pub(crate) fn peek_symbol(tokens: &Vec<Token>, pos: usize, sym: Symbol) -> (r: bool)
    ensures
        r == is_symbol(tokens_view(tokens@), pos as int, sym),
{
    if pos < tokens.len() {
        match &tokens[pos].tkn {
            Tkn::Symbol(s) => *s == sym,
            _ => false,
        }
    } else {
        false
    }
}

/// Whether the delimiter stands at `pos`.
pub(crate) fn peek_delimiter(tokens: &Vec<Token>, pos: usize, c: char) -> (r: bool)
    ensures
        r == is_delimiter(tokens_view(tokens@), pos as int, c),
{
    if pos < tokens.len() {
        match &tokens[pos].tkn {
            Tkn::Delimiter(d) => *d == c,
            _ => false,
        }
    } else {
        false
    }
}

/// Whether the keyword stands at `pos`.
pub(crate) fn peek_keyword(tokens: &Vec<Token>, pos: usize, k: Keyword) -> (r: bool)
    ensures
        r == is_keyword(tokens_view(tokens@), pos as int, k),
{
    if pos < tokens.len() {
        match &tokens[pos].tkn {
            Tkn::Keyword(x) => *x == k,
            _ => false,
        }
    } else {
        false
    }
}

/// Whether a line end stands at `pos`.
pub(crate) fn peek_newline(tokens: &Vec<Token>, pos: usize) -> (r: bool)
    ensures
        r == is_newline(tokens_view(tokens@), pos as int),
{
    if pos < tokens.len() {
        match &tokens[pos].tkn {
            Tkn::Newline => true,
            _ => false,
        }
    } else {
        false
    }
}

/// The span of the token at `pos`, or the end of the source.
pub(crate) fn span_of(tokens: &Vec<Token>, pos: usize, end: usize) -> (r: Span)
    ensures
        r == span_at(tokens_view(tokens@), pos as int, end),
{
    if pos < tokens.len() {
        tokens[pos].span
    } else {
        Span { start: end, end }
    }
}

/// The span from the start of `a` to the end of `b`.
pub(crate) fn joined(a: Span, b: Span) -> (r: Span)
    ensures
        r == join(a, b),
{
    Span { start: a.start, end: b.end }
}

/// The first place from `pos` on where no line end stands.
pub(crate) fn skip_newlines(tokens: &Vec<Token>, pos: usize) -> (r: usize)
    requires
        pos <= tokens.len(),
    ensures
        r == after_newlines(tokens_view(tokens@), pos as int),
        pos <= r <= tokens.len(),
{
    let mut p = pos;
    while peek_newline(tokens, p)
        invariant
            pos <= p <= tokens.len(),
            after_newlines(tokens_view(tokens@), pos as int) == after_newlines(
                tokens_view(tokens@),
                p as int,
            ),
        decreases tokens.len() - p,
    {
        p = p + 1;
    }
    p
}

/// The place of the delimiter that closes the group whose inside begins at
/// `pos`.
pub(crate) fn find_closing(tokens: &Vec<Token>, pos: usize, closer: char) -> (r: Option<usize>)
    requires
        pos <= tokens.len(),
    ensures
        r matches Some(m) ==> closing(tokens_view(tokens@), pos as int, closer) == Some(m as int)
            && pos <= m < tokens.len(),
        r is None ==> closing(tokens_view(tokens@), pos as int, closer) is None,
    decreases tokens.len() - pos,
{
    let mut p = pos;
    while p < tokens.len()
        invariant
            pos <= p <= tokens.len(),
            closing(tokens_view(tokens@), pos as int, closer) == closing(
                tokens_view(tokens@),
                p as int,
                closer,
            ),
        decreases tokens.len() - p,
    {
        match &tokens[p].tkn {
            Tkn::Delimiter(c) => {
                if *c == closer {
                    return Some(p);
                } else if *c == '(' || *c == '[' || *c == '{' {
                    let inner = if *c == '(' {
                        ')'
                    } else if *c == '[' {
                        ']'
                    } else {
                        '}'
                    };
                    match find_closing(tokens, p + 1, inner) {
                        Some(m) => {
                            p = m + 1;
                        },
                        None => {
                            return None;
                        },
                    }
                } else {
                    return None;
                }
            },
            _ => {
                p = p + 1;
            },
        }
    }
    None
}

/// What a malformed group that opens at `pos` becomes.
pub(crate) fn recover(
    tokens: &Vec<Token>,
    pos: usize,
    closer: char,
    production: Production,
    mark: usize,
    errors: &mut Vec<Diagnostic>,
    d: Diagnostic,
) -> (r: Result<(Node, usize), Diagnostic>)
    requires
        pos < tokens.len(),
    ensures
        agrees(
            r,
            final(errors)@,
            recovered(
                tokens_view(tokens@),
                pos as int,
                closer,
                production,
                mark as int,
                diagnostics_view(old(errors)@),
                d@,
            ),
        ),
        r matches Ok((_, q)) ==> pos < q <= tokens.len(),
{
    let d = inside(d, production, tokens[pos].span);
    match find_closing(tokens, pos + 1, closer) {
        Some(m) => {
            record_once(errors, mark, d);
            Ok((error_node(joined(tokens[pos].span, tokens[m].span)), m + 1))
        },
        None => Err(d),
    }
}

/// The binary operator of the given binding strength at `pos`.
pub(crate) fn binary_op(tokens: &Vec<Token>, pos: usize, level: usize) -> (r: Option<Op>)
    ensures
        r == op_at(tokens_view(tokens@), pos as int, level as nat),
{
    if pos >= tokens.len() {
        return None;
    }
    match &tokens[pos].tkn {
        Tkn::Symbol(s) => {
            if level == 1 {
                match s {
                    Symbol::Star => Some(Op::Mul),
                    Symbol::Slash => Some(Op::Div),
                    Symbol::Percent => Some(Op::Mod),
                    _ => None,
                }
            } else if level == 2 {
                match s {
                    Symbol::Plus => Some(Op::Add),
                    Symbol::Minus => Some(Op::Sub),
                    _ => None,
                }
            } else if level == 3 {
                match s {
                    Symbol::Greater => Some(Op::Gt),
                    Symbol::GreaterEq => Some(Op::Gte),
                    Symbol::Less => Some(Op::Lt),
                    Symbol::LessEq => Some(Op::Lte),
                    Symbol::EqEq => Some(Op::Eq),
                    Symbol::NotEq => Some(Op::Neq),
                    _ => None,
                }
            } else if level == 4 {
                match s {
                    Symbol::And => Some(Op::And),
                    Symbol::Or => Some(Op::Or),
                    _ => None,
                }
            } else {
                None
            }
        },
        _ => None,
    }
}

/// The prefix operator at `pos`.
pub(crate) fn prefix_op(tokens: &Vec<Token>, pos: usize) -> (r: Option<Op>)
    ensures
        r == prefix_at(tokens_view(tokens@), pos as int),
{
    if pos >= tokens.len() {
        return None;
    }
    match &tokens[pos].tkn {
        Tkn::Symbol(s) => match s {
            Symbol::Bang => Some(Op::Not),
            Symbol::Minus => Some(Op::Neg),
            _ => None,
        },
        _ => None,
    }
}

/// Parses the expression that begins at `pos`. Gives the node and the place
/// after it, or the failure; what was recovered from on the way is added to
/// the diagnostics.
pub fn expression(tokens: &Vec<Token>, pos: usize, end: usize, errors: &mut Vec<Diagnostic>) -> (r:
    Result<(Node, usize), Diagnostic>)
    requires
        pos <= tokens.len(),
    ensures
        agrees(
            r,
            final(errors)@,
            expression_at(
                tokens_view(tokens@),
                pos as int,
                end,
                diagnostics_view(old(errors)@),
            ),
        ),
        r matches Ok((_, q)) ==> pos < q <= tokens.len(),
    decreases tokens.len() - pos, 12nat,
{
    proof {
        reveal(expression_at);
    }
    parse_tier(tokens, pos, end, 4, errors)
}

/// Operands of the next stronger binding, joined by operators of the
/// binding strength `level`.
fn parse_tier(
    tokens: &Vec<Token>,
    pos: usize,
    end: usize,
    level: usize,
    errors: &mut Vec<Diagnostic>,
) -> (r: Result<(Node, usize), Diagnostic>)
    requires
        pos <= tokens.len(),
        1 <= level <= 4,
    ensures
        agrees(
            r,
            final(errors)@,
            tier(
                tokens_view(tokens@),
                pos as int,
                end,
                level as nat,
                diagnostics_view(old(errors)@),
            ),
        ),
        r matches Ok((_, q)) ==> pos < q <= tokens.len(),
    decreases tokens.len() - pos, 2 * level + 3,
{
    let first = if level == 1 {
        parse_unary(tokens, pos, end, errors)
    } else {
        parse_tier(tokens, pos, end, level - 1, errors)
    };
    match first {
        Err(d) => Err(d),
        Ok((node, p)) => parse_tier_rest(tokens, node, p, end, level, errors),
    }
}

/// What follows the operand `left`, which ended at `pos`.
#[verifier::loop_isolation(false)]
fn parse_tier_rest(
    tokens: &Vec<Token>,
    left: Node,
    pos: usize,
    end: usize,
    level: usize,
    errors: &mut Vec<Diagnostic>,
) -> (r: Result<(Node, usize), Diagnostic>)
    requires
        pos <= tokens.len(),
        1 <= level <= 4,
    ensures
        agrees(
            r,
            final(errors)@,
            tier_rest(
                tokens_view(tokens@),
                left@,
                pos as int,
                end,
                level as nat,
                diagnostics_view(old(errors)@),
            ),
        ),
        r matches Ok((_, q)) ==> pos <= q <= tokens.len(),
    decreases tokens.len() - pos, 2 * level + 2,
{
    let ghost t = tokens_view(tokens@);
    let ghost goal = tier_rest(
        t,
        left@,
        pos as int,
        end,
        level as nat,
        diagnostics_view(errors@),
    );
    let ghost first = left@;
    let mut left = left;
    let mut p = pos;
    loop
        invariant
            pos <= p <= tokens.len(),
            1 <= level <= 4,
            t == tokens_view(tokens@),
            goal == tier_rest(
                t,
                first,
                pos as int,
                end,
                level as nat,
                diagnostics_view(old(errors)@),
            ),
            goal == tier_rest(t, left@, p as int, end, level as nat, diagnostics_view(errors@)),
        decreases tokens.len() - p,
    {
        match binary_op(tokens, p, level) {
            None => {
                return Ok((left, p));
            },
            Some(op) => {
                let right = if level == 1 {
                    parse_unary(tokens, p + 1, end, errors)
                } else {
                    parse_tier(tokens, p + 1, end, level - 1, errors)
                };
                match right {
                    Err(d) => {
                        return Err(d);
                    },
                    Ok((node, q)) => {
                        let span = joined(left.span, node.span);
                        left = Node { expr: Expr::BnOp(Box::new(left), op, Box::new(node)), span };
                        p = q;
                    },
                }
            },
        }
    }
}

/// Prefix operators, then what they apply to.
fn parse_unary(tokens: &Vec<Token>, pos: usize, end: usize, errors: &mut Vec<Diagnostic>) -> (r:
    Result<(Node, usize), Diagnostic>)
    requires
        pos <= tokens.len(),
    ensures
        agrees(
            r,
            final(errors)@,
            unary_at(tokens_view(tokens@), pos as int, end, diagnostics_view(old(errors)@)),
        ),
        r matches Ok((_, q)) ==> pos < q <= tokens.len(),
    decreases tokens.len() - pos, 3nat,
{
    match prefix_op(tokens, pos) {
        Some(op) => {
            match parse_unary(tokens, pos + 1, end, errors) {
                Err(d) => Err(d),
                Ok((node, q)) => {
                    let span = joined(tokens[pos].span, node.span);
                    Ok((Node { expr: Expr::UnOp(op, Box::new(node)), span }, q))
                },
            }
        },
        None => parse_call(tokens, pos, end, errors),
    }
}

/// The call of `callee` with the arguments.
fn make_call(callee: Node, args: Vec<Node>, span: Span) -> (r: Node)
    ensures
        r@ == call_of(callee@, nodes_view(args@), span),
{
    proof {
        reveal_strlit("print");
    }
    assert(callee@.expr == callee.expr@);
    let reserved = match &callee.expr {
        Expr::Var(name) => same_bytes(name, &text("print")),
        _ => {
            assert(!(callee.expr@ is Var));
            false
        },
    };
    if reserved {
        match callee.expr {
            Expr::Var(name) => Node { expr: Expr::ReservedCall(name, args), span },
            _ => Node { expr: Expr::Error, span },
        }
    } else {
        Node { expr: Expr::Call(Box::new(callee), args), span }
    }
}

/// An atom and, where a `(` follows it, the arguments of a call.
fn parse_call(tokens: &Vec<Token>, pos: usize, end: usize, errors: &mut Vec<Diagnostic>) -> (r:
    Result<(Node, usize), Diagnostic>)
    requires
        pos <= tokens.len(),
    ensures
        agrees(
            r,
            final(errors)@,
            call_at(tokens_view(tokens@), pos as int, end, diagnostics_view(old(errors)@)),
        ),
        r matches Ok((_, q)) ==> pos < q <= tokens.len(),
    decreases tokens.len() - pos, 1nat,
{
    match parse_atom(tokens, pos, end, errors) {
        Err(d) => Err(d),
        Ok((callee, open)) => {
            if !peek_delimiter(tokens, open, '(') {
                return Ok((callee, open));
            }
            let mark = errors.len();
            let bad = match parse_items(tokens, open + 1, end, ')', errors) {
                Err(d) => d,
                Ok((args, close)) => {
                    if peek_delimiter(tokens, close, ')') {
                        let span = joined(callee.span, tokens[close].span);
                        return Ok((make_call(callee, args, span), close + 1));
                    }
                    problem(Problem::ExpectedClosing(')'), span_of(tokens, close, end))
                },
            };
            match recover(tokens, open, ')', Production::Arguments, mark, errors, bad) {
                Err(d) => Err(d),
                Ok((node, q)) => {
                    let span = joined(callee.span, node.span);
                    let mut args: Vec<Node> = Vec::new();
                    args.push(node);
                    assert(nodes_view(args@) =~= seq![node@]);
                    Ok((make_call(callee, args, span), q))
                },
            }
        },
    }
}

/// The node that holds a value.
pub(crate) fn value_node(v: Value, span: Span) -> (r: Node)
    ensures
        r@ == (NodeV { expr: ExprV::Val(v@), span }),
{
    Node { expr: Expr::Val(v), span }
}

/// The node that reads a variable.
pub(crate) fn variable_node(name: Vec<u8>, span: Span) -> (r: Node)
    ensures
        r@ == (NodeV { expr: ExprV::Var(name@), span }),
{
    Node { expr: Expr::Var(name), span }
}

/// The node that stands for what could not be parsed.
pub(crate) fn error_node(span: Span) -> (r: Node)
    ensures
        r@ == (NodeV { expr: ExprV::Error, span }),
{
    Node { expr: Expr::Error, span }
}

/// A literal, a name, or a group.
fn parse_atom(tokens: &Vec<Token>, pos: usize, end: usize, errors: &mut Vec<Diagnostic>) -> (r:
    Result<(Node, usize), Diagnostic>)
    requires
        pos <= tokens.len(),
    ensures
        agrees(
            r,
            final(errors)@,
            atom_at(tokens_view(tokens@), pos as int, end, diagnostics_view(old(errors)@)),
        ),
        r matches Ok((_, q)) ==> pos < q <= tokens.len(),
    decreases tokens.len() - pos, 0nat,
{
    let span = span_of(tokens, pos, end);
    if pos >= tokens.len() {
        return Err(problem(Problem::ExpectedExpression, span));
    }
    match &tokens[pos].tkn {
        Tkn::Number(n) => Ok((value_node(Value::Num(*n), span), pos + 1)),
        Tkn::Str(s) => Ok((value_node(Value::Str(copy_bytes(s)), span), pos + 1)),
        Tkn::Bool(b) => Ok((value_node(Value::Bool(*b), span), pos + 1)),
        Tkn::Identifier(name) => Ok((variable_node(copy_bytes(name), span), pos + 1)),
        Tkn::Delimiter(c) => {
            if *c == '(' {
                parse_group(tokens, pos, end, errors)
            } else if *c == '[' {
                parse_vector(tokens, pos, end, errors)
            } else if *c == '{' {
                parse_object(tokens, pos, end, errors)
            } else {
                Err(problem(Problem::ExpectedExpression, span))
            }
        },
        Tkn::Symbol(s) => {
            if *s != Symbol::Semicolon && *s != Symbol::Comma {
                let ghost before = diagnostics_view(errors@);
                let d = problem(Problem::ExpectedExpression, span);
                errors.push(d);
                assert(diagnostics_view(errors@) =~= before.push(d@));
                Ok((error_node(span), pos + 1))
            } else {
                Err(problem(Problem::ExpectedExpression, span))
            }
        },
        Tkn::Keyword(_) => Err(problem(Problem::ExpectedExpression, span)),
        Tkn::Newline => Err(problem(Problem::ExpectedExpression, span)),
    }
}

/// An expression in parentheses; `pos` is the place of the `(`.
fn parse_group(tokens: &Vec<Token>, pos: usize, end: usize, errors: &mut Vec<Diagnostic>) -> (r:
    Result<(Node, usize), Diagnostic>)
    requires
        pos < tokens.len(),
        is_delimiter(tokens_view(tokens@), pos as int, '('),
    ensures
        agrees(
            r,
            final(errors)@,
            group_at(tokens_view(tokens@), pos as int, end, diagnostics_view(old(errors)@)),
        ),
        r matches Ok((_, q)) ==> pos < q <= tokens.len(),
    decreases tokens.len() - pos - 1, 20nat,
{
    proof {
        reveal(expression_at);
    }
    let mark = errors.len();
    let start = skip_newlines(tokens, pos + 1);
    let bad = match expression(tokens, start, end, errors) {
        Err(d) => d,
        Ok((node, p)) => {
            let close = skip_newlines(tokens, p);
            if peek_delimiter(tokens, close, ')') {
                return Ok((node, close + 1));
            }
            problem(Problem::ExpectedClosing(')'), span_of(tokens, close, end))
        },
    };
    recover(tokens, pos, ')', Production::Expression, mark, errors, bad)
}

/// A vector literal; `pos` is the place of the `[`.
fn parse_vector(tokens: &Vec<Token>, pos: usize, end: usize, errors: &mut Vec<Diagnostic>) -> (r:
    Result<(Node, usize), Diagnostic>)
    requires
        pos < tokens.len(),
        is_delimiter(tokens_view(tokens@), pos as int, '['),
    ensures
        agrees(
            r,
            final(errors)@,
            vector_at(tokens_view(tokens@), pos as int, end, diagnostics_view(old(errors)@)),
        ),
        r matches Ok((_, q)) ==> pos < q <= tokens.len(),
    decreases tokens.len() - pos - 1, 20nat,
{
    let mark = errors.len();
    let bad = match parse_items(tokens, pos + 1, end, ']', errors) {
        Err(d) => d,
        Ok((items, close)) => {
            if peek_delimiter(tokens, close, ']') {
                let span = joined(tokens[pos].span, tokens[close].span);
                return Ok((value_node(Value::Vec(items), span), close + 1));
            }
            problem(Problem::ExpectedClosing(']'), span_of(tokens, close, end))
        },
    };
    recover(tokens, pos, ']', Production::Vector, mark, errors, bad)
}

/// An object literal; `pos` is the place of the `{`.
fn parse_object(tokens: &Vec<Token>, pos: usize, end: usize, errors: &mut Vec<Diagnostic>) -> (r:
    Result<(Node, usize), Diagnostic>)
    requires
        pos < tokens.len(),
        is_delimiter(tokens_view(tokens@), pos as int, '{'),
    ensures
        agrees(
            r,
            final(errors)@,
            object_at(tokens_view(tokens@), pos as int, end, diagnostics_view(old(errors)@)),
        ),
        r matches Ok((_, q)) ==> pos < q <= tokens.len(),
    decreases tokens.len() - pos - 1, 20nat,
{
    let mark = errors.len();
    let start = skip_newlines(tokens, pos + 1);
    let parsed = if peek_delimiter(tokens, start, '}') {
        let empty: Vec<(Key, Node)> = Vec::new();
        assert(entries_view(empty@) =~= Seq::empty());
        Ok((empty, start))
    } else {
        let before: Vec<(Key, Node)> = Vec::new();
        assert(entries_view(before@) =~= Seq::empty());
        parse_entries(tokens, start, end, before, errors)
    };
    let bad = match parsed {
        Err(d) => d,
        Ok((entries, close)) => {
            if peek_delimiter(tokens, close, '}') {
                let span = joined(tokens[pos].span, tokens[close].span);
                return Ok((value_node(Value::Obj(entries), span), close + 1));
            }
            problem(Problem::ExpectedClosing('}'), span_of(tokens, close, end))
        },
    };
    recover(tokens, pos, '}', Production::Object, mark, errors, bad)
}

/// Expressions divided by `,`, up to the delimiter `closer`.
#[verifier::loop_isolation(false)]
fn parse_items(
    tokens: &Vec<Token>,
    pos: usize,
    end: usize,
    closer: char,
    errors: &mut Vec<Diagnostic>,
) -> (r: Result<(Vec<Node>, usize), Diagnostic>)
    requires
        pos <= tokens.len(),
    ensures
        agrees_list(
            r,
            final(errors)@,
            items_at(
                tokens_view(tokens@),
                pos as int,
                end,
                closer,
                diagnostics_view(old(errors)@),
            ),
        ),
        r matches Ok((_, q)) ==> pos <= q <= tokens.len(),
    decreases tokens.len() - pos, 14nat,
{
    proof {
        reveal(expression_at);
    }
    let ghost t = tokens_view(tokens@);
    let start = skip_newlines(tokens, pos);
    let mut items: Vec<Node> = Vec::new();
    assert(nodes_view(items@) =~= Seq::empty());
    if peek_delimiter(tokens, start, closer) {
        return Ok((items, start));
    }
    let ghost goal = items_rest(t, start as int, end, Seq::empty(), diagnostics_view(errors@));
    let mut p = start;
    loop
        invariant
            pos <= p <= tokens.len(),
            t == tokens_view(tokens@),
            goal == items_at(t, pos as int, end, closer, diagnostics_view(old(errors)@)),
            goal == items_rest(t, p as int, end, nodes_view(items@), diagnostics_view(errors@)),
        decreases tokens.len() - p,
    {
        match expression(tokens, p, end, errors) {
            Err(d) => {
                return Err(d);
            },
            Ok((node, q)) => {
                let ghost before = nodes_view(items@);
                items.push(node);
                assert(nodes_view(items@) =~= before.push(node@));
                let after = skip_newlines(tokens, q);
                if peek_symbol(tokens, after, Symbol::Comma) {
                    p = skip_newlines(tokens, after + 1);
                } else {
                    return Ok((items, after));
                }
            },
        }
    }
}

/// The key that the token at `pos` is.
fn parse_key(tokens: &Vec<Token>, pos: usize) -> (r: Option<Key>)
    ensures
        r matches Some(k) ==> key_at(tokens_view(tokens@), pos as int) == Some(k@) && pos
            < tokens.len(),
        r is None ==> key_at(tokens_view(tokens@), pos as int) is None,
{
    if pos >= tokens.len() {
        return None;
    }
    match &tokens[pos].tkn {
        Tkn::Number(n) => Some(Key::Num(*n)),
        Tkn::Str(s) => Some(Key::Str(copy_bytes(s))),
        _ => None,
    }
}

/// The entries of an object from `pos` on, added to those before.
#[verifier::loop_isolation(false)]
fn parse_entries(
    tokens: &Vec<Token>,
    pos: usize,
    end: usize,
    before: Vec<(Key, Node)>,
    errors: &mut Vec<Diagnostic>,
) -> (r: Result<(Vec<(Key, Node)>, usize), Diagnostic>)
    requires
        pos <= tokens.len(),
    ensures
        agrees_entries(
            r,
            final(errors)@,
            entries_at(
                tokens_view(tokens@),
                pos as int,
                end,
                entries_view(before@),
                diagnostics_view(old(errors)@),
            ),
        ),
        r matches Ok((_, q)) ==> pos <= q <= tokens.len(),
    decreases tokens.len() - pos, 13nat,
{
    proof {
        reveal(expression_at);
    }
    let ghost t = tokens_view(tokens@);
    let ghost goal = entries_at(
        t,
        pos as int,
        end,
        entries_view(before@),
        diagnostics_view(errors@),
    );
    let ghost first = entries_view(before@);
    let mut entries = before;
    let mut p = pos;
    loop
        invariant
            pos <= p <= tokens.len(),
            t == tokens_view(tokens@),
            goal == entries_at(t, pos as int, end, first, diagnostics_view(old(errors)@)),
            goal == entries_at(t, p as int, end, entries_view(entries@), diagnostics_view(errors@)),
        decreases tokens.len() - p,
    {
        let key = match parse_key(tokens, p) {
            None => {
                return Err(problem(Problem::ExpectedKey, span_of(tokens, p, end)));
            },
            Some(k) => k,
        };
        let colon = skip_newlines(tokens, p + 1);
        if !peek_symbol(tokens, colon, Symbol::Colon) {
            return Err(problem(Problem::ExpectedColon, span_of(tokens, colon, end)));
        }
        let from = skip_newlines(tokens, colon + 1);
        match expression(tokens, from, end, errors) {
            Err(d) => {
                return Err(d);
            },
            Ok((node, q)) => {
                put_entry(&mut entries, key, node);
                let after = skip_newlines(tokens, q);
                if peek_symbol(tokens, after, Symbol::Comma) {
                    let next = skip_newlines(tokens, after + 1);
                    if peek_delimiter(tokens, next, '}') {
                        return Ok((entries, next));
                    }
                    p = next;
                } else {
                    return Ok((entries, after));
                }
            },
        }
    }
}

} // verus!
