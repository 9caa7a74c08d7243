//! Merging: an `if` without an `else`, followed at once by an `else` that
//! stands apart, becomes one node, and the slot of the `else` becomes empty.
use crate::passers::fold::at;
use crate::types::{
    copy_bytes, copy_names, copy_node, nodes_view, Expr, ExprV, Node, NodeV, Value, ValueV,
};
use vstd::prelude::*;

verus! {

/// Whether the node is what stands for a branch that was not written.
pub open spec fn absent(n: NodeV) -> bool {
    n.expr == ExprV::Val(ValueV::Undefined)
}

/// Whether the node is an `if` without an `else`.
pub open spec fn open_if(n: NodeV) -> bool {
    n.expr matches ExprV::If(_, _, e) && absent(*e)
}

/// The node with the statement lists inside it merged.
pub open spec fn merged_node(n: NodeV) -> NodeV
    decreases n,
{
    match n.expr {
        ExprV::If(c, t, e) => at(
            n,
            ExprV::If(c, Box::new(merged_node(*t)), Box::new(merged_node(*e))),
        ),
        ExprV::While(c, b) => at(n, ExprV::While(c, Box::new(merged_node(*b)))),
        ExprV::Fn(name, params, b) => at(n, ExprV::Fn(name, params, Box::new(merged_node(*b)))),
        ExprV::Else(b) => at(n, ExprV::Else(Box::new(merged_node(*b)))),
        ExprV::Block(l) => at(n, ExprV::Block(merged_list(l))),
        _ => n,
    }
}

/// What stands at place `i` after merging: the `if` with the body of the
/// `else` that follows it, an empty slot for an `else` that was taken, and
/// any other node with its own lists merged.
pub open spec fn merged_at(s: Seq<NodeV>, i: int) -> NodeV
    recommends
        0 <= i < s.len(),
    decreases s, 0nat,
{
    if !(0 <= i < s.len()) {
        arbitrary()
    } else if open_if(s[i]) && i + 1 < s.len() && s[i + 1].expr is Else {
        match (s[i].expr, s[i + 1].expr) {
            (ExprV::If(c, t, _), ExprV::Else(b)) => at(
                s[i],
                ExprV::If(c, Box::new(merged_node(*t)), Box::new(merged_node(*b))),
            ),
            _ => s[i],
        }
    } else if s[i].expr is Else && i > 0 && open_if(s[i - 1]) {
        at(s[i], ExprV::Nl)
    } else {
        merged_node(s[i])
    }
}

/// The statement list after merging.
pub open spec fn merged_list(s: Seq<NodeV>) -> Seq<NodeV>
    decreases s, 1nat,
{
    Seq::new(s.len(), |i: int| merged_at(s, i))
}

/// Whether the node is what stands for a branch that was not written.
pub(crate) fn is_absent(n: &Node) -> (r: bool)
    ensures
        r == absent(n@),
{
    assert(n@.expr == n.expr@);
    match &n.expr {
        Expr::Val(v) => match v {
            Value::Undefined => true,
            _ => false,
        },
        _ => {
            assert(!(n.expr@ is Val));
            false
        },
    }
}

/// Whether the node is an `if` without an `else`.
pub(crate) fn is_open_if(n: &Node) -> (r: bool)
    ensures
        r == open_if(n@),
{
    assert(n@.expr == n.expr@);
    match &n.expr {
        Expr::If(_, _, e) => is_absent(e),
        _ => {
            assert(!(n.expr@ is If));
            false
        },
    }
}

/// Whether the node is an `else` that stands apart.
fn is_else(n: &Node) -> (r: bool)
    ensures
        r == (n@.expr is Else),
{
    assert(n@.expr == n.expr@);
    match &n.expr {
        Expr::Else(_) => true,
        _ => {
            assert(!(n.expr@ is Else));
            false
        },
    }
}

/// The node with the statement lists inside it merged.
pub(crate) fn merge_node(n: &Node) -> (r: Node)
    ensures
        r@ == merged_node(n@),
    decreases n,
{
    let span = n.span;
    match &n.expr {
        Expr::If(c, t, e) => Node {
            expr: Expr::If(
                Box::new(copy_node(c)),
                Box::new(merge_node(t)),
                Box::new(merge_node(e)),
            ),
            span,
        },
        Expr::While(c, b) => Node {
            expr: Expr::While(Box::new(copy_node(c)), Box::new(merge_node(b))),
            span,
        },
        Expr::Fn(name, params, b) => Node {
            expr: Expr::Fn(copy_bytes(name), copy_names(params), Box::new(merge_node(b))),
            span,
        },
        Expr::Else(b) => Node { expr: Expr::Else(Box::new(merge_node(b))), span },
        Expr::Block(l) => Node { expr: Expr::Block(merge_list(l)), span },
        _ => copy_node(n),
    }
}

/// The `if` at place `i` with the body of the `else` after it.
fn merge_pair(s: &Vec<Node>, i: usize) -> (r: Node)
    requires
        i + 1 < s.len(),
        open_if(s@[i as int]@),
        s@[i + 1]@.expr is Else,
    ensures
        r@ == merged_at(nodes_view(s@), i as int),
    decreases s, 0nat,
{
    assert(s@[i as int]@.expr == s@[i as int].expr@);
    assert(s@[i + 1]@.expr == s@[i + 1].expr@);
    match (&s[i].expr, &s[i + 1].expr) {
        (Expr::If(c, t, _), Expr::Else(b)) => Node {
            expr: Expr::If(
                Box::new(copy_node(c)),
                Box::new(merge_node(t)),
                Box::new(merge_node(b)),
            ),
            span: s[i].span,
        },
        _ => copy_node(&s[i]),
    }
}

/// The statement list after merging.
pub(crate) fn merge_list(s: &Vec<Node>) -> (r: Vec<Node>)
    ensures
        nodes_view(r@) == merged_list(nodes_view(s@)),
    decreases s, 1nat,
{
    let ghost sv = nodes_view(s@);
    let mut r: Vec<Node> = Vec::new();
    let mut i: usize = 0;
    while i < s.len()
        invariant
            i <= s.len(),
            r@.len() == i,
            sv == nodes_view(s@),
            forall|j: int| 0 <= j < i ==> r@[j]@ == merged_at(sv, j),
        decreases s.len() - i,
    {
        let node = if is_open_if(&s[i]) && i + 1 < s.len() && is_else(&s[i + 1]) {
            merge_pair(s, i)
        } else if is_else(&s[i]) && i > 0 && is_open_if(&s[i - 1]) {
            Node { expr: Expr::Nl, span: s[i].span }
        } else {
            merge_node(&s[i])
        };
        r.push(node);
        i = i + 1;
    }
    assert forall|j: int| 0 <= j < s.len() implies nodes_view(r@)[j] == merged_list(sv)[j] by {
        assert(r@[j]@ == merged_at(sv, j));
    }
    assert(nodes_view(r@) =~= merged_list(sv));
    r
}

/// Pairs each `if` of the list with the `else` that follows it at once.
pub fn pass(ast: &mut Vec<Node>)
    ensures
        nodes_view(final(ast)@) == merged_list(nodes_view(old(ast)@)),
{
    let r = merge_list(ast);
    *ast = r;
}

} // verus!
