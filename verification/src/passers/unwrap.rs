//! Unwrapping: a conditional whose condition is a literal boolean is replaced
//! by the statements of the branch that it selects.
use crate::passers::fold::at;
use crate::types::{
    copy_bytes, copy_names, copy_node, nodes_view, Expr, ExprV, Node, NodeV, Value, ValueV,
};
use vstd::prelude::*;

verus! {

/// The boolean that a node holds as a literal, if it holds one.
pub open spec fn literal_bool(n: NodeV) -> Option<bool> {
    match n.expr {
        ExprV::Val(ValueV::Bool(b)) => Some(b),
        _ => None,
    }
}

/// What takes the place of a statement: the statements of the selected branch
/// where it is a conditional with a literal condition, else the statement with
/// the lists inside it unwrapped.
pub open spec fn unwrapped_stmt(n: NodeV) -> Seq<NodeV>
    decreases n, 1nat,
{
    match n.expr {
        ExprV::If(c, t, e) => match literal_bool(*c) {
            Some(b) => if b {
                unwrapped_branch(*t)
            } else {
                unwrapped_branch(*e)
            },
            None => seq![
                at(n, ExprV::If(c, Box::new(unwrapped_body(*t)), Box::new(unwrapped_body(*e)))),
            ],
        },
        ExprV::While(c, b) => seq![at(n, ExprV::While(c, Box::new(unwrapped_body(*b))))],
        ExprV::Fn(name, params, b) => seq![
            at(n, ExprV::Fn(name, params, Box::new(unwrapped_body(*b)))),
        ],
        ExprV::Else(b) => seq![at(n, ExprV::Else(Box::new(unwrapped_body(*b))))],
        ExprV::Block(l) => seq![at(n, ExprV::Block(unwrapped_list(l, l.len())))],
        _ => seq![n],
    }
}

/// The statements of a selected branch, unwrapped: those of a block, none
/// for a branch that was not written, else the one statement.
pub open spec fn unwrapped_branch(n: NodeV) -> Seq<NodeV>
    decreases n, 2nat,
{
    match n.expr {
        ExprV::Block(l) => unwrapped_list(l, l.len()),
        ExprV::Val(ValueV::Undefined) => Seq::empty(),
        _ => unwrapped_stmt(n),
    }
}

/// A body that stays in place, unwrapped: one node again.
pub open spec fn unwrapped_body(n: NodeV) -> NodeV
    decreases n, 2nat,
{
    match n.expr {
        ExprV::Block(l) => at(n, ExprV::Block(unwrapped_list(l, l.len()))),
        _ => {
            let r = unwrapped_stmt(n);
            if r.len() == 1 {
                r[0]
            } else {
                at(n, ExprV::Block(r))
            }
        },
    }
}

/// The first `k` statements of the list, each replaced by what takes its
/// place.
pub open spec fn unwrapped_list(s: Seq<NodeV>, k: nat) -> Seq<NodeV>
    decreases s, k,
{
    if k == 0 || k > s.len() {
        Seq::empty()
    } else {
        unwrapped_list(s, (k - 1) as nat) + unwrapped_stmt(s[k - 1])
    }
}

/// The boolean that a node holds as a literal, if it holds one.
pub(crate) fn as_literal_bool(n: &Node) -> (r: Option<bool>)
    ensures
        r == literal_bool(n@),
{
    assert(n@.expr == n.expr@);
    match &n.expr {
        Expr::Val(v) => match v {
            Value::Bool(b) => Some(*b),
            _ => None,
        },
        _ => {
            assert(!(n.expr@ is Val));
            None
        },
    }
}

/// The one node as a list.
fn single(n: Node) -> (r: Vec<Node>)
    ensures
        nodes_view(r@) == seq![n@],
{
    let mut r: Vec<Node> = Vec::new();
    r.push(n);
    assert(nodes_view(r@) =~= seq![n@]);
    r
}

/// What takes the place of a statement.
pub(crate) fn unwrap_stmt(n: &Node) -> (r: Vec<Node>)
    ensures
        nodes_view(r@) == unwrapped_stmt(n@),
    decreases n, 1nat,
{
    let span = n.span;
    match &n.expr {
        Expr::If(c, t, e) => match as_literal_bool(c) {
            Some(b) => if b {
                unwrap_branch(t)
            } else {
                unwrap_branch(e)
            },
            None => single(
                Node {
                    expr: Expr::If(
                        Box::new(copy_node(c)),
                        Box::new(unwrap_body(t)),
                        Box::new(unwrap_body(e)),
                    ),
                    span,
                },
            ),
        },
        Expr::While(c, b) => single(
            Node { expr: Expr::While(Box::new(copy_node(c)), Box::new(unwrap_body(b))), span },
        ),
        Expr::Fn(name, params, b) => single(
            Node {
                expr: Expr::Fn(copy_bytes(name), copy_names(params), Box::new(unwrap_body(b))),
                span,
            },
        ),
        Expr::Else(b) => single(Node { expr: Expr::Else(Box::new(unwrap_body(b))), span }),
        Expr::Block(l) => single(Node { expr: Expr::Block(unwrap_list(l)), span }),
        _ => single(copy_node(n)),
    }
}

/// The statements of a selected branch, unwrapped.
fn unwrap_branch(n: &Node) -> (r: Vec<Node>)
    ensures
        nodes_view(r@) == unwrapped_branch(n@),
    decreases n, 2nat,
{
    assert(n@.expr == n.expr@);
    match &n.expr {
        Expr::Block(l) => unwrap_list(l),
        Expr::Val(v) => match v {
            Value::Undefined => {
                let r: Vec<Node> = Vec::new();
                assert(nodes_view(r@) =~= Seq::empty());
                r
            },
            _ => unwrap_stmt(n),
        },
        _ => unwrap_stmt(n),
    }
}

/// A body that stays in place, unwrapped.
fn unwrap_body(n: &Node) -> (r: Node)
    ensures
        r@ == unwrapped_body(n@),
    decreases n, 2nat,
{
    match &n.expr {
        Expr::Block(l) => Node { expr: Expr::Block(unwrap_list(l)), span: n.span },
        _ => {
            let mut r = unwrap_stmt(n);
            if r.len() == 1 {
                match r.pop() {
                    Some(only) => only,
                    None => copy_node(n),
                }
            } else {
                Node { expr: Expr::Block(r), span: n.span }
            }
        },
    }
}

/// The statement list with each statement replaced by what takes its place.
pub(crate) fn unwrap_list(s: &Vec<Node>) -> (r: Vec<Node>)
    ensures
        nodes_view(r@) == unwrapped_list(nodes_view(s@), s.len() as nat),
    decreases s, 0nat,
{
    let ghost sv = nodes_view(s@);
    let mut r: Vec<Node> = Vec::new();
    let mut i: usize = 0;
    assert(nodes_view(r@) =~= Seq::empty());
    while i < s.len()
        invariant
            i <= s.len(),
            sv == nodes_view(s@),
            nodes_view(r@) == unwrapped_list(sv, i as nat),
        decreases s.len() - i,
    {
        let mut part = unwrap_stmt(&s[i]);
        proof {
            crate::types::lemma_nodes_view_concat(r@, part@);
        }
        r.append(&mut part);
        i = i + 1;
    }
    r
}

/// Replaces each conditional of the list whose condition is a literal boolean
/// by the statements of the branch that it selects.
pub fn pass(ast: &mut Vec<Node>)
    ensures
        nodes_view(final(ast)@) == unwrapped_list(
            nodes_view(old(ast)@),
            old(ast).len() as nat,
        ),
{
    let r = unwrap_list(ast);
    *ast = r;
}

} // verus!
