//! Constant folding: an operator whose operands are literals is replaced by
//! what it evaluates to.
use crate::interpreter::operators::{binary, binary_values, unary, unary_value, Res, ResV};
use crate::types::{
    copy_bytes, copy_names, copy_node, copy_value, nodes_view, Expr, ExprV, Node, NodeV, Value,
    ValueV,
};
use vstd::prelude::*;

verus! {

/// Whether a value is a literal: a number, a string or a boolean.
pub open spec fn literal_value(v: ValueV) -> bool {
    v is Num || v is Str || v is Bool
}

/// The literal that a node holds, if it holds one.
pub open spec fn literal_of(n: NodeV) -> Option<ValueV> {
    match n.expr {
        ExprV::Val(v) => if literal_value(v) {
            Some(v)
        } else {
            None
        },
        _ => None,
    }
}

/// A node with the span of `n`.
pub open spec fn at(n: NodeV, expr: ExprV) -> NodeV {
    NodeV { expr, span: n.span }
}

/// The node with every operator on literals evaluated, from the leaves up.
/// An operator stays where an operand is no literal, and where evaluating it
/// fails, as dividing by zero does.
pub open spec fn folded(n: NodeV) -> NodeV
    decreases n,
{
    match n.expr {
        ExprV::UnOp(op, a) => {
            let fa = folded(*a);
            match literal_of(fa) {
                Some(v) => match unary_value(op, v) {
                    ResV::V(x) => at(n, ExprV::Val(x)),
                    ResV::E(_) => at(n, ExprV::UnOp(op, Box::new(fa))),
                },
                None => at(n, ExprV::UnOp(op, Box::new(fa))),
            }
        },
        ExprV::BnOp(a, op, b) => {
            let fa = folded(*a);
            let fb = folded(*b);
            match (literal_of(fa), literal_of(fb)) {
                (Some(x), Some(y)) => match binary_values(op, x, y) {
                    ResV::V(z) => at(n, ExprV::Val(z)),
                    ResV::E(_) => at(n, ExprV::BnOp(Box::new(fa), op, Box::new(fb))),
                },
                _ => at(n, ExprV::BnOp(Box::new(fa), op, Box::new(fb))),
            }
        },
        ExprV::Let(name, a) => at(n, ExprV::Let(name, Box::new(folded(*a)))),
        ExprV::Assign(name, a) => at(n, ExprV::Assign(name, Box::new(folded(*a)))),
        ExprV::Block(l) => at(n, ExprV::Block(folded_all(l))),
        ExprV::Fn(name, params, b) => at(n, ExprV::Fn(name, params, Box::new(folded(*b)))),
        ExprV::Return(a) => at(n, ExprV::Return(Box::new(folded(*a)))),
        ExprV::Call(f, l) => at(n, ExprV::Call(Box::new(folded(*f)), folded_all(l))),
        ExprV::ReservedCall(name, l) => at(n, ExprV::ReservedCall(name, folded_all(l))),
        ExprV::If(c, t, e) => at(
            n,
            ExprV::If(Box::new(folded(*c)), Box::new(folded(*t)), Box::new(folded(*e))),
        ),
        ExprV::Else(b) => at(n, ExprV::Else(Box::new(folded(*b)))),
        ExprV::While(c, b) => at(n, ExprV::While(Box::new(folded(*c)), Box::new(folded(*b)))),
        ExprV::Var(_) => n,
        ExprV::Val(_) => n,
        ExprV::Nl => n,
        ExprV::Error => n,
    }
}

/// Each node of the sequence folded.
pub open spec fn folded_all(s: Seq<NodeV>) -> Seq<NodeV>
    decreases s,
{
    Seq::new(
        s.len(),
        |i: int|
            if 0 <= i < s.len() {
                folded(s[i])
            } else {
                arbitrary()
            },
    )
}

/// Folding what was folded changes nothing.
pub proof fn lemma_fold_fixed_point(n: NodeV)
    ensures
        folded(folded(n)) == folded(n),
    decreases n,
{
    match n.expr {
        ExprV::UnOp(op, a) => {
            lemma_fold_fixed_point(*a);
        },
        ExprV::BnOp(a, op, b) => {
            lemma_fold_fixed_point(*a);
            lemma_fold_fixed_point(*b);
        },
        ExprV::Let(name, a) => {
            lemma_fold_fixed_point(*a);
        },
        ExprV::Assign(name, a) => {
            lemma_fold_fixed_point(*a);
        },
        ExprV::Block(l) => {
            lemma_fold_all_fixed_point(l);
        },
        ExprV::Fn(name, params, b) => {
            lemma_fold_fixed_point(*b);
        },
        ExprV::Return(a) => {
            lemma_fold_fixed_point(*a);
        },
        ExprV::Call(f, l) => {
            lemma_fold_fixed_point(*f);
            lemma_fold_all_fixed_point(l);
        },
        ExprV::ReservedCall(name, l) => {
            lemma_fold_all_fixed_point(l);
        },
        ExprV::If(c, t, e) => {
            lemma_fold_fixed_point(*c);
            lemma_fold_fixed_point(*t);
            lemma_fold_fixed_point(*e);
        },
        ExprV::Else(b) => {
            lemma_fold_fixed_point(*b);
        },
        ExprV::While(c, b) => {
            lemma_fold_fixed_point(*c);
            lemma_fold_fixed_point(*b);
        },
        ExprV::Var(_) => {},
        ExprV::Val(_) => {},
        ExprV::Nl => {},
        ExprV::Error => {},
    }
}

/// Folding a sequence that was folded changes nothing.
pub proof fn lemma_fold_all_fixed_point(s: Seq<NodeV>)
    ensures
        folded_all(folded_all(s)) == folded_all(s),
    decreases s,
{
    assert forall|i: int| 0 <= i < s.len() implies folded(#[trigger] folded_all(s)[i])
        == folded_all(s)[i] by {
        lemma_fold_fixed_point(s[i]);
    }
    assert(folded_all(folded_all(s)) =~= folded_all(s));
}

/// The literal that a node holds, if it holds one.
fn literal(n: &Node) -> (r: Option<Value>)
    ensures
        r matches Some(v) ==> literal_of(n@) == Some(v@),
        r is None ==> literal_of(n@) is None,
{
    assert(n@.expr == n.expr@);
    match &n.expr {
        Expr::Val(v) => match v {
            Value::Num(_) => Some(copy_value(v)),
            Value::Str(_) => Some(copy_value(v)),
            Value::Bool(_) => Some(copy_value(v)),
            Value::Undefined => None,
            Value::Vec(_) => None,
            Value::Obj(_) => None,
            Value::Fn(_, _, _) => None,
        },
        _ => {
            assert(!(n.expr@ is Val));
            None
        },
    }
}

/// Folds a unary operator whose operand is folded already.
fn fold_unary(node: &Node, fa: Node) -> (r: Node)
    requires
        node.expr matches Expr::UnOp(op, a) && fa@ == folded(a@),
    ensures
        r@ == folded(node@),
{
    match &node.expr {
        Expr::UnOp(op, _) => {
            match literal(&fa) {
                Some(v) => match unary(*op, v) {
                    Res::V(x) => Node { expr: Expr::Val(x), span: node.span },
                    Res::E(_) => Node { expr: Expr::UnOp(*op, Box::new(fa)), span: node.span },
                },
                None => Node { expr: Expr::UnOp(*op, Box::new(fa)), span: node.span },
            }
        },
        _ => fa,
    }
}

/// Folds a binary operator whose operands are folded already.
fn fold_binary(node: &Node, fa: Node, fb: Node) -> (r: Node)
    requires
        node.expr matches Expr::BnOp(a, op, b) && fa@ == folded(a@) && fb@ == folded(b@),
    ensures
        r@ == folded(node@),
{
    match &node.expr {
        Expr::BnOp(_, op, _) => {
            match (literal(&fa), literal(&fb)) {
                (Some(x), Some(y)) => match binary(*op, x, y) {
                    Res::V(z) => Node { expr: Expr::Val(z), span: node.span },
                    Res::E(_) => Node {
                        expr: Expr::BnOp(Box::new(fa), *op, Box::new(fb)),
                        span: node.span,
                    },
                },
                _ => Node { expr: Expr::BnOp(Box::new(fa), *op, Box::new(fb)), span: node.span },
            }
        },
        _ => fa,
    }
}

/// The node with every operator on literals evaluated, from the leaves up.
pub fn fold(node: &Node) -> (r: Node)
    ensures
        r@ == folded(node@),
    decreases node,
{
    let span = node.span;
    match &node.expr {
        Expr::UnOp(_, a) => {
            let fa = fold(a);
            fold_unary(node, fa)
        },
        Expr::BnOp(a, _, b) => {
            let fa = fold(a);
            let fb = fold(b);
            fold_binary(node, fa, fb)
        },
        Expr::Let(name, a) => Node { expr: Expr::Let(copy_bytes(name), Box::new(fold(a))), span },
        Expr::Assign(name, a) => Node {
            expr: Expr::Assign(copy_bytes(name), Box::new(fold(a))),
            span,
        },
        Expr::Block(l) => Node { expr: Expr::Block(fold_all(l)), span },
        Expr::Fn(name, params, b) => Node {
            expr: Expr::Fn(copy_bytes(name), copy_names(params), Box::new(fold(b))),
            span,
        },
        Expr::Return(a) => Node { expr: Expr::Return(Box::new(fold(a))), span },
        Expr::Call(f, l) => Node { expr: Expr::Call(Box::new(fold(f)), fold_all(l)), span },
        Expr::ReservedCall(name, l) => Node {
            expr: Expr::ReservedCall(copy_bytes(name), fold_all(l)),
            span,
        },
        Expr::If(c, t, e) => Node {
            expr: Expr::If(Box::new(fold(c)), Box::new(fold(t)), Box::new(fold(e))),
            span,
        },
        Expr::Else(b) => Node { expr: Expr::Else(Box::new(fold(b))), span },
        Expr::While(c, b) => Node {
            expr: Expr::While(Box::new(fold(c)), Box::new(fold(b))),
            span,
        },
        Expr::Var(_) => copy_node(node),
        Expr::Val(_) => copy_node(node),
        Expr::Nl => copy_node(node),
        Expr::Error => copy_node(node),
    }
}

/// Each node of the sequence folded.
pub(crate) fn fold_all(s: &Vec<Node>) -> (r: Vec<Node>)
    ensures
        nodes_view(r@) == folded_all(nodes_view(s@)),
    decreases s,
{
    let mut r: Vec<Node> = Vec::new();
    let mut i: usize = 0;
    while i < s.len()
        invariant
            i <= s.len(),
            r@.len() == i,
            forall|j: int| 0 <= j < i ==> r@[j]@ == folded(s@[j]@),
        decreases s.len() - i,
    {
        r.push(fold(&s[i]));
        i = i + 1;
    }
    assert(nodes_view(r@) =~= folded_all(nodes_view(s@)));
    r
}

/// Folds every statement of the list.
pub fn pass(ast: &mut Vec<Node>)
    ensures
        nodes_view(final(ast)@) == folded_all(nodes_view(old(ast)@)),
{
    let r = fold_all(ast);
    *ast = r;
}

} // verus!
