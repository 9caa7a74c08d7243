//! What the optimizer leaves as it is.
use crate::interpreter::operators::ResV;
use crate::interpreter::{eval, eval_args, eval_block, eval_loop, MachineV};
use crate::passers::fold::{folded, folded_all};
use crate::types::{print_name, ExprV, NodeV, ValueV};
use vstd::prelude::*;

verus! {

/// Whether no function is defined anywhere in the node.
pub open spec fn defines_no_function(n: NodeV) -> bool
    decreases n,
{
    match n.expr {
        ExprV::Fn(_, _, _) => false,
        ExprV::Let(_, value) => defines_no_function(*value),
        ExprV::Assign(_, value) => defines_no_function(*value),
        ExprV::UnOp(_, value) => defines_no_function(*value),
        ExprV::Return(value) => defines_no_function(*value),
        ExprV::BnOp(l, _, r) => defines_no_function(*l) && defines_no_function(*r),
        ExprV::Block(stmts) => define_no_function(stmts, stmts.len()),
        ExprV::Call(f, args) => defines_no_function(*f) && define_no_function(args, args.len()),
        ExprV::ReservedCall(_, args) => define_no_function(args, args.len()),
        ExprV::If(c, t, e) => defines_no_function(*c) && defines_no_function(*t)
            && defines_no_function(*e),
        ExprV::While(c, b) => defines_no_function(*c) && defines_no_function(*b),
        ExprV::Else(_) => true,
        ExprV::Var(_) => true,
        ExprV::Val(_) => true,
        ExprV::Nl => true,
        ExprV::Error => true,
    }
}

/// Whether no function is defined anywhere in the first `k` nodes.
pub open spec fn define_no_function(l: Seq<NodeV>, k: nat) -> bool
    decreases l, k,
{
    if k == 0 || k > l.len() {
        true
    } else {
        define_no_function(l, (k - 1) as nat) && defines_no_function(l[k - 1])
    }
}

/// Folding changes nothing of what a node does: a node in which no function
/// is defined gives the same result and leaves the same state after it was
/// folded as before.
pub proof fn lemma_fold_keeps_the_meaning(n: NodeV, env: int, m: MachineV, depth: nat, turns: nat)
    requires
        defines_no_function(n),
    ensures
        eval(folded(n), env, m, depth, turns) == eval(n, env, m, depth, turns),
    decreases n, turns + 1,
{
    match n.expr {
        ExprV::UnOp(op, a) => {
            lemma_fold_keeps_the_meaning(*a, env, m, depth, turns);
        },
        ExprV::BnOp(a, op, b) => {
            lemma_fold_keeps_the_meaning(*a, env, m, depth, turns);
            let first = eval(*a, env, m, depth, turns);
            lemma_fold_keeps_the_meaning(*b, env, first.machine, depth, turns);
        },
        ExprV::Let(_, a) => {
            lemma_fold_keeps_the_meaning(*a, env, m, depth, turns);
        },
        ExprV::Assign(_, a) => {
            lemma_fold_keeps_the_meaning(*a, env, m, depth, turns);
        },
        ExprV::Return(a) => {
            lemma_fold_keeps_the_meaning(*a, env, m, depth, turns);
        },
        ExprV::Block(l) => {
            lemma_fold_keeps_the_block(l, l.len(), env, m, depth, turns);
        },
        ExprV::Call(f, l) => {
            lemma_fold_keeps_the_meaning(*f, env, m, depth, turns);
            let o = eval(*f, env, m, depth, turns);
            lemma_fold_keeps_the_arguments(l, l.len(), env, o.machine, depth, turns);
        },
        ExprV::ReservedCall(name, l) => {
            if name == print_name() {
                lemma_fold_keeps_the_arguments(l, l.len(), env, m, depth, turns);
            }
        },
        ExprV::If(c, t, e) => {
            lemma_fold_keeps_the_meaning(*c, env, m, depth, turns);
            let o = eval(*c, env, m, depth, turns);
            match o.res {
                ResV::V(v) => {
                    let inner = crate::interpreter::with_scopes(
                        o.machine,
                        crate::interpreter::env::opened(o.machine.scopes, Some(env as usize)),
                    );
                    let id = o.machine.scopes.len() as int;
                    lemma_fold_keeps_the_meaning(*t, id, inner, depth, turns);
                    lemma_fold_keeps_the_meaning(*e, id, inner, depth, turns);
                },
                ResV::E(_) => {},
            }
        },
        ExprV::While(_, _) => {
            lemma_fold_keeps_the_loop(n, env, m, depth, turns, turns, ResV::V(ValueV::Undefined));
        },
        _ => {},
    }
}

proof fn lemma_fold_keeps_the_block(
    l: Seq<NodeV>,
    k: nat,
    env: int,
    m: MachineV,
    depth: nat,
    turns: nat,
)
    requires
        define_no_function(l, k),
    ensures
        eval_block(folded_all(l), k, env, m, depth, turns) == eval_block(
            l,
            k,
            env,
            m,
            depth,
            turns,
        ),
    decreases l, k,
{
    if k == 0 || k > l.len() {
    } else {
        lemma_fold_keeps_the_block(l, (k - 1) as nat, env, m, depth, turns);
        let prev = eval_block(l, (k - 1) as nat, env, m, depth, turns);
        lemma_fold_keeps_the_meaning(l[k - 1], env, prev.machine, depth, turns);
    }
}

proof fn lemma_fold_keeps_the_arguments(
    l: Seq<NodeV>,
    k: nat,
    env: int,
    m: MachineV,
    depth: nat,
    turns: nat,
)
    requires
        define_no_function(l, k),
    ensures
        eval_args(folded_all(l), k, env, m, depth, turns) == eval_args(l, k, env, m, depth, turns),
    decreases l, k,
{
    if k == 0 || k > l.len() {
    } else {
        lemma_fold_keeps_the_arguments(l, (k - 1) as nat, env, m, depth, turns);
        let prev = eval_args(l, (k - 1) as nat, env, m, depth, turns);
        lemma_fold_keeps_the_meaning(l[k - 1], env, prev.machine, depth, turns);
    }
}

proof fn lemma_fold_keeps_the_loop(
    n: NodeV,
    env: int,
    m: MachineV,
    depth: nat,
    turns: nat,
    left: nat,
    last: ResV,
)
    requires
        defines_no_function(n),
        n.expr is While,
        left <= turns,
    ensures
        eval_loop(folded(n), env, m, depth, turns, left, last) == eval_loop(
            n,
            env,
            m,
            depth,
            turns,
            left,
            last,
        ),
    decreases n, left,
{
    match n.expr {
        ExprV::While(c, b) => {
            if left == 0 || left > turns {
            } else {
                lemma_fold_keeps_the_meaning(*c, env, m, depth, turns);
                let o = eval(*c, env, m, depth, turns);
                match o.res {
                    ResV::V(v) => {
                        if crate::interpreter::operators::truthy(v) {
                            let inner = crate::interpreter::with_scopes(
                                o.machine,
                                crate::interpreter::env::opened(
                                    o.machine.scopes,
                                    Some(env as usize),
                                ),
                            );
                            let id = o.machine.scopes.len() as int;
                            lemma_fold_keeps_the_meaning(*b, id, inner, depth, turns);
                            let r = crate::interpreter::closed(
                                eval(*b, id, inner, depth, turns),
                                id,
                                o.machine.closures,
                            );
                            match r.res {
                                ResV::V(_) => {
                                    lemma_fold_keeps_the_loop(
                                        n,
                                        env,
                                        r.machine,
                                        depth,
                                        turns,
                                        (left - 1) as nat,
                                        r.res,
                                    );
                                },
                                ResV::E(_) => {},
                            }
                        }
                    },
                    ResV::E(_) => {},
                }
            }
        },
        _ => {},
    }
}

} // verus!
