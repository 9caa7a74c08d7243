//! What evaluation does to the names that the scopes hold.
use crate::interpreter::env::{
    assigned, declared, lemma_owner_in_range, lemma_slot_in_range, looked_up, opened, owner, slot,
    EnvironmentV,
};
use crate::interpreter::operators::{EvalError, ResV};
use crate::interpreter::operators::truthy;
use crate::interpreter::{
    bound, eval, eval_args, eval_block, eval_loop, released, with_scopes, MachineV,
};
use crate::types::{print_name, ExprV, NodeV, ValueV};
use vstd::prelude::*;

verus! {

/// The names that a scope holds, in the order they were declared.
pub open spec fn names_of(e: EnvironmentV) -> Seq<Seq<u8>> {
    Seq::new(e.vars.len(), |i: int| e.vars[i].0)
}

/// The scopes `b` are the scopes `a` after something ran in the scope `env`:
/// none of the scopes of `a` is gone or has another parent, none has lost a
/// name, and only `env` may have gained names.
pub open spec fn grown(a: Seq<EnvironmentV>, b: Seq<EnvironmentV>, env: int) -> bool {
    &&& a.len() <= b.len()
    &&& forall|k: int|
        0 <= k < a.len() ==> {
            &&& (#[trigger] b[k]).parent == a[k].parent
            &&& names_of(a[k]).is_prefix_of(names_of(b[k]))
            &&& k != env ==> names_of(b[k]) == names_of(a[k])
        }
}

/// The scopes `b` hold every scope of `a` with the names it had, no more and
/// no fewer.
pub open spec fn kept(a: Seq<EnvironmentV>, b: Seq<EnvironmentV>) -> bool {
    &&& a.len() <= b.len()
    &&& forall|k: int|
        0 <= k < a.len() ==> {
            &&& (#[trigger] b[k]).parent == a[k].parent
            &&& names_of(b[k]) == names_of(a[k])
        }
}

proof fn lemma_kept_grown(a: Seq<EnvironmentV>, b: Seq<EnvironmentV>, env: int)
    requires
        kept(a, b),
    ensures
        grown(a, b, env),
{
    assert forall|k: int| 0 <= k < a.len() implies {
        &&& (#[trigger] b[k]).parent == a[k].parent
        &&& names_of(a[k]).is_prefix_of(names_of(b[k]))
        &&& k != env ==> names_of(b[k]) == names_of(a[k])
    } by {
        assert(names_of(b[k]) == names_of(a[k]));
        assert(names_of(a[k]).is_prefix_of(names_of(a[k])));
    }
}

proof fn lemma_grown_same(a: Seq<EnvironmentV>, env: int)
    ensures
        grown(a, a, env),
        kept(a, a),
{
    lemma_kept_grown(a, a, env);
}

proof fn lemma_grown_chain(
    a: Seq<EnvironmentV>,
    b: Seq<EnvironmentV>,
    c: Seq<EnvironmentV>,
    env: int,
)
    requires
        grown(a, b, env),
        grown(b, c, env),
    ensures
        grown(a, c, env),
{
    assert forall|k: int| 0 <= k < a.len() implies {
        &&& (#[trigger] c[k]).parent == a[k].parent
        &&& names_of(a[k]).is_prefix_of(names_of(c[k]))
        &&& k != env ==> names_of(c[k]) == names_of(a[k])
    } by {
        assert(b[k].parent == a[k].parent);
        assert(c[k].parent == b[k].parent);
        let x = names_of(a[k]);
        let y = names_of(b[k]);
        let z = names_of(c[k]);
        assert(x.is_prefix_of(y));
        assert(y.is_prefix_of(z));
        assert(x.is_prefix_of(z)) by {
            assert(x =~= z.subrange(0, x.len() as int)) by {
                assert(x =~= y.subrange(0, x.len() as int));
                assert(y =~= z.subrange(0, y.len() as int));
            }
        }
    }
}

proof fn lemma_kept_chain(a: Seq<EnvironmentV>, b: Seq<EnvironmentV>, c: Seq<EnvironmentV>)
    requires
        kept(a, b),
        kept(b, c),
    ensures
        kept(a, c),
{
    assert forall|k: int| 0 <= k < a.len() implies {
        &&& (#[trigger] c[k]).parent == a[k].parent
        &&& names_of(c[k]) == names_of(a[k])
    } by {
        assert(b[k].parent == a[k].parent);
        assert(c[k].parent == b[k].parent);
    }
}

/// Declaring adds a name to the one scope.
proof fn lemma_declared_grown(s: Seq<EnvironmentV>, env: int, name: Seq<u8>, v: ValueV)
    requires
        0 <= env < s.len(),
        declared(s, env, name, v) is Some,
    ensures
        grown(s, declared(s, env, name, v).unwrap(), env),
{
    let t = declared(s, env, name, v).unwrap();
    assert forall|k: int| 0 <= k < s.len() implies {
        &&& (#[trigger] t[k]).parent == s[k].parent
        &&& names_of(s[k]).is_prefix_of(names_of(t[k]))
        &&& k != env ==> names_of(t[k]) == names_of(s[k])
    } by {
        if k == env {
            assert(names_of(s[k]) =~= names_of(t[k]).subrange(0, names_of(s[k]).len() as int));
        } else {
            assert(t[k] == s[k]);
            assert(names_of(s[k]).is_prefix_of(names_of(s[k])));
        }
    }
}

/// Assigning changes no name.
proof fn lemma_assigned_kept(s: Seq<EnvironmentV>, env: int, name: Seq<u8>, v: ValueV)
    requires
        assigned(s, env, name, v) is Some,
    ensures
        kept(s, assigned(s, env, name, v).unwrap()),
{
    lemma_owner_in_range(s, env, name);
    let e = owner(s, env, name).unwrap();
    lemma_slot_in_range(s[e].vars, name, 0);
    let t = assigned(s, env, name, v).unwrap();
    assert forall|k: int| 0 <= k < s.len() implies {
        &&& (#[trigger] t[k]).parent == s[k].parent
        &&& names_of(t[k]) == names_of(s[k])
    } by {
        if k == e {
            assert(names_of(t[k]) =~= names_of(s[k]));
        } else {
            assert(t[k] == s[k]);
        }
    }
}

/// Binding parameters adds names to the one scope.
proof fn lemma_bound_grown(
    s: Seq<EnvironmentV>,
    env: int,
    params: Seq<Seq<u8>>,
    args: Seq<ValueV>,
    k: nat,
)
    requires
        0 <= env < s.len(),
    ensures
        grown(s, bound(s, env, params, args, k), env),
    decreases k,
{
    if k == 0 || k > params.len() {
        lemma_grown_same(s, env);
    } else {
        lemma_bound_grown(s, env, params, args, (k - 1) as nat);
        let prev = bound(s, env, params, args, (k - 1) as nat);
        let v = if k - 1 < args.len() {
            args[k - 1]
        } else {
            ValueV::Undefined
        };
        if declared(prev, env, params[k - 1], v) is Some {
            lemma_declared_grown(prev, env, params[k - 1], v);
            lemma_grown_chain(s, prev, declared(prev, env, params[k - 1], v).unwrap(), env);
        }
    }
}

/// What ran in a scope that was opened for it has left the scopes from before
/// with the names they had, whether or not its scopes were released.
proof fn lemma_body_kept(
    b: Seq<EnvironmentV>,
    inner: Seq<EnvironmentV>,
    r: MachineV,
    seen: u64,
)
    requires
        b.len() < inner.len(),
        kept(b, inner),
        grown(inner, r.scopes, b.len() as int),
    ensures
        kept(b, released(r, b.len() as int, seen).scopes),
{
    let after = released(r, b.len() as int, seen).scopes;
    assert forall|k: int| 0 <= k < b.len() implies {
        &&& (#[trigger] after[k]).parent == b[k].parent
        &&& names_of(after[k]) == names_of(b[k])
    } by {
        assert(inner[k].parent == b[k].parent);
        assert(r.scopes[k].parent == inner[k].parent);
        assert(after[k] == r.scopes[k]);
    }
}

/// Opening a scope leaves the scopes from before as they are.
proof fn lemma_opened_kept(s: Seq<EnvironmentV>, parent: Option<usize>)
    ensures
        kept(s, opened(s, parent)),
        s.len() < opened(s, parent).len(),
{
    assert forall|k: int| 0 <= k < s.len() implies {
        &&& (#[trigger] opened(s, parent)[k]).parent == s[k].parent
        &&& names_of(opened(s, parent)[k]) == names_of(s[k])
    } by {
        assert(opened(s, parent)[k] == s[k]);
    }
}

/// What ran in a scope that was opened for it has left the scopes from before
/// with the names they had.
proof fn lemma_inner_kept(b: Seq<EnvironmentV>, inner: Seq<EnvironmentV>, r: Seq<EnvironmentV>)
    requires
        b.len() < inner.len(),
        kept(b, inner),
        grown(inner, r, b.len() as int),
    ensures
        kept(b, r),
        b.len() < r.len(),
{
    assert forall|k: int| 0 <= k < b.len() implies {
        &&& (#[trigger] r[k]).parent == b[k].parent
        &&& names_of(r[k]) == names_of(b[k])
    } by {
        assert(inner[k].parent == b[k].parent);
        assert(r[k].parent == inner[k].parent);
    }
}

/// Evaluating a node in a scope takes no scope and no name away, and adds
/// names to no scope from before but the one it is evaluated in.
pub proof fn lemma_eval_grown(n: NodeV, env: int, m: MachineV, depth: nat, turns: nat)
    requires
        0 <= env < m.scopes.len(),
    ensures
        grown(m.scopes, eval(n, env, m, depth, turns).machine.scopes, env),
    decreases depth, n, turns + 1,
{
    match n.expr {
        ExprV::Let(_, _) => lemma_store_grown(n, env, m, depth, turns),
        ExprV::Assign(_, _) => lemma_store_grown(n, env, m, depth, turns),
        ExprV::Var(_) => lemma_grown_same(m.scopes, env),
        ExprV::BnOp(l, _, r) => {
            lemma_eval_grown(*l, env, m, depth, turns);
            let a = eval(*l, env, m, depth, turns);
            lemma_eval_grown(*r, env, a.machine, depth, turns);
            let b = eval(*r, env, a.machine, depth, turns);
            lemma_grown_chain(m.scopes, a.machine.scopes, b.machine.scopes, env);
        },
        ExprV::UnOp(_, value) => lemma_eval_grown(*value, env, m, depth, turns),
        ExprV::Block(stmts) => lemma_block_grown(stmts, stmts.len(), env, m, depth, turns),
        ExprV::Fn(name, params, body) => {
            let f = ValueV::Fn(params, body, env as usize);
            if declared(m.scopes, env, name, f) is Some {
                lemma_declared_grown(m.scopes, env, name, f);
            } else {
                lemma_grown_same(m.scopes, env);
            }
        },
        ExprV::Return(value) => lemma_eval_grown(*value, env, m, depth, turns),
        ExprV::If(_, _, _) => lemma_if_grown(n, env, m, depth, turns),
        ExprV::While(_, _) => lemma_loop_grown(
            n,
            env,
            m,
            depth,
            turns,
            turns,
            ResV::V(ValueV::Undefined),
        ),
        ExprV::Call(_, _) => lemma_call_grown(n, env, m, depth, turns),
        ExprV::ReservedCall(name, args) => {
            if name == print_name() {
                lemma_args_grown(args, args.len(), env, m, depth, turns);
            } else {
                lemma_grown_same(m.scopes, env);
            }
        },
        ExprV::Val(_) => lemma_grown_same(m.scopes, env),
        ExprV::Nl => lemma_grown_same(m.scopes, env),
        ExprV::Error => lemma_grown_same(m.scopes, env),
        ExprV::Else(_) => lemma_grown_same(m.scopes, env),
    }
}

proof fn lemma_store_grown(n: NodeV, env: int, m: MachineV, depth: nat, turns: nat)
    requires
        0 <= env < m.scopes.len(),
        n.expr is Let || n.expr is Assign,
    ensures
        grown(m.scopes, eval(n, env, m, depth, turns).machine.scopes, env),
    decreases depth, n, 0nat,
{
    match n.expr {
        ExprV::Let(name, value) => {
            lemma_eval_grown(*value, env, m, depth, turns);
            let o = eval(*value, env, m, depth, turns);
            match o.res {
                ResV::V(v) => {
                    if declared(o.machine.scopes, env, name, v) is Some {
                        lemma_declared_grown(o.machine.scopes, env, name, v);
                        lemma_grown_chain(
                            m.scopes,
                            o.machine.scopes,
                            declared(o.machine.scopes, env, name, v).unwrap(),
                            env,
                        );
                    }
                },
                ResV::E(_) => {},
            }
        },
        ExprV::Assign(name, value) => {
            lemma_eval_grown(*value, env, m, depth, turns);
            let o = eval(*value, env, m, depth, turns);
            match o.res {
                ResV::V(v) => {
                    if assigned(o.machine.scopes, env, name, v) is Some {
                        let t = assigned(o.machine.scopes, env, name, v).unwrap();
                        lemma_assigned_kept(o.machine.scopes, env, name, v);
                        lemma_kept_grown(o.machine.scopes, t, env);
                        lemma_grown_chain(m.scopes, o.machine.scopes, t, env);
                    }
                },
                ResV::E(_) => {},
            }
        },
        _ => {},
    }
}

proof fn lemma_if_grown(n: NodeV, env: int, m: MachineV, depth: nat, turns: nat)
    requires
        0 <= env < m.scopes.len(),
        n.expr is If,
    ensures
        grown(m.scopes, eval(n, env, m, depth, turns).machine.scopes, env),
    decreases depth, n, 0nat,
{
    match n.expr {
        ExprV::If(c, t, e) => {
            lemma_eval_grown(*c, env, m, depth, turns);
            let o = eval(*c, env, m, depth, turns);
            match o.res {
                ResV::V(v) => {
                    let b = o.machine.scopes;
                    let inner = with_scopes(o.machine, opened(b, Some(env as usize)));
                    let id = b.len() as int;
                    lemma_opened_kept(b, Some(env as usize));
                    let branch = if truthy(v) {
                        *t
                    } else {
                        *e
                    };
                    lemma_eval_grown(branch, id, inner, depth, turns);
                    let r = eval(branch, id, inner, depth, turns);
                    lemma_body_kept(b, inner.scopes, r.machine, o.machine.closures);
                    let after = released(r.machine, id, o.machine.closures).scopes;
                    lemma_kept_grown(b, after, env);
                    lemma_grown_chain(m.scopes, b, after, env);
                },
                ResV::E(_) => {},
            }
        },
        _ => {},
    }
}

proof fn lemma_call_grown(n: NodeV, env: int, m: MachineV, depth: nat, turns: nat)
    requires
        0 <= env < m.scopes.len(),
        n.expr is Call,
    ensures
        grown(m.scopes, eval(n, env, m, depth, turns).machine.scopes, env),
    decreases depth, n, 0nat,
{
    match n.expr {
        ExprV::Call(f, args) => {
            lemma_eval_grown(*f, env, m, depth, turns);
            let o = eval(*f, env, m, depth, turns);
            match o.res {
                ResV::V(ValueV::Fn(params, body, captured)) => {
                    lemma_args_grown(args, args.len(), env, o.machine, depth, turns);
                    let a = eval_args(args, args.len(), env, o.machine, depth, turns);
                    let b = a.machine.scopes;
                    lemma_grown_chain(m.scopes, o.machine.scopes, b, env);
                    if a.error is None && captured < b.len() && depth > 0 {
                        let id = b.len() as int;
                        let first = opened(b, Some(captured));
                        lemma_opened_kept(b, Some(captured));
                        lemma_bound_grown(first, id, params, a.vals, params.len());
                        let s = bound(first, id, params, a.vals, params.len());
                        lemma_inner_kept(b, first, s);
                        let inner = with_scopes(a.machine, s);
                        lemma_eval_grown(*body, id, inner, (depth - 1) as nat, turns);
                        let r = eval(*body, id, inner, (depth - 1) as nat, turns);
                        lemma_body_kept(b, s, r.machine, a.machine.closures);
                        let after = released(r.machine, id, a.machine.closures).scopes;
                        lemma_kept_grown(b, after, env);
                        lemma_grown_chain(m.scopes, b, after, env);
                    }
                },
                ResV::V(_) => {},
                ResV::E(_) => {},
            }
        },
        _ => {},
    }
}

proof fn lemma_block_grown(
    stmts: Seq<NodeV>,
    k: nat,
    env: int,
    m: MachineV,
    depth: nat,
    turns: nat,
)
    requires
        0 <= env < m.scopes.len(),
    ensures
        grown(m.scopes, eval_block(stmts, k, env, m, depth, turns).machine.scopes, env),
    decreases depth, stmts, k,
{
    if k == 0 || k > stmts.len() {
        lemma_grown_same(m.scopes, env);
    } else {
        lemma_block_grown(stmts, (k - 1) as nat, env, m, depth, turns);
        let prev = eval_block(stmts, (k - 1) as nat, env, m, depth, turns);
        lemma_eval_grown(stmts[k - 1], env, prev.machine, depth, turns);
        let o = eval(stmts[k - 1], env, prev.machine, depth, turns);
        lemma_grown_chain(m.scopes, prev.machine.scopes, o.machine.scopes, env);
    }
}

proof fn lemma_args_grown(
    args: Seq<NodeV>,
    k: nat,
    env: int,
    m: MachineV,
    depth: nat,
    turns: nat,
)
    requires
        0 <= env < m.scopes.len(),
    ensures
        grown(m.scopes, eval_args(args, k, env, m, depth, turns).machine.scopes, env),
    decreases depth, args, k,
{
    if k == 0 || k > args.len() {
        lemma_grown_same(m.scopes, env);
    } else {
        lemma_args_grown(args, (k - 1) as nat, env, m, depth, turns);
        let prev = eval_args(args, (k - 1) as nat, env, m, depth, turns);
        if prev.error is None {
            lemma_eval_grown(args[k - 1], env, prev.machine, depth, turns);
            let o = eval(args[k - 1], env, prev.machine, depth, turns);
            lemma_grown_chain(m.scopes, prev.machine.scopes, o.machine.scopes, env);
        }
    }
}

proof fn lemma_loop_grown(
    n: NodeV,
    env: int,
    m: MachineV,
    depth: nat,
    turns: nat,
    left: nat,
    last: ResV,
)
    requires
        0 <= env < m.scopes.len(),
    ensures
        grown(m.scopes, eval_loop(n, env, m, depth, turns, left, last).machine.scopes, env),
    decreases depth, n, left,
{
    match n.expr {
        ExprV::While(c, b) => {
            if left == 0 || left > turns {
                lemma_grown_same(m.scopes, env);
            } else {
                lemma_eval_grown(*c, env, m, depth, turns);
                let o = eval(*c, env, m, depth, turns);
                match o.res {
                    ResV::V(v) => {
                        if truthy(v) {
                            let before = o.machine.scopes;
                            let inner = with_scopes(
                                o.machine,
                                opened(before, Some(env as usize)),
                            );
                            let id = before.len() as int;
                            lemma_opened_kept(before, Some(env as usize));
                            lemma_eval_grown(*b, id, inner, depth, turns);
                            let r = eval(*b, id, inner, depth, turns);
                            lemma_body_kept(before, inner.scopes, r.machine, o.machine.closures);
                            let after = released(r.machine, id, o.machine.closures);
                            lemma_kept_grown(before, after.scopes, env);
                            lemma_grown_chain(m.scopes, before, after.scopes, env);
                            match r.res {
                                ResV::V(_) => {
                                    lemma_loop_grown(
                                        n,
                                        env,
                                        after,
                                        depth,
                                        turns,
                                        (left - 1) as nat,
                                        r.res,
                                    );
                                    lemma_grown_chain(
                                        m.scopes,
                                        after.scopes,
                                        eval_loop(
                                            n,
                                            env,
                                            after,
                                            depth,
                                            turns,
                                            (left - 1) as nat,
                                            r.res,
                                        ).machine.scopes,
                                        env,
                                    );
                                },
                                ResV::E(_) => {},
                            }
                        }
                    },
                    ResV::E(_) => {},
                }
            }
        },
        _ => {
            lemma_grown_same(m.scopes, env);
        },
    }
}

/// Whether the node declares nothing in the scope it is evaluated in: every
/// declaration and every function definition in it stands inside the body
/// of a conditional, of a loop or of a function.
pub open spec fn quiet(n: NodeV) -> bool
    decreases n,
{
    match n.expr {
        ExprV::Let(_, _) => false,
        ExprV::Fn(_, _, _) => false,
        ExprV::Assign(_, value) => quiet(*value),
        ExprV::UnOp(_, value) => quiet(*value),
        ExprV::Return(value) => quiet(*value),
        ExprV::BnOp(l, _, r) => quiet(*l) && quiet(*r),
        ExprV::Block(stmts) => quiet_all(stmts, stmts.len()),
        ExprV::Call(f, args) => quiet(*f) && quiet_all(args, args.len()),
        ExprV::ReservedCall(_, args) => quiet_all(args, args.len()),
        ExprV::If(c, _, _) => quiet(*c),
        ExprV::While(c, _) => quiet(*c),
        ExprV::Var(_) => true,
        ExprV::Val(_) => true,
        ExprV::Nl => true,
        ExprV::Error => true,
        ExprV::Else(_) => true,
    }
}

/// Whether the first `k` nodes are quiet.
pub open spec fn quiet_all(l: Seq<NodeV>, k: nat) -> bool
    decreases l, k,
{
    if k == 0 || k > l.len() {
        true
    } else {
        quiet_all(l, (k - 1) as nat) && quiet(l[k - 1])
    }
}

/// Evaluating a quiet node leaves every scope with the names it had. So what
/// the body of a loop or of a conditional declares is gone when the loop or
/// the conditional has ended.
pub proof fn lemma_quiet_kept(n: NodeV, env: int, m: MachineV, depth: nat, turns: nat)
    requires
        0 <= env < m.scopes.len(),
        quiet(n),
    ensures
        kept(m.scopes, eval(n, env, m, depth, turns).machine.scopes),
    decreases depth, n, turns + 1,
{
    match n.expr {
        ExprV::Assign(name, value) => {
            lemma_quiet_kept(*value, env, m, depth, turns);
            let o = eval(*value, env, m, depth, turns);
            match o.res {
                ResV::V(v) => {
                    if assigned(o.machine.scopes, env, name, v) is Some {
                        lemma_assigned_kept(o.machine.scopes, env, name, v);
                        lemma_kept_chain(
                            m.scopes,
                            o.machine.scopes,
                            assigned(o.machine.scopes, env, name, v).unwrap(),
                        );
                    }
                },
                ResV::E(_) => {},
            }
        },
        ExprV::UnOp(_, value) => lemma_quiet_kept(*value, env, m, depth, turns),
        ExprV::Return(value) => lemma_quiet_kept(*value, env, m, depth, turns),
        ExprV::BnOp(l, _, r) => {
            lemma_quiet_kept(*l, env, m, depth, turns);
            let a = eval(*l, env, m, depth, turns);
            lemma_quiet_kept(*r, env, a.machine, depth, turns);
            let b = eval(*r, env, a.machine, depth, turns);
            lemma_kept_chain(m.scopes, a.machine.scopes, b.machine.scopes);
        },
        ExprV::Block(stmts) => lemma_quiet_block_kept(stmts, stmts.len(), env, m, depth, turns),
        ExprV::Call(_, _) => lemma_quiet_call_kept(n, env, m, depth, turns),
        ExprV::ReservedCall(name, args) => {
            if name == print_name() {
                lemma_quiet_args_kept(args, args.len(), env, m, depth, turns);
            } else {
                lemma_grown_same(m.scopes, env);
            }
        },
        ExprV::If(c, t, e) => {
            lemma_quiet_kept(*c, env, m, depth, turns);
            let o = eval(*c, env, m, depth, turns);
            match o.res {
                ResV::V(v) => {
                    let b = o.machine.scopes;
                    let inner = with_scopes(o.machine, opened(b, Some(env as usize)));
                    let id = b.len() as int;
                    lemma_opened_kept(b, Some(env as usize));
                    let branch = if truthy(v) {
                        *t
                    } else {
                        *e
                    };
                    lemma_eval_grown(branch, id, inner, depth, turns);
                    let r = eval(branch, id, inner, depth, turns);
                    lemma_body_kept(b, inner.scopes, r.machine, o.machine.closures);
                    lemma_kept_chain(
                        m.scopes,
                        b,
                        released(r.machine, id, o.machine.closures).scopes,
                    );
                },
                ResV::E(_) => {},
            }
        },
        ExprV::While(_, _) => lemma_quiet_loop_kept(
            n,
            env,
            m,
            depth,
            turns,
            turns,
            ResV::V(ValueV::Undefined),
        ),
        _ => lemma_grown_same(m.scopes, env),
    }
}

proof fn lemma_quiet_call_kept(n: NodeV, env: int, m: MachineV, depth: nat, turns: nat)
    requires
        0 <= env < m.scopes.len(),
        quiet(n),
        n.expr is Call,
    ensures
        kept(m.scopes, eval(n, env, m, depth, turns).machine.scopes),
    decreases depth, n, 0nat,
{
    match n.expr {
        ExprV::Call(f, args) => {
            lemma_quiet_kept(*f, env, m, depth, turns);
            let o = eval(*f, env, m, depth, turns);
            match o.res {
                ResV::V(ValueV::Fn(params, body, captured)) => {
                    lemma_quiet_args_kept(args, args.len(), env, o.machine, depth, turns);
                    let a = eval_args(args, args.len(), env, o.machine, depth, turns);
                    let b = a.machine.scopes;
                    lemma_kept_chain(m.scopes, o.machine.scopes, b);
                    if a.error is None && captured < b.len() && depth > 0 {
                        let id = b.len() as int;
                        let first = opened(b, Some(captured));
                        lemma_opened_kept(b, Some(captured));
                        lemma_bound_grown(first, id, params, a.vals, params.len());
                        let s = bound(first, id, params, a.vals, params.len());
                        lemma_inner_kept(b, first, s);
                        let inner = with_scopes(a.machine, s);
                        lemma_eval_grown(*body, id, inner, (depth - 1) as nat, turns);
                        let r = eval(*body, id, inner, (depth - 1) as nat, turns);
                        lemma_body_kept(b, s, r.machine, a.machine.closures);
                        lemma_kept_chain(
                            m.scopes,
                            b,
                            released(r.machine, id, a.machine.closures).scopes,
                        );
                    }
                },
                ResV::V(_) => {},
                ResV::E(_) => {},
            }
        },
        _ => {},
    }
}

proof fn lemma_quiet_block_kept(
    stmts: Seq<NodeV>,
    k: nat,
    env: int,
    m: MachineV,
    depth: nat,
    turns: nat,
)
    requires
        0 <= env < m.scopes.len(),
        quiet_all(stmts, k),
    ensures
        kept(m.scopes, eval_block(stmts, k, env, m, depth, turns).machine.scopes),
    decreases depth, stmts, k,
{
    if k == 0 || k > stmts.len() {
        lemma_grown_same(m.scopes, env);
    } else {
        lemma_quiet_block_kept(stmts, (k - 1) as nat, env, m, depth, turns);
        let prev = eval_block(stmts, (k - 1) as nat, env, m, depth, turns);
        lemma_quiet_kept(stmts[k - 1], env, prev.machine, depth, turns);
        let o = eval(stmts[k - 1], env, prev.machine, depth, turns);
        lemma_kept_chain(m.scopes, prev.machine.scopes, o.machine.scopes);
    }
}

proof fn lemma_quiet_args_kept(
    args: Seq<NodeV>,
    k: nat,
    env: int,
    m: MachineV,
    depth: nat,
    turns: nat,
)
    requires
        0 <= env < m.scopes.len(),
        quiet_all(args, k),
    ensures
        kept(m.scopes, eval_args(args, k, env, m, depth, turns).machine.scopes),
    decreases depth, args, k,
{
    if k == 0 || k > args.len() {
        lemma_grown_same(m.scopes, env);
    } else {
        lemma_quiet_args_kept(args, (k - 1) as nat, env, m, depth, turns);
        let prev = eval_args(args, (k - 1) as nat, env, m, depth, turns);
        if prev.error is None {
            lemma_quiet_kept(args[k - 1], env, prev.machine, depth, turns);
            let o = eval(args[k - 1], env, prev.machine, depth, turns);
            lemma_kept_chain(m.scopes, prev.machine.scopes, o.machine.scopes);
        }
    }
}

proof fn lemma_quiet_loop_kept(
    n: NodeV,
    env: int,
    m: MachineV,
    depth: nat,
    turns: nat,
    left: nat,
    last: ResV,
)
    requires
        0 <= env < m.scopes.len(),
        quiet(n),
    ensures
        kept(m.scopes, eval_loop(n, env, m, depth, turns, left, last).machine.scopes),
    decreases depth, n, left,
{
    match n.expr {
        ExprV::While(c, b) => {
            if left == 0 || left > turns {
                lemma_grown_same(m.scopes, env);
            } else {
                lemma_quiet_kept(*c, env, m, depth, turns);
                let o = eval(*c, env, m, depth, turns);
                match o.res {
                    ResV::V(v) => {
                        if truthy(v) {
                            let before = o.machine.scopes;
                            let inner = with_scopes(
                                o.machine,
                                opened(before, Some(env as usize)),
                            );
                            let id = before.len() as int;
                            lemma_opened_kept(before, Some(env as usize));
                            lemma_eval_grown(*b, id, inner, depth, turns);
                            let r = eval(*b, id, inner, depth, turns);
                            lemma_body_kept(before, inner.scopes, r.machine, o.machine.closures);
                            let after = released(r.machine, id, o.machine.closures);
                            lemma_kept_chain(m.scopes, before, after.scopes);
                            match r.res {
                                ResV::V(_) => {
                                    lemma_quiet_loop_kept(
                                        n,
                                        env,
                                        after,
                                        depth,
                                        turns,
                                        (left - 1) as nat,
                                        r.res,
                                    );
                                    lemma_kept_chain(
                                        m.scopes,
                                        after.scopes,
                                        eval_loop(
                                            n,
                                            env,
                                            after,
                                            depth,
                                            turns,
                                            (left - 1) as nat,
                                            r.res,
                                        ).machine.scopes,
                                    );
                                },
                                ResV::E(_) => {},
                            }
                        }
                    },
                    ResV::E(_) => {},
                }
            }
        },
        _ => {
            lemma_grown_same(m.scopes, env);
        },
    }
}

/// Whether the name can be seen from the scope: a scope on the chain from it
/// outward holds the name.
pub open spec fn visible(s: Seq<EnvironmentV>, env: int, name: Seq<u8>) -> bool {
    owner(s, env, name) is Some
}

/// Variables with the same names hold a name at the same place.
proof fn lemma_slot_by_names(
    a: Seq<(Seq<u8>, ValueV)>,
    b: Seq<(Seq<u8>, ValueV)>,
    name: Seq<u8>,
    from: int,
)
    requires
        a.len() == b.len(),
        forall|i: int| 0 <= i < a.len() ==> (#[trigger] a[i]).0 == b[i].0,
    ensures
        slot(a, name, from) == slot(b, name, from),
    decreases a.len() - from,
{
    if 0 <= from < a.len() && a[from].0 != name {
        lemma_slot_by_names(a, b, name, from + 1);
    }
}

/// Where the scopes were kept, the same scope holds a name for a scope from
/// before.
proof fn lemma_kept_owner(a: Seq<EnvironmentV>, b: Seq<EnvironmentV>, env: int, name: Seq<u8>)
    requires
        kept(a, b),
        0 <= env < a.len(),
    ensures
        owner(b, env, name) == owner(a, env, name),
    decreases env,
{
    assert(b[env].parent == a[env].parent);
    assert(names_of(b[env]) == names_of(a[env]));
    assert(a[env].vars.len() == b[env].vars.len()) by {
        assert(names_of(a[env]).len() == names_of(b[env]).len());
    }
    assert forall|i: int| 0 <= i < a[env].vars.len() implies (#[trigger] a[env].vars[i]).0
        == b[env].vars[i].0 by {
        assert(names_of(a[env])[i] == names_of(b[env])[i]);
    }
    lemma_slot_by_names(a[env].vars, b[env].vars, name, 0);
    if slot(a[env].vars, name, 0) is None {
        match a[env].parent {
            Some(p) => {
                if p < env {
                    lemma_kept_owner(a, b, p as int, name);
                }
            },
            None => {},
        }
    }
}

/// A variable that the body of a loop or of a conditional declares cannot be
/// seen when the loop or the conditional has ended: after a quiet node, a
/// scope from before sees the names that it saw before, no more and no
/// fewer.
pub proof fn lemma_quiet_sees_the_same(
    n: NodeV,
    env: int,
    m: MachineV,
    depth: nat,
    turns: nat,
    from: int,
    name: Seq<u8>,
)
    requires
        0 <= env < m.scopes.len(),
        0 <= from < m.scopes.len(),
        quiet(n),
    ensures
        visible(eval(n, env, m, depth, turns).machine.scopes, from, name) == visible(
            m.scopes,
            from,
            name,
        ),
{
    lemma_quiet_kept(n, env, m, depth, turns);
    lemma_kept_owner(m.scopes, eval(n, env, m, depth, turns).machine.scopes, from, name);
}

/// From a scope that was just opened a name stands for what it stands for
/// from the scope that encloses it.
proof fn lemma_opened_looks_outward(s: Seq<EnvironmentV>, parent: usize, name: Seq<u8>)
    requires
        parent < s.len(),
    ensures
        looked_up(opened(s, Some(parent)), s.len() as int, name) == looked_up(
            s,
            parent as int,
            name,
        ),
{
    let t = opened(s, Some(parent));
    lemma_opened_owner(s, Some(parent), parent as int, name);
    lemma_owner_in_range(s, parent as int, name);
    assert(slot(t[s.len() as int].vars, name, 0) is None);
    assert(owner(t, s.len() as int, name) == owner(t, parent as int, name));
    match owner(s, parent as int, name) {
        Some(e) => {
            assert(t[e] == s[e]);
        },
        None => {},
    }
}

/// Opening a scope changes for no scope from before which scope holds a
/// name.
proof fn lemma_opened_owner(
    s: Seq<EnvironmentV>,
    parent: Option<usize>,
    env: int,
    name: Seq<u8>,
)
    requires
        0 <= env < s.len(),
    ensures
        owner(opened(s, parent), env, name) == owner(s, env, name),
    decreases env,
{
    let t = opened(s, parent);
    assert(t[env] == s[env]);
    if slot(s[env].vars, name, 0) is None {
        match s[env].parent {
            Some(p) => {
                if p < env {
                    lemma_opened_owner(s, parent, p as int, name);
                }
            },
            None => {},
        }
    }
}

/// Whether the body of a function does nothing but read the variable.
pub open spec fn reads_only(body: NodeV, name: Seq<u8>) -> bool {
    match body.expr {
        ExprV::Var(x) => x == name,
        ExprV::Return(inner) => inner.expr == ExprV::Var(name),
        _ => false,
    }
}

/// The call of the function that `callee` stands for, without arguments.
pub open spec fn call_of(callee: NodeV) -> NodeV {
    NodeV { expr: ExprV::Call(Box::new(callee), Seq::empty()), span: callee.span }
}

/// A function holds its scope, not the values in it: a function that reads
/// a variable gives, when it is called, what the variable stands for then in
/// the scope that the function holds, whatever it stood for when the
/// function was defined.
pub proof fn lemma_function_reads_the_current_value(
    callee: NodeV,
    body: NodeV,
    captured: usize,
    name: Seq<u8>,
    env: int,
    m: MachineV,
    depth: nat,
    turns: nat,
)
    requires
        0 <= env < m.scopes.len(),
        captured < m.scopes.len(),
        depth > 0,
        reads_only(body, name),
        eval(callee, env, m, depth, turns).res == ResV::V(
            ValueV::Fn(Seq::empty(), Box::new(body), captured),
        ),
        eval(callee, env, m, depth, turns).machine == m,
    ensures
        eval(call_of(callee), env, m, depth, turns).res == (match looked_up(
            m.scopes,
            captured as int,
            name,
        ) {
            Some(v) => ResV::V(v),
            None => ResV::E(EvalError::UndefinedVariable),
        }),
{
    let id = m.scopes.len() as int;
    let first = opened(m.scopes, Some(captured));
    lemma_opened_looks_outward(m.scopes, captured, name);
    assert(eval_args(Seq::<NodeV>::empty(), 0, env, m, depth, turns).error is None);
    assert(bound(first, id, Seq::<Seq<u8>>::empty(), Seq::<ValueV>::empty(), 0) == first);
    let inner = with_scopes(m, first);
    match body.expr {
        ExprV::Var(x) => {},
        ExprV::Return(v) => {
            assert(eval(body, id, inner, (depth - 1) as nat, turns) == eval(
                *v,
                id,
                inner,
                (depth - 1) as nat,
                turns,
            ));
        },
        _ => {},
    }
}

} // verus!
