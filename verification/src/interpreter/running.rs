//! What a run writes, statement after statement.
use crate::interpreter::operators::{display_text, error_text, truthy, ResV};
use crate::interpreter::{
    bound, eval, eval_args, eval_block, eval_loop, line_text, printed, ran, released,
    run_statements, with_scopes, MachineV,
};
use crate::interpreter::env::opened;
use crate::types::{print_name, ExprV, NodeV, ValueV};
use vstd::prelude::*;

verus! {

/// Whether `b` begins with `a`: nothing that was written is taken back.
pub open spec fn goes_on(a: Seq<u8>, b: Seq<u8>) -> bool {
    a.is_prefix_of(b)
}

proof fn lemma_goes_on_chain(a: Seq<u8>, b: Seq<u8>, c: Seq<u8>)
    requires
        goes_on(a, b),
        goes_on(b, c),
    ensures
        goes_on(a, c),
{
    assert(a =~= c.subrange(0, a.len() as int)) by {
        assert(a =~= b.subrange(0, a.len() as int));
        assert(b =~= c.subrange(0, b.len() as int));
    }
}

proof fn lemma_goes_on_with(a: Seq<u8>, t: Seq<u8>)
    ensures
        goes_on(a, a + t),
        goes_on(a, a),
{
    assert(a =~= (a + t).subrange(0, a.len() as int));
    assert(a =~= a.subrange(0, a.len() as int));
}

/// Evaluating a node takes nothing back of what was written before.
pub proof fn lemma_eval_keeps_output(n: NodeV, env: int, m: MachineV, depth: nat, turns: nat)
    ensures
        goes_on(m.out, eval(n, env, m, depth, turns).machine.out),
    decreases depth, n, turns + 1,
{
    lemma_goes_on_with(m.out, Seq::empty());
    match n.expr {
        ExprV::Let(_, value) => lemma_eval_keeps_output(*value, env, m, depth, turns),
        ExprV::Assign(_, value) => lemma_eval_keeps_output(*value, env, m, depth, turns),
        ExprV::UnOp(_, value) => lemma_eval_keeps_output(*value, env, m, depth, turns),
        ExprV::Return(value) => lemma_eval_keeps_output(*value, env, m, depth, turns),
        ExprV::BnOp(l, _, r) => {
            lemma_eval_keeps_output(*l, env, m, depth, turns);
            let a = eval(*l, env, m, depth, turns);
            lemma_eval_keeps_output(*r, env, a.machine, depth, turns);
            let b = eval(*r, env, a.machine, depth, turns);
            lemma_goes_on_chain(m.out, a.machine.out, b.machine.out);
        },
        ExprV::Block(stmts) => lemma_block_keeps_output(stmts, stmts.len(), env, m, depth, turns),
        ExprV::If(c, t, e) => {
            lemma_eval_keeps_output(*c, env, m, depth, turns);
            let o = eval(*c, env, m, depth, turns);
            match o.res {
                ResV::V(v) => {
                    let inner = with_scopes(
                        o.machine,
                        opened(o.machine.scopes, Some(env as usize)),
                    );
                    let id = o.machine.scopes.len() as int;
                    let branch = if truthy(v) {
                        *t
                    } else {
                        *e
                    };
                    lemma_eval_keeps_output(branch, id, inner, depth, turns);
                    let r = eval(branch, id, inner, depth, turns);
                    lemma_goes_on_chain(m.out, o.machine.out, r.machine.out);
                },
                ResV::E(_) => {},
            }
        },
        ExprV::While(_, _) => lemma_loop_keeps_output(
            n,
            env,
            m,
            depth,
            turns,
            turns,
            ResV::V(ValueV::Undefined),
        ),
        ExprV::Call(_, _) => lemma_call_keeps_output(n, env, m, depth, turns),
        ExprV::ReservedCall(name, args) => {
            if name == print_name() {
                lemma_args_keep_output(args, args.len(), env, m, depth, turns);
                let a = eval_args(args, args.len(), env, m, depth, turns);
                let line = line_text(a.vals, a.vals.len()).push('\n' as u8);
                lemma_goes_on_with(a.machine.out, line);
                lemma_goes_on_chain(m.out, a.machine.out, a.machine.out + line);
            }
        },
        _ => {},
    }
}

proof fn lemma_call_keeps_output(n: NodeV, env: int, m: MachineV, depth: nat, turns: nat)
    requires
        n.expr is Call,
    ensures
        goes_on(m.out, eval(n, env, m, depth, turns).machine.out),
    decreases depth, n, 0nat,
{
    match n.expr {
        ExprV::Call(f, args) => {
            lemma_eval_keeps_output(*f, env, m, depth, turns);
            let o = eval(*f, env, m, depth, turns);
            match o.res {
                ResV::V(ValueV::Fn(params, body, captured)) => {
                    lemma_args_keep_output(args, args.len(), env, o.machine, depth, turns);
                    let a = eval_args(args, args.len(), env, o.machine, depth, turns);
                    lemma_goes_on_chain(m.out, o.machine.out, a.machine.out);
                    if a.error is None && captured < a.machine.scopes.len() && depth > 0 {
                        let id = a.machine.scopes.len() as int;
                        let s = bound(
                            opened(a.machine.scopes, Some(captured)),
                            id,
                            params,
                            a.vals,
                            params.len(),
                        );
                        let inner = with_scopes(a.machine, s);
                        lemma_eval_keeps_output(*body, id, inner, (depth - 1) as nat, turns);
                        let r = eval(*body, id, inner, (depth - 1) as nat, turns);
                        lemma_goes_on_chain(m.out, a.machine.out, r.machine.out);
                    }
                },
                ResV::V(_) => {},
                ResV::E(_) => {},
            }
        },
        _ => {},
    }
}

proof fn lemma_block_keeps_output(
    stmts: Seq<NodeV>,
    k: nat,
    env: int,
    m: MachineV,
    depth: nat,
    turns: nat,
)
    ensures
        goes_on(m.out, eval_block(stmts, k, env, m, depth, turns).machine.out),
    decreases depth, stmts, k,
{
    lemma_goes_on_with(m.out, Seq::empty());
    if k == 0 || k > stmts.len() {
    } else {
        lemma_block_keeps_output(stmts, (k - 1) as nat, env, m, depth, turns);
        let prev = eval_block(stmts, (k - 1) as nat, env, m, depth, turns);
        lemma_eval_keeps_output(stmts[k - 1], env, prev.machine, depth, turns);
        let o = eval(stmts[k - 1], env, prev.machine, depth, turns);
        lemma_goes_on_chain(m.out, prev.machine.out, o.machine.out);
    }
}

proof fn lemma_args_keep_output(
    args: Seq<NodeV>,
    k: nat,
    env: int,
    m: MachineV,
    depth: nat,
    turns: nat,
)
    ensures
        goes_on(m.out, eval_args(args, k, env, m, depth, turns).machine.out),
    decreases depth, args, k,
{
    lemma_goes_on_with(m.out, Seq::empty());
    if k == 0 || k > args.len() {
    } else {
        lemma_args_keep_output(args, (k - 1) as nat, env, m, depth, turns);
        let prev = eval_args(args, (k - 1) as nat, env, m, depth, turns);
        if prev.error is None {
            lemma_eval_keeps_output(args[k - 1], env, prev.machine, depth, turns);
            let o = eval(args[k - 1], env, prev.machine, depth, turns);
            lemma_goes_on_chain(m.out, prev.machine.out, o.machine.out);
        }
    }
}

proof fn lemma_loop_keeps_output(
    n: NodeV,
    env: int,
    m: MachineV,
    depth: nat,
    turns: nat,
    left: nat,
    last: ResV,
)
    ensures
        goes_on(m.out, eval_loop(n, env, m, depth, turns, left, last).machine.out),
    decreases depth, n, left,
{
    lemma_goes_on_with(m.out, Seq::empty());
    match n.expr {
        ExprV::While(c, b) => {
            if left == 0 || left > turns {
            } else {
                lemma_eval_keeps_output(*c, env, m, depth, turns);
                let o = eval(*c, env, m, depth, turns);
                match o.res {
                    ResV::V(v) => {
                        if truthy(v) {
                            let inner = with_scopes(
                                o.machine,
                                opened(o.machine.scopes, Some(env as usize)),
                            );
                            let id = o.machine.scopes.len() as int;
                            lemma_eval_keeps_output(*b, id, inner, depth, turns);
                            let r = eval(*b, id, inner, depth, turns);
                            let after = released(r.machine, id, o.machine.closures);
                            lemma_goes_on_chain(m.out, o.machine.out, after.out);
                            match r.res {
                                ResV::V(_) => {
                                    lemma_loop_keeps_output(
                                        n,
                                        env,
                                        after,
                                        depth,
                                        turns,
                                        (left - 1) as nat,
                                        r.res,
                                    );
                                    lemma_goes_on_chain(
                                        m.out,
                                        after.out,
                                        eval_loop(
                                            n,
                                            env,
                                            after,
                                            depth,
                                            turns,
                                            (left - 1) as nat,
                                            r.res,
                                        ).machine.out,
                                    );
                                },
                                ResV::E(_) => {},
                            }
                        }
                    },
                    ResV::E(_) => {},
                }
            }
        },
        _ => {},
    }
}

/// A statement that fails does not end the run. Whatever the statements
/// before it gave, statement `k` is evaluated in the state that they left;
/// where it fails, the message of its error is written once, on a line of
/// its own, after what it wrote itself; and nothing that was written before
/// is taken back.
pub proof fn lemma_run_goes_on(stmts: Seq<NodeV>, k: nat, m: MachineV, depth: nat, turns: nat)
    requires
        0 < k <= stmts.len(),
    ensures
        ({
            let before = run_statements(stmts, (k - 1) as nat, m, depth, turns);
            let o = eval(stmts[k - 1], 0, before, depth, turns);
            let after = run_statements(stmts, k, m, depth, turns);
            &&& after == ran(stmts[k - 1], before, depth, turns)
            &&& goes_on(before.out, o.machine.out)
            &&& goes_on(before.out, after.out)
            &&& match o.res {
                ResV::V(_) => after == o.machine,
                ResV::E(e) => after == printed(o.machine, error_text(e).push('\n' as u8)),
            }
        }),
{
    let before = run_statements(stmts, (k - 1) as nat, m, depth, turns);
    lemma_eval_keeps_output(stmts[k - 1], 0, before, depth, turns);
    let o = eval(stmts[k - 1], 0, before, depth, turns);
    match o.res {
        ResV::V(_) => {},
        ResV::E(e) => {
            lemma_goes_on_with(o.machine.out, error_text(e).push('\n' as u8));
            lemma_goes_on_chain(
                before.out,
                o.machine.out,
                o.machine.out + error_text(e).push('\n' as u8),
            );
        },
    }
}

/// What the first statements of a program write is the beginning of what
/// the whole program writes.
pub proof fn lemma_run_keeps_output(
    stmts: Seq<NodeV>,
    j: nat,
    k: nat,
    m: MachineV,
    depth: nat,
    turns: nat,
)
    requires
        j <= k <= stmts.len(),
    ensures
        goes_on(
            run_statements(stmts, j, m, depth, turns).out,
            run_statements(stmts, k, m, depth, turns).out,
        ),
    decreases k,
{
    if j == k {
        lemma_goes_on_with(run_statements(stmts, j, m, depth, turns).out, Seq::empty());
    } else {
        lemma_run_keeps_output(stmts, j, (k - 1) as nat, m, depth, turns);
        lemma_run_goes_on(stmts, k, m, depth, turns);
        lemma_goes_on_chain(
            run_statements(stmts, j, m, depth, turns).out,
            run_statements(stmts, (k - 1) as nat, m, depth, turns).out,
            run_statements(stmts, k, m, depth, turns).out,
        );
    }
}

/// Whether the node is a `print` of one value that is written out.
pub open spec fn prints(n: NodeV, v: ValueV) -> bool {
    n.expr matches ExprV::ReservedCall(name, args) && name == print_name() && args.len() == 1
        && args[0].expr == ExprV::Val(v)
}

/// A `print` of a value writes its line whatever went before it: where
/// statement `k` prints the value `v`, the run has written, after statement
/// `k`, what it had written before and then `v` as it is displayed and a line
/// end. So the run goes on after a statement that failed.
pub proof fn lemma_print_runs_after_failure(
    stmts: Seq<NodeV>,
    k: nat,
    v: ValueV,
    m: MachineV,
    depth: nat,
    turns: nat,
)
    requires
        0 < k <= stmts.len(),
        prints(stmts[k - 1], v),
    ensures
        run_statements(stmts, k, m, depth, turns).out == run_statements(
            stmts,
            (k - 1) as nat,
            m,
            depth,
            turns,
        ).out + display_text(v).push('\n' as u8),
{
    let before = run_statements(stmts, (k - 1) as nat, m, depth, turns);
    match stmts[k - 1].expr {
        ExprV::ReservedCall(name, args) => {
            let none = eval_args(args, 0, 0, before, depth, turns);
            let one = eval_args(args, 1, 0, before, depth, turns);
            assert(none.error is None && none.machine == before && none.vals.len() == 0);
            assert(eval(args[0], 0, before, depth, turns).res == ResV::V(v));
            assert(one.vals =~= seq![v]);
            assert(one.machine == before);
            assert(line_text(one.vals, 1) == display_text(v));
        },
        _ => {},
    }
}

} // verus!
