//! The evaluator: a walk over the syntax tree that keeps the scopes of the
//! run and gathers what the program prints.
pub mod env;
pub mod operators;
pub mod running;
pub mod scoping;

use crate::interpreter::env::{
    assigned, declared, define, get, looked_up, opened, scopes_view, well_formed, EnvPtr,
    Environment, EnvironmentV,
};
use crate::interpreter::operators::{
    binary, binary_values, display_text, error_text, truthy, unary, unary_value, EvalError, Res,
    ResV,
};
use crate::types::{
    copy_bytes, copy_names, copy_node, copy_value, nodes_view, print_name, push_bytes, same_bytes,
    text, Expr, ExprV, Node, NodeV, Value, ValueV,
};
use vstd::prelude::*;

verus! {

/// The state of a run: its scopes, what it has printed so far, and how many
/// functions it has defined.
///
/// Only a function can hold a scope. So where no function was defined while
/// a body ran, the scopes that were opened for the body are given up again.
#[derive(Debug, PartialEq)]
pub struct Machine {
    pub scopes: Vec<Environment>,
    pub out: Vec<u8>,
    pub closures: u64,
}

/// The model of the state of a run.
pub ghost struct MachineV {
    pub scopes: Seq<EnvironmentV>,
    pub out: Seq<u8>,
    pub closures: u64,
}

impl View for Machine {
    type V = MachineV;

    open spec fn view(&self) -> MachineV {
        MachineV { scopes: scopes_view(self.scopes@), out: self.out@, closures: self.closures }
    }
}

/// What evaluating a node leaves: its result and the state after it.
pub ghost struct Outcome {
    pub res: ResV,
    pub machine: MachineV,
}

/// What evaluating a call's arguments leaves: the values of those that were
/// evaluated, the error that stopped the others, and the state after it.
pub ghost struct ArgsOutcome {
    pub vals: Seq<ValueV>,
    pub error: Option<EvalError>,
    pub machine: MachineV,
}

/// The result with the machine as it is.
pub open spec fn done(res: ResV, machine: MachineV) -> Outcome {
    Outcome { res, machine }
}

/// The machine with other scopes.
pub open spec fn with_scopes(m: MachineV, scopes: Seq<EnvironmentV>) -> MachineV {
    MachineV { scopes, out: m.out, closures: m.closures }
}

/// The machine after one more function was defined. The count stops at its
/// largest value.
pub open spec fn with_closure(m: MachineV) -> MachineV {
    MachineV {
        scopes: m.scopes,
        out: m.out,
        closures: if m.closures < u64::MAX {
            (m.closures + 1) as u64
        } else {
            m.closures
        },
    }
}

/// The machine after a body has run whose scopes began at `mark`: without
/// those scopes where no function was defined since the count was `seen`,
/// else as it is.
pub open spec fn released(m: MachineV, mark: int, seen: u64) -> MachineV {
    if m.closures == seen && seen < u64::MAX && 0 <= mark <= m.scopes.len() {
        with_scopes(m, m.scopes.subrange(0, mark))
    } else {
        m
    }
}

/// The outcome with the scopes of its body released.
pub open spec fn closed(o: Outcome, mark: int, seen: u64) -> Outcome {
    Outcome { res: o.res, machine: released(o.machine, mark, seen) }
}

/// The machine after `text` was printed.
pub open spec fn printed(m: MachineV, text: Seq<u8>) -> MachineV {
    MachineV { scopes: m.scopes, out: m.out + text, closures: m.closures }
}

/// The scopes after the first `k` parameters were declared in `env`, each with
/// the argument at its place, or undefined where the call gave none. A name
/// that occurs twice keeps its first value.
pub open spec fn bound(
    s: Seq<EnvironmentV>,
    env: int,
    params: Seq<Seq<u8>>,
    args: Seq<ValueV>,
    k: nat,
) -> Seq<EnvironmentV>
    decreases k,
{
    if k == 0 || k > params.len() {
        s
    } else {
        let prev = bound(s, env, params, args, (k - 1) as nat);
        let v = if k - 1 < args.len() {
            args[k - 1]
        } else {
            ValueV::Undefined
        };
        match declared(prev, env, params[k - 1], v) {
            Some(t) => t,
            None => prev,
        }
    }
}

/// What evaluating the node in the scope `env` gives and leaves.
///
/// `depth` is how many calls may be nested inside one another, `turns` how
/// many times any one loop may go round.
pub open spec fn eval(n: NodeV, env: int, m: MachineV, depth: nat, turns: nat) -> Outcome
    decreases depth, n, turns + 1,
{
    match n.expr {
        ExprV::Let(name, value) => {
            let o = eval(*value, env, m, depth, turns);
            match o.res {
                ResV::V(v) => match declared(o.machine.scopes, env, name, v) {
                    Some(s) => done(ResV::V(ValueV::Undefined), with_scopes(o.machine, s)),
                    None => done(ResV::E(EvalError::AlreadyDeclared), o.machine),
                },
                ResV::E(_) => o,
            }
        },
        ExprV::Assign(name, value) => {
            let o = eval(*value, env, m, depth, turns);
            match o.res {
                ResV::V(v) => match assigned(o.machine.scopes, env, name, v) {
                    Some(s) => done(ResV::V(ValueV::Undefined), with_scopes(o.machine, s)),
                    None => done(ResV::E(EvalError::UndefinedAssignment), o.machine),
                },
                ResV::E(_) => o,
            }
        },
        ExprV::Var(name) => match looked_up(m.scopes, env, name) {
            Some(v) => done(ResV::V(v), m),
            None => done(ResV::E(EvalError::UndefinedVariable), m),
        },
        ExprV::BnOp(l, op, r) => {
            let a = eval(*l, env, m, depth, turns);
            let b = eval(*r, env, a.machine, depth, turns);
            match (a.res, b.res) {
                (ResV::V(x), ResV::V(y)) => done(binary_values(op, x, y), b.machine),
                (ResV::E(e), _) => done(ResV::E(e), b.machine),
                (_, ResV::E(e)) => done(ResV::E(e), b.machine),
            }
        },
        ExprV::UnOp(op, value) => {
            let o = eval(*value, env, m, depth, turns);
            match o.res {
                ResV::V(v) => done(unary_value(op, v), o.machine),
                ResV::E(_) => o,
            }
        },
        ExprV::Block(stmts) => eval_block(stmts, stmts.len(), env, m, depth, turns),
        ExprV::Fn(name, params, body) => match declared(
            m.scopes,
            env,
            name,
            ValueV::Fn(params, body, env as usize),
        ) {
            Some(s) => done(ResV::V(ValueV::Undefined), with_closure(with_scopes(m, s))),
            None => done(ResV::E(EvalError::FunctionAlreadyDefined), m),
        },
        ExprV::Return(value) => eval(*value, env, m, depth, turns),
        ExprV::If(c, t, e) => {
            let o = eval(*c, env, m, depth, turns);
            match o.res {
                ResV::V(v) => {
                    let inner = with_scopes(o.machine, opened(o.machine.scopes, Some(env as usize)));
                    let id = o.machine.scopes.len() as int;
                    let r = if truthy(v) {
                        eval(*t, id, inner, depth, turns)
                    } else {
                        eval(*e, id, inner, depth, turns)
                    };
                    closed(r, id, o.machine.closures)
                },
                ResV::E(_) => o,
            }
        },
        ExprV::While(_, _) => eval_loop(n, env, m, depth, turns, turns, ResV::V(ValueV::Undefined)),
        ExprV::Call(f, args) => {
            let o = eval(*f, env, m, depth, turns);
            match o.res {
                ResV::V(ValueV::Fn(params, body, captured)) => {
                    let a = eval_args(args, args.len(), env, o.machine, depth, turns);
                    match a.error {
                        Some(e) => done(ResV::E(e), a.machine),
                        None => if captured >= a.machine.scopes.len() {
                            done(ResV::E(EvalError::UnknownScope), a.machine)
                        } else if depth == 0 {
                            done(ResV::E(EvalError::TooDeep), a.machine)
                        } else {
                            let id = a.machine.scopes.len() as int;
                            let s = bound(
                                opened(a.machine.scopes, Some(captured)),
                                id,
                                params,
                                a.vals,
                                params.len(),
                            );
                            closed(
                                eval(
                                    *body,
                                    id,
                                    with_scopes(a.machine, s),
                                    (depth - 1) as nat,
                                    turns,
                                ),
                                id,
                                a.machine.closures,
                            )
                        },
                    }
                },
                ResV::V(_) => done(ResV::E(EvalError::NotAFunction), o.machine),
                ResV::E(_) => o,
            }
        },
        ExprV::ReservedCall(name, args) => if name == print_name() {
            let a = eval_args(args, args.len(), env, m, depth, turns);
            match a.error {
                Some(e) => done(ResV::E(e), a.machine),
                None => done(
                    ResV::V(ValueV::Undefined),
                    printed(a.machine, line_text(a.vals, a.vals.len()).push('\n' as u8)),
                ),
            }
        } else {
            done(ResV::E(EvalError::NotImplemented), m)
        },
        ExprV::Val(v) => done(ResV::V(v), m),
        ExprV::Nl => done(ResV::V(ValueV::Undefined), m),
        ExprV::Error => done(ResV::E(EvalError::NotImplemented), m),
        ExprV::Else(_) => done(ResV::E(EvalError::NotImplemented), m),
    }
}

/// What evaluating the first `k` statements in turn gives and leaves: the
/// result of the last of them, undefined where there is none.
pub open spec fn eval_block(
    stmts: Seq<NodeV>,
    k: nat,
    env: int,
    m: MachineV,
    depth: nat,
    turns: nat,
) -> Outcome
    decreases depth, stmts, k,
{
    if k == 0 || k > stmts.len() {
        done(ResV::V(ValueV::Undefined), m)
    } else {
        let prev = eval_block(stmts, (k - 1) as nat, env, m, depth, turns);
        eval(stmts[k - 1], env, prev.machine, depth, turns)
    }
}

/// What evaluating the first `k` arguments in turn gives and leaves; the
/// first error ends it.
pub open spec fn eval_args(
    args: Seq<NodeV>,
    k: nat,
    env: int,
    m: MachineV,
    depth: nat,
    turns: nat,
) -> ArgsOutcome
    decreases depth, args, k,
{
    if k == 0 || k > args.len() {
        ArgsOutcome { vals: Seq::empty(), error: None, machine: m }
    } else {
        let prev = eval_args(args, (k - 1) as nat, env, m, depth, turns);
        if prev.error is Some {
            prev
        } else {
            let o = eval(args[k - 1], env, prev.machine, depth, turns);
            match o.res {
                ResV::V(v) => ArgsOutcome {
                    vals: prev.vals.push(v),
                    error: None,
                    machine: o.machine,
                },
                ResV::E(e) => ArgsOutcome { vals: prev.vals, error: Some(e), machine: o.machine },
            }
        }
    }
}

/// The first `k` values as `print` writes them on a line: each as it is
/// displayed, and a single space between one and the next.
pub open spec fn line_text(vals: Seq<ValueV>, k: nat) -> Seq<u8>
    decreases k,
{
    if k == 0 || k > vals.len() {
        Seq::empty()
    } else if k == 1 {
        display_text(vals[0])
    } else {
        line_text(vals, (k - 1) as nat).push(' ' as u8) + display_text(vals[k - 1])
    }
}

/// What a loop that may go round `left` more times gives and leaves, `last`
/// being the result of the round before. The loop ends when its condition is
/// not true, with the last result, and when its condition or its body fails,
/// with that error.
pub open spec fn eval_loop(
    n: NodeV,
    env: int,
    m: MachineV,
    depth: nat,
    turns: nat,
    left: nat,
    last: ResV,
) -> Outcome
    decreases depth, n, left,
{
    match n.expr {
        ExprV::While(c, b) => if left == 0 || left > turns {
            done(ResV::E(EvalError::TooManyTurns), m)
        } else {
            let o = eval(*c, env, m, depth, turns);
            match o.res {
                ResV::V(v) => if truthy(v) {
                    let inner = with_scopes(o.machine, opened(o.machine.scopes, Some(env as usize)));
                    let id = o.machine.scopes.len() as int;
                    let r = closed(eval(*b, id, inner, depth, turns), id, o.machine.closures);
                    match r.res {
                        ResV::V(_) => eval_loop(
                            n,
                            env,
                            r.machine,
                            depth,
                            turns,
                            (left - 1) as nat,
                            r.res,
                        ),
                        ResV::E(_) => r,
                    }
                } else {
                    done(last, o.machine)
                },
                ResV::E(_) => o,
            }
        },
        _ => done(ResV::E(EvalError::NotImplemented), m),
    }
}

/// The models of a sequence of values.
pub open spec fn values_view(s: Seq<Value>) -> Seq<ValueV> {
    Seq::new(s.len(), |i: int| s[i]@)
}

impl Machine {
    /// A machine with one scope, the global one, that has printed nothing.
    pub fn new() -> (m: Machine)
        ensures
            m@ == start(),
            m.scopes.len() == 1,
            well_formed(m@.scopes),
    {
        let mut scopes: Vec<Environment> = Vec::new();
        assert(scopes_view(scopes@) =~= Seq::empty());
        let id = crate::interpreter::env::new(&mut scopes, None);
        Machine { scopes, out: Vec::new(), closures: 0 }
    }

    /// Gives up the scopes from `mark` on, where no function was defined
    /// since the count of functions was `seen`.
    pub fn release(&mut self, mark: usize, seen: u64)
        requires
            mark <= old(self).scopes.len(),
        ensures
            final(self)@ == released(old(self)@, mark as int, seen),
            mark <= final(self).scopes.len() <= old(self).scopes.len(),
            well_formed(old(self)@.scopes) ==> well_formed(final(self)@.scopes),
    {
        if self.closures == seen && seen < u64::MAX {
            let ghost before = scopes_view(self.scopes@);
            self.scopes.truncate(mark);
            assert(scopes_view(self.scopes@) =~= before.subrange(0, mark as int));
            assert(well_formed(before) ==> well_formed(before.subrange(0, mark as int))) by {
                if well_formed(before) {
                    assert forall|k: int| 0 <= k < mark implies {
                        &&& (#[trigger] before.subrange(0, mark as int)[k]).parent matches Some(p)
                            ==> p < k
                        &&& crate::interpreter::env::distinct_names(
                            before.subrange(0, mark as int)[k].vars,
                        )
                    } by {
                        assert(before.subrange(0, mark as int)[k] == before[k]);
                    }
                }
            }
        }
    }
}

/// The machine that a run begins with: one scope, the global one, nothing
/// printed, no function defined.
pub open spec fn start() -> MachineV {
    MachineV { scopes: opened(Seq::empty(), None), out: Seq::empty(), closures: 0 }
}

/// Declares the parameters in the scope `id`, each with the argument at its
/// place.
fn bind(scopes: &mut Vec<Environment>, id: EnvPtr, params: &Vec<Vec<u8>>, vals: &Vec<Value>)
    requires
        id < old(scopes).len(),
    ensures
        scopes_view(final(scopes)@) == bound(
            scopes_view(old(scopes)@),
            id as int,
            crate::types::names_view(params@),
            values_view(vals@),
            params.len() as nat,
        ),
        final(scopes).len() == old(scopes).len(),
        well_formed(scopes_view(old(scopes)@)) ==> well_formed(scopes_view(final(scopes)@)),
{
    let mut i: usize = 0;
    while i < params.len()
        invariant
            i <= params.len(),
            id < scopes.len(),
            scopes.len() == old(scopes).len(),
            well_formed(scopes_view(old(scopes)@)) ==> well_formed(scopes_view(scopes@)),
            scopes_view(scopes@) == bound(
                scopes_view(old(scopes)@),
                id as int,
                crate::types::names_view(params@),
                values_view(vals@),
                i as nat,
            ),
        decreases params.len() - i,
    {
        let v = if i < vals.len() {
            copy_value(&vals[i])
        } else {
            Value::Undefined
        };
        let _ = define(scopes, id, copy_bytes(&params[i]), v);
        i = i + 1;
    }
}

/// Evaluates the node in the scope `env`: gives its result, and leaves in the
/// machine the scopes and the output as the node changed them.
///
/// `depth` is how many calls may be nested inside one another, `turns` how
/// many times any one loop may go round.
pub fn exec(node: &Node, env: EnvPtr, m: &mut Machine, depth: usize, turns: usize) -> (r: Res)
    requires
        env < old(m).scopes.len(),
    ensures
        r@ == eval(node@, env as int, old(m)@, depth as nat, turns as nat).res,
        final(m)@ == eval(node@, env as int, old(m)@, depth as nat, turns as nat).machine,
        final(m).scopes.len() >= old(m).scopes.len(),
        well_formed(old(m)@.scopes) ==> well_formed(final(m)@.scopes),
    decreases depth, node, turns + 1,
{
    match &node.expr {
        Expr::Let(_, _) => exec_let(node, env, m, depth, turns),
        Expr::Assign(_, _) => exec_assign(node, env, m, depth, turns),
        Expr::Var(name) => match get(&m.scopes, env, name) {
            Some(v) => Res::V(v),
            None => Res::E(EvalError::UndefinedVariable),
        },
        Expr::BnOp(_, _, _) => exec_binary(node, env, m, depth, turns),
        Expr::UnOp(_, _) => exec_unary(node, env, m, depth, turns),
        Expr::Block(stmts) => exec_block(stmts, env, m, depth, turns),
        Expr::Fn(_, _, _) => exec_fn(node, env, m, depth, turns),
        Expr::Return(value) => exec(value, env, m, depth, turns),
        Expr::If(_, _, _) => exec_if(node, env, m, depth, turns),
        Expr::While(_, _) => exec_while(node, env, m, depth, turns),
        Expr::Call(_, _) => exec_call(node, env, m, depth, turns),
        Expr::ReservedCall(name, args) => exec_reserved_call(name, args, env, m, depth, turns),
        Expr::Val(v) => Res::V(copy_value(v)),
        Expr::Nl => Res::V(Value::Undefined),
        Expr::Error => Res::E(EvalError::NotImplemented),
        Expr::Else(_) => Res::E(EvalError::NotImplemented),
    }
}

/// Declares a variable with the value of its initializer.
fn exec_let(node: &Node, env: EnvPtr, m: &mut Machine, depth: usize, turns: usize) -> (r: Res)
    requires
        env < old(m).scopes.len(),
        node.expr is Let,
    ensures
        r@ == eval(node@, env as int, old(m)@, depth as nat, turns as nat).res,
        final(m)@ == eval(node@, env as int, old(m)@, depth as nat, turns as nat).machine,
        final(m).scopes.len() >= old(m).scopes.len(),
        well_formed(old(m)@.scopes) ==> well_formed(final(m)@.scopes),
    decreases depth, node, 0nat,
{
    match &node.expr {
        Expr::Let(name, value) => {
            match exec(value, env, m, depth, turns) {
                Res::V(v) => match define(&mut m.scopes, env, copy_bytes(name), v) {
                    None => Res::V(Value::Undefined),
                    Some(e) => Res::E(e),
                },
                Res::E(e) => Res::E(e),
            }
        },
        _ => Res::E(EvalError::NotImplemented),
    }
}

/// Gives a variable that exists a new value.
fn exec_assign(node: &Node, env: EnvPtr, m: &mut Machine, depth: usize, turns: usize) -> (r: Res)
    requires
        env < old(m).scopes.len(),
        node.expr is Assign,
    ensures
        r@ == eval(node@, env as int, old(m)@, depth as nat, turns as nat).res,
        final(m)@ == eval(node@, env as int, old(m)@, depth as nat, turns as nat).machine,
        final(m).scopes.len() >= old(m).scopes.len(),
        well_formed(old(m)@.scopes) ==> well_formed(final(m)@.scopes),
    decreases depth, node, 0nat,
{
    match &node.expr {
        Expr::Assign(name, value) => {
            match exec(value, env, m, depth, turns) {
                Res::V(v) => match crate::interpreter::env::set(&mut m.scopes, env, name, v) {
                    None => Res::V(Value::Undefined),
                    Some(e) => Res::E(e),
                },
                Res::E(e) => Res::E(e),
            }
        },
        _ => Res::E(EvalError::NotImplemented),
    }
}

/// Evaluates both operands, then applies the operator; the first error wins.
fn exec_binary(node: &Node, env: EnvPtr, m: &mut Machine, depth: usize, turns: usize) -> (r: Res)
    requires
        env < old(m).scopes.len(),
        node.expr is BnOp,
    ensures
        r@ == eval(node@, env as int, old(m)@, depth as nat, turns as nat).res,
        final(m)@ == eval(node@, env as int, old(m)@, depth as nat, turns as nat).machine,
        final(m).scopes.len() >= old(m).scopes.len(),
        well_formed(old(m)@.scopes) ==> well_formed(final(m)@.scopes),
    decreases depth, node, 0nat,
{
    match &node.expr {
        Expr::BnOp(l, op, r) => {
            let a = exec(l, env, m, depth, turns);
            let b = exec(r, env, m, depth, turns);
            match (a, b) {
                (Res::V(x), Res::V(y)) => binary(*op, x, y),
                (Res::E(e), _) => Res::E(e),
                (_, Res::E(e)) => Res::E(e),
            }
        },
        _ => Res::E(EvalError::NotImplemented),
    }
}

/// Evaluates the operand, then applies the operator.
fn exec_unary(node: &Node, env: EnvPtr, m: &mut Machine, depth: usize, turns: usize) -> (r: Res)
    requires
        env < old(m).scopes.len(),
        node.expr is UnOp,
    ensures
        r@ == eval(node@, env as int, old(m)@, depth as nat, turns as nat).res,
        final(m)@ == eval(node@, env as int, old(m)@, depth as nat, turns as nat).machine,
        final(m).scopes.len() >= old(m).scopes.len(),
        well_formed(old(m)@.scopes) ==> well_formed(final(m)@.scopes),
    decreases depth, node, 0nat,
{
    match &node.expr {
        Expr::UnOp(op, value) => {
            match exec(value, env, m, depth, turns) {
                Res::V(v) => unary(*op, v),
                Res::E(e) => Res::E(e),
            }
        },
        _ => Res::E(EvalError::NotImplemented),
    }
}

/// Declares a function that holds the scope it is defined in.
fn exec_fn(node: &Node, env: EnvPtr, m: &mut Machine, depth: usize, turns: usize) -> (r: Res)
    requires
        env < old(m).scopes.len(),
        node.expr is Fn,
    ensures
        r@ == eval(node@, env as int, old(m)@, depth as nat, turns as nat).res,
        final(m)@ == eval(node@, env as int, old(m)@, depth as nat, turns as nat).machine,
        final(m).scopes.len() >= old(m).scopes.len(),
        well_formed(old(m)@.scopes) ==> well_formed(final(m)@.scopes),
    decreases depth, node, 0nat,
{
    match &node.expr {
        Expr::Fn(name, params, body) => {
            let f = Value::Fn(copy_names(params), Box::new(copy_node(body)), env);
            match define(&mut m.scopes, env, copy_bytes(name), f) {
                None => {
                    if m.closures < u64::MAX {
                        m.closures = m.closures + 1;
                    }
                    Res::V(Value::Undefined)
                },
                Some(_) => Res::E(EvalError::FunctionAlreadyDefined),
            }
        },
        _ => Res::E(EvalError::NotImplemented),
    }
}

/// Evaluates the condition, then the branch it selects in a scope of its own.
fn exec_if(node: &Node, env: EnvPtr, m: &mut Machine, depth: usize, turns: usize) -> (r: Res)
    requires
        env < old(m).scopes.len(),
        node.expr is If,
    ensures
        r@ == eval(node@, env as int, old(m)@, depth as nat, turns as nat).res,
        final(m)@ == eval(node@, env as int, old(m)@, depth as nat, turns as nat).machine,
        final(m).scopes.len() >= old(m).scopes.len(),
        well_formed(old(m)@.scopes) ==> well_formed(final(m)@.scopes),
    decreases depth, node, 0nat,
{
    match &node.expr {
        Expr::If(c, t, e) => {
            match exec(c, env, m, depth, turns) {
                Res::V(v) => {
                    let seen = m.closures;
                    let id = crate::interpreter::env::new(&mut m.scopes, Some(env));
                    let r = if v.is_truthy() {
                        exec(t, id, m, depth, turns)
                    } else {
                        exec(e, id, m, depth, turns)
                    };
                    m.release(id, seen);
                    r
                },
                Res::E(e) => Res::E(e),
            }
        },
        _ => Res::E(EvalError::NotImplemented),
    }
}

/// Calls a function: its body runs in a new scope inside the scope that the
/// function holds, with the parameters bound to the arguments by position.
fn exec_call(node: &Node, env: EnvPtr, m: &mut Machine, depth: usize, turns: usize) -> (r: Res)
    requires
        env < old(m).scopes.len(),
        node.expr is Call,
    ensures
        r@ == eval(node@, env as int, old(m)@, depth as nat, turns as nat).res,
        final(m)@ == eval(node@, env as int, old(m)@, depth as nat, turns as nat).machine,
        final(m).scopes.len() >= old(m).scopes.len(),
        well_formed(old(m)@.scopes) ==> well_formed(final(m)@.scopes),
    decreases depth, node, 0nat,
{
    match &node.expr {
        Expr::Call(f, args) => {
            match exec(f, env, m, depth, turns) {
                Res::V(Value::Fn(params, body, captured)) => {
                    match exec_args(args, env, m, depth, turns) {
                        Err(e) => Res::E(e),
                        Ok(vals) => {
                            if captured >= m.scopes.len() {
                                Res::E(EvalError::UnknownScope)
                            } else if depth == 0 {
                                Res::E(EvalError::TooDeep)
                            } else {
                                let seen = m.closures;
                                let id = crate::interpreter::env::new(&mut m.scopes, Some(captured));
                                bind(&mut m.scopes, id, &params, &vals);
                                let r = exec(&body, id, m, depth - 1, turns);
                                m.release(id, seen);
                                r
                            }
                        },
                    }
                },
                Res::V(_) => Res::E(EvalError::NotAFunction),
                Res::E(e) => Res::E(e),
            }
        },
        _ => Res::E(EvalError::NotImplemented),
    }
}

/// Evaluates the statements in turn and gives the result of the last.
fn exec_block(stmts: &Vec<Node>, env: EnvPtr, m: &mut Machine, depth: usize, turns: usize) -> (r:
    Res)
    requires
        env < old(m).scopes.len(),
    ensures
        r@ == eval_block(
            nodes_view(stmts@),
            stmts.len() as nat,
            env as int,
            old(m)@,
            depth as nat,
            turns as nat,
        ).res,
        final(m)@ == eval_block(
            nodes_view(stmts@),
            stmts.len() as nat,
            env as int,
            old(m)@,
            depth as nat,
            turns as nat,
        ).machine,
        final(m).scopes.len() >= old(m).scopes.len(),
        well_formed(old(m)@.scopes) ==> well_formed(final(m)@.scopes),
    decreases depth, stmts, 0nat,
{
    let mut r = Res::V(Value::Undefined);
    let mut i: usize = 0;
    while i < stmts.len()
        invariant
            i <= stmts.len(),
            env < m.scopes.len(),
            m.scopes.len() >= old(m).scopes.len(),
            well_formed(old(m)@.scopes) ==> well_formed(m@.scopes),
            r@ == eval_block(
                nodes_view(stmts@),
                i as nat,
                env as int,
                old(m)@,
                depth as nat,
                turns as nat,
            ).res,
            m@ == eval_block(
                nodes_view(stmts@),
                i as nat,
                env as int,
                old(m)@,
                depth as nat,
                turns as nat,
            ).machine,
        decreases stmts.len() - i,
    {
        r = exec(&stmts[i], env, m, depth, turns);
        i = i + 1;
    }
    r
}

/// Evaluates the arguments in turn, up to the first that fails.
fn exec_args(args: &Vec<Node>, env: EnvPtr, m: &mut Machine, depth: usize, turns: usize) -> (r:
    Result<Vec<Value>, EvalError>)
    requires
        env < old(m).scopes.len(),
    ensures
        ({
            let a = eval_args(
                nodes_view(args@),
                args.len() as nat,
                env as int,
                old(m)@,
                depth as nat,
                turns as nat,
            );
            &&& final(m)@ == a.machine
            &&& match r {
                Ok(vals) => a.error is None && values_view(vals@) == a.vals,
                Err(e) => a.error == Some(e),
            }
        }),
        final(m).scopes.len() >= old(m).scopes.len(),
        well_formed(old(m)@.scopes) ==> well_formed(final(m)@.scopes),
    decreases depth, args, 0nat,
{
    let mut vals: Vec<Value> = Vec::new();
    let mut i: usize = 0;
    assert(values_view(vals@) =~= Seq::empty());
    while i < args.len()
        invariant
            i <= args.len(),
            env < m.scopes.len(),
            m.scopes.len() >= old(m).scopes.len(),
            well_formed(old(m)@.scopes) ==> well_formed(m@.scopes),
            ({
                let a = eval_args(
                    nodes_view(args@),
                    i as nat,
                    env as int,
                    old(m)@,
                    depth as nat,
                    turns as nat,
                );
                &&& m@ == a.machine
                &&& a.error is None
                &&& values_view(vals@) == a.vals
            }),
        decreases args.len() - i,
    {
        let ghost before = values_view(vals@);
        match exec(&args[i], env, m, depth, turns) {
            Res::V(v) => {
                vals.push(v);
                assert(values_view(vals@) =~= before.push(v@));
            },
            Res::E(e) => {
                proof {
                    lemma_args_stop(
                        nodes_view(args@),
                        (i + 1) as nat,
                        args.len() as nat,
                        env as int,
                        old(m)@,
                        depth as nat,
                        turns as nat,
                    );
                }
                return Err(e);
            },
        }
        i = i + 1;
    }
    Ok(vals)
}

/// Once an argument has failed, the arguments after it change nothing.
proof fn lemma_args_stop(
    args: Seq<NodeV>,
    k: nat,
    j: nat,
    env: int,
    m: MachineV,
    depth: nat,
    turns: nat,
)
    requires
        k <= j <= args.len(),
        eval_args(args, k, env, m, depth, turns).error is Some,
    ensures
        eval_args(args, j, env, m, depth, turns) == eval_args(args, k, env, m, depth, turns),
    decreases j,
{
    if j > k {
        lemma_args_stop(args, k, (j - 1) as nat, env, m, depth, turns);
    }
}

/// The values as `print` writes them on a line.
fn line_of(vals: &Vec<Value>) -> (r: Vec<u8>)
    ensures
        r@ == line_text(values_view(vals@), vals.len() as nat),
{
    let mut out: Vec<u8> = Vec::new();
    let mut i: usize = 0;
    while i < vals.len()
        invariant
            i <= vals.len(),
            out@ == line_text(values_view(vals@), i as nat),
        decreases vals.len() - i,
    {
        if i > 0 {
            out.push(' ' as u8);
        }
        let shown = vals[i].display();
        push_bytes(&mut out, &shown);
        i = i + 1;
        assert(out@ =~= line_text(values_view(vals@), i as nat));
    }
    out
}

/// Runs a built-in: `print` evaluates its arguments, then writes them on one
/// line, divided by single spaces; where an argument fails it writes nothing
/// and gives that error. No other name is known.
fn exec_reserved_call(
    name: &Vec<u8>,
    args: &Vec<Node>,
    env: EnvPtr,
    m: &mut Machine,
    depth: usize,
    turns: usize,
) -> (r: Res)
    requires
        env < old(m).scopes.len(),
    ensures
        ({
            let a = eval_args(
                nodes_view(args@),
                args.len() as nat,
                env as int,
                old(m)@,
                depth as nat,
                turns as nat,
            );
            if name@ != print_name() {
                r@ == ResV::E(EvalError::NotImplemented) && final(m)@ == old(m)@
            } else {
                match a.error {
                    Some(e) => r@ == ResV::E(e) && final(m)@ == a.machine,
                    None => r@ == ResV::V(ValueV::Undefined) && final(m)@ == printed(
                        a.machine,
                        line_text(a.vals, a.vals.len()).push('\n' as u8),
                    ),
                }
            }
        }),
        final(m).scopes.len() >= old(m).scopes.len(),
        well_formed(old(m)@.scopes) ==> well_formed(final(m)@.scopes),
    decreases depth, args, 1nat,
{
    proof {
        reveal_strlit("print");
    }
    if same_bytes(name, &text("print")) {
        match exec_args(args, env, m, depth, turns) {
            Err(e) => Res::E(e),
            Ok(vals) => {
                let mut line = line_of(&vals);
                line.push('\n' as u8);
                push_bytes(&mut m.out, &line);
                Res::V(Value::Undefined)
            },
        }
    } else {
        Res::E(EvalError::NotImplemented)
    }
}

/// Runs a loop: its condition, then its body in a scope of its own, for as
/// long as the condition is true.
fn exec_while(node: &Node, env: EnvPtr, m: &mut Machine, depth: usize, turns: usize) -> (r: Res)
    requires
        env < old(m).scopes.len(),
        node.expr is While,
    ensures
        r@ == eval(node@, env as int, old(m)@, depth as nat, turns as nat).res,
        final(m)@ == eval(node@, env as int, old(m)@, depth as nat, turns as nat).machine,
        final(m).scopes.len() >= old(m).scopes.len(),
        well_formed(old(m)@.scopes) ==> well_formed(final(m)@.scopes),
    decreases depth, node, turns,
{
    match &node.expr {
        Expr::While(c, b) => {
            let mut last = Res::V(Value::Undefined);
            let mut left = turns;
            loop
                invariant
                    left <= turns,
                    env < m.scopes.len(),
                    m.scopes.len() >= old(m).scopes.len(),
                    well_formed(old(m)@.scopes) ==> well_formed(m@.scopes),
                    node.expr == Expr::While(*c, *b),
                    eval(node@, env as int, old(m)@, depth as nat, turns as nat) == eval_loop(
                        node@,
                        env as int,
                        m@,
                        depth as nat,
                        turns as nat,
                        left as nat,
                        last@,
                    ),
                decreases left,
            {
                if left == 0 {
                    return Res::E(EvalError::TooManyTurns);
                }
                match exec(c, env, m, depth, turns) {
                    Res::V(v) => {
                        if v.is_truthy() {
                            let seen = m.closures;
                            let id = crate::interpreter::env::new(&mut m.scopes, Some(env));
                            let r = exec(b, id, m, depth, turns);
                            m.release(id, seen);
                            match r {
                                Res::V(_) => {
                                    last = r;
                                    left = left - 1;
                                },
                                Res::E(_) => {
                                    return r;
                                },
                            }
                        } else {
                            return last;
                        }
                    },
                    Res::E(e) => {
                        return Res::E(e);
                    },
                }
            }
        },
        _ => Res::E(EvalError::NotImplemented),
    }
}

/// The state after one statement of a program was run in the global scope:
/// what evaluating it left and, where it failed, a line with the message of
/// its error.
pub open spec fn ran(n: NodeV, m: MachineV, depth: nat, turns: nat) -> MachineV {
    let o = eval(n, 0, m, depth, turns);
    match o.res {
        ResV::V(_) => o.machine,
        ResV::E(e) => printed(o.machine, error_text(e).push('\n' as u8)),
    }
}

/// The state after the first `k` statements of a program were run in turn.
pub open spec fn run_statements(
    stmts: Seq<NodeV>,
    k: nat,
    m: MachineV,
    depth: nat,
    turns: nat,
) -> MachineV
    decreases k,
{
    if k == 0 || k > stmts.len() {
        m
    } else {
        ran(stmts[k - 1], run_statements(stmts, (k - 1) as nat, m, depth, turns), depth, turns)
    }
}

/// What a program writes when it is run on a new machine.
pub open spec fn run_output(stmts: Seq<NodeV>, depth: nat, turns: nat) -> Seq<u8> {
    run_statements(stmts, stmts.len(), start(), depth, turns).out
}

/// Runs one statement of a program in the global scope. A statement that
/// fails writes the message of its error on a line of its own.
pub fn run_statement(node: &Node, m: &mut Machine, depth: usize, turns: usize)
    requires
        0 < old(m).scopes.len(),
    ensures
        final(m)@ == ran(node@, old(m)@, depth as nat, turns as nat),
        final(m).scopes.len() >= old(m).scopes.len(),
        well_formed(old(m)@.scopes) ==> well_formed(final(m)@.scopes),
{
    match exec(node, 0, m, depth, turns) {
        Res::V(_) => {},
        Res::E(e) => {
            let mut line = e.message();
            line.push('\n' as u8);
            push_bytes(&mut m.out, &line);
        },
    }
}

/// Runs a program on a new machine and returns what it writes. After a
/// statement that fails the next one runs.
pub fn run(ast: &Vec<Node>, depth: usize, turns: usize) -> (out: Vec<u8>)
    ensures
        out@ == run_output(nodes_view(ast@), depth as nat, turns as nat),
{
    let mut m = Machine::new();
    let mut i: usize = 0;
    while i < ast.len()
        invariant
            i <= ast.len(),
            0 < m.scopes.len(),
            m@ == run_statements(nodes_view(ast@), i as nat, start(), depth as nat, turns as nat),
        decreases ast.len() - i,
    {
        run_statement(&ast[i], &mut m, depth, turns);
        i = i + 1;
    }
    m.out
}

} // verus!
