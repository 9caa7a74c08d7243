//! Scopes: records of variables, each with the scope that encloses it.
//!
//! The scopes of a run live in one vector and are named by their index, so a
//! function can hold the scope it was defined in and see what is assigned
//! there later.
use crate::interpreter::operators::EvalError;
use crate::types::{copy_value, same_bytes, Value, ValueV};
use vstd::prelude::*;

verus! {

/// The name of a scope: its index among the scopes of the run.
pub type EnvPtr = usize;

/// One scope: its variables in the order they were declared, and the scope
/// that encloses it.
#[derive(Debug, PartialEq)]
pub struct Environment {
    pub vars: Vec<(Vec<u8>, Value)>,
    pub parent: Option<EnvPtr>,
}

/// The model of a scope.
pub ghost struct EnvironmentV {
    pub vars: Seq<(Seq<u8>, ValueV)>,
    pub parent: Option<usize>,
}

/// The models of a scope's variables.
pub open spec fn vars_view(s: Seq<(Vec<u8>, Value)>) -> Seq<(Seq<u8>, ValueV)> {
    Seq::new(s.len(), |i: int| (s[i].0@, s[i].1@))
}

impl View for Environment {
    type V = EnvironmentV;

    open spec fn view(&self) -> EnvironmentV {
        EnvironmentV { vars: vars_view(self.vars@), parent: self.parent }
    }
}

/// The models of the scopes of a run.
pub open spec fn scopes_view(s: Seq<Environment>) -> Seq<EnvironmentV> {
    Seq::new(s.len(), |i: int| s[i]@)
}

/// No name stands twice among the variables.
pub open spec fn distinct_names(vars: Seq<(Seq<u8>, ValueV)>) -> bool {
    forall|i: int, j: int| 0 <= i < j < vars.len() ==> (#[trigger] vars[i]).0 != (#[trigger] vars[j]).0
}

/// Every scope was opened after the scope that encloses it, and holds each
/// of its names once.
pub open spec fn well_formed(s: Seq<EnvironmentV>) -> bool {
    forall|i: int|
        0 <= i < s.len() ==> {
            &&& (#[trigger] s[i]).parent matches Some(p) ==> p < i
            &&& distinct_names(s[i].vars)
        }
}

/// Where the variables hold the name, looking from `from` on.
pub open spec fn slot(vars: Seq<(Seq<u8>, ValueV)>, name: Seq<u8>, from: int) -> Option<int>
    decreases vars.len() - from,
{
    if from < 0 || from >= vars.len() {
        None
    } else if vars[from].0 == name {
        Some(from)
    } else {
        slot(vars, name, from + 1)
    }
}

/// The nearest scope, from `env` outward, that holds the name.
pub open spec fn owner(s: Seq<EnvironmentV>, env: int, name: Seq<u8>) -> Option<int>
    decreases env,
{
    if env < 0 || env >= s.len() {
        None
    } else if slot(s[env].vars, name, 0) is Some {
        Some(env)
    } else {
        match s[env].parent {
            Some(p) => if p < env {
                owner(s, p as int, name)
            } else {
                None
            },
            None => None,
        }
    }
}

/// What the name stands for, seen from `env`.
pub open spec fn looked_up(s: Seq<EnvironmentV>, env: int, name: Seq<u8>) -> Option<ValueV> {
    match owner(s, env, name) {
        Some(e) => Some(s[e].vars[slot(s[e].vars, name, 0).unwrap()].1),
        None => None,
    }
}

/// The scopes after the name, seen from `env`, was given the value; nothing
/// where no scope on the chain holds the name.
pub open spec fn assigned(s: Seq<EnvironmentV>, env: int, name: Seq<u8>, v: ValueV) -> Option<
    Seq<EnvironmentV>,
> {
    match owner(s, env, name) {
        Some(e) => Some(
            s.update(
                e,
                EnvironmentV {
                    vars: s[e].vars.update(slot(s[e].vars, name, 0).unwrap(), (name, v)),
                    parent: s[e].parent,
                },
            ),
        ),
        None => None,
    }
}

/// The scopes after the name was declared in `env` with the value; nothing
/// where `env` itself holds the name already.
pub open spec fn declared(s: Seq<EnvironmentV>, env: int, name: Seq<u8>, v: ValueV) -> Option<
    Seq<EnvironmentV>,
> {
    if slot(s[env].vars, name, 0) is Some {
        None
    } else {
        Some(s.update(env, EnvironmentV { vars: s[env].vars.push((name, v)), parent: s[env].parent }))
    }
}

/// The scopes after one more, empty and enclosed by `parent`, was opened.
pub open spec fn opened(s: Seq<EnvironmentV>, parent: Option<usize>) -> Seq<EnvironmentV> {
    s.push(EnvironmentV { vars: Seq::empty(), parent })
}

/// Assigning keeps the scopes well formed.
pub proof fn lemma_assigned_well_formed(s: Seq<EnvironmentV>, env: int, name: Seq<u8>, v: ValueV)
    requires
        well_formed(s),
        assigned(s, env, name, v) is Some,
    ensures
        well_formed(assigned(s, env, name, v).unwrap()),
        assigned(s, env, name, v).unwrap().len() == s.len(),
{
    lemma_owner_in_range(s, env, name);
    let e = owner(s, env, name).unwrap();
    lemma_slot_in_range(s[e].vars, name, 0);
    let i = slot(s[e].vars, name, 0).unwrap();
    let after = assigned(s, env, name, v).unwrap();
    assert forall|k: int| 0 <= k < after.len() implies {
        &&& (#[trigger] after[k]).parent matches Some(p) ==> p < k
        &&& distinct_names(after[k].vars)
    } by {
        assert(s[k].parent == after[k].parent);
        if k == e {
            assert forall|a: int, b: int| 0 <= a < b < after[k].vars.len() implies (
            #[trigger] after[k].vars[a]).0 != (#[trigger] after[k].vars[b]).0 by {
                assert(after[k].vars[a].0 == s[k].vars[a].0);
                assert(after[k].vars[b].0 == s[k].vars[b].0);
            }
        }
    }
}

/// Where no slot holds the name, no variable has it.
pub proof fn lemma_slot_none(vars: Seq<(Seq<u8>, ValueV)>, name: Seq<u8>, from: int)
    requires
        0 <= from,
        slot(vars, name, from) is None,
    ensures
        forall|i: int| from <= i < vars.len() ==> (#[trigger] vars[i]).0 != name,
    decreases vars.len() - from,
{
    if from < vars.len() {
        lemma_slot_none(vars, name, from + 1);
    }
}

/// Declaring keeps the scopes well formed.
pub proof fn lemma_declared_well_formed(s: Seq<EnvironmentV>, env: int, name: Seq<u8>, v: ValueV)
    requires
        well_formed(s),
        0 <= env < s.len(),
        declared(s, env, name, v) is Some,
    ensures
        well_formed(declared(s, env, name, v).unwrap()),
        declared(s, env, name, v).unwrap().len() == s.len(),
{
    lemma_slot_none(s[env].vars, name, 0);
    let after = declared(s, env, name, v).unwrap();
    assert forall|k: int| 0 <= k < after.len() implies {
        &&& (#[trigger] after[k]).parent matches Some(p) ==> p < k
        &&& distinct_names(after[k].vars)
    } by {
        assert(s[k].parent == after[k].parent);
        if k == env {
            assert forall|a: int, b: int| 0 <= a < b < after[k].vars.len() implies (
            #[trigger] after[k].vars[a]).0 != (#[trigger] after[k].vars[b]).0 by {
                if b < s[k].vars.len() {
                    assert(after[k].vars[a] == s[k].vars[a]);
                    assert(after[k].vars[b] == s[k].vars[b]);
                } else {
                    assert(after[k].vars[a] == s[k].vars[a]);
                }
            }
        }
    }
}

/// Opening a scope inside one that exists, or inside none, keeps the scopes
/// well formed.
pub proof fn lemma_opened_well_formed(s: Seq<EnvironmentV>, parent: Option<usize>)
    requires
        well_formed(s),
        parent matches Some(p) ==> p < s.len(),
    ensures
        well_formed(opened(s, parent)),
{
    let after = opened(s, parent);
    assert forall|k: int| 0 <= k < after.len() implies {
        &&& (#[trigger] after[k]).parent matches Some(p) ==> p < k
        &&& distinct_names(after[k].vars)
    } by {
        if k < s.len() {
            assert(after[k] == s[k]);
        }
    }
}

/// The owner of a name is one of the scopes.
pub proof fn lemma_owner_in_range(s: Seq<EnvironmentV>, env: int, name: Seq<u8>)
    ensures
        owner(s, env, name) matches Some(e) ==> 0 <= e < s.len() && e <= env && slot(
            s[e].vars,
            name,
            0,
        ) is Some,
    decreases env,
{
    if env < 0 || env >= s.len() {
    } else if slot(s[env].vars, name, 0) is Some {
    } else {
        match s[env].parent {
            Some(p) => if p < env {
                lemma_owner_in_range(s, p as int, name);
            },
            None => {},
        }
    }
}

/// A slot that was found is a place among the variables, and holds the name.
pub proof fn lemma_slot_in_range(vars: Seq<(Seq<u8>, ValueV)>, name: Seq<u8>, from: int)
    ensures
        slot(vars, name, from) matches Some(i) ==> from <= i < vars.len() && vars[i].0 == name,
    decreases vars.len() - from,
{
    if from < 0 || from >= vars.len() {
    } else if vars[from].0 == name {
    } else {
        lemma_slot_in_range(vars, name, from + 1);
    }
}

/// Where the variables hold the name.
fn find(vars: &Vec<(Vec<u8>, Value)>, name: &Vec<u8>) -> (r: Option<usize>)
    ensures
        r matches Some(i) ==> slot(vars_view(vars@), name@, 0) == Some(i as int) && i < vars.len(),
        r is None ==> slot(vars_view(vars@), name@, 0) is None,
{
    let mut i: usize = 0;
    while i < vars.len()
        invariant
            i <= vars.len(),
            slot(vars_view(vars@), name@, 0) == slot(vars_view(vars@), name@, i as int),
        decreases vars.len() - i,
    {
        if same_bytes(&vars[i].0, name) {
            return Some(i);
        }
        i = i + 1;
    }
    None
}

/// Opens an empty scope enclosed by `parent` and returns its name.
pub fn new(scopes: &mut Vec<Environment>, parent: Option<EnvPtr>) -> (id: EnvPtr)
    ensures
        id == old(scopes).len(),
        final(scopes).len() == old(scopes).len() + 1,
        scopes_view(final(scopes)@) == opened(scopes_view(old(scopes)@), parent),
        well_formed(scopes_view(old(scopes)@)) && (parent matches Some(p) ==> p < old(scopes).len())
            ==> well_formed(scopes_view(final(scopes)@)),
{
    proof {
        if well_formed(scopes_view(scopes@)) && (parent matches Some(p) ==> p < scopes.len()) {
            lemma_opened_well_formed(scopes_view(scopes@), parent);
        }
    }
    let id = scopes.len();
    scopes.push(Environment { vars: Vec::new(), parent });
    assert(scopes_view(scopes@) =~= opened(scopes_view(old(scopes)@), parent)) by {
        assert(vars_view(Seq::<(Vec<u8>, Value)>::empty()) =~= Seq::empty());
    }
    id
}

/// What the name stands for, seen from `env`: the value that the nearest
/// scope on the chain holds under it.
pub fn get(scopes: &Vec<Environment>, env: EnvPtr, name: &Vec<u8>) -> (r: Option<Value>)
    ensures
        r matches Some(v) ==> looked_up(scopes_view(scopes@), env as int, name@) == Some(v@),
        r is None ==> looked_up(scopes_view(scopes@), env as int, name@) is None,
{
    if env >= scopes.len() {
        return None;
    }
    let mut e = env;
    loop
        invariant
            e < scopes.len(),
            owner(scopes_view(scopes@), env as int, name@) == owner(
                scopes_view(scopes@),
                e as int,
                name@,
            ),
        decreases e,
    {
        match find(&scopes[e].vars, name) {
            Some(i) => {
                return Some(copy_value(&scopes[e].vars[i].1));
            },
            None => {},
        }
        match scopes[e].parent {
            Some(p) => {
                if p < e {
                    e = p;
                } else {
                    return None;
                }
            },
            None => {
                return None;
            },
        }
    }
}

/// Gives the name, seen from `env`, the value: in the nearest scope on the
/// chain that holds it. Where none does, nothing changes and the error comes
/// back.
pub fn set(scopes: &mut Vec<Environment>, env: EnvPtr, name: &Vec<u8>, value: Value) -> (r:
    Option<EvalError>)
    ensures
        r is None ==> assigned(scopes_view(old(scopes)@), env as int, name@, value@) == Some(
            scopes_view(final(scopes)@),
        ),
        r is Some ==> r == Some(EvalError::UndefinedAssignment) && assigned(
            scopes_view(old(scopes)@),
            env as int,
            name@,
            value@,
        ) is None && final(scopes)@ == old(scopes)@,
        final(scopes).len() == old(scopes).len(),
        well_formed(scopes_view(old(scopes)@)) ==> well_formed(scopes_view(final(scopes)@)),
{
    proof {
        if well_formed(scopes_view(scopes@)) && assigned(
            scopes_view(scopes@),
            env as int,
            name@,
            value@,
        ) is Some {
            lemma_assigned_well_formed(scopes_view(scopes@), env as int, name@, value@);
        }
    }
    if env >= scopes.len() {
        return Some(EvalError::UndefinedAssignment);
    }
    let mut e = env;
    loop
        invariant
            e < scopes.len(),
            scopes@ == old(scopes)@,
            owner(scopes_view(scopes@), env as int, name@) == owner(
                scopes_view(scopes@),
                e as int,
                name@,
            ),
        decreases e,
    {
        match find(&scopes[e].vars, name) {
            Some(i) => {
                let ghost before = scopes_view(scopes@);
                proof {
                    if well_formed(before) {
                        lemma_assigned_well_formed(before, env as int, name@, value@);
                    }
                }
                scopes[e].vars[i].1 = value;
                assert(scopes_view(scopes@) =~= before.update(
                    e as int,
                    EnvironmentV {
                        vars: before[e as int].vars.update(i as int, (name@, value@)),
                        parent: before[e as int].parent,
                    },
                )) by {
                    lemma_slot_in_range(before[e as int].vars, name@, 0);
                    assert(scopes_view(scopes@)[e as int].vars =~= before[e as int].vars.update(
                        i as int,
                        (name@, value@),
                    ));
                }
                return None;
            },
            None => {},
        }
        match scopes[e].parent {
            Some(p) => {
                if p < e {
                    e = p;
                } else {
                    return Some(EvalError::UndefinedAssignment);
                }
            },
            None => {
                return Some(EvalError::UndefinedAssignment);
            },
        }
    }
}

/// Declares the name in `env` with the value. Where `env` holds the name
/// already, nothing changes and the error comes back.
pub fn define(scopes: &mut Vec<Environment>, env: EnvPtr, name: Vec<u8>, value: Value) -> (r:
    Option<EvalError>)
    requires
        env < old(scopes).len(),
    ensures
        r is None ==> declared(scopes_view(old(scopes)@), env as int, name@, value@) == Some(
            scopes_view(final(scopes)@),
        ),
        r is Some ==> r == Some(EvalError::AlreadyDeclared) && declared(
            scopes_view(old(scopes)@),
            env as int,
            name@,
            value@,
        ) is None && final(scopes)@ == old(scopes)@,
        final(scopes).len() == old(scopes).len(),
        well_formed(scopes_view(old(scopes)@)) ==> well_formed(scopes_view(final(scopes)@)),
{
    proof {
        if well_formed(scopes_view(scopes@)) && declared(
            scopes_view(scopes@),
            env as int,
            name@,
            value@,
        ) is Some {
            lemma_declared_well_formed(scopes_view(scopes@), env as int, name@, value@);
        }
    }
    match find(&scopes[env].vars, &name) {
        Some(_) => Some(EvalError::AlreadyDeclared),
        None => {
            let ghost before = scopes_view(scopes@);
            scopes[env].vars.push((name, value));
            assert(scopes_view(scopes@) =~= before.update(
                env as int,
                EnvironmentV {
                    vars: before[env as int].vars.push((name@, value@)),
                    parent: before[env as int].parent,
                },
            )) by {
                assert(scopes_view(scopes@)[env as int].vars =~= before[env as int].vars.push(
                    (name@, value@),
                ));
            }
            None
        },
    }
}

} // verus!
