//! Dead-store elimination: a statement that gives a variable a value which
//! nothing reads is taken out of its list.
//!
//! A store is dead when the next statement of the same list that touches the
//! variable stores it again without reading it, or when nothing after it
//! touches the variable and the list itself declared it.
//!
//! A function holds the scope it was defined in, and reads a variable when it
//! is called. The pass does not follow calls; it takes a call for a read of
//! every variable that a function may hold. So a store stays where a call
//! stands between it and the store that takes its place, and a last store
//! stays always, if a function defined in the list reads the variable, or if
//! the list did not declare the variable, so that a function from outside
//! may read it.
use crate::passers::fold::at;
use crate::types::{
    copy_bytes, copy_names, copy_node, nodes_view, same_bytes, Expr, ExprV, Node, NodeV,
};
use vstd::prelude::*;

verus! {

/// Whether the node reads the variable, anywhere inside it.
pub open spec fn reads(n: NodeV, name: Seq<u8>) -> bool
    decreases n,
{
    match n.expr {
        ExprV::Var(x) => x == name,
        ExprV::UnOp(_, a) => reads(*a, name),
        ExprV::BnOp(a, _, b) => reads(*a, name) || reads(*b, name),
        ExprV::Let(_, v) => reads(*v, name),
        ExprV::Assign(_, v) => reads(*v, name),
        ExprV::Return(v) => reads(*v, name),
        ExprV::Else(b) => reads(*b, name),
        ExprV::Block(l) => reads_among(l, l.len(), name),
        ExprV::Fn(_, _, b) => reads(*b, name),
        ExprV::Call(f, l) => reads(*f, name) || reads_among(l, l.len(), name),
        ExprV::ReservedCall(_, l) => reads_among(l, l.len(), name),
        ExprV::If(c, t, e) => reads(*c, name) || reads(*t, name) || reads(*e, name),
        ExprV::While(c, b) => reads(*c, name) || reads(*b, name),
        ExprV::Val(_) => false,
        ExprV::Nl => false,
        ExprV::Error => false,
    }
}

/// Whether one of the first `k` nodes reads the variable.
pub open spec fn reads_among(l: Seq<NodeV>, k: nat, name: Seq<u8>) -> bool
    decreases l, k,
{
    if k == 0 || k > l.len() {
        false
    } else {
        reads_among(l, (k - 1) as nat, name) || reads(l[k - 1], name)
    }
}

/// The variable that the statement stores: the one it declares or assigns.
pub open spec fn stored(n: NodeV) -> Option<Seq<u8>> {
    match n.expr {
        ExprV::Let(name, _) => Some(name),
        ExprV::Assign(name, _) => Some(name),
        _ => None,
    }
}

/// Whether the statement declares the variable.
pub open spec fn declares(n: NodeV, name: Seq<u8>) -> bool {
    n.expr matches ExprV::Let(x, _) && x == name
}

/// Whether the statement reads or stores the variable.
pub open spec fn touches(n: NodeV, name: Seq<u8>) -> bool {
    reads(n, name) || stored(n) == Some(name)
}

/// The first statement from `from` on that touches the variable.
pub open spec fn next_touch(s: Seq<NodeV>, from: int, name: Seq<u8>) -> Option<int>
    decreases s.len() - from,
{
    if from < 0 || from >= s.len() {
        None
    } else if touches(s[from], name) {
        Some(from)
    } else {
        next_touch(s, from + 1, name)
    }
}

/// The last statement up to `upto` that touches the variable.
pub open spec fn prev_touch(s: Seq<NodeV>, upto: int, name: Seq<u8>) -> Option<int>
    decreases upto + 1,
{
    if upto < 0 || upto >= s.len() {
        None
    } else if touches(s[upto], name) {
        Some(upto)
    } else {
        prev_touch(s, upto - 1, name)
    }
}

/// Whether a statement up to `upto` declares the variable.
pub open spec fn declared_upto(s: Seq<NodeV>, upto: int, name: Seq<u8>) -> bool
    decreases upto + 1,
{
    if upto < 0 || upto >= s.len() {
        false
    } else if declares(s[upto], name) {
        true
    } else {
        declared_upto(s, upto - 1, name)
    }
}

/// Whether a function is defined, anywhere inside the node, that reads the
/// variable.
pub open spec fn captures(n: NodeV, name: Seq<u8>) -> bool
    decreases n,
{
    match n.expr {
        ExprV::Fn(_, _, b) => reads(*b, name),
        ExprV::UnOp(_, a) => captures(*a, name),
        ExprV::BnOp(a, _, b) => captures(*a, name) || captures(*b, name),
        ExprV::Let(_, v) => captures(*v, name),
        ExprV::Assign(_, v) => captures(*v, name),
        ExprV::Return(v) => captures(*v, name),
        ExprV::Else(b) => captures(*b, name),
        ExprV::Block(l) => captures_among(l, l.len(), name),
        ExprV::Call(f, l) => captures(*f, name) || captures_among(l, l.len(), name),
        ExprV::ReservedCall(_, l) => captures_among(l, l.len(), name),
        ExprV::If(c, t, e) => captures(*c, name) || captures(*t, name) || captures(*e, name),
        ExprV::While(c, b) => captures(*c, name) || captures(*b, name),
        ExprV::Var(_) => false,
        ExprV::Val(_) => false,
        ExprV::Nl => false,
        ExprV::Error => false,
    }
}

/// Whether a function is defined, inside one of the first `k` nodes, that
/// reads the variable.
pub open spec fn captures_among(l: Seq<NodeV>, k: nat, name: Seq<u8>) -> bool
    decreases l, k,
{
    if k == 0 || k > l.len() {
        false
    } else {
        captures_among(l, (k - 1) as nat, name) || captures(l[k - 1], name)
    }
}

/// Whether a function is called when the node is evaluated, as far as the
/// node tells: a call stands in it, outside the bodies of the functions that
/// it defines.
pub open spec fn calls(n: NodeV) -> bool
    decreases n,
{
    match n.expr {
        ExprV::Call(_, _) => true,
        ExprV::Fn(_, _, _) => false,
        ExprV::UnOp(_, a) => calls(*a),
        ExprV::BnOp(a, _, b) => calls(*a) || calls(*b),
        ExprV::Let(_, v) => calls(*v),
        ExprV::Assign(_, v) => calls(*v),
        ExprV::Return(v) => calls(*v),
        ExprV::Else(b) => calls(*b),
        ExprV::Block(l) => calls_among(l, l.len()),
        ExprV::ReservedCall(_, l) => calls_among(l, l.len()),
        ExprV::If(c, t, e) => calls(*c) || calls(*t) || calls(*e),
        ExprV::While(c, b) => calls(*c) || calls(*b),
        ExprV::Var(_) => false,
        ExprV::Val(_) => false,
        ExprV::Nl => false,
        ExprV::Error => false,
    }
}

/// Whether a call stands in one of the first `k` nodes.
pub open spec fn calls_among(l: Seq<NodeV>, k: nat) -> bool
    decreases l, k,
{
    if k == 0 || k > l.len() {
        false
    } else {
        calls_among(l, (k - 1) as nat) || calls(l[k - 1])
    }
}

/// Whether a call stands in one of the statements from `from` to `to`, both
/// counted.
pub open spec fn calls_between(s: Seq<NodeV>, from: int, to: int) -> bool
    decreases to - from + 1,
{
    if from < 0 || from > to || to >= s.len() {
        false
    } else {
        calls(s[from]) || calls_between(s, from + 1, to)
    }
}

/// Whether a function may hold the variable that statement `i` stores: a
/// function defined in the list reads it, or the list has not declared it by
/// then, so that it belongs to a scope outside.
pub open spec fn held(s: Seq<NodeV>, i: int, name: Seq<u8>) -> bool {
    captures_among(s, s.len(), name) || !declared_upto(s, i, name)
}

/// Whether statement `i` is a dead store. It stores a variable, and either
///
/// * the next statement that touches the variable stores it without reading
///   it, and no call that may read the variable stands between: no call
///   stands in the statements after `i` up to that one, or no function may
///   hold the variable; or
/// * no later statement touches the variable, the list declared it, and no
///   function defined in the list reads it.
pub open spec fn dead(s: Seq<NodeV>, i: int) -> bool {
    0 <= i < s.len() && match stored(s[i]) {
        Some(name) => match next_touch(s, i + 1, name) {
            Some(j) => !reads(s[j], name) && !(calls_between(s, i + 1, j) && held(s, i, name)),
            None => declared_upto(s, i, name) && !captures_among(s, s.len(), name),
        },
        None => false,
    }
}

/// The last store of a variable that a function of the list reads stays, and
/// so does a store before a call that may read it: a function sees what the
/// variable stands for when it is called.
pub proof fn lemma_store_that_a_function_may_read_stays(s: Seq<NodeV>, i: int, name: Seq<u8>)
    requires
        0 <= i < s.len(),
        stored(s[i]) == Some(name),
    ensures
        next_touch(s, i + 1, name) is None && captures_among(s, s.len(), name) ==> !dead(s, i),
        (next_touch(s, i + 1, name) matches Some(j) && calls_between(s, i + 1, j) && held(
            s,
            i,
            name,
        )) ==> !dead(s, i),
{
}

/// Whether, at statement `j`, the variable has lost its declaration: the last
/// statement before `j` that touches it is a dead store of it, and that one
/// declared it or had lost the declaration itself.
pub open spec fn orphan(s: Seq<NodeV>, j: int, name: Seq<u8>) -> bool
    decreases j,
{
    if j <= 0 || j > s.len() {
        false
    } else {
        match prev_touch(s, j - 1, name) {
            Some(i) => 0 <= i < j && dead(s, i) && stored(s[i]) == Some(name) && (declares(
                s[i],
                name,
            ) || orphan(s, i, name)),
            None => false,
        }
    }
}

/// A statement that stays, with the lists inside it cleaned.
pub open spec fn cleaned_node(n: NodeV) -> NodeV
    decreases n, 1nat,
{
    match n.expr {
        ExprV::If(c, t, e) => at(
            n,
            ExprV::If(c, Box::new(cleaned_body(*t)), Box::new(cleaned_body(*e))),
        ),
        ExprV::While(c, b) => at(n, ExprV::While(c, Box::new(cleaned_body(*b)))),
        ExprV::Fn(name, params, b) => at(n, ExprV::Fn(name, params, Box::new(cleaned_body(*b)))),
        ExprV::Else(b) => at(n, ExprV::Else(Box::new(cleaned_body(*b)))),
        _ => n,
    }
}

/// A body that runs in a scope of its own, cleaned where it is a block.
pub open spec fn cleaned_body(n: NodeV) -> NodeV
    decreases n, 0nat,
{
    match n.expr {
        ExprV::Block(l) => at(n, ExprV::Block(cleaned(l, l.len()))),
        _ => n,
    }
}

/// What statement `i` becomes where it stays: an assignment to a variable
/// that has lost its declaration becomes the declaration.
pub open spec fn cleaned_at(s: Seq<NodeV>, i: int) -> NodeV
    decreases s, 0nat,
{
    if !(0 <= i < s.len()) {
        arbitrary()
    } else {
        match s[i].expr {
            ExprV::Assign(name, v) => if orphan(s, i, name) {
                at(s[i], ExprV::Let(name, v))
            } else {
                s[i]
            },
            _ => cleaned_node(s[i]),
        }
    }
}

/// The first `k` statements of the list without the dead stores among them.
pub open spec fn cleaned(s: Seq<NodeV>, k: nat) -> Seq<NodeV>
    decreases s, k,
{
    if k == 0 || k > s.len() {
        Seq::empty()
    } else if dead(s, k - 1) {
        cleaned(s, (k - 1) as nat)
    } else {
        cleaned(s, (k - 1) as nat).push(cleaned_at(s, k - 1))
    }
}

/// Whether the node reads the variable, anywhere inside it.
pub fn sniff(n: &Node, name: &Vec<u8>) -> (r: bool)
    ensures
        r == reads(n@, name@),
    decreases n,
{
    match &n.expr {
        Expr::Var(x) => same_bytes(x, name),
        Expr::UnOp(_, a) => sniff(a, name),
        Expr::BnOp(a, _, b) => sniff(a, name) || sniff(b, name),
        Expr::Let(_, v) => sniff(v, name),
        Expr::Assign(_, v) => sniff(v, name),
        Expr::Return(v) => sniff(v, name),
        Expr::Else(b) => sniff(b, name),
        Expr::Block(l) => sniff_among(l, name),
        Expr::Fn(_, _, b) => sniff(b, name),
        Expr::Call(f, l) => sniff(f, name) || sniff_among(l, name),
        Expr::ReservedCall(_, l) => sniff_among(l, name),
        Expr::If(c, t, e) => sniff(c, name) || sniff(t, name) || sniff(e, name),
        Expr::While(c, b) => sniff(c, name) || sniff(b, name),
        Expr::Val(_) => false,
        Expr::Nl => false,
        Expr::Error => false,
    }
}

/// Whether one of the nodes reads the variable.
fn sniff_among(l: &Vec<Node>, name: &Vec<u8>) -> (r: bool)
    ensures
        r == reads_among(nodes_view(l@), l.len() as nat, name@),
    decreases l,
{
    let mut found = false;
    let mut i: usize = 0;
    while i < l.len()
        invariant
            i <= l.len(),
            found == reads_among(nodes_view(l@), i as nat, name@),
        decreases l.len() - i,
    {
        if sniff(&l[i], name) {
            found = true;
        }
        i = i + 1;
    }
    found
}

/// Whether the statement stores the variable.
fn stores(n: &Node, name: &Vec<u8>) -> (r: bool)
    ensures
        r == (stored(n@) == Some(name@)),
{
    assert(n@.expr == n.expr@);
    match &n.expr {
        Expr::Let(x, _) => same_bytes(x, name),
        Expr::Assign(x, _) => same_bytes(x, name),
        _ => {
            assert(!(n.expr@ is Let) && !(n.expr@ is Assign));
            false
        },
    }
}

/// Whether the statement declares the variable.
fn is_declaration(n: &Node, name: &Vec<u8>) -> (r: bool)
    ensures
        r == declares(n@, name@),
{
    assert(n@.expr == n.expr@);
    match &n.expr {
        Expr::Let(x, _) => same_bytes(x, name),
        _ => {
            assert(!(n.expr@ is Let));
            false
        },
    }
}

/// The first statement from `from` on that touches the variable.
fn find_next(s: &Vec<Node>, from: usize, name: &Vec<u8>) -> (r: Option<usize>)
    ensures
        r matches Some(j) ==> next_touch(nodes_view(s@), from as int, name@) == Some(j as int) && j
            < s.len(),
        r is None ==> next_touch(nodes_view(s@), from as int, name@) is None,
{
    let mut j = from;
    while j < s.len()
        invariant
            from <= j,
            next_touch(nodes_view(s@), from as int, name@) == next_touch(
                nodes_view(s@),
                j as int,
                name@,
            ),
        decreases s.len() - j,
    {
        if sniff(&s[j], name) || stores(&s[j], name) {
            return Some(j);
        }
        j = j + 1;
    }
    None
}

/// The last statement before `j` that touches the variable.
fn find_prev(s: &Vec<Node>, j: usize, name: &Vec<u8>) -> (r: Option<usize>)
    requires
        j <= s.len(),
    ensures
        r matches Some(i) ==> prev_touch(nodes_view(s@), j - 1, name@) == Some(i as int) && i < j,
        r is None ==> prev_touch(nodes_view(s@), j - 1, name@) is None,
{
    let mut i = j;
    while i > 0
        invariant
            i <= j,
            j <= s.len(),
            prev_touch(nodes_view(s@), j - 1, name@) == prev_touch(nodes_view(s@), i - 1, name@),
        decreases i,
    {
        i = i - 1;
        if sniff(&s[i], name) || stores(&s[i], name) {
            return Some(i);
        }
    }
    None
}

/// Whether a statement up to `upto` declares the variable.
fn is_declared_upto(s: &Vec<Node>, upto: usize, name: &Vec<u8>) -> (r: bool)
    requires
        upto < s.len(),
    ensures
        r == declared_upto(nodes_view(s@), upto as int, name@),
{
    let mut i = upto + 1;
    while i > 0
        invariant
            i <= upto + 1,
            upto < s.len(),
            declared_upto(nodes_view(s@), upto as int, name@) == declared_upto(
                nodes_view(s@),
                i - 1,
                name@,
            ),
        decreases i,
    {
        i = i - 1;
        if is_declaration(&s[i], name) {
            return true;
        }
    }
    false
}

/// Whether a function is defined, anywhere inside the node, that reads the
/// variable.
fn catches(n: &Node, name: &Vec<u8>) -> (r: bool)
    ensures
        r == captures(n@, name@),
    decreases n,
{
    match &n.expr {
        Expr::Fn(_, _, b) => sniff(b, name),
        Expr::UnOp(_, a) => catches(a, name),
        Expr::BnOp(a, _, b) => catches(a, name) || catches(b, name),
        Expr::Let(_, v) => catches(v, name),
        Expr::Assign(_, v) => catches(v, name),
        Expr::Return(v) => catches(v, name),
        Expr::Else(b) => catches(b, name),
        Expr::Block(l) => catches_among(l, name),
        Expr::Call(f, l) => catches(f, name) || catches_among(l, name),
        Expr::ReservedCall(_, l) => catches_among(l, name),
        Expr::If(c, t, e) => catches(c, name) || catches(t, name) || catches(e, name),
        Expr::While(c, b) => catches(c, name) || catches(b, name),
        Expr::Var(_) => false,
        Expr::Val(_) => false,
        Expr::Nl => false,
        Expr::Error => false,
    }
}

/// Whether a function is defined, inside one of the nodes, that reads the
/// variable.
fn catches_among(l: &Vec<Node>, name: &Vec<u8>) -> (r: bool)
    ensures
        r == captures_among(nodes_view(l@), l.len() as nat, name@),
    decreases l,
{
    let mut found = false;
    let mut i: usize = 0;
    while i < l.len()
        invariant
            i <= l.len(),
            found == captures_among(nodes_view(l@), i as nat, name@),
        decreases l.len() - i,
    {
        if catches(&l[i], name) {
            found = true;
        }
        i = i + 1;
    }
    found
}

/// Whether a call stands in the node, outside the bodies of the functions
/// that it defines.
fn has_call(n: &Node) -> (r: bool)
    ensures
        r == calls(n@),
    decreases n,
{
    match &n.expr {
        Expr::Call(_, _) => true,
        Expr::Fn(_, _, _) => false,
        Expr::UnOp(_, a) => has_call(a),
        Expr::BnOp(a, _, b) => has_call(a) || has_call(b),
        Expr::Let(_, v) => has_call(v),
        Expr::Assign(_, v) => has_call(v),
        Expr::Return(v) => has_call(v),
        Expr::Else(b) => has_call(b),
        Expr::Block(l) => has_call_among(l),
        Expr::ReservedCall(_, l) => has_call_among(l),
        Expr::If(c, t, e) => has_call(c) || has_call(t) || has_call(e),
        Expr::While(c, b) => has_call(c) || has_call(b),
        Expr::Var(_) => false,
        Expr::Val(_) => false,
        Expr::Nl => false,
        Expr::Error => false,
    }
}

/// Whether a call stands in one of the nodes.
fn has_call_among(l: &Vec<Node>) -> (r: bool)
    ensures
        r == calls_among(nodes_view(l@), l.len() as nat),
    decreases l,
{
    let mut found = false;
    let mut i: usize = 0;
    while i < l.len()
        invariant
            i <= l.len(),
            found == calls_among(nodes_view(l@), i as nat),
        decreases l.len() - i,
    {
        if has_call(&l[i]) {
            found = true;
        }
        i = i + 1;
    }
    found
}

/// Whether a call stands in one of the statements from `from` to `to`.
fn has_call_between(s: &Vec<Node>, from: usize, to: usize) -> (r: bool)
    requires
        to < s.len(),
    ensures
        r == calls_between(nodes_view(s@), from as int, to as int),
{
    let mut k = from;
    while k <= to
        invariant
            from <= k,
            to < s.len(),
            calls_between(nodes_view(s@), from as int, to as int) == calls_between(
                nodes_view(s@),
                k as int,
                to as int,
            ),
        decreases to + 1 - k,
    {
        if has_call(&s[k]) {
            return true;
        }
        k = k + 1;
    }
    false
}

/// Whether a function may hold the variable that statement `i` stores.
fn is_held(s: &Vec<Node>, i: usize, name: &Vec<u8>) -> (r: bool)
    requires
        i < s.len(),
    ensures
        r == held(nodes_view(s@), i as int, name@),
{
    catches_among(s, name) || !is_declared_upto(s, i, name)
}

/// Whether statement `i`, which stores the variable, is a dead store.
fn is_dead_store(s: &Vec<Node>, i: usize, name: &Vec<u8>) -> (r: bool)
    requires
        i < s.len(),
        stored(s@[i as int]@) == Some(name@),
    ensures
        r == dead(nodes_view(s@), i as int),
{
    match find_next(s, i + 1, name) {
        Some(j) => !sniff(&s[j], name) && !(has_call_between(s, i + 1, j) && is_held(s, i, name)),
        None => is_declared_upto(s, i, name) && !catches_among(s, name),
    }
}

/// Whether statement `i` is a dead store.
fn is_dead(s: &Vec<Node>, i: usize) -> (r: bool)
    requires
        i < s.len(),
    ensures
        r == dead(nodes_view(s@), i as int),
{
    assert(s@[i as int]@.expr == s@[i as int].expr@);
    match &s[i].expr {
        Expr::Let(name, _) => is_dead_store(s, i, name),
        Expr::Assign(name, _) => is_dead_store(s, i, name),
        _ => {
            assert(!(s@[i as int].expr@ is Let) && !(s@[i as int].expr@ is Assign));
            false
        },
    }
}

/// A statement that stays, with the lists inside it cleaned.
fn clean_node(n: &Node) -> (r: Node)
    ensures
        r@ == cleaned_node(n@),
    decreases n, 1nat,
{
    let span = n.span;
    match &n.expr {
        Expr::If(c, t, e) => Node {
            expr: Expr::If(
                Box::new(copy_node(c)),
                Box::new(clean_body(t)),
                Box::new(clean_body(e)),
            ),
            span,
        },
        Expr::While(c, b) => Node {
            expr: Expr::While(Box::new(copy_node(c)), Box::new(clean_body(b))),
            span,
        },
        Expr::Fn(name, params, b) => Node {
            expr: Expr::Fn(copy_bytes(name), copy_names(params), Box::new(clean_body(b))),
            span,
        },
        Expr::Else(b) => Node { expr: Expr::Else(Box::new(clean_body(b))), span },
        _ => copy_node(n),
    }
}

/// A body that runs in a scope of its own, cleaned where it is a block.
fn clean_body(n: &Node) -> (r: Node)
    ensures
        r@ == cleaned_body(n@),
    decreases n, 0nat,
{
    match &n.expr {
        Expr::Block(l) => Node { expr: Expr::Block(clean_list(l)), span: n.span },
        _ => copy_node(n),
    }
}

/// What statement `i` becomes where it stays. `lost` says, of each earlier
/// statement that stores a variable, whether the variable had lost its
/// declaration there.
fn clean_at(s: &Vec<Node>, i: usize, lost: bool) -> (r: Node)
    requires
        i < s.len(),
        s@[i as int]@.expr matches ExprV::Assign(name, _) ==> lost == orphan(
            nodes_view(s@),
            i as int,
            name,
        ),
    ensures
        r@ == cleaned_at(nodes_view(s@), i as int),
    decreases s, 0nat,
{
    match &s[i].expr {
        Expr::Assign(name, v) => {
            if lost {
                Node { expr: Expr::Let(copy_bytes(name), Box::new(copy_node(v))), span: s[i].span }
            } else {
                copy_node(&s[i])
            }
        },
        _ => clean_node(&s[i]),
    }
}

/// Whether, at statement `j`, the variable has lost its declaration, given
/// the same of each earlier statement.
fn is_orphan(s: &Vec<Node>, j: usize, name: &Vec<u8>, lost: &Vec<bool>, gone: &Vec<bool>) -> (r:
    bool)
    requires
        j <= s.len(),
        lost.len() == j,
        gone.len() == j,
        forall|i: int| 0 <= i < j ==> gone@[i] == dead(nodes_view(s@), i),
        forall|i: int|
            0 <= i < j ==> (stored(#[trigger] s@[i]@) matches Some(x) ==> lost@[i] == orphan(
                nodes_view(s@),
                i,
                x,
            )),
    ensures
        r == orphan(nodes_view(s@), j as int, name@),
{
    if j == 0 {
        return false;
    }
    match find_prev(s, j, name) {
        Some(i) => {
            assert(nodes_view(s@)[i as int] == s@[i as int]@);
            gone[i] && stores(&s[i], name) && (is_declaration(&s[i], name) || lost[i])
        },
        None => false,
    }
}

/// The statement list without the dead stores among its statements.
pub(crate) fn clean_list(s: &Vec<Node>) -> (r: Vec<Node>)
    ensures
        nodes_view(r@) == cleaned(nodes_view(s@), s.len() as nat),
    decreases s, 1nat,
{
    let ghost sv = nodes_view(s@);
    let mut r: Vec<Node> = Vec::new();
    let mut lost: Vec<bool> = Vec::new();
    let mut gone: Vec<bool> = Vec::new();
    let mut i: usize = 0;
    assert(nodes_view(r@) =~= Seq::empty());
    while i < s.len()
        invariant
            i <= s.len(),
            sv == nodes_view(s@),
            lost.len() == i,
            gone.len() == i,
            nodes_view(r@) == cleaned(sv, i as nat),
            forall|k: int| 0 <= k < i ==> gone@[k] == dead(sv, k),
            forall|k: int|
                0 <= k < i ==> (stored(#[trigger] s@[k]@) matches Some(x) ==> lost@[k] == orphan(
                    sv,
                    k,
                    x,
                )),
        decreases s.len() - i,
    {
        assert(s@[i as int]@.expr == s@[i as int].expr@);
        let was_lost = match &s[i].expr {
            Expr::Let(name, _) => is_orphan(s, i, name, &lost, &gone),
            Expr::Assign(name, _) => is_orphan(s, i, name, &lost, &gone),
            _ => false,
        };
        let is_gone = is_dead(s, i);
        if !is_gone {
            let ghost before = nodes_view(r@);
            let node = clean_at(s, i, was_lost);
            r.push(node);
            assert(nodes_view(r@) =~= before.push(node@));
        }
        lost.push(was_lost);
        gone.push(is_gone);
        i = i + 1;
    }
    r
}

/// Takes the dead stores out of the list, and out of the bodies inside it
/// that run in a scope of their own.
pub fn pass(ast: &mut Vec<Node>)
    ensures
        nodes_view(final(ast)@) == cleaned(nodes_view(old(ast)@), old(ast).len() as nat),
{
    let r = clean_list(ast);
    *ast = r;
}

} // verus!
