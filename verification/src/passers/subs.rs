//! Propagation: a variable that was assigned a literal is replaced, where it
//! is read later, by that literal.
//!
//! The pass goes by the order of the statements, not by what can run before
//! what: it is a heuristic.
use crate::passers::fold::{at, fold, folded, literal_of};
use crate::types::{
    copy_bytes, copy_names, copy_node, copy_value, nodes_view, same_bytes, Expr, ExprV, Node,
    NodeV, Value, ValueV,
};
use vstd::prelude::*;

verus! {

/// A record of the table: the literal that a name was assigned, and the index
/// of the statement that assigned it.
#[derive(Debug, PartialEq)]
pub struct Entry {
    pub name: Vec<u8>,
    pub value: Value,
    pub line: usize,
}

/// The model of a record.
pub ghost struct EntryV {
    pub name: Seq<u8>,
    pub value: ValueV,
    pub line: usize,
}

impl View for Entry {
    type V = EntryV;

    open spec fn view(&self) -> EntryV {
        EntryV { name: self.name@, value: self.value@, line: self.line }
    }
}

/// The models of a table's records.
pub open spec fn table_view(s: Seq<Entry>) -> Seq<EntryV> {
    Seq::new(s.len(), |i: int| s[i]@)
}

/// A rewritten statement and the table after it.
pub ghost struct Step {
    pub node: NodeV,
    pub table: Seq<EntryV>,
}

/// Rewritten statements and the table after them.
pub ghost struct Listing {
    pub stmts: Seq<NodeV>,
    pub table: Seq<EntryV>,
}

/// The literal that the table holds for the name at statement `line`: that of
/// the newest record of the name which is not later than `line`.
pub open spec fn recorded(table: Seq<EntryV>, name: Seq<u8>, line: int) -> Option<ValueV>
    decreases table.len(),
{
    if table.len() == 0 {
        None
    } else if table.last().name == name && table.last().line <= line {
        Some(table.last().value)
    } else {
        recorded(table.drop_last(), name, line)
    }
}

/// The table after the name was assigned the node at statement `line`: with
/// one more record where the node is a literal, unchanged where it is not.
pub open spec fn noted(table: Seq<EntryV>, name: Seq<u8>, value: NodeV, line: usize) -> Seq<
    EntryV,
> {
    match literal_of(value) {
        Some(v) => table.push(EntryV { name, value: v, line }),
        None => table,
    }
}

/// The expression with each read of a recorded name replaced by its literal.
pub open spec fn substituted(n: NodeV, table: Seq<EntryV>, line: int) -> NodeV
    decreases n,
{
    match n.expr {
        ExprV::Var(name) => match recorded(table, name, line) {
            Some(v) => at(n, ExprV::Val(v)),
            None => n,
        },
        ExprV::UnOp(op, a) => at(n, ExprV::UnOp(op, Box::new(substituted(*a, table, line)))),
        ExprV::BnOp(a, op, b) => at(
            n,
            ExprV::BnOp(
                Box::new(substituted(*a, table, line)),
                op,
                Box::new(substituted(*b, table, line)),
            ),
        ),
        ExprV::Call(f, l) => at(
            n,
            ExprV::Call(Box::new(substituted(*f, table, line)), substituted_all(l, table, line)),
        ),
        ExprV::ReservedCall(name, l) => at(
            n,
            ExprV::ReservedCall(name, substituted_all(l, table, line)),
        ),
        _ => n,
    }
}

/// Each expression of the sequence with its reads replaced.
pub open spec fn substituted_all(s: Seq<NodeV>, table: Seq<EntryV>, line: int) -> Seq<NodeV>
    decreases s,
{
    Seq::new(
        s.len(),
        |i: int|
            if 0 <= i < s.len() {
                substituted(s[i], table, line)
            } else {
                arbitrary()
            },
    )
}

/// The expression with its reads replaced, then folded.
pub open spec fn settled(n: NodeV, table: Seq<EntryV>, line: int) -> NodeV {
    folded(substituted(n, table, line))
}

/// The statement at index `line` rewritten, and the table after it.
///
/// An assignment or declaration has its value settled and, where that is a
/// literal, is recorded. A conditional has its condition settled; its
/// branches, like the bodies of a loop and of a function, start from an empty
/// table, and after a conditional and after a loop the table is empty. A
/// block goes on with the table as it is.
pub open spec fn propagated_stmt(n: NodeV, table: Seq<EntryV>, line: usize) -> Step
    decreases n, 1nat,
{
    match n.expr {
        ExprV::Let(name, v) => {
            let w = settled(*v, table, line as int);
            Step { node: at(n, ExprV::Let(name, Box::new(w))), table: noted(table, name, w, line) }
        },
        ExprV::Assign(name, v) => {
            let w = settled(*v, table, line as int);
            Step {
                node: at(n, ExprV::Assign(name, Box::new(w))),
                table: noted(table, name, w, line),
            }
        },
        ExprV::Return(v) => Step {
            node: at(n, ExprV::Return(Box::new(settled(*v, table, line as int)))),
            table,
        },
        ExprV::If(c, t, e) => Step {
            node: at(
                n,
                ExprV::If(
                    Box::new(settled(*c, table, line as int)),
                    Box::new(propagated_body(*t)),
                    Box::new(propagated_body(*e)),
                ),
            ),
            table: Seq::empty(),
        },
        ExprV::While(c, b) => Step {
            node: at(n, ExprV::While(c, Box::new(propagated_body(*b)))),
            table: Seq::empty(),
        },
        ExprV::Fn(name, params, b) => Step {
            node: at(n, ExprV::Fn(name, params, Box::new(propagated_body(*b)))),
            table,
        },
        ExprV::Else(b) => Step {
            node: at(n, ExprV::Else(Box::new(propagated_body(*b)))),
            table: Seq::empty(),
        },
        ExprV::Block(l) => {
            let p = propagated_list(l, l.len(), table);
            Step { node: at(n, ExprV::Block(p.stmts)), table: p.table }
        },
        ExprV::Var(_) => Step { node: settled(n, table, line as int), table },
        ExprV::UnOp(_, _) => Step { node: settled(n, table, line as int), table },
        ExprV::BnOp(_, _, _) => Step { node: settled(n, table, line as int), table },
        ExprV::Call(_, _) => Step { node: settled(n, table, line as int), table },
        ExprV::ReservedCall(_, _) => Step { node: settled(n, table, line as int), table },
        ExprV::Val(_) => Step { node: n, table },
        ExprV::Nl => Step { node: n, table },
        ExprV::Error => Step { node: n, table },
    }
}

/// A body rewritten from an empty table.
pub open spec fn propagated_body(n: NodeV) -> NodeV
    decreases n, 2nat,
{
    match n.expr {
        ExprV::Block(l) => at(n, ExprV::Block(propagated_list(l, l.len(), Seq::empty()).stmts)),
        _ => propagated_stmt(n, Seq::empty(), 0).node,
    }
}

/// The first `k` statements of the list rewritten in turn, and the table
/// after them.
pub open spec fn propagated_list(s: Seq<NodeV>, k: nat, table: Seq<EntryV>) -> Listing
    decreases s, k,
{
    if k == 0 || k > s.len() {
        Listing { stmts: Seq::empty(), table }
    } else {
        let prev = propagated_list(s, (k - 1) as nat, table);
        let step = propagated_stmt(s[k - 1], prev.table, (k - 1) as usize);
        Listing { stmts: prev.stmts.push(step.node), table: step.table }
    }
}

/// The literal that the table holds for the name at statement `line`.
fn lookup(memo: &Vec<Entry>, name: &Vec<u8>, line: usize) -> (r: Option<Value>)
    ensures
        r matches Some(v) ==> recorded(table_view(memo@), name@, line as int) == Some(v@),
        r is None ==> recorded(table_view(memo@), name@, line as int) is None,
{
    let ghost t = table_view(memo@);
    let mut i = memo.len();
    assert(t.subrange(0, i as int) =~= t);
    while i > 0
        invariant
            i <= memo.len(),
            t == table_view(memo@),
            recorded(t, name@, line as int) == recorded(t.subrange(0, i as int), name@, line as int),
        decreases i,
    {
        i = i - 1;
        assert(t.subrange(0, i + 1).drop_last() =~= t.subrange(0, i as int));
        if same_bytes(&memo[i].name, name) && memo[i].line <= line {
            return Some(copy_value(&memo[i].value));
        }
    }
    None
}

/// Records the name with the node's literal, where the node is one.
fn note(memo: &mut Vec<Entry>, name: &Vec<u8>, value: &Node, line: usize)
    ensures
        table_view(final(memo)@) == noted(table_view(old(memo)@), name@, value@, line),
{
    assert(value@.expr == value.expr@);
    let found = match &value.expr {
        Expr::Val(v) => match v {
            Value::Num(_) => true,
            Value::Str(_) => true,
            Value::Bool(_) => true,
            _ => false,
        },
        _ => {
            assert(!(value.expr@ is Val));
            false
        },
    };
    if found {
        match &value.expr {
            Expr::Val(v) => {
                memo.push(Entry { name: copy_bytes(name), value: copy_value(v), line });
                assert(table_view(memo@) =~= noted(
                    table_view(old(memo)@),
                    name@,
                    value@,
                    line,
                ));
            },
            _ => {},
        }
    }
}

/// The expression with each read of a recorded name replaced by its literal.
pub fn subs(n: &Node, memo: &Vec<Entry>, line: usize) -> (r: Node)
    ensures
        r@ == substituted(n@, table_view(memo@), line as int),
    decreases n,
{
    let span = n.span;
    match &n.expr {
        Expr::Var(name) => match lookup(memo, name, line) {
            Some(v) => Node { expr: Expr::Val(v), span },
            None => copy_node(n),
        },
        Expr::UnOp(op, a) => Node { expr: Expr::UnOp(*op, Box::new(subs(a, memo, line))), span },
        Expr::BnOp(a, op, b) => Node {
            expr: Expr::BnOp(Box::new(subs(a, memo, line)), *op, Box::new(subs(b, memo, line))),
            span,
        },
        Expr::Call(f, l) => Node {
            expr: Expr::Call(Box::new(subs(f, memo, line)), subs_all(l, memo, line)),
            span,
        },
        Expr::ReservedCall(name, l) => Node {
            expr: Expr::ReservedCall(copy_bytes(name), subs_all(l, memo, line)),
            span,
        },
        _ => copy_node(n),
    }
}

/// Each expression of the sequence with its reads replaced.
fn subs_all(s: &Vec<Node>, memo: &Vec<Entry>, line: usize) -> (r: Vec<Node>)
    ensures
        nodes_view(r@) == substituted_all(nodes_view(s@), table_view(memo@), line as int),
    decreases s,
{
    let mut r: Vec<Node> = Vec::new();
    let mut i: usize = 0;
    while i < s.len()
        invariant
            i <= s.len(),
            r@.len() == i,
            forall|j: int|
                0 <= j < i ==> r@[j]@ == substituted(s@[j]@, table_view(memo@), line as int),
        decreases s.len() - i,
    {
        r.push(subs(&s[i], memo, line));
        i = i + 1;
    }
    assert(nodes_view(r@) =~= substituted_all(nodes_view(s@), table_view(memo@), line as int));
    r
}

/// The expression with its reads replaced, then folded.
fn settle(n: &Node, memo: &Vec<Entry>, line: usize) -> (r: Node)
    ensures
        r@ == settled(n@, table_view(memo@), line as int),
{
    let s = subs(n, memo, line);
    fold(&s)
}

/// Empties the table.
fn reset(memo: &mut Vec<Entry>)
    ensures
        table_view(final(memo)@) == Seq::<EntryV>::empty(),
{
    memo.clear();
    assert(table_view(memo@) =~= Seq::<EntryV>::empty());
}

/// Rewrites the statement at index `line`, and brings the table up to date.
fn pass_stmt(n: &Node, memo: &mut Vec<Entry>, line: usize) -> (r: Node)
    ensures
        r@ == propagated_stmt(n@, table_view(old(memo)@), line).node,
        table_view(final(memo)@) == propagated_stmt(n@, table_view(old(memo)@), line).table,
    decreases n, 1nat,
{
    let span = n.span;
    match &n.expr {
        Expr::Let(name, v) => {
            let w = settle(v, memo, line);
            note(memo, name, &w, line);
            Node { expr: Expr::Let(copy_bytes(name), Box::new(w)), span }
        },
        Expr::Assign(name, v) => {
            let w = settle(v, memo, line);
            note(memo, name, &w, line);
            Node { expr: Expr::Assign(copy_bytes(name), Box::new(w)), span }
        },
        Expr::Return(v) => Node { expr: Expr::Return(Box::new(settle(v, memo, line))), span },
        Expr::If(c, t, e) => {
            let w = settle(c, memo, line);
            reset(memo);
            Node {
                expr: Expr::If(Box::new(w), Box::new(pass_body(t)), Box::new(pass_body(e))),
                span,
            }
        },
        Expr::While(c, b) => {
            reset(memo);
            Node { expr: Expr::While(Box::new(copy_node(c)), Box::new(pass_body(b))), span }
        },
        Expr::Fn(name, params, b) => Node {
            expr: Expr::Fn(copy_bytes(name), copy_names(params), Box::new(pass_body(b))),
            span,
        },
        Expr::Else(b) => {
            reset(memo);
            Node { expr: Expr::Else(Box::new(pass_body(b))), span }
        },
        Expr::Block(l) => Node { expr: Expr::Block(pass_list(l, memo)), span },
        Expr::Var(_) => settle(n, memo, line),
        Expr::UnOp(_, _) => settle(n, memo, line),
        Expr::BnOp(_, _, _) => settle(n, memo, line),
        Expr::Call(_, _) => settle(n, memo, line),
        Expr::ReservedCall(_, _) => settle(n, memo, line),
        Expr::Val(_) => copy_node(n),
        Expr::Nl => copy_node(n),
        Expr::Error => copy_node(n),
    }
}

/// Rewrites a body from an empty table.
fn pass_body(n: &Node) -> (r: Node)
    ensures
        r@ == propagated_body(n@),
    decreases n, 2nat,
{
    let mut memo: Vec<Entry> = Vec::new();
    assert(table_view(memo@) =~= Seq::<EntryV>::empty());
    match &n.expr {
        Expr::Block(l) => Node { expr: Expr::Block(pass_list(l, &mut memo)), span: n.span },
        _ => pass_stmt(n, &mut memo, 0),
    }
}

/// Rewrites the statements in turn, and brings the table up to date.
fn pass_list(s: &Vec<Node>, memo: &mut Vec<Entry>) -> (r: Vec<Node>)
    ensures
        nodes_view(r@) == propagated_list(
            nodes_view(s@),
            s.len() as nat,
            table_view(old(memo)@),
        ).stmts,
        table_view(final(memo)@) == propagated_list(
            nodes_view(s@),
            s.len() as nat,
            table_view(old(memo)@),
        ).table,
    decreases s, 0nat,
{
    let ghost sv = nodes_view(s@);
    let ghost start = table_view(memo@);
    let mut r: Vec<Node> = Vec::new();
    let mut i: usize = 0;
    assert(nodes_view(r@) =~= Seq::empty());
    while i < s.len()
        invariant
            i <= s.len(),
            sv == nodes_view(s@),
            nodes_view(r@) == propagated_list(sv, i as nat, start).stmts,
            table_view(memo@) == propagated_list(sv, i as nat, start).table,
        decreases s.len() - i,
    {
        let ghost before = nodes_view(r@);
        let node = pass_stmt(&s[i], memo, i);
        r.push(node);
        assert(nodes_view(r@) =~= before.push(node@));
        i = i + 1;
    }
    r
}

/// Replaces, statement by statement, the reads of names that the table holds
/// by their literals, and records each literal that a statement assigns.
pub fn pass(ast: &mut Vec<Node>, memo: &mut Vec<Entry>)
    ensures
        nodes_view(final(ast)@) == propagated_list(
            nodes_view(old(ast)@),
            old(ast).len() as nat,
            table_view(old(memo)@),
        ).stmts,
        table_view(final(memo)@) == propagated_list(
            nodes_view(old(ast)@),
            old(ast).len() as nat,
            table_view(old(memo)@),
        ).table,
{
    let r = pass_list(ast, memo);
    *ast = r;
}

} // verus!
