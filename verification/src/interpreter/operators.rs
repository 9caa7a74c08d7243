//! What each operator does to each pair of kinds of value.
use crate::number::{
    difference, negation, number_text, product, quotient, remainder, sum, whole_count, Number,
    SCALE,
};
use crate::types::{
    ascii, copy_bytes, push_bytes, same_value, text, Key, KeyV, Node, NodeV, Op, Value, ValueV,
};
use vstd::prelude::*;

verus! {

/// The kinds of value.
#[derive(Clone, Copy, Debug, PartialEq, Eq, Structural)]
pub enum Kind {
    Undefined,
    Num,
    Str,
    Bool,
    Vec,
    Obj,
    Function,
}

/// What can go wrong while a program runs.
#[derive(Clone, Copy, Debug, PartialEq, Eq, Structural)]
pub enum EvalError {
    /// A variable was read that no scope on the chain holds.
    UndefinedVariable,
    /// A variable was assigned that no scope on the chain holds.
    UndefinedAssignment,
    /// A variable was declared twice in one scope.
    AlreadyDeclared,
    /// A function was defined under a name that its scope already holds.
    FunctionAlreadyDefined,
    /// Something that is not a function was called.
    NotAFunction,
    /// The operator has no meaning for operands of these kinds.
    Unsupported(Op, Kind, Kind),
    /// The operator has no meaning for an operand of this kind.
    UnsupportedOperand(Op, Kind),
    /// A number was divided by zero.
    DivisionByZero,
    /// The result of an operation is too large to hold.
    OutOfRange,
    /// The node has no meaning for the evaluator.
    NotImplemented,
    /// A function was called whose scope is not one of the run's.
    UnknownScope,
    /// Calls were nested deeper than the evaluator was allowed to go.
    TooDeep,
    /// A loop went round more often than the evaluator was allowed to go.
    TooManyTurns,
}

/// What evaluating a node gives: a value or an error.
#[derive(Debug, PartialEq)]
pub enum Res {
    V(Value),
    E(EvalError),
}

/// The model of a result.
pub ghost enum ResV {
    V(ValueV),
    E(EvalError),
}

impl View for Res {
    type V = ResV;

    open spec fn view(&self) -> ResV {
        match self {
            Res::V(v) => ResV::V(v@),
            Res::E(e) => ResV::E(*e),
        }
    }
}

/// How the two orderable values of a pair stand to each other.
#[derive(Clone, Copy, Debug, PartialEq, Eq, Structural)]
pub enum Order {
    Less,
    Equal,
    Greater,
}

/// The kind of a value.
pub open spec fn kind_of(v: ValueV) -> Kind {
    match v {
        ValueV::Undefined => Kind::Undefined,
        ValueV::Num(_) => Kind::Num,
        ValueV::Str(_) => Kind::Str,
        ValueV::Bool(_) => Kind::Bool,
        ValueV::Vec(_) => Kind::Vec,
        ValueV::Obj(_) => Kind::Obj,
        ValueV::Fn(_, _, _) => Kind::Function,
    }
}

/// Whether a value counts as true: a function does; a boolean as it says; a
/// number unless it is zero; a string, a vector and an object unless empty.
pub open spec fn truthy(v: ValueV) -> bool {
    match v {
        ValueV::Undefined => false,
        ValueV::Fn(_, _, _) => true,
        ValueV::Bool(b) => b,
        ValueV::Num(n) => n != 0,
        ValueV::Str(s) => s.len() != 0,
        ValueV::Vec(l) => l.len() != 0,
        ValueV::Obj(l) => l.len() != 0,
    }
}

/// How a boolean is written.
pub open spec fn bool_text(b: bool) -> Seq<u8> {
    if b {
        ascii("true"@)
    } else {
        ascii("false"@)
    }
}

/// How a value is written by `print` and inside a string.
pub open spec fn display_text(v: ValueV) -> Seq<u8> {
    match v {
        ValueV::Num(n) => number_text(n),
        ValueV::Str(s) => s,
        ValueV::Bool(b) => bool_text(b),
        ValueV::Vec(_) => Seq::empty(),
        ValueV::Obj(_) => Seq::empty(),
        ValueV::Undefined => ascii("undefined"@),
        ValueV::Fn(_, _, _) => ascii("(Function () => {})"@),
    }
}

/// A number or, where the operation had no result in range, the error.
pub open spec fn number_result(n: Option<int>) -> ResV {
    match n {
        Some(x) => ResV::V(ValueV::Num(x)),
        None => ResV::E(EvalError::OutOfRange),
    }
}

/// Whether an object holds an entry under the key.
pub open spec fn has_key(a: Seq<(KeyV, NodeV)>, k: KeyV) -> bool {
    exists|i: int| 0 <= i < a.len() && (#[trigger] a[i]).0 == k
}

/// The object with the node `v` under the key `k`: in place where the key was
/// there, at the end where it was not.
pub open spec fn with_entry(a: Seq<(KeyV, NodeV)>, k: KeyV, v: NodeV) -> Seq<(KeyV, NodeV)> {
    if has_key(a, k) {
        Seq::new(
            a.len(),
            |i: int|
                if a[i].0 == k {
                    (k, v)
                } else {
                    a[i]
                },
        )
    } else {
        a.push((k, v))
    }
}

/// The entries of `a` and of `b` in one object; under a key that both hold,
/// the node of `b`.
pub open spec fn merged(a: Seq<(KeyV, NodeV)>, b: Seq<(KeyV, NodeV)>) -> Seq<(KeyV, NodeV)>
    decreases b.len(),
{
    if b.len() == 0 {
        a
    } else {
        with_entry(merged(a, b.drop_last()), b.last().0, b.last().1)
    }
}

/// The entries of `a` whose key `b` does not hold.
pub open spec fn without_keys(a: Seq<(KeyV, NodeV)>, b: Seq<(KeyV, NodeV)>) -> Seq<(KeyV, NodeV)>
    decreases a.len(),
{
    if a.len() == 0 {
        a
    } else if has_key(b, a.last().0) {
        without_keys(a.drop_last(), b)
    } else {
        without_keys(a.drop_last(), b).push(a.last())
    }
}

/// Whether an object holds each of its keys once.
pub open spec fn distinct_keys(a: Seq<(KeyV, NodeV)>) -> bool {
    forall|i: int, j: int| 0 <= i < j < a.len() ==> (#[trigger] a[i]).0 != (#[trigger] a[j]).0
}

/// Whether a value is well formed: an object holds each of its keys once.
pub open spec fn well_formed_value(v: ValueV) -> bool {
    v matches ValueV::Obj(entries) ==> distinct_keys(entries)
}

/// Whether a result is well formed: its value, where it has one, is.
pub open spec fn well_formed_result(r: ResV) -> bool {
    r matches ResV::V(v) ==> well_formed_value(v)
}

/// Putting a node under a key leaves each key held once.
pub proof fn lemma_with_entry_distinct(a: Seq<(KeyV, NodeV)>, k: KeyV, v: NodeV)
    requires
        distinct_keys(a),
    ensures
        distinct_keys(with_entry(a, k, v)),
{
    let r = with_entry(a, k, v);
    if has_key(a, k) {
        assert forall|i: int, j: int| 0 <= i < j < r.len() implies (#[trigger] r[i]).0 != (
        #[trigger] r[j]).0 by {
            assert(r[i].0 == a[i].0);
            assert(r[j].0 == a[j].0);
        }
    } else {
        assert forall|i: int, j: int| 0 <= i < j < r.len() implies (#[trigger] r[i]).0 != (
        #[trigger] r[j]).0 by {
            if j < a.len() {
                assert(r[i] == a[i] && r[j] == a[j]);
            } else {
                assert(r[i] == a[i]);
                assert(a[i].0 != k);
            }
        }
    }
}

/// Merging into an object that holds each key once gives such an object.
pub proof fn lemma_merged_distinct(a: Seq<(KeyV, NodeV)>, b: Seq<(KeyV, NodeV)>)
    requires
        distinct_keys(a),
    ensures
        distinct_keys(merged(a, b)),
    decreases b.len(),
{
    if b.len() > 0 {
        lemma_merged_distinct(a, b.drop_last());
        lemma_with_entry_distinct(merged(a, b.drop_last()), b.last().0, b.last().1);
    }
}

/// Every entry that is left after keys were taken away was there before.
proof fn lemma_without_keys_from(a: Seq<(KeyV, NodeV)>, b: Seq<(KeyV, NodeV)>)
    ensures
        forall|i: int|
            0 <= i < without_keys(a, b).len() ==> exists|j: int|
                0 <= j < a.len() && a[j] == #[trigger] without_keys(a, b)[i],
    decreases a.len(),
{
    if a.len() > 0 {
        lemma_without_keys_from(a.drop_last(), b);
        let rest = without_keys(a.drop_last(), b);
        let r = without_keys(a, b);
        assert forall|i: int| 0 <= i < r.len() implies exists|j: int|
            0 <= j < a.len() && a[j] == #[trigger] r[i] by {
            if i < rest.len() {
                assert(r[i] == rest[i]);
                let j = choose|j: int| 0 <= j < a.drop_last().len() && a.drop_last()[j] == rest[i];
                assert(a[j] == r[i]);
            } else {
                assert(a[a.len() - 1] == r[i]);
            }
        }
    }
}

/// Taking keys away from an object that holds each key once gives such an
/// object.
pub proof fn lemma_without_keys_distinct(a: Seq<(KeyV, NodeV)>, b: Seq<(KeyV, NodeV)>)
    requires
        distinct_keys(a),
    ensures
        distinct_keys(without_keys(a, b)),
    decreases a.len(),
{
    if a.len() > 0 {
        let front = a.drop_last();
        assert(distinct_keys(front)) by {
            assert forall|i: int, j: int| 0 <= i < j < front.len() implies (#[trigger] front[i]).0
                != (#[trigger] front[j]).0 by {
                assert(front[i] == a[i] && front[j] == a[j]);
            }
        }
        lemma_without_keys_distinct(front, b);
        lemma_without_keys_from(front, b);
        let rest = without_keys(front, b);
        let r = without_keys(a, b);
        if !has_key(b, a.last().0) {
            assert forall|i: int, j: int| 0 <= i < j < r.len() implies (#[trigger] r[i]).0 != (
            #[trigger] r[j]).0 by {
                if j < rest.len() {
                    assert(r[i] == rest[i] && r[j] == rest[j]);
                } else {
                    assert(r[i] == rest[i]);
                    let k = choose|k: int| 0 <= k < front.len() && front[k] == rest[i];
                    assert(a[k] == front[k]);
                    assert(a[k].0 != a[a.len() - 1].0);
                }
            }
        }
    }
}

/// No operator makes an object that holds a key twice out of values that are
/// well formed.
pub proof fn lemma_binary_well_formed(op: Op, l: ValueV, r: ValueV)
    requires
        well_formed_value(l),
        well_formed_value(r),
    ensures
        well_formed_result(binary_values(op, l, r)),
{
    match (l, r) {
        (ValueV::Obj(a), ValueV::Obj(b)) => {
            lemma_merged_distinct(a, b);
            lemma_without_keys_distinct(a, b);
        },
        _ => {},
    }
}

/// `s` written `n` times in a row.
pub open spec fn repeated(s: Seq<u8>, n: nat) -> Seq<u8>
    decreases n,
{
    if n == 0 {
        Seq::empty()
    } else {
        repeated(s, (n - 1) as nat) + s
    }
}

/// The string `s` repeated as many times as the whole part of `n` says, where
/// the result's length fits the machine.
pub open spec fn repeat_result(s: Seq<u8>, n: int) -> ResV {
    if s.len() * whole_count(n) > usize::MAX {
        ResV::E(EvalError::OutOfRange)
    } else {
        ResV::V(ValueV::Str(repeated(s, whole_count(n))))
    }
}

/// What a boolean counts as in arithmetic: one where it is true, zero where
/// it is false.
pub open spec fn bool_number(b: bool) -> int {
    if b {
        SCALE as int
    } else {
        0
    }
}

/// What `l + r` gives.
pub open spec fn add_values(l: ValueV, r: ValueV) -> ResV {
    match (l, r) {
        (ValueV::Num(a), ValueV::Num(b)) => number_result(sum(a, b)),
        (ValueV::Num(a), ValueV::Str(b)) => ResV::V(ValueV::Str(number_text(a) + b)),
        (ValueV::Str(a), ValueV::Num(b)) => ResV::V(ValueV::Str(a + number_text(b))),
        (ValueV::Bool(a), ValueV::Str(b)) => ResV::V(ValueV::Str(bool_text(a) + b)),
        (ValueV::Str(a), ValueV::Bool(b)) => ResV::V(ValueV::Str(a + bool_text(b))),
        (ValueV::Str(a), ValueV::Str(b)) => ResV::V(ValueV::Str(a + b)),
        (ValueV::Num(a), ValueV::Bool(b)) => number_result(sum(a, bool_number(b))),
        (ValueV::Bool(a), ValueV::Num(b)) => number_result(sum(bool_number(a), b)),
        (ValueV::Undefined, ValueV::Undefined) => ResV::V(ValueV::Undefined),
        (ValueV::Undefined, ValueV::Num(_)) => ResV::V(r),
        (ValueV::Undefined, ValueV::Str(_)) => ResV::V(r),
        (ValueV::Undefined, ValueV::Vec(_)) => ResV::V(r),
        (ValueV::Undefined, ValueV::Obj(_)) => ResV::V(r),
        (ValueV::Num(_), ValueV::Undefined) => ResV::V(l),
        (ValueV::Str(_), ValueV::Undefined) => ResV::V(l),
        (ValueV::Vec(_), ValueV::Undefined) => ResV::V(l),
        (ValueV::Obj(_), ValueV::Undefined) => ResV::V(l),
        (ValueV::Vec(a), ValueV::Vec(b)) => ResV::V(ValueV::Vec(a + b)),
        (ValueV::Obj(a), ValueV::Obj(b)) => ResV::V(ValueV::Obj(merged(a, b))),
        _ => ResV::E(EvalError::Unsupported(Op::Add, kind_of(l), kind_of(r))),
    }
}

/// What `l - r` gives.
pub open spec fn sub_values(l: ValueV, r: ValueV) -> ResV {
    match (l, r) {
        (ValueV::Num(a), ValueV::Num(b)) => number_result(difference(a, b)),
        (ValueV::Num(a), ValueV::Bool(b)) => number_result(difference(a, bool_number(b))),
        (ValueV::Bool(a), ValueV::Num(b)) => number_result(difference(bool_number(a), b)),
        (ValueV::Undefined, ValueV::Undefined) => ResV::V(ValueV::Undefined),
        (ValueV::Undefined, ValueV::Num(_)) => ResV::V(r),
        (ValueV::Undefined, ValueV::Str(_)) => ResV::V(r),
        (ValueV::Undefined, ValueV::Vec(_)) => ResV::V(r),
        (ValueV::Undefined, ValueV::Obj(_)) => ResV::V(r),
        (ValueV::Num(_), ValueV::Undefined) => ResV::V(l),
        (ValueV::Str(_), ValueV::Undefined) => ResV::V(l),
        (ValueV::Vec(_), ValueV::Undefined) => ResV::V(l),
        (ValueV::Obj(_), ValueV::Undefined) => ResV::V(l),
        (ValueV::Obj(a), ValueV::Obj(b)) => ResV::V(ValueV::Obj(without_keys(a, b))),
        _ => ResV::E(EvalError::Unsupported(Op::Sub, kind_of(l), kind_of(r))),
    }
}

/// What `l * r` gives.
pub open spec fn mul_values(l: ValueV, r: ValueV) -> ResV {
    match (l, r) {
        (ValueV::Num(a), ValueV::Num(b)) => number_result(product(a, b)),
        (ValueV::Str(s), ValueV::Num(n)) => repeat_result(s, n),
        (ValueV::Num(n), ValueV::Str(s)) => repeat_result(s, n),
        (ValueV::Undefined, _) => ResV::V(r),
        (_, ValueV::Undefined) => ResV::V(l),
        _ => ResV::E(EvalError::Unsupported(Op::Mul, kind_of(l), kind_of(r))),
    }
}

/// What `l / r` gives.
pub open spec fn div_values(l: ValueV, r: ValueV) -> ResV {
    match (l, r) {
        (ValueV::Num(a), ValueV::Num(b)) => if b == 0 {
            ResV::E(EvalError::DivisionByZero)
        } else {
            number_result(quotient(a, b))
        },
        (_, ValueV::Undefined) => ResV::V(l),
        (ValueV::Undefined, _) => ResV::V(ValueV::Undefined),
        _ => ResV::E(EvalError::Unsupported(Op::Div, kind_of(l), kind_of(r))),
    }
}

/// What `l % r` gives.
pub open spec fn rem_values(l: ValueV, r: ValueV) -> ResV {
    match (l, r) {
        (ValueV::Num(a), ValueV::Num(b)) => if b == 0 {
            ResV::E(EvalError::DivisionByZero)
        } else {
            number_result(remainder(a, b))
        },
        _ => ResV::E(EvalError::Unsupported(Op::Mod, kind_of(l), kind_of(r))),
    }
}

/// What `-v` gives.
pub open spec fn neg_value(v: ValueV) -> ResV {
    match v {
        ValueV::Num(n) => number_result(negation(n)),
        ValueV::Undefined => ResV::V(ValueV::Undefined),
        _ => ResV::E(EvalError::UnsupportedOperand(Op::Neg, kind_of(v))),
    }
}

/// How two byte strings stand to each other, byte by byte; where one is the
/// start of the other, the shorter is the lesser.
pub open spec fn bytes_order(a: Seq<u8>, b: Seq<u8>) -> Order
    decreases a.len(),
{
    if a.len() == 0 && b.len() == 0 {
        Order::Equal
    } else if a.len() == 0 {
        Order::Less
    } else if b.len() == 0 {
        Order::Greater
    } else if a[0] < b[0] {
        Order::Less
    } else if a[0] > b[0] {
        Order::Greater
    } else {
        bytes_order(a.skip(1), b.skip(1))
    }
}

/// How two values stand to each other: two numbers by size, two strings byte
/// by byte, undefined equal to itself; no other pair is ordered.
pub open spec fn order_of(l: ValueV, r: ValueV) -> Option<Order> {
    match (l, r) {
        (ValueV::Num(a), ValueV::Num(b)) => Some(
            if a < b {
                Order::Less
            } else if a == b {
                Order::Equal
            } else {
                Order::Greater
            },
        ),
        (ValueV::Str(a), ValueV::Str(b)) => Some(bytes_order(a, b)),
        (ValueV::Undefined, ValueV::Undefined) => Some(Order::Equal),
        _ => None,
    }
}

/// What a binary operator gives on two values.
pub open spec fn binary_values(op: Op, l: ValueV, r: ValueV) -> ResV {
    match op {
        Op::Add => add_values(l, r),
        Op::Sub => sub_values(l, r),
        Op::Mul => mul_values(l, r),
        Op::Div => div_values(l, r),
        Op::Mod => rem_values(l, r),
        Op::And => ResV::V(ValueV::Bool(truthy(l) && truthy(r))),
        Op::Or => ResV::V(ValueV::Bool(truthy(l) || truthy(r))),
        Op::Eq => ResV::V(ValueV::Bool(l == r)),
        Op::Neq => ResV::V(ValueV::Bool(l != r)),
        Op::Gt => ResV::V(ValueV::Bool(order_of(l, r) == Some(Order::Greater))),
        Op::Gte => ResV::V(
            ValueV::Bool(
                order_of(l, r) == Some(Order::Greater) || order_of(l, r) == Some(Order::Equal),
            ),
        ),
        Op::Lt => ResV::V(ValueV::Bool(order_of(l, r) == Some(Order::Less))),
        Op::Lte => ResV::V(
            ValueV::Bool(
                order_of(l, r) == Some(Order::Less) || order_of(l, r) == Some(Order::Equal),
            ),
        ),
        _ => ResV::E(EvalError::NotImplemented),
    }
}

/// What a unary operator gives on a value.
pub open spec fn unary_value(op: Op, v: ValueV) -> ResV {
    match op {
        Op::Neg => neg_value(v),
        Op::Not => ResV::V(ValueV::Bool(!truthy(v))),
        _ => ResV::E(EvalError::NotImplemented),
    }
}

/// The name of a kind.
pub open spec fn kind_name(k: Kind) -> Seq<u8> {
    match k {
        Kind::Undefined => ascii("Undefined"@),
        Kind::Num => ascii("Num"@),
        Kind::Str => ascii("Str"@),
        Kind::Bool => ascii("Bool"@),
        Kind::Vec => ascii("Vec"@),
        Kind::Obj => ascii("Obj"@),
        Kind::Function => ascii("Function"@),
    }
}

/// How a boolean is written.
pub(crate) fn bool_to_text(b: bool) -> (r: Vec<u8>)
    ensures
        r@ == bool_text(b),
{
    proof {
        reveal_strlit("true");
        reveal_strlit("false");
    }
    if b {
        text("true")
    } else {
        text("false")
    }
}

/// What a boolean counts as in arithmetic.
fn counted(b: bool) -> (r: Number)
    ensures
        r@ == bool_number(b),
{
    if b {
        Number::one()
    } else {
        Number::zero()
    }
}

/// The result that holds a number, or the error where there is none.
fn number_res(n: Option<Number>) -> (r: Res)
    ensures
        n matches Some(x) ==> r@ == ResV::V(ValueV::Num(x@)),
        n is None ==> r@ == ResV::E(EvalError::OutOfRange),
{
    match n {
        Some(x) => Res::V(Value::Num(x)),
        None => Res::E(EvalError::OutOfRange),
    }
}

/// The string with `b` after `a`.
fn joined(a: Vec<u8>, b: &Vec<u8>) -> (r: Res)
    ensures
        r@ == ResV::V(ValueV::Str(a@ + b@)),
{
    let mut a = a;
    push_bytes(&mut a, b);
    Res::V(Value::Str(a))
}

/// The string `s` repeated as the whole part of `n` says.
fn repeat(s: &Vec<u8>, n: &Number) -> (r: Res)
    ensures
        r@ == repeat_result(s@, n@),
{
    let count = n.to_count();
    let fits = match s.len().checked_mul(count) {
        Some(_) => true,
        None => false,
    };
    if !fits {
        return Res::E(EvalError::OutOfRange);
    }
    let mut out: Vec<u8> = Vec::new();
    let mut i: usize = 0;
    while i < count
        invariant
            i <= count,
            out@ == repeated(s@, i as nat),
        decreases count - i,
    {
        push_bytes(&mut out, s);
        i = i + 1;
    }
    Res::V(Value::Str(out))
}

/// Whether the object holds an entry under the key.
fn holds_key(a: &Vec<(Key, Node)>, k: &Key) -> (r: bool)
    ensures
        r == has_key(crate::types::entries_view(a@), k@),
{
    let mut i: usize = 0;
    while i < a.len()
        invariant
            i <= a.len(),
            forall|j: int| 0 <= j < i ==> (#[trigger] crate::types::entries_view(a@)[j]).0 != k@,
        decreases a.len() - i,
    {
        if a[i].0.same(k) {
            assert(crate::types::entries_view(a@)[i as int].0 == k@);
            return true;
        }
        i = i + 1;
    }
    false
}

/// Puts the node under the key: in place where the key is there, at the end
/// where it is not.
pub(crate) fn put_entry(a: &mut Vec<(Key, Node)>, k: Key, v: Node)
    ensures
        crate::types::entries_view(final(a)@) == with_entry(
            crate::types::entries_view(old(a)@),
            k@,
            v@,
        ),
{
    let ghost before = crate::types::entries_view(a@);
    if holds_key(a, &k) {
        let mut i: usize = 0;
        while i < a.len()
            invariant
                i <= a.len(),
                a@.len() == before.len(),
                forall|j: int|
                    0 <= j < i ==> #[trigger] crate::types::entries_view(a@)[j] == (if before[j].0
                        == k@ {
                        (k@, v@)
                    } else {
                        before[j]
                    }),
                forall|j: int|
                    i <= j < a.len() ==> #[trigger] crate::types::entries_view(a@)[j] == before[j],
            decreases a.len() - i,
        {
            let ghost prev = crate::types::entries_view(a@);
            assert(prev[i as int] == before[i as int]);
            assert(prev[i as int].0 == a@[i as int].0@);
            if a[i].0.same(&k) {
                a.set(i, (k.copy(), crate::types::copy_node(&v)));
                assert forall|j: int| 0 <= j < a.len() && j != i implies #[trigger]
                    crate::types::entries_view(a@)[j] == prev[j] by {}
                assert(crate::types::entries_view(a@)[i as int] == (k@, v@));
            }
            i = i + 1;
        }
        assert(crate::types::entries_view(a@) =~= with_entry(before, k@, v@));
    } else {
        a.push((k, v));
        assert(crate::types::entries_view(a@) =~= with_entry(before, k@, v@));
    }
}

/// The entries of `a` and of `b` in one object.
fn merge(a: Vec<(Key, Node)>, b: &Vec<(Key, Node)>) -> (r: Vec<(Key, Node)>)
    ensures
        crate::types::entries_view(r@) == merged(
            crate::types::entries_view(a@),
            crate::types::entries_view(b@),
        ),
{
    let ghost av = crate::types::entries_view(a@);
    let ghost bv = crate::types::entries_view(b@);
    let mut out = a;
    let mut i: usize = 0;
    while i < b.len()
        invariant
            i <= b.len(),
            bv == crate::types::entries_view(b@),
            crate::types::entries_view(out@) == merged(av, bv.subrange(0, i as int)),
        decreases b.len() - i,
    {
        put_entry(&mut out, b[i].0.copy(), crate::types::copy_node(&b[i].1));
        i = i + 1;
        assert(bv.subrange(0, i as int).drop_last() =~= bv.subrange(0, i - 1));
    }
    assert(bv.subrange(0, b.len() as int) =~= bv);
    out
}

/// The entries of `a` whose key `b` does not hold.
fn strip_keys(a: &Vec<(Key, Node)>, b: &Vec<(Key, Node)>) -> (r: Vec<(Key, Node)>)
    ensures
        crate::types::entries_view(r@) == without_keys(
            crate::types::entries_view(a@),
            crate::types::entries_view(b@),
        ),
{
    let ghost av = crate::types::entries_view(a@);
    let ghost bv = crate::types::entries_view(b@);
    let mut out: Vec<(Key, Node)> = Vec::new();
    let mut i: usize = 0;
    assert(crate::types::entries_view(out@) =~= without_keys(av.subrange(0, 0), bv));
    while i < a.len()
        invariant
            i <= a.len(),
            av == crate::types::entries_view(a@),
            bv == crate::types::entries_view(b@),
            crate::types::entries_view(out@) == without_keys(av.subrange(0, i as int), bv),
        decreases a.len() - i,
    {
        let ghost prev = crate::types::entries_view(out@);
        if !holds_key(b, &a[i].0) {
            out.push((a[i].0.copy(), crate::types::copy_node(&a[i].1)));
            assert(crate::types::entries_view(out@) =~= prev.push(av[i as int]));
        }
        i = i + 1;
        assert(av.subrange(0, i as int).drop_last() =~= av.subrange(0, i - 1));
    }
    assert(av.subrange(0, a.len() as int) =~= av);
    out
}

/// How two byte strings stand to each other.
fn order_bytes(a: &Vec<u8>, b: &Vec<u8>) -> (r: Order)
    ensures
        r == bytes_order(a@, b@),
{
    let mut i: usize = 0;
    assert(a@.skip(0) =~= a@);
    assert(b@.skip(0) =~= b@);
    while i < a.len() && i < b.len()
        invariant
            i <= a.len(),
            i <= b.len(),
            bytes_order(a@, b@) == bytes_order(a@.skip(i as int), b@.skip(i as int)),
        decreases a.len() - i,
    {
        assert(a@.skip(i as int)[0] == a@[i as int]);
        assert(b@.skip(i as int)[0] == b@[i as int]);
        if a[i] < b[i] {
            return Order::Less;
        }
        if a[i] > b[i] {
            return Order::Greater;
        }
        assert(a@.skip(i as int).skip(1) =~= a@.skip(i + 1));
        assert(b@.skip(i as int).skip(1) =~= b@.skip(i + 1));
        i = i + 1;
    }
    if i == a.len() && i == b.len() {
        Order::Equal
    } else if i == a.len() {
        Order::Less
    } else {
        Order::Greater
    }
}

impl Clone for Res {
    fn clone(&self) -> (r: Self)
        ensures
            r@ == self@,
    {
        match self {
            Res::V(v) => Res::V(v.clone()),
            Res::E(e) => Res::E(*e),
        }
    }
}

impl Value {
    /// The kind of the value.
    pub fn kind(&self) -> (r: Kind)
        ensures
            r == kind_of(self@),
    {
        match self {
            Value::Undefined => Kind::Undefined,
            Value::Num(_) => Kind::Num,
            Value::Str(_) => Kind::Str,
            Value::Bool(_) => Kind::Bool,
            Value::Vec(_) => Kind::Vec,
            Value::Obj(_) => Kind::Obj,
            Value::Fn(_, _, _) => Kind::Function,
        }
    }

    /// Whether the value counts as true.
    pub fn is_truthy(&self) -> (r: bool)
        ensures
            r == truthy(self@),
    {
        match self {
            Value::Undefined => false,
            Value::Fn(_, _, _) => true,
            Value::Bool(b) => *b,
            Value::Num(n) => !n.is_zero(),
            Value::Str(s) => s.len() != 0,
            Value::Vec(l) => l.len() != 0,
            Value::Obj(l) => l.len() != 0,
        }
    }

    /// How the value is written.
    pub fn display(&self) -> (r: Vec<u8>)
        ensures
            r@ == display_text(self@),
    {
        proof {
            reveal_strlit("undefined");
            reveal_strlit("(Function () => {})");
        }
        match self {
            Value::Num(n) => n.to_text(),
            Value::Str(s) => copy_bytes(s),
            Value::Bool(b) => bool_to_text(*b),
            Value::Vec(_) => Vec::new(),
            Value::Obj(_) => Vec::new(),
            Value::Undefined => text("undefined"),
            Value::Fn(_, _, _) => text("(Function () => {})"),
        }
    }

    /// `self + other`.
    pub fn add(self, other: Value) -> (r: Res)
        ensures
            r@ == add_values(self@, other@),
    {
        match (self, other) {
            (Value::Num(a), Value::Num(b)) => number_res(a.plus(&b)),
            (Value::Num(a), Value::Str(b)) => joined(a.to_text(), &b),
            (Value::Str(a), Value::Num(b)) => joined(a, &b.to_text()),
            (Value::Bool(a), Value::Str(b)) => joined(bool_to_text(a), &b),
            (Value::Str(a), Value::Bool(b)) => joined(a, &bool_to_text(b)),
            (Value::Str(a), Value::Str(b)) => joined(a, &b),
            (Value::Num(a), Value::Bool(b)) => number_res(a.plus(&counted(b))),
            (Value::Bool(a), Value::Num(b)) => number_res(counted(a).plus(&b)),
            (Value::Undefined, Value::Undefined) => Res::V(Value::Undefined),
            (Value::Undefined, Value::Num(n)) => Res::V(Value::Num(n)),
            (Value::Undefined, Value::Str(s)) => Res::V(Value::Str(s)),
            (Value::Undefined, Value::Vec(l)) => Res::V(Value::Vec(l)),
            (Value::Undefined, Value::Obj(l)) => Res::V(Value::Obj(l)),
            (Value::Num(n), Value::Undefined) => Res::V(Value::Num(n)),
            (Value::Str(s), Value::Undefined) => Res::V(Value::Str(s)),
            (Value::Vec(l), Value::Undefined) => Res::V(Value::Vec(l)),
            (Value::Obj(l), Value::Undefined) => Res::V(Value::Obj(l)),
            (Value::Vec(a), Value::Vec(b)) => {
                let mut a = a;
                let mut b = b;
                proof {
                    crate::types::lemma_nodes_view_concat(a@, b@);
                }
                a.append(&mut b);
                Res::V(Value::Vec(a))
            },
            (Value::Obj(a), Value::Obj(b)) => Res::V(Value::Obj(merge(a, &b))),
            (l, r) => Res::E(EvalError::Unsupported(Op::Add, l.kind(), r.kind())),
        }
    }

    /// `self - other`.
    pub fn sub(self, other: Value) -> (r: Res)
        ensures
            r@ == sub_values(self@, other@),
    {
        match (self, other) {
            (Value::Num(a), Value::Num(b)) => number_res(a.minus(&b)),
            (Value::Num(a), Value::Bool(b)) => number_res(a.minus(&counted(b))),
            (Value::Bool(a), Value::Num(b)) => number_res(counted(a).minus(&b)),
            (Value::Undefined, Value::Undefined) => Res::V(Value::Undefined),
            (Value::Undefined, Value::Num(n)) => Res::V(Value::Num(n)),
            (Value::Undefined, Value::Str(s)) => Res::V(Value::Str(s)),
            (Value::Undefined, Value::Vec(l)) => Res::V(Value::Vec(l)),
            (Value::Undefined, Value::Obj(l)) => Res::V(Value::Obj(l)),
            (Value::Num(n), Value::Undefined) => Res::V(Value::Num(n)),
            (Value::Str(s), Value::Undefined) => Res::V(Value::Str(s)),
            (Value::Vec(l), Value::Undefined) => Res::V(Value::Vec(l)),
            (Value::Obj(l), Value::Undefined) => Res::V(Value::Obj(l)),
            (Value::Obj(a), Value::Obj(b)) => Res::V(Value::Obj(strip_keys(&a, &b))),
            (l, r) => Res::E(EvalError::Unsupported(Op::Sub, l.kind(), r.kind())),
        }
    }

    /// `self * other`.
    pub fn mul(self, other: Value) -> (r: Res)
        ensures
            r@ == mul_values(self@, other@),
    {
        match (self, other) {
            (Value::Num(a), Value::Num(b)) => number_res(a.times(&b)),
            (Value::Str(s), Value::Num(n)) => repeat(&s, &n),
            (Value::Num(n), Value::Str(s)) => repeat(&s, &n),
            (Value::Undefined, r) => Res::V(r),
            (l, Value::Undefined) => Res::V(l),
            (l, r) => Res::E(EvalError::Unsupported(Op::Mul, l.kind(), r.kind())),
        }
    }

    /// `self / other`.
    pub fn div(self, other: Value) -> (r: Res)
        ensures
            r@ == div_values(self@, other@),
    {
        match (self, other) {
            (Value::Num(a), Value::Num(b)) => if b.is_zero() {
                Res::E(EvalError::DivisionByZero)
            } else {
                number_res(a.over(&b))
            },
            (l, Value::Undefined) => Res::V(l),
            (Value::Undefined, _) => Res::V(Value::Undefined),
            (l, r) => Res::E(EvalError::Unsupported(Op::Div, l.kind(), r.kind())),
        }
    }

    /// `self % other`.
    pub fn rem(self, other: Value) -> (r: Res)
        ensures
            r@ == rem_values(self@, other@),
    {
        match (self, other) {
            (Value::Num(a), Value::Num(b)) => if b.is_zero() {
                Res::E(EvalError::DivisionByZero)
            } else {
                number_res(a.modulo(&b))
            },
            (l, r) => Res::E(EvalError::Unsupported(Op::Mod, l.kind(), r.kind())),
        }
    }

    /// `-self`.
    pub fn neg(self) -> (r: Res)
        ensures
            r@ == neg_value(self@),
    {
        match self {
            Value::Num(n) => number_res(n.negated()),
            Value::Undefined => Res::V(Value::Undefined),
            other => Res::E(EvalError::UnsupportedOperand(Op::Neg, other.kind())),
        }
    }

    /// How the two values stand to each other, where they are ordered.
    pub fn order(&self, other: &Value) -> (r: Option<Order>)
        ensures
            r == order_of(self@, other@),
    {
        match (self, other) {
            (Value::Num(a), Value::Num(b)) => Some(
                if a.less_than(b) {
                    Order::Less
                } else if a.raw == b.raw {
                    Order::Equal
                } else {
                    Order::Greater
                },
            ),
            (Value::Str(a), Value::Str(b)) => Some(order_bytes(a, b)),
            (Value::Undefined, Value::Undefined) => Some(Order::Equal),
            _ => None,
        }
    }
}

impl Kind {
    /// The name of the kind.
    pub fn name(&self) -> (r: Vec<u8>)
        ensures
            r@ == kind_name(*self),
    {
        proof {
            reveal_strlit("Undefined");
            reveal_strlit("Num");
            reveal_strlit("Str");
            reveal_strlit("Bool");
            reveal_strlit("Vec");
            reveal_strlit("Obj");
            reveal_strlit("Function");
        }
        match self {
            Kind::Undefined => text("Undefined"),
            Kind::Num => text("Num"),
            Kind::Str => text("Str"),
            Kind::Bool => text("Bool"),
            Kind::Vec => text("Vec"),
            Kind::Obj => text("Obj"),
            Kind::Function => text("Function"),
        }
    }
}

/// What a binary operator gives on two values.
pub fn binary(op: Op, l: Value, r: Value) -> (res: Res)
    ensures
        res@ == binary_values(op, l@, r@),
        well_formed_value(l@) && well_formed_value(r@) ==> well_formed_result(res@),
{
    proof {
        if well_formed_value(l@) && well_formed_value(r@) {
            lemma_binary_well_formed(op, l@, r@);
        }
    }
    match op {
        Op::Add => l.add(r),
        Op::Sub => l.sub(r),
        Op::Mul => l.mul(r),
        Op::Div => l.div(r),
        Op::Mod => l.rem(r),
        Op::And => Res::V(Value::Bool(l.is_truthy() && r.is_truthy())),
        Op::Or => Res::V(Value::Bool(l.is_truthy() || r.is_truthy())),
        Op::Eq => Res::V(Value::Bool(same_value(&l, &r))),
        Op::Neq => Res::V(Value::Bool(!same_value(&l, &r))),
        Op::Gt => {
            let o = l.order(&r);
            Res::V(Value::Bool(o == Some(Order::Greater)))
        },
        Op::Gte => {
            let o = l.order(&r);
            Res::V(Value::Bool(o == Some(Order::Greater) || o == Some(Order::Equal)))
        },
        Op::Lt => {
            let o = l.order(&r);
            Res::V(Value::Bool(o == Some(Order::Less)))
        },
        Op::Lte => {
            let o = l.order(&r);
            Res::V(Value::Bool(o == Some(Order::Less) || o == Some(Order::Equal)))
        },
        _ => Res::E(EvalError::NotImplemented),
    }
}

/// What a unary operator gives on a value.
pub fn unary(op: Op, v: Value) -> (res: Res)
    ensures
        res@ == unary_value(op, v@),
{
    match op {
        Op::Neg => v.neg(),
        Op::Not => Res::V(Value::Bool(!v.is_truthy())),
        _ => Res::E(EvalError::NotImplemented),
    }
}

/// What an operator is called in a message.
pub open spec fn op_noun(op: Op) -> Seq<u8> {
    match op {
        Op::Add => ascii("Addition"@),
        Op::Sub => ascii("Subtraction"@),
        Op::Mul => ascii("Multiplication"@),
        Op::Div => ascii("Division"@),
        Op::Mod => ascii("Remainder"@),
        Op::Neg => ascii("Negation"@),
        _ => ascii("Operation"@),
    }
}

/// How an operator is written in a message.
pub open spec fn op_sign(op: Op) -> Seq<u8> {
    match op {
        Op::Add => ascii("+"@),
        Op::Sub => ascii("-"@),
        Op::Mul => ascii("*"@),
        Op::Div => ascii("/"@),
        Op::Mod => ascii("%"@),
        _ => ascii("?"@),
    }
}

/// The message of an error.
pub open spec fn error_text(e: EvalError) -> Seq<u8> {
    match e {
        EvalError::UndefinedVariable => ascii("Undefined variable."@),
        EvalError::UndefinedAssignment => ascii("Assignment to an undefined variable."@),
        EvalError::AlreadyDeclared => ascii("Variable is already declared."@),
        EvalError::FunctionAlreadyDefined => ascii("Function already defined."@),
        EvalError::NotAFunction => ascii("Not a function."@),
        EvalError::Unsupported(op, l, r) => op_noun(op) + ascii(" not supported: "@) + kind_name(l)
            + ascii(" "@) + op_sign(op) + ascii(" "@) + kind_name(r),
        EvalError::UnsupportedOperand(op, k) => op_noun(op) + ascii(" not supported: "@)
            + kind_name(k),
        EvalError::DivisionByZero => ascii("Division by zero"@),
        EvalError::OutOfRange => ascii("Number out of range"@),
        EvalError::NotImplemented => ascii("Not implemented"@),
        EvalError::UnknownScope => ascii("Function without a scope."@),
        EvalError::TooDeep => ascii("Calls are nested too deep."@),
        EvalError::TooManyTurns => ascii("Loop ran too long."@),
    }
}

impl Op {
    /// What the operator is called in a message.
    pub fn noun(&self) -> (r: Vec<u8>)
        ensures
            r@ == op_noun(*self),
    {
        proof {
            reveal_strlit("Addition");
            reveal_strlit("Subtraction");
            reveal_strlit("Multiplication");
            reveal_strlit("Division");
            reveal_strlit("Remainder");
            reveal_strlit("Negation");
            reveal_strlit("Operation");
        }
        match self {
            Op::Add => text("Addition"),
            Op::Sub => text("Subtraction"),
            Op::Mul => text("Multiplication"),
            Op::Div => text("Division"),
            Op::Mod => text("Remainder"),
            Op::Neg => text("Negation"),
            _ => text("Operation"),
        }
    }

    /// How the operator is written in a message.
    pub fn sign(&self) -> (r: Vec<u8>)
        ensures
            r@ == op_sign(*self),
    {
        proof {
            reveal_strlit("+");
            reveal_strlit("-");
            reveal_strlit("*");
            reveal_strlit("/");
            reveal_strlit("%");
            reveal_strlit("?");
        }
        match self {
            Op::Add => text("+"),
            Op::Sub => text("-"),
            Op::Mul => text("*"),
            Op::Div => text("/"),
            Op::Mod => text("%"),
            _ => text("?"),
        }
    }
}

impl EvalError {
    /// The message of the error.
    pub fn message(&self) -> (r: Vec<u8>)
        ensures
            r@ == error_text(*self),
    {
        proof {
            reveal_strlit("Undefined variable.");
            reveal_strlit("Assignment to an undefined variable.");
            reveal_strlit("Variable is already declared.");
            reveal_strlit("Function already defined.");
            reveal_strlit("Not a function.");
            reveal_strlit(" not supported: ");
            reveal_strlit(" ");
            reveal_strlit("Division by zero");
            reveal_strlit("Number out of range");
            reveal_strlit("Not implemented");
            reveal_strlit("Function without a scope.");
            reveal_strlit("Calls are nested too deep.");
            reveal_strlit("Loop ran too long.");
        }
        match self {
            EvalError::UndefinedVariable => text("Undefined variable."),
            EvalError::UndefinedAssignment => text("Assignment to an undefined variable."),
            EvalError::AlreadyDeclared => text("Variable is already declared."),
            EvalError::FunctionAlreadyDefined => text("Function already defined."),
            EvalError::NotAFunction => text("Not a function."),
            EvalError::Unsupported(op, l, r) => {
                let mut out = op.noun();
                push_bytes(&mut out, &text(" not supported: "));
                push_bytes(&mut out, &l.name());
                push_bytes(&mut out, &text(" "));
                push_bytes(&mut out, &op.sign());
                push_bytes(&mut out, &text(" "));
                push_bytes(&mut out, &r.name());
                out
            },
            EvalError::UnsupportedOperand(op, k) => {
                let mut out = op.noun();
                push_bytes(&mut out, &text(" not supported: "));
                push_bytes(&mut out, &k.name());
                out
            },
            EvalError::DivisionByZero => text("Division by zero"),
            EvalError::OutOfRange => text("Number out of range"),
            EvalError::NotImplemented => text("Not implemented"),
            EvalError::UnknownScope => text("Function without a scope."),
            EvalError::TooDeep => text("Calls are nested too deep."),
            EvalError::TooManyTurns => text("Loop ran too long."),
        }
    }
}

} // verus!
