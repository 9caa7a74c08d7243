use script_core::interpreter::operators::{binary, unary, EvalError, Kind, Order, Res};
use script_core::number::Number;
use script_core::types::{Op, Value};

fn num(n: i64) -> Value {
    Value::Num(Number::from_whole(n))
}

fn string(s: &str) -> Value {
    Value::Str(s.as_bytes().to_vec())
}

#[test]
fn number_plus_string_is_written_and_joined() {
    assert_eq!(binary(Op::Add, num(1), string("x")), Res::V(string("1x")));
}

#[test]
fn undefined_plus_number_is_the_number() {
    assert_eq!(binary(Op::Add, Value::Undefined, num(5)), Res::V(num(5)));
}

#[test]
fn division_by_zero_is_an_error() {
    assert_eq!(binary(Op::Div, num(5), num(0)), Res::E(EvalError::DivisionByZero));
}

#[test]
fn unsupported_pair_is_an_error() {
    assert_eq!(
        binary(Op::Add, Value::Bool(true), Value::Bool(false)),
        Res::E(EvalError::Unsupported(Op::Add, Kind::Bool, Kind::Bool))
    );
    assert_eq!(
        EvalError::Unsupported(Op::Add, Kind::Bool, Kind::Bool).message(),
        b"Addition not supported: Bool + Bool".to_vec()
    );
}

#[test]
fn negation_twice_gives_the_number_back() {
    let once = match unary(Op::Neg, num(5)) {
        Res::V(v) => v,
        Res::E(e) => panic!("{:?}", e),
    };
    assert_eq!(once, num(-5));
    assert_eq!(unary(Op::Neg, once), Res::V(num(5)));
}

fn key(n: i64) -> script_core::types::Key {
    script_core::types::Key::Num(Number::from_whole(n))
}

fn leaf(n: i64) -> script_core::types::Node {
    script_core::types::Node {
        expr: script_core::types::Expr::Val(num(n)),
        span: script_core::types::Span { start: 0, end: 0 },
    }
}

#[test]
fn booleans_count_as_zero_and_one() {
    assert_eq!(binary(Op::Add, num(1), Value::Bool(true)), Res::V(num(2)));
    assert_eq!(binary(Op::Add, Value::Bool(false), num(1)), Res::V(num(1)));
    assert_eq!(binary(Op::Sub, num(1), Value::Bool(true)), Res::V(num(0)));
    assert_eq!(binary(Op::Sub, num(1), Value::Bool(false)), Res::V(num(1)));
}

#[test]
fn boolean_minus_number_counts_the_boolean_as_zero_or_one() {
    assert_eq!(binary(Op::Sub, Value::Bool(true), num(5)), Res::V(num(-4)));
    assert_eq!(binary(Op::Sub, Value::Bool(false), num(5)), Res::V(num(-5)));
    assert_eq!(binary(Op::Add, Value::Bool(true), num(5)), Res::V(num(6)));
}

#[test]
fn operators_keep_the_keys_of_an_object_distinct() {
    let left = Value::Obj(vec![(key(1), leaf(10)), (key(2), leaf(20))]);
    let right = Value::Obj(vec![(key(2), leaf(21)), (key(2), leaf(22)), (key(1), leaf(11))]);
    match binary(Op::Add, left, right) {
        Res::V(Value::Obj(entries)) => {
            assert_eq!(entries, vec![(key(1), leaf(11)), (key(2), leaf(22))]);
        }
        other => panic!("{:?}", other),
    }
}

#[test]
fn strings_join_with_strings_and_booleans() {
    assert_eq!(binary(Op::Add, string("a"), string("b")), Res::V(string("ab")));
    assert_eq!(binary(Op::Add, Value::Bool(true), string("!")), Res::V(string("true!")));
    assert_eq!(binary(Op::Add, string("is "), Value::Bool(false)), Res::V(string("is false")));
    assert_eq!(binary(Op::Add, string("n"), num(2)), Res::V(string("n2")));
}

#[test]
fn undefined_is_the_identity_of_each_operator() {
    assert_eq!(binary(Op::Add, Value::Undefined, Value::Undefined), Res::V(Value::Undefined));
    assert_eq!(binary(Op::Add, string("a"), Value::Undefined), Res::V(string("a")));
    assert_eq!(binary(Op::Sub, Value::Undefined, num(3)), Res::V(num(3)));
    assert_eq!(binary(Op::Mul, Value::Undefined, Value::Bool(true)), Res::V(Value::Bool(true)));
    assert_eq!(binary(Op::Mul, num(4), Value::Undefined), Res::V(num(4)));
    assert_eq!(binary(Op::Div, num(4), Value::Undefined), Res::V(num(4)));
    assert_eq!(binary(Op::Div, Value::Undefined, num(4)), Res::V(Value::Undefined));
    assert_eq!(unary(Op::Neg, Value::Undefined), Res::V(Value::Undefined));
}

#[test]
fn vectors_concatenate() {
    assert_eq!(
        binary(Op::Add, Value::Vec(vec![leaf(1)]), Value::Vec(vec![leaf(2), leaf(3)])),
        Res::V(Value::Vec(vec![leaf(1), leaf(2), leaf(3)]))
    );
}

#[test]
fn objects_merge_and_the_right_side_wins() {
    let left = Value::Obj(vec![(key(1), leaf(10)), (key(2), leaf(20))]);
    let right = Value::Obj(vec![(key(2), leaf(21)), (key(3), leaf(30))]);
    assert_eq!(
        binary(Op::Add, left, right),
        Res::V(Value::Obj(vec![(key(1), leaf(10)), (key(2), leaf(21)), (key(3), leaf(30))]))
    );
}

#[test]
fn object_minus_object_drops_the_keys_of_the_right_side() {
    let left = Value::Obj(vec![(key(1), leaf(10)), (key(2), leaf(20))]);
    let right = Value::Obj(vec![(key(2), leaf(0))]);
    assert_eq!(binary(Op::Sub, left, right), Res::V(Value::Obj(vec![(key(1), leaf(10))])));
}

#[test]
fn truthiness_of_each_kind() {
    assert!(!Value::Undefined.is_truthy());
    assert!(Value::Bool(true).is_truthy());
    assert!(!num(0).is_truthy());
    assert!(num(2).is_truthy());
    assert!(!string("").is_truthy());
    assert!(string("a").is_truthy());
    assert!(!Value::Vec(vec![]).is_truthy());
    assert!(Value::Obj(vec![(key(1), leaf(1))]).is_truthy());
    assert!(Value::Fn(vec![], Box::new(leaf(1)), 0).is_truthy());
}

#[test]
fn each_kind_as_it_is_displayed() {
    assert_eq!(Value::Undefined.display(), b"undefined".to_vec());
    assert_eq!(num(12).display(), b"12".to_vec());
    assert_eq!(string("hi").display(), b"hi".to_vec());
    assert_eq!(Value::Bool(false).display(), b"false".to_vec());
    assert_eq!(Value::Vec(vec![leaf(1)]).display(), b"".to_vec());
    assert_eq!(Value::Obj(vec![]).display(), b"".to_vec());
    assert_eq!(Value::Fn(vec![], Box::new(leaf(1)), 0).display(), b"(Function () => {})".to_vec());
    assert_eq!(Kind::Function.name(), b"Function".to_vec());
    assert_eq!(string("hi").kind(), Kind::Str);
}

#[test]
fn equality_is_node_for_node() {
    assert_eq!(binary(Op::Eq, string("a"), string("a")), Res::V(Value::Bool(true)));
    assert_eq!(binary(Op::Eq, num(1), string("1")), Res::V(Value::Bool(false)));
    assert_eq!(binary(Op::Neq, num(1), num(2)), Res::V(Value::Bool(true)));
    assert_eq!(
        binary(Op::Eq, Value::Vec(vec![leaf(1)]), Value::Vec(vec![leaf(1)])),
        Res::V(Value::Bool(true))
    );
}

#[test]
fn only_numbers_strings_and_undefined_are_ordered() {
    assert_eq!(num(1).order(&num(2)), Some(Order::Less));
    assert_eq!(string("b").order(&string("ab")), Some(Order::Greater));
    assert_eq!(string("a").order(&string("ab")), Some(Order::Less));
    assert_eq!(Value::Undefined.order(&Value::Undefined), Some(Order::Equal));
    assert_eq!(num(1).order(&string("1")), None);
    assert_eq!(binary(Op::Gte, Value::Bool(true), Value::Bool(true)), Res::V(Value::Bool(false)));
}

#[test]
fn operators_that_are_no_binary_operators_are_not_implemented() {
    assert_eq!(binary(Op::Not, num(1), num(2)), Res::E(EvalError::NotImplemented));
    assert_eq!(unary(Op::Add, num(1)), Res::E(EvalError::NotImplemented));
    assert_eq!(unary(Op::Not, num(0)), Res::V(Value::Bool(true)));
}

#[test]
fn remainder_by_zero_is_an_error() {
    assert_eq!(binary(Op::Mod, num(5), num(0)), Res::E(EvalError::DivisionByZero));
    assert_eq!(binary(Op::Mod, num(5), num(3)), Res::V(num(2)));
}
