use script_core::interpreter::env::{define, get, new, Environment};
use script_core::interpreter::operators::EvalError;
use script_core::number::Number;
use script_core::types::Value;

fn num(n: i64) -> Value {
    Value::Num(Number::from_whole(n))
}

fn name(s: &str) -> Vec<u8> {
    s.as_bytes().to_vec()
}

#[test]
fn new_scopes_are_named_by_their_index() {
    let mut scopes: Vec<Environment> = Vec::new();
    assert_eq!(new(&mut scopes, None), 0);
    assert_eq!(new(&mut scopes, Some(0)), 1);
    assert_eq!(scopes[1], Environment { vars: vec![], parent: Some(0) });
}

#[test]
fn get_walks_outward_to_the_root() {
    let mut scopes: Vec<Environment> = Vec::new();
    let root = new(&mut scopes, None);
    let inner = new(&mut scopes, Some(root));
    assert_eq!(define(&mut scopes, root, name("a"), num(1)), None);
    assert_eq!(get(&scopes, inner, &name("a")), Some(num(1)));
    assert_eq!(get(&scopes, inner, &name("b")), None);
    assert_eq!(get(&scopes, 9, &name("a")), None);
}

#[test]
fn define_fails_only_for_a_name_of_the_same_scope() {
    let mut scopes: Vec<Environment> = Vec::new();
    let root = new(&mut scopes, None);
    let inner = new(&mut scopes, Some(root));
    assert_eq!(define(&mut scopes, root, name("a"), num(1)), None);
    assert_eq!(define(&mut scopes, root, name("a"), num(2)), Some(EvalError::AlreadyDeclared));
    assert_eq!(define(&mut scopes, inner, name("a"), num(3)), None);
    assert_eq!(get(&scopes, inner, &name("a")), Some(num(3)));
    assert_eq!(get(&scopes, root, &name("a")), Some(num(1)));
}

#[test]
fn set_changes_the_nearest_scope_that_holds_the_name() {
    let mut scopes: Vec<Environment> = Vec::new();
    let root = new(&mut scopes, None);
    let middle = new(&mut scopes, Some(root));
    let inner = new(&mut scopes, Some(middle));
    define(&mut scopes, root, name("a"), num(1));
    define(&mut scopes, middle, name("a"), num(2));
    assert_eq!(script_core::interpreter::env::set(&mut scopes, inner, &name("a"), num(9)), None);
    assert_eq!(get(&scopes, middle, &name("a")), Some(num(9)));
    assert_eq!(get(&scopes, root, &name("a")), Some(num(1)));
    assert!(scopes[inner].vars.is_empty());
}

#[test]
fn set_of_an_unknown_name_changes_nothing() {
    let mut scopes: Vec<Environment> = Vec::new();
    let root = new(&mut scopes, None);
    define(&mut scopes, root, name("a"), num(1));
    let before = format!("{:?}", scopes);
    assert_eq!(script_core::interpreter::env::set(&mut scopes, root, &name("b"), num(2)), Some(EvalError::UndefinedAssignment));
    assert_eq!(format!("{:?}", scopes), before);
    assert_eq!(
        EvalError::UndefinedAssignment.message(),
        b"Assignment to an undefined variable.".to_vec()
    );
}
