use script_core::ast::{lex, parse};
use script_core::interpreter::env::Environment;
use script_core::interpreter::operators::{EvalError, Res};
use script_core::interpreter::{exec, run, Machine};
use script_core::number::Number;
use script_core::types::{Expr, Node, Span, Value};

fn program(src: &str) -> Vec<Node> {
    let (tokens, errors) = lex(src.as_bytes());
    assert!(errors.is_empty(), "{:?}", errors);
    let (ast, errors) = parse(&tokens.unwrap(), src.as_bytes());
    assert!(errors.is_empty(), "{:?}", errors);
    ast.unwrap()
}

fn output(src: &str) -> String {
    String::from_utf8(run(&program(src), 200, 100_000)).unwrap()
}

fn num(n: i64) -> Value {
    Value::Num(Number::from_whole(n))
}

#[test]
fn precedence_evaluates_to_seven() {
    assert_eq!(output("print(1 + 2 * 3)"), "7\n");
}

#[test]
fn number_plus_string_concatenates() {
    assert_eq!(output("print(1 + \"x\")"), "1x\n");
}

#[test]
fn undefined_is_the_identity_of_addition() {
    assert_eq!(output("let u\nprint(u + 5)"), "5\n");
}

#[test]
fn division_by_zero_is_reported_and_the_run_goes_on() {
    assert_eq!(output("5 / 0\nprint(1)"), "Division by zero\n1\n");
}

#[test]
fn print_divides_its_arguments_by_single_spaces() {
    assert_eq!(output("print(1, \"a\", true)"), "1 a true\n");
    assert_eq!(output("print()"), "\n");
}

#[test]
fn print_with_an_argument_that_fails_writes_nothing_and_gives_the_error() {
    assert_eq!(output("print(1, missing, 2)"), "Undefined variable.\n");
    assert_eq!(output("print(1 / 0, missing)\nprint(2)"), "Division by zero\n2\n");
}

#[test]
fn variable_of_a_loop_body_is_gone_after_the_loop() {
    let src = "let i = 0\nwhile i < 3 {\n let inner = i\n i = i + 1\n}\nprint(i)\nlet copy = inner";
    assert_eq!(output(src), "3\nUndefined variable.\n");
}

#[test]
fn closure_sees_a_later_assignment() {
    let src = "let x = 1\nfn get() = x\nx = 2\nprint(get())";
    assert_eq!(output(src), "2\n");
}

#[test]
fn function_runs_in_the_scope_it_was_defined_in() {
    let src = "let x = 1\nfn get() = x\nfn shadow() {\n let x = 5\n get()\n}\nprint(shadow())";
    assert_eq!(output(src), "1\n");
}

#[test]
fn missing_arguments_are_undefined_and_extra_ones_ignored() {
    let src = "fn first(a, b) = a\nfn second(a, b) = b\nprint(first(1, 2, 3))\nprint(second(1))";
    assert_eq!(output(src), "1\nundefined\n");
}

#[test]
fn branch_runs_in_a_scope_of_its_own() {
    let src = "if true { let inside = 1 }\nlet copy = inside";
    assert_eq!(output(src), "Undefined variable.\n");
}

#[test]
fn if_takes_the_branch_that_the_condition_selects() {
    assert_eq!(output("if 1 < 2 { print(\"yes\") } else { print(\"no\") }"), "yes\n");
    assert_eq!(output("if 1 > 2 { print(\"yes\") } else { print(\"no\") }"), "no\n");
}

#[test]
fn every_runtime_error_has_its_message() {
    assert_eq!(output("missing"), "Undefined variable.\n");
    assert_eq!(output("missing = 1"), "Assignment to an undefined variable.\n");
    assert_eq!(output("let a = 1\nlet a = 2"), "Variable is already declared.\n");
    assert_eq!(output("let f = 1\nfn f() = 1"), "Function already defined.\n");
    assert_eq!(output("let f = 1\nf()"), "Not a function.\n");
    assert_eq!(output("true + false"), "Addition not supported: Bool + Bool\n");
    assert_eq!(output("-\"a\""), "Negation not supported: Str\n");
    assert_eq!(output("1 / 0"), "Division by zero\n");
    assert_eq!(
        output("100000000000000000000 * 100000000000000000000"),
        "Number out of range\n"
    );
    assert_eq!(output("else { 1 }"), "Not implemented\n");
}

#[test]
fn loop_stops_after_the_turns_it_was_given() {
    let ast = program("while true { }");
    assert_eq!(String::from_utf8(run(&ast, 10, 50)).unwrap(), "Loop ran too long.\n");
}

#[test]
fn calls_stop_at_the_depth_they_were_given() {
    let ast = program("fn f() = f()\nf()");
    assert_eq!(String::from_utf8(run(&ast, 10, 50)).unwrap(), "Calls are nested too deep.\n");
}

#[test]
fn function_with_a_scope_that_does_not_exist_is_an_error() {
    let span = Span { start: 0, end: 0 };
    let body = Node { expr: Expr::Val(Value::Undefined), span };
    let callee = Node { expr: Expr::Val(Value::Fn(vec![], Box::new(body), 7)), span };
    let call = Node { expr: Expr::Call(Box::new(callee), vec![]), span };
    let mut m = Machine::new();
    assert_eq!(exec(&call, 0, &mut m, 10, 10), Res::E(EvalError::UnknownScope));
}

#[test]
fn exec_returns_the_value_and_leaves_the_scopes() {
    let ast = program("let a = 2\na * 21");
    let mut m = Machine::new();
    assert_eq!(exec(&ast[0], 0, &mut m, 10, 10), Res::V(Value::Undefined));
    assert_eq!(exec(&ast[1], 0, &mut m, 10, 10), Res::V(num(42)));
    assert_eq!(
        m.scopes,
        vec![Environment { vars: vec![(b"a".to_vec(), num(2))], parent: None }]
    );
    assert!(m.out.is_empty());
}

#[test]
fn block_gives_the_result_of_its_last_statement() {
    let ast = program("{ 1\n 2 }");
    let mut m = Machine::new();
    assert_eq!(exec(&ast[0], 0, &mut m, 10, 10), Res::V(num(2)));
}

#[test]
fn numbers_are_written_without_trailing_zeros() {
    assert_eq!(output("print(7 / 2)"), "3.5\n");
    assert_eq!(output("print(1 / 3)"), "0.333333333\n");
    assert_eq!(output("print(0 - 2.50)"), "-2.5\n");
    assert_eq!(output("print(10 % 4)"), "2\n");
}

#[test]
fn string_times_number_repeats_the_string() {
    assert_eq!(output("print(\"ab\" * 3)"), "ababab\n");
    assert_eq!(output("print(\"ab\" * (0 - 1))"), "\n");
}

#[test]
fn comparisons_and_logic() {
    assert_eq!(output("print(1 < 2, 2 <= 2, 3 > 4, \"a\" < \"b\", 1 == 1, 1 != 1)"),
        "true true false true true false\n");
    assert_eq!(output("print(true && false, true || false, true and true, false or false)"),
        "false true true false\n");
    assert_eq!(output("print(1 < \"a\")"), "false\n");
}

#[test]
fn scopes_of_a_body_are_given_up_when_no_function_was_defined() {
    let ast = program("let i = 0\nwhile i < 5 { let t = i\n i = i + 1 }\nif true { let u = 1 }");
    let mut m = Machine::new();
    for statement in &ast {
        exec(statement, 0, &mut m, 10, 100);
    }
    assert_eq!(m.scopes.len(), 1);
    assert_eq!(m.closures, 0);
}

#[test]
fn scope_that_a_function_holds_is_kept() {
    let src = "fn counter() {\n let n = 0\n fn next() {\n n = n + 1\n n\n }\n next\n}\nlet a = counter()\nprint(a(), a(), a())";
    let ast = program(src);
    let mut m = Machine::new();
    for statement in &ast {
        exec(statement, 0, &mut m, 10, 100);
    }
    assert_eq!(String::from_utf8(m.out.clone()).unwrap(), "1 2 3\n");
    assert_eq!(m.closures, 2);
    assert_eq!(m.scopes.len(), 2);
}

#[test]
fn statements_can_be_run_one_by_one() {
    let ast = program("print(1)\nmissing\nprint(2)");
    let mut m = Machine::new();
    let mut lines = Vec::new();
    for statement in &ast {
        script_core::interpreter::run_statement(statement, &mut m, 10, 10);
        lines.push(String::from_utf8(m.out.clone()).unwrap());
        m.out.clear();
    }
    assert_eq!(lines, vec!["1\n", "Undefined variable.\n", "2\n"]);
}

#[test]
fn recursive_function() {
    let src = "fn fib(n) {\n if n < 2 { n } else { fib(n - 1) + fib(n - 2) }\n}\nprint(fib(15))";
    assert_eq!(output(src), "610\n");
}

#[test]
fn loop_sums_the_numbers() {
    let src = "let i = 1\nlet sum = 0\nwhile i <= 100 {\n sum = sum + i\n i = i + 1\n}\nprint(sum, i)";
    assert_eq!(output(src), "5050 101\n");
}

#[test]
fn loop_gives_the_result_of_its_last_round() {
    let ast = program("let i = 0\nwhile i < 3 { i = i + 1\n i * 10 }");
    let mut m = Machine::new();
    exec(&ast[0], 0, &mut m, 10, 100);
    assert_eq!(exec(&ast[1], 0, &mut m, 10, 100), Res::V(num(30)));
}

#[test]
fn loop_ends_with_the_error_of_its_condition() {
    assert_eq!(output("while missing { print(1) }\nprint(2)"), "Undefined variable.\n2\n");
    let src = "let i = 0\nwhile 1 / (2 - i) { i = i + 1\n print(i) }\nprint(\"after\")";
    assert_eq!(output(src), "1\n2\nDivision by zero\nafter\n");
}

#[test]
fn failing_statement_is_reported_once_and_the_next_one_runs() {
    assert_eq!(output("let z = 5 / 0; print(1);"), "Division by zero\n1\n");
}

#[test]
fn loop_ends_with_the_error_of_its_body() {
    assert_eq!(output("while true { missing }\nprint(2)"), "Undefined variable.\n2\n");
}

#[test]
fn first_error_among_operands_wins() {
    assert_eq!(output("(1 / 0) + missing"), "Division by zero\n");
    assert_eq!(output("missing + (1 / 0)"), "Undefined variable.\n");
}

#[test]
fn arguments_stop_at_the_first_that_fails() {
    let src = "fn f(a, b) = a\nf(1 / 0, print(\"not reached\"))";
    assert_eq!(output(src), "Division by zero\n");
}

#[test]
fn vectors_and_objects_are_values() {
    let src = "let v = [1, 2] + [3]\nlet o = {\"a\": 1} + {\"a\": 2, \"b\": 3}\nif v { print(\"full\") }\nif [] { print(\"never\") }\nprint(v == [1, 2, 3], o)";
    assert_eq!(output(src), "full\nfalse \n");
}

#[test]
fn comments_and_blank_lines_are_no_statements() {
    let src = "// first\n\nlet a = 1 /* inline */ + 1\n/* a\n block */\nprint(a) // last";
    assert_eq!(output(src), "2\n");
}
