use script_core::ast::{lex, parse};
use script_core::diag::Problem;
use script_core::number::Number;
use script_core::types::{Expr, Key, Node, Op, Span, Value};

fn parsed(src: &str) -> (Vec<Node>, usize) {
    let (tokens, errors) = lex(src.as_bytes());
    assert!(errors.is_empty(), "{:?}", errors);
    let (ast, errors) = parse(&tokens.unwrap(), src.as_bytes());
    (ast.unwrap(), errors.len())
}

fn program(src: &str) -> Vec<Node> {
    let (ast, errors) = parsed(src);
    assert_eq!(errors, 0);
    ast
}

fn node(expr: Expr, start: usize, end: usize) -> Node {
    Node { expr, span: Span { start, end } }
}

fn num(n: i64, start: usize, end: usize) -> Box<Node> {
    Box::new(node(Expr::Val(Value::Num(Number::from_whole(n))), start, end))
}

#[test]
fn multiplication_binds_tighter_than_addition() {
    let ast = program("1 + 2 * 3");
    let product = node(Expr::BnOp(num(2, 4, 5), Op::Mul, num(3, 8, 9)), 4, 9);
    let sum = node(Expr::BnOp(num(1, 0, 1), Op::Add, Box::new(product)), 0, 9);
    assert_eq!(ast, vec![sum]);
}

#[test]
fn operators_of_one_strength_group_to_the_left() {
    let ast = program("8 - 2 - 1");
    let first = node(Expr::BnOp(num(8, 0, 1), Op::Sub, num(2, 4, 5)), 0, 5);
    let second = node(Expr::BnOp(Box::new(first), Op::Sub, num(1, 8, 9)), 0, 9);
    assert_eq!(ast, vec![second]);
}

#[test]
fn comparison_binds_tighter_than_logic() {
    let ast = program("1 < 2 && 3 < 4");
    match &ast[0].expr {
        Expr::BnOp(l, Op::And, r) => {
            assert!(matches!(l.expr, Expr::BnOp(_, Op::Lt, _)));
            assert!(matches!(r.expr, Expr::BnOp(_, Op::Lt, _)));
        }
        other => panic!("{:?}", other),
    }
}

#[test]
fn prefix_operators_nest_to_the_right() {
    let ast = program("!!true");
    let inner = node(
        Expr::UnOp(Op::Not, Box::new(node(Expr::Val(Value::Bool(true)), 2, 6))),
        1,
        6,
    );
    assert_eq!(ast, vec![node(Expr::UnOp(Op::Not, Box::new(inner)), 0, 6)]);
}

#[test]
fn print_is_a_reserved_call() {
    let ast = program("print(1)\nshow(1)");
    assert!(matches!(&ast[0].expr, Expr::ReservedCall(name, args) if name == b"print" && args.len() == 1));
    assert!(matches!(&ast[1].expr, Expr::Call(_, args) if args.len() == 1));
}

#[test]
fn let_without_a_value_is_undefined() {
    let ast = program("let a");
    let absent = node(Expr::Val(Value::Undefined), 4, 5);
    assert_eq!(ast, vec![node(Expr::Let(b"a".to_vec(), Box::new(absent)), 0, 5)]);
}

#[test]
fn arrow_function_returns_its_expression() {
    let ast = program("fn inc(x) = x + 1");
    match &ast[0].expr {
        Expr::Fn(name, params, body) => {
            assert_eq!(name, b"inc");
            assert_eq!(params, &vec![b"x".to_vec()]);
            assert!(matches!(body.expr, Expr::Return(_)));
        }
        other => panic!("{:?}", other),
    }
}

#[test]
fn else_belongs_to_the_nearest_if() {
    let ast = program("if a if b 1 else 2");
    match &ast[0].expr {
        Expr::If(_, then, otherwise) => {
            assert_eq!(otherwise.expr, Expr::Val(Value::Undefined));
            match &then.expr {
                Expr::If(_, _, inner) => assert!(matches!(inner.expr, Expr::Val(Value::Num(_)))),
                other => panic!("{:?}", other),
            }
        }
        other => panic!("{:?}", other),
    }
}

#[test]
fn else_on_a_line_of_its_own_stands_apart() {
    let ast = program("if a { 1 }\nelse { 2 }");
    assert_eq!(ast.len(), 2);
    assert!(matches!(ast[0].expr, Expr::If(_, _, _)));
    assert!(matches!(ast[1].expr, Expr::Else(_)));
}

#[test]
fn statements_end_at_line_ends_and_semicolons() {
    assert_eq!(program("let a = 1; a = 2; print(a);").len(), 3);
    assert_eq!(program("\n\nlet a = 1\n\n\na = 2\n").len(), 2);
    assert_eq!(program("if a { 1 } b = 2").len(), 2);
    assert_eq!(program("").len(), 0);
}

#[test]
fn vector_and_object_literals() {
    let ast = program("let v = [1, x]\nlet o = {1: 2, \"k\": x, 1: 3,}");
    match &ast[0].expr {
        Expr::Let(_, value) => match &value.expr {
            Expr::Val(Value::Vec(items)) => assert_eq!(items.len(), 2),
            other => panic!("{:?}", other),
        },
        other => panic!("{:?}", other),
    }
    match &ast[1].expr {
        Expr::Let(_, value) => match &value.expr {
            Expr::Val(Value::Obj(entries)) => {
                assert_eq!(entries.len(), 2);
                assert_eq!(entries[0].0, Key::Num(Number::from_whole(1)));
                assert_eq!(entries[0].1.expr, Expr::Val(Value::Num(Number::from_whole(3))));
                assert_eq!(entries[1].0, Key::Str(b"k".to_vec()));
            }
            other => panic!("{:?}", other),
        },
        other => panic!("{:?}", other),
    }
}

#[test]
fn two_unrelated_errors_give_two_diagnostics() {
    let src = "let a = (1 + 2\nlet b = 1 + * 3\nlet c = 4";
    let (tokens, errors) = lex(src.as_bytes());
    assert!(errors.is_empty());
    let (ast, errors) = parse(&tokens.unwrap(), src.as_bytes());
    let ast = ast.unwrap();
    assert_eq!(errors.len(), 2, "{:?}", errors);
    assert_eq!(errors[0].problem, Problem::ExpectedClosing(')'));
    assert_eq!(errors[1].problem, Problem::ExpectedExpression);
    assert_eq!(errors[1].span, Span { start: 27, end: 28 });
    assert_eq!(ast.len(), 3);
    assert_eq!(ast[0].expr, Expr::Error);
    assert_eq!(ast[1].expr, Expr::Error);
    assert!(matches!(ast[2].expr, Expr::Let(_, _)));
}

#[test]
fn malformed_group_becomes_an_error_node() {
    let (ast, errors) = parsed("let a = (1 + ) * 2");
    assert_eq!(errors, 1);
    match &ast[0].expr {
        Expr::Let(_, value) => match &value.expr {
            Expr::BnOp(l, Op::Mul, _) => assert_eq!(l.expr, Expr::Error),
            other => panic!("{:?}", other),
        },
        other => panic!("{:?}", other),
    }
}

#[test]
fn misplaced_operator_becomes_an_error_node() {
    let (ast, errors) = parsed("let a = 1 + *");
    assert_eq!(errors, 1);
    match &ast[0].expr {
        Expr::Let(_, value) => match &value.expr {
            Expr::BnOp(_, Op::Add, r) => {
                assert_eq!(r.expr, Expr::Error);
                assert_eq!(r.span, Span { start: 12, end: 13 });
            }
            other => panic!("{:?}", other),
        },
        other => panic!("{:?}", other),
    }
}

#[test]
fn malformed_block_becomes_an_error_node() {
    let (ast, errors) = parsed("while a { let = 1 }\nprint(1)");
    assert_eq!(errors, 1);
    assert_eq!(ast.len(), 2);
    match &ast[0].expr {
        Expr::While(_, body) => {
            assert_eq!(body.expr, Expr::Error);
            assert_eq!(body.span, Span { start: 8, end: 19 });
        }
        other => panic!("{:?}", other),
    }
    assert!(matches!(ast[1].expr, Expr::ReservedCall(_, _)));
}

fn first_problem(src: &str) -> script_core::diag::Diagnostic {
    let (tokens, errors) = lex(src.as_bytes());
    assert!(errors.is_empty(), "{:?}", errors);
    let (_, errors) = parse(&tokens.unwrap(), src.as_bytes());
    assert_eq!(errors.len(), 1, "{:?}", errors);
    errors[0].clone()
}

#[test]
fn every_problem_of_the_parser_has_its_source() {
    assert_eq!(first_problem("let = 1").problem, Problem::ExpectedIdentifier);
    assert_eq!(first_problem("fn f x").problem, Problem::ExpectedOpening('('));
    assert_eq!(first_problem("fn f(a b) = 1").problem, Problem::ExpectedClosing(')'));
    assert_eq!(first_problem("fn f(a) 1").problem, Problem::ExpectedOpening('{'));
    assert_eq!(first_problem("a = [1, 2").problem, Problem::ExpectedClosing(']'));
    assert_eq!(first_problem("a = {1 2}").problem, Problem::ExpectedColon);
    assert_eq!(first_problem("a = {x: 2}").problem, Problem::ExpectedKey);
    assert_eq!(first_problem("a = {1: 2").problem, Problem::ExpectedClosing('}'));
    assert_eq!(first_problem("a = 1 2").problem, Problem::ExpectedTerminator);
    assert_eq!(first_problem("a = )").problem, Problem::ExpectedExpression);
    assert_eq!(first_problem("if a {").problem, Problem::ExpectedClosing('}'));
}

#[test]
fn diagnostic_names_what_was_being_parsed() {
    let d = first_problem("print(1, (2 + 3]\nlet a = 1");
    assert_eq!(d.problem, Problem::ExpectedClosing(')'));
    assert_eq!(d.span, Span { start: 15, end: 16 });
    assert_eq!(d.message(), b"expected ')'".to_vec());
    let labels: Vec<Vec<u8>> = d.contexts.iter().map(|(p, _)| p.label()).collect();
    assert_eq!(labels, vec![b"expression".to_vec(), b"arguments".to_vec(), b"statement".to_vec()]);
    assert_eq!(d.contexts[0].1, Span { start: 9, end: 10 });
    assert_eq!(d.contexts[2].1, Span { start: 0, end: 5 });
}

#[test]
fn diagnostic_at_the_end_points_behind_the_source() {
    let d = first_problem("a = ");
    assert_eq!(d.problem, Problem::ExpectedExpression);
    assert_eq!(d.span, Span { start: 4, end: 4 });
}

#[test]
fn each_faulty_statement_reports_by_itself() {
    let one = "let a = (1 + 2";
    let two = "let b = 1 + * 3";
    let good = "let c = 4";
    let count = |src: String| parsed(&src).1;
    assert_eq!(count(format!("{}", one)), 1);
    assert_eq!(count(format!("{}", two)), 1);
    assert_eq!(count(format!("{}", good)), 0);
    assert_eq!(count(format!("{}\n{}\n{}", one, good, two)), 2);
    assert_eq!(count(format!("{}\n{}\n{}", two, one, good)), 2);
    assert_eq!(count(format!("{}\n{}\n{}\n{}", good, one, two, one)), 3);
}
