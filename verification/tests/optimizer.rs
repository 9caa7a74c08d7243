use script_core::ast::{lex, parse};
use script_core::interpreter::run;
use script_core::number::Number;
use script_core::passers::subs::Entry;
use script_core::passers::{cleanup, fold, merge, pass, subs, unwrap};
use script_core::types::{Expr, Node, Op, Span, Value};

fn program(src: &str) -> Vec<Node> {
    let (tokens, errors) = lex(src.as_bytes());
    assert!(errors.is_empty(), "{:?}", errors);
    let (ast, errors) = parse(&tokens.unwrap(), src.as_bytes());
    assert!(errors.is_empty(), "{:?}", errors);
    ast.unwrap()
}

fn output(ast: &Vec<Node>) -> String {
    String::from_utf8(run(ast, 100, 10_000)).unwrap()
}

fn num(n: i64) -> Expr {
    Expr::Val(Value::Num(Number::from_whole(n)))
}

fn folded(src: &str) -> Expr {
    let ast = program(src);
    assert_eq!(ast.len(), 1);
    fold::fold(&ast[0]).expr
}

/// The statements without their spans, written out.
fn shape(ast: &Vec<Node>) -> Vec<String> {
    ast.iter().map(show).collect()
}

fn show(n: &Node) -> String {
    let name = |b: &Vec<u8>| String::from_utf8(b.clone()).unwrap();
    let list = |l: &Vec<Node>| l.iter().map(show).collect::<Vec<_>>().join(", ");
    match &n.expr {
        Expr::Error => "<error>".to_string(),
        Expr::Nl => "<empty>".to_string(),
        Expr::Var(x) => name(x),
        Expr::Val(v) => String::from_utf8(v.display()).unwrap(),
        Expr::UnOp(op, a) => format!("({:?} {})", op, show(a)),
        Expr::BnOp(a, op, b) => format!("({} {:?} {})", show(a), op, show(b)),
        Expr::Let(x, v) => format!("let {} = {}", name(x), show(v)),
        Expr::Assign(x, v) => format!("{} = {}", name(x), show(v)),
        Expr::Block(l) => format!("{{{}}}", list(l)),
        Expr::Fn(x, p, b) => {
            format!("fn {}({}) {}", name(x), p.iter().map(name).collect::<Vec<_>>().join(", "), show(b))
        }
        Expr::Return(v) => format!("return {}", show(v)),
        Expr::Call(f, l) => format!("{}({})", show(f), list(l)),
        Expr::ReservedCall(x, l) => format!("{}!({})", name(x), list(l)),
        Expr::If(c, t, e) => format!("if {} {} else {}", show(c), show(t), show(e)),
        Expr::Else(b) => format!("else {}", show(b)),
        Expr::While(c, b) => format!("while {} {}", show(c), show(b)),
    }
}

#[test]
fn double_negation_folds_away() {
    assert_eq!(folded("!!true"), Expr::Val(Value::Bool(true)));
    assert_eq!(folded("- - 5"), num(5));
}

#[test]
fn arithmetic_on_literals_folds() {
    assert_eq!(folded("1 + 2 * 3"), num(7));
    assert_eq!(folded("1 + \"x\""), Expr::Val(Value::Str(b"1x".to_vec())));
    assert_eq!(folded("2 < 3"), Expr::Val(Value::Bool(true)));
    assert_eq!(folded("\"\" || 0"), Expr::Val(Value::Bool(false)));
}

#[test]
fn folded_node_keeps_the_span_of_the_operator() {
    let ast = program("1 + 2");
    assert_eq!(fold::fold(&ast[0]).span, Span { start: 0, end: 5 });
}

#[test]
fn division_by_zero_is_not_folded() {
    match folded("5 / 0") {
        Expr::BnOp(_, Op::Div, _) => {}
        other => panic!("{:?}", other),
    }
    match folded("5 % (1 - 1)") {
        Expr::BnOp(_, Op::Mod, r) => assert_eq!(r.expr, num(0)),
        other => panic!("{:?}", other),
    }
}

#[test]
fn operands_that_are_no_literals_keep_the_operator() {
    let ast = program("x + (1 + 2)");
    assert_eq!(shape(&vec![fold::fold(&ast[0])]), vec!["(x Add 3)"]);
}

#[test]
fn folding_twice_is_folding_once() {
    let src = "let a = 1 + 2 * 3\nif !!true { print(5 / 0, x + (2 - 1)) } else { b = -\"s\" }\nwhile 1 < 2 { fn f(p) = p * (3 + 4) }";
    let mut once = program(src);
    fold::pass(&mut once);
    let mut twice = program(src);
    fold::pass(&mut twice);
    fold::pass(&mut twice);
    assert_eq!(once, twice);
    assert_eq!(shape(&once)[0], "let a = 7");
}

#[test]
fn merge_pairs_an_if_with_the_else_after_it() {
    let mut ast = program("if a { 1 }\nelse { 2 }\nprint(3)");
    merge::pass(&mut ast);
    assert_eq!(shape(&ast), vec!["if a {1} else {2}", "<empty>", "print!(3)"]);
}

#[test]
fn merge_leaves_an_else_without_its_if() {
    let mut ast = program("else { 2 }\nif a { 1 } else { 3 }\nelse { 4 }");
    merge::pass(&mut ast);
    assert_eq!(shape(&ast), vec!["else {2}", "if a {1} else {3}", "else {4}"]);
}

#[test]
fn merge_reaches_into_bodies() {
    let mut ast = program("while c {\n if a { 1 }\n else { 2 }\n}");
    merge::pass(&mut ast);
    assert_eq!(shape(&ast), vec!["while c {if a {1} else {2}, <empty>}"]);
}

#[test]
fn constant_branch_is_unwrapped_in_place() {
    let mut ast = program("print(0)\nif true { let x = 1; } else { let x = 2; }\nprint(x)");
    unwrap::pass(&mut ast);
    assert_eq!(shape(&ast), vec!["print!(0)", "let x = 1", "print!(x)"]);
    let mut memo: Vec<Entry> = Vec::new();
    subs::pass(&mut ast, &mut memo);
    assert_eq!(shape(&ast), vec!["print!(0)", "let x = 1", "print!(1)"]);
    assert_eq!(memo.len(), 1);
    assert_eq!(memo[0].name, b"x".to_vec());
    assert_eq!(memo[0].line, 1);
}

#[test]
fn unwrapping_takes_the_other_branch_when_the_condition_is_false() {
    let mut ast = program("if false { a } else { b\n c }\nif false { d }");
    unwrap::pass(&mut ast);
    assert_eq!(shape(&ast), vec!["b", "c"]);
}

#[test]
fn unwrapping_goes_on_inside_what_it_splices() {
    let mut ast = program("if true { if false { a } else { b } }\nif x { if true { c } }");
    unwrap::pass(&mut ast);
    assert_eq!(shape(&ast), vec!["b", "if x {c} else undefined"]);
}

#[test]
fn propagation_does_not_cross_branches() {
    let mut ast = program("let a = 1\nif c { print(a)\n let b = 2 } else { print(b) }\nprint(a)");
    let mut memo: Vec<Entry> = Vec::new();
    subs::pass(&mut ast, &mut memo);
    assert_eq!(
        shape(&ast),
        vec!["let a = 1", "if c {print!(a), let b = 2} else {print!(b)}", "print!(a)"]
    );
    assert!(memo.is_empty());
}

#[test]
fn propagation_folds_what_it_substitutes() {
    let mut ast = program("let a = 2\nlet b = a * 3\nprint(b + 1, c)");
    let mut memo: Vec<Entry> = Vec::new();
    subs::pass(&mut ast, &mut memo);
    assert_eq!(shape(&ast), vec!["let a = 2", "let b = 6", "print!(7, c)"]);
}

#[test]
fn superseded_store_is_removed() {
    let mut ast = program("let a = 1; a = 2; print(a);");
    cleanup::pass(&mut ast);
    assert_eq!(shape(&ast), vec!["let a = 2", "print!(a)"]);
    assert_eq!(output(&ast), "2\n");
}

#[test]
fn declaration_that_is_never_read_is_removed() {
    let mut ast = program("let b = 5;");
    cleanup::pass(&mut ast);
    assert_eq!(shape(&ast), Vec::<String>::new());
    let mut ast = program("let b = 5; b = 6; b = 7; print(1)");
    cleanup::pass(&mut ast);
    assert_eq!(shape(&ast), vec!["print!(1)"]);
}

#[test]
fn store_that_is_read_stays() {
    let mut ast = program("let a = 1\na = a + 1\nif c { print(a) }\na = 3\nprint(a)");
    cleanup::pass(&mut ast);
    assert_eq!(
        shape(&ast),
        vec!["let a = 1", "a = (a Add 1)", "if c {print!(a)} else undefined", "a = 3", "print!(a)"]
    );
}

#[test]
fn store_to_an_outer_variable_stays_at_the_end_of_a_body() {
    let mut ast = program("let a = 0\nwhile a < 3 {\n let t = 1\n a = 1\n a = a + 1\n}\nprint(a)");
    cleanup::pass(&mut ast);
    assert_eq!(
        shape(&ast),
        vec!["let a = 0", "while (a Lt 3) {a = 1, a = (a Add 1)}", "print!(a)"]
    );
}

#[test]
fn whole_pipeline() {
    let mut ast = program(
        "let a = 1 + 1\nlet unused = 9\nif a == 2 { print(\"two\") }\nelse { print(\"other\") }\nprint(a * 2)",
    );
    let before = output(&ast);
    pass(&mut ast);
    assert_eq!(shape(&ast), vec!["print!(two)", "<empty>", "print!(4)"]);
    assert_eq!(before, "two\nNot implemented\n4\n");
    assert_eq!(output(&ast), "two\n4\n");
}

#[test]
fn folding_does_not_change_what_a_program_writes() {
    let src = "let a = 1 + 2 * 3\n5 / 0\nprint(a, !!true, \"x\" + 1 + 2)\nif 2 > 1 { print(a - 1) } else { print(0) }\nlet i = 0\nwhile i < 1 + 1 { i = i + (2 - 1)\n print(i * (3 + 4)) }";
    let mut ast = program(src);
    let before = output(&ast);
    fold::pass(&mut ast);
    assert_eq!(output(&ast), before);
    assert_eq!(before, "Division by zero\n7 true x12\n6\n7\n14\n");
}

#[test]
fn store_that_a_function_reads_stays() {
    let mut ast = program("let x = 1; fn f() = x; x = 2; print(f())");
    let before = output(&ast);
    cleanup::pass(&mut ast);
    assert_eq!(shape(&ast), vec!["let x = 1", "fn f() return x", "x = 2", "print!(f())"]);
    assert_eq!(output(&ast), before);
    assert_eq!(before, "2\n");
}

#[test]
fn store_stays_when_a_call_that_may_read_it_stands_before_the_next_store() {
    let mut ast = program("let x = 1\nfn f() = x\nx = 2\nlet y = f()\nx = 3\nprint(x, y)");
    let before = output(&ast);
    cleanup::pass(&mut ast);
    assert_eq!(shape(&ast).len(), 6);
    assert_eq!(output(&ast), before);
    assert_eq!(before, "3 2\n");
}

#[test]
fn store_to_an_outer_variable_stays_before_a_call() {
    let mut ast = program("let x = 0\nfn f() = x\nif true {\n x = 1\n print(f())\n x = 2\n}\nprint(x)");
    let before = output(&ast);
    cleanup::pass(&mut ast);
    assert_eq!(output(&ast), before);
    assert_eq!(before, "1\n2\n");
}

#[test]
fn superseded_store_goes_when_no_call_stands_between() {
    let mut ast = program("let x = 1\nx = 2\nfn f() = x\nprint(f())");
    let before = output(&ast);
    cleanup::pass(&mut ast);
    assert_eq!(shape(&ast), vec!["let x = 2", "fn f() return x", "print!(f())"]);
    assert_eq!(output(&ast), before);
}

#[test]
fn pipeline_keeps_what_a_function_reads() {
    let mut ast = program("let x = 1\nfn get() = x\nx = 2\nprint(get())");
    let before = output(&ast);
    pass(&mut ast);
    assert_eq!(output(&ast), before);
    assert_eq!(before, "2\n");
}
