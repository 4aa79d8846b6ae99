use gahl::ast::{Expr, Location, Name, Stmt, TypeValue};
use gahl::checker::{check, Analyzer, Checker};
use gahl::lexer::Lexer;
use gahl::mdir::{shunting_yard_this_mf, Expression, Literal, Statement};
use gahl::parser::{module, Input};

fn parse(src: &str, path: &str) -> gahl::ast::Module {
    let mut lexer = Lexer::new(src);
    let tokens = lexer.lex();
    let mut input = Input::new(tokens);
    module(&mut input, path.to_string())
}

fn lit(name: &str) -> Expression {
    Expression::Literal(Literal::Identifier(TypeValue::I32, name.to_string(), true))
}

fn lit_name(e: &Expression) -> String {
    match e {
        Expression::Literal(Literal::Identifier(_, n, _)) => n.clone(),
        Expression::Add => "+".to_string(),
        Expression::Mul => "*".to_string(),
        other => format!("{:?}", other),
    }
}

#[test]
fn precedence_reorders_operators() {
    let out = shunting_yard_this_mf(vec![lit("a"), Expression::Add, lit("b"), Expression::Mul, lit("c")]);
    let names: Vec<String> = out.iter().map(lit_name).collect();
    assert_eq!(names, vec!["a", "b", "c", "*", "+"]);
}

#[test]
fn parentheses_group_first() {
    let out = shunting_yard_this_mf(vec![
        Expression::LParen,
        lit("a"),
        Expression::Add,
        lit("b"),
        Expression::RParen,
        Expression::Mul,
        lit("c"),
    ]);
    let names: Vec<String> = out.iter().map(lit_name).collect();
    assert_eq!(names, vec!["a", "b", "+", "c", "*"]);
}

#[test]
fn same_precedence_groups_left() {
    let out = shunting_yard_this_mf(vec![lit("a"), Expression::Min, lit("b"), Expression::Add, lit("c")]);
    assert_eq!(out.len(), 5);
    assert!(matches!(out[2], Expression::Min));
    assert!(matches!(out[4], Expression::Add));
}

#[test]
fn integer_statement_round_trip() {
    let m = parse("main : fn() i32\nmain = fn() { 42 }\n", "main.gh");
    let modules = vec![("main.gh".to_string(), m)];
    let (ir, errors) = check(&modules[0].1, &modules);
    assert!(errors.is_empty());
    let f = &ir.functions()[0];
    assert_eq!(f.block.len(), 1);
    match &f.block[0] {
        Statement::Expr(stream) => {
            assert_eq!(stream.len(), 1);
            match &stream[0] {
                Expression::Literal(Literal::Int(t, text)) => {
                    assert!(*t == TypeValue::I32);
                    assert_eq!(text, "42");
                }
                other => panic!("unexpected {:?}", other),
            }
        }
        other => panic!("unexpected {:?}", other),
    }
}

#[test]
fn int_plus_string_is_one_mismatch() {
    let m = parse("main : fn() void\nmain = fn() { 1 + \"x\" }\n", "main.gh");
    let modules = vec![("main.gh".to_string(), m)];
    let (ir, errors) = check(&modules[0].1, &modules);
    assert_eq!(errors.len(), 1);
    assert!(errors[0].message.contains("I32"));
    assert!(errors[0].message.contains("String"));
    match &ir.functions()[0].block[0] {
        Statement::Expr(stream) => assert!(stream.is_empty()),
        other => panic!("unexpected {:?}", other),
    }
}

#[test]
fn undefined_identifier_then_declared() {
    let m = parse("main : fn() void\nmain = fn() { a }\n", "main.gh");
    let modules = vec![("main.gh".to_string(), m)];
    let (_, errors) = check(&modules[0].1, &modules);
    assert_eq!(errors.len(), 1);
    assert!(errors[0].message.contains("undefined at this point"));

    let m = parse("main : fn() void\nmain = fn() { a := 5\n a }\n", "main.gh");
    let modules = vec![("main.gh".to_string(), m)];
    let (ir, errors) = check(&modules[0].1, &modules);
    assert!(errors.is_empty());
    assert_eq!(ir.functions()[0].block.len(), 2);
}

#[test]
fn local_declaration_wins_over_extern() {
    let src = "f : fn() i32\nf = fn() { 1 }\nmain : fn() i32\nmain = fn() { f() }\n";
    let mut m = parse(src, "main.gh");
    m.externs.push(("f".to_string(), (vec![], TypeValue::String)));
    assert_eq!(m.externs.len(), 1);
    let modules = vec![("main.gh".to_string(), m)];
    let (ir, errors) = check(&modules[0].1, &modules);
    assert!(errors.is_empty());
    let main = ir.functions().iter().find(|f| f.name == "main").unwrap();
    match &main.block[0] {
        Statement::Expr(stream) => match &stream[0] {
            Expression::Literal(Literal::Call(t, n, _)) => {
                assert!(*t == TypeValue::I32);
                assert_eq!(n, "f");
            }
            other => panic!("unexpected {:?}", other),
        },
        other => panic!("unexpected {:?}", other),
    }
}

#[test]
fn checking_twice_gives_the_same_result() {
    let src = "main : fn(i32) i32\nmain = fn(x) { y := x * 2\n y + 1 }\n";
    let m = parse(src, "main.gh");
    let modules = vec![("main.gh".to_string(), m)];
    let (first, e1) = check(&modules[0].1, &modules);
    let (second, e2) = check(&modules[0].1, &modules);
    assert!(e1.is_empty());
    assert!(e2.is_empty());
    assert_eq!(format!("{:?}", first), format!("{:?}", second));
}

#[test]
fn definition_without_declaration() {
    let m = parse("main = fn() { 1 }\n", "main.gh");
    let modules = vec![("main.gh".to_string(), m)];
    let (ir, errors) = check(&modules[0].1, &modules);
    assert_eq!(errors.len(), 1);
    assert!(errors[0].message.contains("No function declaration found"));
    assert!(ir.functions().is_empty());
}

#[test]
fn argument_type_and_arity_errors() {
    let src = "g : fn(i32) i32\ng = fn(n) { n }\nmain : fn() void\nmain = fn() { g(\"s\")\n g(1, 2) }\n";
    let m = parse(src, "main.gh");
    let modules = vec![("main.gh".to_string(), m)];
    let (_, errors) = check(&modules[0].1, &modules);
    assert_eq!(errors.len(), 2);
    assert!(errors[0].message.contains("Argument `n`"));
    assert!(errors[1].message.contains("expects 1 arguments but found 2"));
}

#[test]
fn unresolved_call_and_bad_assignment() {
    let src = "main : fn() void\nmain = fn() { nope()\n z = 3 }\n";
    let m = parse(src, "main.gh");
    let modules = vec![("main.gh".to_string(), m)];
    let (_, errors) = check(&modules[0].1, &modules);
    assert_eq!(errors.len(), 2);
    assert!(errors[0].message.contains("could not be resolved"));
    assert!(errors[1].message.contains("never declared"));
}

#[test]
fn parameter_count_mismatch() {
    let m = parse("main : fn(i32, i32) void\nmain = fn(a) { a }\n", "main.gh");
    let modules = vec![("main.gh".to_string(), m)];
    let (_, errors) = check(&modules[0].1, &modules);
    assert_eq!(errors.len(), 1);
    assert!(errors[0].message.contains("declares 2 parameters"));
}

#[test]
fn imported_function_resolves() {
    let mut a = parse("twice : fn(i32) i32\ntwice = fn(n) { n * 2 }\n", "a.gh");
    let mut main = parse("import { a.twice }\nmain : fn() i32\nmain = fn() { twice(4) }\n", "main.gh");
    let mut lexer = Lexer::new("a.twice");
    let mut input = Input::new(lexer.lex());
    let (n, _, _) = gahl::parser::name(&mut input);
    gahl::parser::link_imports(&mut main, &vec![n], &vec![true]);
    gahl::parser::link_imports(&mut a, &vec![], &vec![]);
    let modules = vec![("main.gh".to_string(), main), ("a.gh".to_string(), a)];
    let mut analyzer = Analyzer::new();
    let checked = analyzer.analyze(&modules).ok().unwrap();
    assert_eq!(checked.len(), 2);
    assert_eq!(checked[0].1.imported_functions().len(), 1);
    assert_eq!(checked[0].1.imported_functions()[0].0, "twice");
}

#[test]
fn checker_scope_stack() {
    let module = parse("", "main.gh");
    let modules: Vec<(String, gahl::ast::Module)> = vec![];
    let mut checker = Checker::new(&module, &modules);
    checker.push_stack();
    assert!(checker.get_symbol(&"x".to_string()).is_none());
    let (stream, ty) = checker.expr_ty(&Expr::Int(7, Location::default()));
    assert_eq!(stream.len(), 1);
    assert!(ty == TypeValue::I32);
    let (stream, ty) = checker.expr_ty(&Expr::Identifier(
        Name::new(vec!["x".to_string()], Location::default()),
        Location::default(),
    ));
    assert!(stream.is_empty());
    assert!(ty == TypeValue::Undefined);
    assert_eq!(checker.errors().len(), 1);
    let s = checker.stmt_ty(&Stmt::Expr(Expr::Int(-3, Location::default()), vec![]));
    match s {
        Some(Statement::Expr(st)) => match &st[0] {
            Expression::Literal(Literal::Int(_, text)) => assert_eq!(text, "-3"),
            other => panic!("unexpected {:?}", other),
        },
        other => panic!("unexpected {:?}", other),
    }
    checker.pop_stack();
}

#[test]
fn negation_is_reported_as_unsupported() {
    let m = parse("main : fn() i32\nmain = fn() { -1 }\n", "main.gh");
    let modules = vec![("main.gh".to_string(), m)];
    let (_, errors) = check(&modules[0].1, &modules);
    assert_eq!(errors.len(), 1);
    assert!(errors[0].message.contains("not supported"));
}

#[test]
fn definition_against_a_non_function_type() {
    let module = parse("", "main.gh");
    let modules: Vec<(String, gahl::ast::Module)> = vec![];
    let mut checker = Checker::new(&module, &modules);
    let node = gahl::ast::FuncNode::default();
    let f = checker.fn_ty(&"main".to_string(), &node, &gahl::ast::Type::default());
    assert_eq!(f.name, "main");
    assert!(f.block.is_empty());
    assert_eq!(checker.errors().len(), 1);
    assert!(checker.errors()[0].message.contains("is not a function type"));
}

#[test]
fn extern_declaration_replaces_local_name() {
    let m = parse("f : fn() i32\nf = fn() { 1 }\nf : extern fn() string\n", "main.gh");
    assert_eq!(m.externs.len(), 1);
    assert!(m.fn_decls.is_empty());
    assert!(m.fn_defns.is_empty());
}
