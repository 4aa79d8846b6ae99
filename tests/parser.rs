use gahl::ast::{Expr, TypeValue};
use gahl::lexer::{Lexer, TokenKind};
use gahl::parser::{
    expr, function_expr, module, name, parse_int, probe_path, seek_file, separated_identifiers,
    var, Input,
};

fn input_of(text: &str) -> Input {
    let mut lexer = Lexer::new(text);
    let tokens = lexer.lex();
    Input::new(tokens)
}

#[test]
fn test_name_parser() {
    let mut input = input_of("std.fs.open");
    let (name, errors, is_eof) = name(&mut input);
    assert_eq!(errors.len(), 0);
    assert_eq!(is_eof, false);
    assert_eq!(name.name, vec!["std".to_string(), "fs".to_string(), "open".to_string()]);
}

#[test]
fn test_separated_identifiers_parser() {
    let mut input = input_of("user, summary");
    let (identifiers, errors, is_eof) = separated_identifiers(&mut input);
    assert_eq!(errors.len(), 0);
    assert_eq!(is_eof, false);
    assert_eq!(identifiers, vec!["user".to_string(), "summary".to_string()]);
}

#[test]
fn test_function_parser() {
    let mut input = input_of("fn (a b)");
    let (func, errors, _is_eof) = function_expr(&mut input);
    assert_eq!(errors.len(), 0);
    assert_eq!(func.args, vec!["a".to_string(), "b".to_string()]);
}

#[test]
fn test_expr_parser() {
    let mut input = input_of("(5 * 64) / 2 * 5 + 3 ^ 2");
    let (e, errors, _is_eof) = expr(&mut input);
    assert_eq!(errors.len(), 0);
    assert!(matches!(e, Expr::Add(_, _, _)));
}

#[test]
fn test_function_call() {
    let mut input = input_of("function(b)");
    let (e, errors, _is_eof) = expr(&mut input);
    assert_eq!(errors.len(), 0);
    match e {
        Expr::FuncCall(n, args, _) => {
            assert_eq!(n.name, vec!["function".to_string()]);
            assert_eq!(args.len(), 1);
        }
        _ => panic!("expected a call"),
    }
}

#[test]
fn test_var_parser() {
    let mut input = input_of("a := (50 * 2) / 5");
    let (v, is_eof) = var(&mut input);
    assert_eq!(v.errors.len(), 0);
    assert_eq!(is_eof, false);
    assert!(v.is_decl);
    assert!(matches!(v.rhs, Expr::Div(_, _, _)));
}

#[test]
fn name_ending_in_dot_is_an_error() {
    let mut input = input_of("std.fs.");
    let (n, errors, _) = name(&mut input);
    assert_eq!(errors.len(), 1);
    assert_eq!(n.name.len(), 2);
}

#[test]
fn separated_identifiers_trailing_comma() {
    let mut input = input_of("a, b,");
    let (ids, errors, _) = separated_identifiers(&mut input);
    assert_eq!(ids.len(), 2);
    assert_eq!(errors.len(), 1);
}

#[test]
fn separated_identifiers_on_empty_input() {
    let mut input = input_of("");
    let (ids, errors, is_eof) = separated_identifiers(&mut input);
    assert!(ids.is_empty());
    assert!(errors.is_empty());
    assert!(is_eof);
}

#[test]
fn lexer_kinds_and_literals() {
    let mut lexer = Lexer::new("x := 42 + \"hi\"");
    let tokens = lexer.lex();
    let kinds: Vec<TokenKind> = tokens.iter().map(|t| t.kind()).collect();
    assert_eq!(
        kinds,
        vec![TokenKind::Identifier, TokenKind::Coleq, TokenKind::Integer, TokenKind::Add, TokenKind::String]
    );
    assert_eq!(tokens[2].literal(), "42");
    assert_eq!(tokens[4].literal(), "\"hi\"");
    assert_eq!(tokens[2].pos(), (5, 7));
}

#[test]
fn parse_int_values() {
    assert_eq!(parse_int(&"42".to_string()), Some(42));
    assert_eq!(parse_int(&"0".to_string()), Some(0));
    assert_eq!(parse_int(&"".to_string()), None);
    assert_eq!(parse_int(&"4a".to_string()), None);
    assert_eq!(parse_int(&"170141183460469231731687303715884105727".to_string()), Some(i128::MAX));
    assert_eq!(parse_int(&"170141183460469231731687303715884105728".to_string()), None);
}

#[test]
fn seek_file_symbol_or_module() {
    let mut input = input_of("std.fs.open");
    let (n, _, _) = name(&mut input);
    assert_eq!(probe_path(&n), Some("std/fs.gh".to_string()));
    assert_eq!(seek_file(&n, true), ("std/fs.gh".to_string(), Some("open".to_string())));
    assert_eq!(seek_file(&n, false), ("std/fs/open.gh".to_string(), None));
    let mut input = input_of("main");
    let (m, _, _) = name(&mut input);
    assert_eq!(probe_path(&m), None);
    assert_eq!(seek_file(&m, false), ("main.gh".to_string(), None));
}

#[test]
fn module_tables() {
    let src = "import { a.b c }\nf : fn(i32) i32\nf = fn(x) { x }\nputs : extern fn(s: string) i32\n";
    let mut input = input_of(src);
    let m = module(&mut input, "main.gh".to_string());
    assert_eq!(m.fn_decls.len(), 1);
    assert_eq!(m.fn_defns.len(), 1);
    assert_eq!(m.externs.len(), 1);
    assert_eq!(m.externs[0].0, "puts");
    assert_eq!(m.externs[0].1 .0.len(), 1);
    assert!(m.externs[0].1 .1 == TypeValue::I32);
    assert_eq!(input.requests.len(), 2);
    assert!(m.imports.is_some());
}

#[test]
fn unexpected_token_is_reported_and_skipped() {
    let src = "main : fn() void\nmain = fn() { ] 1 }\n";
    let mut input = input_of(src);
    let m = module(&mut input, "main.gh".to_string());
    assert_eq!(m.fn_defns.len(), 1);
    assert!(m.fn_defns[0].1 .0.errors.len() >= 1);
}
