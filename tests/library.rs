use gahl::ast::{Location, Name, PhantomName, Type, TypeValue};
use gahl::checker::Analyzer;
use gahl::config::{libs_of, Clib, Clibs, Config, Project};
use gahl::lexer::{Lexer, TokenKind};
use gahl::mdir::{Expression, Literal};
use gahl::parser::{parse_enum, Input};
use gahl::text::{count_text, push_type_name, signed_text};

fn input_of(text: &str) -> Input {
    let mut lexer = Lexer::new(text);
    Input::new(lexer.lex())
}

#[test]
fn name_from_path_and_back() {
    let n = Name::from_path("src/lib/main.gh");
    assert_eq!(n.name, vec!["src".to_string(), "lib".to_string(), "main.gh".to_string()]);
    assert_eq!(n.to_string(), "src/lib/main.gh");
    let single = Name::from_path("main.gh");
    assert_eq!(single.name.len(), 1);
    let empty = Name::from_path("");
    assert_eq!(empty.name, vec!["".to_string()]);
}

#[test]
fn phantom_name_and_defaults() {
    let p = PhantomName::new_single("tmp".to_string(), None);
    assert_eq!(p.name, vec!["tmp".to_string()]);
    assert!(p.location.is_none());
    let t = Type::default();
    assert!(t.type_value == TypeValue::Void);
    let l = Location::default();
    assert_eq!(l.span, (0, 0));
}

#[test]
fn type_equality_is_structural() {
    let a = TypeValue::Func(vec![TypeValue::I32, TypeValue::Ptr(Box::new(TypeValue::U8))], Box::new(TypeValue::Void), false);
    let b = a.copy();
    assert!(a == b);
    let c = TypeValue::Func(vec![TypeValue::I32], Box::new(TypeValue::Void), false);
    assert!(a != c);
    assert!(TypeValue::Custom("x".to_string()) != TypeValue::Custom("y".to_string()));
}

#[test]
fn type_names() {
    let mut s = String::new();
    push_type_name(&mut s, &TypeValue::Func(vec![TypeValue::I32, TypeValue::String], Box::new(TypeValue::Bool), false));
    assert_eq!(s, "Func([I32, String], Bool, false)");
    let mut e = String::new();
    push_type_name(&mut e, &TypeValue::ExFunc(vec![("s".to_string(), TypeValue::String)], Box::new(TypeValue::I32)));
    assert_eq!(e, "ExFunc([s: String], I32)");
}

#[test]
fn decimal_texts() {
    assert_eq!(signed_text(0), "0");
    assert_eq!(signed_text(-45), "-45");
    assert_eq!(signed_text(i128::MIN), "-170141183460469231731687303715884105728");
    assert_eq!(count_text(1234), "1234");
}

#[test]
fn stream_items_shown() {
    assert_eq!(Expression::Add.to_string(), "add");
    assert_eq!(Expression::Pow.to_string(), "pow");
    assert_eq!(Literal::Identifier(TypeValue::I32, "x".to_string(), false).to_string(), "%x");
    assert_eq!(Literal::Int(TypeValue::I32, "4".to_string()).to_string(), "4\0");
    assert_eq!(Expression::Literal(Literal::String("s".to_string())).to_string(), "\"%s\"");
    assert_eq!(Expression::Mul.precedence(), 2);
    assert!(Expression::Div.is_op());
    assert!(!Expression::LParen.is_op());
}

#[test]
fn library_paths_in_order() {
    let config = Config {
        project: Project { name: "p".to_string(), author: "a".to_string(), exec_entry: "main.gh".to_string() },
        clibs: Some(Clibs {
            clibs: vec![
                Clib { name: "m".to_string(), path: "libm.a".to_string(), flags: vec![] },
                Clib { name: "c".to_string(), path: "libc.a".to_string(), flags: vec![] },
            ],
        }),
    };
    assert_eq!(libs_of(&config), vec!["libm.a".to_string(), "libc.a".to_string()]);
    let none = Config { project: config.project, clibs: None };
    assert!(libs_of(&none).is_empty());
}

#[test]
fn analyzer_reports_failing_modules() {
    let mut lexer = Lexer::new("main : fn() void\nmain = fn() { q }\n");
    let mut input = Input::new(lexer.lex());
    let m = gahl::parser::module(&mut input, "main.gh".to_string());
    let modules = vec![("main.gh".to_string(), m)];
    let mut analyzer = Analyzer::new();
    match analyzer.analyze(&modules) {
        Err(failed) => {
            assert_eq!(failed.len(), 1);
            assert_eq!(failed[0].0, "main.gh");
            assert_eq!(failed[0].1.len(), 1);
        }
        Ok(_) => panic!("expected errors"),
    }
}

#[test]
fn input_lookahead() {
    let mut input = input_of("a := b");
    assert!(input.match_pattern(vec![TokenKind::Identifier, TokenKind::Coleq]));
    assert!(!input.match_pattern(vec![TokenKind::Coleq]));
    assert_eq!(input.peek_vec(3).map(|v| v.len()), Some(3));
    assert!(input.peek_vec(4).is_none());
    assert_eq!(input.peek_x(2).map(|t| t.kind()), Some(TokenKind::Identifier));
    assert!(input.expect(TokenKind::Coleq).is_err());
    match input.expect(TokenKind::Identifier) {
        Ok(Some(t)) => assert_eq!(t.literal(), "a"),
        _ => panic!("expected the identifier"),
    }
    assert_eq!(input.eat_x(0).map(|t| t.kind()), Some(TokenKind::Coleq));
    assert!(input.eat().is_some());
    assert!(input.eat().is_some());
    assert!(input.eat().is_none());
    assert!(matches!(input.expect(TokenKind::Identifier), Ok(None)));
}

#[test]
fn recovery_stops_at_a_pattern() {
    let mut input = input_of("1 2 ) x");
    let found = input.recover_to_stmt_breaks(vec![vec![TokenKind::ClosedParen]]).map(|t| t.kind());
    assert_eq!(found, Some(TokenKind::Identifier));
    let mut after = input_of("a , .");
    let next = after.recover_to_stmt_breaks(vec![vec![TokenKind::Identifier]]).map(|t| t.kind());
    assert_eq!(next, Some(TokenKind::Comma));
    let mut none = input_of("1 2");
    assert!(none.recover_to_stmt_breaks(vec![vec![TokenKind::ClosedParen]]).is_none());
}

#[test]
fn enum_declarations() {
    let mut input = input_of("enum Shape | Circle i32 | Empty");
    let (decl, errors, _) = parse_enum(&mut input);
    assert!(errors.is_empty());
    assert_eq!(decl.0.len(), 2);
    assert_eq!(decl.0[0].0, "Circle");
    assert!(decl.0[0].1[0] == TypeValue::I32);
    assert!(decl.0[1].1[0] == TypeValue::EnumVariant("Empty".to_string()));
}
