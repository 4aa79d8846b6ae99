use gahl::lexer::Lexer;
use gahl::parser::{link_imports, module, probe_path, Input};
use gahl::resolver::{Action, Parser, Resolver};

/// Parses `src` as the file `path`, linking its imports as if every probed prefix were
/// a file only when listed in `files`.
fn parse_file(path: &str, src: &str, files: &[&str]) -> gahl::ast::Module {
    let mut lexer = Lexer::new(src);
    let mut input = Input::new(lexer.lex());
    let mut m = module(&mut input, path.to_string());
    let probes: Vec<bool> = input
        .requests
        .iter()
        .map(|n| match probe_path(n) {
            Some(p) => files.contains(&p.as_str()),
            None => false,
        })
        .collect();
    link_imports(&mut m, &input.requests, &probes);
    m
}

fn source_of(path: &str) -> &'static str {
    match path {
        "main.gh" => "import { a }\nmain : fn() void\nmain = fn() { }\n",
        "a.gh" => "import { b }\nf : fn() void\nf = fn() { }\n",
        "b.gh" => "g : fn() void\ng = fn() { }\n",
        _ => panic!("no file {}", path),
    }
}

#[test]
fn three_module_chain_closes() {
    let parser = Parser::new("main.gh");
    let mut r: Resolver = parser.resolver();
    assert_eq!(r.block_counter, 1);
    let mut steps = 0;
    loop {
        steps += 1;
        assert!(steps < 20);
        match r.next_action() {
            Action::Parse(path) => {
                let m = parse_file(&path, source_of(&path), &[]);
                assert!(r.finish_task(&path, m));
            }
            Action::Wait => panic!("nothing is running"),
            Action::Done => break,
        }
    }
    assert_eq!(r.task_counter, 0);
    assert_eq!(r.block_counter, 0);
    let modules = r.into_modules();
    let names: Vec<String> = modules.iter().map(|(p, _)| p.clone()).collect();
    assert_eq!(names, vec!["main.gh", "a.gh", "b.gh"]);
}

#[test]
fn tasks_may_finish_out_of_order() {
    let mut r = Resolver::new("main");
    let first = match r.next_action() {
        Action::Parse(p) => p,
        _ => panic!("expected a task"),
    };
    assert_eq!(first, "main.gh");
    assert!(r.finish_task(&first, parse_file(&first, "import { a b }\n", &[])));
    assert_eq!(r.block_counter, 3);
    let a = match r.next_action() {
        Action::Parse(p) => p,
        _ => panic!("expected a task"),
    };
    let b = match r.next_action() {
        Action::Parse(p) => p,
        _ => panic!("expected a task"),
    };
    assert_eq!(r.task_counter, 2);
    assert!(matches!(r.next_action(), Action::Wait));
    assert!(r.finish_task(&b, parse_file(&b, "x : fn() void\n", &[])));
    assert!(r.finish_task(&a, parse_file(&a, "import { b }\n", &[])));
    assert!(matches!(r.next_action(), Action::Done));
    assert_eq!(r.into_modules().len(), 3);
}

#[test]
fn unknown_task_is_refused() {
    let mut r = Resolver::new("main.gh");
    assert!(!r.finish_task(&"other.gh".to_string(), parse_file("other.gh", "", &[])));
    assert_eq!(r.block_counter, 1);
}

#[test]
fn shared_import_is_parsed_once() {
    let source = |p: &str| -> &'static str {
        match p {
            "main.gh" => "import { a b }\n",
            "a.gh" => "import { c }\n",
            "b.gh" => "import { c }\n",
            "c.gh" => "x : fn() void\n",
            _ => panic!("no file {}", p),
        }
    };
    let mut r = Resolver::new("main.gh");
    let mut parsed: Vec<String> = vec![];
    loop {
        match r.next_action() {
            Action::Parse(path) => {
                parsed.push(path.clone());
                let m = parse_file(&path, source(&path), &[]);
                assert!(r.finish_task(&path, m));
            }
            Action::Wait => panic!("nothing is running"),
            Action::Done => break,
        }
    }
    assert_eq!(parsed, vec!["main.gh", "a.gh", "b.gh", "c.gh"]);
    assert_eq!(r.into_modules().len(), 4);
}
