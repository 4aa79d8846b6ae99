use gahl::ast::TypeValue;
use gahl::checker::check;
use gahl::codegen::{function_params_to_llvm_ir, generate, type_value_to_llvm_ir, VarCounter};
use gahl::docgen::gen_docs;
use gahl::lexer::Lexer;
use gahl::parser::{module, Input};

fn checked(src: &str) -> gahl::mdir::MiddleIR {
    let mut lexer = Lexer::new(src);
    let mut input = Input::new(lexer.lex());
    let m = module(&mut input, "main.gh".to_string());
    let modules = vec![("main.gh".to_string(), m)];
    let (ir, errors) = check(&modules[0].1, &modules);
    assert!(errors.is_empty(), "{:?}", errors);
    ir
}

#[test]
fn types_map_to_backend_types() {
    assert_eq!(type_value_to_llvm_ir(&TypeValue::I32), "i32");
    assert_eq!(type_value_to_llvm_ir(&TypeValue::Void), "void");
    assert_eq!(type_value_to_llvm_ir(&TypeValue::String), "i8*");
    assert_eq!(type_value_to_llvm_ir(&TypeValue::Ptr(Box::new(TypeValue::I8))), "ptr");
}

#[test]
fn parameter_lists() {
    let params = vec![("a".to_string(), TypeValue::I32), ("b".to_string(), TypeValue::String)];
    assert_eq!(function_params_to_llvm_ir(&params), "i32 %a, i8* %b");
    assert_eq!(function_params_to_llvm_ir(&vec![]), "");
}

#[test]
fn counter_hands_out_numbers_in_order() {
    let mut c = VarCounter::new(0);
    assert_eq!(c.use_c(), 0);
    assert_eq!(c.use_c(), 1);
    c.insert("x".to_string(), 7);
    assert_eq!(c.get(&"x".to_string()), Some(7));
    c.insert("x".to_string(), 9);
    assert_eq!(c.get(&"x".to_string()), Some(9));
    assert_eq!(c.get(&"y".to_string()), None);
}

#[test]
fn listing_of_an_arithmetic_function() {
    let ir = checked("puts : extern fn(s: string) i32\nmain : fn(i32, i32) i32\nmain = fn(a b) { a + b * 2 }\n");
    let text = generate(ir, "main".to_string());
    assert!(text.starts_with("target triple = \"x86_64-pc-linux-gnu\"\ndeclare ptr @GC_malloc(i64)\n"));
    assert!(text.contains("declare i32 @puts(i8* %s)\n"));
    assert!(text.contains("define i32 @main(i32 %a, i32 %b) {\nentry:\n"));
    assert!(text.contains("    %0 = mul i32 %b, 2\n"));
    assert!(text.contains("    %1 = add i32 %a, %0\n"));
    assert!(text.contains("    ret i32 %1\n"));
    assert!(text.ends_with("}\n"));
}

#[test]
fn void_function_gets_automatic_return() {
    let ir = checked("main : fn() void\nmain = fn() { x := 3\n x }\n");
    let text = generate(ir, "main".to_string());
    assert!(text.contains("call ptr @GC_malloc(i64 8)"));
    assert!(text.contains("    ; Automatic void return\n    ret void\n}\n"));
}

#[test]
fn empty_function_returns_void() {
    let ir = checked("main : fn() void\nmain = fn() { }\n");
    let text = generate(ir, "main".to_string());
    assert!(text.contains("define void @main() {\nentry:\n    ; Automatic void return\n    ret void\n}\n"));
}

#[test]
fn string_literal_is_materialized() {
    let ir = checked("puts : extern fn(s: string) i32\nmain : fn() void\nmain = fn() { puts(\"hi\") }\n");
    let text = generate(ir, "main".to_string());
    assert!(text.contains("alloca [3 x i8]"));
    assert!(text.contains("c\"hi\\00\""));
    assert!(text.contains("call i32 @puts(i8* %1)"));
}

#[test]
fn docs_list_signatures() {
    let ir = checked("; adds one ;\nmain : fn(i32) i32\nmain = fn(a) { a + 1 }\n");
    let docs = gen_docs(ir);
    assert!(docs.starts_with("main(a : I32)I32 \n\n"));
}

#[test]
fn pointer_locals_are_passed_as_they_are() {
    let ir = checked("g : fn(*i32) void\ng = fn(x) { }\nmain : fn(*i32) void\nmain = fn(q) { p := q\n g(p) }\n");
    let text = generate(ir, "main".to_string());
    assert!(!text.contains("memcpy(ptr"));
    assert!(text.contains(" = call void @g(ptr %"));
}
