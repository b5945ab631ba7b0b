use micro_c::lexer::Lexer;
use micro_c::parser::Parser;

fn parse(src: &str) -> (String, Vec<String>) {
    let mut p = Parser::new(Lexer::new(src));
    let stmts = p.parse_program();
    (format!("{:?}", stmts), p.into_messages())
}

#[test]
fn multiplication_binds_tighter_than_addition() {
    let (ast, errs) = parse("let a = 2 + 3 * 4;");
    assert_eq!(
        ast,
        "[Let { name: \"a\", ty: None, value: Binary(Number(2), Add, Binary(Number(3), Mul, Number(4))) }]"
    );
    assert!(errs.is_empty());
}

#[test]
fn subtraction_groups_to_the_left() {
    let (ast, _) = parse("let c = 10 - 5 - 2;");
    assert_eq!(
        ast,
        "[Let { name: \"c\", ty: None, value: Binary(Binary(Number(10), Sub, Number(5)), Sub, Number(2)) }]"
    );
}

#[test]
fn comparison_binds_looser_than_addition() {
    let (ast, _) = parse("let d = 10 > 5 + 2;");
    assert_eq!(
        ast,
        "[Let { name: \"d\", ty: None, value: Binary(Number(10), Gt, Binary(Number(5), Add, Number(2))) }]"
    );
}

#[test]
fn parses_functions() {
    let (ast, errs) = parse("fn add(a, b) { return a + b; } export fn main() { let z: i64 = add(10, 5); return z; }");
    assert_eq!(
        ast,
        "[Function { name: \"add\", params: [\"a\", \"b\"], body: [Return(Binary(Variable(\"a\"), Add, Variable(\"b\")))], export: false }, \
Function { name: \"main\", params: [], body: [Let { name: \"z\", ty: Some(I64), value: Call(\"add\", [Number(10), Number(5)]) }, Return(Variable(\"z\"))], export: true }]"
    );
    assert!(errs.is_empty());
}

#[test]
fn parses_structs_fields_indexes_and_memory() {
    let (ast, errs) = parse("struct P { x: i64; y: bool; } p.x = peek(8); arr[1] = 2; poke(16, p.y); x = 3;");
    assert_eq!(
        ast,
        "[Struct { name: \"P\", fields: [(\"x\", I64), (\"y\", Bool)] }, \
AssignField { base: Variable(\"p\"), field: \"x\", value: Peek(Number(8)) }, \
AssignIndex { base: Variable(\"arr\"), index: Number(1), value: Number(2) }, \
Poke(Number(16), Field(Variable(\"p\"), \"y\")), \
Assign(\"x\", Number(3))]"
    );
    assert!(errs.is_empty());
}

#[test]
fn parses_if_elif_else_and_loops() {
    let (ast, errs) = parse("if (a) { break; } elif (b) { continue; } else { return 1; } loop { }");
    assert_eq!(
        ast,
        "[If { cond: Variable(\"a\"), then_branch: [Break], elif: [(Variable(\"b\"), [Continue])], else_branch: Some([Return(Number(1))]) }, Loop([])]"
    );
    assert!(errs.is_empty());
}

#[test]
fn parses_extern_declarations() {
    let (ast, errs) = parse("extern fn host_add(a, b);");
    assert_eq!(ast, "[ExternFunction { name: \"host_add\", params: [\"a\", \"b\"] }]");
    assert!(errs.is_empty());
}

#[test]
fn reports_a_missing_semicolon() {
    let (_, errs) = parse("let a = 1 let b = 2;");
    assert_eq!(errs.len(), 1);
    assert!(errs[0].starts_with("(@0x4), Expected Semicolon, got Let"));
}

#[test]
fn include_appends_the_library_to_the_input() {
    let (ast, errs) = parse("#include <Sys>\nexport fn main() { return 0; }");
    assert_eq!(
        ast,
        "[Import { name: \"Sys\" }, Function { name: \"main\", params: [], body: [Return(Number(0))], export: true }, \
ExternFunction { name: \"printf\", params: [\"fmt\", \"value\"] }, ExternFunction { name: \"malloc\", params: [\"size\"] }, \
ExternFunction { name: \"free\", params: [\"ptr\"] }]"
    );
    assert!(errs.is_empty());
}

#[test]
fn include_as_the_last_line_still_brings_the_library() {
    let (ast, errs) = parse("export fn main() { return 0; }\n#include <sys>");
    assert_eq!(
        ast,
        "[Function { name: \"main\", params: [], body: [Return(Number(0))], export: true }, Import { name: \"sys\" }, \
ExternFunction { name: \"printf\", params: [\"fmt\", \"value\"] }, ExternFunction { name: \"malloc\", params: [\"size\"] }, \
ExternFunction { name: \"free\", params: [\"ptr\"] }]"
    );
    assert!(errs.is_empty());
}

#[test]
fn include_of_an_unknown_library_is_reported() {
    let (ast, errs) = parse("#include <net.http>\nlet a = 1;");
    assert_eq!(
        ast,
        "[Import { name: \"net.http\" }, Let { name: \"a\", ty: None, value: Number(1) }]"
    );
    assert_eq!(errs, vec!["cant open file net.http".to_string()]);
}

#[test]
fn all_comparisons_share_one_level_and_group_to_the_left() {
    let (ast, errs) = parse("let e = 1 == 2 < 3; let f = 1 < 2 == 1; let g = 1 != 2 >= 3 <= 4;");
    assert_eq!(
        ast,
        "[Let { name: \"e\", ty: None, value: Binary(Binary(Number(1), Eq, Number(2)), Lt, Number(3)) }, \
Let { name: \"f\", ty: None, value: Binary(Binary(Number(1), Lt, Number(2)), Eq, Number(1)) }, \
Let { name: \"g\", ty: None, value: Binary(Binary(Binary(Number(1), Neq, Number(2)), GtEq, Number(3)), LtEq, Number(4)) }]"
    );
    assert!(errs.is_empty());
}

#[test]
fn a_leading_minus_negates() {
    let (ast, errs) = parse("let n = -42; let m = -(a); let k = 3 - -2; let j = -x * 2;");
    assert_eq!(
        ast,
        "[Let { name: \"n\", ty: None, value: Number(-42) }, \
Let { name: \"m\", ty: None, value: Binary(Number(0), Sub, Variable(\"a\")) }, \
Let { name: \"k\", ty: None, value: Binary(Number(3), Sub, Number(-2)) }, \
Let { name: \"j\", ty: None, value: Binary(Binary(Number(0), Sub, Variable(\"x\")), Mul, Number(2)) }]"
    );
    assert!(errs.is_empty());
}

#[test]
fn reports_what_a_declaration_is_missing() {
    assert_eq!(parse("let 5 = 1;").1[0], "Expected identifier");
    assert_eq!(parse("let a: 5 = 1;").1[0], "Expected type");
    assert_eq!(parse("struct 5 {}").1[0], "Expected struct name");
    assert_eq!(parse("struct P { 5 }").1[0], "Expected field name");
    assert_eq!(parse("fn 5() {}").1[0], "Expected function name");
}

#[test]
fn reports_a_missing_field_name_and_an_unexpected_token() {
    assert_eq!(parse("a.5;").1, vec!["(@0x2) Expected field name\n 5 ;\n ^".to_string()]);
    assert_eq!(parse(");").1, vec!["(@0x0) Unexpected token: )\n ) ;\n ^".to_string()]);
}
