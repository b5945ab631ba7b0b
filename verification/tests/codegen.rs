use micro_c::codegen_ir::IRGenerator;
use micro_c::lexer::Lexer;
use micro_c::parser::Parser;

fn lower(src: &str) -> (String, Vec<String>) {
    let mut p = Parser::new(Lexer::new(src));
    let stmts = p.parse_program();
    let mut g = IRGenerator::new();
    g.gen_program(&stmts);
    let (code, _params, msgs) = g.into_parts();
    (format!("{:?}", code), msgs)
}

#[test]
fn lowers_a_function_to_three_address_code() {
    let (ir, msgs) = lower("fn add(a, b) { return a + b; } export fn main() { let z = add(10, 5); return z; }");
    assert_eq!(
        ir,
        "[Label(\"add\"), LoadVar(\"t0\", \"a\"), LoadVar(\"t1\", \"b\"), Add(\"t2\", \"t0\", \"t1\"), Return(\"t2\"), \
Label(\"main\"), LoadConst(\"t3\", 10), LoadConst(\"t4\", 5), Call(\"t5\", \"add\", [\"t3\", \"t4\"]), StoreVar(\"z\", \"t5\"), \
LoadVar(\"t6\", \"z\"), Return(\"t6\")]"
    );
    assert!(msgs.is_empty());
}

#[test]
fn lowers_if_elif_else_with_fresh_labels() {
    let (ir, _) = lower("if (1) { x = 2; } elif (3) { x = 4; } else { x = 5; }");
    assert_eq!(
        ir,
        "[LoadConst(\"t0\", 1), JumpIfZero(\"t0\", \"L0\"), LoadConst(\"t1\", 2), StoreVar(\"x\", \"t1\"), Jump(\"L1\"), Label(\"L0\"), \
LoadConst(\"t2\", 3), JumpIfZero(\"t2\", \"L2\"), LoadConst(\"t3\", 4), StoreVar(\"x\", \"t3\"), Jump(\"L1\"), Label(\"L2\"), \
LoadConst(\"t4\", 5), StoreVar(\"x\", \"t4\"), Label(\"L1\")]"
    );
}

#[test]
fn lowers_loops_with_break_and_continue() {
    let (ir, msgs) = lower("loop { break; continue; }");
    assert_eq!(ir, "[Label(\"L0\"), Jump(\"L1\"), Jump(\"L0\"), Jump(\"L0\"), Label(\"L1\")]");
    assert!(msgs.is_empty());
}

#[test]
fn reports_break_and_continue_outside_loops() {
    let (ir, msgs) = lower("break; continue;");
    assert_eq!(ir, "[]");
    assert_eq!(msgs, vec!["break outside loop".to_string(), "continue outside loop".to_string()]);
}

#[test]
fn lowers_struct_fields_and_indexes() {
    let (ir, msgs) = lower("struct P { x: i64; y: i64; } let p: ptr = alloc_struct(P); p.y = 7; let v = p.x; a[2] = 1;");
    assert_eq!(
        ir,
        "[StackAlloc(\"t0\", 16), StoreVar(\"p\", \"t0\"), LoadVar(\"t1\", \"p\"), LoadConst(\"t2\", 8), Add(\"t3\", \"t1\", \"t2\"), \
LoadConst(\"t4\", 7), StoreMem(\"t3\", \"t4\"), LoadVar(\"t5\", \"p\"), LoadMem(\"t6\", \"t5\"), StoreVar(\"v\", \"t6\"), \
LoadVar(\"t7\", \"a\"), LoadConst(\"t8\", 2), LoadConst(\"t9\", 8), Mul(\"t9\", \"t8\", \"t9\"), Add(\"t10\", \"t7\", \"t9\"), \
LoadConst(\"t11\", 1), StoreMem(\"t10\", \"t11\")]"
    );
    assert!(msgs.is_empty());
}

#[test]
fn reports_unknown_structs_and_fields() {
    let (ir, msgs) = lower("let p = alloc_struct(Q); q.z = 1;");
    assert_eq!(
        ir,
        "[StackAlloc(\"t0\", 8), StoreVar(\"p\", \"t0\"), LoadVar(\"t1\", \"q\"), LoadConst(\"t2\", 1), StoreMem(\"t1\", \"t2\")]"
    );
    assert_eq!(msgs, vec!["alloc_struct expects a known struct name".to_string(), "unknown field z".to_string()]);
}

#[test]
fn lowers_peek_poke_and_externs() {
    let (ir, _) = lower("extern fn f(a); poke(8, peek(16));");
    assert_eq!(
        ir,
        "[Extern(\"f\"), LoadConst(\"t0\", 8), LoadConst(\"t1\", 16), LoadMem(\"t2\", \"t1\"), StoreMem(\"t0\", \"t2\")]"
    );
}

#[test]
fn every_jump_goes_to_a_label_of_the_code() {
    let mut p = Parser::new(Lexer::new(
        "fn f(n) { let s = 0; loop { if (n == 0) { break; } elif (n == 1) { continue; } else { s = s + n; } n = n - 1; } return s; } \
export fn main() { loop { loop { break; } if (1) { break; } } return f(3); }",
    ));
    let stmts = p.parse_program();
    let mut g = IRGenerator::new();
    g.gen_program(&stmts);
    let (code, _params, msgs) = g.into_parts();
    assert!(msgs.is_empty());
    let text: Vec<String> = code.iter().map(|i| format!("{:?}", i)).collect();
    let mut jumps = 0;
    for t in text.iter() {
        let target = if let Some(rest) = t.strip_prefix("Jump(\"") {
            Some(rest.trim_end_matches("\")").to_string())
        } else if t.starts_with("JumpIfZero(") {
            Some(t.rsplit(", \"").next().unwrap().trim_end_matches("\")").to_string())
        } else {
            None
        };
        if let Some(l) = target {
            jumps += 1;
            assert!(text.contains(&format!("Label({:?})", l)), "no label {}", l);
        }
    }
    assert!(jumps >= 8);
}

#[test]
fn expressions_write_only_fresh_temporaries() {
    let (ir, _) = lower("let a = (1 + 2) * peek(8) - f(3, 4);");
    assert_eq!(
        ir,
        "[LoadConst(\"t0\", 1), LoadConst(\"t1\", 2), Add(\"t2\", \"t0\", \"t1\"), LoadConst(\"t3\", 8), LoadMem(\"t4\", \"t3\"), \
Mul(\"t5\", \"t2\", \"t4\"), LoadConst(\"t6\", 3), LoadConst(\"t7\", 4), Call(\"t8\", \"f\", [\"t6\", \"t7\"]), \
Sub(\"t9\", \"t5\", \"t8\"), StoreVar(\"a\", \"t9\")]"
    );
}
