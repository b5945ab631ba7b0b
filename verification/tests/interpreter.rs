use micro_c::interpreter::Interpreter;
use micro_c::lexer::Lexer;
use micro_c::parser::Parser;

fn run(src: &str) -> i64 {
    let mut p = Parser::new(Lexer::new(src));
    let stmts = p.parse_program();
    let mut it = Interpreter::new();
    it.run(&stmts)
}

#[test]
fn runs_simple_arithmetic() {
    let src = "fn add(a, b) { return a + b; } fn multiply(a, b) { return a * b; } \
export fn main() { let x = add(10, 5); let y = multiply(x, 2); return y; }";
    assert_eq!(run(src), 30);
}

#[test]
fn runs_recursion() {
    let src = "fn factorial(n) { if (n == 0) { return 1; } return n * factorial(n - 1); } \
export fn main() { let result = factorial(5); return result; }";
    assert_eq!(run(src), 120);
}

#[test]
fn runs_elif_chains() {
    let src = "fn grade_letter(score) { if (score >= 90) { return 65; } elif (score >= 80) { return 66; } \
elif (score >= 70) { return 67; } elif (score >= 60) { return 68; } else { return 70; } } \
export fn main() { let s1 = grade_letter(95); let s2 = grade_letter(75); let s3 = grade_letter(55); return s1 + s2 + s3; }";
    assert_eq!(run(src), 202);
}

#[test]
fn runs_loops_with_break_and_continue() {
    let src = "export fn main() { let i = 0; let sum = 0; loop { i = i + 1; if (i > 100) { break; } \
if (i == 50) { continue; } sum = sum + i; } return sum; }";
    assert_eq!(run(src), 5000);
}

#[test]
fn peek_reads_what_poke_wrote() {
    assert_eq!(run("export fn main() { poke(4096, 42); return peek(4096); }"), 42);
    assert_eq!(run("export fn main() { return peek(7); }"), 0);
}

#[test]
fn indexes_and_struct_fields_read_back_writes() {
    let src = "struct Point { x: i64; y: i64; } export fn main() { let p: ptr = alloc_struct(Point); \
p.x = 3; p.y = 4; let a = 100; a[2] = 9; return p.x * p.x + p.y * p.y + a[2] + p; }";
    assert_eq!(run(src), 3 * 3 + 4 * 4 + 9 + 1000);
}

#[test]
fn integer_division_truncates() {
    assert_eq!(run("export fn main() { return (0 - 7) / 2; }"), -3);
    assert_eq!(run("export fn main() { return 10 / 3 + (3 < 4) + (4 <= 3) + (5 != 5); }"), 4);
}

#[test]
fn a_function_without_return_gives_zero() {
    assert_eq!(run("fn f() { let a = 1; } export fn main() { return f() + 7; }"), 7);
}

#[test]
fn block_declarations_do_not_outlive_the_block() {
    assert_eq!(run("export fn main() { let x = 1; if (1) { let x = 2; } return x; }"), 1);
    assert_eq!(run("export fn main() { let x = 1; if (1) { x = 5; } return x; }"), 5);
    assert_eq!(run("fn f(x) { x = x + 1; return x; } export fn main() { let x = 10; let y = f(x); return x + y; }"), 21);
}

#[test]
fn an_index_counts_eight_byte_words() {
    assert_eq!(run("export fn main() { poke(2008, 20); let p = 2000; return p[1]; }"), 20);
    assert_eq!(run("export fn main() { let p = 2000; p[3] = 7; return peek(2024) + peek(2003); }"), 7);
}

#[test]
fn negative_literals_evaluate_to_their_value() {
    assert_eq!(run("export fn main() { return -5 + 2; }"), -3);
    assert_eq!(run("export fn main() { let a = 4; return -a * 3; }"), -12);
}
