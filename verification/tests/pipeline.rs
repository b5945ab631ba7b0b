use micro_c::compiler::compile;

const ADD_PROGRAM: &str = "fn add(a, b) {\n    return a + b;\n}\n\nexport fn main() {\n    let z = add(10, 5);\n    return z;\n}\n";

#[test]
fn compiles_add_for_x86_64() {
    let mut errors: Vec<String> = Vec::new();
    let text = compile(ADD_PROGRAM, "x86_64", &mut errors);
    let expected = [
        "; ARCH x86_64\n; Generated ASM file. Modifications will not be preserved\nBITS 64\nORG 0x100000\n\n\n",
        "_start:\n    call main\n.halt:\n    hlt\n    jmp .halt\n\n",
        "add:\n    push rbp\n    mov rbp, rsp\n    sub rsp, 40\n    mov [rbp-8], rcx\n    mov [rbp-16], rdx\n",
        "    mov rax, [rbp-8]\n    mov rbx, [rbp-16]\n    mov rcx, rax\n    add rcx, rbx\n",
        "    mov rax, rcx\n    mov rsp, rbp\n    pop rbp\n    ret\n",
        "    mov rsp, rbp\n    pop rbp\n    ret\n\n",
        "main:\n    push rbp\n    mov rbp, rsp\n    sub rsp, 24\n",
        "    mov rdx, 10\n    mov rax, 5\n    mov rcx, rdx\n    mov rdx, rax\n    call add\n    mov rbx, rax\n",
        "    mov [rbp-8], rbx\n    mov rcx, [rbp-8]\n    mov rax, rcx\n    mov rsp, rbp\n    pop rbp\n    ret\n",
        "    mov rsp, rbp\n    pop rbp\n    ret\n\n",
    ]
    .concat();
    assert_eq!(text, expected);
    assert!(errors.is_empty());
}

#[test]
fn compiles_add_for_win64() {
    let mut errors: Vec<String> = Vec::new();
    let text = compile(ADD_PROGRAM, "win64", &mut errors);
    let expected = [
        "global main\nextern printf\nsection .data\nfmt: db \"%lld\", 10, 0\nsection .text\n\n",
        "main:\n    push rbx\n    sub rsp, 40\n    call micro_main\n    mov rdx, rax\n    lea rcx, [rel fmt]\n    sub rsp, 32\n",
        "    call printf\n    add rsp, 32\n    xor eax, eax\n    add rsp, 40\n    pop rbx\n    ret\n\n",
        "add:\n    push rbp\n    mov rbp, rsp\n    sub rsp, 40\n    mov [rbp-8], rcx\n    mov [rbp-16], rdx\n",
        "    mov rax, [rbp-8]\n    mov rbx, [rbp-16]\n    mov rcx, rax\n    add rcx, rbx\n",
        "    mov rax, rcx\n    mov rsp, rbp\n    pop rbp\n    ret\n",
        "micro_main:\n    push rbp\n    mov rbp, rsp\n    sub rsp, 40\n",
        "    mov rdx, 10\n    mov rax, 5\n    mov rcx, rdx\n    mov rdx, rax\n    sub rsp, 40\n    call add\n    add rsp, 40\n",
        "    mov rbx, rax\n    mov [rbp-24], rbx\n    mov rcx, [rbp-24]\n    mov rax, rcx\n    mov rsp, rbp\n    pop rbp\n    ret\n",
    ]
    .concat();
    assert_eq!(text, expected);
    assert!(errors.is_empty());
}

#[test]
fn compiles_add_for_arm64() {
    let mut errors: Vec<String> = Vec::new();
    let text = compile(ADD_PROGRAM, "arm64", &mut errors);
    assert_eq!(
        text,
        "add:\n    add x0, x1, x2\n    mov x0, x0\n    ret\nmain:\n    mov x3, #10\n    mov x0, #5\n    mov x0, x1\n    ret\n"
    );
    assert!(errors.is_empty());
}

#[test]
fn rejects_an_unknown_architecture() {
    let mut errors: Vec<String> = Vec::new();
    let text = compile(ADD_PROGRAM, "riscv", &mut errors);
    assert_eq!(text, "");
    assert_eq!(errors, vec!["!! Unsupported architecture".to_string()]);
}

#[test]
fn marks_every_message_in_order() {
    let mut errors: Vec<String> = vec!["earlier".to_string()];
    let text = compile("export fn main() { break; let a = 1 return a; }", "arm64", &mut errors);
    assert_eq!(errors.len(), 3);
    assert_eq!(errors[0], "earlier");
    assert!(errors[1].starts_with("!! (@0xC), Expected Semicolon, got Return"));
    assert_eq!(errors[2], "!! break outside loop");
    assert_eq!(text, "main:\n    mov x0, #1\n");
}

#[test]
fn x86_64_reports_too_many_parameters() {
    let mut errors: Vec<String> = Vec::new();
    let text = compile("fn f(a, b, c, d, e) { return a; }", "x86_64", &mut errors);
    assert!(text.ends_with(
        "f:\n    push rbp\n    mov rbp, rsp\n    sub rsp, 56\n    mov [rbp-8], rcx\n    mov [rbp-16], rdx\n    mov [rbp-24], r8\n    mov [rbp-32], r9\n"
    ));
    assert_eq!(errors, vec!["!! Too many parameters for x86_64 ABI".to_string()]);
}

#[test]
fn win64_reports_too_many_parameters() {
    let mut errors: Vec<String> = Vec::new();
    let text = compile("fn f(a, b, c, d, e) { return a; }", "win64", &mut errors);
    assert_eq!(text, "");
    assert_eq!(errors, vec!["!! Too many parameters for Windows ABI".to_string()]);
}

#[test]
fn declares_externs_once() {
    let mut errors: Vec<String> = Vec::new();
    let text = compile("extern fn puts(s); extern fn puts(s); extern fn printf(f, v);", "win64", &mut errors);
    assert!(text.starts_with("global main\nextern printf\nextern puts\nsection .data\n"));
    let raw = compile("extern fn puts(s);", "x86_64", &mut errors);
    assert!(raw.contains("ORG 0x100000\n\nextern puts\n\n_start:\n"));
    let arm = compile("extern fn puts(s);", "arm64", &mut errors);
    assert_eq!(arm, ".extern puts\n");
    assert!(errors.is_empty());
}

#[test]
fn x86_multiplies_when_the_result_shares_a_register_with_an_operand() {
    let mut errors: Vec<String> = Vec::new();
    let text = compile("export fn main() { let a = 5; a[1] = 3; return a; }", "x86_64", &mut errors);
    assert!(text.contains(
        "    mov rbx, [rbp-8]\n    mov rcx, 1\n    mov rdx, 8\n    imul rdx, rcx\n    mov rax, rbx\n    add rax, rdx\n"
    ));
    assert!(errors.is_empty());
}

#[test]
fn x86_divides_when_the_divisor_sits_in_rdx() {
    let mut errors: Vec<String> = Vec::new();
    let text = compile("export fn main() { let a = 1; let b = 1; return 7 / 2; }", "x86_64", &mut errors);
    assert!(text.contains(
        "    mov rcx, 7\n    mov rdx, 2\n    mov r11, rdx\n    mov rax, rcx\n    cqo\n    idiv r11\n    mov rax, rax\n"
    ));
    assert!(errors.is_empty());
}
