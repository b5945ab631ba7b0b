use micro_c::lexer::{Lexer, Token};

fn tokens(src: &str) -> Vec<String> {
    let mut lx = Lexer::new(src);
    let mut out = Vec::new();
    loop {
        let t = lx.next_token();
        let done = matches!(t, Token::EOF);
        out.push(t.debug_text());
        if done {
            break;
        }
    }
    out
}

#[test]
fn lexes_let_with_hex_and_binary() {
    assert_eq!(
        tokens("let x = 0x1F + 0b101;"),
        vec!["Let", "Ident(\"x\")", "Assign", "Number(31)", "Plus", "Number(5)", "Semicolon", "EOF"]
    );
}

#[test]
fn lexes_keywords_and_symbols() {
    assert_eq!(
        tokens("export fn f(a, b) { if (a <= b) { return a; } elif (a != b) {} else {} loop { break; continue; } }"),
        vec![
            "Export", "Fn", "Ident(\"f\")", "LParen", "Ident(\"a\")", "Comma", "Ident(\"b\")", "RParen",
            "LBrace", "If", "LParen", "Ident(\"a\")", "LtEq", "Ident(\"b\")", "RParen", "LBrace", "Return",
            "Ident(\"a\")", "Semicolon", "RBrace", "Elif", "LParen", "Ident(\"a\")", "NotEq", "Ident(\"b\")",
            "RParen", "LBrace", "RBrace", "Else", "LBrace", "RBrace", "Loop", "LBrace", "Break", "Semicolon",
            "Continue", "Semicolon", "RBrace", "RBrace", "EOF",
        ]
    );
}

#[test]
fn skips_comments() {
    assert_eq!(
        tokens("// line\n a /* block\n comment */ / b >= c == d > e < f"),
        vec![
            "Ident(\"a\")", "Slash", "Ident(\"b\")", "GtEq", "Ident(\"c\")", "EqEq", "Ident(\"d\")", "Gt",
            "Ident(\"e\")", "Lt", "Ident(\"f\")", "EOF",
        ]
    );
}

#[test]
fn lexes_include_directive() {
    assert_eq!(tokens("#include <Sys>"), vec!["Include(\"Sys\")", "EOF"]);
}

#[test]
fn reports_unexpected_characters() {
    let mut lx = Lexer::new("@ ! #pragma");
    assert_eq!(lx.next_token().debug_text(), "None");
    assert_eq!(lx.next_token().debug_text(), "None");
    assert_eq!(lx.next_token().debug_text(), "None");
    assert_eq!(lx.next_token().debug_text(), "EOF");
    assert_eq!(
        lx.diagnostics,
        vec!["Unexpected char @".to_string(), "Unexpected !".to_string(), "Unknown directive #pragma".to_string()]
    );
}

#[test]
fn displays_tokens_as_spelt() {
    assert_eq!(Token::LBrace.display_text(), "{");
    assert_eq!(Token::EOF.display_text(), "<EOF>");
    assert_eq!(Token::Include("Sys".to_string()).display_text(), "#include <Sys>");
    assert_eq!(Token::Number(-7).display_text(), "-7");
    assert_eq!(Token::Arrow.display_text(), "Arrow");
}

#[test]
fn reports_malformed_includes() {
    let mut lx = Lexer::new("#include Sys");
    assert_eq!(lx.next_token().debug_text(), "None");
    assert_eq!(lx.next_token().debug_text(), "Ident(\"ys\")");
    assert_eq!(lx.next_token().debug_text(), "EOF");
    assert_eq!(lx.diagnostics, vec!["Expected '<' after #include".to_string()]);
    let mut open = Lexer::new("#include <Sys");
    assert_eq!(open.next_token().debug_text(), "None");
    assert_eq!(open.next_token().debug_text(), "EOF");
    assert_eq!(open.diagnostics, vec!["Unterminated include directive: expected '>'".to_string()]);
}

#[test]
fn only_unknown_tokens_bring_a_message_each() {
    let mut lx = Lexer::new("a @ 1 #def");
    assert_eq!(lx.next_token().debug_text(), "Ident(\"a\")");
    assert_eq!(lx.diagnostics.len(), 0);
    assert_eq!(lx.next_token().debug_text(), "None");
    assert_eq!(lx.diagnostics.len(), 1);
    assert_eq!(lx.next_token().debug_text(), "Number(1)");
    assert_eq!(lx.diagnostics.len(), 1);
    assert_eq!(lx.next_token().debug_text(), "None");
    assert_eq!(lx.diagnostics, vec!["Unexpected char @".to_string(), "Unknown directive #def".to_string()]);
}

#[test]
fn stays_at_the_end_without_messages() {
    let mut lx = Lexer::new("x  ");
    assert_eq!(lx.next_token().debug_text(), "Ident(\"x\")");
    for _ in 0..4 {
        assert_eq!(lx.next_token().debug_text(), "EOF");
    }
    assert!(lx.diagnostics.is_empty());
}

#[test]
fn white_space_beyond_ascii_separates_tokens() {
    assert_eq!(tokens("a\u{3000}b\u{00A0}c\u{2028}1"), vec!["Ident(\"a\")", "Ident(\"b\")", "Ident(\"c\")", "Number(1)", "EOF"]);
}
