//! Lexical analyzer for the Micro-C language.
//!
//! [`Lexer::next_token`] turns the character at the lexer's position into a
//! [`Token`]; its contract is the step function [`lex`].
use vstd::prelude::*;
use vstd::string::*;
use crate::chars::{
    is_ascii_letter, is_ascii_digit, char_is_whitespace, char_is_alphabetic, char_is_numeric, is_hex_digit, parse_radix, all_digits,
    digits_value, digit_value, is_whitespace, is_alphabetic, is_numeric, is_alphanumeric,
    is_ascii_hexdigit,
};
use crate::text::{push_char, str_eq, decimal, push_decimal, debug_quoted, debug_string};

verus! {

/// Represents a single unit of the Micro-C language.
#[derive(Debug, Clone)]
pub enum Token {
    Let, Fn, Return,
    If, Elif, Else,
    Loop, Break, Continue,
    Export,
    Struct,

    Ident(String),
    Number(i64),

    LParen, RParen,
    LBrace, RBrace,
    LBracket, RBracket,

    Comma, Semicolon,
    Colon, Dot,

    Plus, Minus, Star, Slash,

    EqEq, NotEq,
    Lt, Gt, LtEq, GtEq,

    Assign,

    EOF,
    Arrow,
    Include(String),
    Unknown,
}

/// The mathematical value of a [`Token`]: names are character sequences.
pub enum TokenV {
    Let, Fn, Return,
    If, Elif, Else,
    Loop, Break, Continue,
    Export,
    Struct,
    Ident(Seq<char>),
    Number(i64),
    LParen, RParen,
    LBrace, RBrace,
    LBracket, RBracket,
    Comma, Semicolon,
    Colon, Dot,
    Plus, Minus, Star, Slash,
    EqEq, NotEq,
    Lt, Gt, LtEq, GtEq,
    Assign,
    EOF,
    Arrow,
    Include(Seq<char>),
    Unknown,
}

impl View for Token {
    type V = TokenV;

    open spec fn view(&self) -> TokenV {
        match self {
            Token::Let => TokenV::Let,
            Token::Fn => TokenV::Fn,
            Token::Return => TokenV::Return,
            Token::If => TokenV::If,
            Token::Elif => TokenV::Elif,
            Token::Else => TokenV::Else,
            Token::Loop => TokenV::Loop,
            Token::Break => TokenV::Break,
            Token::Continue => TokenV::Continue,
            Token::Export => TokenV::Export,
            Token::Struct => TokenV::Struct,
            Token::Ident(s) => TokenV::Ident(s@),
            Token::Number(n) => TokenV::Number(*n),
            Token::LParen => TokenV::LParen,
            Token::RParen => TokenV::RParen,
            Token::LBrace => TokenV::LBrace,
            Token::RBrace => TokenV::RBrace,
            Token::LBracket => TokenV::LBracket,
            Token::RBracket => TokenV::RBracket,
            Token::Comma => TokenV::Comma,
            Token::Semicolon => TokenV::Semicolon,
            Token::Colon => TokenV::Colon,
            Token::Dot => TokenV::Dot,
            Token::Plus => TokenV::Plus,
            Token::Minus => TokenV::Minus,
            Token::Star => TokenV::Star,
            Token::Slash => TokenV::Slash,
            Token::EqEq => TokenV::EqEq,
            Token::NotEq => TokenV::NotEq,
            Token::Lt => TokenV::Lt,
            Token::Gt => TokenV::Gt,
            Token::LtEq => TokenV::LtEq,
            Token::GtEq => TokenV::GtEq,
            Token::Assign => TokenV::Assign,
            Token::EOF => TokenV::EOF,
            Token::Arrow => TokenV::Arrow,
            Token::Include(s) => TokenV::Include(s@),
            Token::Unknown => TokenV::Unknown,
        }
    }
}

/// The character at `pos`, if `pos` is inside the input.
pub open spec fn at(input: Seq<char>, pos: int) -> Option<char> {
    if 0 <= pos < input.len() {
        Some(input[pos])
    } else {
        None
    }
}

/// The first index from `pos` on whose character fails `p` (or the end of
/// the input; `pos` itself when `pos` is past the end).
pub open spec fn scan(input: Seq<char>, pos: int, p: spec_fn(char) -> bool) -> int
    decreases input.len() - pos,
{
    if 0 <= pos < input.len() && p(input[pos]) {
        scan(input, pos + 1, p)
    } else {
        pos
    }
}

pub open spec fn is_ws(c: char) -> bool {
    char_is_whitespace(c)
}

pub open spec fn is_ident_char(c: char) -> bool {
    char_is_alphabetic(c) || char_is_numeric(c) || c == '_'
}

pub open spec fn not_newline(c: char) -> bool {
    c != '\n'
}

pub open spec fn not_close_angle(c: char) -> bool {
    c != '>'
}

pub open spec fn is_bin_digit(c: char) -> bool {
    c == '0' || c == '1'
}

/// Where the `*/` that ends a block comment leaves the lexer, scanning from `i`;
/// one past the end of the input when the comment is not closed.
pub open spec fn block_end(input: Seq<char>, i: int) -> int
    decreases input.len() - i,
{
    if i < 0 || i >= input.len() {
        i + 1
    } else if input[i] == '*' && at(input, i + 1) == Some('/') {
        i + 2
    } else {
        block_end(input, i + 1)
    }
}

/// The token a keyword or identifier spelling stands for.
pub open spec fn word_token(s: Seq<char>) -> TokenV {
    if s == "let"@ {
        TokenV::Let
    } else if s == "fn"@ {
        TokenV::Fn
    } else if s == "return"@ {
        TokenV::Return
    } else if s == "if"@ {
        TokenV::If
    } else if s == "elif"@ {
        TokenV::Elif
    } else if s == "else"@ {
        TokenV::Else
    } else if s == "loop"@ {
        TokenV::Loop
    } else if s == "break"@ {
        TokenV::Break
    } else if s == "continue"@ {
        TokenV::Continue
    } else if s == "export"@ {
        TokenV::Export
    } else if s == "struct"@ {
        TokenV::Struct
    } else {
        TokenV::Ident(s)
    }
}

/// One lexing step: the token, the new position and the messages reported.
pub type LexStep = (TokenV, int, Seq<Seq<char>>);

/// A numeric literal starting at `p` (whose character is a digit candidate).
/// `None` when the literal does not denote an `i64` (the lexer panics there).
pub open spec fn lex_number(input: Seq<char>, p: int) -> Option<LexStep> {
    if input[p] == '0' && at(input, p + 1) == Some('x') {
        let e = scan(input, p + 2, |c: char| is_hex_digit(c));
        match parse_radix(input.subrange(p + 2, e), 16) {
            Some(v) => Some((TokenV::Number(v), e, seq![])),
            None => None,
        }
    } else if input[p] == '0' && at(input, p + 1) == Some('b') {
        let e = scan(input, p + 2, |c: char| is_bin_digit(c));
        match parse_radix(input.subrange(p + 2, e), 2) {
            Some(v) => Some((TokenV::Number(v), e, seq![])),
            None => None,
        }
    } else {
        let e = scan(input, p + 1, |c: char| char_is_numeric(c));
        match parse_radix(input.subrange(p, e), 10) {
            Some(v) => Some((TokenV::Number(v), e, seq![])),
            None => None,
        }
    }
}

/// A `#` directive whose name starts at `q`.
pub open spec fn lex_directive(input: Seq<char>, q: int) -> LexStep {
    let d = scan(input, q, |c: char| char_is_alphabetic(c));
    let directive = input.subrange(q, d);
    if directive == "include"@ {
        let r = scan(input, d, |c: char| is_ws(c));
        if at(input, r) == Some('<') {
            let e = scan(input, r + 1, |c: char| not_close_angle(c));
            if e < input.len() {
                (TokenV::Include(input.subrange(r + 1, e)), e + 1, seq![])
            } else {
                (TokenV::Unknown, e, seq!["Unterminated include directive: expected '>'"@])
            }
        } else {
            (TokenV::Unknown, r + 1, seq!["Expected '<' after #include"@])
        }
    } else {
        (TokenV::Unknown, d, seq!["Unknown directive #"@ + directive])
    }
}

/// The token of a single character `c` at `p` that needs at most one more
/// character of look-ahead, if `c` is one of those.
pub open spec fn lex_symbol(input: Seq<char>, p: int, c: char) -> Option<LexStep> {
    let q = p + 1;
    if c == '(' {
        Some((TokenV::LParen, q, seq![]))
    } else if c == ')' {
        Some((TokenV::RParen, q, seq![]))
    } else if c == '{' {
        Some((TokenV::LBrace, q, seq![]))
    } else if c == '}' {
        Some((TokenV::RBrace, q, seq![]))
    } else if c == '[' {
        Some((TokenV::LBracket, q, seq![]))
    } else if c == ']' {
        Some((TokenV::RBracket, q, seq![]))
    } else if c == ',' {
        Some((TokenV::Comma, q, seq![]))
    } else if c == ';' {
        Some((TokenV::Semicolon, q, seq![]))
    } else if c == ':' {
        Some((TokenV::Colon, q, seq![]))
    } else if c == '.' {
        Some((TokenV::Dot, q, seq![]))
    } else if c == '+' {
        Some((TokenV::Plus, q, seq![]))
    } else if c == '-' {
        Some((TokenV::Minus, q, seq![]))
    } else if c == '*' {
        Some((TokenV::Star, q, seq![]))
    } else if c == '=' {
        if at(input, q) == Some('=') {
            Some((TokenV::EqEq, q + 1, seq![]))
        } else {
            Some((TokenV::Assign, q, seq![]))
        }
    } else if c == '!' {
        if at(input, q) == Some('=') {
            Some((TokenV::NotEq, q + 1, seq![]))
        } else {
            Some((TokenV::Unknown, q, seq!["Unexpected !"@]))
        }
    } else if c == '<' {
        if at(input, q) == Some('=') {
            Some((TokenV::LtEq, q + 1, seq![]))
        } else {
            Some((TokenV::Lt, q, seq![]))
        }
    } else if c == '>' {
        if at(input, q) == Some('=') {
            Some((TokenV::GtEq, q + 1, seq![]))
        } else {
            Some((TokenV::Gt, q, seq![]))
        }
    } else {
        None
    }
}

/// The next token of `input` from position `pos`: white space and comments
/// are skipped first. `None` when the lexer panics (a numeric literal that
/// denotes no `i64`, or a position that no `usize` can hold).
pub open spec fn lex(input: Seq<char>, pos: int) -> Option<LexStep>
    decreases input.len() + 2 - pos,
{
    let p = scan(input, pos, |c: char| is_ws(c));
    if p < 0 || p >= input.len() {
        if p >= usize::MAX {
            None
        } else {
            Some((TokenV::EOF, p + 1, seq![]))
        }
    } else {
        let c = input[p];
        let q = p + 1;
        if c == '/' {
            if at(input, q) == Some('/') {
                let e = scan(input, q, |c: char| not_newline(c));
                if pos < e <= input.len() {
                    lex(input, e)
                } else {
                    None
                }
            } else if at(input, q) == Some('*') {
                let e = block_end(input, q + 1);
                if pos < e <= input.len() + 1 {
                    lex(input, e)
                } else {
                    None
                }
            } else {
                Some((TokenV::Slash, q, seq![]))
            }
        } else if lex_symbol(input, p, c) is Some {
            lex_symbol(input, p, c)
        } else if char_is_alphabetic(c) || c == '_' {
            let e = scan(input, p, |c: char| is_ident_char(c));
            Some((word_token(input.subrange(p, e)), e, seq![]))
        } else if char_is_numeric(c) {
            lex_number(input, p)
        } else if c == '#' {
            Some(lex_directive(input, q))
        } else {
            Some((TokenV::Unknown, q, seq!["Unexpected char "@.push(c)]))
        }
    }
}

/// A token comes with a message exactly when it is `Unknown`: an unknown
/// token with one message, any other token with none. `EOF` leaves the
/// position past the end of the input.
pub proof fn lemma_lex_messages(input: Seq<char>, pos: int)
    requires
        pos >= 0,
    ensures
        lex(input, pos) matches Some((t, q, m)) ==> {
            &&& (t == TokenV::Unknown) == (m.len() == 1)
            &&& t != TokenV::Unknown ==> m.len() == 0
            &&& t == TokenV::EOF ==> q > input.len()
        },
    decreases input.len() + 2 - pos,
{
    let p = scan(input, pos, |c: char| is_ws(c));
    lemma_scan_bounds(input, pos, |c: char| is_ws(c));
    if 0 <= p < input.len() {
        let c = input[p];
        let q = p + 1;
        if c == '/' {
            if at(input, q) == Some('/') {
                let e = scan(input, q, |c: char| not_newline(c));
                if pos < e <= input.len() {
                    lemma_lex_messages(input, e);
                }
            } else if at(input, q) == Some('*') {
                let e = block_end(input, q + 1);
                if pos < e <= input.len() + 1 {
                    lemma_lex_messages(input, e);
                }
            }
        }
    }
}

/// At or past the end of the input the lexer gives `EOF`, one position
/// further on, and reports nothing; so once it has given `EOF` it keeps
/// giving `EOF` without a message.
pub proof fn lemma_lex_end(input: Seq<char>, pos: int)
    requires
        input.len() <= pos,
        pos + 1 < usize::MAX,
    ensures
        lex(input, pos) == Some((TokenV::EOF, pos + 1, Seq::<Seq<char>>::empty())),
        lex(input, pos + 1) == Some((TokenV::EOF, pos + 2, Seq::<Seq<char>>::empty())),
{
    lemma_scan_bounds(input, pos, |c: char| is_ws(c));
    lemma_scan_bounds(input, pos + 1, |c: char| is_ws(c));
    assert(seq![] =~= Seq::<Seq<char>>::empty());
}

/// A character that may follow a numeric literal: space, `;`, `,`, `)`, `]`.
pub open spec fn is_separator(c: char) -> bool {
    c == ' ' || c == ';' || c == ',' || c == ')' || c == ']'
}

/// `rest` is empty or starts with a separator.
pub open spec fn ends_literal(rest: Seq<char>) -> bool {
    rest.len() == 0 || is_separator(rest[0])
}

/// `scan` stops at the first character from `i` on that fails `p`.
proof fn lemma_scan_to(input: Seq<char>, i: int, j: int, p: spec_fn(char) -> bool)
    requires
        0 <= i <= j <= input.len(),
        forall|k: int| i <= k < j ==> p(#[trigger] input[k]),
        j == input.len() || !p(input[j]),
    ensures
        scan(input, i, p) == j,
    decreases j - i,
{
    if i < j {
        lemma_scan_to(input, i + 1, j, p);
    }
}

/// The character classes of the characters a numeric literal and what
/// follows it are made of.
proof fn lemma_literal_chars(c: char)
    ensures
        '0' <= c <= '9' ==> !char_is_whitespace(c) && !char_is_alphabetic(c) && char_is_numeric(c),
        is_hex_digit(c) ==> !char_is_whitespace(c),
        is_separator(c) ==> !char_is_numeric(c) && !is_hex_digit(c) && !is_bin_digit(c),
        '0' <= c <= '9' ==> digit_value(c, 10) is Some,
        is_hex_digit(c) ==> digit_value(c, 16) is Some,
        is_bin_digit(c) ==> digit_value(c, 2) is Some,
{
    reveal(char_is_whitespace);
    reveal(char_is_alphabetic);
    reveal(char_is_numeric);
}

/// A decimal literal followed by a separator (or by nothing) is read as
/// the number its digits denote, and exactly the literal is consumed.
pub proof fn lemma_lex_decimal(lit: Seq<char>, rest: Seq<char>)
    requires
        lit.len() > 0,
        forall|i: int| 0 <= i < lit.len() ==> '0' <= #[trigger] lit[i] <= '9',
        digits_value(lit, 10) <= i64::MAX,
        ends_literal(rest),
    ensures
        lex(lit + rest, 0) == Some((TokenV::Number(digits_value(lit, 10) as i64), lit.len() as int, Seq::<Seq<char>>::empty())),
{
    let input = lit + rest;
    let n = lit.len() as int;
    lemma_literal_chars(input[0]);
    assert(input[0] == lit[0]);
    if rest.len() > 0 {
        lemma_literal_chars(rest[0]);
        assert(input[n] == rest[0]);
    }
    assert forall|k: int| 1 <= k < n implies char_is_numeric(#[trigger] input[k]) by {
        assert(input[k] == lit[k]);
        lemma_literal_chars(lit[k]);
    }
    lemma_scan_to(input, 0, 0, |c: char| is_ws(c));
    lemma_scan_to(input, 1, n, |c: char| char_is_numeric(c));
    if n > 1 {
        assert(input[1] == lit[1]);
    }
    assert(input.subrange(0, n) =~= lit);
    assert forall|i: int| 0 <= i < lit.len() implies (#[trigger] digit_value(lit[i], 10)) is Some by {
        lemma_literal_chars(lit[i]);
    }
    assert(seq![] =~= Seq::<Seq<char>>::empty());
}

/// `0x` and hexadecimal digits, followed by a separator (or by nothing), is
/// read as the number the digits denote, and exactly the literal is
/// consumed.
pub proof fn lemma_lex_hex(h: Seq<char>, rest: Seq<char>)
    requires
        h.len() > 0,
        forall|i: int| 0 <= i < h.len() ==> is_hex_digit(#[trigger] h[i]),
        digits_value(h, 16) <= i64::MAX,
        ends_literal(rest),
    ensures
        lex("0x"@ + h + rest, 0) == Some((TokenV::Number(digits_value(h, 16) as i64), h.len() + 2int, Seq::<Seq<char>>::empty())),
{
    reveal_strlit("0x");
    let input = "0x"@ + h + rest;
    let n = h.len() + 2int;
    lemma_literal_chars('0');
    assert(input[0] == '0' && input[1] == 'x');
    if rest.len() > 0 {
        lemma_literal_chars(rest[0]);
        assert(input[n] == rest[0]);
    }
    assert forall|k: int| 2 <= k < n implies is_hex_digit(#[trigger] input[k]) by {
        assert(input[k] == h[k - 2]);
    }
    lemma_scan_to(input, 0, 0, |c: char| is_ws(c));
    lemma_scan_to(input, 2, n, |c: char| is_hex_digit(c));
    assert(input.subrange(2, n) =~= h);
    assert forall|i: int| 0 <= i < h.len() implies (#[trigger] digit_value(h[i], 16)) is Some by {
        lemma_literal_chars(h[i]);
    }
    assert(seq![] =~= Seq::<Seq<char>>::empty());
}

/// `0b` and binary digits, followed by a separator (or by nothing), is read
/// as the number the digits denote, and exactly the literal is consumed.
pub proof fn lemma_lex_binary(d: Seq<char>, rest: Seq<char>)
    requires
        d.len() > 0,
        forall|i: int| 0 <= i < d.len() ==> is_bin_digit(#[trigger] d[i]),
        digits_value(d, 2) <= i64::MAX,
        ends_literal(rest),
    ensures
        lex("0b"@ + d + rest, 0) == Some((TokenV::Number(digits_value(d, 2) as i64), d.len() + 2int, Seq::<Seq<char>>::empty())),
{
    reveal_strlit("0b");
    let input = "0b"@ + d + rest;
    let n = d.len() + 2int;
    lemma_literal_chars('0');
    assert(input[0] == '0' && input[1] == 'b');
    if rest.len() > 0 {
        lemma_literal_chars(rest[0]);
        assert(input[n] == rest[0]);
    }
    assert forall|k: int| 2 <= k < n implies is_bin_digit(#[trigger] input[k]) by {
        assert(input[k] == d[k - 2]);
    }
    lemma_scan_to(input, 0, 0, |c: char| is_ws(c));
    lemma_scan_to(input, 2, n, |c: char| is_bin_digit(c));
    assert(input.subrange(2, n) =~= d);
    assert forall|i: int| 0 <= i < d.len() implies (#[trigger] digit_value(d[i], 2)) is Some by {
        lemma_literal_chars(d[i]);
    }
    assert(seq![] =~= Seq::<Seq<char>>::empty());
}

/// No `*/` starts inside `t`.
pub open spec fn no_comment_end(t: Seq<char>) -> bool {
    forall|i: int| 0 <= i < t.len() - 1 ==> !(#[trigger] t[i] == '*' && t[i + 1] == '/')
}

/// A block comment ends just after the first `*/` from `i` on.
proof fn lemma_block_end_at(input: Seq<char>, i: int, j: int)
    requires
        0 <= i <= j,
        j + 1 < input.len(),
        input[j] == '*' && input[j + 1] == '/',
        forall|k: int| i <= k < j ==> !(#[trigger] input[k] == '*' && input[k + 1] == '/'),
    ensures
        block_end(input, i) == j + 2,
    decreases j - i,
{
    if i < j {
        lemma_block_end_at(input, i + 1, j);
    }
}

/// A block comment is skipped whole: lexing `/*`, a text without `*/`,
/// `*/` and then anything gives what lexing from just after the `*/` gives,
/// so nothing inside the comment becomes a token.
pub proof fn lemma_block_comment_skipped(t: Seq<char>, rest: Seq<char>)
    requires
        no_comment_end(t),
    ensures
        lex("/*"@ + t + "*/"@ + rest, 0) == lex("/*"@ + t + "*/"@ + rest, t.len() + 4int),
{
    reveal_strlit("/*");
    reveal_strlit("*/");
    reveal(char_is_whitespace);
    let input = "/*"@ + t + "*/"@ + rest;
    let n = t.len() + 4int;
    assert(input[0] == '/' && input[1] == '*');
    assert(input[n - 2] == '*' && input[n - 1] == '/');
    assert forall|k: int| 2 <= k < n - 2 implies !(#[trigger] input[k] == '*' && input[k + 1] == '/') by {
        assert(input[k] == t[k - 2]);
        if k + 1 < n - 2 {
            assert(input[k + 1] == t[k - 1]);
        } else {
            assert(input[k + 1] == '*');
        }
    }
    lemma_block_end_at(input, 2, n - 2);
    lemma_scan_to(input, 0, 0, |c: char| is_ws(c));
}

/// A line comment is skipped up to the end of its line: lexing `//`, a
/// text without a line break, a line break and then anything gives what
/// lexing from the line break gives.
pub proof fn lemma_line_comment_skipped(t: Seq<char>, rest: Seq<char>)
    requires
        forall|i: int| 0 <= i < t.len() ==> #[trigger] t[i] != '\n',
    ensures
        lex("//"@ + t + "\n"@ + rest, 0) == lex("//"@ + t + "\n"@ + rest, t.len() + 2int),
{
    reveal_strlit("//");
    reveal_strlit("\n");
    reveal(char_is_whitespace);
    let input = "//"@ + t + "\n"@ + rest;
    let n = t.len() + 2int;
    assert(input[0] == '/' && input[1] == '/');
    assert(input[n] == '\n');
    assert forall|k: int| 1 <= k < n implies not_newline(#[trigger] input[k]) by {
        if k >= 2 {
            assert(input[k] == t[k - 2]);
        }
    }
    lemma_scan_to(input, 1, n, |c: char| not_newline(c));
    lemma_scan_to(input, 0, 0, |c: char| is_ws(c));
}

/// Tokens whose text is fixed: keywords, brackets, punctuation, operators.
pub open spec fn fixed_token(t: TokenV) -> bool {
    match t {
        TokenV::Ident(_) | TokenV::Number(_) | TokenV::Include(_) | TokenV::EOF | TokenV::Arrow
        | TokenV::Unknown => false,
        _ => true,
    }
}

/// An identifier as the lexer reads one in ASCII text: letters, digits and
/// `_`, not starting with a digit.
pub open spec fn ascii_word(s: Seq<char>) -> bool {
    &&& s.len() > 0
    &&& (is_ascii_letter(s[0]) || s[0] == '_')
    &&& forall|i: int| 0 <= i < s.len() ==> is_ascii_letter(#[trigger] s[i]) || is_ascii_digit(s[i]) || s[i] == '_'
}

/// A word is read as the keyword or identifier it spells, whole.
proof fn lemma_lex_word(w: Seq<char>)
    requires
        ascii_word(w),
    ensures
        lex(w, 0) == Some((word_token(w), w.len() as int, Seq::<Seq<char>>::empty())),
{
    reveal(char_is_whitespace);
    reveal(char_is_alphabetic);
    reveal(char_is_numeric);
    assert(is_ascii_letter(w[0]) || w[0] == '_');
    lemma_scan_to(w, 0, 0, |c: char| is_ws(c));
    assert forall|k: int| 0 <= k < w.len() implies is_ident_char(#[trigger] w[k]) by {
        assert(is_ascii_letter(w[k]) || is_ascii_digit(w[k]) || w[k] == '_');
    }
    lemma_scan_to(w, 0, w.len() as int, |c: char| is_ident_char(c));
    assert(w.subrange(0, w.len() as int) =~= w);
    assert(seq![] =~= Seq::<Seq<char>>::empty());
}

/// A keyword's text is an ASCII word.
proof fn lemma_keyword_words()
    ensures
        ascii_word("let"@), ascii_word("fn"@), ascii_word("return"@), ascii_word("if"@),
        ascii_word("elif"@), ascii_word("else"@), ascii_word("loop"@), ascii_word("break"@),
        ascii_word("continue"@), ascii_word("export"@), ascii_word("struct"@),
{
    reveal_strlit("let");
    reveal_strlit("fn");
    reveal_strlit("return");
    reveal_strlit("if");
    reveal_strlit("elif");
    reveal_strlit("else");
    reveal_strlit("loop");
    reveal_strlit("break");
    reveal_strlit("continue");
    reveal_strlit("export");
    reveal_strlit("struct");
}

/// Writing a token out and lexing the text gives the token back and reads
/// the whole text, after which only `EOF` follows. This holds of keywords,
/// brackets, punctuation and operators, of identifiers written in ASCII that
/// are no keyword, of numbers that are not negative, and of includes whose
/// name has no `>`.
pub proof fn lemma_lex_display(t: TokenV)
    requires
        ({
            ||| fixed_token(t)
            ||| (t matches TokenV::Ident(s) && ascii_word(s) && word_token(s) == t)
            ||| (t matches TokenV::Number(n) && n >= 0)
            ||| (t matches TokenV::Include(m) && !m.contains('>'))
        }),
        display_v(t).len() + 1 < usize::MAX,
    ensures
        lex(display_v(t), 0) == Some((t, display_v(t).len() as int, Seq::<Seq<char>>::empty())),
        lex(display_v(t), display_v(t).len() as int) == Some(
            (TokenV::EOF, display_v(t).len() + 1int, Seq::<Seq<char>>::empty()),
        ),
{
    reveal(char_is_whitespace);
    reveal(char_is_alphabetic);
    reveal(char_is_numeric);
    let text = display_v(t);
    lemma_lex_end(text, text.len() as int);
    assert(seq![] =~= Seq::<Seq<char>>::empty());
    match t {
        TokenV::Let | TokenV::Fn | TokenV::Return | TokenV::If | TokenV::Elif | TokenV::Else
        | TokenV::Loop | TokenV::Break | TokenV::Continue | TokenV::Export | TokenV::Struct => {
            lemma_keyword_words();
            lemma_lex_word(text);
            reveal_strlit("let");
            reveal_strlit("fn");
            reveal_strlit("return");
            reveal_strlit("if");
            reveal_strlit("elif");
            reveal_strlit("else");
            reveal_strlit("loop");
            reveal_strlit("break");
            reveal_strlit("continue");
            reveal_strlit("export");
            reveal_strlit("struct");
            assert(word_token(text) == t);
        },
        TokenV::Ident(s) => {
            lemma_lex_word(s);
        },
        TokenV::Number(n) => {
            crate::text::lemma_digits_value(n as nat);
            assert(text == crate::text::digits(n as nat, 10));
            assert(text + Seq::<char>::empty() =~= text);
            lemma_lex_decimal(text, Seq::<char>::empty());
        },
        TokenV::Include(m) => {
            reveal_strlit("#include <");
            reveal_strlit(">");
            reveal_strlit("include");
            let n = m.len() as int;
            assert(text.len() == n + 11);
            assert(text[0] == '#');
            assert forall|k: int| 1 <= k < 8 implies char_is_alphabetic(#[trigger] text[k]) by {}
            lemma_scan_to(text, 1, 8, |c: char| char_is_alphabetic(c));
            assert(text.subrange(1, 8) =~= "include"@);
            lemma_scan_to(text, 8, 9, |c: char| is_ws(c));
            assert forall|k: int| 10 <= k < 10 + n implies not_close_angle(#[trigger] text[k]) by {
                assert(text[k] == m[k - 10]);
            }
            assert(text[10 + n] == '>');
            lemma_scan_to(text, 10, 10 + n, |c: char| not_close_angle(c));
            assert(text.subrange(10, 10 + n) =~= m);
            lemma_scan_to(text, 0, 0, |c: char| is_ws(c));
        },
        _ => {
            reveal_strlit("(");
            reveal_strlit(")");
            reveal_strlit("{");
            reveal_strlit("}");
            reveal_strlit("[");
            reveal_strlit("]");
            reveal_strlit(",");
            reveal_strlit(";");
            reveal_strlit(":");
            reveal_strlit(".");
            reveal_strlit("+");
            reveal_strlit("-");
            reveal_strlit("*");
            reveal_strlit("/");
            reveal_strlit("==");
            reveal_strlit("!=");
            reveal_strlit("<");
            reveal_strlit(">");
            reveal_strlit("<=");
            reveal_strlit(">=");
            reveal_strlit("=");
            lemma_scan_to(text, 0, 0, |c: char| is_ws(c));
        },
    }
}

/// The messages of a list of diagnostics.
pub open spec fn msgs(v: Seq<String>) -> Seq<Seq<char>> {
    v.map_values(|s: String| s@)
}

proof fn lemma_scan_bounds(input: Seq<char>, pos: int, p: spec_fn(char) -> bool)
    ensures
        scan(input, pos, p) >= pos,
        0 <= pos <= input.len() ==> scan(input, pos, p) <= input.len(),
        forall|k: int| pos <= k < scan(input, pos, p) ==> p(#[trigger] input[k]),
        0 <= pos <= input.len() ==> scan(input, pos, p) == input.len() || !p(input[scan(input, pos, p)]),
    decreases input.len() - pos,
{
    if 0 <= pos < input.len() && p(input[pos]) {
        lemma_scan_bounds(input, pos + 1, p);
    }
}

proof fn lemma_block_end(input: Seq<char>, i: int)
    requires
        0 <= i <= input.len(),
    ensures
        i < block_end(input, i) <= input.len() + 1,
    decreases input.len() - i,
{
    if i < input.len() && !(input[i] == '*' && at(input, i + 1) == Some('/')) {
        lemma_block_end(input, i + 1);
    }
}

/// The lexer always moves on: the position after a token is past the
/// position it started from, so every step reads some of the input (or
/// moves past its end).
pub proof fn lemma_lex_advances(input: Seq<char>, pos: int)
    requires
        pos >= 0,
    ensures
        lex(input, pos) matches Some((_, q, _)) ==> q > pos,
    decreases input.len() + 2 - pos,
{
    let p = scan(input, pos, |c: char| is_ws(c));
    lemma_scan_bounds(input, pos, |c: char| is_ws(c));
    if 0 <= p < input.len() {
        let c = input[p];
        let q = p + 1;
        if c == '/' {
            if at(input, q) == Some('/') {
                let e = scan(input, q, |c: char| not_newline(c));
                if pos < e <= input.len() {
                    lemma_lex_advances(input, e);
                }
            } else if at(input, q) == Some('*') {
                let e = block_end(input, q + 1);
                if pos < e <= input.len() + 1 {
                    lemma_lex_advances(input, e);
                }
            }
        } else if lex_symbol(input, p, c) is Some {
        } else if char_is_alphabetic(c) || c == '_' {
            lemma_scan_bounds(input, p, |c: char| is_ident_char(c));
            assert(is_ident_char(input[p]));
        } else if char_is_numeric(c) {
            lemma_scan_bounds(input, p + 1, |c: char| char_is_numeric(c));
            lemma_scan_bounds(input, p + 2, |c: char| is_hex_digit(c));
            lemma_scan_bounds(input, p + 2, |c: char| is_bin_digit(c));
        } else if c == '#' {
            let d = scan(input, q, |c: char| char_is_alphabetic(c));
            lemma_scan_bounds(input, q, |c: char| char_is_alphabetic(c));
            lemma_scan_bounds(input, d, |c: char| is_ws(c));
            let r = scan(input, d, |c: char| is_ws(c));
            lemma_scan_bounds(input, r + 1, |c: char| not_close_angle(c));
        }
    }
}

/// Lexer state for converting source code into tokens.
pub struct Lexer {
    pub input: Vec<char>,
    pos: usize,
    /// Messages reported while lexing (and, through the parser, parsing).
    pub diagnostics: Vec<String>,
}

impl Lexer {
    /// The position of the next character to read.
    pub closed spec fn position(&self) -> int {
        self.pos as int
    }

    /// The characters being lexed.
    pub closed spec fn source(&self) -> Seq<char> {
        self.input@
    }

    /// The messages reported so far.
    pub closed spec fn messages(&self) -> Seq<Seq<char>> {
        msgs(self.diagnostics@)
    }

    /// Creates a new Lexer from the given source string.
    pub fn new(input: &str) -> (r: Self)
        ensures
            r.source() == input@,
            r.position() == 0,
            r.messages() == Seq::<Seq<char>>::empty(),
    {
        let mut v: Vec<char> = Vec::new();
        for c in it: input.chars()
            invariant
                v@ == it.seq().take(it.index() as int),
        {
            v.push(c);
        }
        proof {
            broadcast use vstd::string::group_string_axioms;
            assert(v@ =~= input@);
        }
        Self { input: v, pos: 0, diagnostics: Vec::new() }
    }
}


/// `parse_radix` of a character vector, computed digit by digit as
/// `i64::from_str_radix` does.
pub fn parse_digits(s: &Vec<char>, radix: u64) -> (r: Option<i64>)
    requires
        2 <= radix <= 16,
    ensures
        r == parse_radix(s@, radix as nat),
{
    if s.len() == 0 {
        return None;
    }
    let mut v: u64 = 0;
    let mut i: usize = 0;
    while i < s.len()
        invariant
            0 <= i <= s@.len(),
            2 <= radix <= 16,
            all_digits(s@.take(i as int), radix as nat),
            v as nat == digits_value(s@.take(i as int), radix as nat),
            v <= i64::MAX,
        decreases s@.len() - i,
    {
        let c = s[i];
        let d: u64 = if '0' <= c && c <= '9' {
            (c as u64) - ('0' as u64)
        } else if 'a' <= c && c <= 'f' {
            (c as u64) - ('a' as u64) + 10
        } else if 'A' <= c && c <= 'F' {
            (c as u64) - ('A' as u64) + 10
        } else {
            99
        };
        assert(s@.take(i + 1).drop_last() =~= s@.take(i as int));
        if d >= radix {
            proof {
                assert(digit_value(s@[i as int], radix as nat) is None);
                assert(!all_digits(s@, radix as nat));
            }
            return None;
        }
        assert((v as int) * (radix as int) <= 9223372036854775807 * 16) by (nonlinear_arith)
            requires
                v <= i64::MAX,
                radix <= 16,
        ;
        let w: u128 = (v as u128) * (radix as u128) + (d as u128);
        assert(w == digits_value(s@.take(i + 1), radix as nat)) by (nonlinear_arith)
            requires
                w == (v as u128) * (radix as u128) + (d as u128),
                v as nat == digits_value(s@.take(i as int), radix as nat),
                digits_value(s@.take(i + 1), radix as nat) == digits_value(s@.take(i as int), radix as nat) * (radix as nat) + d,
        ;
        if w > 9223372036854775807u128 {
            proof {
                if all_digits(s@, radix as nat) {
                    lemma_digits_value_grows(s@, (i + 1) as int, radix as nat);
                    assert(s@.take(s@.len() as int) =~= s@);
                }
            }
            return None;
        }
        v = w as u64;
        i = i + 1;
        assert forall|k: int| 0 <= k < i implies (#[trigger] digit_value(s@.take(i as int)[k], radix as nat)) is Some by {
            if k < i - 1 {
                assert(s@.take(i as int)[k] == s@.take(i - 1)[k]);
            }
        }
    }
    assert(s@.take(s@.len() as int) =~= s@);
    Some(v as i64)
}

proof fn lemma_digits_value_grows(s: Seq<char>, j: int, radix: nat)
    requires
        0 <= j <= s.len(),
        radix >= 1,
        all_digits(s, radix),
    ensures
        digits_value(s.take(j), radix) <= digits_value(s, radix),
    decreases s.len() - j,
{
    if j < s.len() {
        lemma_digits_value_grows(s, j + 1, radix);
        assert(s.take(j + 1).drop_last() =~= s.take(j));
        let a = digits_value(s.take(j), radix);
        assert(digit_value(s[j], radix) is Some);
        assert(s.take(j + 1).last() == s[j]);
        assert(a <= a * radix + digit_value(s[j], radix).unwrap()) by (nonlinear_arith)
            requires
                radix >= 1,
        ;
    } else {
        assert(s.take(j) =~= s);
    }
}

impl Lexer {
    fn peek(&self) -> (r: Option<char>)
        ensures
            r == at(self.input@, self.pos as int),
    {
        if self.pos < self.input.len() {
            Some(self.input[self.pos])
        } else {
            None
        }
    }

    fn next(&mut self) -> (r: Option<char>)
        requires
            old(self).pos < usize::MAX,
        ensures
            r == at(old(self).input@, old(self).pos as int),
            final(self).pos == old(self).pos + 1,
            final(self).input@ == old(self).input@,
            final(self).diagnostics == old(self).diagnostics,
    {
        let c = self.peek();
        self.pos = self.pos + 1;
        c
    }

    fn skip_ws(&mut self)
        ensures
            final(self).pos == scan(old(self).input@, old(self).pos as int, |c: char| is_ws(c)),
            final(self).input@ == old(self).input@,
            final(self).diagnostics == old(self).diagnostics,
    {
        while self.pos < self.input.len() && is_whitespace(self.input[self.pos])
            invariant
                self.input == old(self).input,
                self.diagnostics == old(self).diagnostics,
                scan(self.input@, self.pos as int, |c: char| is_ws(c)) == scan(
                    old(self).input@,
                    old(self).pos as int,
                    |c: char| is_ws(c),
                ),
            decreases self.input@.len() - self.pos,
        {
            self.pos = self.pos + 1;
        }
    }

    /// Reads the run of characters that satisfy the class `class` into `out`:
    /// 0 white space, 1 identifier characters, 2 numeric, 3 hexadecimal
    /// digits, 4 binary digits, 5 anything but a newline, 6 anything but `>`,
    /// 7 alphabetic.
    fn take_run(&mut self, class: u8, out: &mut Vec<char>)
        requires
            class <= 7,
            old(self).pos <= old(self).input@.len(),
        ensures
            final(self).pos == scan(old(self).input@, old(self).pos as int, class_pred(class)),
            final(out)@ == old(out)@ + old(self).input@.subrange(old(self).pos as int, final(self).pos as int),
            final(self).input@ == old(self).input@,
            final(self).diagnostics == old(self).diagnostics,
    {
        let ghost p = class_pred(class);
        assert(out@ =~= old(out)@ + self.input@.subrange(old(self).pos as int, self.pos as int));
        while self.pos < self.input.len() && in_class(class, self.input[self.pos])
            invariant
                class <= 7,
                p == class_pred(class),
                self.input == old(self).input,
                self.diagnostics == old(self).diagnostics,
                old(self).pos <= self.pos <= self.input@.len(),
                scan(self.input@, self.pos as int, p) == scan(old(self).input@, old(self).pos as int, p),
                out@ == old(out)@ + self.input@.subrange(old(self).pos as int, self.pos as int),
            decreases self.input@.len() - self.pos,
        {
            out.push(self.input[self.pos]);
            self.pos = self.pos + 1;
            assert(out@ =~= old(out)@ + self.input@.subrange(old(self).pos as int, self.pos as int));
        }
    }
}

/// The character classes that [`Lexer`] scans runs of, by number.
pub open spec fn class_pred(class: u8) -> spec_fn(char) -> bool {
    if class == 0 {
        |c: char| is_ws(c)
    } else if class == 1 {
        |c: char| is_ident_char(c)
    } else if class == 2 {
        |c: char| char_is_numeric(c)
    } else if class == 3 {
        |c: char| is_hex_digit(c)
    } else if class == 4 {
        |c: char| is_bin_digit(c)
    } else if class == 5 {
        |c: char| not_newline(c)
    } else if class == 6 {
        |c: char| not_close_angle(c)
    } else {
        |c: char| char_is_alphabetic(c)
    }
}

fn in_class(class: u8, c: char) -> (r: bool)
    requires
        class <= 7,
    ensures
        r == class_pred(class)(c),
{
    if class == 0 {
        is_whitespace(c)
    } else if class == 1 {
        is_alphanumeric(c) || c == '_'
    } else if class == 2 {
        is_numeric(c)
    } else if class == 3 {
        is_ascii_hexdigit(c)
    } else if class == 4 {
        c == '0' || c == '1'
    } else if class == 5 {
        c != '\n'
    } else if class == 6 {
        c != '>'
    } else {
        is_alphabetic(c)
    }
}


/// A `String` holding the characters of `v`.
pub fn string_of(v: &Vec<char>) -> (r: String)
    ensures
        r@ == v@,
{
    let mut r = String::new();
    let mut i: usize = 0;
    while i < v.len()
        invariant
            i <= v@.len(),
            r@ == v@.take(i as int),
        decreases v@.len() - i,
    {
        push_char(&mut r, v[i]);
        i = i + 1;
        assert(r@ =~= v@.take(i as int));
    }
    assert(v@.take(v@.len() as int) =~= v@);
    r
}

impl Lexer {
    /// Records a message.
    pub fn report(&mut self, msg: String)
        ensures
            final(self).messages() == old(self).messages().push(msg@),
            final(self).source() == old(self).source(),
            final(self).position() == old(self).position(),
    {
        self.diagnostics.push(msg);
        assert(msgs(self.diagnostics@) =~= msgs(old(self).diagnostics@).push(msg@));
    }

    fn skip_run(&mut self, class: u8)
        requires
            class <= 7,
            old(self).pos <= old(self).input@.len(),
        ensures
            final(self).pos == scan(old(self).input@, old(self).pos as int, class_pred(class)),
            final(self).input@ == old(self).input@,
            final(self).diagnostics == old(self).diagnostics,
    {
        let mut scratch: Vec<char> = Vec::new();
        self.take_run(class, &mut scratch);
    }

    fn ident(&mut self) -> (t: Token)
        requires
            old(self).pos <= old(self).input@.len(),
        ensures
            ({
                let e = scan(old(self).input@, old(self).pos as int, |c: char| is_ident_char(c));
                &&& t@ == word_token(old(self).input@.subrange(old(self).pos as int, e))
                &&& final(self).pos == e
            }),
            final(self).input@ == old(self).input@,
            final(self).diagnostics == old(self).diagnostics,
    {
        let mut v: Vec<char> = Vec::new();
        self.take_run(1, &mut v);
        assert(class_pred(1) == (|c: char| is_ident_char(c)));
        let s = string_of(&v);
        if str_eq(s.as_str(), "let") {
            Token::Let
        } else if str_eq(s.as_str(), "fn") {
            Token::Fn
        } else if str_eq(s.as_str(), "return") {
            Token::Return
        } else if str_eq(s.as_str(), "if") {
            Token::If
        } else if str_eq(s.as_str(), "elif") {
            Token::Elif
        } else if str_eq(s.as_str(), "else") {
            Token::Else
        } else if str_eq(s.as_str(), "loop") {
            Token::Loop
        } else if str_eq(s.as_str(), "break") {
            Token::Break
        } else if str_eq(s.as_str(), "continue") {
            Token::Continue
        } else if str_eq(s.as_str(), "export") {
            Token::Export
        } else if str_eq(s.as_str(), "struct") {
            Token::Struct
        } else {
            Token::Ident(s)
        }
    }

    fn number(&mut self) -> (t: Token)
        requires
            old(self).input@.len() + 2 <= usize::MAX,
            old(self).pos < old(self).input@.len(),
            lex_number(old(self).input@, old(self).pos as int) is Some,
            old(self).input@[old(self).pos as int] == '0' || char_is_numeric(
                old(self).input@[old(self).pos as int],
            ),
        ensures
            ({
                let r = lex_number(old(self).input@, old(self).pos as int).unwrap();
                &&& t@ == r.0
                &&& final(self).pos == r.1
            }),
            final(self).input@ == old(self).input@,
            final(self).diagnostics == old(self).diagnostics,
    {
        let ghost p = self.pos as int;
        let ghost input = self.input@;
        let mut s: Vec<char> = Vec::new();
        if self.input[self.pos] == '0' {
            self.next();
            s.push('0');
            if self.peek() == Some('x') {
                self.next();
                let mut hex: Vec<char> = Vec::new();
                self.take_run(3, &mut hex);
                assert(class_pred(3) == (|c: char| is_hex_digit(c)));
                assert(hex@ =~= input.subrange(p + 2, self.pos as int));
                return Token::Number(parse_digits(&hex, 16).unwrap());
            } else if self.peek() == Some('b') {
                self.next();
                let mut bin: Vec<char> = Vec::new();
                self.take_run(4, &mut bin);
                assert(class_pred(4) == (|c: char| is_bin_digit(c)));
                assert(bin@ =~= input.subrange(p + 2, self.pos as int));
                return Token::Number(parse_digits(&bin, 2).unwrap());
            }
        } else {
            let c0 = self.input[self.pos];
            self.next();
            s.push(c0);
        }
        assert(s@ =~= input.subrange(p, p + 1));
        self.take_run(2, &mut s);
        assert(class_pred(2) == (|c: char| char_is_numeric(c)));
        proof {
            lemma_scan_bounds(input, p + 1, |c: char| char_is_numeric(c));
        }
        assert(s@ =~= input.subrange(p, self.pos as int));
        Token::Number(parse_digits(&s, 10).unwrap())
    }

    fn skip_block_comment(&mut self)
        requires
            old(self).input@.len() + 2 <= usize::MAX,
            old(self).pos <= old(self).input@.len(),
        ensures
            final(self).pos == block_end(old(self).input@, old(self).pos as int),
            final(self).input@ == old(self).input@,
            final(self).diagnostics == old(self).diagnostics,
    {
        let ghost e = block_end(self.input@, self.pos as int);
        loop
            invariant
                self.input@ == old(self).input@,
                self.diagnostics == old(self).diagnostics,
                self.pos <= self.input@.len(),
                self.input@.len() + 2 <= usize::MAX,
                block_end(self.input@, self.pos as int) == e,
                e == block_end(old(self).input@, old(self).pos as int),
            decreases self.input@.len() + 1 - self.pos,
        {
            let ghost i = self.pos as int;
            match self.next() {
                Some(c) => {
                    if c == '*' && self.peek() == Some('/') {
                        self.next();
                        assert(block_end(self.input@, i) == i + 2);
                        assert(self.pos == e);
                        return;
                    }
                    assert(block_end(self.input@, i) == block_end(self.input@, i + 1));
                },
                None => {
                    assert(block_end(self.input@, i) == i + 1);
                    assert(self.pos == e);
                    return;
                },
            }
        }
    }

    fn directive(&mut self) -> (t: Token)
        requires
            old(self).input@.len() + 2 <= usize::MAX,
            old(self).pos <= old(self).input@.len(),
        ensures
            ({
                let r = lex_directive(old(self).input@, old(self).pos as int);
                &&& t@ == r.0
                &&& final(self).pos == r.1
                &&& final(self).messages() == old(self).messages() + r.2
            }),
            final(self).input@ == old(self).input@,
    {
        let ghost input = self.input@;
        let ghost q = self.pos as int;
        let mut d: Vec<char> = Vec::new();
        self.take_run(7, &mut d);
        assert(class_pred(7) == (|c: char| char_is_alphabetic(c)));
        proof {
            lemma_scan_bounds(input, q, |c: char| char_is_alphabetic(c));
        }
        let directive = string_of(&d);
        if str_eq(directive.as_str(), "include") {
            let ghost d_end = self.pos as int;
            self.skip_ws();
            proof {
                lemma_scan_bounds(input, d_end, |c: char| is_ws(c));
            }
            let ghost r = self.pos as int;
            if self.next() == Some('<') {
                let mut name: Vec<char> = Vec::new();
                self.take_run(6, &mut name);
                assert(class_pred(6) == (|c: char| not_close_angle(c)));
                if self.pos < self.input.len() {
                    self.next();
                    return Token::Include(string_of(&name));
                }
                self.report(String::from_str("Unterminated include directive: expected '>'"));
                assert(self.messages() =~= old(self).messages() + lex_directive(input, q).2);
                Token::Unknown
            } else {
                self.report(String::from_str("Expected '<' after #include"));
                assert(self.messages() =~= old(self).messages() + lex_directive(input, q).2);
                Token::Unknown
            }
        } else {
            let mut msg = String::from_str("Unknown directive #");
            msg.append(directive.as_str());
            self.report(msg);
            assert(self.messages() =~= old(self).messages() + lex_directive(input, q).2);
            Token::Unknown
        }
    }

    fn symbol(&mut self, c: char) -> (t: Option<Token>)
        requires
            old(self).input@.len() + 2 <= usize::MAX,
            old(self).pos >= 1,
            old(self).pos <= old(self).input@.len(),
        ensures
            ({
                let r = lex_symbol(old(self).input@, old(self).pos - 1, c);
                match r {
                    Some(step) => {
                        &&& t is Some
                        &&& t.unwrap()@ == step.0
                        &&& final(self).pos == step.1
                        &&& final(self).messages() == old(self).messages() + step.2
                    },
                    None => t is None && final(self).pos == old(self).pos && final(self).messages()
                        == old(self).messages(),
                }
            }),
            final(self).input@ == old(self).input@,
    {
        let ghost m = self.messages();
        let t = if c == '(' {
            Token::LParen
        } else if c == ')' {
            Token::RParen
        } else if c == '{' {
            Token::LBrace
        } else if c == '}' {
            Token::RBrace
        } else if c == '[' {
            Token::LBracket
        } else if c == ']' {
            Token::RBracket
        } else if c == ',' {
            Token::Comma
        } else if c == ';' {
            Token::Semicolon
        } else if c == ':' {
            Token::Colon
        } else if c == '.' {
            Token::Dot
        } else if c == '+' {
            Token::Plus
        } else if c == '-' {
            Token::Minus
        } else if c == '*' {
            Token::Star
        } else if c == '=' {
            if self.peek() == Some('=') {
                self.next();
                Token::EqEq
            } else {
                Token::Assign
            }
        } else if c == '!' {
            if self.peek() == Some('=') {
                self.next();
                Token::NotEq
            } else {
                self.report(String::from_str("Unexpected !"));
                assert(self.messages() =~= m + seq!["Unexpected !"@]);
                Token::Unknown
            }
        } else if c == '<' {
            if self.peek() == Some('=') {
                self.next();
                Token::LtEq
            } else {
                Token::Lt
            }
        } else if c == '>' {
            if self.peek() == Some('=') {
                self.next();
                Token::GtEq
            } else {
                Token::Gt
            }
        } else {
            assert(self.messages() =~= m + Seq::<Seq<char>>::empty());
            return None;
        };
        proof {
            if !(c == '!' && at(self.input@, old(self).pos as int) != Some('=')) {
                assert(self.messages() =~= m + Seq::<Seq<char>>::empty());
            }
        }
        Some(t)
    }

    /// Scans and returns the next token from the input.
    pub fn next_token(&mut self) -> (t: Token)
        requires
            lex(old(self).source(), old(self).position()) is Some,
            old(self).source().len() + 2 <= usize::MAX,
        ensures
            ({
                let r = lex(old(self).source(), old(self).position()).unwrap();
                &&& t@ == r.0
                &&& final(self).position() == r.1
                &&& final(self).messages() == old(self).messages() + r.2
            }),
            final(self).source() == old(self).source(),
        decreases old(self).source().len() + 2 - old(self).position(),
    {
        let ghost input = self.input@;
        let ghost pos0 = self.pos as int;
        self.skip_ws();
        proof {
            lemma_scan_bounds(input, pos0, |c: char| is_ws(c));
        }
        let p = self.pos;
        if p >= self.input.len() {
            self.next();
            assert(self.messages() =~= old(self).messages() + Seq::<Seq<char>>::empty());
            return Token::EOF;
        }
        let c = self.input[p];
        self.next();
        if c == '/' {
            if self.peek() == Some('/') {
                self.skip_run(5);
                assert(class_pred(5) == (|c: char| not_newline(c)));
                return self.next_token();
            } else if self.peek() == Some('*') {
                self.next();
                proof {
                    lemma_block_end(input, (p + 2) as int);
                }
                self.skip_block_comment();
                return self.next_token();
            } else {
                assert(self.messages() =~= old(self).messages() + Seq::<Seq<char>>::empty());
                return Token::Slash;
            }
        }
        match self.symbol(c) {
            Some(t) => {
                return t;
            },
            None => {},
        }
        if is_alphabetic(c) || c == '_' {
            self.pos = p;
            let t = self.ident();
            assert(self.messages() =~= old(self).messages() + Seq::<Seq<char>>::empty());
            t
        } else if is_numeric(c) {
            self.pos = p;
            let t = self.number();
            assert(self.messages() =~= old(self).messages() + Seq::<Seq<char>>::empty());
            t
        } else if c == '#' {
            self.directive()
        } else {
            let mut msg = String::from_str("Unexpected char ");
            push_char(&mut msg, c);
            self.report(msg);
            assert(self.messages() =~= old(self).messages() + seq!["Unexpected char "@.push(c)]);
            Token::Unknown
        }
    }
}

/// What the token's `Display` writes.
pub open spec fn display_v(t: TokenV) -> Seq<char> {
    match t {
        TokenV::Let => "let"@,
        TokenV::Fn => "fn"@,
        TokenV::Return => "return"@,
        TokenV::If => "if"@,
        TokenV::Elif => "elif"@,
        TokenV::Else => "else"@,
        TokenV::Loop => "loop"@,
        TokenV::Break => "break"@,
        TokenV::Continue => "continue"@,
        TokenV::Export => "export"@,
        TokenV::Struct => "struct"@,
        TokenV::LParen => "("@,
        TokenV::RParen => ")"@,
        TokenV::LBrace => "{"@,
        TokenV::RBrace => "}"@,
        TokenV::LBracket => "["@,
        TokenV::RBracket => "]"@,
        TokenV::Comma => ","@,
        TokenV::Semicolon => ";"@,
        TokenV::Colon => ":"@,
        TokenV::Dot => "."@,
        TokenV::Plus => "+"@,
        TokenV::Minus => "-"@,
        TokenV::Star => "*"@,
        TokenV::Slash => "/"@,
        TokenV::EqEq => "=="@,
        TokenV::NotEq => "!="@,
        TokenV::Lt => "<"@,
        TokenV::Gt => ">"@,
        TokenV::LtEq => "<="@,
        TokenV::GtEq => ">="@,
        TokenV::Assign => "="@,
        TokenV::EOF => "<EOF>"@,
        TokenV::Arrow => "Arrow"@,
        TokenV::Unknown => "None"@,
        TokenV::Ident(name) => name,
        TokenV::Number(n) => decimal(n as int),
        TokenV::Include(name) => "#include <"@ + name + ">"@,
    }
}

/// What the token's `Debug` writes.
pub open spec fn debug_v(t: TokenV) -> Seq<char> {
    match t {
        TokenV::Let => "Let"@,
        TokenV::Fn => "Fn"@,
        TokenV::Return => "Return"@,
        TokenV::If => "If"@,
        TokenV::Elif => "Elif"@,
        TokenV::Else => "Else"@,
        TokenV::Loop => "Loop"@,
        TokenV::Break => "Break"@,
        TokenV::Continue => "Continue"@,
        TokenV::Export => "Export"@,
        TokenV::Struct => "Struct"@,
        TokenV::LParen => "LParen"@,
        TokenV::RParen => "RParen"@,
        TokenV::LBrace => "LBrace"@,
        TokenV::RBrace => "RBrace"@,
        TokenV::LBracket => "LBracket"@,
        TokenV::RBracket => "RBracket"@,
        TokenV::Comma => "Comma"@,
        TokenV::Semicolon => "Semicolon"@,
        TokenV::Colon => "Colon"@,
        TokenV::Dot => "Dot"@,
        TokenV::Plus => "Plus"@,
        TokenV::Minus => "Minus"@,
        TokenV::Star => "Star"@,
        TokenV::Slash => "Slash"@,
        TokenV::EqEq => "EqEq"@,
        TokenV::NotEq => "NotEq"@,
        TokenV::Lt => "Lt"@,
        TokenV::Gt => "Gt"@,
        TokenV::LtEq => "LtEq"@,
        TokenV::GtEq => "GtEq"@,
        TokenV::Assign => "Assign"@,
        TokenV::EOF => "EOF"@,
        TokenV::Arrow => "Arrow"@,
        TokenV::Unknown => "None"@,
        TokenV::Ident(name) => "Ident("@ + debug_quoted(name) + ")"@,
        TokenV::Number(n) => "Number("@ + decimal(n as int) + ")"@,
        TokenV::Include(name) => "Include("@ + debug_quoted(name) + ")"@,
    }
}

/// A token and its value have the same variant.
pub proof fn lemma_token_variant(t: &Token)
    ensures
        (t@ is Let) <==> (t is Let),
        (t@ is Fn) <==> (t is Fn),
        (t@ is Return) <==> (t is Return),
        (t@ is If) <==> (t is If),
        (t@ is Elif) <==> (t is Elif),
        (t@ is Else) <==> (t is Else),
        (t@ is Loop) <==> (t is Loop),
        (t@ is Break) <==> (t is Break),
        (t@ is Continue) <==> (t is Continue),
        (t@ is Export) <==> (t is Export),
        (t@ is Struct) <==> (t is Struct),
        (t@ is LParen) <==> (t is LParen),
        (t@ is RParen) <==> (t is RParen),
        (t@ is LBrace) <==> (t is LBrace),
        (t@ is RBrace) <==> (t is RBrace),
        (t@ is LBracket) <==> (t is LBracket),
        (t@ is RBracket) <==> (t is RBracket),
        (t@ is Comma) <==> (t is Comma),
        (t@ is Semicolon) <==> (t is Semicolon),
        (t@ is Colon) <==> (t is Colon),
        (t@ is Dot) <==> (t is Dot),
        (t@ is Plus) <==> (t is Plus),
        (t@ is Minus) <==> (t is Minus),
        (t@ is Star) <==> (t is Star),
        (t@ is Slash) <==> (t is Slash),
        (t@ is EqEq) <==> (t is EqEq),
        (t@ is NotEq) <==> (t is NotEq),
        (t@ is Lt) <==> (t is Lt),
        (t@ is Gt) <==> (t is Gt),
        (t@ is LtEq) <==> (t is LtEq),
        (t@ is GtEq) <==> (t is GtEq),
        (t@ is Assign) <==> (t is Assign),
        (t@ is EOF) <==> (t is EOF),
        (t@ is Arrow) <==> (t is Arrow),
        (t@ is Unknown) <==> (t is Unknown),
        (t@ is Ident) <==> (t is Ident),
        (t@ is Number) <==> (t is Number),
        (t@ is Include) <==> (t is Include),
{
}

impl Token {
    /// The text the token's `Display` writes (the token as it is spelt;
    /// `<EOF>` for the end of input).
    pub fn display_text(&self) -> (r: String)
        ensures
            r@ == display_v(self@),
    {
        match self {
            Token::Let => String::from_str("let"),
            Token::Fn => String::from_str("fn"),
            Token::Return => String::from_str("return"),
            Token::If => String::from_str("if"),
            Token::Elif => String::from_str("elif"),
            Token::Else => String::from_str("else"),
            Token::Loop => String::from_str("loop"),
            Token::Break => String::from_str("break"),
            Token::Continue => String::from_str("continue"),
            Token::Export => String::from_str("export"),
            Token::Struct => String::from_str("struct"),
            Token::LParen => String::from_str("("),
            Token::RParen => String::from_str(")"),
            Token::LBrace => String::from_str("{"),
            Token::RBrace => String::from_str("}"),
            Token::LBracket => String::from_str("["),
            Token::RBracket => String::from_str("]"),
            Token::Comma => String::from_str(","),
            Token::Semicolon => String::from_str(";"),
            Token::Colon => String::from_str(":"),
            Token::Dot => String::from_str("."),
            Token::Plus => String::from_str("+"),
            Token::Minus => String::from_str("-"),
            Token::Star => String::from_str("*"),
            Token::Slash => String::from_str("/"),
            Token::EqEq => String::from_str("=="),
            Token::NotEq => String::from_str("!="),
            Token::Lt => String::from_str("<"),
            Token::Gt => String::from_str(">"),
            Token::LtEq => String::from_str("<="),
            Token::GtEq => String::from_str(">="),
            Token::Assign => String::from_str("="),
            Token::EOF => String::from_str("<EOF>"),
            Token::Arrow => String::from_str("Arrow"),
            Token::Unknown => String::from_str("None"),
            Token::Ident(name) => name.clone(),
            Token::Number(n) => {
                let mut s = String::new();
                push_decimal(&mut s, *n);
                assert(s@ =~= decimal(*n as int));
                s
            },
            Token::Include(name) => {
                let mut s = String::from_str("#include <");
                s.append(name.as_str());
                s.append(">");
                s
            },
        }
    }

    /// The text the token's `Debug` writes (the variant's name, with its
    /// payload in parentheses).
    pub fn debug_text(&self) -> (r: String)
        ensures
            r@ == debug_v(self@),
    {
        match self {
            Token::Let => String::from_str("Let"),
            Token::Fn => String::from_str("Fn"),
            Token::Return => String::from_str("Return"),
            Token::If => String::from_str("If"),
            Token::Elif => String::from_str("Elif"),
            Token::Else => String::from_str("Else"),
            Token::Loop => String::from_str("Loop"),
            Token::Break => String::from_str("Break"),
            Token::Continue => String::from_str("Continue"),
            Token::Export => String::from_str("Export"),
            Token::Struct => String::from_str("Struct"),
            Token::LParen => String::from_str("LParen"),
            Token::RParen => String::from_str("RParen"),
            Token::LBrace => String::from_str("LBrace"),
            Token::RBrace => String::from_str("RBrace"),
            Token::LBracket => String::from_str("LBracket"),
            Token::RBracket => String::from_str("RBracket"),
            Token::Comma => String::from_str("Comma"),
            Token::Semicolon => String::from_str("Semicolon"),
            Token::Colon => String::from_str("Colon"),
            Token::Dot => String::from_str("Dot"),
            Token::Plus => String::from_str("Plus"),
            Token::Minus => String::from_str("Minus"),
            Token::Star => String::from_str("Star"),
            Token::Slash => String::from_str("Slash"),
            Token::EqEq => String::from_str("EqEq"),
            Token::NotEq => String::from_str("NotEq"),
            Token::Lt => String::from_str("Lt"),
            Token::Gt => String::from_str("Gt"),
            Token::LtEq => String::from_str("LtEq"),
            Token::GtEq => String::from_str("GtEq"),
            Token::Assign => String::from_str("Assign"),
            Token::EOF => String::from_str("EOF"),
            Token::Arrow => String::from_str("Arrow"),
            Token::Unknown => String::from_str("None"),
            Token::Ident(name) => {
                let mut s = String::from_str("Ident(");
                let q = debug_string(name.as_str());
                s.append(q.as_str());
                s.append(")");
                s
            },
            Token::Number(n) => {
                let mut s = String::from_str("Number(");
                push_decimal(&mut s, *n);
                s.append(")");
                s
            },
            Token::Include(name) => {
                let mut s = String::from_str("Include(");
                let q = debug_string(name.as_str());
                s.append(q.as_str());
                s.append(")");
                s
            },
        }
    }

    /// Whether two tokens are the same token.
    pub fn same(&self, other: &Token) -> (r: bool)
        ensures
            r == (self@ == other@),
    {
        proof {
            lemma_token_variant(other);
        }
        match self {
            Token::Let => matches!(other, Token::Let),
            Token::Fn => matches!(other, Token::Fn),
            Token::Return => matches!(other, Token::Return),
            Token::If => matches!(other, Token::If),
            Token::Elif => matches!(other, Token::Elif),
            Token::Else => matches!(other, Token::Else),
            Token::Loop => matches!(other, Token::Loop),
            Token::Break => matches!(other, Token::Break),
            Token::Continue => matches!(other, Token::Continue),
            Token::Export => matches!(other, Token::Export),
            Token::Struct => matches!(other, Token::Struct),
            Token::LParen => matches!(other, Token::LParen),
            Token::RParen => matches!(other, Token::RParen),
            Token::LBrace => matches!(other, Token::LBrace),
            Token::RBrace => matches!(other, Token::RBrace),
            Token::LBracket => matches!(other, Token::LBracket),
            Token::RBracket => matches!(other, Token::RBracket),
            Token::Comma => matches!(other, Token::Comma),
            Token::Semicolon => matches!(other, Token::Semicolon),
            Token::Colon => matches!(other, Token::Colon),
            Token::Dot => matches!(other, Token::Dot),
            Token::Plus => matches!(other, Token::Plus),
            Token::Minus => matches!(other, Token::Minus),
            Token::Star => matches!(other, Token::Star),
            Token::Slash => matches!(other, Token::Slash),
            Token::EqEq => matches!(other, Token::EqEq),
            Token::NotEq => matches!(other, Token::NotEq),
            Token::Lt => matches!(other, Token::Lt),
            Token::Gt => matches!(other, Token::Gt),
            Token::LtEq => matches!(other, Token::LtEq),
            Token::GtEq => matches!(other, Token::GtEq),
            Token::Assign => matches!(other, Token::Assign),
            Token::EOF => matches!(other, Token::EOF),
            Token::Arrow => matches!(other, Token::Arrow),
            Token::Unknown => matches!(other, Token::Unknown),
            Token::Ident(a) => match other {
                Token::Ident(b) => str_eq(a.as_str(), b.as_str()),
                _ => false,
            },
            Token::Number(a) => match other {
                Token::Number(b) => *a == *b,
                _ => false,
            },
            Token::Include(a) => match other {
                Token::Include(b) => str_eq(a.as_str(), b.as_str()),
                _ => false,
            },
        }
    }
}


impl Lexer {
    /// The messages reported.
    pub fn into_messages(self) -> (r: Vec<String>)
        ensures
            msgs(r@) == self.messages(),
    {
        self.diagnostics
    }

    /// The number of characters being lexed.
    pub fn len(&self) -> (r: usize)
        ensures
            r == self.source().len(),
    {
        self.input.len()
    }

    /// Moves the read position to `p`.
    pub fn set_position(&mut self, p: usize)
        ensures
            final(self).position() == p,
            final(self).source() == old(self).source(),
            final(self).messages() == old(self).messages(),
    {
        self.pos = p;
    }

    /// Appends `text` to the input still to be read.
    pub fn extend_input(&mut self, text: &str)
        ensures
            final(self).source() == old(self).source() + text@,
            final(self).position() == old(self).position(),
            final(self).messages() == old(self).messages(),
    {
        for c in it: text.chars()
            invariant
                self.input@ == old(self).input@ + it.seq().take(it.index() as int),
                self.pos == old(self).pos,
                self.diagnostics == old(self).diagnostics,
        {
            self.input.push(c);
            assert(self.input@ =~= old(self).input@ + it.seq().take(it.index() + 1));
        }
        proof {
            broadcast use vstd::string::group_string_axioms;
            assert(self.input@ =~= old(self).input@ + text@);
        }
    }
}

} // verus!
