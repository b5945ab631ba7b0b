//! The meaning of parsing: each function here takes the parser's state
//! (the lexer's input and position, the current and next token, the token
//! count and the messages reported) and gives what the parser's function of
//! the same name returns and the state it leaves, or `None` when the parser
//! would panic or not return. The last argument is fuel: a bound on the
//! depth of calls and loop rounds, so that every run that returns is
//! described with enough fuel.
use vstd::prelude::*;
use crate::ast::{ExprV, StmtV, TypeV, Op};
use crate::lexer::{TokenV, lex, display_v, debug_v};
use crate::text::{hex_alt, repeat};
use crate::fs::library_text;

verus! {

/// The state of a [`crate::parser::Parser`].
pub struct PState {
    pub input: Seq<char>,
    pub pos: int,
    pub current: TokenV,
    pub next: TokenV,
    pub position: int,
    pub msgs: Seq<Seq<char>>,
}

/// The state after the parser reports `m`.
pub open spec fn err(s: PState, m: Seq<char>) -> PState {
    PState { msgs: s.msgs.push(m), ..s }
}

/// `advance`: the next token moves to `current` and a new one is lexed.
pub open spec fn adv(s: PState) -> Option<PState> {
    if s.position >= u64::MAX || s.input.len() + 2 > usize::MAX {
        None
    } else {
        match lex(s.input, s.pos) {
            Some((t, p, m)) => Some(
                PState {
                    input: s.input,
                    pos: p,
                    current: s.next,
                    next: t,
                    position: s.position + 1,
                    msgs: s.msgs + m,
                },
            ),
            None => None,
        }
    }
}

/// The underline under a token in messages: one `^` per byte of its text.
pub open spec fn arrow(t: TokenV) -> Seq<char> {
    repeat('^', (vstd::utf8::encode_utf8(display_v(t)).len() as usize) as nat)
}

/// The message when `expect(t)` finds another token.
pub open spec fn expect_msg(s: PState, t: TokenV) -> Seq<char> {
    "(@"@ + hex_alt(s.position as nat) + "), Expected "@ + debug_v(t) + ", got "@ + debug_v(
        s.current,
    ) + "\n "@ + display_v(s.current) + " "@ + display_v(s.next) + "\n "@ + arrow(s.current)
}

/// The message when a `.` is not followed by a field name.
pub open spec fn field_msg(s: PState) -> Seq<char> {
    "(@"@ + hex_alt(s.position as nat) + ") Expected field name\n "@ + display_v(s.current) + " "@
        + display_v(s.next) + "\n "@ + arrow(s.current)
}

/// The message when no expression starts at the current token.
pub open spec fn unexpected_msg(s: PState) -> Seq<char> {
    "(@"@ + hex_alt(s.position as nat) + ") Unexpected token: "@ + display_v(s.current) + "\n "@
        + display_v(s.current) + " "@ + display_v(s.next) + "\n "@ + arrow(s.current)
}

/// `expect(t)`: advances, reporting first if the current token is not `t`.
pub open spec fn expect(s: PState, t: TokenV) -> Option<PState> {
    if s.current == t {
        adv(s)
    } else {
        adv(err(s, expect_msg(s, t)))
    }
}

/// The part of `p` after its last `.` (all of `p` if it has none).
pub open spec fn last_segment(p: Seq<char>) -> Seq<char>
    decreases p.len(),
{
    if p.len() == 0 {
        p
    } else if p.last() == '.' {
        Seq::empty()
    } else {
        last_segment(p.drop_last()).push(p.last())
    }
}

/// The type a `let` annotation names.
pub open spec fn let_type(t: Seq<char>) -> TypeV {
    if t == "i64"@ {
        TypeV::I64
    } else if t == "bool"@ {
        TypeV::Bool
    } else if t == "ptr"@ {
        TypeV::Ptr(Box::new(TypeV::I64))
    } else {
        TypeV::Struct(t)
    }
}

/// The type a struct field annotation names.
pub open spec fn field_type(t: Seq<char>) -> TypeV {
    if t == "i64"@ {
        TypeV::I64
    } else if t == "bool"@ {
        TypeV::Bool
    } else {
        TypeV::Struct(t)
    }
}

/// The operator a token stands for at a precedence level: 0 the six
/// comparisons, which share one level, 1 additive, 2 multiplicative.
pub open spec fn level_op(level: nat, t: TokenV) -> Option<Op> {
    match t {
        TokenV::EqEq => if level == 0 { Some(Op::Eq) } else { None },
        TokenV::NotEq => if level == 0 { Some(Op::Neq) } else { None },
        TokenV::Lt => if level == 0 { Some(Op::Lt) } else { None },
        TokenV::Gt => if level == 0 { Some(Op::Gt) } else { None },
        TokenV::LtEq => if level == 0 { Some(Op::LtEq) } else { None },
        TokenV::GtEq => if level == 0 { Some(Op::GtEq) } else { None },
        TokenV::Plus => if level == 1 { Some(Op::Add) } else { None },
        TokenV::Minus => if level == 1 { Some(Op::Sub) } else { None },
        TokenV::Star => if level == 2 { Some(Op::Mul) } else { None },
        TokenV::Slash => if level == 2 { Some(Op::Div) } else { None },
        _ => None,
    }
}

/// `-e`: a negated literal is the negative literal; any other operand
/// becomes `0 - e`.
pub open spec fn negate(e: ExprV) -> ExprV {
    match e {
        ExprV::Number(n) => if n > i64::MIN {
            ExprV::Number((-n) as i64)
        } else {
            ExprV::Binary(Box::new(ExprV::Number(0)), Op::Sub, Box::new(e))
        },
        _ => ExprV::Binary(Box::new(ExprV::Number(0)), Op::Sub, Box::new(e)),
    }
}

/// `#include <p>` as a statement: the library's text is appended to the
/// input, so its declarations follow the program's own statements. When
/// the include was the last thing in the input, the token after it is read
/// again, from the appended text.
pub open spec fn parse_include(s: PState, p: Seq<char>) -> Option<(StmtV, PState)> {
    let s1 = include_state(s, p);
    let s2 = if s.next == TokenV::EOF && library_text(p) is Some {
        match lex(s1.input, s.input.len() as int) {
            Some((t, q, m)) => Some(PState { pos: q, next: t, msgs: s1.msgs + m, ..s1 }),
            None => None,
        }
    } else {
        Some(s1)
    };
    match s2 {
        Some(s2) => match adv(s2) {
            Some(s3) => Some((StmtV::Import { name: p }, s3)),
            None => None,
        },
        None => None,
    }
}

/// The parameter names up to `)`; an identifier is taken, then a comma
/// skipped. A token that is neither makes the parser loop without end.
pub open spec fn params(s: PState, acc: Seq<Seq<char>>, f: nat) -> Option<(Seq<Seq<char>>, PState)>
    decreases f,
{
    if f == 0 {
        None
    } else if s.current == TokenV::RParen {
        Some((acc, s))
    } else {
        let (acc1, s1) = match s.current {
            TokenV::Ident(p) => (acc.push(p), adv(s)),
            _ => (acc, Some(s)),
        };
        match s1 {
            Some(s1) => {
                let s2 = if s1.current == TokenV::Comma {
                    adv(s1)
                } else {
                    Some(s1)
                };
                match s2 {
                    Some(s2) => params(s2, acc1, (f - 1) as nat),
                    None => None,
                }
            },
            None => None,
        }
    }
}

/// `parse_program`: statements up to the end of input.
pub open spec fn program_loop(s: PState, acc: Seq<StmtV>, f: nat) -> Option<(Seq<StmtV>, PState)>
    decreases f, 0nat,
{
    if f == 0 {
        None
    } else if s.current == TokenV::EOF {
        Some((acc, s))
    } else {
        match parse_stmt(s, (f - 1) as nat) {
            Some((st, s1)) => program_loop(s1, acc.push(st), (f - 1) as nat),
            None => None,
        }
    }
}

/// `parse_stmt`.
pub open spec fn parse_stmt(s: PState, f: nat) -> Option<(StmtV, PState)>
    decreases f, 1nat,
{
    if f == 0 {
        None
    } else {
        let g = (f - 1) as nat;
        match s.current {
            TokenV::Let => parse_let(s, g),
            TokenV::Struct => parse_struct(s, g),
            TokenV::Fn => parse_fn(s, g),
            TokenV::Export => parse_fn(s, g),
            TokenV::If => parse_if(s, g),
            TokenV::Loop => parse_loop(s, g),
            TokenV::Return => parse_return(s, g),
            TokenV::Break => match adv(s) {
                Some(s1) => match expect(s1, TokenV::Semicolon) {
                    Some(s2) => Some((StmtV::Break, s2)),
                    None => None,
                },
                None => None,
            },
            TokenV::Continue => match adv(s) {
                Some(s1) => match expect(s1, TokenV::Semicolon) {
                    Some(s2) => Some((StmtV::Continue, s2)),
                    None => None,
                },
                None => None,
            },
            TokenV::Ident(name) => if name == "extern"@ && s.next == TokenV::Fn {
                parse_extern(s, g)
            } else if s.next == TokenV::Assign {
                parse_assign(s, g)
            } else {
                parse_expr_stmt(s, g)
            },
            TokenV::Include(p) => parse_include(s, p),
            _ => parse_expr_stmt(s, g),
        }
    }
}

/// A statement that starts with an expression: a field or index assignment,
/// `poke(addr, value);`, or an expression statement.
pub open spec fn parse_expr_stmt(s: PState, f: nat) -> Option<(StmtV, PState)>
    decreases f, 0nat,
{
    if f == 0 {
        None
    } else {
        let g = (f - 1) as nat;
        match parse_expr(s, g) {
            Some((e, s1)) => match e {
                ExprV::Field(base, field) if s1.current == TokenV::Assign => match adv(s1) {
                    Some(s2) => match parse_expr(s2, g) {
                        Some((v, s3)) => match expect(s3, TokenV::Semicolon) {
                            Some(s4) => Some((StmtV::AssignField { base: *base, field, value: v }, s4)),
                            None => None,
                        },
                        None => None,
                    },
                    None => None,
                },
                ExprV::Index(base, index) if s1.current == TokenV::Assign => match adv(s1) {
                    Some(s2) => match parse_expr(s2, g) {
                        Some((v, s3)) => match expect(s3, TokenV::Semicolon) {
                            Some(s4) => Some(
                                (StmtV::AssignIndex { base: *base, index: *index, value: v }, s4),
                            ),
                            None => None,
                        },
                        None => None,
                    },
                    None => None,
                },
                _ => match expect(s1, TokenV::Semicolon) {
                    Some(s2) => match e {
                        ExprV::Call(name, args) if name == "poke"@ => if args.len() >= 2 {
                            Some((StmtV::Poke(args[0], args[1]), s2))
                        } else {
                            None
                        },
                        _ => Some((StmtV::Expr(e), s2)),
                    },
                    None => None,
                },
            },
            None => None,
        }
    }
}

/// `parse_let`.
pub open spec fn parse_let(s: PState, f: nat) -> Option<(StmtV, PState)>
    decreases f, 0nat,
{
    if f == 0 {
        None
    } else {
        let g = (f - 1) as nat;
        match adv(s) {
            Some(s1) => match s1.current {
                TokenV::Ident(name) => match adv(s1) {
                    Some(s2) => if s2.current == TokenV::Colon {
                        match adv(s2) {
                            Some(s3) => match s3.current {
                                TokenV::Ident(t) => match adv(s3) {
                                    Some(s4) => let_rest(s4, name, Some(let_type(t)), g),
                                    None => None,
                                },
                                _ => match adv(err(s3, "Expected type"@)) {
                                    Some(s4) => Some((StmtV::Empty, s4)),
                                    None => None,
                                },
                            },
                            None => None,
                        }
                    } else {
                        let_rest(s2, name, None, g)
                    },
                    None => None,
                },
                _ => match adv(err(s1, "Expected identifier"@)) {
                    Some(s2) => Some((StmtV::Empty, s2)),
                    None => None,
                },
            },
            None => None,
        }
    }
}

/// The end of a `let`: `= value;`.
pub open spec fn let_rest(s: PState, name: Seq<char>, ty: Option<TypeV>, f: nat) -> Option<(StmtV, PState)>
    decreases f, 0nat,
{
    if f == 0 {
        None
    } else {
        let g = (f - 1) as nat;
        match expect(s, TokenV::Assign) {
            Some(s1) => match parse_expr(s1, g) {
                Some((value, s2)) => match expect(s2, TokenV::Semicolon) {
                    Some(s3) => Some((StmtV::Let { name, ty, value }, s3)),
                    None => None,
                },
                None => None,
            },
            None => None,
        }
    }
}

/// `parse_assign`: `name = value;`.
pub open spec fn parse_assign(s: PState, f: nat) -> Option<(StmtV, PState)>
    decreases f, 0nat,
{
    if f == 0 {
        None
    } else {
        let g = (f - 1) as nat;
        match s.current {
            TokenV::Ident(name) => match adv(s) {
                Some(s1) => match expect(s1, TokenV::Assign) {
                    Some(s2) => match parse_expr(s2, g) {
                        Some((v, s3)) => match expect(s3, TokenV::Semicolon) {
                            Some(s4) => Some((StmtV::Assign(name, v), s4)),
                            None => None,
                        },
                        None => None,
                    },
                    None => None,
                },
                None => None,
            },
            _ => Some((StmtV::Empty, err(s, Seq::empty()))),
        }
    }
}

/// The fields of a struct up to `}`.
pub open spec fn struct_fields(
    s: PState,
    name: Seq<char>,
    acc: Seq<(Seq<char>, TypeV)>,
    f: nat,
) -> Option<(StmtV, PState)>
    decreases f,
{
    if f == 0 {
        None
    } else if s.current == TokenV::RBrace {
        match expect(s, TokenV::RBrace) {
            Some(s1) => Some((StmtV::Struct { name, fields: acc }, s1)),
            None => None,
        }
    } else {
        match s.current {
            TokenV::Ident(field) => match adv(s) {
                Some(s1) => match expect(s1, TokenV::Colon) {
                    Some(s2) => {
                        let (ty, s3) = match s2.current {
                            TokenV::Ident(t) => (field_type(t), adv(s2)),
                            _ => (TypeV::I64, adv(err(s2, "Expected type"@))),
                        };
                        match s3 {
                            Some(s3) => match expect(s3, TokenV::Semicolon) {
                                Some(s4) => struct_fields(s4, name, acc.push((field, ty)), (f - 1) as nat),
                                None => None,
                            },
                            None => None,
                        }
                    },
                    None => None,
                },
                None => None,
            },
            _ => match adv(err(s, "Expected field name"@)) {
                Some(s1) => Some((StmtV::Empty, s1)),
                None => None,
            },
        }
    }
}

/// `parse_struct`.
pub open spec fn parse_struct(s: PState, f: nat) -> Option<(StmtV, PState)>
    decreases f, 0nat,
{
    if f == 0 {
        None
    } else {
        match adv(s) {
            Some(s1) => match s1.current {
                TokenV::Ident(name) => match adv(s1) {
                    Some(s2) => match expect(s2, TokenV::LBrace) {
                        Some(s3) => struct_fields(s3, name, Seq::empty(), (f - 1) as nat),
                        None => None,
                    },
                    None => None,
                },
                _ => match adv(err(s1, "Expected struct name"@)) {
                    Some(s2) => Some((StmtV::Empty, s2)),
                    None => None,
                },
            },
            None => None,
        }
    }
}

/// `parse_fn`: `[export] fn name(params) { body }`.
pub open spec fn parse_fn(s: PState, f: nat) -> Option<(StmtV, PState)>
    decreases f, 0nat,
{
    if f == 0 {
        None
    } else {
        let g = (f - 1) as nat;
        let export = s.current == TokenV::Export;
        let s0 = if export {
            adv(s)
        } else {
            Some(s)
        };
        match s0 {
            Some(s0) => match expect(s0, TokenV::Fn) {
                Some(s1) => match s1.current {
                    TokenV::Ident(name) => match adv(s1) {
                        Some(s2) => match expect(s2, TokenV::LParen) {
                            Some(s3) => match params(s3, Seq::empty(), g) {
                                Some((ps, s4)) => match expect(s4, TokenV::RParen) {
                                    Some(s5) => match parse_block(s5, g) {
                                        Some((body, s6)) => Some(
                                            (StmtV::Function { name, params: ps, body, export }, s6),
                                        ),
                                        None => None,
                                    },
                                    None => None,
                                },
                                None => None,
                            },
                            None => None,
                        },
                        None => None,
                    },
                    _ => match adv(err(s1, "Expected function name"@)) {
                        Some(s2) => Some((StmtV::Empty, s2)),
                        None => None,
                    },
                },
                None => None,
            },
            None => None,
        }
    }
}

/// `extern fn name(params);`.
pub open spec fn parse_extern(s: PState, f: nat) -> Option<(StmtV, PState)>
    decreases f, 0nat,
{
    if f == 0 {
        None
    } else {
        let g = (f - 1) as nat;
        match adv(s) {
            Some(s0) => match expect(s0, TokenV::Fn) {
                Some(s1) => match s1.current {
                    TokenV::Ident(name) => match adv(s1) {
                        Some(s2) => match expect(s2, TokenV::LParen) {
                            Some(s3) => match params(s3, Seq::empty(), g) {
                                Some((ps, s4)) => match expect(s4, TokenV::RParen) {
                                    Some(s5) => match expect(s5, TokenV::Semicolon) {
                                        Some(s6) => Some((StmtV::ExternFunction { name, params: ps }, s6)),
                                        None => None,
                                    },
                                    None => None,
                                },
                                None => None,
                            },
                            None => None,
                        },
                        None => None,
                    },
                    _ => match adv(err(s1, "Expected function name"@)) {
                        Some(s2) => Some((StmtV::Empty, s2)),
                        None => None,
                    },
                },
                None => None,
            },
            None => None,
        }
    }
}

/// The statements of a block up to `}`.
pub open spec fn block_loop(s: PState, acc: Seq<StmtV>, f: nat) -> Option<(Seq<StmtV>, PState)>
    decreases f, 0nat,
{
    if f == 0 {
        None
    } else if s.current == TokenV::RBrace {
        Some((acc, s))
    } else {
        match parse_stmt(s, (f - 1) as nat) {
            Some((st, s1)) => block_loop(s1, acc.push(st), (f - 1) as nat),
            None => None,
        }
    }
}

/// `parse_block`: `{ statements }`.
pub open spec fn parse_block(s: PState, f: nat) -> Option<(Seq<StmtV>, PState)>
    decreases f, 1nat,
{
    if f == 0 {
        None
    } else {
        match expect(s, TokenV::LBrace) {
            Some(s1) => match block_loop(s1, Seq::empty(), (f - 1) as nat) {
                Some((body, s2)) => match expect(s2, TokenV::RBrace) {
                    Some(s3) => Some((body, s3)),
                    None => None,
                },
                None => None,
            },
            None => None,
        }
    }
}

/// The `elif` branches of an `if`.
pub open spec fn elif_loop(s: PState, acc: Seq<(ExprV, Seq<StmtV>)>, f: nat) -> Option<
    (Seq<(ExprV, Seq<StmtV>)>, PState),
>
    decreases f, 0nat,
{
    if f == 0 {
        None
    } else if s.current != TokenV::Elif {
        Some((acc, s))
    } else {
        let g = (f - 1) as nat;
        match adv(s) {
            Some(s1) => match expect(s1, TokenV::LParen) {
                Some(s2) => match parse_expr(s2, g) {
                    Some((c, s3)) => match expect(s3, TokenV::RParen) {
                        Some(s4) => match parse_block(s4, g) {
                            Some((b, s5)) => elif_loop(s5, acc.push((c, b)), g),
                            None => None,
                        },
                        None => None,
                    },
                    None => None,
                },
                None => None,
            },
            None => None,
        }
    }
}

/// `parse_if`.
pub open spec fn parse_if(s: PState, f: nat) -> Option<(StmtV, PState)>
    decreases f, 0nat,
{
    if f == 0 {
        None
    } else {
        let g = (f - 1) as nat;
        match adv(s) {
            Some(s1) => match expect(s1, TokenV::LParen) {
                Some(s2) => match parse_expr(s2, g) {
                    Some((cond, s3)) => match expect(s3, TokenV::RParen) {
                        Some(s4) => match parse_block(s4, g) {
                            Some((then_branch, s5)) => match elif_loop(s5, Seq::empty(), g) {
                                Some((elif, s6)) => if s6.current == TokenV::Else {
                                    match adv(s6) {
                                        Some(s7) => match parse_block(s7, g) {
                                            Some((b, s8)) => Some(
                                                (
                                                    StmtV::If {
                                                        cond,
                                                        then_branch,
                                                        elif,
                                                        else_branch: Some(b),
                                                    },
                                                    s8,
                                                ),
                                            ),
                                            None => None,
                                        },
                                        None => None,
                                    }
                                } else {
                                    Some(
                                        (StmtV::If { cond, then_branch, elif, else_branch: None }, s6),
                                    )
                                },
                                None => None,
                            },
                            None => None,
                        },
                        None => None,
                    },
                    None => None,
                },
                None => None,
            },
            None => None,
        }
    }
}

/// `parse_loop`.
pub open spec fn parse_loop(s: PState, f: nat) -> Option<(StmtV, PState)>
    decreases f, 0nat,
{
    if f == 0 {
        None
    } else {
        match adv(s) {
            Some(s1) => match parse_block(s1, (f - 1) as nat) {
                Some((b, s2)) => Some((StmtV::Loop(b), s2)),
                None => None,
            },
            None => None,
        }
    }
}

/// `parse_return`.
pub open spec fn parse_return(s: PState, f: nat) -> Option<(StmtV, PState)>
    decreases f, 0nat,
{
    if f == 0 {
        None
    } else {
        match adv(s) {
            Some(s1) => match parse_expr(s1, (f - 1) as nat) {
                Some((e, s2)) => match expect(s2, TokenV::Semicolon) {
                    Some(s3) => Some((StmtV::Return(e), s3)),
                    None => None,
                },
                None => None,
            },
            None => None,
        }
    }
}

/// `parse_expr`.
pub open spec fn parse_expr(s: PState, f: nat) -> Option<(ExprV, PState)>
    decreases f, 3nat,
{
    if f == 0 {
        None
    } else {
        parse_level(0, s, (f - 1) as nat)
    }
}

/// One precedence level: an operand of the next level, then operators of
/// this level each followed by an operand, associating to the left. Level 3
/// is `parse_primary`.
pub open spec fn parse_level(level: nat, s: PState, f: nat) -> Option<(ExprV, PState)>
    decreases f, 2nat,
{
    if f == 0 {
        None
    } else if level >= 3 {
        parse_primary(s, (f - 1) as nat)
    } else {
        match parse_level(level + 1, s, (f - 1) as nat) {
            Some((l, s1)) => level_loop(level, s1, l, (f - 1) as nat),
            None => None,
        }
    }
}

/// The operators of one level after the first operand.
pub open spec fn level_loop(level: nat, s: PState, e: ExprV, f: nat) -> Option<(ExprV, PState)>
    decreases f, 1nat,
{
    if f == 0 {
        None
    } else {
        match level_op(level, s.current) {
            Some(op) => match adv(s) {
                Some(s1) => match parse_level(level + 1, s1, (f - 1) as nat) {
                    Some((r, s2)) => level_loop(
                        level,
                        s2,
                        ExprV::Binary(Box::new(e), op, Box::new(r)),
                        (f - 1) as nat,
                    ),
                    None => None,
                },
                None => None,
            },
            None => Some((e, s)),
        }
    }
}

/// The arguments of a call up to `)`.
pub open spec fn args_loop(s: PState, acc: Seq<ExprV>, f: nat) -> Option<(Seq<ExprV>, PState)>
    decreases f, 0nat,
{
    if f == 0 {
        None
    } else if s.current == TokenV::RParen {
        Some((acc, s))
    } else {
        let g = (f - 1) as nat;
        match parse_expr(s, g) {
            Some((a, s1)) => {
                let s2 = if s1.current == TokenV::Comma {
                    adv(s1)
                } else {
                    Some(s1)
                };
                match s2 {
                    Some(s2) => args_loop(s2, acc.push(a), g),
                    None => None,
                }
            },
            None => None,
        }
    }
}

/// Indexing and field access after a primary expression.
pub open spec fn postfix_loop(s: PState, e: ExprV, f: nat) -> Option<(ExprV, PState)>
    decreases f, 0nat,
{
    if f == 0 {
        None
    } else {
        let g = (f - 1) as nat;
        match s.current {
            TokenV::LBracket => match adv(s) {
                Some(s1) => match parse_expr(s1, g) {
                    Some((idx, s2)) => match expect(s2, TokenV::RBracket) {
                        Some(s3) => postfix_loop(s3, ExprV::Index(Box::new(e), Box::new(idx)), g),
                        None => None,
                    },
                    None => None,
                },
                None => None,
            },
            TokenV::Dot => match adv(s) {
                Some(s1) => match s1.current {
                    TokenV::Ident(field) => match adv(s1) {
                        Some(s2) => postfix_loop(s2, ExprV::Field(Box::new(e), field), g),
                        None => None,
                    },
                    _ => match adv(err(s1, field_msg(s1))) {
                        Some(s2) => Some((ExprV::Number(0), s2)),
                        None => None,
                    },
                },
                None => None,
            },
            _ => Some((e, s)),
        }
    }
}

/// An identifier at the start of a primary expression: a variable, or a
/// call if `(` follows (`peek(addr)` reads memory).
pub open spec fn parse_name(s: PState, name: Seq<char>, f: nat) -> Option<(ExprV, PState)>
    decreases f, 0nat,
{
    if f == 0 {
        None
    } else {
        let g = (f - 1) as nat;
        if s.current == TokenV::LParen {
            match adv(s) {
                Some(s1) => match args_loop(s1, Seq::empty(), g) {
                    Some((args, s2)) => match expect(s2, TokenV::RParen) {
                        Some(s3) => if name == "peek"@ {
                            if args.len() >= 1 {
                                postfix_loop(s3, ExprV::Peek(Box::new(args[0])), g)
                            } else {
                                None
                            }
                        } else {
                            postfix_loop(s3, ExprV::Call(name, args), g)
                        },
                        None => None,
                    },
                    None => None,
                },
                None => None,
            }
        } else {
            postfix_loop(s, ExprV::Variable(name), g)
        }
    }
}

/// The state after `#include <p>` has been read: the library's text is
/// appended to the input, and a failure to open it reported.
pub open spec fn include_state(s: PState, p: Seq<char>) -> PState {
    match library_text(p) {
        Some(text) => PState { input: s.input + text, ..s },
        None => PState { msgs: s.msgs.push("cant open file "@ + p), ..s },
    }
}

/// `parse_primary`.
pub open spec fn parse_primary(s: PState, f: nat) -> Option<(ExprV, PState)>
    decreases f, 1nat,
{
    if f == 0 {
        None
    } else {
        let g = (f - 1) as nat;
        match s.current {
            TokenV::Number(n) => match adv(s) {
                Some(s1) => Some((ExprV::Number(n), s1)),
                None => None,
            },
            TokenV::Ident(name) => match adv(s) {
                Some(s1) => parse_name(s1, name, g),
                None => None,
            },
            TokenV::Minus => match adv(s) {
                Some(s1) => match parse_primary(s1, g) {
                    Some((e, s2)) => Some((negate(e), s2)),
                    None => None,
                },
                None => None,
            },
            TokenV::LParen => match adv(s) {
                Some(s1) => match parse_expr(s1, g) {
                    Some((e, s2)) => match expect(s2, TokenV::RParen) {
                        Some(s3) => Some((e, s3)),
                        None => None,
                    },
                    None => None,
                },
                None => None,
            },
            TokenV::Include(p) => match adv(s) {
                Some(s1) => Some((ExprV::Include(p, last_segment(p)), include_state(s1, p))),
                None => None,
            },
            _ => match adv(err(s, unexpected_msg(s))) {
                Some(s1) => Some((ExprV::Number(0), s1)),
                None => None,
            },
        }
    }
}

/// The state a parser starts in over a lexer with this input, position and
/// messages: two tokens are read.
pub open spec fn start(input: Seq<char>, pos: int, msgs: Seq<Seq<char>>) -> Option<PState> {
    if input.len() + 2 > usize::MAX {
        None
    } else {
        match lex(input, pos) {
            Some((t1, p1, m1)) => match lex(input, p1) {
                Some((t2, p2, m2)) => Some(
                    PState { input, pos: p2, current: t1, next: t2, position: 0, msgs: msgs + m1 + m2 },
                ),
                None => None,
            },
            None => None,
        }
    }
}

/// `parse_program` with fuel `f`.
pub open spec fn program(s: PState, f: nat) -> Option<(Seq<StmtV>, PState)> {
    program_loop(s, Seq::empty(), f)
}

/// Parsing from `s` returns (no panic, and an end is reached).
pub open spec fn parses(s: PState) -> bool {
    exists|f: nat| (#[trigger] program(s, f)) is Some
}

/// What `parse_program` returns from `s` and the state it leaves.
pub open spec fn program_result(s: PState) -> (Seq<StmtV>, PState) {
    program(s, choose|f: nat| (#[trigger] program(s, f)) is Some).unwrap()
}


proof fn lemma_params_fuel(s: PState, acc: Seq<Seq<char>>, f1: nat, f2: nat)
    requires
        f1 <= f2,
        params(s, acc, f1) is Some,
    ensures
        params(s, acc, f2) == params(s, acc, f1),
    decreases f1,
{
    if s.current != TokenV::RParen {
        let (acc1, s1) = match s.current {
            TokenV::Ident(p) => (acc.push(p), adv(s)),
            _ => (acc, Some(s)),
        };
        let s1 = s1.unwrap();
        let s2 = if s1.current == TokenV::Comma {
            adv(s1)
        } else {
            Some(s1)
        };
        lemma_params_fuel(s2.unwrap(), acc1, (f1 - 1) as nat, (f2 - 1) as nat);
    }
}

proof fn lemma_struct_fields_fuel(s: PState, name: Seq<char>, acc: Seq<(Seq<char>, TypeV)>, f1: nat, f2: nat)
    requires
        f1 <= f2,
        struct_fields(s, name, acc, f1) is Some,
    ensures
        struct_fields(s, name, acc, f2) == struct_fields(s, name, acc, f1),
    decreases f1,
{
    if s.current != TokenV::RBrace {
        match s.current {
            TokenV::Ident(field) => {
                let s1 = adv(s).unwrap();
                let s2 = expect(s1, TokenV::Colon).unwrap();
                let (ty, s3) = match s2.current {
                    TokenV::Ident(t) => (field_type(t), adv(s2)),
                    _ => (TypeV::I64, adv(err(s2, "Expected type"@))),
                };
                let s4 = expect(s3.unwrap(), TokenV::Semicolon).unwrap();
                lemma_struct_fields_fuel(s4, name, acc.push((field, ty)), (f1 - 1) as nat, (f2 - 1) as nat);
            },
            _ => {},
        }
    }
}

proof fn lemma_parse_stmt_fuel(s: PState, f1: nat, f2: nat)
    requires
        f1 <= f2,
        parse_stmt(s, f1) is Some,
    ensures
        parse_stmt(s, f2) == parse_stmt(s, f1),
    decreases f1, 1nat,
{
    let g1 = (f1 - 1) as nat;
    let g2 = (f2 - 1) as nat;
    match s.current {
        TokenV::Let => lemma_parse_let_fuel(s, g1, g2),
        TokenV::Struct => lemma_parse_struct_fuel(s, g1, g2),
        TokenV::Fn => lemma_parse_fn_fuel(s, g1, g2),
        TokenV::Export => lemma_parse_fn_fuel(s, g1, g2),
        TokenV::If => lemma_parse_if_fuel(s, g1, g2),
        TokenV::Loop => lemma_parse_loop_fuel(s, g1, g2),
        TokenV::Return => lemma_parse_return_fuel(s, g1, g2),
        TokenV::Break => {},
        TokenV::Continue => {},
        TokenV::Ident(name) => {
            if name == "extern"@ && s.next == TokenV::Fn {
                lemma_parse_extern_fuel(s, g1, g2);
            } else if s.next == TokenV::Assign {
                lemma_parse_assign_fuel(s, g1, g2);
            } else {
                lemma_parse_expr_stmt_fuel(s, g1, g2);
            }
        },
        TokenV::Include(_) => {},
        _ => lemma_parse_expr_stmt_fuel(s, g1, g2),
    }
}

proof fn lemma_parse_expr_stmt_fuel(s: PState, f1: nat, f2: nat)
    requires
        f1 <= f2,
        parse_expr_stmt(s, f1) is Some,
    ensures
        parse_expr_stmt(s, f2) == parse_expr_stmt(s, f1),
    decreases f1, 0nat,
{
    let g1 = (f1 - 1) as nat;
    let g2 = (f2 - 1) as nat;
    lemma_parse_expr_fuel(s, g1, g2);
    let (e, s1) = parse_expr(s, g1).unwrap();
    match e {
        ExprV::Field(base, field) => {
            if s1.current == TokenV::Assign {
                lemma_parse_expr_fuel(adv(s1).unwrap(), g1, g2);
            }
        },
        ExprV::Index(base, index) => {
            if s1.current == TokenV::Assign {
                lemma_parse_expr_fuel(adv(s1).unwrap(), g1, g2);
            }
        },
        _ => {},
    }
}

proof fn lemma_parse_let_fuel(s: PState, f1: nat, f2: nat)
    requires
        f1 <= f2,
        parse_let(s, f1) is Some,
    ensures
        parse_let(s, f2) == parse_let(s, f1),
    decreases f1, 0nat,
{
    let g1 = (f1 - 1) as nat;
    let g2 = (f2 - 1) as nat;
    let s1 = adv(s).unwrap();
    match s1.current {
        TokenV::Ident(name) => {
            let s2 = adv(s1).unwrap();
            if s2.current == TokenV::Colon {
                let s3 = adv(s2).unwrap();
                match s3.current {
                    TokenV::Ident(t) => {
                        lemma_let_rest_fuel(adv(s3).unwrap(), name, Some(let_type(t)), g1, g2);
                    },
                    _ => {},
                }
            } else {
                lemma_let_rest_fuel(s2, name, None, g1, g2);
            }
        },
        _ => {},
    }
}

proof fn lemma_let_rest_fuel(s: PState, name: Seq<char>, ty: Option<TypeV>, f1: nat, f2: nat)
    requires
        f1 <= f2,
        let_rest(s, name, ty, f1) is Some,
    ensures
        let_rest(s, name, ty, f2) == let_rest(s, name, ty, f1),
    decreases f1, 0nat,
{
    lemma_parse_expr_fuel(expect(s, TokenV::Assign).unwrap(), (f1 - 1) as nat, (f2 - 1) as nat);
}

proof fn lemma_parse_assign_fuel(s: PState, f1: nat, f2: nat)
    requires
        f1 <= f2,
        parse_assign(s, f1) is Some,
    ensures
        parse_assign(s, f2) == parse_assign(s, f1),
    decreases f1, 0nat,
{
    match s.current {
        TokenV::Ident(name) => {
            let s2 = expect(adv(s).unwrap(), TokenV::Assign).unwrap();
            lemma_parse_expr_fuel(s2, (f1 - 1) as nat, (f2 - 1) as nat);
        },
        _ => {},
    }
}

proof fn lemma_parse_struct_fuel(s: PState, f1: nat, f2: nat)
    requires
        f1 <= f2,
        parse_struct(s, f1) is Some,
    ensures
        parse_struct(s, f2) == parse_struct(s, f1),
    decreases f1, 0nat,
{
    let s1 = adv(s).unwrap();
    match s1.current {
        TokenV::Ident(name) => {
            let s3 = expect(adv(s1).unwrap(), TokenV::LBrace).unwrap();
            lemma_struct_fields_fuel(s3, name, Seq::empty(), (f1 - 1) as nat, (f2 - 1) as nat);
        },
        _ => {},
    }
}

proof fn lemma_parse_fn_fuel(s: PState, f1: nat, f2: nat)
    requires
        f1 <= f2,
        parse_fn(s, f1) is Some,
    ensures
        parse_fn(s, f2) == parse_fn(s, f1),
    decreases f1, 0nat,
{
    let g1 = (f1 - 1) as nat;
    let g2 = (f2 - 1) as nat;
    let s0 = if s.current == TokenV::Export {
        adv(s)
    } else {
        Some(s)
    };
    let s1 = expect(s0.unwrap(), TokenV::Fn).unwrap();
    match s1.current {
        TokenV::Ident(name) => {
            let s3 = expect(adv(s1).unwrap(), TokenV::LParen).unwrap();
            lemma_params_fuel(s3, Seq::empty(), g1, g2);
            let (ps, s4) = params(s3, Seq::empty(), g1).unwrap();
            lemma_parse_block_fuel(expect(s4, TokenV::RParen).unwrap(), g1, g2);
        },
        _ => {},
    }
}

proof fn lemma_parse_extern_fuel(s: PState, f1: nat, f2: nat)
    requires
        f1 <= f2,
        parse_extern(s, f1) is Some,
    ensures
        parse_extern(s, f2) == parse_extern(s, f1),
    decreases f1, 0nat,
{
    let s1 = expect(adv(s).unwrap(), TokenV::Fn).unwrap();
    match s1.current {
        TokenV::Ident(name) => {
            let s3 = expect(adv(s1).unwrap(), TokenV::LParen).unwrap();
            lemma_params_fuel(s3, Seq::empty(), (f1 - 1) as nat, (f2 - 1) as nat);
        },
        _ => {},
    }
}

proof fn lemma_block_loop_fuel(s: PState, acc: Seq<StmtV>, f1: nat, f2: nat)
    requires
        f1 <= f2,
        block_loop(s, acc, f1) is Some,
    ensures
        block_loop(s, acc, f2) == block_loop(s, acc, f1),
    decreases f1, 0nat,
{
    if s.current != TokenV::RBrace {
        let g1 = (f1 - 1) as nat;
        let g2 = (f2 - 1) as nat;
        lemma_parse_stmt_fuel(s, g1, g2);
        let (st, s1) = parse_stmt(s, g1).unwrap();
        lemma_block_loop_fuel(s1, acc.push(st), g1, g2);
    }
}

proof fn lemma_parse_block_fuel(s: PState, f1: nat, f2: nat)
    requires
        f1 <= f2,
        parse_block(s, f1) is Some,
    ensures
        parse_block(s, f2) == parse_block(s, f1),
    decreases f1, 1nat,
{
    lemma_block_loop_fuel(expect(s, TokenV::LBrace).unwrap(), Seq::empty(), (f1 - 1) as nat, (f2 - 1) as nat);
}

proof fn lemma_elif_loop_fuel(s: PState, acc: Seq<(ExprV, Seq<StmtV>)>, f1: nat, f2: nat)
    requires
        f1 <= f2,
        elif_loop(s, acc, f1) is Some,
    ensures
        elif_loop(s, acc, f2) == elif_loop(s, acc, f1),
    decreases f1, 0nat,
{
    if s.current == TokenV::Elif {
        let g1 = (f1 - 1) as nat;
        let g2 = (f2 - 1) as nat;
        let s2 = expect(adv(s).unwrap(), TokenV::LParen).unwrap();
        lemma_parse_expr_fuel(s2, g1, g2);
        let (c, s3) = parse_expr(s2, g1).unwrap();
        let s4 = expect(s3, TokenV::RParen).unwrap();
        lemma_parse_block_fuel(s4, g1, g2);
        let (b, s5) = parse_block(s4, g1).unwrap();
        lemma_elif_loop_fuel(s5, acc.push((c, b)), g1, g2);
    }
}

proof fn lemma_parse_if_fuel(s: PState, f1: nat, f2: nat)
    requires
        f1 <= f2,
        parse_if(s, f1) is Some,
    ensures
        parse_if(s, f2) == parse_if(s, f1),
    decreases f1, 0nat,
{
    let g1 = (f1 - 1) as nat;
    let g2 = (f2 - 1) as nat;
    let s2 = expect(adv(s).unwrap(), TokenV::LParen).unwrap();
    lemma_parse_expr_fuel(s2, g1, g2);
    let (cond, s3) = parse_expr(s2, g1).unwrap();
    let s4 = expect(s3, TokenV::RParen).unwrap();
    lemma_parse_block_fuel(s4, g1, g2);
    let (then_branch, s5) = parse_block(s4, g1).unwrap();
    lemma_elif_loop_fuel(s5, Seq::empty(), g1, g2);
    let (elif, s6) = elif_loop(s5, Seq::empty(), g1).unwrap();
    if s6.current == TokenV::Else {
        lemma_parse_block_fuel(adv(s6).unwrap(), g1, g2);
    }
}

proof fn lemma_parse_loop_fuel(s: PState, f1: nat, f2: nat)
    requires
        f1 <= f2,
        parse_loop(s, f1) is Some,
    ensures
        parse_loop(s, f2) == parse_loop(s, f1),
    decreases f1, 0nat,
{
    lemma_parse_block_fuel(adv(s).unwrap(), (f1 - 1) as nat, (f2 - 1) as nat);
}

proof fn lemma_parse_return_fuel(s: PState, f1: nat, f2: nat)
    requires
        f1 <= f2,
        parse_return(s, f1) is Some,
    ensures
        parse_return(s, f2) == parse_return(s, f1),
    decreases f1, 0nat,
{
    lemma_parse_expr_fuel(adv(s).unwrap(), (f1 - 1) as nat, (f2 - 1) as nat);
}

proof fn lemma_parse_expr_fuel(s: PState, f1: nat, f2: nat)
    requires
        f1 <= f2,
        parse_expr(s, f1) is Some,
    ensures
        parse_expr(s, f2) == parse_expr(s, f1),
    decreases f1, 3nat,
{
    lemma_parse_level_fuel(0, s, (f1 - 1) as nat, (f2 - 1) as nat);
}

proof fn lemma_parse_level_fuel(level: nat, s: PState, f1: nat, f2: nat)
    requires
        f1 <= f2,
        parse_level(level, s, f1) is Some,
    ensures
        parse_level(level, s, f2) == parse_level(level, s, f1),
    decreases f1, 2nat,
{
    let g1 = (f1 - 1) as nat;
    let g2 = (f2 - 1) as nat;
    if level >= 3 {
        lemma_parse_primary_fuel(s, g1, g2);
    } else {
        lemma_parse_level_fuel(level + 1, s, g1, g2);
        let (l, s1) = parse_level(level + 1, s, g1).unwrap();
        lemma_level_loop_fuel(level, s1, l, g1, g2);
    }
}

proof fn lemma_level_loop_fuel(level: nat, s: PState, e: ExprV, f1: nat, f2: nat)
    requires
        f1 <= f2,
        level_loop(level, s, e, f1) is Some,
    ensures
        level_loop(level, s, e, f2) == level_loop(level, s, e, f1),
    decreases f1, 1nat,
{
    match level_op(level, s.current) {
        Some(op) => {
            let g1 = (f1 - 1) as nat;
            let g2 = (f2 - 1) as nat;
            let s1 = adv(s).unwrap();
            lemma_parse_level_fuel(level + 1, s1, g1, g2);
            let (r, s2) = parse_level(level + 1, s1, g1).unwrap();
            lemma_level_loop_fuel(level, s2, ExprV::Binary(Box::new(e), op, Box::new(r)), g1, g2);
        },
        None => {},
    }
}

proof fn lemma_args_loop_fuel(s: PState, acc: Seq<ExprV>, f1: nat, f2: nat)
    requires
        f1 <= f2,
        args_loop(s, acc, f1) is Some,
    ensures
        args_loop(s, acc, f2) == args_loop(s, acc, f1),
    decreases f1, 0nat,
{
    if s.current != TokenV::RParen {
        let g1 = (f1 - 1) as nat;
        let g2 = (f2 - 1) as nat;
        lemma_parse_expr_fuel(s, g1, g2);
        let (a, s1) = parse_expr(s, g1).unwrap();
        let s2 = if s1.current == TokenV::Comma {
            adv(s1)
        } else {
            Some(s1)
        };
        lemma_args_loop_fuel(s2.unwrap(), acc.push(a), g1, g2);
    }
}

proof fn lemma_postfix_loop_fuel(s: PState, e: ExprV, f1: nat, f2: nat)
    requires
        f1 <= f2,
        postfix_loop(s, e, f1) is Some,
    ensures
        postfix_loop(s, e, f2) == postfix_loop(s, e, f1),
    decreases f1, 0nat,
{
    let g1 = (f1 - 1) as nat;
    let g2 = (f2 - 1) as nat;
    match s.current {
        TokenV::LBracket => {
            let s1 = adv(s).unwrap();
            lemma_parse_expr_fuel(s1, g1, g2);
            let (idx, s2) = parse_expr(s1, g1).unwrap();
            let s3 = expect(s2, TokenV::RBracket).unwrap();
            lemma_postfix_loop_fuel(s3, ExprV::Index(Box::new(e), Box::new(idx)), g1, g2);
        },
        TokenV::Dot => {
            let s1 = adv(s).unwrap();
            match s1.current {
                TokenV::Ident(field) => {
                    lemma_postfix_loop_fuel(adv(s1).unwrap(), ExprV::Field(Box::new(e), field), g1, g2);
                },
                _ => {},
            }
        },
        _ => {},
    }
}

proof fn lemma_parse_name_fuel(s: PState, name: Seq<char>, f1: nat, f2: nat)
    requires
        f1 <= f2,
        parse_name(s, name, f1) is Some,
    ensures
        parse_name(s, name, f2) == parse_name(s, name, f1),
    decreases f1, 0nat,
{
    let g1 = (f1 - 1) as nat;
    let g2 = (f2 - 1) as nat;
    if s.current == TokenV::LParen {
        let s1 = adv(s).unwrap();
        lemma_args_loop_fuel(s1, Seq::empty(), g1, g2);
        let (args, s2) = args_loop(s1, Seq::empty(), g1).unwrap();
        let s3 = expect(s2, TokenV::RParen).unwrap();
        if name == "peek"@ {
            lemma_postfix_loop_fuel(s3, ExprV::Peek(Box::new(args[0])), g1, g2);
        } else {
            lemma_postfix_loop_fuel(s3, ExprV::Call(name, args), g1, g2);
        }
    } else {
        lemma_postfix_loop_fuel(s, ExprV::Variable(name), g1, g2);
    }
}

proof fn lemma_parse_primary_fuel(s: PState, f1: nat, f2: nat)
    requires
        f1 <= f2,
        parse_primary(s, f1) is Some,
    ensures
        parse_primary(s, f2) == parse_primary(s, f1),
    decreases f1, 1nat,
{
    let g1 = (f1 - 1) as nat;
    let g2 = (f2 - 1) as nat;
    match s.current {
        TokenV::Ident(name) => {
            lemma_parse_name_fuel(adv(s).unwrap(), name, g1, g2);
        },
        TokenV::LParen => {
            lemma_parse_expr_fuel(adv(s).unwrap(), g1, g2);
        },
        TokenV::Minus => {
            lemma_parse_primary_fuel(adv(s).unwrap(), g1, g2);
        },
        _ => {},
    }
}

proof fn lemma_program_loop_fuel(s: PState, acc: Seq<StmtV>, f1: nat, f2: nat)
    requires
        f1 <= f2,
        program_loop(s, acc, f1) is Some,
    ensures
        program_loop(s, acc, f2) == program_loop(s, acc, f1),
    decreases f1,
{
    if s.current != TokenV::EOF {
        let g1 = (f1 - 1) as nat;
        let g2 = (f2 - 1) as nat;
        lemma_parse_stmt_fuel(s, g1, g2);
        let (st, s1) = parse_stmt(s, g1).unwrap();
        lemma_program_loop_fuel(s1, acc.push(st), g1, g2);
    }
}

/// Parsing does not depend on the bound it is given: any two bounds under
/// which parsing ends give the same statements and state, so what
/// `parse_program` returns is what every ending parse gives.
pub proof fn lemma_program_unique(s: PState, f1: nat, f2: nat)
    requires
        program(s, f1) is Some,
        program(s, f2) is Some,
    ensures
        program(s, f1) == program(s, f2),
        program_result(s) == program(s, f1).unwrap(),
{
    if f1 <= f2 {
        lemma_program_loop_fuel(s, Seq::empty(), f1, f2);
    } else {
        lemma_program_loop_fuel(s, Seq::empty(), f2, f1);
    }
    let f = choose|f: nat| (#[trigger] program(s, f)) is Some;
    if f <= f1 {
        lemma_program_loop_fuel(s, Seq::empty(), f, f1);
    } else {
        lemma_program_loop_fuel(s, Seq::empty(), f1, f);
    }
}

/// The operator a binary-operator token denotes.
pub open spec fn token_op(t: TokenV) -> Option<Op> {
    match t {
        TokenV::Plus => Some(Op::Add),
        TokenV::Minus => Some(Op::Sub),
        TokenV::Star => Some(Op::Mul),
        TokenV::Slash => Some(Op::Div),
        TokenV::EqEq => Some(Op::Eq),
        TokenV::NotEq => Some(Op::Neq),
        TokenV::Lt => Some(Op::Lt),
        TokenV::Gt => Some(Op::Gt),
        TokenV::LtEq => Some(Op::LtEq),
        TokenV::GtEq => Some(Op::GtEq),
        _ => None,
    }
}

/// How tightly an operator binds: `*` and `/` tighter than `+` and `-`,
/// which bind tighter than the six comparisons.
pub open spec fn binding(op: Op) -> int {
    match op {
        Op::Mul | Op::Div => 2,
        Op::Add | Op::Sub => 1,
        _ => 0,
    }
}

/// The binding of a binary-operator token.
pub open spec fn token_binding(t: TokenV) -> int {
    binding(token_op(t).unwrap())
}

/// The parser's precedence levels are the binding strengths: a token acts
/// as an operator at a level exactly when it denotes an operator that binds
/// at that level, and then it stands for that operator.
pub proof fn lemma_level_op_binding(level: nat, t: TokenV)
    ensures
        level_op(level, t) == (if token_op(t) is Some && binding(token_op(t).unwrap()) == level {
            token_op(t)
        } else {
            None
        }),
{
}

/// The state `n` tokens further on.
pub open spec fn adv_n(s: PState, n: nat) -> PState
    decreases n,
{
    if n == 0 {
        s
    } else {
        adv(adv_n(s, (n - 1) as nat)).unwrap()
    }
}

/// From `s` the tokens are the number `a`, the operator `t1`, the number
/// `b`, the operator `t2`, the number `c`, and `t3`, which is no operator.
pub open spec fn three_operands(s: PState, a: i64, t1: TokenV, b: i64, t2: TokenV, c: i64, t3: TokenV) -> bool {
    &&& token_op(t1) is Some
    &&& token_op(t2) is Some
    &&& token_op(t3) is None
    &&& s.current == TokenV::Number(a)
    &&& s.next == t1
    &&& forall|k: nat| k < 5 ==> (#[trigger] adv(adv_n(s, k))) is Some
    &&& adv_n(s, 1).next == TokenV::Number(b)
    &&& adv_n(s, 2).next == t2
    &&& adv_n(s, 3).next == TokenV::Number(c)
    &&& adv_n(s, 4).next == t3
}

proof fn lemma_adv_n(s: PState, n: nat)
    requires
        adv(adv_n(s, n)) is Some,
    ensures
        adv_n(s, n + 1) == adv(adv_n(s, n)).unwrap(),
        adv_n(s, n + 1).current == adv_n(s, n).next,
{
}

/// A number followed by a token that is no operator at `level` or below
/// level 3 is an operand of its own at `level`.
proof fn lemma_level_number(level: nat, x: PState, n: i64, g: nat)
    requires
        level <= 3,
        x.current == TokenV::Number(n),
        adv(x) is Some,
        forall|l2: nat| level <= l2 < 3 ==> (#[trigger] level_op(l2, adv(x).unwrap().current)) is None,
        g + 8 * level >= 40,
    ensures
        parse_level(level, x, g) == Some((ExprV::Number(n), adv(x).unwrap())),
    decreases 3 - level,
{
    let x1 = adv(x).unwrap();
    if level < 3 {
        lemma_level_number(level + 1, x, n, (g - 1) as nat);
        assert(level_op(level, x1.current) is None);
        assert(level_loop(level, x1, ExprV::Number(n), (g - 1) as nat) == Some((ExprV::Number(n), x1)));
    } else {
        assert(parse_primary(x, (g - 1) as nat) == Some((ExprV::Number(n), x1)));
    }
}

/// `b op2 c` then a non-operator, parsed at `level`: `b` alone when `op2`
/// binds looser than `level`, the whole `b op2 c` otherwise.
proof fn lemma_level_two(level: nat, s: PState, a: i64, t1: TokenV, b: i64, t2: TokenV, c: i64, t3: TokenV, g: nat)
    requires
        level <= 3,
        three_operands(s, a, t1, b, t2, c, t3),
        g + 8 * level >= 40,
    ensures
        parse_level(level, adv_n(s, 2), g) == if token_binding(t2) < level {
            Some((ExprV::Number(b), adv_n(s, 3)))
        } else {
            Some((
                ExprV::Binary(Box::new(ExprV::Number(b)), token_op(t2).unwrap(), Box::new(ExprV::Number(c))),
                adv_n(s, 5),
            ))
        },
    decreases 3 - level,
{
    assert(adv(adv_n(s, 0)) is Some);
    assert(adv(adv_n(s, 1)) is Some);
    assert(adv(adv_n(s, 2)) is Some);
    assert(adv(adv_n(s, 3)) is Some);
    assert(adv(adv_n(s, 4)) is Some);
    lemma_adv_n(s, 0);
    lemma_adv_n(s, 1);
    lemma_adv_n(s, 2);
    lemma_adv_n(s, 3);
    lemma_adv_n(s, 4);
    let s2 = adv_n(s, 2);
    let s3 = adv_n(s, 3);
    let s4 = adv_n(s, 4);
    let s5 = adv_n(s, 5);
    let o2 = token_op(t2).unwrap();
    assert forall|l2: nat| 0 <= l2 < 3 implies (#[trigger] level_op(l2, s5.current)) is None by {
        lemma_level_op_binding(l2, t3);
    }
    lemma_level_op_binding(level, t2);
    lemma_level_op_binding(level, t3);
    if level == 3 {
        assert(parse_primary(s2, (g - 1) as nat) == Some((ExprV::Number(b), s3)));
    } else {
        lemma_level_two(level + 1, s, a, t1, b, t2, c, t3, (g - 1) as nat);
        let h = (g - 1) as nat;
        if token_binding(t2) < level + 1 {
            if token_binding(t2) == level {
                lemma_level_number(level + 1, s4, c, (h - 1) as nat);
                let e = ExprV::Binary(Box::new(ExprV::Number(b)), o2, Box::new(ExprV::Number(c)));
                assert(level_loop(level, s5, e, (h - 1) as nat) == Some((e, s5)));
                assert(level_loop(level, s3, ExprV::Number(b), h) == Some((e, s5)));
            } else {
                assert(level_loop(level, s3, ExprV::Number(b), h) == Some((ExprV::Number(b), s3)));
            }
        } else {
            let e = ExprV::Binary(Box::new(ExprV::Number(b)), o2, Box::new(ExprV::Number(c)));
            assert(level_loop(level, s5, e, h) == Some((e, s5)));
        }
    }
}

/// `a op1 b op2 c` then a non-operator, parsed at `level`.
proof fn lemma_level_three(level: nat, s: PState, a: i64, t1: TokenV, b: i64, t2: TokenV, c: i64, t3: TokenV, g: nat)
    requires
        level <= 3,
        three_operands(s, a, t1, b, t2, c, t3),
        g + 8 * level >= 40,
    ensures
        parse_level(level, s, g) == ({
            let (o1, o2) = (token_op(t1).unwrap(), token_op(t2).unwrap());
            let (na, nb, nc) = (ExprV::Number(a), ExprV::Number(b), ExprV::Number(c));
            if token_binding(t1) < level {
                Some((na, adv_n(s, 1)))
            } else if token_binding(t2) < level {
                Some((ExprV::Binary(Box::new(na), o1, Box::new(nb)), adv_n(s, 3)))
            } else if token_binding(t1) >= token_binding(t2) {
                Some((
                    ExprV::Binary(Box::new(ExprV::Binary(Box::new(na), o1, Box::new(nb))), o2, Box::new(nc)),
                    adv_n(s, 5),
                ))
            } else {
                Some((
                    ExprV::Binary(Box::new(na), o1, Box::new(ExprV::Binary(Box::new(nb), o2, Box::new(nc)))),
                    adv_n(s, 5),
                ))
            }
        }),
    decreases 3 - level,
{
    assert(adv(adv_n(s, 0)) is Some);
    assert(adv(adv_n(s, 1)) is Some);
    assert(adv(adv_n(s, 2)) is Some);
    assert(adv(adv_n(s, 3)) is Some);
    assert(adv(adv_n(s, 4)) is Some);
    lemma_adv_n(s, 0);
    lemma_adv_n(s, 1);
    lemma_adv_n(s, 2);
    lemma_adv_n(s, 3);
    lemma_adv_n(s, 4);
    let s1 = adv_n(s, 1);
    let s3 = adv_n(s, 3);
    let s4 = adv_n(s, 4);
    let s5 = adv_n(s, 5);
    let (o1, o2) = (token_op(t1).unwrap(), token_op(t2).unwrap());
    let (na, nb, nc) = (ExprV::Number(a), ExprV::Number(b), ExprV::Number(c));
    assert forall|l2: nat| 0 <= l2 < 3 implies (#[trigger] level_op(l2, s5.current)) is None by {
        lemma_level_op_binding(l2, t3);
    }
    lemma_level_op_binding(level, t1);
    lemma_level_op_binding(level, t2);
    lemma_level_op_binding(level, t3);
    if level == 3 {
        assert(adv_n(s, 0) == s);
        assert(parse_primary(s, (g - 1) as nat) == Some((na, s1)));
    } else {
        let h = (g - 1) as nat;
        lemma_level_three(level + 1, s, a, t1, b, t2, c, t3, h);
        let ab = ExprV::Binary(Box::new(na), o1, Box::new(nb));
        let ab_c = ExprV::Binary(Box::new(ab), o2, Box::new(nc));
        let bc = ExprV::Binary(Box::new(nb), o2, Box::new(nc));
        let a_bc = ExprV::Binary(Box::new(na), o1, Box::new(bc));
        if token_binding(t1) < level + 1 {
            if token_binding(t1) == level {
                lemma_level_two(level + 1, s, a, t1, b, t2, c, t3, (h - 1) as nat);
                if token_binding(t2) < level + 1 {
                    if token_binding(t2) == level {
                        lemma_level_number(level + 1, s4, c, (h - 2) as nat);
                        assert(level_loop(level, s5, ab_c, (h - 2) as nat) == Some((ab_c, s5)));
                        assert(level_loop(level, s3, ab, (h - 1) as nat) == Some((ab_c, s5)));
                    } else {
                        assert(level_loop(level, s3, ab, (h - 1) as nat) == Some((ab, s3)));
                    }
                } else {
                    assert(level_loop(level, s5, a_bc, (h - 1) as nat) == Some((a_bc, s5)));
                }
            } else {
                assert(level_loop(level, s1, na, h) == Some((na, s1)));
            }
        } else if token_binding(t2) < level + 1 {
            if token_binding(t2) == level {
                lemma_level_number(level + 1, s4, c, (h - 1) as nat);
                assert(level_loop(level, s5, ab_c, (h - 1) as nat) == Some((ab_c, s5)));
                assert(level_loop(level, s3, ab, h) == Some((ab_c, s5)));
            } else {
                assert(level_loop(level, s3, ab, h) == Some((ab, s3)));
            }
        } else if token_binding(t1) >= token_binding(t2) {
            assert(level_loop(level, s5, ab_c, h) == Some((ab_c, s5)));
        } else {
            assert(level_loop(level, s5, a_bc, h) == Some((a_bc, s5)));
        }
    }
}

/// Operator precedence and grouping: `a op1 b op2 c` parses as
/// `(a op1 b) op2 c` when `op1` binds at least as tightly as `op2` (so
/// operators of one level group to the left), and as `a op1 (b op2 c)`
/// when `op2` binds more tightly; `*` and `/` bind tighter than `+` and
/// `-`, which bind tighter than the comparisons.
pub proof fn lemma_precedence(s: PState, a: i64, t1: TokenV, b: i64, t2: TokenV, c: i64, t3: TokenV, f: nat)
    requires
        three_operands(s, a, t1, b, t2, c, t3),
        f >= 41,
    ensures
        parse_expr(s, f) == ({
            let (o1, o2) = (token_op(t1).unwrap(), token_op(t2).unwrap());
            let (na, nb, nc) = (ExprV::Number(a), ExprV::Number(b), ExprV::Number(c));
            if binding(o1) >= binding(o2) {
                Some((
                    ExprV::Binary(Box::new(ExprV::Binary(Box::new(na), o1, Box::new(nb))), o2, Box::new(nc)),
                    adv_n(s, 5),
                ))
            } else {
                Some((
                    ExprV::Binary(Box::new(na), o1, Box::new(ExprV::Binary(Box::new(nb), o2, Box::new(nc)))),
                    adv_n(s, 5),
                ))
            }
        }),
{
    lemma_level_three(0, s, a, t1, b, t2, c, t3, (f - 1) as nat);
}

} // verus!
