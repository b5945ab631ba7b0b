//! Parser for the Micro-C language.
//!
//! This module contains a recursive descent [`Parser`] that converts
//! a stream of tokens into an Abstract Syntax Tree (AST). Each method is
//! proved to do what the function of the same name in
//! [`crate::parser_spec`] describes.
use vstd::prelude::*;
use vstd::string::*;
use crate::ast::{
    Expr, Op, Stmt, Type, TypeV, exprs_v, stmts_v, elifs_v, names_v, fields_v, lemma_push_exprs,
    lemma_push_stmts, lemma_push_elifs, lemma_names_push, lemma_fields_push,
};
use crate::lexer::{Lexer, Token, TokenV, msgs};
use crate::parser_spec::{
    PState, adv, err, expect, expect_msg, field_msg, unexpected_msg, arrow, last_segment, let_type,
    field_type, level_op, params, program, program_loop, parses, program_result, parse_stmt,
    parse_expr_stmt, parse_let, let_rest, parse_assign, struct_fields, parse_struct, parse_fn,
    parse_extern, block_loop, parse_block, elif_loop, parse_if, parse_loop, parse_return,
    parse_expr, parse_level, level_loop, args_loop, postfix_loop, parse_name, include_state,
    parse_primary, start, negate, parse_include,
};
use crate::text::{str_eq, push_hex_alt, push_repeat, push_char};
use crate::fs::open_file_or_lib;

verus! {

/// Recursive descent parser state.
pub struct Parser {
    lexer: Lexer,
    current: Token,
    next: Token,
    position: u64,
    condition: u8,
}

impl View for Parser {
    type V = PState;

    closed spec fn view(&self) -> PState {
        PState {
            input: self.lexer.source(),
            pos: self.lexer.position(),
            current: self.current@,
            next: self.next@,
            position: self.position as int,
            msgs: self.lexer.messages(),
        }
    }
}

/// The type a `let` annotation names.
fn let_type_of(t: &String) -> (r: Type)
    ensures
        r@ == let_type(t@),
{
    if str_eq(t.as_str(), "i64") {
        Type::I64
    } else if str_eq(t.as_str(), "bool") {
        Type::Bool
    } else if str_eq(t.as_str(), "ptr") {
        let r = Type::Ptr(Box::new(Type::I64));
        proof {
            reveal_with_fuel(crate::ast::type_v, 2);
        }
        r
    } else {
        Type::Struct(t.clone())
    }
}

/// The type a struct field annotation names.
fn field_type_of(t: &String) -> (r: Type)
    ensures
        r@ == field_type(t@),
{
    if str_eq(t.as_str(), "i64") {
        Type::I64
    } else if str_eq(t.as_str(), "bool") {
        Type::Bool
    } else {
        Type::Struct(t.clone())
    }
}

proof fn lemma_last_segment(p: Seq<char>, k: int)
    requires
        -1 <= k < p.len(),
        k >= 0 ==> p[k] == '.',
        forall|j: int| k < j < p.len() ==> p[j] != '.',
    ensures
        last_segment(p) == p.subrange(k + 1, p.len() as int),
    decreases p.len(),
{
    if p.len() > 0 {
        if p.last() == '.' {
            assert(k == p.len() - 1);
        } else {
            lemma_last_segment(p.drop_last(), k);
            assert(p.drop_last().subrange(k + 1, p.len() - 1).push(p.last()) =~= p.subrange(k + 1, p.len() as int));
        }
    } else {
        assert(p.subrange(0, 0) =~= p);
    }
}

/// The part of `p` after its last `.` (all of `p` if it has none).
fn last_segment_of(p: &String) -> (r: String)
    ensures
        r@ == last_segment(p@),
{
    let mut cs: Vec<char> = Vec::new();
    for c in it: p.as_str().chars()
        invariant
            cs@ == it.seq().take(it.index() as int),
    {
        cs.push(c);
    }
    proof {
        broadcast use vstd::string::group_string_axioms;
        assert(cs@ =~= p@);
    }
    let mut k: usize = cs.len();
    while k > 0 && cs[k - 1] != '.'
        invariant
            k <= cs@.len(),
            forall|j: int| k <= j < cs@.len() ==> cs@[j] != '.',
        decreases k,
    {
        k = k - 1;
    }
    let mut r = String::new();
    let mut i: usize = k;
    while i < cs.len()
        invariant
            k <= i <= cs@.len(),
            r@ == cs@.subrange(k as int, i as int),
        decreases cs@.len() - i,
    {
        push_char(&mut r, cs[i]);
        i = i + 1;
        assert(r@ =~= cs@.subrange(k as int, i as int));
    }
    proof {
        lemma_last_segment(cs@, k - 1);
    }
    r
}

/// The operator `t` stands for at precedence level `level`.
fn level_op_of(level: u8, t: &Token) -> (r: Option<Op>)
    ensures
        r == level_op(level as nat, t@),
{
    match t {
        Token::EqEq => if level == 0 { Some(Op::Eq) } else { None },
        Token::NotEq => if level == 0 { Some(Op::Neq) } else { None },
        Token::Lt => if level == 0 { Some(Op::Lt) } else { None },
        Token::Gt => if level == 0 { Some(Op::Gt) } else { None },
        Token::LtEq => if level == 0 { Some(Op::LtEq) } else { None },
        Token::GtEq => if level == 0 { Some(Op::GtEq) } else { None },
        Token::Plus => if level == 1 { Some(Op::Add) } else { None },
        Token::Minus => if level == 1 { Some(Op::Sub) } else { None },
        Token::Star => if level == 2 { Some(Op::Mul) } else { None },
        Token::Slash => if level == 2 { Some(Op::Div) } else { None },
        _ => None,
    }
}

/// `-e`, with a negated literal folded into a negative literal.
fn negate_expr(e: Expr) -> (r: Expr)
    ensures
        r@ == negate(e@),
{
    proof {
        reveal_with_fuel(crate::ast::expr_v, 2);
    }
    match e {
        Expr::Number(n) => if n > i64::MIN {
            Expr::Number(-n)
        } else {
            Expr::Binary(Box::new(Expr::Number(0)), Op::Sub, Box::new(Expr::Number(n)))
        },
        other => Expr::Binary(Box::new(Expr::Number(0)), Op::Sub, Box::new(other)),
    }
}

impl Parser {
    /// Creates a new Parser from the given Lexer; the first two tokens are read.
    pub fn new(lexer: Lexer) -> (r: Self)
        requires
            start(lexer.source(), lexer.position(), lexer.messages()) is Some,
        ensures
            r@ == start(lexer.source(), lexer.position(), lexer.messages()).unwrap(),
    {
        let mut lexer = lexer;
        let current = lexer.next_token();
        let next = lexer.next_token();
        Self { lexer, current, next, position: 0, condition: 0 }
    }

    fn advance(&mut self)
        requires
            adv(old(self)@) is Some,
        ensures
            final(self)@ == adv(old(self)@).unwrap(),
    {
        let mut t = self.lexer.next_token();
        std::mem::swap(&mut self.next, &mut t);
        self.current = t;
        self.position = self.position + 1;
    }

    fn error(&mut self, msg: String)
        ensures
            final(self)@ == err(old(self)@, msg@),
    {
        self.lexer.report(msg);
    }

    /// The text of the current token followed by the next one, and the
    /// underline of the current one: the tail of the parser's messages.
    fn context(&self) -> (r: String)
        ensures
            r@ == crate::lexer::display_v(self@.current) + " "@ + crate::lexer::display_v(self@.next) + "\n "@
                + arrow(self@.current),
    {
        let c = self.current.display_text();
        let mut m = c.clone();
        m.append(" ");
        let n = self.next.display_text();
        m.append(n.as_str());
        m.append("\n ");
        push_repeat(&mut m, '^', c.as_str().len());
        m
    }

    fn expect_message(&self, t: &Token) -> (r: String)
        ensures
            r@ == expect_msg(self@, t@),
    {
        let mut m = String::from_str("(@");
        push_hex_alt(&mut m, self.position);
        m.append("), Expected ");
        let d = t.debug_text();
        m.append(d.as_str());
        m.append(", got ");
        let d = self.current.debug_text();
        m.append(d.as_str());
        m.append("\n ");
        let c = self.context();
        m.append(c.as_str());
        assert(m@ =~= expect_msg(self@, t@));
        m
    }

    fn field_message(&self) -> (r: String)
        ensures
            r@ == field_msg(self@),
    {
        let mut m = String::from_str("(@");
        push_hex_alt(&mut m, self.position);
        m.append(") Expected field name\n ");
        let c = self.context();
        m.append(c.as_str());
        assert(m@ =~= field_msg(self@));
        m
    }

    fn unexpected_message(&self) -> (r: String)
        ensures
            r@ == unexpected_msg(self@),
    {
        let mut m = String::from_str("(@");
        push_hex_alt(&mut m, self.position);
        m.append(") Unexpected token: ");
        let d = self.current.display_text();
        m.append(d.as_str());
        m.append("\n ");
        let c = self.context();
        m.append(c.as_str());
        assert(m@ =~= unexpected_msg(self@));
        m
    }

    fn expect(&mut self, t: Token)
        requires
            expect(old(self)@, t@) is Some,
        ensures
            final(self)@ == expect(old(self)@, t@).unwrap(),
    {
        if self.current.same(&t) {
            self.advance();
        } else {
            let m = self.expect_message(&t);
            self.error(m);
            self.advance();
        }
    }
}


impl Parser {
    fn parse_expr(&mut self, Ghost(f): Ghost<nat>) -> (r: Expr)
        requires
            parse_expr(old(self)@, f) is Some,
        ensures
            parse_expr(old(self)@, f) == Some((r@, final(self)@)),
        decreases f, 3nat,
    {
        self.parse_comparison(Ghost((f - 1) as nat))
    }

    fn parse_comparison(&mut self, Ghost(f): Ghost<nat>) -> (r: Expr)
        requires
            parse_level(0, old(self)@, f) is Some,
        ensures
            parse_level(0, old(self)@, f) == Some((r@, final(self)@)),
        decreases f, 2nat,
    {
        let ghost goal = parse_level(0, self@, f);
        let mut e = self.parse_term(Ghost((f - 1) as nat));
        let ghost mut g = (f - 1) as nat;
        loop
            invariant
                level_loop(0, self@, e@, g) == goal,
                goal == parse_level(0, old(self)@, f),
                goal is Some,
                g < f,
            decreases g,
        {
            match level_op_of(0, &self.current) {
                Some(op) => {
                    self.advance();
                    let r = self.parse_term(Ghost((g - 1) as nat));
                    e = Expr::Binary(Box::new(e), op, Box::new(r));
                    proof {
                        g = (g - 1) as nat;
                    }
                },
                None => {
                    return e;
                },
            }
        }
    }

    fn parse_term(&mut self, Ghost(f): Ghost<nat>) -> (r: Expr)
        requires
            parse_level(1, old(self)@, f) is Some,
        ensures
            parse_level(1, old(self)@, f) == Some((r@, final(self)@)),
        decreases f, 2nat,
    {
        let ghost goal = parse_level(1, self@, f);
        let mut e = self.parse_factor(Ghost((f - 1) as nat));
        let ghost mut g = (f - 1) as nat;
        loop
            invariant
                level_loop(1, self@, e@, g) == goal,
                goal == parse_level(1, old(self)@, f),
                goal is Some,
                g < f,
            decreases g,
        {
            match level_op_of(1, &self.current) {
                Some(op) => {
                    self.advance();
                    let r = self.parse_factor(Ghost((g - 1) as nat));
                    e = Expr::Binary(Box::new(e), op, Box::new(r));
                    proof {
                        g = (g - 1) as nat;
                    }
                },
                None => {
                    return e;
                },
            }
        }
    }

    fn parse_factor(&mut self, Ghost(f): Ghost<nat>) -> (r: Expr)
        requires
            parse_level(2, old(self)@, f) is Some,
        ensures
            parse_level(2, old(self)@, f) == Some((r@, final(self)@)),
        decreases f, 2nat,
    {
        let ghost goal = parse_level(2, self@, f);
        assert(parse_level(3, self@, (f - 1) as nat) is Some);
        let mut e = self.parse_primary(Ghost((f - 2) as nat));
        let ghost mut g = (f - 1) as nat;
        loop
            invariant
                level_loop(2, self@, e@, g) == goal,
                goal == parse_level(2, old(self)@, f),
                goal is Some,
                g < f,
            decreases g,
        {
            match level_op_of(2, &self.current) {
                Some(op) => {
                    self.advance();
                    assert(parse_level(3, self@, (g - 1) as nat) is Some);
                    let r = self.parse_primary(Ghost((g - 2) as nat));
                    e = Expr::Binary(Box::new(e), op, Box::new(r));
                    proof {
                        g = (g - 1) as nat;
                    }
                },
                None => {
                    return e;
                },
            }
        }
    }

    fn parse_primary(&mut self, Ghost(f): Ghost<nat>) -> (r: Expr)
        requires
            parse_primary(old(self)@, f) is Some,
        ensures
            parse_primary(old(self)@, f) == Some((r@, final(self)@)),
        decreases f, 1nat,
    {
        let ghost g = (f - 1) as nat;
        match &self.current {
            Token::Number(n) => {
                let n = *n;
                self.advance();
                Expr::Number(n)
            },
            Token::Ident(name) => {
                let name = name.clone();
                self.advance();
                self.parse_name(name, Ghost(g))
            },
            Token::Minus => {
                self.advance();
                let e = self.parse_primary(Ghost(g));
                negate_expr(e)
            },
            Token::LParen => {
                self.advance();
                let e = self.parse_expr(Ghost(g));
                self.expect(Token::RParen);
                e
            },
            Token::Include(p) => {
                let p = p.clone();
                self.advance();
                let ghost s1 = self@;
                let (text, m) = open_file_or_lib(p.as_str());
                match m {
                    Some(m) => self.error(m),
                    None => {},
                }
                self.lexer.extend_input(text.as_str());
                assert(self@ =~= include_state(s1, p@));
                let name = last_segment_of(&p);
                Expr::Include(p, name)
            },
            _ => {
                let m = self.unexpected_message();
                self.error(m);
                self.advance();
                Expr::Number(0)
            },
        }
    }

    fn parse_name(&mut self, name: String, Ghost(f): Ghost<nat>) -> (r: Expr)
        requires
            parse_name(old(self)@, name@, f) is Some,
        ensures
            parse_name(old(self)@, name@, f) == Some((r@, final(self)@)),
        decreases f, 0nat,
    {
        let ghost g = (f - 1) as nat;
        if matches!(self.current, Token::LParen) {
            self.advance();
            let ghost s1 = self@;
            let mut args: Vec<Expr> = Vec::new();
            let ghost mut h = g;
            while !matches!(self.current, Token::RParen)
                invariant
                    args_loop(self@, exprs_v(args@), h) == args_loop(s1, Seq::empty(), g),
                    args_loop(s1, Seq::empty(), g) is Some,
                    h <= g,
                    g < f,
                decreases h,
            {
                let a = self.parse_expr(Ghost((h - 1) as nat));
                if matches!(self.current, Token::Comma) {
                    self.advance();
                }
                proof {
                    lemma_push_exprs(args@, a);
                }
                args.push(a);
                proof {
                    h = (h - 1) as nat;
                }
            }
            self.expect(Token::RParen);
            let e = if str_eq(name.as_str(), "peek") {
                proof {
                    crate::ast::lemma_exprs_v(args@);
                }
                let a0 = args.remove(0);
                Expr::Peek(Box::new(a0))
            } else {
                Expr::Call(name, args)
            };
            self.parse_postfix(e, Ghost(g))
        } else {
            self.parse_postfix(Expr::Variable(name), Ghost(g))
        }
    }

    #[verifier::loop_isolation(false)]
    fn parse_postfix(&mut self, e: Expr, Ghost(f): Ghost<nat>) -> (r: Expr)
        requires
            postfix_loop(old(self)@, e@, f) is Some,
        ensures
            postfix_loop(old(self)@, e@, f) == Some((r@, final(self)@)),
        decreases f, 0nat,
    {
        let ghost e0 = e@;
        let ghost goal = postfix_loop(self@, e@, f);
        let mut e = e;
        let ghost mut h = f;
        loop
            invariant
                postfix_loop(self@, e@, h) == goal,
                goal == postfix_loop(old(self)@, e0, f),
                goal is Some,
                h <= f,
            decreases h,
        {
            if matches!(self.current, Token::LBracket) {
                self.advance();
                let idx = self.parse_expr(Ghost((h - 1) as nat));
                self.expect(Token::RBracket);
                e = Expr::Index(Box::new(e), Box::new(idx));
                proof {
                    h = (h - 1) as nat;
                }
            } else if matches!(self.current, Token::Dot) {
                self.advance();
                match &self.current {
                    Token::Ident(field) => {
                        let field = field.clone();
                        self.advance();
                        e = Expr::Field(Box::new(e), field);
                        proof {
                            h = (h - 1) as nat;
                        }
                    },
                    _ => {
                        let m = self.field_message();
                        self.error(m);
                        self.advance();
                        return Expr::Number(0);
                    },
                }
            } else {
                return e;
            }
        }
    }
}


impl Parser {
    /// The messages reported while lexing and parsing.
    pub fn into_messages(self) -> (r: Vec<String>)
        ensures
            msgs(r@) == self@.msgs,
    {
        self.lexer.into_messages()
    }

    /// Parses the entire program into a list of statements.
    pub fn parse_program(&mut self) -> (r: Vec<Stmt>)
        requires
            parses(old(self)@),
        ensures
            (stmts_v(r@), final(self)@) == program_result(old(self)@),
    {
        let ghost f = choose|f: nat| (#[trigger] program(self@, f)) is Some;
        let ghost goal = program(self@, f);
        let mut stmts: Vec<Stmt> = Vec::new();
        let ghost mut g = f;
        while !matches!(self.current, Token::EOF)
            invariant
                program_loop(self@, stmts_v(stmts@), g) == goal,
                goal == program(old(self)@, f),
                goal is Some,
                program(old(self)@, f) == Some(program_result(old(self)@)),
            decreases g,
        {
            let st = self.parse_stmt(Ghost((g - 1) as nat));
            proof {
                lemma_push_stmts(stmts@, st);
            }
            stmts.push(st);
            proof {
                g = (g - 1) as nat;
            }
        }
        stmts
    }

    #[verifier::rlimit(60)]
    fn parse_stmt(&mut self, Ghost(f): Ghost<nat>) -> (r: Stmt)
        requires
            parse_stmt(old(self)@, f) is Some,
        ensures
            parse_stmt(old(self)@, f) == Some((r@, final(self)@)),
        decreases f, 1nat,
    {
        let ghost g = (f - 1) as nat;
        match &self.current {
            Token::Let => self.parse_let(Ghost(g)),
            Token::Struct => self.parse_struct(Ghost(g)),
            Token::Fn => self.parse_fn(Ghost(g)),
            Token::Export => self.parse_fn(Ghost(g)),
            Token::If => self.parse_if(Ghost(g)),
            Token::Loop => self.parse_loop(Ghost(g)),
            Token::Return => self.parse_return(Ghost(g)),
            Token::Break => {
                self.advance();
                self.expect(Token::Semicolon);
                Stmt::Break
            },
            Token::Continue => {
                self.advance();
                self.expect(Token::Semicolon);
                Stmt::Continue
            },
            Token::Ident(name) => {
                if str_eq(name.as_str(), "extern") && matches!(self.next, Token::Fn) {
                    self.parse_extern(Ghost(g))
                } else if matches!(self.next, Token::Assign) {
                    self.parse_assign(Ghost(g))
                } else {
                    self.parse_expr_stmt(Ghost(g))
                }
            },
            Token::Include(p) => {
                let p = p.clone();
                self.parse_include(p)
            },
            _ => self.parse_expr_stmt(Ghost(g)),
        }
    }

    /// `#include <p>` as a statement of its own: the library's text is
    /// appended to the input, and the parser moves past the directive.
    fn parse_include(&mut self, p: String) -> (r: Stmt)
        requires
            parse_include(old(self)@, p@) is Some,
        ensures
            parse_include(old(self)@, p@) == Some((r@, final(self)@)),
    {
        let at_end = matches!(self.next, Token::EOF);
        let old_len = self.lexer.len();
        let (text, m) = open_file_or_lib(p.as_str());
        let found = m.is_none();
        match m {
            Some(m) => self.error(m),
            None => {},
        }
        self.lexer.extend_input(text.as_str());
        assert(self@ =~= include_state(old(self)@, p@));
        if at_end && found {
            self.lexer.set_position(old_len);
            self.next = self.lexer.next_token();
        }
        self.advance();
        Stmt::Import { name: p }
    }

    fn parse_expr_stmt(&mut self, Ghost(f): Ghost<nat>) -> (r: Stmt)
        requires
            parse_expr_stmt(old(self)@, f) is Some,
        ensures
            parse_expr_stmt(old(self)@, f) == Some((r@, final(self)@)),
        decreases f, 0nat,
    {
        let ghost g = (f - 1) as nat;
        let expr = self.parse_expr(Ghost(g));
        match expr {
            Expr::Field(base, field) => {
                if matches!(self.current, Token::Assign) {
                    self.advance();
                    let value = self.parse_expr(Ghost(g));
                    self.expect(Token::Semicolon);
                    return Stmt::AssignField { base: *base, field, value };
                }
                self.expect(Token::Semicolon);
                Stmt::Expr(Expr::Field(base, field))
            },
            Expr::Index(base, index) => {
                if matches!(self.current, Token::Assign) {
                    self.advance();
                    let value = self.parse_expr(Ghost(g));
                    self.expect(Token::Semicolon);
                    return Stmt::AssignIndex { base: *base, index: *index, value };
                }
                self.expect(Token::Semicolon);
                Stmt::Expr(Expr::Index(base, index))
            },
            Expr::Call(name, args) => {
                self.expect(Token::Semicolon);
                if str_eq(name.as_str(), "poke") {
                    proof {
                        crate::ast::lemma_exprs_v(args@);
                    }
                    let mut args = args;
                    let a0 = args.remove(0);
                    let a1 = args.remove(0);
                    return Stmt::Poke(a0, a1);
                }
                Stmt::Expr(Expr::Call(name, args))
            },
            other => {
                self.expect(Token::Semicolon);
                Stmt::Expr(other)
            },
        }
    }

    fn parse_let(&mut self, Ghost(f): Ghost<nat>) -> (r: Stmt)
        requires
            parse_let(old(self)@, f) is Some,
        ensures
            parse_let(old(self)@, f) == Some((r@, final(self)@)),
        decreases f, 0nat,
    {
        let ghost g = (f - 1) as nat;
        self.advance();
        let name = match &self.current {
            Token::Ident(s) => s.clone(),
            _ => {
                self.error(String::from_str("Expected identifier"));
                self.advance();
                return Stmt::Empty;
            },
        };
        self.advance();
        let ty = if matches!(self.current, Token::Colon) {
            self.advance();
            match &self.current {
                Token::Ident(t) => {
                    let ty = let_type_of(t);
                    self.advance();
                    Some(ty)
                },
                _ => {
                    self.error(String::from_str("Expected type"));
                    self.advance();
                    return Stmt::Empty;
                },
            }
        } else {
            None
        };
        self.let_rest(name, ty, Ghost(g))
    }

    fn let_rest(&mut self, name: String, ty: Option<Type>, Ghost(f): Ghost<nat>) -> (r: Stmt)
        requires
            let_rest(
                old(self)@,
                name@,
                match ty {
                    Some(t) => Some(t@),
                    None => None,
                },
                f,
            ) is Some,
        ensures
            let_rest(
                old(self)@,
                name@,
                match ty {
                    Some(t) => Some(t@),
                    None => None,
                },
                f,
            ) == Some((r@, final(self)@)),
        decreases f, 0nat,
    {
        self.expect(Token::Assign);
        let value = self.parse_expr(Ghost((f - 1) as nat));
        self.expect(Token::Semicolon);
        Stmt::Let { name, ty, value }
    }

    fn parse_assign(&mut self, Ghost(f): Ghost<nat>) -> (r: Stmt)
        requires
            parse_assign(old(self)@, f) is Some,
        ensures
            parse_assign(old(self)@, f) == Some((r@, final(self)@)),
        decreases f, 0nat,
    {
        let name = match &self.current {
            Token::Ident(s) => s.clone(),
            _ => {
                self.error(String::new());
                return Stmt::Empty;
            },
        };
        self.advance();
        self.expect(Token::Assign);
        let value = self.parse_expr(Ghost((f - 1) as nat));
        self.expect(Token::Semicolon);
        Stmt::Assign(name, value)
    }

    fn parse_struct(&mut self, Ghost(f): Ghost<nat>) -> (r: Stmt)
        requires
            parse_struct(old(self)@, f) is Some,
        ensures
            parse_struct(old(self)@, f) == Some((r@, final(self)@)),
        decreases f, 0nat,
    {
        self.advance();
        let name = match &self.current {
            Token::Ident(s) => s.clone(),
            _ => {
                self.error(String::from_str("Expected struct name"));
                self.advance();
                return Stmt::Empty;
            },
        };
        self.advance();
        self.expect(Token::LBrace);
        let ghost s3 = self@;
        let ghost goal = struct_fields(s3, name@, Seq::empty(), (f - 1) as nat);
        let mut fields: Vec<(String, Type)> = Vec::new();
        let ghost mut h = (f - 1) as nat;
        assert(fields_v(fields@) =~= Seq::empty());
        while !matches!(self.current, Token::RBrace)
            invariant
                struct_fields(self@, name@, fields_v(fields@), h) == goal,
                goal == parse_struct(old(self)@, f),
                goal is Some,
            decreases h,
        {
            let field = match &self.current {
                Token::Ident(s) => s.clone(),
                _ => {
                    self.error(String::from_str("Expected field name"));
                    self.advance();
                    return Stmt::Empty;
                },
            };
            self.advance();
            self.expect(Token::Colon);
            let ty = match &self.current {
                Token::Ident(t) => {
                    let ty = field_type_of(t);
                    self.advance();
                    ty
                },
                _ => {
                    self.error(String::from_str("Expected type"));
                    self.advance();
                    Type::I64
                },
            };
            self.expect(Token::Semicolon);
            proof {
                lemma_fields_push(fields@, (field, ty));
            }
            fields.push((field, ty));
            proof {
                h = (h - 1) as nat;
            }
        }
        self.expect(Token::RBrace);
        Stmt::Struct { name, fields }
    }

    /// The parameter names up to `)`.
    fn parse_params(&mut self, Ghost(f): Ghost<nat>) -> (r: Vec<String>)
        requires
            params(old(self)@, Seq::empty(), f) is Some,
        ensures
            params(old(self)@, Seq::empty(), f) == Some((names_v(r@), final(self)@)),
    {
        let ghost goal = params(self@, Seq::empty(), f);
        let mut ps: Vec<String> = Vec::new();
        let ghost mut h = f;
        assert(names_v(ps@) =~= Seq::<Seq<char>>::empty());
        while !matches!(self.current, Token::RParen)
            invariant
                params(self@, names_v(ps@), h) == goal,
                goal == params(old(self)@, Seq::empty(), f),
                goal is Some,
            decreases h,
        {
            match &self.current {
                Token::Ident(p) => {
                    let p = p.clone();
                    self.advance();
                    proof {
                        lemma_names_push(ps@, p);
                    }
                    ps.push(p);
                },
                _ => {},
            }
            if matches!(self.current, Token::Comma) {
                self.advance();
            }
            proof {
                h = (h - 1) as nat;
            }
        }
        ps
    }

    #[verifier::rlimit(60)]
    fn parse_fn(&mut self, Ghost(f): Ghost<nat>) -> (r: Stmt)
        requires
            parse_fn(old(self)@, f) is Some,
        ensures
            parse_fn(old(self)@, f) == Some((r@, final(self)@)),
        decreases f, 0nat,
    {
        let ghost g = (f - 1) as nat;
        let export = if matches!(self.current, Token::Export) {
            self.advance();
            true
        } else {
            false
        };
        self.expect(Token::Fn);
        let name = match &self.current {
            Token::Ident(s) => s.clone(),
            _ => {
                self.error(String::from_str("Expected function name"));
                self.advance();
                return Stmt::Empty;
            },
        };
        self.advance();
        self.expect(Token::LParen);
        let params = self.parse_params(Ghost(g));
        self.expect(Token::RParen);
        let body = self.parse_block(Ghost(g));
        Stmt::Function { name, params, body, export }
    }

    fn parse_extern(&mut self, Ghost(f): Ghost<nat>) -> (r: Stmt)
        requires
            parse_extern(old(self)@, f) is Some,
        ensures
            parse_extern(old(self)@, f) == Some((r@, final(self)@)),
        decreases f, 0nat,
    {
        let ghost g = (f - 1) as nat;
        self.advance();
        self.expect(Token::Fn);
        let name = match &self.current {
            Token::Ident(s) => s.clone(),
            _ => {
                self.error(String::from_str("Expected function name"));
                self.advance();
                return Stmt::Empty;
            },
        };
        self.advance();
        self.expect(Token::LParen);
        let params = self.parse_params(Ghost(g));
        self.expect(Token::RParen);
        self.expect(Token::Semicolon);
        Stmt::ExternFunction { name, params }
    }

    fn parse_block(&mut self, Ghost(f): Ghost<nat>) -> (r: Vec<Stmt>)
        requires
            parse_block(old(self)@, f) is Some,
        ensures
            parse_block(old(self)@, f) == Some((stmts_v(r@), final(self)@)),
        decreases f, 1nat,
    {
        self.expect(Token::LBrace);
        let ghost goal = block_loop(self@, Seq::empty(), (f - 1) as nat);
        let mut stmts: Vec<Stmt> = Vec::new();
        let ghost mut h = (f - 1) as nat;
        while !matches!(self.current, Token::RBrace)
            invariant
                block_loop(self@, stmts_v(stmts@), h) == goal,
                goal is Some,
                h < f,
            decreases h,
        {
            let st = self.parse_stmt(Ghost((h - 1) as nat));
            proof {
                lemma_push_stmts(stmts@, st);
            }
            stmts.push(st);
            proof {
                h = (h - 1) as nat;
            }
        }
        self.expect(Token::RBrace);
        stmts
    }

    #[verifier::rlimit(60)]
    fn parse_if(&mut self, Ghost(f): Ghost<nat>) -> (r: Stmt)
        requires
            parse_if(old(self)@, f) is Some,
        ensures
            parse_if(old(self)@, f) == Some((r@, final(self)@)),
        decreases f, 0nat,
    {
        let ghost g = (f - 1) as nat;
        self.advance();
        self.expect(Token::LParen);
        let cond = self.parse_expr(Ghost(g));
        self.expect(Token::RParen);
        let then_branch = self.parse_block(Ghost(g));
        let ghost goal = elif_loop(self@, Seq::empty(), g);
        let mut elif: Vec<(Expr, Vec<Stmt>)> = Vec::new();
        let ghost mut h = g;
        while matches!(self.current, Token::Elif)
            invariant
                elif_loop(self@, elifs_v(elif@), h) == goal,
                goal is Some,
                h < f,
            decreases h,
        {
            self.advance();
            self.expect(Token::LParen);
            let c = self.parse_expr(Ghost((h - 1) as nat));
            self.expect(Token::RParen);
            let b = self.parse_block(Ghost((h - 1) as nat));
            proof {
                lemma_push_elifs(elif@, (c, b));
            }
            elif.push((c, b));
            proof {
                h = (h - 1) as nat;
            }
        }
        let else_branch = if matches!(self.current, Token::Else) {
            self.advance();
            Some(self.parse_block(Ghost(g)))
        } else {
            None
        };
        Stmt::If { cond, then_branch, elif, else_branch }
    }

    fn parse_loop(&mut self, Ghost(f): Ghost<nat>) -> (r: Stmt)
        requires
            parse_loop(old(self)@, f) is Some,
        ensures
            parse_loop(old(self)@, f) == Some((r@, final(self)@)),
        decreases f, 0nat,
    {
        self.advance();
        Stmt::Loop(self.parse_block(Ghost((f - 1) as nat)))
    }

    fn parse_return(&mut self, Ghost(f): Ghost<nat>) -> (r: Stmt)
        requires
            parse_return(old(self)@, f) is Some,
        ensures
            parse_return(old(self)@, f) == Some((r@, final(self)@)),
        decreases f, 0nat,
    {
        self.advance();
        let e = self.parse_expr(Ghost((f - 1) as nat));
        self.expect(Token::Semicolon);
        Stmt::Return(e)
    }
}

} // verus!
