//! Abstract Syntax Tree (AST) definitions.
//!
//! This module defines the structure of the Micro-C language after parsing,
//! consisting of [`Type`]s, [`Expr`]essions, and [`Stmt`]atements, together
//! with their mathematical values ([`TypeV`], [`ExprV`], [`StmtV`]), in
//! which names are character sequences.
use vstd::prelude::*;

verus! {

/// Represents a type in Micro-C.
#[derive(Debug)]
pub enum Type {
    I64,
    Bool,
    Ptr(Box<Type>),
    Struct(String),
}

/// Represents an expression that evaluates to a value.
#[derive(Debug)]
pub enum Expr {
    Number(i64),
    Variable(String),
    Binary(Box<Expr>, Op, Box<Expr>),
    Call(String, Vec<Expr>),
    Peek(Box<Expr>),
    Index(Box<Expr>, Box<Expr>),
    Field(Box<Expr>, String),
    /// `#include <path>`: the path and its last `.`-separated segment.
    Include(String, String),
}

/// Represents a statement that performs an action.
#[derive(Debug)]
pub enum Stmt {
    Let { name: String, ty: Option<Type>, value: Expr },
    Assign(String, Expr),
    AssignIndex { base: Expr, index: Expr, value: Expr },
    AssignField { base: Expr, field: String, value: Expr },
    Struct { name: String, fields: Vec<(String, Type)> },
    Return(Expr),
    Expr(Expr),
    Poke(Expr, Expr),
    If {
        cond: Expr,
        then_branch: Vec<Stmt>,
        elif: Vec<(Expr, Vec<Stmt>)>,
        else_branch: Option<Vec<Stmt>>,
    },
    Loop(Vec<Stmt>),
    Break,
    Continue,
    Function { name: String, params: Vec<String>, body: Vec<Stmt>, export: bool },
    ExternFunction { name: String, params: Vec<String> },
    Import { name: String },
    /// What the parser yields for a statement it could not read.
    Empty,
}

#[derive(Debug, Clone, Copy, PartialEq, Eq, Structural)]
pub enum Op {
    Add,
    Sub,
    Mul,
    Div,
    Eq,
    Neq,
    Lt,
    Gt,
    LtEq,
    GtEq,
}

/// The value of a [`Type`].
pub enum TypeV {
    I64,
    Bool,
    Ptr(Box<TypeV>),
    Struct(Seq<char>),
}

/// The value of an [`Expr`].
pub enum ExprV {
    Number(i64),
    Variable(Seq<char>),
    Binary(Box<ExprV>, Op, Box<ExprV>),
    Call(Seq<char>, Seq<ExprV>),
    Peek(Box<ExprV>),
    Index(Box<ExprV>, Box<ExprV>),
    Field(Box<ExprV>, Seq<char>),
    Include(Seq<char>, Seq<char>),
}

/// The value of a [`Stmt`].
pub enum StmtV {
    Let { name: Seq<char>, ty: Option<TypeV>, value: ExprV },
    Assign(Seq<char>, ExprV),
    AssignIndex { base: ExprV, index: ExprV, value: ExprV },
    AssignField { base: ExprV, field: Seq<char>, value: ExprV },
    Struct { name: Seq<char>, fields: Seq<(Seq<char>, TypeV)> },
    Return(ExprV),
    Expr(ExprV),
    Poke(ExprV, ExprV),
    If {
        cond: ExprV,
        then_branch: Seq<StmtV>,
        elif: Seq<(ExprV, Seq<StmtV>)>,
        else_branch: Option<Seq<StmtV>>,
    },
    Loop(Seq<StmtV>),
    Break,
    Continue,
    Function { name: Seq<char>, params: Seq<Seq<char>>, body: Seq<StmtV>, export: bool },
    ExternFunction { name: Seq<char>, params: Seq<Seq<char>> },
    Import { name: Seq<char> },
    Empty,
}

pub open spec fn type_v(t: Type) -> TypeV
    decreases t,
{
    match t {
        Type::I64 => TypeV::I64,
        Type::Bool => TypeV::Bool,
        Type::Ptr(inner) => TypeV::Ptr(Box::new(type_v(*inner))),
        Type::Struct(s) => TypeV::Struct(s@),
    }
}

impl View for Type {
    type V = TypeV;

    open spec fn view(&self) -> TypeV {
        type_v(*self)
    }
}

/// The names of a list of strings.
pub open spec fn names_v(s: Seq<String>) -> Seq<Seq<char>> {
    s.map_values(|x: String| x@)
}

/// The value of a list of fields.
pub open spec fn fields_v(s: Seq<(String, Type)>) -> Seq<(Seq<char>, TypeV)> {
    s.map_values(|f: (String, Type)| (f.0@, f.1@))
}

pub open spec fn expr_v(e: Expr) -> ExprV
    decreases e,
{
    match e {
        Expr::Number(n) => ExprV::Number(n),
        Expr::Variable(s) => ExprV::Variable(s@),
        Expr::Binary(l, op, r) => ExprV::Binary(Box::new(expr_v(*l)), op, Box::new(expr_v(*r))),
        Expr::Call(name, args) => ExprV::Call(name@, exprs_v(args@)),
        Expr::Peek(a) => ExprV::Peek(Box::new(expr_v(*a))),
        Expr::Index(b, i) => ExprV::Index(Box::new(expr_v(*b)), Box::new(expr_v(*i))),
        Expr::Field(b, f) => ExprV::Field(Box::new(expr_v(*b)), f@),
        Expr::Include(p, n) => ExprV::Include(p@, n@),
    }
}

pub open spec fn exprs_v(s: Seq<Expr>) -> Seq<ExprV>
    decreases s,
{
    if s.len() == 0 {
        Seq::empty()
    } else {
        exprs_v(s.subrange(0, s.len() - 1)).push(expr_v(s[s.len() - 1]))
    }
}

impl View for Expr {
    type V = ExprV;

    open spec fn view(&self) -> ExprV {
        expr_v(*self)
    }
}

pub open spec fn stmt_v(s: Stmt) -> StmtV
    decreases s,
{
    match s {
        Stmt::Let { name, ty, value } => StmtV::Let {
            name: name@,
            ty: match ty {
                Some(t) => Some(t@),
                None => None,
            },
            value: value@,
        },
        Stmt::Assign(n, v) => StmtV::Assign(n@, v@),
        Stmt::AssignIndex { base, index, value } => StmtV::AssignIndex {
            base: base@,
            index: index@,
            value: value@,
        },
        Stmt::AssignField { base, field, value } => StmtV::AssignField {
            base: base@,
            field: field@,
            value: value@,
        },
        Stmt::Struct { name, fields } => StmtV::Struct { name: name@, fields: fields_v(fields@) },
        Stmt::Return(e) => StmtV::Return(e@),
        Stmt::Expr(e) => StmtV::Expr(e@),
        Stmt::Poke(a, v) => StmtV::Poke(a@, v@),
        Stmt::If { cond, then_branch, elif, else_branch } => StmtV::If {
            cond: cond@,
            then_branch: stmts_v(then_branch@),
            elif: elifs_v(elif@),
            else_branch: match else_branch {
                Some(b) => Some(stmts_v(b@)),
                None => None,
            },
        },
        Stmt::Loop(body) => StmtV::Loop(stmts_v(body@)),
        Stmt::Break => StmtV::Break,
        Stmt::Continue => StmtV::Continue,
        Stmt::Function { name, params, body, export } => StmtV::Function {
            name: name@,
            params: names_v(params@),
            body: stmts_v(body@),
            export,
        },
        Stmt::ExternFunction { name, params } => StmtV::ExternFunction {
            name: name@,
            params: names_v(params@),
        },
        Stmt::Import { name } => StmtV::Import { name: name@ },
        Stmt::Empty => StmtV::Empty,
    }
}

pub open spec fn stmts_v(s: Seq<Stmt>) -> Seq<StmtV>
    decreases s,
{
    if s.len() == 0 {
        Seq::empty()
    } else {
        stmts_v(s.subrange(0, s.len() - 1)).push(stmt_v(s[s.len() - 1]))
    }
}

pub open spec fn elifs_v(s: Seq<(Expr, Vec<Stmt>)>) -> Seq<(ExprV, Seq<StmtV>)>
    decreases s,
{
    if s.len() == 0 {
        Seq::empty()
    } else {
        elifs_v(s.subrange(0, s.len() - 1)).push(
            (s[s.len() - 1].0@, stmts_v(s[s.len() - 1].1@)),
        )
    }
}

impl View for Stmt {
    type V = StmtV;

    open spec fn view(&self) -> StmtV {
        stmt_v(*self)
    }
}


/// A copy of a type with the same value.
pub fn copy_type(t: &Type) -> (r: Type)
    ensures
        r@ == t@,
    decreases t,
{
    match t {
        Type::I64 => Type::I64,
        Type::Bool => Type::Bool,
        Type::Ptr(inner) => Type::Ptr(Box::new(copy_type(inner))),
        Type::Struct(s) => Type::Struct(s.clone()),
    }
}

pub proof fn lemma_names_push(s: Seq<String>, x: String)
    ensures
        names_v(s.push(x)) == names_v(s).push(x@),
{
    assert(names_v(s.push(x)) =~= names_v(s).push(x@));
}

pub proof fn lemma_fields_push(s: Seq<(String, Type)>, x: (String, Type))
    ensures
        fields_v(s.push(x)) == fields_v(s).push((x.0@, x.1@)),
{
    assert(fields_v(s.push(x)) =~= fields_v(s).push((x.0@, x.1@)));
}

/// A copy of a list of names with the same value.
pub fn copy_names(v: &Vec<String>) -> (r: Vec<String>)
    ensures
        names_v(r@) == names_v(v@),
{
    let mut r: Vec<String> = Vec::new();
    let mut i: usize = 0;
    while i < v.len()
        invariant
            i <= v@.len(),
            names_v(r@) == names_v(v@.take(i as int)),
        decreases v@.len() - i,
    {
        let x = v[i].clone();
        proof {
            lemma_names_push(r@, x);
            lemma_names_push(v@.take(i as int), v@[i as int]);
            assert(v@.take(i + 1) =~= v@.take(i as int).push(v@[i as int]));
        }
        r.push(x);
        i = i + 1;
    }
    assert(v@.take(v@.len() as int) =~= v@);
    r
}

/// A copy of a list of fields with the same value.
pub fn copy_fields(v: &Vec<(String, Type)>) -> (r: Vec<(String, Type)>)
    ensures
        fields_v(r@) == fields_v(v@),
{
    let mut r: Vec<(String, Type)> = Vec::new();
    let mut i: usize = 0;
    while i < v.len()
        invariant
            i <= v@.len(),
            fields_v(r@) == fields_v(v@.take(i as int)),
        decreases v@.len() - i,
    {
        let x = (v[i].0.clone(), copy_type(&v[i].1));
        proof {
            lemma_fields_push(r@, x);
            lemma_fields_push(v@.take(i as int), v@[i as int]);
            assert(v@.take(i + 1) =~= v@.take(i as int).push(v@[i as int]));
        }
        r.push(x);
        i = i + 1;
    }
    assert(v@.take(v@.len() as int) =~= v@);
    r
}

proof fn lemma_exprs_v_push(s: Seq<Expr>, e: Expr)
    ensures
        exprs_v(s.push(e)) == exprs_v(s).push(expr_v(e)),
{
    assert(s.push(e).subrange(0, s.len() as int) =~= s);
}

proof fn lemma_stmts_v_push(s: Seq<Stmt>, e: Stmt)
    ensures
        stmts_v(s.push(e)) == stmts_v(s).push(stmt_v(e)),
{
    assert(s.push(e).subrange(0, s.len() as int) =~= s);
}

proof fn lemma_elifs_v_push(s: Seq<(Expr, Vec<Stmt>)>, e: (Expr, Vec<Stmt>))
    ensures
        elifs_v(s.push(e)) == elifs_v(s).push((e.0@, stmts_v(e.1@))),
{
    assert(s.push(e).subrange(0, s.len() as int) =~= s);
}

/// `exprs_v` is `expr_v` applied to each element.
pub proof fn lemma_exprs_v(s: Seq<Expr>)
    ensures
        exprs_v(s).len() == s.len(),
        forall|i: int| 0 <= i < s.len() ==> #[trigger] exprs_v(s)[i] == expr_v(s[i]),
    decreases s.len(),
{
    if s.len() > 0 {
        lemma_exprs_v(s.subrange(0, s.len() - 1));
    }
}

/// `stmts_v` is `stmt_v` applied to each element.
pub proof fn lemma_stmts_v(s: Seq<Stmt>)
    ensures
        stmts_v(s).len() == s.len(),
        forall|i: int| 0 <= i < s.len() ==> #[trigger] stmts_v(s)[i] == stmt_v(s[i]),
    decreases s.len(),
{
    if s.len() > 0 {
        lemma_stmts_v(s.subrange(0, s.len() - 1));
    }
}

/// `elifs_v` is the value of each branch.
pub proof fn lemma_elifs_v(s: Seq<(Expr, Vec<Stmt>)>)
    ensures
        elifs_v(s).len() == s.len(),
        forall|i: int| 0 <= i < s.len() ==> #[trigger] elifs_v(s)[i] == (s[i].0@, stmts_v(s[i].1@)),
    decreases s.len(),
{
    if s.len() > 0 {
        lemma_elifs_v(s.subrange(0, s.len() - 1));
    }
}

/// Appending keeps the value of the list in step.
pub proof fn lemma_push_exprs(s: Seq<Expr>, e: Expr)
    ensures
        exprs_v(s.push(e)) == exprs_v(s).push(e@),
{
    lemma_exprs_v_push(s, e);
}

/// Appending keeps the value of the list in step.
pub proof fn lemma_push_stmts(s: Seq<Stmt>, e: Stmt)
    ensures
        stmts_v(s.push(e)) == stmts_v(s).push(e@),
{
    lemma_stmts_v_push(s, e);
}

/// Appending keeps the value of the list in step.
pub proof fn lemma_push_elifs(s: Seq<(Expr, Vec<Stmt>)>, e: (Expr, Vec<Stmt>))
    ensures
        elifs_v(s.push(e)) == elifs_v(s).push((e.0@, stmts_v(e.1@))),
{
    lemma_elifs_v_push(s, e);
}

/// A copy of an expression with the same value.
#[verifier::loop_isolation(false)]
pub fn copy_expr(e: &Expr) -> (r: Expr)
    ensures
        r@ == e@,
    decreases e,
{
    match e {
        Expr::Number(n) => Expr::Number(*n),
        Expr::Variable(s) => Expr::Variable(s.clone()),
        Expr::Binary(l, op, r) => Expr::Binary(Box::new(copy_expr(l)), *op, Box::new(copy_expr(r))),
        Expr::Call(name, args) => {
            let mut v: Vec<Expr> = Vec::new();
            let mut i: usize = 0;
            while i < args.len()
                invariant
                    i <= args@.len(),
                    exprs_v(v@) == exprs_v(args@.take(i as int)),
                decreases args@.len() - i,
            {
                proof {
                    assert(decreases_to!(*e => *args));
                    assert(decreases_to!(*args => args@));
                    assert(decreases_to!(args@ => args@[i as int]));
                }
                let c = copy_expr(&args[i]);
                proof {
                    lemma_exprs_v_push(v@, c);
                    lemma_exprs_v_push(args@.take(i as int), args@[i as int]);
                    assert(args@.take(i as int).push(args@[i as int]) =~= args@.take(i + 1));
                }
                v.push(c);
                i = i + 1;
            }
            assert(args@.take(args@.len() as int) =~= args@);
            Expr::Call(name.clone(), v)
        },
        Expr::Peek(a) => Expr::Peek(Box::new(copy_expr(a))),
        Expr::Index(b, i) => Expr::Index(Box::new(copy_expr(b)), Box::new(copy_expr(i))),
        Expr::Field(b, f) => Expr::Field(Box::new(copy_expr(b)), f.clone()),
        Expr::Include(p, n) => Expr::Include(p.clone(), n.clone()),
    }
}

/// A copy of a list of statements with the same value.
pub fn copy_stmts(s: &Vec<Stmt>) -> (r: Vec<Stmt>)
    ensures
        stmts_v(r@) == stmts_v(s@),
    decreases s,
{
    let mut v: Vec<Stmt> = Vec::new();
    let mut i: usize = 0;
    while i < s.len()
        invariant
            i <= s@.len(),
            stmts_v(v@) == stmts_v(s@.take(i as int)),
        decreases s@.len() - i,
    {
        proof {
            assert(decreases_to!(*s => s@));
            assert(decreases_to!(s@ => s@[i as int]));
        }
        let c = copy_stmt(&s[i]);
        proof {
            lemma_stmts_v_push(v@, c);
            lemma_stmts_v_push(s@.take(i as int), s@[i as int]);
            assert(s@.take(i as int).push(s@[i as int]) =~= s@.take(i + 1));
        }
        v.push(c);
        i = i + 1;
    }
    assert(s@.take(s@.len() as int) =~= s@);
    v
}

/// A copy of a statement with the same value.
#[verifier::loop_isolation(false)]
pub fn copy_stmt(s: &Stmt) -> (r: Stmt)
    ensures
        r@ == s@,
    decreases s,
{
    match s {
        Stmt::Let { name, ty, value } => Stmt::Let {
            name: name.clone(),
            ty: match ty {
                Some(t) => Some(copy_type(t)),
                None => None,
            },
            value: copy_expr(value),
        },
        Stmt::Assign(n, v) => Stmt::Assign(n.clone(), copy_expr(v)),
        Stmt::AssignIndex { base, index, value } => Stmt::AssignIndex {
            base: copy_expr(base),
            index: copy_expr(index),
            value: copy_expr(value),
        },
        Stmt::AssignField { base, field, value } => Stmt::AssignField {
            base: copy_expr(base),
            field: field.clone(),
            value: copy_expr(value),
        },
        Stmt::Struct { name, fields } => Stmt::Struct { name: name.clone(), fields: copy_fields(fields) },
        Stmt::Return(e) => Stmt::Return(copy_expr(e)),
        Stmt::Expr(e) => Stmt::Expr(copy_expr(e)),
        Stmt::Poke(a, v) => Stmt::Poke(copy_expr(a), copy_expr(v)),
        Stmt::If { cond, then_branch, elif, else_branch } => {
            let mut el: Vec<(Expr, Vec<Stmt>)> = Vec::new();
            let mut i: usize = 0;
            while i < elif.len()
                invariant
                    i <= elif@.len(),
                    elifs_v(el@) == elifs_v(elif@.take(i as int)),
                decreases elif@.len() - i,
            {
                proof {
                    assert(decreases_to!(*s => s->elif));
                    assert(decreases_to!(*elif => elif@));
                    assert(decreases_to!(elif@ => elif@[i as int]));
                    assert(decreases_to!(elif@[i as int] => elif@[i as int].1));
                }
                let c = (copy_expr(&elif[i].0), copy_stmts(&elif[i].1));
                proof {
                    lemma_elifs_v_push(el@, c);
                    lemma_elifs_v_push(elif@.take(i as int), elif@[i as int]);
                    assert(elif@.take(i as int).push(elif@[i as int]) =~= elif@.take(i + 1));
                }
                el.push(c);
                i = i + 1;
            }
            assert(elif@.take(elif@.len() as int) =~= elif@);
            Stmt::If {
                cond: copy_expr(cond),
                then_branch: copy_stmts(then_branch),
                elif: el,
                else_branch: match else_branch {
                    Some(b) => Some(copy_stmts(b)),
                    None => None,
                },
            }
        },
        Stmt::Loop(body) => Stmt::Loop(copy_stmts(body)),
        Stmt::Break => Stmt::Break,
        Stmt::Continue => Stmt::Continue,
        Stmt::Function { name, params, body, export } => Stmt::Function {
            name: name.clone(),
            params: copy_names(params),
            body: copy_stmts(body),
            export: *export,
        },
        Stmt::ExternFunction { name, params } => Stmt::ExternFunction {
            name: name.clone(),
            params: copy_names(params),
        },
        Stmt::Import { name } => Stmt::Import { name: name.clone() },
        Stmt::Empty => Stmt::Empty,
    }
}

impl Clone for Type {
    fn clone(&self) -> (r: Self)
        ensures
            r@ == self@,
    {
        copy_type(self)
    }
}

impl Clone for Expr {
    fn clone(&self) -> (r: Self)
        ensures
            r@ == self@,
    {
        copy_expr(self)
    }
}

impl Clone for Stmt {
    fn clone(&self) -> (r: Self)
        ensures
            r@ == self@,
    {
        copy_stmt(self)
    }
}

} // verus!
