//! The meaning of interpreting: the state of an
//! [`crate::interpreter::Interpreter`] as a value, and what evaluating an
//! expression, executing a statement and calling a function do to it.
//! Each function takes fuel, a bound on the depth of calls and loop rounds,
//! and gives `None` when the interpreter would panic (an undefined name, an
//! unknown function or field, an arithmetic overflow, a division by zero) or
//! the fuel runs out.
use vstd::prelude::*;
use crate::ast::{ExprV, StmtV, TypeV, Op};
use crate::codegen_spec::field_index;

verus! {

/// The state of an interpreter.
pub struct IState {
    pub scopes: Seq<Map<Seq<char>, i64>>,
    pub types: Map<Seq<char>, TypeV>,
    pub memory: Map<i64, i64>,
    pub functions: Map<Seq<char>, StmtV>,
    pub structs: Map<Seq<char>, Seq<(Seq<char>, TypeV)>>,
}

/// How a statement ends: normally, by `return` with a value, by `break`
/// or by `continue`.
#[derive(PartialEq, Eq, Structural, Clone, Copy)]
pub enum Control {
    Normal,
    Return(i64),
    Break,
    Continue,
}

/// The value of `name` in the innermost scope that has it.
pub open spec fn lookup(scopes: Seq<Map<Seq<char>, i64>>, name: Seq<char>) -> Option<i64>
    decreases scopes.len(),
{
    if scopes.len() == 0 {
        None
    } else if scopes.last().contains_key(name) {
        Some(scopes.last()[name])
    } else {
        lookup(scopes.drop_last(), name)
    }
}

/// The scopes after `name = v`: the innermost scope that has `name` gets
/// the value; `None` if none has it.
pub open spec fn assign_in(scopes: Seq<Map<Seq<char>, i64>>, name: Seq<char>, v: i64) -> Option<
    Seq<Map<Seq<char>, i64>>,
>
    decreases scopes.len(),
{
    if scopes.len() == 0 {
        None
    } else if scopes.last().contains_key(name) {
        Some(scopes.drop_last().push(scopes.last().insert(name, v)))
    } else {
        match assign_in(scopes.drop_last(), name, v) {
            Some(s) => Some(s.push(scopes.last())),
            None => None,
        }
    }
}

/// `set`: `name` gets `v` in the innermost scope and type `ty`.
pub open spec fn set_var(s: IState, name: Seq<char>, v: i64, ty: TypeV) -> IState {
    IState {
        scopes: s.scopes.drop_last().push(s.scopes.last().insert(name, v)),
        types: s.types.insert(name, ty),
        ..s
    }
}

/// A new innermost scope.
pub open spec fn push_scope(s: IState) -> IState {
    IState { scopes: s.scopes.push(Map::empty()), ..s }
}

/// The innermost scope removed.
pub open spec fn pop_scope(s: IState) -> IState {
    IState { scopes: s.scopes.drop_last(), ..s }
}

/// The word at `a`; 0 where nothing was stored.
pub open spec fn mem_read(m: Map<i64, i64>, a: i64) -> i64 {
    if m.contains_key(a) {
        m[a]
    } else {
        0
    }
}

/// A binary operation; `None` on overflow or division by zero.
pub open spec fn bin_value(op: Op, l: i64, r: i64) -> Option<i64> {
    match op {
        Op::Add => l.checked_add(r),
        Op::Sub => l.checked_sub(r),
        Op::Mul => l.checked_mul(r),
        Op::Div => l.checked_div(r),
        Op::Eq => Some(if l == r { 1 } else { 0 }),
        Op::Neq => Some(if l != r { 1 } else { 0 }),
        Op::Lt => Some(if l < r { 1 } else { 0 }),
        Op::Gt => Some(if l > r { 1 } else { 0 }),
        Op::LtEq => Some(if l <= r { 1 } else { 0 }),
        Op::GtEq => Some(if l >= r { 1 } else { 0 }),
    }
}

/// The struct a variable points to, by its declared type.
pub open spec fn struct_type(s: IState, e: ExprV) -> Option<Seq<char>> {
    match e {
        ExprV::Variable(name) => if s.types.contains_key(name) {
            match s.types[name] {
                TypeV::Ptr(inner) => match *inner {
                    TypeV::Struct(sn) => Some(sn),
                    _ => None,
                },
                _ => None,
            }
        } else {
            None
        },
        _ => None,
    }
}

/// The index of `field` in struct `sn`.
pub open spec fn field_slot(s: IState, sn: Seq<char>, field: Seq<char>) -> Option<i64> {
    if s.structs.contains_key(sn) {
        match field_index(s.structs[sn], field) {
            Some(i) => Some(i as i64),
            None => None,
        }
    } else {
        None
    }
}

/// Memory with the `n` words from `base` set to 0.
pub open spec fn mem_fill(m: Map<i64, i64>, base: int, n: nat) -> Map<i64, i64>
    decreases n,
{
    if n == 0 {
        m
    } else {
        mem_fill(m, base, (n - 1) as nat).insert((base + n - 1) as i64, 0)
    }
}

/// `alloc_struct(S)`: a zeroed block of one word per field of `S`, at 1000
/// past the number of words in use.
pub open spec fn alloc_struct(s: IState, args: Seq<ExprV>) -> Option<(i64, IState)> {
    if args.len() == 0 {
        None
    } else {
        match args[0] {
            ExprV::Variable(sn) => if !s.structs.contains_key(sn) {
                None
            } else {
                let base = s.memory.dom().len() + 1000;
                let n = s.structs[sn].len();
                if base + n > i64::MAX + 1 || base > i64::MAX {
                    None
                } else {
                    Some((base as i64, IState { memory: mem_fill(s.memory, base as int, n), ..s }))
                }
            },
            _ => None,
        }
    }
}

/// `l op r`: both sides, left first, then the operation.
pub open spec fn eval_binary(s: IState, l: ExprV, op: Op, r: ExprV, g: nat) -> Option<(i64, IState)>
    decreases g, 1nat,
{
    match eval(s, l, g) {
        Some((lv, s1)) => match eval(s1, r, g) {
            Some((rv, s2)) => match bin_value(op, lv, rv) {
                Some(v) => Some((v, s2)),
                None => None,
            },
            None => None,
        },
        None => None,
    }
}

/// The address of `base[index]`: the 8-byte word `index` words past
/// `base`, or `None` where that address overflows an `i64`.
pub open spec fn index_addr(b: i64, i: i64) -> Option<i64> {
    if i64::MIN <= b + 8 * i <= i64::MAX && i64::MIN <= 8 * i <= i64::MAX {
        Some((b + 8 * i) as i64)
    } else {
        None
    }
}

/// `base[index]`: the word at `base + 8 * index`.
pub open spec fn eval_index(s: IState, b: ExprV, i: ExprV, g: nat) -> Option<(i64, IState)>
    decreases g, 1nat,
{
    match eval(s, b, g) {
        Some((bv, s1)) => match eval(s1, i, g) {
            Some((iv, s2)) => match index_addr(bv, iv) {
                Some(a) => Some((mem_read(s2.memory, a), s2)),
                None => None,
            },
            None => None,
        },
        None => None,
    }
}

/// `base.field`: the word at the field's index past the address `base`
/// holds; `base` must be a variable declared as a pointer to a struct.
pub open spec fn eval_field(s: IState, b: ExprV, field: Seq<char>, g: nat) -> Option<(i64, IState)>
    decreases g, 1nat,
{
    match eval(s, b, g) {
        Some((addr, s1)) => match struct_type(s1, b) {
            Some(sn) => match field_slot(s1, sn, field) {
                Some(off) => match addr.checked_add(off) {
                    Some(a) => Some((mem_read(s1.memory, a), s1)),
                    None => None,
                },
                None => None,
            },
            None => None,
        },
        None => None,
    }
}

/// `eval`: the value of `e` and the state after.
pub open spec fn eval(s: IState, e: ExprV, f: nat) -> Option<(i64, IState)>
    decreases f, 0nat,
{
    if f == 0 {
        None
    } else {
        let g = (f - 1) as nat;
        match e {
            ExprV::Number(n) => Some((n, s)),
            ExprV::Variable(name) => match lookup(s.scopes, name) {
                Some(v) => Some((v, s)),
                None => None,
            },
            ExprV::Binary(l, op, r) => eval_binary(s, *l, op, *r, g),
            ExprV::Call(name, args) => if name == "alloc_struct"@ {
                alloc_struct(s, args)
            } else {
                match eval_args(s, args, g) {
                    Some((vals, s1)) => call(s1, name, vals, g),
                    None => None,
                }
            },
            ExprV::Peek(a) => match eval(s, *a, g) {
                Some((av, s1)) => Some((mem_read(s1.memory, av), s1)),
                None => None,
            },
            ExprV::Index(b, i) => eval_index(s, *b, *i, g),
            ExprV::Field(b, field) => eval_field(s, *b, field, g),
            ExprV::Include(_, _) => None,
        }
    }
}

/// The arguments of a call, left to right.
pub open spec fn eval_args(s: IState, args: Seq<ExprV>, f: nat) -> Option<(Seq<i64>, IState)>
    decreases f, 0nat,
{
    if f == 0 {
        None
    } else if args.len() == 0 {
        Some((Seq::empty(), s))
    } else {
        match eval(s, args[0], (f - 1) as nat) {
            Some((v, s1)) => match eval_args(s1, args.subrange(1, args.len() as int), (f - 1) as nat) {
                Some((vs, s2)) => Some((seq![v] + vs, s2)),
                None => None,
            },
            None => None,
        }
    }
}

/// The parameters bound in the innermost scope: the `i`-th gets the `i`-th
/// value, or 0 if there are fewer values.
pub open spec fn bind_params(s: IState, params: Seq<Seq<char>>, vals: Seq<i64>) -> IState
    decreases params.len(),
{
    if params.len() == 0 {
        s
    } else {
        let i = params.len() - 1;
        let v = if i < vals.len() { vals[i] } else { 0 };
        set_var(bind_params(s, params.drop_last(), vals), params.last(), v, TypeV::I64)
    }
}

/// `call`: the result of calling `name` with `vals`; 0 unless its body
/// returns a value.
pub open spec fn call(s: IState, name: Seq<char>, vals: Seq<i64>, f: nat) -> Option<(i64, IState)>
    decreases f, 0nat,
{
    if f == 0 {
        None
    } else if !s.functions.contains_key(name) {
        None
    } else {
        match s.functions[name] {
            StmtV::Function { params, body, .. } => {
                let s1 = bind_params(push_scope(s), params, vals);
                match exec_block(s1, body, (f - 1) as nat) {
                    Some((c, s2)) => Some(
                        (
                            match c {
                                Control::Return(v) => v,
                                _ => 0,
                            },
                            pop_scope(s2),
                        ),
                    ),
                    None => None,
                }
            },
            _ => None,
        }
    }
}

/// `exec_block`: the statements in a new scope, up to the first that does
/// not end normally.
pub open spec fn exec_block(s: IState, stmts: Seq<StmtV>, f: nat) -> Option<(Control, IState)>
    decreases f, 0nat,
{
    if f == 0 {
        None
    } else {
        match block_loop(push_scope(s), stmts, (f - 1) as nat) {
            Some((c, s1)) => Some((c, pop_scope(s1))),
            None => None,
        }
    }
}

/// The statements in order, up to the first that does not end normally.
pub open spec fn block_loop(s: IState, stmts: Seq<StmtV>, f: nat) -> Option<(Control, IState)>
    decreases f, 0nat,
{
    if f == 0 {
        None
    } else if stmts.len() == 0 {
        Some((Control::Normal, s))
    } else {
        match exec(s, stmts[0], (f - 1) as nat) {
            Some((c, s1)) => if c == Control::Normal {
                block_loop(s1, stmts.subrange(1, stmts.len() as int), (f - 1) as nat)
            } else {
                Some((c, s1))
            },
            None => None,
        }
    }
}

/// The rounds of a loop: until `break` or `return`.
pub open spec fn loop_rounds(s: IState, body: Seq<StmtV>, f: nat) -> Option<(Control, IState)>
    decreases f, 0nat,
{
    if f == 0 {
        None
    } else {
        match exec_block(s, body, (f - 1) as nat) {
            Some((c, s1)) => match c {
                Control::Break => Some((Control::Normal, s1)),
                Control::Return(v) => Some((Control::Return(v), s1)),
                _ => loop_rounds(s1, body, (f - 1) as nat),
            },
            None => None,
        }
    }
}

/// The type a `let` gives its variable: a pointer to the struct that
/// `alloc_struct` allocates, else the declared type, else `i64`.
pub open spec fn let_type_of(value: ExprV, ty: Option<TypeV>) -> TypeV {
    match value {
        ExprV::Call(name, args) => if name == "alloc_struct"@ {
            if args.len() > 0 && args[0] is Variable {
                TypeV::Ptr(Box::new(TypeV::Struct(args[0]->Variable_0)))
            } else {
                TypeV::Ptr(Box::new(TypeV::I64))
            }
        } else {
            match ty {
                Some(t) => t,
                None => TypeV::I64,
            }
        },
        _ => match ty {
            Some(t) => t,
            None => TypeV::I64,
        },
    }
}

/// `let name: ty = value;`
pub open spec fn exec_let(s: IState, name: Seq<char>, ty: Option<TypeV>, value: ExprV, g: nat) -> Option<(Control, IState)>
    decreases g, 1nat,
{
    match eval(s, value, g) {
        Some((v, s1)) => Some((Control::Normal, set_var(s1, name, v, let_type_of(value, ty)))),
        None => None,
    }
}

/// `name = e;`
pub open spec fn exec_assign(s: IState, name: Seq<char>, e: ExprV, g: nat) -> Option<(Control, IState)>
    decreases g, 1nat,
{
    match eval(s, e, g) {
        Some((v, s1)) => match assign_in(s1.scopes, name, v) {
            Some(sc) => Some((Control::Normal, IState { scopes: sc, ..s1 })),
            None => None,
        },
        None => None,
    }
}

/// `base[index] = value;`: the word at `base + 8 * index`.
pub open spec fn exec_assign_index(s: IState, base: ExprV, index: ExprV, value: ExprV, g: nat) -> Option<(Control, IState)>
    decreases g, 1nat,
{
    match eval(s, base, g) {
        Some((bv, s1)) => match eval(s1, index, g) {
            Some((iv, s2)) => match eval(s2, value, g) {
                Some((v, s3)) => match index_addr(bv, iv) {
                    Some(a) => Some((Control::Normal, IState { memory: s3.memory.insert(a, v), ..s3 })),
                    None => None,
                },
                None => None,
            },
            None => None,
        },
        None => None,
    }
}

/// `base.field = value;`
pub open spec fn exec_assign_field(s: IState, base: ExprV, field: Seq<char>, value: ExprV, g: nat) -> Option<(Control, IState)>
    decreases g, 1nat,
{
    match eval(s, base, g) {
        Some((addr, s1)) => match eval(s1, value, g) {
            Some((v, s2)) => match struct_type(s2, base) {
                Some(sn) => match field_slot(s2, sn, field) {
                    Some(off) => match addr.checked_add(off) {
                        Some(a) => Some((Control::Normal, IState { memory: s2.memory.insert(a, v), ..s2 })),
                        None => None,
                    },
                    None => None,
                },
                None => None,
            },
            None => None,
        },
        None => None,
    }
}

/// `poke(a, v);`
pub open spec fn exec_poke(s: IState, a: ExprV, v: ExprV, g: nat) -> Option<(Control, IState)>
    decreases g, 1nat,
{
    match eval(s, a, g) {
        Some((av, s1)) => match eval(s1, v, g) {
            Some((vv, s2)) => Some((Control::Normal, IState { memory: s2.memory.insert(av, vv), ..s2 })),
            None => None,
        },
        None => None,
    }
}

/// `if`: the `then` block when the condition is not 0, else the first
/// `elif` block whose condition is not 0, else the `else` block if there is
/// one.
pub open spec fn exec_if(
    s: IState,
    cond: ExprV,
    then_branch: Seq<StmtV>,
    elif: Seq<(ExprV, Seq<StmtV>)>,
    else_branch: Option<Seq<StmtV>>,
    g: nat,
) -> Option<(Control, IState)>
    decreases g, 1nat,
{
    match eval(s, cond, g) {
        Some((c, s1)) => if c != 0 {
            exec_block(s1, then_branch, g)
        } else {
            elif_chain(s1, elif, else_branch, g)
        },
        None => None,
    }
}

/// The `elif` branches in order: the first whose condition is not 0 runs;
/// if none does, the `else` block if there is one.
pub open spec fn elif_chain(
    s: IState,
    elif: Seq<(ExprV, Seq<StmtV>)>,
    else_branch: Option<Seq<StmtV>>,
    f: nat,
) -> Option<(Control, IState)>
    decreases f, 0nat,
{
    if f == 0 {
        None
    } else if elif.len() == 0 {
        match else_branch {
            Some(b) => exec_block(s, b, (f - 1) as nat),
            None => Some((Control::Normal, s)),
        }
    } else {
        match eval(s, elif[0].0, (f - 1) as nat) {
            Some((c, s1)) => if c != 0 {
                exec_block(s1, elif[0].1, (f - 1) as nat)
            } else {
                elif_chain(s1, elif.subrange(1, elif.len() as int), else_branch, (f - 1) as nat)
            },
            None => None,
        }
    }
}

/// `exec`: how a statement ends and the state after.
pub open spec fn exec(s: IState, stmt: StmtV, f: nat) -> Option<(Control, IState)>
    decreases f, 0nat,
{
    if f == 0 {
        None
    } else {
        let g = (f - 1) as nat;
        match stmt {
            StmtV::Let { name, ty, value } => exec_let(s, name, ty, value, g),
            StmtV::Assign(name, e) => exec_assign(s, name, e, g),
            StmtV::AssignIndex { base, index, value } => exec_assign_index(s, base, index, value, g),
            StmtV::AssignField { base, field, value } => exec_assign_field(s, base, field, value, g),
            StmtV::Struct { name, fields } => Some(
                (Control::Normal, IState { structs: s.structs.insert(name, fields), ..s }),
            ),
            StmtV::Return(e) => match eval(s, e, g) {
                Some((v, s1)) => Some((Control::Return(v), s1)),
                None => None,
            },
            StmtV::Expr(e) => match eval(s, e, g) {
                Some((_, s1)) => Some((Control::Normal, s1)),
                None => None,
            },
            StmtV::Poke(a, v) => exec_poke(s, a, v, g),
            StmtV::If { cond, then_branch, elif, else_branch } => exec_if(s, cond, then_branch, elif, else_branch, g),
            StmtV::Loop(body) => loop_rounds(s, body, g),
            StmtV::Break => Some((Control::Break, s)),
            StmtV::Continue => Some((Control::Continue, s)),
            _ => Some((Control::Normal, s)),
        }
    }
}

/// The state after `run` registers the functions and structs of a program.
pub open spec fn register(s: IState, stmts: Seq<StmtV>) -> IState
    decreases stmts.len(),
{
    if stmts.len() == 0 {
        s
    } else {
        let s1 = register(s, stmts.drop_last());
        match stmts.last() {
            StmtV::Function { name, .. } => IState { functions: s1.functions.insert(name, stmts.last()), ..s1 },
            StmtV::Struct { name, fields } => IState { structs: s1.structs.insert(name, fields), ..s1 },
            _ => s1,
        }
    }
}

/// `run` with fuel `f`: registers the program and calls `main`.
pub open spec fn run_with(s: IState, stmts: Seq<StmtV>, f: nat) -> Option<(i64, IState)> {
    call(register(s, stmts), "main"@, Seq::empty(), f)
}

/// Running the program from `s` ends without a panic.
pub open spec fn runs(s: IState, stmts: Seq<StmtV>) -> bool {
    exists|f: nat| (#[trigger] run_with(s, stmts, f)) is Some
}

/// What `run` returns and the state it leaves.
pub open spec fn run_result(s: IState, stmts: Seq<StmtV>) -> (i64, IState) {
    run_with(s, stmts, choose|f: nat| (#[trigger] run_with(s, stmts, f)) is Some).unwrap()
}

/// The state of a new interpreter: one empty scope and nothing else.
pub open spec fn fresh_state() -> IState {
    IState {
        scopes: seq![Map::empty()],
        types: Map::empty(),
        memory: Map::empty(),
        functions: Map::empty(),
        structs: Map::empty(),
    }
}

/// A variable set by `let` reads back the value it was given.
pub proof fn lemma_set_then_lookup(s: IState, name: Seq<char>, v: i64, ty: TypeV)
    requires
        s.scopes.len() >= 1,
    ensures
        lookup(set_var(s, name, v, ty).scopes, name) == Some(v),
{
}

/// A variable assigned reads back the value it was given.
pub proof fn lemma_assign_then_lookup(scopes: Seq<Map<Seq<char>, i64>>, name: Seq<char>, v: i64)
    ensures
        assign_in(scopes, name, v) matches Some(sc) ==> lookup(sc, name) == Some(v),
    decreases scopes.len(),
{
    if scopes.len() > 0 {
        if !scopes.last().contains_key(name) {
            lemma_assign_then_lookup(scopes.drop_last(), name, v);
            match assign_in(scopes.drop_last(), name, v) {
                Some(sc) => {
                    assert(sc.push(scopes.last()).drop_last() =~= sc);
                },
                None => {},
            }
        }
    }
}

/// What `poke(a, v)` writes, `peek(a)` reads back.
pub proof fn lemma_poke_then_peek(s: IState, a: i64, v: i64, f: nat)
    requires
        f >= 3,
    ensures
        exec(s, StmtV::Poke(ExprV::Number(a), ExprV::Number(v)), f) is Some,
        ({
            let (c, s1) = exec(s, StmtV::Poke(ExprV::Number(a), ExprV::Number(v)), f).unwrap();
            &&& c == Control::Normal
            &&& eval(s1, ExprV::Peek(Box::new(ExprV::Number(a))), 2) == Some((v, s1))
        }),
{
    let g = (f - 1) as nat;
    assert(eval(s, ExprV::Number(a), g) == Some((a, s)));
    assert(eval(s, ExprV::Number(v), g) == Some((v, s)));
    let s1 = IState { memory: s.memory.insert(a, v), ..s };
    assert(exec_poke(s, ExprV::Number(a), ExprV::Number(v), g) == Some((Control::Normal, s1)));
    assert(eval(s1, ExprV::Number(a), 1) == Some((a, s1)));
}

/// What `base[index] = v` writes, `base[index]` reads back.
pub proof fn lemma_index_store_then_load(s: IState, b: i64, i: i64, v: i64, f: nat)
    requires
        f >= 3,
        index_addr(b, i) is Some,
    ensures
        exec(s, StmtV::AssignIndex { base: ExprV::Number(b), index: ExprV::Number(i), value: ExprV::Number(v) }, f) is Some,
        ({
            let (c, s1) = exec(
                s,
                StmtV::AssignIndex { base: ExprV::Number(b), index: ExprV::Number(i), value: ExprV::Number(v) },
                f,
            ).unwrap();
            &&& c == Control::Normal
            &&& eval(s1, ExprV::Index(Box::new(ExprV::Number(b)), Box::new(ExprV::Number(i))), 2) == Some((v, s1))
        }),
{
    let g = (f - 1) as nat;
    assert(eval(s, ExprV::Number(b), g) == Some((b, s)));
    assert(eval(s, ExprV::Number(i), g) == Some((i, s)));
    assert(eval(s, ExprV::Number(v), g) == Some((v, s)));
    let a = index_addr(b, i).unwrap();
    let s1 = IState { memory: s.memory.insert(a, v), ..s };
    assert(exec_assign_index(s, ExprV::Number(b), ExprV::Number(i), ExprV::Number(v), g) == Some((Control::Normal, s1)));
    assert(eval(s1, ExprV::Number(b), 1) == Some((b, s1)));
    assert(eval(s1, ExprV::Number(i), 1) == Some((i, s1)));
    assert(eval_index(s1, ExprV::Number(b), ExprV::Number(i), 1) == Some((v, s1)));
}

/// What each operator computes from its operands' values: the sum,
/// difference and product when they fit in an `i64` (no value otherwise);
/// no value for a divisor of 0, and for a positive divisor the quotient
/// rounded toward zero; for a comparison, 1 when it holds and 0 when it
/// does not.
pub proof fn lemma_bin_value_meaning(op: Op, l: i64, r: i64)
    ensures
        op == Op::Add ==> bin_value(op, l, r) == (if i64::MIN <= l + r <= i64::MAX {
            Some((l + r) as i64)
        } else {
            None::<i64>
        }),
        op == Op::Sub ==> bin_value(op, l, r) == (if i64::MIN <= l - r <= i64::MAX {
            Some((l - r) as i64)
        } else {
            None::<i64>
        }),
        op == Op::Mul ==> bin_value(op, l, r) == (if i64::MIN <= l * r <= i64::MAX {
            Some((l * r) as i64)
        } else {
            None::<i64>
        }),
        op == Op::Div && r == 0 ==> bin_value(op, l, r) is None,
        op == Op::Div && l >= 0 && r > 0 ==> bin_value(op, l, r) == Some((l / r) as i64),
        op == Op::Div && l <= 0 && r > 0 && l > i64::MIN ==> bin_value(op, l, r) == Some((-((-l) / (r as int))) as i64),
        op == Op::Eq ==> bin_value(op, l, r) == Some(if l == r { 1i64 } else { 0i64 }),
        op == Op::Neq ==> bin_value(op, l, r) == Some(if l != r { 1i64 } else { 0i64 }),
        op == Op::Lt ==> bin_value(op, l, r) == Some(if l < r { 1i64 } else { 0i64 }),
        op == Op::Gt ==> bin_value(op, l, r) == Some(if l > r { 1i64 } else { 0i64 }),
        op == Op::LtEq ==> bin_value(op, l, r) == Some(if l <= r { 1i64 } else { 0i64 }),
        op == Op::GtEq ==> bin_value(op, l, r) == Some(if l >= r { 1i64 } else { 0i64 }),
{
    if op == Op::Div && r > 0 {
        if l >= 0 {
            assert(0 <= l / r <= l) by (nonlinear_arith)
                requires
                    l >= 0,
                    r > 0,
            ;
        } else if l > i64::MIN {
            assert(0 <= (-l) / (r as int) <= -l) by (nonlinear_arith)
                requires
                    l < 0,
                    r > 0,
            ;
            assert((l * -1) / (r as int) == (-l) / (r as int));
        }
    }
}

/// A binary expression evaluates its left operand, then its right one, and
/// combines the two values, left first, as the operator does.
pub proof fn lemma_eval_binary_numbers(s: IState, a: i64, op: Op, b: i64)
    ensures
        eval(s, ExprV::Binary(Box::new(ExprV::Number(a)), op, Box::new(ExprV::Number(b))), 2) == (
        match bin_value(op, a, b) {
            Some(v) => Some((v, s)),
            None => None,
        }),
{
    assert(eval(s, ExprV::Number(a), 1) == Some((a, s)));
    assert(eval(s, ExprV::Number(b), 1) == Some((b, s)));
    assert(eval_binary(s, ExprV::Number(a), op, ExprV::Number(b), 1) == (match bin_value(op, a, b) {
        Some(v) => Some((v, s)),
        None => None,
    }));
}

/// A leading minus negates: whatever `e` evaluates to, `-e` as the parser
/// builds it evaluates to its negation, in the same state.
pub proof fn lemma_negate_value(s: IState, e: ExprV, f: nat, v: i64, s1: IState)
    requires
        f >= 1,
        eval(s, e, f) == Some((v, s1)),
        v > i64::MIN,
    ensures
        eval(s, crate::parser_spec::negate(e), f + 1) == Some(((-v) as i64, s1)),
{
    assert(eval(s, ExprV::Number(0), f) == Some((0i64, s)));
    match e {
        ExprV::Number(n) => {
            assert(n == v && s1 == s);
            assert(crate::parser_spec::negate(e) == ExprV::Number((-n) as i64));
            assert(eval(s, ExprV::Number((-n) as i64), f + 1) == Some(((-n) as i64, s)));
        },
        _ => {
            let ne = ExprV::Binary(Box::new(ExprV::Number(0)), Op::Sub, Box::new(e));
            assert(crate::parser_spec::negate(e) == ne);
            assert(bin_value(Op::Sub, 0, v) == Some((-v) as i64));
            assert(eval_binary(s, ExprV::Number(0), Op::Sub, e, f) == Some(((-v) as i64, s1)));
        },
    }
}

/// `if` runs its first block exactly when the condition's value is not 0;
/// otherwise, with no `elif`, its `else` block if it has one, or nothing.
pub proof fn lemma_if_branches(
    s: IState,
    cond: ExprV,
    then_branch: Seq<StmtV>,
    else_branch: Option<Seq<StmtV>>,
    f: nat,
    c: i64,
    s1: IState,
)
    requires
        f >= 2,
        eval(s, cond, (f - 1) as nat) == Some((c, s1)),
    ensures
        exec(s, StmtV::If { cond, then_branch, elif: Seq::empty(), else_branch }, f) == if c != 0 {
            exec_block(s1, then_branch, (f - 1) as nat)
        } else {
            match else_branch {
                Some(b) => exec_block(s1, b, (f - 2) as nat),
                None => Some((Control::Normal, s1)),
            }
        },
{
}

/// The comparisons agree with one another: each is 1 or 0; `a < b` is
/// `b > a`, `a <= b` is `b >= a`; `<=` holds exactly when `<` or `==`
/// holds; and `!=`, `>=`, `<=` are the negations of `==`, `<`, `>`.
pub proof fn lemma_comparisons_agree(l: i64, r: i64)
    ensures
        bin_value(Op::Lt, l, r) == bin_value(Op::Gt, r, l),
        bin_value(Op::LtEq, l, r) == bin_value(Op::GtEq, r, l),
        bin_value(Op::Eq, l, r) == bin_value(Op::Eq, r, l),
        bin_value(Op::Eq, l, l) == Some(1i64),
        bin_value(Op::Lt, l, l) == Some(0i64),
        bin_value(Op::LtEq, l, l) == Some(1i64),
        bin_value(Op::LtEq, l, r)->0 == (if bin_value(Op::Lt, l, r)->0 == 1 || bin_value(Op::Eq, l, r)->0 == 1 {
            1i64
        } else {
            0i64
        }),
        bin_value(Op::Neq, l, r)->0 == 1 - bin_value(Op::Eq, l, r)->0,
        bin_value(Op::GtEq, l, r)->0 == 1 - bin_value(Op::Lt, l, r)->0,
        bin_value(Op::LtEq, l, r)->0 == 1 - bin_value(Op::Gt, l, r)->0,
        bin_value(Op::Lt, l, r)->0 == 0 || bin_value(Op::Lt, l, r)->0 == 1,
{
}

/// `p[i]` reads the word that `peek(p + 8 * i)` reads.
pub proof fn lemma_index_is_peek(s: IState, b: i64, i: i64)
    requires
        index_addr(b, i) is Some,
    ensures
        eval(s, ExprV::Index(Box::new(ExprV::Number(b)), Box::new(ExprV::Number(i))), 2) == eval(
            s,
            ExprV::Peek(Box::new(ExprV::Number(index_addr(b, i).unwrap()))),
            2,
        ),
        eval(s, ExprV::Index(Box::new(ExprV::Number(b)), Box::new(ExprV::Number(i))), 2) == Some(
            (mem_read(s.memory, (b + 8 * i) as i64), s),
        ),
{
    assert(eval(s, ExprV::Number(b), 1) == Some((b, s)));
    assert(eval(s, ExprV::Number(i), 1) == Some((i, s)));
    let a = index_addr(b, i).unwrap();
    assert(eval(s, ExprV::Number(a), 1) == Some((a, s)));
    assert(eval_index(s, ExprV::Number(b), ExprV::Number(i), 1) == Some((mem_read(s.memory, a), s)));
    assert(eval(s, ExprV::Index(Box::new(ExprV::Number(b)), Box::new(ExprV::Number(i))), 2) == Some(
        (mem_read(s.memory, a), s),
    ));
    assert(eval(s, ExprV::Peek(Box::new(ExprV::Number(a))), 2) == Some((mem_read(s.memory, a), s)));
}

/// What `p.field = v` writes, `p.field` reads back.
pub proof fn lemma_field_store_then_load(s: IState, p: Seq<char>, field: Seq<char>, v: i64, f: nat)
    requires
        f >= 3,
        exec(s, StmtV::AssignField { base: ExprV::Variable(p), field, value: ExprV::Number(v) }, f) is Some,
    ensures
        ({
            let (c, s1) = exec(
                s,
                StmtV::AssignField { base: ExprV::Variable(p), field, value: ExprV::Number(v) },
                f,
            ).unwrap();
            &&& c == Control::Normal
            &&& eval(s1, ExprV::Field(Box::new(ExprV::Variable(p)), field), 2) == Some((v, s1))
        }),
{
    let g = (f - 1) as nat;
    let stmt = StmtV::AssignField { base: ExprV::Variable(p), field, value: ExprV::Number(v) };
    assert(exec(s, stmt, f) == exec_assign_field(s, ExprV::Variable(p), field, ExprV::Number(v), g));
    let addr = lookup(s.scopes, p).unwrap();
    assert(eval(s, ExprV::Variable(p), g) == Some((addr, s)));
    assert(eval(s, ExprV::Number(v), g) == Some((v, s)));
    let sn = struct_type(s, ExprV::Variable(p)).unwrap();
    let off = field_slot(s, sn, field).unwrap();
    let a = addr.checked_add(off).unwrap();
    let s1 = IState { memory: s.memory.insert(a, v), ..s };
    assert(exec_assign_field(s, ExprV::Variable(p), field, ExprV::Number(v), g) == Some((Control::Normal, s1)));
    assert(eval(s1, ExprV::Variable(p), 1) == Some((addr, s1)));
    assert(struct_type(s1, ExprV::Variable(p)) == Some(sn));
    assert(field_slot(s1, sn, field) == Some(off));
    assert(eval_field(s1, ExprV::Variable(p), field, 1) == Some((v, s1)));
}

/// More fuel changes nothing once a run ends: evaluating with any larger
/// bound gives the same value and state.
pub proof fn lemma_eval_fuel(s: IState, e: ExprV, f1: nat, f2: nat)
    requires
        f1 <= f2,
        eval(s, e, f1) is Some,
    ensures
        eval(s, e, f2) == eval(s, e, f1),
    decreases f1, 0nat,
{
    let g1 = (f1 - 1) as nat;
    let g2 = (f2 - 1) as nat;
    match e {
        ExprV::Binary(l, op, r) => {
            lemma_eval_binary_fuel(s, *l, op, *r, g1, g2);
        },
        ExprV::Call(name, args) => {
            if name != "alloc_struct"@ {
                lemma_eval_args_fuel(s, args, g1, g2);
                let (vals, s1) = eval_args(s, args, g1).unwrap();
                lemma_call_fuel(s1, name, vals, g1, g2);
            }
        },
        ExprV::Peek(a) => {
            lemma_eval_fuel(s, *a, g1, g2);
        },
        ExprV::Index(b, i) => {
            lemma_eval_index_fuel(s, *b, *i, g1, g2);
        },
        ExprV::Field(b, field) => {
            lemma_eval_field_fuel(s, *b, field, g1, g2);
        },
        _ => {},
    }
}

proof fn lemma_eval_binary_fuel(s: IState, l: ExprV, op: Op, r: ExprV, g1: nat, g2: nat)
    requires
        g1 <= g2,
        eval_binary(s, l, op, r, g1) is Some,
    ensures
        eval_binary(s, l, op, r, g2) == eval_binary(s, l, op, r, g1),
    decreases g1, 1nat,
{
    lemma_eval_fuel(s, l, g1, g2);
    let (lv, s1) = eval(s, l, g1).unwrap();
    lemma_eval_fuel(s1, r, g1, g2);
}

proof fn lemma_eval_index_fuel(s: IState, b: ExprV, i: ExprV, g1: nat, g2: nat)
    requires
        g1 <= g2,
        eval_index(s, b, i, g1) is Some,
    ensures
        eval_index(s, b, i, g2) == eval_index(s, b, i, g1),
    decreases g1, 1nat,
{
    lemma_eval_fuel(s, b, g1, g2);
    let (bv, s1) = eval(s, b, g1).unwrap();
    lemma_eval_fuel(s1, i, g1, g2);
}

proof fn lemma_eval_field_fuel(s: IState, b: ExprV, field: Seq<char>, g1: nat, g2: nat)
    requires
        g1 <= g2,
        eval_field(s, b, field, g1) is Some,
    ensures
        eval_field(s, b, field, g2) == eval_field(s, b, field, g1),
    decreases g1, 1nat,
{
    lemma_eval_fuel(s, b, g1, g2);
}

proof fn lemma_eval_args_fuel(s: IState, args: Seq<ExprV>, f1: nat, f2: nat)
    requires
        f1 <= f2,
        eval_args(s, args, f1) is Some,
    ensures
        eval_args(s, args, f2) == eval_args(s, args, f1),
    decreases f1, 0nat,
{
    if args.len() > 0 {
        let g1 = (f1 - 1) as nat;
        let g2 = (f2 - 1) as nat;
        lemma_eval_fuel(s, args[0], g1, g2);
        let (v, s1) = eval(s, args[0], g1).unwrap();
        lemma_eval_args_fuel(s1, args.subrange(1, args.len() as int), g1, g2);
    }
}

proof fn lemma_call_fuel(s: IState, name: Seq<char>, vals: Seq<i64>, f1: nat, f2: nat)
    requires
        f1 <= f2,
        call(s, name, vals, f1) is Some,
    ensures
        call(s, name, vals, f2) == call(s, name, vals, f1),
    decreases f1, 0nat,
{
    match s.functions[name] {
        StmtV::Function { params, body, .. } => {
            let s1 = bind_params(push_scope(s), params, vals);
            lemma_exec_block_fuel(s1, body, (f1 - 1) as nat, (f2 - 1) as nat);
        },
        _ => {},
    }
}

proof fn lemma_exec_block_fuel(s: IState, stmts: Seq<StmtV>, f1: nat, f2: nat)
    requires
        f1 <= f2,
        exec_block(s, stmts, f1) is Some,
    ensures
        exec_block(s, stmts, f2) == exec_block(s, stmts, f1),
    decreases f1, 0nat,
{
    lemma_block_loop_fuel(push_scope(s), stmts, (f1 - 1) as nat, (f2 - 1) as nat);
}

proof fn lemma_block_loop_fuel(s: IState, stmts: Seq<StmtV>, f1: nat, f2: nat)
    requires
        f1 <= f2,
        block_loop(s, stmts, f1) is Some,
    ensures
        block_loop(s, stmts, f2) == block_loop(s, stmts, f1),
    decreases f1, 0nat,
{
    if stmts.len() > 0 {
        let g1 = (f1 - 1) as nat;
        let g2 = (f2 - 1) as nat;
        lemma_exec_fuel(s, stmts[0], g1, g2);
        let (c, s1) = exec(s, stmts[0], g1).unwrap();
        if c == Control::Normal {
            lemma_block_loop_fuel(s1, stmts.subrange(1, stmts.len() as int), g1, g2);
        }
    }
}

proof fn lemma_loop_rounds_fuel(s: IState, body: Seq<StmtV>, f1: nat, f2: nat)
    requires
        f1 <= f2,
        loop_rounds(s, body, f1) is Some,
    ensures
        loop_rounds(s, body, f2) == loop_rounds(s, body, f1),
    decreases f1, 0nat,
{
    let g1 = (f1 - 1) as nat;
    let g2 = (f2 - 1) as nat;
    lemma_exec_block_fuel(s, body, g1, g2);
    let (c, s1) = exec_block(s, body, g1).unwrap();
    match c {
        Control::Break => {},
        Control::Return(_) => {},
        _ => {
            lemma_loop_rounds_fuel(s1, body, g1, g2);
        },
    }
}

proof fn lemma_elif_chain_fuel(
    s: IState,
    elif: Seq<(ExprV, Seq<StmtV>)>,
    else_branch: Option<Seq<StmtV>>,
    f1: nat,
    f2: nat,
)
    requires
        f1 <= f2,
        elif_chain(s, elif, else_branch, f1) is Some,
    ensures
        elif_chain(s, elif, else_branch, f2) == elif_chain(s, elif, else_branch, f1),
    decreases f1, 0nat,
{
    let g1 = (f1 - 1) as nat;
    let g2 = (f2 - 1) as nat;
    if elif.len() == 0 {
        match else_branch {
            Some(b) => {
                lemma_exec_block_fuel(s, b, g1, g2);
            },
            None => {},
        }
    } else {
        lemma_eval_fuel(s, elif[0].0, g1, g2);
        let (c, s1) = eval(s, elif[0].0, g1).unwrap();
        if c != 0 {
            lemma_exec_block_fuel(s1, elif[0].1, g1, g2);
        } else {
            lemma_elif_chain_fuel(s1, elif.subrange(1, elif.len() as int), else_branch, g1, g2);
        }
    }
}

proof fn lemma_exec_if_fuel(
    s: IState,
    cond: ExprV,
    then_branch: Seq<StmtV>,
    elif: Seq<(ExprV, Seq<StmtV>)>,
    else_branch: Option<Seq<StmtV>>,
    g1: nat,
    g2: nat,
)
    requires
        g1 <= g2,
        exec_if(s, cond, then_branch, elif, else_branch, g1) is Some,
    ensures
        exec_if(s, cond, then_branch, elif, else_branch, g2) == exec_if(s, cond, then_branch, elif, else_branch, g1),
    decreases g1, 1nat,
{
    lemma_eval_fuel(s, cond, g1, g2);
    let (c, s1) = eval(s, cond, g1).unwrap();
    if c != 0 {
        lemma_exec_block_fuel(s1, then_branch, g1, g2);
    } else {
        lemma_elif_chain_fuel(s1, elif, else_branch, g1, g2);
    }
}

proof fn lemma_exec_fuel(s: IState, stmt: StmtV, f1: nat, f2: nat)
    requires
        f1 <= f2,
        exec(s, stmt, f1) is Some,
    ensures
        exec(s, stmt, f2) == exec(s, stmt, f1),
    decreases f1, 0nat,
{
    let g1 = (f1 - 1) as nat;
    let g2 = (f2 - 1) as nat;
    match stmt {
        StmtV::Let { name, ty, value } => {
            lemma_eval_fuel(s, value, g1, g2);
        },
        StmtV::Assign(name, e) => {
            lemma_eval_fuel(s, e, g1, g2);
        },
        StmtV::AssignIndex { base, index, value } => {
            lemma_eval_fuel(s, base, g1, g2);
            let (bv, s1) = eval(s, base, g1).unwrap();
            lemma_eval_fuel(s1, index, g1, g2);
            let (iv, s2) = eval(s1, index, g1).unwrap();
            lemma_eval_fuel(s2, value, g1, g2);
        },
        StmtV::AssignField { base, field, value } => {
            lemma_eval_fuel(s, base, g1, g2);
            let (addr, s1) = eval(s, base, g1).unwrap();
            lemma_eval_fuel(s1, value, g1, g2);
        },
        StmtV::Return(e) => {
            lemma_eval_fuel(s, e, g1, g2);
        },
        StmtV::Expr(e) => {
            lemma_eval_fuel(s, e, g1, g2);
        },
        StmtV::Poke(a, v) => {
            lemma_eval_fuel(s, a, g1, g2);
            let (av, s1) = eval(s, a, g1).unwrap();
            lemma_eval_fuel(s1, v, g1, g2);
        },
        StmtV::If { cond, then_branch, elif, else_branch } => {
            lemma_exec_if_fuel(s, cond, then_branch, elif, else_branch, g1, g2);
        },
        StmtV::Loop(body) => {
            lemma_loop_rounds_fuel(s, body, g1, g2);
        },
        _ => {},
    }
}

/// A program's run does not depend on the bound it is given: any two
/// bounds under which it ends give the same result and state, so `run`'s
/// result is the one every ending run has.
pub proof fn lemma_run_unique(s: IState, stmts: Seq<StmtV>, f1: nat, f2: nat)
    requires
        run_with(s, stmts, f1) is Some,
        run_with(s, stmts, f2) is Some,
    ensures
        run_with(s, stmts, f1) == run_with(s, stmts, f2),
        run_result(s, stmts) == run_with(s, stmts, f1).unwrap(),
{
    let r = register(s, stmts);
    if f1 <= f2 {
        lemma_call_fuel(r, "main"@, Seq::empty(), f1, f2);
    } else {
        lemma_call_fuel(r, "main"@, Seq::empty(), f2, f1);
    }
    let f = choose|f: nat| (#[trigger] run_with(s, stmts, f)) is Some;
    if f <= f1 {
        lemma_call_fuel(r, "main"@, Seq::empty(), f, f1);
    } else {
        lemma_call_fuel(r, "main"@, Seq::empty(), f1, f);
    }
}


/// Two states have the same scopes, each binding the same names (the values
/// may differ).
pub open spec fn same_names(a: IState, b: IState) -> bool {
    &&& a.scopes.len() == b.scopes.len()
    &&& forall|k: int| 0 <= k < a.scopes.len() ==> #[trigger] b.scopes[k].dom() == a.scopes[k].dom()
}

/// Two states have the same scopes; only the innermost may bind more names.
pub open spec fn top_grows(a: IState, b: IState) -> bool {
    &&& a.scopes.len() == b.scopes.len()
    &&& a.scopes.len() >= 1
    &&& forall|k: int| 0 <= k < a.scopes.len() - 1 ==> #[trigger] b.scopes[k].dom() == a.scopes[k].dom()
    &&& a.scopes.last().dom().subset_of(b.scopes.last().dom())
}

/// An assignment changes a value, never which names are bound.
proof fn lemma_assign_names(scopes: Seq<Map<Seq<char>, i64>>, name: Seq<char>, v: i64)
    ensures
        assign_in(scopes, name, v) matches Some(sc) ==> sc.len() == scopes.len() && forall|k: int|
            0 <= k < scopes.len() ==> #[trigger] sc[k].dom() == scopes[k].dom(),
    decreases scopes.len(),
{
    if scopes.len() > 0 {
        if scopes.last().contains_key(name) {
            let sc = scopes.drop_last().push(scopes.last().insert(name, v));
            assert(scopes.last().insert(name, v).dom() =~= scopes.last().dom());
            assert forall|k: int| 0 <= k < scopes.len() implies #[trigger] sc[k].dom() == scopes[k].dom() by {
                if k < scopes.len() - 1 {
                    assert(sc[k] == scopes[k]);
                }
            }
        } else {
            lemma_assign_names(scopes.drop_last(), name, v);
            match assign_in(scopes.drop_last(), name, v) {
                Some(s1) => {
                    let sc = s1.push(scopes.last());
                    assert forall|k: int| 0 <= k < scopes.len() implies #[trigger] sc[k].dom() == scopes[k].dom() by {
                        if k < scopes.len() - 1 {
                            assert(sc[k] == s1[k]);
                            assert(scopes.drop_last()[k] == scopes[k]);
                        }
                    }
                },
                None => {},
            }
        }
    }
}

/// Binding parameters only adds names to the innermost scope.
proof fn lemma_bind_params_names(s: IState, params: Seq<Seq<char>>, vals: Seq<i64>)
    requires
        s.scopes.len() >= 1,
    ensures
        top_grows(s, bind_params(s, params, vals)),
    decreases params.len(),
{
    if params.len() > 0 {
        lemma_bind_params_names(s, params.drop_last(), vals);
    }
}

proof fn lemma_eval_names(s: IState, e: ExprV, f: nat)
    requires
        eval(s, e, f) is Some,
    ensures
        same_names(s, eval(s, e, f).unwrap().1),
    decreases f, 0nat,
{
    let g = (f - 1) as nat;
    match e {
        ExprV::Binary(l, op, r) => {
            lemma_eval_binary_names(s, *l, op, *r, g);
        },
        ExprV::Call(name, args) => {
            if name != "alloc_struct"@ {
                lemma_eval_args_names(s, args, g);
                let (vals, s1) = eval_args(s, args, g).unwrap();
                lemma_call_names(s1, name, vals, g);
            }
        },
        ExprV::Peek(a) => {
            lemma_eval_names(s, *a, g);
        },
        ExprV::Index(b, i) => {
            lemma_eval_index_names(s, *b, *i, g);
        },
        ExprV::Field(b, field) => {
            lemma_eval_field_names(s, *b, field, g);
        },
        _ => {},
    }
}

proof fn lemma_eval_binary_names(s: IState, l: ExprV, op: Op, r: ExprV, g: nat)
    requires
        eval_binary(s, l, op, r, g) is Some,
    ensures
        same_names(s, eval_binary(s, l, op, r, g).unwrap().1),
    decreases g, 1nat,
{
    lemma_eval_names(s, l, g);
    lemma_eval_names(eval(s, l, g).unwrap().1, r, g);
}

proof fn lemma_eval_index_names(s: IState, b: ExprV, i: ExprV, g: nat)
    requires
        eval_index(s, b, i, g) is Some,
    ensures
        same_names(s, eval_index(s, b, i, g).unwrap().1),
    decreases g, 1nat,
{
    lemma_eval_names(s, b, g);
    lemma_eval_names(eval(s, b, g).unwrap().1, i, g);
}

proof fn lemma_eval_field_names(s: IState, b: ExprV, field: Seq<char>, g: nat)
    requires
        eval_field(s, b, field, g) is Some,
    ensures
        same_names(s, eval_field(s, b, field, g).unwrap().1),
    decreases g, 1nat,
{
    lemma_eval_names(s, b, g);
}

proof fn lemma_eval_args_names(s: IState, args: Seq<ExprV>, f: nat)
    requires
        eval_args(s, args, f) is Some,
    ensures
        same_names(s, eval_args(s, args, f).unwrap().1),
    decreases f, 0nat,
{
    if args.len() > 0 {
        let g = (f - 1) as nat;
        lemma_eval_names(s, args[0], g);
        let (v, s1) = eval(s, args[0], g).unwrap();
        lemma_eval_args_names(s1, args.subrange(1, args.len() as int), g);
    }
}

proof fn lemma_call_names(s: IState, name: Seq<char>, vals: Seq<i64>, f: nat)
    requires
        call(s, name, vals, f) is Some,
    ensures
        same_names(s, call(s, name, vals, f).unwrap().1),
    decreases f, 0nat,
{
    match s.functions[name] {
        StmtV::Function { params, body, .. } => {
            let s0 = push_scope(s);
            lemma_bind_params_names(s0, params, vals);
            let s1 = bind_params(s0, params, vals);
            lemma_exec_block_names(s1, body, (f - 1) as nat);
            let s2 = exec_block(s1, body, (f - 1) as nat).unwrap().1;
            assert forall|k: int| 0 <= k < s.scopes.len() implies #[trigger] pop_scope(s2).scopes[k].dom()
                == s.scopes[k].dom() by {
                assert(s0.scopes[k] == s.scopes[k]);
            }
        },
        _ => {},
    }
}

proof fn lemma_exec_block_names(s: IState, stmts: Seq<StmtV>, f: nat)
    requires
        exec_block(s, stmts, f) is Some,
    ensures
        same_names(s, exec_block(s, stmts, f).unwrap().1),
    decreases f, 0nat,
{
    let s0 = push_scope(s);
    lemma_block_loop_names(s0, stmts, (f - 1) as nat);
    let s1 = block_loop(s0, stmts, (f - 1) as nat).unwrap().1;
    assert forall|k: int| 0 <= k < s.scopes.len() implies #[trigger] pop_scope(s1).scopes[k].dom()
        == s.scopes[k].dom() by {
        assert(s0.scopes[k] == s.scopes[k]);
    }
}

proof fn lemma_block_loop_names(s: IState, stmts: Seq<StmtV>, f: nat)
    requires
        block_loop(s, stmts, f) is Some,
        s.scopes.len() >= 1,
    ensures
        top_grows(s, block_loop(s, stmts, f).unwrap().1),
    decreases f, 0nat,
{
    if stmts.len() > 0 {
        let g = (f - 1) as nat;
        lemma_exec_names(s, stmts[0], g);
        let (c, s1) = exec(s, stmts[0], g).unwrap();
        if c == Control::Normal {
            lemma_block_loop_names(s1, stmts.subrange(1, stmts.len() as int), g);
        }
    }
}

proof fn lemma_loop_rounds_names(s: IState, body: Seq<StmtV>, f: nat)
    requires
        loop_rounds(s, body, f) is Some,
    ensures
        same_names(s, loop_rounds(s, body, f).unwrap().1),
    decreases f, 0nat,
{
    let g = (f - 1) as nat;
    lemma_exec_block_names(s, body, g);
    let (c, s1) = exec_block(s, body, g).unwrap();
    match c {
        Control::Break => {},
        Control::Return(_) => {},
        _ => {
            lemma_loop_rounds_names(s1, body, g);
        },
    }
}

proof fn lemma_elif_chain_names(s: IState, elif: Seq<(ExprV, Seq<StmtV>)>, else_branch: Option<Seq<StmtV>>, f: nat)
    requires
        elif_chain(s, elif, else_branch, f) is Some,
    ensures
        same_names(s, elif_chain(s, elif, else_branch, f).unwrap().1),
    decreases f, 0nat,
{
    let g = (f - 1) as nat;
    if elif.len() == 0 {
        match else_branch {
            Some(b) => {
                lemma_exec_block_names(s, b, g);
            },
            None => {},
        }
    } else {
        lemma_eval_names(s, elif[0].0, g);
        let (c, s1) = eval(s, elif[0].0, g).unwrap();
        if c != 0 {
            lemma_exec_block_names(s1, elif[0].1, g);
        } else {
            lemma_elif_chain_names(s1, elif.subrange(1, elif.len() as int), else_branch, g);
        }
    }
}

proof fn lemma_exec_names(s: IState, stmt: StmtV, f: nat)
    requires
        exec(s, stmt, f) is Some,
        s.scopes.len() >= 1,
    ensures
        top_grows(s, exec(s, stmt, f).unwrap().1),
    decreases f, 0nat,
{
    let g = (f - 1) as nat;
    match stmt {
        StmtV::Let { name, ty, value } => {
            lemma_eval_names(s, value, g);
        },
        StmtV::Assign(name, e) => {
            lemma_eval_names(s, e, g);
            let (v, s1) = eval(s, e, g).unwrap();
            lemma_assign_names(s1.scopes, name, v);
        },
        StmtV::AssignIndex { base, index, value } => {
            lemma_eval_names(s, base, g);
            let (bv, s1) = eval(s, base, g).unwrap();
            lemma_eval_names(s1, index, g);
            let (iv, s2) = eval(s1, index, g).unwrap();
            lemma_eval_names(s2, value, g);
        },
        StmtV::AssignField { base, field, value } => {
            lemma_eval_names(s, base, g);
            let (addr, s1) = eval(s, base, g).unwrap();
            lemma_eval_names(s1, value, g);
        },
        StmtV::Return(e) => {
            lemma_eval_names(s, e, g);
        },
        StmtV::Expr(e) => {
            lemma_eval_names(s, e, g);
        },
        StmtV::Poke(a, v) => {
            lemma_eval_names(s, a, g);
            let (av, s1) = eval(s, a, g).unwrap();
            lemma_eval_names(s1, v, g);
        },
        StmtV::If { cond, then_branch, elif, else_branch } => {
            lemma_eval_names(s, cond, g);
            let (c, s1) = eval(s, cond, g).unwrap();
            if c != 0 {
                lemma_exec_block_names(s1, then_branch, g);
            } else {
                lemma_elif_chain_names(s1, elif, else_branch, g);
            }
        },
        StmtV::Loop(body) => {
            lemma_loop_rounds_names(s, body, g);
        },
        _ => {},
    }
}

/// What a block declares does not outlive it: after a block ends, the
/// same scopes bind the same names as before it (their values may have
/// been assigned).
pub proof fn lemma_block_scoping(s: IState, stmts: Seq<StmtV>, f: nat)
    requires
        exec_block(s, stmts, f) is Some,
    ensures
        same_names(s, exec_block(s, stmts, f).unwrap().1),
{
    lemma_exec_block_names(s, stmts, f);
}

/// A call leaves its caller's scopes binding the same names: parameters and
/// the function's own variables are gone once it returns.
pub proof fn lemma_call_scoping(s: IState, name: Seq<char>, vals: Seq<i64>, f: nat)
    requires
        call(s, name, vals, f) is Some,
    ensures
        same_names(s, call(s, name, vals, f).unwrap().1),
{
    lemma_call_names(s, name, vals, f);
}

} // verus!
