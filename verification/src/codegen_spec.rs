//! The meaning of IR generation: the state of an
//! [`crate::codegen_ir::IRGenerator`] as a value, and what generating code
//! for an expression or a statement does to it.
use vstd::prelude::*;
use crate::ast::{ExprV, StmtV, TypeV, Op};
use crate::ir::{IRInstV, binary_parts, ir_binary_value};
use crate::interp_spec::{bin_value, lemma_bin_value_meaning, index_addr};
use crate::text::{digits, lemma_digits_injective};

verus! {

/// The state of an IR generator.
pub struct GState {
    pub temp_count: int,
    pub label_count: int,
    pub code: Seq<IRInstV>,
    pub function_params: Map<Seq<char>, Seq<Seq<char>>>,
    pub structs: Map<Seq<char>, Seq<(Seq<char>, TypeV)>>,
    pub var_types: Map<Seq<char>, TypeV>,
    pub loop_stack: Seq<(Seq<char>, Seq<char>)>,
    pub position: int,
    pub msgs: Seq<Seq<char>>,
    /// The most fields any struct declared so far has.
    pub widest: nat,
}

/// The name of temporary number `n`: `t0`, `t1`, ...
pub open spec fn temp_name(n: int) -> Seq<char> {
    seq!['t'] + digits(n as nat, 10)
}

/// The name of label number `n`: `L0`, `L1`, ...
pub open spec fn label_name(n: int) -> Seq<char> {
    seq!['L'] + digits(n as nat, 10)
}

/// Temporaries with different numbers have different names.
pub proof fn lemma_temp_names_distinct(i: nat, j: nat)
    requires
        i != j,
    ensures
        temp_name(i as int) != temp_name(j as int),
{
    if temp_name(i as int) == temp_name(j as int) {
        assert(temp_name(i as int).subrange(1, temp_name(i as int).len() as int) =~= digits(i, 10));
        assert(temp_name(j as int).subrange(1, temp_name(j as int).len() as int) =~= digits(j, 10));
        lemma_digits_injective(i, j);
    }
}

/// Labels with different numbers have different names.
pub proof fn lemma_label_names_distinct(i: nat, j: nat)
    requires
        i != j,
    ensures
        label_name(i as int) != label_name(j as int),
{
    if label_name(i as int) == label_name(j as int) {
        assert(label_name(i as int).subrange(1, label_name(i as int).len() as int) =~= digits(i, 10));
        assert(label_name(j as int).subrange(1, label_name(j as int).len() as int) =~= digits(j, 10));
        lemma_digits_injective(i, j);
    }
}

/// No label is named like a temporary.
pub proof fn lemma_temp_not_label(i: nat, j: nat)
    ensures
        temp_name(i as int) != label_name(j as int),
{
    assert(temp_name(i as int)[0] == 't');
    assert(label_name(j as int)[0] == 'L');
}

pub open spec fn emit(g: GState, i: IRInstV) -> GState {
    GState { code: g.code.push(i), ..g }
}

pub open spec fn report(g: GState, m: Seq<char>) -> GState {
    GState { msgs: g.msgs.push(m), ..g }
}

/// A new temporary.
pub open spec fn fresh_temp(g: GState) -> (Seq<char>, GState) {
    (temp_name(g.temp_count), GState { temp_count: g.temp_count + 1, ..g })
}

/// A new label.
pub open spec fn fresh_label(g: GState) -> (Seq<char>, GState) {
    (label_name(g.label_count), GState { label_count: g.label_count + 1, ..g })
}

/// The instruction computing `op`.
pub open spec fn bin_inst(op: Op, out: Seq<char>, l: Seq<char>, r: Seq<char>) -> IRInstV {
    match op {
        Op::Add => IRInstV::Add(out, l, r),
        Op::Sub => IRInstV::Sub(out, l, r),
        Op::Mul => IRInstV::Mul(out, l, r),
        Op::Div => IRInstV::Div(out, l, r),
        Op::Eq => IRInstV::Eq(out, l, r),
        Op::Neq => IRInstV::Neq(out, l, r),
        Op::Lt => IRInstV::Lt(out, l, r),
        Op::Gt => IRInstV::Gt(out, l, r),
        Op::LtEq => IRInstV::LtEq(out, l, r),
        Op::GtEq => IRInstV::GtEq(out, l, r),
    }
}

/// The size in bytes of `alloc_struct(args)`: 8 per field of the struct its
/// first argument names; 8, with a message, if it names no known struct.
pub open spec fn struct_size(g: GState, args: Seq<ExprV>) -> (int, GState) {
    if args.len() > 0 && args[0] is Variable && g.structs.contains_key(args[0]->Variable_0) {
        ((g.structs[args[0]->Variable_0].len() * 8) as int, g)
    } else {
        (8, report(g, "alloc_struct expects a known struct name"@))
    }
}

/// The type a `let` gives its variable, if the value says: a pointer to
/// the struct that `alloc_struct` allocates.
pub open spec fn infer_expr_type(e: ExprV) -> Option<TypeV> {
    match e {
        ExprV::Call(name, args) => if name == "alloc_struct"@ {
            if args.len() > 0 && args[0] is Variable {
                Some(TypeV::Ptr(Box::new(TypeV::Struct(args[0]->Variable_0))))
            } else {
                Some(TypeV::Ptr(Box::new(TypeV::I64)))
            }
        } else {
            None
        },
        _ => None,
    }
}

/// The index of the first field named `field`, if any.
pub open spec fn field_index(fields: Seq<(Seq<char>, TypeV)>, field: Seq<char>) -> Option<int>
    decreases fields.len(),
{
    if fields.len() == 0 {
        None
    } else if fields[0].0 == field {
        Some(0)
    } else {
        match field_index(fields.subrange(1, fields.len() as int), field) {
            Some(i) => Some(i + 1),
            None => None,
        }
    }
}

/// The byte offset of `field` in the struct `base` points to, when `base`
/// is a variable known to point to a struct that has the field; 0 with a
/// message otherwise.
pub open spec fn field_offset(g: GState, base: ExprV, field: Seq<char>) -> (int, GState) {
    let found: Option<int> = match base {
        ExprV::Variable(name) => if g.var_types.contains_key(name) {
            match g.var_types[name] {
                TypeV::Ptr(inner) => match *inner {
                    TypeV::Struct(sn) => if g.structs.contains_key(sn) {
                        field_index(g.structs[sn], field)
                    } else {
                        None
                    },
                    _ => None,
                },
                _ => None,
            }
        } else {
            None
        },
        _ => None,
    };
    match found {
        Some(i) => (i * 8, g),
        None => (0, report(g, "unknown field "@ + field)),
    }
}

/// `gen_expr`: the temporary holding the value, and the new state.
pub open spec fn gen_expr(g: GState, e: ExprV) -> (Seq<char>, GState)
    decreases e, 2nat,
{
    match e {
        ExprV::Number(n) => {
            let (t, g1) = fresh_temp(g);
            (t, emit(g1, IRInstV::LoadConst(t, n)))
        },
        ExprV::Variable(name) => {
            let (t, g1) = fresh_temp(g);
            (t, emit(g1, IRInstV::LoadVar(t, name)))
        },
        ExprV::Binary(l, op, r) => {
            let (lv, g1) = gen_expr(g, *l);
            let (rv, g2) = gen_expr(g1, *r);
            let (out, g3) = fresh_temp(g2);
            (out, emit(g3, bin_inst(op, out, lv, rv)))
        },
        ExprV::Call(name, args) => if name == "alloc_struct"@ {
            let (out, g1) = fresh_temp(g);
            let (size, g2) = struct_size(g1, args);
            (out, emit(g2, IRInstV::StackAlloc(out, size as i64)))
        } else {
            let (vals, g1) = gen_args(g, args);
            let (out, g2) = fresh_temp(g1);
            (out, emit(g2, IRInstV::Call(out, name, vals)))
        },
        ExprV::Peek(a) => {
            let (av, g1) = gen_expr(g, *a);
            let (out, g2) = fresh_temp(g1);
            (out, emit(g2, IRInstV::LoadMem(out, av)))
        },
        ExprV::Index(b, i) => {
            let (addr, g1) = gen_index_addr(g, e);
            let (out, g2) = fresh_temp(g1);
            (out, emit(g2, IRInstV::LoadMem(out, addr)))
        },
        ExprV::Field(b, f) => {
            let (addr, g1) = gen_field_addr(g, e);
            let (out, g2) = fresh_temp(g1);
            (out, emit(g2, IRInstV::LoadMem(out, addr)))
        },
        ExprV::Include(_, _) => (Seq::empty(), g),
    }
}

/// The arguments of a call, left to right.
pub open spec fn gen_args(g: GState, args: Seq<ExprV>) -> (Seq<Seq<char>>, GState)
    decreases args, 0nat,
{
    if args.len() == 0 {
        (Seq::empty(), g)
    } else {
        let (v, g1) = gen_expr(g, args[0]);
        let (vs, g2) = gen_args(g1, args.subrange(1, args.len() as int));
        (seq![v] + vs, g2)
    }
}

/// The address of `base[index]` for `e` = `base[index]`: `base + index * 8`.
pub open spec fn gen_index_addr(g: GState, e: ExprV) -> (Seq<char>, GState)
    decreases e, 1nat,
{
    let (base, index) = match e {
        ExprV::Index(b, i) => (*b, *i),
        _ => (e, e),
    };
    let (bv, g1) = if e is Index { gen_expr(g, base) } else { (Seq::empty(), g) };
    let (iv, g2) = if e is Index { gen_expr(g1, index) } else { (Seq::empty(), g1) };
    let (scale, g3) = fresh_temp(g2);
    let (addr, g4) = fresh_temp(g3);
    let g5 = emit(emit(emit(g4, IRInstV::LoadConst(scale, 8)), IRInstV::Mul(scale, iv, scale)), IRInstV::Add(addr, bv, scale));
    (addr, g5)
}

/// The address of `base.field` for `e` = `base.field`: `base` plus the
/// field's offset.
pub open spec fn gen_field_addr(g: GState, e: ExprV) -> (Seq<char>, GState)
    decreases e, 1nat,
{
    let (base, field) = match e {
        ExprV::Field(b, f) => (*b, f),
        _ => (e, Seq::empty()),
    };
    let (offset, g0) = field_offset(g, base, field);
    let (bv, g1) = if e is Field { gen_expr(g0, base) } else { (Seq::empty(), g0) };
    if offset == 0 {
        (bv, g1)
    } else {
        let (ot, g2) = fresh_temp(g1);
        let (addr, g3) = fresh_temp(g2);
        (addr, emit(emit(g3, IRInstV::LoadConst(ot, offset as i64)), IRInstV::Add(addr, bv, ot)))
    }
}

/// `gen_stmt`.
pub open spec fn gen_stmt(g: GState, s: StmtV) -> GState
    decreases s,
{
    let g = GState { position: g.position + 1, ..g };
    match s {
        StmtV::Let { name, ty: _, value } => {
            let inferred = infer_expr_type(value);
            let (v, g1) = gen_expr(g, value);
            let g2 = emit(g1, IRInstV::StoreVar(name, v));
            match inferred {
                Some(t) => GState { var_types: g2.var_types.insert(name, t), ..g2 },
                None => g2,
            }
        },
        StmtV::Assign(name, value) => {
            let (v, g1) = gen_expr(g, value);
            emit(g1, IRInstV::StoreVar(name, v))
        },
        StmtV::Return(e) => {
            let (v, g1) = gen_expr(g, e);
            emit(g1, IRInstV::Return(v))
        },
        StmtV::Expr(e) => gen_expr(g, e).1,
        StmtV::Poke(a, v) => {
            let (av, g1) = gen_expr(g, a);
            let (vv, g2) = gen_expr(g1, v);
            emit(g2, IRInstV::StoreMem(av, vv))
        },
        StmtV::AssignIndex { base, index, value } => {
            let (addr, g1) = gen_index_addr(g, ExprV::Index(Box::new(base), Box::new(index)));
            let (vv, g2) = gen_expr(g1, value);
            emit(g2, IRInstV::StoreMem(addr, vv))
        },
        StmtV::AssignField { base, field, value } => {
            let (addr, g1) = gen_field_addr(g, ExprV::Field(Box::new(base), field));
            let (vv, g2) = gen_expr(g1, value);
            emit(g2, IRInstV::StoreMem(addr, vv))
        },
        StmtV::Struct { name, fields } => GState {
            structs: g.structs.insert(name, fields),
            widest: if fields.len() > g.widest { fields.len() } else { g.widest },
            ..g
        },
        StmtV::If { cond, then_branch, elif, else_branch } => {
            let (cv, g1) = gen_expr(g, cond);
            let (else_label, g2) = fresh_label(g1);
            let (end_label, g3) = fresh_label(g2);
            let g4 = gen_stmts(emit(g3, IRInstV::JumpIfZero(cv, else_label)), then_branch);
            let g5 = emit(emit(g4, IRInstV::Jump(end_label)), IRInstV::Label(else_label));
            let g6 = gen_elifs(g5, elif, end_label);
            let g7 = match else_branch {
                Some(b) => gen_stmts(g6, b),
                None => g6,
            };
            emit(g7, IRInstV::Label(end_label))
        },
        StmtV::Loop(body) => {
            let (start, g1) = fresh_label(g);
            let (end, g2) = fresh_label(g1);
            let g3 = emit(GState { loop_stack: g2.loop_stack.push((start, end)), ..g2 }, IRInstV::Label(start));
            let g4 = gen_stmts(g3, body);
            let g5 = emit(emit(g4, IRInstV::Jump(start)), IRInstV::Label(end));
            GState { loop_stack: g5.loop_stack.drop_last(), ..g5 }
        },
        StmtV::Break => if g.loop_stack.len() > 0 {
            emit(g, IRInstV::Jump(g.loop_stack.last().1))
        } else {
            report(g, "break outside loop"@)
        },
        StmtV::Continue => if g.loop_stack.len() > 0 {
            emit(g, IRInstV::Jump(g.loop_stack.last().0))
        } else {
            report(g, "continue outside loop"@)
        },
        StmtV::Function { name, params, body, export: _ } => {
            let g1 = emit(GState { function_params: g.function_params.insert(name, params), ..g }, IRInstV::Label(name));
            gen_stmts(g1, body)
        },
        StmtV::ExternFunction { name, params } => emit(
            GState { function_params: g.function_params.insert(name, params), ..g },
            IRInstV::Extern(name),
        ),
        StmtV::Import { .. } => g,
        StmtV::Empty => g,
    }
}

/// Statements in order.
pub open spec fn gen_stmts(g: GState, ss: Seq<StmtV>) -> GState
    decreases ss,
{
    if ss.len() == 0 {
        g
    } else {
        gen_stmts(gen_stmt(g, ss[0]), ss.subrange(1, ss.len() as int))
    }
}

/// The `elif` branches of an `if` whose code ends at `end`.
pub open spec fn gen_elifs(g: GState, elifs: Seq<(ExprV, Seq<StmtV>)>, end: Seq<char>) -> GState
    decreases elifs,
{
    if elifs.len() == 0 {
        g
    } else {
        let (next, g1) = fresh_label(g);
        let (cv, g2) = gen_expr(g1, elifs[0].0);
        let g3 = gen_stmts(emit(g2, IRInstV::JumpIfZero(cv, next)), elifs[0].1);
        let g4 = emit(emit(g3, IRInstV::Jump(end)), IRInstV::Label(next));
        gen_elifs(g4, elifs.subrange(1, elifs.len() as int), end)
    }
}

/// The counters of `g` are within the machine's integers, and no struct is
/// so wide that its size overflows an `i64`.
pub open spec fn fits(g: GState) -> bool {
    &&& g.temp_count <= usize::MAX
    &&& g.label_count <= usize::MAX
    &&& g.position <= u64::MAX
    &&& g.widest * 8 <= i64::MAX
}


/// `b` is `a` or later in the same run: no counter went down, and the code
/// and the messages of `a` start those of `b`.
pub open spec fn grows(a: GState, b: GState) -> bool {
    &&& a.temp_count <= b.temp_count
    &&& a.label_count <= b.label_count
    &&& a.position <= b.position
    &&& a.widest <= b.widest
    &&& a.code.len() <= b.code.len()
    &&& forall|i: int| 0 <= i < a.code.len() ==> #[trigger] b.code[i] == a.code[i]
    &&& a.msgs.len() <= b.msgs.len()
    &&& forall|i: int| 0 <= i < a.msgs.len() ==> #[trigger] b.msgs[i] == a.msgs[i]
}

/// Every struct known has at most `widest` fields.
pub open spec fn structs_within(g: GState) -> bool {
    forall|k: Seq<char>| #[trigger] g.structs.contains_key(k) ==> g.structs[k].len() <= g.widest
}

/// An instruction that jumps: `Jump` or `JumpIfZero`.
pub open spec fn is_jump(i: IRInstV) -> bool {
    i is Jump || i is JumpIfZero
}

/// The code of `b` has no jump past the code of `a`.
pub open spec fn adds_no_jump(a: GState, b: GState) -> bool {
    forall|i: int| a.code.len() <= i < b.code.len() ==> !is_jump(#[trigger] b.code[i])
}

/// The temporary an instruction writes, if it writes one.
pub open spec fn dest(i: IRInstV) -> Option<Seq<char>> {
    match i {
        IRInstV::LoadConst(d, _) | IRInstV::LoadVar(d, _) | IRInstV::StackAlloc(d, _)
        | IRInstV::LoadMem(d, _) | IRInstV::Call(d, _, _) => Some(d),
        IRInstV::Add(d, _, _) | IRInstV::Sub(d, _, _) | IRInstV::Mul(d, _, _) | IRInstV::Div(d, _, _)
        | IRInstV::Eq(d, _, _) | IRInstV::Neq(d, _, _) | IRInstV::Lt(d, _, _) | IRInstV::Gt(d, _, _)
        | IRInstV::LtEq(d, _, _) | IRInstV::GtEq(d, _, _) => Some(d),
        _ => None,
    }
}

/// `t` is one of the temporaries numbered from `lo` up to `hi`.
pub open spec fn temp_among(t: Seq<char>, lo: int, hi: int) -> bool {
    exists|n: int| lo <= n < hi && t == #[trigger] temp_name(n)
}

/// Every instruction `b` appends to the code of `a` writes a temporary that
/// was fresh at `a`: one numbered from `a`'s count up to `b`'s.
pub open spec fn fresh_dests(a: GState, b: GState) -> bool {
    forall|i: int| a.code.len() <= i < b.code.len() ==> (#[trigger] dest(b.code[i]) matches Some(t)
        && temp_among(t, a.temp_count, b.temp_count))
}

/// Generating code for an expression appends to the code and leaves what
/// was there untouched; every instruction it appends writes a temporary
/// that was fresh, none jumps, and no label is taken.
pub proof fn lemma_gen_expr_grows(g: GState, e: ExprV)
    ensures
        fresh_dests(g, gen_expr(g, e).1),
        adds_no_jump(g, gen_expr(g, e).1),
        grows(g, gen_expr(g, e).1),
        gen_expr(g, e).1.label_count == g.label_count,
        gen_expr(g, e).1.position == g.position,
        gen_expr(g, e).1.widest == g.widest,
        gen_expr(g, e).1.structs == g.structs,
        gen_expr(g, e).1.loop_stack == g.loop_stack,
    decreases e, 2nat,
{
    match e {
        ExprV::Binary(l, op, r) => {
            lemma_gen_expr_grows(g, *l);
            lemma_gen_expr_grows(gen_expr(g, *l).1, *r);
        },
        ExprV::Call(name, args) => {
            if name != "alloc_struct"@ {
                lemma_gen_args_grows(g, args);
            }
        },
        ExprV::Peek(a) => {
            lemma_gen_expr_grows(g, *a);
        },
        ExprV::Index(b, i) => {
            lemma_gen_index_addr_grows(g, e);
        },
        ExprV::Field(b, f) => {
            lemma_gen_field_addr_grows(g, e);
        },
        _ => {},
    }
}

pub proof fn lemma_gen_args_grows(g: GState, args: Seq<ExprV>)
    ensures
        fresh_dests(g, gen_args(g, args).1),
        adds_no_jump(g, gen_args(g, args).1),
        grows(g, gen_args(g, args).1),
        gen_args(g, args).1.label_count == g.label_count,
        gen_args(g, args).1.position == g.position,
        gen_args(g, args).1.widest == g.widest,
        gen_args(g, args).1.structs == g.structs,
        gen_args(g, args).1.loop_stack == g.loop_stack,
        gen_args(g, args).0.len() == args.len(),
    decreases args, 0nat,
{
    if args.len() > 0 {
        lemma_gen_expr_grows(g, args[0]);
        lemma_gen_args_grows(gen_expr(g, args[0]).1, args.subrange(1, args.len() as int));
    }
}

pub proof fn lemma_gen_index_addr_grows(g: GState, e: ExprV)
    ensures
        fresh_dests(g, gen_index_addr(g, e).1),
        adds_no_jump(g, gen_index_addr(g, e).1),
        grows(g, gen_index_addr(g, e).1),
        gen_index_addr(g, e).1.label_count == g.label_count,
        gen_index_addr(g, e).1.position == g.position,
        gen_index_addr(g, e).1.widest == g.widest,
        gen_index_addr(g, e).1.structs == g.structs,
        gen_index_addr(g, e).1.loop_stack == g.loop_stack,
    decreases e, 1nat,
{
    if let ExprV::Index(b, i) = e {
        lemma_gen_expr_grows(g, *b);
        lemma_gen_expr_grows(gen_expr(g, *b).1, *i);
    }
}

pub proof fn lemma_gen_field_addr_grows(g: GState, e: ExprV)
    ensures
        fresh_dests(g, gen_field_addr(g, e).1),
        adds_no_jump(g, gen_field_addr(g, e).1),
        grows(g, gen_field_addr(g, e).1),
        gen_field_addr(g, e).1.label_count == g.label_count,
        gen_field_addr(g, e).1.position == g.position,
        gen_field_addr(g, e).1.widest == g.widest,
        gen_field_addr(g, e).1.structs == g.structs,
        gen_field_addr(g, e).1.loop_stack == g.loop_stack,
    decreases e, 1nat,
{
    if let ExprV::Field(b, f) = e {
        let (offset, g0) = field_offset(g, *b, f);
        lemma_gen_expr_grows(g0, *b);
    }
}

/// Generating code for a statement counts it, never lowers a counter, only
/// appends to the code and the messages, and keeps every known struct
/// within `widest`.
pub proof fn lemma_gen_stmt_grows(g: GState, s: StmtV)
    ensures
        grows(g, gen_stmt(g, s)),
        gen_stmt(g, s).position >= g.position + 1,
        gen_stmt(g, s).loop_stack == g.loop_stack,
        structs_within(g) ==> structs_within(gen_stmt(g, s)),
    decreases s,
{
    let g0 = GState { position: g.position + 1, ..g };
    match s {
        StmtV::Let { name, ty: _, value } => {
            lemma_gen_expr_grows(g0, value);
        },
        StmtV::Assign(name, value) => {
            lemma_gen_expr_grows(g0, value);
        },
        StmtV::Return(e) => {
            lemma_gen_expr_grows(g0, e);
        },
        StmtV::Expr(e) => {
            lemma_gen_expr_grows(g0, e);
        },
        StmtV::Poke(a, v) => {
            lemma_gen_expr_grows(g0, a);
            lemma_gen_expr_grows(gen_expr(g0, a).1, v);
        },
        StmtV::AssignIndex { base, index, value } => {
            let e = ExprV::Index(Box::new(base), Box::new(index));
            lemma_gen_index_addr_grows(g0, e);
            lemma_gen_expr_grows(gen_index_addr(g0, e).1, value);
        },
        StmtV::AssignField { base, field, value } => {
            let e = ExprV::Field(Box::new(base), field);
            lemma_gen_field_addr_grows(g0, e);
            lemma_gen_expr_grows(gen_field_addr(g0, e).1, value);
        },
        StmtV::If { cond, then_branch, elif, else_branch } => {
            lemma_gen_expr_grows(g0, cond);
            let (cv, g1) = gen_expr(g0, cond);
            let (else_label, g2) = fresh_label(g1);
            let (end_label, g3) = fresh_label(g2);
            let g3e = emit(g3, IRInstV::JumpIfZero(cv, else_label));
            lemma_gen_stmts_grows(g3e, then_branch);
            let g4 = gen_stmts(g3e, then_branch);
            let g5 = emit(emit(g4, IRInstV::Jump(end_label)), IRInstV::Label(else_label));
            lemma_gen_elifs_grows(g5, elif, end_label);
            let g6 = gen_elifs(g5, elif, end_label);
            match else_branch {
                Some(b) => {
                    lemma_gen_stmts_grows(g6, b);
                },
                None => {},
            }
        },
        StmtV::Loop(body) => {
            let (start, g1) = fresh_label(g0);
            let (end, g2) = fresh_label(g1);
            let g3 = emit(GState { loop_stack: g2.loop_stack.push((start, end)), ..g2 }, IRInstV::Label(start));
            lemma_gen_stmts_grows(g3, body);
            assert(g2.loop_stack.push((start, end)).drop_last() =~= g.loop_stack);
        },
        StmtV::Function { name, params, body, export: _ } => {
            let g1 = emit(GState { function_params: g0.function_params.insert(name, params), ..g0 }, IRInstV::Label(name));
            lemma_gen_stmts_grows(g1, body);
        },
        _ => {},
    }
}

pub proof fn lemma_gen_stmts_grows(g: GState, ss: Seq<StmtV>)
    ensures
        grows(g, gen_stmts(g, ss)),
        gen_stmts(g, ss).loop_stack == g.loop_stack,
        structs_within(g) ==> structs_within(gen_stmts(g, ss)),
    decreases ss,
{
    if ss.len() > 0 {
        lemma_gen_stmt_grows(g, ss[0]);
        lemma_gen_stmts_grows(gen_stmt(g, ss[0]), ss.subrange(1, ss.len() as int));
    }
}

pub proof fn lemma_gen_elifs_grows(g: GState, elifs: Seq<(ExprV, Seq<StmtV>)>, end: Seq<char>)
    ensures
        grows(g, gen_elifs(g, elifs, end)),
        gen_elifs(g, elifs, end).loop_stack == g.loop_stack,
        structs_within(g) ==> structs_within(gen_elifs(g, elifs, end)),
    decreases elifs,
{
    if elifs.len() > 0 {
        let (next, g1) = fresh_label(g);
        lemma_gen_expr_grows(g1, elifs[0].0);
        let (cv, g2) = gen_expr(g1, elifs[0].0);
        let g2e = emit(g2, IRInstV::JumpIfZero(cv, next));
        lemma_gen_stmts_grows(g2e, elifs[0].1);
        let g3 = gen_stmts(g2e, elifs[0].1);
        let g4 = emit(emit(g3, IRInstV::Jump(end)), IRInstV::Label(next));
        lemma_gen_elifs_grows(g4, elifs.subrange(1, elifs.len() as int), end);
    }
}


/// The code for a binary expression ends with one instruction that
/// combines the temporaries holding the two operands into a fresh
/// temporary, and that instruction computes what the operator computes in
/// the language: for any operand values its result is the one the
/// interpreter gives the expression.
pub proof fn lemma_gen_binary(g: GState, l: ExprV, op: Op, r: ExprV)
    ensures
        ({
            let (lv, g1) = gen_expr(g, l);
            let (rv, g2) = gen_expr(g1, r);
            let (out, g3) = gen_expr(g, ExprV::Binary(Box::new(l), op, Box::new(r)));
            let last = g3.code.last();
            &&& g3.code.len() == g2.code.len() + 1
            &&& g3.code.subrange(0, g2.code.len() as int) == g2.code
            &&& binary_parts(last) == Some((out, lv, rv))
            &&& out == temp_name(g2.temp_count)
            &&& forall|a: i64, b: i64| #[trigger] ir_binary_value(last, a, b) == bin_value(op, a, b)
        }),
{
    let (lv, g1) = gen_expr(g, l);
    let (rv, g2) = gen_expr(g1, r);
    let (out, g3) = gen_expr(g, ExprV::Binary(Box::new(l), op, Box::new(r)));
    assert(g3.code.subrange(0, g2.code.len() as int) =~= g2.code);
    assert forall|a: i64, b: i64| #[trigger] ir_binary_value(g3.code.last(), a, b) == bin_value(op, a, b) by {
        lemma_bin_value_meaning(op, a, b);
    }
}

/// The code for the address of `base[index]` ends with three
/// instructions: a constant into a fresh temporary, the index times that
/// constant, and the base plus the product. For any values of index and
/// base these compute the address the interpreter reads `base[index]` at:
/// the word `index` 8-byte words past `base`.
pub proof fn lemma_gen_index_addr_meaning(g: GState, b: ExprV, i: ExprV)
    ensures
        ({
            let e = ExprV::Index(Box::new(b), Box::new(i));
            let (bv, g1) = gen_expr(g, b);
            let (iv, g2) = gen_expr(g1, i);
            let (addr, g5) = gen_index_addr(g, e);
            let n = g2.code.len() as int;
            let c = g5.code;
            &&& c.len() == n + 3
            &&& c.subrange(0, n) == g2.code
            &&& c[n] is LoadConst
            &&& binary_parts(c[n + 1]) == Some((c[n]->LoadConst_0, iv, c[n]->LoadConst_0))
            &&& binary_parts(c[n + 2]) == Some((addr, bv, c[n]->LoadConst_0))
            &&& forall|y: i64, x: i64| #[trigger] index_addr(y, x) == (match ir_binary_value(c[n + 1], x, c[n]->LoadConst_1) {
                Some(o) => ir_binary_value(c[n + 2], y, o),
                None => None,
            })
        }),
{
    let e = ExprV::Index(Box::new(b), Box::new(i));
    let (bv, g1) = gen_expr(g, b);
    let (iv, g2) = gen_expr(g1, i);
    let (addr, g5) = gen_index_addr(g, e);
    let n = g2.code.len() as int;
    assert(g5.code.subrange(0, n) =~= g2.code);
}

/// `code` defines label `l`.
pub open spec fn has_label(code: Seq<IRInstV>, l: Seq<char>) -> bool {
    exists|j: int| 0 <= j < code.len() && code[j] == IRInstV::Label(l)
}

/// The instruction's jump, if it is one, goes to a label of `code` or to
/// one of `pending`, the labels still to be placed.
pub open spec fn target_ok(code: Seq<IRInstV>, pending: Set<Seq<char>>, i: IRInstV) -> bool {
    match i {
        IRInstV::Jump(l) => has_label(code, l) || pending.contains(l),
        IRInstV::JumpIfZero(_, l) => has_label(code, l) || pending.contains(l),
        _ => true,
    }
}

/// Every jump of `code` goes to a label of `code` or to one of `pending`.
pub open spec fn jumps_ok(code: Seq<IRInstV>, pending: Set<Seq<char>>) -> bool {
    forall|i: int| 0 <= i < code.len() ==> #[trigger] target_ok(code, pending, code[i])
}

/// The labels of the enclosing loops are among `pending`.
pub open spec fn loops_open(st: Seq<(Seq<char>, Seq<char>)>, pending: Set<Seq<char>>) -> bool {
    forall|k: int| 0 <= k < st.len() ==> pending.contains(#[trigger] st[k].0) && pending.contains(st[k].1)
}

/// A label stays defined as code is appended.
proof fn lemma_label_kept(a: GState, b: GState, l: Seq<char>)
    requires
        grows(a, b),
        has_label(a.code, l),
    ensures
        has_label(b.code, l),
{
    let j = choose|j: int| 0 <= j < a.code.len() && a.code[j] == IRInstV::Label(l);
    assert(b.code[j] == a.code[j]);
}

/// Appending code that `ok` approves keeps every jump approved.
proof fn lemma_jumps_extend(a: GState, b: GState, pending: Set<Seq<char>>)
    requires
        grows(a, b),
        jumps_ok(a.code, pending),
        forall|i: int| a.code.len() <= i < b.code.len() ==> #[trigger] target_ok(b.code, pending, b.code[i]),
    ensures
        jumps_ok(b.code, pending),
{
    assert forall|i: int| 0 <= i < b.code.len() implies #[trigger] target_ok(b.code, pending, b.code[i]) by {
        if i < a.code.len() {
            assert(b.code[i] == a.code[i]);
            assert(target_ok(a.code, pending, a.code[i]));
            match a.code[i] {
                IRInstV::Jump(l) => if has_label(a.code, l) { lemma_label_kept(a, b, l); },
                IRInstV::JumpIfZero(_, l) => if has_label(a.code, l) { lemma_label_kept(a, b, l); },
                _ => {},
            }
        }
    }
}

/// Appending code without jumps keeps every jump approved.
proof fn lemma_jumps_straight(a: GState, b: GState, pending: Set<Seq<char>>)
    requires
        grows(a, b),
        adds_no_jump(a, b),
        jumps_ok(a.code, pending),
    ensures
        jumps_ok(b.code, pending),
{
    assert forall|i: int| a.code.len() <= i < b.code.len() implies #[trigger] target_ok(b.code, pending, b.code[i]) by {
        assert(!is_jump(b.code[i]));
    }
    lemma_jumps_extend(a, b, pending);
}

/// Once the labels `x` and `y` are defined, they need no longer be pending.
proof fn lemma_jumps_close(code: Seq<IRInstV>, pending: Set<Seq<char>>, x: Seq<char>, y: Seq<char>)
    requires
        jumps_ok(code, pending.insert(x).insert(y)),
        has_label(code, x),
        has_label(code, y),
    ensures
        jumps_ok(code, pending),
{
    assert forall|i: int| 0 <= i < code.len() implies #[trigger] target_ok(code, pending, code[i]) by {
        assert(target_ok(code, pending.insert(x).insert(y), code[i]));
    }
}

/// More pending labels approve more jumps.
proof fn lemma_jumps_widen(code: Seq<IRInstV>, pending: Set<Seq<char>>, wider: Set<Seq<char>>)
    requires
        jumps_ok(code, pending),
        pending.subset_of(wider),
    ensures
        jumps_ok(code, wider),
{
    assert forall|i: int| 0 <= i < code.len() implies #[trigger] target_ok(code, wider, code[i]) by {
        assert(target_ok(code, pending, code[i]));
    }
}

/// More open labels keep the enclosing loops' labels open.
proof fn lemma_loops_widen(st: Seq<(Seq<char>, Seq<char>)>, pending: Set<Seq<char>>, wide: Set<Seq<char>>)
    requires
        loops_open(st, pending),
        pending.subset_of(wide),
    ensures
        loops_open(st, wide),
{
    assert forall|k: int| 0 <= k < st.len() implies wide.contains(#[trigger] st[k].0) && wide.contains(st[k].1) by {
        assert(pending.contains(st[k].0));
    }
}

/// Generating code for a statement keeps every jump going to a label of
/// the code or to one still pending, when the labels of the enclosing loops
/// are pending.
pub proof fn lemma_gen_stmt_jumps(g: GState, s: StmtV, pending: Set<Seq<char>>)
    requires
        jumps_ok(g.code, pending),
        loops_open(g.loop_stack, pending),
    ensures
        jumps_ok(gen_stmt(g, s).code, pending),
    decreases s,
{
    lemma_gen_stmt_grows(g, s);
    let g0 = GState { position: g.position + 1, ..g };
    match s {
        StmtV::Let { name, ty: _, value } => {
            lemma_gen_expr_grows(g0, value);
            let g1 = gen_expr(g0, value).1;
            lemma_jumps_straight(g0, g1, pending);
            lemma_jumps_straight(g1, gen_stmt(g, s), pending);
        },
        StmtV::Assign(name, value) => {
            lemma_gen_expr_grows(g0, value);
            lemma_jumps_straight(g0, gen_expr(g0, value).1, pending);
            lemma_jumps_straight(gen_expr(g0, value).1, gen_stmt(g, s), pending);
        },
        StmtV::Return(e) => {
            lemma_gen_expr_grows(g0, e);
            lemma_jumps_straight(g0, gen_expr(g0, e).1, pending);
            lemma_jumps_straight(gen_expr(g0, e).1, gen_stmt(g, s), pending);
        },
        StmtV::Expr(e) => {
            lemma_gen_expr_grows(g0, e);
            lemma_jumps_straight(g0, gen_expr(g0, e).1, pending);
        },
        StmtV::Poke(a, v) => {
            lemma_gen_expr_grows(g0, a);
            let g1 = gen_expr(g0, a).1;
            lemma_gen_expr_grows(g1, v);
            let g2 = gen_expr(g1, v).1;
            lemma_jumps_straight(g0, g1, pending);
            lemma_jumps_straight(g1, g2, pending);
            lemma_jumps_straight(g2, gen_stmt(g, s), pending);
        },
        StmtV::AssignIndex { base, index, value } => {
            let e = ExprV::Index(Box::new(base), Box::new(index));
            lemma_gen_index_addr_grows(g0, e);
            let g1 = gen_index_addr(g0, e).1;
            lemma_gen_expr_grows(g1, value);
            let g2 = gen_expr(g1, value).1;
            lemma_jumps_straight(g0, g1, pending);
            lemma_jumps_straight(g1, g2, pending);
            lemma_jumps_straight(g2, gen_stmt(g, s), pending);
        },
        StmtV::AssignField { base, field, value } => {
            let e = ExprV::Field(Box::new(base), field);
            lemma_gen_field_addr_grows(g0, e);
            let g1 = gen_field_addr(g0, e).1;
            lemma_gen_expr_grows(g1, value);
            let g2 = gen_expr(g1, value).1;
            lemma_jumps_straight(g0, g1, pending);
            lemma_jumps_straight(g1, g2, pending);
            lemma_jumps_straight(g2, gen_stmt(g, s), pending);
        },
        StmtV::If { cond, then_branch, elif, else_branch } => {
            lemma_gen_expr_grows(g0, cond);
            let (cv, g1) = gen_expr(g0, cond);
            lemma_jumps_straight(g0, g1, pending);
            let (else_label, g2) = fresh_label(g1);
            let (end_label, g3) = fresh_label(g2);
            let wide = pending.insert(else_label).insert(end_label);
            lemma_jumps_widen(g3.code, pending, wide);
            let g3e = emit(g3, IRInstV::JumpIfZero(cv, else_label));
            lemma_jumps_extend(g3, g3e, wide);
            assert(g3e.loop_stack == g.loop_stack);
            lemma_loops_widen(g.loop_stack, pending, wide);
            lemma_gen_stmts_jumps(g3e, then_branch, wide);
            lemma_gen_stmts_grows(g3e, then_branch);
            let g4 = gen_stmts(g3e, then_branch);
            let g4j = emit(g4, IRInstV::Jump(end_label));
            let g5 = emit(g4j, IRInstV::Label(else_label));
            lemma_jumps_extend(g4, g4j, wide);
            lemma_jumps_extend(g4j, g5, wide);
            assert(g5.loop_stack == g.loop_stack);
            lemma_gen_elifs_jumps(g5, elif, end_label, wide);
            lemma_gen_elifs_grows(g5, elif, end_label);
            let g6 = gen_elifs(g5, elif, end_label);
            let g7 = match else_branch {
                Some(b) => gen_stmts(g6, b),
                None => g6,
            };
            match else_branch {
                Some(b) => {
                    assert(g6.loop_stack == g.loop_stack);
                    lemma_gen_stmts_jumps(g6, b, wide);
                    lemma_gen_stmts_grows(g6, b);
                },
                None => {},
            }
            let g8 = emit(g7, IRInstV::Label(end_label));
            lemma_jumps_extend(g7, g8, wide);
            assert(g5.code[g5.code.len() - 1] == IRInstV::Label(else_label));
            assert(has_label(g5.code, else_label));
            lemma_label_kept(g5, g6, else_label);
            lemma_label_kept(g6, g7, else_label);
            lemma_label_kept(g7, g8, else_label);
            assert(g8.code[g8.code.len() - 1] == IRInstV::Label(end_label));
            lemma_jumps_close(g8.code, pending, else_label, end_label);
        },
        StmtV::Loop(body) => {
            let (start, g1) = fresh_label(g0);
            let (end, g2) = fresh_label(g1);
            let wide = pending.insert(start).insert(end);
            lemma_jumps_widen(g2.code, pending, wide);
            let g2s = GState { loop_stack: g2.loop_stack.push((start, end)), ..g2 };
            let g3 = emit(g2s, IRInstV::Label(start));
            lemma_jumps_extend(g2s, g3, wide);
            lemma_loops_widen(g.loop_stack, pending, wide);
            assert(g2.loop_stack == g.loop_stack);
            assert(g3.loop_stack == g.loop_stack.push((start, end)));
            assert forall|k: int| 0 <= k < g3.loop_stack.len() implies wide.contains(#[trigger] g3.loop_stack[k].0)
                && wide.contains(g3.loop_stack[k].1) by {
                if k < g.loop_stack.len() {
                    assert(g3.loop_stack[k] == g.loop_stack[k]);
                }
            }
            assert(loops_open(g3.loop_stack, wide));
            lemma_gen_stmts_jumps(g3, body, wide);
            lemma_gen_stmts_grows(g3, body);
            let g4 = gen_stmts(g3, body);
            let g4j = emit(g4, IRInstV::Jump(start));
            let g5 = emit(g4j, IRInstV::Label(end));
            lemma_jumps_extend(g4, g4j, wide);
            lemma_jumps_extend(g4j, g5, wide);
            assert(g3.code[g3.code.len() - 1] == IRInstV::Label(start));
            assert(has_label(g3.code, start));
            lemma_label_kept(g3, g4, start);
            lemma_label_kept(g4, g5, start);
            assert(g5.code[g5.code.len() - 1] == IRInstV::Label(end));
            lemma_jumps_close(g5.code, pending, start, end);
        },
        StmtV::Break => {
            if g.loop_stack.len() > 0 {
                assert(pending.contains(g.loop_stack[g.loop_stack.len() - 1].0));
                assert(pending.contains(g.loop_stack[g.loop_stack.len() - 1].1));
                lemma_jumps_extend(g0, gen_stmt(g, s), pending);
            }
        },
        StmtV::Continue => {
            if g.loop_stack.len() > 0 {
                assert(pending.contains(g.loop_stack[g.loop_stack.len() - 1].0));
                lemma_jumps_extend(g0, gen_stmt(g, s), pending);
            }
        },
        StmtV::Function { name, params, body, export: _ } => {
            let g1 = emit(GState { function_params: g0.function_params.insert(name, params), ..g0 }, IRInstV::Label(name));
            lemma_jumps_extend(g0, g1, pending);
            lemma_gen_stmts_jumps(g1, body, pending);
        },
        StmtV::ExternFunction { name, params } => {
            lemma_jumps_extend(g0, gen_stmt(g, s), pending);
        },
        _ => {},
    }
}

pub proof fn lemma_gen_stmts_jumps(g: GState, ss: Seq<StmtV>, pending: Set<Seq<char>>)
    requires
        jumps_ok(g.code, pending),
        loops_open(g.loop_stack, pending),
    ensures
        jumps_ok(gen_stmts(g, ss).code, pending),
    decreases ss,
{
    if ss.len() > 0 {
        lemma_gen_stmt_jumps(g, ss[0], pending);
        lemma_gen_stmt_grows(g, ss[0]);
        lemma_gen_stmts_jumps(gen_stmt(g, ss[0]), ss.subrange(1, ss.len() as int), pending);
    }
}

pub proof fn lemma_gen_elifs_jumps(g: GState, elifs: Seq<(ExprV, Seq<StmtV>)>, end: Seq<char>, pending: Set<Seq<char>>)
    requires
        jumps_ok(g.code, pending),
        loops_open(g.loop_stack, pending),
        pending.contains(end),
    ensures
        jumps_ok(gen_elifs(g, elifs, end).code, pending),
    decreases elifs,
{
    if elifs.len() > 0 {
        let (next, g1) = fresh_label(g);
        let wide = pending.insert(next).insert(next);
        lemma_jumps_widen(g1.code, pending, wide);
        lemma_gen_expr_grows(g1, elifs[0].0);
        let (cv, g2) = gen_expr(g1, elifs[0].0);
        lemma_jumps_straight(g1, g2, wide);
        let g2e = emit(g2, IRInstV::JumpIfZero(cv, next));
        lemma_jumps_extend(g2, g2e, wide);
        lemma_loops_widen(g.loop_stack, pending, wide);
        assert(g2e.loop_stack == g.loop_stack);
        lemma_gen_stmts_jumps(g2e, elifs[0].1, wide);
        lemma_gen_stmts_grows(g2e, elifs[0].1);
        let g3 = gen_stmts(g2e, elifs[0].1);
        let g3j = emit(g3, IRInstV::Jump(end));
        let g4 = emit(g3j, IRInstV::Label(next));
        lemma_jumps_extend(g3, g3j, wide);
        lemma_jumps_extend(g3j, g4, wide);
        assert(g4.code[g4.code.len() - 1] == IRInstV::Label(next));
        lemma_jumps_close(g4.code, pending, next, next);
        lemma_gen_elifs_jumps(g4, elifs.subrange(1, elifs.len() as int), end, pending);
    }
}

/// Every jump in the code generated for a program goes to a label that
/// the code defines.
pub proof fn lemma_program_jumps(ss: Seq<StmtV>, g: GState)
    requires
        g.code.len() == 0,
        g.loop_stack.len() == 0,
    ensures
        jumps_ok(gen_stmts(g, ss).code, Set::empty()),
        forall|i: int| 0 <= i < gen_stmts(g, ss).code.len() ==> match #[trigger] gen_stmts(g, ss).code[i] {
            IRInstV::Jump(l) => has_label(gen_stmts(g, ss).code, l),
            IRInstV::JumpIfZero(_, l) => has_label(gen_stmts(g, ss).code, l),
            _ => true,
        },
{
    lemma_gen_stmts_jumps(g, ss, Set::empty());
    let code = gen_stmts(g, ss).code;
    assert forall|i: int| 0 <= i < code.len() implies match #[trigger] code[i] {
        IRInstV::Jump(l) => has_label(code, l),
        IRInstV::JumpIfZero(_, l) => has_label(code, l),
        _ => true,
    } by {
        assert(target_ok(code, Set::empty(), code[i]));
    }
}

/// A bound on what generating code for an expression allocates.
pub open spec fn expr_size(e: ExprV) -> nat
    decreases e, 1nat,
{
    match e {
        ExprV::Binary(l, _, r) => 3 + expr_size(*l) + expr_size(*r),
        ExprV::Call(_, args) => 3 + args_size(args),
        ExprV::Peek(a) => 3 + expr_size(*a),
        ExprV::Index(b, i) => 3 + expr_size(*b) + expr_size(*i),
        ExprV::Field(b, _) => 3 + expr_size(*b),
        _ => 3,
    }
}

pub open spec fn args_size(args: Seq<ExprV>) -> nat
    decreases args, 0nat,
{
    if args.len() == 0 {
        0
    } else {
        expr_size(args[0]) + args_size(args.subrange(1, args.len() as int))
    }
}

/// Each argument is smaller than the list.
pub proof fn lemma_args_size(args: Seq<ExprV>, i: int)
    requires
        0 <= i < args.len(),
    ensures
        expr_size(args[i]) <= args_size(args),
    decreases args.len(),
{
    if i > 0 {
        lemma_args_size(args.subrange(1, args.len() as int), i - 1);
    }
}

} // verus!
