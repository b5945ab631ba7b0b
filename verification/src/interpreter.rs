//! AST interpreter for Micro-C.
//!
//! This module provides an interpreter that can execute Micro-C programs
//! directly from their Abstract Syntax Tree (AST), useful for testing and
//! constant folding. Each method is proved to do what the function of the
//! same name in [`crate::interp_spec`] says.
use vstd::prelude::*;
use vstd::string::*;
use crate::ast::{Expr, Stmt, Type, TypeV, ExprV, StmtV, Op, exprs_v, stmts_v, elifs_v, names_v, lemma_exprs_v, lemma_stmts_v, lemma_elifs_v, copy_stmt, copy_fields};
use crate::codegen_spec::field_index;
use crate::interp_spec::{
    index_addr,
    IState, Control, lookup, assign_in, set_var, push_scope, pop_scope, mem_read, bin_value,
    struct_type, field_slot, mem_fill, alloc_struct, eval, eval_args, bind_params, call,
    exec_block, block_loop, loop_rounds, let_type_of, exec, register, run_with, runs, run_result,
    fresh_state, eval_binary, eval_index, eval_field, exec_let, exec_assign, exec_assign_index,
    exec_assign_field, exec_poke, exec_if, elif_chain,
};
use crate::maps::{ScopeMap, scope_entries, TypeMap, type_entries, MemMap, mem_entries, FnMap, fn_entries, StructMap, struct_entries};
use crate::text::str_eq;

verus! {

/// The values of a list of scopes.
pub open spec fn scopes_v(s: Seq<ScopeMap>) -> Seq<Map<Seq<char>, i64>> {
    s.map_values(|m: ScopeMap| scope_entries(m))
}

/// A state the interpreter can be in: there is a scope to bind names in,
/// and memory holds finitely many words.
pub open spec fn ok_state(s: IState) -> bool {
    s.scopes.len() >= 1 && s.memory.dom().finite()
}

/// State for the Micro-C AST interpreter.
pub struct Interpreter {
    scopes: Vec<ScopeMap>,
    types: TypeMap,
    memory: MemMap,
    functions: FnMap,
    structs: StructMap,
}

impl View for Interpreter {
    type V = IState;

    closed spec fn view(&self) -> IState {
        IState {
            scopes: scopes_v(self.scopes@),
            types: type_entries(self.types),
            memory: mem_entries(self.memory),
            functions: fn_entries(self.functions),
            structs: struct_entries(self.structs),
        }
    }
}

/// `lookup` finds the innermost scope that has the name.
proof fn lemma_lookup_at(scopes: Seq<Map<Seq<char>, i64>>, name: Seq<char>, i: int)
    requires
        0 <= i <= scopes.len(),
        forall|k: int| i <= k < scopes.len() ==> !(#[trigger] scopes[k]).contains_key(name),
    ensures
        lookup(scopes, name) == lookup(scopes.take(i), name),
    decreases scopes.len(),
{
    if i < scopes.len() {
        assert(scopes.take(i) =~= scopes.drop_last().take(i));
        lemma_lookup_at(scopes.drop_last(), name, i);
    } else {
        assert(scopes.take(i) =~= scopes);
    }
}

/// `assign_in` updates the innermost scope that has the name.
proof fn lemma_assign_at(scopes: Seq<Map<Seq<char>, i64>>, name: Seq<char>, v: i64, i: int)
    requires
        0 <= i < scopes.len(),
        scopes[i].contains_key(name),
        forall|k: int| i < k < scopes.len() ==> !(#[trigger] scopes[k]).contains_key(name),
    ensures
        assign_in(scopes, name, v) == Some(scopes.update(i, scopes[i].insert(name, v))),
    decreases scopes.len(),
{
    if i < scopes.len() - 1 {
        lemma_assign_at(scopes.drop_last(), name, v, i);
        assert(scopes.drop_last().update(i, scopes[i].insert(name, v)).push(scopes.last())
            =~= scopes.update(i, scopes[i].insert(name, v)));
    } else {
        assert(scopes.drop_last().push(scopes.last().insert(name, v)) =~= scopes.update(i, scopes[i].insert(name, v)));
    }
}

/// One step of a block: the first statement, then the rest if it ended
/// normally.
proof fn lemma_block_step(s: IState, stmts: Seq<StmtV>, g: nat)
    requires
        block_loop(s, stmts, g) is Some,
    ensures
        g > 0,
        stmts.len() == 0 ==> block_loop(s, stmts, g) == Some((Control::Normal, s)),
        stmts.len() > 0 ==> exec(s, stmts[0], (g - 1) as nat) is Some,
        stmts.len() > 0 && exec(s, stmts[0], (g - 1) as nat).unwrap().0 == Control::Normal ==> block_loop(
            s,
            stmts,
            g,
        ) == block_loop(
            exec(s, stmts[0], (g - 1) as nat).unwrap().1,
            stmts.subrange(1, stmts.len() as int),
            (g - 1) as nat,
        ),
        stmts.len() > 0 && exec(s, stmts[0], (g - 1) as nat).unwrap().0 != Control::Normal ==> block_loop(
            s,
            stmts,
            g,
        ) == exec(s, stmts[0], (g - 1) as nat),
{
}

/// `assign_in` keeps the number of scopes.
proof fn lemma_assign_len(scopes: Seq<Map<Seq<char>, i64>>, name: Seq<char>, v: i64)
    ensures
        assign_in(scopes, name, v) matches Some(sc) ==> sc.len() == scopes.len(),
    decreases scopes.len(),
{
    if scopes.len() > 0 {
        lemma_assign_len(scopes.drop_last(), name, v);
    }
}

/// No scope has the name: `assign_in` fails.
proof fn lemma_assign_none(scopes: Seq<Map<Seq<char>, i64>>, name: Seq<char>, v: i64)
    requires
        forall|k: int| 0 <= k < scopes.len() ==> !(#[trigger] scopes[k]).contains_key(name),
    ensures
        assign_in(scopes, name, v) is None,
    decreases scopes.len(),
{
    if scopes.len() > 0 {
        lemma_assign_none(scopes.drop_last(), name, v);
    }
}

/// The address of `base[index]`: `index` 8-byte words past `base`.
fn index_address(b: i64, i: i64) -> (a: i64)
    requires
        index_addr(b, i) is Some,
    ensures
        a == index_addr(b, i).unwrap(),
{
    let off = i.checked_mul(8).unwrap();
    b.checked_add(off).unwrap()
}

impl Interpreter {
    /// Creates a new Interpreter with a clean state.
    pub fn new() -> (r: Self)
        ensures
            r@ == fresh_state(),
            ok_state(r@),
    {
        let mut scopes: Vec<ScopeMap> = Vec::new();
        scopes.push(ScopeMap::new());
        let r = Self {
            scopes,
            types: TypeMap::new(),
            memory: MemMap::new(),
            functions: FnMap::new(),
            structs: StructMap::new(),
        };
        assert(r@.scopes[0] =~= Map::<Seq<char>, i64>::empty());
        assert(r@.scopes =~= seq![Map::<Seq<char>, i64>::empty()]);
        assert(r@.types =~= Map::empty());
        assert(r@.memory =~= Map::empty());
        assert(r@.functions =~= Map::empty());
        assert(r@.structs =~= Map::empty());
        r
    }

    fn set(&mut self, name: String, val: i64, ty: Type)
        requires
            old(self)@.scopes.len() >= 1,
        ensures
            final(self)@ == set_var(old(self)@, name@, val, ty@),
    {
        let n = self.scopes.len();
        let mut top = self.scopes.remove(n - 1);
        top.insert(name.clone(), val);
        self.scopes.push(top);
        self.types.insert(name, ty);
        assert(self@.scopes =~= old(self)@.scopes.drop_last().push(old(self)@.scopes.last().insert(name@, val)));
    }

    fn get(&self, name: &str) -> (r: i64)
        requires
            lookup(self@.scopes, name@) is Some,
        ensures
            r == lookup(self@.scopes, name@).unwrap(),
    {
        let ghost sc = self@.scopes;
        let mut i: usize = self.scopes.len();
        proof {
            lemma_lookup_at(sc, name@, i as int);
        }
        while i > 0
            invariant
                i <= self.scopes@.len(),
                sc == self@.scopes,
                sc.len() == self.scopes@.len(),
                lookup(sc, name@) == lookup(sc.take(i as int), name@),
                lookup(sc, name@) is Some,
            decreases i,
        {
            assert(sc.take(i as int).last() == sc[i - 1]);
            assert(sc.take(i as int).drop_last() =~= sc.take(i - 1));
            assert(sc[i - 1] == scope_entries(self.scopes@[i - 1]));
            match self.scopes[i - 1].get(name) {
                Some(v) => {
                    return *v;
                },
                None => {},
            }
            i = i - 1;
        }
        assert(sc.take(0) =~= Seq::<Map<Seq<char>, i64>>::empty());
        proof {
            assert(false);
        }
        0
    }

    fn assign(&mut self, name: String, val: i64)
        requires
            assign_in(old(self)@.scopes, name@, val) is Some,
        ensures
            final(self)@ == (IState { scopes: assign_in(old(self)@.scopes, name@, val).unwrap(), ..old(self)@ }),
    {
        let ghost sc = self@.scopes;
        let mut i: usize = self.scopes.len();
        while i > 0
            invariant
                i <= self.scopes@.len(),
                sc == self@.scopes,
                self@ == old(self)@,
                sc.len() == self.scopes@.len(),
                forall|k: int| i <= k < sc.len() ==> !(#[trigger] sc[k]).contains_key(name@),
                assign_in(sc, name@, val) is Some,
            decreases i,
        {
            assert(sc[i - 1] == scope_entries(self.scopes@[i - 1]));
            if self.scopes[i - 1].contains_key(name.as_str()) {
                proof {
                    lemma_assign_at(sc, name@, val, i - 1);
                }
                let mut m = self.scopes.remove(i - 1);
                m.insert(name, val);
                self.scopes.insert(i - 1, m);
                assert(self@.scopes =~= sc.update(i - 1, sc[i - 1].insert(name@, val)));
                return;
            }
            i = i - 1;
        }
        proof {
            lemma_assign_none(sc, name@, val);
        }
    }

    fn field_offset(&self, struct_name: &str, field: &str) -> (r: i64)
        requires
            field_slot(self@, struct_name@, field@) is Some,
        ensures
            r == field_slot(self@, struct_name@, field@).unwrap(),
    {
        match self.structs.get(struct_name) {
            Some(fields) => {
                let ghost fs = crate::ast::fields_v(fields@);
                let mut i: usize = 0;
                while i < fields.len()
                    invariant
                        i <= fields@.len(),
                        fs == crate::ast::fields_v(fields@),
                        fs == self@.structs[struct_name@],
                        self@.structs.contains_key(struct_name@),
                        field_slot(self@, struct_name@, field@) is Some,
                        forall|j: int| 0 <= j < i ==> fs[j].0 != field@,
                    decreases fields@.len() - i,
                {
                    if str_eq(fields[i].0.as_str(), field) {
                        proof {
                            crate::codegen_ir::lemma_field_index(fs, field@, i as int);
                        }
                        return i as i64;
                    }
                    i = i + 1;
                }
                proof {
                    crate::codegen_ir::lemma_field_index(fs, field@, i as int);
                }
                0
            },
            None => 0,
        }
    }

    fn get_struct_type(&self, expr: &Expr) -> (r: String)
        requires
            struct_type(self@, expr@) is Some,
        ensures
            r@ == struct_type(self@, expr@).unwrap(),
    {
        proof {
            reveal_with_fuel(crate::ast::type_v, 3);
        }
        match expr {
            Expr::Variable(name) => {
                match self.types.get(name.as_str()) {
                    Some(t) => {
                        match t {
                            Type::Ptr(inner) => {
                                match &**inner {
                                    Type::Struct(s) => {
                                        return s.clone();
                                    },
                                    _ => {},
                                }
                            },
                            _ => {},
                        }
                    },
                    None => {},
                }
            },
            _ => {},
        }
        String::new()
    }
}

impl Interpreter {
    fn push_scope(&mut self)
        ensures
            final(self)@ == push_scope(old(self)@),
    {
        self.scopes.push(ScopeMap::new());
        assert(scope_entries(self.scopes@.last()) =~= Map::<Seq<char>, i64>::empty());
        assert(self@.scopes =~= old(self)@.scopes.push(Map::empty()));
    }

    fn pop_scope(&mut self)
        requires
            old(self)@.scopes.len() >= 1,
        ensures
            final(self)@ == pop_scope(old(self)@),
    {
        self.scopes.pop();
        assert(self@.scopes =~= old(self)@.scopes.drop_last());
    }

    /// `alloc_struct(S)`: zeroed words for the fields of `S`.
    fn alloc_struct(&mut self, args: &Vec<Expr>) -> (r: i64)
        requires
            alloc_struct(old(self)@, exprs_v(args@)) is Some,
            ok_state(old(self)@),
        ensures
            (r, final(self)@) == alloc_struct(old(self)@, exprs_v(args@)).unwrap(),
            ok_state(final(self)@),
            final(self)@.scopes.len() == old(self)@.scopes.len(),
    {
        proof {
            lemma_exprs_v(args@);
        }
        match &args[0] {
            Expr::Variable(sn) => {
                let n = match self.structs.get(sn.as_str()) {
                    Some(fields) => {
                        assert(crate::ast::fields_v(fields@).len() == fields@.len());
                        fields.len()
                    },
                    None => 0,
                };
                let len = self.memory.len();
                let base: i64 = (len as i64) + 1000;
                assert(base as int + n <= i64::MAX + 1);
                let ghost m0 = self@.memory;
                let mut i: i64 = 0;
                while (i as usize) < n
                    invariant
                        0 <= i <= n,
                        base >= 1000,
                        base as int + n <= i64::MAX + 1,
                        self@.memory == mem_fill(m0, base as int, i as nat),
                        self@.memory.dom().finite(),
                        self@ == (IState { memory: self@.memory, ..old(self)@ }),
                    decreases n - i,
                {
                    assert(mem_fill(m0, base as int, (i + 1) as nat) == mem_fill(m0, base as int, i as nat).insert(
                        (base + i) as i64,
                        0,
                    ));
                    self.memory.insert(base + i, 0);
                    i = i + 1;
                }
                base
            },
            _ => 0,
        }
    }

    fn mem_read(&self, a: i64) -> (r: i64)
        ensures
            r == mem_read(self@.memory, a),
    {
        match self.memory.get(a) {
            Some(v) => *v,
            None => 0,
        }
    }

    /// `l op r`.
    fn eval_binary(&mut self, l: &Expr, op: Op, r: &Expr, Ghost(g): Ghost<nat>) -> (v: i64)
        requires
            eval_binary(old(self)@, l@, op, r@, g) is Some,
            ok_state(old(self)@),
        ensures
            (v, final(self)@) == eval_binary(old(self)@, l@, op, r@, g).unwrap(),
            ok_state(final(self)@),
            final(self)@.scopes.len() == old(self)@.scopes.len(),
        decreases g, 1nat,
    {
        let lv = self.eval(l, Ghost(g));
        let rv = self.eval(r, Ghost(g));
        match op {
            Op::Add => lv.checked_add(rv).unwrap(),
            Op::Sub => lv.checked_sub(rv).unwrap(),
            Op::Mul => lv.checked_mul(rv).unwrap(),
            Op::Div => lv.checked_div(rv).unwrap(),
            Op::Eq => if lv == rv { 1 } else { 0 },
            Op::Neq => if lv != rv { 1 } else { 0 },
            Op::Lt => if lv < rv { 1 } else { 0 },
            Op::Gt => if lv > rv { 1 } else { 0 },
            Op::LtEq => if lv <= rv { 1 } else { 0 },
            Op::GtEq => if lv >= rv { 1 } else { 0 },
        }
    }

    /// `base[index]`.
    fn eval_index(&mut self, b: &Expr, i: &Expr, Ghost(g): Ghost<nat>) -> (v: i64)
        requires
            eval_index(old(self)@, b@, i@, g) is Some,
            ok_state(old(self)@),
        ensures
            (v, final(self)@) == eval_index(old(self)@, b@, i@, g).unwrap(),
            ok_state(final(self)@),
            final(self)@.scopes.len() == old(self)@.scopes.len(),
        decreases g, 1nat,
    {
        let bv = self.eval(b, Ghost(g));
        let iv = self.eval(i, Ghost(g));
        let addr = index_address(bv, iv);
        self.mem_read(addr)
    }

    /// `base.field`.
    fn eval_field(&mut self, b: &Expr, field: &String, Ghost(g): Ghost<nat>) -> (v: i64)
        requires
            eval_field(old(self)@, b@, field@, g) is Some,
            ok_state(old(self)@),
        ensures
            (v, final(self)@) == eval_field(old(self)@, b@, field@, g).unwrap(),
            ok_state(final(self)@),
            final(self)@.scopes.len() == old(self)@.scopes.len(),
        decreases g, 1nat,
    {
        let addr = self.eval(b, Ghost(g));
        let sn = self.get_struct_type(b);
        let off = self.field_offset(sn.as_str(), field.as_str());
        let a = addr.checked_add(off).unwrap();
        self.mem_read(a)
    }

    /// `eval`: the value of `e`.
    fn eval(&mut self, e: &Expr, Ghost(f): Ghost<nat>) -> (r: i64)
        requires
            eval(old(self)@, e@, f) is Some,
            ok_state(old(self)@),
        ensures
            (r, final(self)@) == eval(old(self)@, e@, f).unwrap(),
            ok_state(final(self)@),
            final(self)@.scopes.len() == old(self)@.scopes.len(),
        decreases f, 0nat,
    {
        let ghost g = (f - 1) as nat;
        match e {
            Expr::Number(n) => *n,
            Expr::Variable(name) => self.get(name.as_str()),
            Expr::Binary(l, op, r) => self.eval_binary(l, *op, r, Ghost(g)),
            Expr::Call(name, args) => {
                if str_eq(name.as_str(), "alloc_struct") {
                    return self.alloc_struct(args);
                }
                let vals = self.eval_args(args, Ghost(g));
                self.call(name.as_str(), vals, Ghost(g))
            },
            Expr::Peek(a) => {
                let addr = self.eval(a, Ghost(g));
                self.mem_read(addr)
            },
            Expr::Index(b, i) => self.eval_index(b, i, Ghost(g)),
            Expr::Field(b, field) => self.eval_field(b, field, Ghost(g)),
            Expr::Include(_, _) => {
                proof {
                    assert(false);
                }
                0
            },
        }
    }

    /// The arguments of a call, left to right.
    fn eval_args(&mut self, args: &Vec<Expr>, Ghost(f): Ghost<nat>) -> (r: Vec<i64>)
        requires
            eval_args(old(self)@, exprs_v(args@), f) is Some,
            ok_state(old(self)@),
        ensures
            (r@, final(self)@) == eval_args(old(self)@, exprs_v(args@), f).unwrap(),
            ok_state(final(self)@),
            final(self)@.scopes.len() == old(self)@.scopes.len(),
        decreases f, 0nat,
    {
        let ghost av = exprs_v(args@);
        let ghost goal = eval_args(self@, av, f).unwrap();
        let ghost mut g = f;
        proof {
            lemma_exprs_v(args@);
            assert(av.subrange(0, av.len() as int) =~= av);
        }
        let mut vals: Vec<i64> = Vec::new();
        let mut i: usize = 0;
        while i < args.len()
            invariant
                i <= args@.len(),
                av == exprs_v(args@),
                av.len() == args@.len(),
                g <= f,
                eval_args(self@, av.subrange(i as int, av.len() as int), g) is Some,
                (vals@ + eval_args(self@, av.subrange(i as int, av.len() as int), g).unwrap().0,
                    eval_args(self@, av.subrange(i as int, av.len() as int), g).unwrap().1) == goal,
                ok_state(self@),
                self@.scopes.len() == old(self)@.scopes.len(),
            decreases args@.len() - i,
        {
            let ghost sub = av.subrange(i as int, av.len() as int);
            proof {
                lemma_exprs_v(args@);
                assert(sub[0] == args@[i as int]@);
                assert(sub.subrange(1, sub.len() as int) =~= av.subrange(i + 1, av.len() as int));
            }
            let v = self.eval(&args[i], Ghost((g - 1) as nat));
            let ghost before = vals@;
            vals.push(v);
            proof {
                g = (g - 1) as nat;
                assert(vals@ =~= before + seq![v]);
                let rest = eval_args(self@, av.subrange(i + 1, av.len() as int), g).unwrap().0;
                assert(before + (seq![v] + rest) =~= vals@ + rest);
            }
            i = i + 1;
        }
        assert(av.subrange(av.len() as int, av.len() as int) =~= Seq::<ExprV>::empty());
        assert(vals@ =~= vals@ + Seq::<i64>::empty());
        vals
    }

    /// `call`: the result of calling `name` with `args`.
    fn call(&mut self, name: &str, args: Vec<i64>, Ghost(f): Ghost<nat>) -> (r: i64)
        requires
            call(old(self)@, name@, args@, f) is Some,
            ok_state(old(self)@),
        ensures
            (r, final(self)@) == call(old(self)@, name@, args@, f).unwrap(),
            ok_state(final(self)@),
            final(self)@.scopes.len() == old(self)@.scopes.len(),
        decreases f, 0nat,
    {
        let fs = match self.functions.get(name) {
            Some(s) => copy_stmt(s),
            None => {
                return 0;
            },
        };
        match fs {
            Stmt::Function { params, body, .. } => {
                let ghost pv = names_v(params@);
                let ghost s1 = push_scope(self@);
                self.push_scope();
                let mut i: usize = 0;
                assert(pv.take(0) =~= Seq::<Seq<char>>::empty());
                while i < params.len()
                    invariant
                        i <= params@.len(),
                        pv == names_v(params@),
                        self@ == bind_params(s1, pv.take(i as int), args@),
                        self@.scopes.len() == s1.scopes.len(),
                        s1.scopes.len() >= 2,
                        self@.memory == s1.memory,
                        s1.memory.dom().finite(),
                    decreases params@.len() - i,
                {
                    proof {
                        assert(pv.take(i + 1).drop_last() =~= pv.take(i as int));
                        assert(pv.take(i + 1).last() == params@[i as int]@);
                    }
                    let v = if i < args.len() {
                        args[i]
                    } else {
                        0
                    };
                    self.set(params[i].clone(), v, Type::I64);
                    i = i + 1;
                }
                assert(pv.take(params@.len() as int) =~= pv);
                let result = self.exec_block(&body, Ghost((f - 1) as nat));
                self.pop_scope();
                match result {
                    Control::Return(v) => v,
                    _ => 0,
                }
            },
            _ => 0,
        }
    }
}

impl Interpreter {
    /// `exec_block`: the statements in a new scope, up to the first that
    /// does not end normally.
    #[verifier::spinoff_prover]
    fn exec_block(&mut self, stmts: &Vec<Stmt>, Ghost(f): Ghost<nat>) -> (r: Control)
        requires
            exec_block(old(self)@, stmts_v(stmts@), f) is Some,
            ok_state(old(self)@),
        ensures
            (r, final(self)@) == exec_block(old(self)@, stmts_v(stmts@), f).unwrap(),
            ok_state(final(self)@),
            final(self)@.scopes.len() == old(self)@.scopes.len(),
        decreases f, 0nat,
    {
        let ghost sv = stmts_v(stmts@);
        let ghost goal = block_loop(push_scope(self@), sv, (f - 1) as nat);
        let ghost mut g = (f - 1) as nat;
        self.push_scope();
        proof {
            lemma_stmts_v(stmts@);
            assert(sv.subrange(0, sv.len() as int) =~= sv);
        }
        let mut i: usize = 0;
        while i < stmts.len()
            invariant
                i <= stmts@.len(),
                sv == stmts_v(stmts@),
                sv.len() == stmts@.len(),
                g < f,
                goal is Some,
                block_loop(self@, sv.subrange(i as int, sv.len() as int), g) == goal,
                ok_state(self@),
                self@.scopes.len() == old(self)@.scopes.len() + 1,
                old(self)@.scopes.len() >= 1,
                goal == block_loop(push_scope(old(self)@), stmts_v(stmts@), (f - 1) as nat),
            decreases stmts@.len() - i,
        {
            let ghost sub = sv.subrange(i as int, sv.len() as int);
            proof {
                lemma_stmts_v(stmts@);
                assert(sub[0] == stmts@[i as int]@);
                assert(sub.subrange(1, sub.len() as int) =~= sv.subrange(i + 1, sv.len() as int));
                lemma_block_step(self@, sub, g);
            }
            let c = self.exec(&stmts[i], Ghost((g - 1) as nat));
            if c != Control::Normal {
                let ghost before = self@;
                assert(before.scopes.len() >= 2);
                self.pop_scope();
                assert(self@.scopes.len() == before.scopes.len() - 1);
                assert(self@.memory == before.memory);
                return c;
            }
            proof {
                g = (g - 1) as nat;
            }
            i = i + 1;
        }
        assert(sv.subrange(sv.len() as int, sv.len() as int) =~= Seq::<StmtV>::empty());
        proof {
            lemma_block_step(self@, Seq::<StmtV>::empty(), g);
        }
        self.pop_scope();
        Control::Normal
    }

    /// The rounds of a loop: until `break` or `return`.
    fn loop_rounds(&mut self, body: &Vec<Stmt>, Ghost(f): Ghost<nat>) -> (r: Control)
        requires
            loop_rounds(old(self)@, stmts_v(body@), f) is Some,
            ok_state(old(self)@),
        ensures
            (r, final(self)@) == loop_rounds(old(self)@, stmts_v(body@), f).unwrap(),
            ok_state(final(self)@),
            final(self)@.scopes.len() == old(self)@.scopes.len(),
        decreases f, 0nat,
    {
        let ghost goal = loop_rounds(self@, stmts_v(body@), f);
        let ghost mut g = f;
        loop
            invariant
                g <= f,
                goal is Some,
                loop_rounds(self@, stmts_v(body@), g) == goal,
                goal == loop_rounds(old(self)@, stmts_v(body@), f),
                ok_state(self@),
                self@.scopes.len() == old(self)@.scopes.len(),
            decreases g,
        {
            let c = self.exec_block(body, Ghost((g - 1) as nat));
            match c {
                Control::Break => {
                    return Control::Normal;
                },
                Control::Return(v) => {
                    return Control::Return(v);
                },
                _ => {},
            }
            proof {
                g = (g - 1) as nat;
            }
        }
    }

    /// `let name: ty = value;`
    fn exec_let(&mut self, name: &String, ty: &Option<Type>, value: &Expr, Ghost(g): Ghost<nat>) -> (r: Control)
        requires
            exec_let(old(self)@, name@, match ty { Some(t) => Some(t@), None => None }, value@, g) is Some,
            ok_state(old(self)@),
        ensures
            (r, final(self)@) == exec_let(old(self)@, name@, match ty { Some(t) => Some(t@), None => None }, value@, g).unwrap(),
            ok_state(final(self)@),
            final(self)@.scopes.len() == old(self)@.scopes.len(),
        decreases g, 1nat,
    {
        let v = self.eval(value, Ghost(g));
        let inferred: Type = match value {
            Expr::Call(nc, args) => {
                if str_eq(nc.as_str(), "alloc_struct") {
                    proof {
                        lemma_exprs_v(args@);
                    }
                    if args.len() > 0 {
                        match &args[0] {
                            Expr::Variable(sn) => Type::Ptr(Box::new(Type::Struct(sn.clone()))),
                            _ => Type::Ptr(Box::new(Type::I64)),
                        }
                    } else {
                        Type::Ptr(Box::new(Type::I64))
                    }
                } else {
                    match ty {
                        Some(t) => t.clone(),
                        None => Type::I64,
                    }
                }
            },
            _ => match ty {
                Some(t) => t.clone(),
                None => Type::I64,
            },
        };
        proof {
            reveal_with_fuel(crate::ast::type_v, 3);
        }
        assert(inferred@ == let_type_of(value@, match ty { Some(t) => Some(t@), None => None }));
        self.set(name.clone(), v, inferred);
        Control::Normal
    }

    /// `name = e;`
    fn exec_assign(&mut self, name: &String, e: &Expr, Ghost(g): Ghost<nat>) -> (r: Control)
        requires
            exec_assign(old(self)@, name@, e@, g) is Some,
            ok_state(old(self)@),
        ensures
            (r, final(self)@) == exec_assign(old(self)@, name@, e@, g).unwrap(),
            ok_state(final(self)@),
            final(self)@.scopes.len() == old(self)@.scopes.len(),
        decreases g, 1nat,
    {
        let v = self.eval(e, Ghost(g));
        proof {
            let sc = self@.scopes;
            lemma_assign_len(sc, name@, v);
        }
        self.assign(name.clone(), v);
        Control::Normal
    }

    /// `base[index] = value;`
    fn exec_assign_index(&mut self, base: &Expr, index: &Expr, value: &Expr, Ghost(g): Ghost<nat>) -> (r: Control)
        requires
            exec_assign_index(old(self)@, base@, index@, value@, g) is Some,
            ok_state(old(self)@),
        ensures
            (r, final(self)@) == exec_assign_index(old(self)@, base@, index@, value@, g).unwrap(),
            ok_state(final(self)@),
            final(self)@.scopes.len() == old(self)@.scopes.len(),
        decreases g, 1nat,
    {
        let b = self.eval(base, Ghost(g));
        let i = self.eval(index, Ghost(g));
        let v = self.eval(value, Ghost(g));
        let a = index_address(b, i);
        self.memory.insert(a, v);
        Control::Normal
    }

    /// `base.field = value;`
    fn exec_assign_field(&mut self, base: &Expr, field: &String, value: &Expr, Ghost(g): Ghost<nat>) -> (r: Control)
        requires
            exec_assign_field(old(self)@, base@, field@, value@, g) is Some,
            ok_state(old(self)@),
        ensures
            (r, final(self)@) == exec_assign_field(old(self)@, base@, field@, value@, g).unwrap(),
            ok_state(final(self)@),
            final(self)@.scopes.len() == old(self)@.scopes.len(),
        decreases g, 1nat,
    {
        let addr = self.eval(base, Ghost(g));
        let val = self.eval(value, Ghost(g));
        let sn = self.get_struct_type(base);
        let off = self.field_offset(sn.as_str(), field.as_str());
        let a = addr.checked_add(off).unwrap();
        self.memory.insert(a, val);
        Control::Normal
    }

    /// `poke(a, v);`
    fn exec_poke(&mut self, a: &Expr, v: &Expr, Ghost(g): Ghost<nat>) -> (r: Control)
        requires
            exec_poke(old(self)@, a@, v@, g) is Some,
            ok_state(old(self)@),
        ensures
            (r, final(self)@) == exec_poke(old(self)@, a@, v@, g).unwrap(),
            ok_state(final(self)@),
            final(self)@.scopes.len() == old(self)@.scopes.len(),
        decreases g, 1nat,
    {
        let av = self.eval(a, Ghost(g));
        let vv = self.eval(v, Ghost(g));
        self.memory.insert(av, vv);
        Control::Normal
    }

    /// `if`.
    fn exec_if(
        &mut self,
        cond: &Expr,
        then_branch: &Vec<Stmt>,
        elif: &Vec<(Expr, Vec<Stmt>)>,
        else_branch: &Option<Vec<Stmt>>,
        Ghost(g): Ghost<nat>,
    ) -> (r: Control)
        requires
            exec_if(old(self)@, cond@, stmts_v(then_branch@), elifs_v(elif@), match else_branch { Some(b) => Some(stmts_v(b@)), None => None }, g) is Some,
            ok_state(old(self)@),
        ensures
            (r, final(self)@) == exec_if(old(self)@, cond@, stmts_v(then_branch@), elifs_v(elif@), match else_branch { Some(b) => Some(stmts_v(b@)), None => None }, g).unwrap(),
            ok_state(final(self)@),
            final(self)@.scopes.len() == old(self)@.scopes.len(),
        decreases g, 1nat,
    {
        let c = self.eval(cond, Ghost(g));
        if c != 0 {
            return self.exec_block(then_branch, Ghost(g));
        }
        self.elif_chain(elif, else_branch, Ghost(g))
    }

    /// The `elif` branches in order, then the `else` block.
    fn elif_chain(
        &mut self,
        elif: &Vec<(Expr, Vec<Stmt>)>,
        else_branch: &Option<Vec<Stmt>>,
        Ghost(f): Ghost<nat>,
    ) -> (r: Control)
        requires
            elif_chain(old(self)@, elifs_v(elif@), match else_branch { Some(b) => Some(stmts_v(b@)), None => None }, f) is Some,
            ok_state(old(self)@),
        ensures
            (r, final(self)@) == elif_chain(old(self)@, elifs_v(elif@), match else_branch { Some(b) => Some(stmts_v(b@)), None => None }, f).unwrap(),
            ok_state(final(self)@),
            final(self)@.scopes.len() == old(self)@.scopes.len(),
        decreases f, 0nat,
    {
        let ghost ev = elifs_v(elif@);
        let ghost eb = match else_branch { Some(b) => Some(stmts_v(b@)), None => None };
        let ghost goal = elif_chain(self@, ev, eb, f);
        let ghost mut g = f;
        proof {
            lemma_elifs_v(elif@);
            assert(ev.subrange(0, ev.len() as int) =~= ev);
        }
        let mut i: usize = 0;
        while i < elif.len()
            invariant
                i <= elif@.len(),
                ev == elifs_v(elif@),
                ev.len() == elif@.len(),
                g <= f,
                goal is Some,
                elif_chain(self@, ev.subrange(i as int, ev.len() as int), eb, g) == goal,
                goal == elif_chain(old(self)@, elifs_v(elif@), eb, f),
                eb == (match else_branch { Some(b) => Some(stmts_v(b@)), None => None }),
                ok_state(self@),
                self@.scopes.len() == old(self)@.scopes.len(),
            decreases elif@.len() - i,
        {
            let ghost sub = ev.subrange(i as int, ev.len() as int);
            proof {
                lemma_elifs_v(elif@);
                assert(sub[0] == (elif@[i as int].0@, stmts_v(elif@[i as int].1@)));
                assert(sub.subrange(1, sub.len() as int) =~= ev.subrange(i + 1, ev.len() as int));
            }
            let c = self.eval(&elif[i].0, Ghost((g - 1) as nat));
            if c != 0 {
                return self.exec_block(&elif[i].1, Ghost((g - 1) as nat));
            }
            proof {
                g = (g - 1) as nat;
            }
            i = i + 1;
        }
        assert(ev.subrange(ev.len() as int, ev.len() as int) =~= Seq::<(ExprV, Seq<StmtV>)>::empty());
        match else_branch {
            Some(b) => self.exec_block(b, Ghost((g - 1) as nat)),
            None => Control::Normal,
        }
    }

    /// `exec`: how a statement ends.
    fn exec(&mut self, stmt: &Stmt, Ghost(f): Ghost<nat>) -> (r: Control)
        requires
            exec(old(self)@, stmt@, f) is Some,
            ok_state(old(self)@),
        ensures
            (r, final(self)@) == exec(old(self)@, stmt@, f).unwrap(),
            ok_state(final(self)@),
            final(self)@.scopes.len() == old(self)@.scopes.len(),
        decreases f, 0nat,
    {
        let ghost g = (f - 1) as nat;
        match stmt {
            Stmt::Let { name, ty, value } => self.exec_let(name, ty, value, Ghost(g)),
            Stmt::Assign(name, e) => self.exec_assign(name, e, Ghost(g)),
            Stmt::AssignIndex { base, index, value } => self.exec_assign_index(base, index, value, Ghost(g)),
            Stmt::AssignField { base, field, value } => self.exec_assign_field(base, field, value, Ghost(g)),
            Stmt::Struct { name, fields } => {
                self.structs.insert(name.clone(), copy_fields(fields));
                Control::Normal
            },
            Stmt::Return(e) => {
                let v = self.eval(e, Ghost(g));
                Control::Return(v)
            },
            Stmt::Expr(e) => {
                self.eval(e, Ghost(g));
                Control::Normal
            },
            Stmt::Poke(a, v) => self.exec_poke(a, v, Ghost(g)),
            Stmt::If { cond, then_branch, elif, else_branch } => self.exec_if(cond, then_branch, elif, else_branch, Ghost(g)),
            Stmt::Loop(body) => self.loop_rounds(body, Ghost(g)),
            Stmt::Break => Control::Break,
            Stmt::Continue => Control::Continue,
            _ => Control::Normal,
        }
    }

    /// Executes a list of statements and returns the exit code of the `main`
    /// function.
    pub fn run(&mut self, stmts: &[Stmt]) -> (r: i64)
        requires
            ok_state(old(self)@),
            runs(old(self)@, stmts_v(stmts@)),
        ensures
            (r, final(self)@) == run_result(old(self)@, stmts_v(stmts@)),
    {
        let ghost sv = stmts_v(stmts@);
        proof {
            lemma_stmts_v(stmts@);
        }
        let mut i: usize = 0;
        assert(sv.take(0) =~= Seq::<StmtV>::empty());
        while i < stmts.len()
            invariant
                i <= stmts@.len(),
                sv == stmts_v(stmts@),
                sv.len() == stmts@.len(),
                self@ == register(old(self)@, sv.take(i as int)),
                ok_state(self@),
            decreases stmts@.len() - i,
        {
            proof {
                lemma_stmts_v(stmts@);
                assert(sv.take(i + 1).drop_last() =~= sv.take(i as int));
                assert(sv.take(i + 1).last() == stmts@[i as int]@);
            }
            match &stmts[i] {
                Stmt::Function { name, .. } => {
                    self.functions.insert(name.clone(), copy_stmt(&stmts[i]));
                },
                Stmt::Struct { name, fields } => {
                    self.structs.insert(name.clone(), copy_fields(fields));
                },
                _ => {},
            }
            i = i + 1;
        }
        assert(sv.take(stmts@.len() as int) =~= sv);
        let ghost f = choose|f: nat| (#[trigger] run_with(old(self)@, sv, f)) is Some;
        let main = String::from_str("main");
        proof {
            reveal_strlit("main");
        }
        self.call(main.as_str(), Vec::new(), Ghost(f))
    }
}

} // verus!
