//! Intermediate Representation (IR) generation.
//!
//! This module contains the [`IRGenerator`] which lowers the AST into
//! a flat, three-address-style [`IRInst`] sequence. Each method is proved to
//! do what the function of the same name in [`crate::codegen_spec`] says.
use vstd::prelude::*;
use vstd::string::*;
use crate::ast::{
    Expr, Op, Stmt, Type, TypeV, ExprV, StmtV, exprs_v, stmts_v, elifs_v, names_v, fields_v,
    copy_names, copy_fields, copy_type, lemma_exprs_v, lemma_stmts_v, lemma_elifs_v,
};
use crate::ir::{IRInst, IRInstV, insts_v};
use crate::lexer::msgs;
use crate::maps::{ParamMap, StructMap, TypeMap, param_entries, struct_entries, type_entries};
use crate::codegen_spec::{
    GState, temp_name, label_name, emit, report, fresh_temp, fresh_label, bin_inst, struct_size,
    infer_expr_type, field_index, field_offset, gen_expr, gen_args, gen_index_addr, gen_field_addr,
    gen_stmt, gen_stmts, gen_elifs, fits, grows, structs_within, lemma_gen_expr_grows, expr_size,
    args_size, lemma_args_size,
    lemma_gen_args_grows, lemma_gen_index_addr_grows, lemma_gen_field_addr_grows,
    lemma_gen_stmt_grows, lemma_gen_stmts_grows, lemma_gen_elifs_grows,
};
use crate::text::{push_count, str_eq};

verus! {

/// The names of a loop stack.
pub open spec fn loops_v(s: Seq<(String, String)>) -> Seq<(Seq<char>, Seq<char>)> {
    s.map_values(|p: (String, String)| (p.0@, p.1@))
}

/// State for generating Intermediate Representation from the AST.
pub struct IRGenerator {
    temp_count: usize,
    label_count: usize,
    /// The generated list of IR instructions.
    pub code: Vec<IRInst>,
    /// Metadata about function parameters, used for backend code generation.
    pub function_params: ParamMap,
    structs: StructMap,
    var_types: TypeMap,
    loop_stack: Vec<(String, String)>,
    position: u64,
    /// Messages reported while generating.
    pub diagnostics: Vec<String>,
    widest: Ghost<nat>,
}

impl View for IRGenerator {
    type V = GState;

    closed spec fn view(&self) -> GState {
        GState {
            temp_count: self.temp_count as int,
            label_count: self.label_count as int,
            code: insts_v(self.code@),
            function_params: param_entries(self.function_params),
            structs: struct_entries(self.structs),
            var_types: type_entries(self.var_types),
            loop_stack: loops_v(self.loop_stack@),
            position: self.position as int,
            msgs: msgs(self.diagnostics@),
            widest: self.widest@,
        }
    }
}

impl IRGenerator {
    /// The generated code, the function parameter table and the messages.
    pub fn into_parts(self) -> (r: (Vec<IRInst>, ParamMap, Vec<String>))
        ensures
            insts_v(r.0@) == self@.code,
            param_entries(r.1) == self@.function_params,
            msgs(r.2@) == self@.msgs,
    {
        (self.code, self.function_params, self.diagnostics)
    }

    /// Creates a new IRGenerator.
    pub fn new() -> (r: Self)
        ensures
            r@ == (GState {
                temp_count: 0,
                label_count: 0,
                code: Seq::empty(),
                function_params: Map::empty(),
                structs: Map::empty(),
                var_types: Map::empty(),
                loop_stack: Seq::empty(),
                position: 0,
                msgs: Seq::empty(),
                widest: 0,
            }),
            structs_within(r@),
    {
        let r = Self {
            temp_count: 0,
            label_count: 0,
            code: Vec::new(),
            function_params: ParamMap::new(),
            structs: StructMap::new(),
            var_types: TypeMap::new(),
            loop_stack: Vec::new(),
            position: 0,
            diagnostics: Vec::new(),
            widest: Ghost(0),
        };
        assert(r@.code =~= Seq::empty());
        assert(r@.msgs =~= Seq::empty());
        assert(r@.loop_stack =~= Seq::empty());
        assert(r@.function_params =~= Map::empty());
        assert(r@.structs =~= Map::empty());
        assert(r@.var_types =~= Map::empty());
        r
    }

    fn emit(&mut self, i: IRInst)
        ensures
            final(self)@ == emit(old(self)@, i@),
    {
        self.code.push(i);
        assert(insts_v(self.code@) =~= insts_v(old(self).code@).push(i@));
    }

    fn report(&mut self, m: String)
        ensures
            final(self)@ == report(old(self)@, m@),
    {
        self.diagnostics.push(m);
        assert(msgs(self.diagnostics@) =~= msgs(old(self).diagnostics@).push(m@));
    }

    fn temp(&mut self) -> (r: String)
        requires
            old(self).temp_count < usize::MAX,
        ensures
            (r@, final(self)@) == fresh_temp(old(self)@),
    {
        let mut t = String::from_str("t");
        push_count(&mut t, self.temp_count);
        proof {
            reveal_strlit("t");
        }
        assert(t@ =~= temp_name(self.temp_count as int));
        self.temp_count = self.temp_count + 1;
        t
    }

    fn label(&mut self) -> (r: String)
        requires
            old(self).label_count < usize::MAX,
        ensures
            (r@, final(self)@) == fresh_label(old(self)@),
    {
        let mut l = String::from_str("L");
        push_count(&mut l, self.label_count);
        proof {
            reveal_strlit("L");
        }
        assert(l@ =~= label_name(self.label_count as int));
        self.label_count = self.label_count + 1;
        l
    }
}

/// The instruction computing `op`.
fn bin_of(op: Op, out: String, l: String, r: String) -> (i: IRInst)
    ensures
        i@ == bin_inst(op, out@, l@, r@),
{
    match op {
        Op::Add => IRInst::Add(out, l, r),
        Op::Sub => IRInst::Sub(out, l, r),
        Op::Mul => IRInst::Mul(out, l, r),
        Op::Div => IRInst::Div(out, l, r),
        Op::Eq => IRInst::Eq(out, l, r),
        Op::Neq => IRInst::Neq(out, l, r),
        Op::Lt => IRInst::Lt(out, l, r),
        Op::Gt => IRInst::Gt(out, l, r),
        Op::LtEq => IRInst::LtEq(out, l, r),
        Op::GtEq => IRInst::GtEq(out, l, r),
    }
}


pub(crate) proof fn lemma_field_index(fs: Seq<(Seq<char>, TypeV)>, f: Seq<char>, i: int)
    requires
        0 <= i <= fs.len(),
        forall|j: int| 0 <= j < i ==> fs[j].0 != f,
    ensures
        i < fs.len() && fs[i].0 == f ==> field_index(fs, f) == Some(i),
        i == fs.len() ==> field_index(fs, f) is None,
    decreases fs.len(),
{
    if fs.len() > 0 && i > 0 {
        lemma_field_index(fs.subrange(1, fs.len() as int), f, i - 1);
    }
}

impl IRGenerator {
    fn infer_expr_type(&self, expr: &Expr) -> (r: Option<Type>)
        ensures
            match r {
                Some(t) => infer_expr_type(expr@) == Some(t@),
                None => infer_expr_type(expr@) is None,
            },
    {
        match expr {
            Expr::Call(name, args) => {
                if str_eq(name.as_str(), "alloc_struct") {
                    proof {
                        lemma_exprs_v(args@);
                        reveal_with_fuel(crate::ast::type_v, 3);
                    }
                    if args.len() > 0 {
                        match &args[0] {
                            Expr::Variable(sn) => {
                                return Some(Type::Ptr(Box::new(Type::Struct(sn.clone()))));
                            },
                            _ => {},
                        }
                    }
                    Some(Type::Ptr(Box::new(Type::I64)))
                } else {
                    None
                }
            },
            _ => None,
        }
    }

    fn struct_size(&mut self, args: &Vec<Expr>) -> (r: i64)
        requires
            structs_within(old(self)@),
            old(self)@.widest * 8 <= i64::MAX,
        ensures
            (r as int, final(self)@) == struct_size(old(self)@, exprs_v(args@)),
    {
        proof {
            lemma_exprs_v(args@);
        }
        if args.len() > 0 {
            match &args[0] {
                Expr::Variable(sn) => {
                    match self.structs.get(sn.as_str()) {
                        Some(fields) => {
                            proof {
                                assert(fields_v(fields@).len() == fields@.len());
                            }
                            return (fields.len() as i64) * 8;
                        },
                        None => {},
                    }
                },
                _ => {},
            }
        }
        self.report(String::from_str("alloc_struct expects a known struct name"));
        8
    }

    #[verifier::loop_isolation(false)]
    fn field_offset(&mut self, base: &Expr, field: &String) -> (r: i64)
        requires
            structs_within(old(self)@),
            old(self)@.widest * 8 <= i64::MAX,
        ensures
            (r as int, final(self)@) == field_offset(old(self)@, base@, field@),
    {
        proof {
            reveal_with_fuel(crate::ast::type_v, 3);
        }
        match base {
            Expr::Variable(name) => {
                match self.var_types.get(name.as_str()) {
                    Some(t) => {
                        match t {
                            Type::Ptr(inner) => {
                                match &**inner {
                                    Type::Struct(sn) => {
                                        match self.structs.get(sn.as_str()) {
                                            Some(fields) => {
                                                let ghost fs = fields_v(fields@);
                                                let mut i: usize = 0;
                                                while i < fields.len()
                                                    invariant
                                                        i <= fields@.len(),
                                                        fs == fields_v(fields@),
                                                        forall|j: int| 0 <= j < i ==> fs[j].0 != field@,
                                                    decreases fields@.len() - i,
                                                {
                                                    if str_eq(fields[i].0.as_str(), field.as_str()) {
                                                        proof {
                                                            lemma_field_index(fs, field@, i as int);
                                                        }
                                                        assert((i as int) * 8 <= i64::MAX);
                                                        return (i as i64) * 8;
                                                    }
                                                    i = i + 1;
                                                }
                                                proof {
                                                    lemma_field_index(fs, field@, i as int);
                                                }
                                            },
                                            None => {},
                                        }
                                    },
                                    _ => {},
                                }
                            },
                            _ => {},
                        }
                    },
                    None => {},
                }
            },
            _ => {},
        }
        let mut m = String::from_str("unknown field ");
        m.append(field.as_str());
        self.report(m);
        0
    }
}


impl IRGenerator {
    #[verifier::loop_isolation(false)]
    fn gen_expr_ref(&mut self, e: &Expr) -> (r: String)
        requires
            structs_within(old(self)@),
            fits(gen_expr(old(self)@, e@).1),
        ensures
            (r@, final(self)@) == gen_expr(old(self)@, e@),
            structs_within(final(self)@),
        decreases expr_size(e@),
    {
        proof {
            lemma_gen_expr_grows(self@, e@);
        }
        match e {
            Expr::Number(n) => {
                let t = self.temp();
                self.emit(IRInst::LoadConst(t.clone(), *n));
                t
            },
            Expr::Variable(name) => {
                let t = self.temp();
                self.emit(IRInst::LoadVar(t.clone(), name.clone()));
                t
            },
            Expr::Binary(l, op, r) => {
                proof {
                    lemma_gen_expr_grows(self@, l@);
                    lemma_gen_expr_grows(gen_expr(self@, l@).1, r@);
                }
                let lv = self.gen_expr_ref(l);
                let rv = self.gen_expr_ref(r);
                let out = self.temp();
                self.emit(bin_of(*op, out.clone(), lv, rv));
                out
            },
            Expr::Call(name, args) => {
                if str_eq(name.as_str(), "alloc_struct") {
                    let out = self.temp();
                    let size = self.struct_size(args);
                    self.emit(IRInst::StackAlloc(out.clone(), size));
                    return out;
                }
                let ghost start = self@;
                let ghost av = exprs_v(args@);
                let ghost goal = gen_args(start, av);
                proof {
                    lemma_exprs_v(args@);
                    lemma_gen_args_grows(start, av);
                    assert(av.subrange(0, av.len() as int) =~= av);
                }
                let mut vals: Vec<String> = Vec::new();
                let mut i: usize = 0;
                while i < args.len()
                    invariant
                        i <= args@.len(),
                        av == exprs_v(args@),
                        av.len() == args@.len(),
                        structs_within(self@),
                        (names_v(vals@) + gen_args(self@, av.subrange(i as int, av.len() as int)).0,
                            gen_args(self@, av.subrange(i as int, av.len() as int)).1) == goal,
                        grows(goal.1, gen_expr(start, e@).1),
                    decreases args@.len() - i,
                {
                    let ghost sub = av.subrange(i as int, av.len() as int);
                    proof {
                        lemma_args_size(av, i as int);
                        assert(sub[0] == args@[i as int]@);
                        assert(sub.subrange(1, sub.len() as int) =~= av.subrange(i + 1, av.len() as int));
                        lemma_gen_expr_grows(self@, sub[0]);
                        lemma_gen_args_grows(gen_expr(self@, sub[0]).1, sub.subrange(1, sub.len() as int));
                    }
                    let v = self.gen_expr_ref(&args[i]);
                    proof {
                        lemma_names_push_seq(vals@, v);
                    }
                    vals.push(v);
                    i = i + 1;
                }
                assert(av.subrange(av.len() as int, av.len() as int) =~= Seq::<ExprV>::empty());
                assert(names_v(vals@) =~= names_v(vals@) + Seq::<Seq<char>>::empty());
                let out = self.temp();
                self.emit(IRInst::Call(out.clone(), name.clone(), vals));
                out
            },
            Expr::Peek(a) => {
                proof {
                    lemma_gen_expr_grows(self@, a@);
                }
                let av = self.gen_expr_ref(a);
                let out = self.temp();
                self.emit(IRInst::LoadMem(out.clone(), av));
                out
            },
            Expr::Index(b, i) => {
                proof {
                    lemma_gen_index_addr_grows(self@, e@);
                }
                let addr = self.gen_index_addr(b, i);
                let out = self.temp();
                self.emit(IRInst::LoadMem(out.clone(), addr));
                out
            },
            Expr::Field(b, f) => {
                proof {
                    lemma_gen_field_addr_grows(self@, e@);
                }
                let addr = self.gen_field_addr(b, f);
                let out = self.temp();
                self.emit(IRInst::LoadMem(out.clone(), addr));
                out
            },
            Expr::Include(_, _) => String::new(),
        }
    }

    fn gen_index_addr(&mut self, base: &Expr, index: &Expr) -> (r: String)
        requires
            structs_within(old(self)@),
            fits(gen_index_addr(old(self)@, ExprV::Index(Box::new(base@), Box::new(index@))).1),
        ensures
            (r@, final(self)@) == gen_index_addr(
                old(self)@,
                ExprV::Index(Box::new(base@), Box::new(index@)),
            ),
            structs_within(final(self)@),
        decreases expr_size(base@) + expr_size(index@) + 1,
    {
        proof {
            lemma_gen_expr_grows(self@, base@);
            lemma_gen_expr_grows(gen_expr(self@, base@).1, index@);
        }
        let bv = self.gen_expr_ref(base);
        let iv = self.gen_expr_ref(index);
        let scale = self.temp();
        let addr = self.temp();
        self.emit(IRInst::LoadConst(scale.clone(), 8));
        self.emit(IRInst::Mul(scale.clone(), iv, scale.clone()));
        self.emit(IRInst::Add(addr.clone(), bv, scale));
        addr
    }

    fn gen_field_addr(&mut self, base: &Expr, field: &String) -> (r: String)
        requires
            structs_within(old(self)@),
            fits(gen_field_addr(old(self)@, ExprV::Field(Box::new(base@), field@)).1),
        ensures
            (r@, final(self)@) == gen_field_addr(old(self)@, ExprV::Field(Box::new(base@), field@)),
            structs_within(final(self)@),
        decreases expr_size(base@) + 1,
    {
        proof {
            lemma_gen_field_addr_grows(self@, ExprV::Field(Box::new(base@), field@));
        }
        let offset = self.field_offset(base, field);
        proof {
            lemma_gen_expr_grows(self@, base@);
        }
        let bv = self.gen_expr_ref(base);
        if offset == 0 {
            return bv;
        }
        let ot = self.temp();
        let addr = self.temp();
        self.emit(IRInst::LoadConst(ot.clone(), offset));
        self.emit(IRInst::Add(addr.clone(), bv, ot));
        addr
    }
}

proof fn lemma_names_push_seq(s: Seq<String>, x: String)
    ensures
        names_v(s.push(x)) == names_v(s) + seq![x@],
{
    assert(names_v(s.push(x)) =~= names_v(s) + seq![x@]);
}


impl IRGenerator {
    /// Generates IR for a complete program (list of statements).
    pub fn gen_program(&mut self, stmts: &[Stmt])
        requires
            structs_within(old(self)@),
            fits(gen_stmts(old(self)@, stmts_v(stmts@))),
        ensures
            final(self)@ == gen_stmts(old(self)@, stmts_v(stmts@)),
            structs_within(final(self)@),
    {
        let ghost sv = stmts_v(stmts@);
        let ghost goal = gen_stmts(self@, sv);
        proof {
            lemma_stmts_v(stmts@);
            assert(sv.subrange(0, sv.len() as int) =~= sv);
        }
        let mut i: usize = 0;
        while i < stmts.len()
            invariant
                i <= stmts@.len(),
                sv == stmts_v(stmts@),
                sv.len() == stmts@.len(),
                structs_within(self@),
                gen_stmts(self@, sv.subrange(i as int, sv.len() as int)) == goal,
                fits(goal),
            decreases stmts@.len() - i,
        {
            let ghost sub = sv.subrange(i as int, sv.len() as int);
            proof {
                lemma_stmts_v(stmts@);
                assert(sub[0] == stmts@[i as int]@);
                assert(sub.subrange(1, sub.len() as int) =~= sv.subrange(i + 1, sv.len() as int));
                lemma_gen_stmts_grows(gen_stmt(self@, sub[0]), sub.subrange(1, sub.len() as int));
            }
            self.gen_stmt(stmts[i].clone());
            i = i + 1;
        }
        assert(sv.subrange(sv.len() as int, sv.len() as int) =~= Seq::<StmtV>::empty());
    }

    /// Generates IR for one statement.
    pub fn gen_stmt(&mut self, stmt: Stmt)
        requires
            structs_within(old(self)@),
            fits(gen_stmt(old(self)@, stmt@)),
        ensures
            final(self)@ == gen_stmt(old(self)@, stmt@),
            structs_within(final(self)@),
    {
        self.gen_stmt_ref(&stmt);
    }

    /// Generates IR for an expression; returns the temporary holding its value.
    pub fn gen_expr(&mut self, expr: Expr) -> (r: String)
        requires
            structs_within(old(self)@),
            fits(gen_expr(old(self)@, expr@).1),
        ensures
            (r@, final(self)@) == gen_expr(old(self)@, expr@),
            structs_within(final(self)@),
    {
        self.gen_expr_ref(&expr)
    }

    fn gen_stmts_ref(&mut self, ss: &Vec<Stmt>)
        requires
            structs_within(old(self)@),
            fits(gen_stmts(old(self)@, stmts_v(ss@))),
        ensures
            final(self)@ == gen_stmts(old(self)@, stmts_v(ss@)),
            structs_within(final(self)@),
        decreases ss,
    {
        let ghost sv = stmts_v(ss@);
        let ghost goal = gen_stmts(self@, sv);
        proof {
            lemma_stmts_v(ss@);
            assert(sv.subrange(0, sv.len() as int) =~= sv);
        }
        let mut i: usize = 0;
        while i < ss.len()
            invariant
                i <= ss@.len(),
                sv == stmts_v(ss@),
                sv.len() == ss@.len(),
                structs_within(self@),
                gen_stmts(self@, sv.subrange(i as int, sv.len() as int)) == goal,
                fits(goal),
            decreases ss@.len() - i,
        {
            let ghost sub = sv.subrange(i as int, sv.len() as int);
            proof {
                lemma_stmts_v(ss@);
                assert(sub[0] == ss@[i as int]@);
                assert(sub.subrange(1, sub.len() as int) =~= sv.subrange(i + 1, sv.len() as int));
                lemma_gen_stmts_grows(gen_stmt(self@, sub[0]), sub.subrange(1, sub.len() as int));
                assert(decreases_to!(*ss => ss@));
                assert(decreases_to!(ss@ => ss@[i as int]));
            }
            self.gen_stmt_ref(&ss[i]);
            i = i + 1;
        }
        assert(sv.subrange(sv.len() as int, sv.len() as int) =~= Seq::<StmtV>::empty());
    }

    #[verifier::loop_isolation(false)]
    #[verifier::rlimit(60)]
    fn gen_stmt_ref(&mut self, s: &Stmt)
        requires
            structs_within(old(self)@),
            fits(gen_stmt(old(self)@, s@)),
        ensures
            final(self)@ == gen_stmt(old(self)@, s@),
            structs_within(final(self)@),
        decreases s,
    {
        proof {
            lemma_gen_stmt_grows(old(self)@, s@);
        }
        self.position = self.position + 1;
        let ghost g0 = self@;
        match s {
            Stmt::Let { name, ty: _, value } => {
                let inferred = self.infer_expr_type(value);
                let v = self.gen_expr_ref(value);
                self.emit(IRInst::StoreVar(name.clone(), v));
                match inferred {
                    Some(t) => {
                        self.var_types.insert(name.clone(), t);
                    },
                    None => {},
                }
            },
            Stmt::Assign(name, value) => {
                let v = self.gen_expr_ref(value);
                self.emit(IRInst::StoreVar(name.clone(), v));
            },
            Stmt::Return(e) => {
                let v = self.gen_expr_ref(e);
                self.emit(IRInst::Return(v));
            },
            Stmt::Expr(e) => {
                self.gen_expr_ref(e);
            },
            Stmt::Poke(a, v) => {
                proof {
                    lemma_gen_expr_grows(g0, a@);
                    lemma_gen_expr_grows(gen_expr(g0, a@).1, v@);
                }
                let av = self.gen_expr_ref(a);
                let vv = self.gen_expr_ref(v);
                self.emit(IRInst::StoreMem(av, vv));
            },
            Stmt::AssignIndex { base, index, value } => {
                let ghost e = ExprV::Index(Box::new(base@), Box::new(index@));
                proof {
                    lemma_gen_index_addr_grows(g0, e);
                    lemma_gen_expr_grows(gen_index_addr(g0, e).1, value@);
                }
                let addr = self.gen_index_addr(base, index);
                let vv = self.gen_expr_ref(value);
                self.emit(IRInst::StoreMem(addr, vv));
            },
            Stmt::AssignField { base, field, value } => {
                let ghost e = ExprV::Field(Box::new(base@), field@);
                proof {
                    lemma_gen_field_addr_grows(g0, e);
                    lemma_gen_expr_grows(gen_field_addr(g0, e).1, value@);
                }
                let addr = self.gen_field_addr(base, field);
                let vv = self.gen_expr_ref(value);
                self.emit(IRInst::StoreMem(addr, vv));
            },
            Stmt::Struct { name, fields } => {
                let fs = copy_fields(fields);
                self.structs.insert(name.clone(), fs);
                self.widest = Ghost(
                    if fields@.len() > self.widest@ {
                        fields@.len()
                    } else {
                        self.widest@
                    },
                );
                proof {
                    assert(fields_v(fields@).len() == fields@.len());
                }
            },
            Stmt::If { cond, then_branch, elif, else_branch } => {
                proof {
                    lemma_gen_expr_grows(g0, cond@);
                    let (cv, g1) = gen_expr(g0, cond@);
                    let (el, g2) = fresh_label(g1);
                    let (en, g3) = fresh_label(g2);
                    let g3e = emit(g3, IRInstV::JumpIfZero(cv, el));
                    lemma_gen_stmts_grows(g3e, stmts_v(then_branch@));
                    let g4 = gen_stmts(g3e, stmts_v(then_branch@));
                    let g5 = emit(emit(g4, IRInstV::Jump(en)), IRInstV::Label(el));
                    lemma_gen_elifs_grows(g5, elifs_v(elif@), en);
                    let g6 = gen_elifs(g5, elifs_v(elif@), en);
                    match else_branch {
                        Some(b) => {
                            lemma_gen_stmts_grows(g6, stmts_v(b@));
                        },
                        None => {},
                    }
                }
                let cv = self.gen_expr_ref(cond);
                let else_label = self.label();
                let end_label = self.label();
                self.emit(IRInst::JumpIfZero(cv, else_label.clone()));
                let ghost g3e = self@;
                proof {
                    lemma_gen_stmts_grows(g3e, stmts_v(then_branch@));
                    assert(decreases_to!(*s => s->then_branch));
                }
                self.gen_stmts_ref(then_branch);
                self.emit(IRInst::Jump(end_label.clone()));
                self.emit(IRInst::Label(else_label));
                let ghost g5 = self@;
                let ghost ev = elifs_v(elif@);
                let ghost goal = gen_elifs(g5, ev, end_label@);
                proof {
                    lemma_gen_elifs_grows(g5, ev, end_label@);
                    lemma_elifs_v(elif@);
                    assert(ev.subrange(0, ev.len() as int) =~= ev);
                    match else_branch {
                        Some(b) => {
                            lemma_gen_stmts_grows(goal, stmts_v(b@));
                        },
                        None => {},
                    }
                }
                let mut i: usize = 0;
                while i < elif.len()
                    invariant
                        i <= elif@.len(),
                        ev == elifs_v(elif@),
                        ev.len() == elif@.len(),
                        structs_within(self@),
                        gen_elifs(self@, ev.subrange(i as int, ev.len() as int), end_label@) == goal,
                        grows(goal, gen_stmt(old(self)@, s@)),
                    decreases elif@.len() - i,
                {
                    let ghost sub = ev.subrange(i as int, ev.len() as int);
                    proof {
                        lemma_elifs_v(elif@);
                        assert(sub[0] == (elif@[i as int].0@, stmts_v(elif@[i as int].1@)));
                        assert(sub.subrange(1, sub.len() as int) =~= ev.subrange(i + 1, ev.len() as int));
                        let (nx, g1) = fresh_label(self@);
                        lemma_gen_expr_grows(g1, sub[0].0);
                        let (cv2, g2) = gen_expr(g1, sub[0].0);
                        let g2e = emit(g2, IRInstV::JumpIfZero(cv2, nx));
                        lemma_gen_stmts_grows(g2e, sub[0].1);
                        let g4 = emit(emit(gen_stmts(g2e, sub[0].1), IRInstV::Jump(end_label@)), IRInstV::Label(nx));
                        lemma_gen_elifs_grows(g4, sub.subrange(1, sub.len() as int), end_label@);
                        assert(decreases_to!(*s => s->elif));
                        assert(decreases_to!(s->elif => s->elif@));
                        assert(decreases_to!(s->elif@ => s->elif@[i as int]));
                        assert(decreases_to!(s->elif@[i as int] => s->elif@[i as int].1));
                    }
                    let next = self.label();
                    let c = self.gen_expr_ref(&elif[i].0);
                    self.emit(IRInst::JumpIfZero(c, next.clone()));
                    self.gen_stmts_ref(&elif[i].1);
                    self.emit(IRInst::Jump(end_label.clone()));
                    self.emit(IRInst::Label(next));
                    i = i + 1;
                }
                assert(ev.subrange(ev.len() as int, ev.len() as int) =~= Seq::<(ExprV, Seq<StmtV>)>::empty());
                match else_branch {
                    Some(b) => {
                        proof {
                            assert(decreases_to!(*s => s->else_branch));
                            assert(decreases_to!(s->else_branch => s->else_branch->0));
                        }
                        self.gen_stmts_ref(b);
                    },
                    None => {},
                }
                self.emit(IRInst::Label(end_label));
            },
            Stmt::Loop(body) => {
                proof {
                    let (st, g1) = fresh_label(g0);
                    let (en, g2) = fresh_label(g1);
                    let g3 = emit(GState { loop_stack: g2.loop_stack.push((st, en)), ..g2 }, IRInstV::Label(st));
                    lemma_gen_stmts_grows(g3, stmts_v(body@));
                }
                let start = self.label();
                let end = self.label();
                self.loop_stack.push((start.clone(), end.clone()));
                assert(loops_v(self.loop_stack@) =~= loops_v(old(self).loop_stack@).push((start@, end@)));
                self.emit(IRInst::Label(start.clone()));
                proof {
                    assert(decreases_to!(*s => *body));
                }
                self.gen_stmts_ref(body);
                self.emit(IRInst::Jump(start));
                self.emit(IRInst::Label(end));
                let ghost before = self.loop_stack@;
                self.loop_stack.pop();
                assert(loops_v(self.loop_stack@) =~= loops_v(before).drop_last());
            },
            Stmt::Break => {
                let n = self.loop_stack.len();
                if n > 0 {
                    let end = self.loop_stack[n - 1].1.clone();
                    self.emit(IRInst::Jump(end));
                } else {
                    self.report(String::from_str("break outside loop"));
                }
            },
            Stmt::Continue => {
                let n = self.loop_stack.len();
                if n > 0 {
                    let start = self.loop_stack[n - 1].0.clone();
                    self.emit(IRInst::Jump(start));
                } else {
                    self.report(String::from_str("continue outside loop"));
                }
            },
            Stmt::Function { name, params, body, export: _ } => {
                self.function_params.insert(name.clone(), copy_names(params));
                self.emit(IRInst::Label(name.clone()));
                proof {
                    assert(decreases_to!(*s => s->body));
                }
                self.gen_stmts_ref(body);
            },
            Stmt::ExternFunction { name, params } => {
                self.function_params.insert(name.clone(), copy_names(params));
                self.emit(IRInst::Extern(name.clone()));
            },
            Stmt::Import { .. } => {},
            Stmt::Empty => {},
        }
    }
}

} // verus!
