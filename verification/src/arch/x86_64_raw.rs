//! Raw x86_64 backend.
//!
//! This backend generates x86_64 assembly without any specific OS ABI
//! assumptions, suitable for bare-metal or simple bootloaders.
use vstd::prelude::*;
use vstd::string::*;
use crate::arch::x64::{
    alloc_count, alloc_total, inst_vars, body_vars, lemma_body_vars, lemma_body_vars_prefix,
    lemma_body_vars_push, regs_room, lemma_reg_alloc, x64_inst, slots_cover, is_common, emit_common,
    from_pool,
};
use crate::ast::{names_v, copy_names};
use crate::ir::{IRInst, IRInstV, insts_v, copy_inst};
use crate::lexer::msgs;
use crate::listing::{
    ins0, ins1, ins2, label_line, slot, push_ins0, push_ins1, push_ins2, push_label, slot_text,
    decimal_text,
};
use crate::maps::{ParamMap, param_entries};
use crate::regalloc::{RState, reg_alloc, RegisterAllocator};
use crate::stackframe::{FState, StackFrame, frame_vars, empty_frame, frame_size_of, lemma_frame_vars};
use crate::text::decimal;

verus! {

/// What splitting has gathered after some instructions: the functions
/// closed so far, the name of the open one, and the instructions since.
pub struct Split {
    pub funcs: Seq<(Seq<char>, Seq<IRInstV>)>,
    pub current: Option<Seq<char>>,
    pub body: Seq<IRInstV>,
}

/// One instruction of the split: a label of a known function opens a new
/// function; other labels before the first function are dropped; externs
/// are dropped; everything else joins the open body.
pub open spec fn split_step(st: Split, i: IRInstV, params: Map<Seq<char>, Seq<Seq<char>>>) -> Split {
    match i {
        IRInstV::Extern(_) => st,
        IRInstV::Label(name) => if params.contains_key(name) {
            match st.current {
                Some(prev) => Split {
                    funcs: st.funcs.push((prev, st.body)),
                    current: Some(name),
                    body: Seq::empty(),
                },
                None => Split { current: Some(name), ..st },
            }
        } else if st.current is None {
            st
        } else {
            Split { body: st.body.push(i), ..st }
        },
        _ => Split { body: st.body.push(i), ..st },
    }
}

/// The split after all of `ir`.
pub open spec fn split_fold(ir: Seq<IRInstV>, params: Map<Seq<char>, Seq<Seq<char>>>) -> Split
    decreases ir.len(),
{
    if ir.len() == 0 {
        Split { funcs: Seq::empty(), current: None, body: Seq::empty() }
    } else {
        split_step(split_fold(ir.drop_last(), params), ir.last(), params)
    }
}

/// The functions of a program: each label of a known function with the
/// instructions up to the next one.
pub open spec fn split_functions(ir: Seq<IRInstV>, params: Map<Seq<char>, Seq<Seq<char>>>) -> Seq<
    (Seq<char>, Seq<IRInstV>),
> {
    let st = split_fold(ir, params);
    match st.current {
        Some(last) => st.funcs.push((last, st.body)),
        None => st.funcs,
    }
}

/// A call passes at most four arguments, one per argument register.
pub open spec fn call_ok(i: IRInstV) -> bool {
    i is Call ==> i->Call_2.len() <= 4
}

/// Every call passes at most four arguments.
pub open spec fn calls_ok(ir: Seq<IRInstV>) -> bool {
    forall|m: int| 0 <= m < ir.len() ==> call_ok(#[trigger] ir[m])
}

/// How many registers the bodies of `funcs` ask for.
pub open spec fn funcs_allocs(funcs: Seq<(Seq<char>, Seq<IRInstV>)>) -> nat
    decreases funcs.len(),
{
    if funcs.len() == 0 {
        0
    } else {
        funcs_allocs(funcs.drop_last()) + alloc_total(funcs.last().1)
    }
}

/// What the bodies of a split hold comes from the program: no more register
/// requests, no more variables, and only its calls.
pub proof fn lemma_split_fold(ir: Seq<IRInstV>, params: Map<Seq<char>, Seq<Seq<char>>>)
    ensures
        funcs_allocs(split_fold(ir, params).funcs) + alloc_total(split_fold(ir, params).body)
            <= alloc_total(ir),
        forall|k: int| 0 <= k < split_fold(ir, params).funcs.len() ==>
            body_vars((#[trigger] split_fold(ir, params).funcs[k]).1).len() <= body_vars(ir).len(),
        body_vars(split_fold(ir, params).body).len() <= body_vars(ir).len(),
        calls_ok(ir) ==> calls_ok(split_fold(ir, params).body),
        calls_ok(ir) ==> forall|k: int| 0 <= k < split_fold(ir, params).funcs.len() ==>
            calls_ok((#[trigger] split_fold(ir, params).funcs[k]).1),
    decreases ir.len(),
{
    if ir.len() > 0 {
        let p = ir.drop_last();
        let i = ir.last();
        lemma_split_fold(p, params);
        let st = split_fold(p, params);
        lemma_body_vars_push(p, i);
        lemma_body_vars_push(st.body, i);
        assert(calls_ok(ir) ==> calls_ok(p)) by {
            if calls_ok(ir) {
                assert forall|m: int| 0 <= m < p.len() implies call_ok(#[trigger] p[m]) by {
                    assert(p[m] == ir[m]);
                }
            }
        }
        assert(calls_ok(ir) ==> call_ok(i)) by {
            if calls_ok(ir) {
                assert(call_ok(ir[ir.len() - 1]));
            }
        }
        assert(calls_ok(ir) && calls_ok(st.body) && call_ok(i) ==> calls_ok(st.body.push(i))) by {
            if calls_ok(ir) && calls_ok(st.body) && call_ok(i) {
                assert forall|m: int| 0 <= m < st.body.push(i).len() implies call_ok(
                    #[trigger] st.body.push(i)[m],
                ) by {
                    if m < st.body.len() {
                        assert(st.body.push(i)[m] == st.body[m]);
                    }
                }
            }
        }
        match i {
            IRInstV::Label(name) => {
                if params.contains_key(name) {
                    match st.current {
                        Some(prev) => {
                            let f2 = st.funcs.push((prev, st.body));
                            assert(f2.drop_last() =~= st.funcs);
                            assert(alloc_total(Seq::<IRInstV>::empty()) == 0);
                            assert(body_vars(Seq::<IRInstV>::empty()) =~= Seq::<Seq<char>>::empty());
                            assert forall|k: int| 0 <= k < f2.len() implies body_vars(
                                (#[trigger] f2[k]).1,
                            ).len() <= body_vars(ir).len() by {
                                if k < st.funcs.len() {
                                    assert(f2[k] == st.funcs[k]);
                                }
                            }
                            assert(calls_ok(ir) ==> forall|k: int| 0 <= k < f2.len() ==> calls_ok(
                                (#[trigger] f2[k]).1,
                            )) by {
                                if calls_ok(ir) {
                                    assert forall|k: int| 0 <= k < f2.len() implies calls_ok(
                                        (#[trigger] f2[k]).1,
                                    ) by {
                                        if k < st.funcs.len() {
                                            assert(f2[k] == st.funcs[k]);
                                        }
                                    }
                                }
                            }
                        },
                        None => {},
                    }
                }
            },
            _ => {},
        }
    }
}

/// The split functions of a program ask for no more registers than it,
/// name no more variables each, and make only its calls.
pub proof fn lemma_split(ir: Seq<IRInstV>, params: Map<Seq<char>, Seq<Seq<char>>>)
    ensures
        funcs_allocs(split_functions(ir, params)) <= alloc_total(ir),
        forall|k: int| 0 <= k < split_functions(ir, params).len() ==>
            body_vars((#[trigger] split_functions(ir, params)[k]).1).len() <= body_vars(ir).len(),
        calls_ok(ir) ==> forall|k: int| 0 <= k < split_functions(ir, params).len() ==>
            calls_ok((#[trigger] split_functions(ir, params)[k]).1),
{
    lemma_split_fold(ir, params);
    let st = split_fold(ir, params);
    match st.current {
        Some(last) => {
            let f2 = st.funcs.push((last, st.body));
            assert(f2.drop_last() =~= st.funcs);
            assert forall|k: int| 0 <= k < f2.len() implies body_vars((#[trigger] f2[k]).1).len()
                <= body_vars(ir).len() by {
                if k < st.funcs.len() {
                    assert(f2[k] == st.funcs[k]);
                }
            }
            assert(calls_ok(ir) ==> forall|k: int| 0 <= k < f2.len() ==> calls_ok((#[trigger] f2[k]).1)) by {
                if calls_ok(ir) {
                    assert forall|k: int| 0 <= k < f2.len() implies calls_ok((#[trigger] f2[k]).1) by {
                        if k < st.funcs.len() {
                            assert(f2[k] == st.funcs[k]);
                        }
                    }
                }
            }
        },
        None => {},
    }
}

/// The parameters of `name`, or none if it has no entry.
pub open spec fn params_of(params: Map<Seq<char>, Seq<Seq<char>>>, name: Seq<char>) -> Seq<Seq<char>> {
    if params.contains_key(name) {
        params[name]
    } else {
        Seq::empty()
    }
}

/// `build_frame`: a slot for each parameter, then for each variable the
/// body names.
pub open spec fn build_frame(
    params: Map<Seq<char>, Seq<Seq<char>>>,
    name: Seq<char>,
    body: Seq<IRInstV>,
) -> FState {
    frame_vars(frame_vars(empty_frame(), params_of(params, name)), body_vars(body))
}

/// The register the `i`-th argument is passed in.
pub open spec fn arg_reg(i: int) -> Seq<char> {
    if i == 0 {
        "rcx"@
    } else if i == 1 {
        "rdx"@
    } else if i == 2 {
        "r8"@
    } else {
        "r9"@
    }
}

/// The moves that save the incoming parameters to their slots.
pub open spec fn param_moves(f: FState, ps: Seq<Seq<char>>) -> Seq<char>
    decreases ps.len(),
{
    if ps.len() == 0 {
        Seq::empty()
    } else {
        param_moves(f, ps.drop_last()) + ins2("mov"@, slot(f.slots[ps.last()]), arg_reg(ps.len() - 1))
    }
}

/// The moves that pass the arguments of a call, and the allocator after.
pub open spec fn call_moves(r: RState, args: Seq<Seq<char>>) -> (Seq<char>, RState)
    decreases args.len(),
{
    if args.len() == 0 {
        (Seq::empty(), r)
    } else {
        let (t, r1) = call_moves(r, args.drop_last());
        let (reg, r2) = reg_alloc(r1, args.last());
        (t + ins2("mov"@, arg_reg(args.len() - 1), reg), r2)
    }
}

/// `emit_inst`: the text of one instruction of a function body.
pub open spec fn x86_inst(r: RState, slots: Map<Seq<char>, int>, i: IRInstV) -> (Seq<char>, RState) {
    match i {
        IRInstV::Call(d, f, args) => {
            let (t, r1) = call_moves(r, args);
            let (rd, r2) = reg_alloc(r1, d);
            (t + ins1("call"@, f) + ins2("mov"@, rd, "rax"@), r2)
        },
        IRInstV::Label(n) => (label_line(n), r),
        IRInstV::Extern(_) => (Seq::empty(), r),
        _ => x64_inst(r, slots, i),
    }
}

/// The text of a function body.
pub open spec fn x86_body(r: RState, slots: Map<Seq<char>, int>, body: Seq<IRInstV>) -> (Seq<char>, RState)
    decreases body.len(),
{
    if body.len() == 0 {
        (Seq::empty(), r)
    } else {
        let (t, r1) = x86_body(r, slots, body.drop_last());
        let (u, r2) = x86_inst(r1, slots, body.last());
        (t + u, r2)
    }
}

/// A function's label and prologue for a frame of `size` bytes.
pub open spec fn fn_head(name: Seq<char>, size: int) -> Seq<char> {
    label_line(name) + ins1("push"@, "rbp"@) + ins2("mov"@, "rbp"@, "rsp"@) + ins2("sub"@, "rsp"@, decimal(size))
}

/// The epilogue every function ends with.
pub open spec fn fn_tail() -> Seq<char> {
    ins2("mov"@, "rsp"@, "rbp"@) + ins1("pop"@, "rbp"@) + ins0("ret"@) + "\n"@
}

/// The message when a function has more parameters than registers.
pub open spec fn too_many_params() -> Seq<char> {
    "Too many parameters for x86_64 ABI"@
}

/// `emit_function`: the text of one function, the allocator after, and the
/// messages. With more than four parameters the first four are saved, the
/// message is reported and nothing more of the function is emitted.
pub open spec fn x86_function(
    r: RState,
    params: Map<Seq<char>, Seq<Seq<char>>>,
    name: Seq<char>,
    body: Seq<IRInstV>,
) -> (Seq<char>, RState, Seq<Seq<char>>) {
    let f = build_frame(params, name, body);
    let head = fn_head(name, frame_size_of(f) + 8);
    let ps = params_of(params, name);
    if ps.len() > 4 {
        (head + param_moves(f, ps.take(4)), r, seq![too_many_params()])
    } else {
        let (b, r1) = x86_body(r, f.slots, body);
        (head + param_moves(f, ps) + b + fn_tail(), r1, Seq::empty())
    }
}

/// The text of the functions in order.
pub open spec fn x86_functions(
    r: RState,
    params: Map<Seq<char>, Seq<Seq<char>>>,
    funcs: Seq<(Seq<char>, Seq<IRInstV>)>,
) -> (Seq<char>, RState, Seq<Seq<char>>)
    decreases funcs.len(),
{
    if funcs.len() == 0 {
        (Seq::empty(), r, Seq::empty())
    } else {
        let (t, r1, m1) = x86_functions(r, params, funcs.drop_last());
        let (u, r2, m2) = x86_function(r1, params, funcs.last().0, funcs.last().1);
        (t + u, r2, m1 + m2)
    }
}

/// A line `prefix name` for each extern the program declares.
pub open spec fn extern_lines(ir: Seq<IRInstV>, prefix: Seq<char>) -> Seq<char>
    decreases ir.len(),
{
    if ir.len() == 0 {
        Seq::empty()
    } else {
        extern_lines(ir.drop_last(), prefix) + match ir.last() {
            IRInstV::Extern(n) => prefix + n + "\n"@,
            _ => Seq::empty(),
        }
    }
}

/// The header of the output.
pub open spec fn x86_header() -> Seq<char> {
    "; ARCH x86_64\n"@ + "; Generated ASM file. Modifications will not be preserved\n"@ + "BITS 64\n"@
        + "ORG 0x100000\n\n"@
}

/// The entry point: call `main`, then halt for ever.
pub open spec fn x86_start() -> Seq<char> {
    "_start:\n"@ + "    call main\n"@ + ".halt:\n"@ + "    hlt\n"@ + "    jmp .halt\n\n"@
}

/// `emit_program`: the whole output, the allocator after, and the messages.
pub open spec fn x86_program(r: RState, params: Map<Seq<char>, Seq<Seq<char>>>, ir: Seq<IRInstV>) -> (
    Seq<char>,
    RState,
    Seq<Seq<char>>,
) {
    let (t, r1, m) = x86_functions(r, params, split_functions(ir, params));
    (x86_header() + extern_lines(ir, "extern "@) + "\n"@ + x86_start() + t, r1, m)
}

/// Every frame fits: the slots of any function's parameters and of all the
/// variables the program names stay far below `i32::MAX`.
pub open spec fn frames_ok(params: Map<Seq<char>, Seq<Seq<char>>>, ir: Seq<IRInstV>) -> bool {
    forall|n: Seq<char>| 8 * ((#[trigger] params_of(params, n)).len() + body_vars(ir).len()) + 40 <= i32::MAX
}

/// The allocator can serve every request of `emit_program`, every call has
/// an argument register for each argument, and every frame fits.
pub open spec fn x86_accepts(r: RState, params: Map<Seq<char>, Seq<Seq<char>>>, ir: Seq<IRInstV>) -> bool {
    &&& regs_room(r, alloc_total(ir))
    &&& calls_ok(ir)
    &&& frames_ok(params, ir)
}

/// Passing arguments takes at most one register each.
pub proof fn lemma_call_moves(r: RState, args: Seq<Seq<char>>)
    ensures
        call_moves(r, args).1.pool == r.pool,
        r.next <= call_moves(r, args).1.next <= r.next + args.len(),
    decreases args.len(),
{
    if args.len() > 0 {
        lemma_call_moves(r, args.drop_last());
        lemma_reg_alloc(call_moves(r, args.drop_last()).1, args.last());
    }
}

/// An instruction takes at most the registers it asks for.
pub proof fn lemma_x86_inst(r: RState, slots: Map<Seq<char>, int>, i: IRInstV)
    ensures
        x86_inst(r, slots, i).1.pool == r.pool,
        r.next <= x86_inst(r, slots, i).1.next <= r.next + alloc_count(i),
{
    match i {
        IRInstV::Call(d, f, args) => {
            lemma_call_moves(r, args);
            lemma_reg_alloc(call_moves(r, args).1, d);
        },
        IRInstV::Label(_) => {},
        IRInstV::Extern(_) => {},
        _ => {
            crate::arch::x64::lemma_x64_inst(r, slots, i);
        },
    }
}

/// A body takes at most the registers it asks for.
pub proof fn lemma_x86_body(r: RState, slots: Map<Seq<char>, int>, body: Seq<IRInstV>)
    ensures
        x86_body(r, slots, body).1.pool == r.pool,
        r.next <= x86_body(r, slots, body).1.next <= r.next + alloc_total(body),
    decreases body.len(),
{
    if body.len() > 0 {
        lemma_x86_body(r, slots, body.drop_last());
        lemma_x86_inst(x86_body(r, slots, body.drop_last()).1, slots, body.last());
    }
}

/// The functions take at most the registers their bodies ask for.
pub proof fn lemma_x86_functions(
    r: RState,
    params: Map<Seq<char>, Seq<Seq<char>>>,
    funcs: Seq<(Seq<char>, Seq<IRInstV>)>,
)
    ensures
        x86_functions(r, params, funcs).1.pool == r.pool,
        r.next <= x86_functions(r, params, funcs).1.next <= r.next + funcs_allocs(funcs),
    decreases funcs.len(),
{
    if funcs.len() > 0 {
        lemma_x86_functions(r, params, funcs.drop_last());
        let r1 = x86_functions(r, params, funcs.drop_last()).1;
        let f = build_frame(params, funcs.last().0, funcs.last().1);
        lemma_x86_body(r1, f.slots, funcs.last().1);
    }
}

/// The registers the backend allocates from.
pub open spec fn x86_pool() -> Seq<Seq<char>> {
    seq!["rax"@, "rbx"@, "rcx"@, "rdx"@]
}

/// A fresh allocator over the x86-64 pool hands out only pool registers,
/// and the pool leaves the scratch register `r11` free.
pub proof fn lemma_x86_pool_scratch_free()
    ensures
        from_pool(RState { pool: x86_pool(), map: Map::empty(), next: 0 }),
        !x86_pool().contains("r11"@),
{
    reveal_strlit("rax");
    reveal_strlit("rbx");
    reveal_strlit("rcx");
    reveal_strlit("rdx");
    reveal_strlit("r11");
    assert("rax"@[1] != "r11"@[1]);
    assert("rbx"@[1] != "r11"@[1]);
    assert("rcx"@[1] != "r11"@[1]);
    assert("rdx"@[1] != "r11"@[1]);
    if x86_pool().contains("r11"@) {
        let k = choose|k: int| 0 <= k < x86_pool().len() && x86_pool()[k] == "r11"@;
        assert(x86_pool()[k][1] == "r11"@[1]);
    }
}

/// The value of a list of functions.
pub open spec fn funcs_v(f: Seq<(String, Vec<IRInst>)>) -> Seq<(Seq<char>, Seq<IRInstV>)> {
    f.map_values(|p: (String, Vec<IRInst>)| (p.0@, insts_v(p.1@)))
}

/// The value of an optional name.
pub open spec fn name_opt(o: Option<String>) -> Option<Seq<char>> {
    match o {
        Some(n) => Some(n@),
        None => None,
    }
}

/// The text of the argument register `i`.
pub(crate) fn arg_reg_text(i: usize) -> (r: &'static str)
    requires
        i < 4,
    ensures
        r@ == arg_reg(i as int),
{
    if i == 0 {
        "rcx"
    } else if i == 1 {
        "rdx"
    } else if i == 2 {
        "r8"
    } else {
        "r9"
    }
}

/// Appends the moves that pass the arguments of a call.
pub(crate) fn emit_call_args(regs: &mut RegisterAllocator, out: &mut String, args: &Vec<String>)
    requires
        args@.len() <= 4,
        regs_room(old(regs)@, args@.len()),
    ensures
        final(out)@ == old(out)@ + call_moves(old(regs)@, names_v(args@)).0,
        final(regs)@ == call_moves(old(regs)@, names_v(args@)).1,
{
    let ghost r0 = regs@;
    let ghost av = names_v(args@);
    let mut i: usize = 0;
    assert(av.take(0) =~= Seq::<Seq<char>>::empty());
    assert(out@ =~= old(out)@ + call_moves(r0, av.take(0)).0);
    while i < args.len()
        invariant
            i <= args@.len(),
            args@.len() <= 4,
            av == names_v(args@),
            regs_room(r0, args@.len()),
            out@ == old(out)@ + call_moves(r0, av.take(i as int)).0,
            regs@ == call_moves(r0, av.take(i as int)).1,
        decreases args@.len() - i,
    {
        proof {
            assert(av.take(i + 1).drop_last() =~= av.take(i as int));
            assert(av.take(i + 1).last() == args@[i as int]@);
            lemma_call_moves(r0, av.take(i as int));
        }
        let r = regs.allocate(args[i].as_str());
        push_ins2(out, "mov", arg_reg_text(i), r.as_str());
        assert(out@ =~= old(out)@ + call_moves(r0, av.take(i + 1)).0);
        i = i + 1;
    }
    assert(av.take(args@.len() as int) =~= av);
}

/// Backend for generating raw x86_64 assembly.
pub struct X86_64RawBackend {
    regs: RegisterAllocator,
    function_params: ParamMap,
    diagnostics: Vec<String>,
}

impl X86_64RawBackend {
    /// The register allocator's state.
    pub closed spec fn regs(&self) -> RState {
        self.regs@
    }

    /// The parameters of each function.
    pub closed spec fn params(&self) -> Map<Seq<char>, Seq<Seq<char>>> {
        param_entries(self.function_params)
    }

    /// The messages reported so far.
    pub closed spec fn log(&self) -> Seq<Seq<char>> {
        msgs(self.diagnostics@)
    }

    /// A backend over the given function parameter table, allocating from
    /// `rax`, `rbx`, `rcx`, `rdx`.
    pub fn new(function_params: ParamMap) -> (r: Self)
        ensures
            r.regs() == (RState { pool: x86_pool(), map: Map::empty(), next: 0 }),
            r.params() == param_entries(function_params),
            r.log() == Seq::<Seq<char>>::empty(),
    {
        let mut pool: Vec<String> = Vec::new();
        pool.push(String::from_str("rax"));
        pool.push(String::from_str("rbx"));
        pool.push(String::from_str("rcx"));
        pool.push(String::from_str("rdx"));
        assert(names_v(pool@) =~= x86_pool());
        let r = Self { regs: RegisterAllocator::new(pool), function_params, diagnostics: Vec::new() };
        assert(r.log() =~= Seq::<Seq<char>>::empty());
        r
    }

    /// The messages reported.
    pub fn into_messages(self) -> (r: Vec<String>)
        ensures
            msgs(r@) == self.log(),
    {
        self.diagnostics
    }

    fn split_functions(&self, ir: &[IRInst]) -> (r: Vec<(String, Vec<IRInst>)>)
        ensures
            funcs_v(r@) == split_functions(insts_v(ir@), self.params()),
    {
        let ghost iv = insts_v(ir@);
        let ghost params = self.params();
        let mut funcs: Vec<(String, Vec<IRInst>)> = Vec::new();
        let mut current_name: Option<String> = None;
        let mut current_body: Vec<IRInst> = Vec::new();
        let mut i: usize = 0;
        assert(iv.take(0) =~= Seq::<IRInstV>::empty());
        assert(funcs_v(funcs@) =~= Seq::<(Seq<char>, Seq<IRInstV>)>::empty());
        assert(insts_v(current_body@) =~= Seq::<IRInstV>::empty());
        while i < ir.len()
            invariant
                i <= ir@.len(),
                iv == insts_v(ir@),
                params == self.params(),
                (Split { funcs: funcs_v(funcs@), current: name_opt(current_name), body: insts_v(current_body@) })
                    == split_fold(iv.take(i as int), params),
            decreases ir@.len() - i,
        {
            let ghost before = Split {
                funcs: funcs_v(funcs@),
                current: name_opt(current_name),
                body: insts_v(current_body@),
            };
            proof {
                assert(iv.take(i + 1).drop_last() =~= iv.take(i as int));
                assert(iv.take(i + 1).last() == ir@[i as int]@);
            }
            let inst = &ir[i];
            match inst {
                IRInst::Extern(_) => {},
                IRInst::Label(name) => {
                    if self.function_params.contains_key(name.as_str()) {
                        match current_name {
                            Some(prev) => {
                                let body = current_body;
                                funcs.push((prev, body));
                                current_body = Vec::new();
                                assert(insts_v(current_body@) =~= Seq::<IRInstV>::empty());
                                assert(funcs_v(funcs@) =~= before.funcs.push((before.current->0, before.body)));
                            },
                            None => {},
                        }
                        current_name = Some(name.clone());
                    } else if current_name.is_none() {
                    } else {
                        current_body.push(copy_inst(inst));
                        assert(insts_v(current_body@) =~= before.body.push(inst@));
                    }
                },
                _ => {
                    current_body.push(copy_inst(inst));
                    assert(insts_v(current_body@) =~= before.body.push(inst@));
                },
            }
            i = i + 1;
        }
        assert(iv.take(ir@.len() as int) =~= iv);
        match current_name {
            Some(last) => {
                let ghost fs = funcs_v(funcs@);
                funcs.push((last, current_body));
                assert(funcs_v(funcs@) =~= fs.push((last@, insts_v(current_body@))));
            },
            None => {},
        }
        funcs
    }
}

impl X86_64RawBackend {
    fn build_frame(&self, name: &str, body: &[IRInst]) -> (f: StackFrame)
        requires
            8 * (params_of(self.params(), name@).len() + body_vars(insts_v(body@)).len()) + 40 <= i32::MAX,
        ensures
            f.wf(),
            f.state() == build_frame(self.params(), name@, insts_v(body@)),
            f.next() <= 8 + 8 * (params_of(self.params(), name@).len() + body_vars(insts_v(body@)).len()),
    {
        let ghost ps = params_of(self.params(), name@);
        let ghost bv = insts_v(body@);
        let mut frame = StackFrame::new();
        assert(frame.state() == empty_frame());
        match self.function_params.get(name) {
            Some(params) => {
                let mut i: usize = 0;
                assert(names_v(params@).take(0) =~= Seq::<Seq<char>>::empty());
                while i < params.len()
                    invariant
                        i <= params@.len(),
                        ps == names_v(params@),
                        frame.wf(),
                        frame.state() == frame_vars(empty_frame(), ps.take(i as int)),
                        frame.next() <= 8 + 8 * i,
                        8 * (ps.len() + body_vars(bv).len()) + 40 <= i32::MAX,
                    decreases params@.len() - i,
                {
                    assert(ps.take(i + 1).drop_last() =~= ps.take(i as int));
                    assert(ps.take(i + 1).last() == params@[i as int]@);
                    frame.allocate(params[i].as_str());
                    i = i + 1;
                }
                assert(ps.take(params@.len() as int) =~= ps);
            },
            None => {},
        }
        let ghost f1 = frame.state();
        let ghost n1 = ps.len();
        let mut j: usize = 0;
        assert(bv.take(0) =~= Seq::<IRInstV>::empty());
        assert(body_vars(Seq::<IRInstV>::empty()) =~= Seq::<Seq<char>>::empty());
        while j < body.len()
            invariant
                j <= body@.len(),
                bv == insts_v(body@),
                frame.wf(),
                frame.state() == frame_vars(f1, body_vars(bv.take(j as int))),
                frame.next() <= 8 + 8 * (n1 + body_vars(bv.take(j as int)).len()),
                body_vars(bv.take(j as int)).len() <= body_vars(bv).len(),
                8 * (n1 + body_vars(bv).len()) + 40 <= i32::MAX,
            decreases body@.len() - j,
        {
            let ghost pre = body_vars(bv.take(j as int));
            proof {
                assert(bv.take(j + 1) =~= bv.take(j as int).push(body@[j as int]@));
                lemma_body_vars_push(bv.take(j as int), body@[j as int]@);
                lemma_body_vars_prefix(bv, j + 1);
            }
            match &body[j] {
                IRInst::StoreVar(n, _) => {
                    proof {
                        assert((pre + seq![n@]).drop_last() =~= pre);
                    }
                    frame.allocate(n.as_str());
                },
                IRInst::LoadVar(_, n) => {
                    proof {
                        assert((pre + seq![n@]).drop_last() =~= pre);
                    }
                    frame.allocate(n.as_str());
                },
                _ => {
                    assert(pre + Seq::<Seq<char>>::empty() =~= pre);
                },
            }
            j = j + 1;
        }
        assert(bv.take(body@.len() as int) =~= bv);
        frame
    }

    /// Appends the text of one instruction of a function body.
    fn emit_inst(&mut self, out: &mut String, inst: &IRInst, frame: &StackFrame)
        requires
            frame.wf(),
            slots_cover(frame.slots(), inst@),
            regs_room(old(self).regs(), alloc_count(inst@)),
            call_ok(inst@),
        ensures
            final(out)@ == old(out)@ + x86_inst(old(self).regs(), frame.slots(), inst@).0,
            final(self).regs() == x86_inst(old(self).regs(), frame.slots(), inst@).1,
            final(self).params() == old(self).params(),
            final(self).log() == old(self).log(),
    {
        match inst {
            IRInst::Call(d, func, args) => {
                let ghost r0 = self.regs@;
                proof {
                    lemma_call_moves(r0, names_v(args@));
                    lemma_reg_alloc(call_moves(r0, names_v(args@)).1, d@);
                }
                emit_call_args(&mut self.regs, out, args);
                push_ins1(out, "call", func.as_str());
                let rd = self.regs.allocate(d.as_str());
                push_ins2(out, "mov", rd.as_str(), "rax");
                assert(out@ =~= old(out)@ + x86_inst(r0, frame.slots(), inst@).0);
            },
            IRInst::Label(n) => {
                push_label(out, n.as_str());
            },
            IRInst::Extern(_) => {
                assert(out@ =~= old(out)@ + Seq::<char>::empty());
            },
            _ => {
                emit_common(&mut self.regs, frame, out, inst);
            },
        }
    }
}

/// The functions before the `k`-th ask for no more registers than all.
pub proof fn lemma_funcs_allocs_prefix(funcs: Seq<(Seq<char>, Seq<IRInstV>)>, k: int)
    requires
        0 <= k <= funcs.len(),
    ensures
        funcs_allocs(funcs.take(k)) <= funcs_allocs(funcs),
    decreases funcs.len(),
{
    if k < funcs.len() {
        assert(funcs.take(k) =~= funcs.drop_last().take(k));
        lemma_funcs_allocs_prefix(funcs.drop_last(), k);
    } else {
        assert(funcs.take(k) =~= funcs);
    }
}

/// With more than four parameters a function is its head and the saving of
/// the first four.
proof fn lemma_too_many_params(
    r: RState,
    params: Map<Seq<char>, Seq<Seq<char>>>,
    name: Seq<char>,
    body: Seq<IRInstV>,
)
    requires
        params_of(params, name).len() > 4,
    ensures
        x86_function(r, params, name, body) == (
            fn_head(name, frame_size_of(build_frame(params, name, body)) + 8) + param_moves(
                build_frame(params, name, body),
                params_of(params, name).take(4),
            ),
            r,
            seq![too_many_params()],
        ),
{
}

impl X86_64RawBackend {
    fn report(&mut self, m: String)
        ensures
            final(self).log() == old(self).log().push(m@),
            final(self).regs() == old(self).regs(),
            final(self).params() == old(self).params(),
    {
        self.diagnostics.push(m);
        assert(msgs(self.diagnostics@) =~= msgs(old(self).diagnostics@).push(m@));
    }

    /// Appends the text of one function.
    #[verifier::rlimit(40)]
    fn emit_function(&mut self, out: &mut String, name: &str, body: &[IRInst])
        requires
            regs_room(old(self).regs(), alloc_total(insts_v(body@))),
            calls_ok(insts_v(body@)),
            8 * (params_of(old(self).params(), name@).len() + body_vars(insts_v(body@)).len()) + 40
                <= i32::MAX,
        ensures
            final(out)@ == old(out)@ + x86_function(old(self).regs(), old(self).params(), name@, insts_v(body@)).0,
            final(self).regs() == x86_function(old(self).regs(), old(self).params(), name@, insts_v(body@)).1,
            final(self).log() == old(self).log() + x86_function(old(self).regs(), old(self).params(), name@, insts_v(body@)).2,
            final(self).params() == old(self).params(),
    {
        let ghost bv = insts_v(body@);
        let ghost params = self.params();
        let ghost r0 = self.regs();
        let ghost psv = params_of(params, name@);
        let frame = self.build_frame(name, body);
        let ghost f = frame.state();
        proof {
            lemma_frame_vars(empty_frame(), psv);
            lemma_frame_vars(frame_vars(empty_frame(), psv), body_vars(bv));
        }
        let frame_size = frame.frame_size() + 8;
        push_label(out, name);
        push_ins1(out, "push", "rbp");
        push_ins2(out, "mov", "rbp", "rsp");
        push_ins2(out, "sub", "rsp", decimal_text(frame_size as i64).as_str());
        let ghost head = out@;
        assert(head =~= old(out)@ + fn_head(name@, frame_size_of(f) + 8));
        let ps: Vec<String> = match self.function_params.get(name) {
            Some(p) => copy_names(p),
            None => Vec::new(),
        };
        assert(names_v(ps@) =~= psv);
        let mut i: usize = 0;
        assert(psv.take(0) =~= Seq::<Seq<char>>::empty());
        while i < ps.len()
            invariant
                i <= ps@.len(),
                i <= 4,
                psv == names_v(ps@),
                frame.wf(),
                frame.state() == f,
                forall|k: int| 0 <= k < psv.len() ==> f.slots.contains_key(#[trigger] psv[k]),
                out@ == head + param_moves(f, psv.take(i as int)),
                head == old(out)@ + fn_head(name@, frame_size_of(f) + 8),
                f == build_frame(params, name@, bv),
                psv == params_of(params, name@),
                r0 == old(self).regs(),
                params == old(self).params(),
                bv == insts_v(body@),
                self.regs() == r0,
                self.params() == params,
                self.log() == old(self).log(),
            decreases ps@.len() - i,
        {
            if i >= 4 {
                self.report(String::from_str("Too many parameters for x86_64 ABI"));
                proof {
                    reveal_strlit("Too many parameters for x86_64 ABI");
                }
                assert(self.log() =~= old(self).log() + seq![too_many_params()]);
                proof {
                    lemma_too_many_params(r0, params, name@, bv);
                }
                assert(out@ =~= old(out)@ + x86_function(r0, params, name@, bv).0);
                return;
            }
            proof {
                assert(psv.take(i + 1).drop_last() =~= psv.take(i as int));
                assert(psv.take(i + 1).last() == psv[i as int]);
            }
            let off = frame.get(ps[i].as_str());
            push_ins2(out, "mov", slot_text(off as i64).as_str(), arg_reg_text(i));
            assert(out@ =~= head + param_moves(f, psv.take(i + 1)));
            i = i + 1;
        }
        assert(psv.take(ps@.len() as int) =~= psv);
        let ghost mid = out@;
        proof {
            lemma_body_vars(bv);
        }
        let mut j: usize = 0;
        assert(bv.take(0) =~= Seq::<IRInstV>::empty());
        assert(mid =~= mid + x86_body(r0, f.slots, bv.take(0)).0);
        while j < body.len()
            invariant
                j <= body@.len(),
                bv == insts_v(body@),
                frame.wf(),
                frame.state() == f,
                forall|k: int| 0 <= k < body_vars(bv).len() ==> f.slots.contains_key(#[trigger] body_vars(bv)[k]),
                forall|a: int, k: int|
                    0 <= a < bv.len() && 0 <= k < inst_vars(bv[a]).len() ==> body_vars(bv).contains(
                        #[trigger] inst_vars(#[trigger] bv[a])[k],
                    ),
                calls_ok(bv),
                regs_room(r0, alloc_total(bv)),
                out@ == mid + x86_body(r0, f.slots, bv.take(j as int)).0,
                self.regs() == x86_body(r0, f.slots, bv.take(j as int)).1,
                self.params() == params,
                self.log() == old(self).log(),
            decreases body@.len() - j,
        {
            let ghost pre = bv.take(j as int);
            proof {
                assert(bv.take(j + 1).drop_last() =~= pre);
                assert(bv.take(j + 1).last() == bv[j as int]);
                assert(bv.take(j + 1) =~= pre.push(bv[j as int]));
                lemma_body_vars_push(pre, bv[j as int]);
                lemma_body_vars_prefix(bv, j + 1);
                lemma_x86_body(r0, f.slots, pre);
                assert(call_ok(bv[j as int]));
                assert(slots_cover(f.slots, bv[j as int])) by {
                    let i = bv[j as int];
                    if inst_vars(i).len() > 0 {
                        let v = inst_vars(i)[0];
                        assert(body_vars(bv).contains(v));
                        let m = choose|m: int| 0 <= m < body_vars(bv).len() && body_vars(bv)[m] == v;
                        assert(f.slots.contains_key(body_vars(bv)[m]));
                    }
                }
            }
            self.emit_inst(out, &body[j], &frame);
            j = j + 1;
        }
        assert(bv.take(body@.len() as int) =~= bv);
        push_ins2(out, "mov", "rsp", "rbp");
        push_ins1(out, "pop", "rbp");
        push_ins0(out, "ret");
        out.append("\n");
        assert(out@ =~= old(out)@ + x86_function(r0, params, name@, bv).0);
        assert(self.log() =~= old(self).log() + Seq::<Seq<char>>::empty());
    }
}

impl crate::arch::Architecture for X86_64RawBackend {
    open spec fn accepts(&self, ir: Seq<IRInstV>) -> bool {
        x86_accepts(self.regs(), self.params(), ir)
    }

    open spec fn emitted(&self, ir: Seq<IRInstV>) -> Seq<char> {
        x86_program(self.regs(), self.params(), ir).0
    }

    open spec fn after(&self, ir: Seq<IRInstV>, later: Self) -> bool {
        &&& later.regs() == x86_program(self.regs(), self.params(), ir).1
        &&& later.params() == self.params()
        &&& later.log() == self.log() + x86_program(self.regs(), self.params(), ir).2
    }

    fn emit_program(&mut self, ir: &[IRInst]) -> (r: String) {
        let ghost iv = insts_v(ir@);
        let ghost params = self.params();
        let ghost r0 = self.regs();
        let mut out = String::new();
        out.append("; ARCH x86_64\n");
        out.append("; Generated ASM file. Modifications will not be preserved\n");
        out.append("BITS 64\n");
        out.append("ORG 0x100000\n\n");
        let ghost head = out@;
        assert(head =~= x86_header());
        let mut i: usize = 0;
        assert(iv.take(0) =~= Seq::<IRInstV>::empty());
        assert(head =~= head + extern_lines(iv.take(0), "extern "@));
        while i < ir.len()
            invariant
                i <= ir@.len(),
                iv == insts_v(ir@),
                out@ == head + extern_lines(iv.take(i as int), "extern "@),
            decreases ir@.len() - i,
        {
            proof {
                assert(iv.take(i + 1).drop_last() =~= iv.take(i as int));
                assert(iv.take(i + 1).last() == ir@[i as int]@);
            }
            match &ir[i] {
                IRInst::Extern(name) => {
                    out.append("extern ");
                    out.append(name.as_str());
                    out.append("\n");
                },
                _ => {},
            }
            assert(out@ =~= head + extern_lines(iv.take(i + 1), "extern "@));
            i = i + 1;
        }
        assert(iv.take(ir@.len() as int) =~= iv);
        out.append("\n");
        out.append("_start:\n");
        out.append("    call main\n");
        out.append(".halt:\n");
        out.append("    hlt\n");
        out.append("    jmp .halt\n\n");
        let ghost pre = out@;
        assert(pre =~= x86_header() + extern_lines(iv, "extern "@) + "\n"@ + x86_start());
        let funcs = self.split_functions(ir);
        let ghost fv = funcs_v(funcs@);
        proof {
            lemma_split(iv, params);
        }
        let mut k: usize = 0;
        assert(fv.take(0) =~= Seq::<(Seq<char>, Seq<IRInstV>)>::empty());
        assert(pre =~= pre + x86_functions(r0, params, fv.take(0)).0);
        assert(self.log() =~= old(self).log() + x86_functions(r0, params, fv.take(0)).2);
        while k < funcs.len()
            invariant
                k <= funcs@.len(),
                fv == funcs_v(funcs@),
                fv == split_functions(iv, params),
                x86_accepts(r0, params, iv),
                funcs_allocs(fv) <= alloc_total(iv),
                forall|m: int| 0 <= m < fv.len() ==> body_vars((#[trigger] fv[m]).1).len() <= body_vars(iv).len(),
                forall|m: int| 0 <= m < fv.len() ==> calls_ok((#[trigger] fv[m]).1),
                out@ == pre + x86_functions(r0, params, fv.take(k as int)).0,
                self.regs() == x86_functions(r0, params, fv.take(k as int)).1,
                self.log() == old(self).log() + x86_functions(r0, params, fv.take(k as int)).2,
                self.params() == params,
            decreases funcs@.len() - k,
        {
            proof {
                assert(fv.take(k + 1).drop_last() =~= fv.take(k as int));
                assert(fv.take(k + 1).last() == fv[k as int]);
                lemma_x86_functions(r0, params, fv.take(k as int));
                lemma_funcs_allocs_prefix(fv, k + 1);
                assert(fv[k as int] == (funcs@[k as int].0@, insts_v(funcs@[k as int].1@)));
                assert(8 * (params_of(params, fv[k as int].0).len() + body_vars(iv).len()) + 40 <= i32::MAX);
            }
            let ghost o = out@;
            self.emit_function(&mut out, funcs[k].0.as_str(), funcs[k].1.as_slice());
            assert(out@ =~= pre + x86_functions(r0, params, fv.take(k + 1)).0);
            assert(self.log() =~= old(self).log() + x86_functions(r0, params, fv.take(k + 1)).2);
            k = k + 1;
        }
        assert(fv.take(funcs@.len() as int) =~= fv);
        out
    }
}

} // verus!
