//! Windows x64 backend.
//!
//! This backend generates x86_64 assembly following the Windows x64 Calling
//! Convention.
use vstd::prelude::*;
use vstd::string::*;
use crate::arch::x64::{
    alloc_count, alloc_total, inst_vars, body_vars, lemma_body_vars, lemma_body_vars_prefix,
    lemma_body_vars_push, regs_room, lemma_reg_alloc, x64_inst, lemma_x64_inst, slots_cover,
    emit_common, from_pool,
};
use crate::arch::x86_64_raw::{
    params_of, arg_reg, param_moves, call_moves, lemma_call_moves, call_ok, calls_ok, arg_reg_text,
    emit_call_args,
};
use crate::ast::{names_v, copy_names};
use crate::ir::{IRInst, IRInstV, insts_v};
use crate::lexer::msgs;
use crate::listing::{
    ins1, ins2, label_line, push_ins1, push_ins2, push_label, slot_text, decimal_text,
};
use crate::maps::{ParamMap, param_entries};
use crate::regalloc::{RState, reg_alloc, RegisterAllocator};
use crate::stackframe::{FState, StackFrame, frame_vars, empty_frame, frame_size_of, lemma_frame_vars};
use crate::text::{decimal, str_eq};

verus! {

/// The names declared extern, each once, after `printf`, in the order of
/// their first declaration.
pub open spec fn extern_names(ir: Seq<IRInstV>) -> Seq<Seq<char>>
    decreases ir.len(),
{
    if ir.len() == 0 {
        seq!["printf"@]
    } else {
        let ns = extern_names(ir.drop_last());
        match ir.last() {
            IRInstV::Extern(n) => if ns.contains(n) { ns } else { ns.push(n) },
            _ => ns,
        }
    }
}

/// Each name is declared extern once, `printf` first.
pub proof fn lemma_extern_names(ir: Seq<IRInstV>)
    ensures
        extern_names(ir).len() >= 1,
        extern_names(ir)[0] == "printf"@,
        forall|i: int, j: int|
            0 <= i < j < extern_names(ir).len() ==> #[trigger] extern_names(ir)[i] != #[trigger] extern_names(ir)[j],
    decreases ir.len(),
{
    if ir.len() > 0 {
        lemma_extern_names(ir.drop_last());
        let ns = extern_names(ir.drop_last());
        match ir.last() {
            IRInstV::Extern(n) => {
                if !ns.contains(n) {
                    assert forall|i: int, j: int|
                        0 <= i < j < ns.push(n).len() implies #[trigger] ns.push(n)[i] != #[trigger] ns.push(n)[j] by {
                        if j == ns.len() {
                            assert(ns.push(n)[i] == ns[i]);
                        }
                    }
                }
            },
            _ => {},
        }
    }
}

/// `extern name` for each name.
pub open spec fn extern_decls(ns: Seq<Seq<char>>) -> Seq<char>
    decreases ns.len(),
{
    if ns.len() == 0 {
        Seq::empty()
    } else {
        extern_decls(ns.drop_last()) + "extern "@ + ns.last() + "\n"@
    }
}

/// The data section with the format `printf` prints the result with.
pub open spec fn win64_data() -> Seq<char> {
    "section .data\n"@ + "fmt: db \"%lld\", 10, 0\n"@ + "section .text\n\n"@
}

/// `main`: calls `micro_main` and prints what it returns.
pub open spec fn win64_main() -> Seq<char> {
    "main:\n"@ + "    push rbx\n"@ + "    sub rsp, 40\n"@ + "    call micro_main\n"@ + "    mov rdx, rax\n"@
        + "    lea rcx, [rel fmt]\n"@ + "    sub rsp, 32\n"@ + "    call printf\n"@ + "    add rsp, 32\n"@
        + "    xor eax, eax\n"@ + "    add rsp, 40\n"@ + "    pop rbx\n"@ + "    ret\n\n"@
}

/// The name a function is emitted under: `main` becomes `micro_main`.
pub open spec fn actual_name(name: Seq<char>) -> Seq<char> {
    if name == "main"@ {
        "micro_main"@
    } else {
        name
    }
}

/// The state of the emission loop: the text so far, the allocator and the
/// frame.
pub struct WState {
    pub text: Seq<char>,
    pub regs: RState,
    pub frame: FState,
}

/// The emission loop's state, and whether it stopped at a function with
/// too many parameters (the state is then the one it stopped in).
pub struct WRun {
    pub st: WState,
    pub failed: bool,
}

/// One instruction of the emission loop; `size` is the frame size.
pub open spec fn win64_inst(
    st: WState,
    params: Map<Seq<char>, Seq<Seq<char>>>,
    size: int,
    i: IRInstV,
) -> WRun {
    match i {
        IRInstV::Extern(_) => WRun { st, failed: false },
        IRInstV::Label(name) => if !params.contains_key(name) {
            WRun { st: WState { text: st.text + label_line(name), ..st }, failed: false }
        } else {
            let ps = params[name];
            let f = frame_vars(st.frame, ps);
            if ps.len() > 4 {
                WRun { st: WState { frame: f, ..st }, failed: true }
            } else {
                let head = label_line(actual_name(name)) + ins1("push"@, "rbp"@) + ins2("mov"@, "rbp"@, "rsp"@)
                    + ins2("sub"@, "rsp"@, decimal(size + 8));
                WRun { st: WState { text: st.text + head + param_moves(f, ps), frame: f, ..st }, failed: false }
            }
        },
        IRInstV::Call(d, func, args) => {
            let (t, r1) = call_moves(st.regs, args);
            let (rd, r2) = reg_alloc(r1, d);
            let u = t + "    sub rsp, 40\n"@ + ins1("call"@, func) + "    add rsp, 40\n"@ + ins2("mov"@, rd, "rax"@);
            WRun { st: WState { text: st.text + u, regs: r2, ..st }, failed: false }
        },
        _ => {
            let (u, r1) = x64_inst(st.regs, st.frame.slots, i);
            WRun { st: WState { text: st.text + u, regs: r1, ..st }, failed: false }
        },
    }
}

/// The emission loop over `ir`; it stops at the first failure.
pub open spec fn win64_body(
    st: WState,
    params: Map<Seq<char>, Seq<Seq<char>>>,
    size: int,
    ir: Seq<IRInstV>,
) -> WRun
    decreases ir.len(),
{
    if ir.len() == 0 {
        WRun { st, failed: false }
    } else {
        let prev = win64_body(st, params, size, ir.drop_last());
        if prev.failed {
            prev
        } else {
            win64_inst(prev.st, params, size, ir.last())
        }
    }
}

/// The message when a function has more parameters than registers.
pub open spec fn too_many_win64_params() -> Seq<char> {
    "Too many parameters for Windows ABI"@
}

/// `emit_program`: the output, the allocator after, and the messages. A
/// function with more than four parameters makes the output empty.
pub open spec fn win64_program(r: RState, params: Map<Seq<char>, Seq<Seq<char>>>, ir: Seq<IRInstV>) -> (
    Seq<char>,
    RState,
    Seq<Seq<char>>,
) {
    let f0 = frame_vars(empty_frame(), body_vars(ir));
    let size = frame_size_of(f0);
    let pre = "global main\n"@ + extern_decls(extern_names(ir)) + win64_data() + win64_main();
    let run = win64_body(WState { text: pre, regs: r, frame: f0 }, params, size, ir);
    if run.failed {
        (Seq::empty(), run.st.regs, seq![too_many_win64_params()])
    } else {
        (run.st.text, run.st.regs, Seq::empty())
    }
}

/// The parameters of every function label of the program, counted.
pub open spec fn label_params(ir: Seq<IRInstV>, params: Map<Seq<char>, Seq<Seq<char>>>) -> nat
    decreases ir.len(),
{
    if ir.len() == 0 {
        0
    } else {
        label_params(ir.drop_last(), params) + match ir.last() {
            IRInstV::Label(n) => params_of(params, n).len(),
            _ => 0,
        }
    }
}

/// The allocator can serve every request, every call has an argument
/// register for each argument, and the one frame fits in `i32`.
pub open spec fn win64_accepts(r: RState, params: Map<Seq<char>, Seq<Seq<char>>>, ir: Seq<IRInstV>) -> bool {
    &&& regs_room(r, alloc_total(ir))
    &&& calls_ok(ir)
    &&& 8 * (body_vars(ir).len() + label_params(ir, params)) + 40 <= i32::MAX
}

/// The registers the backend allocates from.
pub open spec fn win64_pool() -> Seq<Seq<char>> {
    seq!["rax"@, "rbx"@, "rcx"@, "rdx"@]
}

/// A fresh allocator over the Windows x64 pool hands out only pool
/// registers, and the pool leaves the scratch register `r11` free.
pub proof fn lemma_win64_pool_scratch_free()
    ensures
        from_pool(RState { pool: win64_pool(), map: Map::empty(), next: 0 }),
        !win64_pool().contains("r11"@),
{
    crate::arch::x86_64_raw::lemma_x86_pool_scratch_free();
    assert(win64_pool() == crate::arch::x86_64_raw::x86_pool());
}

/// The emission loop takes at most the registers the program asks for,
/// keeps every slot, and gives at most one slot per parameter.
pub proof fn lemma_win64_body(st: WState, params: Map<Seq<char>, Seq<Seq<char>>>, size: int, ir: Seq<IRInstV>)
    ensures
        ({
            let s1 = win64_body(st, params, size, ir).st;
            &&& s1.regs.pool == st.regs.pool
            &&& st.regs.next <= s1.regs.next <= st.regs.next + alloc_total(ir)
            &&& forall|k: Seq<char>| #[trigger] st.frame.slots.contains_key(k) ==> s1.frame.slots.contains_key(k)
                && s1.frame.slots[k] == st.frame.slots[k]
            &&& st.frame.next <= s1.frame.next <= st.frame.next + 8 * label_params(ir, params)
        }),
    decreases ir.len(),
{
    if ir.len() > 0 {
        lemma_win64_body(st, params, size, ir.drop_last());
        let prev = win64_body(st, params, size, ir.drop_last());
        if !prev.failed {
            let s1 = prev.st;
            let i = ir.last();
            match i {
                IRInstV::Label(name) => {
                    if params.contains_key(name) {
                        lemma_frame_vars(s1.frame, params[name]);
                    }
                },
                IRInstV::Call(d, f, args) => {
                    lemma_call_moves(s1.regs, args);
                    lemma_reg_alloc(call_moves(s1.regs, args).1, d);
                },
                IRInstV::Extern(_) => {},
                _ => {
                    lemma_x64_inst(s1.regs, s1.frame.slots, i);
                },
            }
        }
    }
}

/// Once a function had too many parameters the loop stays where it stopped.
pub proof fn lemma_win64_failed(st: WState, params: Map<Seq<char>, Seq<Seq<char>>>, size: int, ir: Seq<IRInstV>, j: int)
    requires
        0 <= j <= ir.len(),
        win64_body(st, params, size, ir.take(j)).failed,
    ensures
        win64_body(st, params, size, ir) == win64_body(st, params, size, ir.take(j)),
    decreases ir.len(),
{
    if j < ir.len() {
        assert(ir.take(j) =~= ir.drop_last().take(j));
        lemma_win64_failed(st, params, size, ir.drop_last(), j);
    } else {
        assert(ir.take(j) =~= ir);
    }
}

/// A prefix has no more function parameters than the whole.
pub proof fn lemma_label_params_prefix(ir: Seq<IRInstV>, params: Map<Seq<char>, Seq<Seq<char>>>, j: int)
    requires
        0 <= j <= ir.len(),
    ensures
        label_params(ir.take(j), params) <= label_params(ir, params),
    decreases ir.len(),
{
    if j < ir.len() {
        assert(ir.take(j) =~= ir.drop_last().take(j));
        lemma_label_params_prefix(ir.drop_last(), params, j);
    } else {
        assert(ir.take(j) =~= ir);
    }
}

/// Whether `name` is among `names`.
fn contains_name(names: &Vec<String>, name: &str) -> (r: bool)
    ensures
        r == names_v(names@).contains(name@),
{
    let mut i: usize = 0;
    while i < names.len()
        invariant
            i <= names@.len(),
            forall|k: int| 0 <= k < i ==> names@[k]@ != name@,
        decreases names@.len() - i,
    {
        if str_eq(names[i].as_str(), name) {
            assert(names_v(names@)[i as int] == name@);
            return true;
        }
        i = i + 1;
    }
    assert forall|k: int| 0 <= k < names_v(names@).len() implies names_v(names@)[k] != name@ by {
        assert(names_v(names@)[k] == names@[k]@);
    }
    false
}

/// Backend for generating Windows-compatible x64 assembly.
pub struct WIN64Backend {
    regs: RegisterAllocator,
    function_params: ParamMap,
    diagnostics: Vec<String>,
}

impl WIN64Backend {
    /// The register allocator's state.
    pub closed spec fn regs(&self) -> RState {
        self.regs@
    }

    /// The parameters of each function.
    pub closed spec fn params(&self) -> Map<Seq<char>, Seq<Seq<char>>> {
        param_entries(self.function_params)
    }

    /// The messages reported so far.
    pub closed spec fn log(&self) -> Seq<Seq<char>> {
        msgs(self.diagnostics@)
    }

    /// A backend over the given function parameter table, allocating from
    /// `rax`, `rbx`, `rcx`, `rdx`.
    pub fn new(function_params: ParamMap) -> (r: Self)
        ensures
            r.regs() == (RState { pool: win64_pool(), map: Map::empty(), next: 0 }),
            r.params() == param_entries(function_params),
            r.log() == Seq::<Seq<char>>::empty(),
    {
        let mut pool: Vec<String> = Vec::new();
        pool.push(String::from_str("rax"));
        pool.push(String::from_str("rbx"));
        pool.push(String::from_str("rcx"));
        pool.push(String::from_str("rdx"));
        assert(names_v(pool@) =~= win64_pool());
        let r = Self { regs: RegisterAllocator::new(pool), function_params, diagnostics: Vec::new() };
        assert(r.log() =~= Seq::<Seq<char>>::empty());
        r
    }

    /// The messages reported.
    pub fn into_messages(self) -> (r: Vec<String>)
        ensures
            msgs(r@) == self.log(),
    {
        self.diagnostics
    }

    /// Whether a name is a temporary of the IR generator.
    fn is_temp(name: &str) -> (r: bool)
        ensures
            r == (name@.len() > 0 && name@[0] == 't'),
    {
        let n = name.unicode_len();
        n > 0 && name.get_char(0) == 't'
    }

    fn report(&mut self, m: String)
        ensures
            final(self).log() == old(self).log().push(m@),
            final(self).regs() == old(self).regs(),
            final(self).params() == old(self).params(),
    {
        self.diagnostics.push(m);
        assert(msgs(self.diagnostics@) =~= msgs(old(self).diagnostics@).push(m@));
    }
}

impl WIN64Backend {
    /// Appends a label; for a function, its prologue and the saving of its
    /// parameters, after giving them slots. False, with a message, when the
    /// function has more than four parameters.
    #[verifier::rlimit(40)]
    fn emit_label(&mut self, out: &mut String, frame: &mut StackFrame, name: &str, size: i32) -> (ok: bool)
        requires
            old(frame).wf(),
            size + 8 <= i32::MAX,
            old(self).params().contains_key(name@) ==> old(frame).next() + 8 * old(self).params()[name@].len() + 8
                <= i32::MAX,
        ensures
            final(frame).wf(),
            final(self).regs() == old(self).regs(),
            final(self).params() == old(self).params(),
            ({
                let run = win64_inst(
                    WState { text: old(out)@, regs: old(self).regs(), frame: old(frame).state() },
                    old(self).params(),
                    size as int,
                    IRInstV::Label(name@),
                );
                &&& ok == !run.failed
                &&& final(frame).state() == run.st.frame
                &&& ok ==> final(out)@ == run.st.text && final(self).log() == old(self).log()
                &&& !ok ==> final(self).log() == old(self).log().push(too_many_win64_params())
            }),
    {
        let ghost params = self.params();
        if !self.function_params.contains_key(name) {
            push_label(out, name);
            return true;
        }
        let ps: Vec<String> = match self.function_params.get(name) {
            Some(p) => copy_names(p),
            None => Vec::new(),
        };
        let ghost psv = names_v(ps@);
        assert(psv == params[name@]);
        let actual: &str = if str_eq(name, "main") {
            "micro_main"
        } else {
            name
        };
        proof {
            reveal_strlit("main");
        }
        assert(actual@ == actual_name(name@));
        push_label(out, actual);
        push_ins1(out, "push", "rbp");
        push_ins2(out, "mov", "rbp", "rsp");
        push_ins2(out, "sub", "rsp", decimal_text((size + 8) as i64).as_str());
        let ghost head = out@;
        let ghost f0 = frame.state();
        let mut i: usize = 0;
        assert(psv.take(0) =~= Seq::<Seq<char>>::empty());
        while i < ps.len()
            invariant
                i <= ps@.len(),
                psv == names_v(ps@),
                frame.wf(),
                frame.state() == frame_vars(f0, psv.take(i as int)),
                frame.next() <= f0.next + 8 * i,
                f0.next + 8 * psv.len() + 8 <= i32::MAX,
            decreases ps@.len() - i,
        {
            proof {
                assert(psv.take(i + 1).drop_last() =~= psv.take(i as int));
                assert(psv.take(i + 1).last() == ps@[i as int]@);
            }
            frame.allocate(ps[i].as_str());
            i = i + 1;
        }
        assert(psv.take(ps@.len() as int) =~= psv);
        let ghost f = frame.state();
        proof {
            lemma_frame_vars(f0, psv);
        }
        let mut j: usize = 0;
        assert(psv.take(0) =~= Seq::<Seq<char>>::empty());
        assert(head =~= head + param_moves(f, psv.take(0)));
        while j < ps.len()
            invariant
                j <= ps@.len(),
                j <= 4,
                psv == names_v(ps@),
                frame.wf(),
                frame.state() == f,
                forall|k: int| 0 <= k < psv.len() ==> f.slots.contains_key(#[trigger] psv[k]),
                out@ == head + param_moves(f, psv.take(j as int)),
                old(self).params().contains_key(name@),
                psv == old(self).params()[name@],
                f0 == old(frame).state(),
                f == frame_vars(f0, psv),
                self.regs() == old(self).regs(),
                self.params() == old(self).params(),
                self.log() == old(self).log(),
            decreases ps@.len() - j,
        {
            if j >= 4 {
                self.report(String::from_str("Too many parameters for Windows ABI"));
                proof {
                    reveal_strlit("Too many parameters for Windows ABI");
                }
                assert(self.log() =~= old(self).log().push(too_many_win64_params()));
                assert(f == frame_vars(f0, old(self).params()[name@]));
                return false;
            }
            proof {
                assert(psv.take(j + 1).drop_last() =~= psv.take(j as int));
                assert(psv.take(j + 1).last() == psv[j as int]);
            }
            let off = frame.get(ps[j].as_str());
            push_ins2(out, "mov", slot_text(off as i64).as_str(), arg_reg_text(j));
            assert(out@ =~= head + param_moves(f, psv.take(j + 1)));
            j = j + 1;
        }
        assert(psv.take(ps@.len() as int) =~= psv);
        assert(out@ =~= old(out)@ + (label_line(actual_name(name@)) + ins1("push"@, "rbp"@) + ins2("mov"@, "rbp"@, "rsp"@)
            + ins2("sub"@, "rsp"@, decimal(size + 8))) + param_moves(f, psv));
        true
    }

    /// Appends a call: the arguments, the call inside 40 bytes of shadow
    /// space, and the result.
    fn emit_call(&mut self, out: &mut String, d: &String, func: &String, args: &Vec<String>)
        requires
            args@.len() <= 4,
            regs_room(old(self).regs(), args@.len() + 1),
        ensures
            ({
                let (t, r1) = call_moves(old(self).regs(), names_v(args@));
                let (rd, r2) = reg_alloc(r1, d@);
                &&& final(out)@ == old(out)@ + t + "    sub rsp, 40\n"@ + ins1("call"@, func@) + "    add rsp, 40\n"@
                    + ins2("mov"@, rd, "rax"@)
                &&& final(self).regs() == r2
            }),
            final(self).params() == old(self).params(),
            final(self).log() == old(self).log(),
    {
        let ghost r0 = self.regs@;
        proof {
            lemma_call_moves(r0, names_v(args@));
            lemma_reg_alloc(call_moves(r0, names_v(args@)).1, d@);
        }
        emit_call_args(&mut self.regs, out, args);
        out.append("    sub rsp, 40\n");
        push_ins1(out, "call", func.as_str());
        out.append("    add rsp, 40\n");
        let rd = self.regs.allocate(d.as_str());
        push_ins2(out, "mov", rd.as_str(), "rax");
    }
}

impl crate::arch::Architecture for WIN64Backend {
    open spec fn accepts(&self, ir: Seq<IRInstV>) -> bool {
        win64_accepts(self.regs(), self.params(), ir)
    }

    open spec fn emitted(&self, ir: Seq<IRInstV>) -> Seq<char> {
        win64_program(self.regs(), self.params(), ir).0
    }

    open spec fn after(&self, ir: Seq<IRInstV>, later: Self) -> bool {
        &&& later.regs() == win64_program(self.regs(), self.params(), ir).1
        &&& later.params() == self.params()
        &&& later.log() == self.log() + win64_program(self.regs(), self.params(), ir).2
    }

    #[verifier::rlimit(60)]
    fn emit_program(&mut self, ir: &[IRInst]) -> (r: String) {
        let ghost iv = insts_v(ir@);
        let ghost params = self.params();
        let ghost r0 = self.regs();
        let mut out = String::from_str("global main\n");
        proof {
            reveal_strlit("global main\n");
        }
        let mut externs: Vec<String> = Vec::new();
        externs.push(String::from_str("printf"));
        assert(names_v(externs@) =~= extern_names(iv.take(0)));
        let mut i: usize = 0;
        while i < ir.len()
            invariant
                i <= ir@.len(),
                iv == insts_v(ir@),
                names_v(externs@) == extern_names(iv.take(i as int)),
            decreases ir@.len() - i,
        {
            proof {
                assert(iv.take(i + 1).drop_last() =~= iv.take(i as int));
                assert(iv.take(i + 1).last() == ir@[i as int]@);
            }
            match &ir[i] {
                IRInst::Extern(name) => {
                    if !contains_name(&externs, name.as_str()) {
                        let ghost before = externs@;
                        externs.push(name.clone());
                        assert(names_v(externs@) =~= names_v(before).push(name@));
                    }
                },
                _ => {},
            }
            i = i + 1;
        }
        assert(iv.take(ir@.len() as int) =~= iv);
        let ghost ns = names_v(externs@);
        let ghost g = out@;
        let mut k: usize = 0;
        assert(ns.take(0) =~= Seq::<Seq<char>>::empty());
        assert(g =~= g + extern_decls(ns.take(0)));
        while k < externs.len()
            invariant
                k <= externs@.len(),
                ns == names_v(externs@),
                out@ == g + extern_decls(ns.take(k as int)),
            decreases externs@.len() - k,
        {
            proof {
                assert(ns.take(k + 1).drop_last() =~= ns.take(k as int));
                assert(ns.take(k + 1).last() == externs@[k as int]@);
            }
            out.append("extern ");
            out.append(externs[k].as_str());
            out.append("\n");
            assert(out@ =~= g + extern_decls(ns.take(k + 1)));
            k = k + 1;
        }
        assert(ns.take(externs@.len() as int) =~= ns);
        out.append("section .data\n");
        out.append("fmt: db \"%lld\", 10, 0\n");
        out.append("section .text\n\n");
        let mut frame = StackFrame::new();
        let mut j: usize = 0;
        assert(iv.take(0) =~= Seq::<IRInstV>::empty());
        assert(body_vars(Seq::<IRInstV>::empty()) =~= Seq::<Seq<char>>::empty());
        while j < ir.len()
            invariant
                j <= ir@.len(),
                iv == insts_v(ir@),
                frame.wf(),
                frame.state() == frame_vars(empty_frame(), body_vars(iv.take(j as int))),
                frame.next() <= 8 + 8 * body_vars(iv.take(j as int)).len(),
                body_vars(iv.take(j as int)).len() <= body_vars(iv).len(),
                win64_accepts(r0, params, iv),
            decreases ir@.len() - j,
        {
            let ghost pre = body_vars(iv.take(j as int));
            proof {
                assert(iv.take(j + 1) =~= iv.take(j as int).push(ir@[j as int]@));
                lemma_body_vars_push(iv.take(j as int), ir@[j as int]@);
                lemma_body_vars_prefix(iv, j + 1);
            }
            match &ir[j] {
                IRInst::StoreVar(n, _) => {
                    assert((pre + seq![n@]).drop_last() =~= pre);
                    frame.allocate(n.as_str());
                },
                IRInst::LoadVar(_, n) => {
                    assert((pre + seq![n@]).drop_last() =~= pre);
                    frame.allocate(n.as_str());
                },
                _ => {
                    assert(pre + Seq::<Seq<char>>::empty() =~= pre);
                },
            }
            j = j + 1;
        }
        assert(iv.take(ir@.len() as int) =~= iv);
        let ghost f0 = frame.state();
        let frame_size = frame.frame_size();
        out.append("main:\n");
        out.append("    push rbx\n");
        out.append("    sub rsp, 40\n");
        out.append("    call micro_main\n");
        out.append("    mov rdx, rax\n");
        out.append("    lea rcx, [rel fmt]\n");
        out.append("    sub rsp, 32\n");
        out.append("    call printf\n");
        out.append("    add rsp, 32\n");
        out.append("    xor eax, eax\n");
        out.append("    add rsp, 40\n");
        out.append("    pop rbx\n");
        out.append("    ret\n\n");
        let ghost st0 = WState { text: out@, regs: r0, frame: f0 };
        assert(out@ =~= "global main\n"@ + extern_decls(extern_names(iv)) + win64_data() + win64_main());
        proof {
            lemma_frame_vars(empty_frame(), body_vars(iv));
            lemma_body_vars(iv);
        }
        let mut i: usize = 0;
        assert(iv.take(0) =~= Seq::<IRInstV>::empty());
        while i < ir.len()
            invariant
                i <= ir@.len(),
                iv == insts_v(ir@),
                win64_accepts(r0, params, iv),
                frame_size == frame_size_of(f0),
                f0.next <= 8 + 8 * body_vars(iv).len(),
                forall|k: int| 0 <= k < body_vars(iv).len() ==> f0.slots.contains_key(#[trigger] body_vars(iv)[k]),
                forall|a: int, k: int|
                    0 <= a < iv.len() && 0 <= k < inst_vars(iv[a]).len() ==> body_vars(iv).contains(
                        #[trigger] inst_vars(#[trigger] iv[a])[k],
                    ),
                !win64_body(st0, params, frame_size as int, iv.take(i as int)).failed,
                out@ == win64_body(st0, params, frame_size as int, iv.take(i as int)).st.text,
                self.regs() == win64_body(st0, params, frame_size as int, iv.take(i as int)).st.regs,
                frame.state() == win64_body(st0, params, frame_size as int, iv.take(i as int)).st.frame,
                frame.wf(),
                self.params() == params,
                self.log() == old(self).log(),
                r0 == old(self).regs(),
                params == old(self).params(),
                st0.regs == r0,
                st0.frame == f0,
                st0.text == "global main\n"@ + extern_decls(extern_names(iv)) + win64_data() + win64_main(),
                f0 == frame_vars(empty_frame(), body_vars(iv)),
            decreases ir@.len() - i,
        {
            let ghost pre = iv.take(i as int);
            proof {
                assert(iv.take(i + 1).drop_last() =~= pre);
                assert(iv.take(i + 1).last() == iv[i as int]);
                assert(iv.take(i + 1) =~= pre.push(iv[i as int]));
                lemma_body_vars_push(pre, iv[i as int]);
                lemma_body_vars_prefix(iv, i + 1);
                lemma_label_params_prefix(iv, params, i + 1);
                lemma_win64_body(st0, params, frame_size as int, pre);
                assert(label_params(iv.take(i + 1), params) == label_params(pre, params) + match iv[i as int] {
                    IRInstV::Label(n) => params_of(params, n).len(),
                    _ => 0nat,
                });
                assert(call_ok(iv[i as int]));
                let cur = win64_body(st0, params, frame_size as int, pre).st;
                assert(slots_cover(cur.frame.slots, iv[i as int])) by {
                    let ins = iv[i as int];
                    if inst_vars(ins).len() > 0 {
                        let v = inst_vars(ins)[0];
                        assert(body_vars(iv).contains(v));
                        let m = choose|m: int| 0 <= m < body_vars(iv).len() && body_vars(iv)[m] == v;
                        assert(f0.slots.contains_key(body_vars(iv)[m]));
                    }
                }
            }
            match &ir[i] {
                IRInst::Extern(_) => {},
                IRInst::Label(name) => {
                    let ok = self.emit_label(&mut out, &mut frame, name.as_str(), frame_size);
                    if !ok {
                        proof {
                            lemma_win64_failed(st0, params, frame_size as int, iv, i + 1);
                        }
                        assert(self.log() =~= old(self).log() + seq![too_many_win64_params()]);
                        return String::new();
                    }
                },
                IRInst::Call(d, func, args) => {
                    self.emit_call(&mut out, d, func, args);
                },
                _ => {
                    emit_common(&mut self.regs, &frame, &mut out, &ir[i]);
                },
            }
            i = i + 1;
        }
        assert(iv.take(ir@.len() as int) =~= iv);
        assert(self.log() =~= old(self).log() + Seq::<Seq<char>>::empty());
        out
    }
}

} // verus!
