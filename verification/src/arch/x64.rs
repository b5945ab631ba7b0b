//! What the two x86-64 backends emit alike: the instructions that touch
//! only registers, stack slots and memory.
use vstd::prelude::*;
use crate::ir::{IRInst, IRInstV, binary_parts, ir_binary_value};
use crate::listing::{
    ins0, ins1, ins2, deref, slot, push_ins0, push_ins1, push_ins2, deref_text, slot_text,
    decimal_text,
};
use crate::regalloc::{RState, reg_alloc, RegisterAllocator};
use crate::stackframe::StackFrame;
use crate::text::{decimal, str_eq};

verus! {

/// How many registers an instruction asks the allocator for.
pub open spec fn alloc_count(i: IRInstV) -> nat {
    match i {
        IRInstV::LoadConst(..) | IRInstV::LoadVar(..) | IRInstV::StoreVar(..)
        | IRInstV::StackAlloc(..) | IRInstV::JumpIfZero(..) | IRInstV::Return(..) => 1,
        IRInstV::LoadMem(..) | IRInstV::StoreMem(..) => 2,
        IRInstV::Call(_, _, args) => args.len() + 1,
        IRInstV::Extern(..) | IRInstV::Label(..) | IRInstV::Jump(..) => 0,
        _ => 3,
    }
}

/// How many registers a list of instructions asks for.
pub open spec fn alloc_total(ir: Seq<IRInstV>) -> nat
    decreases ir.len(),
{
    if ir.len() == 0 {
        0
    } else {
        alloc_total(ir.drop_last()) + alloc_count(ir.last())
    }
}

/// The variables an instruction names: the one `StoreVar` writes or the
/// one `LoadVar` reads.
pub open spec fn inst_vars(i: IRInstV) -> Seq<Seq<char>> {
    match i {
        IRInstV::StoreVar(n, _) => seq![n],
        IRInstV::LoadVar(_, n) => seq![n],
        _ => Seq::empty(),
    }
}

/// The variables the instructions name, in order, repeats included.
pub open spec fn body_vars(body: Seq<IRInstV>) -> Seq<Seq<char>>
    decreases body.len(),
{
    if body.len() == 0 {
        Seq::empty()
    } else {
        body_vars(body.drop_last()) + inst_vars(body.last())
    }
}

/// Every variable an instruction names is among the body's variables.
pub proof fn lemma_body_vars(body: Seq<IRInstV>)
    ensures
        forall|j: int, k: int|
            0 <= j < body.len() && 0 <= k < inst_vars(body[j]).len() ==> body_vars(body).contains(
                #[trigger] inst_vars(#[trigger] body[j])[k],
            ),
    decreases body.len(),
{
    if body.len() > 0 {
        let b = body.drop_last();
        lemma_body_vars(b);
        assert forall|j: int, k: int|
            0 <= j < body.len() && 0 <= k < inst_vars(body[j]).len() implies body_vars(body).contains(
                #[trigger] inst_vars(#[trigger] body[j])[k],
            ) by {
            let v = inst_vars(body[j])[k];
            if j < body.len() - 1 {
                assert(b[j] == body[j]);
                assert(body_vars(b).contains(v));
                let m = choose|m: int| 0 <= m < body_vars(b).len() && body_vars(b)[m] == v;
                assert(body_vars(body)[m] == v);
            } else {
                assert(body_vars(body)[body_vars(b).len() + k] == v);
            }
        }
    }
}

/// A prefix names no more variables than the whole.
pub proof fn lemma_body_vars_prefix(body: Seq<IRInstV>, j: int)
    requires
        0 <= j <= body.len(),
    ensures
        body_vars(body.take(j)).len() <= body_vars(body).len(),
        alloc_total(body.take(j)) <= alloc_total(body),
    decreases body.len(),
{
    if j < body.len() {
        assert(body.take(j) =~= body.drop_last().take(j));
        lemma_body_vars_prefix(body.drop_last(), j);
    } else {
        assert(body.take(j) =~= body);
    }
}

/// Appending an instruction appends its variables.
pub proof fn lemma_body_vars_push(body: Seq<IRInstV>, i: IRInstV)
    ensures
        body_vars(body.push(i)) == body_vars(body) + inst_vars(i),
        alloc_total(body.push(i)) == alloc_total(body) + alloc_count(i),
{
    assert(body.push(i).drop_last() =~= body);
}

/// The allocator can serve `n` more requests.
pub open spec fn regs_room(r: RState, n: nat) -> bool {
    r.pool.len() > 0 && r.next + n <= usize::MAX
}

/// A request keeps the pool and takes at most one more register.
pub proof fn lemma_reg_alloc(r: RState, t: Seq<char>)
    ensures
        reg_alloc(r, t).1.pool == r.pool,
        r.next <= reg_alloc(r, t).1.next <= r.next + 1,
{
}

/// The condition code `setcc` uses for a comparison.
pub open spec fn setcc(i: IRInstV) -> Seq<char> {
    match i {
        IRInstV::Eq(..) => "sete"@,
        IRInstV::Neq(..) => "setne"@,
        IRInstV::Lt(..) => "setl"@,
        IRInstV::Gt(..) => "setg"@,
        IRInstV::LtEq(..) => "setle"@,
        _ => "setge"@,
    }
}

/// The three registers of `dst = a op b`, requested in that order.
pub open spec fn regs3(r: RState, d: Seq<char>, a: Seq<char>, b: Seq<char>) -> (
    Seq<char>,
    Seq<char>,
    Seq<char>,
    RState,
) {
    let (rd, r1) = reg_alloc(r, d);
    let (ra, r2) = reg_alloc(r1, a);
    let (rb, r3) = reg_alloc(r2, b);
    (rd, ra, rb, r3)
}

/// The text for a comparison `rd = (ra cc rb)`.
pub open spec fn compare_text(cc: Seq<char>, rd: Seq<char>, ra: Seq<char>, rb: Seq<char>) -> Seq<char> {
    ins2("cmp"@, ra, rb) + ins1(cc, "al"@) + ins2("movzx"@, "rax"@, "al"@) + ins2("mov"@, rd, "rax"@)
}

/// An x86-64 instruction of an arithmetic sequence, as a value.
pub enum Step {
    /// `op dst, src`, with `op` one of `mov`, `add`, `sub`, `imul`.
    Two(Seq<char>, Seq<char>, Seq<char>),
    /// `cqo`: `rdx` takes the sign of `rax`.
    Cqo,
    /// `idiv src`: `rax` divided by `src`, the quotient rounded toward zero.
    Idiv(Seq<char>),
}

/// The text of one step.
pub open spec fn step_text(st: Step) -> Seq<char> {
    match st {
        Step::Two(op, d, src) => ins2(op, d, src),
        Step::Cqo => ins0("cqo"@),
        Step::Idiv(src) => ins1("idiv"@, src),
    }
}

/// The text of a sequence of steps.
pub open spec fn steps_text(ss: Seq<Step>) -> Seq<char>
    decreases ss.len(),
{
    if ss.len() == 0 {
        Seq::empty()
    } else {
        step_text(ss[0]) + steps_text(ss.drop_first())
    }
}

/// The steps for `rd = ra op rb` with `op` one of `add`, `sub`, `imul`.
/// Where `rd` is `rb`, a commutative `op` is applied to `rd` directly, and
/// `sub` first saves `b` in the scratch register `r11`, which no allocator
/// hands out.
pub open spec fn arith_steps(op: Seq<char>, rd: Seq<char>, ra: Seq<char>, rb: Seq<char>) -> Seq<Step> {
    if rd != rb {
        seq![Step::Two("mov"@, rd, ra), Step::Two(op, rd, rb)]
    } else if op == "sub"@ {
        seq![Step::Two("mov"@, "r11"@, rb), Step::Two("mov"@, rd, ra), Step::Two("sub"@, rd, "r11"@)]
    } else {
        seq![Step::Two(op, rd, ra)]
    }
}

/// The steps for `rd = ra / rb`: the dividend goes to `rax` and `cqo`
/// fills `rdx`, so a divisor in either is first saved in `r11`.
pub open spec fn div_steps(rd: Seq<char>, ra: Seq<char>, rb: Seq<char>) -> Seq<Step> {
    if rb == "rax"@ || rb == "rdx"@ {
        seq![
            Step::Two("mov"@, "r11"@, rb),
            Step::Two("mov"@, "rax"@, ra),
            Step::Cqo,
            Step::Idiv("r11"@),
            Step::Two("mov"@, rd, "rax"@),
        ]
    } else {
        seq![Step::Two("mov"@, "rax"@, ra), Step::Cqo, Step::Idiv(rb), Step::Two("mov"@, rd, "rax"@)]
    }
}

/// The text for `rd = ra op rb`.
pub open spec fn arith_text(op: Seq<char>, rd: Seq<char>, ra: Seq<char>, rb: Seq<char>) -> Seq<char> {
    steps_text(arith_steps(op, rd, ra, rb))
}

/// The text for `rd = ra / rb`.
pub open spec fn div_text(rd: Seq<char>, ra: Seq<char>, rb: Seq<char>) -> Seq<char> {
    steps_text(div_steps(rd, ra, rb))
}

/// Integer division rounded toward zero, as `idiv` does it.
pub open spec fn trunc_div(a: int, b: int) -> int {
    let q = (if a < 0 { -a } else { a }) / (if b < 0 { -b } else { b });
    if (a < 0) != (b < 0) { -q } else { q }
}

/// `regs` with register `r` set to `v`.
pub open spec fn set_reg(regs: spec_fn(Seq<char>) -> int, r: Seq<char>, v: int) -> spec_fn(Seq<char>) -> int {
    |x: Seq<char>| if x == r { v } else { regs(x) }
}

/// The register values after one step (values as mathematical integers).
pub open spec fn step_run(regs: spec_fn(Seq<char>) -> int, st: Step) -> spec_fn(Seq<char>) -> int {
    match st {
        Step::Two(op, d, src) => {
            let v = if op == "add"@ {
                regs(d) + regs(src)
            } else if op == "sub"@ {
                regs(d) - regs(src)
            } else if op == "imul"@ {
                regs(d) * regs(src)
            } else {
                regs(src)
            };
            set_reg(regs, d, v)
        },
        Step::Cqo => set_reg(regs, "rdx"@, if regs("rax"@) < 0 { -1 } else { 0 }),
        Step::Idiv(src) => set_reg(regs, "rax"@, trunc_div(regs("rax"@), regs(src))),
    }
}

/// The register values after a sequence of steps.
pub open spec fn run_steps(regs: spec_fn(Seq<char>) -> int, ss: Seq<Step>) -> spec_fn(Seq<char>) -> int
    decreases ss.len(),
{
    if ss.len() == 0 {
        regs
    } else {
        run_steps(step_run(regs, ss[0]), ss.drop_first())
    }
}

/// The value `a op b`.
pub open spec fn arith_value(op: Seq<char>, a: int, b: int) -> int {
    if op == "add"@ {
        a + b
    } else if op == "sub"@ {
        a - b
    } else {
        a * b
    }
}

/// The operation and register names the arithmetic steps use are distinct.
proof fn lemma_names_distinct()
    ensures
        "mov"@ != "add"@,
        "mov"@ != "sub"@,
        "mov"@ != "imul"@,
        "add"@ != "sub"@,
        "add"@ != "imul"@,
        "sub"@ != "imul"@,
        "rax"@ != "rdx"@,
        "rax"@ != "r11"@,
        "rdx"@ != "r11"@,
{
    reveal_strlit("add");
    reveal_strlit("sub");
    reveal_strlit("imul");
    reveal_strlit("mov");
    reveal_strlit("rax");
    reveal_strlit("rdx");
    reveal_strlit("r11");
    assert("mov"@[0] != "add"@[0]);
    assert("mov"@[0] != "sub"@[0]);
    assert("mov"@.len() != "imul"@.len());
    assert("add"@[0] != "sub"@[0]);
    assert("add"@.len() != "imul"@.len());
    assert("sub"@.len() != "imul"@.len());
    assert("rax"@[1] != "rdx"@[1]);
    assert("rax"@[1] != "r11"@[1]);
    assert("rdx"@[1] != "r11"@[1]);
}

/// `rd = ra op rb` leaves `a op b` in `rd`, whichever of the three
/// registers coincide, so long as none of them is the scratch register.
pub proof fn lemma_arith_computes(
    op: Seq<char>,
    rd: Seq<char>,
    ra: Seq<char>,
    rb: Seq<char>,
    regs: spec_fn(Seq<char>) -> int,
)
    requires
        op == "add"@ || op == "sub"@ || op == "imul"@,
        rd != "r11"@,
        ra != "r11"@,
        rb != "r11"@,
    ensures
        run_steps(regs, arith_steps(op, rd, ra, rb))(rd) == arith_value(op, regs(ra), regs(rb)),
{
    lemma_names_distinct();
    let ss = arith_steps(op, rd, ra, rb);
    let (a, b) = (regs(ra), regs(rb));
    if rd != rb {
        let r1 = step_run(regs, ss[0]);
        assert(r1(rd) == a && r1(rb) == b);
        let r2 = step_run(r1, ss[1]);
        assert(r2(rd) == arith_value(op, a, b));
        lemma_run_two(regs, ss);
    } else if op == "sub"@ {
        let r1 = step_run(regs, ss[0]);
        assert(r1("r11"@) == b && r1(ra) == a);
        let r2 = step_run(r1, ss[1]);
        assert(r2(rd) == a && r2("r11"@) == b);
        let r3 = step_run(r2, ss[2]);
        assert(r3(rd) == a - b);
        lemma_run_three(regs, ss);
    } else {
        let r1 = step_run(regs, ss[0]);
        assert(b * a == a * b) by (nonlinear_arith);
        assert(r1(rd) == arith_value(op, a, b));
        assert(ss.drop_first() =~= Seq::<Step>::empty());
        assert(run_steps(regs, ss) == run_steps(r1, ss.drop_first()));
    }
}

/// Running two steps is running one, then the other.
proof fn lemma_run_two(regs: spec_fn(Seq<char>) -> int, ss: Seq<Step>)
    requires
        ss.len() == 2,
    ensures
        run_steps(regs, ss) == step_run(step_run(regs, ss[0]), ss[1]),
{
    let r1 = step_run(regs, ss[0]);
    assert(run_steps(regs, ss) == run_steps(r1, ss.drop_first()));
    assert(ss.drop_first()[0] == ss[1]);
    assert(ss.drop_first().drop_first() =~= Seq::<Step>::empty());
    assert(run_steps(r1, ss.drop_first()) == run_steps(step_run(r1, ss[1]), ss.drop_first().drop_first()));
}

/// Running three steps is running the first, then the other two.
proof fn lemma_run_three(regs: spec_fn(Seq<char>) -> int, ss: Seq<Step>)
    requires
        ss.len() == 3,
    ensures
        run_steps(regs, ss) == step_run(step_run(step_run(regs, ss[0]), ss[1]), ss[2]),
{
    let r1 = step_run(regs, ss[0]);
    assert(run_steps(regs, ss) == run_steps(r1, ss.drop_first()));
    lemma_run_two(r1, ss.drop_first());
}

/// Running four steps is running the first, then the other three.
proof fn lemma_run_four(regs: spec_fn(Seq<char>) -> int, ss: Seq<Step>)
    requires
        ss.len() == 4,
    ensures
        run_steps(regs, ss) == step_run(step_run(step_run(step_run(regs, ss[0]), ss[1]), ss[2]), ss[3]),
{
    let r1 = step_run(regs, ss[0]);
    assert(run_steps(regs, ss) == run_steps(r1, ss.drop_first()));
    lemma_run_three(r1, ss.drop_first());
}

/// Running five steps is running the first, then the other four.
proof fn lemma_run_five(regs: spec_fn(Seq<char>) -> int, ss: Seq<Step>)
    requires
        ss.len() == 5,
    ensures
        run_steps(regs, ss) == step_run(
            step_run(step_run(step_run(step_run(regs, ss[0]), ss[1]), ss[2]), ss[3]),
            ss[4],
        ),
{
    let r1 = step_run(regs, ss[0]);
    assert(run_steps(regs, ss) == run_steps(r1, ss.drop_first()));
    lemma_run_four(r1, ss.drop_first());
}

/// `rd = ra / rb` leaves the quotient of `a` by `b`, rounded toward zero, in
/// `rd`, whichever registers the three are, so long as none of them is the
/// scratch register.
pub proof fn lemma_div_computes(rd: Seq<char>, ra: Seq<char>, rb: Seq<char>, regs: spec_fn(Seq<char>) -> int)
    requires
        rd != "r11"@,
        ra != "r11"@,
        rb != "r11"@,
    ensures
        run_steps(regs, div_steps(rd, ra, rb))(rd) == trunc_div(regs(ra), regs(rb)),
{
    lemma_names_distinct();
    let ss = div_steps(rd, ra, rb);
    let (a, b) = (regs(ra), regs(rb));
    if rb == "rax"@ || rb == "rdx"@ {
        let r1 = step_run(regs, ss[0]);
        assert(r1("r11"@) == b && r1(ra) == a);
        let r2 = step_run(r1, ss[1]);
        assert(r2("rax"@) == a && r2("r11"@) == b);
        let r3 = step_run(r2, ss[2]);
        assert(r3("rax"@) == a && r3("r11"@) == b);
        let r4 = step_run(r3, ss[3]);
        assert(r4("rax"@) == trunc_div(a, b));
        let r5 = step_run(r4, ss[4]);
        assert(r5(rd) == trunc_div(a, b));
        lemma_run_five(regs, ss);
    } else {
        let r1 = step_run(regs, ss[0]);
        assert(r1("rax"@) == a && r1(rb) == b);
        let r2 = step_run(r1, ss[1]);
        assert(r2("rax"@) == a && r2(rb) == b);
        let r3 = step_run(r2, ss[2]);
        assert(r3("rax"@) == trunc_div(a, b));
        let r4 = step_run(r3, ss[3]);
        assert(r4(rd) == trunc_div(a, b));
        lemma_run_four(regs, ss);
    }
}

/// Whether the x86 condition code `cc` holds after `cmp a, b` (the signed
/// comparisons; `z` and `nz` are other names of `e` and `ne`).
pub open spec fn cc_holds(cc: Seq<char>, a: int, b: int) -> bool {
    if cc == "e"@ || cc == "z"@ {
        a == b
    } else if cc == "ne"@ || cc == "nz"@ {
        a != b
    } else if cc == "l"@ {
        a < b
    } else if cc == "g"@ {
        a > b
    } else if cc == "le"@ {
        a <= b
    } else if cc == "ge"@ {
        a >= b
    } else {
        false
    }
}

/// The conditional jump on condition code `cc`.
pub open spec fn jump_op(cc: Seq<char>) -> Seq<char> {
    "j"@ + cc
}

/// The instruction that sets a byte from condition code `cc`.
pub open spec fn set_op(cc: Seq<char>) -> Seq<char> {
    "set"@ + cc
}

/// `JumpIfZero(c, l)` compares the register of `c` with 0 and then jumps
/// to `l` on a condition that holds exactly when that register is 0: the
/// jump is taken if and only if `c` is zero.
pub proof fn lemma_x64_jump_if_zero(r: RState, slots: Map<Seq<char>, int>, c: Seq<char>, l: Seq<char>)
    ensures
        exists|cc: Seq<char>|
            {
                &&& x64_inst(r, slots, IRInstV::JumpIfZero(c, l)) == (
                    ins2("cmp"@, reg_alloc(r, c).0, "0"@) + ins1(#[trigger] jump_op(cc), l),
                    reg_alloc(r, c).1,
                )
                &&& forall|v: int| #[trigger] cc_holds(cc, v, 0) == (v == 0)
            },
{
    reveal_strlit("je");
    reveal_strlit("j");
    reveal_strlit("e");
    assert(jump_op("e"@) =~= "je"@);
    assert(forall|v: int| #[trigger] cc_holds("e"@, v, 0) == (v == 0));
}

/// A comparison `d = a cmp b` compares the registers of `a` and `b` and
/// sets the register of `d` from a condition code that holds exactly when
/// the comparison the instruction stands for holds.
pub proof fn lemma_x64_compare(r: RState, slots: Map<Seq<char>, int>, i: IRInstV)
    requires
        i is Eq || i is Neq || i is Lt || i is Gt || i is LtEq || i is GtEq,
    ensures
        exists|cc: Seq<char>|
            {
                let (d, a, b) = binary_parts(i).unwrap();
                let (rd, ra, rb, r3) = regs3(r, d, a, b);
                &&& x64_inst(r, slots, i) == (compare_text(#[trigger] set_op(cc), rd, ra, rb), r3)
                &&& forall|x: i64, y: i64| #[trigger] cc_holds(cc, x as int, y as int) == (ir_binary_value(i, x, y) == Some(1i64))
            },
{
    reveal_strlit("set");
    reveal_strlit("sete");
    reveal_strlit("setne");
    reveal_strlit("setl");
    reveal_strlit("setg");
    reveal_strlit("setle");
    reveal_strlit("setge");
    reveal_strlit("e");
    reveal_strlit("ne");
    reveal_strlit("l");
    reveal_strlit("g");
    reveal_strlit("le");
    reveal_strlit("ge");
    reveal_strlit("z");
    reveal_strlit("nz");
    let cc: Seq<char> = match i {
        IRInstV::Eq(..) => "e"@,
        IRInstV::Neq(..) => "ne"@,
        IRInstV::Lt(..) => "l"@,
        IRInstV::Gt(..) => "g"@,
        IRInstV::LtEq(..) => "le"@,
        _ => "ge"@,
    };
    assert(set_op(cc) =~= setcc(i));
    assert(cc.len() == 1 ==> cc != "ne"@ && cc != "nz"@ && cc != "le"@ && cc != "ge"@);
    assert("e"@ != "z"@) by { assert("e"@[0] != "z"@[0]); }
    assert("l"@ != "e"@ && "l"@ != "z"@) by { assert("l"@[0] != "e"@[0]); assert("l"@[0] != "z"@[0]); }
    assert("g"@ != "e"@ && "g"@ != "z"@ && "g"@ != "l"@) by {
        assert("g"@[0] != "e"@[0]);
        assert("g"@[0] != "z"@[0]);
        assert("g"@[0] != "l"@[0]);
    }
    assert("ne"@ != "nz"@) by { assert("ne"@[1] != "nz"@[1]); }
    assert("le"@ != "ne"@ && "le"@ != "nz"@) by { assert("le"@[0] != "ne"@[0]); assert("le"@[0] != "nz"@[0]); }
    assert("ge"@ != "ne"@ && "ge"@ != "nz"@ && "ge"@ != "le"@) by {
        assert("ge"@[0] != "ne"@[0]);
        assert("ge"@[0] != "nz"@[0]);
        assert("ge"@[0] != "le"@[0]);
    }
    assert forall|x: i64, y: i64| #[trigger] cc_holds(cc, x as int, y as int) == (ir_binary_value(i, x, y) == Some(1i64)) by {}
}

/// Every register the allocator has given out is one of its pool.
pub open spec fn from_pool(r: RState) -> bool {
    &&& r.pool.len() > 0
    &&& r.next >= 0
    &&& forall|t: Seq<char>| #[trigger] r.map.contains_key(t) ==> r.pool.contains(r.map[t])
}

/// A request is served from the pool.
proof fn lemma_alloc_from_pool(r: RState, t: Seq<char>)
    requires
        from_pool(r),
    ensures
        r.pool.contains(reg_alloc(r, t).0),
        from_pool(reg_alloc(r, t).1),
{
    if !r.map.contains_key(t) {
        let k = r.next % (r.pool.len() as int);
        assert(0 <= k < r.pool.len());
        assert(r.pool[k] == reg_alloc(r, t).0);
    }
}

/// The arithmetic both x86-64 backends emit computes its value: with an
/// allocator that hands out only pool registers and a pool without the
/// scratch register `r11`, `d = a op b` leaves `a op b` in the register of
/// `d`, and `d = a / b` the quotient rounded toward zero, for any values the
/// registers held before.
pub proof fn lemma_x64_arith(r: RState, slots: Map<Seq<char>, int>, i: IRInstV, regs: spec_fn(Seq<char>) -> int)
    requires
        from_pool(r),
        !r.pool.contains("r11"@),
        i is Add || i is Sub || i is Mul || i is Div,
    ensures
        ({
            let (d, a, b) = match i {
                IRInstV::Add(d, a, b) | IRInstV::Sub(d, a, b) | IRInstV::Mul(d, a, b)
                | IRInstV::Div(d, a, b) => (d, a, b),
                _ => (Seq::empty(), Seq::empty(), Seq::empty()),
            };
            let (rd, ra, rb, r3) = regs3(r, d, a, b);
            let steps = match i {
                IRInstV::Add(..) => arith_steps("add"@, rd, ra, rb),
                IRInstV::Sub(..) => arith_steps("sub"@, rd, ra, rb),
                IRInstV::Mul(..) => arith_steps("imul"@, rd, ra, rb),
                _ => div_steps(rd, ra, rb),
            };
            let value = match i {
                IRInstV::Add(..) => regs(ra) + regs(rb),
                IRInstV::Sub(..) => regs(ra) - regs(rb),
                IRInstV::Mul(..) => regs(ra) * regs(rb),
                _ => trunc_div(regs(ra), regs(rb)),
            };
            &&& x64_inst(r, slots, i) == (steps_text(steps), r3)
            &&& run_steps(regs, steps)(rd) == value
        }),
{
    let (d, a, b) = match i {
        IRInstV::Add(d, a, b) | IRInstV::Sub(d, a, b) | IRInstV::Mul(d, a, b)
        | IRInstV::Div(d, a, b) => (d, a, b),
        _ => (Seq::empty(), Seq::empty(), Seq::empty()),
    };
    lemma_alloc_from_pool(r, d);
    let r1 = reg_alloc(r, d).1;
    lemma_alloc_from_pool(r1, a);
    let r2 = reg_alloc(r1, a).1;
    lemma_alloc_from_pool(r2, b);
    let (rd, ra, rb, r3) = regs3(r, d, a, b);
    assert(rd != "r11"@ && ra != "r11"@ && rb != "r11"@);
    lemma_names_distinct();
    reveal_strlit("add");
    reveal_strlit("sub");
    reveal_strlit("imul");
    match i {
        IRInstV::Add(..) => lemma_arith_computes("add"@, rd, ra, rb, regs),
        IRInstV::Sub(..) => lemma_arith_computes("sub"@, rd, ra, rb, regs),
        IRInstV::Mul(..) => lemma_arith_computes("imul"@, rd, ra, rb, regs),
        _ => lemma_div_computes(rd, ra, rb, regs),
    }
}

/// The text of an instruction both x86-64 backends emit the same way, and
/// the allocator after it; `slots` are the stack slots of the variables.
pub open spec fn x64_inst(r: RState, slots: Map<Seq<char>, int>, i: IRInstV) -> (Seq<char>, RState) {
    match i {
        IRInstV::LoadConst(d, v) => {
            let (rd, r1) = reg_alloc(r, d);
            (ins2("mov"@, rd, decimal(v as int)), r1)
        },
        IRInstV::LoadVar(d, s) => {
            let (rd, r1) = reg_alloc(r, d);
            (ins2("mov"@, rd, slot(slots[s])), r1)
        },
        IRInstV::StoreVar(d, s) => {
            let (rs, r1) = reg_alloc(r, s);
            (ins2("mov"@, slot(slots[d]), rs), r1)
        },
        IRInstV::StackAlloc(d, size) => {
            let (rd, r1) = reg_alloc(r, d);
            let sz: int = if size <= 0 { 8 } else { size as int };
            (ins2("sub"@, "rsp"@, decimal(sz)) + ins2("mov"@, rd, "rsp"@), r1)
        },
        IRInstV::LoadMem(d, a) => {
            let (rd, r1) = reg_alloc(r, d);
            let (ra, r2) = reg_alloc(r1, a);
            (ins2("mov"@, rd, deref(ra)), r2)
        },
        IRInstV::StoreMem(a, s) => {
            let (ra, r1) = reg_alloc(r, a);
            let (rs, r2) = reg_alloc(r1, s);
            (ins2("mov"@, deref(ra), rs), r2)
        },
        IRInstV::Add(d, a, b) => {
            let (rd, ra, rb, r3) = regs3(r, d, a, b);
            (arith_text("add"@, rd, ra, rb), r3)
        },
        IRInstV::Sub(d, a, b) => {
            let (rd, ra, rb, r3) = regs3(r, d, a, b);
            (arith_text("sub"@, rd, ra, rb), r3)
        },
        IRInstV::Mul(d, a, b) => {
            let (rd, ra, rb, r3) = regs3(r, d, a, b);
            (arith_text("imul"@, rd, ra, rb), r3)
        },
        IRInstV::Div(d, a, b) => {
            let (rd, ra, rb, r3) = regs3(r, d, a, b);
            (div_text(rd, ra, rb), r3)
        },
        IRInstV::Eq(d, a, b) | IRInstV::Neq(d, a, b) | IRInstV::Lt(d, a, b) | IRInstV::Gt(d, a, b)
        | IRInstV::LtEq(d, a, b) | IRInstV::GtEq(d, a, b) => {
            let (rd, ra, rb, r3) = regs3(r, d, a, b);
            (compare_text(setcc(i), rd, ra, rb), r3)
        },
        IRInstV::JumpIfZero(c, l) => {
            let (rc, r1) = reg_alloc(r, c);
            (ins2("cmp"@, rc, "0"@) + ins1("je"@, l), r1)
        },
        IRInstV::Jump(l) => (ins1("jmp"@, l), r),
        IRInstV::Return(s) => {
            let (rs, r1) = reg_alloc(r, s);
            (ins2("mov"@, "rax"@, rs) + ins2("mov"@, "rsp"@, "rbp"@) + ins1("pop"@, "rbp"@) + ins0("ret"@), r1)
        },
        _ => (Seq::empty(), r),
    }
}

/// An instruction takes at most the registers it asks for.
pub proof fn lemma_x64_inst(r: RState, slots: Map<Seq<char>, int>, i: IRInstV)
    ensures
        x64_inst(r, slots, i).1.pool == r.pool,
        r.next <= x64_inst(r, slots, i).1.next <= r.next + alloc_count(i),
{
    match i {
        IRInstV::LoadConst(d, _) | IRInstV::LoadVar(d, _) | IRInstV::StackAlloc(d, _)
        | IRInstV::JumpIfZero(d, _) | IRInstV::Return(d) => {
            lemma_reg_alloc(r, d);
        },
        IRInstV::StoreVar(_, s) => {
            lemma_reg_alloc(r, s);
        },
        IRInstV::LoadMem(a, b) | IRInstV::StoreMem(a, b) => {
            lemma_reg_alloc(r, a);
            lemma_reg_alloc(reg_alloc(r, a).1, b);
        },
        IRInstV::Add(d, a, b) | IRInstV::Sub(d, a, b) | IRInstV::Mul(d, a, b) | IRInstV::Div(d, a, b)
        | IRInstV::Eq(d, a, b) | IRInstV::Neq(d, a, b) | IRInstV::Lt(d, a, b) | IRInstV::Gt(d, a, b)
        | IRInstV::LtEq(d, a, b) | IRInstV::GtEq(d, a, b) => {
            lemma_reg_alloc(r, d);
            lemma_reg_alloc(reg_alloc(r, d).1, a);
            lemma_reg_alloc(reg_alloc(reg_alloc(r, d).1, a).1, b);
        },
        _ => {},
    }
}

/// The variables of an instruction that must have a stack slot.
pub open spec fn slots_cover(slots: Map<Seq<char>, int>, i: IRInstV) -> bool {
    match i {
        IRInstV::LoadVar(_, s) => slots.contains_key(s),
        IRInstV::StoreVar(d, _) => slots.contains_key(d),
        _ => true,
    }
}

/// Whether an instruction is one [`x64_inst`] describes.
pub open spec fn is_common(i: IRInstV) -> bool {
    !(i is Call || i is Label || i is Extern)
}

/// The registers of `dst = a op b`.
pub fn alloc3(regs: &mut RegisterAllocator, d: &str, a: &str, b: &str) -> (r: (String, String, String))
    requires
        regs_room(old(regs)@, 3),
    ensures
        (r.0@, r.1@, r.2@, final(regs)@) == regs3(old(regs)@, d@, a@, b@),
        final(regs)@.pool == old(regs)@.pool,
        final(regs)@.next <= old(regs)@.next + 3,
{
    proof {
        lemma_reg_alloc(regs@, d@);
        lemma_reg_alloc(reg_alloc(regs@, d@).1, a@);
        lemma_reg_alloc(reg_alloc(reg_alloc(regs@, d@).1, a@).1, b@);
    }
    let rd = regs.allocate(d);
    let ra = regs.allocate(a);
    let rb = regs.allocate(b);
    (rd, ra, rb)
}

/// Appends the comparison text.
fn push_compare(out: &mut String, cc: &str, rd: &str, ra: &str, rb: &str)
    ensures
        final(out)@ == old(out)@ + compare_text(cc@, rd@, ra@, rb@),
{
    push_ins2(out, "cmp", ra, rb);
    push_ins1(out, cc, "al");
    push_ins2(out, "movzx", "rax", "al");
    push_ins2(out, "mov", rd, "rax");
    assert(out@ =~= old(out)@ + compare_text(cc@, rd@, ra@, rb@));
}

/// Appends the text of `rd = ra op rb`.
fn push_arith(out: &mut String, op: &str, rd: &str, ra: &str, rb: &str)
    ensures
        final(out)@ == old(out)@ + arith_text(op@, rd@, ra@, rb@),
{
    if !str_eq(rd, rb) {
        push_ins2(out, "mov", rd, ra);
        push_ins2(out, op, rd, rb);
    } else if str_eq(op, "sub") {
        push_ins2(out, "mov", "r11", rb);
        push_ins2(out, "mov", rd, ra);
        push_ins2(out, "sub", rd, "r11");
    } else {
        push_ins2(out, op, rd, ra);
    }
    proof {
        reveal_with_fuel(steps_text, 4);
    }
    assert(out@ =~= old(out)@ + arith_text(op@, rd@, ra@, rb@));
}

/// Appends the text of `rd = ra / rb`.
fn push_div(out: &mut String, rd: &str, ra: &str, rb: &str)
    ensures
        final(out)@ == old(out)@ + div_text(rd@, ra@, rb@),
{
    if str_eq(rb, "rax") || str_eq(rb, "rdx") {
        push_ins2(out, "mov", "r11", rb);
        push_ins2(out, "mov", "rax", ra);
        push_ins0(out, "cqo");
        push_ins1(out, "idiv", "r11");
    } else {
        push_ins2(out, "mov", "rax", ra);
        push_ins0(out, "cqo");
        push_ins1(out, "idiv", rb);
    }
    push_ins2(out, "mov", rd, "rax");
    proof {
        reveal_with_fuel(steps_text, 6);
    }
    assert(out@ =~= old(out)@ + div_text(rd@, ra@, rb@));
}

/// Appends what [`x64_inst`] says of `inst`.
#[verifier::rlimit(60)]
pub fn emit_common(regs: &mut RegisterAllocator, frame: &StackFrame, out: &mut String, inst: &IRInst)
    requires
        is_common(inst@),
        regs_room(old(regs)@, alloc_count(inst@)),
        frame.wf(),
        slots_cover(frame.slots(), inst@),
    ensures
        final(out)@ == old(out)@ + x64_inst(old(regs)@, frame.slots(), inst@).0,
        final(regs)@ == x64_inst(old(regs)@, frame.slots(), inst@).1,
        final(regs)@.pool == old(regs)@.pool,
        final(regs)@.next <= old(regs)@.next + alloc_count(inst@),
{
    match inst {
        IRInst::LoadConst(d, v) => {
            proof { lemma_reg_alloc(regs@, d@); }
            let rd = regs.allocate(d.as_str());
            push_ins2(out, "mov", rd.as_str(), decimal_text(*v).as_str());
        },
        IRInst::LoadVar(d, s) => {
            proof { lemma_reg_alloc(regs@, d@); }
            let rd = regs.allocate(d.as_str());
            let off = frame.get(s.as_str());
            push_ins2(out, "mov", rd.as_str(), slot_text(off as i64).as_str());
        },
        IRInst::StoreVar(d, s) => {
            proof { lemma_reg_alloc(regs@, s@); }
            let rs = regs.allocate(s.as_str());
            let off = frame.get(d.as_str());
            push_ins2(out, "mov", slot_text(off as i64).as_str(), rs.as_str());
        },
        IRInst::StackAlloc(d, size) => {
            proof { lemma_reg_alloc(regs@, d@); }
            let rd = regs.allocate(d.as_str());
            let sz: i64 = if *size <= 0 { 8 } else { *size };
            push_ins2(out, "sub", "rsp", decimal_text(sz).as_str());
            push_ins2(out, "mov", rd.as_str(), "rsp");
        },
        IRInst::LoadMem(d, a) => {
            proof {
                lemma_reg_alloc(regs@, d@);
                lemma_reg_alloc(reg_alloc(regs@, d@).1, a@);
            }
            let rd = regs.allocate(d.as_str());
            let ra = regs.allocate(a.as_str());
            push_ins2(out, "mov", rd.as_str(), deref_text(ra.as_str()).as_str());
        },
        IRInst::StoreMem(a, s) => {
            proof {
                lemma_reg_alloc(regs@, a@);
                lemma_reg_alloc(reg_alloc(regs@, a@).1, s@);
            }
            let ra = regs.allocate(a.as_str());
            let rs = regs.allocate(s.as_str());
            push_ins2(out, "mov", deref_text(ra.as_str()).as_str(), rs.as_str());
        },
        IRInst::Add(d, a, b) => {
            let (rd, ra, rb) = alloc3(regs, d.as_str(), a.as_str(), b.as_str());
            push_arith(out, "add", rd.as_str(), ra.as_str(), rb.as_str());
        },
        IRInst::Sub(d, a, b) => {
            let (rd, ra, rb) = alloc3(regs, d.as_str(), a.as_str(), b.as_str());
            push_arith(out, "sub", rd.as_str(), ra.as_str(), rb.as_str());
        },
        IRInst::Mul(d, a, b) => {
            let (rd, ra, rb) = alloc3(regs, d.as_str(), a.as_str(), b.as_str());
            push_arith(out, "imul", rd.as_str(), ra.as_str(), rb.as_str());
        },
        IRInst::Div(d, a, b) => {
            let (rd, ra, rb) = alloc3(regs, d.as_str(), a.as_str(), b.as_str());
            push_div(out, rd.as_str(), ra.as_str(), rb.as_str());
        },
        IRInst::Eq(d, a, b) => {
            let (rd, ra, rb) = alloc3(regs, d.as_str(), a.as_str(), b.as_str());
            push_compare(out, "sete", rd.as_str(), ra.as_str(), rb.as_str());
        },
        IRInst::Neq(d, a, b) => {
            let (rd, ra, rb) = alloc3(regs, d.as_str(), a.as_str(), b.as_str());
            push_compare(out, "setne", rd.as_str(), ra.as_str(), rb.as_str());
        },
        IRInst::Lt(d, a, b) => {
            let (rd, ra, rb) = alloc3(regs, d.as_str(), a.as_str(), b.as_str());
            push_compare(out, "setl", rd.as_str(), ra.as_str(), rb.as_str());
        },
        IRInst::Gt(d, a, b) => {
            let (rd, ra, rb) = alloc3(regs, d.as_str(), a.as_str(), b.as_str());
            push_compare(out, "setg", rd.as_str(), ra.as_str(), rb.as_str());
        },
        IRInst::LtEq(d, a, b) => {
            let (rd, ra, rb) = alloc3(regs, d.as_str(), a.as_str(), b.as_str());
            push_compare(out, "setle", rd.as_str(), ra.as_str(), rb.as_str());
        },
        IRInst::GtEq(d, a, b) => {
            let (rd, ra, rb) = alloc3(regs, d.as_str(), a.as_str(), b.as_str());
            push_compare(out, "setge", rd.as_str(), ra.as_str(), rb.as_str());
        },
        IRInst::JumpIfZero(c, l) => {
            proof { lemma_reg_alloc(regs@, c@); }
            let rc = regs.allocate(c.as_str());
            push_ins2(out, "cmp", rc.as_str(), "0");
            push_ins1(out, "je", l.as_str());
        },
        IRInst::Jump(l) => {
            push_ins1(out, "jmp", l.as_str());
        },
        IRInst::Return(s) => {
            proof { lemma_reg_alloc(regs@, s@); }
            let rs = regs.allocate(s.as_str());
            push_ins2(out, "mov", "rax", rs.as_str());
            push_ins2(out, "mov", "rsp", "rbp");
            push_ins1(out, "pop", "rbp");
            push_ins0(out, "ret");
        },
        _ => {},
    }
}

} // verus!
