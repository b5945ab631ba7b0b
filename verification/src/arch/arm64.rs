//! ARM64 (AArch64) backend.
//!
//! This backend generates basic AArch64 assembly: constants, additions,
//! returns and labels; other instructions emit nothing.
use vstd::prelude::*;
use vstd::string::*;
use crate::arch::x64::{alloc_count, alloc_total, regs_room, lemma_reg_alloc, lemma_body_vars_push, alloc3, regs3};
use crate::arch::x86_64_raw::extern_lines;
use crate::ast::names_v;
use crate::ir::{IRInst, IRInstV, insts_v};
use crate::listing::{ins0, ins2, label_line, push_ins0, push_ins2, push_label, decimal_text};
use crate::regalloc::{RState, reg_alloc, RegisterAllocator};
use crate::text::decimal;

verus! {

/// The text of one instruction, and the allocator after.
pub open spec fn arm64_inst(r: RState, i: IRInstV) -> (Seq<char>, RState) {
    match i {
        IRInstV::Label(name) => (label_line(name), r),
        IRInstV::LoadConst(d, v) => {
            let (rd, r1) = reg_alloc(r, d);
            (ins2("mov"@, rd, "#"@ + decimal(v as int)), r1)
        },
        IRInstV::Add(d, a, b) => {
            let (rd, ra, rb, r3) = regs3(r, d, a, b);
            (ins2("add"@, rd, ra + ", "@ + rb), r3)
        },
        IRInstV::Return(s) => {
            let (rs, r1) = reg_alloc(r, s);
            (ins2("mov"@, "x0"@, rs) + ins0("ret"@), r1)
        },
        _ => (Seq::empty(), r),
    }
}

/// The text of the instructions in order.
pub open spec fn arm64_body(r: RState, ir: Seq<IRInstV>) -> (Seq<char>, RState)
    decreases ir.len(),
{
    if ir.len() == 0 {
        (Seq::empty(), r)
    } else {
        let (t, r1) = arm64_body(r, ir.drop_last());
        let (u, r2) = arm64_inst(r1, ir.last());
        (t + u, r2)
    }
}

/// `emit_program`: the extern declarations, then every instruction.
pub open spec fn arm64_program(r: RState, ir: Seq<IRInstV>) -> (Seq<char>, RState) {
    let (t, r1) = arm64_body(r, ir);
    (extern_lines(ir, ".extern "@) + t, r1)
}

/// The registers the backend allocates from.
pub open spec fn arm64_pool() -> Seq<Seq<char>> {
    seq!["x0"@, "x1"@, "x2"@, "x3"@]
}

/// An instruction takes at most the registers it asks for.
pub proof fn lemma_arm64_body(r: RState, ir: Seq<IRInstV>)
    ensures
        arm64_body(r, ir).1.pool == r.pool,
        r.next <= arm64_body(r, ir).1.next <= r.next + alloc_total(ir),
    decreases ir.len(),
{
    if ir.len() > 0 {
        lemma_arm64_body(r, ir.drop_last());
        let r1 = arm64_body(r, ir.drop_last()).1;
        match ir.last() {
            IRInstV::LoadConst(d, _) | IRInstV::Return(d) => {
                lemma_reg_alloc(r1, d);
            },
            IRInstV::Add(d, a, b) => {
                lemma_reg_alloc(r1, d);
                lemma_reg_alloc(reg_alloc(r1, d).1, a);
                lemma_reg_alloc(reg_alloc(reg_alloc(r1, d).1, a).1, b);
            },
            _ => {},
        }
    }
}

/// Backend for generating ARM64 assembly.
pub struct ARM64Backend {
    regs: RegisterAllocator,
}

impl ARM64Backend {
    /// The register allocator's state.
    pub closed spec fn regs(&self) -> RState {
        self.regs@
    }

    /// A backend allocating from `x0` to `x3`.
    pub fn new() -> (r: Self)
        ensures
            r.regs() == (RState { pool: arm64_pool(), map: Map::empty(), next: 0 }),
    {
        let mut pool: Vec<String> = Vec::new();
        pool.push(String::from_str("x0"));
        pool.push(String::from_str("x1"));
        pool.push(String::from_str("x2"));
        pool.push(String::from_str("x3"));
        assert(names_v(pool@) =~= arm64_pool());
        Self { regs: RegisterAllocator::new(pool) }
    }
}

impl crate::arch::Architecture for ARM64Backend {
    open spec fn accepts(&self, ir: Seq<IRInstV>) -> bool {
        regs_room(self.regs(), alloc_total(ir))
    }

    open spec fn emitted(&self, ir: Seq<IRInstV>) -> Seq<char> {
        arm64_program(self.regs(), ir).0
    }

    open spec fn after(&self, ir: Seq<IRInstV>, later: Self) -> bool {
        later.regs() == arm64_program(self.regs(), ir).1
    }

    fn emit_program(&mut self, ir: &[IRInst]) -> (r: String) {
        let ghost iv = insts_v(ir@);
        let ghost r0 = self.regs();
        let mut out = String::new();
        let mut i: usize = 0;
        assert(iv.take(0) =~= Seq::<IRInstV>::empty());
        assert(out@ =~= extern_lines(iv.take(0), ".extern "@));
        while i < ir.len()
            invariant
                i <= ir@.len(),
                iv == insts_v(ir@),
                out@ == extern_lines(iv.take(i as int), ".extern "@),
            decreases ir@.len() - i,
        {
            proof {
                assert(iv.take(i + 1).drop_last() =~= iv.take(i as int));
                assert(iv.take(i + 1).last() == ir@[i as int]@);
            }
            match &ir[i] {
                IRInst::Extern(name) => {
                    out.append(".extern ");
                    out.append(name.as_str());
                    out.append("\n");
                },
                _ => {},
            }
            assert(out@ =~= extern_lines(iv.take(i + 1), ".extern "@));
            i = i + 1;
        }
        assert(iv.take(ir@.len() as int) =~= iv);
        let ghost pre = out@;
        let mut j: usize = 0;
        assert(pre =~= pre + arm64_body(r0, iv.take(0)).0);
        while j < ir.len()
            invariant
                j <= ir@.len(),
                iv == insts_v(ir@),
                regs_room(r0, alloc_total(iv)),
                out@ == pre + arm64_body(r0, iv.take(j as int)).0,
                self.regs() == arm64_body(r0, iv.take(j as int)).1,
            decreases ir@.len() - j,
        {
            proof {
                assert(iv.take(j + 1).drop_last() =~= iv.take(j as int));
                assert(iv.take(j + 1).last() == ir@[j as int]@);
                assert(iv.take(j + 1) =~= iv.take(j as int).push(iv[j as int]));
                lemma_body_vars_push(iv.take(j as int), iv[j as int]);
                crate::arch::x64::lemma_body_vars_prefix(iv, j + 1);
                lemma_arm64_body(r0, iv.take(j as int));
            }
            let ghost o = out@;
            match &ir[j] {
                IRInst::Label(name) => {
                    push_label(&mut out, name.as_str());
                },
                IRInst::LoadConst(d, v) => {
                    let rd = self.regs.allocate(d.as_str());
                    let mut operand = String::from_str("#");
                    operand.append(decimal_text(*v).as_str());
                    proof {
                        reveal_strlit("#");
                    }
                    push_ins2(&mut out, "mov", rd.as_str(), operand.as_str());
                },
                IRInst::Add(d, a, b) => {
                    let (rd, ra, rb) = alloc3(&mut self.regs, d.as_str(), a.as_str(), b.as_str());
                    let mut rest = ra.clone();
                    rest.append(", ");
                    rest.append(rb.as_str());
                    push_ins2(&mut out, "add", rd.as_str(), rest.as_str());
                },
                IRInst::Return(s) => {
                    let rs = self.regs.allocate(s.as_str());
                    push_ins2(&mut out, "mov", "x0", rs.as_str());
                    push_ins0(&mut out, "ret");
                },
                _ => {},
            }
            assert(out@ =~= pre + arm64_body(r0, iv.take(j + 1)).0);
            j = j + 1;
        }
        assert(iv.take(ir@.len() as int) =~= iv);
        out
    }
}

} // verus!
