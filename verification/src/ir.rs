//! Intermediate Representation (IR) instructions.
//!
//! This module defines the flat, three-address-style instructions used
//! between the frontend and the backends, and their values ([`IRInstV`]).
use vstd::prelude::*;
use crate::ast::{names_v, copy_names};

verus! {

/// A single instruction in the Intermediate Representation.
#[derive(Debug, Clone)]
pub enum IRInst {
    Extern(String),
    /// Loads a constant integer into a temporary.
    LoadConst(String, i64),
    /// Loads a variable's value into a temporary.
    LoadVar(String, String),
    /// Stores a temporary's value into a variable.
    StoreVar(String, String),
    /// Reserves stack space of the given size; the temporary gets its address.
    StackAlloc(String, i64),
    /// Loads the word at the address in the second temporary into the first.
    LoadMem(String, String),
    /// Stores the second temporary at the address in the first.
    StoreMem(String, String),
    Add(String, String, String),
    Sub(String, String, String),
    Mul(String, String, String),
    Div(String, String, String),
    Eq(String, String, String),
    Neq(String, String, String),
    Lt(String, String, String),
    Gt(String, String, String),
    LtEq(String, String, String),
    GtEq(String, String, String),
    Label(String),
    Jump(String),
    JumpIfZero(String, String),
    Call(String, String, Vec<String>),
    Return(String),
}

/// The value of an [`IRInst`].
pub enum IRInstV {
    Extern(Seq<char>),
    LoadConst(Seq<char>, i64),
    LoadVar(Seq<char>, Seq<char>),
    StoreVar(Seq<char>, Seq<char>),
    StackAlloc(Seq<char>, i64),
    LoadMem(Seq<char>, Seq<char>),
    StoreMem(Seq<char>, Seq<char>),
    Add(Seq<char>, Seq<char>, Seq<char>),
    Sub(Seq<char>, Seq<char>, Seq<char>),
    Mul(Seq<char>, Seq<char>, Seq<char>),
    Div(Seq<char>, Seq<char>, Seq<char>),
    Eq(Seq<char>, Seq<char>, Seq<char>),
    Neq(Seq<char>, Seq<char>, Seq<char>),
    Lt(Seq<char>, Seq<char>, Seq<char>),
    Gt(Seq<char>, Seq<char>, Seq<char>),
    LtEq(Seq<char>, Seq<char>, Seq<char>),
    GtEq(Seq<char>, Seq<char>, Seq<char>),
    Label(Seq<char>),
    Jump(Seq<char>),
    JumpIfZero(Seq<char>, Seq<char>),
    Call(Seq<char>, Seq<char>, Seq<Seq<char>>),
    Return(Seq<char>),
}

/// The destination and the two operands of a binary IR instruction.
pub open spec fn binary_parts(i: IRInstV) -> Option<(Seq<char>, Seq<char>, Seq<char>)> {
    match i {
        IRInstV::Add(d, a, b) | IRInstV::Sub(d, a, b) | IRInstV::Mul(d, a, b) | IRInstV::Div(d, a, b)
        | IRInstV::Eq(d, a, b) | IRInstV::Neq(d, a, b) | IRInstV::Lt(d, a, b) | IRInstV::Gt(d, a, b)
        | IRInstV::LtEq(d, a, b) | IRInstV::GtEq(d, a, b) => Some((d, a, b)),
        _ => None,
    }
}

/// What a binary IR instruction writes to its destination when its
/// operands hold `a` and `b`: the sum, difference or product when it fits
/// in an `i64`, the quotient rounded toward zero (none for a divisor of 0
/// or an overflow), or 1 or 0 as the comparison holds or fails.
pub open spec fn ir_binary_value(i: IRInstV, a: i64, b: i64) -> Option<i64> {
    match i {
        IRInstV::Add(..) => if i64::MIN <= a + b <= i64::MAX { Some((a + b) as i64) } else { None },
        IRInstV::Sub(..) => if i64::MIN <= a - b <= i64::MAX { Some((a - b) as i64) } else { None },
        IRInstV::Mul(..) => if i64::MIN <= a * b <= i64::MAX { Some((a * b) as i64) } else { None },
        IRInstV::Div(..) => a.checked_div(b),
        IRInstV::Eq(..) => Some(if a == b { 1i64 } else { 0i64 }),
        IRInstV::Neq(..) => Some(if a != b { 1i64 } else { 0i64 }),
        IRInstV::Lt(..) => Some(if a < b { 1i64 } else { 0i64 }),
        IRInstV::Gt(..) => Some(if a > b { 1i64 } else { 0i64 }),
        IRInstV::LtEq(..) => Some(if a <= b { 1i64 } else { 0i64 }),
        IRInstV::GtEq(..) => Some(if a >= b { 1i64 } else { 0i64 }),
        _ => None,
    }
}

impl View for IRInst {
    type V = IRInstV;

    open spec fn view(&self) -> IRInstV {
        match self {
            IRInst::Extern(a) => IRInstV::Extern(a@),
            IRInst::LoadConst(a, n) => IRInstV::LoadConst(a@, *n),
            IRInst::LoadVar(a, b) => IRInstV::LoadVar(a@, b@),
            IRInst::StoreVar(a, b) => IRInstV::StoreVar(a@, b@),
            IRInst::StackAlloc(a, n) => IRInstV::StackAlloc(a@, *n),
            IRInst::LoadMem(a, b) => IRInstV::LoadMem(a@, b@),
            IRInst::StoreMem(a, b) => IRInstV::StoreMem(a@, b@),
            IRInst::Add(a, b, c) => IRInstV::Add(a@, b@, c@),
            IRInst::Sub(a, b, c) => IRInstV::Sub(a@, b@, c@),
            IRInst::Mul(a, b, c) => IRInstV::Mul(a@, b@, c@),
            IRInst::Div(a, b, c) => IRInstV::Div(a@, b@, c@),
            IRInst::Eq(a, b, c) => IRInstV::Eq(a@, b@, c@),
            IRInst::Neq(a, b, c) => IRInstV::Neq(a@, b@, c@),
            IRInst::Lt(a, b, c) => IRInstV::Lt(a@, b@, c@),
            IRInst::Gt(a, b, c) => IRInstV::Gt(a@, b@, c@),
            IRInst::LtEq(a, b, c) => IRInstV::LtEq(a@, b@, c@),
            IRInst::GtEq(a, b, c) => IRInstV::GtEq(a@, b@, c@),
            IRInst::Label(a) => IRInstV::Label(a@),
            IRInst::Jump(a) => IRInstV::Jump(a@),
            IRInst::JumpIfZero(a, b) => IRInstV::JumpIfZero(a@, b@),
            IRInst::Call(a, b, v) => IRInstV::Call(a@, b@, names_v(v@)),
            IRInst::Return(a) => IRInstV::Return(a@),
        }
    }
}

/// The value of a list of instructions.
pub open spec fn insts_v(s: Seq<IRInst>) -> Seq<IRInstV> {
    s.map_values(|i: IRInst| i@)
}

/// A copy of an instruction with the same value.
pub fn copy_inst(i: &IRInst) -> (r: IRInst)
    ensures
        r@ == i@,
{
    match i {
        IRInst::Extern(a) => IRInst::Extern(a.clone()),
        IRInst::LoadConst(a, n) => IRInst::LoadConst(a.clone(), *n),
        IRInst::LoadVar(a, b) => IRInst::LoadVar(a.clone(), b.clone()),
        IRInst::StoreVar(a, b) => IRInst::StoreVar(a.clone(), b.clone()),
        IRInst::StackAlloc(a, n) => IRInst::StackAlloc(a.clone(), *n),
        IRInst::LoadMem(a, b) => IRInst::LoadMem(a.clone(), b.clone()),
        IRInst::StoreMem(a, b) => IRInst::StoreMem(a.clone(), b.clone()),
        IRInst::Add(a, b, c) => IRInst::Add(a.clone(), b.clone(), c.clone()),
        IRInst::Sub(a, b, c) => IRInst::Sub(a.clone(), b.clone(), c.clone()),
        IRInst::Mul(a, b, c) => IRInst::Mul(a.clone(), b.clone(), c.clone()),
        IRInst::Div(a, b, c) => IRInst::Div(a.clone(), b.clone(), c.clone()),
        IRInst::Eq(a, b, c) => IRInst::Eq(a.clone(), b.clone(), c.clone()),
        IRInst::Neq(a, b, c) => IRInst::Neq(a.clone(), b.clone(), c.clone()),
        IRInst::Lt(a, b, c) => IRInst::Lt(a.clone(), b.clone(), c.clone()),
        IRInst::Gt(a, b, c) => IRInst::Gt(a.clone(), b.clone(), c.clone()),
        IRInst::LtEq(a, b, c) => IRInst::LtEq(a.clone(), b.clone(), c.clone()),
        IRInst::GtEq(a, b, c) => IRInst::GtEq(a.clone(), b.clone(), c.clone()),
        IRInst::Label(a) => IRInst::Label(a.clone()),
        IRInst::Jump(a) => IRInst::Jump(a.clone()),
        IRInst::JumpIfZero(a, b) => IRInst::JumpIfZero(a.clone(), b.clone()),
        IRInst::Call(a, b, v) => IRInst::Call(a.clone(), b.clone(), copy_names(v)),
        IRInst::Return(a) => IRInst::Return(a.clone()),
    }
}

} // verus!
