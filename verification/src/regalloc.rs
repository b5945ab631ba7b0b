//! Simple register allocator.
//!
//! This module provides a basic register allocation strategy for backends,
//! mapping temporaries from the IR to physical registers.
use vstd::prelude::*;
use vstd::string::*;
use crate::ast::names_v;
use crate::maps::{RegMap, reg_entries};

verus! {

/// The state of a register allocator: the pool of registers, the register
/// given to each temporary so far, and how many temporaries have been given
/// one.
pub struct RState {
    pub pool: Seq<Seq<char>>,
    pub map: Map<Seq<char>, Seq<char>>,
    pub next: int,
}

/// `alloc(temp)`: the register `temp` already has, or else the next register
/// of the pool in turn, which `temp` keeps from then on.
pub open spec fn reg_alloc(r: RState, temp: Seq<char>) -> (Seq<char>, RState) {
    if r.map.contains_key(temp) {
        (r.map[temp], r)
    } else {
        let reg = r.pool[r.next % (r.pool.len() as int)];
        (reg, RState { map: r.map.insert(temp, reg), next: r.next + 1, ..r })
    }
}

/// The allocator can serve `temp` without its counter overflowing.
pub open spec fn can_alloc(r: RState, temp: Seq<char>) -> bool {
    r.pool.len() > 0 && (r.map.contains_key(temp) || r.next < usize::MAX)
}

/// A temporary keeps its register: asking for it again gives the same
/// register and changes nothing.
pub proof fn lemma_alloc_stable(r: RState, temp: Seq<char>)
    ensures
        reg_alloc(r, temp).1.map.contains_key(temp),
        reg_alloc(r, temp).1.map[temp] == reg_alloc(r, temp).0,
        reg_alloc(reg_alloc(r, temp).1, temp) == (reg_alloc(r, temp).0, reg_alloc(r, temp).1),
{
}

/// Registers are handed out in turn: a new temporary gets the pool's
/// register after the one the previous new temporary got, wrapping around.
pub proof fn lemma_alloc_round_robin(r: RState, t1: Seq<char>, t2: Seq<char>)
    requires
        r.pool.len() > 0,
        r.next >= 0,
        !r.map.contains_key(t1),
        !r.map.contains_key(t2),
        t1 != t2,
    ensures
        reg_alloc(r, t1).0 == r.pool[r.next % (r.pool.len() as int)],
        reg_alloc(reg_alloc(r, t1).1, t2).0 == r.pool[(r.next + 1) % (r.pool.len() as int)],
{
}

/// Manages the mapping of IR temporaries to physical registers.
pub struct RegisterAllocator {
    regs: Vec<String>,
    map: RegMap,
    next: usize,
}

impl View for RegisterAllocator {
    type V = RState;

    closed spec fn view(&self) -> RState {
        RState { pool: names_v(self.regs@), map: reg_entries(self.map), next: self.next as int }
    }
}

impl RegisterAllocator {
    /// Creates a new RegisterAllocator with a set of available registers.
    pub fn new(regs: Vec<String>) -> (r: Self)
        ensures
            r@ == (RState { pool: names_v(regs@), map: Map::empty(), next: 0 }),
    {
        let r = Self { regs, map: RegMap::new(), next: 0 };
        assert(r@.map =~= Map::empty());
        r
    }

    /// Allocates a register for a given temporary.
    ///
    /// If the temporary already has an allocated register, it is returned.
    /// Otherwise, a new register is assigned from the available pool using
    /// a simple round-robin strategy.
    pub fn allocate(&mut self, temp: &str) -> (r: String)
        requires
            can_alloc(old(self)@, temp@),
        ensures
            (r@, final(self)@) == reg_alloc(old(self)@, temp@),
    {
        match self.map.get(temp) {
            Some(r) => {
                return r.clone();
            },
            None => {},
        }
        let i = self.next % self.regs.len();
        let reg = self.regs[i].clone();
        self.next = self.next + 1;
        self.map.insert(String::from_str(temp), reg.clone());
        reg
    }
}

} // verus!
