//! Architecture-specific backends for code generation.
//!
//! This module defines the [`Architecture`] trait that all backends
//! implement to translate IR into target assembly.
pub mod x64;
pub mod x86_64_raw;
pub mod win64;
pub mod arm64;

use vstd::prelude::*;
use crate::ir::{IRInst, IRInstV, insts_v};

verus! {

/// Common trait for all target architectures.
pub trait Architecture: Sized {
    /// Whether emitting `ir` stays within the machine's limits.
    spec fn accepts(&self, ir: Seq<IRInstV>) -> bool;

    /// The assembly text emitted for `ir`.
    spec fn emitted(&self, ir: Seq<IRInstV>) -> Seq<char>;

    /// `later` is this backend after emitting `ir`.
    spec fn after(&self, ir: Seq<IRInstV>, later: Self) -> bool;

    /// Translates a sequence of IR instructions into target assembly code.
    fn emit_program(&mut self, ir: &[IRInst]) -> (r: String)
        requires
            old(self).accepts(insts_v(ir@)),
        ensures
            r@ == old(self).emitted(insts_v(ir@)),
            old(self).after(insts_v(ir@), *final(self)),
    ;
}

} // verus!
