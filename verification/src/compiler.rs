//! Top-level compiler interface.
//!
//! This module provides the high-level [`compile`] function which
//! orchestrates the entire compilation pipeline from source code to
//! assembly.
use vstd::prelude::*;
use vstd::string::*;
use crate::arch::Architecture;
use crate::arch::arm64::{ARM64Backend, arm64_program, arm64_pool};
use crate::arch::win64::{WIN64Backend, win64_program, win64_accepts, win64_pool};
use crate::arch::x64::{alloc_total, regs_room};
use crate::arch::x86_64_raw::{X86_64RawBackend, x86_program, x86_accepts, x86_pool};
use crate::ast::{StmtV, stmts_v};
use crate::codegen_ir::IRGenerator;
use crate::codegen_spec::{GState, gen_stmts, fits, structs_within};
use crate::error::{error, errors_from, error_lines};
use crate::ir::{IRInstV, insts_v};
use crate::lexer::{Lexer, msgs};
use crate::maps::param_entries;
use crate::parser::Parser;
use crate::parser_spec::{PState, start, parses, program_result};
use crate::regalloc::RState;
use crate::text::str_eq;

verus! {

/// The IR generator's state before any code.
pub open spec fn gen_start() -> GState {
    GState {
        temp_count: 0,
        label_count: 0,
        code: Seq::empty(),
        function_params: Map::empty(),
        structs: Map::empty(),
        var_types: Map::empty(),
        loop_stack: Seq::empty(),
        position: 0,
        msgs: Seq::empty(),
        widest: 0,
    }
}

/// The parser's state over `source`, once it has read two tokens.
pub open spec fn parse_start(source: Seq<char>) -> Option<PState> {
    start(source, 0, Seq::empty())
}

/// The front end: the program parsed from `source`, the parser's final
/// state, and the IR generator's state after the program.
pub open spec fn front(source: Seq<char>) -> (Seq<StmtV>, PState, GState) {
    let (stmts, p) = program_result(parse_start(source).unwrap());
    (stmts, p, gen_stmts(gen_start(), stmts))
}

/// A fresh register allocator over `pool`.
pub open spec fn fresh_regs(pool: Seq<Seq<char>>) -> RState {
    RState { pool, map: Map::empty(), next: 0 }
}

/// Compiling `source` for `arch` runs without a panic or an overflow:
/// lexing and parsing end, the IR generator's counters fit, and the backend
/// accepts the code.
pub open spec fn compile_ok(source: Seq<char>, arch: Seq<char>) -> bool {
    let g = front(source).2;
    &&& parse_start(source) is Some
    &&& parses(parse_start(source).unwrap())
    &&& fits(g)
    &&& arch == "win64"@ ==> win64_accepts(fresh_regs(win64_pool()), g.function_params, g.code)
    &&& arch == "x86_64"@ ==> x86_accepts(fresh_regs(x86_pool()), g.function_params, g.code)
    &&& arch == "arm64"@ ==> regs_room(fresh_regs(arm64_pool()), alloc_total(g.code))
}

/// What compiling `source` for `arch` gives: the assembly text, and the
/// messages reported by the lexer and parser, the IR generator and the
/// backend, in that order. An unknown architecture gives no text and one
/// message.
pub open spec fn compiled(source: Seq<char>, arch: Seq<char>) -> (Seq<char>, Seq<Seq<char>>) {
    let (_, p, g) = front(source);
    let (text, backend_msgs) = if arch == "win64"@ {
        let w = win64_program(fresh_regs(win64_pool()), g.function_params, g.code);
        (w.0, w.2)
    } else if arch == "arm64"@ {
        (arm64_program(fresh_regs(arm64_pool()), g.code).0, Seq::empty())
    } else if arch == "x86_64"@ {
        let x = x86_program(fresh_regs(x86_pool()), g.function_params, g.code);
        (x.0, x.2)
    } else {
        (Seq::empty(), seq!["Unsupported architecture"@])
    };
    (text, p.msgs + g.msgs + backend_msgs)
}

/// An architecture other than `win64`, `arm64` and `x86_64` gives no text,
/// and its one message comes after those of the front end.
pub proof fn lemma_unsupported_architecture(source: Seq<char>, arch: Seq<char>)
    requires
        arch != "win64"@,
        arch != "arm64"@,
        arch != "x86_64"@,
    ensures
        compiled(source, arch).0 == Seq::<char>::empty(),
        compiled(source, arch).1 == front(source).1.msgs + front(source).2.msgs + seq!["Unsupported architecture"@],
{
}

/// Compiles the given Micro-C source code for the specified architecture.
///
/// Supported architectures: "win64", "arm64", "x86_64".
///
/// Returns the generated assembly code; the messages reported on the way
/// are pushed to `errors`, each marked `!! `.
pub fn compile(source: &str, arch: &str, errors: &mut Vec<String>) -> (r: String)
    requires
        compile_ok(source@, arch@),
    ensures
        r@ == compiled(source@, arch@).0,
        msgs(final(errors)@) == msgs(old(errors)@) + error_lines(compiled(source@, arch@).1),
{
    let ghost g = front(source@).2;
    let ghost p = front(source@).1;
    let lexer = Lexer::new(source);
    let mut parser = Parser::new(lexer);
    let ast = parser.parse_program();
    let mut irgen = IRGenerator::new();
    irgen.gen_program(&ast);
    let (code, function_params, gen_msgs) = irgen.into_parts();
    let parse_msgs = parser.into_messages();
    errors_from(errors, &parse_msgs);
    errors_from(errors, &gen_msgs);
    let ghost e1 = msgs(errors@);
    assert(e1 =~= msgs(old(errors)@) + error_lines(p.msgs + g.msgs));
    if str_eq(arch, "win64") {
        proof {
            reveal_strlit("win64");
        }
        let mut backend = WIN64Backend::new(function_params);
        let out = backend.emit_program(code.as_slice());
        let bm = backend.into_messages();
        errors_from(errors, &bm);
        assert(msgs(errors@) =~= msgs(old(errors)@) + error_lines(compiled(source@, arch@).1));
        out
    } else if str_eq(arch, "arm64") {
        proof {
            reveal_strlit("arm64");
            reveal_strlit("win64");
        }
        let mut backend = ARM64Backend::new();
        let out = backend.emit_program(code.as_slice());
        assert(msgs(errors@) =~= msgs(old(errors)@) + error_lines(compiled(source@, arch@).1));
        out
    } else if str_eq(arch, "x86_64") {
        proof {
            reveal_strlit("x86_64");
            reveal_strlit("arm64");
            reveal_strlit("win64");
        }
        let mut backend = X86_64RawBackend::new(function_params);
        let out = backend.emit_program(code.as_slice());
        let bm = backend.into_messages();
        errors_from(errors, &bm);
        assert(msgs(errors@) =~= msgs(old(errors)@) + error_lines(compiled(source@, arch@).1));
        out
    } else {
        proof {
            reveal_strlit("x86_64");
            reveal_strlit("arm64");
            reveal_strlit("win64");
        }
        error(errors, "Unsupported architecture");
        assert(msgs(errors@) =~= msgs(old(errors)@) + error_lines(compiled(source@, arch@).1));
        String::new()
    }
}

} // verus!
