//! Micro-C: a small compiler for a C-like language.
//!
//! The pipeline is lexer -> parser -> IR generator -> target backend.
//! Every stage is a verified function whose contract relates its output to
//! a mathematical model of the stage.
pub mod text;
pub mod stackframe;
pub mod chars;
pub mod lexer;
pub mod ast;
pub mod fs;
pub mod parser_spec;
pub mod parser;
pub mod ir;
pub mod maps;
pub mod codegen_spec;
pub mod codegen_ir;
pub mod regalloc;
pub mod interp_spec;
pub mod interpreter;
pub mod listing;
pub mod arch;
pub mod error;
pub mod compiler;
