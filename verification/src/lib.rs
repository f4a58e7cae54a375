//! Pyhyeon: a small Python-like language with an indentation-aware lexer,
//! a recursive-descent parser, semantic analysis and type checking, a
//! bytecode compiler and a stack virtual machine.

pub mod text;
pub mod builtins;
pub mod runtime_io;
pub mod ast;
pub mod lexer;
pub mod parser;
pub mod grammar;
pub mod driver;
pub mod semantic;
pub mod repl;
pub mod vm;
pub mod laws;

pub use driver::{analyze, analyze_with_globals, parse_source, Diagnostic};
pub use runtime_io::RuntimeIo;
pub use vm::compiler::compile_to_module;
pub use vm::machine::Vm;
