//! The virtual machine: bytecode, compiler and interpreter.

pub mod bytecode;
pub mod values;
pub mod decimal;
pub mod native;
pub mod machine;
pub mod calls;
pub mod builtins;
pub mod compiler;
pub mod disasm;
