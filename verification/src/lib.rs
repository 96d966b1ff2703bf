//! A small configuration language with tables, lists, arithmetic and lambdas,
//! its compiler to a register-based bytecode, and the virtual machine that
//! evaluates the compiled program lazily, one dotted path at a time.

pub mod archive;
pub mod compiler;
pub mod format;
pub mod instructions;
pub mod vm;
