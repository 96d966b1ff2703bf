//! The virtual machine: the run-time values, the register file, and the
//! loader and interpreter of compiled programs.

pub mod constant;
pub mod error;
pub mod metadata;
pub mod register;
pub mod tree;
pub mod utils;
pub mod value;
pub mod vm;
