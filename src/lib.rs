//! A simulator for a small 16-bit processor and a two-pass assembler for it.
//!
//! `isa` holds the instruction set and the arithmetic of its ALU, `assembler` turns
//! recognized source lines into a program image, and `processor` executes it.

pub mod assembler;
pub mod isa;
pub mod processor;
