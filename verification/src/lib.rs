//! A verified translator for the Hack stack-machine toolchain.
//!
//! The crate turns stack-oriented virtual-machine source lines into Hack
//! assembly: a parser classifies each cleaned source line, and a code
//! generator emits, per instruction, a fixed block of assembly, keeping two
//! counters so that every jump target it invents is unique.  The emitted
//! blocks are modeled as structured assembly instructions; a small semantic
//! model of the Hack data path backs proofs that the generated code respects
//! stack-machine semantics.  A companion module covers the bordering
//! assembler tables.

pub mod assembler;
pub mod bytes;
pub mod hack;
pub mod laws;
pub mod machine;
pub mod parser;
pub mod translate;
pub mod writer;
