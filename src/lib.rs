//! An assembler for a small 16-bit-opcode machine: source text in, a flat
//! binary image out. Every routine here is verified against its contract.
pub mod lexer;
pub mod number;
pub mod isa;
pub mod encode;
pub mod assemble;
pub mod laws;
