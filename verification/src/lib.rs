//! SC0: a small custom CPU, as a verified library.
//!
//! The crate holds the instruction-set table, the two-pass assembler that
//! encodes textual statements into 32-bit instruction words, the simulated
//! register file and memory, and the fetch-decode-execute engine that
//! consumes the same bit-level word layout the assembler writes.

pub mod bits;
pub mod cpu;
pub mod helpers;
pub mod simulator;
pub mod text;
