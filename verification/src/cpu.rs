//! The SC0 processor proper: instruction-set table, simulated hardware, and
//! the assembler that encodes statements into instruction words.

pub mod assemble;
pub mod hardware;
pub mod isa;
