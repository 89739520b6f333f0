//! Program objects and the thin command layer around the machine.

pub mod cli;
pub mod program;
