//! A program object: its name, the parsed statement list, the starting
//! address, the symbol table built while parsing, and the running address
//! counter the assembler advances as it encodes.

use vstd::prelude::*;

use crate::bits::{signed32, wrap32};
use crate::cpu::isa::{ExecStatement, StmtV};
use crate::text::str_eq;

verus! {

/// A label bound to a resolved address.
pub struct Symbol {
    pub name: String,
    pub addr: u32,
}

/// The mathematical value of a symbol.
pub ghost struct SymV {
    pub name: Seq<char>,
    pub addr: u32,
}

impl View for Symbol {
    type V = SymV;

    open spec fn view(&self) -> SymV {
        SymV { name: self.name@, addr: self.addr }
    }
}

impl DeepView for Symbol {
    type V = SymV;

    open spec fn deep_view(&self) -> SymV {
        self.view()
    }
}

/// A parsed program, before and during assembly.
pub struct Program {
    pub name: String,
    pub instructions: Vec<ExecStatement>,
    pub start_pc: u32,
    pub sym_table: Vec<Symbol>,
    pub scratchwork: u32,
}

/// The mathematical value of a program.
pub ghost struct ProgV {
    pub name: Seq<char>,
    pub stmts: Seq<StmtV>,
    pub start_pc: u32,
    pub syms: Seq<SymV>,
    pub scratchwork: u32,
}

impl View for Program {
    type V = ProgV;

    open spec fn view(&self) -> ProgV {
        ProgV {
            name: self.name@,
            stmts: self.instructions.deep_view(),
            start_pc: self.start_pc,
            syms: self.sym_table.deep_view(),
            scratchwork: self.scratchwork,
        }
    }
}

impl DeepView for Program {
    type V = ProgV;

    open spec fn deep_view(&self) -> ProgV {
        self.view()
    }
}

/// The address bound to the first symbol of that name, scanning the table
/// front to back.
pub open spec fn sym_lookup(syms: Seq<SymV>, name: Seq<char>) -> Option<u32>
    decreases syms.len(),
{
    if syms.len() == 0 {
        None
    } else if syms[0].name == name {
        Some(syms[0].addr)
    } else {
        sym_lookup(syms.drop_first(), name)
    }
}

impl Program {
    /// Is a label of this name declared?
    #[allow(non_snake_case)]
    pub fn labelExists(&self, labName: String) -> (r: bool)
        ensures
            r == (sym_lookup(self@.syms, labName@) is Some),
    {
        let ghost syms = self@.syms;
        proof {
            assert(syms.skip(0) =~= syms);
        }
        let n = self.sym_table.len();
        let mut i: usize = 0;
        while i < n
            invariant
                i <= n,
                n == self.sym_table.len(),
                syms == self@.syms,
                sym_lookup(syms, labName@) == sym_lookup(syms.skip(i as int), labName@),
            decreases n - i,
        {
            proof {
                assert(syms.skip(i as int)[0] == syms[i as int]);
                assert(syms.skip(i as int).drop_first() =~= syms.skip(i + 1));
            }
            if str_eq(self.sym_table[i].name.as_str(), labName.as_str()) {
                return true;
            }
            i += 1;
        }
        proof {
            assert(syms.skip(n as int) =~= Seq::<SymV>::empty());
        }
        false
    }

    /// The displacement from `pc` to the first symbol of this name, as the
    /// 32-bit two's-complement difference; `i32::MAX` when the name is not
    /// declared.
    #[allow(non_snake_case)]
    pub fn labelOffset(&self, labName: String, pc: u32) -> (r: i32)
        ensures
            ({
                match sym_lookup(self@.syms, labName@) {
                    Some(a) => r as int == signed32(wrap32(a - pc)),
                    None => r == i32::MAX,
                }
            }),
    {
        let ghost syms = self@.syms;
        proof {
            assert(syms.skip(0) =~= syms);
        }
        let n = self.sym_table.len();
        let mut i: usize = 0;
        while i < n
            invariant
                i <= n,
                n == self.sym_table.len(),
                syms == self@.syms,
                sym_lookup(syms, labName@) == sym_lookup(syms.skip(i as int), labName@),
            decreases n - i,
        {
            proof {
                assert(syms.skip(i as int)[0] == syms[i as int]);
                assert(syms.skip(i as int).drop_first() =~= syms.skip(i + 1));
            }
            if str_eq(self.sym_table[i].name.as_str(), labName.as_str()) {
                let diff = self.sym_table[i].addr.wrapping_sub(pc);
                return crate::bits::to_signed(diff);
            }
            i += 1;
        }
        proof {
            assert(syms.skip(n as int) =~= Seq::<SymV>::empty());
        }
        i32::MAX
    }
}

/// Running a program object directly is not part of the machine: execution
/// goes through the hardware's memory image.  The call leaves the program
/// as it was.
pub fn run_program(p: &mut Program, _count: u16)
    ensures
        *final(p) == *old(p),
{
}

} // verus!
