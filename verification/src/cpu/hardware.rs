//! The simulated SC0 hardware: the sixteen-slot register file, the flat
//! word-addressable memory, and the arithmetic/logic unit.
//!
//! Registers 13..15 are reserved: stack pointer, program counter, processor
//! status register.  Word and byte memory accessors mask the stored 32-bit
//! value rather than addressing distinct storage: all three granularities
//! share one word-sized slot per address.

use vstd::prelude::*;

use crate::bits::{sdiv32, wrap32};
use crate::cpu::assemble::{assemble, assemble_from, stmts_wf};
use crate::cpu::isa::{check_args, check_args_from, is_math_op, Instruction};
use crate::helpers::program::{Program, ProgV};
use crate::text::str_eq;

verus! {

/// The arithmetic/logic unit: two input latches and an output latch.
pub struct ALU {
    pub input1: u32,
    pub input2: u32,
    pub output: u32,
}

impl ALU {
    fn flush(&mut self)
        ensures
            final(self).input1 == 0,
            final(self).input2 == old(self).input2,
            final(self).output == 0,
    {
        self.input1 = 0;
        self.output = 0;
    }

    fn add(&mut self) -> (r: u32)
        ensures
            r == wrap32(old(self).input1 + old(self).input2),
            *final(self) == (ALU { output: r, ..*old(self) }),
    {
        self.output = crate::bits::add32(self.input1, self.input2);
        return self.output;
    }

    fn sub(&mut self) -> (r: u32)
        ensures
            r == wrap32(old(self).input1 - old(self).input2),
            *final(self) == (ALU { output: r, ..*old(self) }),
    {
        self.output = crate::bits::sub32(self.input1, self.input2);
        return self.output;
    }

    fn mul(&mut self) -> (r: u32)
        ensures
            r == wrap32(old(self).input1 * old(self).input2),
            *final(self) == (ALU { output: r, ..*old(self) }),
    {
        self.output = crate::bits::mul32(self.input1, self.input2);
        return self.output;
    }

    fn div(&mut self) -> (r: u32)
        requires
            old(self).input2 != 0,
        ensures
            r == sdiv32(old(self).input1, old(self).input2),
            *final(self) == (ALU { output: r, ..*old(self) }),
    {
        self.output = crate::bits::div32(self.input1, self.input2);
        return self.output;
    }

    fn lshf(&mut self) -> (r: u32)
        requires
            old(self).input2 < 32,
        ensures
            r == old(self).input1 << old(self).input2,
            *final(self) == (ALU { output: r, ..*old(self) }),
    {
        self.output = self.input1 << self.input2;
        return self.output;
    }

    fn rshf(&mut self) -> (r: u32)
        requires
            old(self).input2 < 32,
        ensures
            r == old(self).input1 >> old(self).input2,
            *final(self) == (ALU { output: r, ..*old(self) }),
    {
        self.output = self.input1 >> self.input2;
        return self.output;
    }

    fn xor(&mut self) -> (r: u32)
        ensures
            r == old(self).input1 ^ old(self).input2,
            *final(self) == (ALU { output: r, ..*old(self) }),
    {
        self.output = self.input1 ^ self.input2;
        return self.output;
    }

    fn and(&mut self) -> (r: u32)
        ensures
            r == old(self).input1 & old(self).input2,
            *final(self) == (ALU { output: r, ..*old(self) }),
    {
        self.output = self.input1 & self.input2;
        return self.output;
    }

    fn or(&mut self) -> (r: u32)
        ensures
            r == old(self).input1 | old(self).input2,
            *final(self) == (ALU { output: r, ..*old(self) }),
    {
        self.output = self.input1 | self.input2;
        return self.output;
    }

    fn not(&mut self) -> (r: u32)
        ensures
            r == !old(self).input1,
            *final(self) == (ALU { output: r, ..*old(self) }),
    {
        self.output = !self.input1;
        return self.output;
    }
}

/// What the ten unit operations compute, over the raw word values.  The
/// additive operations follow two's-complement wrapping; division rounds
/// towards zero on the signed readings of its operands.
pub open spec fn alu_eval(i: Instruction, a: u32, b: u32) -> u32 {
    match i {
        Instruction::Add => wrap32(a + b),
        Instruction::Sub => wrap32(a - b),
        Instruction::Mul => wrap32(a * b),
        Instruction::Div => sdiv32(a, b),
        Instruction::Lshf => a << b,
        Instruction::Rshf => a >> b,
        Instruction::Xor => a ^ b,
        Instruction::And => a & b,
        Instruction::Or => a | b,
        Instruction::Not => !a,
        _ => 0,
    }
}

/// The operand values on which a unit operation completes: division needs a
/// nonzero divisor and a shift needs an amount below the word width.
/// Anything else is a fatal fault of the simulated machine.
pub open spec fn alu_defined(i: Instruction, a: u32, b: u32) -> bool {
    match i {
        Instruction::Div => b != 0,
        Instruction::Lshf | Instruction::Rshf => b < 32,
        _ => true,
    }
}

/// The whole simulated machine: register file, memory, the unit, and the
/// catalog of loaded programs with the name of the selected one.
pub struct Sc0Hardware {
    pub register_file: Vec<u32>,
    pub memory: Vec<u32>,
    pub alu: ALU,
    pub mem_limit: u32,
    pub user_progs: Vec<Program>,
    pub selected: String,
}

/// The mathematical value of the machine: the unit's internal latches are
/// scratch state and stay outside it.
pub ghost struct HwV {
    pub regs: Seq<u32>,
    pub mem: Seq<u32>,
    pub limit: u32,
    pub progs: Seq<ProgV>,
    pub selected: Seq<char>,
}

impl View for Sc0Hardware {
    type V = HwV;

    open spec fn view(&self) -> HwV {
        HwV {
            regs: self.register_file@,
            mem: self.memory@,
            limit: self.mem_limit,
            progs: self.user_progs.deep_view(),
            selected: self.selected@,
        }
    }
}

/// The first program of the given name in the catalog.
pub open spec fn prog_lookup(progs: Seq<ProgV>, name: Seq<char>) -> Option<ProgV>
    decreases progs.len(),
{
    if progs.len() == 0 {
        None
    } else if progs[0].name == name {
        Some(progs[0])
    } else {
        prog_lookup(progs.drop_first(), name)
    }
}

/// A found program carries the searched name.
pub proof fn lemma_prog_lookup_name(progs: Seq<ProgV>, name: Seq<char>)
    ensures
        prog_lookup(progs, name) matches Some(p) ==> p.name == name,
    decreases progs.len(),
{
    if progs.len() > 0 && !(progs[0].name == name) {
        lemma_prog_lookup_name(progs.drop_first(), name);
    }
}

impl Sc0Hardware {
    /// The machine is well formed: sixteen register slots, and exactly as
    /// many memory words as the limit says.
    pub open spec fn wf(&self) -> bool {
        &&& self.register_file@.len() == 16
        &&& self.memory@.len() == self.mem_limit
    }

    /// Return a reference to the first loaded program of the given name.
    pub fn get_prog(&self, n: String) -> (r: Option<&Program>)
        ensures
            ({
                match r {
                    Some(p) => prog_lookup(self@.progs, n@) == Some(p@),
                    None => prog_lookup(self@.progs, n@) is None,
                }
            }),
    {
        let ghost progs = self@.progs;
        proof {
            assert(progs.skip(0) =~= progs);
        }
        let count = self.user_progs.len();
        let mut i: usize = 0;
        while i < count
            invariant
                i <= count,
                count == self.user_progs.len(),
                progs == self@.progs,
                prog_lookup(progs, n@) == prog_lookup(progs.skip(i as int), n@),
            decreases count - i,
        {
            proof {
                assert(progs.skip(i as int)[0] == progs[i as int]);
                assert(progs.skip(i as int).drop_first() =~= progs.skip(i + 1));
            }
            if str_eq(self.user_progs[i].name.as_str(), n.as_str()) {
                return Some(&self.user_progs[i]);
            }
            i += 1;
        }
        proof {
            assert(progs.skip(count as int) =~= Seq::<ProgV>::empty());
        }
        None
    }

    /// Read a register slot.
    pub fn get_reg(&self, idx: usize) -> (r: u32)
        requires
            self.wf(),
            idx < 16,
        ensures
            r == self@.regs[idx as int],
    {
        return self.register_file[idx];
    }

    /// Write a register slot.
    pub fn set_reg(&mut self, idx: usize, val: u32)
        requires
            old(self).wf(),
            idx < 16,
        ensures
            final(self).wf(),
            final(self)@ == (HwV { regs: old(self)@.regs.update(idx as int, val), ..old(self)@ }),
    {
        self.register_file[idx] = val;
    }

    /// Read the full word at an address.
    pub fn get_mem_dw(&self, addr: u32) -> (r: u32)
        requires
            self.wf(),
            addr < self@.limit,
        ensures
            r == self@.mem[addr as int],
    {
        return self.memory[addr as usize];
    }

    /// Read the low 16 bits of the word at an address.
    pub fn get_mem_w(&self, addr: u32) -> (r: u32)
        requires
            self.wf(),
            addr < self@.limit,
        ensures
            r == self@.mem[addr as int] & 0xFFFF,
    {
        return self.memory[addr as usize] & 0xFFFF;
    }

    /// Read the low 8 bits of the word at an address.
    pub fn get_mem_b(&self, addr: u32) -> (r: u32)
        requires
            self.wf(),
            addr < self@.limit,
        ensures
            r == self@.mem[addr as int] & 0xFF,
    {
        return self.memory[addr as usize] & 0xFF;
    }

    /// Write the full word at an address.
    pub fn set_mem_dw(&mut self, addr: u32, val: u32)
        requires
            old(self).wf(),
            addr < old(self)@.limit,
        ensures
            final(self).wf(),
            final(self)@ == (HwV { mem: old(self)@.mem.update(addr as int, val), ..old(self)@ }),
    {
        self.memory[addr as usize] = val;
    }

    /// Overwrite the low 16 bits of the word at an address, keeping the
    /// high 16.
    pub fn set_mem_w(&mut self, addr: u32, val: u16)
        requires
            old(self).wf(),
            addr < old(self)@.limit,
        ensures
            final(self).wf(),
            final(self)@ == (HwV {
                mem: old(self)@.mem.update(
                    addr as int,
                    (old(self)@.mem[addr as int] & 0xFFFF_0000) | val as u32,
                ),
                ..old(self)@
            }),
    {
        let merged = (self.memory[addr as usize] & 0xFFFF_0000) | val as u32;
        self.memory[addr as usize] = merged;
    }

    /// Overwrite the low 8 bits of the word at an address, keeping the
    /// high 24.
    pub fn set_mem_b(&mut self, addr: u32, val: u8)
        requires
            old(self).wf(),
            addr < old(self)@.limit,
        ensures
            final(self).wf(),
            final(self)@ == (HwV {
                mem: old(self)@.mem.update(
                    addr as int,
                    (old(self)@.mem[addr as int] & 0xFFFF_FF00) | val as u32,
                ),
                ..old(self)@
            }),
    {
        let merged = (self.memory[addr as usize] & 0xFFFF_FF00) | val as u32;
        self.memory[addr as usize] = merged;
    }

    /// Validate, assemble and load a program: on success its words (minus
    /// the leading origin word) are copied into memory at the checked
    /// starting address and the program joins the catalog; on any failure
    /// the machine is left as it was and the program is discarded.
    pub fn add_prog(&mut self, p: Program) -> (ok: bool)
        requires
            old(self).wf(),
        ensures
            final(self).wf(),
            final(self)@.regs == old(self)@.regs,
            final(self)@.limit == old(self)@.limit,
            final(self)@.selected == old(self)@.selected,
            ok == load_ok(p@, old(self)@.limit),
            !ok ==> final(self)@.progs == old(self)@.progs && final(self)@.mem == old(self)@.mem,
            ok ==> ({
                let chk = check_args_from(p@.stmts, 0, p@.start_pc);
                let ws = assemble_from(p@.syms, p@.stmts, 0, p@.scratchwork)->0;
                &&& final(self)@.mem == store_words(old(self)@.mem, chk.start_pc, ws.drop_first())
                &&& final(self)@.progs == old(self)@.progs.push(
                    ProgV {
                        start_pc: chk.start_pc,
                        scratchwork: wrap32(p@.scratchwork + ws.len()),
                        ..p@
                    },
                )
            }),
    {
        let mut prog = p;
        let ghost p0 = prog@;
        let ok1 = check_args(&mut prog);
        if !ok1 {
            return false;
        }
        proof {
            crate::cpu::assemble::lemma_check_gives_wf(p0.stmts, 0, p0.start_pc);
            assert(stmts_wf(prog@.stmts));
        }
        let mut object_vec: Vec<u32> = Vec::new();
        let ok2 = assemble(&mut prog, &mut object_vec);
        if !ok2 {
            return false;
        }
        let ghost ws = assemble_from(p0.syms, p0.stmts, 0, p0.scratchwork)->0;
        proof {
            assert(object_vec@ =~= ws);
        }
        if object_vec.len() == 0 {
            return false;
        }
        object_vec.remove(0);
        proof {
            assert(object_vec@ =~= ws.drop_first());
        }
        let start = prog.start_pc;
        if object_vec.len() as u64 > self.mem_limit as u64 {
            return false;
        }
        if (start as u64) + (object_vec.len() as u64) > (self.mem_limit as u64) {
            return false;
        }
        let body_len = object_vec.len();
        let ghost mem0 = self@.mem;
        let mut ctr: usize = 0;
        while ctr < body_len
            invariant
                ctr <= body_len,
                body_len == object_vec@.len(),
                object_vec@ == ws.drop_first(),
                self.wf(),
                self@.limit == old(self)@.limit,
                self@.regs == old(self)@.regs,
                self@.selected == old(self)@.selected,
                self@.progs == old(self)@.progs,
                mem0 == old(self)@.mem,
                start + body_len <= self@.limit,
                self@.mem.len() == mem0.len(),
                forall|j: int|
                    start <= j < start + ctr ==> self@.mem[j] == object_vec@[j - start],
                forall|j: int|
                    0 <= j < mem0.len() && !(start <= j < start + ctr) ==> self@.mem[j]
                        == mem0[j],
            decreases body_len - ctr,
        {
            let word = object_vec[ctr];
            self.set_mem_dw(start + ctr as u32, word);
            ctr += 1;
        }
        self.user_progs.push(prog);
        proof {
            assert(self@.mem =~= store_words(mem0, start, ws.drop_first()));
            assert(self@.progs =~= old(self)@.progs.push(
                ProgV {
                    start_pc: check_args_from(p0.stmts, 0, p0.start_pc).start_pc,
                    scratchwork: wrap32(p0.scratchwork + ws.len()),
                    ..p0
                },
            ));
        }
        true
    }

    /// Latch the unit's two inputs.
    fn set_alu(&mut self, arg1: u32, arg2: u32)
        ensures
            final(self).alu.input1 == arg1,
            final(self).alu.input2 == arg2,
            final(self).register_file == old(self).register_file,
            final(self).memory == old(self).memory,
            final(self).mem_limit == old(self).mem_limit,
            final(self).user_progs == old(self).user_progs,
            final(self).selected == old(self).selected,
    {
        self.alu.input1 = arg1;
        self.alu.input2 = arg2;
    }

    /// Run one unit operation on two operand words.  Only the ten math
    /// opcodes are accepted, and only on operands the unit completes on.
    pub fn alu_op(&mut self, instr: Instruction, arg1: u32, arg2: u32) -> (r: u32)
        requires
            old(self).wf(),
            is_math_op(instr),
            alu_defined(instr, arg1, arg2),
        ensures
            final(self).wf(),
            final(self)@ == old(self)@,
            r == alu_eval(instr, arg1, arg2),
    {
        self.set_alu(arg1, arg2);
        let ret_val: u32;
        match instr {
            Instruction::Add => {
                ret_val = self.alu.add();
            },
            Instruction::Sub => {
                ret_val = self.alu.sub();
            },
            Instruction::Mul => {
                ret_val = self.alu.mul();
            },
            Instruction::Div => {
                ret_val = self.alu.div();
            },
            Instruction::Lshf => {
                ret_val = self.alu.lshf();
            },
            Instruction::Rshf => {
                ret_val = self.alu.rshf();
            },
            Instruction::Xor => {
                ret_val = self.alu.xor();
            },
            Instruction::And => {
                ret_val = self.alu.and();
            },
            Instruction::Or => {
                ret_val = self.alu.or();
            },
            _ => {
                ret_val = self.alu.not();
            },
        }
        return ret_val;
    }
}

/// Memory after a word sequence is copied in starting at `at`.
pub open spec fn store_words(mem: Seq<u32>, at: u32, ws: Seq<u32>) -> Seq<u32> {
    Seq::new(mem.len(), |i: int| if at <= i < at + ws.len() {
        ws[i - at]
    } else {
        mem[i]
    })
}

/// When loading a program succeeds: its statements pass the argument
/// check, every statement encodes, at least the origin word comes out, and
/// the words after the origin word fit below the memory limit at the
/// checked starting address.
pub open spec fn load_ok(p: ProgV, limit: u32) -> bool {
    let chk = check_args_from(p.stmts, 0, p.start_pc);
    let words = assemble_from(p.syms, p.stmts, 0, p.scratchwork);
    &&& chk.ok
    &&& words is Some
    &&& words->0.len() >= 1
    &&& chk.start_pc + words->0.len() - 1 <= limit
}

/// Build the machine: `limit` words of zeroed memory, the stack pointer at
/// the last address, the status register holding the zero flag alone, and
/// an empty program catalog.
pub fn initialize(limit: u32) -> (hw: Sc0Hardware)
    requires
        limit >= 1,
    ensures
        hw.wf(),
        hw@.limit == limit,
        hw@.regs.len() == 16,
        hw@.regs[13] == limit - 1,
        hw@.regs[15] == 2,
        forall|i: int| 0 <= i < 16 && i != 13 && i != 15 ==> hw@.regs[i] == 0,
        hw@.mem =~= Seq::new(limit as nat, |i: int| 0u32),
        hw@.progs.len() == 0,
        hw@.selected.len() == 0,
{
    let mut regs: Vec<u32> = vec![0u32; 16];
    regs[13] = limit - 1;
    regs[15] = 0b010;
    let hw = Sc0Hardware {
        register_file: regs,
        memory: vec![0u32; limit as usize],
        alu: ALU { input1: 0, input2: 0, output: 0 },
        mem_limit: limit,
        user_progs: Vec::new(),
        selected: String::new(),
    };
    proof {
        assert(hw@.mem =~= Seq::new(limit as nat, |i: int| 0u32));
        assert(hw@.progs =~= Seq::<ProgV>::empty());
    }
    hw
}

} // verus!
