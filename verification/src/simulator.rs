//! The fetch-decode-execute engine.  `step` performs one instruction
//! against the machine exactly as the specification interpreter
//! `step_spec` states it; `run_machine` iterates `step` under an
//! instruction-count budget, gathering the characters the program emits and
//! drawing the characters it reads from a queue.
//!
//! Two documented quirks of the architecture are kept deliberately: the
//! program counter is incremented once after every dispatched instruction,
//! control transfers included, so a jump lands one word past its nominal
//! target; and a negative condition-code update clears only the negative
//! bit before setting it, so an older zero or positive flag can survive
//! beside it.

use vstd::prelude::*;

use crate::bits::{
    branch_cc_field, build_word, const_field, dest_field, imm20_set, imm24_set, op_field,
    reg_marker_set, sext16, sext16_x, signed32, src1_field, src2_field, wrap32,
};
use crate::cpu::hardware::{alu_defined, alu_eval, HwV, Sc0Hardware};
use crate::cpu::isa::{instr_from_code, instr_of, is_math_op, Instruction};

verus! {

/// Why a run stopped dead: a fatal fault of the simulated machine.
#[derive(Debug, Copy, Clone, PartialEq, Eq, Structural)]
pub enum FaultKind {
    /// A memory access beyond the configured limit.
    MemOutOfBounds,
    /// A word whose opcode field names a pseudo-op or the error marker.
    BadOpcode,
    /// A syscall word carrying an unknown code.
    BadSyscall,
    /// Division by zero, or a shift by 32 or more.
    ArithmeticFault,
}

/// What one step of the engine did.
#[derive(Debug, Copy, Clone, PartialEq, Eq, Structural)]
pub enum StepEvent {
    /// An ordinary instruction completed.
    Running,
    /// A halt syscall: the machine stopped, the program counter back on
    /// the halt word.
    Halted,
    /// A display syscall: the carried value (the low byte of register 0)
    /// is to be written out as a character.
    Output(u32),
    /// A print syscall: a debug message may be emitted; the machine state
    /// does not change beyond the program counter.
    Print,
    /// An input syscall found no input available; nothing was done.
    NeedInput,
    /// A fatal fault; the machine stopped where it stood.
    Fault(FaultKind),
}

/// The state transition one step makes.
pub ghost struct StepRes {
    pub regs: Seq<u32>,
    pub mem: Seq<u32>,
    pub ev: StepEvent,
    pub used: bool,
}

/// The condition-code update on the status register, from the signed value
/// of a result.  Zero and positive results clear the two other flag bits;
/// a negative result clears only the negative bit before setting it, as
/// the architecture has it.
pub open spec fn cc_update(psr: u32, v: int) -> u32 {
    if v == 0 {
        (psr & 0xFFFF_FFFA) | 2
    } else if v > 0 {
        (psr & 0xFFFF_FFF9) | 1
    } else {
        (psr & 0xFFFF_FFFB) | 4
    }
}

/// The blanket post-dispatch increment of the program counter.
pub open spec fn advanced(regs: Seq<u32>, mem: Seq<u32>, ev: StepEvent, used: bool) -> StepRes {
    StepRes { regs: regs.update(14, wrap32(regs[14] + 1)), mem, ev, used }
}

/// A fatal stop: nothing moves.
pub open spec fn faulted(regs: Seq<u32>, mem: Seq<u32>, k: FaultKind) -> StepRes {
    StepRes { regs, mem, ev: StepEvent::Fault(k), used: false }
}

/// One step of the engine over the mathematical machine: fetch the word at
/// the program counter, take its fields apart positionally, dispatch on
/// the opcode, then add one to the program counter.  `input` is the
/// character an input syscall would consume.
#[verifier::opaque]
pub open spec fn step_spec(regs: Seq<u32>, mem: Seq<u32>, input: Option<u8>) -> StepRes {
    let pc = regs[14];
    if pc >= mem.len() {
        faulted(regs, mem, FaultKind::MemOutOfBounds)
    } else {
        let w = mem[pc as int];
        let op = instr_of(op_field(w));
        let d = dest_field(w) as int;
        let s1 = src1_field(w) as int;
        let s2 = src2_field(w) as int;
        let c16 = const_field(w);
        let imm = imm24_set(w);
        match op {
            Instruction::Add | Instruction::Sub | Instruction::Mul | Instruction::Div
                | Instruction::And | Instruction::Or | Instruction::Xor | Instruction::Not
                | Instruction::Lshf | Instruction::Rshf => {
                if !alu_defined(op, regs[s1], math_b(regs, imm, s2, c16)) {
                    faulted(regs, mem, FaultKind::ArithmeticFault)
                } else {
                    advanced(
                        math_regs_after(regs, op, imm, d, s1, s2, c16),
                        mem,
                        StepEvent::Running,
                        false,
                    )
                }
            },
            Instruction::Mov => {
                let v = if imm {
                    sext16(c16)
                } else {
                    regs[s1]
                };
                advanced(regs.update(d, v), mem, StepEvent::Running, false)
            },
            Instruction::Lea => {
                let v = wrap32(regs[14] + sext16(c16));
                advanced(regs.update(d, v), mem, StepEvent::Running, false)
            },
            Instruction::Ldi => {
                let a1 = regs[s2];
                if a1 >= mem.len() {
                    faulted(regs, mem, FaultKind::MemOutOfBounds)
                } else {
                    let a2 = mem[a1 as int];
                    if a2 >= mem.len() {
                        faulted(regs, mem, FaultKind::MemOutOfBounds)
                    } else {
                        let v = mem[a2 as int];
                        let regs1 = regs.update(d, v);
                        let regs2 = regs1.update(15, cc_update(regs1[15], signed32(v)));
                        advanced(regs2, mem, StepEvent::Running, false)
                    }
                }
            },
            Instruction::Ldb | Instruction::Ldw | Instruction::Ldd => {
                let off = if imm {
                    sext16(c16)
                } else {
                    regs[s2]
                };
                let a = wrap32(regs[s1] + off);
                if a >= mem.len() {
                    faulted(regs, mem, FaultKind::MemOutOfBounds)
                } else {
                    let v = if op == Instruction::Ldb {
                        mem[a as int] & 0xFF
                    } else if op == Instruction::Ldw {
                        mem[a as int] & 0xFFFF
                    } else {
                        mem[a as int]
                    };
                    advanced(regs.update(d, v), mem, StepEvent::Running, false)
                }
            },
            Instruction::Sti => {
                let a1 = regs[d];
                if a1 >= mem.len() {
                    faulted(regs, mem, FaultKind::MemOutOfBounds)
                } else {
                    let a2 = mem[a1 as int];
                    if a2 >= mem.len() {
                        faulted(regs, mem, FaultKind::MemOutOfBounds)
                    } else {
                        advanced(
                            regs,
                            mem.update(a2 as int, regs[s1]),
                            StepEvent::Running,
                            false,
                        )
                    }
                }
            },
            Instruction::Stb | Instruction::Stw | Instruction::Std => {
                let off = if imm {
                    sext16(c16)
                } else {
                    regs[s2]
                };
                let a = wrap32(regs[s1] + off);
                if a >= mem.len() {
                    faulted(regs, mem, FaultKind::MemOutOfBounds)
                } else {
                    let stored = if op == Instruction::Stb {
                        (mem[a as int] & 0xFFFF_FF00) | (regs[d] & 0xFF)
                    } else if op == Instruction::Stw {
                        (mem[a as int] & 0xFFFF_0000) | (regs[d] & 0xFFFF)
                    } else {
                        regs[d]
                    };
                    advanced(regs, mem.update(a as int, stored), StepEvent::Running, false)
                }
            },
            Instruction::Jmp => {
                let target = if reg_marker_set(w) {
                    regs[s2]
                } else {
                    sext16(c16)
                };
                advanced(regs.update(14, target), mem, StepEvent::Running, false)
            },
            Instruction::Call => {
                let regs1 = regs.update(12, wrap32(regs[14] + 1));
                let target = if reg_marker_set(w) {
                    regs1[s2]
                } else {
                    sext16(c16)
                };
                advanced(regs1.update(14, target), mem, StepEvent::Running, false)
            },
            Instruction::Syscall => {
                let code = c16;
                if code == 0x1F {
                    StepRes { regs, mem, ev: StepEvent::Halted, used: false }
                } else if code == 0x3F {
                    advanced(regs, mem, StepEvent::Output(regs[0] & 0xFF), false)
                } else if code == 0x4F {
                    match input {
                        None => StepRes { regs, mem, ev: StepEvent::NeedInput, used: false },
                        Some(c) => advanced(
                            regs.update(0, c as u32),
                            mem,
                            StepEvent::Running,
                            true,
                        ),
                    }
                } else if code == 0x2F {
                    advanced(regs, mem, StepEvent::Print, false)
                } else {
                    faulted(regs, mem, FaultKind::BadSyscall)
                }
            },
            Instruction::Branch => {
                let taken = branch_cc_field(w) & (regs[15] & 7) != 0;
                let regs1 = if taken {
                    regs.update(14, wrap32(regs[14] + sext16(c16)))
                } else {
                    regs
                };
                advanced(regs1, mem, StepEvent::Running, false)
            },
            Instruction::Cmp => {
                let b = if imm20_set(w) {
                    sext16(c16)
                } else {
                    regs[s2]
                };
                let v = wrap32(regs[s1] - b);
                let regs1 = regs.update(15, cc_update(regs[15], signed32(v)));
                advanced(regs1, mem, StepEvent::Running, false)
            },
            Instruction::Push => {
                let val = if imm20_set(w) {
                    sext16(c16)
                } else {
                    regs[s1]
                };
                let sp = regs[13];
                if sp >= mem.len() {
                    faulted(regs, mem, FaultKind::MemOutOfBounds)
                } else {
                    let regs1 = regs.update(13, wrap32(sp - 1));
                    advanced(regs1, mem.update(sp as int, val), StepEvent::Running, false)
                }
            },
            Instruction::Pop => {
                let sp1 = wrap32(regs[13] + 1);
                let regs1 = regs.update(13, sp1);
                if sp1 >= mem.len() {
                    // the pointer increment has already happened: kept, as
                    // the machine attempts no rollback
                    StepRes {
                        regs: regs1,
                        mem,
                        ev: StepEvent::Fault(FaultKind::MemOutOfBounds),
                        used: false,
                    }
                } else {
                    let v = mem[sp1 as int];
                    let regs2 = regs1.update(s2, v);
                    let regs3 = regs2.update(15, cc_update(regs2[15], signed32(regs2[s2])));
                    advanced(regs3, mem, StepEvent::Running, false)
                }
            },
            _ => faulted(regs, mem, FaultKind::BadOpcode),
        }
    }
}

/// Extract the opcode of a memory word through the explicit code mapping.
pub fn get_opcode(mem_entry: u32) -> (r: Instruction)
    ensures
        r == instr_of(op_field(mem_entry)),
{
    instr_from_code((mem_entry >> 27) & 0x1F)
}

/// Extract a word's 16-bit constant field as a signed value.
pub fn get_constant(mem_entry: u32) -> (c: i16)
    ensures
        c as int == crate::bits::signed16(const_field(mem_entry)),
{
    proof {
        crate::bits::lemma_field_bounds(mem_entry);
    }
    let v: u32 = mem_entry & 0xFFFF;
    if v >= 0x8000 {
        ((v as i32) - 0x10000) as i16
    } else {
        v as i16
    }
}

/// Set the condition codes from a signed result, as `cc_update` states it.
pub fn set_cc(computer: &mut Sc0Hardware, val: i32)
    requires
        old(computer).wf(),
    ensures
        final(computer).wf(),
        final(computer)@ == (HwV {
            regs: old(computer)@.regs.update(
                15,
                cc_update(old(computer)@.regs[15], val as int),
            ),
            ..old(computer)@
        }),
{
    let mut current_cc = computer.get_reg(15);
    if val == 0 {
        current_cc = (current_cc & 0xFFFF_FFFA) | 2;
    } else if val > 0 {
        current_cc = (current_cc & 0xFFFF_FFF9) | 1;
    } else {
        current_cc = (current_cc & 0xFFFF_FFFB) | 4;
    }
    computer.set_reg(15, current_cc);
}

/// The second operand of a math or compare instruction: the sign-extended
/// constant under the immediate flag, a register otherwise.
pub open spec fn math_b(regs: Seq<u32>, imm: bool, s2: int, c16: u32) -> u32 {
    if imm {
        sext16(c16)
    } else {
        regs[s2]
    }
}

/// The register file after one math instruction: destination written, then
/// condition codes set from the result.
pub open spec fn math_regs_after(
    regs: Seq<u32>,
    instr: Instruction,
    imm: bool,
    d: int,
    s1: int,
    s2: int,
    c16: u32,
) -> Seq<u32> {
    let v = alu_eval(instr, regs[s1], math_b(regs, imm, s2, c16));
    let regs1 = regs.update(d, v);
    regs1.update(15, cc_update(regs1[15], signed32(v)))
}

/// One math instruction: resolve the operands, run the unit, write the
/// destination, update the condition codes.  False means the unit cannot
/// complete (division by zero, oversized shift) and nothing moved.
fn math(
    computer: &mut Sc0Hardware,
    instr: Instruction,
    imm: bool,
    dest: usize,
    src1: usize,
    src2: usize,
    c16: u32,
) -> (ok: bool)
    requires
        old(computer).wf(),
        is_math_op(instr),
        dest < 16,
        src1 < 16,
        src2 < 16,
        c16 <= 0xFFFF,
    ensures
        final(computer).wf(),
        ok == alu_defined(
            instr,
            old(computer)@.regs[src1 as int],
            math_b(old(computer)@.regs, imm, src2 as int, c16),
        ),
        !ok ==> final(computer)@ == old(computer)@,
        ok ==> final(computer)@ == (HwV {
            regs: math_regs_after(
                old(computer)@.regs,
                instr,
                imm,
                dest as int,
                src1 as int,
                src2 as int,
                c16,
            ),
            ..old(computer)@
        }),
{
    let a = computer.get_reg(src1);
    let b = if imm {
        sext16_x(c16)
    } else {
        computer.get_reg(src2)
    };
    let defined = match instr {
        Instruction::Div => b != 0,
        Instruction::Lshf | Instruction::Rshf => b < 32,
        _ => true,
    };
    if !defined {
        return false;
    }
    let val = computer.alu_op(instr, a, b);
    computer.set_reg(dest, val);
    set_cc(computer, crate::bits::to_signed(val));
    true
}

/// Run the instruction under the program counter, exactly as `step_spec`
/// states it.  The second component tells whether the offered input
/// character was consumed.
pub fn step(computer: &mut Sc0Hardware, input: Option<u8>) -> (r: (StepEvent, bool))
    requires
        old(computer).wf(),
    ensures
        final(computer).wf(),
        final(computer)@.regs == step_spec(old(computer)@.regs, old(computer)@.mem, input).regs,
        final(computer)@.mem == step_spec(old(computer)@.regs, old(computer)@.mem, input).mem,
        r.0 == step_spec(old(computer)@.regs, old(computer)@.mem, input).ev,
        r.1 == step_spec(old(computer)@.regs, old(computer)@.mem, input).used,
        final(computer)@.limit == old(computer)@.limit,
        final(computer)@.progs == old(computer)@.progs,
        final(computer)@.selected == old(computer)@.selected,
{
    proof {
        reveal(step_spec);
    }
    let pc = computer.get_reg(14);
    if pc >= computer.mem_limit {
        return (StepEvent::Fault(FaultKind::MemOutOfBounds), false);
    }
    let w = computer.get_mem_dw(pc);
    proof {
        crate::bits::lemma_field_bounds(w);
    }
    let dest = ((w >> 20) & 0xF) as usize;
    let s1 = ((w >> 16) & 0xF) as usize;
    let s2 = (w & 0xF) as usize;
    let c16: u32 = w & 0xFFFF;
    let imm = (w & 0x1000000) != 0;
    let instr = get_opcode(w);
    match instr {
        Instruction::Add | Instruction::Sub | Instruction::Mul | Instruction::Div
            | Instruction::And | Instruction::Or | Instruction::Xor | Instruction::Not
            | Instruction::Lshf | Instruction::Rshf => {
            if math(computer, instr, imm, dest, s1, s2, c16) {
                let pc1 = computer.get_reg(14);
                computer.set_reg(14, crate::bits::add32(pc1, 1));
                (StepEvent::Running, false)
            } else {
                (StepEvent::Fault(FaultKind::ArithmeticFault), false)
            }
        },
        Instruction::Mov => {
            if imm {
                let v = sext16_x(c16);
                computer.set_reg(dest, v);
            } else {
                let v = computer.get_reg(s1);
                computer.set_reg(dest, v);
            }
            let pc1 = computer.get_reg(14);
            computer.set_reg(14, crate::bits::add32(pc1, 1));
            (StepEvent::Running, false)
        },
        Instruction::Lea => {
            let v = crate::bits::add32(computer.get_reg(14), sext16_x(c16));
            computer.set_reg(dest, v);
            let pc1 = computer.get_reg(14);
            computer.set_reg(14, crate::bits::add32(pc1, 1));
            (StepEvent::Running, false)
        },
        Instruction::Ldi => {
            let a1 = computer.get_reg(s2);
            if a1 >= computer.mem_limit {
                return (StepEvent::Fault(FaultKind::MemOutOfBounds), false);
            }
            let a2 = computer.get_mem_dw(a1);
            if a2 >= computer.mem_limit {
                return (StepEvent::Fault(FaultKind::MemOutOfBounds), false);
            }
            let v = computer.get_mem_dw(a2);
            computer.set_reg(dest, v);
            set_cc(computer, crate::bits::to_signed(v));
            let pc1 = computer.get_reg(14);
            computer.set_reg(14, crate::bits::add32(pc1, 1));
            (StepEvent::Running, false)
        },
        Instruction::Ldb | Instruction::Ldw | Instruction::Ldd => {
            let off = if imm {
                sext16_x(c16)
            } else {
                computer.get_reg(s2)
            };
            let a = crate::bits::add32(computer.get_reg(s1), off);
            if a >= computer.mem_limit {
                return (StepEvent::Fault(FaultKind::MemOutOfBounds), false);
            }
            let v = if matches!(instr, Instruction::Ldb) {
                computer.get_mem_b(a)
            } else if matches!(instr, Instruction::Ldw) {
                computer.get_mem_w(a)
            } else {
                computer.get_mem_dw(a)
            };
            computer.set_reg(dest, v);
            let pc1 = computer.get_reg(14);
            computer.set_reg(14, crate::bits::add32(pc1, 1));
            (StepEvent::Running, false)
        },
        Instruction::Sti => {
            let a1 = computer.get_reg(dest);
            if a1 >= computer.mem_limit {
                return (StepEvent::Fault(FaultKind::MemOutOfBounds), false);
            }
            let a2 = computer.get_mem_dw(a1);
            if a2 >= computer.mem_limit {
                return (StepEvent::Fault(FaultKind::MemOutOfBounds), false);
            }
            let v = computer.get_reg(s1);
            computer.set_mem_dw(a2, v);
            let pc1 = computer.get_reg(14);
            computer.set_reg(14, crate::bits::add32(pc1, 1));
            (StepEvent::Running, false)
        },
        Instruction::Stb | Instruction::Stw | Instruction::Std => {
            let off = if imm {
                sext16_x(c16)
            } else {
                computer.get_reg(s2)
            };
            let a = crate::bits::add32(computer.get_reg(s1), off);
            if a >= computer.mem_limit {
                return (StepEvent::Fault(FaultKind::MemOutOfBounds), false);
            }
            let v = computer.get_reg(dest);
            proof {
                crate::bits::lemma_mask_bounds(v);
            }
            if matches!(instr, Instruction::Stb) {
                computer.set_mem_b(a, (v & 0xFF) as u8);
            } else if matches!(instr, Instruction::Stw) {
                computer.set_mem_w(a, (v & 0xFFFF) as u16);
            } else {
                computer.set_mem_dw(a, v);
            }
            let pc1 = computer.get_reg(14);
            computer.set_reg(14, crate::bits::add32(pc1, 1));
            (StepEvent::Running, false)
        },
        Instruction::Jmp => {
            let target = if (w & 0xF0000) != 0 {
                computer.get_reg(s2)
            } else {
                sext16_x(c16)
            };
            computer.set_reg(14, target);
            let pc1 = computer.get_reg(14);
            computer.set_reg(14, crate::bits::add32(pc1, 1));
            (StepEvent::Running, false)
        },
        Instruction::Call => {
            let ret = crate::bits::add32(computer.get_reg(14), 1);
            computer.set_reg(12, ret);
            let target = if (w & 0xF0000) != 0 {
                computer.get_reg(s2)
            } else {
                sext16_x(c16)
            };
            computer.set_reg(14, target);
            let pc1 = computer.get_reg(14);
            computer.set_reg(14, crate::bits::add32(pc1, 1));
            (StepEvent::Running, false)
        },
        Instruction::Syscall => {
            if c16 == 0x1F {
                (StepEvent::Halted, false)
            } else if c16 == 0x3F {
                let out = computer.get_reg(0) & 0xFF;
                let pc1 = computer.get_reg(14);
                computer.set_reg(14, crate::bits::add32(pc1, 1));
                (StepEvent::Output(out), false)
            } else if c16 == 0x4F {
                match input {
                    None => (StepEvent::NeedInput, false),
                    Some(c) => {
                        computer.set_reg(0, c as u32);
                        let pc1 = computer.get_reg(14);
                        computer.set_reg(14, crate::bits::add32(pc1, 1));
                        (StepEvent::Running, true)
                    },
                }
            } else if c16 == 0x2F {
                let pc1 = computer.get_reg(14);
                computer.set_reg(14, crate::bits::add32(pc1, 1));
                (StepEvent::Print, false)
            } else {
                (StepEvent::Fault(FaultKind::BadSyscall), false)
            }
        },
        Instruction::Branch => {
            let spec_cc = (w & 0x70000) >> 16;
            let curr_cc = computer.get_reg(15) & 0x7;
            if (spec_cc & curr_cc) != 0 {
                let new_addr = crate::bits::add32(computer.get_reg(14), sext16_x(c16));
                computer.set_reg(14, new_addr);
            }
            let pc1 = computer.get_reg(14);
            computer.set_reg(14, crate::bits::add32(pc1, 1));
            (StepEvent::Running, false)
        },
        Instruction::Cmp => {
            let b = if (w & 0x100000) != 0 {
                sext16_x(c16)
            } else {
                computer.get_reg(s2)
            };
            let v = crate::bits::sub32(computer.get_reg(s1), b);
            set_cc(computer, crate::bits::to_signed(v));
            let pc1 = computer.get_reg(14);
            computer.set_reg(14, crate::bits::add32(pc1, 1));
            (StepEvent::Running, false)
        },
        Instruction::Push => {
            let val = if (w & 0x100000) != 0 {
                sext16_x(c16)
            } else {
                computer.get_reg(s1)
            };
            let sp = computer.get_reg(13);
            if sp >= computer.mem_limit {
                return (StepEvent::Fault(FaultKind::MemOutOfBounds), false);
            }
            computer.set_mem_dw(sp, val);
            computer.set_reg(13, crate::bits::sub32(sp, 1));
            let pc1 = computer.get_reg(14);
            computer.set_reg(14, crate::bits::add32(pc1, 1));
            (StepEvent::Running, false)
        },
        Instruction::Pop => {
            let sp1 = crate::bits::add32(computer.get_reg(13), 1);
            computer.set_reg(13, sp1);
            if sp1 >= computer.mem_limit {
                return (StepEvent::Fault(FaultKind::MemOutOfBounds), false);
            }
            let v = computer.get_mem_dw(sp1);
            computer.set_reg(s2, v);
            let cc_src = computer.get_reg(s2);
            set_cc(computer, crate::bits::to_signed(cc_src));
            let pc1 = computer.get_reg(14);
            computer.set_reg(14, crate::bits::add32(pc1, 1));
            (StepEvent::Running, false)
        },
        _ => (StepEvent::Fault(FaultKind::BadOpcode), false),
    }
}

/// The low three status bits after a condition-code update: a zero result
/// leaves exactly the zero flag and a positive result exactly the positive
/// flag.  A negative result sets the negative flag but, as the
/// architecture has it, leaves an older zero or positive flag standing.
pub proof fn lemma_cc_update_flags(psr: u32, v: int)
    ensures
        v == 0 ==> cc_update(psr, v) & 7 == 2,
        v > 0 ==> cc_update(psr, v) & 7 == 1,
        v < 0 ==> cc_update(psr, v) & 4 == 4 && cc_update(psr, v) & 7 == (psr & 3) | 4,
{
    assert(((psr & 0xFFFF_FFFA) | 2) & 7 == 2 && ((psr & 0xFFFF_FFF9) | 1) & 7 == 1 && ((psr
        & 0xFFFF_FFFB) | 4) & 4 == 4 && ((psr & 0xFFFF_FFFB) | 4) & 7 == (psr & 3) | 4)
        by (bit_vector);
}

/// A word whose opcode field names no executable instruction (a pseudo-op
/// or the error marker) is a fatal fault: the step stops the machine and
/// modifies neither a register nor memory.
pub proof fn lemma_invalid_opcode_faults(regs: Seq<u32>, mem: Seq<u32>, input: Option<u8>)
    requires
        regs[14] < mem.len(),
        !crate::cpu::isa::is_executable(instr_of(op_field(mem[regs[14] as int]))),
    ensures
        step_spec(regs, mem, input).ev == StepEvent::Fault(FaultKind::BadOpcode),
        step_spec(regs, mem, input).regs == regs,
        step_spec(regs, mem, input).mem == mem,
{
    reveal(step_spec);
}

/// Why a bounded run came back.
#[derive(Debug, Copy, Clone, PartialEq, Eq, Structural)]
pub enum StopKind {
    /// A halt syscall was executed.
    Halted,
    /// A fatal fault of the machine.
    Faulted(FaultKind),
    /// The instruction budget ran out first.
    OutOfBudget,
    /// An input syscall needs a character and the queue is empty.
    AwaitingInput,
}

/// The mathematical outcome of a bounded run.
pub ghost struct RunRes {
    pub regs: Seq<u32>,
    pub mem: Seq<u32>,
    pub outputs: Seq<u32>,
    pub stop: StopKind,
    pub used: nat,
}

/// A bounded run of the engine: step until a halt, a fault, an exhausted
/// budget, or an input syscall that finds the input queue empty.  Display
/// syscalls append the emitted values in order; input syscalls consume the
/// queue from the front.
pub open spec fn run_spec(regs: Seq<u32>, mem: Seq<u32>, inputs: Seq<u8>, fuel: nat) -> RunRes
    decreases fuel,
{
    if fuel == 0 {
        RunRes { regs, mem, outputs: seq![], stop: StopKind::OutOfBudget, used: 0 }
    } else {
        let inp = if inputs.len() > 0 {
            Some(inputs[0])
        } else {
            None
        };
        let s = step_spec(regs, mem, inp);
        match s.ev {
            StepEvent::Halted => RunRes {
                regs: s.regs,
                mem: s.mem,
                outputs: seq![],
                stop: StopKind::Halted,
                used: 0,
            },
            StepEvent::Fault(k) => RunRes {
                regs: s.regs,
                mem: s.mem,
                outputs: seq![],
                stop: StopKind::Faulted(k),
                used: 0,
            },
            StepEvent::NeedInput => RunRes {
                regs: s.regs,
                mem: s.mem,
                outputs: seq![],
                stop: StopKind::AwaitingInput,
                used: 0,
            },
            _ => {
                let rest = run_spec(
                    s.regs,
                    s.mem,
                    if s.used {
                        inputs.drop_first()
                    } else {
                        inputs
                    },
                    (fuel - 1) as nat,
                );
                let outs = match s.ev {
                    StepEvent::Output(v) => seq![v] + rest.outputs,
                    _ => rest.outputs,
                };
                RunRes {
                    regs: rest.regs,
                    mem: rest.mem,
                    outputs: outs,
                    stop: rest.stop,
                    used: (if s.used {
                        1int
                    } else {
                        0int
                    } + rest.used) as nat,
                }
            },
        }
    }
}

/// A run that opens on a word with no executable opcode stops at once
/// with the bad-opcode fault, emits nothing, and leaves every register
/// and every memory word as it was.
pub proof fn lemma_invalid_opcode_stops_run(
    regs: Seq<u32>,
    mem: Seq<u32>,
    inputs: Seq<u8>,
    fuel: nat,
)
    requires
        fuel > 0,
        regs[14] < mem.len(),
        !crate::cpu::isa::is_executable(instr_of(op_field(mem[regs[14] as int]))),
    ensures
        run_spec(regs, mem, inputs, fuel).stop == StopKind::Faulted(FaultKind::BadOpcode),
        run_spec(regs, mem, inputs, fuel).regs == regs,
        run_spec(regs, mem, inputs, fuel).mem == mem,
        run_spec(regs, mem, inputs, fuel).outputs == Seq::<u32>::empty(),
{
    let inp = if inputs.len() > 0 {
        Some(inputs[0])
    } else {
        None
    };
    lemma_invalid_opcode_faults(regs, mem, inp);
}


/// Stack discipline: three pushes of 1, 2 and 3, followed by three pops
/// into distinct general registers, hand the values back newest first and
/// leave the stack pointer where it began.  The six words sit in order at
/// the program counter, with the stack area above them; the pushes write
/// 1, 2, 3 downwards from the initial stack pointer, and nothing else of
/// memory moves.
#[verifier::rlimit(100)]
pub proof fn lemma_stack_round_trip(regs: Seq<u32>, mem: Seq<u32>, a: u32, b: u32, c: u32)
    requires
        regs.len() == 16,
        mem.len() <= 0x1_0000_0000,
        regs[14] + 6 <= regs[13] - 2,
        regs[13] < mem.len(),
        a <= 12,
        b <= 12,
        c <= 12,
        a != b,
        a != c,
        b != c,
        mem[regs[14] as int] == build_word(25, 0, 1, 0, 0, 1),
        mem[regs[14] + 1] == build_word(25, 0, 1, 0, 0, 2),
        mem[regs[14] + 2] == build_word(25, 0, 1, 0, 0, 3),
        mem[regs[14] + 3] == build_word(26, 0, 0, 0, 0, a),
        mem[regs[14] + 4] == build_word(26, 0, 0, 0, 0, b),
        mem[regs[14] + 5] == build_word(26, 0, 0, 0, 0, c),
    ensures
        ({
            let m1 = step_spec(regs, mem, None);
            let m2 = step_spec(m1.regs, m1.mem, None);
            let m3 = step_spec(m2.regs, m2.mem, None);
            let m4 = step_spec(m3.regs, m3.mem, None);
            let m5 = step_spec(m4.regs, m4.mem, None);
            let m6 = step_spec(m5.regs, m5.mem, None);
            &&& m1.ev == StepEvent::Running
            &&& m2.ev == StepEvent::Running
            &&& m3.ev == StepEvent::Running
            &&& m4.ev == StepEvent::Running
            &&& m5.ev == StepEvent::Running
            &&& m6.ev == StepEvent::Running
            &&& m6.regs[a as int] == 3
            &&& m6.regs[b as int] == 2
            &&& m6.regs[c as int] == 1
            &&& m6.regs[13] == regs[13]
            &&& m6.regs[14] == regs[14] + 6
            &&& m6.mem == mem.update(regs[13] as int, 1).update(regs[13] - 1, 2).update(
                regs[13] - 2,
                3,
            )
        }),
{
    reveal(step_spec);
    let pc = regs[14];
    let s = regs[13];
    crate::bits::lemma_build_word_fields(25, 0, 1, 0, 0, 1);
    crate::bits::lemma_build_word_fields(25, 0, 1, 0, 0, 2);
    crate::bits::lemma_build_word_fields(25, 0, 1, 0, 0, 3);
    crate::bits::lemma_build_word_fields(26, 0, 0, 0, 0, a);
    crate::bits::lemma_build_word_fields(26, 0, 0, 0, 0, b);
    crate::bits::lemma_build_word_fields(26, 0, 0, 0, 0, c);
    crate::bits::lemma_nibble_id(a);
    crate::bits::lemma_nibble_id(b);
    crate::bits::lemma_nibble_id(c);
    crate::bits::lemma_wrap32_small(pc + 1);
    crate::bits::lemma_wrap32_small(pc + 2);
    crate::bits::lemma_wrap32_small(pc + 3);
    crate::bits::lemma_wrap32_small(pc + 4);
    crate::bits::lemma_wrap32_small(pc + 5);
    crate::bits::lemma_wrap32_small(pc + 6);
    crate::bits::lemma_wrap32_small(s - 1);
    crate::bits::lemma_wrap32_small(s - 2);
    crate::bits::lemma_wrap32_small(s - 3);
    let m1 = step_spec(regs, mem, None);
    assert(m1.regs =~= regs.update(13, (s - 1) as u32).update(14, (pc + 1) as u32));
    assert(m1.mem =~= mem.update(s as int, 1));
    let m2 = step_spec(m1.regs, m1.mem, None);
    assert(m2.regs =~= m1.regs.update(13, (s - 2) as u32).update(14, (pc + 2) as u32));
    assert(m2.mem =~= m1.mem.update(s - 1, 2));
    let m3 = step_spec(m2.regs, m2.mem, None);
    assert(m3.regs =~= m2.regs.update(13, (s - 3) as u32).update(14, (pc + 3) as u32));
    assert(m3.mem =~= m2.mem.update(s - 2, 3));
    let m4 = step_spec(m3.regs, m3.mem, None);
    assert(m4.mem == m3.mem);
    assert(m4.regs[a as int] == 3);
    assert(m4.regs[13] == s - 2);
    assert(m4.regs[14] == pc + 4);
    let m5 = step_spec(m4.regs, m4.mem, None);
    assert(m5.mem == m4.mem);
    assert(m5.regs[b as int] == 2);
    assert(m5.regs[a as int] == 3);
    assert(m5.regs[13] == s - 1);
    assert(m5.regs[14] == pc + 5);
    let m6 = step_spec(m5.regs, m5.mem, None);
    assert(m6.mem == m5.mem);
    assert(m6.regs[c as int] == 1);
    assert(m6.regs[b as int] == 2);
    assert(m6.regs[a as int] == 3);
    assert(m6.regs[13] == s);
    assert(m6.regs[14] == pc + 6);
}

/// A step offered no input never consumes one.
proof fn lemma_step_no_input(regs: Seq<u32>, mem: Seq<u32>)
    ensures
        !step_spec(regs, mem, None::<u8>).used,
{
    reveal(step_spec);
}

/// What a bounded run returns: why it stopped, what the program emitted,
/// and how many input characters it consumed.
pub struct RunOutcome {
    pub stop: StopKind,
    pub output: Vec<u32>,
    pub consumed: usize,
}

/// Run the engine for at most `budget` instructions, exactly as `run_spec`
/// states it.
pub fn run_machine(computer: &mut Sc0Hardware, budget: u32, inputs: &Vec<u8>) -> (out: RunOutcome)
    requires
        old(computer).wf(),
    ensures
        final(computer).wf(),
        final(computer)@.limit == old(computer)@.limit,
        final(computer)@.progs == old(computer)@.progs,
        final(computer)@.selected == old(computer)@.selected,
        ({
            let r = run_spec(old(computer)@.regs, old(computer)@.mem, inputs@, budget as nat);
            &&& final(computer)@.regs == r.regs
            &&& final(computer)@.mem == r.mem
            &&& out.output@ == r.outputs
            &&& out.stop == r.stop
            &&& out.consumed == r.used
        }),
{
    let mut outputs: Vec<u32> = Vec::new();
    let mut consumed: usize = 0;
    let mut fuel: u32 = budget;
    proof {
        assert(inputs@.skip(0) =~= inputs@);
        let rr = run_spec(old(computer)@.regs, old(computer)@.mem, inputs@, budget as nat);
        assert(Seq::<u32>::empty() + rr.outputs =~= rr.outputs);
        assert(outputs@ =~= Seq::<u32>::empty());
    }
    loop
        invariant
            computer.wf(),
            computer@.limit == old(computer)@.limit,
            computer@.progs == old(computer)@.progs,
            computer@.selected == old(computer)@.selected,
            consumed <= inputs@.len(),
            fuel <= budget,
            ({
                let whole = run_spec(old(computer)@.regs, old(computer)@.mem, inputs@, budget as nat);
                let rr = run_spec(computer@.regs, computer@.mem, inputs@.skip(consumed as int), fuel as nat);
                &&& whole.regs == rr.regs
                &&& whole.mem == rr.mem
                &&& whole.outputs == outputs@ + rr.outputs
                &&& whole.stop == rr.stop
                &&& whole.used == consumed + rr.used
            }),
        decreases fuel,
    {
        let ghost remaining = inputs@.skip(consumed as int);
        let ghost regs_here = computer@.regs;
        let ghost mem_here = computer@.mem;
        if fuel == 0 {
            proof {
                assert(outputs@ + Seq::<u32>::empty() =~= outputs@);
            }
            return RunOutcome { stop: StopKind::OutOfBudget, output: outputs, consumed };
        }
        let inp: Option<u8> = if consumed < inputs.len() {
            Some(inputs[consumed])
        } else {
            None
        };
        proof {
            if consumed < inputs@.len() {
                assert(remaining[0] == inputs@[consumed as int]);
            } else {
                assert(remaining.len() == 0);
                lemma_step_no_input(regs_here, mem_here);
            }
        }
        let (ev, used) = step(computer, inp);
        proof {
            let s = step_spec(regs_here, mem_here, inp);
            if s.used {
                assert(remaining.drop_first() =~= inputs@.skip(consumed + 1));
            }
        }
        match ev {
            StepEvent::Halted => {
                proof {
                    assert(outputs@ + Seq::<u32>::empty() =~= outputs@);
                }
                return RunOutcome { stop: StopKind::Halted, output: outputs, consumed };
            },
            StepEvent::Fault(k) => {
                proof {
                    assert(outputs@ + Seq::<u32>::empty() =~= outputs@);
                }
                return RunOutcome { stop: StopKind::Faulted(k), output: outputs, consumed };
            },
            StepEvent::NeedInput => {
                proof {
                    assert(outputs@ + Seq::<u32>::empty() =~= outputs@);
                }
                return RunOutcome { stop: StopKind::AwaitingInput, output: outputs, consumed };
            },
            StepEvent::Output(v) => {
                proof {
                    let s = step_spec(regs_here, mem_here, inp);
                    let rest = run_spec(
                        s.regs,
                        s.mem,
                        if s.used {
                            remaining.drop_first()
                        } else {
                            remaining
                        },
                        (fuel - 1) as nat,
                    );
                    assert(outputs@ + (seq![v] + rest.outputs) =~= (outputs@ + seq![v])
                        + rest.outputs);
                }
                outputs.push(v);
            },
            _ => {},
        }
        if used {
            consumed = consumed + 1;
        }
        fuel = fuel - 1;
    }
}

} // verus!
