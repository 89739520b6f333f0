//! The SC0 instruction-set table: the opcode enumeration, the 5-bit code of
//! each opcode, the per-opcode argument count, the mnemonic lookup, and the
//! syscall code table.

use vstd::prelude::*;

use crate::text::{eq_lower, lower_chars, parse_prefixed, parse_u32, starts_0x, starts_hash};
use crate::helpers::program::Program;

verus! {

// Syscall codes, as they stand in the low 16 bits of a Syscall word.
pub const HALT: u16 = 0x1F;

pub const PRINT: u16 = 0x2F;

pub const DISPLAY: u16 = 0x3F;

pub const INPUT: u16 = 0x4F;

// Register names.  Registers 13..15 are reserved: stack pointer, program
// counter, processor status register.
pub const R0: usize = 0;

pub const R1: usize = 1;

pub const R2: usize = 2;

pub const R3: usize = 3;

pub const R4: usize = 4;

pub const R5: usize = 5;

pub const R6: usize = 6;

pub const R7: usize = 7;

pub const R8: usize = 8;

pub const R9: usize = 9;

pub const R10: usize = 10;

pub const R11: usize = 11;

pub const R12: usize = 12;

pub const R13_SP: usize = 13;

pub const R14_PC: usize = 14;

pub const R15_PSR: usize = 15;

/// The SC0 opcodes: 27 executable instructions, then the four assembler
/// pseudo-ops, then the error marker.  The declaration order fixes each
/// opcode's 5-bit code (see `opcode_num`), so all 32 codes name a variant.
#[allow(non_camel_case_types)]
#[derive(Debug, Copy, Clone, PartialEq, Eq, Structural)]
pub enum Instruction {
    Add,
    Sub,
    Mul,
    Div,
    Mov,
    And,
    Or,
    Xor,
    Not,
    Lshf,
    Rshf,
    Lea,
    Ldi,
    Ldb,
    Ldw,
    Ldd,
    Sti,
    Stb,
    Stw,
    Std,
    Jmp,
    Call,
    Syscall,
    Branch,
    Cmp,
    Push,
    Pop,
    ORIG,
    FILL,
    STRING,
    END,
    Error,
}

/// The 5-bit code of an opcode: its position in the declaration order.
pub open spec fn opcode_num(i: Instruction) -> u32 {
    match i {
        Instruction::Add => 0,
        Instruction::Sub => 1,
        Instruction::Mul => 2,
        Instruction::Div => 3,
        Instruction::Mov => 4,
        Instruction::And => 5,
        Instruction::Or => 6,
        Instruction::Xor => 7,
        Instruction::Not => 8,
        Instruction::Lshf => 9,
        Instruction::Rshf => 10,
        Instruction::Lea => 11,
        Instruction::Ldi => 12,
        Instruction::Ldb => 13,
        Instruction::Ldw => 14,
        Instruction::Ldd => 15,
        Instruction::Sti => 16,
        Instruction::Stb => 17,
        Instruction::Stw => 18,
        Instruction::Std => 19,
        Instruction::Jmp => 20,
        Instruction::Call => 21,
        Instruction::Syscall => 22,
        Instruction::Branch => 23,
        Instruction::Cmp => 24,
        Instruction::Push => 25,
        Instruction::Pop => 26,
        Instruction::ORIG => 27,
        Instruction::FILL => 28,
        Instruction::STRING => 29,
        Instruction::END => 30,
        Instruction::Error => 31,
    }
}

/// The opcode a 5-bit code names.  Codes at or above 32 never come out of
/// the 5-bit field; they map to the error marker.
pub open spec fn instr_of(c: u32) -> Instruction {
    match c {
        0u32 => Instruction::Add,
        1u32 => Instruction::Sub,
        2u32 => Instruction::Mul,
        3u32 => Instruction::Div,
        4u32 => Instruction::Mov,
        5u32 => Instruction::And,
        6u32 => Instruction::Or,
        7u32 => Instruction::Xor,
        8u32 => Instruction::Not,
        9u32 => Instruction::Lshf,
        10u32 => Instruction::Rshf,
        11u32 => Instruction::Lea,
        12u32 => Instruction::Ldi,
        13u32 => Instruction::Ldb,
        14u32 => Instruction::Ldw,
        15u32 => Instruction::Ldd,
        16u32 => Instruction::Sti,
        17u32 => Instruction::Stb,
        18u32 => Instruction::Stw,
        19u32 => Instruction::Std,
        20u32 => Instruction::Jmp,
        21u32 => Instruction::Call,
        22u32 => Instruction::Syscall,
        23u32 => Instruction::Branch,
        24u32 => Instruction::Cmp,
        25u32 => Instruction::Push,
        26u32 => Instruction::Pop,
        27u32 => Instruction::ORIG,
        28u32 => Instruction::FILL,
        29u32 => Instruction::STRING,
        30u32 => Instruction::END,
        _ => Instruction::Error,
    }
}

/// Decoding an opcode's own code yields the opcode back, and every code is
/// five bits wide.
pub proof fn lemma_opcode_round_trip(i: Instruction)
    ensures
        opcode_num(i) < 32,
        instr_of(opcode_num(i)) == i,
{
}

/// The executable value of `opcode_num`: what the assembler shifts into
/// bits 31:27.
pub fn instr_index(i: Instruction) -> (r: u32)
    ensures
        r == opcode_num(i),
{
    match i {
        Instruction::Add => 0,
        Instruction::Sub => 1,
        Instruction::Mul => 2,
        Instruction::Div => 3,
        Instruction::Mov => 4,
        Instruction::And => 5,
        Instruction::Or => 6,
        Instruction::Xor => 7,
        Instruction::Not => 8,
        Instruction::Lshf => 9,
        Instruction::Rshf => 10,
        Instruction::Lea => 11,
        Instruction::Ldi => 12,
        Instruction::Ldb => 13,
        Instruction::Ldw => 14,
        Instruction::Ldd => 15,
        Instruction::Sti => 16,
        Instruction::Stb => 17,
        Instruction::Stw => 18,
        Instruction::Std => 19,
        Instruction::Jmp => 20,
        Instruction::Call => 21,
        Instruction::Syscall => 22,
        Instruction::Branch => 23,
        Instruction::Cmp => 24,
        Instruction::Push => 25,
        Instruction::Pop => 26,
        Instruction::ORIG => 27,
        Instruction::FILL => 28,
        Instruction::STRING => 29,
        Instruction::END => 30,
        Instruction::Error => 31,
    }
}

/// The executable value of `instr_of`: the explicit, exhaustive mapping the
/// executor uses in place of a raw numeric reinterpretation.
pub fn instr_from_code(c: u32) -> (r: Instruction)
    ensures
        r == instr_of(c),
{
    match c {
        0u32 => Instruction::Add,
        1u32 => Instruction::Sub,
        2u32 => Instruction::Mul,
        3u32 => Instruction::Div,
        4u32 => Instruction::Mov,
        5u32 => Instruction::And,
        6u32 => Instruction::Or,
        7u32 => Instruction::Xor,
        8u32 => Instruction::Not,
        9u32 => Instruction::Lshf,
        10u32 => Instruction::Rshf,
        11u32 => Instruction::Lea,
        12u32 => Instruction::Ldi,
        13u32 => Instruction::Ldb,
        14u32 => Instruction::Ldw,
        15u32 => Instruction::Ldd,
        16u32 => Instruction::Sti,
        17u32 => Instruction::Stb,
        18u32 => Instruction::Stw,
        19u32 => Instruction::Std,
        20u32 => Instruction::Jmp,
        21u32 => Instruction::Call,
        22u32 => Instruction::Syscall,
        23u32 => Instruction::Branch,
        24u32 => Instruction::Cmp,
        25u32 => Instruction::Push,
        26u32 => Instruction::Pop,
        27u32 => Instruction::ORIG,
        28u32 => Instruction::FILL,
        29u32 => Instruction::STRING,
        30u32 => Instruction::END,
        _ => Instruction::Error,
    }
}

/// The ten operations the arithmetic/logic unit performs.
pub open spec fn is_math_op(i: Instruction) -> bool {
    match i {
        Instruction::Add | Instruction::Sub | Instruction::Mul | Instruction::Div
            | Instruction::And | Instruction::Or | Instruction::Xor | Instruction::Not
            | Instruction::Lshf | Instruction::Rshf => true,
        _ => false,
    }
}

/// Pseudo-ops and the error marker never stand in executable memory; the
/// executor treats a word carrying one of their codes as a fatal fault.
pub open spec fn is_executable(i: Instruction) -> bool {
    match i {
        Instruction::ORIG | Instruction::FILL | Instruction::STRING | Instruction::END
            | Instruction::Error => false,
        _ => true,
    }
}

/// How many arguments each opcode takes in source text.
pub open spec fn arg_count_spec(i: Instruction) -> nat {
    match i {
        Instruction::Add | Instruction::Sub | Instruction::Mul | Instruction::Div
            | Instruction::And | Instruction::Or | Instruction::Xor | Instruction::Lshf
            | Instruction::Rshf | Instruction::Ldb | Instruction::Ldw | Instruction::Ldd
            | Instruction::Stb | Instruction::Stw | Instruction::Std => 3,
        Instruction::Mov | Instruction::Not | Instruction::Lea | Instruction::Ldi
            | Instruction::Sti | Instruction::Branch | Instruction::Cmp => 2,
        Instruction::Jmp | Instruction::Call | Instruction::Syscall | Instruction::Push
            | Instruction::Pop | Instruction::ORIG | Instruction::FILL | Instruction::STRING => 1,
        Instruction::END | Instruction::Error => 0,
    }
}

/// Executable argument-count table.
pub fn arg_count(i: Instruction) -> (n: usize)
    ensures
        n == arg_count_spec(i),
{
    match i {
        Instruction::Add | Instruction::Sub | Instruction::Mul | Instruction::Div
            | Instruction::And | Instruction::Or | Instruction::Xor | Instruction::Lshf
            | Instruction::Rshf | Instruction::Ldb | Instruction::Ldw | Instruction::Ldd
            | Instruction::Stb | Instruction::Stw | Instruction::Std => 3,
        Instruction::Mov | Instruction::Not | Instruction::Lea | Instruction::Ldi
            | Instruction::Sti | Instruction::Branch | Instruction::Cmp => 2,
        Instruction::Jmp | Instruction::Call | Instruction::Syscall | Instruction::Push
            | Instruction::Pop | Instruction::ORIG | Instruction::FILL | Instruction::STRING => 1,
        Instruction::END | Instruction::Error => 0,
    }
}

/// One parsed source statement: an opcode and its raw argument strings.
pub struct ExecStatement {
    pub opc: Instruction,
    pub args: Vec<String>,
}

/// The mathematical value of a statement.
pub ghost struct StmtV {
    pub opc: Instruction,
    pub args: Seq<Seq<char>>,
}

impl View for ExecStatement {
    type V = StmtV;

    open spec fn view(&self) -> StmtV {
        StmtV { opc: self.opc, args: self.args.deep_view() }
    }
}

impl DeepView for ExecStatement {
    type V = StmtV;

    open spec fn deep_view(&self) -> StmtV {
        self.view()
    }
}

/// The opcode a (lower-case) mnemonic names; anything unrecognized maps to
/// the error marker.  The eight conditional-branch spellings all name
/// Branch; the condition letters are read off separately by the loader.
pub open spec fn mnemonic_instr(s: Seq<char>) -> Instruction {
    if s == "add"@ {
        Instruction::Add
    } else if s == "sub"@ {
        Instruction::Sub
    } else if s == "mul"@ {
        Instruction::Mul
    } else if s == "div"@ {
        Instruction::Div
    } else if s == "mov"@ {
        Instruction::Mov
    } else if s == "and"@ {
        Instruction::And
    } else if s == "or"@ {
        Instruction::Or
    } else if s == "not"@ {
        Instruction::Not
    } else if s == "xor"@ {
        Instruction::Xor
    } else if s == "lshf"@ {
        Instruction::Lshf
    } else if s == "rshf"@ {
        Instruction::Rshf
    } else if s == "lea"@ {
        Instruction::Lea
    } else if s == "ldi"@ {
        Instruction::Ldi
    } else if s == "ldb"@ {
        Instruction::Ldb
    } else if s == "ldw"@ {
        Instruction::Ldw
    } else if s == "ldd"@ {
        Instruction::Ldd
    } else if s == "sti"@ {
        Instruction::Sti
    } else if s == "stb"@ {
        Instruction::Stb
    } else if s == "stw"@ {
        Instruction::Stw
    } else if s == "std"@ {
        Instruction::Std
    } else if s == "jmp"@ {
        Instruction::Jmp
    } else if s == "call"@ {
        Instruction::Call
    } else if s == "syscall"@ {
        Instruction::Syscall
    } else if s == "br"@ || s == "brnzp"@ || s == "brnz"@ || s == "brnp"@ || s == "brn"@ || s
        == "brz"@ || s == "brp"@ || s == "brzp"@ {
        Instruction::Branch
    } else if s == "cmp"@ {
        Instruction::Cmp
    } else if s == "push"@ {
        Instruction::Push
    } else if s == "pop"@ {
        Instruction::Pop
    } else if s == ".orig"@ {
        Instruction::ORIG
    } else if s == ".end"@ {
        Instruction::END
    } else if s == ".string"@ {
        Instruction::STRING
    } else if s == ".fill"@ {
        Instruction::FILL
    } else {
        Instruction::Error
    }
}

/// Look an opcode up by its mnemonic, case-insensitively.
pub fn get_instr(op: &str) -> (r: Instruction)
    ensures
        r == mnemonic_instr(lower_chars(op@)),
{
    if eq_lower(op, "add") {
        Instruction::Add
    } else if eq_lower(op, "sub") {
        Instruction::Sub
    } else if eq_lower(op, "mul") {
        Instruction::Mul
    } else if eq_lower(op, "div") {
        Instruction::Div
    } else if eq_lower(op, "mov") {
        Instruction::Mov
    } else if eq_lower(op, "and") {
        Instruction::And
    } else if eq_lower(op, "or") {
        Instruction::Or
    } else if eq_lower(op, "not") {
        Instruction::Not
    } else if eq_lower(op, "xor") {
        Instruction::Xor
    } else if eq_lower(op, "lshf") {
        Instruction::Lshf
    } else if eq_lower(op, "rshf") {
        Instruction::Rshf
    } else if eq_lower(op, "lea") {
        Instruction::Lea
    } else if eq_lower(op, "ldi") {
        Instruction::Ldi
    } else if eq_lower(op, "ldb") {
        Instruction::Ldb
    } else if eq_lower(op, "ldw") {
        Instruction::Ldw
    } else if eq_lower(op, "ldd") {
        Instruction::Ldd
    } else if eq_lower(op, "sti") {
        Instruction::Sti
    } else if eq_lower(op, "stb") {
        Instruction::Stb
    } else if eq_lower(op, "stw") {
        Instruction::Stw
    } else if eq_lower(op, "std") {
        Instruction::Std
    } else if eq_lower(op, "jmp") {
        Instruction::Jmp
    } else if eq_lower(op, "call") {
        Instruction::Call
    } else if eq_lower(op, "syscall") {
        Instruction::Syscall
    } else if eq_lower(op, "br") || eq_lower(op, "brnzp") || eq_lower(op, "brnz") || eq_lower(
        op,
        "brnp",
    ) || eq_lower(op, "brn") || eq_lower(op, "brz") || eq_lower(op, "brp") || eq_lower(
        op,
        "brzp",
    ) {
        Instruction::Branch
    } else if eq_lower(op, "cmp") {
        Instruction::Cmp
    } else if eq_lower(op, "push") {
        Instruction::Push
    } else if eq_lower(op, "pop") {
        Instruction::Pop
    } else if eq_lower(op, ".orig") {
        Instruction::ORIG
    } else if eq_lower(op, ".end") {
        Instruction::END
    } else if eq_lower(op, ".string") {
        Instruction::STRING
    } else if eq_lower(op, ".fill") {
        Instruction::FILL
    } else {
        Instruction::Error
    }
}

/// The fixed 16-bit code of a syscall name, or None for any other name.
pub open spec fn syscall_code_spec(s: Seq<char>) -> Option<u16> {
    if s == "halt"@ {
        Some(HALT)
    } else if s == "print"@ {
        Some(PRINT)
    } else if s == "display"@ {
        Some(DISPLAY)
    } else if s == "input"@ {
        Some(INPUT)
    } else {
        None
    }
}

/// Look a syscall's code up by its (exact, lower-case) name.
pub fn syscall_code(s: &str) -> (r: Option<u16>)
    ensures
        r == syscall_code_spec(s@),
{
    if crate::text::str_eq(s, "halt") {
        Some(HALT)
    } else if crate::text::str_eq(s, "print") {
        Some(PRINT)
    } else if crate::text::str_eq(s, "display") {
        Some(DISPLAY)
    } else if crate::text::str_eq(s, "input") {
        Some(INPUT)
    } else {
        None
    }
}

/// What one pass of the argument check yields: whether every statement so
/// far was acceptable, and the program origin gathered from ORIG statements.
pub ghost struct ArgCheck {
    pub ok: bool,
    pub start_pc: u32,
}

/// The argument check from statement `i` on, starting with origin `pc`.
/// A statement fails the check when its opcode is the error marker, when an
/// ORIG operand with a radix prefix does not parse, or when the argument
/// count does not match the opcode's arity.
pub open spec fn check_args_from(stmts: Seq<StmtV>, i: int, pc: u32) -> ArgCheck
    decreases stmts.len() - i,
{
    if i < 0 || i >= stmts.len() {
        ArgCheck { ok: true, start_pc: pc }
    } else {
        let s = stmts[i];
        if s.opc == Instruction::Error {
            ArgCheck { ok: false, start_pc: pc }
        } else if s.opc == Instruction::ORIG && s.args.len() == 0 {
            ArgCheck { ok: false, start_pc: pc }
        } else {
            let parsed = if s.opc == Instruction::ORIG && starts_0x(s.args[0]) {
                parse_u32(s.args[0].skip(2), 16)
            } else if s.opc == Instruction::ORIG && starts_hash(s.args[0]) {
                parse_u32(s.args[0].skip(1), 10)
            } else {
                Some(pc)
            };
            match parsed {
                None => ArgCheck { ok: false, start_pc: pc },
                Some(pc1) => {
                    if arg_count_spec(s.opc) != s.args.len() {
                        ArgCheck { ok: false, start_pc: pc1 }
                    } else {
                        check_args_from(stmts, i + 1, pc1)
                    }
                },
            }
        }
    }
}

/// Validate every statement's argument count, resolving ORIG operands into
/// the program's starting address on the way, exactly as `check_args_from`
/// states it.
pub fn check_args(p: &mut Program) -> (ok: bool)
    ensures
        ({
            let r = check_args_from(old(p)@.stmts, 0, old(p).start_pc);
            &&& ok == r.ok
            &&& final(p).start_pc == r.start_pc
            &&& final(p).name == old(p).name
            &&& final(p).instructions == old(p).instructions
            &&& final(p).sym_table == old(p).sym_table
            &&& final(p).scratchwork == old(p).scratchwork
        }),
{
    let ghost stmts = p@.stmts;
    let n = p.instructions.len();
    let mut i: usize = 0;
    while i < n
        invariant
            i <= n,
            n == p.instructions.len(),
            p.instructions == old(p).instructions,
            p.name == old(p).name,
            p.sym_table == old(p).sym_table,
            p.scratchwork == old(p).scratchwork,
            stmts == p@.stmts,
            check_args_from(stmts, 0, old(p).start_pc) == check_args_from(
                stmts,
                i as int,
                p.start_pc,
            ),
        decreases n - i,
    {
        let ghost pc_before = p.start_pc;
        let opc = p.instructions[i].opc;
        proof {
            assert(stmts[i as int] == p.instructions[i as int]@);
        }
        if opc == Instruction::Error {
            return false;
        }
        if opc == Instruction::ORIG {
            let nargs = p.instructions[i].args.len();
            proof {
                assert(stmts[i as int].args.len() == nargs);
            }
            if nargs == 0 {
                return false;
            }
            let pr = {
                let s0 = &p.instructions[i];
                let a0: &String = &s0.args[0];
                proof {
                    assert(stmts[i as int].args[0] == a0@);
                }
                parse_prefixed(a0.as_str())
            };
            if pr.0 {
                match pr.1 {
                    None => {
                        return false;
                    },
                    Some(v) => {
                        p.start_pc = v;
                    },
                }
            }
        }
        let want = arg_count(opc);
        if want != p.instructions[i].args.len() {
            return false;
        }
        i += 1;
    }
    true
}

} // verus!
