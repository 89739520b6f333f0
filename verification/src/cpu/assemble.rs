//! The SC0 assembler: classify each operand token, then encode each
//! statement into one 32-bit instruction word (or, for string literals,
//! several) under the bit layout of `crate::bits`.
//!
//! Operands are classified by syntax alone, in a fixed order: a token that
//! names a declared label is a label reference whatever else it looks like;
//! then a token opening with `r` must spell a register; then `0x` and `#`
//! introduce constants; anything else is bad and aborts the whole assembly.

use vstd::prelude::*;

use crate::bits::{build_word, dest_field, wrap32};
use crate::cpu::isa::{
    arg_count_spec, check_args_from, instr_index, opcode_num, syscall_code_spec, ExecStatement,
    Instruction, StmtV,
};
use crate::helpers::program::{Program, SymV, sym_lookup};
use crate::text::{parse_prefixed, parse_u32, starts_0x, starts_hash, str_eq};
use vstd::utf8::encode_utf8;

verus! {

/// What an operand token resolves to: a register index, a 16-bit constant,
/// a label's displacement from the referencing instruction, or nothing.
#[derive(Debug, Copy, Clone, PartialEq, Eq, Structural)]
pub enum Operand {
    Reg(u32),
    Constant(u32),
    Label(u32),
    Bad,
}

/// The sixteen canonical register spellings.  The loader hands tokens over
/// lower-cased, and a register token must open with `r`, so the `sp`, `pc`
/// and `psr` synonyms of the reserved registers never reach this table.
pub open spec fn reg_index_of(s: Seq<char>) -> Option<u32> {
    if s == "r0"@ {
        Some(0u32)
    } else if s == "r1"@ {
        Some(1u32)
    } else if s == "r2"@ {
        Some(2u32)
    } else if s == "r3"@ {
        Some(3u32)
    } else if s == "r4"@ {
        Some(4u32)
    } else if s == "r5"@ {
        Some(5u32)
    } else if s == "r6"@ {
        Some(6u32)
    } else if s == "r7"@ {
        Some(7u32)
    } else if s == "r8"@ {
        Some(8u32)
    } else if s == "r9"@ {
        Some(9u32)
    } else if s == "r10"@ {
        Some(10u32)
    } else if s == "r11"@ {
        Some(11u32)
    } else if s == "r12"@ {
        Some(12u32)
    } else if s == "r13"@ {
        Some(13u32)
    } else if s == "r14"@ {
        Some(14u32)
    } else if s == "r15"@ {
        Some(15u32)
    } else {
        None
    }
}

/// How one operand token resolves against the symbol table, with `pc` the
/// address of the word being encoded.  A constant may not exceed 65535.
pub open spec fn classify_spec(syms: Seq<SymV>, arg: Seq<char>, pc: u32) -> Operand {
    match sym_lookup(syms, arg) {
        Some(a) => Operand::Label(wrap32(a - pc)),
        None => {
            if arg.len() > 0 && arg[0] == 'r' {
                match reg_index_of(arg) {
                    Some(i) => Operand::Reg(i),
                    None => Operand::Bad,
                }
            } else if starts_0x(arg) {
                match parse_u32(arg.skip(2), 16) {
                    Some(v) => if v > 65535 {
                        Operand::Bad
                    } else {
                        Operand::Constant(v)
                    },
                    None => Operand::Bad,
                }
            } else if starts_hash(arg) {
                match parse_u32(arg.skip(1), 10) {
                    Some(v) => if v > 65535 {
                        Operand::Bad
                    } else {
                        Operand::Constant(v)
                    },
                    None => Operand::Bad,
                }
            } else {
                Operand::Bad
            }
        },
    }
}

/// A register operand's index is always a 4-bit value.
pub proof fn lemma_classify_reg_bound(syms: Seq<SymV>, arg: Seq<char>, pc: u32)
    ensures
        classify_spec(syms, arg, pc) matches Operand::Reg(i) ==> i < 16,
        classify_spec(syms, arg, pc) matches Operand::Constant(c) ==> c <= 65535,
{
}

/// Resolve one operand token, exactly as `classify_spec` states it.
pub fn try_reg_or_imm_or_label(p: &Program, arg: &String, pc: u32) -> (r: Operand)
    ensures
        r == classify_spec(p@.syms, arg@, pc),
{
    if p.labelExists(arg.clone()) {
        let off = p.labelOffset(arg.clone(), pc);
        proof {
            crate::bits::lemma_wrap_signed_id(
                wrap32(sym_lookup(p@.syms, arg@)->0 - pc),
            );
        }
        return Operand::Label(crate::bits::from_signed(off));
    }
    let n = arg.as_str().unicode_len();
    if n >= 1 && arg.as_str().get_char(0) == 'r' {
        let s = arg.as_str();
        if str_eq(s, "r0") {
            Operand::Reg(0)
        } else if str_eq(s, "r1") {
            Operand::Reg(1)
        } else if str_eq(s, "r2") {
            Operand::Reg(2)
        } else if str_eq(s, "r3") {
            Operand::Reg(3)
        } else if str_eq(s, "r4") {
            Operand::Reg(4)
        } else if str_eq(s, "r5") {
            Operand::Reg(5)
        } else if str_eq(s, "r6") {
            Operand::Reg(6)
        } else if str_eq(s, "r7") {
            Operand::Reg(7)
        } else if str_eq(s, "r8") {
            Operand::Reg(8)
        } else if str_eq(s, "r9") {
            Operand::Reg(9)
        } else if str_eq(s, "r10") {
            Operand::Reg(10)
        } else if str_eq(s, "r11") {
            Operand::Reg(11)
        } else if str_eq(s, "r12") {
            Operand::Reg(12)
        } else if str_eq(s, "r13") {
            Operand::Reg(13)
        } else if str_eq(s, "r14") {
            Operand::Reg(14)
        } else if str_eq(s, "r15") {
            Operand::Reg(15)
        } else {
            Operand::Bad
        }
    } else {
        let pr = parse_prefixed(arg.as_str());
        if pr.0 {
            match pr.1 {
                Some(v) => {
                    if v > 65535 {
                        Operand::Bad
                    } else {
                        Operand::Constant(v)
                    }
                },
                None => Operand::Bad,
            }
        } else {
            Operand::Bad
        }
    }
}

/// Does the sequence hold the character anywhere?
pub open spec fn seq_contains(s: Seq<char>, c: char) -> bool {
    exists|i: int| 0 <= i < s.len() && s[i] == c
}

/// Scan a token for one character (the branch condition letters).
pub fn str_contains_char(s: &str, c: char) -> (r: bool)
    ensures
        r == seq_contains(s@, c),
{
    let n = s.unicode_len();
    let mut i: usize = 0;
    while i < n
        invariant
            i <= n,
            n == s@.len(),
            forall|j: int| 0 <= j < i ==> s@[j] != c,
        decreases n - i,
    {
        if s.get_char(i) == c {
            return true;
        }
        i += 1;
    }
    false
}

/// Four bytes packed into a word, most significant byte first.
pub open spec fn word4(b: Seq<u8>, i: int) -> u32 {
    ((b[i] as u32) << 24) | ((b[i + 1] as u32) << 16) | ((b[i + 2] as u32) << 8) | (b[i + 3] as u32)
}

/// The final word of a packed string: up to three leftover bytes, high
/// bytes first, zero-padded at the low end.  A string whose length is a
/// multiple of four still emits this word, then holding zero.
pub open spec fn partial_word(b: Seq<u8>) -> u32 {
    if b.len() == 1 {
        (b[0] as u32) << 24
    } else if b.len() == 2 {
        ((b[0] as u32) << 24) | ((b[1] as u32) << 16)
    } else if b.len() == 3 {
        ((b[0] as u32) << 24) | ((b[1] as u32) << 16) | ((b[2] as u32) << 8)
    } else {
        0
    }
}

/// The words a string literal packs into, from byte position `i` on.
pub open spec fn pack_from(b: Seq<u8>, i: int) -> Seq<u32>
    decreases b.len() - i,
{
    if 0 <= i && i + 4 <= b.len() {
        seq![word4(b, i)] + pack_from(b, i + 4)
    } else {
        seq![partial_word(b.skip(i))]
    }
}

/// The words a string literal packs into: four bytes per word, most
/// significant byte first, and a final (possibly zero) word for the
/// leftover bytes.
pub open spec fn pack_string(b: Seq<u8>) -> Seq<u32> {
    pack_from(b, 0)
}

/// Pack a string literal's bytes onto the output, exactly as `pack_string`
/// states it.
pub fn pack_string_exec(arg: &str, out: &mut Vec<u32>)
    ensures
        final(out)@ == old(out)@ + pack_string(encode_utf8(arg@)),
{
    let b = arg.as_bytes_vec();
    let ghost bs = b@;
    let m = b.len();
    let ghost out0 = out@;
    proof {
        assert(pack_prefix(bs, 0) =~= Seq::<u32>::empty());
        assert(out0 + pack_prefix(bs, 0) =~= out0);
        assert(pack_prefix(bs, 0) + pack_from(bs, 0) =~= pack_from(bs, 0));
    }
    let mut i: usize = 0;
    while m >= 4 && i <= m - 4
        invariant
            i <= m,
            i % 4 == 0,
            m == bs.len(),
            b@ == bs,
            out@ == out0 + pack_prefix(bs, i as int),
            pack_from(bs, 0) == pack_prefix(bs, i as int) + pack_from(bs, i as int),
        decreases m - i,
    {
        let w: u32 = ((b[i] as u32) << 24) | ((b[i + 1] as u32) << 16) | ((b[i + 2] as u32) << 8)
            | (b[i + 3] as u32);
        proof {
            assert(w == word4(bs, i as int));
            assert(pack_prefix(bs, i + 4) =~= pack_prefix(bs, i as int) + seq![word4(
                bs,
                i as int,
            )]);
            assert(out@ + seq![w] =~= out0 + pack_prefix(bs, i + 4));
            assert(pack_from(bs, 0) =~= pack_prefix(bs, i + 4) + pack_from(bs, i + 4));
        }
        out.push(w);
        i += 4;
    }
    let rem = m - i;
    let w: u32 = if rem == 1 {
        (b[i] as u32) << 24
    } else if rem == 2 {
        ((b[i] as u32) << 24) | ((b[i + 1] as u32) << 16)
    } else if rem == 3 {
        ((b[i] as u32) << 24) | ((b[i + 1] as u32) << 16) | ((b[i + 2] as u32) << 8)
    } else {
        0
    };
    proof {
        let t = bs.skip(i as int);
        assert(t.len() == rem);
        if rem == 1 {
            assert(t[0] == bs[i as int]);
        } else if rem == 2 {
            assert(t[0] == bs[i as int] && t[1] == bs[i + 1]);
        } else if rem == 3 {
            assert(t[0] == bs[i as int] && t[1] == bs[i + 1] && t[2] == bs[i + 2]);
        }
        assert(w == partial_word(t));
        assert(pack_from(bs, i as int) == seq![partial_word(t)]);
        assert(out@ + seq![w] =~= out0 + pack_string(bs));
    }
    out.push(w);
}

/// The words already packed before byte position `i` (a multiple of four).
pub open spec fn pack_prefix(b: Seq<u8>, i: int) -> Seq<u32>
    decreases i,
{
    if i < 4 {
        seq![]
    } else {
        pack_prefix(b, i - 4) + seq![word4(b, i - 4)]
    }
}

/// The common three-operand form (the binary math operations and the
/// indexed loads and stores): destination and first source must be
/// registers; the second source is a register in bits 3:0, or a constant in
/// the low 16 bits with the bit-24 immediate flag set.
pub open spec fn enc_three(op: Instruction, syms: Seq<SymV>, args: Seq<Seq<char>>, pc: u32) -> Option<
    u32,
> {
    let dest = classify_spec(syms, args[0], pc);
    let src1 = classify_spec(syms, args[1], pc);
    let src2 = classify_spec(syms, args[2], pc);
    match (dest, src1) {
        (Operand::Reg(d), Operand::Reg(s1)) => match src2 {
            Operand::Reg(r2) => Some(build_word(opcode_num(op), 0, 0, d, s1, r2)),
            Operand::Constant(c) => Some(build_word(opcode_num(op), 1, 0, d, s1, c)),
            _ => None,
        },
        _ => None,
    }
}

/// The words one statement encodes to, with `pc` the running address
/// counter at the statement, or None when an operand fails its opcode's
/// rules.  Every statement emits exactly one word except the string
/// pseudo-op.  Every register destination sits at bits 23:20 and every
/// first source at bits 19:16, where the executor reads them back.
#[verifier::opaque]
pub open spec fn encode_stmt(syms: Seq<SymV>, stmt: StmtV, pc: u32) -> Option<Seq<u32>> {
    let args = stmt.args;
    match stmt.opc {
        Instruction::Add | Instruction::Sub | Instruction::Mul | Instruction::Div
            | Instruction::And | Instruction::Or | Instruction::Xor | Instruction::Lshf
            | Instruction::Rshf | Instruction::Ldb | Instruction::Ldw | Instruction::Ldd
            | Instruction::Stb | Instruction::Stw | Instruction::Std => {
            match enc_three(stmt.opc, syms, args, pc) {
                Some(w) => Some(seq![w]),
                None => None,
            }
        },
        Instruction::Mov => {
            let dest = classify_spec(syms, args[0], pc);
            let src = classify_spec(syms, args[1], pc);
            match (dest, src) {
                (Operand::Reg(d), Operand::Reg(r)) => Some(seq![build_word(4, 0, 0, d, r, 0)]),
                (Operand::Reg(d), Operand::Constant(c)) => Some(
                    seq![build_word(4, 1, 0, d, 0, c)],
                ),
                _ => None,
            }
        },
        Instruction::Not => {
            let dest = classify_spec(syms, args[0], pc);
            let src = classify_spec(syms, args[1], pc);
            match (dest, src) {
                (Operand::Reg(d), Operand::Reg(s)) => Some(seq![build_word(8, 0, 0, d, s, 0)]),
                _ => None,
            }
        },
        Instruction::Lea => {
            let dest = classify_spec(syms, args[0], pc);
            let src = classify_spec(syms, args[1], pc);
            match (dest, src) {
                (Operand::Reg(d), Operand::Label(disp)) => Some(
                    seq![build_word(11, 0, 0, d, 0, disp & 0xFFFF)],
                ),
                _ => None,
            }
        },
        Instruction::Ldi => {
            let dest = classify_spec(syms, args[0], pc);
            let src = classify_spec(syms, args[1], pc);
            match (dest, src) {
                (Operand::Reg(d), Operand::Reg(s)) => Some(seq![build_word(12, 0, 0, d, 0, s)]),
                _ => None,
            }
        },
        Instruction::Sti => {
            let dest = classify_spec(syms, args[0], pc);
            let src = classify_spec(syms, args[1], pc);
            match (dest, src) {
                (Operand::Reg(d), Operand::Reg(s)) => Some(seq![build_word(16, 0, 0, d, s, 0)]),
                _ => None,
            }
        },
        Instruction::Jmp | Instruction::Call => {
            match classify_spec(syms, args[0], pc) {
                Operand::Reg(r) => Some(seq![build_word(opcode_num(stmt.opc), 0, 0, 0, 0xF, r)]),
                Operand::Label(disp) => Some(
                    seq![build_word(opcode_num(stmt.opc), 0, 0, 0, 0, disp & 0xFFFF)],
                ),
                _ => None,
            }
        },
        Instruction::Syscall => {
            match syscall_code_spec(args[0]) {
                Some(code) => Some(seq![build_word(22, 0, 0, 0, 0, code as u32)]),
                None => None,
            }
        },
        Instruction::Branch => {
            match classify_spec(syms, args[1], pc) {
                Operand::Label(disp) => {
                    let cc = args[0];
                    let bn: u32 = if seq_contains(cc, 'n') {
                        4
                    } else {
                        0
                    };
                    let bz: u32 = if seq_contains(cc, 'z') {
                        2
                    } else {
                        0
                    };
                    let bp: u32 = if seq_contains(cc, 'p') {
                        1
                    } else {
                        0
                    };
                    Some(seq![build_word(23, 0, 0, 0, (bn + bz + bp) as u32, disp & 0xFFFF)])
                },
                _ => None,
            }
        },
        Instruction::Cmp => {
            let src1 = classify_spec(syms, args[0], pc);
            let src2 = classify_spec(syms, args[1], pc);
            match (src1, src2) {
                (Operand::Reg(a), Operand::Reg(b)) => Some(seq![build_word(24, 0, 0, 0, a, b)]),
                (Operand::Reg(a), Operand::Constant(c)) => Some(
                    seq![build_word(24, 0, 1, 0, a, c)],
                ),
                _ => None,
            }
        },
        Instruction::Push => {
            match classify_spec(syms, args[0], pc) {
                Operand::Reg(r) => Some(seq![build_word(25, 0, 0, 0, r, 0)]),
                Operand::Constant(c) => Some(seq![build_word(25, 0, 1, 0, 0, c)]),
                _ => None,
            }
        },
        Instruction::Pop => {
            match classify_spec(syms, args[0], pc) {
                Operand::Reg(r) => Some(seq![build_word(26, 0, 0, 0, 0, r)]),
                _ => None,
            }
        },
        Instruction::ORIG => {
            match classify_spec(syms, args[0], pc) {
                Operand::Constant(v) => Some(seq![v]),
                _ => None,
            }
        },
        Instruction::FILL => {
            if starts_0x(args[0]) {
                match parse_u32(args[0].skip(2), 16) {
                    Some(v) => Some(seq![v]),
                    None => None,
                }
            } else if starts_hash(args[0]) {
                match parse_u32(args[0].skip(1), 10) {
                    Some(v) => Some(seq![v]),
                    None => None,
                }
            } else {
                Some(seq![0u32])
            }
        },
        Instruction::STRING => Some(pack_string(encode_utf8(args[0]))),
        Instruction::END | Instruction::Error => None,
    }
}

/// Assembly of the statements from index `i` on, with `pc` the running
/// address counter.  An end pseudo-op stops the remaining statements; a
/// statement that fails to encode aborts the whole assembly.
pub open spec fn assemble_from(syms: Seq<SymV>, stmts: Seq<StmtV>, i: int, pc: u32) -> Option<
    Seq<u32>,
>
    decreases stmts.len() - i,
{
    if i < 0 || i >= stmts.len() {
        Some(seq![])
    } else if stmts[i].opc == Instruction::END {
        Some(seq![])
    } else {
        match encode_stmt(syms, stmts[i], pc) {
            None => None,
            Some(ws) => match assemble_from(syms, stmts, i + 1, wrap32(pc + ws.len())) {
                None => None,
                Some(rest) => Some(ws + rest),
            },
        }
    }
}

/// One statement passed the argument check: no error opcode and the arity
/// the opcode's table row asks for.
pub open spec fn wf_at(stmts: Seq<StmtV>, j: int) -> bool {
    &&& stmts[j].opc != Instruction::Error
    &&& stmts[j].args.len() == arg_count_spec(stmts[j].opc)
}

/// Every statement passed the argument check.
pub open spec fn stmts_wf(stmts: Seq<StmtV>) -> bool {
    forall|j: int| 0 <= j < stmts.len() ==> #[trigger] wf_at(stmts, j)
}

/// A program that comes through the argument check well has only
/// well-formed statements: what `assemble` requires of its input.
pub proof fn lemma_check_gives_wf(stmts: Seq<StmtV>, i: int, pc: u32)
    requires
        0 <= i,
        check_args_from(stmts, i, pc).ok,
    ensures
        forall|j: int| i <= j < stmts.len() ==> #[trigger] wf_at(stmts, j),
    decreases stmts.len() - i,
{
    if i < stmts.len() {
        let s = stmts[i];
        let parsed = if s.opc == Instruction::ORIG && starts_0x(s.args[0]) {
            parse_u32(s.args[0].skip(2), 16)
        } else if s.opc == Instruction::ORIG && starts_hash(s.args[0]) {
            parse_u32(s.args[0].skip(1), 10)
        } else {
            Some(pc)
        };
        assert(parsed is Some);
        lemma_check_gives_wf(stmts, i + 1, parsed->0);
    }
}

/// Build one instruction word out of its fields, exactly as `build_word`
/// states it.
fn build_word_x(op: u32, f24: u32, f20: u32, d: u32, s1: u32, low16: u32) -> (w: u32)
    ensures
        w == build_word(op, f24, f20, d, s1, low16),
{
    (op << 27) | (f24 << 24) | (f20 << 20) | (d << 20) | (s1 << 16) | low16
}

/// Encode one statement (never the end pseudo-op, which the caller
/// intercepts) onto the output, exactly as `encode_stmt` states it.  On
/// failure nothing is pushed.
fn encode_one(p: &Program, stmt: &ExecStatement, pc: u32, out: &mut Vec<u32>) -> (ok: bool)
    requires
        stmt@.opc != Instruction::Error,
        stmt@.opc != Instruction::END,
        stmt@.args.len() == arg_count_spec(stmt@.opc),
    ensures
        ({
            let r = encode_stmt(p@.syms, stmt@, pc);
            &&& ok == (r is Some)
            &&& (ok ==> final(out)@ == old(out)@ + r->0)
            &&& (!ok ==> final(out)@ == old(out)@)
        }),
{
    proof {
        reveal(encode_stmt);
        assert forall|j: int| 0 <= j < stmt.args@.len() implies stmt@.args[j]
            == stmt.args@[j]@ by {}
    }
    match stmt.opc {
        Instruction::Add | Instruction::Sub | Instruction::Mul | Instruction::Div
            | Instruction::And | Instruction::Or | Instruction::Xor | Instruction::Lshf
            | Instruction::Rshf | Instruction::Ldb | Instruction::Ldw | Instruction::Ldd
            | Instruction::Stb | Instruction::Stw | Instruction::Std => {
            let dest = try_reg_or_imm_or_label(p, &stmt.args[0], pc);
            let src1 = try_reg_or_imm_or_label(p, &stmt.args[1], pc);
            let src2 = try_reg_or_imm_or_label(p, &stmt.args[2], pc);
            match (dest, src1) {
                (Operand::Reg(d), Operand::Reg(s1)) => {
                    match src2 {
                        Operand::Reg(r2) => {
                            out.push(build_word_x(instr_index(stmt.opc), 0, 0, d, s1, r2));
                            true
                        },
                        Operand::Constant(c) => {
                            out.push(build_word_x(instr_index(stmt.opc), 1, 0, d, s1, c));
                            true
                        },
                        _ => false,
                    }
                },
                _ => false,
            }
        },
        Instruction::Mov => {
            let dest = try_reg_or_imm_or_label(p, &stmt.args[0], pc);
            let src = try_reg_or_imm_or_label(p, &stmt.args[1], pc);
            match (dest, src) {
                (Operand::Reg(d), Operand::Reg(r)) => {
                    out.push(build_word_x(4, 0, 0, d, r, 0));
                    true
                },
                (Operand::Reg(d), Operand::Constant(c)) => {
                    out.push(build_word_x(4, 1, 0, d, 0, c));
                    true
                },
                _ => false,
            }
        },
        Instruction::Not => {
            let dest = try_reg_or_imm_or_label(p, &stmt.args[0], pc);
            let src = try_reg_or_imm_or_label(p, &stmt.args[1], pc);
            match (dest, src) {
                (Operand::Reg(d), Operand::Reg(s)) => {
                    out.push(build_word_x(8, 0, 0, d, s, 0));
                    true
                },
                _ => false,
            }
        },
        Instruction::Lea => {
            let dest = try_reg_or_imm_or_label(p, &stmt.args[0], pc);
            let src = try_reg_or_imm_or_label(p, &stmt.args[1], pc);
            match (dest, src) {
                (Operand::Reg(d), Operand::Label(disp)) => {
                    out.push(build_word_x(11, 0, 0, d, 0, disp & 0xFFFF));
                    true
                },
                _ => false,
            }
        },
        Instruction::Ldi => {
            let dest = try_reg_or_imm_or_label(p, &stmt.args[0], pc);
            let src = try_reg_or_imm_or_label(p, &stmt.args[1], pc);
            match (dest, src) {
                (Operand::Reg(d), Operand::Reg(s)) => {
                    out.push(build_word_x(12, 0, 0, d, 0, s));
                    true
                },
                _ => false,
            }
        },
        Instruction::Sti => {
            let dest = try_reg_or_imm_or_label(p, &stmt.args[0], pc);
            let src = try_reg_or_imm_or_label(p, &stmt.args[1], pc);
            match (dest, src) {
                (Operand::Reg(d), Operand::Reg(s)) => {
                    out.push(build_word_x(16, 0, 0, d, s, 0));
                    true
                },
                _ => false,
            }
        },
        Instruction::Jmp | Instruction::Call => {
            let goto = try_reg_or_imm_or_label(p, &stmt.args[0], pc);
            match goto {
                Operand::Reg(r) => {
                    out.push(build_word_x(instr_index(stmt.opc), 0, 0, 0, 0xF, r));
                    true
                },
                Operand::Label(disp) => {
                    out.push(build_word_x(instr_index(stmt.opc), 0, 0, 0, 0, disp & 0xFFFF));
                    true
                },
                _ => false,
            }
        },
        Instruction::Syscall => {
            match crate::cpu::isa::syscall_code(stmt.args[0].as_str()) {
                Some(code) => {
                    out.push(build_word_x(22, 0, 0, 0, 0, code as u32));
                    true
                },
                None => false,
            }
        },
        Instruction::Branch => {
            let lab = try_reg_or_imm_or_label(p, &stmt.args[1], pc);
            match lab {
                Operand::Label(disp) => {
                    let cc = &stmt.args[0];
                    let bn: u32 = if str_contains_char(cc.as_str(), 'n') {
                        4
                    } else {
                        0
                    };
                    let bz: u32 = if str_contains_char(cc.as_str(), 'z') {
                        2
                    } else {
                        0
                    };
                    let bp: u32 = if str_contains_char(cc.as_str(), 'p') {
                        1
                    } else {
                        0
                    };
                    out.push(build_word_x(23, 0, 0, 0, bn + bz + bp, disp & 0xFFFF));
                    true
                },
                _ => false,
            }
        },
        Instruction::Cmp => {
            let src1 = try_reg_or_imm_or_label(p, &stmt.args[0], pc);
            let src2 = try_reg_or_imm_or_label(p, &stmt.args[1], pc);
            match (src1, src2) {
                (Operand::Reg(a), Operand::Reg(b)) => {
                    out.push(build_word_x(24, 0, 0, 0, a, b));
                    true
                },
                (Operand::Reg(a), Operand::Constant(c)) => {
                    out.push(build_word_x(24, 0, 1, 0, a, c));
                    true
                },
                _ => false,
            }
        },
        Instruction::Push => {
            let to_push = try_reg_or_imm_or_label(p, &stmt.args[0], pc);
            match to_push {
                Operand::Reg(r) => {
                    out.push(build_word_x(25, 0, 0, 0, r, 0));
                    true
                },
                Operand::Constant(c) => {
                    out.push(build_word_x(25, 0, 1, 0, 0, c));
                    true
                },
                _ => false,
            }
        },
        Instruction::Pop => {
            let into_reg = try_reg_or_imm_or_label(p, &stmt.args[0], pc);
            match into_reg {
                Operand::Reg(r) => {
                    out.push(build_word_x(26, 0, 0, 0, 0, r));
                    true
                },
                _ => false,
            }
        },
        Instruction::ORIG => {
            let val = try_reg_or_imm_or_label(p, &stmt.args[0], pc);
            match val {
                Operand::Constant(v) => {
                    out.push(v);
                    true
                },
                _ => false,
            }
        },
        Instruction::FILL => {
            let pr = parse_prefixed(stmt.args[0].as_str());
            if pr.0 {
                match pr.1 {
                    Some(v) => {
                        out.push(v);
                        true
                    },
                    None => false,
                }
            } else {
                out.push(0);
                true
            }
        },
        Instruction::STRING => {
            pack_string_exec(stmt.args[0].as_str(), out);
            true
        },
        _ => false,
    }
}

/// Encode the whole statement list onto `outputter`, advancing the
/// program's running address counter once per emitted word, exactly as
/// `assemble_from` states it.  On failure the counter and the output stop
/// where the failing statement left them, and nothing of the program
/// besides the counter is touched either way.
#[verifier::rlimit(100)]
pub fn assemble(p: &mut Program, outputter: &mut Vec<u32>) -> (ok: bool)
    requires
        stmts_wf(old(p)@.stmts),
    ensures
        ({
            let r = assemble_from(old(p)@.syms, old(p)@.stmts, 0, old(p).scratchwork);
            &&& ok == (r is Some)
            &&& (ok ==> final(outputter)@ == old(outputter)@ + r->0)
            &&& (ok ==> final(p).scratchwork == wrap32(old(p).scratchwork + r->0.len()))
        }),
        final(p).name == old(p).name,
        final(p).instructions == old(p).instructions,
        final(p).sym_table == old(p).sym_table,
        final(p).start_pc == old(p).start_pc,
{
    let ghost syms = p@.syms;
    let ghost stmts = p@.stmts;
    let ghost sw0 = p.scratchwork;
    let ghost out0 = outputter@;
    let n = p.instructions.len();
    let mut i: usize = 0;
    while i < n
        invariant
            i <= n,
            n == p.instructions.len(),
            p.name == old(p).name,
            p.instructions == old(p).instructions,
            p.sym_table == old(p).sym_table,
            p.start_pc == old(p).start_pc,
            syms == p@.syms,
            stmts == p@.stmts,
            syms == old(p)@.syms,
            stmts == old(p)@.stmts,
            sw0 == old(p).scratchwork,
            out0 == old(outputter)@,
            stmts_wf(stmts),
            outputter@.len() >= out0.len(),
            outputter@.take(out0.len() as int) == out0,
            ({
                let emitted = outputter@.skip(out0.len() as int);
                let rest = assemble_from(syms, stmts, i as int, p.scratchwork);
                let whole = assemble_from(syms, stmts, 0, sw0);
                &&& (match rest {
                    None => whole is None,
                    Some(rs) => whole == Some(emitted + rs),
                })
                &&& p.scratchwork == wrap32(sw0 + emitted.len())
            }),
        decreases n - i,
    {
        let ghost emitted_before = outputter@.skip(out0.len() as int);
        let opc = p.instructions[i].opc;
        proof {
            assert(stmts[i as int] == p.instructions[i as int]@);
            assert(wf_at(stmts, i as int));
        }
        if opc == Instruction::END {
            proof {
                let whole = assemble_from(syms, stmts, 0, sw0);
                assert(assemble_from(syms, stmts, i as int, p.scratchwork) == Some(
                    Seq::<u32>::empty(),
                ));
                assert(emitted_before + Seq::<u32>::empty() =~= emitted_before);
                assert(whole == Some(emitted_before));
                assert(outputter@ =~= out0 + emitted_before);
            }
            return true;
        }
        let before = outputter.len();
        let ghost pc_here = p.scratchwork;
        let ok1 = {
            let stmt = &p.instructions[i];
            encode_one(p, stmt, p.scratchwork, outputter)
        };
        if !ok1 {
            proof {
                assert(assemble_from(syms, stmts, i as int, pc_here) is None);
            }
            return false;
        }
        let emitted_count = outputter.len() - before;
        let cnt: u32 = (emitted_count as u64 % 0x1_0000_0000) as u32;
        proof {
            let ws = encode_stmt(syms, stmts[i as int], pc_here)->0;
            assert(outputter@ == out0 + emitted_before + ws);
            assert(ws.len() == emitted_count);
            crate::bits::lemma_wrap32_add_mod(pc_here as int, emitted_count as int);
            assert(wrap32(pc_here + cnt) == wrap32(pc_here + ws.len()));
            crate::bits::lemma_wrap32_add_mod(sw0 + emitted_before.len(), 0);
        }
        p.scratchwork = crate::bits::add32(p.scratchwork, cnt);
        proof {
            let ws = encode_stmt(syms, stmts[i as int], pc_here)->0;
            let emitted_now = outputter@.skip(out0.len() as int);
            assert(emitted_now =~= emitted_before + ws);
            assert(outputter@.take(out0.len() as int) =~= out0);
            let rest_next = assemble_from(syms, stmts, i + 1, p.scratchwork);
            match rest_next {
                None => {},
                Some(rs) => {
                    assert(emitted_before + (ws + rs) =~= emitted_now + rs);
                },
            }
            // counter bookkeeping: sw0 + |emitted_before| + |ws| reduces right
            assert(p.scratchwork == wrap32(wrap32(sw0 + emitted_before.len()) + ws.len()));
            crate::bits::lemma_wrap32_add_mod(ws.len() as int, sw0 + emitted_before.len());
            assert(wrap32(ws.len() + wrap32(sw0 + emitted_before.len())) == wrap32(
                sw0 + emitted_before.len() + ws.len(),
            ));
            assert(p.scratchwork == wrap32(sw0 + emitted_now.len()));
        }
        i += 1;
    }
    proof {
        let emitted = outputter@.skip(out0.len() as int);
        let whole = assemble_from(syms, stmts, 0, sw0);
        assert(assemble_from(syms, stmts, n as int, p.scratchwork) == Some(Seq::<u32>::empty()));
        assert(emitted + Seq::<u32>::empty() =~= emitted);
        assert(whole == Some(emitted));
        assert(outputter@ =~= out0 + emitted);
    }
    true
}

/// The opcodes whose encoding packs their destination register at bits
/// 23:20, where the executor reads it back: every opcode with a register
/// destination.  Pop's sole operand lives in bits 3:0 and is treated
/// separately.
pub open spec fn dest_in_word(op: Instruction) -> bool {
    match op {
        Instruction::Add | Instruction::Sub | Instruction::Mul | Instruction::Div
            | Instruction::And | Instruction::Or | Instruction::Xor | Instruction::Lshf
            | Instruction::Rshf | Instruction::Ldb | Instruction::Ldw | Instruction::Ldd
            | Instruction::Stb | Instruction::Stw | Instruction::Std | Instruction::Lea
            | Instruction::Ldi | Instruction::Sti | Instruction::Mov | Instruction::Not => true,
        _ => false,
    }
}

/// Encoding a statement and reading the destination field back yields the
/// register index the text supplied: for every opcode with a register
/// destination, and for Pop through its bits-3:0 field.
pub proof fn lemma_dest_round_trip(syms: Seq<SymV>, stmt: StmtV, pc: u32)
    requires
        dest_in_word(stmt.opc) || stmt.opc == Instruction::Pop,
        encode_stmt(syms, stmt, pc) is Some,
    ensures
        dest_in_word(stmt.opc) ==> (match classify_spec(syms, stmt.args[0], pc) {
            Operand::Reg(d) => dest_field(encode_stmt(syms, stmt, pc)->0[0]) == d,
            _ => false,
        }),
        stmt.opc == Instruction::Pop ==> (match classify_spec(syms, stmt.args[0], pc) {
            Operand::Reg(r) => crate::bits::src2_field(encode_stmt(syms, stmt, pc)->0[0]) == r,
            _ => false,
        }),
{
    reveal(encode_stmt);
    lemma_classify_reg_bound(syms, stmt.args[0], pc);
    lemma_classify_reg_bound(syms, stmt.args[1], pc);
    let dest = classify_spec(syms, stmt.args[0], pc);
    match stmt.opc {
        Instruction::Add | Instruction::Sub | Instruction::Mul | Instruction::Div
            | Instruction::And | Instruction::Or | Instruction::Xor | Instruction::Lshf
            | Instruction::Rshf | Instruction::Ldb | Instruction::Ldw | Instruction::Ldd
            | Instruction::Stb | Instruction::Stw | Instruction::Std => {
            lemma_classify_reg_bound(syms, stmt.args[2], pc);
            let d = dest->Reg_0;
            let s1 = classify_spec(syms, stmt.args[1], pc)->Reg_0;
            match classify_spec(syms, stmt.args[2], pc) {
                Operand::Reg(r2) => {
                    crate::bits::lemma_build_word_fields(opcode_num(stmt.opc), 0, 0, d, s1, r2);
                },
                Operand::Constant(c) => {
                    crate::bits::lemma_build_word_fields(opcode_num(stmt.opc), 1, 0, d, s1, c);
                },
                _ => {},
            }
        },
        Instruction::Lea => {
            let d = dest->Reg_0;
            let disp = classify_spec(syms, stmt.args[1], pc)->Label_0;
            crate::bits::lemma_mask_bounds(disp);
            crate::bits::lemma_build_word_fields(11, 0, 0, d, 0, disp & 0xFFFF);
        },
        Instruction::Ldi => {
            let d = dest->Reg_0;
            let s = classify_spec(syms, stmt.args[1], pc)->Reg_0;
            crate::bits::lemma_build_word_fields(12, 0, 0, d, 0, s);
        },
        Instruction::Sti => {
            let d = dest->Reg_0;
            let s = classify_spec(syms, stmt.args[1], pc)->Reg_0;
            crate::bits::lemma_build_word_fields(16, 0, 0, d, s, 0);
        },
        Instruction::Mov => {
            let d = dest->Reg_0;
            match classify_spec(syms, stmt.args[1], pc) {
                Operand::Reg(r) => {
                    crate::bits::lemma_build_word_fields(4, 0, 0, d, r, 0);
                },
                Operand::Constant(c) => {
                    crate::bits::lemma_build_word_fields(4, 1, 0, d, 0, c);
                },
                _ => {},
            }
        },
        Instruction::Not => {
            let d = dest->Reg_0;
            let s = classify_spec(syms, stmt.args[1], pc)->Reg_0;
            crate::bits::lemma_build_word_fields(8, 0, 0, d, s, 0);
        },
        Instruction::Pop => {
            let r = dest->Reg_0;
            crate::bits::lemma_build_word_fields(26, 0, 0, 0, 0, r);
            assert(r & 0xF == r) by (bit_vector)
                requires
                    r < 16,
            ;
        },
        _ => {},
    }
}

/// The binary arithmetic/logic opcodes.
pub open spec fn is_bin_alu(op: Instruction) -> bool {
    match op {
        Instruction::Add | Instruction::Sub | Instruction::Mul | Instruction::Div
            | Instruction::And | Instruction::Or | Instruction::Xor | Instruction::Lshf
            | Instruction::Rshf => true,
        _ => false,
    }
}

/// Decoding an encoded binary math word recovers everything the text
/// supplied: the opcode, the destination and first source registers, and
/// the second operand with its immediate flag.
pub open spec fn alu_recovered(syms: Seq<SymV>, stmt: StmtV, w: u32, pc: u32) -> bool {
    &&& crate::cpu::isa::instr_of(crate::bits::op_field(w)) == stmt.opc
    &&& (match classify_spec(syms, stmt.args[0], pc) {
        Operand::Reg(d) => dest_field(w) == d,
        _ => false,
    })
    &&& (match classify_spec(syms, stmt.args[1], pc) {
        Operand::Reg(s1) => crate::bits::src1_field(w) == s1,
        _ => false,
    })
    &&& (match classify_spec(syms, stmt.args[2], pc) {
        Operand::Reg(r2) => !crate::bits::imm24_set(w) && crate::bits::src2_field(w) == r2,
        Operand::Constant(c) => crate::bits::imm24_set(w) && crate::bits::const_field(w) == c,
        _ => false,
    })
}

/// One encoded binary math statement round-trips through the word layout.
pub proof fn lemma_alu_stmt_round_trip(syms: Seq<SymV>, stmt: StmtV, pc: u32)
    requires
        is_bin_alu(stmt.opc),
        encode_stmt(syms, stmt, pc) is Some,
    ensures
        encode_stmt(syms, stmt, pc)->0.len() == 1,
        alu_recovered(syms, stmt, encode_stmt(syms, stmt, pc)->0[0], pc),
{
    reveal(encode_stmt);
    lemma_classify_reg_bound(syms, stmt.args[0], pc);
    lemma_classify_reg_bound(syms, stmt.args[1], pc);
    lemma_classify_reg_bound(syms, stmt.args[2], pc);
    crate::cpu::isa::lemma_opcode_round_trip(stmt.opc);
    let d = classify_spec(syms, stmt.args[0], pc)->Reg_0;
    let s1 = classify_spec(syms, stmt.args[1], pc)->Reg_0;
    match classify_spec(syms, stmt.args[2], pc) {
        Operand::Reg(r2) => {
            crate::bits::lemma_build_word_fields(opcode_num(stmt.opc), 0, 0, d, s1, r2);
            assert(r2 & 0xF == r2) by (bit_vector)
                requires
                    r2 < 16,
            ;
        },
        Operand::Constant(c) => {
            crate::bits::lemma_build_word_fields(opcode_num(stmt.opc), 1, 0, d, s1, c);
        },
        _ => {},
    }
}

/// Assembling a program of binary math statements alone emits exactly one
/// word per statement, and decoding each word recovers the opcode, the
/// registers, and the second operand with its immediate flag, against the
/// running address the statement was encoded at.
pub proof fn lemma_alu_program_round_trip(syms: Seq<SymV>, stmts: Seq<StmtV>, i: int, pc: u32)
    requires
        0 <= i <= stmts.len(),
        forall|j: int| 0 <= j < stmts.len() ==> is_bin_alu((#[trigger] stmts[j]).opc),
        assemble_from(syms, stmts, i, pc) is Some,
    ensures
        assemble_from(syms, stmts, i, pc)->0.len() == stmts.len() - i,
        forall|j: int|
            i <= j < stmts.len() ==> alu_recovered(
                syms,
                stmts[j],
                assemble_from(syms, stmts, i, pc)->0[j - i],
                wrap32(pc + (j - i)),
            ),
    decreases stmts.len() - i,
{
    if i < stmts.len() {
        let ws0 = encode_stmt(syms, stmts[i], pc);
        lemma_alu_stmt_round_trip(syms, stmts[i], pc);
        let pc1 = wrap32(pc + 1);
        lemma_alu_program_round_trip(syms, stmts, i + 1, pc1);
        assert(wrap32(pc + 0) == pc) by {
            crate::bits::lemma_wrap32_small(pc as int);
        }
        assert forall|j: int| i < j < stmts.len() implies alu_recovered(
            syms,
            stmts[j],
            assemble_from(syms, stmts, i, pc)->0[j - i],
            wrap32(pc + (j - i)),
        ) by {
            crate::bits::lemma_wrap32_add_mod((j - i - 1) as int, pc + 1);
            assert(wrap32(pc1 + (j - i - 1)) == wrap32(pc + (j - i)));
        }
    }
}

/// Every label reference in a Lea or Branch statement encodes the
/// displacement from the referencing instruction: the low 16 bits of the
/// label's resolved address minus the running address counter.
pub proof fn lemma_label_displacement_encoding(syms: Seq<SymV>, stmt: StmtV, pc: u32)
    requires
        stmt.opc == Instruction::Lea || stmt.opc == Instruction::Branch,
        encode_stmt(syms, stmt, pc) is Some,
    ensures
        sym_lookup(syms, stmt.args[1]) is Some,
        crate::bits::const_field(encode_stmt(syms, stmt, pc)->0[0]) == wrap32(
            sym_lookup(syms, stmt.args[1])->0 - pc,
        ) & 0xFFFF,
{
    reveal(encode_stmt);
    let disp = classify_spec(syms, stmt.args[1], pc)->Label_0;
    crate::bits::lemma_mask_bounds(disp);
    if stmt.opc == Instruction::Lea {
        lemma_classify_reg_bound(syms, stmt.args[0], pc);
        let d = classify_spec(syms, stmt.args[0], pc)->Reg_0;
        crate::bits::lemma_build_word_fields(11, 0, 0, d, 0, disp & 0xFFFF);
    } else {
        let cc = stmt.args[0];
        let bn: u32 = if seq_contains(cc, 'n') {
            4
        } else {
            0
        };
        let bz: u32 = if seq_contains(cc, 'z') {
            2
        } else {
            0
        };
        let bp: u32 = if seq_contains(cc, 'p') {
            1
        } else {
            0
        };
        crate::bits::lemma_build_word_fields(23, 0, 0, 0, (bn + bz + bp) as u32, disp & 0xFFFF);
    }
}

/// A displacement that fits in sixteen signed bits reconstructs the
/// label's address when added back to the referencing instruction's own
/// address, as Lea and a taken Branch do before the blanket increment of
/// the program counter.
pub proof fn lemma_displacement_reconstructs(a: u32, pc: u32)
    requires
        -0x8000 <= crate::bits::signed32(wrap32(a - pc)) < 0x8000,
    ensures
        wrap32(pc + crate::bits::sext16(wrap32(a - pc) & 0xFFFF)) == a,
{
    let x = wrap32(a - pc);
    assert(x < 0x8000 || x >= 0xFFFF_8000);
    assert((x < 0x8000 || x >= 0xFFFF_8000) ==> ((x & 0xFFFF >= 0x8000 ==> (x & 0xFFFF)
        + 0xFFFF_0000 == x) && (x & 0xFFFF < 0x8000 ==> x & 0xFFFF == x))) by (bit_vector);
    crate::bits::lemma_mask_bounds(x);
    assert(crate::bits::sext16(x & 0xFFFF) == x);
    crate::bits::lemma_wrap32_add_mod(pc as int, a - pc);
    crate::bits::lemma_wrap32_small(a as int);
}

/// Shift every symbol's address by a fixed adjustment (two's-complement
/// wrapping), once the origin value is known.
pub fn adjust_labels(p: &mut Program, adjustment: u32)
    ensures
        final(p).name == old(p).name,
        final(p).instructions == old(p).instructions,
        final(p).start_pc == old(p).start_pc,
        final(p).scratchwork == old(p).scratchwork,
        final(p)@.syms.len() == old(p)@.syms.len(),
        forall|j: int| 0 <= j < old(p)@.syms.len() ==> (#[trigger] final(p)@.syms[j]).name == old(
            p,
        )@.syms[j].name && final(p)@.syms[j].addr == wrap32(old(p)@.syms[j].addr + adjustment),
{
    let n = p.sym_table.len();
    let mut i: usize = 0;
    while i < n
        invariant
            i <= n,
            n == p.sym_table@.len(),
            p.name == old(p).name,
            p.instructions == old(p).instructions,
            p.start_pc == old(p).start_pc,
            p.scratchwork == old(p).scratchwork,
            forall|j: int| i <= j < n ==> p.sym_table@[j] == old(p).sym_table@[j],
            forall|j: int|
                0 <= j < i ==> (#[trigger] p.sym_table@[j]).name == old(p).sym_table@[j].name
                    && p.sym_table@[j].addr == wrap32(old(p).sym_table@[j].addr + adjustment),
        decreases n - i,
    {
        let cur = p.sym_table[i].addr;
        let updated = crate::bits::add32(cur, adjustment);
        p.sym_table[i].addr = updated;
        i += 1;
    }
    proof {
        assert(final(p)@.syms.len() == n);
        assert forall|j: int| 0 <= j < n implies (#[trigger] final(p)@.syms[j]).name == old(
            p,
        )@.syms[j].name && final(p)@.syms[j].addr == wrap32(old(p)@.syms[j].addr + adjustment) by {
            assert(final(p)@.syms[j] == final(p).sym_table@[j]@);
            assert(old(p)@.syms[j] == old(p).sym_table@[j]@);
        }
    }
}

} // verus!
