use sc0::cpu::assemble::{assemble, adjust_labels, try_reg_or_imm_or_label, Operand};
use sc0::cpu::isa::{check_args, get_instr, syscall_code, ExecStatement, Instruction};
use sc0::helpers::program::{Program, Symbol};

fn stmt(opc: Instruction, args: &[&str]) -> ExecStatement {
    ExecStatement { opc, args: args.iter().map(|s| s.to_string()).collect() }
}

fn prog(stmts: Vec<ExecStatement>, syms: Vec<(&str, u32)>, start: u32) -> Program {
    Program {
        name: String::from("t"),
        instructions: stmts,
        start_pc: start,
        sym_table: syms
            .into_iter()
            .map(|(n, a)| Symbol { name: n.to_string(), addr: a })
            .collect(),
        scratchwork: start,
    }
}

fn assemble_all(p: &mut Program) -> Option<Vec<u32>> {
    if !check_args(p) {
        return None;
    }
    let mut out = Vec::new();
    if assemble(p, &mut out) {
        Some(out)
    } else {
        None
    }
}

#[test]
fn mnemonics_case_insensitive() {
    assert_eq!(get_instr("add"), Instruction::Add);
    assert_eq!(get_instr("ADD"), Instruction::Add);
    assert_eq!(get_instr("Lshf"), Instruction::Lshf);
    assert_eq!(get_instr(".ORIG"), Instruction::ORIG);
    assert_eq!(get_instr("bogus"), Instruction::Error);
}

#[test]
fn branch_mnemonic_family() {
    for m in ["br", "brnzp", "brnz", "brnp", "brn", "brz", "brp", "brzp"] {
        assert_eq!(get_instr(m), Instruction::Branch);
    }
    assert_eq!(get_instr("brx"), Instruction::Error);
}

#[test]
fn syscall_table() {
    assert_eq!(syscall_code("halt"), Some(0x1F));
    assert_eq!(syscall_code("print"), Some(0x2F));
    assert_eq!(syscall_code("display"), Some(0x3F));
    assert_eq!(syscall_code("input"), Some(0x4F));
    assert_eq!(syscall_code("HALT"), None);
    assert_eq!(syscall_code("reboot"), None);
}

#[test]
fn classify_registers() {
    let p = prog(vec![], vec![], 0);
    assert_eq!(try_reg_or_imm_or_label(&p, &"r0".to_string(), 0), Operand::Reg(0));
    assert_eq!(try_reg_or_imm_or_label(&p, &"r15".to_string(), 0), Operand::Reg(15));
    assert_eq!(try_reg_or_imm_or_label(&p, &"r16".to_string(), 0), Operand::Bad);
    // the reserved-register synonyms do not open with `r`, so the register
    // table never sees them
    assert_eq!(try_reg_or_imm_or_label(&p, &"sp".to_string(), 0), Operand::Bad);
    assert_eq!(try_reg_or_imm_or_label(&p, &"pc".to_string(), 0), Operand::Bad);
    assert_eq!(try_reg_or_imm_or_label(&p, &"psr".to_string(), 0), Operand::Bad);
}

#[test]
fn classify_constants() {
    let p = prog(vec![], vec![], 0);
    assert_eq!(try_reg_or_imm_or_label(&p, &"0x1f".to_string(), 0), Operand::Constant(31));
    assert_eq!(try_reg_or_imm_or_label(&p, &"0xFFFF".to_string(), 0), Operand::Constant(65535));
    assert_eq!(try_reg_or_imm_or_label(&p, &"#42".to_string(), 0), Operand::Constant(42));
    // over sixteen bits of magnitude is an error
    assert_eq!(try_reg_or_imm_or_label(&p, &"0x10000".to_string(), 0), Operand::Bad);
    assert_eq!(try_reg_or_imm_or_label(&p, &"#65536".to_string(), 0), Operand::Bad);
    assert_eq!(try_reg_or_imm_or_label(&p, &"0xZZ".to_string(), 0), Operand::Bad);
    assert_eq!(try_reg_or_imm_or_label(&p, &"#1x".to_string(), 0), Operand::Bad);
    assert_eq!(try_reg_or_imm_or_label(&p, &"plain".to_string(), 0), Operand::Bad);
}

#[test]
fn classify_labels_take_priority() {
    // a symbol named like a register resolves as a label
    let p = prog(vec![], vec![("r1", 0x105)], 0x100);
    assert_eq!(try_reg_or_imm_or_label(&p, &"r1".to_string(), 0x100), Operand::Label(5));
    // backward reference gives a two's-complement displacement
    assert_eq!(
        try_reg_or_imm_or_label(&p, &"r1".to_string(), 0x108),
        Operand::Label(0xFFFF_FFFDu32)
    );
}

#[test]
fn label_offset_and_exists() {
    let p = prog(vec![], vec![("a", 0x100), ("a", 0x200), ("b", 0x300)], 0);
    assert!(p.labelExists("a".to_string()));
    assert!(!p.labelExists("c".to_string()));
    // the first declaration wins
    assert_eq!(p.labelOffset("a".to_string(), 0x80), 0x80);
    assert_eq!(p.labelOffset("b".to_string(), 0x400), -0x100);
    assert_eq!(p.labelOffset("c".to_string(), 0), i32::MAX);
}

#[test]
fn adjust_labels_wraps() {
    let mut p = prog(vec![], vec![("a", 0x10), ("b", 0xFFFF_FFFF)], 0);
    adjust_labels(&mut p, 2);
    assert_eq!(p.sym_table[0].addr, 0x12);
    assert_eq!(p.sym_table[1].addr, 1);
}

#[test]
fn check_args_reads_origin() {
    let mut p = prog(
        vec![stmt(Instruction::ORIG, &["0x3000"]), stmt(Instruction::END, &[])],
        vec![],
        0x100,
    );
    assert!(check_args(&mut p));
    assert_eq!(p.start_pc, 0x3000);
    let mut q = prog(
        vec![stmt(Instruction::ORIG, &["#512"]), stmt(Instruction::END, &[])],
        vec![],
        0x100,
    );
    assert!(check_args(&mut q));
    assert_eq!(q.start_pc, 512);
}

#[test]
fn check_args_rejects_bad_input() {
    // wrong arity
    let mut p = prog(vec![stmt(Instruction::Add, &["r0", "r1"])], vec![], 0);
    assert!(!check_args(&mut p));
    // the error opcode
    let mut q = prog(vec![stmt(Instruction::Error, &[])], vec![], 0);
    assert!(!check_args(&mut q));
    // an origin operand that does not parse
    let mut r = prog(vec![stmt(Instruction::ORIG, &["0xZZ"])], vec![], 0);
    assert!(!check_args(&mut r));
}

#[test]
fn alu_register_form_word() {
    let mut p = prog(
        vec![stmt(Instruction::ORIG, &["0x100"]), stmt(Instruction::Add, &["r1", "r2", "r3"])],
        vec![],
        0x100,
    );
    let words = assemble_all(&mut p).unwrap();
    assert_eq!(words, vec![0x100, 0x0012_0003]);
}

#[test]
fn alu_immediate_form_word() {
    let mut p = prog(
        vec![stmt(Instruction::ORIG, &["0x100"]), stmt(Instruction::Add, &["r1", "r2", "#5"])],
        vec![],
        0x100,
    );
    let words = assemble_all(&mut p).unwrap();
    assert_eq!(words[1], 0x0112_0005);
}

#[test]
fn alu_round_trip_program() {
    // every emitted word decodes back to what the text said
    let mut p = prog(
        vec![
            stmt(Instruction::ORIG, &["0x100"]),
            stmt(Instruction::Sub, &["r4", "r5", "r6"]),
            stmt(Instruction::Mul, &["r7", "r8", "#9"]),
            stmt(Instruction::Xor, &["r10", "r11", "0xff"]),
        ],
        vec![],
        0x100,
    );
    let words = assemble_all(&mut p).unwrap();
    let expect = [
        (Instruction::Sub, 4u32, 5u32, None, Some(6u32)),
        (Instruction::Mul, 7, 8, Some(9u32), None),
        (Instruction::Xor, 10, 11, Some(0xFF), None),
    ];
    for (i, (opc, d, s1, imm, s2)) in expect.iter().enumerate() {
        let w = words[i + 1];
        assert_eq!(sc0::simulator::get_opcode(w), *opc);
        assert_eq!((w >> 20) & 0xF, *d);
        assert_eq!((w >> 16) & 0xF, *s1);
        match (imm, s2) {
            (Some(c), None) => {
                assert_ne!(w & 0x100_0000, 0);
                assert_eq!(w & 0xFFFF, *c);
            }
            (None, Some(r)) => {
                assert_eq!(w & 0x100_0000, 0);
                assert_eq!(w & 0xF, *r);
            }
            _ => unreachable!(),
        }
    }
}

#[test]
fn mov_packs_destination() {
    // both Mov forms carry their destination at bits 23:20
    let mut p = prog(
        vec![
            stmt(Instruction::ORIG, &["0x100"]),
            stmt(Instruction::Mov, &["r3", "r2"]),
            stmt(Instruction::Mov, &["r3", "#7"]),
        ],
        vec![],
        0x100,
    );
    let words = assemble_all(&mut p).unwrap();
    assert_eq!(words[1], 0x2032_0000);
    assert_eq!(words[2], 0x2130_0007);
}

#[test]
fn not_packs_destination_and_source() {
    // not r1, r2: destination at bits 23:20, source at bits 19:16
    let mut p = prog(
        vec![stmt(Instruction::ORIG, &["0x100"]), stmt(Instruction::Not, &["r1", "r2"])],
        vec![],
        0x100,
    );
    let words = assemble_all(&mut p).unwrap();
    assert_eq!(words[1], 0x4012_0000);
}

#[test]
fn sti_packs_source_register() {
    // sti rA, rB: pointer register at bits 23:20, source at bits 19:16
    let mut p = prog(
        vec![stmt(Instruction::ORIG, &["0x100"]), stmt(Instruction::Sti, &["r1", "r2"])],
        vec![],
        0x100,
    );
    let words = assemble_all(&mut p).unwrap();
    assert_eq!(words[1], 0x8012_0000);
}

#[test]
fn orig_operand_must_be_a_constant() {
    // a register token as the origin is rejected
    let mut p = prog(
        vec![stmt(Instruction::ORIG, &["r3"]), stmt(Instruction::Syscall, &["halt"])],
        vec![],
        0x100,
    );
    assert!(assemble_all(&mut p).is_none());
    // so is a label reference
    let mut q = prog(
        vec![stmt(Instruction::ORIG, &["tgt"]), stmt(Instruction::Syscall, &["halt"])],
        vec![("tgt", 0x105)],
        0x100,
    );
    assert!(assemble_all(&mut q).is_none());
}

#[test]
fn label_displacement_encoding() {
    // the encoded displacement is the label address minus the running
    // counter of the referencing word
    let mut p = prog(
        vec![stmt(Instruction::ORIG, &["0x100"]), stmt(Instruction::Lea, &["r1", "tgt"])],
        vec![("tgt", 0x105)],
        0x100,
    );
    let words = assemble_all(&mut p).unwrap();
    // the lea is encoded with the counter at 0x101 (one past the origin word)
    assert_eq!(words[1], 0x5810_0004);
    assert_eq!(0x101 + (words[1] & 0xFFFF), 0x105);
}

#[test]
fn branch_condition_bits() {
    let mut p = prog(
        vec![
            stmt(Instruction::ORIG, &["0x100"]),
            stmt(Instruction::Branch, &["nzp", "tgt"]),
            stmt(Instruction::Branch, &["z", "tgt"]),
            stmt(Instruction::Branch, &["np", "tgt"]),
        ],
        vec![("tgt", 0x101)],
        0x100,
    );
    let words = assemble_all(&mut p).unwrap();
    assert_eq!((words[1] >> 16) & 7, 0b111);
    assert_eq!((words[2] >> 16) & 7, 0b010);
    assert_eq!((words[3] >> 16) & 7, 0b101);
    // backward displacements: encoded at counters 0x101..0x103
    assert_eq!(words[1] & 0xFFFF, 0);
    assert_eq!(words[2] & 0xFFFF, 0xFFFF);
    assert_eq!(words[3] & 0xFFFF, 0xFFFE);
}

#[test]
fn jmp_and_call_forms() {
    let mut p = prog(
        vec![
            stmt(Instruction::ORIG, &["0x100"]),
            stmt(Instruction::Jmp, &["r4"]),
            stmt(Instruction::Jmp, &["tgt"]),
            stmt(Instruction::Call, &["r0"]),
        ],
        vec![("tgt", 0x110)],
        0x100,
    );
    let words = assemble_all(&mut p).unwrap();
    assert_eq!(words[1], 0xA00F_0004);
    assert_eq!(words[2], 0xA000_000E);
    // register-indirect through r0 is indistinguishable from a plain
    // displacement: the marker nibble holds 0xF either way
    assert_eq!(words[3], 0xA80F_0000);
}

#[test]
fn push_pop_cmp_words() {
    let mut p = prog(
        vec![
            stmt(Instruction::ORIG, &["0x100"]),
            stmt(Instruction::Push, &["#1"]),
            stmt(Instruction::Push, &["r7"]),
            stmt(Instruction::Pop, &["r2"]),
            stmt(Instruction::Cmp, &["r3", "#5"]),
            stmt(Instruction::Cmp, &["r3", "r4"]),
        ],
        vec![],
        0x100,
    );
    let words = assemble_all(&mut p).unwrap();
    assert_eq!(words[1], 0xC810_0001);
    assert_eq!(words[2], 0xC807_0000);
    assert_eq!(words[3], 0xD000_0002);
    assert_eq!(words[4], 0xC013_0005);
    assert_eq!(words[5], 0xC003_0004);
}

#[test]
fn syscall_words() {
    let mut p = prog(
        vec![
            stmt(Instruction::ORIG, &["0x100"]),
            stmt(Instruction::Syscall, &["halt"]),
            stmt(Instruction::Syscall, &["display"]),
        ],
        vec![],
        0x100,
    );
    let words = assemble_all(&mut p).unwrap();
    assert_eq!(words[1], 0xB000_001F);
    assert_eq!(words[2], 0xB000_003F);
}

#[test]
fn string_packing_two_and_three_bytes() {
    let mut p = prog(
        vec![
            stmt(Instruction::ORIG, &["0x100"]),
            stmt(Instruction::STRING, &["AB"]),
            stmt(Instruction::STRING, &["ABC"]),
        ],
        vec![],
        0x100,
    );
    let words = assemble_all(&mut p).unwrap();
    assert_eq!(words[1], 0x4142_0000);
    assert_eq!(words[2], 0x4142_4300);
}

#[test]
fn string_packing_multiple_words() {
    let mut p = prog(
        vec![stmt(Instruction::ORIG, &["0x100"]), stmt(Instruction::STRING, &["ABCDE"])],
        vec![],
        0x100,
    );
    let words = assemble_all(&mut p).unwrap();
    assert_eq!(&words[1..], &[0x4142_4344, 0x4500_0000]);
    // the counter advanced once per emitted word
    assert_eq!(p.scratchwork, 0x103);
}

#[test]
fn fill_words() {
    let mut p = prog(
        vec![
            stmt(Instruction::ORIG, &["0x100"]),
            stmt(Instruction::FILL, &["0xDEADBEEF"]),
            stmt(Instruction::FILL, &["#7"]),
            stmt(Instruction::FILL, &["raw"]),
        ],
        vec![],
        0x100,
    );
    let words = assemble_all(&mut p).unwrap();
    assert_eq!(&words[1..], &[0xDEAD_BEEF, 7, 0]);
}

#[test]
fn end_stops_assembly() {
    let mut p = prog(
        vec![
            stmt(Instruction::ORIG, &["0x100"]),
            stmt(Instruction::END, &[]),
            stmt(Instruction::Add, &["r1", "r2", "r3"]),
        ],
        vec![],
        0x100,
    );
    let words = assemble_all(&mut p).unwrap();
    assert_eq!(words, vec![0x100]);
}

#[test]
fn assembly_error_aborts() {
    // a bad destination kind
    let mut p = prog(
        vec![stmt(Instruction::ORIG, &["0x100"]), stmt(Instruction::Add, &["#1", "r2", "r3"])],
        vec![],
        0x100,
    );
    assert!(assemble_all(&mut p).is_none());
    // Lea's source must resolve as a label
    let mut q = prog(
        vec![stmt(Instruction::ORIG, &["0x100"]), stmt(Instruction::Lea, &["r1", "#4"])],
        vec![],
        0x100,
    );
    assert!(assemble_all(&mut q).is_none());
    // a Jmp target may not be a bare constant
    let mut r = prog(
        vec![stmt(Instruction::ORIG, &["0x100"]), stmt(Instruction::Jmp, &["#4"])],
        vec![],
        0x100,
    );
    assert!(assemble_all(&mut r).is_none());
    // a Push operand may not be a label
    let mut s = prog(
        vec![stmt(Instruction::ORIG, &["0x100"]), stmt(Instruction::Push, &["tgt"])],
        vec![("tgt", 0x100)],
        0x100,
    );
    assert!(assemble_all(&mut s).is_none());
    // a Pop operand must be a register
    let mut t = prog(
        vec![stmt(Instruction::ORIG, &["0x100"]), stmt(Instruction::Pop, &["#1"])],
        vec![],
        0x100,
    );
    assert!(assemble_all(&mut t).is_none());
    // an unknown syscall name
    let mut u = prog(
        vec![stmt(Instruction::ORIG, &["0x100"]), stmt(Instruction::Syscall, &["reboot"])],
        vec![],
        0x100,
    );
    assert!(assemble_all(&mut u).is_none());
}

#[test]
fn run_program_is_inert() {
    let mut p = prog(vec![stmt(Instruction::ORIG, &["0x100"])], vec![], 0x100);
    sc0::helpers::program::run_program(&mut p, 5);
    assert_eq!(p.start_pc, 0x100);
    assert_eq!(p.instructions.len(), 1);
}
