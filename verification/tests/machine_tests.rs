use sc0::cpu::hardware::{initialize, Sc0Hardware};
use sc0::cpu::isa::{ExecStatement, Instruction};
use sc0::helpers::cli::{execute, run, select};
use sc0::helpers::program::{Program, Symbol};
use sc0::simulator::{run_machine, step, FaultKind, StepEvent, StopKind};

const MEM: u32 = 0x10000;

fn machine() -> Sc0Hardware {
    initialize(MEM)
}

fn stmt(opc: Instruction, args: &[&str]) -> ExecStatement {
    ExecStatement { opc, args: args.iter().map(|s| s.to_string()).collect() }
}

fn program(name: &str, stmts: Vec<ExecStatement>, syms: Vec<(&str, u32)>) -> Program {
    Program {
        name: name.to_string(),
        instructions: stmts,
        start_pc: 0,
        sym_table: syms
            .into_iter()
            .map(|(n, a)| Symbol { name: n.to_string(), addr: a })
            .collect(),
        // the loader seeds the running counter with the origin it parsed
        scratchwork: 0x100,
    }
}

#[test]
fn initial_machine_state() {
    let hw = machine();
    assert_eq!(hw.get_reg(13), MEM - 1);
    assert_eq!(hw.get_reg(14), 0);
    assert_eq!(hw.get_reg(15), 0b010);
    assert_eq!(hw.get_reg(0), 0);
    assert_eq!(hw.get_mem_dw(0), 0);
    assert_eq!(hw.get_mem_dw(MEM - 1), 0);
}

#[test]
fn memory_granularities_share_one_slot() {
    let mut hw = machine();
    hw.set_mem_dw(5, 0xDEAD_BEEF);
    assert_eq!(hw.get_mem_dw(5), 0xDEAD_BEEF);
    assert_eq!(hw.get_mem_w(5), 0xBEEF);
    assert_eq!(hw.get_mem_b(5), 0xEF);
    hw.set_mem_b(5, 0x11);
    assert_eq!(hw.get_mem_dw(5), 0xDEAD_BE11);
    hw.set_mem_w(5, 0x2222);
    assert_eq!(hw.get_mem_dw(5), 0xDEAD_2222);
}

#[test]
fn alu_wrapping_arithmetic() {
    let mut hw = machine();
    assert_eq!(hw.alu_op(Instruction::Add, 0xFFFF_FFFF, 1), 0);
    assert_eq!(hw.alu_op(Instruction::Sub, 0, 1), 0xFFFF_FFFF);
    assert_eq!(hw.alu_op(Instruction::Mul, 0x10000, 0x10000), 0);
    assert_eq!(hw.alu_op(Instruction::Mul, 3, 7), 21);
}

#[test]
fn alu_signed_division() {
    let mut hw = machine();
    // -7 / 2 rounds towards zero
    assert_eq!(hw.alu_op(Instruction::Div, (-7i32) as u32, 2), (-3i32) as u32);
    assert_eq!(hw.alu_op(Instruction::Div, 7, (-2i32) as u32), (-3i32) as u32);
    assert_eq!(hw.alu_op(Instruction::Div, (-7i32) as u32, (-2i32) as u32), 3);
    // the most negative value divided by minus one wraps back to itself
    assert_eq!(hw.alu_op(Instruction::Div, 0x8000_0000, 0xFFFF_FFFF), 0x8000_0000);
}

#[test]
fn alu_bit_operations() {
    let mut hw = machine();
    assert_eq!(hw.alu_op(Instruction::Lshf, 1, 31), 0x8000_0000);
    assert_eq!(hw.alu_op(Instruction::Rshf, 0x8000_0000, 31), 1);
    assert_eq!(hw.alu_op(Instruction::And, 0xF0F0, 0x0FF0), 0x00F0);
    assert_eq!(hw.alu_op(Instruction::Or, 0xF000, 0x000F), 0xF00F);
    assert_eq!(hw.alu_op(Instruction::Xor, 0xFF00, 0x0FF0), 0xF0F0);
    assert_eq!(hw.alu_op(Instruction::Not, 0, 0), 0xFFFF_FFFF);
}

#[test]
fn condition_codes_zero_then_negative() {
    let mut hw = machine();
    // add r0 r1 #0 with r1 = 0: result 0 sets exactly the zero flag
    hw.set_mem_dw(0x100, 0x0101_0000);
    // cmp r0 #5 with r0 = 0: result -5 sets the negative flag; the zero
    // flag survives beside it, as the architecture's negative update
    // clears only the negative bit
    hw.set_mem_dw(0x101, 0xC010_0005);
    hw.set_reg(14, 0x100);
    assert_eq!(step(&mut hw, None).0, StepEvent::Running);
    assert_eq!(hw.get_reg(15) & 7, 0b010);
    assert_eq!(step(&mut hw, None).0, StepEvent::Running);
    assert_eq!(hw.get_reg(15) & 4, 4);
    assert_eq!(hw.get_reg(15) & 7, 0b110);
}

#[test]
fn condition_codes_positive_exact() {
    let mut hw = machine();
    // add r0 r1 #3 with r1 = 0: result 3 sets exactly the positive flag
    hw.set_mem_dw(0x100, 0x0101_0003);
    hw.set_reg(14, 0x100);
    step(&mut hw, None);
    assert_eq!(hw.get_reg(15) & 7, 0b001);
}

#[test]
fn branch_taken_on_zero_flag() {
    let mut hw = machine();
    // the fresh machine holds the zero flag; brz +2 is taken and, with the
    // blanket increment, lands at pc + displacement + 1
    hw.set_mem_dw(0x100, 0xB802_0002);
    hw.set_reg(14, 0x100);
    step(&mut hw, None);
    assert_eq!(hw.get_reg(14), 0x103);
}

#[test]
fn branch_not_taken_on_clear_flag() {
    let mut hw = machine();
    // add r0 r1 #3 leaves exactly the positive flag, so brz is not taken
    hw.set_mem_dw(0x100, 0x0101_0003);
    hw.set_mem_dw(0x101, 0xB802_0005);
    hw.set_reg(14, 0x100);
    step(&mut hw, None);
    step(&mut hw, None);
    assert_eq!(hw.get_reg(14), 0x102);
}

#[test]
fn mov_immediate_sign_extends() {
    let mut hw = machine();
    // mov r2 #0x8000: the constant is sign-extended into the destination
    hw.set_mem_dw(0x100, 0x2120_8000);
    hw.set_reg(14, 0x100);
    step(&mut hw, None);
    assert_eq!(hw.get_reg(2), 0xFFFF_8000);
}

#[test]
fn lea_adds_displacement_to_pc() {
    let mut hw = machine();
    // lea r1, displacement 4: r1 = pc + 4 before the blanket increment
    hw.set_mem_dw(0x100, 0x5810_0004);
    hw.set_reg(14, 0x100);
    step(&mut hw, None);
    assert_eq!(hw.get_reg(1), 0x104);
    assert_eq!(hw.get_reg(14), 0x101);
}

#[test]
fn load_store_granularities() {
    let mut hw = machine();
    hw.set_mem_dw(0x200, 0xAABB_CCDD);
    hw.set_reg(1, 0x200);
    // ldd r2, r1, #0
    hw.set_mem_dw(0x100, 0x7921_0000);
    // ldw r3, r1, #0
    hw.set_mem_dw(0x101, 0x7131_0000);
    // ldb r4, r1, #0
    hw.set_mem_dw(0x102, 0x6941_0000);
    hw.set_reg(14, 0x100);
    step(&mut hw, None);
    step(&mut hw, None);
    step(&mut hw, None);
    assert_eq!(hw.get_reg(2), 0xAABB_CCDD);
    assert_eq!(hw.get_reg(3), 0xCCDD);
    assert_eq!(hw.get_reg(4), 0xDD);
    // stb r5's low byte into the word: the rest of the slot is kept
    hw.set_reg(5, 0x1234_5678);
    hw.set_mem_dw(0x103, 0x8951_0000);
    step(&mut hw, None);
    assert_eq!(hw.get_mem_dw(0x200), 0xAABB_CC78);
}

#[test]
fn ldi_double_indirection() {
    let mut hw = machine();
    hw.set_reg(2, 0x200);
    hw.set_mem_dw(0x200, 0x300);
    hw.set_mem_dw(0x300, 77);
    // ldi r1, r2: r1 = mem[mem[r2]]
    hw.set_mem_dw(0x100, 0x6010_0002);
    hw.set_reg(14, 0x100);
    step(&mut hw, None);
    assert_eq!(hw.get_reg(1), 77);
    // the loaded value sets the condition codes
    assert_eq!(hw.get_reg(15) & 7, 0b001);
}

#[test]
fn sti_indirect_store() {
    let mut hw = machine();
    hw.set_reg(1, 0x200);
    hw.set_mem_dw(0x200, 0x300);
    hw.set_reg(2, 99);
    // sti r1, r2: mem[mem[r1]] = r2 (source at bits 19:16)
    hw.set_mem_dw(0x100, 0x8012_0000);
    hw.set_reg(14, 0x100);
    let before = hw.get_mem_dw(0x300);
    assert_eq!(before, 0);
    step(&mut hw, None);
    assert_eq!(hw.get_mem_dw(0x300), 99);
}

#[test]
fn jmp_register_indirect_and_displacement() {
    let mut hw = machine();
    hw.set_reg(4, 0x2F0);
    // jmp r4: the marker nibble is set, the target register sits in bits 3:0
    hw.set_mem_dw(0x100, 0xA00F_0004);
    hw.set_reg(14, 0x100);
    step(&mut hw, None);
    // the jump lands one word past its nominal target
    assert_eq!(hw.get_reg(14), 0x2F1);
    // jmp by displacement sets the program counter to the sign-extended
    // field itself
    hw.set_mem_dw(0x2F1, 0xA000_0123);
    step(&mut hw, None);
    assert_eq!(hw.get_reg(14), 0x124);
}

#[test]
fn call_saves_return_address() {
    let mut hw = machine();
    hw.set_reg(6, 0x400);
    // call r6
    hw.set_mem_dw(0x100, 0xA80F_0006);
    hw.set_reg(14, 0x100);
    step(&mut hw, None);
    assert_eq!(hw.get_reg(12), 0x101);
    assert_eq!(hw.get_reg(14), 0x401);
}

#[test]
fn stack_discipline_through_assembler() {
    let mut hw = machine();
    let p = program(
        "stacks",
        vec![
            stmt(Instruction::ORIG, &["0x100"]),
            stmt(Instruction::Push, &["#1"]),
            stmt(Instruction::Push, &["#2"]),
            stmt(Instruction::Push, &["#3"]),
            stmt(Instruction::Pop, &["r1"]),
            stmt(Instruction::Pop, &["r2"]),
            stmt(Instruction::Pop, &["r3"]),
            stmt(Instruction::Syscall, &["halt"]),
        ],
        vec![],
    );
    assert!(hw.add_prog(p));
    assert!(select(&mut hw, "stacks".to_string()));
    let outcome = execute(&mut hw).unwrap();
    assert_eq!(outcome.stop, StopKind::Halted);
    // three pushes then three pops hand the values back newest first
    assert_eq!(hw.get_reg(1), 3);
    assert_eq!(hw.get_reg(2), 2);
    assert_eq!(hw.get_reg(3), 1);
    // and the stack pointer is back where it started
    assert_eq!(hw.get_reg(13), MEM - 1);
    // the machine halted on the halt word
    assert_eq!(hw.get_reg(14), 0x106);
}

#[test]
fn add_prog_rejects_bad_programs() {
    let mut hw = machine();
    // an operand of no recognizable kind aborts the whole program
    let bad = program(
        "bad",
        vec![
            stmt(Instruction::ORIG, &["0x100"]),
            stmt(Instruction::Add, &["r1", "r2", "junk"]),
        ],
        vec![],
    );
    assert!(!hw.add_prog(bad));
    assert!(!select(&mut hw, "bad".to_string()));
    // memory is untouched
    assert_eq!(hw.get_mem_dw(0x100), 0);
}

#[test]
fn run_budget_exhausts() {
    let mut hw = machine();
    let p = program(
        "spin",
        vec![
            stmt(Instruction::ORIG, &["0x100"]),
            stmt(Instruction::Add, &["r1", "r1", "#1"]),
            stmt(Instruction::Jmp, &["loopy"]),
        ],
        vec![("loopy", 0x101)],
    );
    assert!(hw.add_prog(p));
    assert!(select(&mut hw, "spin".to_string()));
    let outcome = run(&mut hw, String::new(), 100).unwrap();
    assert_eq!(outcome.stop, StopKind::OutOfBudget);
}

#[test]
fn run_without_selection_is_none() {
    let mut hw = machine();
    assert!(execute(&mut hw).is_none());
    assert!(run(&mut hw, String::new(), 5).is_none());
}

#[test]
fn invalid_opcode_is_fatal_and_preserves_state() {
    let mut hw = machine();
    // opcode 27 is the origin pseudo-op: never executable
    hw.set_mem_dw(0x100, 27u32 << 27);
    hw.set_reg(14, 0x100);
    hw.set_reg(3, 0xABCD);
    let regs_before: Vec<u32> = (0..16).map(|i| hw.get_reg(i)).collect();
    let (ev, _) = step(&mut hw, None);
    assert_eq!(ev, StepEvent::Fault(FaultKind::BadOpcode));
    let regs_after: Vec<u32> = (0..16).map(|i| hw.get_reg(i)).collect();
    assert_eq!(regs_before, regs_after);
    assert_eq!(hw.get_mem_dw(0x100), 27u32 << 27);
}

#[test]
fn invalid_opcode_stops_run() {
    let mut hw = machine();
    hw.set_mem_dw(0x100, 31u32 << 27);
    hw.set_reg(14, 0x100);
    let none: Vec<u8> = Vec::new();
    let outcome = run_machine(&mut hw, 50, &none);
    assert_eq!(outcome.stop, StopKind::Faulted(FaultKind::BadOpcode));
    assert!(outcome.output.is_empty());
}

#[test]
fn division_by_zero_faults() {
    let mut hw = machine();
    // div r0, r1, r2 with r2 = 0
    hw.set_mem_dw(0x100, (3u32 << 27) | (1 << 16) | 2);
    hw.set_reg(14, 0x100);
    let (ev, _) = step(&mut hw, None);
    assert_eq!(ev, StepEvent::Fault(FaultKind::ArithmeticFault));
    assert_eq!(hw.get_reg(14), 0x100);
}

#[test]
fn oversized_shift_faults() {
    let mut hw = machine();
    // lshf r0, r1, #40
    hw.set_mem_dw(0x100, (9u32 << 27) | (1 << 24) | (1 << 16) | 40);
    hw.set_reg(14, 0x100);
    let (ev, _) = step(&mut hw, None);
    assert_eq!(ev, StepEvent::Fault(FaultKind::ArithmeticFault));
}

#[test]
fn memory_faults() {
    let mut hw = machine();
    // a fetch beyond the limit
    hw.set_reg(14, MEM);
    assert_eq!(step(&mut hw, None).0, StepEvent::Fault(FaultKind::MemOutOfBounds));
    // a load beyond the limit: ldd r1, r2, #0 with r2 past the end
    hw.set_reg(14, 0x100);
    hw.set_reg(2, MEM);
    hw.set_mem_dw(0x100, (15u32 << 27) | (1 << 24) | (1 << 20) | (2 << 16));
    assert_eq!(step(&mut hw, None).0, StepEvent::Fault(FaultKind::MemOutOfBounds));
}

#[test]
fn unknown_syscall_faults() {
    let mut hw = machine();
    hw.set_mem_dw(0x100, 0xB000_0999);
    hw.set_reg(14, 0x100);
    assert_eq!(step(&mut hw, None).0, StepEvent::Fault(FaultKind::BadSyscall));
}

#[test]
fn halt_keeps_pc_on_halt_word() {
    let mut hw = machine();
    hw.set_mem_dw(0x100, 0xB000_001F);
    hw.set_reg(14, 0x100);
    assert_eq!(step(&mut hw, None).0, StepEvent::Halted);
    assert_eq!(hw.get_reg(14), 0x100);
}

#[test]
fn input_and_display_through_run() {
    let mut hw = machine();
    hw.set_mem_dw(0x100, 0xB000_004F);
    hw.set_mem_dw(0x101, 0xB000_003F);
    hw.set_mem_dw(0x102, 0xB000_001F);
    hw.set_reg(14, 0x100);
    let inputs = vec![b'A'];
    let outcome = run_machine(&mut hw, 10, &inputs);
    assert_eq!(outcome.stop, StopKind::Halted);
    assert_eq!(outcome.output, vec![b'A' as u32]);
    assert_eq!(outcome.consumed, 1);
    assert_eq!(hw.get_reg(0), b'A' as u32);
}

#[test]
fn input_with_empty_queue_waits() {
    let mut hw = machine();
    hw.set_mem_dw(0x100, 0xB000_004F);
    hw.set_mem_dw(0x101, 0xB000_001F);
    hw.set_reg(14, 0x100);
    let none: Vec<u8> = Vec::new();
    let outcome = run_machine(&mut hw, 10, &none);
    assert_eq!(outcome.stop, StopKind::AwaitingInput);
    assert_eq!(outcome.consumed, 0);
    // nothing moved: offering a character afterwards resumes cleanly
    assert_eq!(hw.get_reg(14), 0x100);
    let one = vec![b'x'];
    let outcome2 = run_machine(&mut hw, 10, &one);
    assert_eq!(outcome2.consumed, 1);
    assert_eq!(hw.get_reg(0), b'x' as u32);
}

#[test]
fn print_syscall_is_a_placeholder() {
    let mut hw = machine();
    hw.set_mem_dw(0x100, 0xB000_002F);
    hw.set_mem_dw(0x101, 0xB000_001F);
    hw.set_reg(14, 0x100);
    let none: Vec<u8> = Vec::new();
    let outcome = run_machine(&mut hw, 10, &none);
    assert_eq!(outcome.stop, StopKind::Halted);
    assert!(outcome.output.is_empty());
}

#[test]
fn pop_updates_condition_codes() {
    let mut hw = machine();
    // push #7 then pop r5: the popped value sets the positive flag
    hw.set_mem_dw(0x100, 0xC810_0007);
    hw.set_mem_dw(0x101, 0xD000_0005);
    hw.set_reg(14, 0x100);
    step(&mut hw, None);
    assert_eq!(hw.get_reg(13), MEM - 2);
    step(&mut hw, None);
    assert_eq!(hw.get_reg(5), 7);
    assert_eq!(hw.get_reg(13), MEM - 1);
    assert_eq!(hw.get_reg(15) & 7, 0b001);
}

#[test]
fn cmp_uses_alternate_immediate_flag() {
    let mut hw = machine();
    hw.set_reg(3, 10);
    // cmp r3 #5: first operand at bits 19:16, the bit-20 immediate flag
    hw.set_mem_dw(0x100, 0xC013_0005);
    hw.set_reg(14, 0x100);
    step(&mut hw, None);
    assert_eq!(hw.get_reg(15) & 7, 0b001);
}

#[test]
fn cmp_through_the_assembler() {
    // the register the text names is the register the flags see
    let mut hw = machine();
    let p = program(
        "compare",
        vec![
            stmt(Instruction::ORIG, &["0x100"]),
            stmt(Instruction::Cmp, &["r5", "#3"]),
            stmt(Instruction::Syscall, &["halt"]),
        ],
        vec![],
    );
    assert!(hw.add_prog(p));
    hw.set_reg(5, 7);
    assert!(select(&mut hw, "compare".to_string()));
    let outcome = execute(&mut hw).unwrap();
    assert_eq!(outcome.stop, StopKind::Halted);
    // 7 - 3 is positive
    assert_eq!(hw.get_reg(15) & 7, 0b001);
}

#[test]
fn push_register_pushes_named_register() {
    let mut hw = machine();
    hw.set_reg(7, 42);
    // push r7: the operand register sits at bits 19:16
    hw.set_mem_dw(0x100, 0xC807_0000);
    hw.set_reg(14, 0x100);
    step(&mut hw, None);
    assert_eq!(hw.get_mem_dw(MEM - 1), 42);
    assert_eq!(hw.get_reg(13), MEM - 2);
}

#[test]
fn display_emits_low_byte() {
    let mut hw = machine();
    hw.set_reg(0, 0x141);
    hw.set_mem_dw(0x100, 0xB000_003F);
    hw.set_mem_dw(0x101, 0xB000_001F);
    hw.set_reg(14, 0x100);
    let none: Vec<u8> = Vec::new();
    let outcome = run_machine(&mut hw, 10, &none);
    assert_eq!(outcome.stop, StopKind::Halted);
    assert_eq!(outcome.output, vec![0x41]);
}

#[test]
fn program_catalog_lookup() {
    let mut hw = machine();
    let a = program(
        "first",
        vec![stmt(Instruction::ORIG, &["0x100"]), stmt(Instruction::Syscall, &["halt"])],
        vec![],
    );
    let b = program(
        "second",
        vec![stmt(Instruction::ORIG, &["0x200"]), stmt(Instruction::Syscall, &["halt"])],
        vec![],
    );
    assert!(hw.add_prog(a));
    assert!(hw.add_prog(b));
    assert_eq!(hw.get_prog("first".to_string()).unwrap().start_pc, 0x100);
    assert_eq!(hw.get_prog("second".to_string()).unwrap().start_pc, 0x200);
    assert!(hw.get_prog("third".to_string()).is_none());
    assert!(select(&mut hw, "second".to_string()));
    assert_eq!(hw.selected, "second");
}
