use sim16::isa::{
    alu_binary, alu_unary, BinaryOp, Flags, Instruction, JumpCondition, UnaryOp, RAM_SIZE,
};
use sim16::processor::{DisplayRadix, DisplaySigned, EmulationFault, Processor};

fn r3(op: BinaryOp, dest: u8, src_a: u8, src_b: u8) -> Instruction {
    Instruction::RegOp3 { op, dest, src_a, src_b }
}

fn r2(op: UnaryOp, dest: u8, src: u8) -> Instruction {
    Instruction::RegOp2 { op, dest, src }
}

fn jump(condition: JumpCondition, target: usize) -> Instruction {
    Instruction::Jump { condition, target }
}

#[test]
fn mov_add_jmpz_scenario() {
    let mut p = Processor::new();
    p.load_rom(&[
        r2(UnaryOp::Move, 0, 1),
        r3(BinaryOp::Add, 2, 0, 1),
        jump(JumpCondition::IfZero, 0),
    ]);
    p.set_register(1, 5);
    assert_eq!(p.tick(), Ok(()));
    assert_eq!(p.register(0), 5);
    assert_eq!(p.tick(), Ok(()));
    assert_eq!(p.register(2), 10);
    assert!(!p.flags().zero);
    assert_eq!(p.tick(), Ok(()));
    assert_eq!(p.program_counter(), 3);
    assert!(p.is_finished());
    // At the end of the program a tick changes nothing.
    assert_eq!(p.tick(), Ok(()));
    assert_eq!(p.program_counter(), 3);
}

#[test]
fn toggle_breakpoint_twice_clears_it() {
    let mut p = Processor::new();
    p.toggle_breakpoint(3);
    assert!(p.is_breakpoint(3));
    p.toggle_breakpoint(3);
    assert!(!p.is_breakpoint(3));
}

#[test]
fn clear_breakpoints_removes_all() {
    let mut p = Processor::new();
    p.toggle_breakpoint(1);
    p.toggle_breakpoint(7);
    p.clear_breakpoints();
    assert!(!p.is_breakpoint(1));
    assert!(!p.is_breakpoint(7));
}

#[test]
fn reset_keeps_breakpoints_and_memory() {
    let mut p = Processor::new();
    p.load_ram(&[1, 2, 3]);
    p.load_rom(&[
        r2(UnaryOp::Increment, 0, 0),
        r2(UnaryOp::Increment, 1, 0),
        r2(UnaryOp::Store, 1, 2),
    ]);
    p.toggle_breakpoint(2);
    assert_eq!(p.run(false), Ok(3));
    assert_eq!(p.register(1), 2);
    assert_eq!(p.ram_word(0), 2);
    p.reset();
    assert_eq!(p.registers(), vec![0u16; 16]);
    assert_eq!(p.program_counter(), 0);
    assert_eq!(p.flags(), Flags { zero: false, sign: false, carry: false });
    assert!(p.is_breakpoint(2));
    assert_eq!(p.ram_word(0), 2);
    assert_eq!(p.program_len(), 3);
}

#[test]
fn run_stops_before_breakpoint_line() {
    let mut p = Processor::new();
    p.load_rom(&[
        r2(UnaryOp::Increment, 0, 0),
        r2(UnaryOp::Increment, 0, 0),
        r2(UnaryOp::Increment, 0, 0),
        r2(UnaryOp::Increment, 0, 0),
        r2(UnaryOp::Increment, 0, 0),
    ]);
    p.toggle_breakpoint(3);
    assert_eq!(p.run(true), Ok(3));
    assert_eq!(p.program_counter(), 3);
    assert_eq!(p.register(0), 3);
    // Sitting on the breakpoint, the next run still makes progress.
    assert_eq!(p.run(true), Ok(2));
    assert_eq!(p.program_counter(), 5);
    assert_eq!(p.register(0), 5);
}

#[test]
fn run_ignores_breakpoints_when_asked() {
    let mut p = Processor::new();
    p.load_rom(&[r2(UnaryOp::Increment, 0, 0), r2(UnaryOp::Increment, 0, 0)]);
    p.toggle_breakpoint(1);
    assert_eq!(p.run(false), Ok(2));
    assert_eq!(p.register(0), 2);
}

#[test]
fn run_loop_counts_instructions() {
    // r0 = 3; loop: r0 = r0 - 1 until zero.
    let mut p = Processor::new();
    p.load_rom(&[
        r2(UnaryOp::Decrement, 0, 0),
        jump(JumpCondition::IfNotZero, 0),
    ]);
    p.set_register(0, 3);
    assert_eq!(p.run(false), Ok(6));
    assert_eq!(p.register(0), 0);
    assert!(p.flags().zero);
}

#[test]
fn add_flags_follow_result() {
    for (a, b) in [(0u16, 0u16), (1, 2), (0x7fff, 1), (0xffff, 1), (0x8000, 0x8000), (0x1234, 0xfedc)] {
        let mut p = Processor::new();
        p.load_rom(&[r3(BinaryOp::Add, 2, 0, 1)]);
        p.set_register(0, a);
        p.set_register(1, b);
        p.tick().unwrap();
        let r = p.register(2);
        assert_eq!(r, a.wrapping_add(b));
        assert_eq!(p.flags().zero, r == 0);
        assert_eq!(p.flags().sign, r & 0x8000 != 0);
        assert_eq!(p.flags().carry, (a as u32 + b as u32) > 0xffff);
    }
}

#[test]
fn subtract_then_add_restores() {
    for (a, b) in [(5u16, 7u16), (0, 0xffff), (0x8000, 1), (1234, 1234)] {
        let mut p = Processor::new();
        p.load_rom(&[r3(BinaryOp::Subtract, 0, 0, 1), r3(BinaryOp::Add, 0, 0, 1)]);
        p.set_register(0, a);
        p.set_register(1, b);
        assert_eq!(p.run(false), Ok(2));
        assert_eq!(p.register(0), a);
    }
}

#[test]
fn alu_binary_values() {
    assert_eq!(alu_binary(BinaryOp::Add, 0xffff, 2), (1, true));
    assert_eq!(alu_binary(BinaryOp::Add, 3, 4), (7, false));
    assert_eq!(alu_binary(BinaryOp::Subtract, 3, 4), (0xffff, true));
    assert_eq!(alu_binary(BinaryOp::Subtract, 10, 4), (6, false));
    assert_eq!(alu_binary(BinaryOp::And, 0b1100, 0b1010), (0b1000, false));
    assert_eq!(alu_binary(BinaryOp::Or, 0b1100, 0b1010), (0b1110, false));
}

#[test]
fn alu_unary_values() {
    assert_eq!(alu_unary(UnaryOp::Increment, 0xffff), (0, true));
    assert_eq!(alu_unary(UnaryOp::Increment, 41), (42, false));
    assert_eq!(alu_unary(UnaryOp::Decrement, 0), (0xffff, true));
    assert_eq!(alu_unary(UnaryOp::Decrement, 42), (41, false));
    assert_eq!(alu_unary(UnaryOp::ShiftLeftLogical, 0x8001), (2, true));
    assert_eq!(alu_unary(UnaryOp::ShiftRightLogical, 0x8001), (0x4000, true));
    assert_eq!(alu_unary(UnaryOp::ShiftLeftArithmetic, 0x4000), (0x8000, true));
    assert_eq!(alu_unary(UnaryOp::ShiftLeftArithmetic, 0xc000), (0x8000, false));
    assert_eq!(alu_unary(UnaryOp::ShiftRightArithmetic, 0x8002), (0xc001, false));
    assert_eq!(alu_unary(UnaryOp::ShiftRightArithmetic, 0x0003), (0x0001, true));
}

#[test]
fn move_load_store_keep_flags() {
    let mut p = Processor::new();
    p.load_ram(&[0, 77]);
    p.load_rom(&[
        r2(UnaryOp::Decrement, 0, 0),
        r2(UnaryOp::Increment, 1, 1),
        r2(UnaryOp::Load, 2, 1),
        r2(UnaryOp::Move, 3, 2),
        r2(UnaryOp::Store, 3, 3),
    ]);
    p.tick().unwrap();
    let after_dec = p.flags();
    assert!(after_dec.carry && after_dec.sign);
    p.tick().unwrap();
    let after_inc = p.flags();
    p.tick().unwrap();
    assert_eq!(p.register(2), 77);
    p.tick().unwrap();
    assert_eq!(p.register(3), 77);
    p.tick().unwrap();
    assert_eq!(p.ram_word(77), 77);
    assert_eq!(p.flags(), after_inc);
}

#[test]
fn load_out_of_range_faults() {
    let mut p = Processor::new();
    p.load_rom(&[r2(UnaryOp::Load, 0, 1)]);
    p.set_register(1, RAM_SIZE as u16);
    assert_eq!(p.tick(), Err(EmulationFault::MemoryAddressOutOfBounds));
    assert_eq!(p.program_counter(), 0);
    assert_eq!(p.run(false), Err(EmulationFault::MemoryAddressOutOfBounds));
}

#[test]
fn store_out_of_range_faults() {
    let mut p = Processor::new();
    p.load_rom(&[r2(UnaryOp::Store, 0, 1)]);
    p.set_register(1, 0xffff);
    assert_eq!(p.run(true), Err(EmulationFault::MemoryAddressOutOfBounds));
}

#[test]
fn bad_register_faults() {
    let mut p = Processor::new();
    p.load_rom(&[r3(BinaryOp::Add, 16, 0, 1)]);
    assert_eq!(p.tick(), Err(EmulationFault::InvalidEncodedInstruction));
}

#[test]
fn program_counter_jump_overrides() {
    let mut p = Processor::new();
    p.load_rom(&[r2(UnaryOp::Increment, 0, 0), r2(UnaryOp::Increment, 1, 1)]);
    p.program_counter_jump(1);
    p.tick().unwrap();
    assert_eq!(p.register(0), 0);
    assert_eq!(p.register(1), 1);
    p.program_counter_jump(100);
    assert_eq!(p.run(false), Ok(0));
}

#[test]
fn conditional_jumps() {
    let mut p = Processor::new();
    // r0 = 0xffff via decrement: sign and carry set, zero clear.
    p.load_rom(&[
        r2(UnaryOp::Decrement, 0, 0),
        jump(JumpCondition::IfSign, 3),
        r2(UnaryOp::Increment, 5, 5),
        jump(JumpCondition::IfNotCarry, 6),
        jump(JumpCondition::IfZero, 6),
        jump(JumpCondition::Always, 7),
        r2(UnaryOp::Increment, 6, 6),
    ]);
    assert_eq!(p.run(false), Ok(5));
    assert_eq!(p.register(5), 0);
    assert_eq!(p.register(6), 0);
    assert_eq!(p.program_counter(), 7);
}

#[test]
fn radix_is_kept() {
    let mut p = Processor::new();
    assert_eq!(p.radix(), DisplayRadix::Decimal(DisplaySigned::Unsigned));
    p.set_radix(DisplayRadix::Hexadecimal);
    assert_eq!(p.radix(), DisplayRadix::Hexadecimal);
}
