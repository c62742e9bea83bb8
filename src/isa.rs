use vstd::prelude::*;

verus! {

/// Number of general-purpose registers.
pub const REGISTER_COUNT: usize = 16;

/// Capacity of the data memory, in 16-bit words.
pub const RAM_SIZE: usize = 4096;

/// Capacity of the instruction memory, in instructions.
pub const ROM_SIZE: usize = 4096;

/// Condition under which a jump is taken.
#[derive(Clone, Copy, Debug, PartialEq, Eq, Structural)]
pub enum JumpCondition {
    Always,
    IfZero,
    IfSign,
    IfCarry,
    IfNotZero,
    IfNotSign,
    IfNotCarry,
}

/// Operations that read one source register and write one destination register.
#[derive(Clone, Copy, Debug, PartialEq, Eq, Structural)]
pub enum UnaryOp {
    Move,
    Increment,
    Decrement,
    ShiftLeftLogical,
    ShiftRightLogical,
    ShiftLeftArithmetic,
    ShiftRightArithmetic,
    Load,
    Store,
}

/// Operations that combine two source registers into a destination register.
#[derive(Clone, Copy, Debug, PartialEq, Eq, Structural)]
pub enum BinaryOp {
    Add,
    Subtract,
    And,
    Or,
}

/// An encoded instruction with resolved jump targets.
#[allow(inconsistent_fields)]
#[derive(Clone, Copy, Debug, PartialEq, Eq, Structural)]
pub enum Instruction {
    Jump { condition: JumpCondition, target: usize },
    RegOp2 { op: UnaryOp, dest: u8, src: u8 },
    RegOp3 { op: BinaryOp, dest: u8, src_a: u8, src_b: u8 },
}

/// Condition flags, recomputed by arithmetic, logic and shift instructions.
#[derive(Clone, Copy, Debug, PartialEq, Eq, Structural)]
pub struct Flags {
    pub zero: bool,
    pub sign: bool,
    pub carry: bool,
}

/// Largest value a register holds, plus one.
pub open spec fn word_range() -> int {
    0x10000
}

/// Reduces an integer to a 16-bit word, wrapping around.
pub open spec fn wrap16(v: int) -> u16 {
    (v % word_range()) as u16
}

pub open spec fn is_negative(v: u16) -> bool {
    v >= 0x8000
}

/// Flags that an instruction producing `result` with carry-out `carry` leaves behind.
pub open spec fn flags_for(result: u16, carry: bool) -> Flags {
    Flags { zero: result == 0, sign: is_negative(result), carry }
}

pub open spec fn condition_holds(c: JumpCondition, f: Flags) -> bool {
    match c {
        JumpCondition::Always => true,
        JumpCondition::IfZero => f.zero,
        JumpCondition::IfSign => f.sign,
        JumpCondition::IfCarry => f.carry,
        JumpCondition::IfNotZero => !f.zero,
        JumpCondition::IfNotSign => !f.sign,
        JumpCondition::IfNotCarry => !f.carry,
    }
}

pub open spec fn binary_result(op: BinaryOp, a: u16, b: u16) -> u16 {
    match op {
        BinaryOp::Add => wrap16(a + b),
        BinaryOp::Subtract => wrap16(a - b + word_range()),
        BinaryOp::And => a & b,
        BinaryOp::Or => a | b,
    }
}

/// Unsigned carry-out for `Add`, borrow for `Subtract`, cleared for the bitwise pair.
pub open spec fn binary_carry(op: BinaryOp, a: u16, b: u16) -> bool {
    match op {
        BinaryOp::Add => a + b >= word_range(),
        BinaryOp::Subtract => a < b,
        BinaryOp::And => false,
        BinaryOp::Or => false,
    }
}

pub open spec fn unary_result(op: UnaryOp, x: u16) -> u16 {
    match op {
        UnaryOp::Increment => wrap16(x + 1),
        UnaryOp::Decrement => wrap16(x - 1 + word_range()),
        UnaryOp::ShiftLeftLogical => wrap16(2 * x),
        UnaryOp::ShiftRightLogical => (x / 2) as u16,
        UnaryOp::ShiftLeftArithmetic => wrap16(2 * x),
        UnaryOp::ShiftRightArithmetic => (x / 2 + if is_negative(x) {
            0x8000int
        } else {
            0
        }) as u16,
        _ => x,
    }
}

/// Carry-out of a unary ALU operation: overflow for increment, borrow for decrement,
/// the bit shifted out for the logical shifts and the right arithmetic shift, and a
/// change of sign for the left arithmetic shift.
pub open spec fn unary_carry(op: UnaryOp, x: u16) -> bool {
    match op {
        UnaryOp::Increment => x == 0xffff,
        UnaryOp::Decrement => x == 0,
        UnaryOp::ShiftLeftLogical => is_negative(x),
        UnaryOp::ShiftRightLogical => x % 2 == 1,
        UnaryOp::ShiftLeftArithmetic => is_negative(x) != is_negative(wrap16(2 * x)),
        UnaryOp::ShiftRightArithmetic => x % 2 == 1,
        _ => false,
    }
}

/// Computes a two-operand ALU operation with wrapping arithmetic.
pub fn alu_binary(op: BinaryOp, a: u16, b: u16) -> (r: (u16, bool))
    ensures
        r.0 == binary_result(op, a, b),
        r.1 == binary_carry(op, a, b),
{
    match op {
        BinaryOp::Add => (a.wrapping_add(b), a > u16::MAX - b),
        BinaryOp::Subtract => (a.wrapping_sub(b), a < b),
        BinaryOp::And => (a & b, false),
        BinaryOp::Or => (a | b, false),
    }
}

/// Computes a one-operand ALU operation with wrapping arithmetic.
pub fn alu_unary(op: UnaryOp, x: u16) -> (r: (u16, bool))
    ensures
        r.0 == unary_result(op, x),
        r.1 == unary_carry(op, x),
{
    match op {
        UnaryOp::Increment => (x.wrapping_add(1), x == u16::MAX),
        UnaryOp::Decrement => (x.wrapping_sub(1), x == 0),
        UnaryOp::ShiftLeftLogical => (x.wrapping_add(x), x >= 0x8000),
        UnaryOp::ShiftRightLogical => (x / 2, x % 2 == 1),
        UnaryOp::ShiftLeftArithmetic => {
            let r = x.wrapping_add(x);
            (r, (x >= 0x8000) != (r >= 0x8000))
        },
        UnaryOp::ShiftRightArithmetic => {
            let r = if x >= 0x8000 {
                x / 2 + 0x8000
            } else {
                x / 2
            };
            (r, x % 2 == 1)
        },
        _ => (x, false),
    }
}

/// Flags after an ALU result, as the processor stores them.
pub fn compute_flags(result: u16, carry: bool) -> (f: Flags)
    ensures
        f == flags_for(result, carry),
{
    Flags { zero: result == 0, sign: result >= 0x8000, carry }
}

/// Whether a jump with condition `c` is taken under flags `f`.
pub fn evaluate_condition(c: JumpCondition, f: Flags) -> (r: bool)
    ensures
        r == condition_holds(c, f),
{
    match c {
        JumpCondition::Always => true,
        JumpCondition::IfZero => f.zero,
        JumpCondition::IfSign => f.sign,
        JumpCondition::IfCarry => f.carry,
        JumpCondition::IfNotZero => !f.zero,
        JumpCondition::IfNotSign => !f.sign,
        JumpCondition::IfNotCarry => !f.carry,
    }
}

} // verus!
