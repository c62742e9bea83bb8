use std::collections::HashSet;
use vstd::prelude::*;

use crate::isa::{
    alu_binary, alu_unary, binary_carry, binary_result, compute_flags, condition_holds,
    evaluate_condition, flags_for, unary_carry, unary_result, BinaryOp, Flags,
    Instruction, UnaryOp, RAM_SIZE, REGISTER_COUNT, ROM_SIZE,
};

verus! {

broadcast use vstd::std_specs::hash::group_hash_axioms;

/// A fault that stops execution.
#[derive(Clone, Copy, Debug, PartialEq, Eq, Structural)]
pub enum EmulationFault {
    /// A `Load` or `Store` addressed a word beyond the data memory.
    MemoryAddressOutOfBounds,
    /// An instruction names a register that does not exist.
    InvalidEncodedInstruction,
}

/// Whether a decimal value is rendered signed or unsigned.
#[derive(Clone, Copy, Debug, PartialEq, Eq, Structural)]
pub enum DisplaySigned {
    Unsigned,
    Signed,
}

/// How a host renders register values; it has no effect on execution.
#[derive(Clone, Copy, Debug, PartialEq, Eq, Structural)]
pub enum DisplayRadix {
    Decimal(DisplaySigned),
    Hexadecimal,
    Binary,
}

/// The part of the processor that instructions read and write.
pub struct CpuState {
    pub registers: Seq<u16>,
    pub flags: Flags,
    pub pc: usize,
    pub ram: Seq<u16>,
}

pub open spec fn cleared_flags() -> Flags {
    Flags { zero: false, sign: false, carry: false }
}

pub open spec fn zero_registers() -> Seq<u16> {
    Seq::new(REGISTER_COUNT as nat, |i: int| 0u16)
}

/// The state after power-on or reset, with the given data memory.
pub open spec fn initial_state(ram: Seq<u16>) -> CpuState {
    CpuState { registers: zero_registers(), flags: cleared_flags(), pc: 0, ram }
}

/// The data memory after loading `data`: the words of `data`, then zeros.
pub open spec fn loaded_ram(data: Seq<u16>) -> Seq<u16> {
    Seq::new(RAM_SIZE as nat, |i: int| if i < data.len() { data[i] } else { 0u16 })
}

pub open spec fn valid_register(r: u8) -> bool {
    r < REGISTER_COUNT
}

pub open spec fn with_register(s: CpuState, r: u8, v: u16, flags: Flags) -> CpuState {
    CpuState {
        registers: s.registers.update(r as int, v),
        flags,
        pc: (s.pc + 1) as usize,
        ram: s.ram,
    }
}

/// One fetch-decode-execute cycle. Past the end of `rom` nothing changes.
pub open spec fn step(s: CpuState, rom: Seq<Instruction>) -> Result<CpuState, EmulationFault> {
    if s.pc >= rom.len() {
        Ok(s)
    } else {
        match rom[s.pc as int] {
            Instruction::Jump { condition, target } => Ok(
                CpuState {
                    registers: s.registers,
                    flags: s.flags,
                    pc: if condition_holds(condition, s.flags) {
                        target
                    } else {
                        (s.pc + 1) as usize
                    },
                    ram: s.ram,
                },
            ),
            Instruction::RegOp3 { op, dest, src_a, src_b } => {
                if !valid_register(dest) || !valid_register(src_a) || !valid_register(src_b) {
                    Err(EmulationFault::InvalidEncodedInstruction)
                } else {
                    let a = s.registers[src_a as int];
                    let b = s.registers[src_b as int];
                    let r = binary_result(op, a, b);
                    Ok(with_register(s, dest, r, flags_for(r, binary_carry(op, a, b))))
                }
            },
            Instruction::RegOp2 { op, dest, src } => {
                if !valid_register(dest) || !valid_register(src) {
                    Err(EmulationFault::InvalidEncodedInstruction)
                } else {
                    let x = s.registers[src as int];
                    match op {
                        UnaryOp::Move => Ok(with_register(s, dest, x, s.flags)),
                        UnaryOp::Load => if x >= RAM_SIZE {
                            Err(EmulationFault::MemoryAddressOutOfBounds)
                        } else {
                            Ok(with_register(s, dest, s.ram[x as int], s.flags))
                        },
                        UnaryOp::Store => if x >= RAM_SIZE {
                            Err(EmulationFault::MemoryAddressOutOfBounds)
                        } else {
                            Ok(
                                CpuState {
                                    registers: s.registers,
                                    flags: s.flags,
                                    pc: (s.pc + 1) as usize,
                                    ram: s.ram.update(x as int, s.registers[dest as int]),
                                },
                            )
                        },
                        _ => {
                            let r = unary_result(op, x);
                            Ok(with_register(s, dest, r, flags_for(r, unary_carry(op, x))))
                        },
                    }
                }
            },
        }
    }
}

/// The outcome of `n` cycles from `s`; the first fault ends the sequence.
pub open spec fn run_steps(s: CpuState, rom: Seq<Instruction>, n: nat) -> Result<
    CpuState,
    EmulationFault,
>
    decreases n,
{
    if n == 0 {
        Ok(s)
    } else {
        match run_steps(s, rom, (n - 1) as nat) {
            Ok(t) => step(t, rom),
            Err(e) => Err(e),
        }
    }
}

/// Whether a run stops before executing the instruction at `s.pc`, after `done`
/// instructions: at the end of the program, or on a breakpoint once it has made progress.
pub open spec fn stops_at(
    s: CpuState,
    rom: Seq<Instruction>,
    breakpoints: Set<usize>,
    stop_at_breakpoints: bool,
    done: nat,
) -> bool {
    s.pc >= rom.len() || (stop_at_breakpoints && done >= 1 && breakpoints.contains(s.pc))
}

/// The run from `s` passes its first `n` stopping checks without stopping or faulting.
pub open spec fn runs_through(
    s: CpuState,
    rom: Seq<Instruction>,
    breakpoints: Set<usize>,
    stop_at_breakpoints: bool,
    n: nat,
) -> bool {
    forall|k: nat|
        k < n ==> {
            &&& #[trigger] run_steps(s, rom, k) is Ok
            &&& !stops_at(run_steps(s, rom, k)->Ok_0, rom, breakpoints, stop_at_breakpoints, k)
        }
}

/// The breakpoint set after toggling `line`.
pub open spec fn toggled(set: Set<usize>, line: usize) -> Set<usize> {
    if set.contains(line) {
        set.remove(line)
    } else {
        set.insert(line)
    }
}

/// Whether an instruction, whatever the state, executes without fault and passes
/// control to the next line.
pub open spec fn falls_through(i: Instruction) -> bool {
    match i {
        Instruction::Jump { .. } => false,
        Instruction::RegOp2 { op, dest, src } => valid_register(dest) && valid_register(src)
            && !(op is Load) && !(op is Store),
        Instruction::RegOp3 { dest, src_a, src_b, .. } => valid_register(dest) && valid_register(
            src_a,
        ) && valid_register(src_b),
    }
}

/// After any two-operand ALU instruction, `zero` holds exactly when the stored result
/// is zero and `sign` exactly when its high bit is set.
pub proof fn lemma_binary_flags(s: CpuState, rom: Seq<Instruction>)
    requires
        s.pc < rom.len(),
        rom[s.pc as int] is RegOp3,
        falls_through(rom[s.pc as int]),
        s.registers.len() == REGISTER_COUNT,
    ensures
        step(s, rom) is Ok,
        ({
            let t = step(s, rom)->Ok_0;
            let r = t.registers[rom[s.pc as int]->RegOp3_dest as int];
            &&& t.flags.zero == (r == 0)
            &&& t.flags.sign == ((r >> 15u16) & 1u16 == 1u16)
        }),
{
    let t = step(s, rom)->Ok_0;
    let r = t.registers[rom[s.pc as int]->RegOp3_dest as int];
    assert(((r >> 15u16) & 1u16 == 1u16) == (r >= 0x8000)) by (bit_vector);
}

/// Subtracting a register from another and then adding it back, in two consecutive
/// instructions, leaves the destination with its original value.
pub proof fn lemma_subtract_then_add(s: CpuState, rom: Seq<Instruction>, d: u8, b: u8)
    requires
        s.pc + 1 < rom.len(),
        rom.len() <= ROM_SIZE,
        valid_register(d),
        valid_register(b),
        d != b,
        s.registers.len() == REGISTER_COUNT,
        rom[s.pc as int] == (Instruction::RegOp3 { op: BinaryOp::Subtract, dest: d, src_a: d, src_b: b }),
        rom[s.pc + 1] == (Instruction::RegOp3 { op: BinaryOp::Add, dest: d, src_a: d, src_b: b }),
    ensures
        run_steps(s, rom, 2) is Ok,
        run_steps(s, rom, 2)->Ok_0.registers[d as int] == s.registers[d as int],
        run_steps(s, rom, 2)->Ok_0.pc == s.pc + 2,
{
    reveal_with_fuel(run_steps, 3);
    let x = s.registers[d as int];
    let y = s.registers[b as int];
    let mid = binary_result(BinaryOp::Subtract, x, y);
    assert(binary_result(BinaryOp::Add, mid, y) == x);
}

/// The state after `j` cycles of straight-line code starting at `s.pc`.
proof fn lemma_straight_line(s: CpuState, rom: Seq<Instruction>, j: nat)
    requires
        s.pc + j <= rom.len(),
        rom.len() <= ROM_SIZE,
        forall|i: int| s.pc <= i < s.pc + j ==> falls_through(#[trigger] rom[i]),
    ensures
        run_steps(s, rom, j) is Ok,
        run_steps(s, rom, j)->Ok_0.pc == s.pc + j,
    decreases j,
{
    if j > 0 {
        lemma_straight_line(s, rom, (j - 1) as nat);
        let t = run_steps(s, rom, (j - 1) as nat)->Ok_0;
        assert(falls_through(rom[t.pc as int]));
    }
}

/// A run that stops at breakpoints, started on straight-line code before a breakpoint
/// on line `l` with no breakpoint in between, executes the lines up to `l - 1` and
/// stops with the program counter on `l`: every count of instructions that the run
/// may report is `l - s.pc` and ends on line `l`, and no fault can end it.
pub proof fn lemma_run_stops_at_breakpoint(
    s: CpuState,
    rom: Seq<Instruction>,
    breakpoints: Set<usize>,
    l: usize,
)
    requires
        s.pc < l < rom.len(),
        rom.len() <= ROM_SIZE,
        breakpoints.contains(l),
        forall|i: usize| s.pc < i < l ==> !breakpoints.contains(i),
        forall|i: int| s.pc <= i < l ==> falls_through(#[trigger] rom[i]),
    ensures
        forall|n: nat|
            runs_through(s, rom, breakpoints, true, n) && (n == u64::MAX || (run_steps(
                s,
                rom,
                n,
            ) is Ok && stops_at(run_steps(s, rom, n)->Ok_0, rom, breakpoints, true, n)))
                ==> n == l - s.pc && run_steps(s, rom, n)->Ok_0.pc == l,
        forall|k: nat|
            !(runs_through(s, rom, breakpoints, true, k + 1) && run_steps(s, rom, k) is Ok && step(
                run_steps(s, rom, k)->Ok_0,
                rom,
            ) is Err),
{
    let d = (l - s.pc) as nat;
    assert forall|j: nat| j <= d implies #[trigger] run_steps(s, rom, j) is Ok && run_steps(
        s,
        rom,
        j,
    )->Ok_0.pc == s.pc + j by {
        lemma_straight_line(s, rom, j);
    }
    assert(run_steps(s, rom, d) is Ok);
    assert(stops_at(run_steps(s, rom, d)->Ok_0, rom, breakpoints, true, d));
    assert forall|n: nat|
        runs_through(s, rom, breakpoints, true, n) && (n == u64::MAX || (run_steps(
            s,
            rom,
            n,
        ) is Ok && stops_at(run_steps(s, rom, n)->Ok_0, rom, breakpoints, true, n)))
            implies n == l - s.pc && run_steps(s, rom, n)->Ok_0.pc == l by {
        if n > d {
            assert(run_steps(s, rom, d) is Ok);
        } else if n < d {
            assert(run_steps(s, rom, n)->Ok_0.pc == s.pc + n);
            if n >= 1 {
                assert(!breakpoints.contains((s.pc + n) as usize));
            }
        }
    }
    assert forall|k: nat|
        !(runs_through(s, rom, breakpoints, true, k + 1) && run_steps(s, rom, k) is Ok && step(
            run_steps(s, rom, k)->Ok_0,
            rom,
        ) is Err) by {
        if runs_through(s, rom, breakpoints, true, k + 1) {
            if k >= d {
                assert(run_steps(s, rom, d) is Ok);
            } else {
                let t = run_steps(s, rom, k)->Ok_0;
                assert(t.pc == s.pc + k);
                assert(falls_through(rom[t.pc as int]));
            }
        }
    }
}

/// Toggling the same line twice gives back the breakpoint set that was there before.
pub proof fn lemma_toggle_twice(set: Set<usize>, line: usize)
    ensures
        toggled(toggled(set, line), line) == set,
{
    assert(toggled(toggled(set, line), line) =~= set);
}

/// The simulated processor: registers, flags, program counter, memories and breakpoints.
pub struct Processor {
    registers: Vec<u16>,
    flags: Flags,
    pc: usize,
    ram: Vec<u16>,
    rom: Vec<Instruction>,
    breakpoints: HashSet<usize>,
    radix: DisplayRadix,
}

impl Processor {
    pub closed spec fn wf(&self) -> bool {
        &&& self.registers@.len() == REGISTER_COUNT
        &&& self.ram@.len() == RAM_SIZE
        &&& self.rom@.len() <= ROM_SIZE
    }

    /// The registers, flags, program counter and data memory.
    pub closed spec fn state(&self) -> CpuState {
        CpuState { registers: self.registers@, flags: self.flags, pc: self.pc, ram: self.ram@ }
    }

    pub closed spec fn rom_view(&self) -> Seq<Instruction> {
        self.rom@
    }

    pub closed spec fn breakpoint_set(&self) -> Set<usize> {
        self.breakpoints@
    }

    pub closed spec fn radix_view(&self) -> DisplayRadix {
        self.radix
    }

    /// A processor with zeroed registers and memory and an empty program.
    pub fn new() -> (p: Processor)
        ensures
            p.wf(),
            p.state() == initial_state(Seq::new(RAM_SIZE as nat, |i: int| 0u16)),
            p.rom_view().len() == 0,
            p.breakpoint_set().is_empty(),
            p.radix_view() == DisplayRadix::Decimal(DisplaySigned::Unsigned),
    {
        let p = Processor {
            registers: vec![0u16; REGISTER_COUNT],
            flags: Flags { zero: false, sign: false, carry: false },
            pc: 0,
            ram: vec![0u16; RAM_SIZE],
            rom: Vec::new(),
            breakpoints: HashSet::new(),
            radix: DisplayRadix::Decimal(DisplaySigned::Unsigned),
        };
        assert(p.state().registers =~= zero_registers());
        assert(p.state().ram =~= Seq::new(RAM_SIZE as nat, |i: int| 0u16));
        p
    }

    /// Restores registers, flags and program counter; memories and breakpoints stay.
    pub fn reset(&mut self)
        requires
            old(self).wf(),
        ensures
            final(self).wf(),
            final(self).state() == initial_state(old(self).state().ram),
            final(self).rom_view() == old(self).rom_view(),
            final(self).breakpoint_set() == old(self).breakpoint_set(),
            final(self).radix_view() == old(self).radix_view(),
    {
        self.registers = vec![0u16; REGISTER_COUNT];
        self.flags = Flags { zero: false, sign: false, carry: false };
        self.pc = 0;
        assert(self.registers@ =~= zero_registers());
    }

    /// Replaces the program and resets registers, flags and program counter.
    pub fn load_rom(&mut self, program: &[Instruction])
        requires
            old(self).wf(),
            program@.len() <= ROM_SIZE,
        ensures
            final(self).wf(),
            final(self).rom_view() == program@,
            final(self).state() == initial_state(old(self).state().ram),
            final(self).breakpoint_set() == old(self).breakpoint_set(),
            final(self).radix_view() == old(self).radix_view(),
    {
        let mut rom: Vec<Instruction> = Vec::new();
        let mut i: usize = 0;
        while i < program.len()
            invariant
                i <= program@.len(),
                rom@ == program@.subrange(0, i as int),
            decreases program@.len() - i,
        {
            rom.push(program[i]);
            i = i + 1;
            assert(rom@ =~= program@.subrange(0, i as int));
        }
        assert(rom@ =~= program@);
        self.rom = rom;
        self.reset();
    }

    /// Replaces the data memory by `data` followed by zeros, and resets registers,
    /// flags and program counter.
    pub fn load_ram(&mut self, data: &[u16])
        requires
            old(self).wf(),
            data@.len() <= RAM_SIZE,
        ensures
            final(self).wf(),
            final(self).state() == initial_state(loaded_ram(data@)),
            final(self).rom_view() == old(self).rom_view(),
            final(self).breakpoint_set() == old(self).breakpoint_set(),
            final(self).radix_view() == old(self).radix_view(),
    {
        let mut ram: Vec<u16> = Vec::new();
        let mut i: usize = 0;
        while i < RAM_SIZE
            invariant
                i <= RAM_SIZE,
                data@.len() <= RAM_SIZE,
                ram@ == loaded_ram(data@).subrange(0, i as int),
            decreases RAM_SIZE - i,
        {
            let v = if i < data.len() {
                data[i]
            } else {
                0u16
            };
            ram.push(v);
            i = i + 1;
            assert(ram@ =~= loaded_ram(data@).subrange(0, i as int));
        }
        assert(ram@ =~= loaded_ram(data@));
        self.ram = ram;
        self.reset();
    }

    /// Executes one instruction. At the end of the program nothing changes.
    pub fn tick(&mut self) -> (r: Result<(), EmulationFault>)
        requires
            old(self).wf(),
        ensures
            final(self).wf(),
            final(self).rom_view() == old(self).rom_view(),
            final(self).breakpoint_set() == old(self).breakpoint_set(),
            final(self).radix_view() == old(self).radix_view(),
            match step(old(self).state(), old(self).rom_view()) {
                Ok(s) => r is Ok && final(self).state() == s,
                Err(e) => r == Err::<(), EmulationFault>(e) && final(self).state() == old(
                    self,
                ).state(),
            },
    {
        if self.pc >= self.rom.len() {
            return Ok(());
        }
        let next = self.pc + 1;
        match self.rom[self.pc] {
            Instruction::Jump { condition, target } => {
                if evaluate_condition(condition, self.flags) {
                    self.pc = target;
                } else {
                    self.pc = next;
                }
                Ok(())
            },
            Instruction::RegOp3 { op, dest, src_a, src_b } => {
                if dest as usize >= REGISTER_COUNT || src_a as usize >= REGISTER_COUNT
                    || src_b as usize >= REGISTER_COUNT {
                    return Err(EmulationFault::InvalidEncodedInstruction);
                }
                let (v, carry) = alu_binary(
                    op,
                    self.registers[src_a as usize],
                    self.registers[src_b as usize],
                );
                self.registers.set(dest as usize, v);
                self.flags = compute_flags(v, carry);
                self.pc = next;
                Ok(())
            },
            Instruction::RegOp2 { op, dest, src } => {
                if dest as usize >= REGISTER_COUNT || src as usize >= REGISTER_COUNT {
                    return Err(EmulationFault::InvalidEncodedInstruction);
                }
                let x = self.registers[src as usize];
                match op {
                    UnaryOp::Move => {
                        self.registers.set(dest as usize, x);
                    },
                    UnaryOp::Load => {
                        if x as usize >= RAM_SIZE {
                            return Err(EmulationFault::MemoryAddressOutOfBounds);
                        }
                        let v = self.ram[x as usize];
                        self.registers.set(dest as usize, v);
                    },
                    UnaryOp::Store => {
                        if x as usize >= RAM_SIZE {
                            return Err(EmulationFault::MemoryAddressOutOfBounds);
                        }
                        let v = self.registers[dest as usize];
                        self.ram.set(x as usize, v);
                    },
                    _ => {
                        let (v, carry) = alu_unary(op, x);
                        self.registers.set(dest as usize, v);
                        self.flags = compute_flags(v, carry);
                    },
                }
                self.pc = next;
                Ok(())
            },
        }
    }
    /// Executes instructions until the program ends, a fault occurs or, when
    /// `stop_at_breakpoints` holds, the next instruction carries a breakpoint. The
    /// first instruction is always executed. Returns how many instructions ran.
    pub fn run(&mut self, stop_at_breakpoints: bool) -> (r: Result<u64, EmulationFault>)
        requires
            old(self).wf(),
        ensures
            final(self).wf(),
            final(self).rom_view() == old(self).rom_view(),
            final(self).breakpoint_set() == old(self).breakpoint_set(),
            final(self).radix_view() == old(self).radix_view(),
            match r {
                Ok(n) => {
                    &&& run_steps(old(self).state(), old(self).rom_view(), n as nat) == Ok::<
                        CpuState,
                        EmulationFault,
                    >(final(self).state())
                    &&& runs_through(
                        old(self).state(),
                        old(self).rom_view(),
                        old(self).breakpoint_set(),
                        stop_at_breakpoints,
                        n as nat,
                    )
                    &&& (stops_at(
                        final(self).state(),
                        old(self).rom_view(),
                        old(self).breakpoint_set(),
                        stop_at_breakpoints,
                        n as nat,
                    ) || n == u64::MAX)
                },
                Err(e) => exists|k: nat|
                    {
                        &&& run_steps(old(self).state(), old(self).rom_view(), k) == Ok::<
                            CpuState,
                            EmulationFault,
                        >(final(self).state())
                        &&& runs_through(
                            old(self).state(),
                            old(self).rom_view(),
                            old(self).breakpoint_set(),
                            stop_at_breakpoints,
                            k + 1,
                        )
                        &&& step(final(self).state(), old(self).rom_view()) == Err::<
                            CpuState,
                            EmulationFault,
                        >(e)
                    },
            },
    {
        let ghost start = self.state();
        let ghost rom = self.rom@;
        let ghost bps = self.breakpoints@;
        let mut count: u64 = 0;
        loop
            invariant
                self.wf(),
                self.rom@ == rom,
                self.breakpoints@ == bps,
                self.radix == old(self).radix,
                start == old(self).state(),
                rom == old(self).rom_view(),
                bps == old(self).breakpoint_set(),
                run_steps(start, rom, count as nat) == Ok::<CpuState, EmulationFault>(
                    self.state(),
                ),
                runs_through(start, rom, bps, stop_at_breakpoints, count as nat),
            decreases u64::MAX - count,
        {
            if self.pc >= self.rom.len() {
                return Ok(count);
            }
            if stop_at_breakpoints && count >= 1 && self.breakpoints.contains(&self.pc) {
                return Ok(count);
            }
            if count == u64::MAX {
                return Ok(count);
            }
            let ghost before = self.state();
            assert(!stops_at(before, rom, bps, stop_at_breakpoints, count as nat));
            assert(runs_through(start, rom, bps, stop_at_breakpoints, count as nat + 1)) by {
                assert forall|k: nat| k < count as nat + 1 implies {
                    &&& #[trigger] run_steps(start, rom, k) is Ok
                    &&& !stops_at(run_steps(start, rom, k)->Ok_0, rom, bps, stop_at_breakpoints, k)
                } by {
                    if k < count as nat {
                    }
                }
            }
            match self.tick() {
                Ok(()) => {},
                Err(e) => {
                    return Err(e);
                },
            }
            assert(run_steps(start, rom, (count + 1) as nat) == step(before, rom));
            count = count + 1;
        }
    }

    /// Adds `line` to the breakpoints if it is absent, and removes it otherwise.
    pub fn toggle_breakpoint(&mut self, line: usize)
        requires
            old(self).wf(),
        ensures
            final(self).wf(),
            final(self).breakpoint_set() == toggled(old(self).breakpoint_set(), line),
            final(self).state() == old(self).state(),
            final(self).rom_view() == old(self).rom_view(),
            final(self).radix_view() == old(self).radix_view(),
    {
        if self.breakpoints.contains(&line) {
            self.breakpoints.remove(&line);
        } else {
            self.breakpoints.insert(line);
        }
    }

    /// Removes every breakpoint.
    pub fn clear_breakpoints(&mut self)
        requires
            old(self).wf(),
        ensures
            final(self).wf(),
            final(self).breakpoint_set().is_empty(),
            final(self).state() == old(self).state(),
            final(self).rom_view() == old(self).rom_view(),
            final(self).radix_view() == old(self).radix_view(),
    {
        self.breakpoints.clear();
    }

    /// Sets the program counter to `line`, unchecked; nothing else changes.
    pub fn program_counter_jump(&mut self, line: usize)
        requires
            old(self).wf(),
        ensures
            final(self).wf(),
            final(self).state() == (CpuState { pc: line, ..old(self).state() }),
            final(self).rom_view() == old(self).rom_view(),
            final(self).breakpoint_set() == old(self).breakpoint_set(),
            final(self).radix_view() == old(self).radix_view(),
    {
        self.pc = line;
    }
    /// Selects how a host renders values; execution is unaffected.
    pub fn set_radix(&mut self, radix: DisplayRadix)
        requires
            old(self).wf(),
        ensures
            final(self).wf(),
            final(self).radix_view() == radix,
            final(self).state() == old(self).state(),
            final(self).rom_view() == old(self).rom_view(),
            final(self).breakpoint_set() == old(self).breakpoint_set(),
    {
        self.radix = radix;
    }

    /// Overwrites one register; flags and program counter are unchanged.
    pub fn set_register(&mut self, index: usize, value: u16)
        requires
            old(self).wf(),
            index < REGISTER_COUNT,
        ensures
            final(self).wf(),
            final(self).state() == (CpuState {
                registers: old(self).state().registers.update(index as int, value),
                ..old(self).state()
            }),
            final(self).rom_view() == old(self).rom_view(),
            final(self).breakpoint_set() == old(self).breakpoint_set(),
            final(self).radix_view() == old(self).radix_view(),
    {
        self.registers.set(index, value);
    }

    pub fn radix(&self) -> (r: DisplayRadix)
        ensures
            r == self.radix_view(),
    {
        self.radix
    }

    pub fn register(&self, index: usize) -> (r: u16)
        requires
            self.wf(),
            index < REGISTER_COUNT,
        ensures
            r == self.state().registers[index as int],
    {
        self.registers[index]
    }

    /// A copy of the register file.
    pub fn registers(&self) -> (r: Vec<u16>)
        ensures
            r@ == self.state().registers,
    {
        self.registers.clone()
    }

    pub fn flags(&self) -> (r: Flags)
        ensures
            r == self.state().flags,
    {
        self.flags
    }

    pub fn program_counter(&self) -> (r: usize)
        ensures
            r == self.state().pc,
    {
        self.pc
    }

    pub fn ram_word(&self, address: usize) -> (r: u16)
        requires
            self.wf(),
            address < RAM_SIZE,
        ensures
            r == self.state().ram[address as int],
    {
        self.ram[address]
    }

    pub fn program_len(&self) -> (r: usize)
        ensures
            r == self.rom_view().len(),
    {
        self.rom.len()
    }

    /// Whether the program counter has left the loaded program.
    pub fn is_finished(&self) -> (r: bool)
        ensures
            r == (self.state().pc >= self.rom_view().len()),
    {
        self.pc >= self.rom.len()
    }

    pub fn is_breakpoint(&self, line: usize) -> (r: bool)
        ensures
            r == self.breakpoint_set().contains(line),
    {
        self.breakpoints.contains(&line)
    }
}

} // verus!
