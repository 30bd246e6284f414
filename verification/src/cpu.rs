use vstd::prelude::*;
use crate::mem::{Memory, MemoryCell};
use crate::parse::{parse_program, parse_program_spec};

verus! {

/// A decoded instruction: a closed set of variants, each carrying exactly the
/// operands it needs. Register operands are raw indices into the register
/// bank; the second operand of `LD` is a literal byte, not an index.
#[derive(PartialEq, Eq, Structural, Clone, Copy, Debug)]
pub enum OpCode {
    ADD(u8, u8),
    SUB(u8, u8),
    LD(u8, u8),
    LDA(u8, u8),
    AND(u8, u8),
    OR(u8, u8),
    XOR(u8, u8),
    OUT(u8),
    NOT(u8),
    HLT,
}

/// The eight general-purpose registers, R0 through R7. R0 is the implicit
/// destination of every binary ALU result.
#[derive(PartialEq, Eq, Structural, Clone, Copy, Debug)]
pub enum Register {
    R0,
    R1,
    R2,
    R3,
    R4,
    R5,
    R6,
    R7,
}

/// The position a register occupies in the register bank.
pub open spec fn reg_index(r: Register) -> int {
    match r {
        Register::R0 => 0,
        Register::R1 => 1,
        Register::R2 => 2,
        Register::R3 => 3,
        Register::R4 => 4,
        Register::R5 => 5,
        Register::R6 => 6,
        Register::R7 => 7,
    }
}

impl Register {
    /// The index of this register in the register bank; always below 8.
    pub fn index(&self) -> (i: usize)
        ensures
            i == reg_index(*self),
    {
        match self {
            Register::R0 => 0,
            Register::R1 => 1,
            Register::R2 => 2,
            Register::R3 => 3,
            Register::R4 => 4,
            Register::R5 => 5,
            Register::R6 => 6,
            Register::R7 => 7,
        }
    }
}

/// Every way a load or a run can fail. All failures are fatal: the caller is
/// expected to abort the whole run.
#[derive(PartialEq, Eq, Structural, Clone, Copy, Debug)]
pub enum VmError {
    /// A source line whose mnemonic is not one of the recognized ten.
    InvalidMnemonic,
    /// An operand token that is not an unsigned decimal byte in 0..=255.
    InvalidOperand,
    /// A fetch addressed a cell of the wrong kind (a data cell).
    MemoryTypeViolation,
    /// A decoded register index of 8 or more reached the register bank.
    RegisterIndexViolation,
    /// An ADD or SUB result left the 8-bit range.
    ArithmeticOverflow,
}

/// Whether every register operand of `op` is a valid index into the
/// register bank. The second operand of `LD` is a literal, never an index.
pub open spec fn regs_ok(op: OpCode) -> bool {
    match op {
        OpCode::ADD(a, b) => a < 8 && b < 8,
        OpCode::SUB(a, b) => a < 8 && b < 8,
        OpCode::LD(a, _) => a < 8,
        OpCode::LDA(a, b) => a < 8 && b < 8,
        OpCode::AND(a, b) => a < 8 && b < 8,
        OpCode::OR(a, b) => a < 8 && b < 8,
        OpCode::XOR(a, b) => a < 8 && b < 8,
        OpCode::OUT(a) => a < 8,
        OpCode::NOT(a) => a < 8,
        OpCode::HLT => true,
    }
}

/// Whether executing `op` on `regs` would take an ADD sum above 255 or a SUB
/// difference below 0. Arithmetic is checked, never wrapping: such a step
/// fails instead of producing a truncated byte.
pub open spec fn alu_overflow(regs: Seq<u8>, op: OpCode) -> bool {
    match op {
        OpCode::ADD(a, b) => regs[a as int] + regs[b as int] > 255,
        OpCode::SUB(a, b) => regs[a as int] < regs[b as int],
        _ => false,
    }
}

/// The register bank after one instruction, for an instruction whose
/// operands are in range and whose arithmetic does not overflow. Binary ALU
/// results land in R0; `LD` and `LDA` write their first operand's register;
/// `OUT` and `HLT` leave the bank unchanged. `NOT` is a truthiness
/// inversion, not a bitwise complement.
pub open spec fn step_regs(regs: Seq<u8>, op: OpCode) -> Seq<u8> {
    match op {
        OpCode::ADD(a, b) => regs.update(0, (regs[a as int] + regs[b as int]) as u8),
        OpCode::SUB(a, b) => regs.update(0, (regs[a as int] - regs[b as int]) as u8),
        OpCode::LD(a, v) => regs.update(a as int, v),
        OpCode::LDA(a, b) => regs.update(a as int, regs[b as int]),
        OpCode::AND(a, b) => regs.update(0, regs[a as int] & regs[b as int]),
        OpCode::OR(a, b) => regs.update(0, regs[a as int] | regs[b as int]),
        OpCode::XOR(a, b) => regs.update(0, regs[a as int] ^ regs[b as int]),
        OpCode::OUT(_) => regs,
        OpCode::NOT(a) => regs.update(0, if regs[a as int] == 0 { 1u8 } else { 0u8 }),
        OpCode::HLT => regs,
    }
}

/// The value one instruction emits: `OUT r` emits the byte in register `r`;
/// every other instruction emits nothing.
pub open spec fn step_out(regs: Seq<u8>, op: OpCode) -> Option<u8> {
    match op {
        OpCode::OUT(a) => Some(regs[a as int]),
        _ => None,
    }
}

/// The emitted values of one instruction as a sequence: empty or one byte.
pub open spec fn step_out_seq(regs: Seq<u8>, op: OpCode) -> Seq<u8> {
    match step_out(regs, op) {
        Some(v) => seq![v],
        None => Seq::empty(),
    }
}

/// How a run ended.
#[derive(PartialEq, Eq, Structural, Clone, Copy, Debug)]
pub enum RunStatus {
    /// The program counter advanced past the last memory cell.
    Ended,
    /// An HLT instruction was fetched.
    Halted,
    /// A fatal fault; the whole run is aborted.
    Failed(VmError),
}

/// Everything observable about a finished run: the final program counter and
/// register bank, the emitted values in execution order, and how it ended.
pub struct RunOutcome {
    pub pc: int,
    pub regs: Seq<u8>,
    pub output: Seq<u8>,
    pub status: RunStatus,
}

/// The fetch-decode-execute loop as one mathematical function: the outcome
/// of running `mem` from program counter `pc` with register bank `regs`.
///
/// Each cycle fetches the cell at `pc`, advances `pc` by exactly 1, and
/// executes the instruction; the loop stops at an HLT, at the end of memory,
/// or at the first fault. A fetch that hits a data cell faults before the
/// counter advances; faults inside an instruction come after it.
pub open spec fn run_from(mem: Seq<MemoryCell>, pc: nat, regs: Seq<u8>) -> RunOutcome
    decreases mem.len() - pc,
{
    if pc >= mem.len() {
        RunOutcome { pc: pc as int, regs, output: Seq::empty(), status: RunStatus::Ended }
    } else {
        match mem[pc as int] {
            MemoryCell::Data(_) => RunOutcome {
                pc: pc as int,
                regs,
                output: Seq::empty(),
                status: RunStatus::Failed(VmError::MemoryTypeViolation),
            },
            MemoryCell::Instruction(op) => {
                if !regs_ok(op) {
                    RunOutcome {
                        pc: pc + 1 as int,
                        regs,
                        output: Seq::empty(),
                        status: RunStatus::Failed(VmError::RegisterIndexViolation),
                    }
                } else if alu_overflow(regs, op) {
                    RunOutcome {
                        pc: pc + 1 as int,
                        regs,
                        output: Seq::empty(),
                        status: RunStatus::Failed(VmError::ArithmeticOverflow),
                    }
                } else if op is HLT {
                    RunOutcome { pc: pc + 1 as int, regs, output: Seq::empty(), status: RunStatus::Halted }
                } else {
                    let rest = run_from(mem, pc + 1, step_regs(regs, op));
                    RunOutcome {
                        pc: rest.pc,
                        regs: rest.regs,
                        output: step_out_seq(regs, op) + rest.output,
                        status: rest.status,
                    }
                }
            },
        }
    }
}

/// The processor: a unified memory, a program counter that only ever moves
/// forward, and eight byte-wide registers, all zero at construction.
pub struct CPU {
    pub memory: Memory,
    pub pc: usize,
    pub regs: [u8; 8],
}

impl CPU {
    /// A fresh processor: empty memory, program counter 0, all registers 0.
    pub fn new() -> (cpu: CPU)
        ensures
            cpu.memory@ == Seq::<MemoryCell>::empty(),
            cpu.pc == 0,
            cpu.regs@ == seq![0u8, 0u8, 0u8, 0u8, 0u8, 0u8, 0u8, 0u8],
    {
        let cpu = CPU { memory: Memory::new(), pc: 0, regs: [0; 8] };
        proof {
            assert(cpu.regs@ =~= seq![0u8, 0u8, 0u8, 0u8, 0u8, 0u8, 0u8, 0u8]);
        }
        cpu
    }

    /// Stores `value` in `register`, leaving every other register, the
    /// program counter and the memory as they were.
    pub fn set_reg(&mut self, register: Register, value: u8)
        ensures
            final(self).regs@ == old(self).regs@.update(reg_index(register), value),
            final(self).pc == old(self).pc,
            final(self).memory == old(self).memory,
    {
        let register_number = register.index();
        self.regs[register_number] = value;
    }

    /// One fetch cycle: the instruction at the program counter, which then
    /// advances by exactly 1.
    pub fn fetch(&mut self) -> (op: OpCode)
        requires
            old(self).pc < old(self).memory@.len(),
            old(self).memory@[old(self).pc as int] is Instruction,
        ensures
            old(self).memory@[old(self).pc as int] == MemoryCell::Instruction(op),
            final(self).pc == old(self).pc + 1,
            final(self).regs == old(self).regs,
            final(self).memory == old(self).memory,
    {
        let instruction = self.memory.fetch(self.pc);
        proof {
            self.memory.lemma_len_fits();
        }
        self.pc += 1;
        instruction
    }

    /// Executes one decoded instruction against the register bank.
    ///
    /// Returns `Ok(Some(v))` when the instruction emits the value `v` (only
    /// `OUT` does), `Ok(None)` for every other successful instruction, and
    /// an error — with the bank untouched — when a register operand is out
    /// of range or checked ADD/SUB arithmetic leaves the 8-bit range.
    pub fn decode_and_execute(&mut self, instruction: OpCode) -> (r: Result<Option<u8>, VmError>)
        ensures
            final(self).pc == old(self).pc,
            final(self).memory == old(self).memory,
            !regs_ok(instruction) ==> r == Err::<Option<u8>, VmError>(
                VmError::RegisterIndexViolation,
            ) && final(self).regs == old(self).regs,
            regs_ok(instruction) && alu_overflow(old(self).regs@, instruction) ==> r == Err::<
                Option<u8>,
                VmError,
            >(VmError::ArithmeticOverflow) && final(self).regs == old(self).regs,
            regs_ok(instruction) && !alu_overflow(old(self).regs@, instruction) ==> r == Ok::<
                Option<u8>,
                VmError,
            >(step_out(old(self).regs@, instruction)) && final(self).regs@ == step_regs(
                old(self).regs@,
                instruction,
            ),
    {
        match instruction {
            OpCode::ADD(a, b) => {
                if a >= 8 || b >= 8 {
                    return Err(VmError::RegisterIndexViolation);
                }
                let reg1 = self.regs[a as usize];
                let reg2 = self.regs[b as usize];
                match reg1.checked_add(reg2) {
                    Some(sum) => {
                        self.regs[0] = sum;
                        Ok(None)
                    },
                    None => Err(VmError::ArithmeticOverflow),
                }
            },
            OpCode::SUB(a, b) => {
                if a >= 8 || b >= 8 {
                    return Err(VmError::RegisterIndexViolation);
                }
                let reg1 = self.regs[a as usize];
                let reg2 = self.regs[b as usize];
                match reg1.checked_sub(reg2) {
                    Some(difference) => {
                        self.regs[0] = difference;
                        Ok(None)
                    },
                    None => Err(VmError::ArithmeticOverflow),
                }
            },
            OpCode::LD(a, b) => {
                if a >= 8 {
                    return Err(VmError::RegisterIndexViolation);
                }
                self.regs[a as usize] = b;
                Ok(None)
            },
            OpCode::LDA(a, b) => {
                if a >= 8 || b >= 8 {
                    return Err(VmError::RegisterIndexViolation);
                }
                let reg1 = self.regs[b as usize];
                self.regs[a as usize] = reg1;
                Ok(None)
            },
            OpCode::AND(a, b) => {
                if a >= 8 || b >= 8 {
                    return Err(VmError::RegisterIndexViolation);
                }
                let reg1 = self.regs[a as usize];
                let reg2 = self.regs[b as usize];
                self.regs[0] = reg1 & reg2;
                Ok(None)
            },
            OpCode::OR(a, b) => {
                if a >= 8 || b >= 8 {
                    return Err(VmError::RegisterIndexViolation);
                }
                let reg1 = self.regs[a as usize];
                let reg2 = self.regs[b as usize];
                self.regs[0] = reg1 | reg2;
                Ok(None)
            },
            OpCode::XOR(a, b) => {
                if a >= 8 || b >= 8 {
                    return Err(VmError::RegisterIndexViolation);
                }
                let reg1 = self.regs[a as usize];
                let reg2 = self.regs[b as usize];
                self.regs[0] = reg1 ^ reg2;
                Ok(None)
            },
            OpCode::OUT(a) => {
                if a >= 8 {
                    return Err(VmError::RegisterIndexViolation);
                }
                let reg1 = self.regs[a as usize];
                Ok(Some(reg1))
            },
            OpCode::NOT(a) => {
                if a >= 8 {
                    return Err(VmError::RegisterIndexViolation);
                }
                let reg1 = self.regs[a as usize];
                self.regs[0] = if reg1 == 0 { 1 } else { 0 };
                Ok(None)
            },
            OpCode::HLT => Ok(None),
        }
    }

    /// The execute phase: fetch-decode-execute from the current program
    /// counter until an HLT, the end of memory, or the first fault.
    ///
    /// Returns the emitted values in execution order, or the fault; the
    /// final counter and register bank are exactly those of `run_from` on
    /// the starting state.
    pub fn execute(&mut self) -> (r: Result<Vec<u8>, VmError>)
        ensures
            ({
                let o = run_from(old(self).memory@, old(self).pc as nat, old(self).regs@);
                &&& final(self).memory == old(self).memory
                &&& final(self).pc == o.pc
                &&& final(self).regs@ == o.regs
                &&& match o.status {
                    RunStatus::Failed(e) => r == Err::<Vec<u8>, VmError>(e),
                    _ => r matches Ok(v) && v@ == o.output,
                }
            }),
    {
        let ghost o = run_from(old(self).memory@, old(self).pc as nat, old(self).regs@);
        let mut out: Vec<u8> = Vec::new();
        proof {
            assert(o.output =~= out@ + o.output);
        }
        while self.pc < self.memory.len()
            invariant
                self.memory == old(self).memory,
                o == run_from(old(self).memory@, old(self).pc as nat, old(self).regs@),
                ({
                    let cur = run_from(self.memory@, self.pc as nat, self.regs@);
                    &&& o.pc == cur.pc
                    &&& o.regs == cur.regs
                    &&& o.status == cur.status
                    &&& o.output == out@ + cur.output
                }),
            decreases self.memory@.len() - self.pc,
        {
            let pc_before = self.pc;
            let ghost regs_before = self.regs@;
            let ghost out_head = out@;
            if !self.memory.is_instruction(pc_before) {
                proof {
                    assert(run_from(self.memory@, self.pc as nat, self.regs@).output
                        == Seq::<u8>::empty());
                    assert(o.output =~= out@);
                }
                return Err(VmError::MemoryTypeViolation);
            }
            let instruction = self.fetch();
            let emitted = match self.decode_and_execute(instruction) {
                Ok(e) => e,
                Err(fault) => {
                    return Err(fault);
                },
            };
            if let Some(value) = emitted {
                out.push(value);
            }
            proof {
                assert(run_from(self.memory@, pc_before as nat, regs_before) == (if instruction
                    is HLT {
                    RunOutcome {
                        pc: pc_before + 1,
                        regs: regs_before,
                        output: Seq::empty(),
                        status: RunStatus::Halted,
                    }
                } else {
                    let rest = run_from(self.memory@, (pc_before + 1) as nat, step_regs(
                        regs_before,
                        instruction,
                    ));
                    RunOutcome {
                        pc: rest.pc,
                        regs: rest.regs,
                        output: step_out_seq(regs_before, instruction) + rest.output,
                        status: rest.status,
                    }
                }));
                if instruction is HLT {
                    assert(o.output =~= out@);
                } else {
                    let rest = run_from(self.memory@, self.pc as nat, self.regs@);
                    assert(out@ =~= out_head + step_out_seq(regs_before, instruction));
                    assert(out_head + (step_out_seq(regs_before, instruction) + rest.output)
                        =~= out@ + rest.output);
                }
            }
            if instruction == OpCode::HLT {
                return Ok(out);
            }
        }
        proof {
            assert(o.output =~= out@);
        }
        Ok(out)
    }

    /// Loads a program text and runs it to the end.
    ///
    /// The source is parsed into instructions — one per non-blank line —
    /// which are appended to memory in line order, so that the Nth non-blank
    /// line occupies the Nth new memory address; then the execute phase runs
    /// from the current program counter. A parse error aborts before
    /// anything is loaded or executed, with the processor untouched; a fault
    /// during execution aborts the run with the fetched program kept in
    /// memory. On success the result is everything `OUT` emitted, in order.
    pub fn run(&mut self, source: &str) -> (r: Result<Vec<u8>, VmError>)
        ensures
            (match run_result(old(self).memory@, old(self).pc as nat, old(self).regs@, source@) {
                Ok(out) => r matches Ok(v) && v@ == out,
                Err(e) => r == Err::<Vec<u8>, VmError>(e),
            }),
            (match parse_program_spec(source@) {
                Err(_) => *final(self) == *old(self),
                Ok(prog) => ({
                    let o = run_from(
                        loaded_memory(old(self).memory@, prog),
                        old(self).pc as nat,
                        old(self).regs@,
                    );
                    &&& final(self).memory@ == loaded_memory(old(self).memory@, prog)
                    &&& final(self).pc == o.pc
                    &&& final(self).regs@ == o.regs
                }),
            }),
    {
        let program = match parse_program(source) {
            Ok(p) => p,
            Err(e) => {
                return Err(e);
            },
        };
        let mut i: usize = 0;
        while i < program.len()
            invariant
                i <= program@.len(),
                self.memory@ == old(self).memory@ + program@.subrange(0, i as int).map_values(
                    |op: OpCode| MemoryCell::Instruction(op),
                ),
                self.pc == old(self).pc,
                self.regs == old(self).regs,
            decreases program@.len() - i,
        {
            self.memory.push(program[i]);
            i = i + 1;
            proof {
                assert(program@.subrange(0, i as int) =~= program@.subrange(0, i - 1).push(
                    program@[i - 1],
                ));
                assert(self.memory@ =~= old(self).memory@ + program@.subrange(0, i as int)
                    .map_values(|op: OpCode| MemoryCell::Instruction(op)));
            }
        }
        proof {
            assert(program@.subrange(0, program@.len() as int) =~= program@);
            assert(self.memory@ =~= loaded_memory(old(self).memory@, program@));
        }
        self.execute()
    }
}

/// `mem` with the parsed program appended as instruction cells.
pub open spec fn loaded_memory(mem: Seq<MemoryCell>, prog: Seq<OpCode>) -> Seq<MemoryCell> {
    mem + prog.map_values(|op: OpCode| MemoryCell::Instruction(op))
}

/// What one whole `run` call returns, as a function of the machine's
/// starting state and the source text alone: the parse error if the text is
/// bad, otherwise the fault or the emitted output of executing the loaded
/// program.
pub open spec fn run_result(
    mem: Seq<MemoryCell>,
    pc: nat,
    regs: Seq<u8>,
    source: Seq<char>,
) -> Result<Seq<u8>, VmError> {
    match parse_program_spec(source) {
        Err(e) => Err(e),
        Ok(prog) => {
            let o = run_from(loaded_memory(mem, prog), pc, regs);
            match o.status {
                RunStatus::Failed(e) => Err(e),
                _ => Ok(o.output),
            }
        },
    }
}

} // verus!
