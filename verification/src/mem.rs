use vstd::prelude::*;
use crate::cpu::OpCode;

verus! {

/// One addressable slot: either a raw data byte or a decoded instruction.
/// A cell's kind never changes implicitly; only `Memory::write` may retag a
/// cell, and then always to a data cell.
#[derive(PartialEq, Eq, Structural, Clone, Copy, Debug)]
pub enum MemoryCell {
    Data(u8),
    Instruction(OpCode),
}

/// A single ordered, growable sequence of cells, zero-indexed and contiguous,
/// in which the loaded program's instructions and raw data bytes share one
/// linear index space.
pub struct Memory {
    memory: Vec<MemoryCell>,
}

impl View for Memory {
    type V = Seq<MemoryCell>;

    closed spec fn view(&self) -> Seq<MemoryCell> {
        self.memory@
    }
}

impl Memory {
    /// An empty memory. The capacity hint has no observable effect.
    pub fn new() -> (m: Self)
        ensures
            m@ == Seq::<MemoryCell>::empty(),
    {
        Self { memory: Vec::with_capacity(2048) }
    }

    /// Appends each byte as a data cell, in input order.
    pub fn load(&mut self, data: Vec<u8>)
        ensures
            final(self)@ == old(self)@ + data@.map_values(|b: u8| MemoryCell::Data(b)),
    {
        let mut i: usize = 0;
        while i < data.len()
            invariant
                i <= data@.len(),
                self@ == old(self)@ + data@.subrange(0, i as int).map_values(
                    |b: u8| MemoryCell::Data(b),
                ),
            decreases data@.len() - i,
        {
            let byte = data[i];
            self.memory.push(MemoryCell::Data(byte));
            i = i + 1;
            proof {
                assert(data@.subrange(0, i as int) =~= data@.subrange(0, i - 1).push(data@[i - 1]));
                assert(self@ =~= old(self)@ + data@.subrange(0, i as int).map_values(
                    |b: u8| MemoryCell::Data(b),
                ));
            }
        }
        proof {
            assert(data@.subrange(0, data@.len() as int) =~= data@);
        }
    }

    /// Returns the instruction at `pc`. The caller tracks the program
    /// counter; nothing here advances it.
    pub fn fetch(&mut self, pc: usize) -> (op: OpCode)
        requires
            pc < old(self)@.len(),
            old(self)@[pc as int] is Instruction,
        ensures
            *final(self) == *old(self),
            old(self)@[pc as int] == MemoryCell::Instruction(op),
    {
        let cell = self.memory[pc];
        match cell {
            MemoryCell::Instruction(instruction) => instruction,
            MemoryCell::Data(_) => unreached(),
        }
    }

    /// Appends an instruction cell, establishing the mapping from
    /// program-counter index to instruction.
    pub fn push(&mut self, instruction: OpCode)
        ensures
            final(self)@ == old(self)@.push(MemoryCell::Instruction(instruction)),
    {
        self.memory.push(MemoryCell::Instruction(instruction));
    }

    /// Removes and returns the instruction at the end of the sequence.
    /// Provided for symmetry with `push`; the run loop never calls it.
    pub fn pop(&mut self) -> (op: OpCode)
        requires
            old(self)@.len() > 0,
            old(self)@.last() is Instruction,
        ensures
            final(self)@ == old(self)@.drop_last(),
            old(self)@.last() == MemoryCell::Instruction(op),
    {
        match self.memory.pop() {
            Some(MemoryCell::Instruction(instruction)) => instruction,
            _ => unreached(),
        }
    }

    /// Returns the data byte at `address`.
    pub fn read(&mut self, address: usize) -> (byte: u8)
        requires
            address < old(self)@.len(),
            old(self)@[address as int] is Data,
        ensures
            *final(self) == *old(self),
            old(self)@[address as int] == MemoryCell::Data(byte),
    {
        let cell = self.memory[address];
        match cell {
            MemoryCell::Data(data) => data,
            MemoryCell::Instruction(_) => unreached(),
        }
    }

    /// Overwrites the cell at `address` with a data cell. This is the one
    /// sanctioned way a cell's kind may change: an instruction cell may be
    /// retagged as data.
    pub fn write(&mut self, address: usize, data: u8)
        requires
            address < old(self)@.len(),
        ensures
            final(self)@ == old(self)@.update(address as int, MemoryCell::Data(data)),
    {
        self.memory[address] = MemoryCell::Data(data);
    }

    /// Whether the cell at `index` is an instruction cell, so that a fetch
    /// there would be legal.
    pub fn is_instruction(&self, index: usize) -> (r: bool)
        requires
            index < self@.len(),
        ensures
            r == (self@[index as int] is Instruction),
    {
        match self.memory[index] {
            MemoryCell::Instruction(_) => true,
            MemoryCell::Data(_) => false,
        }
    }

    /// The cell count always fits a machine index, so an index below it can
    /// safely be incremented.
    pub proof fn lemma_len_fits(&self)
        ensures
            self@.len() <= usize::MAX,
    {
        broadcast use vstd::std_specs::vec::axiom_spec_len;

        assert(vstd::std_specs::vec::spec_vec_len(&self.memory) == self.memory@.len());
    }

    /// The current cell count.
    pub fn len(&self) -> (n: usize)
        ensures
            n == self@.len(),
    {
        self.memory.len()
    }
}

} // verus!
