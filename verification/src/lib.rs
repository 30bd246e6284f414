//! A verified instruction-set simulator: a minimal virtual CPU that executes a
//! fixed, non-branching instruction set against a flat memory space in which
//! decoded instructions and raw data bytes share one linear address range.
//!
//! `mem` holds the unified memory model, `cpu` the processor with its
//! fetch-decode-execute loop, `parse` the textual assembler, and `laws` the
//! proved general properties of the machine.

pub mod cpu;
pub mod laws;
pub mod parse;
pub mod mem;
