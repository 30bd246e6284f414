use vcpu::cpu::{OpCode, Register, VmError, CPU};
use vcpu::mem::Memory;
use vcpu::parse::parse_program;

#[test]
fn concrete_add_scenario() {
    let mut cpu = CPU::new();
    let result = cpu.run("LD 1 5\nLD 2 3\nADD 1 2\nOUT 0\nHLT");
    assert_eq!(result, Ok(vec![8u8]));
    assert_eq!(cpu.pc, 5);
}

#[test]
fn ld_out_round_trip() {
    let mut cpu = CPU::new();
    assert_eq!(cpu.run("LD 3 42\nOUT 3"), Ok(vec![42u8]));
}

#[test]
fn ld_out_round_trip_extremes() {
    let mut cpu = CPU::new();
    assert_eq!(cpu.run("LD 7 0\nOUT 7"), Ok(vec![0u8]));
    let mut cpu = CPU::new();
    assert_eq!(cpu.run("LD 0 255\nOUT 0"), Ok(vec![255u8]));
}

#[test]
fn lda_copies_without_altering_source() {
    let mut cpu = CPU::new();
    assert_eq!(cpu.run("LD 5 7\nLDA 2 5\nOUT 2\nOUT 5"), Ok(vec![7u8, 7u8]));
}

#[test]
fn bitwise_and_or_xor() {
    let mut cpu = CPU::new();
    assert_eq!(cpu.run("LD 1 12\nLD 2 10\nAND 1 2\nOUT 0"), Ok(vec![8u8]));
    let mut cpu = CPU::new();
    assert_eq!(cpu.run("LD 1 12\nLD 2 10\nOR 1 2\nOUT 0"), Ok(vec![14u8]));
    let mut cpu = CPU::new();
    assert_eq!(cpu.run("LD 1 12\nLD 2 10\nXOR 1 2\nOUT 0"), Ok(vec![6u8]));
}

#[test]
fn not_is_truthiness_inversion() {
    let mut cpu = CPU::new();
    assert_eq!(cpu.run("LD 1 0\nNOT 1\nOUT 0"), Ok(vec![1u8]));
    let mut cpu = CPU::new();
    assert_eq!(cpu.run("LD 1 255\nNOT 1\nOUT 0"), Ok(vec![0u8]));
    let mut cpu = CPU::new();
    assert_eq!(cpu.run("LD 1 1\nNOT 1\nOUT 0"), Ok(vec![0u8]));
}

#[test]
fn add_at_the_byte_boundary_succeeds() {
    let mut cpu = CPU::new();
    assert_eq!(cpu.run("LD 1 255\nLD 2 0\nADD 1 2\nOUT 0"), Ok(vec![255u8]));
}

#[test]
fn bitwise_extremes() {
    let mut cpu = CPU::new();
    assert_eq!(cpu.run("LD 1 255\nLD 2 0\nXOR 1 2\nOUT 0"), Ok(vec![255u8]));
    let mut cpu = CPU::new();
    assert_eq!(cpu.run("LD 1 255\nLD 2 0\nAND 1 2\nOUT 0"), Ok(vec![0u8]));
}

#[test]
fn sub_of_equal_registers_is_zero() {
    let mut cpu = CPU::new();
    assert_eq!(cpu.run("LD 1 9\nSUB 1 1\nOUT 0"), Ok(vec![0u8]));
}

#[test]
fn sub_computes_difference() {
    let mut cpu = CPU::new();
    assert_eq!(cpu.run("LD 1 9\nLD 2 4\nSUB 1 2\nOUT 0"), Ok(vec![5u8]));
}

#[test]
fn add_operands_default_to_zero() {
    let mut cpu = CPU::new();
    assert_eq!(cpu.run("ADD\nOUT 0"), Ok(vec![0u8]));
}

#[test]
fn hlt_stops_before_later_output() {
    let mut cpu = CPU::new();
    assert_eq!(cpu.run("OUT 0\nHLT\nOUT 0"), Ok(vec![0u8]));
    assert_eq!(cpu.pc, 2);
}

#[test]
fn run_ends_at_end_of_memory() {
    let mut cpu = CPU::new();
    assert_eq!(cpu.run("LD 0 9\nOUT 0"), Ok(vec![9u8]));
    assert_eq!(cpu.pc, 2);
    assert_eq!(cpu.memory.len(), 2);
}

#[test]
fn runs_are_deterministic() {
    let source = "LD 1 5\nLD 2 3\nADD 1 2\nOUT 0\nOUT 1\nOUT 2\nHLT";
    let mut first = CPU::new();
    let mut second = CPU::new();
    assert_eq!(first.run(source), second.run(source));
}

#[test]
fn blank_lines_do_not_shift_addressing() {
    let with_blanks = "\nLD 1 5\n\nLD 2 3\n\n\nADD 1 2\nOUT 0\nHLT\n";
    let without_blanks = "LD 1 5\nLD 2 3\nADD 1 2\nOUT 0\nHLT";
    let mut first = CPU::new();
    let mut second = CPU::new();
    assert_eq!(first.run(with_blanks), Ok(vec![8u8]));
    assert_eq!(second.run(without_blanks), Ok(vec![8u8]));
    assert_eq!(first.memory.len(), second.memory.len());
}

#[test]
fn unknown_mnemonic_aborts_at_load_time() {
    let mut cpu = CPU::new();
    assert_eq!(cpu.run("FOO 1 2\nOUT 1"), Err(VmError::InvalidMnemonic));
    assert_eq!(cpu.pc, 0);
    assert_eq!(cpu.memory.len(), 0);
}

#[test]
fn lowercase_mnemonic_is_invalid() {
    let mut cpu = CPU::new();
    assert_eq!(cpu.run("add 1 2"), Err(VmError::InvalidMnemonic));
}

#[test]
fn whitespace_only_line_is_invalid() {
    let mut cpu = CPU::new();
    assert_eq!(cpu.run("  "), Err(VmError::InvalidMnemonic));
}

#[test]
fn operand_out_of_range_is_invalid() {
    let mut cpu = CPU::new();
    assert_eq!(cpu.run("LD 0 256"), Err(VmError::InvalidOperand));
}

#[test]
fn operand_with_letters_is_invalid() {
    let mut cpu = CPU::new();
    assert_eq!(cpu.run("LD 0 x1"), Err(VmError::InvalidOperand));
}

#[test]
fn bad_operand_reported_even_on_hlt() {
    let mut cpu = CPU::new();
    assert_eq!(cpu.run("HLT 300"), Err(VmError::InvalidOperand));
}

#[test]
fn empty_operand_between_double_spaces_is_invalid() {
    let mut cpu = CPU::new();
    assert_eq!(cpu.run("LD  5"), Err(VmError::InvalidOperand));
}

#[test]
fn register_index_violation_faults_at_execute_time() {
    let mut cpu = CPU::new();
    assert_eq!(cpu.run("ADD 8 0"), Err(VmError::RegisterIndexViolation));
    assert_eq!(cpu.memory.len(), 1);
    assert_eq!(cpu.pc, 1);
}

#[test]
fn add_overflow_faults() {
    let mut cpu = CPU::new();
    assert_eq!(
        cpu.run("LD 0 200\nLD 1 100\nADD 0 1"),
        Err(VmError::ArithmeticOverflow)
    );
}

#[test]
fn sub_underflow_faults() {
    let mut cpu = CPU::new();
    assert_eq!(
        cpu.run("LD 0 1\nLD 1 2\nSUB 0 1"),
        Err(VmError::ArithmeticOverflow)
    );
}

#[test]
fn fetching_a_data_cell_faults() {
    let mut cpu = CPU::new();
    cpu.memory.load(vec![7]);
    assert_eq!(cpu.run("OUT 0"), Err(VmError::MemoryTypeViolation));
}

#[test]
fn set_reg_seeds_a_register() {
    let mut cpu = CPU::new();
    cpu.set_reg(Register::R3, 77);
    assert_eq!(cpu.run("OUT 3"), Ok(vec![77u8]));
}

#[test]
fn fetch_advances_pc_by_exactly_one() {
    let mut cpu = CPU::new();
    cpu.memory.push(OpCode::OUT(4));
    cpu.memory.push(OpCode::HLT);
    assert_eq!(cpu.fetch(), OpCode::OUT(4));
    assert_eq!(cpu.pc, 1);
    assert_eq!(cpu.fetch(), OpCode::HLT);
    assert_eq!(cpu.pc, 2);
}

#[test]
fn decode_and_execute_reports_emitted_value() {
    let mut cpu = CPU::new();
    cpu.set_reg(Register::R1, 4);
    cpu.set_reg(Register::R2, 9);
    assert_eq!(cpu.decode_and_execute(OpCode::OUT(2)), Ok(Some(9)));
    assert_eq!(cpu.decode_and_execute(OpCode::ADD(1, 2)), Ok(None));
    assert_eq!(cpu.decode_and_execute(OpCode::OUT(0)), Ok(Some(13)));
    assert_eq!(
        cpu.decode_and_execute(OpCode::OUT(8)),
        Err(VmError::RegisterIndexViolation)
    );
}

#[test]
fn second_run_continues_from_the_halt() {
    let mut cpu = CPU::new();
    assert_eq!(cpu.run("LD 1 5\nOUT 1"), Ok(vec![5u8]));
    assert_eq!(cpu.run("OUT 1"), Ok(vec![5u8]));
    assert_eq!(cpu.memory.len(), 3);
}

#[test]
fn register_indices() {
    assert_eq!(Register::R0.index(), 0);
    assert_eq!(Register::R5.index(), 5);
    assert_eq!(Register::R7.index(), 7);
}

#[test]
fn memory_operations() {
    let mut memory = Memory::new();
    assert_eq!(memory.len(), 0);
    memory.load(vec![1, 2]);
    assert_eq!(memory.len(), 2);
    assert_eq!(memory.read(0), 1);
    assert_eq!(memory.read(1), 2);
    memory.write(1, 9);
    assert_eq!(memory.read(1), 9);
    memory.push(OpCode::HLT);
    assert_eq!(memory.len(), 3);
    assert_eq!(memory.fetch(2), OpCode::HLT);
    assert_eq!(memory.pop(), OpCode::HLT);
    assert_eq!(memory.len(), 2);
}

#[test]
fn write_may_retag_an_instruction_cell() {
    let mut memory = Memory::new();
    memory.push(OpCode::OUT(1));
    memory.write(0, 5);
    assert_eq!(memory.read(0), 5);
}

#[test]
fn parse_produces_line_ordered_opcodes() {
    assert_eq!(
        parse_program("LD 1 2\nADD 1 2\nHLT"),
        Ok(vec![OpCode::LD(1, 2), OpCode::ADD(1, 2), OpCode::HLT])
    );
}

#[test]
fn parse_empty_source_is_empty_program() {
    assert_eq!(parse_program(""), Ok(vec![]));
}

#[test]
fn parse_trims_surrounding_whitespace() {
    assert_eq!(parse_program("  LD 1 5 \r"), Ok(vec![OpCode::LD(1, 5)]));
}

#[test]
fn parse_ignores_tokens_past_the_third() {
    assert_eq!(parse_program("LD 1 5 9 9"), Ok(vec![OpCode::LD(1, 5)]));
}

#[test]
fn parse_unary_defaults() {
    assert_eq!(
        parse_program("OUT\nNOT\nHLT"),
        Ok(vec![OpCode::OUT(0), OpCode::NOT(0), OpCode::HLT])
    );
}

#[test]
fn parse_rejects_signed_operand() {
    assert_eq!(parse_program("LD 0 +5"), Err(VmError::InvalidOperand));
}
