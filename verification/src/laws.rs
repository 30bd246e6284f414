use vstd::prelude::*;
use crate::cpu::{run_from, run_result, step_regs, OpCode};
use crate::mem::MemoryCell;
use crate::parse::{parse_lines_spec, parse_program_spec, split_on, strip_blanks};

verus! {

/// Law: a run is deterministic. Its result is a mathematical function of
/// the program text and the machine's starting state alone, so two runs of
/// the same text from the same state — in particular from a fresh processor
/// with zeroed registers — return the same output sequence or the same
/// fault.
pub proof fn lemma_run_deterministic(
    mem1: Seq<MemoryCell>,
    pc1: nat,
    regs1: Seq<u8>,
    source1: Seq<char>,
    mem2: Seq<MemoryCell>,
    pc2: nat,
    regs2: Seq<u8>,
    source2: Seq<char>,
)
    requires
        mem1 == mem2,
        pc1 == pc2,
        regs1 == regs2,
        source1 == source2,
    ensures
        run_result(mem1, pc1, regs1, source1) == run_result(mem2, pc2, regs2, source2),
{
}

/// Law: the program counter only ever advances, one cell per fetch, and
/// execution halts exactly at an HLT or at the end of memory: a run that
/// ends with `Ended` left the counter at the memory length, and one that
/// ends with `Halted` fetched an HLT as its last instruction.
pub proof fn lemma_pc_advance_and_halt(mem: Seq<MemoryCell>, pc: nat, regs: Seq<u8>)
    requires
        pc <= mem.len(),
    ensures
        ({
            let o = run_from(mem, pc, regs);
            &&& pc <= o.pc <= mem.len()
            &&& (o.status is Ended ==> o.pc == mem.len())
            &&& (o.status is Halted ==> pc < o.pc && mem[o.pc - 1] == MemoryCell::Instruction(
                OpCode::HLT,
            ))
        }),
    decreases mem.len() - pc,
{
    if pc == mem.len() {
    } else {
        match mem[pc as int] {
            MemoryCell::Data(_) => {},
            MemoryCell::Instruction(op) => {
                if crate::cpu::regs_ok(op) && !crate::cpu::alu_overflow(regs, op) && !(op
                    is HLT) {
                    lemma_pc_advance_and_halt(mem, pc + 1, step_regs(regs, op));
                }
            },
        }
    }
}

/// Law: loading a literal and emitting it round-trips. For every register
/// `r` and value `v`, the two-instruction program `LD r, v` then `OUT r`
/// emits exactly `v` and runs off the end of memory.
pub proof fn lemma_ld_out_round_trip(r: u8, v: u8, regs: Seq<u8>)
    requires
        r < 8,
        regs.len() == 8,
    ensures
        ({
            let mem = seq![
                MemoryCell::Instruction(OpCode::LD(r, v)),
                MemoryCell::Instruction(OpCode::OUT(r)),
            ];
            let o = run_from(mem, 0, regs);
            &&& o.output == seq![v]
            &&& o.status is Ended
        }),
{
    let mem = seq![
        MemoryCell::Instruction(OpCode::LD(r, v)),
        MemoryCell::Instruction(OpCode::OUT(r)),
    ];
    let regs1 = step_regs(regs, OpCode::LD(r, v));
    assert(regs1[r as int] == v);
    let o2 = run_from(mem, 2, regs1);
    assert(o2.output == Seq::<u8>::empty());
    let o1 = run_from(mem, 1, regs1);
    assert(o1.output =~= seq![v]);
    assert(run_from(mem, 0, regs).output =~= seq![v]);
}

/// Law: a register-to-register move copies without disturbing its source.
/// `LDA d, s` makes register `d` hold what register `s` holds and leaves
/// register `s` as it was, so emitting both afterwards emits the same value
/// twice.
pub proof fn lemma_lda_copy(d: u8, s: u8, regs: Seq<u8>)
    requires
        d < 8,
        s < 8,
        regs.len() == 8,
    ensures
        step_regs(regs, OpCode::LDA(d, s))[d as int] == regs[s as int],
        step_regs(regs, OpCode::LDA(d, s))[s as int] == regs[s as int],
        ({
            let mem = seq![
                MemoryCell::Instruction(OpCode::LDA(d, s)),
                MemoryCell::Instruction(OpCode::OUT(d)),
                MemoryCell::Instruction(OpCode::OUT(s)),
            ];
            let o = run_from(mem, 0, regs);
            &&& o.output == seq![regs[s as int], regs[s as int]]
            &&& o.status is Ended
        }),
{
    let mem = seq![
        MemoryCell::Instruction(OpCode::LDA(d, s)),
        MemoryCell::Instruction(OpCode::OUT(d)),
        MemoryCell::Instruction(OpCode::OUT(s)),
    ];
    let regs1 = step_regs(regs, OpCode::LDA(d, s));
    assert(regs1[d as int] == regs[s as int]);
    assert(regs1[s as int] == regs[s as int]);
    let o3 = run_from(mem, 3, regs1);
    assert(o3.output == Seq::<u8>::empty());
    let o2 = run_from(mem, 2, regs1);
    assert(o2.output =~= seq![regs[s as int]]);
    let o1 = run_from(mem, 1, regs1);
    assert(o1.output =~= seq![regs[s as int], regs[s as int]]);
    assert(run_from(mem, 0, regs).output =~= seq![regs[s as int], regs[s as int]]);
}

/// The four-instruction program that loads `x` and `y` into registers 1 and
/// 2, applies `op` to them, and emits R0.
pub open spec fn binary_op_program(op: OpCode, x: u8, y: u8) -> Seq<MemoryCell> {
    seq![
        MemoryCell::Instruction(OpCode::LD(1, x)),
        MemoryCell::Instruction(OpCode::LD(2, y)),
        MemoryCell::Instruction(op),
        MemoryCell::Instruction(OpCode::OUT(0)),
    ]
}

/// What `binary_op_program(op, x, y)` emits, run on `regs`.
pub open spec fn binary_op_emits(op: OpCode, x: u8, y: u8, regs: Seq<u8>) -> Seq<u8> {
    run_from(binary_op_program(op, x, y), 0, regs).output
}

/// Law: the bitwise instructions compute the bitwise operators. For all
/// byte pairs, loading the two bytes into registers and applying `AND`,
/// `OR` or `XOR`, then emitting R0, emits exactly the conjunction,
/// disjunction or exclusive-or of the bytes.
pub proof fn lemma_bitwise_identities(x: u8, y: u8, regs: Seq<u8>)
    requires
        regs.len() == 8,
    ensures
        binary_op_emits(OpCode::AND(1, 2), x, y, regs) == seq![x & y],
        binary_op_emits(OpCode::OR(1, 2), x, y, regs) == seq![x | y],
        binary_op_emits(OpCode::XOR(1, 2), x, y, regs) == seq![x ^ y],
{
    lemma_binary_op_emits(OpCode::AND(1, 2), x, y, regs, x & y);
    lemma_binary_op_emits(OpCode::OR(1, 2), x, y, regs, x | y);
    lemma_binary_op_emits(OpCode::XOR(1, 2), x, y, regs, x ^ y);
}

/// One bitwise case of `lemma_bitwise_identities`: `op` over registers 1
/// and 2 leaves `expected` in R0, and the program emits exactly that.
proof fn lemma_binary_op_emits(op: OpCode, x: u8, y: u8, regs: Seq<u8>, expected: u8)
    requires
        regs.len() == 8,
        op == OpCode::AND(1, 2) || op == OpCode::OR(1, 2) || op == OpCode::XOR(1, 2),
        op == OpCode::AND(1, 2) ==> expected == (x & y),
        op == OpCode::OR(1, 2) ==> expected == (x | y),
        op == OpCode::XOR(1, 2) ==> expected == (x ^ y),
    ensures
        binary_op_emits(op, x, y, regs) == seq![expected],
{
    let mem = binary_op_program(op, x, y);
    let regs1 = step_regs(regs, OpCode::LD(1, x));
    let regs2 = step_regs(regs1, OpCode::LD(2, y));
    assert(regs2[1] == x);
    assert(regs2[2] == y);
    let regs3 = step_regs(regs2, op);
    assert(regs3[0] == expected);
    let o4 = run_from(mem, 4, regs3);
    assert(o4.output == Seq::<u8>::empty());
    let o3 = run_from(mem, 3, regs3);
    assert(o3.output =~= seq![expected]);
    let o2 = run_from(mem, 2, regs2);
    assert(o2.output =~= seq![expected]);
    let o1 = run_from(mem, 1, regs1);
    assert(o1.output =~= seq![expected]);
    assert(run_from(mem, 0, regs).output =~= seq![expected]);
}

/// Law: `NOT` is a truthiness inversion, not a bitwise complement. It
/// leaves 1 in R0 exactly when the inspected register holds 0, and 0 for
/// every non-zero byte.
pub proof fn lemma_not_truthiness(regs: Seq<u8>, r: u8)
    requires
        r < 8,
        regs.len() == 8,
    ensures
        step_regs(regs, OpCode::NOT(r))[0] == (if regs[r as int] == 0 {
            1u8
        } else {
            0u8
        }),
        step_regs(regs, OpCode::NOT(r))[0] == 1 <==> regs[r as int] == 0,
{
}

/// Law: blank lines do not shift instruction addressing. A line sequence
/// parses to exactly what it parses to with its blank lines removed, so a
/// source with blank lines interspersed loads the same program — and hence
/// produces the identical execution trace — as the source without them.
pub proof fn lemma_blank_lines_ignored(lines: Seq<Seq<char>>)
    ensures
        parse_lines_spec(lines) == parse_lines_spec(strip_blanks(lines)),
    decreases lines.len(),
{
    if lines.len() == 0 {
        assert(strip_blanks(lines) =~= Seq::<Seq<char>>::empty());
    } else {
        lemma_blank_lines_ignored(lines.drop_first());
        if lines[0].len() == 0 {
        } else {
            let stripped = seq![lines[0]] + strip_blanks(lines.drop_first());
            assert(stripped[0] == lines[0]);
            assert(stripped.drop_first() =~= strip_blanks(lines.drop_first()));
        }
    }
}

/// Law: two source texts whose non-blank lines agree parse to the same
/// program, whatever blank lines stand between them.
pub proof fn lemma_blank_lines_do_not_shift(s1: Seq<char>, s2: Seq<char>)
    requires
        strip_blanks(split_on(s1, '\n')) == strip_blanks(split_on(s2, '\n')),
    ensures
        parse_program_spec(s1) == parse_program_spec(s2),
{
    lemma_blank_lines_ignored(split_on(s1, '\n'));
    lemma_blank_lines_ignored(split_on(s2, '\n'));
}

} // verus!
