//! Laws of generated programs.
use vstd::prelude::*;

use crate::insn_builder::{Arch, BpfCode, Cond, Endian, Insn, MemSize, Operation, PqrOp, Source};
use crate::semantic_aware::{
    calculate_length, code_of, divides_by_zero, emitted, fix_jump, is_skipped, is_start, jump_of,
    jump_offset, law_code_fills_the_slots, law_jumps_lead_to_instructions,
    lemma_position_increases, make_program, picked_slot, position, should_skip_instruction,
    step_back, FuzzProgram, FuzzedInstruction, FuzzedNonZeroSource, FuzzedSource, NonZeroImm,
    Register, SwapSize,
};
use crate::version::SBPFVersion;

verus! {

/// An operation on a register and a second operand is generated as the same operation, of the same
/// width, on the same operands.
pub proof fn law_arithmetic_is_kept(
    a: Arch,
    d: Register,
    s: FuzzedSource,
    jump: i16,
    only_verified: bool,
)
    ensures
        ({
            let dst = if only_verified {
                d.0 % 10
            } else {
                d.0 % 11
            };
            let (source, src, imm) = match s {
                FuzzedSource::Reg(r) => (Source::Reg, r.0 % 11, 0i64),
                FuzzedSource::Imm(value) => (Source::Imm, 0u8, value as i64),
            };
            &&& emitted(FuzzedInstruction::Add(a, d, s), jump, only_verified) == seq![
                Insn { operation: Operation::Add(source, a), dst, src, off: 0, imm },
            ]
            &&& emitted(FuzzedInstruction::Sub(a, d, s), jump, only_verified) == seq![
                Insn { operation: Operation::Sub(source, a), dst, src, off: 0, imm },
            ]
            &&& emitted(FuzzedInstruction::Mul(a, d, s), jump, only_verified) == seq![
                Insn { operation: Operation::Mul(source, a), dst, src, off: 0, imm },
            ]
            &&& emitted(FuzzedInstruction::BitOr(a, d, s), jump, only_verified) == seq![
                Insn { operation: Operation::BitOr(source, a), dst, src, off: 0, imm },
            ]
            &&& emitted(FuzzedInstruction::BitAnd(a, d, s), jump, only_verified) == seq![
                Insn { operation: Operation::BitAnd(source, a), dst, src, off: 0, imm },
            ]
            &&& emitted(FuzzedInstruction::BitXor(a, d, s), jump, only_verified) == seq![
                Insn { operation: Operation::BitXor(source, a), dst, src, off: 0, imm },
            ]
            &&& emitted(FuzzedInstruction::Mov(a, d, s), jump, only_verified) == seq![
                Insn { operation: Operation::Mov(source, a), dst, src, off: 0, imm },
            ]
        }),
{
}

/// A shift is generated as the same shift, of the same width. An immediate value is reduced to what is
/// left of it when all multiples of the width are taken away.
pub proof fn law_shifts_are_kept(
    a: Arch,
    d: Register,
    s: FuzzedSource,
    jump: i16,
    only_verified: bool,
)
    ensures
        ({
            let dst = if only_verified {
                d.0 % 10
            } else {
                d.0 % 11
            };
            let (source, src, imm) = match s {
                FuzzedSource::Reg(r) => (Source::Reg, r.0 % 11, 0i64),
                FuzzedSource::Imm(value) => (Source::Imm, 0u8, (value as int % if a is X64 {
                        64
                    } else {
                        32
                    }) as i64),
            };
            &&& emitted(FuzzedInstruction::LeftShift(a, d, s), jump, only_verified) == seq![
                Insn { operation: Operation::LeftShift(source, a), dst, src, off: 0, imm },
            ]
            &&& emitted(FuzzedInstruction::RightShift(a, d, s), jump, only_verified) == seq![
                Insn { operation: Operation::RightShift(source, a), dst, src, off: 0, imm },
            ]
            &&& emitted(FuzzedInstruction::SRS(a, d, s), jump, only_verified) == seq![
                Insn { operation: Operation::SignedRightShift(source, a), dst, src, off: 0, imm },
            ]
        }),
{
}

/// A division is generated as the same division, of the same width, on the same operands.
pub proof fn law_divisions_are_kept(
    op: PqrOp,
    a: Arch,
    d: Register,
    s: FuzzedNonZeroSource,
    jump: i16,
    only_verified: bool,
)
    ensures
        ({
            let dst = if only_verified {
                d.0 % 10
            } else {
                d.0 % 11
            };
            let (source, src, imm) = match s {
                FuzzedNonZeroSource::Reg(r) => (Source::Reg, r.0 % 11, 0i64),
                FuzzedNonZeroSource::Imm(value) => (Source::Imm, 0u8, value.spec_get() as i64),
            };
            &&& emitted(FuzzedInstruction::Div(a, d, s), jump, only_verified) == seq![
                Insn { operation: Operation::Div(source, a), dst, src, off: 0, imm },
            ]
            &&& emitted(FuzzedInstruction::Modulo(a, d, s), jump, only_verified) == seq![
                Insn { operation: Operation::Modulo(source, a), dst, src, off: 0, imm },
            ]
            &&& emitted(FuzzedInstruction::Pqr(op, a, d, s), jump, only_verified) == seq![
                Insn { operation: Operation::Pqr(source, a, op), dst, src, off: 0, imm },
            ]
        }),
{
}

/// An operation on one register is generated as the same operation on the same register.
pub proof fn law_unary_operations_are_kept(
    a: Arch,
    d: Register,
    endian: Endian,
    size: SwapSize,
    value: i32,
    jump: i16,
    only_verified: bool,
)
    ensures
        ({
            let dst = if only_verified {
                d.0 % 10
            } else {
                d.0 % 11
            };
            let bits = match size {
                SwapSize::S16 => 16i64,
                SwapSize::S32 => 32i64,
                SwapSize::S64 => 64i64,
            };
            &&& emitted(FuzzedInstruction::Negate(a, d), jump, only_verified) == seq![
                Insn { operation: Operation::Negate(a), dst, src: 0, off: 0, imm: 0 },
            ]
            &&& emitted(FuzzedInstruction::SwapBytes(d, endian, size), jump, only_verified) == seq![
                Insn { operation: Operation::SwapBytes(endian), dst, src: 0, off: 0, imm: bits },
            ]
            &&& emitted(FuzzedInstruction::Hor64Imm(d, value), jump, only_verified) == seq![
                Insn { operation: Operation::Hor64Imm, dst, src: 0, off: 0, imm: value as i64 },
            ]
        }),
{
}

/// A load of an immediate value keeps the register and the value. That of a double word takes two
/// instructions, the second with the higher half.
pub proof fn law_immediate_loads_are_kept(
    d: Register,
    low: i32,
    high: i32,
    size: MemSize,
    value: i64,
    jump: i16,
    only_verified: bool,
)
    ensures
        ({
            let dst = if only_verified {
                d.0 % 10
            } else {
                d.0 % 11
            };
            &&& emitted(FuzzedInstruction::Load(d, low, high), jump, only_verified) == seq![
                Insn {
                    operation: Operation::Load(MemSize::DoubleWord),
                    dst,
                    src: 0,
                    off: 0,
                    imm: low as i64,
                },
                Insn {
                    operation: Operation::Load(MemSize::Word),
                    dst: 0,
                    src: 0,
                    off: 0,
                    imm: high as i64,
                },
            ]
            &&& emitted(FuzzedInstruction::LoadUnsplit(d, size, value), jump, only_verified) == seq![
                Insn { operation: Operation::Load(size), dst, src: 0, off: 0, imm: value },
            ]
        }),
{
}

/// An access to memory is generated as the same access, of the same size, with the same registers,
/// offset and value.
pub proof fn law_memory_accesses_are_kept(
    d: Register,
    size: MemSize,
    s: Register,
    off: i16,
    value: i32,
    jump: i16,
    only_verified: bool,
)
    ensures
        ({
            let dst = if only_verified {
                d.0 % 10
            } else {
                d.0 % 11
            };
            let src = s.0 % 11;
            let imm = value as i64;
            &&& emitted(FuzzedInstruction::LoadAbs(size, value), jump, only_verified) == seq![
                Insn { operation: Operation::LoadAbs(size), dst: 0, src: 0, off: 0, imm },
            ]
            &&& emitted(FuzzedInstruction::LoadInd(size, s, value), jump, only_verified) == seq![
                Insn { operation: Operation::LoadInd(size), dst: 0, src, off: 0, imm },
            ]
            &&& emitted(FuzzedInstruction::LoadX(d, size, s, off), jump, only_verified) == seq![
                Insn { operation: Operation::LoadX(size), dst, src, off, imm: 0 },
            ]
            &&& emitted(FuzzedInstruction::Store(d, size, off, value), jump, only_verified) == seq![
                Insn { operation: Operation::Store(size), dst, src: 0, off, imm },
            ]
            &&& emitted(FuzzedInstruction::StoreX(d, size, off, s), jump, only_verified) == seq![
                Insn { operation: Operation::StoreX(size), dst, src, off, imm: 0 },
            ]
        }),
{
}

/// A jump is generated with the same condition, on the same operands. A condition that always holds of
/// a register needs no operands.
pub proof fn law_jumps_are_kept(
    d: Register,
    c: Cond,
    s: FuzzedSource,
    off: i16,
    jump: i16,
    only_verified: bool,
)
    ensures
        ({
            let dst = if only_verified {
                d.0 % 10
            } else {
                d.0 % 11
            };
            let (source, src, imm) = match s {
                FuzzedSource::Reg(r) => (Source::Reg, r.0 % 11, 0i64),
                FuzzedSource::Imm(value) => (Source::Imm, 0u8, value as i64),
            };
            &&& emitted(FuzzedInstruction::Jump(off), jump, only_verified) == seq![
                Insn { operation: Operation::JumpUnconditional, dst: 0, src: 0, off: jump, imm: 0 },
            ]
            &&& emitted(FuzzedInstruction::JumpC32(d, c, s, off), jump, only_verified) == seq![
                Insn {
                    operation: Operation::JumpConditional32(c, source),
                    dst,
                    src,
                    off: jump,
                    imm,
                },
            ]
            &&& !(c is Abs && s is Reg) ==> emitted(
                FuzzedInstruction::JumpC(d, c, s, off),
                jump,
                only_verified,
            ) == seq![
                Insn {
                    operation: Operation::JumpConditional(c, source),
                    dst,
                    src,
                    off: jump,
                    imm,
                },
            ]
            &&& c is Abs && s is Reg ==> emitted(
                FuzzedInstruction::JumpC(d, c, s, off),
                jump,
                only_verified,
            ) == seq![
                Insn { operation: Operation::JumpUnconditional, dst: 0, src: 0, off: jump, imm: 0 },
            ]
        }),
{
}

/// A call is generated as a call of the same function, a return as a return, and an adjustment of the
/// stack as the addition of 64 bytes per unit to the frame pointer.
pub proof fn law_calls_are_kept(
    d: Register,
    value: i32,
    factor: i16,
    jump: i16,
    only_verified: bool,
)
    ensures
        ({
            let dst = if only_verified {
                d.0 % 10
            } else {
                d.0 % 11
            };
            &&& emitted(FuzzedInstruction::Call(FuzzedSource::Imm(value)), jump, only_verified) == seq![
                Insn { operation: Operation::Call, dst: 0, src: 0, off: 0, imm: value as i64 },
            ]
            &&& emitted(FuzzedInstruction::Call(FuzzedSource::Reg(d)), jump, only_verified) == seq![
                Insn { operation: Operation::CallReg, dst, src: dst, off: 0, imm: dst as i64 },
            ]
            &&& emitted(FuzzedInstruction::Exit, jump, only_verified) == seq![
                Insn { operation: Operation::Exit, dst: 0, src: 0, off: 0, imm: 0 },
            ]
            &&& emitted(FuzzedInstruction::StackAdjust(factor), jump, only_verified) == seq![
                Insn {
                    operation: Operation::Add(Source::Imm, Arch::X64),
                    dst: 10,
                    src: 0,
                    off: 0,
                    imm: (64 * factor) as i64,
                },
            ]
        }),
{
    assert(factor * 64 == 64 * factor);
}

/// Skipped are exactly the instructions that the version does not have. The first two versions have
/// no product instructions and no 32 bit jumps; the first one leaves the frame pointer alone. Version
/// two replaces multiplications, divisions and wide loads. Later ones add 32 bit jumps.
pub proof fn law_skipped_instructions(
    op: FuzzedInstruction,
    sbpf_version: SBPFVersion,
    only_verified: bool,
)
    ensures
        sbpf_version is V0 ==> (is_skipped(op, sbpf_version, only_verified) <==> op is Pqr || op
            is Hor64Imm || op is JumpC32 || op is StackAdjust),
        sbpf_version is V1 ==> (is_skipped(op, sbpf_version, only_verified) <==> op is Pqr || op
            is Hor64Imm || op is JumpC32),
        sbpf_version is V2 ==> (is_skipped(op, sbpf_version, only_verified) <==> op is Mul || op
            is Div || op is Modulo || op is Negate || op is Load || op is JumpC32 || (
        op matches FuzzedInstruction::SwapBytes(_, Endian::Little, _)) || (only_verified && ((
        op matches FuzzedInstruction::Pqr(PqrOp::Uhmul, Arch::X32, _, _)) || (
        op matches FuzzedInstruction::Pqr(PqrOp::Shmul, Arch::X32, _, _))))),
        !(sbpf_version is V0 || sbpf_version is V1 || sbpf_version is V2) ==> (is_skipped(
            op,
            sbpf_version,
            only_verified,
        ) <==> op is Pqr || op is Hor64Imm || op is StackAdjust || (
        op matches FuzzedInstruction::JumpC32(_, Cond::Abs, _, _))),
{
}

/// The code of a program is that of its instructions, one behind the other, without those that are
/// skipped. `before` is the code of all instructions in front of the one at `index`.
#[verifier::spinoff_prover]
pub proof fn law_code_holds_each_instruction(
    prog: Seq<FuzzedInstruction>,
    count: int,
    index: int,
    sbpf_version: SBPFVersion,
    only_verified: bool,
)
    requires
        0 <= index < count <= prog.len(),
    ensures
        ({
            let code = code_of(prog, count, sbpf_version, only_verified);
            let before = code_of(prog, index, sbpf_version, only_verified);
            let until = code_of(prog, index + 1, sbpf_version, only_verified);
            &&& before.len() <= until.len() <= code.len()
            &&& before == code.take(before.len() as int)
            &&& until == code.take(until.len() as int)
            &&& is_skipped(prog[index], sbpf_version, only_verified) ==> until == before
            &&& !is_skipped(prog[index], sbpf_version, only_verified) ==> exists|jump: i16|
                until == before + #[trigger] emitted(prog[index], jump, only_verified)
        }),
        code_of(prog, 0, sbpf_version, only_verified).len() == 0,
    decreases count,
{
    lemma_code_grows(prog, index + 1, sbpf_version, only_verified);
    lemma_code_grows(prog, count, sbpf_version, only_verified);
    if index + 1 < count {
        law_code_holds_each_instruction(prog, count - 1, index, sbpf_version, only_verified);
        lemma_longer_code(
            code_of(prog, index, sbpf_version, only_verified),
            code_of(prog, count - 1, sbpf_version, only_verified),
            code_of(prog, count, sbpf_version, only_verified),
        );
        lemma_longer_code(
            code_of(prog, index + 1, sbpf_version, only_verified),
            code_of(prog, count - 1, sbpf_version, only_verified),
            code_of(prog, count, sbpf_version, only_verified),
        );
    } else {
        assert(code_of(prog, count, sbpf_version, only_verified).take(
            code_of(prog, count, sbpf_version, only_verified).len() as int,
        ) =~= code_of(prog, count, sbpf_version, only_verified));
    }
}

/// What a code starts with, every longer code starts with.
proof fn lemma_longer_code(part: Seq<Insn>, code: Seq<Insn>, longer: Seq<Insn>)
    requires
        part.len() <= code.len() <= longer.len(),
        part == code.take(part.len() as int),
        code == longer.take(code.len() as int),
    ensures
        part == longer.take(part.len() as int),
{
    assert(part =~= longer.take(part.len() as int));
}

/// With one more instruction, the code gets longer at its end.
proof fn lemma_code_grows(
    prog: Seq<FuzzedInstruction>,
    count: int,
    sbpf_version: SBPFVersion,
    only_verified: bool,
)
    requires
        0 < count <= prog.len(),
    ensures
        ({
            let code = code_of(prog, count, sbpf_version, only_verified);
            let before = code_of(prog, count - 1, sbpf_version, only_verified);
            let jump = jump_of(prog, count - 1, sbpf_version, only_verified);
            &&& before.len() <= code.len()
            &&& before == code.take(before.len() as int)
            &&& is_skipped(prog[count - 1], sbpf_version, only_verified) ==> code == before
            &&& !is_skipped(prog[count - 1], sbpf_version, only_verified) ==> code == before
                + emitted(prog[count - 1], jump, only_verified)
        }),
{
    let code = code_of(prog, count, sbpf_version, only_verified);
    let before = code_of(prog, count - 1, sbpf_version, only_verified);
    assert(before =~= code.take(before.len() as int));
}

/// The code of a jump is one instruction with the offset of the jump.
#[verifier::spinoff_prover]
proof fn lemma_code_of_jump(
    prog: Seq<FuzzedInstruction>,
    index: int,
    off: i16,
    sbpf_version: SBPFVersion,
    only_verified: bool,
)
    requires
        0 <= index < prog.len(),
        !is_skipped(prog[index], sbpf_version, only_verified),
        match prog[index] {
            FuzzedInstruction::Jump(o) => o == off,
            FuzzedInstruction::JumpC(_, _, _, o) => o == off,
            FuzzedInstruction::JumpC32(_, _, _, o) => o == off,
            _ => false,
        },
    ensures
        ({
            let before = code_of(prog, index, sbpf_version, only_verified);
            let until = code_of(prog, index + 1, sbpf_version, only_verified);
            &&& until.len() == before.len() + 1
            &&& until[before.len() as int].off == jump_of(prog, index, sbpf_version, only_verified)
        }),
{
    let jump = jump_of(prog, index, sbpf_version, only_verified);
    lemma_code_grows(prog, index + 1, sbpf_version, only_verified);
    match prog[index] {
        FuzzedInstruction::Jump(o) => {
            law_jumps_are_kept(
                Register(0),
                Cond::Abs,
                FuzzedSource::Imm(0),
                o,
                jump,
                only_verified,
            );
        },
        FuzzedInstruction::JumpC(d, c, s, o) => {
            law_jumps_are_kept(d, c, s, o, jump, only_verified);
        },
        FuzzedInstruction::JumpC32(d, c, s, o) => {
            law_jumps_are_kept(d, c, s, o, jump, only_verified);
        },
        _ => {},
    }
}

/// A jump of a program that shall pass verification lands at the instruction that fills the slot
/// which the arbitrary offset picks: `off` modulo the number of slots. Left out are programs with
/// more slots than 16 bits can count.
pub proof fn law_jump_lands_where_it_was_picked(
    prog: Seq<FuzzedInstruction>,
    index: int,
    off: i16,
    sbpf_version: SBPFVersion,
)
    requires
        0 <= index < prog.len(),
        !is_skipped(prog[index], sbpf_version, true),
        match prog[index] {
            FuzzedInstruction::Jump(o) => o == off,
            FuzzedInstruction::JumpC(_, _, _, o) => o == off,
            FuzzedInstruction::JumpC32(_, _, _, o) => o == off,
            _ => false,
        },
        code_of(prog, prog.len() as int, sbpf_version, true).len() <= i16::MAX,
    ensures
        ({
            let code = code_of(prog, prog.len() as int, sbpf_version, true);
            let slot = code_of(prog, index, sbpf_version, true).len();
            let landing = slot + 1 + code[slot as int].off;
            let picked = (off as usize) as int % code.len() as int;
            &&& slot < code.len()
            &&& 0 <= landing < code.len()
            &&& landing == picked || landing + 1 == picked
            &&& exists|target: int|
                0 <= target <= prog.len() && #[trigger] code_of(
                    prog,
                    target,
                    sbpf_version,
                    true,
                ).len() == landing
            &&& landing + 1 == picked ==> forall|other: int|
                0 <= other <= prog.len() ==> #[trigger] code_of(
                    prog,
                    other,
                    sbpf_version,
                    true,
                ).len() != picked
        }),
{
    let total = prog.len() as int;
    law_code_fills_the_slots(prog, total, sbpf_version, true);
    law_code_fills_the_slots(prog, index, sbpf_version, true);
    lemma_landing(prog, index, off, sbpf_version);
    lemma_code_of_jump(prog, index, off, sbpf_version, true);
    lemma_slot_in_code(prog, index, sbpf_version, true);
    let len = position(prog, total, sbpf_version, true) as int;
    let picked = (off as usize) as int % len;
    lemma_starts(prog, picked, sbpf_version, true);
    lemma_starts(
        prog,
        position(prog, index, sbpf_version, true) + 1 + jump_of(prog, index, sbpf_version, true),
        sbpf_version,
        true,
    );
}

/// The instructions that the code of an instruction starts with stand in the whole code.
#[verifier::spinoff_prover]
proof fn lemma_slot_in_code(
    prog: Seq<FuzzedInstruction>,
    index: int,
    sbpf_version: SBPFVersion,
    only_verified: bool,
)
    requires
        0 <= index < prog.len(),
        code_of(prog, index, sbpf_version, only_verified).len() < code_of(
            prog,
            index + 1,
            sbpf_version,
            only_verified,
        ).len(),
    ensures
        ({
            let code = code_of(prog, prog.len() as int, sbpf_version, only_verified);
            let until = code_of(prog, index + 1, sbpf_version, only_verified);
            let slot = code_of(prog, index, sbpf_version, only_verified).len();
            slot < code.len() && code[slot as int] == until[slot as int]
        }),
{
    law_code_holds_each_instruction(
        prog,
        prog.len() as int,
        index,
        sbpf_version,
        only_verified,
    );
}

/// An instruction starts at a slot exactly if the code in front of it fills the slots before.
proof fn lemma_starts(
    prog: Seq<FuzzedInstruction>,
    slot: int,
    sbpf_version: SBPFVersion,
    only_verified: bool,
)
    ensures
        is_start(prog, slot, sbpf_version, only_verified) <==> exists|index: int|
            0 <= index <= prog.len() && #[trigger] code_of(
                prog,
                index,
                sbpf_version,
                only_verified,
            ).len() == slot,
{
    assert forall|index: int| 0 <= index <= prog.len() implies #[trigger] code_of(
        prog,
        index,
        sbpf_version,
        only_verified,
    ).len() == position(prog, index, sbpf_version, only_verified) by {
        law_code_fills_the_slots(prog, index, sbpf_version, only_verified);
    }
    if is_start(prog, slot, sbpf_version, only_verified) {
        let index = choose|index: int|
            0 <= index <= prog.len() && #[trigger] position(
                prog,
                index,
                sbpf_version,
                only_verified,
            ) == slot;
        assert(code_of(prog, index, sbpf_version, only_verified).len() == slot);
    }
}

/// A jump lands at the picked slot, or at the one before if no instruction starts there.
proof fn lemma_landing(
    prog: Seq<FuzzedInstruction>,
    index: int,
    off: i16,
    sbpf_version: SBPFVersion,
)
    requires
        0 <= index < prog.len(),
        !is_skipped(prog[index], sbpf_version, true),
        match prog[index] {
            FuzzedInstruction::Jump(o) => o == off,
            FuzzedInstruction::JumpC(_, _, _, o) => o == off,
            FuzzedInstruction::JumpC32(_, _, _, o) => o == off,
            _ => false,
        },
        position(prog, prog.len() as int, sbpf_version, true) <= i16::MAX,
    ensures
        ({
            let len = position(prog, prog.len() as int, sbpf_version, true) as int;
            let picked = (off as usize) as int % len;
            let landing = position(prog, index, sbpf_version, true) + 1 + jump_of(
                prog,
                index,
                sbpf_version,
                true,
            );
            &&& 0 <= landing < len
            &&& landing == picked || landing + 1 == picked
            &&& is_start(prog, landing, sbpf_version, true)
            &&& landing + 1 == picked ==> !is_start(prog, picked, sbpf_version, true)
        }),
{
    let len = position(prog, prog.len() as int, sbpf_version, true);
    let pos = position(prog, index, sbpf_version, true);
    law_jumps_lead_to_instructions(prog, off, index, sbpf_version);
    lemma_position_increases(prog, index + 1, prog.len() as int, sbpf_version, true);
    let target = picked_slot(off, len);
    assert(0 <= target < len) by (nonlinear_arith)
        requires
            target == (off as usize) % (len as usize),
            0 < len <= i16::MAX,
    ;
    let offset = jump_offset(prog, off, pos as usize, sbpf_version, true);
    assert(offset == target - pos - step_back(prog, target as int, sbpf_version, true));
    assert(jump_of(prog, index, sbpf_version, true) == offset);
}

/// A jump of a program that need not pass verification keeps its arbitrary offset.
pub proof fn law_unverified_jumps_keep_their_offset(
    prog: Seq<FuzzedInstruction>,
    index: int,
    off: i16,
    sbpf_version: SBPFVersion,
)
    requires
        0 <= index < prog.len(),
        !is_skipped(prog[index], sbpf_version, false),
        match prog[index] {
            FuzzedInstruction::Jump(o) => o == off,
            FuzzedInstruction::JumpC(_, _, _, o) => o == off,
            FuzzedInstruction::JumpC32(_, _, _, o) => o == off,
            _ => false,
        },
    ensures
        ({
            let code = code_of(prog, prog.len() as int, sbpf_version, false);
            let slot = code_of(prog, index, sbpf_version, false).len();
            slot < code.len() && code[slot as int].off == off
        }),
{
    let total = prog.len() as int;
    let code = code_of(prog, total, sbpf_version, false);
    let before = code_of(prog, index, sbpf_version, false);
    let until = code_of(prog, index + 1, sbpf_version, false);
    law_code_holds_each_instruction(prog, total, index, sbpf_version, false);
    let pos = before.len();
    let jump = jump_of(prog, index, sbpf_version, false);
    lemma_code_of_jump(prog, index, off, sbpf_version, false);
    assert(until[pos as int] == code[pos as int]);
}

/// The code of a program is that of its instructions and one return behind it. It is of the version
/// that was asked for.
pub proof fn law_program_ends_with_a_return(
    prog: &FuzzProgram,
    sbpf_version: SBPFVersion,
    only_verified: bool,
    code: BpfCode,
    len: usize,
    i: int,
)
    requires
        call_ensures(make_program, (prog, sbpf_version, only_verified), code),
        call_ensures(calculate_length, (prog, sbpf_version, only_verified), len),
    ensures
        ({
            let body = code_of(prog@, prog@.len() as int, sbpf_version, only_verified);
            let last = code.instructions@.last();
            &&& code.sbpf_version == sbpf_version
            &&& len == body.len()
            &&& code.instructions@.len() == len + 1
            &&& 0 <= i < len ==> code.instructions@[i] == body[i]
            &&& last.operation == Operation::Exit
            &&& last.dst == 0 && last.src == 0 && last.off == 0 && last.imm == 0
        }),
{
    law_code_fills_the_slots(prog@, prog@.len() as int, sbpf_version, only_verified);
}

/// No instruction of the code divides by an immediate value of zero.
pub proof fn law_no_division_by_zero(
    prog: &FuzzProgram,
    sbpf_version: SBPFVersion,
    only_verified: bool,
    code: BpfCode,
)
    requires
        call_ensures(make_program, (prog, sbpf_version, only_verified), code),
    ensures
        forall|k: int|
            0 <= k < code.instructions@.len() ==> ({
                let insn = #[trigger] code.instructions@[k];
                match insn.operation {
                    Operation::Div(Source::Imm, _) => insn.imm != 0,
                    Operation::Modulo(Source::Imm, _) => insn.imm != 0,
                    Operation::Pqr(Source::Imm, _, _) => insn.imm != 0,
                    _ => true,
                }
            }),
{
    assert forall|k: int| 0 <= k < code.instructions@.len() implies ({
        let insn = #[trigger] code.instructions@[k];
        match insn.operation {
            Operation::Div(Source::Imm, _) => insn.imm != 0,
            Operation::Modulo(Source::Imm, _) => insn.imm != 0,
            Operation::Pqr(Source::Imm, _, _) => insn.imm != 0,
            _ => true,
        }
    }) by {
        assert(!divides_by_zero(code.instructions@[k]));
    }
}

/// Written to are the registers zero to nine, and the frame pointer as well if the program need not
/// pass verification. Read from are all of these.
pub proof fn law_registers(register: &Register, only_verified: bool, dst: u8, src: u8)
    requires
        call_ensures(Register::to_dst, (register, only_verified), dst),
        call_ensures(Register::to_src, (register,), src),
    ensures
        dst as int == register.0 as int % if only_verified {
            10
        } else {
            11
        },
        src as int == register.0 as int % 11,
{
}

/// Skipping is decided by the version.
pub proof fn law_skipping_is_decided(
    insn: &FuzzedInstruction,
    sbpf_version: SBPFVersion,
    only_verified: bool,
    skip: bool,
    bits: i64,
    size: SwapSize,
)
    requires
        call_ensures(should_skip_instruction, (insn, sbpf_version, only_verified), skip),
        call_ensures(SwapSize::bits, (size,), bits),
    ensures
        skip == is_skipped(*insn, sbpf_version, only_verified),
        bits == match size {
            SwapSize::S16 => 16i64,
            SwapSize::S32 => 32i64,
            SwapSize::S64 => 64i64,
        },
{
}

/// An offset that is turned into that of a jump leads to the slot that it picks, or to the one before
/// if no instruction starts at the picked one. Unless the program shall pass verification, it stays
/// as it is.
pub proof fn law_fixed_jump(
    prog: &FuzzProgram,
    off: i16,
    pos: usize,
    len: usize,
    sbpf_version: SBPFVersion,
    only_verified: bool,
    offset: i16,
)
    requires
        call_ensures(fix_jump, (prog, off, pos, len, sbpf_version, only_verified), offset),
        len == code_of(prog@, prog@.len() as int, sbpf_version, only_verified).len(),
        0 < len <= i16::MAX,
        pos <= i16::MAX,
    ensures
        !only_verified ==> offset == off,
        only_verified ==> {
            let picked = (off as usize) as int % len as int;
            let landing = pos + 1 + offset;
            if exists|index: int|
                0 <= index <= prog@.len() && #[trigger] code_of(
                    prog@,
                    index,
                    sbpf_version,
                    only_verified,
                ).len() == picked {
                landing == picked
            } else {
                landing == picked - 1
            }
        },
{
    law_code_fills_the_slots(prog@, prog@.len() as int, sbpf_version, only_verified);
    if only_verified {
        let picked = (off as usize) as int % len as int;
        assert(0 <= picked < len);
        if exists|index: int|
            0 <= index <= prog@.len() && #[trigger] code_of(
                prog@,
                index,
                sbpf_version,
                only_verified,
            ).len() == picked {
            let index = choose|index: int|
                0 <= index <= prog@.len() && #[trigger] code_of(
                    prog@,
                    index,
                    sbpf_version,
                    only_verified,
                ).len() == picked;
            law_code_fills_the_slots(prog@, index, sbpf_version, only_verified);
            assert(is_start(prog@, picked, sbpf_version, only_verified));
        } else if is_start(prog@, picked, sbpf_version, only_verified) {
            let index = choose|index: int|
                0 <= index <= prog@.len() && #[trigger] position(
                    prog@,
                    index,
                    sbpf_version,
                    only_verified,
                ) == picked;
            law_code_fills_the_slots(prog@, index, sbpf_version, only_verified);
        }
    }
}

/// An immediate value is wrapped exactly if it is not zero, and unwrapped as it was.
pub proof fn law_immediates_that_are_not_zero(value: i32, imm: Option<NonZeroImm>, unwrapped: i32)
    requires
        call_ensures(NonZeroImm::new, (value,), imm),
        imm matches Some(imm) ==> call_ensures(NonZeroImm::get, (imm,), unwrapped),
    ensures
        imm is Some <==> value != 0,
        imm is Some ==> unwrapped == value,
{
}

} // verus!
