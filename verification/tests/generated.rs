use sbpf::differential::{
    compare_generated, compare_loaded, contains, judge_loaded, loaded_config, Divergence, Observation,
};
use sbpf::grammar_aware;
use sbpf::grammar_aware::FuzzedOp as Op;
use sbpf::insn_builder::{
    Arch, Cond, Endian, Insn, MemSize, Operation, PqrOp, Source,
};
use sbpf::semantic_aware;
use sbpf::semantic_aware::{
    FuzzedInstruction, FuzzedNonZeroSource, FuzzedSource, NonZeroImm, Register, SwapSize,
};
use sbpf::version::SBPFVersion;
use sbpf::vm::Config;

fn inst(op: Op) -> grammar_aware::FuzzedInstruction {
    grammar_aware::FuzzedInstruction {
        op,
        dst: 1,
        src: 2,
        off: -3,
        imm: 4,
    }
}

#[test]
fn similar_instructions() {
    let add = Op::Add(Arch::X64, Source::Reg);
    let add32 = Op::Add(Arch::X32, Source::Reg);
    let sub = Op::Sub(Arch::X64, Source::Reg);
    assert_eq!(add.similarity(&add), Some(0));
    assert_eq!(add.similarity(&add32), Some(8));
    assert_eq!(add.similarity(&sub), None);
    assert_eq!(inst(add).similarity(&inst(add)), Some(4));
    assert_eq!(inst(add).similarity(&inst(add32)), Some(12));
    assert_eq!(inst(add).similarity(&inst(sub)), None);
    let mut other = inst(add);
    other.dst = 9;
    assert_eq!(inst(add).similarity(&other), Some(3));
    other.src = 9;
    other.off = 9;
    other.imm = 9;
    assert_eq!(inst(add).similarity(&other), Some(0));
    assert_eq!(other.similarity(&inst(add32)), Some(8));
}

#[test]
fn every_arbitrary_operation_is_generated() {
    let (a, s, m, c) = (Arch::X32, Source::Imm, MemSize::HalfWord, Cond::BitAnd);
    let pairs = [
        (Op::Add(a, s), Operation::Add(s, a)),
        (Op::Sub(a, s), Operation::Sub(s, a)),
        (Op::Mul(a, s), Operation::Mul(s, a)),
        (Op::Div(a, s), Operation::Div(s, a)),
        (Op::BitOr(a, s), Operation::BitOr(s, a)),
        (Op::BitAnd(a, s), Operation::BitAnd(s, a)),
        (Op::LeftShift(a, s), Operation::LeftShift(s, a)),
        (Op::RightShift(a, s), Operation::RightShift(s, a)),
        (Op::Negate(a), Operation::Negate(a)),
        (Op::Modulo(a, s), Operation::Modulo(s, a)),
        (Op::BitXor(a, s), Operation::BitXor(s, a)),
        (Op::Mov(a, s), Operation::Mov(s, a)),
        (Op::SRS(a, s), Operation::SignedRightShift(s, a)),
        (Op::SwapBytes(Endian::Big), Operation::SwapBytes(Endian::Big)),
        (Op::Load(m), Operation::Load(m)),
        (Op::LoadAbs(m), Operation::LoadAbs(m)),
        (Op::LoadInd(m), Operation::LoadInd(m)),
        (Op::LoadX(m), Operation::LoadX(m)),
        (Op::Store(m), Operation::Store(m)),
        (Op::StoreX(m), Operation::StoreX(m)),
        (Op::Jump, Operation::JumpUnconditional),
        (Op::JumpC(c, s), Operation::JumpConditional(c, s)),
        (Op::Call, Operation::Call),
        (Op::CallReg, Operation::CallReg),
        (Op::Exit, Operation::Exit),
        (Op::Pqr(PqrOp::Urem, a, s), Operation::Pqr(s, a, PqrOp::Urem)),
        (Op::LoadV2(m), Operation::LoadX(m)),
        (Op::StoreV2(m), Operation::Store(m)),
        (Op::StoreV2X(m), Operation::StoreX(m)),
        (Op::Hor64Imm, Operation::Hor64Imm),
        (Op::JumpC32(c, s), Operation::JumpConditional32(c, s)),
    ];
    let prog: Vec<grammar_aware::FuzzedInstruction> =
        pairs.iter().map(|(op, _)| inst(*op)).collect();
    let code = grammar_aware::make_program(&prog, SBPFVersion::V2);
    assert_eq!(code.sbpf_version, SBPFVersion::V2);
    assert_eq!(code.instructions.len(), pairs.len());
    for (insn, (_, operation)) in code.instructions.iter().zip(pairs.iter()) {
        assert_eq!(
            *insn,
            Insn {
                operation: *operation,
                dst: 1,
                src: 2,
                off: -3,
                imm: 4,
            }
        );
    }
}

fn generate(prog: &[FuzzedInstruction], version: SBPFVersion, only_verified: bool) -> Vec<Insn> {
    let code = semantic_aware::make_program(&prog.to_vec(), version, only_verified);
    assert_eq!(code.sbpf_version, version);
    code.instructions
}

fn insn(operation: Operation, dst: u8, src: u8, off: i16, imm: i64) -> Insn {
    Insn {
        operation,
        dst,
        src,
        off,
        imm,
    }
}

fn exit() -> Insn {
    Insn::new(Operation::Exit)
}

#[test]
fn registers_are_reduced() {
    assert_eq!(Register(10).to_dst(true), 0);
    assert_eq!(Register(10).to_dst(false), 10);
    assert_eq!(Register(11).to_dst(false), 0);
    assert_eq!(Register(255).to_src(), 2);
    assert_eq!(Register(255).to_dst(true), 5);
}

#[test]
fn zero_is_refused() {
    assert_eq!(NonZeroImm::new(0), None);
    assert_eq!(NonZeroImm::new(-5).unwrap().get(), -5);
    assert_eq!(SwapSize::S16.bits(), 16);
    assert_eq!(SwapSize::S32.bits(), 32);
    assert_eq!(SwapSize::S64.bits(), 64);
}

#[test]
fn operands_are_completed() {
    let five = FuzzedNonZeroSource::Imm(NonZeroImm::new(5).unwrap());
    let prog = [
        FuzzedInstruction::Add(Arch::X64, Register(12), FuzzedSource::Reg(Register(10))),
        FuzzedInstruction::Mul(Arch::X32, Register(3), FuzzedSource::Imm(-1)),
        FuzzedInstruction::LeftShift(Arch::X32, Register(1), FuzzedSource::Imm(-1)),
        FuzzedInstruction::SRS(Arch::X64, Register(1), FuzzedSource::Imm(-1)),
        FuzzedInstruction::RightShift(Arch::X64, Register(1), FuzzedSource::Reg(Register(4))),
        FuzzedInstruction::Div(Arch::X64, Register(2), five),
        FuzzedInstruction::Modulo(Arch::X64, Register(2), FuzzedNonZeroSource::Reg(Register(3))),
        FuzzedInstruction::Negate(Arch::X64, Register(7)),
        FuzzedInstruction::SwapBytes(Register(1), Endian::Little, SwapSize::S32),
        FuzzedInstruction::Load(Register(1), 2, -3),
        FuzzedInstruction::Store(Register(1), MemSize::Byte, -2, 9),
        FuzzedInstruction::StoreX(Register(1), MemSize::Word, 2, Register(5)),
        FuzzedInstruction::Call(FuzzedSource::Imm(77)),
        FuzzedInstruction::Call(FuzzedSource::Reg(Register(13))),
        FuzzedInstruction::Exit,
    ];
    assert_eq!(
        generate(&prog, SBPFVersion::V0, true),
        vec![
            insn(Operation::Add(Source::Reg, Arch::X64), 2, 10, 0, 0),
            insn(Operation::Mul(Source::Imm, Arch::X32), 3, 0, 0, -1),
            insn(Operation::LeftShift(Source::Imm, Arch::X32), 1, 0, 0, 31),
            insn(Operation::SignedRightShift(Source::Imm, Arch::X64), 1, 0, 0, 63),
            insn(Operation::RightShift(Source::Reg, Arch::X64), 1, 4, 0, 0),
            insn(Operation::Div(Source::Imm, Arch::X64), 2, 0, 0, 5),
            insn(Operation::Modulo(Source::Reg, Arch::X64), 2, 3, 0, 0),
            insn(Operation::Negate(Arch::X64), 7, 0, 0, 0),
            insn(Operation::SwapBytes(Endian::Little), 1, 0, 0, 32),
            insn(Operation::Load(MemSize::DoubleWord), 1, 0, 0, 2),
            insn(Operation::Load(MemSize::Word), 0, 0, 0, -3),
            insn(Operation::Store(MemSize::Byte), 1, 0, -2, 9),
            insn(Operation::StoreX(MemSize::Word), 1, 5, 2, 0),
            insn(Operation::Call, 0, 0, 0, 77),
            insn(Operation::CallReg, 3, 3, 0, 3),
            exit(),
            exit(),
        ]
    );
}

#[test]
fn versions_lack_instructions() {
    let five = FuzzedNonZeroSource::Imm(NonZeroImm::new(5).unwrap());
    let prog = [
        FuzzedInstruction::Mul(Arch::X32, Register(3), FuzzedSource::Imm(-1)),
        FuzzedInstruction::Div(Arch::X64, Register(2), five),
        FuzzedInstruction::Negate(Arch::X64, Register(7)),
        FuzzedInstruction::SwapBytes(Register(1), Endian::Little, SwapSize::S32),
        FuzzedInstruction::SwapBytes(Register(1), Endian::Big, SwapSize::S64),
        FuzzedInstruction::Load(Register(1), 2, -3),
        FuzzedInstruction::Pqr(PqrOp::Udiv, Arch::X32, Register(1), five),
        FuzzedInstruction::Pqr(PqrOp::Uhmul, Arch::X32, Register(1), five),
        FuzzedInstruction::Pqr(PqrOp::Shmul, Arch::X64, Register(1), five),
        FuzzedInstruction::Hor64Imm(Register(1), 6),
        FuzzedInstruction::StackAdjust(-2),
        FuzzedInstruction::JumpC32(Register(1), Cond::Abs, FuzzedSource::Imm(1), 0),
    ];
    let swap = insn(Operation::SwapBytes(Endian::Big), 1, 0, 0, 64);
    let adjust = insn(Operation::Add(Source::Imm, Arch::X64), 10, 0, 0, -128);
    assert_eq!(
        generate(&prog, SBPFVersion::V2, true),
        vec![
            swap,
            insn(Operation::Pqr(Source::Imm, Arch::X32, PqrOp::Udiv), 1, 0, 0, 5),
            insn(Operation::Pqr(Source::Imm, Arch::X64, PqrOp::Shmul), 1, 0, 0, 5),
            insn(Operation::Hor64Imm, 1, 0, 0, 6),
            adjust,
            exit(),
        ]
    );
    let code = generate(&prog, SBPFVersion::V1, true);
    assert_eq!(code.len(), 9);
    assert_eq!(code[4], swap);
    assert_eq!(code[7], adjust);
    assert_eq!(generate(&prog, SBPFVersion::V3, true).len(), 8);
    assert_eq!(generate(&prog, SBPFVersion::V0, true).len(), 8);
    let uhmul = [FuzzedInstruction::Pqr(PqrOp::Uhmul, Arch::X32, Register(1), five)];
    assert_eq!(generate(&uhmul, SBPFVersion::V2, true).len(), 1);
    assert_eq!(generate(&uhmul, SBPFVersion::V2, false).len(), 2);
}

#[test]
fn malformed_loads_are_for_unverified_programs() {
    let prog = [
        FuzzedInstruction::LoadUnsplit(Register(10), MemSize::Byte, i64::MIN),
        FuzzedInstruction::LoadAbs(MemSize::Word, -4),
        FuzzedInstruction::LoadInd(MemSize::Word, Register(4), 5),
        FuzzedInstruction::LoadX(Register(1), MemSize::Word, Register(4), 5),
        FuzzedInstruction::Jump(-300),
    ];
    assert_eq!(
        generate(&prog, SBPFVersion::V2, false),
        vec![
            insn(Operation::Load(MemSize::Byte), 10, 0, 0, i64::MIN),
            insn(Operation::LoadAbs(MemSize::Word), 0, 0, 0, -4),
            insn(Operation::LoadInd(MemSize::Word), 0, 4, 0, 5),
            insn(Operation::LoadX(MemSize::Word), 1, 4, 5, 0),
            insn(Operation::JumpUnconditional, 0, 0, -300, 0),
            exit(),
        ]
    );
}

#[test]
fn jumps_lead_to_instructions() {
    // Slots: jump 0, load 1 and 2, jump 3, add 4.
    for off in -40i16..40 {
        let prog = [
            FuzzedInstruction::Jump(off),
            FuzzedInstruction::Load(Register(1), 2, -3),
            FuzzedInstruction::Negate(Arch::X64, Register(1)),
            FuzzedInstruction::JumpC(
                Register(1),
                Cond::Equals,
                FuzzedSource::Imm(5),
                off.wrapping_add(1),
            ),
            FuzzedInstruction::Hor64Imm(Register(1), 6),
        ];
        let code = generate(&prog, SBPFVersion::V0, true);
        assert_eq!(
            semantic_aware::calculate_length(&prog.to_vec(), SBPFVersion::V0, true),
            5
        );
        assert_eq!(code.len(), 6);
        for (slot, off) in [(0i64, off), (4, off.wrapping_add(1))] {
            let target = ((off as i64 as u64) % 5) as i64;
            let landing = slot + 1 + code[slot as usize].off as i64;
            assert_eq!(landing, if target == 2 { 1 } else { target });
        }
    }
}

#[test]
fn unconditional_conditional_jumps() {
    let prog = [
        FuzzedInstruction::JumpC(
            Register(1),
            Cond::Abs,
            FuzzedSource::Reg(Register(2)),
            0,
        ),
        FuzzedInstruction::JumpC(Register(1), Cond::Abs, FuzzedSource::Imm(7), 0),
        FuzzedInstruction::JumpC32(
            Register(1),
            Cond::Lower,
            FuzzedSource::Reg(Register(2)),
            1,
        ),
    ];
    assert_eq!(
        generate(&prog, SBPFVersion::V3, true),
        vec![
            insn(Operation::JumpUnconditional, 0, 0, -1, 0),
            insn(Operation::JumpConditional(Cond::Abs, Source::Imm), 1, 0, -2, 7),
            insn(Operation::JumpConditional32(Cond::Lower, Source::Reg), 1, 2, -2, 0),
            exit(),
        ]
    );
}

#[test]
fn sources_are_recognised() {
    let register = FuzzedSource::Reg(Register(1));
    assert_eq!(Source::from(&register), Source::Reg);
    assert_eq!(Source::from(&FuzzedSource::Imm(0)), Source::Imm);
    let register = FuzzedNonZeroSource::Reg(Register(1));
    assert_eq!(Source::from(&register), Source::Reg);
    let imm = FuzzedNonZeroSource::Imm(NonZeroImm::new(1).unwrap());
    assert_eq!(Source::from(&imm), Source::Imm);
}

#[test]
fn an_empty_program_only_exits() {
    assert_eq!(generate(&[], SBPFVersion::V4, true), vec![exit()]);
    assert!(grammar_aware::make_program(&vec![], SBPFVersion::V0)
        .instructions
        .is_empty());
}

fn observed(result: &str) -> Observation {
    Observation {
        result: result.as_bytes().to_vec(),
        success: result.starts_with("Ok"),
        remaining: 7,
        memory: vec![1, 2],
        stack: vec![3],
        heap: vec![4],
        final_pc: 5,
    }
}

#[test]
fn runs_are_compared() {
    let ok = observed("Ok(3)");
    assert_eq!(compare_generated(&ok, &observed("Ok(3)")), None);
    assert_eq!(compare_loaded(&ok, &observed("Ok(3)")), None);
    assert_eq!(compare_generated(&ok, &observed("Ok(4)")), Some(Divergence::Outcome));
    assert_eq!(compare_loaded(&ok, &observed("Ok(4)")), Some(Divergence::Outcome));
    let mut other = observed("Ok(3)");
    other.final_pc = 6;
    assert_eq!(compare_generated(&ok, &other), None);
    assert_eq!(compare_loaded(&ok, &other), Some(Divergence::FinalPc));
    other.heap = vec![];
    assert_eq!(compare_generated(&ok, &other), None);
    assert_eq!(compare_loaded(&ok, &other), Some(Divergence::Heap));
    other.stack = vec![];
    assert_eq!(compare_loaded(&ok, &other), Some(Divergence::Stack));
    other.memory = vec![];
    assert_eq!(compare_generated(&ok, &other), Some(Divergence::Memory));
    assert_eq!(compare_loaded(&ok, &other), Some(Divergence::Memory));
    other.remaining = 0;
    assert_eq!(compare_generated(&ok, &other), Some(Divergence::Remaining));
    assert_eq!(compare_loaded(&ok, &other), Some(Divergence::Remaining));
}

#[test]
fn failed_runs_may_leave_different_memory() {
    let failed = observed("Err(DivideByZero)");
    let mut other = observed("Err(DivideByZero)");
    other.memory = vec![];
    assert_eq!(compare_generated(&failed, &other), None);
    assert_eq!(compare_loaded(&failed, &other), None);
    other.final_pc = 6;
    assert_eq!(compare_loaded(&failed, &other), Some(Divergence::FinalPc));
}

#[test]
fn known_differences_are_tolerated() {
    let a = observed("Err(ExceededMaxInstructions(3, 5))");
    let b = observed("Err(ExceededMaxInstructions(4, 5))");
    assert_eq!(compare_generated(&a, &b), None);
    assert_eq!(compare_loaded(&a, &b), Some(Divergence::Outcome));
    assert_eq!(
        compare_generated(&a, &observed("Err(DivideByZero)")),
        Some(Divergence::Outcome)
    );
    let a = observed("Err(CallOutsideTextSegment)");
    let b = observed("Err(ExecutionOverrun)");
    assert_eq!(compare_loaded(&a, &b), None);
    assert_eq!(compare_loaded(&b, &a), Some(Divergence::Outcome));
    assert_eq!(compare_generated(&a, &b), Some(Divergence::Outcome));
}

#[test]
fn loaded_programs_must_compile() {
    let ok = observed("Ok(3)");
    assert_eq!(judge_loaded(&ok, Some(&observed("Ok(3)"))), None);
    assert_eq!(judge_loaded(&ok, Some(&observed("Ok(4)"))), Some(Divergence::Outcome));
    assert_eq!(judge_loaded(&ok, None), Some(Divergence::NotCompiled));
}

#[test]
fn patterns_in_texts() {
    assert!(contains(b"abcabd", b"abd"));
    assert!(contains(b"abc", b""));
    assert!(contains(b"", b""));
    assert!(!contains(b"ab", b"abc"));
    assert!(!contains(b"abcab", b"abd"));
}

#[test]
fn settings_for_loaded_programs() {
    assert_eq!(
        loaded_config(),
        Config {
            enable_stack_frame_gaps: true,
            enable_symbol_and_section_labels: false,
            sanitize_user_provided_values: false,
            optimize_rodata: false,
            ..Config::default()
        }
    );
}
