//! Programs that are made up of arbitrary, but meaningful, instructions.
use vstd::prelude::*;
use vstd::std_specs::convert::FromSpecImpl;

use crate::ebpf::FRAME_PTR_REG;
use crate::insn_builder::{
    Arch, BpfCode, Cond, Endian, Insn, MemSize, Operation, PqrOp, Source,
};
use crate::version::SBPFVersion;

verus! {

/// Arbitrary number of a register
#[derive(Debug, Clone, Copy, PartialEq, Eq, Structural)]
pub struct Register(pub u8);

impl Register {
    /// The register to write to
    pub open spec fn dst(self, only_verified: bool) -> u8 {
        if only_verified {
            self.0 % 10
        } else {
            self.0 % 11
        }
    }

    /// The register to read from
    pub open spec fn src(self) -> u8 {
        self.0 % 11
    }

    /// The register to write to. This cannot be r10, but unless the program shall pass
    /// verification, it is tried anyways.
    pub fn to_dst(&self, only_verified: bool) -> (register: u8)
        ensures
            register == self.dst(only_verified),
    {
        if only_verified {
            self.0 % 10
        } else {
            self.0 % 11
        }
    }

    /// The register to read from
    pub fn to_src(&self) -> (register: u8)
        ensures
            register == self.src(),
    {
        self.0 % 11
    }
}

/// Immediate value that is not zero
#[derive(Debug, Clone, Copy, PartialEq, Eq, Structural)]
pub struct NonZeroImm {
    value: i32,
}

impl NonZeroImm {
    #[verifier::type_invariant]
    spec fn is_not_zero(self) -> bool {
        self.value != 0
    }

    /// The value
    pub closed spec fn spec_get(self) -> i32 {
        self.value
    }

    /// Wraps a value, unless it is zero
    pub fn new(value: i32) -> (imm: Option<NonZeroImm>)
        ensures
            imm is Some <==> value != 0,
            imm matches Some(imm) ==> imm.spec_get() == value,
    {
        if value == 0 {
            None
        } else {
            Some(NonZeroImm { value })
        }
    }

    /// Unwraps the value
    pub fn get(self) -> (value: i32)
        ensures
            value == self.spec_get(),
            value != 0,
    {
        proof {
            use_type_invariant(&self);
        }
        self.value
    }
}

/// Second operand
#[derive(Debug, Clone, Copy, PartialEq, Eq, Structural)]
pub enum FuzzedSource {
    /// Register
    Reg(Register),
    /// Immediate value
    Imm(i32),
}

/// Second operand of a division
#[derive(Debug, Clone, Copy, PartialEq, Eq, Structural)]
pub enum FuzzedNonZeroSource {
    /// Register
    Reg(Register),
    /// Immediate value
    Imm(NonZeroImm),
}

/// Is the operand a register or an immediate value
pub open spec fn source_of(src: FuzzedSource) -> Source {
    match src {
        FuzzedSource::Reg(_) => Source::Reg,
        FuzzedSource::Imm(_) => Source::Imm,
    }
}

/// Is the operand of a division a register or an immediate value
pub open spec fn nonzero_source_of(src: FuzzedNonZeroSource) -> Source {
    match src {
        FuzzedNonZeroSource::Reg(_) => Source::Reg,
        FuzzedNonZeroSource::Imm(_) => Source::Imm,
    }
}

impl From<&FuzzedSource> for Source {
    fn from(src: &FuzzedSource) -> (source: Self) {
        match src {
            FuzzedSource::Reg(_) => Source::Reg,
            FuzzedSource::Imm(_) => Source::Imm,
        }
    }
}

impl FromSpecImpl<&FuzzedSource> for Source {
    open spec fn obeys_from_spec() -> bool {
        true
    }

    open spec fn from_spec(src: &FuzzedSource) -> Self {
        source_of(*src)
    }
}

impl From<&FuzzedNonZeroSource> for Source {
    fn from(src: &FuzzedNonZeroSource) -> (source: Self) {
        match src {
            FuzzedNonZeroSource::Reg(_) => Source::Reg,
            FuzzedNonZeroSource::Imm(_) => Source::Imm,
        }
    }
}

impl FromSpecImpl<&FuzzedNonZeroSource> for Source {
    open spec fn obeys_from_spec() -> bool {
        true
    }

    open spec fn from_spec(src: &FuzzedNonZeroSource) -> Self {
        nonzero_source_of(*src)
    }
}

/// Number of bits whose order is changed
#[derive(Debug, Clone, Copy, PartialEq, Eq, Structural)]
pub enum SwapSize {
    /// 16 bits
    S16,
    /// 32 bits
    S32,
    /// 64 bits
    S64,
}

impl SwapSize {
    /// Number of bits
    pub open spec fn spec_bits(self) -> i64 {
        match self {
            SwapSize::S16 => 16,
            SwapSize::S32 => 32,
            SwapSize::S64 => 64,
        }
    }

    /// Number of bits
    pub fn bits(self) -> (bits: i64)
        ensures
            bits == self.spec_bits(),
    {
        match self {
            SwapSize::S16 => 16,
            SwapSize::S32 => 32,
            SwapSize::S64 => 64,
        }
    }
}

/// Arbitrary instruction
#[derive(Debug, Clone, Copy, PartialEq, Eq, Structural)]
pub enum FuzzedInstruction {
    /// Addition
    Add(Arch, Register, FuzzedSource),
    /// Subtraction
    Sub(Arch, Register, FuzzedSource),
    /// Multiplication
    Mul(Arch, Register, FuzzedSource),
    /// Division
    Div(Arch, Register, FuzzedNonZeroSource),
    /// Bitwise disjunction
    BitOr(Arch, Register, FuzzedSource),
    /// Bitwise conjunction
    BitAnd(Arch, Register, FuzzedSource),
    /// Shift to the left
    LeftShift(Arch, Register, FuzzedSource),
    /// Shift to the right
    RightShift(Arch, Register, FuzzedSource),
    /// Negation
    Negate(Arch, Register),
    /// Remainder
    Modulo(Arch, Register, FuzzedNonZeroSource),
    /// Bitwise exclusive disjunction
    BitXor(Arch, Register, FuzzedSource),
    /// Move
    Mov(Arch, Register, FuzzedSource),
    /// Shift to the right, filling with the sign
    SRS(Arch, Register, FuzzedSource),
    /// Change of the byte order
    SwapBytes(Register, Endian, SwapSize),
    /// Load of a double word that is split in two, for programs that shall pass verification
    Load(Register, i32, i32),
    /// Load of an immediate value that may be malformed, for programs that need not pass
    /// verification, as the following three
    LoadUnsplit(Register, MemSize, i64),
    /// Load from an absolute address
    LoadAbs(MemSize, i32),
    /// Load from an indirect address
    LoadInd(MemSize, Register, i32),
    /// Load from the address in a register
    LoadX(Register, MemSize, Register, i16),
    /// Store of an immediate value
    Store(Register, MemSize, i16, i32),
    /// Store of a register
    StoreX(Register, MemSize, i16, Register),
    /// Jump
    Jump(i16),
    /// Conditional jump
    JumpC(Register, Cond, FuzzedSource, i16),
    /// Call of a function, or of the function in a register
    Call(FuzzedSource),
    /// Return from a function
    Exit,
    /// PQR instructions for SBPF V2
    Pqr(PqrOp, Arch, Register, FuzzedNonZeroSource),
    /// JMP32 instructions for SBPF V3+
    JumpC32(Register, Cond, FuzzedSource, i16),
    /// HOR64_IMM instruction for SBPF V2
    Hor64Imm(Register, i32),
    /// Stack frame adjustment for V1 and V2 in units of 64 bytes, for programs that shall pass
    /// verification
    StackAdjust(i16),
}

/// Arbitrary program
pub type FuzzProgram = Vec<FuzzedInstruction>;

/// Can the instruction be part of a program that shall, or need not, pass verification
pub open spec fn is_available(insn: FuzzedInstruction, only_verified: bool) -> bool {
    match insn {
        FuzzedInstruction::Load(..) | FuzzedInstruction::StackAdjust(_) => only_verified,
        FuzzedInstruction::LoadUnsplit(..)
        | FuzzedInstruction::LoadAbs(..)
        | FuzzedInstruction::LoadInd(..)
        | FuzzedInstruction::LoadX(..) => !only_verified,
        _ => true,
    }
}

/// Is there no such instruction in the given version of the instruction set
pub open spec fn is_skipped(
    insn: FuzzedInstruction,
    sbpf_version: SBPFVersion,
    only_verified: bool,
) -> bool {
    match insn {
        FuzzedInstruction::Mul(..)
        | FuzzedInstruction::Div(..)
        | FuzzedInstruction::Modulo(..)
        | FuzzedInstruction::Negate(..)
        | FuzzedInstruction::Load(..) => sbpf_version is V2,
        FuzzedInstruction::SwapBytes(_, endian, _) => sbpf_version is V2 && endian is Little,
        FuzzedInstruction::Pqr(op, arch, _, _) => {
            ||| sbpf_version !is V2
            ||| only_verified && arch is X32 && (op is Uhmul || op is Shmul)
        },
        FuzzedInstruction::Hor64Imm(..) => sbpf_version !is V2,
        FuzzedInstruction::JumpC32(_, cond, _, _) => {
            ||| sbpf_version.ordinal() < SBPFVersion::V3.ordinal()
            ||| cond is Abs
        },
        FuzzedInstruction::StackAdjust(_) => sbpf_version !is V1 && sbpf_version !is V2,
        _ => false,
    }
}

/// Number of slots that an instruction takes up in the code
pub open spec fn slots(
    insn: FuzzedInstruction,
    sbpf_version: SBPFVersion,
    only_verified: bool,
) -> nat {
    if is_skipped(insn, sbpf_version, only_verified) {
        0
    } else if insn is Load {
        2
    } else {
        1
    }
}

/// Slot at which the instruction `index` starts
pub open spec fn position(
    prog: Seq<FuzzedInstruction>,
    index: int,
    sbpf_version: SBPFVersion,
    only_verified: bool,
) -> nat
    decreases index,
{
    if index <= 0 {
        0
    } else {
        position(prog, index - 1, sbpf_version, only_verified) + slots(
            prog[index - 1],
            sbpf_version,
            only_verified,
        )
    }
}

/// Determines if an instruction should be skipped for a given SBPF version
pub fn should_skip_instruction(
    insn: &FuzzedInstruction,
    sbpf_version: SBPFVersion,
    only_verified: bool,
) -> (skip: bool)
    ensures
        skip == is_skipped(*insn, sbpf_version, only_verified),
{
    match insn {
        // MUL, DIV, MOD are not valid in V2 (it uses PQR instructions instead)
        FuzzedInstruction::Mul(_, _, _)
        | FuzzedInstruction::Div(_, _, _)
        | FuzzedInstruction::Modulo(_, _, _) => sbpf_version.enable_pqr(),
        // PQR instructions are only valid in V2, UHMUL and SHMUL are not supported for 32-bit
        FuzzedInstruction::Pqr(op, arch, _, _) => !sbpf_version.enable_pqr() || (only_verified
            && *arch == Arch::X32 && (*op == PqrOp::Uhmul || *op == PqrOp::Shmul)),
        // JMP32 instructions are only valid in V3+
        FuzzedInstruction::JumpC32(_, cond, _, _) => !sbpf_version.enable_jmp32() || *cond
            == Cond::Abs,
        // HOR64_IMM is only valid when LDDW is disabled (V2)
        FuzzedInstruction::Hor64Imm(_, _) => !sbpf_version.disable_lddw(),
        // NEG is disabled in some versions
        FuzzedInstruction::Negate(_, _) => sbpf_version.disable_neg(),
        // LE (Little Endian) is disabled in V2
        FuzzedInstruction::SwapBytes(_, endian, _) => *endian == Endian::Little
            && sbpf_version.disable_le(),
        // LDDW (Load Double Word) is disabled in V2
        FuzzedInstruction::Load(_, _, _) => sbpf_version.disable_lddw(),
        // StackAdjust is only valid when manual_stack_frame_bump() is true
        FuzzedInstruction::StackAdjust(_) => !sbpf_version.manual_stack_frame_bump(),
        _ => false,
    }
}

/// Number of slots of all instructions: lddw is twice length; also accounts for skipped instructions
/// based on version
pub fn calculate_length(prog: &FuzzProgram, sbpf_version: SBPFVersion, only_verified: bool) -> (len:
    usize)
    requires
        2 * prog@.len() <= usize::MAX,
    ensures
        len == position(prog@, prog@.len() as int, sbpf_version, only_verified),
{
    let mut len: usize = 0;
    let mut i: usize = 0;
    while i < prog.len()
        invariant
            i <= prog@.len(),
            2 * prog@.len() <= usize::MAX,
            len <= 2 * i,
            len == position(prog@, i as int, sbpf_version, only_verified),
        decreases prog@.len() - i,
    {
        let insn = &prog[i];
        if !should_skip_instruction(insn, sbpf_version, only_verified) {
            // LDDW instructions take 2 slots
            len = len + match insn {
                FuzzedInstruction::Load(_, _, _) => 2,
                _ => 1,
            };
        }
        i = i + 1;
    }
    len
}

/// Does an instruction start at the slot `target`
pub open spec fn is_start(
    prog: Seq<FuzzedInstruction>,
    target: int,
    sbpf_version: SBPFVersion,
    only_verified: bool,
) -> bool {
    exists|index: int|
        0 <= index <= prog.len() && #[trigger] position(prog, index, sbpf_version, only_verified)
            == target
}

/// The slot that an arbitrary offset picks out of a program with `len` slots
pub open spec fn picked_slot(off: i16, len: nat) -> usize {
    (off as usize) % (len as usize)
}

/// How far the offset of a jump lies before the distance between the slots: one for the jump itself,
/// and one more if the picked slot is the second one of an instruction
pub open spec fn step_back(
    prog: Seq<FuzzedInstruction>,
    target: int,
    sbpf_version: SBPFVersion,
    only_verified: bool,
) -> int {
    if is_start(prog, target, sbpf_version, only_verified) {
        1
    } else {
        2
    }
}

/// Offset of a jump at the slot `pos`. For programs that shall pass verification it leads to the
/// start of an instruction.
pub open spec fn jump_offset(
    prog: Seq<FuzzedInstruction>,
    off: i16,
    pos: usize,
    sbpf_version: SBPFVersion,
    only_verified: bool,
) -> int {
    if only_verified {
        let len = position(prog, prog.len() as int, sbpf_version, only_verified);
        let target = picked_slot(off, len);
        (target as i16) - (pos as i16) - step_back(
            prog,
            target as int,
            sbpf_version,
            only_verified,
        )
    } else {
        off as int
    }
}

/// Can the offset of a jump be computed in 16 bits
pub open spec fn jump_fits(
    prog: Seq<FuzzedInstruction>,
    off: i16,
    pos: usize,
    sbpf_version: SBPFVersion,
    only_verified: bool,
) -> bool {
    only_verified ==> {
        let len = position(prog, prog.len() as int, sbpf_version, only_verified);
        let target = picked_slot(off, len);
        &&& i16::MIN <= (target as i16) - (pos as i16) <= i16::MAX
        &&& i16::MIN <= jump_offset(prog, off, pos, sbpf_version, only_verified)
    }
}

/// Later instructions start at later slots.
pub proof fn lemma_position_increases(
    prog: Seq<FuzzedInstruction>,
    a: int,
    b: int,
    sbpf_version: SBPFVersion,
    only_verified: bool,
)
    requires
        a <= b,
    ensures
        position(prog, a, sbpf_version, only_verified) <= position(
            prog,
            b,
            sbpf_version,
            only_verified,
        ),
    decreases b - a,
{
    if a < b {
        lemma_position_increases(prog, a, b - 1, sbpf_version, only_verified);
    }
}

/// Turns an arbitrary offset into that of a jump from the slot `pos`, which for programs that shall
/// pass verification leads to one of the instructions
pub fn fix_jump(
    prog: &FuzzProgram,
    off: i16,
    pos: usize,
    len: usize,
    sbpf_version: SBPFVersion,
    only_verified: bool,
) -> (offset: i16)
    requires
        only_verified ==> len == position(
            prog@,
            prog@.len() as int,
            sbpf_version,
            only_verified,
        ) && len > 0,
        jump_fits(prog@, off, pos, sbpf_version, only_verified),
    ensures
        offset == jump_offset(prog@, off, pos, sbpf_version, only_verified),
{
    if !only_verified {
        return off;
    }
    let target: usize = (off as usize) % len;
    let ghost all = prog@;
    if target == 0 {
        assert(position(all, 0, sbpf_version, only_verified) == 0);
        return target as i16 - pos as i16 - 1;
    }
    let mut remaining: usize = target;
    let mut i: usize = 0;
    while i < prog.len()
        invariant
            i <= all.len(),
            all == prog@,
            only_verified,
            0 < remaining,
            len > 0,
            remaining + position(all, i as int, sbpf_version, only_verified) == target,
            target < len == position(all, all.len() as int, sbpf_version, only_verified),
            target == picked_slot(off, len as nat),
            jump_fits(all, off, pos, sbpf_version, only_verified),
        decreases all.len() - i,
    {
        let insn = &prog[i];
        if should_skip_instruction(insn, sbpf_version, only_verified) {
            i = i + 1;
            continue;
        }
        let next = match insn {
            FuzzedInstruction::Load(_, _, _) => remaining.checked_sub(2),
            _ => remaining.checked_sub(1),
        };
        assert(position(all, i + 1, sbpf_version, only_verified) == position(
            all,
            i as int,
            sbpf_version,
            only_verified,
        ) + slots(all[i as int], sbpf_version, only_verified));
        match next {
            None => {
                proof {
                    assert forall|k: int| 0 <= k <= all.len() implies #[trigger] position(
                        all,
                        k,
                        sbpf_version,
                        only_verified,
                    ) != target by {
                        if k <= i {
                            lemma_position_increases(all, k, i as int, sbpf_version, only_verified);
                        } else {
                            lemma_position_increases(all, i + 1, k, sbpf_version, only_verified);
                        }
                    }
                    assert(!is_start(all, target as int, sbpf_version, only_verified));
                }
                return target as i16 - pos as i16 - 2;
            },
            Some(0) => {
                assert(is_start(all, target as int, sbpf_version, only_verified));
                return target as i16 - pos as i16 - 1;
            },
            Some(rest) => {
                remaining = rest;
            },
        }
        i = i + 1;
    }
    // The target lies before the end of the program.
    assert(false);
    0
}

/// An instruction with a destination register and a second operand
pub open spec fn alu_insn(
    operation: Operation,
    dst: Register,
    src: FuzzedSource,
    only_verified: bool,
) -> Insn {
    match src {
        FuzzedSource::Reg(r) => Insn {
            dst: dst.dst(only_verified),
            src: r.src(),
            ..Insn::spec_new(operation)
        },
        FuzzedSource::Imm(imm) => Insn {
            dst: dst.dst(only_verified),
            imm: imm as i64,
            ..Insn::spec_new(operation)
        },
    }
}

/// A shift, by less than the number of bits
pub open spec fn shift_insn(
    operation: Operation,
    arch: Arch,
    dst: Register,
    src: FuzzedSource,
    only_verified: bool,
) -> Insn {
    match src {
        FuzzedSource::Reg(_) => alu_insn(operation, dst, src, only_verified),
        FuzzedSource::Imm(imm) => Insn {
            dst: dst.dst(only_verified),
            imm: (imm as int % bits_of(arch)) as i64,
            ..Insn::spec_new(operation)
        },
    }
}

/// A division
pub open spec fn nonzero_insn(
    operation: Operation,
    dst: Register,
    src: FuzzedNonZeroSource,
    only_verified: bool,
) -> Insn {
    match src {
        FuzzedNonZeroSource::Reg(r) => Insn {
            dst: dst.dst(only_verified),
            src: r.src(),
            ..Insn::spec_new(operation)
        },
        FuzzedNonZeroSource::Imm(imm) => Insn {
            dst: dst.dst(only_verified),
            imm: imm.spec_get() as i64,
            ..Insn::spec_new(operation)
        },
    }
}

/// Number of bits of an operand
pub open spec fn bits_of(arch: Arch) -> int {
    match arch {
        Arch::X64 => 64,
        Arch::X32 => 32,
    }
}

/// The code of an instruction that is not skipped. `jump` is the offset if it is a jump.
pub open spec fn emitted(op: FuzzedInstruction, jump: i16, only_verified: bool) -> Seq<Insn> {
    match op {
        FuzzedInstruction::Add(a, d, s) => seq![
            alu_insn(Operation::Add(source_of(s), a), d, s, only_verified),
        ],
        FuzzedInstruction::Sub(a, d, s) => seq![
            alu_insn(Operation::Sub(source_of(s), a), d, s, only_verified),
        ],
        FuzzedInstruction::Mul(a, d, s) => seq![
            alu_insn(Operation::Mul(source_of(s), a), d, s, only_verified),
        ],
        FuzzedInstruction::Div(a, d, s) => seq![
            nonzero_insn(Operation::Div(nonzero_source_of(s), a), d, s, only_verified),
        ],
        FuzzedInstruction::BitOr(a, d, s) => seq![
            alu_insn(Operation::BitOr(source_of(s), a), d, s, only_verified),
        ],
        FuzzedInstruction::BitAnd(a, d, s) => seq![
            alu_insn(Operation::BitAnd(source_of(s), a), d, s, only_verified),
        ],
        FuzzedInstruction::LeftShift(a, d, s) => seq![
            shift_insn(Operation::LeftShift(source_of(s), a), a, d, s, only_verified),
        ],
        FuzzedInstruction::RightShift(a, d, s) => seq![
            shift_insn(Operation::RightShift(source_of(s), a), a, d, s, only_verified),
        ],
        FuzzedInstruction::Negate(a, d) => seq![
            Insn { dst: d.dst(only_verified), ..Insn::spec_new(Operation::Negate(a)) },
        ],
        FuzzedInstruction::Modulo(a, d, s) => seq![
            nonzero_insn(Operation::Modulo(nonzero_source_of(s), a), d, s, only_verified),
        ],
        FuzzedInstruction::BitXor(a, d, s) => seq![
            alu_insn(Operation::BitXor(source_of(s), a), d, s, only_verified),
        ],
        FuzzedInstruction::Mov(a, d, s) => seq![
            alu_insn(Operation::Mov(source_of(s), a), d, s, only_verified),
        ],
        FuzzedInstruction::SRS(a, d, s) => seq![
            shift_insn(Operation::SignedRightShift(source_of(s), a), a, d, s, only_verified),
        ],
        FuzzedInstruction::SwapBytes(d, e, s) => seq![
            Insn {
                dst: d.dst(only_verified),
                imm: s.spec_bits(),
                ..Insn::spec_new(Operation::SwapBytes(e))
            },
        ],
        FuzzedInstruction::Load(d, imm1, imm2) => seq![
            Insn {
                dst: d.dst(only_verified),
                imm: imm1 as i64,
                ..Insn::spec_new(Operation::Load(MemSize::DoubleWord))
            },
            Insn { imm: imm2 as i64, ..Insn::spec_new(Operation::Load(MemSize::Word)) },
        ],
        FuzzedInstruction::LoadUnsplit(d, m, imm) => seq![
            Insn { dst: d.dst(only_verified), imm, ..Insn::spec_new(Operation::Load(m)) },
        ],
        FuzzedInstruction::LoadAbs(m, imm) => seq![
            Insn { imm: imm as i64, ..Insn::spec_new(Operation::LoadAbs(m)) },
        ],
        FuzzedInstruction::LoadInd(m, s, imm) => seq![
            Insn { src: s.src(), imm: imm as i64, ..Insn::spec_new(Operation::LoadInd(m)) },
        ],
        FuzzedInstruction::LoadX(d, m, s, off) => seq![
            Insn {
                dst: d.dst(only_verified),
                src: s.src(),
                off,
                ..Insn::spec_new(Operation::LoadX(m))
            },
        ],
        FuzzedInstruction::Store(d, m, off, imm) => seq![
            Insn {
                dst: d.dst(only_verified),
                off,
                imm: imm as i64,
                ..Insn::spec_new(Operation::Store(m))
            },
        ],
        FuzzedInstruction::StoreX(d, m, off, s) => seq![
            Insn {
                dst: d.dst(only_verified),
                src: s.src(),
                off,
                ..Insn::spec_new(Operation::StoreX(m))
            },
        ],
        FuzzedInstruction::Jump(_) => seq![
            Insn { off: jump, ..Insn::spec_new(Operation::JumpUnconditional) },
        ],
        FuzzedInstruction::JumpC(d, c, s, _) => if c is Abs && s is Reg {
            seq![Insn { off: jump, ..Insn::spec_new(Operation::JumpUnconditional) }]
        } else {
            seq![
                Insn {
                    off: jump,
                    ..alu_insn(
                        Operation::JumpConditional(c, source_of(s)),
                        d,
                        s,
                        only_verified,
                    )
                },
            ]
        },
        FuzzedInstruction::Call(FuzzedSource::Imm(imm)) => seq![
            Insn { imm: imm as i64, ..Insn::spec_new(Operation::Call) },
        ],
        FuzzedInstruction::Call(FuzzedSource::Reg(r)) => seq![
            Insn {
                dst: r.dst(only_verified),
                src: r.dst(only_verified),
                imm: r.dst(only_verified) as i64,
                ..Insn::spec_new(Operation::CallReg)
            },
        ],
        FuzzedInstruction::Exit => seq![Insn::spec_new(Operation::Exit)],
        FuzzedInstruction::Pqr(op, a, d, s) => seq![
            nonzero_insn(Operation::Pqr(nonzero_source_of(s), a, op), d, s, only_verified),
        ],
        FuzzedInstruction::JumpC32(d, c, s, _) => seq![
            Insn {
                off: jump,
                ..alu_insn(Operation::JumpConditional32(c, source_of(s)), d, s, only_verified)
            },
        ],
        FuzzedInstruction::Hor64Imm(d, imm) => seq![
            Insn {
                dst: d.dst(only_verified),
                imm: imm as i64,
                ..Insn::spec_new(Operation::Hor64Imm)
            },
        ],
        FuzzedInstruction::StackAdjust(factor) => seq![
            Insn {
                dst: FRAME_PTR_REG,
                imm: (factor * 64) as i64,
                ..Insn::spec_new(Operation::Add(Source::Imm, Arch::X64))
            },
        ],
    }
}

/// The arbitrary offset of a jump
pub open spec fn offset_of(op: FuzzedInstruction) -> Option<i16> {
    match op {
        FuzzedInstruction::Jump(off) => Some(off),
        FuzzedInstruction::JumpC(_, _, _, off) => Some(off),
        FuzzedInstruction::JumpC32(_, _, _, off) => Some(off),
        _ => None,
    }
}

/// The offset of the instruction `index` if it is a jump, else zero
pub open spec fn jump_of(
    prog: Seq<FuzzedInstruction>,
    index: int,
    sbpf_version: SBPFVersion,
    only_verified: bool,
) -> i16 {
    match offset_of(prog[index]) {
        Some(off) => jump_offset(
            prog,
            off,
            position(prog, index, sbpf_version, only_verified) as usize,
            sbpf_version,
            only_verified,
        ) as i16,
        None => 0,
    }
}

/// The code of the first `count` instructions
pub open spec fn code_of(
    prog: Seq<FuzzedInstruction>,
    count: int,
    sbpf_version: SBPFVersion,
    only_verified: bool,
) -> Seq<Insn>
    decreases count,
{
    if count <= 0 {
        Seq::empty()
    } else {
        let before = code_of(prog, count - 1, sbpf_version, only_verified);
        if is_skipped(prog[count - 1], sbpf_version, only_verified) {
            before
        } else {
            before + emitted(
                prog[count - 1],
                jump_of(prog, count - 1, sbpf_version, only_verified),
                only_verified,
            )
        }
    }
}

/// Can the offsets of all jumps be computed in 16 bits
pub open spec fn jumps_fit(
    prog: Seq<FuzzedInstruction>,
    sbpf_version: SBPFVersion,
    only_verified: bool,
) -> bool {
    forall|i: int|
        0 <= i < prog.len() && !is_skipped(#[trigger] prog[i], sbpf_version, only_verified) ==> (
        offset_of(prog[i]) matches Some(off) ==> jump_fits(
            prog,
            off,
            position(prog, i, sbpf_version, only_verified) as usize,
            sbpf_version,
            only_verified,
        ))
}

/// Does the instruction divide by an immediate value that is zero
pub open spec fn divides_by_zero(insn: Insn) -> bool {
    &&& insn.imm == 0
    &&& match insn.operation {
        Operation::Div(source, _) => source is Imm,
        Operation::Modulo(source, _) => source is Imm,
        Operation::Pqr(source, _, _) => source is Imm,
        _ => false,
    }
}

fn complete_alu_insn(
    operation: Operation,
    dst: &Register,
    src: &FuzzedSource,
    only_verified: bool,
) -> (insn: Insn)
    ensures
        insn == alu_insn(operation, *dst, *src, only_verified),
{
    let mut insn = Insn::new(operation);
    insn.dst = dst.to_dst(only_verified);
    match src {
        FuzzedSource::Reg(r) => {
            insn.src = r.to_src();
        },
        FuzzedSource::Imm(imm) => {
            insn.imm = *imm as i64;
        },
    }
    insn
}

/// Number of bits of an operand
fn shift_limit(arch: Arch) -> (max: i64)
    ensures
        max == bits_of(arch),
{
    match arch {
        Arch::X64 => 64,
        Arch::X32 => 32,
    }
}

fn complete_alu_insn_shift(
    operation: Operation,
    dst: &Register,
    src: &FuzzedSource,
    max: i64,
    only_verified: bool,
) -> (insn: Insn)
    requires
        max > 0,
    ensures
        forall|arch: Arch|
            max == #[trigger] bits_of(arch) ==> insn == shift_insn(
                operation,
                arch,
                *dst,
                *src,
                only_verified,
            ),
{
    let mut insn = complete_alu_insn(operation, dst, src, only_verified);
    if let FuzzedSource::Imm(imm) = src {
        insn.imm = match (*imm as i64).checked_rem_euclid(max) {
            Some(rest) => rest,
            None => 0,
        };
    }
    insn
}

fn complete_alu_insn_nonzero(
    operation: Operation,
    dst: &Register,
    src: &FuzzedNonZeroSource,
    only_verified: bool,
) -> (insn: Insn)
    ensures
        insn == nonzero_insn(operation, *dst, *src, only_verified),
        *src is Imm ==> insn.imm != 0,
{
    let mut insn = Insn::new(operation);
    insn.dst = dst.to_dst(only_verified);
    match src {
        FuzzedNonZeroSource::Reg(r) => {
            insn.src = r.to_src();
        },
        FuzzedNonZeroSource::Imm(imm) => {
            insn.imm = imm.get() as i64;
        },
    }
    insn
}

/// Appends the code of an instruction. `jump` is the offset if it is a jump.
fn push_instruction(code: &mut BpfCode, op: &FuzzedInstruction, jump: i16, only_verified: bool)
    requires
        !(*op matches FuzzedInstruction::JumpC(_, Cond::Abs, FuzzedSource::Reg(_), _)),
        forall|k: int|
            0 <= k < old(code).instructions@.len() ==> !divides_by_zero(
                #[trigger] old(code).instructions@[k],
            ),
    ensures
        final(code).sbpf_version == old(code).sbpf_version,
        final(code).instructions@ == old(code).instructions@ + emitted(*op, jump, only_verified),
        forall|k: int|
            0 <= k < final(code).instructions@.len() ==> !divides_by_zero(
                #[trigger] final(code).instructions@[k],
            ),
{
    match op {
        FuzzedInstruction::Add(a, d, s) => code.push(
            complete_alu_insn(Operation::Add(Source::from(s), *a), d, s, only_verified),
        ),
        FuzzedInstruction::Sub(a, d, s) => code.push(
            complete_alu_insn(Operation::Sub(Source::from(s), *a), d, s, only_verified),
        ),
        FuzzedInstruction::Mul(a, d, s) => code.push(
            complete_alu_insn(Operation::Mul(Source::from(s), *a), d, s, only_verified),
        ),
        FuzzedInstruction::Div(a, d, s) => code.push(
            complete_alu_insn_nonzero(
                Operation::Div(Source::from(s), *a),
                d,
                s,
                only_verified,
            ),
        ),
        FuzzedInstruction::BitOr(a, d, s) => code.push(
            complete_alu_insn(Operation::BitOr(Source::from(s), *a), d, s, only_verified),
        ),
        FuzzedInstruction::BitAnd(a, d, s) => code.push(
            complete_alu_insn(Operation::BitAnd(Source::from(s), *a), d, s, only_verified),
        ),
        FuzzedInstruction::LeftShift(a, d, s) => code.push(
            complete_alu_insn_shift(
                Operation::LeftShift(Source::from(s), *a),
                d,
                s,
                shift_limit(*a),
                only_verified,
            ),
        ),
        FuzzedInstruction::RightShift(a, d, s) => code.push(
            complete_alu_insn_shift(
                Operation::RightShift(Source::from(s), *a),
                d,
                s,
                shift_limit(*a),
                only_verified,
            ),
        ),
        FuzzedInstruction::Negate(a, d) => {
            let mut insn = Insn::new(Operation::Negate(*a));
            insn.dst = d.to_dst(only_verified);
            code.push(insn);
        },
        FuzzedInstruction::Modulo(a, d, s) => code.push(
            complete_alu_insn_nonzero(
                Operation::Modulo(Source::from(s), *a),
                d,
                s,
                only_verified,
            ),
        ),
        FuzzedInstruction::BitXor(a, d, s) => code.push(
            complete_alu_insn(Operation::BitXor(Source::from(s), *a), d, s, only_verified),
        ),
        FuzzedInstruction::Mov(a, d, s) => code.push(
            complete_alu_insn(Operation::Mov(Source::from(s), *a), d, s, only_verified),
        ),
        FuzzedInstruction::SRS(a, d, s) => code.push(
            complete_alu_insn_shift(
                Operation::SignedRightShift(Source::from(s), *a),
                d,
                s,
                shift_limit(*a),
                only_verified,
            ),
        ),
        FuzzedInstruction::SwapBytes(d, e, s) => {
            let mut insn = Insn::new(Operation::SwapBytes(*e));
            insn.dst = d.to_dst(only_verified);
            insn.imm = s.bits();
            code.push(insn);
        },
        FuzzedInstruction::Load(d, imm1, imm2) => {
            // lddw is split in two
            let mut insn = Insn::new(Operation::Load(MemSize::DoubleWord));
            insn.dst = d.to_dst(only_verified);
            insn.imm = *imm1 as i64;
            code.push(insn);
            let mut insn = Insn::new(Operation::Load(MemSize::Word));
            insn.imm = *imm2 as i64;
            code.push(insn);
        },
        FuzzedInstruction::LoadUnsplit(d, m, imm) => {
            let mut insn = Insn::new(Operation::Load(*m));
            insn.dst = d.to_dst(only_verified);
            insn.imm = *imm;
            code.push(insn);
        },
        FuzzedInstruction::LoadAbs(m, imm) => {
            let mut insn = Insn::new(Operation::LoadAbs(*m));
            insn.imm = *imm as i64;
            code.push(insn);
        },
        FuzzedInstruction::LoadInd(m, s, imm) => {
            let mut insn = Insn::new(Operation::LoadInd(*m));
            insn.src = s.to_src();
            insn.imm = *imm as i64;
            code.push(insn);
        },
        FuzzedInstruction::LoadX(d, m, s, off) => {
            let mut insn = Insn::new(Operation::LoadX(*m));
            insn.dst = d.to_dst(only_verified);
            insn.src = s.to_src();
            insn.off = *off;
            code.push(insn);
        },
        FuzzedInstruction::Store(d, m, off, imm) => {
            let mut insn = Insn::new(Operation::Store(*m));
            insn.dst = d.to_dst(only_verified);
            insn.off = *off;
            insn.imm = *imm as i64;
            code.push(insn);
        },
        FuzzedInstruction::StoreX(d, m, off, s) => {
            let mut insn = Insn::new(Operation::StoreX(*m));
            insn.dst = d.to_dst(only_verified);
            insn.off = *off;
            insn.src = s.to_src();
            code.push(insn);
        },
        FuzzedInstruction::Jump(_) => {
            let mut insn = Insn::new(Operation::JumpUnconditional);
            insn.off = jump;
            code.push(insn);
        },
        FuzzedInstruction::JumpC(d, c, s, _) => {
            let mut insn = complete_alu_insn(
                Operation::JumpConditional(*c, Source::from(s)),
                d,
                s,
                only_verified,
            );
            insn.off = jump;
            code.push(insn);
        },
        FuzzedInstruction::Call(FuzzedSource::Imm(imm)) => {
            let mut insn = Insn::new(Operation::Call);
            insn.imm = *imm as i64;
            code.push(insn);
        },
        FuzzedInstruction::Call(FuzzedSource::Reg(r)) => {
            // Registers are restricted to 0-9 (not 10), so we use to_dst()
            let reg: u8 = r.to_dst(only_verified);
            let mut insn = Insn::new(Operation::CallReg);
            insn.dst = reg;
            insn.src = reg;
            insn.imm = reg as i64;
            code.push(insn);
        },
        FuzzedInstruction::Exit => code.push(Insn::new(Operation::Exit)),
        FuzzedInstruction::Pqr(op, a, d, s) => code.push(
            complete_alu_insn_nonzero(
                Operation::Pqr(Source::from(s), *a, *op),
                d,
                s,
                only_verified,
            ),
        ),
        FuzzedInstruction::JumpC32(d, c, s, _) => {
            let mut insn = complete_alu_insn(
                Operation::JumpConditional32(*c, Source::from(s)),
                d,
                s,
                only_verified,
            );
            insn.off = jump;
            code.push(insn);
        },
        FuzzedInstruction::Hor64Imm(d, imm) => {
            let mut insn = Insn::new(Operation::Hor64Imm);
            insn.dst = d.to_dst(only_verified);
            insn.imm = *imm as i64;
            code.push(insn);
        },
        FuzzedInstruction::StackAdjust(factor) => {
            // ADD64_IMM to r10 (FRAME_PTR_REG) - immediate must be aligned to 64 bytes
            let mut insn = Insn::new(Operation::Add(Source::Imm, Arch::X64));
            insn.dst = FRAME_PTR_REG;
            insn.imm = (*factor as i64) * 64;
            code.push(insn);
        },
    }
    assert(code.instructions@ =~= old(code).instructions@ + emitted(*op, jump, only_verified));
}

/// Generates the code of a program
pub fn make_program(prog: &FuzzProgram, sbpf_version: SBPFVersion, only_verified: bool) -> (code:
    BpfCode)
    requires
        2 * prog@.len() <= usize::MAX,
        forall|i: int| 0 <= i < prog@.len() ==> is_available(#[trigger] prog@[i], only_verified),
        jumps_fit(prog@, sbpf_version, only_verified),
    ensures
        code.sbpf_version == sbpf_version,
        code.instructions@ == code_of(
            prog@,
            prog@.len() as int,
            sbpf_version,
            only_verified,
        ).push(Insn::spec_new(Operation::Exit)),
        forall|k: int|
            0 <= k < code.instructions@.len() ==> !divides_by_zero(
                #[trigger] code.instructions@[k],
            ),
{
    let mut code = BpfCode::new(sbpf_version);
    let len: usize = calculate_length(prog, sbpf_version, only_verified);
    let mut pos: usize = 0;
    let ghost all = prog@;
    let mut i: usize = 0;
    while i < prog.len()
        invariant
            i <= all.len(),
            all == prog@,
            2 * all.len() <= usize::MAX,
            pos <= 2 * i,
            pos == position(all, i as int, sbpf_version, only_verified),
            len == position(all, all.len() as int, sbpf_version, only_verified),
            jumps_fit(all, sbpf_version, only_verified),
            forall|k: int| 0 <= k < all.len() ==> is_available(#[trigger] all[k], only_verified),
            code.sbpf_version == sbpf_version,
            code.instructions@ == code_of(all, i as int, sbpf_version, only_verified),
            forall|k: int|
                0 <= k < code.instructions@.len() ==> !divides_by_zero(
                    #[trigger] code.instructions@[k],
                ),
        decreases all.len() - i,
    {
        let inst = prog[i];
        let op = match inst {
            FuzzedInstruction::JumpC(_, Cond::Abs, FuzzedSource::Reg(_), off) => {
                FuzzedInstruction::Jump(off)
            },
            _ => inst,
        };
        // Skip instructions that are not valid for this SBPF version
        if should_skip_instruction(&op, sbpf_version, only_verified) {
            i = i + 1;
            continue;
        }
        assert(!is_skipped(all[i as int], sbpf_version, only_verified));
        proof {
            lemma_position_increases(all, i + 1, all.len() as int, sbpf_version, only_verified);
        }
        let jump: i16 = match op {
            FuzzedInstruction::Jump(off)
            | FuzzedInstruction::JumpC(_, _, _, off)
            | FuzzedInstruction::JumpC32(_, _, _, off) => fix_jump(
                prog,
                off,
                pos,
                len,
                sbpf_version,
                only_verified,
            ),
            _ => 0,
        };
        push_instruction(&mut code, &op, jump, only_verified);
        pos = pos + match op {
            FuzzedInstruction::Load(_, _, _) => 2,
            _ => 1,
        };
        i = i + 1;
    }
    code.push(Insn::new(Operation::Exit));
    code
}

/// The code has one instruction per slot.
pub proof fn law_code_fills_the_slots(
    prog: Seq<FuzzedInstruction>,
    count: int,
    sbpf_version: SBPFVersion,
    only_verified: bool,
)
    ensures
        code_of(prog, count, sbpf_version, only_verified).len() == position(
            prog,
            count,
            sbpf_version,
            only_verified,
        ),
    decreases count,
{
    if count > 0 {
        law_code_fills_the_slots(prog, count - 1, sbpf_version, only_verified);
    }
}

/// Every jump of a program that shall pass verification leads to the start of an instruction, if the
/// slots can be counted in 16 bits.
pub proof fn law_jumps_lead_to_instructions(
    prog: Seq<FuzzedInstruction>,
    off: i16,
    index: int,
    sbpf_version: SBPFVersion,
)
    requires
        0 <= index < prog.len(),
        !is_skipped(prog[index], sbpf_version, true),
        position(prog, prog.len() as int, sbpf_version, true) <= i16::MAX,
    ensures
        ({
            let pos = position(prog, index, sbpf_version, true);
            let landing = pos + 1 + jump_offset(prog, off, pos as usize, sbpf_version, true);
            &&& jump_fits(prog, off, pos as usize, sbpf_version, true)
            &&& is_start(prog, landing, sbpf_version, true)
            &&& 0 <= landing < position(prog, prog.len() as int, sbpf_version, true)
        }),
{
    let len = position(prog, prog.len() as int, sbpf_version, true);
    let pos = position(prog, index, sbpf_version, true);
    lemma_position_increases(prog, index + 1, prog.len() as int, sbpf_version, true);
    assert(pos < len);
    let target = picked_slot(off, len);
    assert(0 <= target < len) by (nonlinear_arith)
        requires
            target == (off as usize) % (len as usize),
            0 < len <= i16::MAX,
    ;
    assert(target as i16 == target);
    assert((pos as usize) as i16 == pos);
    lemma_start_near(prog, target as int, prog.len() as int, sbpf_version, true);
}

/// The jumps of a program whose slots can be counted in 16 bits all fit, and so do those of a program
/// that need not pass verification.
pub proof fn law_jumps_of_short_programs_fit(
    prog: Seq<FuzzedInstruction>,
    sbpf_version: SBPFVersion,
    only_verified: bool,
)
    requires
        only_verified ==> position(prog, prog.len() as int, sbpf_version, true) <= i16::MAX,
    ensures
        jumps_fit(prog, sbpf_version, only_verified),
{
    if only_verified {
        assert forall|i: int|
            0 <= i < prog.len() && !is_skipped(#[trigger] prog[i], sbpf_version, true) implies (
        offset_of(prog[i]) matches Some(off) ==> jump_fits(
            prog,
            off,
            position(prog, i, sbpf_version, true) as usize,
            sbpf_version,
            true,
        )) by {
            if let Some(off) = offset_of(prog[i]) {
                law_jumps_lead_to_instructions(prog, off, i, sbpf_version);
            }
        }
    }
}

/// At every slot, or at the one before, an instruction starts.
pub proof fn lemma_start_near(
    prog: Seq<FuzzedInstruction>,
    target: int,
    count: int,
    sbpf_version: SBPFVersion,
    only_verified: bool,
)
    requires
        0 <= count <= prog.len(),
        0 <= target < position(prog, count, sbpf_version, only_verified),
    ensures
        is_start(prog, target, sbpf_version, only_verified) || (target > 0 && is_start(
            prog,
            target - 1,
            sbpf_version,
            only_verified,
        )),
    decreases count,
{
    let before = position(prog, count - 1, sbpf_version, only_verified);
    if target < before {
        lemma_start_near(prog, target, count - 1, sbpf_version, only_verified);
    } else {
        assert(target == before || target == before + 1);
        assert(is_start(prog, before as int, sbpf_version, only_verified));
    }
}

/// Is there such an operation in the given version of the instruction set
pub open spec fn is_supported(
    operation: Operation,
    sbpf_version: SBPFVersion,
    only_verified: bool,
) -> bool {
    match operation {
        Operation::Mul(..)
        | Operation::Div(..)
        | Operation::Modulo(..)
        | Operation::Negate(..) => sbpf_version !is V2,
        Operation::SwapBytes(endian) => sbpf_version is V2 ==> endian is Big,
        Operation::Load(_) => only_verified ==> sbpf_version !is V2,
        Operation::Pqr(_, arch, op) => {
            &&& sbpf_version is V2
            &&& only_verified && (op is Uhmul || op is Shmul) ==> arch is X64
        },
        Operation::Hor64Imm => sbpf_version is V2,
        Operation::JumpConditional32(cond, _) => {
            &&& sbpf_version.ordinal() >= SBPFVersion::V3.ordinal()
            &&& cond !is Abs
        },
        _ => true,
    }
}

/// Does the instruction only write to registers that it may write to. The frame pointer may only be
/// adjusted, and by multiples of 64 bytes.
pub open spec fn writes_where_it_may(
    insn: Insn,
    sbpf_version: SBPFVersion,
    only_verified: bool,
) -> bool {
    if only_verified && insn.dst >= FRAME_PTR_REG {
        &&& insn.dst == FRAME_PTR_REG
        &&& insn.operation == Operation::Add(Source::Imm, Arch::X64)
        &&& insn.imm % 64 == 0
        &&& sbpf_version is V1 || sbpf_version is V2
    } else {
        insn.dst <= FRAME_PTR_REG
    }
}

/// Is the operation a shift
spec fn is_shift(operation: Operation) -> bool {
    operation is LeftShift || operation is RightShift || operation is SignedRightShift
}

/// Does the instruction shift by less than the number of bits, if it shifts by an immediate value
pub open spec fn shifts_in_range(insn: Insn) -> bool {
    match insn.operation {
        Operation::LeftShift(source, arch)
        | Operation::RightShift(source, arch)
        | Operation::SignedRightShift(source, arch) => source is Imm ==> 0 <= insn.imm < bits_of(
            arch,
        ),
        _ => true,
    }
}

/// Is the instruction one of its version that writes to no register that it may not write to, reads
/// from none that is not there, and does not shift by too much
pub open spec fn is_meaningful(
    insn: Insn,
    sbpf_version: SBPFVersion,
    only_verified: bool,
) -> bool {
    &&& is_supported(insn.operation, sbpf_version, only_verified)
    &&& writes_where_it_may(insn, sbpf_version, only_verified)
    &&& insn.src <= FRAME_PTR_REG
    &&& shifts_in_range(insn)
}

/// The operation in the slot `k` of the code of an instruction
spec fn operation_of(op: FuzzedInstruction, k: int) -> Operation {
    match op {
        FuzzedInstruction::Add(a, _, s) => Operation::Add(source_of(s), a),
        FuzzedInstruction::Sub(a, _, s) => Operation::Sub(source_of(s), a),
        FuzzedInstruction::Mul(a, _, s) => Operation::Mul(source_of(s), a),
        FuzzedInstruction::BitOr(a, _, s) => Operation::BitOr(source_of(s), a),
        FuzzedInstruction::BitAnd(a, _, s) => Operation::BitAnd(source_of(s), a),
        FuzzedInstruction::BitXor(a, _, s) => Operation::BitXor(source_of(s), a),
        FuzzedInstruction::Mov(a, _, s) => Operation::Mov(source_of(s), a),
        FuzzedInstruction::LeftShift(a, _, s) => Operation::LeftShift(source_of(s), a),
        FuzzedInstruction::RightShift(a, _, s) => Operation::RightShift(source_of(s), a),
        FuzzedInstruction::SRS(a, _, s) => Operation::SignedRightShift(source_of(s), a),
        FuzzedInstruction::Div(a, _, s) => Operation::Div(nonzero_source_of(s), a),
        FuzzedInstruction::Modulo(a, _, s) => Operation::Modulo(nonzero_source_of(s), a),
        FuzzedInstruction::Negate(a, _) => Operation::Negate(a),
        FuzzedInstruction::SwapBytes(_, e, _) => Operation::SwapBytes(e),
        FuzzedInstruction::Load(..) => Operation::Load(
            if k == 0 {
                MemSize::DoubleWord
            } else {
                MemSize::Word
            },
        ),
        FuzzedInstruction::LoadUnsplit(_, m, _) => Operation::Load(m),
        FuzzedInstruction::LoadAbs(m, _) => Operation::LoadAbs(m),
        FuzzedInstruction::LoadInd(m, _, _) => Operation::LoadInd(m),
        FuzzedInstruction::LoadX(_, m, _, _) => Operation::LoadX(m),
        FuzzedInstruction::Store(_, m, _, _) => Operation::Store(m),
        FuzzedInstruction::StoreX(_, m, _, _) => Operation::StoreX(m),
        FuzzedInstruction::Jump(_) => Operation::JumpUnconditional,
        FuzzedInstruction::JumpC(_, c, s, _) => if c is Abs && s is Reg {
            Operation::JumpUnconditional
        } else {
            Operation::JumpConditional(c, source_of(s))
        },
        FuzzedInstruction::Call(FuzzedSource::Imm(_)) => Operation::Call,
        FuzzedInstruction::Call(FuzzedSource::Reg(_)) => Operation::CallReg,
        FuzzedInstruction::Exit => Operation::Exit,
        FuzzedInstruction::Pqr(op, a, _, s) => Operation::Pqr(nonzero_source_of(s), a, op),
        FuzzedInstruction::JumpC32(_, c, s, _) => Operation::JumpConditional32(c, source_of(s)),
        FuzzedInstruction::Hor64Imm(..) => Operation::Hor64Imm,
        FuzzedInstruction::StackAdjust(_) => Operation::Add(Source::Imm, Arch::X64),
    }
}

/// The code of an instruction holds its operations.
#[verifier::spinoff_prover]
proof fn lemma_emitted_operation(op: FuzzedInstruction, jump: i16, only_verified: bool, k: int)
    requires
        0 <= k < emitted(op, jump, only_verified).len(),
    ensures
        emitted(op, jump, only_verified)[k].operation == operation_of(op, k),
{
    let insn = emitted(op, jump, only_verified)[k];
    match op {
        FuzzedInstruction::Add(a, d, s) => {
            assert(insn == alu_insn(operation_of(op, k), d, s, only_verified));
        },
        FuzzedInstruction::Sub(a, d, s) => {
            assert(insn == alu_insn(operation_of(op, k), d, s, only_verified));
        },
        FuzzedInstruction::Mul(a, d, s) => {
            assert(insn == alu_insn(operation_of(op, k), d, s, only_verified));
        },
        FuzzedInstruction::BitOr(a, d, s) => {
            assert(insn == alu_insn(operation_of(op, k), d, s, only_verified));
        },
        FuzzedInstruction::BitAnd(a, d, s) => {
            assert(insn == alu_insn(operation_of(op, k), d, s, only_verified));
        },
        FuzzedInstruction::BitXor(a, d, s) => {
            assert(insn == alu_insn(operation_of(op, k), d, s, only_verified));
        },
        FuzzedInstruction::Mov(a, d, s) => {
            assert(insn == alu_insn(operation_of(op, k), d, s, only_verified));
        },
        FuzzedInstruction::LeftShift(a, d, s) => {
            assert(insn == shift_insn(operation_of(op, k), a, d, s, only_verified));
        },
        FuzzedInstruction::RightShift(a, d, s) => {
            assert(insn == shift_insn(operation_of(op, k), a, d, s, only_verified));
        },
        FuzzedInstruction::SRS(a, d, s) => {
            assert(insn == shift_insn(operation_of(op, k), a, d, s, only_verified));
        },
        FuzzedInstruction::Div(a, d, s) => {
            assert(insn == nonzero_insn(operation_of(op, k), d, s, only_verified));
        },
        FuzzedInstruction::Modulo(a, d, s) => {
            assert(insn == nonzero_insn(operation_of(op, k), d, s, only_verified));
        },
        FuzzedInstruction::Pqr(_, a, d, s) => {
            assert(insn == nonzero_insn(operation_of(op, k), d, s, only_verified));
        },
        FuzzedInstruction::Load(..) => {
            assert(k == 0 || k == 1);
        },
        _ => {
            assert(k == 0);
        },
    }
}

/// The operations of an instruction that is not skipped are supported.
proof fn lemma_operation_is_supported(
    op: FuzzedInstruction,
    sbpf_version: SBPFVersion,
    only_verified: bool,
    k: int,
)
    requires
        is_available(op, only_verified),
        !is_skipped(op, sbpf_version, only_verified),
    ensures
        is_supported(operation_of(op, k), sbpf_version, only_verified),
{
}

/// The code of an instruction that is not skipped is supported.
proof fn lemma_emitted_is_supported(
    op: FuzzedInstruction,
    jump: i16,
    sbpf_version: SBPFVersion,
    only_verified: bool,
    k: int,
)
    requires
        is_available(op, only_verified),
        !is_skipped(op, sbpf_version, only_verified),
        0 <= k < emitted(op, jump, only_verified).len(),
    ensures
        is_supported(
            emitted(op, jump, only_verified)[k].operation,
            sbpf_version,
            only_verified,
        ),
{
    lemma_emitted_operation(op, jump, only_verified, k);
    lemma_operation_is_supported(op, sbpf_version, only_verified, k);
}

/// Does the instruction write to a register that any instruction may write to, and read from one
/// that is there
spec fn has_plain_registers(insn: Insn, only_verified: bool) -> bool {
    &&& insn.dst <= FRAME_PTR_REG
    &&& only_verified ==> insn.dst < FRAME_PTR_REG
    &&& insn.src <= FRAME_PTR_REG
}

/// An instruction with two operands only uses registers that any instruction may use.
proof fn lemma_alu_registers(
    operation: Operation,
    dst: Register,
    src: FuzzedSource,
    only_verified: bool,
)
    ensures
        has_plain_registers(alu_insn(operation, dst, src, only_verified), only_verified),
{
}

/// A shift only uses registers that any instruction may use.
proof fn lemma_shift_registers(
    operation: Operation,
    arch: Arch,
    dst: Register,
    src: FuzzedSource,
    only_verified: bool,
)
    ensures
        has_plain_registers(shift_insn(operation, arch, dst, src, only_verified), only_verified),
{
}

/// A division only uses registers that any instruction may use.
proof fn lemma_nonzero_registers(
    operation: Operation,
    dst: Register,
    src: FuzzedNonZeroSource,
    only_verified: bool,
)
    ensures
        has_plain_registers(nonzero_insn(operation, dst, src, only_verified), only_verified),
{
}

/// The code of an instruction only uses registers that it may use.
#[verifier::spinoff_prover]
proof fn lemma_emitted_registers(
    op: FuzzedInstruction,
    jump: i16,
    sbpf_version: SBPFVersion,
    only_verified: bool,
    k: int,
)
    requires
        is_available(op, only_verified),
        !is_skipped(op, sbpf_version, only_verified),
        0 <= k < emitted(op, jump, only_verified).len(),
    ensures
        writes_where_it_may(emitted(op, jump, only_verified)[k], sbpf_version, only_verified),
        emitted(op, jump, only_verified)[k].src <= FRAME_PTR_REG,
{
    let insn = emitted(op, jump, only_verified)[k];
    match op {
        FuzzedInstruction::Add(a, d, s) => {
            let operation = Operation::Add(source_of(s), a);
            lemma_alu_registers(operation, d, s, only_verified);
            assert(insn == alu_insn(operation, d, s, only_verified));
        },
        FuzzedInstruction::Sub(a, d, s) => {
            let operation = Operation::Sub(source_of(s), a);
            lemma_alu_registers(operation, d, s, only_verified);
            assert(insn == alu_insn(operation, d, s, only_verified));
        },
        FuzzedInstruction::Mul(a, d, s) => {
            let operation = Operation::Mul(source_of(s), a);
            lemma_alu_registers(operation, d, s, only_verified);
            assert(insn == alu_insn(operation, d, s, only_verified));
        },
        FuzzedInstruction::BitOr(a, d, s) => {
            let operation = Operation::BitOr(source_of(s), a);
            lemma_alu_registers(operation, d, s, only_verified);
            assert(insn == alu_insn(operation, d, s, only_verified));
        },
        FuzzedInstruction::BitAnd(a, d, s) => {
            let operation = Operation::BitAnd(source_of(s), a);
            lemma_alu_registers(operation, d, s, only_verified);
            assert(insn == alu_insn(operation, d, s, only_verified));
        },
        FuzzedInstruction::BitXor(a, d, s) => {
            let operation = Operation::BitXor(source_of(s), a);
            lemma_alu_registers(operation, d, s, only_verified);
            assert(insn == alu_insn(operation, d, s, only_verified));
        },
        FuzzedInstruction::Mov(a, d, s) => {
            let operation = Operation::Mov(source_of(s), a);
            lemma_alu_registers(operation, d, s, only_verified);
            assert(insn == alu_insn(operation, d, s, only_verified));
        },
        FuzzedInstruction::LeftShift(a, d, s) => {
            let operation = Operation::LeftShift(source_of(s), a);
            lemma_shift_registers(operation, a, d, s, only_verified);
            assert(insn == shift_insn(operation, a, d, s, only_verified));
        },
        FuzzedInstruction::RightShift(a, d, s) => {
            let operation = Operation::RightShift(source_of(s), a);
            lemma_shift_registers(operation, a, d, s, only_verified);
            assert(insn == shift_insn(operation, a, d, s, only_verified));
        },
        FuzzedInstruction::SRS(a, d, s) => {
            let operation = Operation::SignedRightShift(source_of(s), a);
            lemma_shift_registers(operation, a, d, s, only_verified);
            assert(insn == shift_insn(operation, a, d, s, only_verified));
        },
        FuzzedInstruction::Div(a, d, s) => {
            let operation = Operation::Div(nonzero_source_of(s), a);
            lemma_nonzero_registers(operation, d, s, only_verified);
            assert(insn == nonzero_insn(operation, d, s, only_verified));
        },
        FuzzedInstruction::Modulo(a, d, s) => {
            let operation = Operation::Modulo(nonzero_source_of(s), a);
            lemma_nonzero_registers(operation, d, s, only_verified);
            assert(insn == nonzero_insn(operation, d, s, only_verified));
        },
        FuzzedInstruction::Pqr(op, a, d, s) => {
            let operation = Operation::Pqr(nonzero_source_of(s), a, op);
            lemma_nonzero_registers(operation, d, s, only_verified);
            assert(insn == nonzero_insn(operation, d, s, only_verified));
        },
        FuzzedInstruction::JumpC(d, c, s, _) => {
            lemma_alu_registers(
                Operation::JumpConditional(c, source_of(s)),
                d,
                s,
                only_verified,
            );
            assert(has_plain_registers(insn, only_verified));
        },
        FuzzedInstruction::JumpC32(d, c, s, _) => {
            lemma_alu_registers(
                Operation::JumpConditional32(c, source_of(s)),
                d,
                s,
                only_verified,
            );
            assert(has_plain_registers(insn, only_verified));
        },
        FuzzedInstruction::StackAdjust(factor) => {
            assert((factor * 64) as i64 == factor * 64);
            assert(insn.src == 0);
        },
        _ => {
            assert(has_plain_registers(insn, only_verified));
        },
    }
}

/// Only the code of a shift holds one.
proof fn lemma_no_shift(op: FuzzedInstruction, k: int)
    requires
        op !is LeftShift,
        op !is RightShift,
        op !is SRS,
    ensures
        !is_shift(operation_of(op, k)),
{
}

/// A shift is by less than the number of bits.
proof fn lemma_shift_in_range(
    operation: Operation,
    arch: Arch,
    dst: Register,
    src: FuzzedSource,
    only_verified: bool,
)
    requires
        operation == Operation::LeftShift(source_of(src), arch) || operation
            == Operation::RightShift(source_of(src), arch) || operation
            == Operation::SignedRightShift(source_of(src), arch),
    ensures
        shifts_in_range(shift_insn(operation, arch, dst, src, only_verified)),
{
}

/// The code of an instruction does not shift by too much.
#[verifier::spinoff_prover]
proof fn lemma_emitted_shifts(
    op: FuzzedInstruction,
    jump: i16,
    sbpf_version: SBPFVersion,
    only_verified: bool,
    k: int,
)
    requires
        is_available(op, only_verified),
        !is_skipped(op, sbpf_version, only_verified),
        0 <= k < emitted(op, jump, only_verified).len(),
    ensures
        shifts_in_range(emitted(op, jump, only_verified)[k]),
{
    lemma_emitted_operation(op, jump, only_verified, k);
    let insn = emitted(op, jump, only_verified)[k];
    match op {
        FuzzedInstruction::LeftShift(a, d, s) => {
            let operation = Operation::LeftShift(source_of(s), a);
            assert(insn == shift_insn(operation, a, d, s, only_verified));
            lemma_shift_in_range(operation, a, d, s, only_verified);
        },
        FuzzedInstruction::RightShift(a, d, s) => {
            let operation = Operation::RightShift(source_of(s), a);
            assert(insn == shift_insn(operation, a, d, s, only_verified));
            lemma_shift_in_range(operation, a, d, s, only_verified);
        },
        FuzzedInstruction::SRS(a, d, s) => {
            let operation = Operation::SignedRightShift(source_of(s), a);
            assert(insn == shift_insn(operation, a, d, s, only_verified));
            lemma_shift_in_range(operation, a, d, s, only_verified);
        },
        _ => {
            lemma_no_shift(op, k);
        },
    }
}

/// The code only holds operations of its version, and none that writes to a register that it may not
/// write to, reads from one that is not there, or shifts by too much.
pub proof fn law_code_is_meaningful(
    prog: Seq<FuzzedInstruction>,
    count: int,
    sbpf_version: SBPFVersion,
    only_verified: bool,
    slot: int,
)
    requires
        0 <= count <= prog.len(),
        forall|i: int| 0 <= i < prog.len() ==> is_available(#[trigger] prog[i], only_verified),
        0 <= slot < code_of(prog, count, sbpf_version, only_verified).len(),
    ensures
        is_meaningful(
            code_of(prog, count, sbpf_version, only_verified)[slot],
            sbpf_version,
            only_verified,
        ),
    decreases count,
{
    let before = code_of(prog, count - 1, sbpf_version, only_verified);
    let op = prog[count - 1];
    if slot < before.len() {
        law_code_is_meaningful(prog, count - 1, sbpf_version, only_verified, slot);
        assert(code_of(prog, count, sbpf_version, only_verified)[slot] == before[slot]);
    } else {
        let jump = jump_of(prog, count - 1, sbpf_version, only_verified);
        let k = slot - before.len();
        assert(code_of(prog, count, sbpf_version, only_verified)[slot] == emitted(
            op,
            jump,
            only_verified,
        )[k]);
        lemma_emitted_is_supported(op, jump, sbpf_version, only_verified, k);
        lemma_emitted_registers(op, jump, sbpf_version, only_verified, k);
        lemma_emitted_shifts(op, jump, sbpf_version, only_verified, k);
    }
}

} // verus!
