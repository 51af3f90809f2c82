//! Programs that are made up of arbitrary, but well formed, instructions.
use vstd::prelude::*;

use crate::insn_builder::{
    Arch, BpfCode, Cond, Endian, Insn, MemSize, Operation, PqrOp, Source,
};
use crate::version::SBPFVersion;

verus! {

/// Operation of an arbitrary instruction
#[derive(Debug, Clone, Copy, PartialEq, Eq, Structural)]
pub enum FuzzedOp {
    /// Addition
    Add(Arch, Source),
    /// Subtraction
    Sub(Arch, Source),
    /// Multiplication
    Mul(Arch, Source),
    /// Division
    Div(Arch, Source),
    /// Bitwise disjunction
    BitOr(Arch, Source),
    /// Bitwise conjunction
    BitAnd(Arch, Source),
    /// Shift to the left
    LeftShift(Arch, Source),
    /// Shift to the right
    RightShift(Arch, Source),
    /// Negation
    Negate(Arch),
    /// Remainder
    Modulo(Arch, Source),
    /// Bitwise exclusive disjunction
    BitXor(Arch, Source),
    /// Move
    Mov(Arch, Source),
    /// Shift to the right, filling with the sign
    SRS(Arch, Source),
    /// Change of the byte order
    SwapBytes(Endian),
    /// Load of an immediate value
    Load(MemSize),
    /// Load from an absolute address
    LoadAbs(MemSize),
    /// Load from an indirect address
    LoadInd(MemSize),
    /// Load from the address in a register
    LoadX(MemSize),
    /// Store of an immediate value
    Store(MemSize),
    /// Store of a register
    StoreX(MemSize),
    /// Jump
    Jump,
    /// Conditional jump
    JumpC(Cond, Source),
    /// Call of a function
    Call,
    /// Call of the function in a register
    CallReg,
    /// Return from a function
    Exit,
    /// Product, quotient or remainder of V2
    Pqr(PqrOp, Arch, Source),
    /// Load of V2
    LoadV2(MemSize),
    /// Store of an immediate value of V2
    StoreV2(MemSize),
    /// Store of a register of V2
    StoreV2X(MemSize),
    /// Disjunction with the higher half of an immediate value of V2
    Hor64Imm,
    /// Conditional jump on 32 bits of V3
    JumpC32(Cond, Source),
}

/// Number of the variant of an operation, whatever its arguments are
pub open spec fn kind_of(op: FuzzedOp) -> u8 {
    match op {
        FuzzedOp::Add(_, _) => 0,
        FuzzedOp::Sub(_, _) => 1,
        FuzzedOp::Mul(_, _) => 2,
        FuzzedOp::Div(_, _) => 3,
        FuzzedOp::BitOr(_, _) => 4,
        FuzzedOp::BitAnd(_, _) => 5,
        FuzzedOp::LeftShift(_, _) => 6,
        FuzzedOp::RightShift(_, _) => 7,
        FuzzedOp::Negate(_) => 8,
        FuzzedOp::Modulo(_, _) => 9,
        FuzzedOp::BitXor(_, _) => 10,
        FuzzedOp::Mov(_, _) => 11,
        FuzzedOp::SRS(_, _) => 12,
        FuzzedOp::SwapBytes(_) => 13,
        FuzzedOp::Load(_) => 14,
        FuzzedOp::LoadAbs(_) => 15,
        FuzzedOp::LoadInd(_) => 16,
        FuzzedOp::LoadX(_) => 17,
        FuzzedOp::Store(_) => 18,
        FuzzedOp::StoreX(_) => 19,
        FuzzedOp::Jump => 20,
        FuzzedOp::JumpC(_, _) => 21,
        FuzzedOp::Call => 22,
        FuzzedOp::CallReg => 23,
        FuzzedOp::Exit => 24,
        FuzzedOp::Pqr(_, _, _) => 25,
        FuzzedOp::LoadV2(_) => 26,
        FuzzedOp::StoreV2(_) => 27,
        FuzzedOp::StoreV2X(_) => 28,
        FuzzedOp::Hor64Imm => 29,
        FuzzedOp::JumpC32(_, _) => 30,
    }
}

/// How much one operation is like another one of the same kind
pub open spec fn op_similarity(a: FuzzedOp, b: FuzzedOp) -> Option<u8> {
    if kind_of(a) != kind_of(b) {
        None
    } else if a == b {
        Some(0)
    } else {
        Some(8)
    }
}

/// The operation of the instruction that is generated
pub open spec fn operation_of(op: FuzzedOp) -> Operation {
    match op {
        FuzzedOp::Add(arch, src) => Operation::Add(src, arch),
        FuzzedOp::Sub(arch, src) => Operation::Sub(src, arch),
        FuzzedOp::Mul(arch, src) => Operation::Mul(src, arch),
        FuzzedOp::Div(arch, src) => Operation::Div(src, arch),
        FuzzedOp::BitOr(arch, src) => Operation::BitOr(src, arch),
        FuzzedOp::BitAnd(arch, src) => Operation::BitAnd(src, arch),
        FuzzedOp::LeftShift(arch, src) => Operation::LeftShift(src, arch),
        FuzzedOp::RightShift(arch, src) => Operation::RightShift(src, arch),
        FuzzedOp::Negate(arch) => Operation::Negate(arch),
        FuzzedOp::Modulo(arch, src) => Operation::Modulo(src, arch),
        FuzzedOp::BitXor(arch, src) => Operation::BitXor(src, arch),
        FuzzedOp::Mov(arch, src) => Operation::Mov(src, arch),
        FuzzedOp::SRS(arch, src) => Operation::SignedRightShift(src, arch),
        FuzzedOp::SwapBytes(endian) => Operation::SwapBytes(endian),
        FuzzedOp::Load(mem) => Operation::Load(mem),
        FuzzedOp::LoadAbs(mem) => Operation::LoadAbs(mem),
        FuzzedOp::LoadInd(mem) => Operation::LoadInd(mem),
        FuzzedOp::LoadX(mem) => Operation::LoadX(mem),
        FuzzedOp::Store(mem) => Operation::Store(mem),
        FuzzedOp::StoreX(mem) => Operation::StoreX(mem),
        FuzzedOp::Jump => Operation::JumpUnconditional,
        FuzzedOp::JumpC(cond, src) => Operation::JumpConditional(cond, src),
        FuzzedOp::Call => Operation::Call,
        FuzzedOp::CallReg => Operation::CallReg,
        FuzzedOp::Exit => Operation::Exit,
        FuzzedOp::Pqr(pqr_op, arch, src) => Operation::Pqr(src, arch, pqr_op),
        FuzzedOp::LoadV2(mem) => Operation::LoadX(mem),
        FuzzedOp::StoreV2(mem) => Operation::Store(mem),
        FuzzedOp::StoreV2X(mem) => Operation::StoreX(mem),
        FuzzedOp::Hor64Imm => Operation::Hor64Imm,
        FuzzedOp::JumpC32(cond, src) => Operation::JumpConditional32(cond, src),
    }
}

impl FuzzedOp {
    /// Number of the variant
    fn kind(&self) -> (kind: u8)
        ensures
            kind == kind_of(*self),
    {
        match *self {
            FuzzedOp::Add(_, _) => 0,
            FuzzedOp::Sub(_, _) => 1,
            FuzzedOp::Mul(_, _) => 2,
            FuzzedOp::Div(_, _) => 3,
            FuzzedOp::BitOr(_, _) => 4,
            FuzzedOp::BitAnd(_, _) => 5,
            FuzzedOp::LeftShift(_, _) => 6,
            FuzzedOp::RightShift(_, _) => 7,
            FuzzedOp::Negate(_) => 8,
            FuzzedOp::Modulo(_, _) => 9,
            FuzzedOp::BitXor(_, _) => 10,
            FuzzedOp::Mov(_, _) => 11,
            FuzzedOp::SRS(_, _) => 12,
            FuzzedOp::SwapBytes(_) => 13,
            FuzzedOp::Load(_) => 14,
            FuzzedOp::LoadAbs(_) => 15,
            FuzzedOp::LoadInd(_) => 16,
            FuzzedOp::LoadX(_) => 17,
            FuzzedOp::Store(_) => 18,
            FuzzedOp::StoreX(_) => 19,
            FuzzedOp::Jump => 20,
            FuzzedOp::JumpC(_, _) => 21,
            FuzzedOp::Call => 22,
            FuzzedOp::CallReg => 23,
            FuzzedOp::Exit => 24,
            FuzzedOp::Pqr(_, _, _) => 25,
            FuzzedOp::LoadV2(_) => 26,
            FuzzedOp::StoreV2(_) => 27,
            FuzzedOp::StoreV2X(_) => 28,
            FuzzedOp::Hor64Imm => 29,
            FuzzedOp::JumpC32(_, _) => 30,
        }
    }

    /// How much this is like another operation of the same kind
    pub fn similarity(&self, other: &FuzzedOp) -> (similarity: Option<u8>)
        ensures
            similarity == op_similarity(*self, *other),
    {
        if self.kind() == other.kind() {
            if *self == *other {
                Some(0)
            } else {
                Some(8)
            }
        } else {
            None
        }
    }

    /// The operation of the instruction that is generated
    fn operation(&self) -> (operation: Operation)
        ensures
            operation == operation_of(*self),
    {
        match *self {
            FuzzedOp::Add(arch, src) => Operation::Add(src, arch),
            FuzzedOp::Sub(arch, src) => Operation::Sub(src, arch),
            FuzzedOp::Mul(arch, src) => Operation::Mul(src, arch),
            FuzzedOp::Div(arch, src) => Operation::Div(src, arch),
            FuzzedOp::BitOr(arch, src) => Operation::BitOr(src, arch),
            FuzzedOp::BitAnd(arch, src) => Operation::BitAnd(src, arch),
            FuzzedOp::LeftShift(arch, src) => Operation::LeftShift(src, arch),
            FuzzedOp::RightShift(arch, src) => Operation::RightShift(src, arch),
            FuzzedOp::Negate(arch) => Operation::Negate(arch),
            FuzzedOp::Modulo(arch, src) => Operation::Modulo(src, arch),
            FuzzedOp::BitXor(arch, src) => Operation::BitXor(src, arch),
            FuzzedOp::Mov(arch, src) => Operation::Mov(src, arch),
            FuzzedOp::SRS(arch, src) => Operation::SignedRightShift(src, arch),
            FuzzedOp::SwapBytes(endian) => Operation::SwapBytes(endian),
            FuzzedOp::Load(mem) => Operation::Load(mem),
            FuzzedOp::LoadAbs(mem) => Operation::LoadAbs(mem),
            FuzzedOp::LoadInd(mem) => Operation::LoadInd(mem),
            FuzzedOp::LoadX(mem) => Operation::LoadX(mem),
            FuzzedOp::Store(mem) => Operation::Store(mem),
            FuzzedOp::StoreX(mem) => Operation::StoreX(mem),
            FuzzedOp::Jump => Operation::JumpUnconditional,
            FuzzedOp::JumpC(cond, src) => Operation::JumpConditional(cond, src),
            FuzzedOp::Call => Operation::Call,
            FuzzedOp::CallReg => Operation::CallReg,
            FuzzedOp::Exit => Operation::Exit,
            FuzzedOp::Pqr(pqr_op, arch, src) => Operation::Pqr(src, arch, pqr_op),
            FuzzedOp::LoadV2(mem) => Operation::LoadX(mem),
            FuzzedOp::StoreV2(mem) => Operation::Store(mem),
            FuzzedOp::StoreV2X(mem) => Operation::StoreX(mem),
            FuzzedOp::Hor64Imm => Operation::Hor64Imm,
            FuzzedOp::JumpC32(cond, src) => Operation::JumpConditional32(cond, src),
        }
    }
}

/// Arbitrary instruction
#[derive(Debug, Clone, Copy, PartialEq, Eq, Structural)]
pub struct FuzzedInstruction {
    /// What it does
    pub op: FuzzedOp,
    /// Destination register
    pub dst: u8,
    /// Source register
    pub src: u8,
    /// Offset of an address or a jump
    pub off: i16,
    /// Immediate value
    pub imm: i64,
}

/// One if the condition holds, else zero
pub open spec fn one_if(condition: bool) -> int {
    if condition {
        1
    } else {
        0
    }
}

/// Number of operands that two instructions have in common
pub open spec fn common_operands(a: FuzzedInstruction, b: FuzzedInstruction) -> int {
    one_if(a.dst == b.dst) + one_if(a.src == b.src) + one_if(a.off == b.off) + one_if(
        a.imm == b.imm,
    )
}

/// How much one instruction is like another one of the same kind
pub open spec fn spec_similarity(a: FuzzedInstruction, b: FuzzedInstruction) -> Option<int> {
    match op_similarity(a.op, b.op) {
        Some(s) => Some(s + common_operands(a, b)),
        None => None,
    }
}

/// The instruction that is generated
pub open spec fn insn_of(inst: FuzzedInstruction) -> Insn {
    Insn {
        operation: operation_of(inst.op),
        dst: inst.dst,
        src: inst.src,
        off: inst.off,
        imm: inst.imm,
    }
}

impl FuzzedInstruction {
    /// How much this is like another instruction of the same kind
    pub fn similarity(&self, other: &FuzzedInstruction) -> (similarity: Option<u8>)
        ensures
            match spec_similarity(*self, *other) {
                Some(s) => similarity == Some(s as u8) && 0 <= s <= 12,
                None => similarity is None,
            },
    {
        let mut s: u8 = match self.op.similarity(&other.op) {
            Some(s) => s,
            None => return None,
        };
        if self.dst == other.dst {
            s = s + 1;
        }
        if self.src == other.src {
            s = s + 1;
        }
        if self.off == other.off {
            s = s + 1;
        }
        if self.imm == other.imm {
            s = s + 1;
        }
        Some(s)
    }
}

/// Arbitrary program
pub type FuzzProgram = Vec<FuzzedInstruction>;

/// Generates the code of a program
pub fn make_program(prog: &FuzzProgram, sbpf_version: SBPFVersion) -> (code: BpfCode)
    ensures
        code.sbpf_version == sbpf_version,
        code.instructions@ == prog@.map_values(|inst: FuzzedInstruction| insn_of(inst)),
{
    let mut code = BpfCode::new(sbpf_version);
    let mut i: usize = 0;
    while i < prog.len()
        invariant
            i <= prog@.len(),
            code.sbpf_version == sbpf_version,
            code.instructions@ == prog@.take(i as int).map_values(
                |inst: FuzzedInstruction| insn_of(inst),
            ),
        decreases prog@.len() - i,
    {
        let inst = prog[i];
        code.push(
            Insn {
                operation: inst.op.operation(),
                dst: inst.dst,
                src: inst.src,
                off: inst.off,
                imm: inst.imm,
            },
        );
        i = i + 1;
        assert(code.instructions@ =~= prog@.take(i as int).map_values(
            |inst: FuzzedInstruction| insn_of(inst),
        ));
    }
    assert(prog@.take(i as int) =~= prog@);
    code
}

/// Similarity does not depend on the order of the instructions.
pub proof fn law_similarity_is_symmetric(a: FuzzedInstruction, b: FuzzedInstruction)
    ensures
        spec_similarity(a, b) == spec_similarity(b, a),
{
}

/// Instructions are comparable exactly if they are of the same kind.
pub proof fn law_similarity_compares_kinds(a: FuzzedInstruction, b: FuzzedInstruction)
    ensures
        spec_similarity(a, b) is Some <==> kind_of(a.op) == kind_of(b.op),
{
}

/// Among the instructions with the same operation, the number is that of the common operands. Those
/// with the same kind of operation, but other arguments, are above.
pub proof fn law_similarity_orders(a: FuzzedInstruction, b: FuzzedInstruction)
    requires
        kind_of(a.op) == kind_of(b.op),
    ensures
        a.op == b.op ==> spec_similarity(a, b) == Some(common_operands(a, b)) && common_operands(a, b)
            <= 4,
        a.op != b.op ==> spec_similarity(a, b) == Some(8 + common_operands(a, b)),
{
}

/// An arbitrary operation on two operands is generated as the same operation, with the same width and
/// source.
pub proof fn law_arithmetic_is_kept(arch: Arch, source: Source)
    ensures
        operation_of(FuzzedOp::Add(arch, source)) == Operation::Add(source, arch),
        operation_of(FuzzedOp::Sub(arch, source)) == Operation::Sub(source, arch),
        operation_of(FuzzedOp::Mul(arch, source)) == Operation::Mul(source, arch),
        operation_of(FuzzedOp::Div(arch, source)) == Operation::Div(source, arch),
        operation_of(FuzzedOp::BitOr(arch, source)) == Operation::BitOr(source, arch),
        operation_of(FuzzedOp::BitAnd(arch, source)) == Operation::BitAnd(source, arch),
        operation_of(FuzzedOp::LeftShift(arch, source)) == Operation::LeftShift(source, arch),
        operation_of(FuzzedOp::RightShift(arch, source)) == Operation::RightShift(source, arch),
        operation_of(FuzzedOp::Modulo(arch, source)) == Operation::Modulo(source, arch),
        operation_of(FuzzedOp::BitXor(arch, source)) == Operation::BitXor(source, arch),
{
}

/// Moves, changes of the byte order, products and jumps are generated as what they are, with the same
/// width, source, byte order and condition.
pub proof fn law_moves_and_jumps_are_kept(
    arch: Arch,
    source: Source,
    endian: Endian,
    cond: Cond,
    pqr: PqrOp,
)
    ensures
        operation_of(FuzzedOp::Mov(arch, source)) == Operation::Mov(source, arch),
        operation_of(FuzzedOp::SRS(arch, source)) == Operation::SignedRightShift(source, arch),
        operation_of(FuzzedOp::Negate(arch)) == Operation::Negate(arch),
        operation_of(FuzzedOp::SwapBytes(endian)) == Operation::SwapBytes(endian),
        operation_of(FuzzedOp::Jump) == Operation::JumpUnconditional,
        operation_of(FuzzedOp::JumpC(cond, source)) == Operation::JumpConditional(cond, source),
        operation_of(FuzzedOp::JumpC32(cond, source)) == Operation::JumpConditional32(cond, source),
        operation_of(FuzzedOp::Call) == Operation::Call,
        operation_of(FuzzedOp::CallReg) == Operation::CallReg,
        operation_of(FuzzedOp::Exit) == Operation::Exit,
        operation_of(FuzzedOp::Hor64Imm) == Operation::Hor64Imm,
        operation_of(FuzzedOp::Pqr(pqr, arch, source)) == Operation::Pqr(source, arch, pqr),
{
}

/// An arbitrary access to memory is generated as the same access of the same size. Version two only
/// encodes loads and stores differently.
pub proof fn law_memory_accesses_are_kept(size: MemSize)
    ensures
        operation_of(FuzzedOp::Load(size)) == Operation::Load(size),
        operation_of(FuzzedOp::LoadAbs(size)) == Operation::LoadAbs(size),
        operation_of(FuzzedOp::LoadInd(size)) == Operation::LoadInd(size),
        operation_of(FuzzedOp::LoadX(size)) == Operation::LoadX(size),
        operation_of(FuzzedOp::Store(size)) == Operation::Store(size),
        operation_of(FuzzedOp::StoreX(size)) == Operation::StoreX(size),
        operation_of(FuzzedOp::LoadV2(size)) == Operation::LoadX(size),
        operation_of(FuzzedOp::StoreV2(size)) == Operation::Store(size),
        operation_of(FuzzedOp::StoreV2X(size)) == Operation::StoreX(size),
{
}

/// The code has one instruction per arbitrary one, in the same order, with the same operands and the
/// operation that belongs to it.
pub proof fn law_generated_code(
    prog: &FuzzProgram,
    sbpf_version: SBPFVersion,
    code: BpfCode,
    i: int,
)
    requires
        call_ensures(make_program, (prog, sbpf_version), code),
        0 <= i < prog@.len(),
    ensures
        code.sbpf_version == sbpf_version,
        code.instructions@.len() == prog@.len(),
        code.instructions@[i].operation == operation_of(prog@[i].op),
        code.instructions@[i].dst == prog@[i].dst,
        code.instructions@[i].src == prog@[i].src,
        code.instructions@[i].off == prog@[i].off,
        code.instructions@[i].imm == prog@[i].imm,
{
}

/// Two operations are of the same kind exactly if they are made with the same variant.
pub proof fn law_kinds_are_variants(a: FuzzedOp, b: FuzzedOp)
    ensures
        kind_of(a) == kind_of(b) <==> {
            ||| a is Add && b is Add
            ||| a is Sub && b is Sub
            ||| a is Mul && b is Mul
            ||| a is Div && b is Div
            ||| a is BitOr && b is BitOr
            ||| a is BitAnd && b is BitAnd
            ||| a is LeftShift && b is LeftShift
            ||| a is RightShift && b is RightShift
            ||| a is Negate && b is Negate
            ||| a is Modulo && b is Modulo
            ||| a is BitXor && b is BitXor
            ||| a is Mov && b is Mov
            ||| a is SRS && b is SRS
            ||| a is SwapBytes && b is SwapBytes
            ||| a is Load && b is Load
            ||| a is LoadAbs && b is LoadAbs
            ||| a is LoadInd && b is LoadInd
            ||| a is LoadX && b is LoadX
            ||| a is Store && b is Store
            ||| a is StoreX && b is StoreX
            ||| a is Jump && b is Jump
            ||| a is JumpC && b is JumpC
            ||| a is Call && b is Call
            ||| a is CallReg && b is CallReg
            ||| a is Exit && b is Exit
            ||| a is Pqr && b is Pqr
            ||| a is LoadV2 && b is LoadV2
            ||| a is StoreV2 && b is StoreV2
            ||| a is StoreV2X && b is StoreV2X
            ||| a is Hor64Imm && b is Hor64Imm
            ||| a is JumpC32 && b is JumpC32
        },
{
}

/// Instructions of different kinds are not compared. Of the same kind, the similarity is the number
/// of operands that are the same, and eight more if the arguments of the operations differ.
pub proof fn law_similarity(
    a: &FuzzedInstruction,
    b: &FuzzedInstruction,
    similarity: Option<u8>,
    of_operations: Option<u8>,
)
    requires
        call_ensures(FuzzedInstruction::similarity, (a, b), similarity),
        call_ensures(FuzzedOp::similarity, (&a.op, &b.op), of_operations),
    ensures
        of_operations is Some <==> kind_of(a.op) == kind_of(b.op),
        of_operations matches Some(number) ==> number == if a.op == b.op {
            0int
        } else {
            8
        },
        similarity is Some <==> kind_of(a.op) == kind_of(b.op),
        similarity matches Some(number) ==> number == (if a.op == b.op {
            0int
        } else {
            8
        }) + (if a.dst == b.dst {
            1int
        } else {
            0
        }) + (if a.src == b.src {
            1int
        } else {
            0
        }) + (if a.off == b.off {
            1int
        } else {
            0
        }) + (if a.imm == b.imm {
            1int
        } else {
            0
        }),
{
}

} // verus!
