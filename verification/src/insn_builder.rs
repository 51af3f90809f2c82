//! Instructions before they are encoded.
use vstd::prelude::*;

use crate::version::SBPFVersion;

verus! {

/// Source of the second operand
#[derive(Debug, Clone, Copy, PartialEq, Eq, Structural)]
pub enum Source {
    /// Immediate value
    Imm,
    /// Register
    Reg,
}

/// Width of an operation
#[derive(Debug, Clone, Copy, PartialEq, Eq, Structural)]
pub enum Arch {
    /// 64 bits
    X64,
    /// 32 bits
    X32,
}

/// Byte order
#[derive(Debug, Clone, Copy, PartialEq, Eq, Structural)]
pub enum Endian {
    /// Little endian
    Little,
    /// Big endian
    Big,
}

/// Condition of a jump
#[derive(Debug, Clone, Copy, PartialEq, Eq, Structural)]
pub enum Cond {
    /// Always
    Abs,
    /// Equal
    Equals,
    /// Greater, unsigned
    Greater,
    /// Greater or equal, unsigned
    GreaterEquals,
    /// Lower, unsigned
    Lower,
    /// Lower or equal, unsigned
    LowerEquals,
    /// Common bits
    BitAnd,
    /// Not equal
    NotEquals,
    /// Greater, signed
    GreaterSigned,
    /// Greater or equal, signed
    GreaterEqualsSigned,
    /// Lower, signed
    LowerSigned,
    /// Lower or equal, signed
    LowerEqualsSigned,
}

/// Size of a memory access
#[derive(Debug, Clone, Copy, PartialEq, Eq, Structural)]
pub enum MemSize {
    /// One byte
    Byte,
    /// Two bytes
    HalfWord,
    /// Four bytes
    Word,
    /// Eight bytes
    DoubleWord,
}

/// Product, quotient or remainder
#[derive(Debug, Clone, Copy, PartialEq, Eq, Structural)]
pub enum PqrOp {
    /// Higher half of the product, unsigned
    Uhmul,
    /// Quotient, unsigned
    Udiv,
    /// Remainder, unsigned
    Urem,
    /// Lower half of the product
    Lmul,
    /// Higher half of the product, signed
    Shmul,
    /// Quotient, signed
    Sdiv,
    /// Remainder, signed
    Srem,
}

/// What an instruction does
#[derive(Debug, Clone, Copy, PartialEq, Eq, Structural)]
pub enum Operation {
    /// Addition
    Add(Source, Arch),
    /// Subtraction
    Sub(Source, Arch),
    /// Multiplication
    Mul(Source, Arch),
    /// Division
    Div(Source, Arch),
    /// Bitwise disjunction
    BitOr(Source, Arch),
    /// Bitwise conjunction
    BitAnd(Source, Arch),
    /// Shift to the left
    LeftShift(Source, Arch),
    /// Shift to the right, filling with zeros
    RightShift(Source, Arch),
    /// Negation
    Negate(Arch),
    /// Remainder
    Modulo(Source, Arch),
    /// Bitwise exclusive disjunction
    BitXor(Source, Arch),
    /// Move
    Mov(Source, Arch),
    /// Shift to the right, filling with the sign
    SignedRightShift(Source, Arch),
    /// Change of the byte order
    SwapBytes(Endian),
    /// Load of an immediate value
    Load(MemSize),
    /// Load from an absolute address
    LoadAbs(MemSize),
    /// Load from an indirect address
    LoadInd(MemSize),
    /// Load from the address in a register
    LoadX(MemSize),
    /// Store of an immediate value
    Store(MemSize),
    /// Store of a register
    StoreX(MemSize),
    /// Jump
    JumpUnconditional,
    /// Jump if a condition holds of 64 bits
    JumpConditional(Cond, Source),
    /// Jump if a condition holds of 32 bits
    JumpConditional32(Cond, Source),
    /// Call of a function
    Call,
    /// Call of the function in a register
    CallReg,
    /// Return from a function
    Exit,
    /// Product, quotient or remainder
    Pqr(Source, Arch, PqrOp),
    /// Disjunction with the higher half of an immediate value
    Hor64Imm,
}

/// One instruction with its operands
#[derive(Debug, Clone, Copy, PartialEq, Eq, Structural)]
pub struct Insn {
    /// What it does
    pub operation: Operation,
    /// Destination register
    pub dst: u8,
    /// Source register
    pub src: u8,
    /// Offset of an address or a jump
    pub off: i16,
    /// Immediate value
    pub imm: i64,
}

impl Insn {
    /// An instruction with all operands zero
    pub open spec fn spec_new(operation: Operation) -> Insn {
        Insn { operation, dst: 0, src: 0, off: 0, imm: 0 }
    }

    /// An instruction with all operands zero
    #[verifier::when_used_as_spec(spec_new)]
    pub fn new(operation: Operation) -> (insn: Insn)
        ensures
            insn == Insn::spec_new(operation),
    {
        Insn { operation, dst: 0, src: 0, off: 0, imm: 0 }
    }
}

/// Code of a program
#[derive(Debug)]
pub struct BpfCode {
    /// Version of the instruction set
    pub sbpf_version: SBPFVersion,
    /// The instructions
    pub instructions: Vec<Insn>,
}

impl BpfCode {
    /// Code without instructions
    pub fn new(sbpf_version: SBPFVersion) -> (code: BpfCode)
        ensures
            code.sbpf_version == sbpf_version,
            code.instructions@ == Seq::<Insn>::empty(),
    {
        BpfCode { sbpf_version, instructions: Vec::new() }
    }

    /// Appends an instruction
    pub fn push(&mut self, insn: Insn)
        ensures
            final(self).sbpf_version == old(self).sbpf_version,
            final(self).instructions@ == old(self).instructions@.push(insn),
    {
        self.instructions.push(insn);
    }
}

/// A new instruction does what it was made for, with all operands zero.
pub proof fn law_new_instruction(operation: Operation, insn: Insn)
    requires
        call_ensures(Insn::new, (operation,), insn),
    ensures
        insn.operation == operation,
        insn.dst == 0 && insn.src == 0 && insn.off == 0 && insn.imm == 0,
{
}

} // verus!
