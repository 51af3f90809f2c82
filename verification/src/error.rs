//! Errors of loading, verifying and running programs.
use vstd::prelude::*;

use crate::memory_region::AccessType;

verus! {

/// Errors of loading an executable.
#[derive(Debug, PartialEq, Eq)]
pub enum ElfError {
    /// A symbol hashes to a key that already belongs to another function.
    SymbolHashCollision(u32),
}

/// Reason for which a verifier rejects a program.
#[derive(Debug, PartialEq, Eq)]
pub struct VerifierError {
    /// Index of the offending instruction.
    pub pc: usize,
    /// What is wrong with it.
    pub message: String,
}

/// Errors of setting up and running a virtual machine.
#[derive(Debug, PartialEq, Eq)]
pub enum EbpfError {
    /// The executable could not be loaded.
    ElfError(ElfError),
    /// The executable was rejected before it ran.
    VerifierError(VerifierError),
    /// The limit of registered syscalls is reached.
    TooManySyscalls,
    /// A syscall with this hash was registered before.
    SyscallAlreadyRegistered(usize),
    /// The program used up its instructions: program counter, initial meter.
    ExceededMaxInstructions(usize, u64),
    /// The program was to run natively, but was never compiled.
    JitNotCompiled,
    /// The memory region with this index does not fit its neighbours.
    InvalidMemoryRegion(usize),
    /// Access outside of the mapped memory: type, address, length, name of the region.
    AccessViolation(AccessType, u64, u64, &'static str),
    /// Access outside of a stack frame: type, address, length, index of the frame.
    StackAccessViolation(AccessType, u64, u64, i64),
    /// A syscall failed.
    SyscallError(String),
}

} // verus!
