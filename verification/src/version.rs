//! Versions of the SBPF instruction set.
use vstd::prelude::*;

use crate::arith::{clamp_i64, low_u32, saturating_add_i64, signed_of, to_signed};

verus! {

/// Defines a set of sbpf_version of an executable
#[derive(Debug, PartialEq, PartialOrd, Eq, Clone, Copy, Structural)]
pub enum SBPFVersion {
    /// The legacy format
    V0,
    /// SIMD-0166
    V1,
    /// SIMD-0174, SIMD-0173
    V2,
    /// SIMD-0178, SIMD-0189, SIMD-0377
    V3,
    /// SIMD-0177
    V4,
    /// Used for future versions
    Reserved,
}

impl SBPFVersion {
    /// Position of the version in the order of their release.
    pub open spec fn ordinal(self) -> int {
        match self {
            SBPFVersion::V0 => 0,
            SBPFVersion::V1 => 1,
            SBPFVersion::V2 => 2,
            SBPFVersion::V3 => 3,
            SBPFVersion::V4 => 4,
            SBPFVersion::Reserved => 5,
        }
    }

    /// Is this version `V3` or one released after it
    fn since_v3(self) -> (result: bool)
        ensures
            result == (self.ordinal() >= SBPFVersion::V3.ordinal()),
    {
        match self {
            SBPFVersion::V3 | SBPFVersion::V4 | SBPFVersion::Reserved => true,
            SBPFVersion::V0 | SBPFVersion::V1 | SBPFVersion::V2 => false,
        }
    }

    /// Enable SIMD-0166: SBPF dynamic stack frames
    ///
    /// Allows usage of `add64 r10, imm`.
    pub fn manual_stack_frame_bump(self) -> (result: bool)
        ensures
            result == (self is V1 || self is V2),
    {
        self == SBPFVersion::V1 || self == SBPFVersion::V2
    }

    /// Programs of this version move the frame pointer themselves, see
    /// [`SBPFVersion::manual_stack_frame_bump`].
    pub fn dynamic_stack_frames(self) -> (result: bool)
        ensures
            result == (self is V1 || self is V2),
    {
        self.manual_stack_frame_bump()
    }

    /// ... SIMD-0166
    pub fn stack_frame_gaps(self) -> (result: bool)
        ensures
            result == (self is V0),
    {
        self == SBPFVersion::V0
    }

    /// Enable SIMD-0174: SBPF arithmetics improvements
    pub fn enable_pqr(self) -> (result: bool)
        ensures
            result == (self is V2),
    {
        self == SBPFVersion::V2
    }

    /// ... SIMD-0174
    pub fn explicit_sign_extension_of_results(self) -> (result: bool)
        ensures
            result == (self is V2),
    {
        self == SBPFVersion::V2
    }

    /// ... SIMD-0174
    pub fn swap_sub_reg_imm_operands(self) -> (result: bool)
        ensures
            result == (self is V2),
    {
        self == SBPFVersion::V2
    }

    /// ... SIMD-0174
    pub fn disable_neg(self) -> (result: bool)
        ensures
            result == (self is V2),
    {
        self == SBPFVersion::V2
    }

    /// Enable SIMD-0173: SBPF instruction encoding improvements
    pub fn callx_uses_src_reg(self) -> (result: bool)
        ensures
            result == (self is V2),
    {
        self == SBPFVersion::V2
    }

    /// ... SIMD-0173
    pub fn disable_lddw(self) -> (result: bool)
        ensures
            result == (self is V2),
    {
        self == SBPFVersion::V2
    }

    /// ... SIMD-0173
    pub fn disable_le(self) -> (result: bool)
        ensures
            result == (self is V2),
    {
        self == SBPFVersion::V2
    }

    /// ... SIMD-0173
    pub fn move_memory_instruction_classes(self) -> (result: bool)
        ensures
            result == (self is V2),
    {
        self == SBPFVersion::V2
    }

    /// Enable SIMD-0178: SBPF Static Syscalls
    pub fn static_syscalls(self) -> (result: bool)
        ensures
            result == (self.ordinal() >= SBPFVersion::V3.ordinal()),
    {
        self.since_v3()
    }

    /// Enable SIMD-0189: SBPF stricter ELF headers
    pub fn enable_stricter_elf_headers(self) -> (result: bool)
        ensures
            result == (self.ordinal() >= SBPFVersion::V3.ordinal()),
    {
        self.since_v3()
    }

    /// ... SIMD-0189
    pub fn enable_lower_rodata_vaddr(self) -> (result: bool)
        ensures
            result == (self.ordinal() >= SBPFVersion::V3.ordinal()),
    {
        self.since_v3()
    }

    /// ... SIMD-0377
    pub fn enable_jmp32(self) -> (result: bool)
        ensures
            result == (self.ordinal() >= SBPFVersion::V3.ordinal()),
    {
        self.since_v3()
    }

    /// ... SIMD-0377
    pub fn callx_uses_dst_reg(self) -> (result: bool)
        ensures
            result == (self.ordinal() >= SBPFVersion::V3.ordinal()),
    {
        self.since_v3()
    }

    /// The program counter that a CALL_IMM instruction at `pc` continues at.
    pub open spec fn spec_call_target(self, pc: usize, imm: i64) -> int {
        if self.ordinal() >= SBPFVersion::V3.ordinal() {
            clamp_i64(clamp_i64(signed_of(pc as int) + imm) + 1) % 0x1_0000_0000
        } else {
            imm as int % 0x1_0000_0000
        }
    }

    /// Calculate the target program counter for a CALL_IMM instruction depending on
    /// the SBPF version.
    pub fn calculate_call_imm_target_pc(self, pc: usize, imm: i64) -> (target: u32)
        ensures
            target == self.spec_call_target(pc, imm),
    {
        if self.static_syscalls() {
            low_u32(saturating_add_i64(saturating_add_i64(to_signed(pc as u64), imm), 1))
        } else {
            low_u32(imm)
        }
    }
}

/// From version three on, a call is relative: wherever the sum fits the machine word, the target
/// of a call is the instruction after the call, moved by the immediate.
pub proof fn law_relative_call_target(version: SBPFVersion, pc: usize, imm: i64)
    requires
        version.ordinal() >= SBPFVersion::V3.ordinal(),
        pc <= i64::MAX,
        0 <= pc + imm + 1 < 0x1_0000_0000,
    ensures
        version.spec_call_target(pc, imm) == pc + imm + 1,
{
}

/// These features come with version two and go with it.
pub proof fn law_features_of_version_two(version: SBPFVersion, enabled: bool)
    requires
        ({
            ||| call_ensures(SBPFVersion::enable_pqr, (version,), enabled)
            ||| call_ensures(SBPFVersion::explicit_sign_extension_of_results, (version,), enabled)
            ||| call_ensures(SBPFVersion::swap_sub_reg_imm_operands, (version,), enabled)
            ||| call_ensures(SBPFVersion::disable_neg, (version,), enabled)
            ||| call_ensures(SBPFVersion::callx_uses_src_reg, (version,), enabled)
            ||| call_ensures(SBPFVersion::disable_lddw, (version,), enabled)
            ||| call_ensures(SBPFVersion::disable_le, (version,), enabled)
            ||| call_ensures(SBPFVersion::move_memory_instruction_classes, (version,), enabled)
        }),
    ensures
        enabled <==> version == SBPFVersion::V2,
{
}

/// These features come with version three and stay.
pub proof fn law_features_since_version_three(version: SBPFVersion, enabled: bool)
    requires
        ({
            ||| call_ensures(SBPFVersion::static_syscalls, (version,), enabled)
            ||| call_ensures(SBPFVersion::enable_stricter_elf_headers, (version,), enabled)
            ||| call_ensures(SBPFVersion::enable_lower_rodata_vaddr, (version,), enabled)
            ||| call_ensures(SBPFVersion::enable_jmp32, (version,), enabled)
            ||| call_ensures(SBPFVersion::callx_uses_dst_reg, (version,), enabled)
        }),
    ensures
        enabled <==> version == SBPFVersion::V3 || version == SBPFVersion::V4 || version
            == SBPFVersion::Reserved,
{
}

/// Only programs of the versions one and two move the frame pointer.
pub proof fn law_moving_frame_pointers(version: SBPFVersion, enabled: bool)
    requires
        ({
            ||| call_ensures(SBPFVersion::manual_stack_frame_bump, (version,), enabled)
            ||| call_ensures(SBPFVersion::dynamic_stack_frames, (version,), enabled)
        }),
    ensures
        enabled <==> version == SBPFVersion::V1 || version == SBPFVersion::V2,
{
}

/// Only the first version has gaps between the stack frames.
pub proof fn law_stack_frame_gaps(version: SBPFVersion, enabled: bool)
    requires
        ({
            ||| call_ensures(SBPFVersion::stack_frame_gaps, (version,), enabled)
        }),
    ensures
        enabled <==> version == SBPFVersion::V0,
{
}

/// The target of a call is the immediate value before version three. From then on, it is the
/// instruction after the call, moved by the immediate value, where neither step leaves the range of
/// signed 64 bit numbers. Of either, the lower 32 bits count.
pub proof fn law_call_targets(version: SBPFVersion, pc: usize, imm: i64, target: u32)
    requires
        call_ensures(SBPFVersion::calculate_call_imm_target_pc, (version, pc, imm), target),
    ensures
        version == SBPFVersion::V0 || version == SBPFVersion::V1 || version == SBPFVersion::V2
            ==> target == imm as int % 0x1_0000_0000,
        !(version == SBPFVersion::V0 || version == SBPFVersion::V1 || version == SBPFVersion::V2)
            ==> {
            let from = if pc <= i64::MAX {
                pc as int
            } else {
                pc - 0x1_0000_0000_0000_0000
            };
            let to = if from + imm < i64::MIN {
                i64::MIN + 1
            } else if from + imm >= i64::MAX {
                i64::MAX as int
            } else {
                from + imm + 1
            };
            target == to % 0x1_0000_0000
        },
{
}

} // verus!
