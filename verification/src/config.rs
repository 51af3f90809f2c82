//! Settings of a virtual machine.
use vstd::prelude::*;

verus! {

/// VM configuration settings
#[derive(Debug, Clone, Copy, PartialEq, Eq, Structural)]
pub struct Config {
    /// Maximum call depth
    pub max_call_depth: usize,
    /// Size of a stack frame in bytes, must match the size specified in the LLVM BPF backend
    pub stack_frame_size: usize,
    /// Enables gaps in VM address space between the stack frames
    pub enable_stack_frame_gaps: bool,
    /// Maximal pc distance after which a new instruction meter validation is emitted by the JIT
    pub instruction_meter_checkpoint_distance: usize,
    /// Enable instruction meter and limiting
    pub enable_instruction_meter: bool,
    /// Enable instruction tracing
    pub enable_instruction_tracing: bool,
    /// Enable dynamic string allocation for labels
    pub enable_symbol_and_section_labels: bool,
    /// Reject ELF files containing issues that the verifier did not catch before (up to v0.2.21)
    pub reject_broken_elfs: bool,
    /// Ratio of native host instructions per random no-op in JIT (0 = OFF)
    pub noop_instruction_rate: u32,
    /// Enable disinfection of immediate values and offsets provided by the user in JIT
    pub sanitize_user_provided_values: bool,
    /// Encrypt the environment registers in JIT
    pub encrypt_environment_registers: bool,
    /// Throw a symbol hash collision when a BPF function collides with a registered syscall
    pub syscall_bpf_function_hash_collision: bool,
    /// Have the verifier reject "callx r10"
    pub reject_callx_r10: bool,
    /// Use dynamic stack frame sizes
    pub dynamic_stack_frames: bool,
    /// Enable native signed division
    pub enable_sdiv: bool,
    /// Avoid copying read only sections when possible
    pub optimize_rodata: bool,
    /// Support syscalls via pseudo calls (insn.src = 0)
    pub static_syscalls: bool,
    /// Allow section addresses that differ from the section offsets. Used to align section
    /// addresses to the start of the program.
    pub enable_elf_vaddr: bool,
    /// Use the new ELF parser
    pub new_elf_parser: bool,
    /// Ensure that rodata sections don't exceed their maximum allowed size and
    /// overlap with the stack
    pub reject_rodata_stack_overlap: bool,
    /// Use aligned memory mapping
    pub aligned_memory_mapping: bool,
}

impl Config {
    /// The settings of a machine that nobody configured.
    pub open spec fn spec_default() -> Config {
        Config {
            max_call_depth: 20,
            stack_frame_size: 4_096,
            enable_stack_frame_gaps: true,
            instruction_meter_checkpoint_distance: 10000,
            enable_instruction_meter: true,
            enable_instruction_tracing: false,
            enable_symbol_and_section_labels: false,
            reject_broken_elfs: false,
            noop_instruction_rate: 256,
            sanitize_user_provided_values: true,
            encrypt_environment_registers: true,
            syscall_bpf_function_hash_collision: true,
            reject_callx_r10: true,
            dynamic_stack_frames: true,
            enable_sdiv: true,
            optimize_rodata: true,
            static_syscalls: true,
            enable_elf_vaddr: true,
            new_elf_parser: true,
            reject_rodata_stack_overlap: true,
            aligned_memory_mapping: true,
        }
    }

    /// Returns the size of the stack memory region
    pub fn stack_size(&self) -> (size: usize)
        requires
            self.stack_frame_size * self.max_call_depth <= usize::MAX,
        ensures
            size == self.stack_frame_size * self.max_call_depth,
    {
        self.stack_frame_size * self.max_call_depth
    }
}

impl Default for Config {
    fn default() -> (config: Self)
        ensures
            config == Config::spec_default(),
    {
        Config {
            max_call_depth: 20,
            stack_frame_size: 4_096,
            enable_stack_frame_gaps: true,
            instruction_meter_checkpoint_distance: 10000,
            enable_instruction_meter: true,
            enable_instruction_tracing: false,
            enable_symbol_and_section_labels: false,
            reject_broken_elfs: false,
            noop_instruction_rate: 256,
            sanitize_user_provided_values: true,
            encrypt_environment_registers: true,
            syscall_bpf_function_hash_collision: true,
            reject_callx_r10: true,
            dynamic_stack_frames: true,
            enable_sdiv: true,
            optimize_rodata: true,
            static_syscalls: true,
            enable_elf_vaddr: true,
            new_elf_parser: true,
            reject_rodata_stack_overlap: true,
            aligned_memory_mapping: true,
        }
    }
}

/// The settings that nobody changed
pub proof fn law_default_settings(config: Config)
    requires
        call_ensures(<Config as Default>::default, (), config),
    ensures
        config.max_call_depth == 20,
        config.stack_frame_size == 4096,
        config.enable_stack_frame_gaps,
        config.instruction_meter_checkpoint_distance == 10000,
        config.enable_instruction_meter,
        !config.enable_instruction_tracing,
        !config.enable_symbol_and_section_labels,
        !config.reject_broken_elfs,
        config.noop_instruction_rate == 256,
        config.sanitize_user_provided_values,
        config.encrypt_environment_registers,
        config.syscall_bpf_function_hash_collision,
        config.reject_callx_r10,
        config.dynamic_stack_frames,
        config.enable_sdiv,
        config.optimize_rodata,
        config.static_syscalls,
        config.enable_elf_vaddr,
        config.new_elf_parser,
        config.reject_rodata_stack_overlap,
        config.aligned_memory_mapping,
{
}

/// The stack has room for as many frames as calls can be nested.
pub proof fn law_stack_has_room(config: &Config, size: usize)
    requires
        call_ensures(Config::stack_size, (config,), size),
    ensures
        size == config.max_call_depth * config.stack_frame_size,
{
    assert(config.stack_frame_size * config.max_call_depth == config.max_call_depth
        * config.stack_frame_size) by (nonlinear_arith);
}

} // verus!
