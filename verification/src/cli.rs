//! Decisions of the command line interface.
use vstd::prelude::*;
use vstd::string::StringSliceAdditionalSpecFns;

use crate::bytes::bytes_equal;
use crate::config::Config;

verus! {

/// Method of execution to use
#[derive(Debug, Clone, Copy, PartialEq, Eq, Structural)]
pub enum Method {
    /// Draw the control flow graph
    Cfg,
    /// Interpret the program under the control of a debugger
    Debugger,
    /// Disassemble the program
    Disassembler,
    /// Interpret the program
    Interpreter,
    /// Compile the program and run it
    Jit,
}

/// The method of a given name
pub open spec fn method_named(name: Seq<u8>) -> Option<Method> {
    if name == "cfg".spec_bytes() {
        Some(Method::Cfg)
    } else if name == "debugger".spec_bytes() {
        Some(Method::Debugger)
    } else if name == "disassembler".spec_bytes() {
        Some(Method::Disassembler)
    } else if name == "interpreter".spec_bytes() {
        Some(Method::Interpreter)
    } else if name == "jit".spec_bytes() {
        Some(Method::Jit)
    } else {
        None
    }
}

/// Finds the method of a given name
pub fn parse_method(name: &str) -> (method: Option<Method>)
    ensures
        method == method_named(name.spec_bytes()),
{
    let name = name.as_bytes();
    if bytes_equal(name, "cfg".as_bytes()) {
        Some(Method::Cfg)
    } else if bytes_equal(name, "debugger".as_bytes()) {
        Some(Method::Debugger)
    } else if bytes_equal(name, "disassembler".as_bytes()) {
        Some(Method::Disassembler)
    } else if bytes_equal(name, "interpreter".as_bytes()) {
        Some(Method::Interpreter)
    } else if bytes_equal(name, "jit".as_bytes()) {
        Some(Method::Jit)
    } else {
        None
    }
}

/// The settings under which a program is run. A trace is needed to display it or a profile.
pub fn configure(trace: bool, profile: bool) -> (config: Config)
    ensures
        config == (Config {
            enable_instruction_tracing: trace || profile,
            enable_symbol_and_section_labels: true,
            ..Config::spec_default()
        }),
{
    let mut config = Config::default();
    config.enable_instruction_tracing = trace || profile;
    config.enable_symbol_and_section_labels = true;
    config
}

impl Method {
    /// Does the method, or what is to be displayed afterwards, need an analysis of the program
    pub fn needs_analysis(self, trace: bool, profile: bool) -> (needed: bool)
        ensures
            needed == (self is Cfg || self is Disassembler || trace || profile),
    {
        self == Method::Cfg || self == Method::Disassembler || trace || profile
    }

    /// Does the method run the program
    pub fn runs_program(self) -> (runs: bool)
        ensures
            runs == !(self is Cfg || self is Disassembler),
    {
        !(self == Method::Cfg || self == Method::Disassembler)
    }
}

/// A method is found by its name, and by no other one.
pub proof fn law_methods_have_names(name: &str, method: Option<Method>)
    requires
        call_ensures(parse_method, (name,), method),
    ensures
        method == Some(Method::Cfg) <==> name.spec_bytes() == "cfg".spec_bytes(),
        method == Some(Method::Debugger) <==> name.spec_bytes() == "debugger".spec_bytes(),
        method == Some(Method::Disassembler) <==> name.spec_bytes() == "disassembler".spec_bytes(),
        method == Some(Method::Interpreter) <==> name.spec_bytes() == "interpreter".spec_bytes(),
        method == Some(Method::Jit) <==> name.spec_bytes() == "jit".spec_bytes(),
{
    reveal_strlit("cfg");
    reveal_strlit("debugger");
    reveal_strlit("disassembler");
    reveal_strlit("interpreter");
    reveal_strlit("jit");
    vstd::utf8::is_ascii_chars_encode_utf8("cfg"@);
    vstd::utf8::is_ascii_chars_encode_utf8("debugger"@);
    vstd::utf8::is_ascii_chars_encode_utf8("disassembler"@);
    vstd::utf8::is_ascii_chars_encode_utf8("interpreter"@);
    vstd::utf8::is_ascii_chars_encode_utf8("jit"@);
    assert("cfg".spec_bytes().len() == 3 && "jit".spec_bytes().len() == 3);
    assert("cfg".spec_bytes()[0] == 0x63 && "jit".spec_bytes()[0] == 0x6a);
    assert("debugger".spec_bytes().len() == 8);
    assert("disassembler".spec_bytes().len() == 12);
    assert("interpreter".spec_bytes().len() == 11);
}

/// The command line runs programs with labels, and with a trace if it or a profile is displayed.
/// Everything else is as it is without any setting.
pub proof fn law_settings_of_runs(trace: bool, profile: bool, config: Config)
    requires
        call_ensures(configure, (trace, profile), config),
    ensures
        config.max_call_depth == 20,
        config.stack_frame_size == 4096,
        config.enable_stack_frame_gaps,
        config.instruction_meter_checkpoint_distance == 10000,
        config.enable_instruction_meter,
        config.enable_instruction_tracing <==> trace || profile,
        config.enable_symbol_and_section_labels,
        !config.reject_broken_elfs,
        config.noop_instruction_rate == 256,
        config.sanitize_user_provided_values,
        config.encrypt_environment_registers,
        config.syscall_bpf_function_hash_collision,
        config.reject_callx_r10,
        config.dynamic_stack_frames,
        config.enable_sdiv,
        config.optimize_rodata,
        config.static_syscalls,
        config.enable_elf_vaddr,
        config.new_elf_parser,
        config.reject_rodata_stack_overlap,
        config.aligned_memory_mapping,
{
}

/// Programs that are drawn or disassembled are analysed and not run. All others are run, and analysed
/// only for what is displayed afterwards.
pub proof fn law_uses_of_methods(
    method: Method,
    trace: bool,
    profile: bool,
    needed: bool,
    runs: bool,
)
    requires
        call_ensures(Method::needs_analysis, (method, trace, profile), needed),
        call_ensures(Method::runs_program, (method,), runs),
    ensures
        !runs <==> method == Method::Cfg || method == Method::Disassembler,
        !runs ==> needed,
        runs ==> (needed <==> trace || profile),
{
}

} // verus!
