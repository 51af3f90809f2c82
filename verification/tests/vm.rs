use std::collections::{BTreeMap, BTreeSet};

use sbpf::cli::{configure, parse_method, Method};
use sbpf::ebpf;
use sbpf::error::{EbpfError, ElfError, VerifierError};
use sbpf::executable::TautologyVerifier;
use sbpf::memory_region::{AccessType, MemoryRegion};
use sbpf::result::StableResult;
use sbpf::static_analysis::{Analysis, AnalyzedInstruction};
use sbpf::syscall_registry::MAX_SYSCALLS;
use sbpf::version::SBPFVersion;
use sbpf::vm::{
    finished, Config, DynamicAnalysis, EbpfVm, Executable, FunctionRegistry, InterpreterRun,
    JitRun, ProgramResult, SyscallRegistry, TestContextObject, Tracer, VerifiedExecutable,
    Verifier,
};

type Syscall = u32;

/// Rejects programs that are not made up of whole instructions.
struct LengthVerifier;

impl Verifier for LengthVerifier {
    fn verify(
        prog: &[u8],
        _config: &Config,
        function_registry: &FunctionRegistry,
    ) -> Result<(), VerifierError> {
        assert!(function_registry.is_empty());
        if prog.len() % 8 == 0 {
            Ok(())
        } else {
            Err(VerifierError {
                pc: prog.len() / 8,
                message: "program length must be a multiple of 8 octets".to_string(),
            })
        }
    }
}

fn executable(config: Config, text: &[u8], ro_data: &[u8]) -> Executable<Syscall> {
    Executable {
        config,
        sbpf_version: SBPFVersion::V0,
        text_bytes: text.to_vec(),
        text_vm_addr: ebpf::MM_RODATA_START,
        ro_region: MemoryRegion::new_readonly(ro_data, ebpf::MM_RODATA_START),
        syscall_registry: SyscallRegistry::default(),
        function_registry: BTreeMap::new(),
        compiled: false,
    }
}

fn verified(config: Config) -> VerifiedExecutable<TautologyVerifier, Syscall> {
    match VerifiedExecutable::from_executable(executable(config, &[0x95, 0, 0, 0, 0, 0, 0, 0], &[]))
    {
        Ok(verified) => verified,
        Err(error) => panic!("{:?}", error),
    }
}

#[test]
fn test_program_result_is_stable() {
    let ok = ProgramResult::Success(42);
    assert_eq!(ok.tag(), 0);
    let err = ProgramResult::Failure(EbpfError::JitNotCompiled);
    assert_eq!(err.tag(), 1);
}

#[test]
fn results_convert_both_ways() {
    let ok: Result<u64, EbpfError> = ProgramResult::Success(42).into();
    assert_eq!(ok, Ok(42));
    let err: StableResult<u64, EbpfError> = Err(EbpfError::JitNotCompiled).into();
    assert!(err.is_err() && !err.is_ok());
    assert_eq!(err.unwrap_err(), EbpfError::JitNotCompiled);
    assert_eq!(ProgramResult::Success(7).unwrap(), 7);
}

#[test]
fn default_settings() {
    let config = Config::default();
    assert_eq!(config.stack_size(), 20 * 4096);
    assert_eq!(config.instruction_meter_checkpoint_distance, 10000);
    assert_eq!(config.noop_instruction_rate, 256);
    assert!(config.enable_instruction_meter && config.aligned_memory_mapping);
    assert!(!config.enable_instruction_tracing && !config.reject_broken_elfs);
    assert_eq!(TestContextObject::default().remaining, 0);
}

#[test]
fn syscalls_are_registered_once() {
    let mut registry: SyscallRegistry<Syscall> = SyscallRegistry::default();
    registry.register_syscall_by_name(b"sol_log_", 1).unwrap();
    assert_eq!(registry.lookup_syscall(544561597), Some(1));
    assert_eq!(registry.lookup_syscall(0), None);
    // The function is replaced, although this is an error.
    assert_eq!(
        registry.register_syscall_by_hash(544561597, 2),
        Err(EbpfError::SyscallAlreadyRegistered(544561597))
    );
    assert_eq!(registry.lookup_syscall(544561597), Some(2));
    assert_eq!(registry.get_number_of_syscalls(), 1);
}

#[test]
fn syscalls_are_limited() {
    let mut registry: SyscallRegistry<Syscall> = SyscallRegistry::default();
    for hash in 0..MAX_SYSCALLS as u32 {
        registry.register_syscall_by_hash(hash, hash).unwrap();
    }
    assert_eq!(
        registry.register_syscall_by_hash(1000, 1),
        Err(EbpfError::TooManySyscalls)
    );
    assert_eq!(
        registry.register_syscall_by_hash(5, 1),
        Err(EbpfError::TooManySyscalls)
    );
    assert_eq!(registry.lookup_syscall(5), Some(5));
    assert_eq!(registry.get_number_of_syscalls(), 128);
}

#[test]
fn sizes_of_syscall_registries() {
    let own = std::mem::size_of::<SyscallRegistry<Syscall>>();
    let entry = std::mem::size_of::<(u32, Syscall)>();
    let mut registry: SyscallRegistry<Syscall> = SyscallRegistry::default();
    assert_eq!(registry.mem_size(), own);
    registry.register_syscall_by_hash(1, 1).unwrap();
    let mut table: std::collections::HashMap<u32, Syscall> = std::collections::HashMap::new();
    table.insert(1, 1);
    assert!(table.capacity() > 1);
    assert_eq!(registry.mem_size(), own + table.capacity() * entry);
    assert_eq!(SyscallRegistry::<Syscall>::mem_size_for(10), own + 10 * entry);
    assert_eq!(
        SyscallRegistry::<Syscall>::mem_size_for(usize::MAX),
        usize::MAX
    );
}

#[test]
fn syscall_registries_compare_by_place() {
    let empty: SyscallRegistry<Syscall> = SyscallRegistry::default();
    let mut a: SyscallRegistry<Syscall> = SyscallRegistry::default();
    let mut b: SyscallRegistry<Syscall> = SyscallRegistry::default();
    a.register_syscall_by_hash(1, 1).unwrap();
    b.register_syscall_by_hash(1, 1).unwrap();
    assert!(empty.eq(&a) && a.eq(&empty));
    assert!(a.is_same(&a) && !a.is_same(&b));
    assert!(a.eq(&a));
    assert!(!a.eq(&b));
    assert!(a.eq_placed(&b, true) && !a.eq_placed(&b, false));
    assert!(empty.eq_placed(&a, false) && a.eq_placed(&empty, false));
}

#[test]
fn executables_are_loaded_or_refused() {
    let ro_data = [1, 2, 3];
    let loaded = Executable::from_elf(Ok(executable(Config::default(), &[7; 8], &ro_data)));
    match loaded {
        Ok(loaded) => {
            assert_eq!(loaded.get_text_bytes(), (ebpf::MM_RODATA_START, &[7; 8][..]));
            assert_eq!(loaded.get_ro_region().len, 3);
            assert_eq!(*loaded.get_config(), Config::default());
        }
        Err(error) => panic!("{:?}", error),
    }
    assert!(matches!(
        Executable::<Syscall>::from_elf(Err(EbpfError::JitNotCompiled)),
        Err(EbpfError::JitNotCompiled)
    ));
    assert!(matches!(
        Executable::<Syscall>::from_text_bytes(Err(ElfError::SymbolHashCollision(9))),
        Err(EbpfError::ElfError(ElfError::SymbolHashCollision(9)))
    ));
    assert!(Executable::from_text_bytes(Ok(executable(Config::default(), &[], &[]))).is_ok());
}

#[test]
fn verifiers_decide() {
    let accepted = VerifiedExecutable::<LengthVerifier, Syscall>::from_executable(executable(
        Config::default(),
        &[0; 16],
        &[],
    ));
    match accepted {
        Ok(verified) => assert_eq!(verified.get_executable().text_bytes.len(), 16),
        Err(error) => panic!("{:?}", error),
    }
    let rejected = VerifiedExecutable::<LengthVerifier, Syscall>::from_executable(executable(
        Config::default(),
        &[0; 17],
        &[],
    ));
    match rejected {
        Err(EbpfError::VerifierError(error)) => assert_eq!(error.pc, 2),
        _ => panic!("the program was accepted"),
    }
}

#[test]
fn compilation_is_noted() {
    let mut verified = verified(Config::default());
    assert_eq!(
        verified.jit_compile(Err(EbpfError::TooManySyscalls)),
        Err(EbpfError::TooManySyscalls)
    );
    assert!(!verified.get_executable().compiled);
    verified.jit_compile(Ok(())).unwrap();
    assert!(verified.get_executable().compiled);
}

#[test]
fn machines_map_their_regions() {
    let text = [0x95, 0, 0, 0, 0, 0, 0, 0];
    let verified: VerifiedExecutable<TautologyVerifier, Syscall> =
        match VerifiedExecutable::from_executable(executable(Config::default(), &text, &text)) {
            Ok(verified) => verified,
            Err(error) => panic!("{:?}", error),
        };
    let mut stack = [0u8; 64];
    let mut heap = [0u8; 32];
    let mut input = [0xaa, 0xbb, 0x11, 0x22, 0xcc, 0xdd];
    let heap_addr = heap.as_ptr() as u64;
    let input_addr = input.as_ptr() as u64;
    let stack_region = MemoryRegion::new_writable(&mut stack, ebpf::MM_STACK_START);
    let input_region = MemoryRegion::new_writable(&mut input, ebpf::MM_INPUT_START);
    let mut context_object = TestContextObject { remaining: 1 };
    let vm = match EbpfVm::new(
        &verified,
        &mut context_object,
        stack_region,
        &mut heap,
        vec![input_region],
    ) {
        Ok(vm) => vm,
        Err(error) => panic!("{:?}", error),
    };
    assert_eq!(vm.get_program(), &text);
    assert_eq!(vm.program_vm_addr, ebpf::MM_RODATA_START);
    assert_eq!(vm.get_total_instruction_count(), 0);
    assert!(vm.tracer.log.is_empty());
    let map = |access_type, addr, len| vm.memory_mapping.map(access_type, addr, len);
    assert_eq!(
        map(AccessType::Store, ebpf::MM_HEAP_START + 31, 1).unwrap(),
        heap_addr + 31
    );
    assert_eq!(
        map(AccessType::Store, ebpf::MM_INPUT_START, 6).unwrap(),
        input_addr
    );
    assert!(map(AccessType::Load, ebpf::MM_RODATA_START, 8).is_ok());
    assert!(map(AccessType::Store, ebpf::MM_RODATA_START, 8).is_err());
    assert!(map(AccessType::Store, ebpf::MM_STACK_START, 64).is_ok());
    assert!(map(AccessType::Load, ebpf::MM_INPUT_START, 7).is_err());
}

#[test]
fn machines_refuse_overlapping_regions() {
    let verified = verified(Config::default());
    let mut stack = [0u8; 64];
    let stack_region = MemoryRegion::new_writable(&mut stack, ebpf::MM_STACK_START);
    let mut context_object = TestContextObject { remaining: 1 };
    let refused = EbpfVm::new(
        &verified,
        &mut context_object,
        stack_region,
        &mut [],
        vec![stack_region],
    );
    assert!(matches!(refused, Err(EbpfError::InvalidMemoryRegion(3))));
    assert_eq!(context_object.remaining, 1);
}

fn with_vm(
    config: Config,
    compiled: bool,
    remaining: u64,
    test: impl Fn(&mut EbpfVm<'_, TautologyVerifier, Syscall, TestContextObject>),
) -> u64 {
    let mut verified = verified(config);
    if compiled {
        verified.jit_compile(Ok(())).unwrap();
    }
    let mut stack = [0u8; 64];
    let stack_region = MemoryRegion::new_writable(&mut stack, ebpf::MM_STACK_START);
    let mut context_object = TestContextObject { remaining };
    match EbpfVm::new(&verified, &mut context_object, stack_region, &mut [], vec![]) {
        Ok(mut vm) => test(&mut vm),
        Err(error) => panic!("{:?}", error),
    }
    context_object.remaining
}

fn interpreted(due_insn_count: u64, result: Result<u64, EbpfError>) -> Result<InterpreterRun, EbpfError> {
    Ok(InterpreterRun {
        initial_insn_count: 100,
        due_insn_count,
        result,
    })
}

#[test]
fn interpreted_programs_are_metered() {
    let left = with_vm(Config::default(), false, 90, |vm| {
        let result = vm.execute_program_interpreted(interpreted(30, Ok(5)));
        assert_eq!(result.unwrap(), 5);
        assert_eq!(vm.get_total_instruction_count(), 40);
        let error = EbpfError::ExceededMaxInstructions(3, 100);
        let result = vm.execute_program_interpreted(interpreted(60, Err(error)));
        assert_eq!(
            result.unwrap_err(),
            EbpfError::ExceededMaxInstructions(3, 100)
        );
        assert_eq!(vm.get_total_instruction_count(), 100);
        let result = vm.execute_program_interpreted(Err(EbpfError::TooManySyscalls));
        assert_eq!(result.unwrap_err(), EbpfError::TooManySyscalls);
        assert_eq!(vm.get_total_instruction_count(), 100);
    });
    assert_eq!(left, 0);
}

#[test]
fn interpreted_programs_need_not_be_metered() {
    let config = Config {
        enable_instruction_meter: false,
        ..Config::default()
    };
    let left = with_vm(config, false, 9, |vm| {
        let result = vm.execute_program_interpreted(interpreted(30, Ok(5)));
        assert_eq!(result.unwrap(), 5);
        assert_eq!(vm.get_total_instruction_count(), 0);
    });
    assert_eq!(left, 9);
}

#[test]
fn steps_until_the_end() {
    assert_eq!(finished(Ok(None)), None);
    assert_eq!(finished(Ok(Some(4))), Some(Ok(4)));
    assert_eq!(
        finished(Err(EbpfError::JitNotCompiled)),
        Some(Err(EbpfError::JitNotCompiled))
    );
}

#[test]
fn compiled_programs_are_metered() {
    let left = with_vm(Config::default(), true, 90, |vm| {
        assert_eq!(vm.start_program_jit(), Ok(90));
        let run = Ok(JitRun {
            instruction_meter_final: 30,
            result: ProgramResult::Success(5),
        });
        assert_eq!(vm.execute_program_jit(90, run).unwrap(), 5);
        assert_eq!(vm.get_total_instruction_count(), 60);
        assert_eq!(vm.context_object.remaining, 30);
        // The limit is that of the start, and what was exceeded is not owed.
        let run = Ok(JitRun {
            instruction_meter_final: -7,
            result: ProgramResult::Failure(EbpfError::ExceededMaxInstructions(3, 0)),
        });
        assert_eq!(
            vm.execute_program_jit(30, run).unwrap_err(),
            EbpfError::ExceededMaxInstructions(3, 30)
        );
        assert_eq!(vm.get_total_instruction_count(), 30);
    });
    assert_eq!(left, 0);
}

#[test]
fn programs_must_be_compiled_to_run_natively() {
    let left = with_vm(Config::default(), false, 90, |vm| {
        let error = match vm.start_program_jit() {
            Ok(_) => panic!("the program was started"),
            Err(error) => error,
        };
        assert_eq!(
            vm.execute_program_jit(0, Err(error)).unwrap_err(),
            EbpfError::JitNotCompiled
        );
    });
    assert_eq!(left, 90);
    let config = Config {
        enable_instruction_meter: false,
        ..Config::default()
    };
    let left = with_vm(config, true, 90, |vm| {
        assert_eq!(vm.start_program_jit(), Ok(0));
        let run = Ok(JitRun {
            instruction_meter_final: 1000,
            result: ProgramResult::Failure(EbpfError::ExceededMaxInstructions(3, 7)),
        });
        assert_eq!(
            vm.execute_program_jit(0, run).unwrap_err(),
            EbpfError::ExceededMaxInstructions(3, 0)
        );
        assert_eq!(vm.get_total_instruction_count(), 0);
    });
    assert_eq!(left, 90);
}

fn analysis() -> Analysis {
    let mut instructions = Vec::new();
    for (ptr, disassembly) in [(0, "mov64 r0, 0"), (1, "lddw r1, 0x1"), (3, "exit")] {
        instructions.push(AnalyzedInstruction {
            ptr,
            disassembly: disassembly.to_string(),
        });
    }
    Analysis {
        instructions,
        cfg_nodes: BTreeSet::from([0, 3, 5]),
    }
}

fn tracer(pcs: &[u64]) -> Tracer {
    let mut tracer = Tracer::default();
    for pc in pcs {
        let mut state = [0; 12];
        state[0] = 0xab;
        state[10] = u64::MAX;
        state[11] = *pc;
        tracer.trace(state);
    }
    tracer
}

/// The line of a trace, as the formatting of the standard library gives it.
fn formatted_line(index: usize, state: &[u64; 12], disassembly: &str) -> String {
    format!(
        "{:5?} {:016X?} {:5?}: {}\n",
        index,
        &state[0..11],
        state[11] as usize + ebpf::ELF_INSN_DUMP_OFFSET,
        disassembly,
    )
}

#[test]
fn traces_are_printed() {
    let analysis = analysis();
    let tracer = tracer(&[0, 1, 2, 3, 4]);
    let mut output = b"Trace:\n".to_vec();
    tracer.write(&mut output, &analysis);
    let names = ["mov64 r0, 0", "lddw r1, 0x1", "lddw r1, 0x1", "exit", "exit"];
    let mut expected = "Trace:\n".to_string();
    for (index, state) in tracer.log.iter().enumerate() {
        expected.push_str(&formatted_line(index, state, names[index]));
    }
    let text = String::from_utf8(output).unwrap();
    assert_eq!(text, expected);
    let line = text.lines().nth(1).unwrap();
    assert!(line.starts_with("    0 [00000000000000AB, 0000000000000000, "));
    assert!(line.ends_with(", FFFFFFFFFFFFFFFF]    29: mov64 r0, 0"));
}

#[test]
fn long_numbers_are_not_cut_off() {
    let instructions = vec![AnalyzedInstruction {
        ptr: 123456,
        disassembly: "ja \u{2192}".to_string(),
    }];
    let analysis = Analysis {
        instructions,
        cfg_nodes: BTreeSet::new(),
    };
    let tracer = tracer(&[123457]);
    let mut output = Vec::new();
    tracer.write(&mut output, &analysis);
    let text = String::from_utf8(output).unwrap();
    assert_eq!(text, formatted_line(0, &tracer.log[0], "ja \u{2192}"));
    assert!(text.ends_with("] 123486: ja \u{2192}\n"));
}

#[test]
fn program_counters_without_an_instruction_show_the_first_one() {
    let mut analysis = analysis();
    analysis.instructions.remove(1);
    assert_eq!(analysis.index_instructions(), vec![0, 0, 0, 1, 1]);
    let empty = Analysis {
        instructions: vec![],
        cfg_nodes: BTreeSet::new(),
    };
    assert!(empty.index_instructions().is_empty());
    let mut output = Vec::new();
    tracer(&[]).write(&mut output, &empty);
    assert!(output.is_empty());
}

#[test]
fn traces_are_compared() {
    let short = tracer(&[0, 1]);
    let long = tracer(&[0, 1, 2]);
    let other = tracer(&[0, 2, 2]);
    assert!(Tracer::compare(&short, &short));
    assert!(Tracer::compare(&short, &long));
    assert!(!Tracer::compare(&long, &short));
    assert!(!Tracer::compare(&short, &other));
    assert!(Tracer::compare(&tracer(&[]), &other));
}

#[test]
fn branches_are_counted() {
    let tracer = tracer(&[0, 1, 3, 0, 1, 3, 0, 5]);
    let dynamic = DynamicAnalysis::new(&tracer, &analysis());
    assert_eq!(dynamic.edge_counter_max, 2);
    let mut expected = BTreeMap::new();
    expected.insert(usize::MAX, BTreeMap::from([(0, 1)]));
    expected.insert(0, BTreeMap::from([(3, 2), (5, 1)]));
    expected.insert(3, BTreeMap::from([(0, 2)]));
    assert_eq!(dynamic.edges, expected);
}

#[test]
fn nothing_to_count() {
    let dynamic = DynamicAnalysis::new(&tracer(&[1, 2, 4]), &analysis());
    assert_eq!(dynamic.edge_counter_max, 0);
    assert!(dynamic.edges.is_empty());
}

#[test]
fn methods_of_the_command_line() {
    for (name, method, needs_analysis) in [
        ("cfg", Method::Cfg, true),
        ("debugger", Method::Debugger, false),
        ("disassembler", Method::Disassembler, true),
        ("interpreter", Method::Interpreter, false),
        ("jit", Method::Jit, false),
    ] {
        assert_eq!(parse_method(name), Some(method));
        assert_eq!(method.needs_analysis(false, false), needs_analysis);
        assert!(method.needs_analysis(true, false) && method.needs_analysis(false, true));
        assert_eq!(method.runs_program(), !needs_analysis);
    }
    assert_eq!(parse_method("Jit"), None);
    assert_eq!(parse_method(""), None);
}

#[test]
fn settings_of_the_command_line() {
    assert!(!configure(false, false).enable_instruction_tracing);
    assert!(configure(true, false).enable_instruction_tracing);
    assert!(configure(false, true).enable_instruction_tracing);
    assert_eq!(
        configure(false, false),
        Config {
            enable_symbol_and_section_labels: true,
            ..Config::default()
        }
    );
}
