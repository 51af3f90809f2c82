use sbpf::bytes::{bytes_equal, read_le, to_le};
use sbpf::context::{ContextObject, TestContextObject};
use sbpf::ebpf::hash_symbol_name;
use sbpf::error::{EbpfError, ElfError};
use sbpf::program::{
    BuiltinInvocation, BuiltinProgram, FunctionRegistry, JitCompiler, SBPFVersion,
};
use sbpf::result::ProgramResult;
use sbpf::vm::Config;

type Syscall = fn(u64) -> u64;

fn syscall_string(value: u64) -> u64 {
    value
}

fn syscall_u64(value: u64) -> u64 {
    value + 1
}

#[test]
fn test_builtin_program_eq() {
    let mut builtin_program_a = BuiltinProgram::new_loader(Config::default());
    let mut builtin_program_b = BuiltinProgram::new_loader(Config::default());
    let mut builtin_program_c = BuiltinProgram::new_loader(Config::default());
    builtin_program_a
        .register_function("log", syscall_string as Syscall)
        .unwrap();
    builtin_program_a
        .register_function("log_64", syscall_u64 as Syscall)
        .unwrap();
    builtin_program_b
        .register_function("log_64", syscall_u64 as Syscall)
        .unwrap();
    builtin_program_b
        .register_function("log", syscall_string as Syscall)
        .unwrap();
    builtin_program_c
        .register_function("log_64", syscall_u64 as Syscall)
        .unwrap();
    assert_eq!(builtin_program_a, builtin_program_b);
    assert_ne!(builtin_program_a, builtin_program_c);
}

#[test]
fn programs_with_other_settings_differ() {
    let loader = BuiltinProgram::<u32>::new_loader(Config::default());
    let mock = BuiltinProgram::<u32>::new_mock();
    let builtin = BuiltinProgram::<u32>::new_builtin();
    assert!(loader.is_loader() && mock.is_loader() && !builtin.is_loader());
    assert_eq!(loader, mock);
    assert_ne!(loader, builtin);
    assert_eq!(builtin, BuiltinProgram::new_builtin());
    let other = BuiltinProgram::<u32>::new_loader(Config {
        max_call_depth: 5,
        ..Config::default()
    });
    assert_ne!(loader, other);
    assert_eq!(other.get_config().max_call_depth, 5);
}

#[test]
fn symbol_hashes() {
    assert_eq!(hash_symbol_name(b"sol_log_"), 544561597);
    assert_eq!(hash_symbol_name(b"entrypoint"), 0x71e3cf81);
    assert_eq!(hash_symbol_name(b"log"), 1811268606);
    assert_eq!(hash_symbol_name(b"log_64"), 1883515721);
    assert_eq!(hash_symbol_name(b"abc"), 3017643002);
    assert_eq!(hash_symbol_name(b""), 0);
}

#[test]
fn registered_functions_are_found() {
    let mut program = BuiltinProgram::new_builtin();
    program.register_function("log", 7u32).unwrap();
    let key = hash_symbol_name(b"log");
    let registry = program.get_function_registry();
    assert_eq!(registry.lookup_by_key(key), Some((&b"log"[..], 7)));
    assert_eq!(registry.lookup_by_name(b"log"), Some((&b"log"[..], 7)));
    assert_eq!(registry.lookup_by_key(key + 1), None);
    assert_eq!(registry.lookup_by_name(b"lo"), None);
}

#[test]
fn collisions_are_refused() {
    let mut registry = FunctionRegistry::default();
    registry.register_function(5, b"a".to_vec(), 1u8).unwrap();
    // The same value under the same key is fine, and keeps the first name.
    registry.register_function(5, b"b".to_vec(), 1u8).unwrap();
    assert_eq!(
        registry.register_function(5, b"a".to_vec(), 2u8),
        Err(ElfError::SymbolHashCollision(5))
    );
    assert_eq!(registry.lookup_by_key(5), Some((&b"a"[..], 1)));
    registry.unregister_function(5);
    registry.unregister_function(6);
    assert_eq!(registry.lookup_by_key(5), None);
    registry.register_function(5, b"c".to_vec(), 2u8).unwrap();
    assert_eq!(registry.lookup_by_key(5), Some((&b"c"[..], 2)));
}

#[test]
fn entries_are_sorted_by_key() {
    let mut registry = FunctionRegistry::default();
    for (key, name) in [(30, "x"), (10, "y"), (u32::MAX, "x"), (20, "x"), (0, "z")] {
        registry
            .register_function(key, name.as_bytes().to_vec(), key as u64 + 1)
            .unwrap();
    }
    assert_eq!(registry.keys(), vec![0, 10, 20, 30, u32::MAX]);
    let entries: Vec<(u32, Vec<u8>, u64)> = registry
        .iter()
        .into_iter()
        .map(|(key, (name, value))| (key, name.to_vec(), value))
        .collect();
    assert_eq!(entries[1], (10, b"y".to_vec(), 11));
    assert_eq!(entries[4], (u32::MAX, b"x".to_vec(), u32::MAX as u64 + 1));
    // The function with the lowest key wins.
    assert_eq!(registry.lookup_by_name(b"x"), Some((&b"x"[..], 21)));
}

#[test]
fn registries_compare_names_and_values() {
    let with = |name: &str, value: u8| {
        let mut registry = FunctionRegistry::default();
        registry
            .register_function(1, name.as_bytes().to_vec(), value)
            .unwrap();
        registry
    };
    assert_eq!(with("a", 1), with("a", 1));
    assert_ne!(with("a", 1), with("b", 1));
    assert_ne!(with("a", 1), with("a", 2));
    assert_ne!(with("a", 1), FunctionRegistry::default());
}

#[test]
fn program_functions_get_derived_keys() {
    let mut loader = BuiltinProgram::new_mock();
    loader.register_function("log", 0u8).unwrap();
    let mut registry: FunctionRegistry<usize> = FunctionRegistry::default();
    let unlabelled = hash_symbol_name(&100u64.to_le_bytes());
    assert_eq!(
        registry.register_function_hashed_legacy(&loader, true, b"main".to_vec(), 100),
        Ok(unlabelled)
    );
    // Without labels, no name is kept.
    assert_eq!(registry.lookup_by_key(unlabelled), Some((&b""[..], 100)));
    assert_eq!(
        registry.register_function_hashed_legacy(&loader, true, b"entrypoint".to_vec(), 7),
        Ok(0x71e3cf81)
    );
    assert_eq!(
        registry.lookup_by_key(0x71e3cf81),
        Some((&b"entrypoint"[..], 7))
    );
    assert_eq!(
        registry.register_function_hashed_legacy(&loader, true, b"entrypoint".to_vec(), 8),
        Err(ElfError::SymbolHashCollision(0x71e3cf81))
    );
    assert_eq!(
        registry.register_function_hashed_legacy(&loader, false, b"main".to_vec(), 0x1_0000_0005),
        Ok(5)
    );
    assert_eq!(
        registry.lookup_by_key(5),
        Some((&b""[..], 0x1_0000_0005))
    );

    let labelled = BuiltinProgram::<u8>::new_loader(Config {
        enable_symbol_and_section_labels: true,
        ..Config::default()
    });
    let mut registry: FunctionRegistry<usize> = FunctionRegistry::default();
    registry
        .register_function_hashed_legacy(&labelled, true, b"main".to_vec(), 100)
        .unwrap();
    assert_eq!(
        registry.lookup_by_key(unlabelled),
        Some((&b"main"[..], 100))
    );
}

#[test]
fn program_functions_of_other_types() {
    let loader = BuiltinProgram::<u8>::new_mock();
    let mut registry: FunctionRegistry<u16> = FunctionRegistry::default();
    assert_eq!(
        registry.register_function_hashed_legacy(&loader, false, b"main".to_vec(), 300),
        Ok(300)
    );
    let hash = hash_symbol_name(&300u64.to_le_bytes());
    assert_eq!(
        registry.register_function_hashed_legacy(&loader, true, b"main".to_vec(), 300),
        Ok(hash)
    );
    assert_eq!(registry.lookup_by_key(hash), Some((&b""[..], 300)));
    // The index decides on the key, the value on the collision.
    assert_eq!(
        registry.register_function_at(&loader, false, b"main".to_vec(), 1, 300),
        Err(ElfError::SymbolHashCollision(300))
    );
}

#[test]
fn program_functions_do_not_hide_builtins() {
    let mut loader = BuiltinProgram::new_mock();
    loader.register_function("entrypoint", 0u8).unwrap();
    let mut registry: FunctionRegistry<usize> = FunctionRegistry::default();
    assert_eq!(
        registry.register_function_hashed_legacy(&loader, true, b"entrypoint".to_vec(), 7),
        Err(ElfError::SymbolHashCollision(0x71e3cf81))
    );
    assert!(registry.keys().is_empty());
    // Keys that are not hashes are not compared.
    assert_eq!(
        registry.register_function_hashed_legacy(
            &loader,
            false,
            b"entrypoint".to_vec(),
            0x71e3cf81
        ),
        Ok(0x71e3cf81)
    );
}

#[test]
fn memory_sizes() {
    let registry_size = std::mem::size_of::<FunctionRegistry<u64>>();
    let entry_size = 8 + std::mem::size_of::<Vec<u8>>();
    assert_eq!(FunctionRegistry::<u64>::mem_size_for(&vec![]), registry_size);
    assert_eq!(
        FunctionRegistry::<u64>::mem_size_for(&vec![3, 0]),
        registry_size + 2 * entry_size + 3
    );
    assert_eq!(
        FunctionRegistry::<u64>::mem_size_for(&vec![usize::MAX]),
        usize::MAX
    );
    let mut registry = FunctionRegistry::default();
    let mut name = Vec::with_capacity(40);
    name.extend_from_slice(b"name");
    let capacity = name.capacity();
    registry.register_function(1, name, 2u64).unwrap();
    assert_eq!(registry.mem_size(), registry_size + entry_size + capacity);

    let program_size = std::mem::size_of::<BuiltinProgram<u64>>();
    let config_size = std::mem::size_of::<Config>();
    assert_eq!(
        BuiltinProgram::<u64>::new_builtin().mem_size(),
        program_size + registry_size
    );
    assert_eq!(
        BuiltinProgram::<u64>::new_mock().mem_size(),
        program_size + config_size + registry_size
    );
}

#[test]
fn builtin_functions_are_metered() {
    let metered = Config::default();
    let unmetered = Config {
        enable_instruction_meter: false,
        ..Config::default()
    };
    let mut context = TestContextObject { remaining: 100 };
    let mut invocation = BuiltinInvocation {
        previous_instruction_meter: 90,
        due_insn_count: 60,
        program_result: ProgramResult::Success(0),
    };
    invocation.enter(&metered, &mut context);
    assert_eq!(context.remaining, 70);
    context.consume(5);
    invocation.leave(&metered, &context, Ok(3));
    assert_eq!(invocation.previous_instruction_meter, 65);
    assert_eq!(invocation.due_insn_count, 60);
    assert_eq!(invocation.program_result.unwrap(), 3);

    let mut invocation = BuiltinInvocation {
        previous_instruction_meter: 0,
        due_insn_count: 60,
        program_result: ProgramResult::Success(0),
    };
    invocation.enter(&unmetered, &mut context);
    assert_eq!(context.get_remaining(), 65);
    invocation.leave(&unmetered, &context, Err("failed".to_string()));
    assert_eq!(invocation.previous_instruction_meter, 0);
    assert_eq!(
        invocation.program_result.unwrap_err(),
        EbpfError::SyscallError("failed".to_string())
    );
}

#[test]
fn no_code_is_emitted_without_a_compiler() {
    let mut jit: JitCompiler<TestContextObject> = JitCompiler::new();
    jit.emit_external_call(syscall_u64 as Syscall);
}

#[test]
fn features_of_versions() {
    let versions = [
        SBPFVersion::V0,
        SBPFVersion::V1,
        SBPFVersion::V2,
        SBPFVersion::V3,
        SBPFVersion::V4,
        SBPFVersion::Reserved,
    ];
    for (index, version) in versions.into_iter().enumerate() {
        assert_eq!(version.manual_stack_frame_bump(), index == 1 || index == 2);
        assert_eq!(version.stack_frame_gaps(), index == 0);
        for feature in [
            version.enable_pqr(),
            version.explicit_sign_extension_of_results(),
            version.swap_sub_reg_imm_operands(),
            version.disable_neg(),
            version.callx_uses_src_reg(),
            version.disable_lddw(),
            version.disable_le(),
            version.move_memory_instruction_classes(),
        ] {
            assert_eq!(feature, index == 2);
        }
        for feature in [
            version.static_syscalls(),
            version.enable_stricter_elf_headers(),
            version.enable_lower_rodata_vaddr(),
            version.enable_jmp32(),
            version.callx_uses_dst_reg(),
        ] {
            assert_eq!(feature, index >= 3);
        }
    }
}

#[test]
fn call_targets() {
    assert_eq!(SBPFVersion::V2.calculate_call_imm_target_pc(10, -1), u32::MAX);
    assert_eq!(SBPFVersion::V0.calculate_call_imm_target_pc(10, 0x1_0000_0002), 2);
    assert_eq!(SBPFVersion::V3.calculate_call_imm_target_pc(10, 5), 16);
    assert_eq!(SBPFVersion::V3.calculate_call_imm_target_pc(10, -11), 0);
    assert_eq!(SBPFVersion::V3.calculate_call_imm_target_pc(10, -12), u32::MAX);
    assert_eq!(
        SBPFVersion::V4.calculate_call_imm_target_pc(10, i64::MAX),
        u32::MAX
    );
    assert_eq!(
        SBPFVersion::V3.calculate_call_imm_target_pc(usize::MAX, i64::MIN),
        1
    );
}

#[test]
fn little_endian_numbers() {
    assert_eq!(to_le(0x0102, 3), vec![2, 1, 0]);
    assert_eq!(read_le(&[9, 2, 1, 7], 1, 2), 0x0102);
    assert_eq!(read_le(&[], 0, 0), 0);
    let word = 0xCAFE_BABE_DEAD_BEEF;
    assert_eq!(read_le(&to_le(word, 8), 0, 8), word);
    assert!(bytes_equal(&to_le(word, 8), &word.to_le_bytes()));
}
