//! Virtual machine for eBPF programs: memory mapping and address translation, registries of
//! functions and syscalls, metering, tracing, and programs that are generated to test all of it.

pub mod aligned_memory;
pub mod arith;
pub mod byte_order;
pub mod bytes;
pub mod cli;
pub mod config;
pub mod context;
pub mod differential;
pub mod dynamic_analysis;
pub mod ebpf;
pub mod error;
pub mod executable;
pub mod eytzinger;
pub mod grammar_aware;
pub mod host_memory;
pub mod insn_builder;
pub mod mapping_cache;
pub mod mapping_laws;
pub mod memory_mapping;
pub mod memory_region;
pub mod program;
pub mod region_order;
pub mod region_text;
pub mod result;
pub mod semantic_aware;
pub mod semantic_laws;
pub mod static_analysis;
pub mod syscall_registry;
pub mod text;
pub mod trace;
pub mod version;
pub mod vm;
