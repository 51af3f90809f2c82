# sbpf

The verified core of a virtual machine for eBPF programs. Everything under `src/` is proved with
[Verus](https://github.com/verus-lang/verus) against the contracts that stand in the code.

| Modules | What they hold |
| --- | --- |
| `memory_region`, `region_order`, `region_text` | Bounds checks and address translation of one region, with and without gaps |
| `mapping_cache`, `eytzinger`, `memory_mapping`, `mapping_laws` | Lookup of regions, aligned and unaligned mappings, violation handlers, loads and stores |
| `host_memory`, `aligned_memory`, `bytes`, `byte_order`, `arith`, `text` | Memory and the notation of numbers in it |
| `version`, `config`, `ebpf`, `error`, `result`, `context` | Settings, constants, errors and the instruction meter |
| `program`, `syscall_registry`, `executable`, `vm` | Functions, syscalls, loaded and verified programs, and the machine that runs them |
| `static_analysis`, `trace`, `dynamic_analysis` | Printed traces and branch statistics |
| `insn_builder`, `grammar_aware`, `semantic_aware`, `differential`, `cli` | Generated programs, comparison of their runs, and decisions of the command line |

Statements about several functions at once are public proof functions whose names start with `law_`.

`app/` is ordinary Rust around the library: the command line, streams, and results with a stable
memory layout. Loaders, interpreters and compilers plug in through its `Engine` trait.

Six functions of the standard library are trusted: where a slice lies (`slice_range`), how much room
a vector or a hash table has (`name_capacity`, `table_capacity`), whether two references are the same
(`same_place`), how the machine lays out a number (`native_u16`), and that converting a type into
itself changes nothing.
