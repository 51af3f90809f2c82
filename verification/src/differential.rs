//! Comparison of interpreted and JIT compiled runs of the same program.
use vstd::prelude::*;
use vstd::string::StringSliceAdditionalSpecFns;

use crate::bytes::bytes_equal;
use crate::config::Config;

verus! {

/// What can be observed after a program has run
#[derive(Debug)]
pub struct Observation {
    /// The result as text: `Ok(..)` around the returned value, or `Err(..)` around the error
    pub result: Vec<u8>,
    /// Is the result a success
    pub success: bool,
    /// Number of instructions that were left
    pub remaining: u64,
    /// The input memory
    pub memory: Vec<u8>,
    /// The stack
    pub stack: Vec<u8>,
    /// The heap
    pub heap: Vec<u8>,
    /// The program counter at the end
    pub final_pc: u64,
}

/// In what two runs differ
#[derive(Debug, Clone, Copy, PartialEq, Eq, Structural)]
pub enum Divergence {
    /// The result
    Outcome,
    /// Number of instructions that were left
    Remaining,
    /// The input memory
    Memory,
    /// The stack
    Stack,
    /// The heap
    Heap,
    /// The program counter at the end
    FinalPc,
    /// Only one of the runs took place, because the program could not be compiled
    NotCompiled,
}

/// Does `pattern` stand in `text` at the position `start`
pub open spec fn occurs_at(text: Seq<u8>, pattern: Seq<u8>, start: int) -> bool {
    &&& 0 <= start <= text.len() - pattern.len()
    &&& text.subrange(start, start + pattern.len()) == pattern
}

/// Does `pattern` stand somewhere in `text`
pub open spec fn occurs(text: Seq<u8>, pattern: Seq<u8>) -> bool {
    exists|start: int| occurs_at(text, pattern, start)
}

/// Did the run exceed its instructions, judging by its result
pub open spec fn exceeded(run: Observation) -> bool {
    occurs(run.result@, "ExceededMaxInstructions".spec_bytes())
}

/// The first difference in what a successful run leaves behind
pub open spec fn first_remainder(interpreter: Observation, jit: Observation, all: bool) -> Option<
    Divergence,
> {
    if interpreter.remaining != jit.remaining {
        Some(Divergence::Remaining)
    } else if interpreter.memory@ != jit.memory@ {
        Some(Divergence::Memory)
    } else if all && interpreter.stack@ != jit.stack@ {
        Some(Divergence::Stack)
    } else if all && interpreter.heap@ != jit.heap@ {
        Some(Divergence::Heap)
    } else {
        None
    }
}

/// Divergence of the runs of a generated program. Two runs that both exceed their instructions may
/// do so in different places.
pub open spec fn generated_divergence(interpreter: Observation, jit: Observation) -> Option<
    Divergence,
> {
    if interpreter.result@ != jit.result@ {
        if exceeded(interpreter) && exceeded(jit) {
            None
        } else {
            Some(Divergence::Outcome)
        }
    } else if interpreter.success {
        first_remainder(interpreter, jit, false)
    } else {
        None
    }
}

/// May the results of a loaded program differ: a call out of the code is an overrun when compiled.
pub open spec fn is_known_difference(interpreter: Observation, jit: Observation) -> bool {
    &&& interpreter.result@ == "Err(CallOutsideTextSegment)".spec_bytes()
    &&& jit.result@ == "Err(ExecutionOverrun)".spec_bytes()
}

/// Divergence of the runs of a loaded program
pub open spec fn loaded_divergence(interpreter: Observation, jit: Observation) -> Option<
    Divergence,
> {
    let remainder = if interpreter.success {
        first_remainder(interpreter, jit, true)
    } else {
        None
    };
    if interpreter.result@ != jit.result@ && !is_known_difference(interpreter, jit) {
        Some(Divergence::Outcome)
    } else if remainder is Some {
        remainder
    } else if interpreter.final_pc != jit.final_pc {
        Some(Divergence::FinalPc)
    } else {
        None
    }
}

/// Does `pattern` stand in `text` at the position `start`
fn matches_at(text: &[u8], pattern: &[u8], start: usize) -> (found: bool)
    requires
        start + pattern@.len() <= text@.len(),
    ensures
        found == occurs_at(text@, pattern@, start as int),
{
    assert(text.len() <= usize::MAX);
    let mut i: usize = 0;
    while i < pattern.len()
        invariant
            i <= pattern@.len(),
            start + pattern@.len() <= text@.len() <= usize::MAX,
            forall|k: int| 0 <= k < i ==> text@[start + k] == pattern@[k],
        decreases pattern@.len() - i,
    {
        if text[start + i] != pattern[i] {
            assert(text@.subrange(start as int, start + pattern@.len())[i as int]
                != pattern@[i as int]);
            return false;
        }
        i = i + 1;
    }
    assert(text@.subrange(start as int, start + pattern@.len()) =~= pattern@);
    true
}

/// Does `pattern` stand somewhere in `text`
pub fn contains(text: &[u8], pattern: &[u8]) -> (found: bool)
    ensures
        found == occurs(text@, pattern@),
{
    let mut start: usize = 0;
    while pattern.len() <= text.len() && start <= text.len() - pattern.len()
        invariant
            forall|k: int| 0 <= k < start ==> !occurs_at(text@, pattern@, k),
        decreases text@.len() + 1 - start,
    {
        if matches_at(text, pattern, start) {
            return true;
        }
        if start == text.len() - pattern.len() {
            assert forall|k: int| !occurs_at(text@, pattern@, k) by {}
            return false;
        }
        start = start + 1;
    }
    false
}

/// Finds the first difference in what a successful run leaves behind
fn compare_remainders(interpreter: &Observation, jit: &Observation, all: bool) -> (divergence:
    Option<Divergence>)
    ensures
        divergence == first_remainder(*interpreter, *jit, all),
{
    if interpreter.remaining != jit.remaining {
        return Some(Divergence::Remaining);
    }
    if !bytes_equal(interpreter.memory.as_slice(), jit.memory.as_slice()) {
        return Some(Divergence::Memory);
    }
    if all && !bytes_equal(interpreter.stack.as_slice(), jit.stack.as_slice()) {
        return Some(Divergence::Stack);
    }
    if all && !bytes_equal(interpreter.heap.as_slice(), jit.heap.as_slice()) {
        return Some(Divergence::Heap);
    }
    None
}

/// Compares the runs of a generated program
pub fn compare_generated(interpreter: &Observation, jit: &Observation) -> (divergence: Option<
    Divergence,
>)
    ensures
        divergence == generated_divergence(*interpreter, *jit),
{
    if !bytes_equal(interpreter.result.as_slice(), jit.result.as_slice()) {
        let pattern = "ExceededMaxInstructions".as_bytes();
        if contains(interpreter.result.as_slice(), pattern) && contains(
            jit.result.as_slice(),
            pattern,
        ) {
            return None;
        }
        return Some(Divergence::Outcome);
    }
    if interpreter.success {
        compare_remainders(interpreter, jit, false)
    } else {
        None
    }
}

/// Compares the runs of a loaded program
pub fn compare_loaded(interpreter: &Observation, jit: &Observation) -> (divergence: Option<
    Divergence,
>)
    ensures
        divergence == loaded_divergence(*interpreter, *jit),
{
    if !bytes_equal(interpreter.result.as_slice(), jit.result.as_slice()) && !(bytes_equal(
        interpreter.result.as_slice(),
        "Err(CallOutsideTextSegment)".as_bytes(),
    ) && bytes_equal(jit.result.as_slice(), "Err(ExecutionOverrun)".as_bytes())) {
        return Some(Divergence::Outcome);
    }
    if interpreter.success {
        let remainder = compare_remainders(interpreter, jit, true);
        if remainder.is_some() {
            return remainder;
        }
    }
    if interpreter.final_pc != jit.final_pc {
        return Some(Divergence::FinalPc);
    }
    None
}

/// Judges the runs of a loaded program, of which there is only one if it could not be compiled
pub fn judge_loaded(interpreter: &Observation, jit: Option<&Observation>) -> (divergence: Option<
    Divergence,
>)
    ensures
        divergence == match jit {
            Some(jit) => loaded_divergence(*interpreter, *jit),
            None => Some(Divergence::NotCompiled),
        },
{
    match jit {
        Some(jit) => compare_loaded(interpreter, jit),
        None => Some(Divergence::NotCompiled),
    }
}

/// The settings under which loaded programs are compared
pub fn loaded_config() -> (config: Config)
    ensures
        config == (Config {
            enable_stack_frame_gaps: true,
            enable_symbol_and_section_labels: false,
            sanitize_user_provided_values: false,
            optimize_rodata: false,
            ..Config::spec_default()
        }),
{
    let mut config = Config::default();
    config.enable_stack_frame_gaps = true;
    config.enable_symbol_and_section_labels = false;
    config.sanitize_user_provided_values = false;
    config.optimize_rodata = false;
    config
}

/// Runs that cannot be told apart do not diverge.
pub proof fn law_equal_runs_do_not_diverge(interpreter: Observation, jit: Observation)
    requires
        interpreter == jit,
    ensures
        generated_divergence(interpreter, jit) is None,
        loaded_divergence(interpreter, jit) is None,
{
}

/// Where no divergence of the runs of a generated program is reported, the results are the same or
/// both runs exceeded their instructions. After the same success, as many instructions were left, and
/// every byte of the input memory is the same.
pub proof fn law_undetected_generated_runs_agree(
    interpreter: &Observation,
    jit: &Observation,
    divergence: Option<Divergence>,
)
    requires
        call_ensures(compare_generated, (interpreter, jit), divergence),
    ensures
        divergence is None && interpreter.result@ != jit.result@ ==> {
            &&& exists|start: int|
                0 <= start && start + 23 <= interpreter.result@.len()
                    && #[trigger] interpreter.result@.subrange(start, start + 23)
                    == "ExceededMaxInstructions".spec_bytes()
            &&& exists|start: int|
                0 <= start && start + 23 <= jit.result@.len()
                    && #[trigger] jit.result@.subrange(start, start + 23)
                    == "ExceededMaxInstructions".spec_bytes()
        },
        divergence is None && interpreter.result@ == jit.result@ && interpreter.success ==> {
            &&& interpreter.remaining == jit.remaining
            &&& interpreter.memory@.len() == jit.memory@.len()
            &&& forall|i: int|
                0 <= i < interpreter.memory@.len() ==> #[trigger] interpreter.memory@[i]
                    == jit.memory@[i]
        },
{
    lemma_pattern_len();
    if divergence is None && interpreter.result@ != jit.result@ {
        let pattern = "ExceededMaxInstructions".spec_bytes();
        let start = choose|start: int| occurs_at(interpreter.result@, pattern, start);
        assert(interpreter.result@.subrange(start, start + 23) == pattern);
        let start = choose|start: int| occurs_at(jit.result@, pattern, start);
        assert(jit.result@.subrange(start, start + 23) == pattern);
    }
}

/// A divergence of the runs of a generated program that is reported is there: the results differ,
/// and one of them does not tell of exceeded instructions, or after the same success something else
/// differs that the report names.
pub proof fn law_reported_generated_divergence(
    interpreter: &Observation,
    jit: &Observation,
    divergence: Option<Divergence>,
)
    requires
        call_ensures(compare_generated, (interpreter, jit), divergence),
    ensures
        divergence matches Some(Divergence::Outcome) ==> {
            &&& interpreter.result@ != jit.result@
            &&& !(exists|a: int, b: int|
                0 <= a && a + 23 <= interpreter.result@.len() && 0 <= b && b + 23
                    <= jit.result@.len() && #[trigger] interpreter.result@.subrange(a, a + 23)
                    == "ExceededMaxInstructions".spec_bytes() && #[trigger] jit.result@.subrange(
                    b,
                    b + 23,
                ) == "ExceededMaxInstructions".spec_bytes())
        },
        divergence is Some && !(divergence matches Some(Divergence::Outcome)) ==> {
            &&& interpreter.result@ == jit.result@
            &&& interpreter.success
        },
        divergence matches Some(Divergence::Remaining) ==> interpreter.remaining != jit.remaining,
        divergence matches Some(Divergence::Memory) ==> interpreter.remaining == jit.remaining
            && interpreter.memory@ != jit.memory@,
        !(divergence matches Some(Divergence::Stack)),
        !(divergence matches Some(Divergence::Heap)),
        !(divergence matches Some(Divergence::FinalPc)),
        !(divergence matches Some(Divergence::NotCompiled)),
{
    lemma_pattern_len();
    if divergence matches Some(Divergence::Outcome) {
        let pattern = "ExceededMaxInstructions".spec_bytes();
        if exists|a: int, b: int|
            0 <= a && a + 23 <= interpreter.result@.len() && 0 <= b && b + 23 <= jit.result@.len()
                && #[trigger] interpreter.result@.subrange(a, a + 23) == pattern
                && #[trigger] jit.result@.subrange(b, b + 23) == pattern {
            let (a, b) = choose|a: int, b: int|
                0 <= a && a + 23 <= interpreter.result@.len() && 0 <= b && b + 23
                    <= jit.result@.len() && #[trigger] interpreter.result@.subrange(a, a + 23)
                    == pattern && #[trigger] jit.result@.subrange(b, b + 23) == pattern;
            assert(occurs_at(interpreter.result@, pattern, a));
            assert(occurs_at(jit.result@, pattern, b));
        }
    }
}

/// Where no divergence of the runs of a loaded program is reported, both ended at the same program
/// counter, with the same result but for the one known difference. After a success, as many
/// instructions were left, and every byte of the input memory, the stack and the heap is the same.
pub proof fn law_undetected_loaded_runs_agree(
    interpreter: &Observation,
    jit: &Observation,
    divergence: Option<Divergence>,
)
    requires
        call_ensures(compare_loaded, (interpreter, jit), divergence),
    ensures
        divergence is None ==> {
            &&& interpreter.final_pc == jit.final_pc
            &&& interpreter.result@ == jit.result@ || {
                &&& interpreter.result@ == "Err(CallOutsideTextSegment)".spec_bytes()
                &&& jit.result@ == "Err(ExecutionOverrun)".spec_bytes()
            }
        },
        divergence is None && interpreter.success ==> {
            &&& interpreter.remaining == jit.remaining
            &&& interpreter.memory@.len() == jit.memory@.len()
            &&& forall|i: int|
                0 <= i < interpreter.memory@.len() ==> #[trigger] interpreter.memory@[i]
                    == jit.memory@[i]
            &&& interpreter.stack@.len() == jit.stack@.len()
            &&& forall|i: int|
                0 <= i < interpreter.stack@.len() ==> #[trigger] interpreter.stack@[i]
                    == jit.stack@[i]
            &&& interpreter.heap@.len() == jit.heap@.len()
            &&& forall|i: int|
                0 <= i < interpreter.heap@.len() ==> #[trigger] interpreter.heap@[i]
                    == jit.heap@[i]
        },
{
}

/// A divergence of the runs of a loaded program that is reported is there, and is the first one in
/// the order result, remaining instructions, input memory, stack, heap, program counter.
pub proof fn law_reported_loaded_divergence(
    interpreter: &Observation,
    jit: &Observation,
    divergence: Option<Divergence>,
)
    requires
        call_ensures(compare_loaded, (interpreter, jit), divergence),
    ensures
        divergence matches Some(Divergence::Outcome) ==> {
            &&& interpreter.result@ != jit.result@
            &&& interpreter.result@ == "Err(CallOutsideTextSegment)".spec_bytes() ==> jit.result@
                != "Err(ExecutionOverrun)".spec_bytes()
        },
        divergence matches Some(Divergence::Remaining) ==> {
            &&& interpreter.success
            &&& interpreter.remaining != jit.remaining
        },
        divergence matches Some(Divergence::Memory) ==> {
            &&& interpreter.success
            &&& interpreter.remaining == jit.remaining
            &&& interpreter.memory@ != jit.memory@
        },
        divergence matches Some(Divergence::Stack) ==> {
            &&& interpreter.success
            &&& interpreter.remaining == jit.remaining
            &&& interpreter.memory@ == jit.memory@
            &&& interpreter.stack@ != jit.stack@
        },
        divergence matches Some(Divergence::Heap) ==> {
            &&& interpreter.success
            &&& interpreter.remaining == jit.remaining
            &&& interpreter.memory@ == jit.memory@
            &&& interpreter.stack@ == jit.stack@
            &&& interpreter.heap@ != jit.heap@
        },
        divergence matches Some(Divergence::FinalPc) ==> interpreter.final_pc != jit.final_pc,
        !(divergence matches Some(Divergence::NotCompiled)),
{
}

/// A program that could not be compiled is reported as such, and no other one is.
pub proof fn law_missing_run_is_reported(
    interpreter: &Observation,
    jit: Option<&Observation>,
    divergence: Option<Divergence>,
)
    requires
        call_ensures(judge_loaded, (interpreter, jit), divergence),
    ensures
        divergence matches Some(Divergence::NotCompiled) <==> jit is None,
        jit matches Some(run) ==> (divergence is None ==> interpreter.final_pc == run.final_pc),
        jit matches Some(run) ==> (divergence is None && interpreter.success ==> interpreter.memory@
            == run.memory@ && interpreter.stack@ == run.stack@ && interpreter.heap@ == run.heap@
            && interpreter.remaining == run.remaining),
{
}

proof fn lemma_pattern_len()
    ensures
        "ExceededMaxInstructions".spec_bytes().len() == 23,
{
    reveal_strlit("ExceededMaxInstructions");
    vstd::utf8::is_ascii_chars_encode_utf8("ExceededMaxInstructions"@);
}

/// Loaded programs are compared with gaps between the stack frames, without labels, with values as
/// they are, and with copied read only sections. Everything else is as it is without any setting.
pub proof fn law_settings_of_comparisons(config: Config)
    requires
        call_ensures(loaded_config, (), config),
    ensures
        config.max_call_depth == 20,
        config.stack_frame_size == 4096,
        config.enable_stack_frame_gaps,
        config.instruction_meter_checkpoint_distance == 10000,
        config.enable_instruction_meter,
        !config.enable_instruction_tracing,
        !config.enable_symbol_and_section_labels,
        !config.reject_broken_elfs,
        config.noop_instruction_rate == 256,
        !config.sanitize_user_provided_values,
        config.encrypt_environment_registers,
        config.syscall_bpf_function_hash_collision,
        config.reject_callx_r10,
        config.dynamic_stack_frames,
        config.enable_sdiv,
        !config.optimize_rodata,
        config.static_syscalls,
        config.enable_elf_vaddr,
        config.new_elf_parser,
        config.reject_rodata_stack_overlap,
        config.aligned_memory_mapping,
{
}

/// A text contains a pattern exactly if the bytes of the pattern follow each other somewhere in it.
pub proof fn law_patterns_are_found(text: &[u8], pattern: &[u8], found: bool)
    requires
        call_ensures(contains, (text, pattern), found),
    ensures
        found <==> exists|start: int|
            0 <= start && start + pattern@.len() <= text@.len() && #[trigger] text@.subrange(
                start,
                start + pattern@.len(),
            ) == pattern@,
{
    if found {
        let start = choose|start: int| occurs_at(text@, pattern@, start);
        assert(text@.subrange(start, start + pattern@.len()) == pattern@);
    } else if exists|start: int|
        0 <= start && start + pattern@.len() <= text@.len() && #[trigger] text@.subrange(
            start,
            start + pattern@.len(),
        ) == pattern@ {
        let start = choose|start: int|
            0 <= start && start + pattern@.len() <= text@.len() && #[trigger] text@.subrange(
                start,
                start + pattern@.len(),
            ) == pattern@;
        assert(occurs_at(text@, pattern@, start));
    }
}

} // verus!
