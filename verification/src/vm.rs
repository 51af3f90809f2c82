//! Virtual machine for eBPF programs.
use vstd::prelude::*;

use crate::ebpf::MM_HEAP_START;
use crate::error::EbpfError;
use crate::memory_mapping::{spec_created, DefaultAccessViolationHandler, MemoryMapping};
use crate::memory_region::MemoryRegion;

pub use crate::config::Config;
pub use crate::context::{ContextObject, TestContextObject};
pub use crate::dynamic_analysis::DynamicAnalysis;
pub use crate::executable::{Executable, FunctionRegistry, VerifiedExecutable, Verifier};
pub use crate::result::{ProgramResult, StableResult};
pub use crate::syscall_registry::SyscallRegistry;
pub use crate::trace::Tracer;
use crate::version::SBPFVersion;

verus! {

/// Memory mapping of a virtual machine
pub type VmMapping<'a> = MemoryMapping<'a, DefaultAccessViolationHandler>;

/// A virtual machine to run eBPF programs.
pub struct EbpfVm<'a, V, F, C> {
    /// The program
    pub verified_executable: &'a VerifiedExecutable<V, F>,
    /// The code of the program
    pub program: &'a [u8],
    /// Virtual address of the code
    pub program_vm_addr: u64,
    /// The MemoryMapping describing the address space of the program
    pub memory_mapping: VmMapping<'a>,
    /// Pointer to the context object of syscalls
    pub context_object: &'a mut C,
    /// The instruction tracer
    pub tracer: Tracer,
    /// The stack of the program
    pub stack_region: MemoryRegion,
    /// Number of instructions executed by the last program
    pub total_insn_count: u64,
}

/// How an interpreter fared that ran a program to its end
#[derive(Debug)]
pub struct InterpreterRun {
    /// The instruction meter at the start
    pub initial_insn_count: u64,
    /// Executed instructions that the meter does not account for yet
    pub due_insn_count: u64,
    /// What the program returned
    pub result: Result<u64, EbpfError>,
}

/// How a JIT compiled program fared
#[derive(Debug)]
pub struct JitRun {
    /// What is left of the instruction meter, negative if it was exceeded
    pub instruction_meter_final: i64,
    /// What the program returned
    pub result: ProgramResult,
}

/// The regions that a virtual machine maps
pub open spec fn vm_regions(
    ro_region: MemoryRegion,
    stack_region: MemoryRegion,
    heap_region: MemoryRegion,
    additional_regions: Seq<MemoryRegion>,
) -> Seq<MemoryRegion> {
    seq![ro_region, stack_region, heap_region] + additional_regions
}

/// A virtual machine maps its read only data, its stack, its heap and each additional region, each as
/// often as it was given, and nothing else.
pub proof fn law_machine_maps_all_regions(
    ro_region: MemoryRegion,
    stack_region: MemoryRegion,
    heap_region: MemoryRegion,
    additional_regions: Seq<MemoryRegion>,
)
    ensures
        vm_regions(
            ro_region,
            stack_region,
            heap_region,
            additional_regions,
        ).to_multiset() =~= additional_regions.to_multiset().insert(ro_region).insert(
            stack_region,
        ).insert(heap_region),
        vm_regions(ro_region, stack_region, heap_region, additional_regions).len()
            == additional_regions.len() + 3,
    decreases additional_regions.len(),
{
    broadcast use vstd::seq_lib::group_to_multiset_ensures;

    let all = vm_regions(ro_region, stack_region, heap_region, additional_regions);
    if additional_regions.len() > 0 {
        let front = additional_regions.drop_last();
        law_machine_maps_all_regions(ro_region, stack_region, heap_region, front);
        assert(all =~= vm_regions(ro_region, stack_region, heap_region, front).push(
            additional_regions.last(),
        ));
        assert(additional_regions =~= front.push(additional_regions.last()));
    } else {
        let none = Seq::<MemoryRegion>::empty();
        assert(additional_regions =~= none);
        assert(all =~= none.push(ro_region).push(stack_region).push(heap_region));
    }
}

/// What is left of a meter that cannot be negative
pub open spec fn meter_left(instruction_meter_final: i64) -> u64 {
    if instruction_meter_final < 0 {
        0
    } else {
        instruction_meter_final as u64
    }
}

/// The outcome of a JIT compiled program, with the limit that it was given
pub open spec fn with_limit(result: ProgramResult, initial_insn_count: u64) -> ProgramResult {
    match result {
        StableResult::Failure(EbpfError::ExceededMaxInstructions(pc, _)) => StableResult::Failure(
            EbpfError::ExceededMaxInstructions(pc, initial_insn_count),
        ),
        other => other,
    }
}

/// Tells whether an interpreter is done after a step, and with which result
pub fn finished(step: Result<Option<u64>, EbpfError>) -> (result: Option<Result<u64, EbpfError>>)
    ensures
        result == match step {
            Ok(None) => None,
            Ok(Some(value)) => Some(Ok::<u64, EbpfError>(value)),
            Err(error) => Some(Err::<u64, EbpfError>(error)),
        },
{
    match step {
        Ok(None) => None,
        Ok(Some(value)) => Some(Ok(value)),
        Err(error) => Some(Err(error)),
    }
}

impl<'a, V, F, C> EbpfVm<'a, V, F, C> {
    /// Is everything but the meter the same as in the `other` machine
    pub open spec fn same_program(&self, other: &Self) -> bool {
        &&& self.verified_executable == other.verified_executable
        &&& self.program == other.program
        &&& self.program_vm_addr == other.program_vm_addr
        &&& self.memory_mapping == other.memory_mapping
        &&& self.stack_region == other.stack_region
        &&& self.tracer == other.tracer
    }

    /// Does the machine limit the number of instructions
    pub open spec fn is_metered(&self) -> bool {
        self.verified_executable@.config.enable_instruction_meter
    }
}

impl<'a, V, F, C: ContextObject> EbpfVm<'a, V, F, C> {
    /// Number of instructions that the program may still execute
    pub open spec fn remaining(&self) -> u64 {
        self.context_object.spec_remaining()
    }
}

impl<'a, V: Verifier, F, C: ContextObject> EbpfVm<'a, V, F, C> {
    /// Create a new virtual machine instance, and load an eBPF program into that instance.
    pub fn new(
        verified_executable: &'a VerifiedExecutable<V, F>,
        context_object: &'a mut C,
        stack_region: MemoryRegion,
        heap_region: &mut [u8],
        additional_regions: Vec<MemoryRegion>,
    ) -> (result: Result<EbpfVm<'a, V, F, C>, EbpfError>)
        requires
            verified_executable@.config.aligned_memory_mapping
                || verified_executable@.sbpf_version.ordinal() <= SBPFVersion::V4.ordinal(),
        ensures
            final(heap_region)@ == old(heap_region)@,
            exists|heap: MemoryRegion, mapped: Result<VmMapping<'a>, EbpfError>|
                {
                    &&& heap.describes(
                        heap.host_addr,
                        old(heap_region)@.len() as int,
                        MM_HEAP_START,
                        0,
                        true,
                    )
                    &&& heap.can_be_slice()
                    &&& heap.is_placed_at(&*old(heap_region))
                    &&& #[trigger] spec_created(
                        vm_regions(
                            verified_executable@.ro_region,
                            stack_region,
                            heap,
                            additional_regions@,
                        ),
                        verified_executable@.config,
                        verified_executable@.sbpf_version,
                        DefaultAccessViolationHandler,
                        mapped,
                    )
                    &&& match mapped {
                        Ok(mapping) => result matches Ok(vm) && vm.memory_mapping == mapping,
                        Err(error) => result matches Err(reason) && reason == error,
                    }
                },
            result matches Ok(vm) ==> exists|heap: MemoryRegion|
                {
                    let config = verified_executable@.config;
                    let mapped = vm.memory_mapping.regions();
                    let held = if verified_executable@.sbpf_version is V4
                        || config.aligned_memory_mapping {
                        mapped.skip(1)
                    } else {
                        mapped
                    };
                    &&& #[trigger] heap.is_placed_at(&*old(heap_region))
                    &&& heap.len == old(heap_region)@.len()
                    &&& heap.vm_addr == 0x3_0000_0000
                    &&& heap.writable
                    &&& heap.vm_gap_shift == 63
                    &&& held.to_multiset() == additional_regions@.to_multiset().insert(
                        verified_executable@.ro_region,
                    ).insert(stack_region).insert(heap)
                    &&& mapped.len() == additional_regions@.len() + if verified_executable@.sbpf_version is V4
                        || config.aligned_memory_mapping {
                        4int
                    } else {
                        3int
                    }
                },
            result matches Ok(vm) ==> {
                &&& vm.verified_executable == verified_executable
                &&& vm.program@ == verified_executable@.text_bytes@
                &&& vm.program_vm_addr == verified_executable@.text_vm_addr
                &&& vm.stack_region == stack_region
                &&& vm.tracer@ == Seq::<Seq<u64>>::empty()
                &&& vm.total_insn_count == 0
                &&& *vm.context_object == *old(context_object)
                &&& *final(vm.context_object) == *final(context_object)
            },
            result is Err ==> *final(context_object) == *old(context_object),
    {
        let executable = verified_executable.get_executable();
        let heap = MemoryRegion::new_writable(heap_region, MM_HEAP_START);
        let mut regions: Vec<MemoryRegion> = Vec::new();
        regions.push(executable.get_ro_region());
        regions.push(stack_region);
        regions.push(heap);
        let mut i: usize = 0;
        while i < additional_regions.len()
            invariant
                i <= additional_regions@.len(),
                regions@ == vm_regions(
                    executable.ro_region,
                    stack_region,
                    heap,
                    additional_regions@.take(i as int),
                ),
            decreases additional_regions@.len() - i,
        {
            regions.push(additional_regions[i]);
            i = i + 1;
            assert(regions@ =~= vm_regions(
                executable.ro_region,
                stack_region,
                heap,
                additional_regions@.take(i as int),
            ));
        }
        assert(additional_regions@.take(i as int) =~= additional_regions@);
        let (program_vm_addr, program) = executable.get_text_bytes();
        proof {
            law_machine_maps_all_regions(
                executable.ro_region,
                stack_region,
                heap,
                additional_regions@,
            );
            crate::region_order::law_sorted_regions(regions@, 0);
        }
        let mapped = MemoryMapping::new(regions, executable.get_config(), executable.sbpf_version);
        match mapped {
            Ok(memory_mapping) => Ok(
                EbpfVm {
                    verified_executable,
                    program,
                    program_vm_addr,
                    memory_mapping,
                    context_object,
                    tracer: Tracer::default(),
                    stack_region,
                    total_insn_count: 0,
                },
            ),
            Err(error) => Err(error),
        }
    }

    /// Returns the number of instructions executed by the last program.
    pub fn get_total_instruction_count(&self) -> (count: u64)
        ensures
            count == self.total_insn_count,
    {
        self.total_insn_count
    }

    /// Returns the program
    pub fn get_program(&self) -> (program: &[u8])
        ensures
            program@ == self.program@,
    {
        self.program
    }

    /// Settles the accounts of a program that an interpreter has executed.
    ///
    /// The `run` is an error if the interpreter could not be started.
    pub fn execute_program_interpreted(&mut self, run: Result<InterpreterRun, EbpfError>) -> (result:
        ProgramResult)
        requires
            run matches Ok(run) ==> old(self).is_metered() ==> {
                &&& run.due_insn_count <= old(self).remaining()
                &&& old(self).remaining() - run.due_insn_count
                    <= run.initial_insn_count
            },
        ensures
            final(self).same_program(&*old(self)),
            *final(final(self).context_object) == *final(old(self).context_object),
            match run {
                Ok(run) => {
                    &&& result == match run.result {
                        Ok(value) => StableResult::Success(value),
                        Err(error) => StableResult::Failure(error),
                    }
                    &&& if old(self).is_metered() {
                        &&& final(self).remaining() == old(self).remaining() - run.due_insn_count
                        &&& final(self).total_insn_count == run.initial_insn_count - final(self).remaining()
                    } else {
                        &&& *final(self).context_object == *old(self).context_object
                        &&& final(self).total_insn_count == old(self).total_insn_count
                    }
                },
                Err(error) => {
                    &&& result == StableResult::<u64, EbpfError>::Failure(error)
                    &&& *final(self).context_object == *old(self).context_object
                    &&& final(self).total_insn_count == old(self).total_insn_count
                },
            },
    {
        let run = match run {
            Ok(run) => run,
            Err(error) => return StableResult::Failure(error),
        };
        if self.verified_executable.get_executable().get_config().enable_instruction_meter {
            self.context_object.consume(run.due_insn_count);
            self.total_insn_count = run.initial_insn_count - self.context_object.get_remaining();
        }
        match run.result {
            Ok(value) => StableResult::Success(value),
            Err(error) => StableResult::Failure(error),
        }
    }

    /// Tells with which instruction meter a JIT compiled program starts, or that there is none
    pub fn start_program_jit(&self) -> (result: Result<u64, EbpfError>)
        ensures
            result == if !self.verified_executable@.compiled {
                Err::<u64, EbpfError>(EbpfError::JitNotCompiled)
            } else if self.is_metered() {
                Ok(self.remaining())
            } else {
                Ok(0)
            },
    {
        let executable = self.verified_executable.get_executable();
        let initial_insn_count: u64 = if executable.get_config().enable_instruction_meter {
            self.context_object.get_remaining()
        } else {
            0
        };
        if executable.compiled {
            Ok(initial_insn_count)
        } else {
            Err(EbpfError::JitNotCompiled)
        }
    }

    /// Settles the accounts of a program that was started as [`EbpfVm::start_program_jit`] tells.
    ///
    /// The `run` is an error if the program could not be started.
    pub fn execute_program_jit(
        &mut self,
        initial_insn_count: u64,
        run: Result<JitRun, EbpfError>,
    ) -> (result: ProgramResult)
        requires
            run matches Ok(run) ==> old(self).is_metered() ==> {
                let left = meter_left(run.instruction_meter_final);
                let remaining = old(self).remaining();
                &&& left <= remaining
                &&& left <= initial_insn_count
                &&& initial_insn_count + (remaining - left) <= u64::MAX
            },
        ensures
            final(self).same_program(&*old(self)),
            *final(final(self).context_object) == *final(old(self).context_object),
            match run {
                Ok(run) => {
                    &&& result == with_limit(run.result, initial_insn_count)
                    &&& if old(self).is_metered() {
                        &&& final(self).remaining() == meter_left(
                            run.instruction_meter_final,
                        )
                        &&& final(self).total_insn_count == initial_insn_count - final(self).remaining()
                    } else {
                        &&& *final(self).context_object == *old(self).context_object
                        &&& final(self).total_insn_count == old(self).total_insn_count
                    }
                },
                Err(error) => {
                    &&& result == StableResult::<u64, EbpfError>::Failure(error)
                    &&& *final(self).context_object == *old(self).context_object
                    &&& final(self).total_insn_count == old(self).total_insn_count
                },
            },
    {
        let run = match run {
            Ok(run) => run,
            Err(error) => return StableResult::Failure(error),
        };
        let instruction_meter_final: u64 = if run.instruction_meter_final < 0 {
            0
        } else {
            run.instruction_meter_final as u64
        };
        if self.verified_executable.get_executable().get_config().enable_instruction_meter {
            let remaining_insn_count: u64 = self.context_object.get_remaining();
            let due_insn_count: u64 = remaining_insn_count - instruction_meter_final;
            self.context_object.consume(due_insn_count);
            self.total_insn_count = initial_insn_count + due_insn_count - remaining_insn_count;
        }
        match run.result {
            StableResult::Failure(EbpfError::ExceededMaxInstructions(pc, _)) => {
                StableResult::Failure(EbpfError::ExceededMaxInstructions(pc, initial_insn_count))
            },
            other => other,
        }
    }
}

/// The machine limits the number of instructions exactly if the configuration of its program asks for
/// it, and what remains is what its context object tells.
pub proof fn law_meter_of_a_machine<'a, V, F, C: ContextObject>(vm: &EbpfVm<'a, V, F, C>)
    ensures
        vm.is_metered() <==> vm.verified_executable@.config.enable_instruction_meter,
        vm.remaining() == old(vm.context_object).spec_remaining(),
{
}

/// Settling accounts leaves the program, its mapping, its stack and its trace alone.
pub proof fn law_same_program<'a, V, F, C>(vm: &EbpfVm<'a, V, F, C>, other: &EbpfVm<'a, V, F, C>)
    ensures
        vm.same_program(other) <==> {
            &&& vm.verified_executable == other.verified_executable
            &&& vm.program == other.program
            &&& vm.program_vm_addr == other.program_vm_addr
            &&& vm.memory_mapping == other.memory_mapping
            &&& vm.stack_region == other.stack_region
            &&& vm.tracer == other.tracer
        },
{
}

/// Of a meter, what is not negative is left.
pub proof fn law_meter_left(instruction_meter_final: i64)
    ensures
        meter_left(instruction_meter_final) >= 0,
        instruction_meter_final >= 0 ==> meter_left(instruction_meter_final)
            == instruction_meter_final,
        instruction_meter_final <= 0 ==> meter_left(instruction_meter_final) == 0,
{
}

/// A compiled program that exceeded its instructions reports the limit that it was given, at the
/// program counter that it reached. Every other outcome is reported as it is.
pub proof fn law_exceeded_limit_is_reported(
    result: ProgramResult,
    initial_insn_count: u64,
    pc: usize,
    limit: u64,
)
    ensures
        with_limit(
            ProgramResult::Failure(EbpfError::ExceededMaxInstructions(pc, limit)),
            initial_insn_count,
        ) == ProgramResult::Failure(EbpfError::ExceededMaxInstructions(pc, initial_insn_count)),
        !(result matches StableResult::Failure(EbpfError::ExceededMaxInstructions(_, _)))
            ==> with_limit(result, initial_insn_count) == result,
{
}

/// An interpreter goes on exactly as long as its steps give nothing.
pub proof fn law_interpreter_goes_on(
    step: Result<Option<u64>, EbpfError>,
    result: Option<Result<u64, EbpfError>>,
)
    requires
        call_ensures(finished, (step,), result),
    ensures
        result is None <==> step == Ok::<Option<u64>, EbpfError>(None),
        result matches Some(Ok(value)) ==> step == Ok::<Option<u64>, EbpfError>(Some(value)),
        result matches Some(Err(error)) ==> step == Err::<Option<u64>, EbpfError>(error),
{
}

/// A compiled program starts with all instructions that remain, or with none if they are not
/// limited. A program that was not compiled does not start.
pub proof fn law_compiled_program_starts<'a, V: Verifier, F, C: ContextObject>(
    vm: &EbpfVm<'a, V, F, C>,
    result: Result<u64, EbpfError>,
)
    requires
        call_ensures(EbpfVm::<'a, V, F, C>::start_program_jit, (vm,), result),
    ensures
        result is Ok <==> vm.verified_executable@.compiled,
        result matches Ok(count) ==> count
            == if vm.verified_executable@.config.enable_instruction_meter {
            old(vm.context_object).spec_remaining()
        } else {
            0
        },
        result matches Err(error) ==> error == EbpfError::JitNotCompiled,
{
}

/// A machine maps the read only data of its program, the given stack, a writable region for the given
/// heap and each additional region, each as often as it was given. It runs the given program, with the
/// given context, from an empty trace on. Only an aligned mapping has one more region: an empty one in
/// front.
pub proof fn law_new_machine<'a, V: Verifier, F, C: ContextObject>(
    verified_executable: &'a VerifiedExecutable<V, F>,
    context_object: &'a mut C,
    stack_region: MemoryRegion,
    heap_region: &mut [u8],
    additional_regions: Vec<MemoryRegion>,
    result: Result<EbpfVm<'a, V, F, C>, EbpfError>,
)
    requires
        call_ensures(
            EbpfVm::<'a, V, F, C>::new,
            (verified_executable, context_object, stack_region, heap_region, additional_regions),
            result,
        ),
    ensures
        final(heap_region)@ == old(heap_region)@,
        result matches Ok(vm) ==> exists|heap: MemoryRegion|
            {
                let aligned = verified_executable@.sbpf_version is V4
                    || verified_executable@.config.aligned_memory_mapping;
                let mapped = vm.memory_mapping.regions();
                let held = if aligned {
                    mapped.skip(1)
                } else {
                    mapped
                };
                &&& #[trigger] heap.is_placed_at(&*old(heap_region))
                &&& heap.len == old(heap_region)@.len() && heap.vm_addr == 0x3_0000_0000
                &&& heap.writable && heap.vm_gap_shift == 63
                &&& held.to_multiset() == additional_regions@.to_multiset().insert(
                    verified_executable@.ro_region,
                ).insert(stack_region).insert(heap)
                &&& mapped.len() == additional_regions@.len() + if aligned {
                    4int
                } else {
                    3int
                }
            },
        result matches Ok(vm) ==> {
            &&& vm.verified_executable == verified_executable
            &&& vm.program@ == verified_executable@.text_bytes@
            &&& vm.program_vm_addr == verified_executable@.text_vm_addr
            &&& vm.stack_region == stack_region
            &&& vm.tracer@.len() == 0
            &&& vm.total_insn_count == 0
            &&& *vm.context_object == *old(context_object)
        },
        result matches Err(error) ==> error is InvalidMemoryRegion,
{
}

/// A run of an interpreter gives what the program returned. If instructions are limited, those that
/// are due are taken from what remained, and those that were executed are the difference to what was
/// there at the start.
pub proof fn law_interpreted_run<'a, V: Verifier, F, C: ContextObject>(
    vm: &mut EbpfVm<'a, V, F, C>,
    run: InterpreterRun,
    result: ProgramResult,
)
    requires
        call_ensures(
            EbpfVm::<'a, V, F, C>::execute_program_interpreted,
            (vm, Ok::<InterpreterRun, EbpfError>(run)),
            result,
        ),
    ensures
        run.result matches Ok(value) ==> result == ProgramResult::Success(value),
        run.result matches Err(error) ==> result == ProgramResult::Failure(error),
        old(vm).verified_executable@.config.enable_instruction_meter ==> {
            &&& final(vm).remaining() + run.due_insn_count == old(vm).remaining()
            &&& final(vm).total_insn_count + final(vm).remaining() == run.initial_insn_count
        },
        !old(vm).verified_executable@.config.enable_instruction_meter ==> {
            &&& final(vm).remaining() == old(vm).remaining()
            &&& final(vm).total_insn_count == old(vm).total_insn_count
        },
        final(vm).memory_mapping == old(vm).memory_mapping,
{
}

/// A run of a compiled program gives what the program returned, with the limit that it was given. If
/// instructions are limited, as many remain as the program left, and those that were executed are the
/// difference to what was there at the start.
pub proof fn law_compiled_run<'a, V: Verifier, F, C: ContextObject>(
    vm: &mut EbpfVm<'a, V, F, C>,
    initial_insn_count: u64,
    run: JitRun,
    result: ProgramResult,
)
    requires
        call_ensures(
            EbpfVm::<'a, V, F, C>::execute_program_jit,
            (vm, initial_insn_count, Ok::<JitRun, EbpfError>(run)),
            result,
        ),
    ensures
        run.result matches StableResult::Failure(EbpfError::ExceededMaxInstructions(pc, _))
            ==> result == ProgramResult::Failure(
            EbpfError::ExceededMaxInstructions(pc, initial_insn_count),
        ),
        !(run.result matches StableResult::Failure(EbpfError::ExceededMaxInstructions(_, _)))
            ==> result == run.result,
        old(vm).verified_executable@.config.enable_instruction_meter ==> {
            &&& run.instruction_meter_final >= 0 ==> final(vm).remaining()
                == run.instruction_meter_final
            &&& run.instruction_meter_final < 0 ==> final(vm).remaining() == 0
            &&& final(vm).total_insn_count + final(vm).remaining() == initial_insn_count
        },
        !old(vm).verified_executable@.config.enable_instruction_meter ==> {
            &&& final(vm).remaining() == old(vm).remaining()
            &&& final(vm).total_insn_count == old(vm).total_insn_count
        },
        final(vm).memory_mapping == old(vm).memory_mapping,
{
}

/// A program that could not be started fails for that reason, and uses up nothing.
pub proof fn law_run_that_did_not_start<'a, V: Verifier, F, C: ContextObject>(
    vm: &mut EbpfVm<'a, V, F, C>,
    initial_insn_count: u64,
    error: EbpfError,
    result: ProgramResult,
)
    requires
        call_ensures(
            EbpfVm::<'a, V, F, C>::execute_program_jit,
            (vm, initial_insn_count, Err::<JitRun, EbpfError>(error)),
            result,
        ) || call_ensures(
            EbpfVm::<'a, V, F, C>::execute_program_interpreted,
            (vm, Err::<InterpreterRun, EbpfError>(error)),
            result,
        ),
    ensures
        result == ProgramResult::Failure(error),
        final(vm).remaining() == old(vm).remaining(),
        final(vm).total_insn_count == old(vm).total_insn_count,
        final(vm).memory_mapping == old(vm).memory_mapping,
{
}

/// A machine tells what it executed last, and what it runs.
pub proof fn law_machine_tells<'a, V: Verifier, F, C: ContextObject>(
    vm: &EbpfVm<'a, V, F, C>,
    count: u64,
    program: &[u8],
)
    requires
        call_ensures(EbpfVm::<'a, V, F, C>::get_total_instruction_count, (vm,), count),
        call_ensures(EbpfVm::<'a, V, F, C>::get_program, (vm,), program),
    ensures
        count == vm.total_insn_count,
        program@ == vm.program@,
{
}

} // verus!
