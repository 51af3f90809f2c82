//! Executables and their verification.
use std::collections::BTreeMap;
use std::marker::PhantomData;

use vstd::prelude::*;

use crate::config::Config;
use crate::error::{EbpfError, ElfError, VerifierError};
use crate::memory_region::MemoryRegion;
use crate::syscall_registry::SyscallRegistry;
use crate::version::SBPFVersion;

verus! {

/// Holds the function symbols of an Executable: the index of the first instruction and the name
pub type FunctionRegistry = BTreeMap<u32, (usize, String)>;

/// A loaded program
pub struct Executable<F> {
    /// Settings of the virtual machine
    pub config: Config,
    /// Version of the instruction set
    pub sbpf_version: SBPFVersion,
    /// The code
    pub text_bytes: Vec<u8>,
    /// Virtual address of the code
    pub text_vm_addr: u64,
    /// The read only data, including the code
    pub ro_region: MemoryRegion,
    /// The syscalls that the program can call
    pub syscall_registry: SyscallRegistry<F>,
    /// The functions of the program
    pub function_registry: FunctionRegistry,
    /// Is there native code of the program
    pub compiled: bool,
}

/// Static constructors for Executable
impl<F> Executable<F> {
    /// Creates an executable from what became of loading an ELF file
    pub fn from_elf(loaded: Result<Self, EbpfError>) -> (result: Result<Self, EbpfError>)
        ensures
            result == loaded,
    {
        let executable = loaded?;
        Ok(executable)
    }

    /// Creates an executable from what became of loading machine code
    pub fn from_text_bytes(loaded: Result<Self, ElfError>) -> (result: Result<Self, EbpfError>)
        ensures
            result == match loaded {
                Ok(executable) => Ok(executable),
                Err(error) => Err(EbpfError::ElfError(error)),
            },
    {
        match loaded {
            Ok(executable) => Ok(executable),
            Err(error) => Err(EbpfError::ElfError(error)),
        }
    }

    /// Get the configuration of the executable
    pub fn get_config(&self) -> (config: &Config)
        ensures
            *config == self.config,
    {
        &self.config
    }

    /// Get the virtual address and the bytes of the code
    pub fn get_text_bytes(&self) -> (text: (u64, &[u8]))
        ensures
            text.0 == self.text_vm_addr,
            text.1@ == self.text_bytes@,
    {
        (self.text_vm_addr, self.text_bytes.as_slice())
    }

    /// Get the memory region of the read only data
    pub fn get_ro_region(&self) -> (region: MemoryRegion)
        ensures
            region == self.ro_region,
    {
        self.ro_region
    }

    /// Get the functions of the program
    pub fn get_function_registry(&self) -> (registry: &FunctionRegistry)
        ensures
            *registry == self.function_registry,
    {
        &self.function_registry
    }
}

/// Decides whether programs may be run
pub trait Verifier {
    /// May a program be judged so. A verifier that does not say so may judge as it likes.
    open spec fn may_judge(
        prog: Seq<u8>,
        config: Config,
        functions: Map<u32, (usize, String)>,
        verdict: Result<(), VerifierError>,
    ) -> bool {
        true
    }

    /// Judges the code of a program
    fn verify(prog: &[u8], config: &Config, function_registry: &FunctionRegistry) -> (verdict:
        Result<(), VerifierError>)
        ensures
            Self::may_judge(prog@, *config, function_registry@, verdict),
    ;
}

/// Passes all programs
#[derive(Debug, Clone, Copy, PartialEq, Eq)]
pub struct TautologyVerifier;

impl Verifier for TautologyVerifier {
    open spec fn may_judge(
        prog: Seq<u8>,
        config: Config,
        functions: Map<u32, (usize, String)>,
        verdict: Result<(), VerifierError>,
    ) -> bool {
        verdict is Ok
    }

    fn verify(_prog: &[u8], _config: &Config, _function_registry: &FunctionRegistry) -> (verdict:
        Result<(), VerifierError>) {
        Ok(())
    }
}

/// Verified executable
pub struct VerifiedExecutable<V, F> {
    executable: Executable<F>,
    _verifier: PhantomData<V>,
}

impl<V, F> View for VerifiedExecutable<V, F> {
    type V = Executable<F>;

    /// The executable that was verified
    closed spec fn view(&self) -> Executable<F> {
        self.executable
    }
}

/// What verifying an executable gives, for each verdict
pub open spec fn spec_verified<V, F>(
    executable: Executable<F>,
    verdict: Result<(), VerifierError>,
    result: Result<VerifiedExecutable<V, F>, EbpfError>,
) -> bool {
    match verdict {
        Ok(()) => result matches Ok(verified) && verified@ == executable,
        Err(error) => result matches Err(EbpfError::VerifierError(reason)) && reason == error,
    }
}

impl<V: Verifier, F> VerifiedExecutable<V, F> {
    /// Verify an executable
    pub fn from_executable(executable: Executable<F>) -> (result: Result<Self, EbpfError>)
        ensures
            exists|verdict: Result<(), VerifierError>|
                {
                    &&& #[trigger] V::may_judge(
                        executable.text_bytes@,
                        executable.config,
                        executable.function_registry@,
                        verdict,
                    )
                    &&& spec_verified(executable, verdict, result)
                },
    {
        let verdict = V::verify(
            executable.get_text_bytes().1,
            executable.get_config(),
            executable.get_function_registry(),
        );
        Self::from_verdict(executable, verdict)
    }

    /// Turns an executable into a verified one, if the verdict on it is favourable
    pub fn from_verdict(executable: Executable<F>, verdict: Result<(), VerifierError>) -> (result:
        Result<Self, EbpfError>)
        ensures
            spec_verified(executable, verdict, result),
    {
        match verdict {
            Ok(()) => Ok(VerifiedExecutable { executable, _verifier: PhantomData }),
            Err(error) => Err(EbpfError::VerifierError(error)),
        }
    }

    /// Takes over what became of compiling the executable
    pub fn jit_compile(&mut self, compiled: Result<(), EbpfError>) -> (result: Result<
        (),
        EbpfError,
    >)
        ensures
            result == compiled,
            final(self)@ == if compiled is Ok {
                Executable { compiled: true, ..old(self)@ }
            } else {
                old(self)@
            },
    {
        compiled?;
        self.executable.compiled = true;
        Ok(())
    }

    /// Get a reference to the underlying executable
    pub fn get_executable(&self) -> (executable: &Executable<F>)
        ensures
            *executable == self@,
    {
        &self.executable
    }
}

/// A verifier that passes all programs lets every executable pass.
pub proof fn law_tautology_passes_all<F>(
    executable: Executable<F>,
    verdict: Result<(), VerifierError>,
    result: Result<VerifiedExecutable<TautologyVerifier, F>, EbpfError>,
)
    requires
        TautologyVerifier::may_judge(
            executable.text_bytes@,
            executable.config,
            executable.function_registry@,
            verdict,
        ),
        spec_verified(executable, verdict, result),
    ensures
        result matches Ok(verified) && verified@ == executable,
{
}

/// An executable is verified as it is, and exactly if the verdict on it is favourable. Otherwise the
/// verdict is the error.
pub proof fn law_verdict_decides<V: Verifier, F>(
    executable: Executable<F>,
    verdict: Result<(), VerifierError>,
    result: Result<VerifiedExecutable<V, F>, EbpfError>,
)
    requires
        call_ensures(VerifiedExecutable::<V, F>::from_verdict, (executable, verdict), result),
    ensures
        result is Ok <==> verdict is Ok,
        result matches Ok(verified) ==> verified@ == executable,
        verdict matches Err(reason) ==> result == Err::<VerifiedExecutable<V, F>, EbpfError>(
            EbpfError::VerifierError(reason),
        ),
{
}

/// What is verified was judged by its own code, under its own settings and with its own functions.
pub proof fn law_verified_was_judged<V: Verifier, F>(
    executable: Executable<F>,
    result: Result<VerifiedExecutable<V, F>, EbpfError>,
)
    requires
        call_ensures(VerifiedExecutable::<V, F>::from_executable, (executable,), result),
    ensures
        match result {
            Ok(verified) => verified@ == executable && V::may_judge(
                executable.text_bytes@,
                executable.config,
                executable.function_registry@,
                Ok::<(), VerifierError>(()),
            ),
            Err(error) => error matches EbpfError::VerifierError(reason) && V::may_judge(
                executable.text_bytes@,
                executable.config,
                executable.function_registry@,
                Err::<(), VerifierError>(reason),
            ),
        },
{
    let verdict = choose|verdict: Result<(), VerifierError>|
        {
            &&& #[trigger] V::may_judge(
                executable.text_bytes@,
                executable.config,
                executable.function_registry@,
                verdict,
            )
            &&& spec_verified(executable, verdict, result)
        };
    if let Ok(nothing) = verdict {
        assert(nothing == ());
    }
}

/// Loading gives the loaded program, or the reason why there is none.
pub proof fn law_loading_keeps_the_program<F>(
    elf: Result<Executable<F>, EbpfError>,
    from_elf: Result<Executable<F>, EbpfError>,
    text: Result<Executable<F>, ElfError>,
    from_text: Result<Executable<F>, EbpfError>,
)
    requires
        call_ensures(Executable::<F>::from_elf, (elf,), from_elf),
        call_ensures(Executable::<F>::from_text_bytes, (text,), from_text),
    ensures
        from_elf == elf,
        text matches Ok(executable) ==> from_text == Ok::<Executable<F>, EbpfError>(executable),
        text matches Err(error) ==> from_text == Err::<Executable<F>, EbpfError>(
            EbpfError::ElfError(error),
        ),
{
}

/// The parts of an executable are what it was made of.
pub proof fn law_parts_of_executables<F>(
    executable: &Executable<F>,
    config: &Config,
    text: (u64, &[u8]),
    region: MemoryRegion,
    functions: &FunctionRegistry,
)
    requires
        call_ensures(Executable::<F>::get_config, (executable,), config),
        call_ensures(Executable::<F>::get_text_bytes, (executable,), text),
        call_ensures(Executable::<F>::get_ro_region, (executable,), region),
        call_ensures(Executable::<F>::get_function_registry, (executable,), functions),
    ensures
        *config == executable.config,
        text.0 == executable.text_vm_addr && text.1@ == executable.text_bytes@,
        region == executable.ro_region,
        *functions == executable.function_registry,
{
}

/// A compiled program is the same program with native code. One that could not be compiled stays as it
/// was, for the reason that is given.
pub proof fn law_compiled_program<V: Verifier, F>(
    program: &mut VerifiedExecutable<V, F>,
    compiled: Result<(), EbpfError>,
    result: Result<(), EbpfError>,
)
    requires
        call_ensures(VerifiedExecutable::<V, F>::jit_compile, (program, compiled), result),
    ensures
        result == compiled,
        compiled is Err ==> final(program)@ == old(program)@,
        compiled is Ok ==> final(program)@.compiled,
        final(program)@.config == old(program)@.config,
        final(program)@.sbpf_version == old(program)@.sbpf_version,
        final(program)@.text_bytes == old(program)@.text_bytes,
        final(program)@.text_vm_addr == old(program)@.text_vm_addr,
        final(program)@.ro_region == old(program)@.ro_region,
        final(program)@.syscall_registry == old(program)@.syscall_registry,
        final(program)@.function_registry == old(program)@.function_registry,
{
}

} // verus!
