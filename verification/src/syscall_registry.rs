//! Registry of the syscalls that a program can call.
use std::collections::HashMap;

use vstd::layout::size_of;
use vstd::prelude::*;

use crate::arith::clamp_usize;
use crate::ebpf;
use crate::ebpf::murmur32;
use crate::error::EbpfError;

verus! {

/// Number of syscalls that a registry can hold.
pub const MAX_SYSCALLS: usize = 128;

/// Holds the syscall functions of an Executable
///
/// `F` stands for a function, such as its address.
pub struct SyscallRegistry<F> {
    /// Functions by symbol
    entries: HashMap<u32, F>,
}

impl<F> View for SyscallRegistry<F> {
    type V = Map<u32, F>;

    /// The function under each hash
    closed spec fn view(&self) -> Map<u32, F> {
        self.entries@
    }
}

impl<F> Default for SyscallRegistry<F> {
    fn default() -> (registry: Self)
        ensures
            registry@ == Map::<u32, F>::empty(),
            registry@.dom().finite(),
    {
        SyscallRegistry { entries: HashMap::new() }
    }
}

/// The syscalls after one was registered, and the outcome. A function that was registered before
/// under the same hash is replaced, although this is reported as an error.
pub open spec fn spec_register_syscall<F>(syscalls: Map<u32, F>, hash: u32, function: F) -> (
    Map<u32, F>,
    Result<(), EbpfError>,
) {
    if syscalls.len() == MAX_SYSCALLS {
        (syscalls, Err(EbpfError::TooManySyscalls))
    } else if syscalls.contains_key(hash) {
        (
            syscalls.insert(hash, function),
            Err(EbpfError::SyscallAlreadyRegistered(hash as usize)),
        )
    } else {
        (syscalls.insert(hash, function), Ok(()))
    }
}

/// Bytes that a registry takes up, given how many syscalls it has room for
pub open spec fn syscall_registry_size<F>(capacity: usize) -> int {
    clamp_usize(size_of::<SyscallRegistry<F>>() + capacity * size_of::<(u32, F)>())
}

/// Room in a table: `HashMap::capacity`, which is never below the number of its entries. How far it
/// is above depends on the allocator.
#[verifier::external_body]
fn table_capacity<F>(entries: &HashMap<u32, F>) -> (capacity: usize)
    ensures
        capacity >= entries@.len(),
{
    entries.capacity()
}

/// Are two references the same: `std::ptr::eq`. What is at one address is one value. Nothing is
/// said of two values that are alike, as where they are depends on the allocator.
#[verifier::external_body]
fn same_place<F>(a: &SyscallRegistry<F>, b: &SyscallRegistry<F>) -> (same: bool)
    ensures
        same ==> *a == *b,
{
    std::ptr::eq(a, b)
}

impl<F> SyscallRegistry<F> {
    /// Is this the room that [`table_capacity`] found in the table
    pub closed spec fn has_room(&self, capacity: usize) -> bool {
        call_ensures(table_capacity::<F>, (&self.entries,), capacity)
    }

    /// Is this what [`same_place`] found of the two registries
    pub closed spec fn is_placed_as(&self, other: &Self, same: bool) -> bool {
        call_ensures(same_place::<F>, (self, other), same)
    }
}

impl<F: Copy> SyscallRegistry<F> {
    /// Register a syscall function by its symbol hash
    pub fn register_syscall_by_hash(&mut self, hash: u32, function: F) -> (result: Result<
        (),
        EbpfError,
    >)
        ensures
            (final(self)@, result) == spec_register_syscall(old(self)@, hash, function),
            old(self)@.dom().finite(),
            final(self)@.dom().finite(),
    {
        if self.entries.len() == MAX_SYSCALLS {
            return Err(EbpfError::TooManySyscalls);
        }
        if self.entries.insert(hash, function).is_some() {
            Err(EbpfError::SyscallAlreadyRegistered(hash as usize))
        } else {
            Ok(())
        }
    }

    /// Register a syscall function by its symbol name
    pub fn register_syscall_by_name(&mut self, name: &[u8], function: F) -> (result: Result<
        (),
        EbpfError,
    >)
        ensures
            (final(self)@, result) == spec_register_syscall(old(self)@, murmur32(name@), function),
            old(self)@.dom().finite(),
            final(self)@.dom().finite(),
    {
        self.register_syscall_by_hash(ebpf::hash_symbol_name(name), function)
    }

    /// Get a symbol's function
    pub fn lookup_syscall(&self, hash: u32) -> (function: Option<F>)
        ensures
            function == if self@.contains_key(hash) {
                Some(self@[hash])
            } else {
                None
            },
    {
        match self.entries.get(&hash) {
            Some(function) => Some(*function),
            None => None,
        }
    }

    /// Get the number of registered syscalls
    pub fn get_number_of_syscalls(&self) -> (number: usize)
        ensures
            number == self@.len(),
            self@.dom().finite(),
    {
        self.entries.len()
    }

    /// Calculate memory size
    pub fn mem_size(&self) -> (size: usize)
        ensures
            exists|capacity: usize|
                {
                    &&& self.has_room(capacity)
                    &&& capacity >= self@.len()
                    &&& size == #[trigger] syscall_registry_size::<F>(capacity)
                },
    {
        Self::mem_size_for(table_capacity(&self.entries))
    }

    /// Memory size of a registry, given how many syscalls it has room for
    pub fn mem_size_for(capacity: usize) -> (size: usize)
        ensures
            size == syscall_registry_size::<F>(capacity),
    {
        let entry_size: usize = std::mem::size_of::<(u32, F)>();
        let table_size: usize = match capacity.checked_mul(entry_size) {
            Some(table_size) => table_size,
            None => usize::MAX,
        };
        std::mem::size_of::<Self>().saturating_add(table_size)
    }

    /// Does this registry hold its functions in the same places as the `other`. No places are the
    /// same as any.
    pub fn eq(&self, other: &Self) -> (equal: bool)
        ensures
            self@.len() == 0 || other@.len() == 0 ==> equal,
            self@.len() > 0 && other@.len() > 0 && equal ==> *self == *other,
            exists|same: bool| #[trigger]
                call_ensures(Self::is_same, (self, other), same) && equal == (self@.len() == 0
                    || other@.len() == 0 || same),
    {
        self.eq_placed(other, self.is_same(other))
    }

    /// Is this registry one and the same object as the `other`
    pub fn is_same(&self, other: &Self) -> (same: bool)
        ensures
            self.is_placed_as(other, same),
            same ==> *self == *other,
    {
        same_place(self, other)
    }

    /// Does this registry hold its functions in the same places as the `other`, given whether both
    /// are the `same` registry
    pub fn eq_placed(&self, other: &Self, same: bool) -> (equal: bool)
        ensures
            equal == (self@.len() == 0 || other@.len() == 0 || same),
    {
        self.entries.len() == 0 || other.entries.len() == 0 || same
    }
}

/// A registry holds finitely many syscalls.
pub proof fn law_syscalls_are_finite<F>(registry: SyscallRegistry<F>)
    ensures
        registry@.dom().finite(),
{
}

/// A registered syscall is found under its hash.
pub proof fn law_registered_syscall_is_found<F>(syscalls: Map<u32, F>, hash: u32, function: F)
    requires
        syscalls.len() != MAX_SYSCALLS,
    ensures
        ({
            let (after, _) = spec_register_syscall(syscalls, hash, function);
            after.contains_key(hash) && after[hash] == function
        }),
{
}

/// Registering one syscall leaves those under other hashes as they are.
pub proof fn law_syscall_registration_is_local<F>(
    syscalls: Map<u32, F>,
    hash: u32,
    function: F,
    other: u32,
)
    requires
        other != hash,
    ensures
        ({
            let (after, _) = spec_register_syscall(syscalls, hash, function);
            &&& after.contains_key(other) <==> syscalls.contains_key(other)
            &&& syscalls.contains_key(other) ==> after[other] == syscalls[other]
        }),
{
}

/// A registry never outgrows its limit.
pub proof fn law_syscalls_are_limited<F>(syscalls: Map<u32, F>, hash: u32, function: F)
    requires
        syscalls.dom().finite(),
        syscalls.len() <= MAX_SYSCALLS,
    ensures
        spec_register_syscall(syscalls, hash, function).0.dom().finite(),
        spec_register_syscall(syscalls, hash, function).0.len() <= MAX_SYSCALLS,
{
}

/// A syscall is registered exactly if there is room and none has its hash. Where another one has, it
/// is replaced, which is reported; where there is no room, nothing changes.
pub proof fn law_syscall_registration<F>(syscalls: Map<u32, F>, hash: u32, function: F)
    ensures
        ({
            let (after, result) = spec_register_syscall(syscalls, hash, function);
            &&& result is Ok <==> syscalls.len() != 128 && !syscalls.contains_key(hash)
            &&& syscalls.len() == 128 ==> result == Err::<(), EbpfError>(
                EbpfError::TooManySyscalls,
            ) && after == syscalls
            &&& syscalls.len() != 128 ==> after == syscalls.insert(hash, function)
            &&& syscalls.len() != 128 && syscalls.contains_key(hash) ==> result == Err::<
                (),
                EbpfError,
            >(EbpfError::SyscallAlreadyRegistered(hash as usize))
        }),
{
}

/// A lookup gives the function that has the hash, and nothing if there is none.
pub proof fn law_syscall_lookup<F: Copy>(
    registry: &SyscallRegistry<F>,
    hash: u32,
    function: Option<F>,
    number: usize,
)
    requires
        call_ensures(SyscallRegistry::<F>::lookup_syscall, (registry, hash), function),
        call_ensures(SyscallRegistry::<F>::get_number_of_syscalls, (registry,), number),
    ensures
        function is Some <==> registry@.contains_key(hash),
        function matches Some(function) ==> registry@[hash] == function,
        number == registry@.dom().len(),
{
}

/// A registry takes up its own bytes and those of as many entries as it has room for.
pub proof fn law_size_of_syscalls<F: Copy>(capacity: usize, size: usize)
    requires
        call_ensures(SyscallRegistry::<F>::mem_size_for, (capacity,), size),
    ensures
        ({
            let bytes = size_of::<SyscallRegistry<F>>() + capacity * size_of::<(u32, F)>();
            size == if bytes > usize::MAX {
                usize::MAX as int
            } else {
                bytes
            }
        }),
{
}

/// Registries are the same exactly if one of them is empty or both are one object.
pub proof fn law_registries_compare_by_place<F: Copy>(
    registry: &SyscallRegistry<F>,
    other: &SyscallRegistry<F>,
    same: bool,
    equal: bool,
)
    requires
        call_ensures(SyscallRegistry::<F>::eq_placed, (registry, other, same), equal),
    ensures
        equal <==> registry@.len() == 0 || other@.len() == 0 || same,
{
}

/// A syscall that is registered by its hash is found there, and one that is registered by its name is
/// found under the hash of the name. All others stay as they are.
pub proof fn law_registering_syscalls<F: Copy>(
    registry: &mut SyscallRegistry<F>,
    hash: u32,
    function: F,
    result: Result<(), EbpfError>,
    other: u32,
)
    requires
        call_ensures(
            SyscallRegistry::<F>::register_syscall_by_hash,
            (registry, hash, function),
            result,
        ),
    ensures
        result is Ok <==> old(registry)@.len() != 128 && !old(registry)@.contains_key(hash),
        old(registry)@.len() == 128 ==> result == Err::<(), EbpfError>(EbpfError::TooManySyscalls)
            && final(registry)@ == old(registry)@,
        old(registry)@.len() != 128 ==> final(registry)@.contains_key(hash) && final(registry)@[hash]
            == function,
        old(registry)@.len() != 128 && old(registry)@.contains_key(hash) ==> result == Err::<
            (),
            EbpfError,
        >(EbpfError::SyscallAlreadyRegistered(hash as usize)),
        other != hash ==> (final(registry)@.contains_key(other) <==> old(registry)@.contains_key(
            other,
        )),
        other != hash && old(registry)@.contains_key(other) ==> final(registry)@[other] == old(
            registry,
        )@[other],
{
}

/// Registering a syscall by its name registers it by the hash of the name.
pub proof fn law_registering_named_syscalls<F: Copy>(
    registry: &mut SyscallRegistry<F>,
    name: &[u8],
    hash: u32,
    function: F,
    result: Result<(), EbpfError>,
)
    requires
        call_ensures(ebpf::hash_symbol_name, (name,), hash),
        call_ensures(
            SyscallRegistry::<F>::register_syscall_by_name,
            (registry, name, function),
            result,
        ),
    ensures
        (final(registry)@, result) == spec_register_syscall(old(registry)@, hash, function),
{
}

} // verus!
