//! Common interface for built-in and user supplied programs
use std::collections::BTreeMap;

use vstd::prelude::*;
use vstd::layout::size_of;
use vstd::std_specs::cmp::{OrdSpec, PartialEqSpec, PartialEqSpecImpl};
use vstd::std_specs::iter::IteratorSpec;
use vstd::string::{StrSliceExecFns, StringSliceAdditionalSpecFns};

use crate::arith::clamp_usize;
use crate::bytes::{bytes_equal, le_bytes, to_le};
use crate::config::Config;
use crate::ebpf;
use crate::ebpf::murmur32;
use crate::context::ContextObject;
use crate::error::{EbpfError, ElfError};
use crate::result::{ProgramResult, StableResult};

pub use crate::version::SBPFVersion;

verus! {

broadcast use vstd::laws_cmp::group_laws_cmp;

/// Do `keys` enumerate the set `domain` in ascending order
pub open spec fn enumerates(keys: Seq<u32>, domain: Set<u32>) -> bool {
    &&& forall|i: int, j: int| 0 <= i < j < keys.len() ==> keys[i] < keys[j]
    &&& forall|key: u32| keys.contains(key) <==> domain.contains(key)
}

/// A set has one enumeration in ascending order
pub proof fn law_enumeration_is_unique(a: Seq<u32>, b: Seq<u32>, domain: Set<u32>)
    requires
        enumerates(a, domain),
        enumerates(b, domain),
    ensures
        a == b,
    decreases a.len(),
{
    if a.len() == 0 {
        if b.len() > 0 {
            assert(b.contains(b[0]));
        }
        assert(a =~= b);
    } else {
        let last = a.last();
        assert(a.contains(last));
        assert(b.contains(last));
        assert(b.contains(b.last()));
        assert(a.contains(b.last()));
        assert(b.last() == last);
        let rest = domain.remove(last);
        assert forall|key: u32| a.drop_last().contains(key) <==> rest.contains(key) by {
            lemma_contains_without_last(a, key);
        }
        assert forall|key: u32| b.drop_last().contains(key) <==> rest.contains(key) by {
            lemma_contains_without_last(b, key);
        }
        law_enumeration_is_unique(a.drop_last(), b.drop_last(), rest);
        assert(a =~= a.drop_last().push(last));
        assert(b =~= b.drop_last().push(last));
    }
}

/// Dropping the last key of an ascending enumeration loses this key and no other
proof fn lemma_contains_without_last(keys: Seq<u32>, key: u32)
    requires
        keys.len() > 0,
        forall|i: int, j: int| 0 <= i < j < keys.len() ==> keys[i] < keys[j],
    ensures
        keys.drop_last().contains(key) <==> keys.contains(key) && key != keys.last(),
{
    if keys.contains(key) && key != keys.last() {
        let i = keys.index_of(key);
        assert(keys.drop_last()[i] == key);
    }
    if keys.drop_last().contains(key) {
        let i = keys.drop_last().index_of(key);
        assert(keys[i] == key);
    }
}

/// Is `key` the lowest one under which a function called `name` is registered
pub open spec fn is_first_named<T>(
    functions: Map<u32, (Seq<u8>, T)>,
    name: Seq<u8>,
    key: u32,
) -> bool {
    &&& functions.contains_key(key)
    &&& functions[key].0 == name
    &&& forall|other: u32| functions.contains_key(other) && functions[other].0 == name ==> key <= other
}

/// Is a function called `name` registered
pub open spec fn holds_named<T>(functions: Map<u32, (Seq<u8>, T)>, name: Seq<u8>) -> bool {
    exists|key: u32| #[trigger] functions.contains_key(key) && functions[key].0 == name
}

/// The functions of a registry after one was registered: a key keeps the name and the value that it
/// was first registered with
pub open spec fn spec_registered<T>(
    functions: Map<u32, (Seq<u8>, T)>,
    key: u32,
    name: Seq<u8>,
    value: T,
) -> Map<u32, (Seq<u8>, T)> {
    if functions.contains_key(key) {
        functions
    } else {
        functions.insert(key, (name, value))
    }
}

/// Can a function be registered, because its key is free or belongs to an equal function
pub open spec fn spec_accepts<T: PartialEq>(
    functions: Map<u32, (Seq<u8>, T)>,
    key: u32,
    value: T,
) -> bool {
    functions.contains_key(key) ==> functions[key].1.eq_spec(&value)
}

/// Bytes that the entries of a registry take up, given the capacities of their names
pub open spec fn entries_size<T>(capacities: Seq<usize>) -> nat
    decreases capacities.len(),
{
    if capacities.len() == 0 {
        0
    } else {
        entries_size::<T>(capacities.drop_last()) + size_of::<T>() + size_of::<Vec<u8>>()
            + capacities.last() as nat
    }
}

/// Bytes that a registry takes up, given the capacities of the names of its functions
pub open spec fn registry_size<T>(capacities: Seq<usize>) -> int {
    clamp_usize((size_of::<FunctionRegistry<T>>() + entries_size::<T>(capacities)) as int)
}

/// Room that is allocated for a name: `Vec::capacity`, which is never below the length, and at most
/// `isize::MAX`, as no vector allocates more bytes. How far it is above the length depends on the
/// allocator.
#[verifier::external_body]
fn name_capacity(name: &Vec<u8>) -> (capacity: usize)
    ensures
        capacity >= name@.len(),
        capacity <= isize::MAX,
{
    name.capacity()
}

/// Holds the function symbols of an Executable
#[derive(Debug)]
pub struct FunctionRegistry<T> {
    map: BTreeMap<u32, (Vec<u8>, T)>,
}

impl<T> View for FunctionRegistry<T> {
    type V = Map<u32, (Seq<u8>, T)>;

    /// Name and value of the function under each key
    closed spec fn view(&self) -> Map<u32, (Seq<u8>, T)> {
        self.map@.map_values(|entry: (Vec<u8>, T)| (entry.0@, entry.1))
    }
}

impl<T> FunctionRegistry<T> {
    /// Is this the room that [`name_capacity`] found for the name of the function under the key
    pub closed spec fn has_room(&self, key: u32, capacity: usize) -> bool {
        call_ensures(name_capacity, (&self.map@[key].0,), capacity)
    }

    /// Does the registry take up `size` bytes: its own, and for each function those of its value, of
    /// its name and of the room for the name
    pub open spec fn takes(&self, size: usize) -> bool {
        exists|keys: Seq<u32>, capacities: Seq<usize>|
            {
                &&& #[trigger] enumerates(keys, self@.dom())
                &&& capacities.len() == keys.len()
                &&& forall|i: int|
                    0 <= i < keys.len() ==> {
                        &&& self.has_room(keys[i], #[trigger] capacities[i])
                        &&& self@[keys[i]].0.len() <= capacities[i] <= isize::MAX
                    }
                &&& size == #[trigger] registry_size::<T>(capacities)
            }
    }
}

impl<T> Default for FunctionRegistry<T> {
    fn default() -> (registry: Self)
        ensures
            registry@ == Map::<u32, (Seq<u8>, T)>::empty(),
    {
        let registry = Self { map: BTreeMap::new() };
        assert(registry@ =~= Map::<u32, (Seq<u8>, T)>::empty());
        registry
    }
}

impl<T: Copy + PartialEq> FunctionRegistry<T> {
    /// Register a symbol with an explicit key
    pub fn register_function(&mut self, key: u32, name: Vec<u8>, value: T) -> (result: Result<
        (),
        ElfError,
    >)
        ensures
            final(self)@ == spec_registered(old(self)@, key, name@, value),
            !old(self)@.contains_key(key) ==> result is Ok,
            T::obeys_eq_spec() ==> (result is Ok <==> spec_accepts(old(self)@, key, value)),
            result matches Err(error) ==> error == ElfError::SymbolHashCollision(key),
    {
        match self.map.get(&key) {
            Some(entry) => {
                if entry.1 != value {
                    return Err(ElfError::SymbolHashCollision(key));
                }
            },
            None => {
                self.map.insert(key, (name, value));
                assert(self@ =~= old(self)@.insert(key, (name@, value)));
            },
        }
        Ok(())
    }

    /// Unregister a symbol again
    pub fn unregister_function(&mut self, key: u32)
        ensures
            final(self)@ == old(self)@.remove(key),
    {
        self.map.remove(&key);
        assert(self@ =~= old(self)@.remove(key));
    }

    /// All keys in ascending order
    pub fn keys(&self) -> (keys: Vec<u32>)
        ensures
            enumerates(keys@, self@.dom()),
    {
        let mut keys: Vec<u32> = Vec::new();
        let iter = self.map.keys();
        let ghost order: Seq<u32> = vstd::std_specs::btree::into_iter_keys(iter);
        proof {
            assert(order.to_set() == self.map@.dom());
            let refs = iter.remaining();
            assert(order == refs.unref());
            assert(vstd::std_specs::btree::increasing_seq(refs));
            assert(vstd::laws_cmp::obeys_cmp::<u32>());
            assert(vstd::laws_cmp::obeys_cmp::<&u32>());
            assert forall|i: int, j: int| 0 <= i < j < order.len() implies order[i] < order[j] by {
                assert(OrdSpec::cmp_spec(&refs[i], &refs[j]) is Less);
            }
        }
        for key in it: iter
            invariant
                it.seq().unref() == order,
                keys@ == order.take(it.index()),
        {
            keys.push(*key);
        }
        assert(keys@ =~= order);
        keys
    }

    /// All entries in ascending order of their keys
    pub fn iter(&self) -> (entries: Vec<(u32, (&[u8], T))>)
        ensures
            enumerates(entries@.map_values(|entry: (u32, (&[u8], T))| entry.0), self@.dom()),
            forall|i: int|
                0 <= i < entries@.len() ==> {
                    &&& (#[trigger] entries@[i]).1.0@ == self@[entries@[i].0].0
                    &&& entries@[i].1.1 == self@[entries@[i].0].1
                },
    {
        let keys = self.keys();
        let mut entries: Vec<(u32, (&[u8], T))> = Vec::new();
        let mut i: usize = 0;
        while i < keys.len()
            invariant
                i <= keys@.len(),
                enumerates(keys@, self@.dom()),
                entries@.len() == i,
                forall|k: int|
                    0 <= k < i ==> {
                        &&& (#[trigger] entries@[k]).0 == keys@[k]
                        &&& entries@[k].1.0@ == self@[keys@[k]].0
                        &&& entries@[k].1.1 == self@[keys@[k]].1
                    },
            decreases keys@.len() - i,
        {
            assert(keys@.contains(keys@[i as int]));
            if let Some(entry) = self.map.get(&keys[i]) {
                entries.push((keys[i], (entry.0.as_slice(), entry.1)));
            }
            i = i + 1;
        }
        assert(entries@.map_values(|entry: (u32, (&[u8], T))| entry.0) =~= keys@);
        entries
    }

    /// Get a function by its key
    pub fn lookup_by_key(&self, key: u32) -> (result: Option<(&[u8], T)>)
        ensures
            result is Some <==> self@.contains_key(key),
            result matches Some(entry) ==> entry.0@ == self@[key].0 && entry.1 == self@[key].1,
    {
        match self.map.get(&key) {
            Some(entry) => Some((entry.0.as_slice(), entry.1)),
            None => None,
        }
    }

    /// Get a function by its name, the one with the lowest key if there are several
    pub fn lookup_by_name(&self, name: &[u8]) -> (result: Option<(&[u8], T)>)
        ensures
            result is None ==> forall|key: u32| self@.contains_key(key) ==> self@[key].0 != name@,
            result is Some <==> holds_named(self@, name@),
            result matches Some(entry) ==> exists|key: u32|
                {
                    &&& #[trigger] is_first_named(self@, name@, key)
                    &&& entry.0@ == self@[key].0
                    &&& entry.1 == self@[key].1
                },
    {
        let entries = self.iter();
        let ghost keys = entries@.map_values(|entry: (u32, (&[u8], T))| entry.0);
        let mut i: usize = 0;
        while i < entries.len()
            invariant
                i <= entries@.len(),
                keys == entries@.map_values(|entry: (u32, (&[u8], T))| entry.0),
                enumerates(keys, self@.dom()),
                forall|k: int|
                    0 <= k < entries@.len() ==> {
                        &&& (#[trigger] entries@[k]).1.0@ == self@[entries@[k].0].0
                        &&& entries@[k].1.1 == self@[entries@[k].0].1
                    },
                forall|k: int| 0 <= k < i ==> self@[#[trigger] keys[k]].0 != name@,
            decreases entries@.len() - i,
        {
            let entry = entries[i].1;
            if bytes_equal(entry.0, name) {
                proof {
                    let key = keys[i as int];
                    assert(keys.contains(key));
                    assert forall|other: u32|
                        self@.contains_key(other) && self@[other].0 == name@ implies key <= other by {
                        assert(keys.contains(other));
                        let k = keys.index_of(other);
                        assert(keys[k] == other);
                    }
                    assert(is_first_named(self@, name@, key));
                }
                return Some(entry);
            }
            i = i + 1;
        }
        assert forall|key: u32| self@.contains_key(key) implies self@[key].0 != name@ by {
            assert(keys.contains(key));
            assert(keys[keys.index_of(key)] == key);
        }
        None
    }

    /// Calculate memory size
    pub fn mem_size(&self) -> (size: usize)
        ensures
            self.takes(size),
    {
        let keys = self.keys();
        let mut capacities: Vec<usize> = Vec::new();
        let mut i: usize = 0;
        while i < keys.len()
            invariant
                i <= keys@.len(),
                enumerates(keys@, self@.dom()),
                capacities@.len() == i,
                forall|k: int|
                    0 <= k < i ==> {
                        &&& self.has_room(keys@[k], #[trigger] capacities@[k])
                        &&& self@[keys@[k]].0.len() <= capacities@[k] <= isize::MAX
                    },
            decreases keys@.len() - i,
        {
            assert(keys@.contains(keys@[i as int]));
            if let Some(entry) = self.map.get(&keys[i]) {
                capacities.push(name_capacity(&entry.0));
            }
            i = i + 1;
        }
        Self::mem_size_for(&capacities)
    }

    /// Memory size of a registry, given the capacities of the names of its functions
    pub fn mem_size_for(capacities: &Vec<usize>) -> (size: usize)
        ensures
            size == registry_size::<T>(capacities@),
    {
        let entry_size: usize = std::mem::size_of::<T>().saturating_add(
            std::mem::size_of::<Vec<u8>>(),
        );
        let mut total: usize = 0;
        let mut i: usize = 0;
        while i < capacities.len()
            invariant
                i <= capacities@.len(),
                entry_size == clamp_usize((size_of::<T>() + size_of::<Vec<u8>>()) as int),
                total == clamp_usize(entries_size::<T>(capacities@.take(i as int)) as int),
            decreases capacities@.len() - i,
        {
            assert(capacities@.take(i + 1).drop_last() =~= capacities@.take(i as int));
            total = total.saturating_add(entry_size.saturating_add(capacities[i]));
            i = i + 1;
        }
        assert(capacities@.take(i as int) =~= capacities@);
        std::mem::size_of::<Self>().saturating_add(total)
    }
}

/// Do two registries hold the same names and values under the same keys
pub open spec fn same_functions<T: PartialEq>(
    a: Map<u32, (Seq<u8>, T)>,
    b: Map<u32, (Seq<u8>, T)>,
) -> bool {
    &&& a.dom() == b.dom()
    &&& forall|key: u32| #[trigger]
        a.contains_key(key) ==> a[key].0 == b[key].0 && a[key].1.eq_spec(&b[key].1)
}

impl<T: Copy + PartialEq> PartialEq for FunctionRegistry<T> {
    fn eq(&self, other: &Self) -> (equal: bool) {
        let a = self.iter();
        let b = other.iter();
        let ghost a_keys = a@.map_values(|entry: (u32, (&[u8], T))| entry.0);
        let ghost b_keys = b@.map_values(|entry: (u32, (&[u8], T))| entry.0);
        if a.len() != b.len() {
            proof {
                if self@.dom() == other@.dom() {
                    law_enumeration_is_unique(a_keys, b_keys, self@.dom());
                }
            }
            return false;
        }
        let mut i: usize = 0;
        while i < a.len()
            invariant
                i <= a@.len(),
                a@.len() == b@.len(),
                a_keys == a@.map_values(|entry: (u32, (&[u8], T))| entry.0),
                b_keys == b@.map_values(|entry: (u32, (&[u8], T))| entry.0),
                enumerates(a_keys, self@.dom()),
                enumerates(b_keys, other@.dom()),
                forall|k: int|
                    0 <= k < a@.len() ==> {
                        &&& (#[trigger] a@[k]).1.0@ == self@[a@[k].0].0
                        &&& a@[k].1.1 == self@[a@[k].0].1
                    },
                forall|k: int|
                    0 <= k < b@.len() ==> {
                        &&& (#[trigger] b@[k]).1.0@ == other@[b@[k].0].0
                        &&& b@[k].1.1 == other@[b@[k].0].1
                    },
                forall|k: int|
                    0 <= k < i ==> {
                        &&& (#[trigger] a_keys[k]) == b_keys[k]
                        &&& self@[a_keys[k]].0 == other@[a_keys[k]].0
                        &&& T::obeys_eq_spec() ==> self@[a_keys[k]].1.eq_spec(&other@[a_keys[k]].1)
                    },
            decreases a@.len() - i,
        {
            let (a_key, a_entry) = a[i];
            let (b_key, b_entry) = b[i];
            if a_key != b_key || !bytes_equal(a_entry.0, b_entry.0) || a_entry.1 != b_entry.1 {
                proof {
                    assert(a_keys.contains(a_keys[i as int]));
                    if same_functions(self@, other@) {
                        law_enumeration_is_unique(a_keys, b_keys, self@.dom());
                    }
                }
                return false;
            }
            i = i + 1;
        }
        proof {
            assert(a_keys =~= b_keys);
            assert(self@.dom() =~= other@.dom());
            assert forall|key: u32| #[trigger] self@.contains_key(key) implies self@[key].0
                == other@[key].0 && (T::obeys_eq_spec() ==> self@[key].1.eq_spec(
                &other@[key].1,
            )) by {
                assert(a_keys.contains(key));
                assert(a_keys[a_keys.index_of(key)] == key);
            }
        }
        true
    }
}

impl<T: Copy + PartialEq> PartialEqSpecImpl for FunctionRegistry<T> {
    open spec fn obeys_eq_spec() -> bool {
        T::obeys_eq_spec()
    }

    open spec fn eq_spec(&self, other: &Self) -> bool {
        same_functions(self@, other@)
    }
}

impl<T: Copy + Eq> Eq for FunctionRegistry<T> {

}

/// Key under which a program function with the entry point `pc` is registered
pub open spec fn legacy_key(hash_symbol_name: bool, name: Seq<u8>, pc: usize) -> u32 {
    if !hash_symbol_name {
        (pc as int % 0x1_0000_0000) as u32
    } else if name == entrypoint_name() {
        murmur32(entrypoint_name())
    } else {
        murmur32(le_bytes(pc as nat, (usize::BITS / 8) as nat))
    }
}

/// Name of the function at which a program starts
pub open spec fn entrypoint_name() -> Seq<u8> {
    "entrypoint".spec_bytes()
}

/// The functions of a program after one was registered under a derived key, and the outcome.
/// `taken` are the keys of the loader, and `pc` is the index that stands in `value`.
pub open spec fn spec_register_legacy<T: PartialEq>(
    functions: Map<u32, (Seq<u8>, T)>,
    taken: Set<u32>,
    keep_labels: bool,
    hash_symbol_name: bool,
    name: Seq<u8>,
    value: T,
    pc: usize,
) -> (Map<u32, (Seq<u8>, T)>, Result<u32, ElfError>) {
    let key = legacy_key(hash_symbol_name, name, pc);
    let label = if keep_labels || name == entrypoint_name() {
        name
    } else {
        Seq::empty()
    };
    if (hash_symbol_name && taken.contains(key)) || !spec_accepts(functions, key, value) {
        (functions, Err(ElfError::SymbolHashCollision(key)))
    } else {
        (spec_registered(functions, key, label, value), Ok(key))
    }
}

/// Conversion of a type into itself: `<T as From<T>>::from` returns its argument unchanged. By this,
/// the index that stands in a `usize` is the `usize`.
pub assume_specification<Same>[ <Same as std::convert::From<Same>>::from ](given: Same) -> (same:
    Same)
    ensures
        same == given,
;

impl<T: Copy + PartialEq> FunctionRegistry<T> {
    /// Is this what registering a program function under a derived key gives. Whether a value equals
    /// the one that holds its key already is only known of types that say what equality is.
    pub open spec fn is_legacy_outcome<E>(
        functions: Map<u32, (Seq<u8>, T)>,
        loader: &BuiltinProgram<E>,
        hash_symbol_name: bool,
        name: Seq<u8>,
        value: T,
        pc: usize,
        after: Map<u32, (Seq<u8>, T)>,
        result: Result<u32, ElfError>,
    ) -> bool {
        let key = legacy_key(hash_symbol_name, name, pc);
        let expected = spec_register_legacy(
            functions,
            loader@.dom(),
            loader.spec_config()->0.enable_symbol_and_section_labels,
            hash_symbol_name,
            name,
            value,
            pc,
        );
        &&& after == expected.0
        &&& T::obeys_eq_spec() || !functions.contains_key(key) ==> result == expected.1
        &&& hash_symbol_name && loader@.contains_key(key) ==> result is Err
        &&& match result {
            Ok(registered) => registered == key,
            Err(error) => error == ElfError::SymbolHashCollision(key),
        }
    }

    /// Used for transitioning from SBPFv0 to SBPFv3
    ///
    /// Registers a program function, whose value is the index of its first instruction, under a
    /// key that is derived from it. A hashed key must not be that of a function of the `loader`.
    /// The name is only kept if the configuration asks for labels, or if it is the entry point.
    pub fn register_function_hashed_legacy<E: Copy + PartialEq>(
        &mut self,
        loader: &BuiltinProgram<E>,
        hash_symbol_name: bool,
        name: Vec<u8>,
        value: T,
    ) -> (result: Result<u32, ElfError>) where usize: From<T>
        requires
            loader.spec_config() is Some,
        ensures
            exists|pc: usize|
                {
                    &&& #[trigger] call_ensures(<usize as From<T>>::from, (value,), pc)
                    &&& Self::is_legacy_outcome(
                        old(self)@,
                        loader,
                        hash_symbol_name,
                        name@,
                        value,
                        pc,
                        final(self)@,
                        result,
                    )
                },
    {
        let pc: usize = usize::from(value);
        self.register_function_at(loader, hash_symbol_name, name, value, pc)
    }

    /// Registers a program function, given the index of its first instruction, see
    /// [`FunctionRegistry::register_function_hashed_legacy`]
    pub fn register_function_at<E: Copy + PartialEq>(
        &mut self,
        loader: &BuiltinProgram<E>,
        hash_symbol_name: bool,
        name: Vec<u8>,
        value: T,
        pc: usize,
    ) -> (result: Result<u32, ElfError>)
        requires
            loader.spec_config() is Some,
        ensures
            Self::is_legacy_outcome(
                old(self)@,
                loader,
                hash_symbol_name,
                name@,
                value,
                pc,
                final(self)@,
                result,
            ),
    {
        let config = loader.get_config();
        let is_entrypoint = bytes_equal(name.as_slice(), "entrypoint".as_bytes());
        let key: u32 = if hash_symbol_name {
            let hash: u32 = if is_entrypoint {
                ebpf::hash_symbol_name("entrypoint".as_bytes())
            } else {
                ebpf::hash_symbol_name(to_le(pc as u64, (usize::BITS / 8) as usize).as_slice())
            };
            if loader.get_function_registry().lookup_by_key(hash).is_some() {
                return Err(ElfError::SymbolHashCollision(hash));
            }
            hash
        } else {
            (pc as u64 % 0x1_0000_0000) as u32
        };
        let label = if config.enable_symbol_and_section_labels || is_entrypoint {
            name
        } else {
            Vec::new()
        };
        match self.register_function(key, label, value) {
            Ok(()) => Ok(key),
            Err(error) => Err(error),
        }
    }
}

/// Represents the interface to a fixed functionality program
///
/// `E` stands for a function of the program, such as the pair of its address and the address of
/// the function that generates code for it.
#[derive(Debug)]
pub struct BuiltinProgram<E> {
    /// Holds the Config if this is a loader program
    config: Option<Box<Config>>,
    /// Functions by symbol with sparse indexing
    sparse_registry: FunctionRegistry<E>,
}

impl<E> View for BuiltinProgram<E> {
    type V = Map<u32, (Seq<u8>, E)>;

    /// Name and entry of the function under each key
    closed spec fn view(&self) -> Map<u32, (Seq<u8>, E)> {
        self.sparse_registry@
    }
}

impl<E> BuiltinProgram<E> {
    /// The configuration, if this is a loader program
    pub closed spec fn spec_config(&self) -> Option<Config> {
        match self.config {
            Some(config) => Some(*config),
            None => None,
        }
    }

    /// The registry of the functions
    pub closed spec fn spec_registry(&self) -> FunctionRegistry<E> {
        self.sparse_registry
    }
}

impl<E: Copy + PartialEq> BuiltinProgram<E> {
    /// Constructs a loader built-in program
    pub fn new_loader(config: Config) -> (program: Self)
        ensures
            program.spec_config() == Some(config),
            program@ == Map::<u32, (Seq<u8>, E)>::empty(),
    {
        BuiltinProgram { config: Some(Box::new(config)), sparse_registry: FunctionRegistry::default() }
    }

    /// Constructs a built-in program
    pub fn new_builtin() -> (program: Self)
        ensures
            program.spec_config() is None,
            program@ == Map::<u32, (Seq<u8>, E)>::empty(),
    {
        BuiltinProgram { config: None, sparse_registry: FunctionRegistry::default() }
    }

    /// Constructs a mock loader built-in program
    pub fn new_mock() -> (program: Self)
        ensures
            program.spec_config() == Some(Config::spec_default()),
            program@ == Map::<u32, (Seq<u8>, E)>::empty(),
    {
        Self::new_loader(Config::default())
    }

    /// Is this a loader program
    pub fn is_loader(&self) -> (loader: bool)
        ensures
            loader == self.spec_config() is Some,
    {
        self.config.is_some()
    }

    /// Get the configuration settings assuming this is a loader program
    pub fn get_config(&self) -> (config: &Config)
        requires
            self.spec_config() is Some,
        ensures
            self.spec_config() == Some(*config),
    {
        self.config.as_ref().unwrap()
    }

    /// Get the function registry
    pub fn get_function_registry(&self) -> (registry: &FunctionRegistry<E>)
        ensures
            *registry == self.spec_registry(),
            registry@ == self@,
    {
        &self.sparse_registry
    }

    /// Calculate memory size
    pub fn mem_size(&self) -> (size: usize)
        ensures
            exists|registry_size: usize|
                {
                    &&& #[trigger] self.spec_registry().takes(registry_size)
                    &&& size == builtin_size::<E>(self.spec_config() is Some, registry_size as int)
                },
    {
        let registry_size: usize = self.sparse_registry.mem_size();
        assert(self.spec_registry().takes(registry_size));
        Self::mem_size_for(self.is_loader(), registry_size)
    }

    /// Memory size of a program, given whether it is a loader and the size of its registry
    pub fn mem_size_for(loader: bool, registry_size: usize) -> (size: usize)
        ensures
            size == builtin_size::<E>(loader, registry_size as int),
    {
        let config_size: usize = if loader {
            std::mem::size_of::<Config>()
        } else {
            0
        };
        std::mem::size_of::<Self>().saturating_add(config_size).saturating_add(registry_size)
    }

    /// Register a function under the hash of its name
    pub fn register_function(&mut self, name: &str, entry: E) -> (result: Result<(), ElfError>)
        ensures
            final(self).spec_config() == old(self).spec_config(),
            ({
                let key = murmur32(name.spec_bytes());
                &&& final(self)@ == spec_registered(old(self)@, key, name.spec_bytes(), entry)
                &&& !old(self)@.contains_key(key) ==> result is Ok
                &&& E::obeys_eq_spec() ==> (result is Ok <==> spec_accepts(old(self)@, key, entry))
                &&& result matches Err(error) ==> error == ElfError::SymbolHashCollision(key)
            }),
    {
        let key: u32 = ebpf::hash_symbol_name(name.as_bytes());
        self.sparse_registry.register_function(key, name.as_bytes_vec(), entry)
    }
}

/// Bytes that a built-in program takes up, given the size of its registry
pub open spec fn builtin_size<E>(loader: bool, registry_size: int) -> int {
    clamp_usize(
        size_of::<BuiltinProgram<E>>() + registry_size + if loader {
            size_of::<Config>() as int
        } else {
            0
        },
    )
}

impl<E: Copy + PartialEq> PartialEq for BuiltinProgram<E> {
    fn eq(&self, other: &Self) -> (equal: bool) {
        let same_config = match (&self.config, &other.config) {
            (Some(a), Some(b)) => **a == **b,
            (None, None) => true,
            _ => false,
        };
        same_config && self.sparse_registry == other.sparse_registry
    }
}

impl<E: Copy + PartialEq> PartialEqSpecImpl for BuiltinProgram<E> {
    open spec fn obeys_eq_spec() -> bool {
        E::obeys_eq_spec()
    }

    open spec fn eq_spec(&self, other: &Self) -> bool {
        self.spec_config() == other.spec_config() && same_functions(self@, other@)
    }
}

impl<E: Copy + Eq> Eq for BuiltinProgram<E> {

}

/// Accounts of a virtual machine around the call of a built-in function
#[derive(Debug)]
pub struct BuiltinInvocation {
    /// The instruction meter when the accounts were last settled
    pub previous_instruction_meter: u64,
    /// What is left of the meter
    pub due_insn_count: u64,
    /// Outcome of the program or the last built-in function
    pub program_result: ProgramResult,
}

/// Outcome of a built-in function, as the program sees it
pub open spec fn builtin_result(result: Result<u64, String>) -> ProgramResult {
    match result {
        Ok(value) => StableResult::Success(value),
        Err(error) => StableResult::Failure(EbpfError::SyscallError(error)),
    }
}

impl BuiltinInvocation {
    /// Settles the accounts before a built-in function runs
    pub fn enter<C: ContextObject>(&self, config: &Config, context_object: &mut C)
        requires
            config.enable_instruction_meter ==> {
                &&& self.due_insn_count <= self.previous_instruction_meter
                &&& self.previous_instruction_meter - self.due_insn_count <= old(
                    context_object,
                ).spec_remaining()
            },
        ensures
            config.enable_instruction_meter ==> final(context_object).spec_remaining() == old(
                context_object,
            ).spec_remaining() - (self.previous_instruction_meter - self.due_insn_count),
            !config.enable_instruction_meter ==> *final(context_object) == *old(context_object),
    {
        if config.enable_instruction_meter {
            context_object.consume(self.previous_instruction_meter - self.due_insn_count);
        }
    }

    /// Takes over the outcome of a built-in function that has run
    pub fn leave<C: ContextObject>(
        &mut self,
        config: &Config,
        context_object: &C,
        result: Result<u64, String>,
    )
        ensures
            final(self).program_result == builtin_result(result),
            final(self).previous_instruction_meter == if config.enable_instruction_meter {
                context_object.spec_remaining()
            } else {
                old(self).previous_instruction_meter
            },
            final(self).due_insn_count == old(self).due_insn_count,
    {
        self.program_result = match result {
            Ok(value) => StableResult::Success(value),
            Err(error) => StableResult::Failure(EbpfError::SyscallError(error)),
        };
        if config.enable_instruction_meter {
            self.previous_instruction_meter = context_object.get_remaining();
        }
    }
}

/// Stand-in for the JIT compiler where programs are only interpreted
pub struct JitCompiler<'a, C> {
    _phantom: std::marker::PhantomData<&'a C>,
}

impl<'a, C: ContextObject> JitCompiler<'a, C> {
    /// A compiler that emits nothing
    pub fn new() -> Self {
        JitCompiler { _phantom: std::marker::PhantomData }
    }

    /// Emits no code
    pub fn emit_external_call<E>(&mut self, _function: E)
        ensures
            *final(self) == *old(self),
    {
    }
}

/// What was registered is found under its key, and what is registered later does not displace it.
pub proof fn law_registered_function_is_found<T>(
    functions: Map<u32, (Seq<u8>, T)>,
    key: u32,
    name: Seq<u8>,
    value: T,
    later_key: u32,
    later_name: Seq<u8>,
    later_value: T,
)
    ensures
        ({
            let after = spec_registered(functions, key, name, value);
            let later = spec_registered(after, later_key, later_name, later_value);
            &&& after.contains_key(key)
            &&& !functions.contains_key(key) ==> after[key] == (name, value)
            &&& later.contains_key(key) && later[key] == after[key]
        }),
{
}

/// Registering one function leaves those under other keys as they are.
pub proof fn law_registration_is_local<T>(
    functions: Map<u32, (Seq<u8>, T)>,
    key: u32,
    name: Seq<u8>,
    value: T,
    other: u32,
)
    requires
        other != key,
    ensures
        ({
            let after = spec_registered(functions, key, name, value);
            &&& after.contains_key(other) <==> functions.contains_key(other)
            &&& functions.contains_key(other) ==> after[other] == functions[other]
        }),
{
}

/// Unregistering undoes the registration of a new function.
pub proof fn law_unregistration_undoes_registration<T>(
    functions: Map<u32, (Seq<u8>, T)>,
    key: u32,
    name: Seq<u8>,
    value: T,
)
    requires
        !functions.contains_key(key),
    ensures
        spec_registered(functions, key, name, value).remove(key) == functions,
{
    assert(spec_registered(functions, key, name, value).remove(key) =~= functions);
}

/// The order in which functions with different keys are registered makes no difference.
pub proof fn law_registration_order_is_irrelevant<T>(
    functions: Map<u32, (Seq<u8>, T)>,
    a_key: u32,
    a_name: Seq<u8>,
    a_value: T,
    b_key: u32,
    b_name: Seq<u8>,
    b_value: T,
)
    requires
        a_key != b_key,
    ensures
        spec_registered(spec_registered(functions, a_key, a_name, a_value), b_key, b_name, b_value)
            == spec_registered(
            spec_registered(functions, b_key, b_name, b_value),
            a_key,
            a_name,
            a_value,
        ),
{
    assert(spec_registered(
        spec_registered(functions, a_key, a_name, a_value),
        b_key,
        b_name,
        b_value,
    ) =~= spec_registered(
        spec_registered(functions, b_key, b_name, b_value),
        a_key,
        a_name,
        a_value,
    ));
}

/// Registering a function again is accepted if its value equals itself, and changes nothing.
pub proof fn law_registration_is_idempotent<T: PartialEq>(
    functions: Map<u32, (Seq<u8>, T)>,
    key: u32,
    name: Seq<u8>,
    value: T,
)
    requires
        spec_accepts(functions, key, value),
        value.eq_spec(&value),
    ensures
        ({
            let after = spec_registered(functions, key, name, value);
            &&& spec_accepts(after, key, value)
            &&& spec_registered(after, key, name, value) == after
        }),
{
}

/// At most one function is the first of its name.
pub proof fn law_first_named_is_unique<T>(
    functions: Map<u32, (Seq<u8>, T)>,
    name: Seq<u8>,
    a: u32,
    b: u32,
)
    requires
        is_first_named(functions, name, a),
        is_first_named(functions, name, b),
    ensures
        a == b,
{
}

/// A program function that was registered under a derived key is found there, and if the key is a
/// hash, it does not hide a function of the loader.
pub proof fn law_legacy_registration<T: PartialEq>(
    functions: Map<u32, (Seq<u8>, T)>,
    taken: Set<u32>,
    keep_labels: bool,
    hash_symbol_name: bool,
    name: Seq<u8>,
    value: T,
    pc: usize,
)
    requires
        value.eq_spec(&value),
    ensures
        ({
            let (after, result) = spec_register_legacy(
                functions,
                taken,
                keep_labels,
                hash_symbol_name,
                name,
                value,
                pc,
            );
            match result {
                Ok(key) => {
                    &&& after.contains_key(key) && after[key].1.eq_spec(&value)
                    &&& hash_symbol_name ==> !taken.contains(key)
                },
                Err(_) => after == functions,
            }
        }),
{
}

/// The functions that a registry holds after a registration are those from before, and the new one if
/// its key was free. It is refused exactly if its key belongs to a function with another value.
pub proof fn law_registration<T: PartialEq>(
    functions: Map<u32, (Seq<u8>, T)>,
    key: u32,
    name: Seq<u8>,
    value: T,
)
    ensures
        functions.contains_key(key) ==> spec_registered(functions, key, name, value) == functions,
        !functions.contains_key(key) ==> spec_registered(functions, key, name, value)
            == functions.insert(key, (name, value)),
        spec_accepts(functions, key, value) <==> !functions.contains_key(key)
            || functions[key].1.eq_spec(&value),
{
}

/// A registry lists every key once, in ascending order, and beside it the name and the value that
/// were registered under it.
pub proof fn law_entries_are_listed<T: Copy + PartialEq>(
    registry: &FunctionRegistry<T>,
    keys: Vec<u32>,
    entries: Vec<(u32, (&[u8], T))>,
    key: u32,
    i: int,
    j: int,
)
    requires
        call_ensures(FunctionRegistry::<T>::keys, (registry,), keys),
        call_ensures(FunctionRegistry::<T>::iter, (registry,), entries),
    ensures
        entries@.len() == keys@.len(),
        0 <= i < j < keys@.len() ==> keys@[i] < keys@[j],
        keys@.contains(key) <==> registry@.contains_key(key),
        0 <= i < keys@.len() ==> {
            &&& entries@[i].0 == keys@[i]
            &&& registry@.contains_key(keys@[i])
            &&& entries@[i].1.0@ == registry@[keys@[i]].0
            &&& entries@[i].1.1 == registry@[keys@[i]].1
        },
{
    let listed = entries@.map_values(|entry: (u32, (&[u8], T))| entry.0);
    law_enumeration_is_unique(listed, keys@, registry@.dom());
    if 0 <= i < keys@.len() {
        assert(listed[i] == entries@[i].0);
        assert(keys@.contains(keys@[i]));
    }
}

/// A lookup by key gives the name and the value that were registered under it. A lookup by name gives
/// a function of that name, and none of that name has a lower key.
pub proof fn law_lookups<T: Copy + PartialEq>(
    registry: &FunctionRegistry<T>,
    key: u32,
    by_key: Option<(&[u8], T)>,
    name: &[u8],
    by_name: Option<(&[u8], T)>,
)
    requires
        call_ensures(FunctionRegistry::<T>::lookup_by_key, (registry, key), by_key),
        call_ensures(FunctionRegistry::<T>::lookup_by_name, (registry, name), by_name),
    ensures
        by_key is Some <==> registry@.contains_key(key),
        by_key matches Some(entry) ==> (entry.0@, entry.1) == registry@[key],
        registry@.contains_key(key) && registry@[key].0 == name@ ==> by_name is Some,
        by_name matches Some(entry) ==> entry.0@ == name@ && exists|first: u32|
            {
                &&& #[trigger] registry@.contains_key(first)
                &&& registry@[first].0 == name@
                &&& registry@[first].1 == entry.1
                &&& registry@.contains_key(key) && registry@[key].0 == name@ ==> first <= key
            },
{
    if let Some(entry) = by_name {
        let first = choose|first: u32|
            {
                &&& #[trigger] is_first_named(registry@, name@, first)
                &&& entry.0@ == registry@[first].0
                &&& entry.1 == registry@[first].1
            };
        assert(registry@.contains_key(first));
    }
}

/// Registries are equal exactly if they have the same keys, and under each key the same name and
/// equal values.
pub proof fn law_equal_registries<T: Copy + PartialEq>(
    a: &FunctionRegistry<T>,
    b: &FunctionRegistry<T>,
)
    ensures
        PartialEqSpec::eq_spec(a, b) <==> {
            &&& a@.dom() == b@.dom()
            &&& forall|key: u32| #[trigger]
                a@.contains_key(key) ==> a@[key].0 == b@[key].0 && a@[key].1.eq_spec(&b@[key].1)
        },
{
}

/// Programs are equal exactly if they have the same settings and equal functions.
pub proof fn law_equal_programs<E: Copy + PartialEq>(a: &BuiltinProgram<E>, b: &BuiltinProgram<E>)
    ensures
        PartialEqSpec::eq_spec(a, b) <==> {
            &&& a.spec_config() == b.spec_config()
            &&& a@.dom() == b@.dom()
            &&& forall|key: u32| #[trigger]
                a@.contains_key(key) ==> a@[key].0 == b@[key].0 && a@[key].1.eq_spec(&b@[key].1)
        },
{
}

/// A registry takes up its own bytes, and for each function those of its value, of the name, and of
/// the room for the name, as far as they can be counted.
pub proof fn law_size_of_functions<T: Copy + PartialEq>(
    capacities: &Vec<usize>,
    size: usize,
    room: int,
)
    requires
        call_ensures(FunctionRegistry::<T>::mem_size_for, (capacities,), size),
        room == capacities@.fold_left(0int, |sum: int, capacity: usize| sum + capacity),
    ensures
        ({
            let bytes = size_of::<FunctionRegistry<T>>() + capacities@.len() * (size_of::<T>()
                + size_of::<Vec<u8>>()) + room;
            size == if bytes > usize::MAX {
                usize::MAX as int
            } else {
                bytes
            }
        }),
{
    lemma_entries_size::<T>(capacities@);
}

proof fn lemma_entries_size<T>(capacities: Seq<usize>)
    ensures
        entries_size::<T>(capacities) == capacities.len() * (size_of::<T>() + size_of::<Vec<u8>>())
            + capacities.fold_left(0int, |sum: int, capacity: usize| sum + capacity),
    decreases capacities.len(),
{
    reveal(Seq::fold_left);
    if capacities.len() > 0 {
        lemma_entries_size::<T>(capacities.drop_last());
        let entry = size_of::<T>() + size_of::<Vec<u8>>();
        assert(capacities.len() * entry == (capacities.len() - 1) * entry + entry)
            by (nonlinear_arith);
    }
}

/// A program takes up its own bytes, those of its registry, and those of its settings if it is a
/// loader, as far as they can be counted.
pub proof fn law_size_of_programs<E: Copy + PartialEq>(
    loader: bool,
    registry_size: usize,
    size: usize,
)
    requires
        call_ensures(BuiltinProgram::<E>::mem_size_for, (loader, registry_size), size),
    ensures
        ({
            let bytes = size_of::<BuiltinProgram<E>>() + registry_size + if loader {
                size_of::<Config>() as int
            } else {
                0
            };
            size == if bytes > usize::MAX {
                usize::MAX as int
            } else {
                bytes
            }
        }),
{
}

/// The key of a program function is the index of its first instruction, cut off at 32 bits, or a hash:
/// of its name for the entry point, of the bytes of the index, the lowest first, for every other one.
#[verifier::spinoff_prover]
pub proof fn law_keys_of_program_functions(name: Seq<u8>, pc: usize)
    ensures
        legacy_key(false, name, pc) as int == pc as int % 0x1_0000_0000,
        name == "entrypoint".spec_bytes() ==> legacy_key(true, name, pc) == murmur32(
            "entrypoint".spec_bytes(),
        ),
        name != "entrypoint".spec_bytes() ==> exists|index: Seq<u8>|
            {
                &&& legacy_key(true, name, pc) == #[trigger] murmur32(index)
                &&& index.len() == usize::BITS / 8
                &&& forall|i: int|
                    0 <= i < index.len() ==> #[trigger] index[i] == pc as int / crate::bytes::pow256(
                        i as nat,
                    ) as int % 256
            },
{
    let index = le_bytes(pc as nat, (usize::BITS / 8) as nat);
    crate::bytes::lemma_le_bytes_len(pc as nat, (usize::BITS / 8) as nat);
    assert forall|i: int| 0 <= i < index.len() implies #[trigger] index[i] == pc as int
        / crate::bytes::pow256(i as nat) as int % 256 by {
        crate::bytes::law_byte_of_number(pc as nat, (usize::BITS / 8) as nat, i as nat);
    }
    if name != "entrypoint".spec_bytes() {
        assert(legacy_key(true, name, pc) == murmur32(index));
    }
}

/// A program function is registered under its key exactly if no function with another value has the
/// key, and if the key is a hash, no function of the loader has it. The name is kept if labels are,
/// and always that of the entry point.
pub proof fn law_registration_of_program_functions<T: PartialEq>(
    functions: Map<u32, (Seq<u8>, T)>,
    taken: Set<u32>,
    keep_labels: bool,
    hash_symbol_name: bool,
    name: Seq<u8>,
    value: T,
    pc: usize,
)
    ensures
        ({
            let key = legacy_key(hash_symbol_name, name, pc);
            let (after, result) = spec_register_legacy(
                functions,
                taken,
                keep_labels,
                hash_symbol_name,
                name,
                value,
                pc,
            );
            let refused = (hash_symbol_name && taken.contains(key)) || (functions.contains_key(key)
                && !functions[key].1.eq_spec(&value));
            &&& refused ==> result == Err::<u32, ElfError>(ElfError::SymbolHashCollision(key))
            &&& !refused ==> result == Ok::<u32, ElfError>(key)
            &&& refused || functions.contains_key(key) ==> after == functions
            &&& !refused && !functions.contains_key(key) && (keep_labels || name
                == "entrypoint".spec_bytes()) ==> after == functions.insert(key, (name, value))
            &&& !refused && !functions.contains_key(key) && !keep_labels && name
                != "entrypoint".spec_bytes() ==> after == functions.insert(
                key,
                (Seq::empty(), value),
            )
        }),
{
}

/// What a registration under a derived key leaves behind, and what it gives, follows the keys and the
/// labels of the loader.
pub proof fn law_outcome_of_program_functions<T: Copy + PartialEq, E>(
    functions: Map<u32, (Seq<u8>, T)>,
    loader: &BuiltinProgram<E>,
    hash_symbol_name: bool,
    name: Seq<u8>,
    value: T,
    pc: usize,
    after: Map<u32, (Seq<u8>, T)>,
    result: Result<u32, ElfError>,
)
    requires
        FunctionRegistry::<T>::is_legacy_outcome(
            functions,
            loader,
            hash_symbol_name,
            name,
            value,
            pc,
            after,
            result,
        ),
    ensures
        (after, result) == spec_register_legacy(
            functions,
            loader@.dom(),
            loader.spec_config()->0.enable_symbol_and_section_labels,
            hash_symbol_name,
            name,
            value,
            pc,
        ) || (!T::obeys_eq_spec() && functions.contains_key(
            legacy_key(hash_symbol_name, name, pc),
        ) && after == functions),
{
}

/// A built-in function that returns a value is a success with that value, one that fails is a failure
/// of a syscall with its error.
pub proof fn law_outcome_of_builtin_functions(value: u64, error: String)
    ensures
        builtin_result(Ok::<u64, String>(value)) == ProgramResult::Success(value),
        builtin_result(Err::<u64, String>(error)) == ProgramResult::Failure(
            EbpfError::SyscallError(error),
        ),
{
}

/// A registry takes up its own bytes, and for each of its keys, once and in ascending order, those of
/// the value, of the name and of the room that was found for the name.
pub proof fn law_memory_of_functions<T: Copy + PartialEq>(
    registry: &FunctionRegistry<T>,
    size: usize,
)
    requires
        call_ensures(FunctionRegistry::<T>::mem_size, (registry,), size),
    ensures
        exists|keys: Seq<u32>, capacities: Seq<usize>|
            {
                &&& keys.len() == capacities.len()
                &&& forall|i: int, j: int| 0 <= i < j < keys.len() ==> keys[i] < keys[j]
                &&& forall|key: u32| #[trigger]
                    keys.contains(key) <==> registry@.contains_key(key)
                &&& forall|i: int|
                    0 <= i < keys.len() ==> registry.has_room(keys[i], #[trigger] capacities[i])
                        && registry@[keys[i]].0.len() <= capacities[i]
                &&& size == #[trigger] sum_of_sizes::<T>(keys, capacities)
            },
{
    let (keys, capacities) = choose|keys: Seq<u32>, capacities: Seq<usize>|
        {
            &&& #[trigger] enumerates(keys, registry@.dom())
            &&& capacities.len() == keys.len()
            &&& forall|i: int|
                0 <= i < keys.len() ==> {
                    &&& registry.has_room(keys[i], #[trigger] capacities[i])
                    &&& registry@[keys[i]].0.len() <= capacities[i] <= isize::MAX
                }
            &&& size == #[trigger] registry_size::<T>(capacities)
        };
    lemma_entries_size::<T>(capacities);
    assert(size == sum_of_sizes::<T>(keys, capacities));
}

/// Bytes of a registry with these keys and this room for their names, as far as they can be counted
pub open spec fn sum_of_sizes<T>(keys: Seq<u32>, capacities: Seq<usize>) -> int {
    let bytes = size_of::<FunctionRegistry<T>>() + keys.len() * (size_of::<T>() + size_of::<
        Vec<u8>,
    >()) + capacities.fold_left(0int, |sum: int, capacity: usize| sum + capacity);
    if bytes > usize::MAX {
        usize::MAX as int
    } else {
        bytes
    }
}

/// A function is registered if its key is free. If the key belongs to another one, that one stays,
/// and the registration is refused exactly if the values differ, as far as it is known what equality
/// is. All others stay as they are.
pub proof fn law_registering_functions<T: Copy + PartialEq>(
    registry: &mut FunctionRegistry<T>,
    key: u32,
    name: Vec<u8>,
    value: T,
    result: Result<(), ElfError>,
    other: u32,
)
    requires
        call_ensures(
            FunctionRegistry::<T>::register_function,
            (registry, key, name, value),
            result,
        ),
    ensures
        final(registry)@.contains_key(key),
        !old(registry)@.contains_key(key) ==> result is Ok && final(registry)@[key] == (name@, value),
        old(registry)@.contains_key(key) ==> final(registry)@[key] == old(registry)@[key],
        old(registry)@.contains_key(key) && T::obeys_eq_spec() ==> (result is Ok <==> old(
            registry,
        )@[key].1.eq_spec(&value)),
        result matches Err(error) ==> error == ElfError::SymbolHashCollision(key),
        other != key ==> (final(registry)@.contains_key(other) <==> old(registry)@.contains_key(
            other,
        )),
        other != key && old(registry)@.contains_key(other) ==> final(registry)@[other] == old(
            registry,
        )@[other],
{
}

/// A function that is unregistered is no longer found, and all others stay as they are.
pub proof fn law_unregistering_functions<T: Copy + PartialEq>(
    registry: &mut FunctionRegistry<T>,
    key: u32,
    other: u32,
)
    requires
        call_ensures(FunctionRegistry::<T>::unregister_function, (registry, key), ()),
    ensures
        !final(registry)@.contains_key(key),
        other != key ==> (final(registry)@.contains_key(other) <==> old(registry)@.contains_key(
            other,
        )),
        other != key && old(registry)@.contains_key(other) ==> final(registry)@[other] == old(
            registry,
        )@[other],
{
}

/// A function of a program is registered under the hash of its name, with its name.
pub proof fn law_registering_builtin_functions<E: Copy + PartialEq>(
    program: &mut BuiltinProgram<E>,
    name: &str,
    entry: E,
    result: Result<(), ElfError>,
)
    requires
        call_ensures(BuiltinProgram::<E>::register_function, (program, name, entry), result),
    ensures
        ({
            let key = murmur32(name.spec_bytes());
            &&& !old(program)@.contains_key(key) ==> result is Ok && final(program)@ == old(
                program,
            )@.insert(key, (name.spec_bytes(), entry))
            &&& old(program)@.contains_key(key) ==> final(program)@ == old(program)@
            &&& old(program)@.contains_key(key) && E::obeys_eq_spec() ==> (result is Ok <==> old(
                program,
            )@[key].1.eq_spec(&entry))
            &&& result matches Err(error) ==> error == ElfError::SymbolHashCollision(key)
            &&& final(program).spec_config() == old(program).spec_config()
        }),
{
}

/// New programs have no functions. A loader has the settings that it was given, or those that nobody
/// changed; a built-in program has none.
pub proof fn law_new_programs<E: Copy + PartialEq>(
    config: Config,
    loader: BuiltinProgram<E>,
    builtin: BuiltinProgram<E>,
    mock: BuiltinProgram<E>,
)
    requires
        call_ensures(BuiltinProgram::<E>::new_loader, (config,), loader),
        call_ensures(BuiltinProgram::<E>::new_builtin, (), builtin),
        call_ensures(BuiltinProgram::<E>::new_mock, (), mock),
    ensures
        loader.spec_config() == Some(config) && loader@.dom() == Set::<u32>::empty(),
        builtin.spec_config() is None && builtin@.dom() == Set::<u32>::empty(),
        mock.spec_config() == Some(Config::spec_default()) && mock@.dom() == Set::<u32>::empty(),
{
    assert(loader@.dom() =~= Set::<u32>::empty());
    assert(builtin@.dom() =~= Set::<u32>::empty());
    assert(mock@.dom() =~= Set::<u32>::empty());
}

/// Before a built-in function runs, what the program has used up is taken from the meter, if there is
/// one.
pub proof fn law_entering_builtin_functions<C: ContextObject>(
    invocation: &BuiltinInvocation,
    config: &Config,
    context_object: &mut C,
)
    requires
        call_ensures(BuiltinInvocation::enter::<C>, (invocation, config, context_object), ()),
    ensures
        config.enable_instruction_meter ==> final(context_object).spec_remaining()
            + invocation.previous_instruction_meter == old(context_object).spec_remaining()
            + invocation.due_insn_count,
        !config.enable_instruction_meter ==> *final(context_object) == *old(context_object),
{
}

/// After a built-in function has run, its outcome is that of the program so far, and the meter is read
/// again, if there is one.
pub proof fn law_leaving_builtin_functions<C: ContextObject>(
    invocation: &mut BuiltinInvocation,
    config: &Config,
    context_object: &C,
    result: Result<u64, String>,
)
    requires
        call_ensures(
            BuiltinInvocation::leave::<C>,
            (invocation, config, context_object, result),
            (),
        ),
    ensures
        result matches Ok(value) ==> final(invocation).program_result == ProgramResult::Success(
            value,
        ),
        result matches Err(error) ==> final(invocation).program_result == ProgramResult::Failure(
            EbpfError::SyscallError(error),
        ),
        config.enable_instruction_meter ==> final(invocation).previous_instruction_meter
            == context_object.spec_remaining(),
        !config.enable_instruction_meter ==> final(invocation).previous_instruction_meter == old(
            invocation,
        ).previous_instruction_meter,
        final(invocation).due_insn_count == old(invocation).due_insn_count,
{
}

/// Registering a program function does what its index, the functions of the loader and its labels say.
pub proof fn law_registering_program_functions<T: Copy + PartialEq, E: Copy + PartialEq>(
    registry: &mut FunctionRegistry<T>,
    loader: &BuiltinProgram<E>,
    hash_symbol_name: bool,
    name: Vec<u8>,
    value: T,
    pc: usize,
    result: Result<u32, ElfError>,
)
    requires
        T::obeys_eq_spec(),
        call_ensures(
            FunctionRegistry::<T>::register_function_at::<E>,
            (registry, loader, hash_symbol_name, name, value, pc),
            result,
        ),
    ensures
        ({
            let key = legacy_key(hash_symbol_name, name@, pc);
            let refused = (hash_symbol_name && loader@.contains_key(key)) || (old(
                registry,
            )@.contains_key(key) && !old(registry)@[key].1.eq_spec(&value));
            let keeps_name = loader.spec_config()->0.enable_symbol_and_section_labels || name@
                == "entrypoint".spec_bytes();
            &&& refused ==> result == Err::<u32, ElfError>(ElfError::SymbolHashCollision(key))
            &&& !refused ==> result == Ok::<u32, ElfError>(key)
            &&& refused || old(registry)@.contains_key(key) ==> final(registry)@ == old(registry)@
            &&& !refused && !old(registry)@.contains_key(key) ==> final(registry)@ == old(
                registry,
            )@.insert(
                key,
                (
                    if keeps_name {
                        name@
                    } else {
                        Seq::empty()
                    },
                    value,
                ),
            )
        }),
{
    law_registration_of_program_functions(
        old(registry)@,
        loader@.dom(),
        loader.spec_config()->0.enable_symbol_and_section_labels,
        hash_symbol_name,
        name@,
        value,
        pc,
    );
}

/// A program is a loader exactly if it has settings, which it gives as they are.
pub proof fn law_settings_of_programs<E: Copy + PartialEq>(
    program: &BuiltinProgram<E>,
    loader: bool,
    config: &Config,
    registry: &FunctionRegistry<E>,
)
    requires
        call_ensures(BuiltinProgram::<E>::is_loader, (program,), loader),
        loader ==> call_ensures(BuiltinProgram::<E>::get_config, (program,), config),
        call_ensures(BuiltinProgram::<E>::get_function_registry, (program,), registry),
    ensures
        loader <==> program.spec_config() is Some,
        loader ==> program.spec_config() == Some(*config),
        registry@ == program@,
{
}

} // verus!
