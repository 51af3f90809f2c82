//! Laws of memory mappings.
use vstd::prelude::*;

use crate::aligned_memory::{law_pod_byte, law_pod_round_trip, pod_bytes, Pod, UnsignedPod};
use crate::arith::{clamp_i64, clamp_u64, signed_of};
use crate::byte_order::{in_order, lemma_in_order_twice, ByteOrder};
use crate::bytes::{
    law_digit_of_value, lemma_le_bytes_len, lemma_le_value_bound, lemma_pow256_increases,
    lemma_pow256_values, pow256,
};
use crate::config::Config;
use crate::error::EbpfError;
use crate::eytzinger::{ascending, last_at_or_below, law_last_at_or_below};
use crate::host_memory::{bytes_at, law_read_after_write, HostMemory};
use crate::memory_mapping::{
    access_violation, disjoint_in_order, first_misplaced, first_overlap, fits_slot,
    lemma_find_in_bounds, lemma_first_overlap, lemma_search_addresses_ascend, lemma_unique_owner,
    region_name_of, slot_of, spec_created, spec_loaded, spec_stored, stack_frame_of, start_addresses,
    AccessViolationHandler, AlignedMemoryMapping, DefaultAccessViolationHandler, MemoryMapping,
    UnalignedMemoryMapping,
};
use crate::memory_region::{
    is_in_gap, law_continuous_access, law_no_translation, law_range_size, law_store_implies_load,
    law_translation_in_bounds, law_writable_region, AccessType, MemoryRegion,
};
use crate::region_order::{law_sorted_regions, sorted_regions, starting_at};
use crate::result::ProgramResult;
use crate::version::SBPFVersion;

verus! {

/// With the handler that repairs nothing, an access gives what mapping the address gives, and
/// leaves all regions as they are.
pub proof fn law_default_handler_changes_nothing<'a>(
    mapping: MemoryMapping<'a, DefaultAccessViolationHandler>,
    access_type: AccessType,
    vm_addr: u64,
    len: u64,
    result: ProgramResult,
    after: Seq<MemoryRegion>,
)
    requires
        mapping.consistent(),
        mapping.may_translate(access_type, vm_addr, len, result, after),
    ensures
        result == mapping.spec_map(access_type, vm_addr, len),
        after == mapping.regions(),
{
}

/// An access that fails leaves all regions as they are, whatever the handler did.
pub proof fn law_failed_access_changes_nothing<'a, H: AccessViolationHandler>(
    mapping: MemoryMapping<'a, H>,
    access_type: AccessType,
    vm_addr: u64,
    len: u64,
    error: EbpfError,
    after: Seq<MemoryRegion>,
)
    requires
        mapping.may_translate(access_type, vm_addr, len, ProgramResult::Failure(error), after),
    ensures
        after == mapping.regions(),
{
}

/// An access that the mapping permits is never handed to the handler.
pub proof fn law_permitted_access_needs_no_handler<'a, H: AccessViolationHandler>(
    mapping: MemoryMapping<'a, H>,
    access_type: AccessType,
    vm_addr: u64,
    len: u64,
    host_addr: u64,
    result: ProgramResult,
    after: Seq<MemoryRegion>,
)
    requires
        mapping.consistent(),
        mapping.spec_map(access_type, vm_addr, len) == ProgramResult::Success(host_addr),
        mapping.may_translate(access_type, vm_addr, len, result, after),
    ensures
        result == ProgramResult::Success(host_addr),
        after == mapping.regions(),
{
}

/// Once an access went through, the mapping permits the same access at the same host address.
pub proof fn law_access_is_repeatable<'a, H: AccessViolationHandler>(
    before: MemoryMapping<'a, H>,
    after: MemoryMapping<'a, H>,
    access_type: AccessType,
    vm_addr: u64,
    len: u64,
    host_addr: u64,
)
    requires
        before.consistent(),
        after.consistent(),
        after.same_setup(before),
        before.may_translate(
            access_type,
            vm_addr,
            len,
            ProgramResult::Success(host_addr),
            after.regions(),
        ),
    ensures
        after.spec_map(access_type, vm_addr, len) == ProgramResult::Success(host_addr),
{
    assert(after.regions().len() == before.regions().len());
    assert(after.spec_find(vm_addr) == before.spec_find(vm_addr));
    if before is Unaligned {
        crate::eytzinger::law_last_at_or_below(
            before->Unaligned_0.search_addresses(),
            vm_addr,
        );
    }
}

/// After a store that went through, every load of the same size from the same address is translated
/// to the same host address, and leaves all regions as they are.
pub proof fn law_load_finds_the_store<'a, H: AccessViolationHandler>(
    before: MemoryMapping<'a, H>,
    after: MemoryMapping<'a, H>,
    vm_addr: u64,
    len: u64,
    host_addr: u64,
    translation: ProgramResult,
    later: Seq<MemoryRegion>,
)
    requires
        before.consistent(),
        after.consistent(),
        after.same_setup(before),
        before.may_translate(
            AccessType::Store,
            vm_addr,
            len,
            ProgramResult::Success(host_addr),
            after.regions(),
        ),
        after.may_translate(AccessType::Load, vm_addr, len, translation, later),
    ensures
        translation == ProgramResult::Success(host_addr),
        later == after.regions(),
{
    law_access_is_repeatable(before, after, AccessType::Store, vm_addr, len, host_addr);
    if let Some(index) = after.spec_find(vm_addr) {
        if !(after is Identity) {
            law_store_implies_load(after.regions()[index], vm_addr, len);
        }
    }
    assert(after.spec_map(AccessType::Load, vm_addr, len) == ProgramResult::Success(host_addr));
    law_permitted_access_needs_no_handler(
        after,
        AccessType::Load,
        vm_addr,
        len,
        host_addr,
        translation,
        later,
    );
}

/// A load gives back what the store before it wrote, whether or not the handler had to repair the
/// region for the store. `host` is the memory before the store, `stored` the memory after it.
pub proof fn law_load_after_store<'a, H: AccessViolationHandler, T: UnsignedPod>(
    before: MemoryMapping<'a, H>,
    after: MemoryMapping<'a, H>,
    host: HostMemory,
    stored: HostMemory,
    value: T,
    vm_addr: u64,
    host_addr: u64,
    translation: ProgramResult,
    later: Seq<MemoryRegion>,
)
    requires
        before.consistent(),
        after.consistent(),
        after.same_setup(before),
        before.may_translate(
            AccessType::Store,
            vm_addr,
            T::spec_size() as u64,
            ProgramResult::Success(host_addr),
            after.regions(),
        ),
        host.holds(host_addr as int, T::spec_size() as int),
        stored.spec_byte_order() == host.spec_byte_order(),
        stored@ == spec_stored(
            host@,
            ProgramResult::Success(host_addr),
            pod_bytes(value, host.spec_byte_order()),
        ),
        after.may_translate(
            AccessType::Load,
            vm_addr,
            T::spec_size() as u64,
            translation,
            later,
        ),
    ensures
        later == after.regions(),
        spec_loaded(
            stored@,
            stored.spec_byte_order(),
            translation,
            T::spec_size(),
        ) == ProgramResult::Success(value.spec_number() as u64),
{
    law_load_finds_the_store(
        before,
        after,
        vm_addr,
        T::spec_size() as u64,
        host_addr,
        translation,
        later,
    );
    host.lemma_holds_parts(host_addr as int, T::spec_size() as int);
    law_pod_round_trip(value, host.spec_byte_order());
    law_read_after_write(host@, host_addr as int, pod_bytes(value, host.spec_byte_order()));
}

/// A store changes the bytes at its host address and no other, and none if it fails.
pub proof fn law_store_is_local(
    memory: Map<int, u8>,
    result: ProgramResult,
    bytes: Seq<u8>,
    addr: int,
)
    ensures
        spec_stored(memory, result, bytes).dom() == memory.dom(),
        result is Failure ==> spec_stored(memory, result, bytes) == memory,
        memory.dom().contains(addr) && !(result matches ProgramResult::Success(host_addr)
            && host_addr <= addr < host_addr + bytes.len()) ==> spec_stored(
            memory,
            result,
            bytes,
        )[addr] == memory[addr],
{
    assert(spec_stored(memory, result, bytes).dom() =~= memory.dom());
}

/// An access to a region with gaps that touches a byte of a gap is a violation.
pub proof fn law_gap_access_is_a_violation<'a, H>(
    mapping: MemoryMapping<'a, H>,
    access_type: AccessType,
    vm_addr: u64,
    len: u64,
    k: int,
)
    requires
        !(mapping is Identity),
        mapping.spec_find(vm_addr) matches Some(index) && {
            let region = mapping.regions()[index];
            &&& region.vm_addr <= vm_addr
            &&& is_in_gap(region.vm_gap_shift, vm_addr - region.vm_addr + k)
        },
        0 <= k < len,
    ensures
        mapping.spec_map(access_type, vm_addr, len) == ProgramResult::Failure(
            mapping.spec_violation(access_type, vm_addr, len),
        ),
{
    let index = mapping.spec_find(vm_addr)->0;
    law_no_translation(mapping.regions()[index], access_type, vm_addr, len, k);
}

/// An address that maps lands inside of the host range of the region that was looked up.
pub proof fn law_map_in_bounds<'a, H>(
    mapping: MemoryMapping<'a, H>,
    access_type: AccessType,
    vm_addr: u64,
    len: u64,
    host_addr: u64,
)
    requires
        mapping.well_formed(),
        !(mapping is Identity),
        forall|i: int|
            0 <= i < mapping.regions().len() ==> (
            #[trigger] mapping.regions()[i]).host_range_fits(),
        mapping.spec_map(access_type, vm_addr, len) == ProgramResult::Success(host_addr),
    ensures
        mapping.spec_find(vm_addr) matches Some(index) && {
            let region = mapping.regions()[index];
            &&& 0 <= index < mapping.regions().len()
            &&& region.host_addr <= host_addr
            &&& host_addr + len <= region.host_addr + region.len
        },
{
    lemma_find_in_bounds(mapping, vm_addr);
    let index = mapping.spec_find(vm_addr)->0;
    law_translation_in_bounds(mapping.regions()[index], access_type, vm_addr, len);
}

/// Where no region is looked up, every access is a violation; the identity permits everything.
pub proof fn law_unmapped_access<'a, H>(
    mapping: MemoryMapping<'a, H>,
    access_type: AccessType,
    vm_addr: u64,
    len: u64,
)
    requires
        mapping.spec_find(vm_addr) is None,
    ensures
        mapping.spec_map(access_type, vm_addr, len) == (if mapping is Identity {
            ProgramResult::Success(vm_addr)
        } else {
            ProgramResult::Failure(mapping.spec_violation(access_type, vm_addr, len))
        }),
{
}

/// In a created mapping, the ranges of no two regions share an address, and a region whose range
/// holds an address is the one that is looked up.
pub proof fn law_ranges_are_disjoint(regions: Seq<MemoryRegion>, index: int, vm_addr: u64)
    requires
        disjoint_in_order(regions),
        ascending(start_addresses(regions)),
        0 <= index < regions.len(),
        regions[index].in_range(vm_addr),
    ensures
        last_at_or_below(start_addresses(regions), vm_addr) == Some(index),
        forall|other: int|
            0 <= other < regions.len() && (#[trigger] regions[other]).in_range(vm_addr) ==> other
                == index,
{
    lemma_unique_owner(regions, index, vm_addr);
    assert forall|other: int|
        0 <= other < regions.len() && (#[trigger] regions[other]).in_range(vm_addr) implies other
        == index by {
        lemma_unique_owner(regions, other, vm_addr);
    }
}

/// The region whose range holds an address is the one that is looked up. In an aligned mapping, the
/// address must lie in the part of the address space that belongs to the region.
pub proof fn law_owner_is_found<'a, H>(mapping: MemoryMapping<'a, H>, index: int, vm_addr: u64)
    requires
        mapping.well_formed(),
        mapping.consistent(),
        0 <= index < mapping.regions().len(),
        mapping.regions()[index].in_range(vm_addr),
        mapping is Aligned ==> index > 0 && slot_of(vm_addr as int) == index,
    ensures
        mapping.spec_find(vm_addr) == Some(index),
{
    if let MemoryMapping::Unaligned(m) = mapping {
        lemma_search_addresses_ascend(m);
        lemma_unique_owner(m.regions(), index, vm_addr);
    }
}

/// In version four, and wherever the configuration asks for it, a created mapping is aligned.
pub proof fn law_created_kind<'a, H>(
    regions: Seq<MemoryRegion>,
    config: Config,
    sbpf_version: SBPFVersion,
    handler: H,
    mapping: MemoryMapping<'a, H>,
)
    requires
        spec_created(
            regions,
            config,
            sbpf_version,
            handler,
            Ok::<MemoryMapping<'a, H>, EbpfError>(mapping),
        ),
    ensures
        mapping is Aligned <==> sbpf_version is V4 || config.aligned_memory_mapping,
        mapping is Unaligned <==> !(mapping is Aligned),
        mapping.well_formed(),
        mapping.consistent(),
{
}

/// Replacing a region changes nothing for an address that looks up another region.
pub proof fn law_replacement_is_local<'a, H>(
    before: MemoryMapping<'a, H>,
    after: MemoryMapping<'a, H>,
    index: int,
    region: MemoryRegion,
    access_type: AccessType,
    vm_addr: u64,
    len: u64,
)
    requires
        before.well_formed(),
        after.same_setup(before),
        0 <= index < before.regions().len(),
        after.regions() == before.regions().update(index, region),
        before.spec_find(vm_addr) != Some(index),
    ensures
        after.spec_map(access_type, vm_addr, len) == before.spec_map(access_type, vm_addr, len),
{
    lemma_find_in_bounds(before, vm_addr);
}

/// A created mapping holds each given region as often as it was given, in ascending order of their
/// addresses, and no other one. Only an aligned mapping has one more: an empty one, at address zero,
/// in front.
pub proof fn law_created_mapping_holds_the_regions<'a, H>(
    regions: Vec<MemoryRegion>,
    config: &'a Config,
    sbpf_version: SBPFVersion,
    handler: H,
    result: Result<MemoryMapping<'a, H>, EbpfError>,
)
    requires
        call_ensures(
            MemoryMapping::<'a, H>::new_with_access_violation_handler,
            (regions, config, sbpf_version, handler),
            result,
        ),
    ensures
        result matches Ok(mapping) ==> {
            let mapped = mapping.regions();
            let aligned = sbpf_version is V4 || config.aligned_memory_mapping;
            let held = if aligned {
                mapped.skip(1)
            } else {
                mapped
            };
            &&& aligned ==> {
                &&& mapping matches MemoryMapping::Aligned(m)
                &&& m.handler() == handler && m.config() == *config && m.sbpf_version()
                    == sbpf_version
                &&& mapped.len() == regions@.len() + 1
                &&& mapped[0].vm_addr == 0 && mapped[0].len == 0 && !mapped[0].writable
                &&& forall|i: int|
                    0 <= i < mapped.len() ==> (#[trigger] mapped[i]).vm_addr as int
                        / 0x1_0000_0000 == i
            }
            &&& !aligned ==> {
                &&& mapping matches MemoryMapping::Unaligned(m)
                &&& m.handler() == handler && m.config() == *config && m.sbpf_version()
                    == sbpf_version
                &&& forall|i: int, j: int|
                    0 <= i < j < mapped.len() ==> (#[trigger] mapped[i]).vm_addr <= (
                    #[trigger] mapped[j]).vm_addr
                &&& forall|i: int|
                    0 < i < mapped.len() ==> mapped[i - 1].spec_end() <= (
                    #[trigger] mapped[i]).vm_addr
            }
            &&& held.to_multiset() == regions@.to_multiset()
            &&& mapping.well_formed()
            &&& mapping.consistent()
        },
{
    let sorted = sorted_regions(regions@);
    law_sorted_regions(regions@, 0);
    if let Ok(mapping) = result {
        lemma_first_overlap(sorted, 1);
        if let MemoryMapping::Aligned(m) = mapping {
            let addresses = seq![0u64] + start_addresses(sorted);
            lemma_all_placed(addresses, 0);
            assert forall|i: int| 0 <= i < m.regions().len() implies (
            #[trigger] m.regions()[i]).vm_addr as int / 0x1_0000_0000 == i by {
                if i > 0 {
                    assert(m.regions().skip(1)[i - 1] == m.regions()[i]);
                    assert(addresses[i] == sorted[i - 1].vm_addr);
                }
            }
        }
    }
}

proof fn lemma_all_placed(addresses: Seq<u64>, index: nat)
    requires
        first_misplaced(addresses, index) is None,
    ensures
        forall|i: int|
            index <= i < addresses.len() ==> #[trigger] addresses[i] as int / 0x1_0000_0000 == i,
    decreases addresses.len() - index,
{
    if index < addresses.len() {
        lemma_all_placed(addresses, index + 1);
    }
}

proof fn lemma_misplaced_is_first(addresses: Seq<u64>, index: nat)
    ensures
        first_misplaced(addresses, index) matches Some(found) ==> {
            &&& index <= found < addresses.len()
            &&& addresses[found as int] as int / 0x1_0000_0000 != found
            &&& forall|i: int|
                index <= i < found ==> #[trigger] addresses[i] as int / 0x1_0000_0000 == i
        },
    decreases addresses.len() - index,
{
    if index < addresses.len() {
        lemma_misplaced_is_first(addresses, index + 1);
    }
}

proof fn lemma_overlap_is_first(regions: Seq<MemoryRegion>, index: nat)
    requires
        index >= 1,
    ensures
        first_overlap(regions, index) matches Some(found) ==> {
            &&& index <= found < regions.len()
            &&& regions[found - 1].spec_end() > regions[found as int].vm_addr
            &&& forall|i: int|
                index <= i < found ==> regions[i - 1].spec_end() <= (#[trigger] regions[i]).vm_addr
        },
    decreases regions.len() - index,
{
    if index < regions.len() {
        lemma_overlap_is_first(regions, index + 1);
    }
}

/// A mapping is only refused for a region that does not fit, and names the first one of these in the
/// ascending order of the addresses, which keeps the order of regions that start at the same address:
/// one that is not in the part of the address space with its number, if the mapping is to be aligned,
/// else one that starts before the region in front of it ends.
pub proof fn law_refused_mapping_names_the_misfit<'a, H>(
    regions: Vec<MemoryRegion>,
    config: &'a Config,
    sbpf_version: SBPFVersion,
    handler: H,
    error: EbpfError,
)
    requires
        call_ensures(
            MemoryMapping::<'a, H>::new_with_access_violation_handler,
            (regions, config, sbpf_version, handler),
            Err::<MemoryMapping<'a, H>, EbpfError>(error),
        ),
        regions@.len() < usize::MAX,
    ensures
        error matches EbpfError::InvalidMemoryRegion(index) && exists|ordered: Seq<MemoryRegion>|
            {
                &&& #[trigger] ordered.to_multiset() == regions@.to_multiset()
                &&& ordered.len() == regions@.len()
                &&& forall|i: int, j: int|
                    0 <= i < j < ordered.len() ==> (#[trigger] ordered[i]).vm_addr <= (
                    #[trigger] ordered[j]).vm_addr
                &&& forall|vm_addr: u64|
                    starting_at(ordered, vm_addr) == #[trigger] starting_at(regions@, vm_addr)
                &&& if sbpf_version is V4 || config.aligned_memory_mapping {
                    &&& 1 <= index <= ordered.len()
                    &&& ordered[index - 1].vm_addr as int / 0x1_0000_0000 != index
                    &&& forall|i: int|
                        0 <= i < index - 1 ==> (#[trigger] ordered[i]).vm_addr as int
                            / 0x1_0000_0000 == i + 1
                } else {
                    &&& 1 <= index < ordered.len()
                    &&& ordered[index - 1].spec_end() > ordered[index as int].vm_addr
                    &&& forall|i: int|
                        0 < i < index ==> ordered[i - 1].spec_end() <= (
                        #[trigger] ordered[i]).vm_addr
                }
            },
{
    let sorted = sorted_regions(regions@);
    assert forall|vm_addr: u64|
        starting_at(sorted, vm_addr) == #[trigger] starting_at(regions@, vm_addr) by {
        law_sorted_regions(regions@, vm_addr);
    }
    law_sorted_regions(regions@, 0);
    if sbpf_version is V4 || config.aligned_memory_mapping {
        let addresses = seq![0u64] + start_addresses(sorted);
        lemma_misplaced_is_first(addresses, 0);
        let index = first_misplaced(addresses, 0)->0;
        assert(addresses[index as int] == sorted[index - 1].vm_addr);
        assert forall|i: int| 0 <= i < index - 1 implies (#[trigger] sorted[i]).vm_addr as int
            / 0x1_0000_0000 == i + 1 by {
            assert(addresses[i + 1] == sorted[i].vm_addr);
        }
    } else {
        lemma_overlap_is_first(sorted, 1);
    }
    assert(sorted.to_multiset() == regions@.to_multiset());
}

/// An aligned mapping gives the region with the number of the part of the address space in which the
/// address lies, and none for the first part.
pub proof fn law_aligned_lookup<'a, H>(
    mapping: &AlignedMemoryMapping<'a, H>,
    vm_addr: u64,
    found: Option<(usize, &MemoryRegion)>,
)
    requires
        call_ensures(AlignedMemoryMapping::<'a, H>::find_region, (mapping, vm_addr), found),
    ensures
        found is Some <==> 1 <= vm_addr as int / 0x1_0000_0000 < mapping.regions().len(),
        found matches Some((index, region)) ==> {
            &&& index == vm_addr as int / 0x1_0000_0000
            &&& *region == mapping.regions()[index as int]
        },
{
}

/// A consistent unaligned mapping gives the last region that starts at or before the address.
pub proof fn law_unaligned_lookup<'a, H>(
    mapping: &UnalignedMemoryMapping<'a, H>,
    vm_addr: u64,
    found: Option<(usize, &MemoryRegion)>,
)
    requires
        mapping.consistent(),
        call_ensures(UnalignedMemoryMapping::<'a, H>::find_region, (mapping, vm_addr), found),
    ensures
        match found {
            Some((index, region)) => {
                &&& index < mapping.regions().len()
                &&& *region == mapping.regions()[index as int]
                &&& region.vm_addr <= vm_addr
                &&& forall|i: int|
                    index < i < mapping.regions().len() ==> vm_addr < (
                    #[trigger] mapping.regions()[i]).vm_addr
            },
            None => forall|i: int|
                0 <= i < mapping.regions().len() ==> vm_addr < (
                #[trigger] mapping.regions()[i]).vm_addr,
        },
{
    let keys = start_addresses(mapping.regions());
    law_last_at_or_below(keys, vm_addr);
    assert forall|i: int| 0 <= i < keys.len() implies keys[i] == (
    #[trigger] mapping.regions()[i]).vm_addr by {}
}

/// A mapping translates an access exactly as the region that it looks up does, and reports a
/// violation where there is no such region or the region does not translate the access.
pub proof fn law_map_follows_the_region<'a, H>(
    mapping: &MemoryMapping<'a, H>,
    access_type: AccessType,
    vm_addr: u64,
    len: u64,
    found: Option<(usize, &MemoryRegion)>,
    host_addr: Option<u64>,
    result: ProgramResult,
)
    requires
        mapping.consistent(),
        call_ensures(MemoryMapping::<'a, H>::find_region, (mapping, vm_addr), found),
        found matches Some((_, region)) ==> call_ensures(
            MemoryRegion::vm_to_host,
            (region, access_type, vm_addr, len),
            host_addr,
        ),
        call_ensures(MemoryMapping::<'a, H>::map, (mapping, access_type, vm_addr, len), result),
    ensures
        mapping is Identity ==> result == ProgramResult::Success(vm_addr),
        !(mapping is Identity) ==> match found {
            Some(_) => match host_addr {
                Some(host_addr) => result == ProgramResult::Success(host_addr),
                None => result is Failure,
            },
            None => result is Failure,
        },
        result matches ProgramResult::Failure(error) ==> match error {
            EbpfError::AccessViolation(kind, addr, size, _) => kind == access_type && addr
                == vm_addr && size == len,
            EbpfError::StackAccessViolation(kind, addr, size, _) => kind == access_type && addr
                == vm_addr && size == len,
            _ => false,
        },
        result matches ProgramResult::Failure(error) ==> match *mapping {
            MemoryMapping::Aligned(m) => error == access_violation(
                m.config(),
                m.sbpf_version(),
                access_type,
                vm_addr,
                len,
            ),
            MemoryMapping::Unaligned(m) => error == access_violation(
                m.config(),
                m.sbpf_version(),
                access_type,
                vm_addr,
                len,
            ),
            MemoryMapping::Identity => false,
        },
{
}

/// A writable continuous region of a mapping can be written to, and read from, exactly where its
/// bytes are.
pub proof fn law_writable_memory_is_mapped<'a, H>(
    mapping: &MemoryMapping<'a, H>,
    index: int,
    access_type: AccessType,
    vm_addr: u64,
    len: u64,
    result: ProgramResult,
)
    requires
        mapping.well_formed(),
        mapping.consistent(),
        0 <= index < mapping.regions().len(),
        mapping is Aligned ==> index > 0 && vm_addr as int / 0x1_0000_0000 == index,
        mapping.regions()[index].writable,
        mapping.regions()[index].vm_gap_shift == 63,
        mapping.regions()[index].host_addr + mapping.regions()[index].len <= u64::MAX,
        mapping.regions()[index].len <= isize::MAX,
        mapping.regions()[index].vm_addr <= vm_addr < u64::MAX,
        len > 0,
        vm_addr + len <= mapping.regions()[index].vm_addr + mapping.regions()[index].len,
        call_ensures(MemoryMapping::<'a, H>::map, (mapping, access_type, vm_addr, len), result),
    ensures
        result == ProgramResult::Success(
            (mapping.regions()[index].host_addr + (vm_addr
                - mapping.regions()[index].vm_addr)) as u64,
        ),
{
    let region = mapping.regions()[index];
    law_range_size(region, vm_addr);
    law_owner_is_found(*mapping, index, vm_addr);
    law_writable_region(region, access_type, vm_addr, len);
}

/// A violation is one of a stack frame exactly if the program does not move its frames itself and
/// the address lies in one of the frames, or at most one frame outside of them on either side. It
/// then names the frame, counted from the start of the stack; else it names the part of the address
/// space. Addresses count as signed numbers, which end where they cannot be lower. Frames must have a
/// size, and both their size and the call depth must be in the range of signed numbers.
pub proof fn law_violation_names_the_place(
    config: Config,
    sbpf_version: SBPFVersion,
    access_type: AccessType,
    vm_addr: u64,
    len: u64,
    frame: int,
    distance: int,
)
    requires
        0 < config.stack_frame_size <= i64::MAX,
        config.max_call_depth < i64::MAX,
        ({
            let place = if vm_addr <= i64::MAX {
                vm_addr as int
            } else {
                vm_addr - 0x1_0000_0000_0000_0000
            };
            let offset = if place - 0x2_0000_0000 < i64::MIN {
                i64::MIN as int
            } else {
                place - 0x2_0000_0000
            };
            // The quotient is rounded towards zero.
            &&& offset == frame * config.stack_frame_size + distance
            &&& offset >= 0 ==> 0 <= distance < config.stack_frame_size
            &&& offset < 0 ==> -config.stack_frame_size < distance <= 0
        }),
    ensures
        access_violation(config, sbpf_version, access_type, vm_addr, len) == if sbpf_version !is V1
            && sbpf_version !is V2 && -1 <= frame <= config.max_call_depth {
            EbpfError::StackAccessViolation(access_type, vm_addr, len, frame as i64)
        } else {
            EbpfError::AccessViolation(access_type, vm_addr, len, part_name(vm_addr))
        },
{
    let size = config.stack_frame_size as int;
    let offset = clamp_i64(signed_of(vm_addr as int) - 0x2_0000_0000);
    if offset >= 0 {
        vstd::arithmetic::div_mod::lemma_fundamental_div_mod_converse(
            offset,
            size,
            frame,
            distance,
        );
    } else {
        assert(-offset == (-frame) * size + (-distance)) by (nonlinear_arith)
            requires
                offset == frame * size + distance,
        ;
        vstd::arithmetic::div_mod::lemma_fundamental_div_mod_converse(
            -offset,
            size,
            -frame,
            -distance,
        );
    }
    assert(stack_frame_of(config, vm_addr) == frame);
    law_names_of_parts(vm_addr);
}

/// Name of the part of the address space that starts before the address
pub open spec fn part_name(vm_addr: u64) -> &'static str {
    if vm_addr < 0x1_0000_0000 {
        "unknown"
    } else if vm_addr < 0x2_0000_0000 {
        "program"
    } else if vm_addr < 0x3_0000_0000 {
        "stack"
    } else if vm_addr < 0x4_0000_0000 {
        "heap"
    } else if vm_addr < 0x5_0000_0000 {
        "input"
    } else {
        "unknown"
    }
}

/// Each part of the address space has its name: the program, the stack, the heap and the input follow
/// each other, and all that is in front or behind is unknown.
pub proof fn law_names_of_parts(vm_addr: u64)
    ensures
        region_name_of(vm_addr) == part_name(vm_addr),
{
}

/// Where frames have no size, every address belongs to the first one.
pub proof fn law_violation_without_frames(
    config: Config,
    sbpf_version: SBPFVersion,
    access_type: AccessType,
    vm_addr: u64,
    len: u64,
)
    requires
        config.stack_frame_size == 0,
        config.max_call_depth < i64::MAX,
    ensures
        access_violation(config, sbpf_version, access_type, vm_addr, len) == if sbpf_version !is V1
            && sbpf_version !is V2 {
            EbpfError::StackAccessViolation(access_type, vm_addr, len, 0)
        } else {
            EbpfError::AccessViolation(access_type, vm_addr, len, part_name(vm_addr))
        },
{
    law_names_of_parts(vm_addr);
}

/// A mapping reports violations by its own settings and version.
pub proof fn law_violation_of_a_mapping<'a, H>(
    mapping: MemoryMapping<'a, H>,
    access_type: AccessType,
    vm_addr: u64,
    len: u64,
)
    ensures
        mapping matches MemoryMapping::Aligned(m) ==> mapping.spec_violation(
            access_type,
            vm_addr,
            len,
        ) == access_violation(m.config(), m.sbpf_version(), access_type, vm_addr, len),
        mapping matches MemoryMapping::Unaligned(m) ==> mapping.spec_violation(
            access_type,
            vm_addr,
            len,
        ) == access_violation(m.config(), m.sbpf_version(), access_type, vm_addr, len),
{
}

/// What becomes of an access in a consistent mapping, where the handler gives `handled` if it is
/// called. A region that translates the access is left alone. One that does not is handed to the
/// handler, together with its distance to the next region, or to the end of the address space behind
/// the last one. The access then goes through exactly if the outcome translates it, still starts at
/// the same address, and ends before the next region.
#[verifier::spinoff_prover]
pub proof fn law_handled_access<'a, H: AccessViolationHandler>(
    mapping: MemoryMapping<'a, H>,
    access_type: AccessType,
    vm_addr: u64,
    len: u64,
    found: Option<int>,
    handled: MemoryRegion,
    result: ProgramResult,
    after: Seq<MemoryRegion>,
)
    requires
        mapping.well_formed(),
        mapping.consistent(),
        !(mapping is Identity),
        mapping.translates(access_type, vm_addr, len, found, handled, result, after),
    ensures
        found == mapping.spec_find(vm_addr),
        match found {
            None => {
                &&& result == ProgramResult::Failure(
                    mapping.spec_violation(access_type, vm_addr, len),
                )
                &&& after == mapping.regions()
            },
            Some(index) => {
                let region = mapping.regions()[index];
                let limit = if index + 1 < mapping.regions().len() {
                    mapping.regions()[index + 1].vm_addr
                } else {
                    u64::MAX
                };
                let max_len = (if limit < region.vm_addr {
                    0
                } else {
                    limit - region.vm_addr
                }) as u64;
                match region.spec_vm_to_host(access_type, vm_addr, len) {
                    Some(host_addr) => {
                        &&& result == ProgramResult::Success(host_addr)
                        &&& after == mapping.regions()
                    },
                    None => {
                        &&& mapping matches MemoryMapping::Aligned(m) ==> m.handler().may_yield(
                            region,
                            max_len,
                            access_type,
                            vm_addr,
                            len,
                            handled,
                        )
                        &&& mapping matches MemoryMapping::Unaligned(m) ==> m.handler().may_yield(
                            region,
                            max_len,
                            access_type,
                            vm_addr,
                            len,
                            handled,
                        )
                        &&& match handled.spec_vm_to_host(access_type, vm_addr, len) {
                            None => {
                                &&& result == ProgramResult::Failure(
                                    mapping.spec_violation(access_type, vm_addr, len),
                                )
                                &&& after == mapping.regions()
                            },
                            Some(host_addr) => if handled.vm_addr == region.vm_addr
                                && handled.spec_end() <= limit && (mapping is Aligned
                                ==> region_is_in_part(handled, index)) {
                                &&& result == ProgramResult::Success(host_addr)
                                &&& after == mapping.regions().update(index, handled)
                            } else {
                                &&& result == ProgramResult::Failure(
                                    EbpfError::InvalidMemoryRegion(index as usize),
                                )
                                &&& after == mapping.regions()
                            },
                        }
                    },
                }
            },
        },
{
    lemma_find_in_bounds(mapping, vm_addr);
    if let Some(index) = found {
        law_replaceable(mapping, index, handled);
        law_range_size(handled, 0);
    }
}

/// Do the first and the last byte of the region lie in the part of the address space with the number
/// `part`
pub open spec fn region_is_in_part(region: MemoryRegion, part: int) -> bool {
    &&& 0x1_0000_0000 * part <= region.vm_addr < 0x1_0000_0000 * (part + 1)
    &&& region.len > 1 ==> region.vm_addr + region.len - 1 < 0x1_0000_0000 * (part + 1) || part
        == 0xffff_ffff
}

/// A region can be replaced exactly if there is one at the index, the new one starts at the same
/// address, and it ends before the next one starts. In an aligned mapping, it must also stay in its
/// part of the address space.
#[verifier::spinoff_prover]
pub proof fn law_replaceable<'a, H>(
    mapping: MemoryMapping<'a, H>,
    index: int,
    region: MemoryRegion,
)
    ensures
        mapping.can_replace(index, region) <==> {
            &&& 0 <= index < mapping.regions().len()
            &&& region.vm_addr == mapping.regions()[index].vm_addr
            &&& index + 1 < mapping.regions().len() ==> region.spec_end()
                <= mapping.regions()[index + 1].vm_addr
            &&& mapping is Aligned ==> region_is_in_part(region, index)
        },
{
    law_range_size(region, 0);
    if mapping is Aligned && 0 <= index {
        let last = region.vm_addr + if region.len == 0 {
            0
        } else {
            region.len - 1
        };
        assert(region_is_in_part(region, index) <==> fits_slot(region, index)) by {
            assert(slot_of(region.vm_addr as int) == index <==> 0x1_0000_0000 * index
                <= region.vm_addr < 0x1_0000_0000 * (index + 1));
            assert(slot_of(clamp_u64(last)) == index <==> 0x1_0000_0000 * index <= clamp_u64(last)
                < 0x1_0000_0000 * (index + 1));
        }
    }
}

/// A load that is translated gives the number whose bytes lie at the host address, from the lowest to
/// the highest one or the other way round. A load that is not gives the reason.
pub proof fn law_loaded_number(
    memory: Map<int, u8>,
    order: ByteOrder,
    host_addr: u64,
    size: nat,
    error: EbpfError,
    i: int,
)
    requires
        1 <= size <= 8,
        0 <= i < size,
    ensures
        spec_loaded(memory, order, ProgramResult::Failure(error), size)
            == ProgramResult::Failure(error),
        spec_loaded(memory, order, ProgramResult::Success(host_addr), size) matches
            ProgramResult::Success(number) && number < pow256(size) && number as int / pow256(
            i as nat,
        ) as int % 256 == if order is Little {
            memory[host_addr + i]
        } else {
            memory[host_addr + (size - 1 - i)]
        },
{
    let bytes = bytes_at(memory, host_addr as int, size);
    let low_first = in_order(bytes, order);
    lemma_in_order_twice(bytes, order);
    lemma_le_value_bound(low_first);
    lemma_pow256_values();
    lemma_pow256_increases(size, 8);
    law_digit_of_value(low_first, i as nat);
}

/// A store that is translated leaves the bytes of the number behind at the host address, from the
/// lowest to the highest one or the other way round. A negative number is that of its two's
/// complement.
pub proof fn law_stored_number<T: Pod>(
    memory: Map<int, u8>,
    order: ByteOrder,
    host_addr: u64,
    value: T,
    i: int,
)
    requires
        1 <= T::spec_size() <= 8,
        0 <= i < T::spec_size(),
        memory.dom().contains(
            host_addr + if order is Little {
                i
            } else {
                T::spec_size() - 1 - i
            },
        ),
    ensures
        spec_stored(
            memory,
            ProgramResult::Success(host_addr),
            pod_bytes(value, order),
        )[host_addr + if order is Little {
            i
        } else {
            T::spec_size() - 1 - i
        }] == value.spec_number() / pow256(i as nat) as int % 256,
{
    law_pod_byte(value, order, i as nat);
    let number = (value.spec_number() % 0x1_0000_0000_0000_0000) as nat;
    lemma_le_bytes_len(number, T::spec_size());
}

/// A region fits a part of the address space exactly if its first and its last byte lie there.
pub proof fn law_fitting_region(region: MemoryRegion, part: int)
    requires
        0 <= part,
    ensures
        fits_slot(region, part) <==> region_is_in_part(region, part),
{
    let last = region.vm_addr + if region.len == 0 {
        0
    } else {
        region.len - 1
    };
    assert(slot_of(region.vm_addr as int) == part <==> 0x1_0000_0000 * part <= region.vm_addr
        < 0x1_0000_0000 * (part + 1));
    assert(slot_of(clamp_u64(last)) == part <==> 0x1_0000_0000 * part <= clamp_u64(last)
        < 0x1_0000_0000 * (part + 1));
}

/// In an unaligned mapping, a lookup gives the last region that starts at or before the address when
/// the regions were mapped, or after a replacement any one whose range holds the address.
pub proof fn law_lookup_after_replacement<'a, H>(
    mapping: UnalignedMemoryMapping<'a, H>,
    vm_addr: u64,
    index: int,
)
    requires
        mapping.may_find(vm_addr, Some(index)),
    ensures
        ({
            let keys = mapping.search_addresses();
            ||| {
                &&& 0 <= index < keys.len()
                &&& keys[index] <= vm_addr
                &&& forall|i: int| index < i < keys.len() ==> vm_addr < #[trigger] keys[i]
            }
            ||| {
                &&& 0 <= index < mapping.regions().len()
                &&& mapping.regions()[index].vm_addr <= vm_addr < mapping.regions()[index].spec_end()
            }
        }),
{
    law_last_at_or_below(mapping.search_addresses(), vm_addr);
}

/// Replacing a region succeeds exactly if there is one at the index, the new one starts at the same
/// address, ends before the next one starts, and in an aligned mapping stays in its part of the address
/// space. It then takes the place of the old one, and all others stay as they are.
#[verifier::spinoff_prover]
pub proof fn law_replacing_regions<'a, H>(
    mapping: &mut MemoryMapping<'a, H>,
    index: usize,
    region: MemoryRegion,
    result: Result<(), EbpfError>,
    other: int,
)
    requires
        call_ensures(MemoryMapping::<'a, H>::replace_region, (mapping, index, region), result),
    ensures
        ({
            let before = old(mapping).regions();
            let after = final(mapping).regions();
            &&& after.len() == before.len()
            &&& result is Ok <==> {
                &&& index < before.len()
                &&& region.vm_addr == before[index as int].vm_addr
                &&& index + 1 < before.len() ==> region.spec_end() <= before[index + 1].vm_addr
                &&& *old(mapping) is Aligned ==> region_is_in_part(region, index as int)
            }
            &&& result is Ok ==> after[index as int] == region
            &&& result matches Err(error) ==> error == EbpfError::InvalidMemoryRegion(index)
            &&& 0 <= other < before.len() && (other != index || result is Err) ==> after[other]
                == before[other]
        }),
        final(mapping).same_setup(*old(mapping)),
{
    law_replaceable(*old(mapping), index as int, region);
}

/// A store to a writable continuous region of a mapping, all of whose bytes lie inside of the region,
/// takes place. It leaves the bytes of the number behind at their distance to the start of the region,
/// and all regions as they are.
#[verifier::spinoff_prover]
pub proof fn law_store_to_writable_memory<'a, H: AccessViolationHandler, T: Pod>(
    mapping: &mut MemoryMapping<'a, H>,
    host: &mut HostMemory,
    value: T,
    vm_addr: u64,
    result: ProgramResult,
    index: int,
    i: int,
)
    requires
        old(mapping).well_formed(),
        old(mapping).consistent(),
        0 <= index < old(mapping).regions().len(),
        *old(mapping) is Aligned ==> index > 0 && vm_addr as int / 0x1_0000_0000 == index,
        1 <= T::spec_size() <= 8,
        ({
            let region = old(mapping).regions()[index];
            &&& region.writable
            &&& region.vm_gap_shift == 63
            &&& region.host_addr + region.len <= u64::MAX
            &&& region.len <= isize::MAX
            &&& region.vm_addr <= vm_addr < u64::MAX
            &&& vm_addr + T::spec_size() <= region.vm_addr + region.len
            &&& old(host).holds(
                region.host_addr + (vm_addr - region.vm_addr),
                T::spec_size() as int,
            )
        }),
        0 <= i < T::spec_size(),
        call_ensures(
            MemoryMapping::<'a, H>::store::<T>,
            (mapping, host, value, vm_addr),
            result,
        ),
    ensures
        ({
            let region = old(mapping).regions()[index];
            let host_addr = region.host_addr + (vm_addr - region.vm_addr);
            &&& result == ProgramResult::Success(host_addr as u64)
            &&& final(host)@[host_addr + if old(host).spec_byte_order() is Little {
                i
            } else {
                T::spec_size() - 1 - i
            }] == value.spec_number() / pow256(i as nat) as int % 256
        }),
        final(mapping).regions() == old(mapping).regions(),
{
    let region = old(mapping).regions()[index];
    let host_addr = region.host_addr + (vm_addr - region.vm_addr);
    let size = T::spec_size();
    lemma_region_is_mapped(*old(mapping), index, AccessType::Store, vm_addr, size as u64);
    lemma_permitted_store(
        *old(mapping),
        *old(host),
        final(host)@,
        value,
        vm_addr,
        host_addr as u64,
        result,
        final(mapping).regions(),
        i,
    );
}

/// A load from a continuous region of a mapping, all of whose bytes lie inside of the region, gives the
/// number in the bytes at their distance to the start of the region, and leaves all regions as they
/// are.
#[verifier::spinoff_prover]
pub proof fn law_load_from_memory<'a, H: AccessViolationHandler, T: UnsignedPod>(
    mapping: &mut MemoryMapping<'a, H>,
    host: &HostMemory,
    vm_addr: u64,
    result: ProgramResult,
    index: int,
    i: int,
)
    requires
        old(mapping).well_formed(),
        old(mapping).consistent(),
        0 <= index < old(mapping).regions().len(),
        *old(mapping) is Aligned ==> index > 0 && vm_addr as int / 0x1_0000_0000 == index,
        1 <= T::spec_size() <= 8,
        ({
            let region = old(mapping).regions()[index];
            &&& region.vm_gap_shift == 63
            &&& region.host_addr + region.len <= u64::MAX
            &&& region.len <= isize::MAX
            &&& region.vm_addr <= vm_addr < u64::MAX
            &&& vm_addr + T::spec_size() <= region.vm_addr + region.len
        }),
        0 <= i < T::spec_size(),
        call_ensures(MemoryMapping::<'a, H>::load::<T>, (mapping, host, vm_addr), result),
    ensures
        ({
            let region = old(mapping).regions()[index];
            let host_addr = region.host_addr + (vm_addr - region.vm_addr);
            result matches ProgramResult::Success(number) && number < pow256(T::spec_size())
                && number as int / pow256(i as nat) as int % 256
                == host@[host_addr + if host.spec_byte_order() is Little {
                i
            } else {
                T::spec_size() - 1 - i
            }]
        }),
        final(mapping).regions() == old(mapping).regions(),
{
    let region = old(mapping).regions()[index];
    let host_addr = region.host_addr + (vm_addr - region.vm_addr);
    let size = T::spec_size();
    lemma_region_is_mapped(*old(mapping), index, AccessType::Load, vm_addr, size as u64);
    lemma_permitted_load(
        *old(mapping),
        *host,
        vm_addr,
        size,
        host_addr as u64,
        result,
        final(mapping).regions(),
    );
    law_loaded_number(
        host@,
        host.spec_byte_order(),
        host_addr as u64,
        size,
        EbpfError::JitNotCompiled,
        i,
    );
}

/// An access that the continuous region at `index` permits is mapped to its bytes.
proof fn lemma_region_is_mapped<'a, H>(
    mapping: MemoryMapping<'a, H>,
    index: int,
    access_type: AccessType,
    vm_addr: u64,
    len: u64,
)
    requires
        mapping.well_formed(),
        mapping.consistent(),
        0 <= index < mapping.regions().len(),
        mapping is Aligned ==> index > 0 && vm_addr as int / 0x1_0000_0000 == index,
        len > 0,
        ({
            let region = mapping.regions()[index];
            &&& access_type is Load || region.writable
            &&& region.vm_gap_shift == 63
            &&& region.host_addr + region.len <= u64::MAX
            &&& region.len <= isize::MAX
            &&& region.vm_addr <= vm_addr < u64::MAX
            &&& vm_addr + len <= region.vm_addr + region.len
        }),
    ensures
        mapping.spec_map(access_type, vm_addr, len) == ProgramResult::Success(
            (mapping.regions()[index].host_addr + (vm_addr
                - mapping.regions()[index].vm_addr)) as u64,
        ),
{
    let region = mapping.regions()[index];
    law_range_size(region, vm_addr);
    law_owner_is_found(mapping, index, vm_addr);
    law_continuous_access(region, access_type, vm_addr, len);
}

/// A store that the mapping permits writes at the host address.
proof fn lemma_permitted_store<'a, H: AccessViolationHandler, T: Pod>(
    mapping: MemoryMapping<'a, H>,
    host: HostMemory,
    memory: Map<int, u8>,
    value: T,
    vm_addr: u64,
    host_addr: u64,
    result: ProgramResult,
    after: Seq<MemoryRegion>,
    i: int,
)
    requires
        mapping.consistent(),
        mapping.spec_map(AccessType::Store, vm_addr, T::spec_size() as u64)
            == ProgramResult::Success(host_addr),
        mapping.may_translate(
            AccessType::Store,
            vm_addr,
            T::spec_size() as u64,
            result,
            after,
        ),
        host.holds(host_addr as int, T::spec_size() as int),
        memory == spec_stored(host@, result, pod_bytes(value, host.spec_byte_order())),
        0 <= i < T::spec_size() <= 8,
    ensures
        result == ProgramResult::Success(host_addr),
        after == mapping.regions(),
        memory[host_addr + if host.spec_byte_order() is Little {
            i
        } else {
            T::spec_size() - 1 - i
        }] == value.spec_number() / pow256(i as nat) as int % 256,
{
    law_permitted_access_needs_no_handler(
        mapping,
        AccessType::Store,
        vm_addr,
        T::spec_size() as u64,
        host_addr,
        result,
        after,
    );
    host.lemma_holds_parts(host_addr as int, T::spec_size() as int);
    law_stored_number(host@, host.spec_byte_order(), host_addr, value, i);
}

/// A load that the mapping permits reads at the host address.
proof fn lemma_permitted_load<'a, H: AccessViolationHandler>(
    mapping: MemoryMapping<'a, H>,
    host: HostMemory,
    vm_addr: u64,
    size: nat,
    host_addr: u64,
    result: ProgramResult,
    after: Seq<MemoryRegion>,
)
    requires
        mapping.consistent(),
        mapping.spec_map(AccessType::Load, vm_addr, size as u64) == ProgramResult::Success(
            host_addr,
        ),
        exists|translation: ProgramResult|
            #[trigger] mapping.may_translate(
                AccessType::Load,
                vm_addr,
                size as u64,
                translation,
                after,
            ) && result == spec_loaded(host@, host.spec_byte_order(), translation, size),
    ensures
        result == spec_loaded(
            host@,
            host.spec_byte_order(),
            ProgramResult::Success(host_addr),
            size,
        ),
        after == mapping.regions(),
{
    let translation = choose|translation: ProgramResult|
        #[trigger] mapping.may_translate(
            AccessType::Load,
            vm_addr,
            size as u64,
            translation,
            after,
        ) && result == spec_loaded(host@, host.spec_byte_order(), translation, size);
    law_permitted_access_needs_no_handler(
        mapping,
        AccessType::Load,
        vm_addr,
        size as u64,
        host_addr,
        translation,
        after,
    );
}

/// Replacing a region directly keeps the addresses by which the regions are found. In an aligned
/// mapping, the new region must be in the part of the address space with its number.
pub proof fn law_replacing_directly<'a, H>(
    unaligned: &mut UnalignedMemoryMapping<'a, H>,
    aligned: &mut AlignedMemoryMapping<'a, H>,
    index: usize,
    region: MemoryRegion,
    replaced: Result<(), EbpfError>,
    placed: Result<(), EbpfError>,
)
    requires
        call_ensures(
            UnalignedMemoryMapping::<'a, H>::replace_region,
            (unaligned, index, region),
            replaced,
        ),
        call_ensures(
            AlignedMemoryMapping::<'a, H>::replace_region,
            (aligned, index, region),
            placed,
        ),
    ensures
        replaced is Ok,
        final(unaligned).regions() == old(unaligned).regions().update(index as int, region),
        final(unaligned).search_addresses() == old(unaligned).search_addresses(),
        placed is Ok <==> region_is_in_part(region, index as int),
        placed is Ok ==> final(aligned).regions() == old(aligned).regions().update(
            index as int,
            region,
        ),
        placed matches Err(error) ==> error == EbpfError::InvalidMemoryRegion(index)
            && final(aligned).regions() == old(aligned).regions(),
{
    law_fitting_region(region, index as int);
}

/// The identity maps every address to itself.
pub proof fn law_identity<'a, H>(
    mapping: &MemoryMapping<'a, H>,
    access_type: AccessType,
    vm_addr: u64,
    len: u64,
    result: ProgramResult,
    regions: &[MemoryRegion],
)
    requires
        call_ensures(MemoryMapping::<'a, H>::new_identity, (), *mapping),
        call_ensures(MemoryMapping::<'a, H>::map, (mapping, access_type, vm_addr, len), result),
        call_ensures(MemoryMapping::<'a, H>::get_regions, (mapping,), regions),
    ensures
        result == ProgramResult::Success(vm_addr),
        regions@.len() == 0,
{
}

/// The regions of a mapping are those that it was made from, in their order.
pub proof fn law_regions_of_mappings<'a, H>(
    mapping: &MemoryMapping<'a, H>,
    regions: &[MemoryRegion],
)
    requires
        call_ensures(MemoryMapping::<'a, H>::get_regions, (mapping,), regions),
    ensures
        mapping matches MemoryMapping::Aligned(m) ==> regions@ == m.regions(),
        mapping matches MemoryMapping::Unaligned(m) ==> regions@ == m.regions(),
{
}

/// A store that a mapping does not permit fails as mapping its address does, unless a handler repairs
/// something. It writes nothing and leaves all regions as they are.
pub proof fn law_refused_store<'a, T: Pod>(
    mapping: &mut MemoryMapping<'a, DefaultAccessViolationHandler>,
    host: &mut HostMemory,
    value: T,
    vm_addr: u64,
    result: ProgramResult,
    mapped: ProgramResult,
)
    requires
        old(mapping).consistent(),
        mapped is Failure,
        call_ensures(
            MemoryMapping::<'a, DefaultAccessViolationHandler>::map,
            (&*old(mapping), AccessType::Store, vm_addr, T::spec_size() as u64),
            mapped,
        ),
        call_ensures(
            MemoryMapping::<'a, DefaultAccessViolationHandler>::store::<T>,
            (mapping, host, value, vm_addr),
            result,
        ),
    ensures
        result == mapped,
        final(host)@ == old(host)@,
        final(mapping).regions() == old(mapping).regions(),
{
    law_default_handler_changes_nothing(
        *old(mapping),
        AccessType::Store,
        vm_addr,
        T::spec_size() as u64,
        result,
        final(mapping).regions(),
    );
}

} // verus!
