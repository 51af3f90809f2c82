//! Memory mappings: from virtual addresses to memory regions and host addresses.
use vstd::cell::invcell::InvCell;
use vstd::predicate::Predicate;
use vstd::prelude::*;

use crate::aligned_memory::{pod_bytes, pod_to_bytes, Pod, UnsignedPod};
use crate::arith::{
    checked_div_i64, clamp_i64, saturating_add_i64, saturating_sub_i64, signed_of, to_signed,
    truncated_div,
};
use crate::byte_order::{ordered_value, ByteOrder};
use crate::config::Config;
use crate::ebpf::{
    MM_HEAP_START, MM_INPUT_START, MM_REGION_SIZE, MM_RODATA_START, MM_STACK_START,
};
use crate::error::EbpfError;
use crate::eytzinger::{
    ascending, consecutive, construct_eytzinger_order, inorder, last_at_or_below, search,
};
use crate::host_memory::{bytes_at, with_bytes, HostMemory};
use crate::mapping_cache::{CacheEntry, MappingCache};
use crate::memory_region::{AccessType, MemoryRegion};
use crate::region_order::{sort_regions, sorted_regions};
use crate::result::{ProgramResult, StableResult};
use crate::version::SBPFVersion;

verus! {

/// Callback that may repair a region before an access to it is reported as a violation
pub trait AccessViolationHandler {
    /// May the handler leave `outcome` behind when it is given `region`. A handler that does not
    /// say so may leave anything.
    open spec fn may_yield(
        &self,
        region: MemoryRegion,
        region_max_len: u64,
        access_type: AccessType,
        vm_addr: u64,
        len: u64,
        outcome: MemoryRegion,
    ) -> bool {
        true
    }

    /// Called with a copy of the region that does not permit the access. The region can grow up to
    /// `region_max_len` bytes of virtual address space.
    fn handle(
        &self,
        region: &mut MemoryRegion,
        region_max_len: u64,
        access_type: AccessType,
        vm_addr: u64,
        len: u64,
    )
        ensures
            self.may_yield(*old(region), region_max_len, access_type, vm_addr, len, *final(region)),
    ;
}

/// Fail always
pub fn default_access_violation_handler(
    _region: &mut MemoryRegion,
    _region_max_len: u64,
    _access_type: AccessType,
    _vm_addr: u64,
    _len: u64,
)
    ensures
        *final(_region) == *old(_region),
{
}

/// Handler that repairs nothing, see [`default_access_violation_handler`]
#[derive(Clone, Copy, Debug, PartialEq, Eq)]
pub struct DefaultAccessViolationHandler;

impl AccessViolationHandler for DefaultAccessViolationHandler {
    open spec fn may_yield(
        &self,
        region: MemoryRegion,
        region_max_len: u64,
        access_type: AccessType,
        vm_addr: u64,
        len: u64,
        outcome: MemoryRegion,
    ) -> bool {
        outcome == region
    }

    fn handle(
        &self,
        region: &mut MemoryRegion,
        region_max_len: u64,
        access_type: AccessType,
        vm_addr: u64,
        len: u64,
    ) {
        default_access_violation_handler(region, region_max_len, access_type, vm_addr, len);
    }
}

/// Number of the stack frame that an address belongs to, counted from the start of the stack.
pub open spec fn stack_frame_of(config: Config, vm_addr: u64) -> int {
    let distance = clamp_i64(signed_of(vm_addr as int) - MM_STACK_START);
    let frame_size = signed_of(config.stack_frame_size as int);
    if frame_size == 0 || (distance == i64::MIN && frame_size == -1) {
        0
    } else {
        truncated_div(distance, frame_size)
    }
}

/// Name of the part of the address space that an address belongs to.
pub open spec fn region_name_of(vm_addr: u64) -> &'static str {
    let part = vm_addr as int / MM_REGION_SIZE as int;
    if part == 1 {
        "program"
    } else if part == 2 {
        "stack"
    } else if part == 3 {
        "heap"
    } else if part == 4 {
        "input"
    } else {
        "unknown"
    }
}

/// The error that reports an access as a violation.
pub open spec fn access_violation(
    config: Config,
    sbpf_version: SBPFVersion,
    access_type: AccessType,
    vm_addr: u64,
    len: u64,
) -> EbpfError {
    let frame = stack_frame_of(config, vm_addr);
    if !(sbpf_version is V1 || sbpf_version is V2) && -1 <= frame < clamp_i64(
        signed_of(config.max_call_depth as int) + 1,
    ) {
        EbpfError::StackAccessViolation(access_type, vm_addr, len, frame as i64)
    } else {
        EbpfError::AccessViolation(access_type, vm_addr, len, region_name_of(vm_addr))
    }
}

/// Common parts of [UnalignedMemoryMapping] and [AlignedMemoryMapping]
pub struct CommonMemoryMapping<'a, H> {
    /// Mapped memory regions
    regions: Vec<MemoryRegion>,
    /// Access violation handler
    access_violation_handler: H,
    /// VM configuration
    config: &'a Config,
    /// Executable sbpf_version
    sbpf_version: SBPFVersion,
}

impl<'a, H> CommonMemoryMapping<'a, H> {
    fn generate_access_violation(&self, access_type: AccessType, vm_addr: u64, len: u64) -> (result:
        ProgramResult)
        ensures
            result == ProgramResult::Failure(
                access_violation(*self.config, self.sbpf_version, access_type, vm_addr, len),
            ),
    {
        let distance: i64 = saturating_sub_i64(to_signed(vm_addr), MM_STACK_START as i64);
        let frame_size: i64 = to_signed(self.config.stack_frame_size as u64);
        let stack_frame: i64 = match checked_div_i64(distance, frame_size) {
            Some(frame) => frame,
            None => 0,
        };
        let frame_limit: i64 = saturating_add_i64(to_signed(self.config.max_call_depth as u64), 1);
        if !self.sbpf_version.dynamic_stack_frames() && -1 <= stack_frame && stack_frame
            < frame_limit {
            ProgramResult::Failure(
                EbpfError::StackAccessViolation(access_type, vm_addr, len, stack_frame),
            )
        } else {
            let part: u64 = vm_addr / MM_REGION_SIZE;
            let region_name: &'static str = if part == MM_RODATA_START / MM_REGION_SIZE {
                "program"
            } else if part == MM_STACK_START / MM_REGION_SIZE {
                "stack"
            } else if part == MM_HEAP_START / MM_REGION_SIZE {
                "heap"
            } else if part == MM_INPUT_START / MM_REGION_SIZE {
                "input"
            } else {
                "unknown"
            };
            ProgramResult::Failure(
                EbpfError::AccessViolation(access_type, vm_addr, len, region_name),
            )
        }
    }
}

/// The first region, from `index` on, that starts before the region in front of it ends.
pub open spec fn first_overlap(regions: Seq<MemoryRegion>, index: nat) -> Option<nat>
    recommends
        index >= 1,
    decreases regions.len() - index,
{
    if index >= regions.len() {
        None
    } else if regions[index - 1].spec_end() > regions[index as int].vm_addr {
        Some(index)
    } else {
        first_overlap(regions, index + 1)
    }
}

/// Does every region end before the next one starts
pub open spec fn disjoint_in_order(regions: Seq<MemoryRegion>) -> bool {
    forall|i: int|
        0 < i < regions.len() ==> regions[i - 1].spec_end() <= (#[trigger] regions[i]).vm_addr
}

/// Regions without an overlap are disjoint.
pub proof fn lemma_first_overlap(regions: Seq<MemoryRegion>, index: nat)
    requires
        index >= 1,
        forall|i: int|
            0 < i < index && i < regions.len() ==> regions[i - 1].spec_end() <= (
            #[trigger] regions[i]).vm_addr,
    ensures
        first_overlap(regions, index) is None <==> disjoint_in_order(regions),
    decreases regions.len() - index,
{
    if index < regions.len() && regions[index - 1].spec_end() <= regions[index as int].vm_addr {
        lemma_first_overlap(regions, index + 1);
    }
}

/// What a cache may remember of a list of regions: nothing, or the range of a region.
pub ghost struct CachedRanges {
    /// The regions
    pub regions: Seq<MemoryRegion>,
}

impl CachedRanges {
    /// Is the entry empty, or the range of the region that it names
    pub open spec fn entry_holds(self, entry: CacheEntry) -> bool {
        entry.start < entry.end ==> {
            &&& entry.region_index < self.regions.len()
            &&& entry.start == self.regions[entry.region_index as int].vm_addr
            &&& entry.end == self.regions[entry.region_index as int].spec_end()
        }
    }
}

impl Predicate<MappingCache> for CachedRanges {
    open spec fn predicate(&self, cache: MappingCache) -> bool {
        forall|i: int| 0 <= i < cache@.len() ==> self.entry_holds(#[trigger] cache@[i])
    }
}

/// The virtual addresses at which regions start.
pub open spec fn start_addresses(regions: Seq<MemoryRegion>) -> Seq<u64> {
    regions.map_values(|region: MemoryRegion| region.vm_addr)
}

/// Searches for a region that starts before the region in front of it ends
fn find_overlap(regions: &Vec<MemoryRegion>) -> (found: Option<usize>)
    ensures
        match found {
            Some(index) => first_overlap(regions@, 1) == Some(index as nat),
            None => first_overlap(regions@, 1) is None,
        },
{
    let mut index: usize = 1;
    while index < regions.len()
        invariant
            index >= 1,
            first_overlap(regions@, index as nat) == first_overlap(regions@, 1),
        decreases regions@.len() - index,
    {
        if regions[index - 1].vm_addr_range().end > regions[index].vm_addr {
            return Some(index);
        }
        index = index + 1;
    }
    None
}

/// The virtual addresses at which the regions start
fn collect_start_addresses(regions: &Vec<MemoryRegion>) -> (addresses: Vec<u64>)
    ensures
        addresses@ == start_addresses(regions@),
{
    let mut addresses: Vec<u64> = Vec::new();
    let mut next: usize = 0;
    while next < regions.len()
        invariant
            next <= regions@.len(),
            addresses@ == start_addresses(regions@.take(next as int)),
        decreases regions@.len() - next,
    {
        addresses.push(regions[next].vm_addr);
        next = next + 1;
        assert(addresses@ =~= start_addresses(regions@.take(next as int)));
    }
    assert(regions@.take(regions@.len() as int) =~= regions@);
    addresses
}

/// Memory mapping based on eytzinger search.
pub struct UnalignedMemoryMapping<'a, H> {
    /// Common parts
    common: CommonMemoryMapping<'a, H>,
    /// Regions vm_addr fields in Eytzinger order
    region_addresses: Vec<u64>,
    /// Converts the Eytzinger order back to the ascending order
    region_index_lookup: Vec<usize>,
    /// Cache of the last vm_addr => region_index lookups
    cache: InvCell<MappingCache, CachedRanges>,
}

impl<'a, H> UnalignedMemoryMapping<'a, H> {
    /// The search tree is intact, and the cache remembers ranges of the current regions only.
    pub closed spec fn well_formed(self) -> bool {
        &&& self.region_addresses@.len() == self.common.regions@.len()
        &&& self.region_index_lookup@.len() == self.common.regions@.len()
        &&& ascending(inorder(self.region_addresses@, 0))
        &&& inorder(self.region_index_lookup@, 0) == consecutive(0, self.common.regions@.len())
        &&& self.cache.predicate() == (CachedRanges { regions: self.common.regions@ })
    }

    /// The mapped regions.
    pub closed spec fn regions(self) -> Seq<MemoryRegion> {
        self.common.regions@
    }

    /// The addresses by which the regions are found: those at which they started when the mapping
    /// was created.
    pub closed spec fn search_addresses(self) -> Seq<u64> {
        inorder(self.region_addresses@, 0)
    }

    /// The access violation handler.
    pub closed spec fn handler(self) -> H {
        self.common.access_violation_handler
    }

    /// The configuration.
    pub closed spec fn config(self) -> Config {
        *self.common.config
    }

    /// The version of the executable.
    pub closed spec fn sbpf_version(self) -> SBPFVersion {
        self.common.sbpf_version
    }

    /// Regions are found by the addresses at which they start, and do not overlap.
    pub open spec fn consistent(self) -> bool {
        &&& self.search_addresses() == start_addresses(self.regions())
        &&& disjoint_in_order(self.regions())
    }

    /// The region that a lookup gives: the last one that starts at or before the address.
    pub open spec fn spec_find(self, vm_addr: u64) -> Option<int> {
        last_at_or_below(self.search_addresses(), vm_addr)
    }

    /// May a lookup give this region. Once a region was replaced by one that overlaps another,
    /// both can answer for an address, and which one does depends on earlier lookups.
    pub open spec fn may_find(self, vm_addr: u64, found: Option<int>) -> bool {
        ||| found == self.spec_find(vm_addr)
        ||| found matches Some(index) && 0 <= index < self.regions().len()
            && self.regions()[index].in_range(vm_addr)
    }

    /// Creates a new MemoryMapping structure from the given regions
    pub fn new_with_access_violation_handler(
        regions: Vec<MemoryRegion>,
        config: &'a Config,
        sbpf_version: SBPFVersion,
        access_violation_handler: H,
    ) -> (result: Result<Self, EbpfError>)
        requires
            sbpf_version.ordinal() <= SBPFVersion::V3.ordinal(),
        ensures
            match first_overlap(sorted_regions(regions@), 1) {
                Some(index) => result == Err::<Self, EbpfError>(
                    EbpfError::InvalidMemoryRegion(index as usize),
                ),
                None => {
                    &&& result matches Ok(mapping)
                    &&& mapping.well_formed()
                    &&& mapping.consistent()
                    &&& mapping.regions() == sorted_regions(regions@)
                    &&& mapping.handler() == access_violation_handler
                    &&& mapping.config() == *config
                    &&& mapping.sbpf_version() == sbpf_version
                },
            },
    {
        let ghost given = regions@;
        let regions: Vec<MemoryRegion> = sort_regions(regions);
        if let Some(index) = find_overlap(&regions) {
            return Err(EbpfError::InvalidMemoryRegion(index));
        }
        let keys: Vec<u64> = collect_start_addresses(&regions);
        let mut region_addresses: Vec<u64> = vec![0u64; regions.len()];
        let mut region_index_lookup: Vec<usize> = vec![0usize; regions.len()];
        proof {
            crate::eytzinger::lemma_inorder_complete(keys@);
        }
        let _end: usize = construct_eytzinger_order(
            &keys,
            &mut region_addresses,
            &mut region_index_lookup,
            0,
            0,
        );
        let cache = MappingCache::new();
        let ghost ranges = CachedRanges { regions: regions@ };
        let mapping = UnalignedMemoryMapping {
            cache: InvCell::new(cache, Ghost(ranges)),
            common: CommonMemoryMapping { regions, access_violation_handler, config, sbpf_version },
            region_addresses,
            region_index_lookup,
        };
        proof {
            crate::region_order::law_sorted_regions(given, 0);
            lemma_first_overlap(sorted_regions(given), 1);
            assert(keys@.subrange(0, keys@.len() as int) =~= keys@);
        }
        Ok(mapping)
    }

    /// Returns the `MemoryRegion` which may contain the given address.
    pub fn find_region(&self, vm_addr: u64) -> (found: Option<(usize, &MemoryRegion)>)
        requires
            self.well_formed(),
        ensures
            match found {
                Some((index, region)) => {
                    &&& self.may_find(vm_addr, Some(index as int))
                    &&& index < self.regions().len()
                    &&& *region == self.regions()[index as int]
                    &&& self.consistent() ==> self.spec_find(vm_addr) == Some(index as int)
                },
                None => self.spec_find(vm_addr) is None,
            },
    {
        let mut cache: MappingCache = self.cache.get();
        if let Some(index) = cache.find(vm_addr) {
            proof {
                crate::mapping_cache::law_first_hit(cache@, vm_addr);
                if self.consistent() {
                    lemma_unique_owner(self.regions(), index as int, vm_addr);
                }
            }
            Some((index, &self.common.regions[index]))
        } else {
            let index: usize = match search(
                &self.region_addresses,
                &self.region_index_lookup,
                vm_addr,
            ) {
                None => return None,
                Some(index) => index,
            };
            proof {
                crate::eytzinger::lemma_inorder_complete(self.region_addresses@);
                crate::eytzinger::law_last_at_or_below(self.search_addresses(), vm_addr);
            }
            let region: &MemoryRegion = &self.common.regions[index];
            let ghost before = cache@;
            cache.insert(region.vm_addr_range(), index);
            proof {
                assert forall|i: int| 0 <= i < cache@.len() implies (CachedRanges {
                    regions: self.common.regions@,
                }).entry_holds(#[trigger] cache@[i]) by {
                    if i > 0 {
                        assert(cache@[i] == before[i - 1]);
                    }
                }
            }
            self.cache.set(cache);
            Some((index, region))
        }
    }

    /// Replaces the `MemoryRegion` at the given index
    pub fn replace_region(&mut self, index: usize, region: MemoryRegion) -> (result: Result<
        (),
        EbpfError,
    >)
        requires
            old(self).well_formed(),
            index < old(self).regions().len(),
        ensures
            result is Ok,
            final(self).well_formed(),
            final(self).regions() == old(self).regions().update(index as int, region),
            final(self).search_addresses() == old(self).search_addresses(),
            final(self).handler() == old(self).handler(),
            final(self).config() == old(self).config(),
            final(self).sbpf_version() == old(self).sbpf_version(),
    {
        self.common.regions[index] = region;
        let cache = MappingCache::new();
        let ghost ranges = CachedRanges { regions: self.common.regions@ };
        self.cache = InvCell::new(cache, Ghost(ranges));
        Ok(())
    }
}

/// Where regions are disjoint and in order, a region whose range holds an address is the last one
/// that starts at or before it.
pub proof fn lemma_unique_owner(regions: Seq<MemoryRegion>, index: int, vm_addr: u64)
    requires
        disjoint_in_order(regions),
        ascending(start_addresses(regions)),
        0 <= index < regions.len(),
        regions[index].in_range(vm_addr),
    ensures
        last_at_or_below(start_addresses(regions), vm_addr) == Some(index),
{
    let keys = start_addresses(regions);
    assert forall|i: int| index + 1 <= i < keys.len() implies vm_addr < #[trigger] keys[i] by {
        assert(regions[index].spec_end() <= regions[index + 1].vm_addr);
        assert(keys[index + 1] <= keys[i]);
    }
    crate::eytzinger::lemma_last_at_or_below(keys, vm_addr, index + 1);
}

/// The part of the address space, counted from zero, that an address belongs to.
pub open spec fn slot_of(vm_addr: int) -> int {
    vm_addr / MM_REGION_SIZE as int
}

/// Do the first and the last byte of the region belong to this part of the address space
pub open spec fn fits_slot(region: MemoryRegion, slot: int) -> bool {
    let last_offset = if region.len == 0 {
        0
    } else {
        region.len - 1
    };
    &&& slot_of(region.vm_addr as int) == slot
    &&& slot_of(crate::arith::clamp_u64(region.vm_addr + last_offset)) == slot
}

/// The first address, from `index` on, that does not belong to the part of the address space with
/// its own number.
pub open spec fn first_misplaced(addresses: Seq<u64>, index: nat) -> Option<nat>
    decreases addresses.len() - index,
{
    if index >= addresses.len() {
        None
    } else if slot_of(addresses[index as int] as int) != index {
        Some(index)
    } else {
        first_misplaced(addresses, index + 1)
    }
}

proof fn lemma_first_misplaced(addresses: Seq<u64>, index: nat)
    requires
        first_misplaced(addresses, index) is None,
    ensures
        forall|i: int|
            index <= i < addresses.len() ==> slot_of(#[trigger] addresses[i] as int) == i,
    decreases addresses.len() - index,
{
    if index < addresses.len() {
        lemma_first_misplaced(addresses, index + 1);
    }
}

/// Searches for a region that does not start in the part of the address space with its number
fn find_misplaced(regions: &Vec<MemoryRegion>) -> (found: Option<usize>)
    ensures
        match found {
            Some(index) => first_misplaced(start_addresses(regions@), 0) == Some(index as nat),
            None => first_misplaced(start_addresses(regions@), 0) is None,
        },
{
    let ghost addresses = start_addresses(regions@);
    let mut index: usize = 0;
    while index < regions.len()
        invariant
            addresses == start_addresses(regions@),
            first_misplaced(addresses, index as nat) == first_misplaced(addresses, 0),
        decreases regions@.len() - index,
    {
        assert(addresses[index as int] == regions@[index as int].vm_addr);
        if regions[index].vm_addr / MM_REGION_SIZE != index as u64 {
            return Some(index);
        }
        index = index + 1;
    }
    None
}

/// Memory mapping that uses the upper half of an address to identify the
/// underlying memory region.
pub struct AlignedMemoryMapping<'a, H> {
    /// Common parts
    common: CommonMemoryMapping<'a, H>,
}

impl<'a, H> AlignedMemoryMapping<'a, H> {
    /// Every region starts in the part of the address space that has its number.
    pub closed spec fn well_formed(self) -> bool {
        forall|i: int|
            0 <= i < self.common.regions@.len() ==> slot_of(
                (#[trigger] self.common.regions@[i]).vm_addr as int,
            ) == i
    }

    /// The mapped regions. The first one is empty.
    pub closed spec fn regions(self) -> Seq<MemoryRegion> {
        self.common.regions@
    }

    /// The access violation handler.
    pub closed spec fn handler(self) -> H {
        self.common.access_violation_handler
    }

    /// The configuration.
    pub closed spec fn config(self) -> Config {
        *self.common.config
    }

    /// The version of the executable.
    pub closed spec fn sbpf_version(self) -> SBPFVersion {
        self.common.sbpf_version
    }

    /// The region that a lookup gives: the one with the number of the part of the address space.
    pub open spec fn spec_find(self, vm_addr: u64) -> Option<int> {
        let slot = slot_of(vm_addr as int);
        if 1 <= slot < self.regions().len() {
            Some(slot)
        } else {
            None
        }
    }

    /// Creates a new MemoryMapping structure from the given regions
    pub fn new_with_access_violation_handler(
        regions: Vec<MemoryRegion>,
        config: &'a Config,
        sbpf_version: SBPFVersion,
        access_violation_handler: H,
    ) -> (result: Result<Self, EbpfError>)
        ensures
            match first_misplaced(
                seq![0u64] + start_addresses(sorted_regions(regions@)),
                0,
            ) {
                Some(index) => result == Err::<Self, EbpfError>(
                    EbpfError::InvalidMemoryRegion(index as usize),
                ),
                None => {
                    &&& result matches Ok(mapping)
                    &&& mapping.well_formed()
                    &&& mapping.regions().len() == regions@.len() + 1
                    &&& mapping.regions()[0].describes(
                        mapping.regions()[0].host_addr,
                        0,
                        0,
                        0,
                        false,
                    )
                    &&& mapping.regions().skip(1) == sorted_regions(regions@)
                    &&& mapping.handler() == access_violation_handler
                    &&& mapping.config() == *config
                    &&& mapping.sbpf_version() == sbpf_version
                },
            },
    {
        let ghost given = regions@;
        let mut regions: Vec<MemoryRegion> = regions;
        let nothing: [u8; 0] = [];
        let null_region = MemoryRegion::new_readonly(nothing.as_slice(), 0);
        regions.insert(0, null_region);
        assert(regions@ =~= seq![null_region] + given);
        let regions: Vec<MemoryRegion> = sort_regions(regions);
        let ghost addresses = seq![0u64] + start_addresses(sorted_regions(given));
        proof {
            crate::region_order::law_sorted_regions_keep_first(null_region, given);
            crate::region_order::law_sorted_regions(given, 0);
            assert(start_addresses(regions@) =~= addresses);
            assert(regions@.skip(1) =~= sorted_regions(given));
        }
        if let Some(index) = find_misplaced(&regions) {
            return Err(EbpfError::InvalidMemoryRegion(index));
        }
        proof {
            lemma_first_misplaced(addresses, 0);
            assert forall|i: int| 0 <= i < regions@.len() implies slot_of(
                (#[trigger] regions@[i]).vm_addr as int,
            ) == i by {
                assert(addresses[i] == regions@[i].vm_addr);
            }
        }
        Ok(
            AlignedMemoryMapping {
                common: CommonMemoryMapping {
                    regions,
                    access_violation_handler,
                    config,
                    sbpf_version,
                },
            },
        )
    }

    /// Returns the `MemoryRegion` which may contain the given address.
    pub fn find_region(&self, vm_addr: u64) -> (found: Option<(usize, &MemoryRegion)>)
        ensures
            match found {
                Some((index, region)) => {
                    &&& self.spec_find(vm_addr) == Some(index as int)
                    &&& index < self.regions().len()
                    &&& *region == self.regions()[index as int]
                },
                None => self.spec_find(vm_addr) is None,
            },
    {
        let index: usize = (vm_addr / MM_REGION_SIZE) as usize;
        if 1 <= index && index < self.common.regions.len() {
            return Some((index, &self.common.regions[index]));
        }
        None
    }

    /// Replaces the `MemoryRegion` at the given index
    pub fn replace_region(&mut self, index: usize, region: MemoryRegion) -> (result: Result<
        (),
        EbpfError,
    >)
        requires
            old(self).well_formed(),
            fits_slot(region, index as int) ==> index < old(self).regions().len(),
        ensures
            final(self).well_formed(),
            fits_slot(region, index as int) ==> {
                &&& result is Ok
                &&& final(self).regions() == old(self).regions().update(index as int, region)
                &&& final(self).handler() == old(self).handler()
                &&& final(self).config() == old(self).config()
                &&& final(self).sbpf_version() == old(self).sbpf_version()
            },
            !fits_slot(region, index as int) ==> {
                &&& result == Err::<(), EbpfError>(EbpfError::InvalidMemoryRegion(index))
                &&& *final(self) == *old(self)
            },
    {
        let begin_index: usize = (region.vm_addr / MM_REGION_SIZE) as usize;
        let last_addr: u64 = region.vm_addr.saturating_add(region.len.saturating_sub(1));
        let end_index: usize = (last_addr / MM_REGION_SIZE) as usize;
        if begin_index != index || end_index != index {
            return Err(EbpfError::InvalidMemoryRegion(index));
        }
        self.common.regions[index] = region;
        Ok(())
    }
}

/// Maps virtual memory to host memory.
pub enum MemoryMapping<'a, H> {
    /// Used when address translation is disabled
    Identity,
    /// Aligned memory mapping which uses the upper half of an address to
    /// identify the underlying memory region.
    Aligned(AlignedMemoryMapping<'a, H>),
    /// Memory mapping that allows mapping unaligned memory regions.
    Unaligned(UnalignedMemoryMapping<'a, H>),
}

/// The address at which the region behind the given one starts, the end of the address space for
/// the last region.
pub open spec fn next_start(regions: Seq<MemoryRegion>, index: int) -> u64 {
    if index + 1 < regions.len() {
        regions[index + 1].vm_addr
    } else {
        u64::MAX
    }
}

/// How far a region can grow before it reaches the next one.
pub open spec fn max_len_of(regions: Seq<MemoryRegion>, index: int) -> u64 {
    if next_start(regions, index) >= regions[index].vm_addr {
        (next_start(regions, index) - regions[index].vm_addr) as u64
    } else {
        0
    }
}

impl<'a, H> MemoryMapping<'a, H> {
    /// The parts of the mapping are intact.
    pub open spec fn well_formed(self) -> bool {
        match self {
            MemoryMapping::Identity => true,
            MemoryMapping::Aligned(m) => m.well_formed(),
            MemoryMapping::Unaligned(m) => m.well_formed(),
        }
    }

    /// The mapped regions.
    pub open spec fn regions(self) -> Seq<MemoryRegion> {
        match self {
            MemoryMapping::Identity => Seq::empty(),
            MemoryMapping::Aligned(m) => m.regions(),
            MemoryMapping::Unaligned(m) => m.regions(),
        }
    }

    /// Does the outcome of a lookup depend on the address alone
    pub open spec fn consistent(self) -> bool {
        match self {
            MemoryMapping::Unaligned(m) => m.consistent(),
            _ => true,
        }
    }

    /// The region that a lookup gives.
    pub open spec fn spec_find(self, vm_addr: u64) -> Option<int> {
        match self {
            MemoryMapping::Identity => None,
            MemoryMapping::Aligned(m) => m.spec_find(vm_addr),
            MemoryMapping::Unaligned(m) => m.spec_find(vm_addr),
        }
    }

    /// May a lookup give this region
    pub open spec fn may_find(self, vm_addr: u64, found: Option<int>) -> bool {
        match self {
            MemoryMapping::Unaligned(m) => if m.consistent() {
                found == m.spec_find(vm_addr)
            } else {
                m.may_find(vm_addr, found)
            },
            _ => found == self.spec_find(vm_addr),
        }
    }

    /// The error that reports an access as a violation.
    pub open spec fn spec_violation(
        self,
        access_type: AccessType,
        vm_addr: u64,
        len: u64,
    ) -> EbpfError
        recommends
            !(self is Identity),
    {
        match self {
            MemoryMapping::Aligned(m) => access_violation(
                m.config(),
                m.sbpf_version(),
                access_type,
                vm_addr,
                len,
            ),
            MemoryMapping::Unaligned(m) => access_violation(
                m.config(),
                m.sbpf_version(),
                access_type,
                vm_addr,
                len,
            ),
            MemoryMapping::Identity => vstd::pervasive::arbitrary(),
        }
    }

    /// Do both mappings agree in everything but the regions
    pub open spec fn same_setup(self, other: Self) -> bool {
        match (self, other) {
            (MemoryMapping::Identity, MemoryMapping::Identity) => true,
            (MemoryMapping::Aligned(a), MemoryMapping::Aligned(b)) => {
                &&& a.handler() == b.handler()
                &&& a.config() == b.config()
                &&& a.sbpf_version() == b.sbpf_version()
            },
            (MemoryMapping::Unaligned(a), MemoryMapping::Unaligned(b)) => {
                &&& a.search_addresses() == b.search_addresses()
                &&& a.handler() == b.handler()
                &&& a.config() == b.config()
                &&& a.sbpf_version() == b.sbpf_version()
            },
            _ => false,
        }
    }

    /// May the region at `index` be replaced by `region`: it must start at the same address and
    /// end before the next one starts.
    pub open spec fn can_replace(self, index: int, region: MemoryRegion) -> bool {
        &&& 0 <= index < self.regions().len()
        &&& self.regions()[index].vm_addr == region.vm_addr
        &&& region.spec_end() <= next_start(self.regions(), index)
        &&& self is Aligned ==> fits_slot(region, index)
    }

    /// What translating an access gives when the lookup gave `found`.
    pub open spec fn map_outcome(
        self,
        found: Option<int>,
        access_type: AccessType,
        vm_addr: u64,
        len: u64,
    ) -> ProgramResult {
        if self is Identity {
            ProgramResult::Success(vm_addr)
        } else {
            match found {
                Some(index) => match self.regions()[index].spec_vm_to_host(
                    access_type,
                    vm_addr,
                    len,
                ) {
                    Some(host_addr) => ProgramResult::Success(host_addr),
                    None => ProgramResult::Failure(
                        self.spec_violation(access_type, vm_addr, len),
                    ),
                },
                None => ProgramResult::Failure(self.spec_violation(access_type, vm_addr, len)),
            }
        }
    }

    /// What translating an access gives in a consistent mapping.
    pub open spec fn spec_map(
        self,
        access_type: AccessType,
        vm_addr: u64,
        len: u64,
    ) -> ProgramResult {
        self.map_outcome(self.spec_find(vm_addr), access_type, vm_addr, len)
    }

    /// Creates the mapping of every address to itself
    pub fn new_identity() -> (mapping: Self)
        ensures
            mapping is Identity,
    {
        MemoryMapping::Identity
    }

    /// Creates a new memory mapping.
    ///
    /// Uses aligned or unaligned memory mapping depending on the value of
    /// `config.aligned_memory_mapping=true`.
    pub fn new_with_access_violation_handler(
        regions: Vec<MemoryRegion>,
        config: &'a Config,
        sbpf_version: SBPFVersion,
        access_violation_handler: H,
    ) -> (result: Result<Self, EbpfError>)
        requires
            config.aligned_memory_mapping || sbpf_version.ordinal() <= SBPFVersion::V4.ordinal(),
        ensures
            spec_created(regions@, *config, sbpf_version, access_violation_handler, result),
    {
        if sbpf_version == SBPFVersion::V4 || config.aligned_memory_mapping {
            match AlignedMemoryMapping::new_with_access_violation_handler(
                regions,
                config,
                sbpf_version,
                access_violation_handler,
            ) {
                Ok(mapping) => Ok(MemoryMapping::Aligned(mapping)),
                Err(error) => Err(error),
            }
        } else {
            match UnalignedMemoryMapping::new_with_access_violation_handler(
                regions,
                config,
                sbpf_version,
                access_violation_handler,
            ) {
                Ok(mapping) => Ok(MemoryMapping::Unaligned(mapping)),
                Err(error) => Err(error),
            }
        }
    }

    /// Map virtual memory to host memory.
    pub fn map(&self, access_type: AccessType, vm_addr: u64, len: u64) -> (result: ProgramResult)
        requires
            self.well_formed(),
        ensures
            exists|found: Option<int>|
                self.may_find(vm_addr, found) && result == #[trigger] self.map_outcome(
                    found,
                    access_type,
                    vm_addr,
                    len,
                ),
            self.consistent() ==> result == self.spec_map(access_type, vm_addr, len),
    {
        let ghost mut lookup: Option<int> = None;
        if let Some((index, region)) = self.find_region(vm_addr) {
            proof {
                lookup = Some(index as int);
            }
            if let Some(host_addr) = region.vm_to_host(access_type, vm_addr, len) {
                assert(self.map_outcome(lookup, access_type, vm_addr, len)
                    == ProgramResult::Success(host_addr));
                return ProgramResult::Success(host_addr);
            }
        }
        let result = self.reject(access_type, vm_addr, len);
        assert(self.map_outcome(lookup, access_type, vm_addr, len) == result);
        result
    }

    /// The answer to an access that no region permits
    fn reject(&self, access_type: AccessType, vm_addr: u64, len: u64) -> (result: ProgramResult)
        ensures
            result == (if self is Identity {
                ProgramResult::Success(vm_addr)
            } else {
                ProgramResult::Failure(self.spec_violation(access_type, vm_addr, len))
            }),
    {
        match self {
            MemoryMapping::Identity => ProgramResult::Success(vm_addr),
            MemoryMapping::Aligned(m) => m.common.generate_access_violation(
                access_type,
                vm_addr,
                len,
            ),
            MemoryMapping::Unaligned(m) => m.common.generate_access_violation(
                access_type,
                vm_addr,
                len,
            ),
        }
    }

    /// Returns the `MemoryRegion` which may contain the given address.
    pub fn find_region(&self, vm_addr: u64) -> (found: Option<(usize, &MemoryRegion)>)
        requires
            self.well_formed(),
        ensures
            match found {
                Some((index, region)) => {
                    &&& self.may_find(vm_addr, Some(index as int))
                    &&& index < self.regions().len()
                    &&& *region == self.regions()[index as int]
                    &&& self.consistent() ==> self.spec_find(vm_addr) == Some(index as int)
                },
                None => self.may_find(vm_addr, None) && self.spec_find(vm_addr) is None,
            },
    {
        match self {
            MemoryMapping::Identity => None,
            MemoryMapping::Aligned(m) => m.find_region(vm_addr),
            MemoryMapping::Unaligned(m) => m.find_region(vm_addr),
        }
    }

    /// Returns the `MemoryRegion`s in this mapping.
    pub fn get_regions(&self) -> (regions: &[MemoryRegion])
        ensures
            regions@ == self.regions(),
    {
        match self {
            MemoryMapping::Identity => {
                let nothing: &[MemoryRegion] = &[];
                assert(nothing@ =~= Seq::<MemoryRegion>::empty());
                nothing
            },
            MemoryMapping::Aligned(m) => m.common.regions.as_slice(),
            MemoryMapping::Unaligned(m) => m.common.regions.as_slice(),
        }
    }

    /// Replaces the `MemoryRegion` at the given index
    pub fn replace_region(&mut self, index: usize, region: MemoryRegion) -> (result: Result<
        (),
        EbpfError,
    >)
        requires
            old(self).well_formed(),
        ensures
            final(self).well_formed(),
            old(self).consistent() ==> final(self).consistent(),
            final(self).same_setup(*old(self)),
            old(self).can_replace(index as int, region) ==> {
                &&& result is Ok
                &&& final(self).regions() == old(self).regions().update(index as int, region)
            },
            !old(self).can_replace(index as int, region) ==> {
                &&& result == Err::<(), EbpfError>(EbpfError::InvalidMemoryRegion(index))
                &&& *final(self) == *old(self)
            },
    {
        let regions: &[MemoryRegion] = self.get_regions();
        if index >= regions.len() {
            return Err(EbpfError::InvalidMemoryRegion(index));
        }
        let next_region_start: u64 = if index + 1 < regions.len() {
            regions[index + 1].vm_addr
        } else {
            u64::MAX
        };
        if regions[index].vm_addr != region.vm_addr || region.vm_addr_range().end
            > next_region_start {
            return Err(EbpfError::InvalidMemoryRegion(index));
        }
        let ghost before = *self;
        let result: Result<(), EbpfError> = match self {
            MemoryMapping::Identity => Err(EbpfError::InvalidMemoryRegion(index)),
            MemoryMapping::Aligned(m) => m.replace_region(index, region),
            MemoryMapping::Unaligned(m) => m.replace_region(index, region),
        };
        proof {
            if before.consistent() && before is Unaligned {
                let old_regions = before.regions();
                let new_regions = self.regions();
                assert(start_addresses(new_regions) =~= start_addresses(old_regions));
                assert forall|i: int| 0 < i < new_regions.len() implies new_regions[i
                    - 1].spec_end() <= (#[trigger] new_regions[i]).vm_addr by {
                    assert(old_regions[i - 1].spec_end() <= old_regions[i].vm_addr);
                }
            }
        }
        result
    }
}

/// What creating a mapping gives: an aligned or an unaligned mapping of the given regions, or the
/// first region that does not fit.
pub open spec fn spec_created<'a, H>(
    regions: Seq<MemoryRegion>,
    config: Config,
    sbpf_version: SBPFVersion,
    handler: H,
    result: Result<MemoryMapping<'a, H>, EbpfError>,
) -> bool {
    let sorted = sorted_regions(regions);
    if sbpf_version is V4 || config.aligned_memory_mapping {
        match first_misplaced(seq![0u64] + start_addresses(sorted), 0) {
            Some(index) => result == Err::<MemoryMapping<'a, H>, EbpfError>(
                EbpfError::InvalidMemoryRegion(index as usize),
            ),
            None => {
                &&& result matches Ok(MemoryMapping::Aligned(mapping))
                &&& mapping.well_formed()
                &&& mapping.regions().len() == regions.len() + 1
                &&& mapping.regions()[0].describes(mapping.regions()[0].host_addr, 0, 0, 0, false)
                &&& mapping.regions().skip(1) == sorted
                &&& mapping.handler() == handler
                &&& mapping.config() == config
                &&& mapping.sbpf_version() == sbpf_version
            },
        }
    } else {
        match first_overlap(sorted, 1) {
            Some(index) => result == Err::<MemoryMapping<'a, H>, EbpfError>(
                EbpfError::InvalidMemoryRegion(index as usize),
            ),
            None => {
                &&& result matches Ok(MemoryMapping::Unaligned(mapping))
                &&& mapping.well_formed()
                &&& mapping.consistent()
                &&& mapping.regions() == sorted
                &&& mapping.handler() == handler
                &&& mapping.config() == config
                &&& mapping.sbpf_version() == sbpf_version
            },
        }
    }
}

impl<'a> MemoryMapping<'a, DefaultAccessViolationHandler> {
    /// Creates a new memory mapping for tests and benches.
    ///
    /// The access violation handler defaults to one which repairs nothing.
    pub fn new(
        regions: Vec<MemoryRegion>,
        config: &'a Config,
        sbpf_version: SBPFVersion,
    ) -> (result: Result<Self, EbpfError>)
        requires
            config.aligned_memory_mapping || sbpf_version.ordinal() <= SBPFVersion::V4.ordinal(),
        ensures
            spec_created(regions@, *config, sbpf_version, DefaultAccessViolationHandler, result),
    {
        Self::new_with_access_violation_handler(
            regions,
            config,
            sbpf_version,
            DefaultAccessViolationHandler,
        )
    }
}

impl<'a, H: AccessViolationHandler> MemoryMapping<'a, H> {
    /// May the handler of the mapping turn the region at `index` into `handled`
    pub open spec fn handler_may_yield(
        self,
        index: int,
        access_type: AccessType,
        vm_addr: u64,
        len: u64,
        handled: MemoryRegion,
    ) -> bool {
        let region = self.regions()[index];
        let max_len = max_len_of(self.regions(), index);
        match self {
            MemoryMapping::Identity => false,
            MemoryMapping::Aligned(m) => m.handler().may_yield(
                region,
                max_len,
                access_type,
                vm_addr,
                len,
                handled,
            ),
            MemoryMapping::Unaligned(m) => m.handler().may_yield(
                region,
                max_len,
                access_type,
                vm_addr,
                len,
                handled,
            ),
        }
    }

    /// What an access gives, and which regions it leaves behind, when the handler turned the
    /// region at `index` into `handled`.
    pub open spec fn handled_outcome(
        self,
        index: int,
        handled: MemoryRegion,
        access_type: AccessType,
        vm_addr: u64,
        len: u64,
    ) -> (ProgramResult, Seq<MemoryRegion>) {
        match handled.spec_vm_to_host(access_type, vm_addr, len) {
            Some(host_addr) => if self.can_replace(index, handled) {
                (ProgramResult::Success(host_addr), self.regions().update(index, handled))
            } else {
                (
                    ProgramResult::Failure(EbpfError::InvalidMemoryRegion(index as usize)),
                    self.regions(),
                )
            },
            None => (
                ProgramResult::Failure(self.spec_violation(access_type, vm_addr, len)),
                self.regions(),
            ),
        }
    }

    /// Is an access that was looked up as `found` handed to the handler: a region was found, and
    /// it does not permit the access.
    pub open spec fn calls_handler(
        self,
        found: Option<int>,
        access_type: AccessType,
        vm_addr: u64,
        len: u64,
    ) -> bool {
        &&& !(self is Identity)
        &&& found matches Some(index) && self.regions()[index].spec_vm_to_host(
            access_type,
            vm_addr,
            len,
        ) is None
    }

    /// May an access, which may call the handler, give `result` and leave the regions `after`
    /// behind.
    pub open spec fn may_translate(
        self,
        access_type: AccessType,
        vm_addr: u64,
        len: u64,
        result: ProgramResult,
        after: Seq<MemoryRegion>,
    ) -> bool {
        exists|found: Option<int>, handled: MemoryRegion|
            #![trigger self.translates(access_type, vm_addr, len, found, handled, result, after)]
            self.translates(access_type, vm_addr, len, found, handled, result, after)
    }

    /// Does an access that was looked up as `found`, and for which the handler gave `handled`,
    /// give `result` and leave the regions `after` behind.
    pub open spec fn translates(
        self,
        access_type: AccessType,
        vm_addr: u64,
        len: u64,
        found: Option<int>,
        handled: MemoryRegion,
        result: ProgramResult,
        after: Seq<MemoryRegion>,
    ) -> bool {
        &&& self.may_find(vm_addr, found)
        &&& if self.calls_handler(found, access_type, vm_addr, len) {
            &&& self.handler_may_yield(found->0, access_type, vm_addr, len, handled)
            &&& (result, after) == self.handled_outcome(
                found->0,
                handled,
                access_type,
                vm_addr,
                len,
            )
        } else {
            &&& result == self.map_outcome(found, access_type, vm_addr, len)
            &&& after == self.regions()
        }
    }

    /// Continues an access after the handler turned the region at `index` into `handled`
    pub fn apply_handled_region(
        &mut self,
        index: usize,
        handled: MemoryRegion,
        access_type: AccessType,
        vm_addr: u64,
        len: u64,
    ) -> (result: ProgramResult)
        requires
            old(self).well_formed(),
            !(*old(self) is Identity),
            index < old(self).regions().len(),
        ensures
            final(self).well_formed(),
            old(self).consistent() ==> final(self).consistent(),
            final(self).same_setup(*old(self)),
            (result, final(self).regions()) == old(self).handled_outcome(
                index as int,
                handled,
                access_type,
                vm_addr,
                len,
            ),
    {
        if let Some(host_addr) = handled.vm_to_host(access_type, vm_addr, len) {
            match self.replace_region(index, handled) {
                Ok(_) => ProgramResult::Success(host_addr),
                Err(error) => ProgramResult::Failure(error),
            }
        } else {
            self.reject(access_type, vm_addr, len)
        }
    }

    /// Map virtual memory to host memory and potentially call the [AccessViolationHandler].
    ///
    /// This requires the [MemoryMapping] to be mutable and
    /// can cause previously translated addresses to become invalid.
    pub fn map_with_access_violation_handler(
        &mut self,
        access_type: AccessType,
        vm_addr: u64,
        len: u64,
    ) -> (result: ProgramResult)
        requires
            old(self).well_formed(),
        ensures
            final(self).well_formed(),
            old(self).consistent() ==> final(self).consistent(),
            final(self).same_setup(*old(self)),
            old(self).may_translate(access_type, vm_addr, len, result, final(self).regions()),
    {
        let ghost before = *self;
        let (index, region): (usize, MemoryRegion) = match self.find_region(vm_addr) {
            Some((index, region)) => (index, *region),
            None => {
                let result = self.reject(access_type, vm_addr, len);
                assert(before.translates(
                    access_type,
                    vm_addr,
                    len,
                    None,
                    vstd::pervasive::arbitrary(),
                    result,
                    before.regions(),
                ));
                return result;
            },
        };
        if let Some(host_addr) = region.vm_to_host(access_type, vm_addr, len) {
            let result = ProgramResult::Success(host_addr);
            assert(before.translates(
                access_type,
                vm_addr,
                len,
                Some(index as int),
                region,
                result,
                before.regions(),
            ));
            return result;
        }
        let regions: &[MemoryRegion] = self.get_regions();
        let next_region_start: u64 = if regions.len() - index > 1 {
            regions[index + 1].vm_addr
        } else {
            u64::MAX
        };
        let max_len: u64 = next_region_start.saturating_sub(region.vm_addr);
        let mut handled: MemoryRegion = region;
        match self {
            MemoryMapping::Identity => {},
            MemoryMapping::Aligned(m) => {
                m.common.access_violation_handler.handle(
                    &mut handled,
                    max_len,
                    access_type,
                    vm_addr,
                    len,
                );
            },
            MemoryMapping::Unaligned(m) => {
                m.common.access_violation_handler.handle(
                    &mut handled,
                    max_len,
                    access_type,
                    vm_addr,
                    len,
                );
            },
        }
        assert(*self == before);
        let result = self.apply_handled_region(index, handled, access_type, vm_addr, len);
        assert(before.translates(
            access_type,
            vm_addr,
            len,
            Some(index as int),
            handled,
            result,
            self.regions(),
        ));
        result
    }

    /// Loads the bytes of a `T` from the given address, as a number.
    pub fn load<T: UnsignedPod>(&mut self, host: &HostMemory, vm_addr: u64) -> (result:
        ProgramResult)
        requires
            old(self).well_formed(),
            host.well_formed(),
            forall|host_addr: u64, after: Seq<MemoryRegion>|
                #[trigger] old(self).may_translate(
                    AccessType::Load,
                    vm_addr,
                    T::spec_size() as u64,
                    ProgramResult::Success(host_addr),
                    after,
                ) ==> host.holds(host_addr as int, T::spec_size() as int),
        ensures
            final(self).well_formed(),
            old(self).consistent() ==> final(self).consistent(),
            final(self).same_setup(*old(self)),
            exists|translation: ProgramResult|
                #[trigger] old(self).may_translate(
                    AccessType::Load,
                    vm_addr,
                    T::spec_size() as u64,
                    translation,
                    final(self).regions(),
                ) && result == spec_loaded(
                    host@,
                    host.spec_byte_order(),
                    translation,
                    T::spec_size(),
                ),
    {
        let size: usize = T::size();
        let translation: ProgramResult = self.map_with_access_violation_handler(
            AccessType::Load,
            vm_addr,
            size as u64,
        );
        match translation {
            StableResult::Success(host_addr) => {
                assert(host.holds(host_addr as int, size as int));
                match host.read(host_addr, size) {
                    Some(value) => ProgramResult::Success(value),
                    None => vstd::pervasive::unreached(),
                }
            },
            StableResult::Failure(error) => ProgramResult::Failure(error),
        }
    }

    /// Store `value` at the given address.
    pub fn store<T: Pod>(&mut self, host: &mut HostMemory, value: T, vm_addr: u64) -> (result:
        ProgramResult)
        requires
            old(self).well_formed(),
            old(host).well_formed(),
            forall|host_addr: u64, after: Seq<MemoryRegion>|
                #[trigger] old(self).may_translate(
                    AccessType::Store,
                    vm_addr,
                    T::spec_size() as u64,
                    ProgramResult::Success(host_addr),
                    after,
                ) ==> old(host).holds(host_addr as int, T::spec_size() as int),
        ensures
            final(self).well_formed(),
            old(self).consistent() ==> final(self).consistent(),
            final(self).same_setup(*old(self)),
            old(self).may_translate(
                AccessType::Store,
                vm_addr,
                T::spec_size() as u64,
                result,
                final(self).regions(),
            ),
            final(host).well_formed(),
            forall|addr: int, len: int| final(host).holds(addr, len) == old(host).holds(addr, len),
            final(host).spec_byte_order() == old(host).spec_byte_order(),
            final(host)@ == spec_stored(
                old(host)@,
                result,
                pod_bytes(value, old(host).spec_byte_order()),
            ),
    {
        let bytes: Vec<u8> = pod_to_bytes(value, host.byte_order());
        let size: usize = T::size();
        let translation: ProgramResult = self.map_with_access_violation_handler(
            AccessType::Store,
            vm_addr,
            size as u64,
        );
        match translation {
            StableResult::Success(host_addr) => {
                assert(host.holds(host_addr as int, size as int));
                let _written: bool = host.write(host_addr, &bytes);
                ProgramResult::Success(host_addr)
            },
            StableResult::Failure(error) => ProgramResult::Failure(error),
        }
    }
}

/// What a load gives for a translated address: the number in the bytes at the address.
pub open spec fn spec_loaded(
    memory: Map<int, u8>,
    order: ByteOrder,
    translation: ProgramResult,
    size: nat,
) -> ProgramResult {
    match translation {
        StableResult::Success(host_addr) => ProgramResult::Success(
            ordered_value(bytes_at(memory, host_addr as int, size), order) as u64,
        ),
        StableResult::Failure(error) => ProgramResult::Failure(error),
    }
}

/// What a store leaves behind for a translated address: the bytes at the address.
pub open spec fn spec_stored(
    memory: Map<int, u8>,
    translation: ProgramResult,
    bytes: Seq<u8>,
) -> Map<int, u8> {
    match translation {
        StableResult::Success(host_addr) => with_bytes(memory, host_addr as int, bytes),
        StableResult::Failure(_) => memory,
    }
}

/// A lookup gives a region of the mapping.
pub proof fn lemma_find_in_bounds<'a, H>(mapping: MemoryMapping<'a, H>, vm_addr: u64)
    requires
        mapping.well_formed(),
    ensures
        mapping.spec_find(vm_addr) matches Some(index) ==> 0 <= index < mapping.regions().len(),
{
    if let MemoryMapping::Unaligned(m) = mapping {
        crate::eytzinger::lemma_inorder_complete(m.region_addresses@);
        crate::eytzinger::law_last_at_or_below(m.search_addresses(), vm_addr);
    }
}

/// The addresses by which regions are found stand in ascending order.
pub proof fn lemma_search_addresses_ascend<'a, H>(mapping: UnalignedMemoryMapping<'a, H>)
    requires
        mapping.well_formed(),
    ensures
        ascending(mapping.search_addresses()),
{
}

} // verus!
