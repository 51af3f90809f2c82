//! The order of memory regions by virtual address.
use core::cmp::Ordering;

use vstd::prelude::*;
use vstd::std_specs::cmp::{PartialOrdSpec, PartialOrdSpecImpl};

use crate::memory_region::MemoryRegion;

verus! {

impl MemoryRegion {
    /// Compares the virtual addresses at which two regions start
    pub fn cmp(&self, other: &Self) -> (order: Ordering)
        ensures
            order == compared(*self, *other),
    {
        if self.vm_addr < other.vm_addr {
            Ordering::Less
        } else if self.vm_addr == other.vm_addr {
            Ordering::Equal
        } else {
            Ordering::Greater
        }
    }
}

/// The order of two regions: that of the virtual addresses at which they start.
pub open spec fn compared(a: MemoryRegion, b: MemoryRegion) -> Ordering {
    if a.vm_addr < b.vm_addr {
        Ordering::Less
    } else if a.vm_addr == b.vm_addr {
        Ordering::Equal
    } else {
        Ordering::Greater
    }
}

impl PartialOrd for MemoryRegion {
    fn partial_cmp(&self, other: &Self) -> (order: Option<Ordering>) {
        Some(self.cmp(other))
    }
}

impl PartialOrdSpecImpl for MemoryRegion {
    open spec fn obeys_partial_cmp_spec() -> bool {
        true
    }

    open spec fn partial_cmp_spec(&self, other: &Self) -> Option<Ordering> {
        Some(compared(*self, *other))
    }
}

/// `regions`, in ascending order, with `region` put behind all that do not start after it.
pub open spec fn insert_sorted(regions: Seq<MemoryRegion>, region: MemoryRegion) -> Seq<
    MemoryRegion,
>
    decreases regions.len(),
{
    if regions.len() == 0 || regions.last().vm_addr <= region.vm_addr {
        regions.push(region)
    } else {
        insert_sorted(regions.drop_last(), region).push(regions.last())
    }
}

/// The regions in ascending order of their virtual address, those that start at the same address
/// in the order in which they were given.
pub open spec fn sorted_regions(regions: Seq<MemoryRegion>) -> Seq<MemoryRegion>
    decreases regions.len(),
{
    if regions.len() == 0 {
        regions
    } else {
        insert_sorted(sorted_regions(regions.drop_last()), regions.last())
    }
}

/// Do the regions stand in ascending order of their virtual address
pub open spec fn is_sorted(regions: Seq<MemoryRegion>) -> bool {
    forall|i: int, j: int|
        0 <= i <= j < regions.len() ==> (#[trigger] regions[i]).vm_addr <= (
        #[trigger] regions[j]).vm_addr
}

/// The regions that start at `vm_addr`, in their order.
pub open spec fn starting_at(regions: Seq<MemoryRegion>, vm_addr: u64) -> Seq<MemoryRegion> {
    regions.filter(|region: MemoryRegion| region.vm_addr == vm_addr)
}

proof fn lemma_insert_sorted(regions: Seq<MemoryRegion>, region: MemoryRegion, vm_addr: u64)
    ensures
        insert_sorted(regions, region).len() == regions.len() + 1,
        insert_sorted(regions, region).to_multiset() =~= regions.to_multiset().insert(region),
        starting_at(insert_sorted(regions, region), vm_addr) == (if region.vm_addr == vm_addr {
            starting_at(regions, vm_addr).push(region)
        } else {
            starting_at(regions, vm_addr)
        }),
    decreases regions.len(),
{
    broadcast use vstd::seq_lib::group_to_multiset_ensures;

    reveal(Seq::filter);
    let result = insert_sorted(regions, region);
    if regions.len() == 0 || regions.last().vm_addr <= region.vm_addr {
        assert(result.drop_last() =~= regions);
    } else {
        lemma_insert_sorted(regions.drop_last(), region, vm_addr);
        let inner = insert_sorted(regions.drop_last(), region);
        assert(result.drop_last() =~= inner);
        assert(regions =~= regions.drop_last().push(regions.last()));
    }
}

proof fn lemma_insert_sorted_is_sorted(regions: Seq<MemoryRegion>, region: MemoryRegion)
    requires
        is_sorted(regions),
    ensures
        is_sorted(insert_sorted(regions, region)),
        forall|i: int|
            0 <= i < insert_sorted(regions, region).len() ==> regions.contains(
                #[trigger] insert_sorted(regions, region)[i],
            ) || insert_sorted(regions, region)[i] == region,
    decreases regions.len(),
{
    let result = insert_sorted(regions, region);
    if regions.len() == 0 || regions.last().vm_addr <= region.vm_addr {
        assert forall|i: int| 0 <= i < result.len() implies regions.contains(#[trigger] result[i])
            || result[i] == region by {
            if i < regions.len() {
                assert(result[i] == regions[i]);
            }
        }
    } else {
        let front = regions.drop_last();
        lemma_insert_sorted_is_sorted(front, region);
        let inner = insert_sorted(front, region);
        assert forall|i: int| 0 <= i < inner.len() implies (#[trigger] inner[i]).vm_addr
            <= regions.last().vm_addr by {
            if inner[i] != region {
                let j = choose|j: int| 0 <= j < front.len() && front[j] == inner[i];
                assert(regions[j] == inner[i]);
            }
        }
        assert forall|i: int| 0 <= i < result.len() implies regions.contains(#[trigger] result[i])
            || result[i] == region by {
            if i < inner.len() {
                assert(result[i] == inner[i]);
                if inner[i] != region {
                    let j = choose|j: int| 0 <= j < front.len() && front[j] == inner[i];
                    assert(regions[j] == result[i]);
                }
            } else {
                assert(result[i] == regions[regions.len() - 1]);
            }
        }
    }
}

/// Sorting orders the regions by address, keeps every region, and keeps the order of those that
/// start at the same address.
pub proof fn law_sorted_regions(regions: Seq<MemoryRegion>, vm_addr: u64)
    ensures
        sorted_regions(regions).len() == regions.len(),
        is_sorted(sorted_regions(regions)),
        sorted_regions(regions).to_multiset() =~= regions.to_multiset(),
        starting_at(sorted_regions(regions), vm_addr) == starting_at(regions, vm_addr),
    decreases regions.len(),
{
    if regions.len() > 0 {
        broadcast use vstd::seq_lib::group_to_multiset_ensures;

        reveal(Seq::filter);
        let front = regions.drop_last();
        law_sorted_regions(front, vm_addr);
        lemma_insert_sorted(sorted_regions(front), regions.last(), vm_addr);
        lemma_insert_sorted_is_sorted(sorted_regions(front), regions.last());
        assert(regions =~= front.push(regions.last()));
    }
}

/// Sorting changes nothing about regions that are in order already.
pub proof fn law_sorted_regions_fixed_point(regions: Seq<MemoryRegion>)
    requires
        is_sorted(regions),
    ensures
        sorted_regions(regions) == regions,
    decreases regions.len(),
{
    if regions.len() > 0 {
        let front = regions.drop_last();
        law_sorted_regions_fixed_point(front);
        if front.len() > 0 {
            assert(front.last() == regions[regions.len() - 2]);
        }
        assert(front.push(regions.last()) =~= regions);
    }
}

proof fn lemma_insert_behind_first(
    first: MemoryRegion,
    regions: Seq<MemoryRegion>,
    region: MemoryRegion,
)
    requires
        first.vm_addr == 0,
    ensures
        insert_sorted(seq![first] + regions, region) == seq![first] + insert_sorted(
            regions,
            region,
        ),
    decreases regions.len(),
{
    let whole = seq![first] + regions;
    if regions.len() == 0 || regions.last().vm_addr <= region.vm_addr {
        assert(whole.push(region) =~= seq![first] + regions.push(region));
    } else {
        lemma_insert_behind_first(first, regions.drop_last(), region);
        assert(whole.drop_last() =~= seq![first] + regions.drop_last());
        assert((seq![first] + insert_sorted(regions.drop_last(), region)).push(regions.last())
            =~= seq![first] + insert_sorted(regions.drop_last(), region).push(regions.last()));
    }
}

/// A region at address zero that was given first stays first.
pub proof fn law_sorted_regions_keep_first(first: MemoryRegion, regions: Seq<MemoryRegion>)
    requires
        first.vm_addr == 0,
    ensures
        sorted_regions(seq![first] + regions) == seq![first] + sorted_regions(regions),
    decreases regions.len(),
{
    let whole = seq![first] + regions;
    if regions.len() == 0 {
        assert(whole.drop_last() =~= Seq::<MemoryRegion>::empty());
        assert(sorted_regions(whole.drop_last()) =~= Seq::<MemoryRegion>::empty());
        assert(whole.last() == first);
        assert(sorted_regions(whole) =~= seq![first] + sorted_regions(regions));
    } else {
        assert(whole.drop_last() =~= seq![first] + regions.drop_last());
        law_sorted_regions_keep_first(first, regions.drop_last());
        lemma_insert_behind_first(first, sorted_regions(regions.drop_last()), regions.last());
    }
}

proof fn lemma_insert_sorted_at(
    regions: Seq<MemoryRegion>,
    region: MemoryRegion,
    position: int,
)
    requires
        0 <= position <= regions.len(),
        position > 0 ==> regions[position - 1].vm_addr <= region.vm_addr,
        forall|i: int|
            position <= i < regions.len() ==> region.vm_addr < (#[trigger] regions[i]).vm_addr,
    ensures
        insert_sorted(regions, region) == regions.insert(position, region),
    decreases regions.len(),
{
    if position < regions.len() {
        let front = regions.drop_last();
        lemma_insert_sorted_at(front, region, position);
        assert(front.insert(position, region).push(regions.last()) =~= regions.insert(
            position,
            region,
        ));
    } else {
        assert(regions.push(region) =~= regions.insert(position, region));
    }
}

/// Sorts regions by virtual address; regions with the same address keep their order.
pub fn sort_regions(regions: Vec<MemoryRegion>) -> (sorted: Vec<MemoryRegion>)
    ensures
        sorted@ == sorted_regions(regions@),
{
    let mut sorted: Vec<MemoryRegion> = Vec::new();
    let mut next: usize = 0;
    while next < regions.len()
        invariant
            next <= regions.len(),
            sorted@ == sorted_regions(regions@.take(next as int)),
            sorted@.len() == next,
        decreases regions.len() - next,
    {
        let region: MemoryRegion = regions[next];
        let mut position: usize = sorted.len();
        while position > 0 && sorted[position - 1].vm_addr > region.vm_addr
            invariant
                position <= sorted.len(),
                forall|i: int|
                    position <= i < sorted.len() ==> region.vm_addr < (
                    #[trigger] sorted@[i]).vm_addr,
            decreases position,
        {
            position = position - 1;
        }
        proof {
            lemma_insert_sorted_at(sorted@, region, position as int);
            let taken = regions@.take(next + 1);
            assert(taken.drop_last() =~= regions@.take(next as int));
        }
        sorted.insert(position, region);
        next = next + 1;
    }
    proof {
        assert(regions@.take(regions@.len() as int) =~= regions@);
    }
    sorted
}

/// The order of regions is total, but it does not tell apart regions that start at the same address.
pub proof fn law_region_order(a: MemoryRegion, b: MemoryRegion, c: MemoryRegion)
    ensures
        compared(a, b) == Ordering::Less <==> compared(b, a) == Ordering::Greater,
        compared(a, b) == Ordering::Equal <==> a.vm_addr == b.vm_addr,
        compared(a, b) != Ordering::Greater && compared(b, c) != Ordering::Greater ==> compared(a, c)
            != Ordering::Greater,
{
}

/// One region comes before another exactly if it starts at a lower address.
pub proof fn law_regions_compare_by_start(
    a: &MemoryRegion,
    b: &MemoryRegion,
    order: Ordering,
)
    requires
        call_ensures(MemoryRegion::cmp, (a, b), order),
    ensures
        order == Ordering::Less <==> a.vm_addr < b.vm_addr,
        order == Ordering::Equal <==> a.vm_addr == b.vm_addr,
        order == Ordering::Greater <==> a.vm_addr > b.vm_addr,
        PartialOrdSpec::partial_cmp_spec(a, b) == Some(order),
{
}

/// Sorted regions are the given ones, in ascending order of their addresses, and those that start at
/// the same address in the order in which they were given.
pub proof fn law_sorting_keeps_the_regions(
    regions: Vec<MemoryRegion>,
    sorted: Vec<MemoryRegion>,
    vm_addr: u64,
)
    requires
        call_ensures(sort_regions, (regions,), sorted),
    ensures
        sorted@.to_multiset() == regions@.to_multiset(),
        forall|i: int, j: int|
            0 <= i < j < sorted@.len() ==> (#[trigger] sorted@[i]).vm_addr <= (
            #[trigger] sorted@[j]).vm_addr,
        sorted@.filter(|region: MemoryRegion| region.vm_addr == vm_addr) == regions@.filter(
            |region: MemoryRegion| region.vm_addr == vm_addr,
        ),
{
    law_sorted_regions(regions@, vm_addr);
    assert(starting_at(sorted@, vm_addr) == starting_at(regions@, vm_addr));
}

} // verus!
