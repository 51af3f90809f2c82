//! A small cache of the latest lookups of a memory mapping.
use core::ops::Range;
use vstd::prelude::*;

verus! {

/// Number of lookups that a cache remembers.
pub const CACHE_SIZE: usize = 4;

/// One remembered lookup: addresses in `start..end` belong to the region `region_index`.
#[derive(Clone, Copy, Debug, PartialEq, Eq, Structural)]
pub struct CacheEntry {
    /// First address
    pub start: u64,
    /// Address behind the last one
    pub end: u64,
    /// Index of the region
    pub region_index: usize,
}

impl CacheEntry {
    /// An entry that remembers nothing.
    pub open spec fn vacant() -> CacheEntry {
        CacheEntry { start: 0, end: 0, region_index: 0 }
    }

    /// Does the entry answer for the address
    pub open spec fn covers(self, vm_addr: u64) -> bool {
        self.start <= vm_addr < self.end
    }
}

/// The region of the first entry that answers for the address.
pub open spec fn first_hit(entries: Seq<CacheEntry>, vm_addr: u64) -> Option<usize>
    decreases entries.len(),
{
    if entries.len() == 0 {
        None
    } else if entries[0].covers(vm_addr) {
        Some(entries[0].region_index)
    } else {
        first_hit(entries.drop_first(), vm_addr)
    }
}

/// The entries of a cache after one more lookup: the new one first, without the oldest one.
pub open spec fn remembered(entries: Seq<CacheEntry>, entry: CacheEntry) -> Seq<CacheEntry> {
    seq![entry] + entries.take(CACHE_SIZE - 1)
}

/// The latest lookup answers for all addresses of its range.
pub proof fn law_latest_lookup_answers(
    entries: Seq<CacheEntry>,
    entry: CacheEntry,
    vm_addr: u64,
)
    requires
        entry.covers(vm_addr),
    ensures
        first_hit(remembered(entries, entry), vm_addr) == Some(entry.region_index),
{
}

/// A cache holds the latest four lookups, whatever it held before.
pub proof fn law_cache_forgets_the_oldest(
    entries: Seq<CacheEntry>,
    a: CacheEntry,
    b: CacheEntry,
    c: CacheEntry,
    d: CacheEntry,
)
    requires
        entries.len() == CACHE_SIZE,
    ensures
        remembered(remembered(remembered(remembered(entries, a), b), c), d) == seq![d, c, b, a],
{
    let first = remembered(entries, a);
    let second = remembered(first, b);
    let third = remembered(second, c);
    assert(remembered(third, d) =~= seq![d, c, b, a]);
}

/// What a cache answers was entered for a range that holds the address, and a cache without
/// such an entry answers nothing.
pub proof fn law_first_hit(entries: Seq<CacheEntry>, vm_addr: u64)
    ensures
        match first_hit(entries, vm_addr) {
            Some(region_index) => exists|i: int|
                0 <= i < entries.len() && (#[trigger] entries[i]).covers(vm_addr)
                    && entries[i].region_index == region_index && forall|j: int|
                    0 <= j < i ==> !(#[trigger] entries[j]).covers(vm_addr),
            None => forall|i: int| 0 <= i < entries.len() ==> !(#[trigger] entries[i]).covers(vm_addr),
        },
    decreases entries.len(),
{
    if entries.len() > 0 {
        let rest = entries.drop_first();
        law_first_hit(rest, vm_addr);
        if !entries[0].covers(vm_addr) {
            match first_hit(rest, vm_addr) {
                Some(region_index) => {
                    let k = choose|i: int|
                        0 <= i < rest.len() && (#[trigger] rest[i]).covers(vm_addr)
                            && rest[i].region_index == region_index && forall|j: int|
                            0 <= j < i ==> !(#[trigger] rest[j]).covers(vm_addr);
                    assert(entries[k + 1] == rest[k]);
                    assert forall|j: int| 0 <= j < k + 1 implies !(
                    #[trigger] entries[j]).covers(vm_addr) by {
                        if j > 0 {
                            assert(entries[j] == rest[j - 1]);
                        }
                    }
                },
                None => {
                    assert forall|i: int| 0 <= i < entries.len() implies !(
                    #[trigger] entries[i]).covers(vm_addr) by {
                        if i > 0 {
                            assert(entries[i] == rest[i - 1]);
                        }
                    }
                },
            }
        }
    }
}

/// Fast, small linear cache used to speed up unaligned memory mapping.
#[derive(Clone, Copy, Debug)]
pub struct MappingCache {
    /// The cached entries.
    entries: [CacheEntry; 4],
    /// Index of the last accessed memory region.
    ///
    /// New entries are written backwards, so that find() can always scan
    /// forward which is faster.
    head: usize,
}

impl View for MappingCache {
    type V = Seq<CacheEntry>;

    /// The entries, the latest first.
    closed spec fn view(&self) -> Seq<CacheEntry> {
        Seq::new(CACHE_SIZE as nat, |i: int| self.entries@[(self.head + i) % CACHE_SIZE as int])
    }
}

impl MappingCache {
    #[verifier::type_invariant]
    spec fn well_formed(self) -> bool {
        self.head < CACHE_SIZE
    }

    /// The entries of a cache that remembers nothing.
    pub open spec fn spec_empty() -> Seq<CacheEntry> {
        Seq::new(CACHE_SIZE as nat, |i: int| CacheEntry::vacant())
    }

    /// Creates a cache that remembers nothing
    pub fn new() -> (cache: MappingCache)
        ensures
            cache@ == MappingCache::spec_empty(),
    {
        let vacant = CacheEntry { start: 0, end: 0, region_index: 0 };
        let cache = MappingCache { entries: [vacant, vacant, vacant, vacant], head: 0 };
        assert(cache@ =~= MappingCache::spec_empty());
        cache
    }

    /// Returns the region of the latest entry that holds the address
    pub fn find(&self, vm_addr: u64) -> (region_index: Option<usize>)
        ensures
            region_index == first_hit(self@, vm_addr),
            self@.len() == CACHE_SIZE,
    {
        proof {
            use_type_invariant(self);
        }
        let mut i: usize = 0;
        assert(self@.skip(0) =~= self@);
        while i < CACHE_SIZE
            invariant
                i <= CACHE_SIZE,
                self.head < CACHE_SIZE,
                first_hit(self@.skip(i as int), vm_addr) == first_hit(self@, vm_addr),
            decreases CACHE_SIZE - i,
        {
            let index: usize = (self.head + i) % CACHE_SIZE;
            let entry: CacheEntry = self.entries[index];
            assert(self@.skip(i as int)[0] == entry);
            if entry.start <= vm_addr && vm_addr < entry.end {
                return Some(entry.region_index);
            }
            assert(self@.skip(i as int).drop_first() =~= self@.skip(i + 1));
            i = i + 1;
        }
        None
    }

    /// Remembers a lookup, and forgets the oldest one
    pub fn insert(&mut self, vm_range: Range<u64>, region_index: usize)
        ensures
            final(self)@ == remembered(
                old(self)@,
                CacheEntry { start: vm_range.start, end: vm_range.end, region_index },
            ),
            old(self)@.len() == CACHE_SIZE,
    {
        proof {
            use_type_invariant(&*self);
        }
        let ghost before = self@;
        self.head = (self.head + CACHE_SIZE - 1) % CACHE_SIZE;
        let head: usize = self.head;
        let entry = CacheEntry { start: vm_range.start, end: vm_range.end, region_index };
        self.entries[head] = entry;
        assert(self@ =~= remembered(before, entry));
    }

    /// Forgets everything
    pub fn flush(&mut self)
        ensures
            final(self)@ == MappingCache::spec_empty(),
    {
        *self = MappingCache::new();
    }
}

/// A cache answers with the region of the latest lookup whose range holds the address, and with
/// nothing if there is none among those that it holds.
pub proof fn law_cache_answers(cache: &MappingCache, vm_addr: u64, region_index: Option<usize>)
    requires
        call_ensures(MappingCache::find, (cache, vm_addr), region_index),
    ensures
        cache@.len() == 4,
        match region_index {
            Some(region_index) => exists|i: int|
                {
                    &&& 0 <= i < cache@.len()
                    &&& (#[trigger] cache@[i]).start <= vm_addr < cache@[i].end
                    &&& cache@[i].region_index == region_index
                    &&& forall|j: int|
                        0 <= j < i ==> !((#[trigger] cache@[j]).start <= vm_addr < cache@[j].end)
                },
            None => forall|i: int|
                0 <= i < cache@.len() ==> !((#[trigger] cache@[i]).start <= vm_addr
                    < cache@[i].end),
        },
{
    law_first_hit(cache@, vm_addr);
    if let Some(region_index) = region_index {
        let i = choose|i: int|
            0 <= i < cache@.len() && (#[trigger] cache@[i]).covers(vm_addr)
                && cache@[i].region_index == region_index && forall|j: int|
                0 <= j < i ==> !(#[trigger] cache@[j]).covers(vm_addr);
        assert forall|j: int| 0 <= j < i implies !((#[trigger] cache@[j]).start <= vm_addr
            < cache@[j].end) by {
            assert(!cache@[j].covers(vm_addr));
        }
        assert(cache@[i].start <= vm_addr < cache@[i].end);
    } else {
        assert forall|i: int| 0 <= i < cache@.len() implies !((#[trigger] cache@[i]).start
            <= vm_addr < cache@[i].end) by {
            assert(!cache@[i].covers(vm_addr));
        }
    }
}

/// A lookup that is remembered stands in front, and moves the others back by one. An empty cache
/// holds four empty ranges.
pub proof fn law_remembered_lookups(entries: Seq<CacheEntry>, entry: CacheEntry, i: int)
    requires
        entries.len() == 4,
    ensures
        remembered(entries, entry).len() == 4,
        remembered(entries, entry)[0] == entry,
        0 < i < 4 ==> remembered(entries, entry)[i] == entries[i - 1],
        MappingCache::spec_empty().len() == 4,
        0 <= i < 4 ==> MappingCache::spec_empty()[i].start == 0
            && MappingCache::spec_empty()[i].end == 0,
{
}

/// A lookup that is inserted stands in front of the others, of which the oldest is forgotten.
pub proof fn law_inserted_lookup(
    cache: &mut MappingCache,
    vm_range: Range<u64>,
    region_index: usize,
    i: int,
)
    requires
        call_ensures(MappingCache::insert, (cache, vm_range, region_index), ()),
    ensures
        final(cache)@.len() == 4 && old(cache)@.len() == 4,
        final(cache)@[0].start == vm_range.start && final(cache)@[0].end == vm_range.end,
        final(cache)@[0].region_index == region_index,
        0 < i < 4 ==> final(cache)@[i] == old(cache)@[i - 1],
{
}

/// Nothing is found in a cache that was flushed, nor in a new one.
pub proof fn law_flushed_cache(cache: &mut MappingCache, new: MappingCache, vm_addr: u64, i: int)
    requires
        call_ensures(MappingCache::flush, (cache,), ()),
        call_ensures(MappingCache::new, (), new),
    ensures
        0 <= i < final(cache)@.len() ==> !(final(cache)@[i].start <= vm_addr
            < final(cache)@[i].end),
        0 <= i < new@.len() ==> !(new@[i].start <= vm_addr < new@[i].end),
        new@.len() == 4 && final(cache)@.len() == 4,
{
}

} // verus!
