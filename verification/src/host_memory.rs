//! Host memory: the byte strings that memory regions point to.
use vstd::prelude::*;

use crate::byte_order::{ordered_value, read_ordered, ByteOrder};

verus! {

/// A byte string at a fixed host address.
#[derive(Debug)]
pub struct HostSegment {
    /// Address of the first byte
    pub base: u64,
    /// The bytes
    pub bytes: Vec<u8>,
}

impl HostSegment {
    /// Address behind the last byte.
    pub open spec fn spec_end(self) -> int {
        self.base + self.bytes@.len()
    }

    /// Do `len` bytes from `addr` on lie in this segment
    pub open spec fn spans(self, addr: int, len: int) -> bool {
        self.base <= addr && addr + len <= self.spec_end()
    }
}

/// Host memory as a set of segments that do not overlap.
#[derive(Debug)]
pub struct HostMemory {
    segments: Vec<HostSegment>,
    byte_order: ByteOrder,
}

/// Is no byte shared by two segments
pub open spec fn disjoint(a: HostSegment, b: HostSegment) -> bool {
    a.spec_end() <= b.base || b.spec_end() <= a.base
}

impl View for HostMemory {
    type V = Map<int, u8>;

    /// The byte at each mapped address.
    closed spec fn view(&self) -> Map<int, u8> {
        Map::new(|addr: int| self.holds(addr, 1), |addr: int| self.byte_at(addr))
    }
}

/// The `len` bytes of `memory` from `addr` on.
pub open spec fn bytes_at(memory: Map<int, u8>, addr: int, len: nat) -> Seq<u8> {
    Seq::new(len, |i: int| memory[addr + i])
}

/// `memory` with `data` written from `addr` on.
pub open spec fn with_bytes(memory: Map<int, u8>, addr: int, data: Seq<u8>) -> Map<int, u8> {
    Map::new(
        |a: int| memory.dom().contains(a),
        |a: int|
            if addr <= a < addr + data.len() {
                data[a - addr]
            } else {
                memory[a]
            },
    )
}

impl HostMemory {
    /// Segments end inside of the address space and do not overlap.
    pub closed spec fn well_formed(self) -> bool {
        &&& forall|i: int|
            0 <= i < self.segments@.len() ==> (#[trigger] self.segments@[i]).spec_end() <= u64::MAX
        &&& forall|i: int, j: int|
            0 <= i < j < self.segments@.len() ==> disjoint(
                #[trigger] self.segments@[i],
                #[trigger] self.segments@[j],
            )
    }

    /// Do `len` bytes from `addr` on lie in one segment
    pub closed spec fn holds(self, addr: int, len: int) -> bool {
        exists|i: int|
            0 <= i < self.segments@.len() && (#[trigger] self.segments@[i]).spans(addr, len)
    }

    spec fn segment_at(self, addr: int) -> int {
        choose|i: int|
            0 <= i < self.segments@.len() && (#[trigger] self.segments@[i]).spans(addr, 1)
    }

    spec fn byte_at(self, addr: int) -> u8 {
        let segment = self.segments@[self.segment_at(addr)];
        segment.bytes@[addr - segment.base]
    }

    proof fn lemma_byte_at(self, index: int, addr: int)
        requires
            self.well_formed(),
            0 <= index < self.segments@.len(),
            self.segments@[index].spans(addr, 1),
        ensures
            self@.dom().contains(addr),
            self@[addr] == self.segments@[index].bytes@[addr - self.segments@[index].base],
    {
        let found = self.segment_at(addr);
        if found < index {
            assert(disjoint(self.segments@[found], self.segments@[index]));
        } else if index < found {
            assert(disjoint(self.segments@[index], self.segments@[found]));
        }
    }

    /// Where a byte string lies in one segment, so does each part of it, and each of its bytes is in
    /// the memory.
    pub proof fn lemma_holds_parts(self, addr: int, len: int)
        requires
            self.holds(addr, len),
        ensures
            forall|part: int, part_len: int|
                addr <= part && part + part_len <= addr + len ==> #[trigger] self.holds(
                    part,
                    part_len,
                ),
            forall|a: int| addr <= a < addr + len ==> #[trigger] self@.dom().contains(a),
    {
        let k = choose|k: int|
            0 <= k < self.segments@.len() && (#[trigger] self.segments@[k]).spans(addr, len);
        assert forall|part: int, part_len: int|
            addr <= part && part + part_len <= addr + len implies #[trigger] self.holds(
            part,
            part_len,
        ) by {
            assert(self.segments@[k].spans(part, part_len));
        }
    }

    /// A byte is in the memory exactly if it is held.
    pub proof fn lemma_view_domain(self, addr: int)
        ensures
            self@.dom().contains(addr) <==> self.holds(addr, 1),
    {
    }

    /// Is no byte of a segment among the `len` bytes from `addr` on
    pub closed spec fn free(self, addr: int, len: int) -> bool {
        forall|i: int|
            0 <= i < self.segments@.len() ==> (#[trigger] self.segments@[i]).spec_end() <= addr
                || addr + len <= self.segments@[i].base
    }

    /// Order of the bytes of numbers in the memory
    pub closed spec fn spec_byte_order(self) -> ByteOrder {
        self.byte_order
    }

    /// Creates the memory, without any segment, of a host with the given byte order
    pub fn new(byte_order: ByteOrder) -> (memory: Self)
        ensures
            memory.well_formed(),
            memory.spec_byte_order() == byte_order,
            memory@ == Map::<int, u8>::empty(),
            forall|addr: int, len: int| #[trigger] memory.free(addr, len),
            forall|addr: int, len: int| !(#[trigger] memory.holds(addr, len)),
    {
        let memory = HostMemory { segments: Vec::new(), byte_order };
        assert(memory@ =~= Map::<int, u8>::empty());
        memory
    }

    /// Order of the bytes of numbers in the memory
    pub fn byte_order(&self) -> (order: ByteOrder)
        ensures
            order == self.spec_byte_order(),
    {
        self.byte_order
    }

    /// Adds a segment, unless it overlaps another one or leaves the address space
    pub fn insert(&mut self, base: u64, bytes: Vec<u8>) -> (added: bool)
        requires
            old(self).well_formed(),
        ensures
            final(self).well_formed(),
            final(self).spec_byte_order() == old(self).spec_byte_order(),
            added <==> base + bytes@.len() <= u64::MAX && old(self).free(
                base as int,
                bytes@.len() as int,
            ),
            !added ==> *final(self) == *old(self),
            added ==> {
                &&& final(self).holds(base as int, bytes@.len() as int)
                &&& forall|addr: int, len: int| #[trigger]
                    final(self).holds(addr, len) <==> old(self).holds(addr, len) || (base <= addr
                        && addr + len <= base + bytes@.len())
                &&& forall|addr: int, len: int| #[trigger]
                    final(self).free(addr, len) <==> old(self).free(addr, len) && (base
                        + bytes@.len() <= addr || addr + len <= base)
                &&& final(self)@ == old(self)@.union_prefer_right(
                    Map::new(
                        |addr: int| base <= addr < base + bytes@.len(),
                        |addr: int| bytes@[addr - base],
                    ),
                )
            },
    {
        let len: u64 = bytes.len() as u64;
        let end: u64 = match base.checked_add(len) {
            Some(end) => end,
            None => return false,
        };
        let mut i: usize = 0;
        while i < self.segments.len()
            invariant
                i <= self.segments@.len(),
                *self == *old(self),
                end == base + bytes@.len(),
                self.well_formed(),
                forall|j: int|
                    0 <= j < i ==> (#[trigger] self.segments@[j]).spec_end() <= base || end
                        <= self.segments@[j].base,
            decreases self.segments@.len() - i,
        {
            let segment: &HostSegment = &self.segments[i];
            assert(segment.spec_end() <= u64::MAX);
            let segment_end: u64 = segment.base + segment.bytes.len() as u64;
            if segment_end > base && end > segment.base {
                return false;
            }
            i = i + 1;
        }
        let ghost before = *self;
        let ghost data = bytes@;
        self.segments.push(HostSegment { base, bytes });
        proof {
            let count = before.segments@.len() as int;
            let addition = Map::new(
                |addr: int| base <= addr < base + data.len(),
                |addr: int| data[addr - base],
            );
            assert(self.segments@[count].spans(base as int, data.len() as int));
            assert forall|addr: int, n: int| #[trigger]
                self.holds(addr, n) <==> before.holds(addr, n) || (base <= addr && addr + n <= base
                    + data.len()) by {
                if before.holds(addr, n) {
                    let k = choose|k: int|
                        0 <= k < count && (#[trigger] before.segments@[k]).spans(addr, n);
                    assert(self.segments@[k].spans(addr, n));
                } else if base <= addr && addr + n <= base + data.len() {
                    assert(self.segments@[count].spans(addr, n));
                } else if self.holds(addr, n) {
                    let k = choose|k: int|
                        0 <= k < self.segments@.len() && (#[trigger] self.segments@[k]).spans(
                            addr,
                            n,
                        );
                    assert(k < count ==> before.segments@[k].spans(addr, n));
                }
            }
            assert forall|addr: int, n: int| #[trigger]
                self.free(addr, n) <==> before.free(addr, n) && (base + data.len() <= addr || addr
                    + n <= base) by {
                assert(self.segments@[count].spec_end() == base + data.len());
                assert forall|k: int| 0 <= k < count implies self.segments@[k]
                    == #[trigger] before.segments@[k] by {}
                if self.free(addr, n) {
                    assert forall|k: int| 0 <= k < count implies (
                    #[trigger] before.segments@[k]).spec_end() <= addr || addr + n
                        <= before.segments@[k].base by {
                        assert(self.segments@[k] == before.segments@[k]);
                    }
                }
            }
            assert forall|addr: int| true implies (#[trigger] self@.dom().contains(addr)) == (
            before@.dom().contains(addr) || addition.dom().contains(addr)) && (self.holds(
                addr,
                1,
            ) ==> self@[addr] == (if addition.dom().contains(addr) {
                addition[addr]
            } else {
                before@[addr]
            })) by {
                if self.holds(addr, 1) {
                    let k = choose|k: int|
                        0 <= k < self.segments@.len() && (#[trigger] self.segments@[k]).spans(
                            addr,
                            1,
                        );
                    self.lemma_byte_at(k, addr);
                    if k < count {
                        before.lemma_byte_at(k, addr);
                        assert(disjoint(self.segments@[k], self.segments@[count]));
                    }
                }
                if addition.dom().contains(addr) {
                    assert(self.segments@[count].spans(addr, 1));
                }
            }
            assert(self@ =~= before@.union_prefer_right(addition));
        }
        true
    }

    /// Index of the segment that holds `len` bytes from `addr` on
    fn find(&self, addr: u64, len: usize) -> (found: Option<usize>)
        requires
            self.well_formed(),
        ensures
            match found {
                Some(index) => {
                    &&& index < self.segments@.len()
                    &&& self.segments@[index as int].spans(addr as int, len as int)
                    &&& self.segments@[index as int].bytes@.len() <= usize::MAX
                },
                None => !self.holds(addr as int, len as int),
            },
    {
        let mut i: usize = 0;
        while i < self.segments.len()
            invariant
                i <= self.segments@.len(),
                self.well_formed(),
                forall|j: int|
                    0 <= j < i ==> !(#[trigger] self.segments@[j]).spans(addr as int, len as int),
            decreases self.segments@.len() - i,
        {
            let segment: &HostSegment = &self.segments[i];
            assert(segment.spec_end() <= u64::MAX);
            let end: u64 = segment.base + segment.bytes.len() as u64;
            if segment.base <= addr && addr <= end && len as u64 <= end - addr {
                return Some(i);
            }
            i = i + 1;
        }
        None
    }

    /// Reads the number in the `len` bytes from `addr` on
    pub fn read(&self, addr: u64, len: usize) -> (value: Option<u64>)
        requires
            self.well_formed(),
            len <= 8,
        ensures
            value is Some <==> self.holds(addr as int, len as int),
            value matches Some(number) ==> number == ordered_value(
                bytes_at(self@, addr as int, len as nat),
                self.spec_byte_order(),
            ),
    {
        match self.find(addr, len) {
            None => None,
            Some(index) => {
                let segment: &HostSegment = &self.segments[index];
                let start: usize = (addr - segment.base) as usize;
                proof {
                    let whole = segment.bytes@.subrange(start as int, start + len);
                    assert forall|i: int| 0 <= i < len implies whole[i] == self@[addr + i] by {
                        self.lemma_byte_at(index as int, addr + i);
                    }
                    assert(whole =~= bytes_at(self@, addr as int, len as nat));
                }
                Some(read_ordered(segment.bytes.as_slice(), start, len, self.byte_order))
            },
        }
    }

    /// Writes bytes from `addr` on
    pub fn write(&mut self, addr: u64, data: &Vec<u8>) -> (written: bool)
        requires
            old(self).well_formed(),
        ensures
            final(self).well_formed(),
            final(self).spec_byte_order() == old(self).spec_byte_order(),
            written <==> old(self).holds(addr as int, data@.len() as int),
            !written ==> *final(self) == *old(self),
            forall|a: int, n: int| final(self).holds(a, n) == old(self).holds(a, n),
            forall|a: int, n: int| final(self).free(a, n) == old(self).free(a, n),
            written ==> final(self)@ == with_bytes(old(self)@, addr as int, data@),
    {
        let index: usize = match self.find(addr, data.len()) {
            None => return false,
            Some(index) => index,
        };
        let start: usize = (addr - self.segments[index].base) as usize;
        let ghost before = *self;
        let mut i: usize = 0;
        while i < data.len()
            invariant
                i <= data@.len(),
                index < before.segments@.len(),
                before.segments@[index as int].bytes@.len() <= usize::MAX,
                start + data@.len() <= before.segments@[index as int].bytes@.len(),
                self.byte_order == before.byte_order,
                self.segments@.len() == before.segments@.len(),
                forall|k: int|
                    0 <= k < self.segments@.len() ==> {
                        &&& (#[trigger] self.segments@[k]).base == before.segments@[k].base
                        &&& self.segments@[k].bytes@.len() == before.segments@[k].bytes@.len()
                        &&& k != index ==> self.segments@[k] == before.segments@[k]
                    },
                forall|b: int|
                    0 <= b < before.segments@[index as int].bytes@.len()
                        ==> #[trigger] self.segments@[index as int].bytes@[b] == (if start <= b
                        < start + i {
                        data@[b - start]
                    } else {
                        before.segments@[index as int].bytes@[b]
                    }),
            decreases data@.len() - i,
        {
            let byte: u8 = data[i];
            self.segments[index].bytes[start + i] = byte;
            i = i + 1;
        }
        proof {
            assert forall|k: int| 0 <= k < self.segments@.len() implies (
            #[trigger] self.segments@[k]).spec_end() == before.segments@[k].spec_end() by {}
            assert(self.well_formed());
            assert forall|a: int, n: int| self.holds(a, n) == before.holds(a, n) by {
                if self.holds(a, n) {
                    let k = choose|k: int|
                        0 <= k < self.segments@.len() && (#[trigger] self.segments@[k]).spans(a, n);
                    assert(before.segments@[k].spans(a, n));
                }
                if before.holds(a, n) {
                    let k = choose|k: int|
                        0 <= k < before.segments@.len() && (#[trigger] before.segments@[k]).spans(
                            a,
                            n,
                        );
                    assert(self.segments@[k].spans(a, n));
                }
            }
            assert forall|a: int, n: int| self.free(a, n) == before.free(a, n) by {
                if self.free(a, n) {
                    assert forall|k: int| 0 <= k < before.segments@.len() implies (
                    #[trigger] before.segments@[k]).spec_end() <= a || a + n
                        <= before.segments@[k].base by {
                        assert(self.segments@[k].spec_end() == before.segments@[k].spec_end());
                    }
                }
                if before.free(a, n) {
                    assert forall|k: int| 0 <= k < self.segments@.len() implies (
                    #[trigger] self.segments@[k]).spec_end() <= a || a + n
                        <= self.segments@[k].base by {
                        assert(self.segments@[k].spec_end() == before.segments@[k].spec_end());
                    }
                }
            }
            let target = with_bytes(before@, addr as int, data@);
            assert forall|a: int| #[trigger] self@.dom().contains(a) implies self@[a]
                == target[a] by {
                let k = choose|k: int|
                    0 <= k < self.segments@.len() && (#[trigger] self.segments@[k]).spans(a, 1);
                self.lemma_byte_at(k, a);
                before.lemma_byte_at(k, a);
                if addr <= a < addr + data@.len() {
                    before.lemma_byte_at(index as int, a);
                    self.lemma_byte_at(index as int, a);
                } else if k == index {
                    let b = a - before.segments@[k].base;
                    assert(self.segments@[index as int].bytes@[b]
                        == before.segments@[index as int].bytes@[b]);
                }
            }
            assert(self@ =~= target);
        }
        true
    }
}

/// A read at the place of a write gives back what was written.
pub proof fn law_read_after_write(memory: Map<int, u8>, addr: int, data: Seq<u8>)
    requires
        forall|i: int| 0 <= i < data.len() ==> memory.dom().contains(#[trigger] (addr + i)),
    ensures
        bytes_at(with_bytes(memory, addr, data), addr, data.len()) =~= data,
{
}

/// A write changes nothing that is read elsewhere.
pub proof fn law_write_is_local(
    memory: Map<int, u8>,
    addr: int,
    data: Seq<u8>,
    other: int,
    len: nat,
)
    requires
        other + len <= addr || addr + data.len() <= other,
        forall|i: int| 0 <= i < len ==> memory.dom().contains(#[trigger] (other + i)),
    ensures
        bytes_at(with_bytes(memory, addr, data), other, len) =~= bytes_at(memory, other, len),
{
}

/// A number is read exactly where all its bytes lie in one segment, and has these bytes: from the
/// lowest to the highest one or the other way round.
pub proof fn law_read_number(memory: &HostMemory, addr: u64, len: usize, value: Option<u64>, i: nat)
    requires
        call_ensures(HostMemory::read, (memory, addr, len), value),
        i < len,
    ensures
        value is Some <==> memory.holds(addr as int, len as int),
        value matches Some(number) ==> number as int / crate::bytes::pow256(i) as int % 256
            == memory@[addr + if memory.spec_byte_order() is Little {
            i as int
        } else {
            len - 1 - i
        }],
{
    let bytes = bytes_at(memory@, addr as int, len as nat);
    let order = memory.spec_byte_order();
    crate::byte_order::lemma_in_order_twice(bytes, order);
    crate::bytes::law_digit_of_value(crate::byte_order::in_order(bytes, order), i);
}

/// A written memory has the written bytes where they were written to, and the former ones elsewhere.
pub proof fn law_written_bytes(memory: Map<int, u8>, addr: int, data: Seq<u8>, at: int)
    requires
        memory.dom().contains(at),
    ensures
        with_bytes(memory, addr, data).dom() == memory.dom(),
        addr <= at < addr + data.len() ==> with_bytes(memory, addr, data)[at] == data[at - addr],
        !(addr <= at < addr + data.len()) ==> with_bytes(memory, addr, data)[at] == memory[at],
{
    assert(with_bytes(memory, addr, data).dom() =~= memory.dom());
}

/// A segment is added exactly if it ends inside of the address space and no byte of it is in use. Its
/// bytes are then in the memory, and all others stay as they are.
pub proof fn law_added_segment(
    memory: &mut HostMemory,
    base: u64,
    bytes: Vec<u8>,
    added: bool,
    at: int,
)
    requires
        call_ensures(HostMemory::insert, (memory, base, bytes), added),
    ensures
        added <==> base + bytes@.len() <= u64::MAX && old(memory).free(
            base as int,
            bytes@.len() as int,
        ),
        !added ==> *final(memory) == *old(memory),
        added && base <= at < base + bytes@.len() ==> {
            &&& final(memory)@.dom().contains(at)
            &&& final(memory)@[at] == bytes@[at - base]
        },
        added && !(base <= at < base + bytes@.len()) ==> {
            &&& final(memory)@.dom().contains(at) <==> old(memory)@.dom().contains(at)
            &&& old(memory)@.dom().contains(at) ==> final(memory)@[at] == old(memory)@[at]
        },
{
}

/// Bytes are written exactly where they all lie in one segment.
pub proof fn law_written_memory(
    memory: &mut HostMemory,
    addr: u64,
    data: &Vec<u8>,
    written: bool,
    at: int,
)
    requires
        call_ensures(HostMemory::write, (memory, addr, data), written),
    ensures
        written <==> old(memory).holds(addr as int, data@.len() as int),
        !written ==> *final(memory) == *old(memory),
        written ==> final(memory)@.dom() == old(memory)@.dom(),
        written && addr <= at < addr + data@.len() ==> final(memory)@[at] == data@[at - addr],
        written && old(memory)@.dom().contains(at) && !(addr <= at < addr + data@.len())
            ==> final(memory)@[at] == old(memory)@[at],
        final(memory).spec_byte_order() == old(memory).spec_byte_order(),
{
    if written {
        old(memory).lemma_holds_parts(addr as int, data@.len() as int);
        assert(final(memory)@.dom() =~= old(memory)@.dom());
    }
}

} // verus!
