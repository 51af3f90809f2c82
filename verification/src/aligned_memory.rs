//! Aligned memory
use vstd::layout::valid_layout;
use vstd::prelude::*;

use crate::arith::clamp_usize;
use crate::byte_order::{native_order, ordered_bytes, ordered_value, to_ordered, ByteOrder};
use crate::bytes::bytes_equal;
use crate::memory_region::slice_addresses;

verus! {

/// Scalar types, aka "plain old data"
///
/// In memory, a scalar is its two's complement in the byte order of the machine.
pub trait Pod: Copy {
    /// Size of the type in bytes.
    spec fn spec_size() -> nat;

    /// The value, as a number.
    spec fn spec_number(self) -> int;

    /// Size of the type in bytes.
    fn size() -> (size: usize)
        ensures
            size == Self::spec_size(),
            1 <= size <= 8,
    ;

    /// The two's complement of the value in 64 bits.
    fn to_word(self) -> (word: u64)
        ensures
            word == self.spec_number() % 0x1_0000_0000_0000_0000,
    ;
}

/// The bytes of a scalar in memory.
pub open spec fn pod_bytes<T: Pod>(value: T, order: ByteOrder) -> Seq<u8> {
    ordered_bytes((value.spec_number() % 0x1_0000_0000_0000_0000) as nat, T::spec_size(), order)
}

/// Scalars that a 64 bit word holds without a change of value.
pub trait UnsignedPod: Pod {
    /// The type fits a 64 bit word, and the value, which is not negative, fits the type.
    proof fn lemma_number_fits(self)
        ensures
            1 <= Self::spec_size() <= 8,
            0 <= self.spec_number() < crate::bytes::pow256(Self::spec_size()),
    ;
}

fn word_of(value: i64) -> (word: u64)
    ensures
        word == value as int % 0x1_0000_0000_0000_0000,
{
    if value >= 0 {
        value as u64
    } else {
        u64::MAX - (-(value + 1)) as u64
    }
}

impl Pod for u8 {
    open spec fn spec_size() -> nat {
        1
    }

    open spec fn spec_number(self) -> int {
        self as int
    }

    fn size() -> (size: usize) {
        1
    }

    fn to_word(self) -> (word: u64) {
        self as u64
    }
}

impl Pod for u16 {
    open spec fn spec_size() -> nat {
        2
    }

    open spec fn spec_number(self) -> int {
        self as int
    }

    fn size() -> (size: usize) {
        2
    }

    fn to_word(self) -> (word: u64) {
        self as u64
    }
}

impl Pod for u32 {
    open spec fn spec_size() -> nat {
        4
    }

    open spec fn spec_number(self) -> int {
        self as int
    }

    fn size() -> (size: usize) {
        4
    }

    fn to_word(self) -> (word: u64) {
        self as u64
    }
}

impl Pod for u64 {
    open spec fn spec_size() -> nat {
        8
    }

    open spec fn spec_number(self) -> int {
        self as int
    }

    fn size() -> (size: usize) {
        8
    }

    fn to_word(self) -> (word: u64) {
        self
    }
}

impl Pod for i8 {
    open spec fn spec_size() -> nat {
        1
    }

    open spec fn spec_number(self) -> int {
        self as int
    }

    fn size() -> (size: usize) {
        1
    }

    fn to_word(self) -> (word: u64) {
        word_of(self as i64)
    }
}

impl Pod for i16 {
    open spec fn spec_size() -> nat {
        2
    }

    open spec fn spec_number(self) -> int {
        self as int
    }

    fn size() -> (size: usize) {
        2
    }

    fn to_word(self) -> (word: u64) {
        word_of(self as i64)
    }
}

impl Pod for i32 {
    open spec fn spec_size() -> nat {
        4
    }

    open spec fn spec_number(self) -> int {
        self as int
    }

    fn size() -> (size: usize) {
        4
    }

    fn to_word(self) -> (word: u64) {
        word_of(self as i64)
    }
}

impl Pod for i64 {
    open spec fn spec_size() -> nat {
        8
    }

    open spec fn spec_number(self) -> int {
        self as int
    }

    fn size() -> (size: usize) {
        8
    }

    fn to_word(self) -> (word: u64) {
        word_of(self)
    }
}

impl UnsignedPod for u8 {
    proof fn lemma_number_fits(self) {
        crate::bytes::lemma_pow256_values();
    }
}

impl UnsignedPod for u16 {
    proof fn lemma_number_fits(self) {
        crate::bytes::lemma_pow256_values();
    }
}

impl UnsignedPod for u32 {
    proof fn lemma_number_fits(self) {
        crate::bytes::lemma_pow256_values();
    }
}

impl UnsignedPod for u64 {
    proof fn lemma_number_fits(self) {
        crate::bytes::lemma_pow256_values();
    }
}

/// The bytes of a scalar in memory.
pub fn pod_to_bytes<T: Pod>(value: T, order: ByteOrder) -> (bytes: Vec<u8>)
    ensures
        bytes@ == pod_bytes(value, order),
        bytes@.len() == T::spec_size(),
{
    let size: usize = T::size();
    let word: u64 = value.to_word();
    proof {
        crate::bytes::lemma_le_bytes_len(word as nat, size as nat);
    }
    to_ordered(word, size, order)
}

/// Reading the bytes of an unsigned scalar as a number, in the order in which they were written,
/// gives the scalar.
pub proof fn law_pod_round_trip<T: UnsignedPod>(value: T, order: ByteOrder)
    ensures
        pod_bytes(value, order).len() == T::spec_size(),
        ordered_value(pod_bytes(value, order), order) == value.spec_number(),
{
    value.lemma_number_fits();
    crate::bytes::lemma_pow256_values();
    crate::bytes::lemma_pow256_increases(T::spec_size(), 8);
    crate::byte_order::law_ordered_round_trip(
        value.spec_number() as nat,
        T::spec_size(),
        order,
    );
}

/// In memory, a scalar has the bytes of its two's complement, from the lowest to the highest one or
/// the other way round.
pub proof fn law_pod_byte<T: Pod>(value: T, order: ByteOrder, i: nat)
    requires
        i < T::spec_size() <= 8,
    ensures
        pod_bytes(value, order).len() == T::spec_size(),
        pod_bytes(value, order)[if order is Little {
            i as int
        } else {
            T::spec_size() - 1 - i
        }] == value.spec_number() / crate::bytes::pow256(i) as int % 256,
{
    let number = value.spec_number();
    let word = number % 0x1_0000_0000_0000_0000;
    crate::bytes::law_byte_of_number(word as nat, T::spec_size(), i);
    lemma_digit_of_word(number, i);
}

/// Reducing a number to 64 bits leaves its eight lowest digits in base 256 as they are.
proof fn lemma_digit_of_word(number: int, i: nat)
    requires
        i < 8,
    ensures
        number / crate::bytes::pow256(i) as int % 256 == number % 0x1_0000_0000_0000_0000
            / crate::bytes::pow256(i) as int % 256,
{
    crate::bytes::lemma_pow256_values();
    if i == 0 {
        lemma_digit_at(number, 1, 0x100_0000_0000_0000);
    } else if i == 1 {
        lemma_digit_at(number, 0x100, 0x1_0000_0000_0000);
    } else if i == 2 {
        lemma_digit_at(number, 0x1_0000, 0x100_0000_0000);
    } else if i == 3 {
        lemma_digit_at(number, 0x100_0000, 0x1_0000_0000);
    } else if i == 4 {
        lemma_digit_at(number, 0x1_0000_0000, 0x100_0000);
    } else if i == 5 {
        lemma_digit_at(number, 0x100_0000_0000, 0x1_0000);
    } else if i == 6 {
        lemma_digit_at(number, 0x1_0000_0000_0000, 0x100);
    } else {
        lemma_digit_at(number, 0x100_0000_0000_0000, 1);
    }
}

/// The digit at the place with the value `place` stays the same, where `above` are the places that
/// lie above it.
proof fn lemma_digit_at(number: int, place: int, above: int)
    requires
        place > 0,
        above > 0,
        place * (256 * above) == 0x1_0000_0000_0000_0000,
    ensures
        number / place % 256 == number % 0x1_0000_0000_0000_0000 / place % 256,
{
    let quotient = number / 0x1_0000_0000_0000_0000;
    let word = number % 0x1_0000_0000_0000_0000;
    let high = quotient * above;
    vstd::arithmetic::div_mod::lemma_fundamental_div_mod(word, place);
    assert(number == (256 * high + word / place) * place + word % place) by (nonlinear_arith)
        requires
            number == quotient * 0x1_0000_0000_0000_0000 + word,
            high == quotient * above,
            place * (256 * above) == 0x1_0000_0000_0000_0000,
            word == place * (word / place) + word % place,
    ;
    vstd::arithmetic::div_mod::lemma_fundamental_div_mod_converse(
        number,
        place,
        256 * high + word / place,
        word % place,
    );
    vstd::arithmetic::div_mod::lemma_mod_multiples_vanish(high, word / place, 256);
}

/// A scalar has as many bytes as its name says, and its number is its value.
pub proof fn law_scalars(a: u8, b: u16, c: u32, d: u64, e: i8, f: i16, g: i32, h: i64)
    ensures
        u8::spec_size() == 1 && a.spec_number() == a,
        u16::spec_size() == 2 && b.spec_number() == b,
        u32::spec_size() == 4 && c.spec_number() == c,
        u64::spec_size() == 8 && d.spec_number() == d,
        i8::spec_size() == 1 && e.spec_number() == e,
        i16::spec_size() == 2 && f.spec_number() == f,
        i32::spec_size() == 4 && g.spec_number() == g,
        i64::spec_size() == 8 && h.spec_number() == h,
{
}

/// Refused growth of an [`AlignedMemory`].
#[derive(Clone, Copy, Debug, PartialEq, Eq, Structural)]
pub enum WriteError {
    /// The data does not fit the capacity
    InvalidInput,
}

impl WriteError {
    /// Text for the user
    pub fn message(&self) -> (text: &'static str)
        ensures
            text@ == "aligned memory fill_write failed"@,
    {
        "aligned memory fill_write failed"
    }
}

/// Provides backing storage for [`AlignedMemory`]. Holds a block of bytes with the
/// requested alignment, and can be increased in length up to the requested capacity.
#[derive(Debug)]
struct AlignedVec<const ALIGN: usize> {
    /// The block, with room to start it at an aligned address
    storage: Vec<u8>,
    /// Address of `storage`, which is never moved
    base: usize,
    /// Where in `storage` the data starts
    offset: usize,
    /// Number of bytes that were written
    length: usize,
    /// Number of bytes that can be written
    capacity: usize,
}

/// Can a block of `max_len` bytes be allocated with this alignment. To align an empty block, there
/// must be room for the bytes in front of it.
pub open spec fn can_allocate(max_len: usize, align: usize) -> bool {
    &&& align != 0
    &&& if max_len == 0 {
        align - 1 <= isize::MAX
    } else {
        valid_layout(max_len, align)
    }
}

/// Distance from an address to the next one that is aligned
pub fn aligned_offset(addr: usize, align: usize) -> (offset: usize)
    requires
        align > 0,
    ensures
        offset < align,
        (addr + offset) % (align as int) == 0,
{
    let misaligned: usize = addr % align;
    proof {
        lemma_aligned_offset(addr as int, align as int);
    }
    if misaligned == 0 {
        0
    } else {
        align - misaligned
    }
}

proof fn lemma_can_allocate(max_len: usize, align: usize)
    requires
        can_allocate(max_len, align),
    ensures
        align > 0,
        max_len + align - 1 <= usize::MAX,
{
    assert(0 <= isize::MAX as int % align as int);
    if align > isize::MAX {
        vstd::arithmetic::div_mod::lemma_small_mod(isize::MAX as nat, align as nat);
    }
}

proof fn lemma_aligned_offset(base: int, align: int)
    requires
        base >= 0,
        align > 0,
    ensures
        base % align == 0 ==> (base + 0) % align == 0,
        base % align != 0 ==> (base + (align - base % align)) % align == 0,
{
    vstd::arithmetic::div_mod::lemma_fundamental_div_mod(base, align);
    let quotient = base / align;
    assert(base + (align - base % align) == (quotient + 1) * align) by (nonlinear_arith)
        requires
            base == align * quotient + base % align,
    ;
    vstd::arithmetic::div_mod::lemma_mod_multiples_basic(quotient + 1, align);
}

impl<const ALIGN: usize> AlignedVec<ALIGN> {
    spec fn well_formed(self) -> bool {
        &&& ALIGN > 0
        &&& self.length <= self.capacity
        &&& self.offset + self.capacity <= self.storage@.len()
        &&& self.base + self.storage@.len() <= usize::MAX
        &&& (self.base + self.offset) % ALIGN as int == 0
        &&& self.is_placed()
    }

    /// Is `base` where [`slice_addresses`] found a slice of the length of `storage`
    spec fn is_placed(self) -> bool {
        exists|slice: &[u8], range: (usize, usize)|
            #[trigger] call_ensures(slice_addresses, (slice,), range) && range.0 == self.base
                && slice@.len() == self.storage@.len()
    }

    /// All bytes up to the capacity, written or not.
    spec fn block(self) -> Seq<u8> {
        self.storage@.subrange(self.offset as int, self.offset + self.capacity)
    }

    /// The written bytes.
    spec fn data(self) -> Seq<u8> {
        self.storage@.subrange(self.offset as int, self.offset + self.length)
    }

    /// Allocates a block with the requested alignment
    fn new(max_len: usize) -> (block: Self)
        requires
            can_allocate(max_len, ALIGN),
        ensures
            block.well_formed(),
            block.length == 0,
            block.capacity == max_len,
            block.block() == Seq::new(max_len as nat, |i: int| 0u8),
    {
        proof {
            lemma_can_allocate(max_len, ALIGN);
        }
        let storage: Vec<u8> = vec![0u8; max_len + (ALIGN - 1)];
        let (base, _end): (usize, usize) = slice_addresses(storage.as_slice());
        let offset: usize = aligned_offset(base, ALIGN);
        let block = AlignedVec { storage, base, offset, length: 0, capacity: max_len };
        assert(block.block() =~= Seq::new(max_len as nat, |i: int| 0u8));
        block
    }

    fn as_slice(&self) -> (slice: &[u8])
        requires
            self.well_formed(),
        ensures
            slice@ == self.data(),
    {
        &self.storage.as_slice()[self.offset..self.offset + self.length]
    }

    fn as_slice_mut(&mut self) -> (slice: &mut [u8])
        requires
            old(self).well_formed(),
        ensures
            slice@ == old(self).data(),
            final(slice)@.len() == slice@.len() ==> {
                &&& final(self).well_formed()
                &&& final(self).data() == final(slice)@
                &&& final(self).length == old(self).length
                &&& final(self).capacity == old(self).capacity
                &&& final(self).base == old(self).base
                &&& final(self).offset == old(self).offset
                &&& forall|i: int|
                    old(self).length <= i < old(self).capacity ==> (#[trigger] final(
                        self).block()[i]) == old(self).block()[i]
            },
    {
        let offset: usize = self.offset;
        let length: usize = self.length;
        let (_padding, data): (&mut [u8], &mut [u8]) = self.storage.as_mut_slice().split_at_mut(
            offset,
        );
        let (slice, _rest): (&mut [u8], &mut [u8]) = data.split_at_mut(length);
        slice
    }

    /// Index behind a write of `bytes` bytes, if there is room for it
    fn write_index_for(&self, bytes: usize) -> (new_len: Option<usize>)
        requires
            self.well_formed(),
        ensures
            match new_len {
                Some(index) => index == self.length + bytes && index <= self.capacity,
                None => self.length + bytes > self.capacity,
            },
    {
        match self.length.checked_add(bytes) {
            Some(index) => if index <= self.capacity {
                Some(index)
            } else {
                None
            },
            None => None,
        }
    }

    fn len(&self) -> (len: usize)
        ensures
            len == self.length,
    {
        self.length
    }

    fn capacity(&self) -> (capacity: usize)
        ensures
            capacity == self.capacity,
    {
        self.capacity
    }

    fn is_empty(&self) -> (empty: bool)
        ensures
            empty == (self.length == 0),
    {
        self.len() == 0
    }

    /// Writes one byte behind the written ones
    fn push(&mut self, byte: u8)
        requires
            old(self).well_formed(),
            old(self).length < old(self).capacity,
        ensures
            final(self).well_formed(),
            final(self).capacity == old(self).capacity,
            final(self).base == old(self).base,
            final(self).offset == old(self).offset,
            final(self).length == old(self).length + 1,
            final(self).data() == old(self).data().push(byte),
            final(self).block() == old(self).block().update(old(self).length as int, byte),
    {
        let ghost before = *self;
        let index: usize = self.offset + self.length;
        self.storage[index] = byte;
        self.length = self.length + 1;
        assert(self.data() =~= before.data().push(byte));
        assert(self.block() =~= before.block().update(before.length as int, byte));
    }

    /// Declares the next `count` bytes, whatever they hold, as written
    fn advance(&mut self, count: usize)
        requires
            old(self).well_formed(),
            old(self).length + count <= old(self).capacity,
        ensures
            final(self).well_formed(),
            final(self).capacity == old(self).capacity,
            final(self).base == old(self).base,
            final(self).offset == old(self).offset,
            final(self).length == old(self).length + count,
            final(self).block() == old(self).block(),
            final(self).data() == old(self).block().take(old(self).length + count),
    {
        let ghost before = *self;
        self.length = self.length + count;
        assert(self.data() =~= before.block().take(before.length + count));
    }
}

/// Provides u8 slices at a specified alignment
#[derive(Debug)]
pub struct AlignedMemory<const ALIGN: usize> {
    mem: AlignedVec<ALIGN>,
    zero_up_to_max_len: bool,
}

impl<const ALIGN: usize> View for AlignedMemory<ALIGN> {
    type V = Seq<u8>;

    /// The bytes that were written.
    closed spec fn view(&self) -> Seq<u8> {
        self.mem.data()
    }
}

impl<const ALIGN: usize> AlignedMemory<ALIGN> {
    /// The block is intact, and memory that claims to be zeroed is, behind the written bytes.
    pub closed spec fn well_formed(self) -> bool {
        &&& self.mem.well_formed()
        &&& self.zero_up_to_max_len ==> forall|i: int|
            self.mem.length <= i < self.mem.capacity ==> #[trigger] self.mem.block()[i] == 0
    }

    /// Number of bytes that can be written in all.
    pub closed spec fn spec_capacity(self) -> nat {
        self.mem.capacity as nat
    }

    /// Was the memory zeroed when it was allocated
    pub closed spec fn spec_zeroed(self) -> bool {
        self.zero_up_to_max_len
    }

    /// Host address of the first byte.
    pub closed spec fn spec_data_addr(self) -> int {
        self.mem.base + self.mem.offset
    }

    /// Returns a filled AlignedMemory by copying the given slice
    pub fn from_slice(data: &[u8]) -> (memory: Self)
        requires
            can_allocate(data.len(), ALIGN),
        ensures
            memory.well_formed(),
            memory@ == data@,
            memory.spec_capacity() == data@.len(),
            !memory.spec_zeroed(),
    {
        let max_len: usize = data.len();
        let mut mem = AlignedVec::<ALIGN>::new(max_len);
        let mut i: usize = 0;
        assert(mem.data() =~= data@.take(0));
        while i < max_len
            invariant
                i <= max_len,
                max_len == data@.len(),
                mem.well_formed(),
                mem.length == i,
                mem.capacity == max_len,
                mem.data() == data@.take(i as int),
            decreases max_len - i,
        {
            mem.push(data[i]);
            assert(data@.take(i as int).push(data@[i as int]) =~= data@.take(i + 1));
            i = i + 1;
        }
        assert(data@.take(max_len as int) =~= data@);
        AlignedMemory { mem, zero_up_to_max_len: false }
    }

    /// Returns a filled AlignedMemory by copying the given bytes
    pub fn from(bytes: &[u8]) -> (memory: Self)
        requires
            can_allocate(bytes.len(), ALIGN),
        ensures
            memory.well_formed(),
            memory@ == bytes@,
            memory.spec_capacity() == bytes@.len(),
            !memory.spec_zeroed(),
    {
        AlignedMemory::from_slice(bytes)
    }

    /// Returns a new empty AlignedMemory with preallocated memory
    pub fn with_capacity(max_len: usize) -> (memory: Self)
        requires
            can_allocate(max_len, ALIGN),
        ensures
            memory.well_formed(),
            memory@ == Seq::<u8>::empty(),
            memory.spec_capacity() == max_len,
            !memory.spec_zeroed(),
    {
        let mem = AlignedVec::<ALIGN>::new(max_len);
        assert(mem.data() =~= Seq::<u8>::empty());
        AlignedMemory { mem, zero_up_to_max_len: false }
    }

    /// Returns a new empty AlignedMemory with zero initialized preallocated memory
    pub fn with_capacity_zeroed(max_len: usize) -> (memory: Self)
        requires
            can_allocate(max_len, ALIGN),
        ensures
            memory.well_formed(),
            memory@ == Seq::<u8>::empty(),
            memory.spec_capacity() == max_len,
            memory.spec_zeroed(),
    {
        let mem = AlignedVec::<ALIGN>::new(max_len);
        assert(mem.data() =~= Seq::<u8>::empty());
        AlignedMemory { mem, zero_up_to_max_len: true }
    }

    /// Returns a new filled AlignedMemory with zero initialized preallocated memory
    pub fn zero_filled(max_len: usize) -> (memory: Self)
        requires
            can_allocate(max_len, ALIGN),
        ensures
            memory.well_formed(),
            memory@ == Seq::new(max_len as nat, |i: int| 0u8),
            memory.spec_capacity() == max_len,
            memory.spec_zeroed(),
    {
        let mut mem = AlignedVec::<ALIGN>::new(max_len);
        mem.advance(max_len);
        assert(mem.data() =~= Seq::new(max_len as nat, |i: int| 0u8));
        AlignedMemory { mem, zero_up_to_max_len: true }
    }

    /// Calculate memory size (allocated memory block and the size of [`AlignedMemory`] itself).
    pub fn mem_size(&self) -> (size: usize)
        ensures
            size == clamp_usize(
                self.spec_capacity() as int + vstd::layout::size_of::<Self>() as int,
            ),
    {
        self.mem.capacity().saturating_add(core::mem::size_of::<Self>())
    }

    /// Get the length of the data
    pub fn len(&self) -> (len: usize)
        requires
            self.well_formed(),
        ensures
            len == self@.len(),
    {
        self.mem.len()
    }

    /// Is the memory empty
    pub fn is_empty(&self) -> (empty: bool)
        requires
            self.well_formed(),
        ensures
            empty == (self@.len() == 0),
    {
        self.mem.is_empty()
    }

    /// Get the current write index
    pub fn write_index(&self) -> (index: usize)
        requires
            self.well_formed(),
        ensures
            index == self@.len(),
    {
        self.mem.len()
    }

    /// Get the host address at which the data starts
    pub fn data_addr(&self) -> (addr: usize)
        requires
            self.well_formed(),
        ensures
            addr == self.spec_data_addr(),
            addr % ALIGN == 0,
    {
        self.mem.base + self.mem.offset
    }

    /// Get an aligned slice
    pub fn as_slice(&self) -> (slice: &[u8])
        requires
            self.well_formed(),
        ensures
            slice@ == self@,
    {
        self.mem.as_slice()
    }

    /// Get an aligned mutable slice
    pub fn as_slice_mut(&mut self) -> (slice: &mut [u8])
        requires
            old(self).well_formed(),
        ensures
            slice@ == old(self)@,
            final(slice)@.len() == slice@.len() ==> {
                &&& final(self).well_formed()
                &&& final(self)@ == final(slice)@
                &&& final(self).spec_capacity() == old(self).spec_capacity()
                &&& final(self).spec_zeroed() == old(self).spec_zeroed()
                &&& final(self).spec_data_addr() == old(self).spec_data_addr()
            },
    {
        self.mem.as_slice_mut()
    }

    /// Grows memory with `value` repeated `num` times starting at the `write_index`
    pub fn fill_write(&mut self, num: usize, value: u8) -> (result: Result<(), WriteError>)
        requires
            old(self).well_formed(),
        ensures
            final(self).well_formed(),
            final(self).spec_capacity() == old(self).spec_capacity(),
            final(self).spec_zeroed() == old(self).spec_zeroed(),
            final(self).spec_data_addr() == old(self).spec_data_addr(),
            result is Ok <==> old(self)@.len() + num <= old(self).spec_capacity(),
            result is Ok ==> final(self)@ == old(self)@ + Seq::new(num as nat, |i: int| value),
            result is Err ==> *final(self) == *old(self),
    {
        if self.mem.write_index_for(num).is_none() {
            return Err(WriteError::InvalidInput);
        }
        let ghost before = *self;
        if self.zero_up_to_max_len && value == 0 {
            // No action needed because up to the capacity all is zero and no shrinking is allowed
            self.mem.advance(num);
        } else {
            let mut i: usize = 0;
            assert(before@ + Seq::new(0, |k: int| value) =~= before@);
            while i < num
                invariant
                    i <= num,
                    self.well_formed(),
                    self.zero_up_to_max_len == before.zero_up_to_max_len,
                    self.mem.capacity == before.mem.capacity,
                    self.mem.base == before.mem.base,
                    self.mem.offset == before.mem.offset,
                    self.mem.length == before.mem.length + i,
                    before.mem.length + num <= before.mem.capacity,
                    self@ == before@ + Seq::new(i as nat, |k: int| value),
                decreases num - i,
            {
                self.mem.push(value);
                i = i + 1;
                assert(self@ =~= before@ + Seq::new(i as nat, |k: int| value));
            }
        }
        assert(self@ =~= before@ + Seq::new(num as nat, |k: int| value));
        Ok(())
    }

    fn append(&mut self, data: &[u8])
        requires
            old(self).well_formed(),
            old(self)@.len() + data@.len() <= old(self).spec_capacity(),
        ensures
            final(self).well_formed(),
            final(self).spec_capacity() == old(self).spec_capacity(),
            final(self).spec_zeroed() == old(self).spec_zeroed(),
            final(self).spec_data_addr() == old(self).spec_data_addr(),
            final(self)@ == old(self)@ + data@,
    {
        let ghost before = *self;
        let mut i: usize = 0;
        assert(before@ + data@.take(0) =~= before@);
        while i < data.len()
            invariant
                i <= data@.len(),
                self.well_formed(),
                self.zero_up_to_max_len == before.zero_up_to_max_len,
                self.mem.capacity == before.mem.capacity,
                self.mem.base == before.mem.base,
                self.mem.offset == before.mem.offset,
                self.mem.length == before.mem.length + i,
                before.mem.length + data@.len() <= before.mem.capacity,
                self@ == before@ + data@.take(i as int),
            decreases data@.len() - i,
        {
            self.mem.push(data[i]);
            i = i + 1;
            assert(self@ =~= before@ + data@.take(i as int));
        }
        assert(data@.take(data@.len() as int) =~= data@);
    }

    /// Writes a slice of bytes behind the written ones, returns how many
    pub fn write(&mut self, buf: &[u8]) -> (result: Result<usize, WriteError>)
        requires
            old(self).well_formed(),
        ensures
            final(self).well_formed(),
            final(self).spec_capacity() == old(self).spec_capacity(),
            final(self).spec_zeroed() == old(self).spec_zeroed(),
            final(self).spec_data_addr() == old(self).spec_data_addr(),
            match result {
                Ok(count) => {
                    &&& old(self)@.len() + buf@.len() <= old(self).spec_capacity()
                    &&& count == buf@.len()
                    &&& final(self)@ == old(self)@ + buf@
                },
                Err(_) => {
                    &&& old(self)@.len() + buf@.len() > old(self).spec_capacity()
                    &&& *final(self) == *old(self)
                },
            },
    {
        if self.mem.write_index_for(buf.len()).is_none() {
            return Err(WriteError::InvalidInput);
        }
        self.append(buf);
        Ok(buf.len())
    }

    /// Nothing is buffered, so there is nothing to flush
    pub fn flush(&mut self) -> (result: Result<(), WriteError>)
        ensures
            result is Ok,
            *final(self) == *old(self),
    {
        Ok(())
    }

    /// Write a generic type T into the memory.
    pub fn write_unchecked<T: Pod>(&mut self, value: T)
        requires
            old(self).well_formed(),
            old(self)@.len() + T::spec_size() <= old(self).spec_capacity(),
        ensures
            final(self).well_formed(),
            final(self).spec_capacity() == old(self).spec_capacity(),
            final(self).spec_zeroed() == old(self).spec_zeroed(),
            final(self).spec_data_addr() == old(self).spec_data_addr(),
            exists|order: ByteOrder|
                #[trigger] call_ensures(native_order, (), order) && final(self)@ == old(self)@
                    + pod_bytes(value, order),
    {
        self.write_ordered_unchecked(value, native_order());
    }

    /// Write a generic type T into the memory, in the given byte order.
    pub fn write_ordered_unchecked<T: Pod>(&mut self, value: T, order: ByteOrder)
        requires
            old(self).well_formed(),
            old(self)@.len() + T::spec_size() <= old(self).spec_capacity(),
        ensures
            final(self).well_formed(),
            final(self).spec_capacity() == old(self).spec_capacity(),
            final(self).spec_zeroed() == old(self).spec_zeroed(),
            final(self).spec_data_addr() == old(self).spec_data_addr(),
            final(self)@ == old(self)@ + pod_bytes(value, order),
    {
        let bytes: Vec<u8> = pod_to_bytes(value, order);
        self.append(bytes.as_slice());
    }

    /// Write a slice of bytes into the memory.
    pub fn write_all_unchecked(&mut self, value: &[u8])
        requires
            old(self).well_formed(),
            old(self)@.len() + value@.len() <= old(self).spec_capacity(),
        ensures
            final(self).well_formed(),
            final(self).spec_capacity() == old(self).spec_capacity(),
            final(self).spec_zeroed() == old(self).spec_zeroed(),
            final(self).spec_data_addr() == old(self).spec_data_addr(),
            final(self)@ == old(self)@ + value@,
    {
        self.append(value);
    }

    /// Copies the data to memory of its own, with no room for more
    pub fn clone(&self) -> (copy: Self)
        requires
            self.well_formed(),
            can_allocate(self@.len() as usize, ALIGN),
        ensures
            copy.well_formed(),
            copy@ == self@,
            copy.spec_capacity() == self@.len(),
            !copy.spec_zeroed(),
    {
        AlignedMemory::from_slice(self.as_slice())
    }

    /// Do both hold the same data, and were both or neither zeroed when they were allocated
    pub fn eq(&self, other: &Self) -> (equal: bool)
        requires
            self.well_formed(),
            other.well_formed(),
        ensures
            equal == (self@ == other@ && self.spec_zeroed() == other.spec_zeroed()),
    {
        bytes_equal(self.as_slice(), other.as_slice()) && self.zero_up_to_max_len
            == other.zero_up_to_max_len
    }
}

/// No more bytes are written than fit.
pub proof fn law_length_within_capacity<const ALIGN: usize>(memory: AlignedMemory<ALIGN>)
    requires
        memory.well_formed(),
    ensures
        memory@.len() <= memory.spec_capacity(),
{
}

/// The data starts at an aligned address, however much there is of it. From there on, there is room
/// for the whole capacity in the slice that was allocated, where [`slice_addresses`] found it.
pub proof fn law_data_is_aligned<const ALIGN: usize>(memory: AlignedMemory<ALIGN>)
    requires
        memory.well_formed(),
    ensures
        ALIGN > 0,
        memory.spec_data_addr() % ALIGN as int == 0,
        exists|slice: &[u8], range: (usize, usize)|
            #[trigger] call_ensures(slice_addresses, (slice,), range) && range.0
                <= memory.spec_data_addr() && memory.spec_data_addr() + memory.spec_capacity()
                <= range.1,
{
}

/// Returns true if `ptr` is aligned to `align`.
pub fn is_memory_aligned(ptr: usize, align: usize) -> (aligned: bool)
    ensures
        aligned == (align != 0 && ptr as int % align as int == 0),
{
    match ptr.checked_rem(align) {
        Some(remainder) => remainder == 0,
        None => false,
    }
}

/// A write takes place exactly if there is room for all its bytes. It puts them behind those that were
/// written before, which stay as they are, and so does the place of the memory.
pub proof fn law_write_appends<const ALIGN: usize>(
    memory: &mut AlignedMemory<ALIGN>,
    buf: &[u8],
    result: Result<usize, WriteError>,
    i: int,
)
    requires
        call_ensures(AlignedMemory::<ALIGN>::write, (memory, buf), result),
    ensures
        result is Ok <==> old(memory)@.len() + buf@.len() <= old(memory).spec_capacity(),
        result matches Ok(count) ==> count == buf@.len() && final(memory)@.len() == old(
            memory,
        )@.len() + count,
        result is Err ==> final(memory)@ == old(memory)@,
        0 <= i < old(memory)@.len() ==> final(memory)@[i] == old(memory)@[i],
        result is Ok && 0 <= i < buf@.len() ==> final(memory)@[old(memory)@.len() + i] == buf@[i],
        final(memory).spec_capacity() == old(memory).spec_capacity(),
        final(memory).spec_data_addr() == old(memory).spec_data_addr(),
{
}

/// Filling takes place exactly if there is room for it. It puts as many bytes of the value as were
/// asked for behind those that were written before, which stay as they are.
pub proof fn law_fill_appends<const ALIGN: usize>(
    memory: &mut AlignedMemory<ALIGN>,
    num: usize,
    value: u8,
    result: Result<(), WriteError>,
    i: int,
)
    requires
        call_ensures(AlignedMemory::<ALIGN>::fill_write, (memory, num, value), result),
    ensures
        result is Ok <==> old(memory)@.len() + num <= old(memory).spec_capacity(),
        result is Ok ==> final(memory)@.len() == old(memory)@.len() + num,
        result is Err ==> final(memory)@ == old(memory)@,
        0 <= i < old(memory)@.len() ==> final(memory)@[i] == old(memory)@[i],
        result is Ok && 0 <= i < num ==> final(memory)@[old(memory)@.len() + i] == value,
        final(memory).spec_capacity() == old(memory).spec_capacity(),
        final(memory).spec_data_addr() == old(memory).spec_data_addr(),
{
}

/// A scalar, and a slice for which there is room, is put behind what was written before. In little
/// endian order the lowest byte of the scalar comes first, in big endian order the highest.
pub proof fn law_unchecked_writes_append<const ALIGN: usize, T: Pod>(
    memory: &mut AlignedMemory<ALIGN>,
    value: T,
    order: ByteOrder,
    i: nat,
)
    requires
        i < T::spec_size() <= 8,
        call_ensures(
            AlignedMemory::<ALIGN>::write_ordered_unchecked::<T>,
            (memory, value, order),
            (),
        ),
    ensures
        final(memory)@.len() == old(memory)@.len() + T::spec_size(),
        final(memory)@.take(old(memory)@.len() as int) == old(memory)@,
        final(memory)@[old(memory)@.len() + if order is Little {
            i as int
        } else {
            T::spec_size() - 1 - i
        }] == value.spec_number() / crate::bytes::pow256(i) as int % 256,
        final(memory).spec_capacity() == old(memory).spec_capacity(),
        final(memory).spec_data_addr() == old(memory).spec_data_addr(),
{
    law_pod_byte(value, order, i);
    assert(final(memory)@.take(old(memory)@.len() as int) =~= old(memory)@);
}

/// A scalar is written in the order in which this machine lays out numbers.
pub proof fn law_native_writes_append<const ALIGN: usize, T: Pod>(
    memory: &mut AlignedMemory<ALIGN>,
    value: T,
)
    requires
        1 <= T::spec_size() <= 8,
        call_ensures(AlignedMemory::<ALIGN>::write_unchecked::<T>, (memory, value), ()),
    ensures
        final(memory)@.len() == old(memory)@.len() + T::spec_size(),
        final(memory)@.take(old(memory)@.len() as int) == old(memory)@,
        exists|order: ByteOrder|
            #[trigger] call_ensures(native_order, (), order) && final(memory)@.skip(
                old(memory)@.len() as int,
            ) == pod_bytes(value, order),
{
    let order = choose|order: ByteOrder|
        #[trigger] call_ensures(native_order, (), order) && final(memory)@ == old(memory)@
            + pod_bytes(value, order);
    law_pod_byte(value, order, 0);
    assert(final(memory)@.take(old(memory)@.len() as int) =~= old(memory)@);
    assert(final(memory)@.skip(old(memory)@.len() as int) =~= pod_bytes(value, order));
}

/// New memory holds what it was made from: nothing, zeros, or a copy of the given bytes, with room for
/// as many bytes as were asked for, or as there are.
pub proof fn law_new_memory<const ALIGN: usize>(
    max_len: usize,
    empty: AlignedMemory<ALIGN>,
    zeroed: AlignedMemory<ALIGN>,
    zeros: AlignedMemory<ALIGN>,
    bytes: &[u8],
    copied: AlignedMemory<ALIGN>,
    i: int,
)
    requires
        call_ensures(AlignedMemory::<ALIGN>::with_capacity, (max_len,), empty),
        call_ensures(AlignedMemory::<ALIGN>::with_capacity_zeroed, (max_len,), zeroed),
        call_ensures(AlignedMemory::<ALIGN>::zero_filled, (max_len,), zeros),
        call_ensures(AlignedMemory::<ALIGN>::from_slice, (bytes,), copied),
    ensures
        empty@.len() == 0 && empty.spec_capacity() == max_len && !empty.spec_zeroed(),
        zeroed@.len() == 0 && zeroed.spec_capacity() == max_len && zeroed.spec_zeroed(),
        zeros@.len() == max_len && zeros.spec_capacity() == max_len && zeros.spec_zeroed(),
        0 <= i < max_len ==> zeros@[i] == 0,
        copied@ == bytes@ && copied.spec_capacity() == bytes@.len() && !copied.spec_zeroed(),
{
}

/// A copy holds the same bytes, with no room for more. Memories are equal exactly if they hold the
/// same bytes and both or neither were zeroed.
pub proof fn law_copied_memory<const ALIGN: usize>(
    memory: &AlignedMemory<ALIGN>,
    copy: AlignedMemory<ALIGN>,
    other: &AlignedMemory<ALIGN>,
    equal: bool,
    size: usize,
)
    requires
        call_ensures(AlignedMemory::<ALIGN>::clone, (memory,), copy),
        call_ensures(AlignedMemory::<ALIGN>::eq, (memory, other), equal),
        call_ensures(AlignedMemory::<ALIGN>::mem_size, (memory,), size),
    ensures
        copy@ == memory@ && copy.spec_capacity() == memory@.len() && !copy.spec_zeroed(),
        equal <==> memory@ == other@ && memory.spec_zeroed() == other.spec_zeroed(),
        ({
            let bytes = memory.spec_capacity() + vstd::layout::size_of::<AlignedMemory<ALIGN>>();
            size == if bytes > usize::MAX {
                usize::MAX as nat
            } else {
                bytes
            }
        }),
{
}

/// An address is aligned exactly if it is a multiple of the alignment.
pub proof fn law_aligned_address(ptr: usize, align: usize, aligned: bool)
    requires
        call_ensures(is_memory_aligned, (ptr, align), aligned),
        align > 0,
    ensures
        aligned <==> exists|times: int| ptr == #[trigger] (times * align),
{
    if aligned {
        vstd::arithmetic::div_mod::lemma_fundamental_div_mod(ptr as int, align as int);
        vstd::arithmetic::mul::lemma_mul_is_commutative(
            align as int,
            ptr as int / align as int,
        );
        assert(ptr == (ptr as int / align as int) * align);
    } else if exists|times: int| ptr == #[trigger] (times * align) {
        let times = choose|times: int| ptr == #[trigger] (times * align);
        vstd::arithmetic::div_mod::lemma_mod_multiples_basic(times, align as int);
    }
}

/// What is written can be read, is counted, and starts at the aligned address of the memory.
pub proof fn law_written_data<const ALIGN: usize>(
    memory: &AlignedMemory<ALIGN>,
    slice: &[u8],
    len: usize,
    index: usize,
    empty: bool,
    addr: usize,
)
    requires
        call_ensures(AlignedMemory::<ALIGN>::as_slice, (memory,), slice),
        call_ensures(AlignedMemory::<ALIGN>::len, (memory,), len),
        call_ensures(AlignedMemory::<ALIGN>::write_index, (memory,), index),
        call_ensures(AlignedMemory::<ALIGN>::is_empty, (memory,), empty),
        call_ensures(AlignedMemory::<ALIGN>::data_addr, (memory,), addr),
    ensures
        slice@ == memory@,
        len == slice@.len() && index == slice@.len(),
        empty <==> slice@.len() == 0,
        addr == memory.spec_data_addr() && addr as int % ALIGN as int == 0,
{
}

/// The distance to the next aligned address is less than the alignment.
pub proof fn law_distance_to_alignment(addr: usize, align: usize, offset: usize)
    requires
        align > 0,
        call_ensures(aligned_offset, (addr, align), offset),
    ensures
        offset < align,
        (addr + offset) % align as int == 0,
{
}

} // verus!
