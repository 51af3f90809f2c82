//! Memory regions: bounds checking and address translation.
//!
//! A region maps a range of virtual addresses to a range of host addresses. A gapped region slices
//! the host range in frames of a power of two and leaves, in the virtual address space, a gap of
//! the size of a frame behind each frame. This doubles the size of the virtual range while the
//! mapped memory stays the same: the gaps are not mapped, and no access to any byte of a gap is
//! translated.
//!
//! ```text
//! Guest: frame 0 | gap 0 | frame 1 | gap 1 | frame 2 | gap 2 | ...
//!           |                /                 /
//!           |          *----*    *------------*
//!           |         /         /
//! Host:  frame 0 | frame 1 | frame 2 | ...
//! ```
use core::ops::Range;
use vstd::arithmetic::power2::pow2;
use vstd::prelude::*;

use crate::arith::{clamp_u64, saturating_double};

verus! {

/// Type of memory access
#[derive(Clone, Copy, PartialEq, Eq, Debug, Structural)]
pub enum AccessType {
    /// Read
    Load,
    /// Write
    Store,
}

/// Memory region for bounds checking and address translation
#[derive(Clone, Copy, PartialEq, Eq, Debug, Structural)]
pub struct MemoryRegion {
    /// start host address
    pub host_addr: u64,
    /// start virtual address
    pub vm_addr: u64,
    /// Length in bytes
    pub len: u64,
    /// Size of regular gaps as bit shift (63 means this region is continuous)
    pub vm_gap_shift: u8,
    /// Is `AccessType::Store` allowed without triggering an access violation
    pub writable: bool,
    /// User defined payload for the access violation handler
    pub access_violation_handler_payload: Option<u16>,
}

impl Default for MemoryRegion {
    fn default() -> (region: Self)
        ensures
            region == (MemoryRegion {
                host_addr: 0,
                vm_addr: 0,
                len: 0,
                vm_gap_shift: 0,
                writable: false,
                access_violation_handler_payload: None,
            }),
    {
        MemoryRegion {
            host_addr: 0,
            vm_addr: 0,
            len: 0,
            vm_gap_shift: 0,
            writable: false,
            access_violation_handler_payload: None,
        }
    }
}

/// Addresses of the first byte of a slice and of the byte behind it: `<[u8]>::as_ptr_range`, as
/// integers.
///
/// Where the slice was placed is nobody's promise. Of every place holds that it does not start at
/// zero, as no reference does, that the addresses are as far apart as the slice is long, and that
/// this is at most `isize::MAX`, as for everything that is allocated.
#[verifier::external_body]
fn slice_range(slice: &[u8]) -> (range: (usize, usize))
    ensures
        range.0 != 0,
        range.0 + slice@.len() == range.1,
        range.1 - range.0 <= isize::MAX,
{
    let range = slice.as_ptr_range();
    (range.start as usize, range.end as usize)
}

/// Are these the addresses that [`slice_range`] gave for the slice
pub closed spec fn is_range_of(range: (usize, usize), slice: &[u8]) -> bool {
    call_ensures(slice_range, (slice,), range)
}

/// Addresses of the first byte of a slice and of the byte behind it
pub fn slice_addresses(slice: &[u8]) -> (range: (usize, usize))
    ensures
        is_range_of(range, slice),
        range.0 != 0,
        range.0 + slice@.len() == range.1,
        range.1 - range.0 <= isize::MAX,
{
    slice_range(slice)
}

/// A gap is either absent or has the size of a power of two.
pub open spec fn is_gap_size(vm_gap_size: u64) -> bool {
    vm_gap_size == 0 || exists|shift: u8| shift < 64 && #[trigger] pow2(shift as nat) == vm_gap_size
}

/// The bit shift that encodes a gap size: 63 without gaps, else the logarithm of the gap size.
pub open spec fn encodes_gap_size(shift: u8, vm_gap_size: u64) -> bool {
    if vm_gap_size == 0 {
        shift == 63
    } else {
        shift < 64 && pow2(shift as nat) == vm_gap_size
    }
}

/// Where a byte of the virtual range lies in the host range, `None` for a byte of a gap.
///
/// Both offsets count from the start of the region. A frame and the gap behind it span
/// `2 * 2^shift` virtual bytes.
pub open spec fn host_offset(shift: u8, offset: int) -> Option<int> {
    if shift >= 64 {
        Some(offset)
    } else {
        let frame_size = pow2(shift as nat) as int;
        if offset / frame_size % 2 == 1 {
            None
        } else {
            Some(offset / (2 * frame_size) * frame_size + offset % frame_size)
        }
    }
}

/// Does a byte of the virtual range lie in a gap. A continuous region has none.
pub open spec fn is_in_gap(shift: u8, offset: int) -> bool {
    shift < 63 && offset / pow2(shift as nat) as int % 2 == 1
}

/// Do `len` bytes from `offset` on end in the frame, or the gap, in which they start. A continuous
/// region is one frame.
pub open spec fn stays_in_frame(shift: u8, offset: int, len: int) -> bool {
    shift >= 63 || offset % (pow2(shift as nat) as int) + len <= pow2(shift as nat)
}

impl MemoryRegion {
    /// The end of the virtual range, exclusive.
    pub open spec fn spec_end(self) -> int {
        if self.vm_gap_shift == 63 {
            clamp_u64(self.vm_addr + self.len)
        } else {
            clamp_u64(self.vm_addr + clamp_u64(2 * self.len))
        }
    }

    /// Does the virtual range hold the address
    pub open spec fn in_range(self, vm_addr: u64) -> bool {
        self.vm_addr <= vm_addr < self.spec_end()
    }

    /// The host address at which an access may take place, `None` for a violation.
    pub open spec fn spec_vm_to_host(
        self,
        access_type: AccessType,
        vm_addr: u64,
        len: u64,
    ) -> Option<u64> {
        if access_type is Store && !self.writable || vm_addr < self.vm_addr {
            None
        } else {
            match host_offset(self.vm_gap_shift, vm_addr - self.vm_addr) {
                None => None,
                Some(offset) => if offset + len <= self.len && stays_in_frame(
                    self.vm_gap_shift,
                    vm_addr - self.vm_addr,
                    len as int,
                ) {
                    Some(clamp_u64(self.host_addr + offset) as u64)
                } else {
                    None
                },
            }
        }
    }

    /// Is this the region of `len` bytes at `host_addr` with these properties, with no payload
    pub open spec fn describes(
        self,
        host_addr: u64,
        len: int,
        vm_addr: u64,
        vm_gap_size: u64,
        writable: bool,
    ) -> bool {
        &&& self.host_addr == host_addr
        &&& self.vm_addr == vm_addr
        &&& self.len == len
        &&& encodes_gap_size(self.vm_gap_shift, vm_gap_size)
        &&& self.writable == writable
        &&& self.access_violation_handler_payload is None
    }

    /// Does the host range end inside of the address space
    pub open spec fn host_range_fits(self) -> bool {
        self.host_addr + self.len <= u64::MAX
    }

    /// Can the host range be that of a slice: it ends inside of the address space and is no longer
    /// than anything that is allocated
    pub open spec fn can_be_slice(self) -> bool {
        self.host_range_fits() && self.len <= isize::MAX
    }

    /// Does the host range start where [`slice_addresses`] finds the slice
    pub open spec fn is_placed_at(self, slice: &[u8]) -> bool {
        exists|range: (usize, usize)|
            #[trigger] call_ensures(slice_addresses, (slice,), range) && self.host_addr == range.0
    }

    /// Creates a region of `len` bytes of host memory that start at `host_addr`
    pub fn from_host_range(
        host_addr: u64,
        len: u64,
        vm_addr: u64,
        vm_gap_size: u64,
        writable: bool,
    ) -> (region: Self)
        requires
            is_gap_size(vm_gap_size),
        ensures
            region.describes(host_addr, len as int, vm_addr, vm_gap_size, writable),
            region.host_addr == host_addr,
            region.len == len,
            region.vm_addr == vm_addr,
            region.writable == writable,
            region.access_violation_handler_payload is None,
            vm_gap_size == 0 ==> region.vm_gap_shift == 63,
            vm_gap_size > 0 ==> region.vm_gap_shift < 64 && pow2(region.vm_gap_shift as nat)
                == vm_gap_size,
    {
        let mut vm_gap_shift: u8 = 63;
        if vm_gap_size > 0 {
            let zeros: u32 = vm_gap_size.leading_zeros();
            proof {
                let shift = choose|shift: u8|
                    shift < 64 && #[trigger] pow2(shift as nat) == vm_gap_size;
                lemma_leading_zeros_of_power(vm_gap_size, shift);
            }
            vm_gap_shift = vm_gap_shift - zeros as u8;
        }
        MemoryRegion {
            host_addr,
            vm_addr,
            len,
            vm_gap_shift,
            writable,
            access_violation_handler_payload: None,
        }
    }

    fn new(slice: &[u8], vm_addr: u64, vm_gap_size: u64, writable: bool) -> (region: Self)
        requires
            is_gap_size(vm_gap_size),
        ensures
            region.describes(
                region.host_addr,
                slice@.len() as int,
                vm_addr,
                vm_gap_size,
                writable,
            ),
            region.can_be_slice(),
            region.is_placed_at(slice),
            region.len == slice@.len(),
            region.vm_addr == vm_addr,
            region.writable == writable,
            region.access_violation_handler_payload is None,
            vm_gap_size == 0 ==> region.vm_gap_shift == 63,
            vm_gap_size > 0 ==> region.vm_gap_shift < 64 && pow2(region.vm_gap_shift as nat)
                == vm_gap_size,
    {
        let (host_addr, _end): (usize, usize) = slice_addresses(slice);
        Self::from_host_range(host_addr as u64, slice.len() as u64, vm_addr, vm_gap_size, writable)
    }

    /// Only to be used in tests and benches
    pub fn new_for_testing(
        slice: &[u8],
        vm_addr: u64,
        vm_gap_size: u64,
        writable: bool,
    ) -> (region: Self)
        requires
            is_gap_size(vm_gap_size),
        ensures
            region.describes(
                region.host_addr,
                slice@.len() as int,
                vm_addr,
                vm_gap_size,
                writable,
            ),
            region.can_be_slice(),
            region.is_placed_at(slice),
            region.len == slice@.len(),
            region.vm_addr == vm_addr,
            region.writable == writable,
            region.access_violation_handler_payload is None,
            vm_gap_size == 0 ==> region.vm_gap_shift == 63,
            vm_gap_size > 0 ==> region.vm_gap_shift < 64 && pow2(region.vm_gap_shift as nat)
                == vm_gap_size,
    {
        Self::new(slice, vm_addr, vm_gap_size, writable)
    }

    /// Creates a new readonly MemoryRegion from a slice
    pub fn new_readonly(slice: &[u8], vm_addr: u64) -> (region: Self)
        ensures
            region.describes(region.host_addr, slice@.len() as int, vm_addr, 0, false),
            region.can_be_slice(),
            region.is_placed_at(slice),
            region.len == slice@.len(),
            region.vm_addr == vm_addr,
            region.writable == false,
            region.access_violation_handler_payload is None,
            region.vm_gap_shift == 63,
    {
        Self::new(slice, vm_addr, 0, false)
    }

    /// Creates a new writable MemoryRegion from a mutable slice
    pub fn new_writable(slice: &mut [u8], vm_addr: u64) -> (region: Self)
        ensures
            region.describes(region.host_addr, old(slice)@.len() as int, vm_addr, 0, true),
            region.can_be_slice(),
            region.is_placed_at(&*old(slice)),
            region.len == old(slice)@.len(),
            region.vm_addr == vm_addr,
            region.writable == true,
            region.access_violation_handler_payload is None,
            region.vm_gap_shift == 63,
            final(slice)@ == old(slice)@,
    {
        Self::new(&*slice, vm_addr, 0, true)
    }

    /// Creates a new writable gapped MemoryRegion from a mutable slice
    pub fn new_writable_gapped(slice: &mut [u8], vm_addr: u64, vm_gap_size: u64) -> (region: Self)
        requires
            is_gap_size(vm_gap_size),
        ensures
            region.describes(
                region.host_addr,
                old(slice)@.len() as int,
                vm_addr,
                vm_gap_size,
                true,
            ),
            region.can_be_slice(),
            region.is_placed_at(&*old(slice)),
            region.len == old(slice)@.len(),
            region.vm_addr == vm_addr,
            region.writable == true,
            region.access_violation_handler_payload is None,
            vm_gap_size == 0 ==> region.vm_gap_shift == 63,
            vm_gap_size > 0 ==> region.vm_gap_shift < 64 && pow2(region.vm_gap_shift as nat)
                == vm_gap_size,
            final(slice)@ == old(slice)@,
    {
        Self::new(&*slice, vm_addr, vm_gap_size, true)
    }

    /// Returns the vm address space covered by this MemoryRegion
    pub fn vm_addr_range(&self) -> (range: Range<u64>)
        ensures
            range.start == self.vm_addr,
            range.end == self.spec_end(),
    {
        if self.vm_gap_shift == 63 {
            self.vm_addr..self.vm_addr.saturating_add(self.len)
        } else {
            self.vm_addr..self.vm_addr.saturating_add(saturating_double(self.len))
        }
    }

    /// Convert a virtual machine address into a host address
    pub fn vm_to_host(&self, access_type: AccessType, vm_addr: u64, len: u64) -> (host_addr: Option<
        u64,
    >)
        ensures
            host_addr == self.spec_vm_to_host(access_type, vm_addr, len),
    {
        if access_type == AccessType::Store && !self.writable {
            return None;
        }
        // A region may start at an offset from the address at which the mapping looks it up.
        if vm_addr < self.vm_addr {
            return None;
        }
        let begin_offset: u64 = vm_addr - self.vm_addr;
        let shift: u64 = self.vm_gap_shift as u64;
        let (is_in_gap, gap_mask): (bool, u64) = if shift < 64 {
            ((begin_offset >> shift) & 1 == 1, u64::MAX << shift)
        } else {
            (false, 0)
        };
        let frame_offset: u64 = begin_offset & !gap_mask;
        let gapped_offset: u64 = ((begin_offset & gap_mask) >> 1) | frame_offset;
        proof {
            if shift < 64 {
                lemma_gapped_offset(begin_offset, self.vm_gap_shift);
            } else {
                assert(((begin_offset & 0u64) >> 1u64) | (begin_offset & !0u64) == begin_offset)
                    by (bit_vector);
            }
        }
        // An access must not run into the gap behind its frame.
        if shift < 63 && len > (1u64 << shift) - frame_offset {
            return None;
        }
        if let Some(end_offset) = gapped_offset.checked_add(len) {
            if end_offset <= self.len && !is_in_gap {
                return Some(self.host_addr.saturating_add(gapped_offset));
            }
        }
        None
    }
}

proof fn lemma_leading_zeros_of_power(value: u64, shift: u8)
    requires
        shift < 64,
        pow2(shift as nat) == value,
    ensures
        vstd::std_specs::bits::u64_leading_zeros(value) == 63 - shift,
{
    vstd::arithmetic::power2::lemma_pow2_pos(shift as nat);
    let zeros = vstd::std_specs::bits::u64_leading_zeros(value);
    vstd::std_specs::bits::axiom_u64_leading_zeros(value);
    vstd::bits::lemma_u64_shl_is_mul(1, shift as u64);
    let top = (63 - zeros) as u64;
    let s = shift as u64;
    assert(value == 1u64 << s);
    assert((1u64 << s) >> top & 1u64 != 0u64 ==> top == s) by (bit_vector)
        requires
            s < 64,
            top < 64,
    ;
}

proof fn lemma_gapped_offset(offset: u64, shift: u8)
    requires
        shift < 64,
    ensures
        ({
            let s = shift as u64;
            let mask = u64::MAX << s;
            let in_gap = (offset >> s) & 1 == 1;
            match host_offset(shift, offset as int) {
                None => in_gap,
                Some(host) => !in_gap && host == ((offset & mask) >> 1u64) | (offset & !mask),
            }
        }),
        (offset & !(u64::MAX << shift as u64)) == offset as int % (pow2(shift as nat) as int),
        1u64 << shift as u64 == pow2(shift as nat),
        0 <= offset as int % (pow2(shift as nat) as int) < pow2(shift as nat),
{
    let s = shift as u64;
    let frame = pow2(shift as nat) as int;
    vstd::bits::lemma_u64_shr_is_div(offset, s);
    let q = offset >> s;
    assert(q & 1 == q % 2) by (bit_vector);
    let mask = u64::MAX << s;
    let low = offset & !mask;
    vstd::arithmetic::power2::lemma_pow2_pos(shift as nat);
    vstd::arithmetic::power2::lemma_pow2_unfold((shift + 1) as nat);
    let low_mask = ((1u64 << s) - 1) as u64;
    assert(low == offset & low_mask) by (bit_vector)
        requires
            s < 64,
            mask == 0xffff_ffff_ffff_ffffu64 << s,
            low == offset & !mask,
            low_mask == ((1u64 << s) - 1) as u64,
    ;
    vstd::bits::lemma_u64_pow2_no_overflow(shift as nat);
    vstd::bits::lemma_u64_shl_is_mul(1, s);
    vstd::bits::lemma_u64_low_bits_mask_is_mod(offset, shift as nat);
    vstd::arithmetic::div_mod::lemma_mod_bound(offset as int, frame);
    if q % 2 == 0 {
        let half = q >> 1u64;
        let high = half << s;
        assert((((offset & mask) >> 1u64) | low) == high | low && high
            & low == 0 && (high >> s) == half) by (bit_vector)
            requires
                s < 64,
                q == offset >> s,
                q % 2 == 0,
                mask == 0xffff_ffff_ffff_ffffu64 << s,
                low == offset & !mask,
                half == q >> 1u64,
                high == half << s,
        ;
        assert(high | low == high + low) by (bit_vector)
            requires
                high & low == 0,
        ;
        assert(half == q / 2) by (bit_vector)
            requires
                half == q >> 1u64,
        ;
        vstd::arithmetic::div_mod::lemma_div_denominator(offset as int, frame, 2);
        assert(frame * 2 == 2 * frame);
        assert(half == offset as int / (2 * frame));
        vstd::arithmetic::div_mod::lemma_fundamental_div_mod(offset as int, 2 * frame);
        assert(half * frame <= offset) by (nonlinear_arith)
            requires
                offset as int == (2 * frame) * half + (offset as int % (2 * frame)),
                offset as int % (2 * frame) >= 0,
                frame > 0,
                half >= 0,
        ;
        vstd::bits::lemma_u64_shl_is_mul(half, s);
    }
}

proof fn lemma_host_offset_bound(shift: u8, offset: int)
    requires
        0 <= offset <= u64::MAX,
    ensures
        host_offset(shift, offset) matches Some(host) ==> {
            &&& 0 <= host <= offset <= 2 * host
            &&& shift >= 63 ==> host == offset
        },
{
    if shift < 64 {
        let frame = pow2(shift as nat) as int;
        vstd::arithmetic::power2::lemma_pow2_pos(shift as nat);
        vstd::arithmetic::div_mod::lemma_fundamental_div_mod(offset, frame);
        vstd::arithmetic::div_mod::lemma_div_denominator(offset, frame, 2);
        let frames = offset / frame;
        let half = offset / (2 * frame);
        assert(frame * 2 == 2 * frame);
        if frames % 2 == 0 {
            assert(frames == 2 * half);
            assert(frame * frames == 2 * (half * frame)) by (nonlinear_arith)
                requires
                    frames == 2 * half,
            ;
            assert(half * frame >= 0) by (nonlinear_arith)
                requires
                    half >= 0,
                    frame > 0,
            ;
        }
        if shift == 63 {
            vstd::arithmetic::power2::lemma2_to64();
            vstd::arithmetic::power2::lemma2_to64_rest();
            assert(frame == 0x8000_0000_0000_0000);
            assert(offset / 0x8000_0000_0000_0000 == 0 || offset / 0x8000_0000_0000_0000 == 1);
            if frames == 0 {
                assert(half == 0);
            }
        }
    }
}

/// An address that translates starts a byte string inside of the host range of the region.
pub proof fn law_translation_in_bounds(
    region: MemoryRegion,
    access_type: AccessType,
    vm_addr: u64,
    len: u64,
)
    requires
        region.host_range_fits(),
    ensures
        region.spec_vm_to_host(access_type, vm_addr, len) matches Some(host_addr) ==> {
            &&& region.host_addr <= host_addr
            &&& host_addr + len <= region.host_addr + region.len
        },
{
    if vm_addr >= region.vm_addr {
        lemma_host_offset_bound(region.vm_gap_shift, vm_addr - region.vm_addr);
    }
}

/// An address at which a byte can be accessed lies in the virtual range of the region. The last
/// address of all is left out: no range that excludes its end can hold it.
pub proof fn law_translation_in_range(
    region: MemoryRegion,
    access_type: AccessType,
    vm_addr: u64,
    len: u64,
)
    requires
        len > 0,
        vm_addr < u64::MAX,
        region.spec_vm_to_host(access_type, vm_addr, len) is Some,
    ensures
        region.in_range(vm_addr),
{
    lemma_host_offset_bound(region.vm_gap_shift, vm_addr - region.vm_addr);
}

/// Of two bytes outside of the gaps, the lower one has the lower place in the host range.
proof fn lemma_host_offset_keeps_order(shift: u8, low: int, high: int)
    requires
        0 <= low < high,
        host_offset(shift, low) is Some,
        host_offset(shift, high) is Some,
    ensures
        host_offset(shift, low)->0 < host_offset(shift, high)->0,
{
    if shift < 64 {
        let frame = pow2(shift as nat) as int;
        vstd::arithmetic::power2::lemma_pow2_pos(shift as nat);
        vstd::arithmetic::div_mod::lemma_fundamental_div_mod(low, frame);
        vstd::arithmetic::div_mod::lemma_fundamental_div_mod(high, frame);
        vstd::arithmetic::div_mod::lemma_div_denominator(low, frame, 2);
        vstd::arithmetic::div_mod::lemma_div_denominator(high, frame, 2);
        assert(frame * 2 == 2 * frame);
        let x = low / (2 * frame);
        let y = high / (2 * frame);
        let p = low % frame;
        let q = high % frame;
        assert(low == frame * (2 * x) + p);
        assert(high == frame * (2 * y) + q);
        assert(x * frame + p < y * frame + q) by (nonlinear_arith)
            requires
                low == frame * (2 * x) + p,
                high == frame * (2 * y) + q,
                low < high,
                0 <= p < frame,
                0 <= q < frame,
        {
            if x > y {
                assert(frame * (2 * x) >= frame * (2 * y + 2));
            } else if x < y {
                assert(x * frame + frame <= y * frame);
            }
        }
    }
}

/// Of two addresses of a region that translate, the lower one has the lower host address, whatever
/// the accesses are. So no two addresses have the same host address.
pub proof fn law_translation_keeps_order(
    region: MemoryRegion,
    access_type: AccessType,
    vm_addr: u64,
    len: u64,
    other_type: AccessType,
    other_addr: u64,
    other_len: u64,
)
    requires
        region.host_range_fits(),
        region.spec_vm_to_host(access_type, vm_addr, len) is Some,
        region.spec_vm_to_host(other_type, other_addr, other_len) is Some,
    ensures
        vm_addr < other_addr <==> region.spec_vm_to_host(access_type, vm_addr, len)->0
            < region.spec_vm_to_host(other_type, other_addr, other_len)->0,
        vm_addr == other_addr <==> region.spec_vm_to_host(access_type, vm_addr, len)
            == region.spec_vm_to_host(other_type, other_addr, other_len),
{
    let shift = region.vm_gap_shift;
    let offset = vm_addr - region.vm_addr;
    let other_offset = other_addr - region.vm_addr;
    lemma_host_offset_bound(shift, offset);
    lemma_host_offset_bound(shift, other_offset);
    if vm_addr < other_addr {
        lemma_host_offset_keeps_order(shift, offset, other_offset);
    } else if other_addr < vm_addr {
        lemma_host_offset_keeps_order(shift, other_offset, offset);
    }
}

/// Inside of a frame, consecutive addresses translate to consecutive host addresses.
pub proof fn law_translation_contiguous_in_frame(shift: u8, offset: int, step: int)
    requires
        shift < 64,
        0 <= offset,
        0 <= step,
        offset / pow2(shift as nat) as int == (offset + step) / pow2(shift as nat) as int,
    ensures
        match host_offset(shift, offset) {
            None => host_offset(shift, offset + step) is None,
            Some(host) => host_offset(shift, offset + step) == Some(host + step),
        },
{
    let frame = pow2(shift as nat) as int;
    vstd::arithmetic::power2::lemma_pow2_pos(shift as nat);
    vstd::arithmetic::div_mod::lemma_fundamental_div_mod(offset, frame);
    vstd::arithmetic::div_mod::lemma_fundamental_div_mod(offset + step, frame);
    vstd::arithmetic::div_mod::lemma_div_denominator(offset, frame, 2);
    vstd::arithmetic::div_mod::lemma_div_denominator(offset + step, frame, 2);
    assert(frame * 2 == 2 * frame);
}

/// A continuous region translates an access, in the lower half of the address space from its start
/// on, by its distance to the start, exactly if the access ends inside of the region.
pub proof fn law_continuous_translation(region: MemoryRegion, vm_addr: u64, len: u64)
    requires
        region.vm_gap_shift == 63,
        region.vm_addr <= vm_addr,
        vm_addr - region.vm_addr < 0x8000_0000_0000_0000,
        region.host_range_fits(),
    ensures
        region.spec_vm_to_host(AccessType::Load, vm_addr, len) == if vm_addr - region.vm_addr + len
            <= region.len {
            Some((region.host_addr + (vm_addr - region.vm_addr)) as u64)
        } else {
            None
        },
{
    let offset = vm_addr - region.vm_addr;
    vstd::arithmetic::power2::lemma2_to64();
    vstd::arithmetic::power2::lemma2_to64_rest();
    assert(pow2(63) == 0x8000_0000_0000_0000);
    assert(offset / 0x8000_0000_0000_0000 == 0);
    lemma_host_offset_bound(63, offset);
}

/// What may be written may be read, at the same host address.
pub proof fn law_store_implies_load(region: MemoryRegion, vm_addr: u64, len: u64)
    requires
        region.spec_vm_to_host(AccessType::Store, vm_addr, len) is Some,
    ensures
        region.spec_vm_to_host(AccessType::Load, vm_addr, len) == region.spec_vm_to_host(
            AccessType::Store,
            vm_addr,
            len,
        ),
{
}

/// A region that is not writable translates no store, and no access with a byte in a gap is
/// translated.
pub proof fn law_no_translation(
    region: MemoryRegion,
    access_type: AccessType,
    vm_addr: u64,
    len: u64,
    k: int,
)
    requires
        (access_type is Store && !region.writable) || (0 <= k < len && vm_addr >= region.vm_addr
            && is_in_gap(region.vm_gap_shift, vm_addr - region.vm_addr + k)),
    ensures
        region.spec_vm_to_host(access_type, vm_addr, len) is None,
{
    if !(access_type is Store && !region.writable) {
        let offset = vm_addr - region.vm_addr;
        if stays_in_frame(region.vm_gap_shift, offset, len as int) {
            lemma_same_frame(region.vm_gap_shift, offset, k);
        }
    }
}

/// Each byte of a translated access lies where the byte alone translates to. Left out are bytes
/// behind the end of the address space, and those of a continuous region that are half of the
/// address space away from its start: alone, they are not translated.
pub proof fn law_each_byte_translates(
    region: MemoryRegion,
    access_type: AccessType,
    vm_addr: u64,
    len: u64,
    k: int,
)
    requires
        region.host_range_fits(),
        region.spec_vm_to_host(access_type, vm_addr, len) is Some,
        0 <= k < len,
        vm_addr + k <= u64::MAX,
        region.vm_gap_shift == 63 ==> vm_addr - region.vm_addr + k < 0x8000_0000_0000_0000,
    ensures
        region.spec_vm_to_host(access_type, (vm_addr + k) as u64, 1) == Some(
            (region.spec_vm_to_host(access_type, vm_addr, len)->0 + k) as u64,
        ),
{
    let shift = region.vm_gap_shift;
    let offset = vm_addr - region.vm_addr;
    lemma_host_offset_bound(shift, offset);
    if shift < 63 {
        let frame = pow2(shift as nat) as int;
        vstd::arithmetic::power2::lemma_pow2_pos(shift as nat);
        lemma_same_frame(shift, offset, k);
        law_translation_contiguous_in_frame(shift, offset, k);
        assert((offset + k) % frame + 1 <= frame);
    } else if shift == 63 {
        vstd::arithmetic::power2::lemma2_to64();
        vstd::arithmetic::power2::lemma2_to64_rest();
        assert(pow2(63) == 0x8000_0000_0000_0000);
        lemma_host_offset_bound(shift, offset + k);
        assert((offset + k) / 0x8000_0000_0000_0000 == 0);
    }
}

/// Bytes that stay in a frame belong to the same frame.
proof fn lemma_same_frame(shift: u8, offset: int, k: int)
    requires
        shift < 63,
        0 <= offset,
        0 <= k,
        offset % (pow2(shift as nat) as int) + k < pow2(shift as nat),
    ensures
        (offset + k) / pow2(shift as nat) as int == offset / pow2(shift as nat) as int,
{
    let frame = pow2(shift as nat) as int;
    vstd::arithmetic::power2::lemma_pow2_pos(shift as nat);
    vstd::arithmetic::div_mod::lemma_fundamental_div_mod(offset, frame);
    vstd::arithmetic::div_mod::lemma_mod_bound(offset, frame);
    vstd::arithmetic::mul::lemma_mul_is_commutative(frame, offset / frame);
    vstd::arithmetic::div_mod::lemma_fundamental_div_mod_converse(
        offset + k,
        frame,
        offset / frame,
        offset % frame + k,
    );
}

/// A read only region of a slice translates no store, and a load exactly if it lies inside of the
/// slice, to the bytes of the slice.
pub proof fn law_readonly_region(
    region: MemoryRegion,
    len: int,
    vm_addr: u64,
    load_addr: u64,
    load_len: u64,
)
    requires
        region.describes(region.host_addr, len, vm_addr, 0, false),
        region.can_be_slice(),
    ensures
        region.spec_vm_to_host(AccessType::Store, load_addr, load_len) is None,
        region.spec_vm_to_host(AccessType::Load, load_addr, load_len) == if vm_addr <= load_addr
            && load_addr - vm_addr + load_len <= len {
            Some((region.host_addr + (load_addr - vm_addr)) as u64)
        } else {
            None
        },
{
    if vm_addr <= load_addr {
        if load_addr - vm_addr < 0x8000_0000_0000_0000 {
            law_continuous_translation(region, load_addr, load_len);
        } else {
            lemma_host_offset_bound(63, load_addr - vm_addr);
        }
    }
}

/// Where a region may be written to, a store is translated exactly if a load of the same bytes is,
/// and to the same host address.
pub proof fn law_store_translates_as_load(region: MemoryRegion, vm_addr: u64, len: u64)
    requires
        region.writable,
    ensures
        region.spec_vm_to_host(AccessType::Store, vm_addr, len) == region.spec_vm_to_host(
            AccessType::Load,
            vm_addr,
            len,
        ),
{
}

/// A continuous region translates every access that it permits exactly if all bytes lie inside of the
/// region, by their distance to its start, up to the last host address. With the shift of 63, a region
/// ends half of the address space behind its start at the latest.
pub proof fn law_continuous_access(
    region: MemoryRegion,
    access_type: AccessType,
    vm_addr: u64,
    len: u64,
)
    requires
        region.vm_gap_shift >= 63,
        access_type is Load || region.writable,
    ensures
        region.spec_vm_to_host(access_type, vm_addr, len) == if region.vm_addr <= vm_addr && vm_addr
            + len <= region.vm_addr + region.len && (region.vm_gap_shift == 63 ==> vm_addr
            - region.vm_addr < 0x8000_0000_0000_0000) {
            if region.host_addr + (vm_addr - region.vm_addr) <= u64::MAX {
                Some((region.host_addr + (vm_addr - region.vm_addr)) as u64)
            } else {
                Some(u64::MAX)
            }
        } else {
            None
        },
{
    if region.vm_addr <= vm_addr {
        let offset = vm_addr - region.vm_addr;
        lemma_host_offset_bound(region.vm_gap_shift, offset);
        vstd::arithmetic::power2::lemma2_to64();
        vstd::arithmetic::power2::lemma2_to64_rest();
        assert(pow2(63) == 0x8000_0000_0000_0000);
        assert(offset < 0x8000_0000_0000_0000 ==> offset / 0x8000_0000_0000_0000 == 0);
        assert(offset >= 0x8000_0000_0000_0000 ==> offset / 0x8000_0000_0000_0000 == 1);
    }
}

/// A writable region of a slice translates a store, and a load, exactly if it lies inside of the
/// slice, to the bytes of the slice.
pub proof fn law_writable_region(
    region: MemoryRegion,
    access_type: AccessType,
    vm_addr: u64,
    len: u64,
)
    requires
        region.vm_gap_shift == 63,
        region.writable,
        region.host_addr + region.len <= u64::MAX,
        region.len <= isize::MAX,
    ensures
        region.spec_vm_to_host(access_type, vm_addr, len) == if region.vm_addr <= vm_addr && vm_addr
            + len <= region.vm_addr + region.len {
            Some((region.host_addr + (vm_addr - region.vm_addr)) as u64)
        } else {
            None
        },
{
    law_continuous_access(region, access_type, vm_addr, len);
}

/// A region with gaps translates every access that it permits exactly if all bytes lie in one frame
/// and inside of the region. In the host range, the frames follow each other without the gaps. The
/// access starts `distance` bytes behind the start of the frame with the number `number`, where a
/// frame and the gap behind it span two times as many bytes as the frame.
pub proof fn law_gapped_access(
    region: MemoryRegion,
    access_type: AccessType,
    number: int,
    distance: int,
    vm_addr: u64,
    len: u64,
)
    requires
        region.vm_gap_shift < 63,
        access_type is Load || region.writable,
        0 <= number,
        0 <= distance < 2 * pow2(region.vm_gap_shift as nat),
        vm_addr == region.vm_addr + number * (2 * pow2(region.vm_gap_shift as nat)) + distance,
    ensures
        region.spec_vm_to_host(access_type, vm_addr, len) == ({
            let frame_size = pow2(region.vm_gap_shift as nat);
            let host_offset = number * frame_size + distance;
            if distance < frame_size && distance + len <= frame_size && host_offset + len
                <= region.len {
                if region.host_addr + host_offset <= u64::MAX {
                    Some((region.host_addr + host_offset) as u64)
                } else {
                    Some(u64::MAX)
                }
            } else {
                None
            }
        }),
{
    let shift = region.vm_gap_shift;
    let frame = pow2(shift as nat) as int;
    let offset = vm_addr - region.vm_addr;
    vstd::arithmetic::power2::lemma_pow2_pos(shift as nat);
    assert(number * (2 * frame) >= 0) by (nonlinear_arith)
        requires
            number >= 0,
            frame > 0,
    ;
    vstd::arithmetic::div_mod::lemma_fundamental_div_mod_converse(
        offset,
        2 * frame,
        number,
        distance,
    );
    if distance < frame {
        assert(offset == (2 * number) * frame + distance) by (nonlinear_arith)
            requires
                offset == number * (2 * frame) + distance,
        ;
        vstd::arithmetic::div_mod::lemma_fundamental_div_mod_converse(
            offset,
            frame,
            2 * number,
            distance,
        );
    } else {
        assert(offset == (2 * number + 1) * frame + (distance - frame)) by (nonlinear_arith)
            requires
                offset == number * (2 * frame) + distance,
        ;
        vstd::arithmetic::div_mod::lemma_fundamental_div_mod_converse(
            offset,
            frame,
            2 * number + 1,
            distance - frame,
        );
    }
    lemma_host_offset_bound(shift, offset);
}

/// No region translates an access in front of its start.
pub proof fn law_nothing_in_front(
    region: MemoryRegion,
    access_type: AccessType,
    vm_addr: u64,
    len: u64,
)
    requires
        vm_addr < region.vm_addr,
    ensures
        region.spec_vm_to_host(access_type, vm_addr, len) is None,
{
}

/// The range of a region spans as many virtual addresses as it has bytes, with gaps two times as
/// many, as far as there are addresses.
pub proof fn law_range_size(region: MemoryRegion, vm_addr: u64)
    ensures
        region.in_range(vm_addr) <==> region.vm_addr <= vm_addr < u64::MAX && vm_addr
            - region.vm_addr < if region.vm_gap_shift == 63 {
            region.len as int
        } else {
            2 * region.len
        },
        region.vm_addr <= region.spec_end() <= u64::MAX,
        region.vm_gap_shift == 63 && region.vm_addr + region.len <= u64::MAX ==> region.spec_end()
            == region.vm_addr + region.len,
        region.vm_gap_shift != 63 && region.vm_addr + 2 * region.len <= u64::MAX
            ==> region.spec_end() == region.vm_addr + 2 * region.len,
{
}

/// Every byte in the range of a continuous region of a slice can be loaded.
pub proof fn law_range_is_translated(region: MemoryRegion, vm_addr: u64)
    requires
        region.vm_gap_shift == 63,
        region.host_addr + region.len <= u64::MAX,
        region.len <= isize::MAX,
        region.in_range(vm_addr),
    ensures
        region.spec_vm_to_host(AccessType::Load, vm_addr, 1) == Some(
            (region.host_addr + (vm_addr - region.vm_addr)) as u64,
        ),
{
    law_continuous_access(region, AccessType::Load, vm_addr, 1);
}

/// What a region gives for an access, and for its range, is what the other laws speak of.
pub proof fn law_region_answers(
    region: &MemoryRegion,
    access_type: AccessType,
    vm_addr: u64,
    len: u64,
    host_addr: Option<u64>,
    range: Range<u64>,
)
    requires
        call_ensures(MemoryRegion::vm_to_host, (region, access_type, vm_addr, len), host_addr),
        call_ensures(MemoryRegion::vm_addr_range, (region,), range),
    ensures
        host_addr == region.spec_vm_to_host(access_type, vm_addr, len),
        range.start == region.vm_addr,
        range.end == region.spec_end(),
{
}

/// A region of a slice starts where the slice does and is as long. It is writable, and has gaps, as it
/// was asked for.
pub proof fn law_regions_of_slices(
    slice: &[u8],
    vm_addr: u64,
    vm_gap_size: u64,
    writable: bool,
    region: MemoryRegion,
    readonly: MemoryRegion,
)
    requires
        call_ensures(
            MemoryRegion::new_for_testing,
            (slice, vm_addr, vm_gap_size, writable),
            region,
        ),
        call_ensures(MemoryRegion::new_readonly, (slice, vm_addr), readonly),
    ensures
        exists|range: (usize, usize)|
            #[trigger] call_ensures(slice_addresses, (slice,), range) && region.host_addr
                == range.0,
        region.len == slice@.len() && region.vm_addr == vm_addr,
        region.writable == writable,
        vm_gap_size == 0 ==> region.vm_gap_shift == 63,
        vm_gap_size > 0 ==> pow2(region.vm_gap_shift as nat) == vm_gap_size,
        exists|range: (usize, usize)|
            #[trigger] call_ensures(slice_addresses, (slice,), range) && readonly.host_addr
                == range.0,
        readonly.len == slice@.len() && readonly.vm_addr == vm_addr,
        !readonly.writable && readonly.vm_gap_shift == 63,
        region.access_violation_handler_payload is None,
        readonly.access_violation_handler_payload is None,
{
}

/// A region of a slice that may be changed starts where the slice does, is as long, and is writable.
pub proof fn law_writable_regions_of_slices(
    slice: &mut [u8],
    vm_addr: u64,
    region: MemoryRegion,
)
    requires
        call_ensures(MemoryRegion::new_writable, (slice, vm_addr), region),
    ensures
        region.is_placed_at(&*old(slice)),
        region.len == old(slice)@.len() && region.vm_addr == vm_addr,
        region.writable && region.vm_gap_shift == 63,
        region.access_violation_handler_payload is None,
        final(slice)@ == old(slice)@,
{
}

/// The same with gaps
pub proof fn law_gapped_regions_of_slices(
    slice: &mut [u8],
    vm_addr: u64,
    vm_gap_size: u64,
    region: MemoryRegion,
)
    requires
        call_ensures(MemoryRegion::new_writable_gapped, (slice, vm_addr, vm_gap_size), region),
    ensures
        region.is_placed_at(&*old(slice)),
        region.len == old(slice)@.len() && region.vm_addr == vm_addr,
        region.writable,
        vm_gap_size == 0 ==> region.vm_gap_shift == 63,
        vm_gap_size > 0 ==> pow2(region.vm_gap_shift as nat) == vm_gap_size,
        region.access_violation_handler_payload is None,
        final(slice)@ == old(slice)@,
{
}

/// The range of a slice starts at its address, which is not zero, and has its length.
pub proof fn law_range_of_a_slice(slice: &[u8], range: (usize, usize))
    requires
        call_ensures(slice_addresses, (slice,), range),
    ensures
        range.0 > 0,
        range.1 - range.0 == slice@.len(),
        is_range_of(range, slice),
{
}

} // verus!
