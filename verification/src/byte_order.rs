//! The order of the bytes of numbers in memory.
use vstd::prelude::*;

use crate::bytes::{le_bytes, le_value, read_le, to_le};

verus! {

/// Order of the bytes of a number in memory
#[derive(Debug, Clone, Copy, PartialEq, Eq, Structural)]
pub enum ByteOrder {
    /// The lowest byte first
    Little,
    /// The highest byte first
    Big,
}

/// Bytes that start with the lowest one, in the given order, and the other way round
pub open spec fn in_order(bytes: Seq<u8>, order: ByteOrder) -> Seq<u8> {
    match order {
        ByteOrder::Little => bytes,
        ByteOrder::Big => bytes.reverse(),
    }
}

/// The number in the given bytes
pub open spec fn ordered_value(bytes: Seq<u8>, order: ByteOrder) -> nat {
    le_value(in_order(bytes, order))
}

/// The lowest `count` bytes of a number
pub open spec fn ordered_bytes(value: nat, count: nat, order: ByteOrder) -> Seq<u8> {
    in_order(le_bytes(value, count), order)
}

/// What is put in order and back is as before.
pub proof fn lemma_in_order_twice(bytes: Seq<u8>, order: ByteOrder)
    ensures
        in_order(in_order(bytes, order), order) == bytes,
        in_order(bytes, order).len() == bytes.len(),
{
    assert(in_order(in_order(bytes, order), order) =~= bytes);
}

/// The bytes of a number give back the number, in either order.
pub proof fn law_ordered_round_trip(value: nat, count: nat, order: ByteOrder)
    requires
        value < crate::bytes::pow256(count),
    ensures
        ordered_bytes(value, count, order).len() == count,
        ordered_value(ordered_bytes(value, count, order), order) == value,
{
    crate::bytes::lemma_le_round_trip(value, count);
    lemma_in_order_twice(le_bytes(value, count), order);
}

/// The bytes in the opposite order
fn reversed(bytes: &[u8]) -> (result: Vec<u8>)
    ensures
        result@ == bytes@.reverse(),
{
    let mut result: Vec<u8> = Vec::new();
    let mut i: usize = bytes.len();
    while i > 0
        invariant
            i <= bytes@.len(),
            result@ == bytes@.reverse().take(bytes@.len() - i),
        decreases i,
    {
        i = i - 1;
        result.push(bytes[i]);
        assert(result@ =~= bytes@.reverse().take(bytes@.len() - i));
    }
    assert(result@ =~= bytes@.reverse());
    result
}

/// The lowest `count` bytes of a number
pub fn to_ordered(value: u64, count: usize, order: ByteOrder) -> (bytes: Vec<u8>)
    ensures
        bytes@ == ordered_bytes(value as nat, count as nat, order),
{
    let bytes: Vec<u8> = to_le(value, count);
    match order {
        ByteOrder::Little => bytes,
        ByteOrder::Big => reversed(bytes.as_slice()),
    }
}

/// Reads the number in `data[start..start + count]`
pub fn read_ordered(data: &[u8], start: usize, count: usize, order: ByteOrder) -> (value: u64)
    requires
        count <= 8,
        start + count <= data.len(),
    ensures
        value == ordered_value(data@.subrange(start as int, start + count), order),
{
    match order {
        ByteOrder::Little => read_le(data, start, count),
        ByteOrder::Big => {
            let bytes: Vec<u8> = reversed(&data[start..start + count]);
            assert(bytes@.subrange(0, count as int) =~= bytes@);
            read_le(bytes.as_slice(), 0, count)
        },
    }
}

/// The bytes of a number in the order of this machine: `u16::to_ne_bytes`. Which order that is,
/// depends on the machine: it is the little endian or the big endian one.
#[verifier::external_body]
fn native_u16(value: u16) -> (bytes: [u8; 2])
    ensures
        bytes@ == ordered_bytes(value as nat, 2, ByteOrder::Little) || bytes@ == ordered_bytes(
            value as nat,
            2,
            ByteOrder::Big,
        ),
{
    value.to_ne_bytes()
}

/// Are these the bytes that [`native_u16`] gave for the number
pub closed spec fn is_native(value: u16, bytes: [u8; 2]) -> bool {
    call_ensures(native_u16, (value,), bytes)
}

/// The bytes of the number one on this machine
pub fn native_sample() -> (sample: [u8; 2])
    ensures
        is_native(1, sample),
        sample@ == ordered_bytes(1, 2, ByteOrder::Little) || sample@ == ordered_bytes(
            1,
            2,
            ByteOrder::Big,
        ),
{
    native_u16(1)
}

/// The order of the bytes on a machine, given those of the number one
pub fn order_of(sample: [u8; 2]) -> (order: ByteOrder)
    requires
        sample@ == ordered_bytes(1, 2, ByteOrder::Little) || sample@ == ordered_bytes(
            1,
            2,
            ByteOrder::Big,
        ),
    ensures
        sample@ == ordered_bytes(1, 2, order),
{
    proof {
        reveal_with_fuel(le_bytes, 3);
        assert(le_bytes(1, 2) =~= seq![1u8, 0u8]);
        assert(le_bytes(1, 2).reverse() =~= seq![0u8, 1u8]);
    }
    if sample[0] == 1 {
        ByteOrder::Little
    } else {
        ByteOrder::Big
    }
}

/// The order of the bytes on this machine
pub fn native_order() -> (order: ByteOrder)
    ensures
        exists|sample: [u8; 2]|
            #[trigger] call_ensures(native_sample, (), sample) && sample@ == ordered_bytes(
                1,
                2,
                order,
            ),
{
    order_of(native_sample())
}

/// The bytes of the number one tell the orders apart.
pub proof fn law_orders_differ(order: ByteOrder, other: ByteOrder)
    requires
        ordered_bytes(1, 2, order) == ordered_bytes(1, 2, other),
    ensures
        order == other,
{
    reveal_with_fuel(le_bytes, 3);
    assert(le_bytes(1, 2) =~= seq![1u8, 0u8]);
    assert(le_bytes(1, 2).reverse()[0] == 0u8);
    assert(le_bytes(1, 2)[0] == 1u8);
}

/// In little endian order the lowest byte of a number comes first, in big endian order the highest.
pub proof fn law_place_of_bytes(value: u64, count: usize, order: ByteOrder, bytes: Vec<u8>, i: nat)
    requires
        call_ensures(to_ordered, (value, count, order), bytes),
        i < count,
    ensures
        bytes@.len() == count,
        bytes@[if order is Little {
            i as int
        } else {
            count - 1 - i
        }] == value as int / crate::bytes::pow256(i) as int % 256,
{
    crate::bytes::law_byte_of_number(value as nat, count as nat, i);
}

/// A number that is read has the bytes that it is read from.
pub proof fn law_bytes_of_read_numbers(
    data: &[u8],
    start: usize,
    count: usize,
    order: ByteOrder,
    value: u64,
    i: nat,
)
    requires
        call_ensures(read_ordered, (data, start, count, order), value),
        start + count <= data@.len(),
        i < count,
    ensures
        value < crate::bytes::pow256(count as nat),
        value as int / crate::bytes::pow256(i) as int % 256 == data@[start + if order is Little {
            i as int
        } else {
            count - 1 - i
        }],
{
    let bytes = data@.subrange(start as int, start + count);
    lemma_in_order_twice(bytes, order);
    crate::bytes::lemma_le_value_bound(in_order(bytes, order));
    crate::bytes::law_digit_of_value(in_order(bytes, order), i);
}

/// A machine has the order in which it lays out the number one.
pub proof fn law_order_of_sample(sample: [u8; 2], order: ByteOrder)
    requires
        sample@ == seq![1u8, 0u8] || sample@ == seq![0u8, 1u8],
        call_ensures(order_of, (sample,), order),
    ensures
        order is Little <==> sample@[0] == 1,
        order is Big <==> sample@[1] == 1,
{
    reveal_with_fuel(le_bytes, 3);
    assert(le_bytes(1, 2) =~= seq![1u8, 0u8]);
    assert(le_bytes(1, 2).reverse() =~= seq![0u8, 1u8]);
}

} // verus!
