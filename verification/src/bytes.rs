//! Little endian byte strings.
use vstd::prelude::*;

verus! {

/// `256` to the power of `n`.
pub open spec fn pow256(n: nat) -> nat
    decreases n,
{
    if n == 0 {
        1
    } else {
        256 * pow256((n - 1) as nat)
    }
}

/// The number whose little endian digits in base 256 are `bytes`.
pub open spec fn le_value(bytes: Seq<u8>) -> nat
    decreases bytes.len(),
{
    if bytes.len() == 0 {
        0
    } else {
        bytes[0] as nat + 256 * le_value(bytes.drop_first())
    }
}

/// The lowest `n` little endian digits of `value` in base 256.
pub open spec fn le_bytes(value: nat, n: nat) -> Seq<u8>
    decreases n,
{
    if n == 0 {
        Seq::empty()
    } else {
        seq![(value % 256) as u8] + le_bytes(value / 256, (n - 1) as nat)
    }
}

/// A string of `n` bytes denotes a number below `256^n`.
pub proof fn lemma_le_value_bound(bytes: Seq<u8>)
    ensures
        le_value(bytes) < pow256(bytes.len()),
    decreases bytes.len(),
{
    if bytes.len() > 0 {
        lemma_le_value_bound(bytes.drop_first());
    }
}

/// The digits of a number have the requested length.
pub proof fn lemma_le_bytes_len(value: nat, n: nat)
    ensures
        le_bytes(value, n).len() == n,
    decreases n,
{
    if n > 0 {
        lemma_le_bytes_len(value / 256, (n - 1) as nat);
    }
}

/// Reading back the digits of a number that fits gives the number.
pub proof fn lemma_le_round_trip(value: nat, n: nat)
    requires
        value < pow256(n),
    ensures
        le_bytes(value, n).len() == n,
        le_value(le_bytes(value, n)) == value,
    decreases n,
{
    if n > 0 {
        lemma_le_round_trip(value / 256, (n - 1) as nat);
        let rest = le_bytes(value / 256, (n - 1) as nat);
        assert(le_bytes(value, n).drop_first() =~= rest);
    }
}

/// Writing out the number that a byte string denotes gives the byte string.
pub proof fn lemma_le_round_trip_bytes(bytes: Seq<u8>)
    ensures
        le_bytes(le_value(bytes), bytes.len()) =~= bytes,
    decreases bytes.len(),
{
    if bytes.len() > 0 {
        lemma_le_round_trip_bytes(bytes.drop_first());
        let value = le_value(bytes);
        assert(value % 256 == bytes[0] as nat && value / 256 == le_value(bytes.drop_first()));
        assert(seq![bytes[0]] + bytes.drop_first() =~= bytes);
    }
}

/// The powers of 256 that a 64 bit word can meet.
pub proof fn lemma_pow256_values()
    ensures
        pow256(0) == 1,
        pow256(1) == 0x100,
        pow256(2) == 0x1_0000,
        pow256(3) == 0x100_0000,
        pow256(4) == 0x1_0000_0000,
        pow256(5) == 0x100_0000_0000,
        pow256(6) == 0x1_0000_0000_0000,
        pow256(7) == 0x100_0000_0000_0000,
        pow256(8) == 0x1_0000_0000_0000_0000,
{
    reveal_with_fuel(pow256, 9);
}

/// Powers of 256 grow with the exponent.
pub proof fn lemma_pow256_increases(a: nat, b: nat)
    requires
        a <= b,
    ensures
        0 < pow256(a) <= pow256(b),
    decreases b,
{
    if a < b {
        lemma_pow256_increases(a, (b - 1) as nat);
    } else if a > 0 {
        lemma_pow256_increases((a - 1) as nat, (b - 1) as nat);
    }
}

/// Each digit of a number in base 256 stands at its place in the byte string.
pub proof fn law_digit_of_value(bytes: Seq<u8>, i: nat)
    requires
        i < bytes.len(),
    ensures
        le_value(bytes) as int / pow256(i) as int % 256 == bytes[i as int],
    decreases i,
{
    let rest = le_value(bytes.drop_first()) as int;
    let value = le_value(bytes) as int;
    if i > 0 {
        law_digit_of_value(bytes.drop_first(), (i - 1) as nat);
        lemma_pow256_increases(0, (i - 1) as nat);
        vstd::arithmetic::div_mod::lemma_div_denominator(value, 256, pow256((i - 1) as nat) as int);
        assert(value / 256 == rest);
    } else {
        assert(value / 1 == value);
    }
}

/// Each byte of a number is one of its digits in base 256.
pub proof fn law_byte_of_number(value: nat, n: nat, i: nat)
    requires
        i < n,
    ensures
        le_bytes(value, n).len() == n,
        le_bytes(value, n)[i as int] == value as int / pow256(i) as int % 256,
    decreases i,
{
    lemma_le_bytes_len(value, n);
    lemma_le_bytes_len(value / 256, (n - 1) as nat);
    if i > 0 {
        law_byte_of_number(value / 256, (n - 1) as nat, (i - 1) as nat);
        lemma_pow256_increases(0, (i - 1) as nat);
        vstd::arithmetic::div_mod::lemma_div_denominator(
            value as int,
            256,
            pow256((i - 1) as nat) as int,
        );
    } else {
        assert(value as int / 1 == value);
    }
}

/// Reads the little endian number in `data[start..start + count]`.
pub fn read_le(data: &[u8], start: usize, count: usize) -> (result: u64)
    requires
        count <= 8,
        start + count <= data.len(),
    ensures
        result == le_value(data@.subrange(start as int, start + count)),
{
    let mut result: u64 = 0;
    let mut i: usize = count;
    let ghost whole = data@.subrange(start as int, start + count);
    proof {
        lemma_pow256_values();
        assert(whole.skip(count as int) =~= Seq::<u8>::empty());
    }
    while i > 0
        invariant
            i <= count <= 8,
            start + count <= data.len(),
            whole == data@.subrange(start as int, start + count),
            result == le_value(whole.skip(i as int)),
        decreases i,
    {
        i = i - 1;
        proof {
            let tail = whole.skip(i as int);
            assert(tail.drop_first() =~= whole.skip(i + 1));
            lemma_le_value_bound(tail);
            lemma_pow256_values();
            lemma_pow256_increases(tail.len(), 8);
        }
        result = data[start + i] as u64 + 256 * result;
    }
    proof {
        assert(whole.skip(0) =~= whole);
    }
    result
}

/// The lowest `count` little endian digits of `value`.
pub fn to_le(value: u64, count: usize) -> (result: Vec<u8>)
    ensures
        result@ == le_bytes(value as nat, count as nat),
{
    let mut result: Vec<u8> = Vec::new();
    let mut rest: u64 = value;
    let mut i: usize = 0;
    while i < count
        invariant
            i <= count,
            result@ + le_bytes(rest as nat, (count - i) as nat) =~= le_bytes(
                value as nat,
                count as nat,
            ),
        decreases count - i,
    {
        let digit: u8 = (rest % 256) as u8;
        let ghost before = result@;
        result.push(digit);
        proof {
            let tail = le_bytes(rest as nat / 256, (count - i - 1) as nat);
            assert(le_bytes(rest as nat, (count - i) as nat) == seq![digit] + tail);
            assert(result@ + tail =~= before + (seq![digit] + tail));
        }
        rest = rest / 256;
        i = i + 1;
    }
    result
}

/// Are two byte strings equal
pub fn bytes_equal(a: &[u8], b: &[u8]) -> (equal: bool)
    ensures
        equal == (a@ == b@),
{
    if a.len() != b.len() {
        return false;
    }
    let mut i: usize = 0;
    while i < a.len()
        invariant
            i <= a@.len(),
            a@.len() == b@.len(),
            forall|k: int| 0 <= k < i ==> a@[k] == b@[k],
        decreases a@.len() - i,
    {
        if a[i] != b[i] {
            return false;
        }
        i = i + 1;
    }
    assert(a@ =~= b@);
    true
}

/// Byte strings are equal exactly if they are as long and have the same byte at every place.
pub proof fn law_equal_bytes(a: &[u8], b: &[u8], equal: bool)
    requires
        call_ensures(bytes_equal, (a, b), equal),
    ensures
        equal <==> a@.len() == b@.len() && forall|i: int|
            0 <= i < a@.len() ==> #[trigger] a@[i] == b@[i],
{
    if a@.len() == b@.len() && forall|i: int| 0 <= i < a@.len() ==> #[trigger] a@[i] == b@[i] {
        assert(a@ =~= b@);
    }
}

/// Little endian numbers have their lowest byte first, where they are read and where they are written.
pub proof fn law_little_endian_numbers(
    data: &[u8],
    start: usize,
    count: usize,
    number: u64,
    value: u64,
    written: Vec<u8>,
    i: nat,
)
    requires
        call_ensures(read_le, (data, start, count), number),
        call_ensures(to_le, (value, count), written),
        start + count <= data@.len(),
        i < count,
    ensures
        number as int / pow256(i) as int % 256 == data@[start + i],
        written@.len() == count,
        written@[i as int] == value as int / pow256(i) as int % 256,
{
    law_digit_of_value(data@.subrange(start as int, start + count), i);
    law_byte_of_number(value as nat, count as nat, i);
}

} // verus!
