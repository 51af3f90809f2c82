//! Numbers as text.
use vstd::prelude::*;

verus! {

/// The character of a digit, with upper case letters above nine.
pub open spec fn digit(value: nat) -> u8 {
    if value < 10 {
        (0x30 + value) as u8
    } else {
        (0x41 + value - 10) as u8
    }
}

/// `value` in decimal notation.
pub open spec fn decimal(value: nat) -> Seq<u8>
    decreases value,
{
    if value < 10 {
        seq![digit(value)]
    } else {
        decimal(value / 10).push(digit(value % 10))
    }
}

/// The lowest `count` digits of `value` in hexadecimal notation.
pub open spec fn hexadecimal(value: nat, count: nat) -> Seq<u8>
    decreases count,
{
    if count == 0 {
        Seq::empty()
    } else {
        hexadecimal(value / 16, (count - 1) as nat).push(digit(value % 16))
    }
}

/// `text` behind as many spaces as it takes to fill `width`.
pub open spec fn right_aligned(text: Seq<u8>, width: nat) -> Seq<u8> {
    if text.len() < width {
        Seq::new((width - text.len()) as nat, |i: int| 0x20u8) + text
    } else {
        text
    }
}

/// Appends `value` in decimal notation.
pub fn push_decimal(output: &mut Vec<u8>, value: u64)
    ensures
        final(output)@ == old(output)@ + decimal(value as nat),
    decreases value,
{
    if value < 10 {
        output.push(0x30 + value as u8);
        assert(output@ =~= old(output)@ + decimal(value as nat));
    } else {
        push_decimal(output, value / 10);
        output.push(0x30 + (value % 10) as u8);
        assert(output@ =~= old(output)@ + decimal(value as nat));
    }
}

/// Appends the lowest `count` digits of `value` in hexadecimal notation.
pub fn push_hexadecimal(output: &mut Vec<u8>, value: u64, count: usize)
    ensures
        final(output)@ == old(output)@ + hexadecimal(value as nat, count as nat),
    decreases count,
{
    if count > 0 {
        push_hexadecimal(output, value / 16, count - 1);
        let low: u8 = (value % 16) as u8;
        output.push(
            if low < 10 {
                0x30 + low
            } else {
                0x41 + (low - 10)
            },
        );
    }
    assert(output@ =~= old(output)@ + hexadecimal(value as nat, count as nat));
}

/// `value` in hexadecimal notation with lower case letters, without leading zeros.
pub open spec fn hexadecimal_lower(value: nat) -> Seq<u8>
    decreases value,
{
    if value < 16 {
        seq![lower_digit(value)]
    } else {
        hexadecimal_lower(value / 16).push(lower_digit(value % 16))
    }
}

/// The character of a digit, with lower case letters above nine.
pub open spec fn lower_digit(value: nat) -> u8 {
    if value < 10 {
        (0x30 + value) as u8
    } else {
        (0x61 + value - 10) as u8
    }
}

/// `value` in hexadecimal notation behind the prefix `0x`.
pub open spec fn hexadecimal_prefixed(value: nat) -> Seq<u8> {
    seq![0x30u8, 0x78] + hexadecimal_lower(value)
}

/// Appends `value` in hexadecimal notation with lower case letters, without leading zeros.
pub fn push_hexadecimal_lower(output: &mut Vec<u8>, value: u64)
    ensures
        final(output)@ == old(output)@ + hexadecimal_lower(value as nat),
    decreases value,
{
    if value >= 16 {
        push_hexadecimal_lower(output, value / 16);
    }
    let low: u8 = (value % 16) as u8;
    output.push(
        if low < 10 {
            0x30 + low
        } else {
            0x61 + (low - 10)
        },
    );
    assert(output@ =~= old(output)@ + hexadecimal_lower(value as nat));
}

/// Appends `value` in hexadecimal notation behind the prefix `0x`.
pub fn push_prefixed(output: &mut Vec<u8>, value: u64)
    ensures
        final(output)@ == old(output)@ + hexadecimal_prefixed(value as nat),
{
    output.push(0x30);
    output.push(0x78);
    push_hexadecimal_lower(output, value);
    assert(output@ =~= old(output)@ + hexadecimal_prefixed(value as nat));
}

/// Appends a byte string.
pub fn push_bytes(output: &mut Vec<u8>, bytes: &[u8])
    ensures
        final(output)@ == old(output)@ + bytes@,
{
    let mut i: usize = 0;
    while i < bytes.len()
        invariant
            i <= bytes@.len(),
            output@ == old(output)@ + bytes@.take(i as int),
        decreases bytes@.len() - i,
    {
        output.push(bytes[i]);
        i = i + 1;
        assert(output@ =~= old(output)@ + bytes@.take(i as int));
    }
    assert(bytes@.take(i as int) =~= bytes@);
}

/// Appends `value` in decimal notation, behind as many spaces as it takes to fill `width`.
pub fn push_right_aligned(output: &mut Vec<u8>, value: usize, width: usize)
    ensures
        final(output)@ == old(output)@ + right_aligned(decimal(value as nat), width as nat),
{
    let mut text: Vec<u8> = Vec::new();
    push_decimal(&mut text, value as u64);
    assert(text@ =~= decimal(value as nat));
    let ghost before = output@;
    if text.len() < width {
        let missing: usize = width - text.len();
        let mut i: usize = 0;
        while i < missing
            invariant
                i <= missing,
                output@ == before + Seq::new(i as nat, |k: int| 0x20u8),
            decreases missing - i,
        {
            output.push(0x20);
            i = i + 1;
            assert(output@ =~= before + Seq::new(i as nat, |k: int| 0x20u8));
        }
    }
    push_bytes(output, text.as_slice());
    assert(output@ =~= before + right_aligned(decimal(value as nat), width as nat));
}

/// The number that digits from zero to nine, and letters from ten on, denote
pub open spec fn number_in(text: Seq<u8>, base: nat) -> nat
    decreases text.len(),
{
    if text.len() == 0 {
        0
    } else {
        let last = text.last();
        base * number_in(text.drop_last(), base) + if 0x30 <= last <= 0x39 {
            (last - 0x30) as nat
        } else if 0x41 <= last <= 0x46 {
            (last - 0x41 + 10) as nat
        } else if 0x61 <= last <= 0x66 {
            (last - 0x61 + 10) as nat
        } else {
            0
        }
    }
}

/// Decimal notation denotes the number, with decimal digits only, and starts with a zero for zero
/// alone.
pub proof fn law_decimal_digits(value: nat)
    ensures
        number_in(decimal(value), 10) == value,
        decimal(value).len() > 0,
        forall|i: int| 0 <= i < decimal(value).len() ==> 0x30 <= #[trigger] decimal(value)[i] <= 0x39,
        decimal(value)[0] == 0x30 <==> value == 0,
    decreases value,
{
    let text = decimal(value);
    if value >= 10 {
        law_decimal_digits(value / 10);
        assert(text.drop_last() =~= decimal(value / 10));
        assert(text[0] == decimal(value / 10)[0]);
        assert forall|i: int| 0 <= i < text.len() implies 0x30 <= #[trigger] text[i] <= 0x39 by {
            if i < text.len() - 1 {
                assert(text[i] == decimal(value / 10)[i]);
            }
        }
    } else {
        assert(text.drop_last() =~= Seq::<u8>::empty());
        assert(number_in(text.drop_last(), 10) == 0);
    }
}

/// Hexadecimal notation with a number of digits has that number of digits and upper case letters, and
/// denotes the number as far as it fits in them.
pub proof fn law_hexadecimal_digits(value: nat, count: nat)
    ensures
        hexadecimal(value, count).len() == count,
        forall|i: int|
            0 <= i < count ==> 0x30 <= #[trigger] hexadecimal(value, count)[i] <= 0x39 || 0x41
                <= hexadecimal(value, count)[i] <= 0x46,
        value < vstd::arithmetic::power::pow(16, count) ==> number_in(hexadecimal(value, count), 16)
            == value,
    decreases count,
{
    let text = hexadecimal(value, count);
    vstd::arithmetic::power::lemma_pow0(16);
    if count > 0 {
        let rest = hexadecimal(value / 16, (count - 1) as nat);
        law_hexadecimal_digits(value / 16, (count - 1) as nat);
        vstd::arithmetic::power::lemma_pow_adds(16, 1, (count - 1) as nat);
        vstd::arithmetic::power::lemma_pow1(16);
        assert(text.drop_last() =~= rest);
        assert forall|i: int| 0 <= i < count implies 0x30 <= #[trigger] text[i] <= 0x39 || 0x41
            <= text[i] <= 0x46 by {
            if i < count - 1 {
                assert(text[i] == rest[i]);
            }
        }
    }
}

/// Prefixed hexadecimal notation denotes the number behind `0x`, with lower case letters, and starts
/// with a zero for zero alone.
pub proof fn law_prefixed_digits(value: nat)
    ensures
        hexadecimal_prefixed(value).take(2) == seq![0x30u8, 0x78],
        hexadecimal_prefixed(value).skip(2) == hexadecimal_lower(value),
        number_in(hexadecimal_lower(value), 16) == value,
        hexadecimal_lower(value).len() > 0,
        forall|i: int|
            0 <= i < hexadecimal_lower(value).len() ==> 0x30 <= #[trigger] hexadecimal_lower(
                value,
            )[i] <= 0x39 || 0x61 <= hexadecimal_lower(value)[i] <= 0x66,
        hexadecimal_lower(value)[0] == 0x30 <==> value == 0,
    decreases value,
{
    let text = hexadecimal_lower(value);
    assert(hexadecimal_prefixed(value).take(2) =~= seq![0x30u8, 0x78]);
    assert(hexadecimal_prefixed(value).skip(2) =~= text);
    if value >= 16 {
        law_prefixed_digits(value / 16);
        assert(text.drop_last() =~= hexadecimal_lower(value / 16));
        assert(text[0] == hexadecimal_lower(value / 16)[0]);
        assert forall|i: int| 0 <= i < text.len() implies 0x30 <= #[trigger] text[i] <= 0x39 || 0x61
            <= text[i] <= 0x66 by {
            if i < text.len() - 1 {
                assert(text[i] == hexadecimal_lower(value / 16)[i]);
            }
        }
    } else {
        assert(text.drop_last() =~= Seq::<u8>::empty());
        assert(number_in(text.drop_last(), 16) == 0);
    }
}

/// A text that is aligned to the right ends the columns that it is given, behind nothing but spaces.
/// One that is too long is left as it is.
pub proof fn law_alignment(text: Seq<u8>, width: nat)
    ensures
        text.len() >= width ==> right_aligned(text, width) == text,
        text.len() < width ==> {
            let aligned = right_aligned(text, width);
            &&& aligned.len() == width
            &&& aligned.skip(width - text.len()) == text
            &&& forall|i: int| 0 <= i < width - text.len() ==> #[trigger] aligned[i] == 0x20
        },
{
    if text.len() < width {
        assert(right_aligned(text, width).skip(width - text.len()) =~= text);
    }
}

} // verus!
