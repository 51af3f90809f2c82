//! Address space layout and symbol hashing.
use vstd::prelude::*;

use crate::bytes::read_le;

verus! {

/// Size of the part of the address space that one memory region owns.
pub const MM_REGION_SIZE: u64 = 0x1_0000_0000;

/// Start of the program (text and read only data segments) in the memory map.
pub const MM_RODATA_START: u64 = 0x1_0000_0000;

/// Start of the stack in the memory map.
pub const MM_STACK_START: u64 = 0x2_0000_0000;

/// Start of the heap in the memory map.
pub const MM_HEAP_START: u64 = 0x3_0000_0000;

/// Start of the input buffers in the memory map.
pub const MM_INPUT_START: u64 = 0x4_0000_0000;

/// Offset added to the program counters of a printed trace.
pub const ELF_INSN_DUMP_OFFSET: usize = 29;

/// Register that holds the frame pointer.
pub const FRAME_PTR_REG: u8 = 10;

/// Rotation to the left by `bits`.
pub open spec fn rotated_left(word: u32, bits: u32) -> u32 {
    (word << bits) | (word >> ((32 - bits) as u32))
}

/// Diffusion of one block before it enters the hash.
pub open spec fn murmur_scramble(block: u32) -> u32 {
    rotated_left(block.wrapping_mul(0xcc9e_2d51), 15).wrapping_mul(0x1b87_3593)
}

/// The hash state after one more block.
pub open spec fn murmur_mix(state: u32, block: u32) -> u32 {
    rotated_left(state ^ murmur_scramble(block), 13).wrapping_mul(5).wrapping_add(0xe654_6b64)
}

/// The hash state after the first `count` blocks of four bytes, from an all zero seed.
pub open spec fn murmur_blocks(data: Seq<u8>, count: nat) -> u32
    decreases count,
{
    if count == 0 {
        0
    } else {
        let block = crate::bytes::le_value(data.subrange(4 * count - 4, 4 * count as int));
        murmur_mix(murmur_blocks(data, (count - 1) as nat), block as u32)
    }
}

/// Avalanche of the final state.
pub open spec fn murmur_finish(state: u32) -> u32 {
    let a = (state ^ (state >> 16u32)).wrapping_mul(0x85eb_ca6b);
    let b = (a ^ (a >> 13u32)).wrapping_mul(0xc2b2_ae35);
    b ^ (b >> 16u32)
}

/// MurmurHash3 of a byte string, 32 bit variant with seed zero.
pub open spec fn murmur32(data: Seq<u8>) -> u32 {
    let count = data.len() / 4;
    let tail = crate::bytes::le_value(data.skip(4 * count as int));
    let state = murmur_blocks(data, count) ^ murmur_scramble(tail as u32);
    murmur_finish(state ^ ((data.len() % 0x1_0000_0000) as u32))
}

fn rotate_left(word: u32, bits: u32) -> (result: u32)
    requires
        0 < bits < 32,
    ensures
        result == rotated_left(word, bits),
{
    (word << bits) | (word >> (32 - bits))
}

fn scramble(block: u32) -> (result: u32)
    ensures
        result == murmur_scramble(block),
{
    rotate_left(block.wrapping_mul(0xcc9e_2d51), 15).wrapping_mul(0x1b87_3593)
}

/// Hashes the name of a symbol to the key under which it is registered.
pub fn hash_symbol_name(name: &[u8]) -> (hash: u32)
    ensures
        hash == murmur32(name@),
{
    let count: usize = name.len() / 4;
    let mut state: u32 = 0;
    let mut i: usize = 0;
    while i < count
        invariant
            i <= count,
            count == name.len() / 4,
            state == murmur_blocks(name@, i as nat),
        decreases count - i,
    {
        let block: u64 = read_le(name, 4 * i, 4);
        proof {
            crate::bytes::lemma_pow256_values();
            crate::bytes::lemma_le_value_bound(name@.subrange(4 * i as int, 4 * i + 4));
        }
        state = rotate_left(state ^ scramble(block as u32), 13).wrapping_mul(5).wrapping_add(
            0xe654_6b64,
        );
        i = i + 1;
    }
    let tail: u64 = read_le(name, 4 * count, name.len() - 4 * count);
    proof {
        let rest = name@.subrange(4 * count as int, name@.len() as int);
        assert(rest =~= name@.skip(4 * count as int));
        crate::bytes::lemma_pow256_values();
        crate::bytes::lemma_le_value_bound(rest);
    }
    state = state ^ scramble(tail as u32);
    state = state ^ ((name.len() as u64 % 0x1_0000_0000) as u32);
    state = (state ^ (state >> 16)).wrapping_mul(0x85eb_ca6b);
    state = (state ^ (state >> 13)).wrapping_mul(0xc2b2_ae35);
    state ^ (state >> 16)
}

/// A rotation moves the bits that leave the word on the left to the right.
pub proof fn law_rotation(word: u32, bits: u32)
    requires
        bits == 13 || bits == 15,
    ensures
        bits == 13 ==> rotated_left(word, bits) as int == word as int * 0x2000 % 0x1_0000_0000
            + word as int / 0x8_0000,
        bits == 15 ==> rotated_left(word, bits) as int == word as int * 0x8000 % 0x1_0000_0000
            + word as int / 0x2_0000,
{
    if bits == 13 {
        assert(((word << 13u32) | (word >> 19u32)) as u64 == (word as u64 * 0x2000)
            % 0x1_0000_0000 + word as u64 / 0x8_0000) by (bit_vector);
    } else {
        assert(((word << 15u32) | (word >> 17u32)) as u64 == (word as u64 * 0x8000)
            % 0x1_0000_0000 + word as u64 / 0x2_0000) by (bit_vector);
    }
}

/// Before it enters the hash, a block is multiplied, rotated by fifteen bits and multiplied again.
pub proof fn law_scrambled_block(block: u32)
    ensures
        murmur_scramble(block) as int == rotated_left(
            (block as int * 0xcc9e_2d51 % 0x1_0000_0000) as u32,
            15,
        ) as int * 0x1b87_3593 % 0x1_0000_0000,
{
}

/// The hash starts at zero. Each four bytes, the lowest first, are scrambled and enter it by an
/// exclusive disjunction. It is then rotated by thirteen bits, multiplied and increased.
pub proof fn law_hashed_block(data: Seq<u8>, count: nat)
    requires
        4 * count + 4 <= data.len(),
    ensures
        murmur_blocks(data, 0) == 0,
        ({
            let at = 4 * count as int;
            let block = data[at] + data[at + 1] * 0x100 + data[at + 2] * 0x1_0000 + data[at + 3]
                * 0x100_0000;
            let mixed = rotated_left(
                murmur_blocks(data, count) ^ murmur_scramble(block as u32),
                13,
            );
            murmur_blocks(data, count + 1) as int == (mixed * 5 + 0xe654_6b64) % 0x1_0000_0000
        }),
{
    let at = 4 * count as int;
    let bytes = data.subrange(at, at + 4);
    reveal_with_fuel(crate::bytes::le_value, 5);
    assert(bytes.drop_first() =~= data.subrange(at + 1, at + 4));
    assert(bytes.drop_first().drop_first() =~= data.subrange(at + 2, at + 4));
    assert(bytes.drop_first().drop_first().drop_first() =~= data.subrange(at + 3, at + 4));
    assert(4 * (count + 1) - 4 == at);
}

/// Up to three bytes that are left, the lowest first, enter the hash by an exclusive disjunction once
/// they are scrambled, and so does the length. Two shifts and multiplications finish the hash.
#[verifier::spinoff_prover]
pub proof fn law_finished_hash(data: &[u8], hash: u32)
    requires
        call_ensures(hash_symbol_name, (data,), hash),
        data@.len() < 0x1_0000_0000,
    ensures
        ({
            let len = data@.len() as int;
            let at = len / 4 * 4;
            let rest = (if at < len {
                data@[at] as int
            } else {
                0
            }) + (if at + 1 < len {
                data@[at + 1] * 0x100
            } else {
                0
            }) + (if at + 2 < len {
                data@[at + 2] * 0x1_0000
            } else {
                0
            });
            let a = murmur_blocks(data@, (len / 4) as nat) ^ murmur_scramble(rest as u32)
                ^ len as u32;
            let b = ((a ^ (a >> 16u32)) as int * 0x85eb_ca6b % 0x1_0000_0000) as u32;
            let c = ((b ^ (b >> 13u32)) as int * 0xc2b2_ae35 % 0x1_0000_0000) as u32;
            hash == c ^ (c >> 16u32)
        }),
{
    let len = data@.len() as int;
    let at = 4 * (len / 4);
    let bytes = data@.skip(at);
    reveal_with_fuel(crate::bytes::le_value, 4);
    assert(bytes.len() == len - at);
    if bytes.len() > 0 {
        assert(bytes[0] == data@[at]);
        if bytes.len() > 1 {
            assert(bytes.drop_first()[0] == data@[at + 1]);
            if bytes.len() > 2 {
                assert(bytes.drop_first().drop_first()[0] == data@[at + 2]);
            }
        }
    }
}

} // verus!
