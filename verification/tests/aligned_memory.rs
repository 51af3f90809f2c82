use sbpf::byte_order::{
    native_order, native_sample, order_of, read_ordered, to_ordered, ByteOrder,
};
use sbpf::bytes::bytes_equal;
use sbpf::aligned_memory::{aligned_offset, is_memory_aligned, AlignedMemory, WriteError};

fn do_test<const ALIGN: usize>() {
    let mut aligned_memory = AlignedMemory::<ALIGN>::with_capacity(10);
    let ptr = aligned_memory.as_slice().as_ptr() as usize;
    assert_eq!(ptr & (ALIGN - 1), 0, "memory is not correctly aligned");
    assert_eq!(aligned_memory.data_addr(), ptr);

    assert_eq!(aligned_memory.write(&[42u8; 1]).unwrap(), 1);
    assert_eq!(aligned_memory.write(&[42u8; 9]).unwrap(), 9);
    assert_eq!(aligned_memory.as_slice(), &[42u8; 10]);
    assert_eq!(aligned_memory.write(&[42u8; 0]).unwrap(), 0);
    assert_eq!(aligned_memory.as_slice(), &[42u8; 10]);
    aligned_memory.write(&[42u8; 1]).unwrap_err();
    assert_eq!(aligned_memory.as_slice(), &[42u8; 10]);
    aligned_memory.as_slice_mut().copy_from_slice(&[84u8; 10]);
    assert_eq!(aligned_memory.as_slice(), &[84u8; 10]);

    let mut aligned_memory = AlignedMemory::<ALIGN>::with_capacity_zeroed(10);
    aligned_memory.fill_write(5, 0).unwrap();
    aligned_memory.fill_write(2, 1).unwrap();
    assert_eq!(aligned_memory.write(&[2u8; 3]).unwrap(), 3);
    assert_eq!(aligned_memory.as_slice(), &[0, 0, 0, 0, 0, 1, 1, 2, 2, 2]);
    aligned_memory.fill_write(1, 3).unwrap_err();
    aligned_memory.write(&[4u8; 1]).unwrap_err();
    assert_eq!(aligned_memory.as_slice(), &[0, 0, 0, 0, 0, 1, 1, 2, 2, 2]);

    let aligned_memory = AlignedMemory::<ALIGN>::zero_filled(10);
    assert_eq!(aligned_memory.len(), 10);
    assert_eq!(aligned_memory.as_slice(), &[0u8; 10]);

    let mut aligned_memory = AlignedMemory::<ALIGN>::with_capacity_zeroed(15);
    aligned_memory.write_unchecked::<u8>(42);
    assert_eq!(aligned_memory.len(), 1);
    aligned_memory.write_unchecked::<u64>(0xCAFEBADDDEADCAFE);
    assert_eq!(aligned_memory.len(), 9);
    aligned_memory.fill_write(3, 0).unwrap();
    aligned_memory.write_all_unchecked(b"foo");
    assert_eq!(aligned_memory.len(), 15);
    let mem = aligned_memory.as_slice();
    assert_eq!(mem[0], 42);
    let mut word = [0u8; 8];
    word.copy_from_slice(&mem[1..9]);
    assert_eq!(u64::from_ne_bytes(word), 0xCAFEBADDDEADCAFE);
    assert_eq!(&mem[1 + 8..][..3], &[0, 0, 0]);
    assert_eq!(&mem[1 + 8 + 3..], b"foo");
}

#[test]
fn test_aligned_memory() {
    do_test::<1>();
    do_test::<16>();
    do_test::<32768>();
}

#[test]
fn refusals_tell_why() {
    let mut memory = AlignedMemory::<8>::with_capacity(2);
    assert_eq!(memory.fill_write(3, 1), Err(WriteError::InvalidInput));
    assert_eq!(memory.fill_write(usize::MAX, 1), Err(WriteError::InvalidInput));
    assert_eq!(
        memory.write(&[1, 2, 3]).unwrap_err().message(),
        "aligned memory fill_write failed"
    );
    assert!(memory.is_empty());
    memory.flush().unwrap();
}

#[test]
fn scalars_follow_the_machine() {
    let mut memory = AlignedMemory::<8>::with_capacity(30);
    memory.write_unchecked(-2i8);
    memory.write_unchecked(0x0102u16);
    memory.write_unchecked(0x01020304u32);
    memory.write_unchecked(-2i32);
    memory.write_unchecked(i64::MIN);
    let mut expected: Vec<u8> = vec![0xfe];
    expected.extend_from_slice(&0x0102u16.to_ne_bytes());
    expected.extend_from_slice(&0x01020304u32.to_ne_bytes());
    expected.extend_from_slice(&(-2i32).to_ne_bytes());
    expected.extend_from_slice(&i64::MIN.to_ne_bytes());
    assert_eq!(memory.as_slice(), &expected[..]);
}

#[test]
fn machine_order_is_found_out() {
    assert_eq!(native_sample(), 1u16.to_ne_bytes());
    assert_eq!(order_of([1, 0]), ByteOrder::Little);
    assert_eq!(order_of([0, 1]), ByteOrder::Big);
    let word = to_ordered(0x0102030405060708, 8, native_order());
    assert_eq!(word, 0x0102030405060708u64.to_ne_bytes().to_vec());
}

#[test]
fn numbers_have_two_byte_orders() {
    assert_eq!(to_ordered(0x010203, 3, ByteOrder::Little), vec![3, 2, 1]);
    assert_eq!(to_ordered(0x010203, 3, ByteOrder::Big), vec![1, 2, 3]);
    assert_eq!(read_ordered(&[9, 1, 2, 3, 9], 1, 3, ByteOrder::Little), 0x030201);
    assert_eq!(read_ordered(&[9, 1, 2, 3, 9], 1, 3, ByteOrder::Big), 0x010203);
}

#[test]
fn scalars_in_big_endian_order() {
    let mut memory = AlignedMemory::<8>::with_capacity(14);
    memory.write_ordered_unchecked(0x0102u16, ByteOrder::Big);
    memory.write_ordered_unchecked(-2i32, ByteOrder::Big);
    memory.write_ordered_unchecked(i64::MIN, ByteOrder::Big);
    assert_eq!(
        memory.as_slice(),
        &[1, 2, 0xff, 0xff, 0xff, 0xfe, 0x80, 0, 0, 0, 0, 0, 0, 0]
    );
}

#[test]
fn scalars_in_little_endian_order() {
    let mut memory = AlignedMemory::<8>::with_capacity(30);
    let order = ByteOrder::Little;
    memory.write_ordered_unchecked(-2i8, order);
    memory.write_ordered_unchecked(0x0102u16, order);
    memory.write_ordered_unchecked(-2i16, order);
    memory.write_ordered_unchecked(0x01020304u32, order);
    memory.write_ordered_unchecked(-2i32, order);
    memory.write_ordered_unchecked(i64::MIN, order);
    assert_eq!(memory.write_index(), 21);
    assert_eq!(
        memory.as_slice(),
        &[
            0xfe, 2, 1, 0xfe, 0xff, 4, 3, 2, 1, 0xfe, 0xff, 0xff, 0xff, 0, 0, 0, 0, 0, 0, 0, 0x80
        ]
    );
}

#[test]
fn writing_keeps_the_place() {
    let mut memory = AlignedMemory::<64>::with_capacity_zeroed(100);
    let addr = memory.data_addr();
    memory.fill_write(50, 7).unwrap();
    memory.write(&[1; 50]).unwrap();
    memory.as_slice_mut()[3] = 9;
    assert_eq!(memory.data_addr(), addr);
    assert_eq!(memory.as_slice().as_ptr() as usize, addr);
    assert!(is_memory_aligned(addr, 64));
}

#[test]
fn copies_have_no_room_and_are_not_zeroed() {
    let memory = AlignedMemory::<8>::zero_filled(4);
    let mut copy = memory.clone();
    assert_eq!(copy.as_slice(), memory.as_slice());
    // The copy was not zeroed when it was allocated, so it does not compare as equal.
    assert!(!copy.eq(&memory));
    assert!(copy.eq(&AlignedMemory::from(&[0u8; 4])));
    assert!(memory.eq(&AlignedMemory::<8>::zero_filled(4)));
    assert!(!memory.eq(&AlignedMemory::<8>::zero_filled(5)));
    copy.write(&[1]).unwrap_err();
}

#[test]
fn sizes_count_the_capacity() {
    let empty = AlignedMemory::<8>::with_capacity(0);
    let memory = AlignedMemory::<8>::with_capacity(100);
    assert_eq!(memory.mem_size() - empty.mem_size(), 100);
    assert_eq!(empty.mem_size(), std::mem::size_of::<AlignedMemory<8>>());
}

fn check_empty<const ALIGN: usize>() {
    for mut memory in [
        AlignedMemory::<ALIGN>::with_capacity(0),
        AlignedMemory::<ALIGN>::with_capacity_zeroed(0),
        AlignedMemory::<ALIGN>::zero_filled(0),
        AlignedMemory::<ALIGN>::from_slice(&[]),
    ] {
        assert!(memory.is_empty());
        assert!(is_memory_aligned(memory.data_addr(), ALIGN));
        assert_eq!(memory.as_slice().as_ptr() as usize, memory.data_addr());
        assert_eq!(memory.write(&[]), Ok(0));
        assert_eq!(memory.write(&[1]), Err(WriteError::InvalidInput));
    }
}

#[test]
fn empty_memory_is_aligned() {
    check_empty::<1>();
    check_empty::<16>();
    check_empty::<32768>();
}

#[test]
fn distances_to_aligned_addresses() {
    assert_eq!(aligned_offset(0, 8), 0);
    assert_eq!(aligned_offset(1, 8), 7);
    assert_eq!(aligned_offset(16, 8), 0);
    assert_eq!(aligned_offset(23, 8), 1);
    assert_eq!(aligned_offset(23, 1), 0);
    assert_eq!(aligned_offset(usize::MAX, 4096), 1);
}

#[test]
fn alignment_of_addresses() {
    assert!(is_memory_aligned(16, 8));
    assert!(!is_memory_aligned(17, 8));
    assert!(is_memory_aligned(0, 3));
    assert!(!is_memory_aligned(0, 0));
}

#[test]
fn byte_strings_compare() {
    assert!(bytes_equal(b"abc", b"abc"));
    assert!(!bytes_equal(b"abc", b"abd"));
    assert!(!bytes_equal(b"abc", b"ab"));
}
