use std::{cell::RefCell, rc::Rc};

use sbpf::byte_order::{native_order, ByteOrder};
use sbpf::config::Config;
use sbpf::ebpf;
use sbpf::error::EbpfError;
use sbpf::host_memory::HostMemory;
use sbpf::mapping_cache::MappingCache;
use sbpf::memory_mapping::{
    default_access_violation_handler, AccessViolationHandler, AlignedMemoryMapping,
    DefaultAccessViolationHandler, MemoryMapping, UnalignedMemoryMapping,
};
use sbpf::memory_region::{slice_addresses, AccessType, MemoryRegion};
use sbpf::result::ProgramResult;
use sbpf::version::SBPFVersion;

fn assert_violation(result: ProgramResult) {
    assert!(format!("{:?}", result.unwrap_err()).contains("AccessViolation"));
}

fn unwrapped(result: ProgramResult) -> u64 {
    match result {
        ProgramResult::Success(value) => value,
        ProgramResult::Failure(error) => panic!("unwrap {:?}", error),
    }
}

fn created<H>(result: Result<MemoryMapping<'_, H>, EbpfError>) -> MemoryMapping<'_, H> {
    match result {
        Ok(mapping) => mapping,
        Err(error) => panic!("{:?}", error),
    }
}

fn refused<H>(result: Result<MemoryMapping<'_, H>, EbpfError>) -> EbpfError {
    match result {
        Ok(_) => panic!("the mapping was created"),
        Err(error) => error,
    }
}

fn host_of(slices: &[&[u8]]) -> HostMemory {
    let mut host = HostMemory::new(native_order());
    for slice in slices {
        assert!(host.insert(slice.as_ptr() as u64, slice.to_vec()));
    }
    host
}

fn config_with(aligned_memory_mapping: bool) -> Config {
    Config {
        aligned_memory_mapping,
        ..Config::default()
    }
}

/// Makes the region writable and moves it to a copy of the original.
struct CopyOnWrite {
    original: Vec<u8>,
    copied: Rc<RefCell<Vec<u8>>>,
    payload: Option<u16>,
}

impl AccessViolationHandler for CopyOnWrite {
    fn handle(
        &self,
        region: &mut MemoryRegion,
        _region_max_len: u64,
        _access_type: AccessType,
        _vm_addr: u64,
        _len: u64,
    ) {
        assert_eq!(region.access_violation_handler_payload, self.payload);
        self.copied.borrow_mut().extend_from_slice(&self.original);
        region.writable = true;
        region.host_addr = self.copied.borrow().as_ptr() as u64;
    }
}

/// Records the room that the mapping offers, and answers with a fixed region.
struct Answer {
    region: MemoryRegion,
    offered: Rc<RefCell<Vec<u64>>>,
}

impl AccessViolationHandler for Answer {
    fn handle(
        &self,
        region: &mut MemoryRegion,
        region_max_len: u64,
        _access_type: AccessType,
        _vm_addr: u64,
        _len: u64,
    ) {
        self.offered.borrow_mut().push(region_max_len);
        *region = self.region;
    }
}

#[test]
fn test_mapping_cache() {
    let mut cache = MappingCache::new();
    assert_eq!(cache.find(0), None);

    let mut ranges = vec![10u64..20, 20..30, 30..40, 40..50];
    for (region, range) in ranges.iter().cloned().enumerate() {
        cache.insert(range, region);
    }
    for (region, range) in ranges.iter().enumerate() {
        if region > 0 {
            assert_eq!(cache.find(range.start - 1), Some(region - 1));
        } else {
            assert_eq!(cache.find(range.start - 1), None);
        }
        assert_eq!(cache.find(range.start), Some(region));
        assert_eq!(cache.find(range.start + 1), Some(region));
        assert_eq!(cache.find(range.end - 1), Some(region));
        if region < 3 {
            assert_eq!(cache.find(range.end), Some(region + 1));
        } else {
            assert_eq!(cache.find(range.end), None);
        }
    }

    cache.insert(50..60, 4);
    ranges.push(50..60);
    for (region, range) in ranges.iter().enumerate() {
        if region == 0 {
            assert_eq!(cache.find(range.start), None);
            continue;
        }
        if region > 1 {
            assert_eq!(cache.find(range.start - 1), Some(region - 1));
        } else {
            assert_eq!(cache.find(range.start - 1), None);
        }
        assert_eq!(cache.find(range.start), Some(region));
        assert_eq!(cache.find(range.start + 1), Some(region));
        assert_eq!(cache.find(range.end - 1), Some(region));
        if region < 4 {
            assert_eq!(cache.find(range.end), Some(region + 1));
        } else {
            assert_eq!(cache.find(range.end), None);
        }
    }
}

#[test]
fn test_mapping_cache_flush() {
    let mut cache = MappingCache::new();
    assert_eq!(cache.find(0), None);
    cache.insert(0..10, 0);
    assert_eq!(cache.find(0), Some(0));
    cache.flush();
    assert_eq!(cache.find(0), None);
}

#[test]
fn test_map_empty() {
    for aligned_memory_mapping in [false, true] {
        let config = config_with(aligned_memory_mapping);
        let m = created(MemoryMapping::new(vec![], &config, SBPFVersion::V3));
        assert_violation(m.map(AccessType::Load, ebpf::MM_INPUT_START, 8));
    }
}

#[test]
fn test_gapped_map() {
    for aligned_memory_mapping in [false, true] {
        let config = config_with(aligned_memory_mapping);
        let mem0 = [0; 8];
        let mut mem1 = vec![0xff; 8];
        let mut host = host_of(&[&mem0, &mem1]);
        let mut m = created(MemoryMapping::new(
            vec![
                MemoryRegion::new_readonly(&mem0, ebpf::MM_RODATA_START),
                MemoryRegion::new_writable_gapped(&mut mem1, ebpf::MM_STACK_START, 2),
            ],
            &config,
            SBPFVersion::V3,
        ));
        for frame in 0..4 {
            let address = ebpf::MM_STACK_START + frame * 4;
            assert!(m.find_region(address).is_some());
            assert!(m.map(AccessType::Load, address, 2).is_ok());
            assert_violation(m.map(AccessType::Load, address + 2, 2));
            assert_eq!(m.load::<u16>(&host, address).unwrap(), 0xFFFF);
            assert_violation(m.load::<u16>(&host, address + 2));
            assert!(m.store::<u16>(&mut host, 0xFFFF, address).is_ok());
            assert_violation(m.store::<u16>(&mut host, 0xFFFF, address + 2));
        }
    }
}

#[test]
fn test_unaligned_map_overlap() {
    let config = config_with(false);
    let mem1 = [1, 2, 3, 4];
    let mem2 = [5, 6];
    assert_eq!(
        format!(
            "{:?}",
            refused(MemoryMapping::new(
                vec![
                    MemoryRegion::new_readonly(&mem1, ebpf::MM_INPUT_START),
                    MemoryRegion::new_readonly(&mem2, ebpf::MM_INPUT_START + mem1.len() as u64 - 1),
                ],
                &config,
                SBPFVersion::V3,
            ))
        ),
        "InvalidMemoryRegion(1)"
    );
    assert!(MemoryMapping::new(
        vec![
            MemoryRegion::new_readonly(&mem1, ebpf::MM_INPUT_START),
            MemoryRegion::new_readonly(&mem2, ebpf::MM_INPUT_START + mem1.len() as u64),
        ],
        &config,
        SBPFVersion::V3,
    )
    .is_ok());
}

#[test]
fn test_unaligned_map() {
    let config = config_with(false);
    let mut mem1 = [11];
    let mem2 = [22, 22];
    let mem3 = [33];
    let mem4 = [44, 44];
    let m = created(MemoryMapping::new(
        vec![
            MemoryRegion::new_writable(&mut mem1, ebpf::MM_INPUT_START),
            MemoryRegion::new_readonly(&mem2, ebpf::MM_INPUT_START + mem1.len() as u64),
            MemoryRegion::new_readonly(
                &mem3,
                ebpf::MM_INPUT_START + (mem1.len() + mem2.len()) as u64,
            ),
            MemoryRegion::new_readonly(
                &mem4,
                ebpf::MM_INPUT_START + (mem1.len() + mem2.len() + mem3.len()) as u64,
            ),
        ],
        &config,
        SBPFVersion::V3,
    ));

    assert_eq!(
        m.map(AccessType::Load, ebpf::MM_INPUT_START, 1).unwrap(),
        mem1.as_ptr() as u64
    );

    assert_eq!(
        m.map(AccessType::Store, ebpf::MM_INPUT_START, 1).unwrap(),
        mem1.as_ptr() as u64
    );

    assert_violation(m.map(AccessType::Load, ebpf::MM_INPUT_START, 2));

    assert_eq!(
        m.map(
            AccessType::Load,
            ebpf::MM_INPUT_START + mem1.len() as u64,
            1,
        )
        .unwrap(),
        mem2.as_ptr() as u64
    );

    assert_eq!(
        m.map(
            AccessType::Load,
            ebpf::MM_INPUT_START + (mem1.len() + mem2.len()) as u64,
            1,
        )
        .unwrap(),
        mem3.as_ptr() as u64
    );

    assert_eq!(
        m.map(
            AccessType::Load,
            ebpf::MM_INPUT_START + (mem1.len() + mem2.len() + mem3.len()) as u64,
            1,
        )
        .unwrap(),
        mem4.as_ptr() as u64
    );

    assert_violation(m.map(
        AccessType::Load,
        ebpf::MM_INPUT_START + (mem1.len() + mem2.len() + mem3.len() + mem4.len()) as u64,
        1,
    ));
}

#[test]
fn test_unaligned_region() {
    let config = config_with(false);

    let mut mem1 = vec![0xFF; 4];
    let mem2 = vec![0xDD; 4];
    let m = created(MemoryMapping::new(
        vec![
            MemoryRegion::new_writable(&mut mem1, ebpf::MM_INPUT_START),
            MemoryRegion::new_readonly(&mem2, ebpf::MM_INPUT_START + 4),
        ],
        &config,
        SBPFVersion::V3,
    ));
    assert!(m.find_region(ebpf::MM_INPUT_START - 1).is_none());
    assert_eq!(
        m.find_region(ebpf::MM_INPUT_START).unwrap().1.host_addr,
        mem1.as_ptr() as u64
    );
    assert_eq!(
        m.find_region(ebpf::MM_INPUT_START + 3).unwrap().1.host_addr,
        mem1.as_ptr() as u64
    );
    assert_eq!(
        m.find_region(ebpf::MM_INPUT_START + 4).unwrap().1.host_addr,
        mem2.as_ptr() as u64
    );
    assert_eq!(
        m.find_region(ebpf::MM_INPUT_START + 7).unwrap().1.host_addr,
        mem2.as_ptr() as u64
    );
    assert!(m.find_region(ebpf::MM_INPUT_START + 8).is_some());
}

#[test]
fn test_aligned_region() {
    let config = config_with(true);

    let mut mem1 = vec![0xFF; 4];
    let mem2 = vec![0xDD; 4];
    let m = created(MemoryMapping::new(
        vec![
            MemoryRegion::new_writable(&mut mem1, ebpf::MM_RODATA_START),
            MemoryRegion::new_readonly(&mem2, ebpf::MM_STACK_START),
        ],
        &config,
        SBPFVersion::V4,
    ));
    assert!(m.find_region(ebpf::MM_RODATA_START - 1).is_none());
    assert_eq!(
        m.find_region(ebpf::MM_RODATA_START).unwrap().1.host_addr,
        mem1.as_ptr() as u64
    );
    assert_eq!(
        m.find_region(ebpf::MM_RODATA_START + 3)
            .unwrap()
            .1
            .host_addr,
        mem1.as_ptr() as u64
    );
    assert!(m.find_region(ebpf::MM_RODATA_START + 4).is_some());
    assert_eq!(
        m.find_region(ebpf::MM_STACK_START).unwrap().1.host_addr,
        mem2.as_ptr() as u64
    );
    assert_eq!(
        m.find_region(ebpf::MM_STACK_START + 3).unwrap().1.host_addr,
        mem2.as_ptr() as u64
    );
    assert!(m.find_region(ebpf::MM_INPUT_START + 4).is_none());
}

#[test]
fn test_unaligned_map_load() {
    let config = config_with(false);
    let mem1 = [0x11, 0x22];
    let mem2 = [0x33];
    let host = host_of(&[&mem1, &mem2]);
    let mut m = created(MemoryMapping::new(
        vec![
            MemoryRegion::new_readonly(&mem1, ebpf::MM_INPUT_START),
            MemoryRegion::new_readonly(&mem2, ebpf::MM_INPUT_START + mem1.len() as u64),
        ],
        &config,
        SBPFVersion::V3,
    ));

    assert_eq!(m.load::<u16>(&host, ebpf::MM_INPUT_START).unwrap(), 0x2211);
    assert_violation(m.load::<u32>(&host, ebpf::MM_INPUT_START));
    assert_violation(m.load::<u32>(&host, ebpf::MM_INPUT_START + 4));
}

#[test]
fn test_unaligned_map_store() {
    let config = config_with(false);
    let mut mem1 = vec![0xff, 0xff];
    let mut mem2 = vec![0xff];
    let mut host = host_of(&[&mem1, &mem2]);
    let mut m = created(MemoryMapping::new(
        vec![
            MemoryRegion::new_writable(&mut mem1, ebpf::MM_INPUT_START),
            MemoryRegion::new_writable(&mut mem2, ebpf::MM_INPUT_START + mem1.len() as u64),
        ],
        &config,
        SBPFVersion::V3,
    ));

    m.store(&mut host, 0x1122u16, ebpf::MM_INPUT_START).unwrap();
    assert_eq!(m.load::<u16>(&host, ebpf::MM_INPUT_START).unwrap(), 0x1122);

    assert_violation(m.store(&mut host, 0x33445566u32, ebpf::MM_INPUT_START));
}

#[test]
fn test_unaligned_map_store_out_of_bounds() {
    let config = config_with(false);

    let mut mem1 = vec![0xFF];
    let mut host = host_of(&[&mem1]);
    let mut m = created(MemoryMapping::new(
        vec![MemoryRegion::new_writable(&mut mem1, ebpf::MM_INPUT_START)],
        &config,
        SBPFVersion::V3,
    ));
    m.store(&mut host, 0x11u8, ebpf::MM_INPUT_START).unwrap();
    assert_violation(m.store(&mut host, 0x11u8, ebpf::MM_INPUT_START - 1));
    assert_violation(m.store(&mut host, 0x11u8, ebpf::MM_INPUT_START + 1));
    // this gets us line coverage for the case where we're completely
    // outside the address space (the case above is just on the edge)
    assert_violation(m.store(&mut host, 0x11u8, ebpf::MM_INPUT_START + 2));

    let mut mem1 = vec![0xFF; 4];
    let mut mem2 = vec![0xDD; 4];
    let mut host = host_of(&[&mem1, &mem2]);
    let mut m = created(MemoryMapping::new(
        vec![
            MemoryRegion::new_writable(&mut mem1, ebpf::MM_INPUT_START),
            MemoryRegion::new_writable(&mut mem2, ebpf::MM_INPUT_START + 4),
        ],
        &config,
        SBPFVersion::V3,
    ));
    assert_violation(m.store(&mut host, 0x1122334455667788u64, ebpf::MM_INPUT_START));
}

#[test]
fn test_unaligned_map_load_out_of_bounds() {
    let config = config_with(false);

    let mem1 = vec![0xff];
    let host = host_of(&[&mem1]);
    let mut m = created(MemoryMapping::new(
        vec![MemoryRegion::new_readonly(&mem1, ebpf::MM_INPUT_START)],
        &config,
        SBPFVersion::V3,
    ));
    assert_eq!(m.load::<u8>(&host, ebpf::MM_INPUT_START).unwrap(), 0xff);
    assert_violation(m.load::<u8>(&host, ebpf::MM_INPUT_START - 1));
    assert_violation(m.load::<u8>(&host, ebpf::MM_INPUT_START + 1));
    assert_violation(m.load::<u8>(&host, ebpf::MM_INPUT_START + 2));

    let mem1 = vec![0xFF; 4];
    let mem2 = vec![0xDD; 4];
    let host = host_of(&[&mem1, &mem2]);
    let mut m = created(MemoryMapping::new(
        vec![
            MemoryRegion::new_readonly(&mem1, ebpf::MM_INPUT_START),
            MemoryRegion::new_readonly(&mem2, ebpf::MM_INPUT_START + 4),
        ],
        &config,
        SBPFVersion::V3,
    ));
    assert_violation(m.load::<u64>(&host, ebpf::MM_INPUT_START));
}

#[test]
#[should_panic(expected = "AccessViolation")]
fn test_store_readonly() {
    let config = config_with(false);
    let mut mem1 = vec![0xff, 0xff];
    let mem2 = vec![0xff, 0xff];
    let mut host = host_of(&[&mem1, &mem2]);
    let mut m = created(MemoryMapping::new(
        vec![
            MemoryRegion::new_writable(&mut mem1, ebpf::MM_INPUT_START),
            MemoryRegion::new_readonly(&mem2, ebpf::MM_INPUT_START + mem1.len() as u64),
        ],
        &config,
        SBPFVersion::V3,
    ));
    unwrapped(m.store(&mut host, 0x11223344, ebpf::MM_INPUT_START));
}

#[test]
fn test_unaligned_map_replace_region() {
    let config = config_with(false);
    let mem1 = [11];
    let mem2 = [22, 22];
    let mem3 = [33];
    let mut m = created(MemoryMapping::new(
        vec![
            MemoryRegion::new_readonly(&mem1, ebpf::MM_INPUT_START),
            MemoryRegion::new_readonly(&mem2, ebpf::MM_INPUT_START + mem1.len() as u64),
        ],
        &config,
        SBPFVersion::V3,
    ));

    assert_eq!(
        m.map(AccessType::Load, ebpf::MM_INPUT_START, 1).unwrap(),
        mem1.as_ptr() as u64
    );

    assert_eq!(
        m.map(
            AccessType::Load,
            ebpf::MM_INPUT_START + mem1.len() as u64,
            1,
        )
        .unwrap(),
        mem2.as_ptr() as u64
    );

    assert_eq!(
        m.replace_region(
            2,
            MemoryRegion::new_readonly(&mem3, ebpf::MM_INPUT_START + mem1.len() as u64)
        ),
        Err(EbpfError::InvalidMemoryRegion(2))
    );

    let region_index = m
        .get_regions()
        .iter()
        .position(|mem| mem.vm_addr == ebpf::MM_INPUT_START + mem1.len() as u64)
        .unwrap();

    // old.vm_addr != new.vm_addr
    assert_eq!(
        m.replace_region(
            region_index,
            MemoryRegion::new_readonly(&mem3, ebpf::MM_INPUT_START + mem1.len() as u64 + 1)
        ),
        Err(EbpfError::InvalidMemoryRegion(region_index))
    );

    m.replace_region(
        region_index,
        MemoryRegion::new_readonly(&mem3, ebpf::MM_INPUT_START + mem1.len() as u64),
    )
    .unwrap();

    assert_eq!(
        m.map(
            AccessType::Load,
            ebpf::MM_INPUT_START + mem1.len() as u64,
            1,
        )
        .unwrap(),
        mem3.as_ptr() as u64
    );
}

#[test]
fn test_aligned_map_replace_region() {
    let config = config_with(true);
    let mem1 = [11];
    let mem2 = [22, 22];
    let mem3 = [33, 33];
    let mut m = created(MemoryMapping::new(
        vec![
            MemoryRegion::new_readonly(&mem1, ebpf::MM_RODATA_START),
            MemoryRegion::new_readonly(&mem2, ebpf::MM_STACK_START),
        ],
        &config,
        SBPFVersion::V4,
    ));

    assert_eq!(
        m.map(AccessType::Load, ebpf::MM_STACK_START, 1).unwrap(),
        mem2.as_ptr() as u64
    );

    // index > regions.len()
    assert_eq!(
        m.replace_region(3, MemoryRegion::new_readonly(&mem3, ebpf::MM_STACK_START)),
        Err(EbpfError::InvalidMemoryRegion(3))
    );

    // index != addr >> VIRTUAL_ADDRESS_BITS
    assert_eq!(
        m.replace_region(2, MemoryRegion::new_readonly(&mem3, ebpf::MM_HEAP_START)),
        Err(EbpfError::InvalidMemoryRegion(2))
    );

    // index + len != addr >> VIRTUAL_ADDRESS_BITS
    assert_eq!(
        m.replace_region(
            2,
            MemoryRegion::new_readonly(&mem3, ebpf::MM_HEAP_START - 1)
        ),
        Err(EbpfError::InvalidMemoryRegion(2))
    );

    m.replace_region(2, MemoryRegion::new_readonly(&mem3, ebpf::MM_STACK_START))
        .unwrap();

    assert_eq!(
        m.map(AccessType::Load, ebpf::MM_STACK_START, 1).unwrap(),
        mem3.as_ptr() as u64
    );
}

#[test]
fn test_access_violation_handler_map() {
    for aligned_memory_mapping in [true, false] {
        let config = config_with(aligned_memory_mapping);
        let original = [11, 22];
        let copied = Rc::new(RefCell::new(Vec::new()));
        let mut regions = vec![MemoryRegion::new_readonly(&original, ebpf::MM_RODATA_START)];
        regions[0].access_violation_handler_payload = Some(0);

        let mut m = created(MemoryMapping::new_with_access_violation_handler(
            regions,
            &config,
            SBPFVersion::V3,
            CopyOnWrite {
                original: original.to_vec(),
                copied: Rc::clone(&copied),
                payload: Some(0),
            },
        ));

        assert_eq!(
            m.map_with_access_violation_handler(AccessType::Load, ebpf::MM_RODATA_START, 1)
                .unwrap(),
            original.as_ptr() as u64
        );
        assert_eq!(
            m.map_with_access_violation_handler(AccessType::Store, ebpf::MM_RODATA_START, 1)
                .unwrap(),
            copied.borrow().as_ptr() as u64
        );
    }
}

#[test]
fn test_access_violation_handler_load_store() {
    for aligned_memory_mapping in [true, false] {
        let config = config_with(aligned_memory_mapping);
        let original = [11, 22];
        let copied = Rc::new(RefCell::new(Vec::with_capacity(2)));
        let mut regions = vec![MemoryRegion::new_readonly(&original, ebpf::MM_RODATA_START)];
        regions[0].access_violation_handler_payload = Some(0);
        let mut host = host_of(&[&original]);
        assert!(host.insert(copied.borrow().as_ptr() as u64, original.to_vec()));

        let mut m = created(MemoryMapping::new_with_access_violation_handler(
            regions,
            &config,
            SBPFVersion::V3,
            CopyOnWrite {
                original: original.to_vec(),
                copied: Rc::clone(&copied),
                payload: Some(0),
            },
        ));

        assert_eq!(
            m.map(AccessType::Load, ebpf::MM_RODATA_START, 1).unwrap(),
            original.as_ptr() as u64
        );

        assert_eq!(m.load::<u8>(&host, ebpf::MM_RODATA_START).unwrap(), 11);
        assert_eq!(m.load::<u8>(&host, ebpf::MM_RODATA_START + 1).unwrap(), 22);
        assert!(copied.borrow().is_empty());

        m.store(&mut host, 33u8, ebpf::MM_RODATA_START).unwrap();
        assert_eq!(host.read(original.as_ptr() as u64, 1), Some(11));
        assert_eq!(m.load::<u8>(&host, ebpf::MM_RODATA_START).unwrap(), 33);
        assert_eq!(m.load::<u8>(&host, ebpf::MM_RODATA_START + 1).unwrap(), 22);
    }
}

#[test]
fn test_access_violation_handler_region_id() {
    for aligned_memory_mapping in [true, false] {
        let config = config_with(aligned_memory_mapping);
        let original1 = [11, 22];
        let original2 = [33, 44];
        let copied = Rc::new(RefCell::new(Vec::with_capacity(2)));
        let mut host = host_of(&[&original1, &original2]);
        assert!(host.insert(copied.borrow().as_ptr() as u64, original1.to_vec()));

        let mut regions = vec![
            MemoryRegion::new_readonly(&original1, ebpf::MM_RODATA_START),
            MemoryRegion::new_readonly(&original2, ebpf::MM_RODATA_START + 0x100000000),
        ];
        regions[0].access_violation_handler_payload = Some(42);

        let mut m = created(MemoryMapping::new_with_access_violation_handler(
            regions,
            &config,
            SBPFVersion::V3,
            // checks that the payload of the region is passed to the handler
            CopyOnWrite {
                original: original1.to_vec(),
                copied: Rc::clone(&copied),
                payload: Some(42),
            },
        ));

        m.store(&mut host, 55u8, ebpf::MM_RODATA_START).unwrap();
        assert_eq!(host.read(original1.as_ptr() as u64, 1), Some(11));
        assert_eq!(m.load::<u8>(&host, ebpf::MM_RODATA_START).unwrap(), 55);
    }
}

#[test]
#[should_panic(expected = "AccessViolation")]
fn test_map_access_violation_handler_error() {
    let config = Config::default();
    let original = [11, 22];

    let m = created(MemoryMapping::new_with_access_violation_handler(
        vec![MemoryRegion::new_readonly(&original, ebpf::MM_RODATA_START)],
        &config,
        SBPFVersion::V4,
        DefaultAccessViolationHandler,
    ));

    unwrapped(m.map(AccessType::Store, ebpf::MM_RODATA_START, 1));
}

#[test]
#[should_panic(expected = "AccessViolation")]
fn test_store_access_violation_handler_error() {
    let config = Config::default();
    let original = [11, 22];
    let mut host = host_of(&[&original]);

    let mut m = created(MemoryMapping::new_with_access_violation_handler(
        vec![MemoryRegion::new_readonly(&original, ebpf::MM_RODATA_START)],
        &config,
        SBPFVersion::V4,
        DefaultAccessViolationHandler,
    ));

    unwrapped(m.store(&mut host, 33u8, ebpf::MM_RODATA_START));
}

#[test]
fn v4_aligned_mapping() {
    let config = config_with(false);

    let mapping = created(MemoryMapping::new_with_access_violation_handler(
        vec![MemoryRegion::new_readonly(&[11, 12], ebpf::MM_RODATA_START)],
        &config,
        SBPFVersion::V4,
        DefaultAccessViolationHandler,
    ));

    assert!(matches!(mapping, MemoryMapping::Aligned(_)));
}

#[test]
fn gap_shift_of_constructors() {
    let mut mem = [0u8; 16];
    assert_eq!(MemoryRegion::new_readonly(&mem, 0).vm_gap_shift, 63);
    assert_eq!(MemoryRegion::new_writable_gapped(&mut mem, 0, 1).vm_gap_shift, 0);
    assert_eq!(MemoryRegion::new_writable_gapped(&mut mem, 0, 4096).vm_gap_shift, 12);
    assert_eq!(MemoryRegion::new_for_testing(&mem, 0, 1 << 63, true).vm_gap_shift, 63);
    let region = MemoryRegion::new_for_testing(&mem, 7, 8, false);
    assert_eq!(region.vm_gap_shift, 3);
    assert_eq!(region.vm_addr, 7);
    assert_eq!(region.len, 16);
    assert_eq!(region.host_addr, mem.as_ptr() as u64);
    assert!(!region.writable);
    assert_eq!(region.access_violation_handler_payload, None);
}

#[test]
fn ranges_saturate() {
    let region = MemoryRegion::from_host_range(0, u64::MAX, 10, 0, false);
    assert_eq!(region.vm_addr_range(), 10..u64::MAX);
    let region = MemoryRegion::from_host_range(0, 1 << 63, 10, 2, false);
    assert_eq!(region.vm_addr_range(), 10..u64::MAX);
    let region = MemoryRegion::from_host_range(0, 6, 10, 2, false);
    assert_eq!(region.vm_addr_range(), 10..22);
}

#[test]
fn gapped_translation_of_every_byte() {
    let region = MemoryRegion::from_host_range(1000, 16, 100, 4, true);
    for frame in 0..4u64 {
        for byte in 0..4u64 {
            let offset = frame * 8 + byte;
            assert_eq!(
                region.vm_to_host(AccessType::Load, 100 + offset, 1),
                Some(1000 + frame * 4 + byte)
            );
            assert_eq!(region.vm_to_host(AccessType::Load, 104 + offset, 1), None);
        }
    }
    assert_eq!(region.vm_to_host(AccessType::Load, 99, 1), None);
    assert_eq!(region.vm_to_host(AccessType::Load, 132, 1), None);
    assert_eq!(region.vm_to_host(AccessType::Load, 124, 4), Some(1012));
    assert_eq!(region.vm_to_host(AccessType::Load, 124, 5), None);
    assert_eq!(region.vm_to_host(AccessType::Load, 124, u64::MAX), None);
}

#[test]
fn shift_beyond_the_word_means_no_gaps() {
    let mut region = MemoryRegion::from_host_range(1000, 16, 100, 0, false);
    region.vm_gap_shift = 64;
    assert_eq!(region.vm_to_host(AccessType::Load, 115, 1), Some(1015));
    assert_eq!(region.vm_to_host(AccessType::Store, 115, 1), None);
    region.vm_gap_shift = 255;
    assert_eq!(region.vm_to_host(AccessType::Load, 115, 1), Some(1015));
}

#[test]
fn host_addresses_saturate() {
    let region = MemoryRegion::from_host_range(u64::MAX - 1, 16, 100, 0, false);
    assert_eq!(region.vm_to_host(AccessType::Load, 110, 1), Some(u64::MAX));
}

#[test]
fn violation_errors() {
    let mut config = config_with(true);
    let violation = |config: &Config, version, vm_addr| {
        created(MemoryMapping::new(vec![], config, version))
            .map(AccessType::Store, vm_addr, 8)
            .unwrap_err()
    };
    let named = |vm_addr, name| EbpfError::AccessViolation(AccessType::Store, vm_addr, 8, name);
    let framed =
        |vm_addr, frame| EbpfError::StackAccessViolation(AccessType::Store, vm_addr, 8, frame);
    for (vm_addr, name) in [
        (0, "unknown"),
        (ebpf::MM_RODATA_START, "program"),
        (ebpf::MM_STACK_START, "stack"),
        (ebpf::MM_HEAP_START, "heap"),
        (ebpf::MM_INPUT_START + 5, "input"),
        (5 << 32, "unknown"),
        (u64::MAX, "unknown"),
    ] {
        assert_eq!(violation(&config, SBPFVersion::V1, vm_addr), named(vm_addr, name));
    }
    for (vm_addr, frame) in [
        (ebpf::MM_STACK_START - 4096, -1),
        (ebpf::MM_STACK_START - 4095, 0),
        (ebpf::MM_STACK_START, 0),
        (ebpf::MM_STACK_START + 4096 * 20, 20),
    ] {
        assert_eq!(violation(&config, SBPFVersion::V0, vm_addr), framed(vm_addr, frame));
        assert_eq!(violation(&config, SBPFVersion::V3, vm_addr), framed(vm_addr, frame));
    }
    let behind = ebpf::MM_STACK_START + 4096 * 21;
    assert_eq!(violation(&config, SBPFVersion::V0, behind), named(behind, "stack"));
    let before = ebpf::MM_STACK_START - 8192;
    assert_eq!(violation(&config, SBPFVersion::V0, before), named(before, "program"));
    // Without a frame size, every address belongs to frame zero.
    config.stack_frame_size = 0;
    assert_eq!(violation(&config, SBPFVersion::V0, u64::MAX), framed(u64::MAX, 0));
}

#[test]
fn aligned_regions_must_fill_the_slots_in_order() {
    let config = config_with(true);
    let mem = [1u8];
    for (starts, refused_index) in [
        (vec![2u64 << 32], 1),
        (vec![1u64 << 32, 1 << 32], 2),
        (vec![0u64], 1),
        (vec![1u64 << 32, 3 << 32], 2),
    ] {
        let regions = starts
            .into_iter()
            .map(|start| MemoryRegion::new_readonly(&mem, start))
            .collect();
        assert_eq!(
            refused(MemoryMapping::new(regions, &config, SBPFVersion::V3)),
            EbpfError::InvalidMemoryRegion(refused_index)
        );
    }
    let regions = vec![
        MemoryRegion::new_readonly(&mem, 2 << 32),
        MemoryRegion::new_readonly(&mem, (1 << 32) + 7),
    ];
    let m = created(MemoryMapping::new(regions, &config, SBPFVersion::V3));
    let starts: Vec<u64> = m.get_regions().iter().map(|region| region.vm_addr).collect();
    assert_eq!(starts, vec![0, (1 << 32) + 7, 2 << 32]);
    assert_eq!(m.get_regions()[0].len, 0);
    assert_violation(m.map(AccessType::Load, 1 << 32, 1));
}

#[test]
fn lookups_among_many_regions() {
    let config = config_with(false);
    for count in 0..40usize {
        let mem = [0u8; 4];
        // Given in an order that is neither ascending nor descending.
        let regions: Vec<MemoryRegion> = (0..count)
            .map(|i| MemoryRegion::new_readonly(&mem, 1000 + 10 * ((i * 7 + 3) % count) as u64))
            .collect();
        let m = match MemoryMapping::new(regions, &config, SBPFVersion::V0) {
            Ok(m) => m,
            Err(_) => continue,
        };
        for round in 0..2 {
            assert!(m.find_region(999).is_none());
            for addr in 1000..1000 + 10 * count as u64 {
                let (index, region) = m.find_region(addr).unwrap();
                assert_eq!(index as u64, (addr - 1000) / 10, "round {}", round);
                assert_eq!(region.vm_addr, 1000 + 10 * index as u64);
            }
        }
    }
}

#[test]
fn regions_with_one_start_keep_their_order() {
    let config = config_with(false);
    let empty: [u8; 0] = [];
    let mut regions: Vec<MemoryRegion> = (0..4u16)
        .map(|payload| {
            let mut region = MemoryRegion::new_readonly(&empty, 50 - 10 * (payload as u64 % 2));
            region.access_violation_handler_payload = Some(payload);
            region
        })
        .collect();
    regions.push(MemoryRegion::new_readonly(&empty, 45));
    let m = created(MemoryMapping::new(regions, &config, SBPFVersion::V0));
    let payloads: Vec<Option<u16>> = m
        .get_regions()
        .iter()
        .map(|region| region.access_violation_handler_payload)
        .collect();
    assert_eq!(payloads, vec![Some(1), Some(3), None, Some(0), Some(2)]);
}

#[test]
fn direct_replacement_is_unchecked_and_empties_the_cache() {
    let config = config_with(false);
    let mem = [0u8; 4];
    let mut m = match UnalignedMemoryMapping::new_with_access_violation_handler(
        vec![
            MemoryRegion::new_readonly(&mem, 100),
            MemoryRegion::new_readonly(&mem, 200),
        ],
        &config,
        SBPFVersion::V0,
        DefaultAccessViolationHandler,
    ) {
        Ok(m) => m,
        Err(error) => panic!("{:?}", error),
    };
    assert_eq!(m.find_region(100).unwrap().0, 0);
    let longer = MemoryRegion::from_host_range(0, 1000, 100, 0, false);
    m.replace_region(0, longer).unwrap();
    assert_eq!(m.find_region(200).unwrap().0, 1);
    assert_eq!(*m.find_region(150).unwrap().1, longer);
    // The range of the longer region is remembered now, and it holds this address, too.
    assert_eq!(m.find_region(250).unwrap().0, 0);
}

#[test]
fn direct_replacement_in_an_aligned_mapping() {
    let config = config_with(true);
    let mem = [0u8; 4];
    let mut m = match AlignedMemoryMapping::new_with_access_violation_handler(
        vec![MemoryRegion::new_readonly(&mem, 1 << 32)],
        &config,
        SBPFVersion::V4,
        DefaultAccessViolationHandler,
    ) {
        Ok(m) => m,
        Err(error) => panic!("{:?}", error),
    };
    let moved = MemoryRegion::from_host_range(0, 1 << 32, 1 << 32, 0, false);
    m.replace_region(1, moved).unwrap();
    assert_eq!(*m.find_region((1 << 32) + 5).unwrap().1, moved);
    let too_long = MemoryRegion::from_host_range(0, (1 << 32) + 1, 1 << 32, 0, false);
    assert_eq!(m.replace_region(1, too_long), Err(EbpfError::InvalidMemoryRegion(1)));
    assert_eq!(*m.find_region((1 << 32) + 5).unwrap().1, moved);
}

#[test]
fn handled_region_must_fit() {
    for aligned_memory_mapping in [true, false] {
        let config = config_with(aligned_memory_mapping);
        let mem = [0u8; 4];
        let offered = Rc::new(RefCell::new(Vec::new()));
        let answer = MemoryRegion::from_host_range(5000, 2 << 32, 1 << 32, 0, true);
        let mut m = created(MemoryMapping::new_with_access_violation_handler(
            vec![
                MemoryRegion::new_readonly(&mem, 1 << 32),
                MemoryRegion::new_readonly(&mem, 2 << 32),
            ],
            &config,
            SBPFVersion::V0,
            Answer {
                region: answer,
                offered: Rc::clone(&offered),
            },
        ));
        let index = if aligned_memory_mapping { 1 } else { 0 };
        assert_eq!(
            m.map_with_access_violation_handler(AccessType::Store, 1 << 32, 4)
                .unwrap_err(),
            EbpfError::InvalidMemoryRegion(index)
        );
        assert_eq!(*offered.borrow(), vec![1 << 32]);
        assert!(!m.get_regions()[index].writable);
        let fitting = MemoryRegion::from_host_range(5000, 8, 1 << 32, 0, true);
        assert_eq!(
            m.apply_handled_region(index, fitting, AccessType::Store, (1 << 32) + 4, 4)
                .unwrap(),
            5004
        );
        assert_eq!(m.get_regions()[index], fitting);
        assert_violation(m.apply_handled_region(
            index,
            fitting,
            AccessType::Store,
            (1 << 32) + 5,
            4,
        ));
    }
}

#[test]
fn last_region_may_grow_to_the_end() {
    let config = config_with(false);
    let mem = [0u8; 4];
    let offered = Rc::new(RefCell::new(Vec::new()));
    let region = MemoryRegion::new_readonly(&mem, 100);
    let mut m = created(MemoryMapping::new_with_access_violation_handler(
        vec![region],
        &config,
        SBPFVersion::V0,
        Answer {
            region,
            offered: Rc::clone(&offered),
        },
    ));
    assert_violation(m.map_with_access_violation_handler(AccessType::Store, 100, 4));
    assert_eq!(*offered.borrow(), vec![u64::MAX - 100]);
}

#[test]
fn identity_maps_everything() {
    let mut m = MemoryMapping::<DefaultAccessViolationHandler>::new_identity();
    assert_eq!(m.map(AccessType::Store, 77, u64::MAX).unwrap(), 77);
    assert_eq!(
        m.map_with_access_violation_handler(AccessType::Load, u64::MAX, 8)
            .unwrap(),
        u64::MAX
    );
    assert!(m.find_region(0).is_none());
    assert!(m.get_regions().is_empty());
    assert_eq!(
        m.replace_region(0, MemoryRegion::default()),
        Err(EbpfError::InvalidMemoryRegion(0))
    );
}

#[test]
fn default_handler_repairs_nothing() {
    let mut region = MemoryRegion::from_host_range(1, 2, 3, 4, false);
    let before = region;
    default_access_violation_handler(&mut region, 1, AccessType::Store, 3, 1);
    assert_eq!(region, before);
}

#[test]
fn host_memory_refuses_overlaps() {
    let mut host = HostMemory::new(ByteOrder::Little);
    assert!(host.insert(100, vec![1, 2, 3]));
    assert!(!host.insert(102, vec![4]));
    assert!(!host.insert(99, vec![4, 5]));
    assert!(!host.insert(u64::MAX, vec![4]));
    assert!(host.insert(103, vec![4]));
    assert_eq!(host.read(100, 3), Some(0x030201));
    // Two neighbours are not one byte string.
    assert_eq!(host.read(102, 2), None);
    assert!(host.write(101, &vec![9, 8]));
    assert!(!host.write(102, &vec![9, 8]));
    assert_eq!(host.read(100, 3), Some(0x080901));
    assert_eq!(host.read(103, 1), Some(4));
}

#[test]
fn host_memory_keeps_its_byte_order() {
    let mut host = HostMemory::new(ByteOrder::Big);
    assert!(host.insert(100, vec![1, 2, 3, 4]));
    assert_eq!(host.read(100, 3), Some(0x010203));
    assert!(host.write(101, &vec![9, 8]));
    assert_eq!(host.read(100, 4), Some(0x01090804));
    assert_eq!(host.byte_order(), ByteOrder::Big);
}

#[test]
fn loads_and_stores_follow_the_host() {
    for (order, value, stored) in [
        (ByteOrder::Little, 0x2211, vec![0x44, 0x33]),
        (ByteOrder::Big, 0x1122, vec![0x33, 0x44]),
    ] {
        let mut host = HostMemory::new(order);
        assert!(host.insert(0x1000, vec![0x11, 0x22, 0x33, 0x44]));
        let config = config_with(true);
        let region =
            MemoryRegion::from_host_range(0x1000, 4, ebpf::MM_RODATA_START, 0, true);
        let mut m = created(MemoryMapping::new(vec![region], &config, SBPFVersion::V3));
        assert_eq!(unwrapped(m.load::<u16>(&host, ebpf::MM_RODATA_START)), value);
        unwrapped(m.store(&mut host, 0x3344u16, ebpf::MM_RODATA_START));
        assert_eq!(unwrapped(m.load::<u16>(&host, ebpf::MM_RODATA_START)), 0x3344);
        assert_eq!(host.read(0x1000, 1), Some(stored[0]));
        assert_eq!(host.read(0x1001, 1), Some(stored[1]));
    }
}

#[test]
fn regions_are_ordered_by_virtual_address() {
    let low = MemoryRegion::from_host_range(9, 9, 1, 0, true);
    let high = MemoryRegion::from_host_range(1, 1, 2, 0, false);
    let same = MemoryRegion::from_host_range(5, 5, 1, 0, false);
    assert!(low < high && high > low && low <= same && same <= low);
    assert_eq!(low.cmp(&high), std::cmp::Ordering::Less);
    assert_eq!(high.cmp(&low), std::cmp::Ordering::Greater);
    assert_eq!(low.partial_cmp(&same), Some(std::cmp::Ordering::Equal));
    assert_ne!(low, same);
}

#[test]
fn regions_describe_themselves() {
    let mut region = MemoryRegion::from_host_range(0x1000, 0x20, 0x1_0000_00ab, 16, true);
    assert_eq!(
        String::from_utf8(region.describe()).unwrap(),
        "host_addr: 0x1000-0x1020, vm_addr: 0x1000000ab-0x1000000eb, len: 32, writable: true, \
         payload None"
    );
    region.access_violation_handler_payload = Some(65535);
    region.host_addr = u64::MAX;
    region.writable = false;
    region.vm_addr = 0;
    assert_eq!(
        String::from_utf8(region.describe()).unwrap(),
        format!(
            "host_addr: {:#x?}-{:#x?}, vm_addr: {:#x?}-{:#x?}, len: {}, writable: {}, payload {:?}",
            region.host_addr,
            u64::MAX,
            0,
            64,
            32,
            false,
            Some(65535)
        )
    );
}

#[test]
fn accesses_must_not_run_into_a_gap() {
    let region = MemoryRegion::from_host_range(0x1000, 8, 0x2_0000_0000, 2, true);
    assert_eq!(region.vm_gap_shift, 1);
    for access_type in [AccessType::Load, AccessType::Store] {
        assert_eq!(region.vm_to_host(access_type, 0x2_0000_0001, 2), None);
        assert_eq!(region.vm_to_host(access_type, 0x2_0000_0001, 1), Some(0x1001));
        assert_eq!(region.vm_to_host(access_type, 0x2_0000_0000, 2), Some(0x1000));
        assert_eq!(region.vm_to_host(access_type, 0x2_0000_0000, 3), None);
        assert_eq!(region.vm_to_host(access_type, 0x2_0000_0004, 2), Some(0x1002));
    }
    // No access at all touches nothing.
    assert_eq!(region.vm_to_host(AccessType::Load, 0x2_0000_0001, 0), Some(0x1001));
}

#[test]
fn each_byte_lies_where_it_translates_to() {
    for gap_size in [0u64, 1, 2, 4, 8, 16] {
        let region = MemoryRegion::from_host_range(1000, 16, 100, gap_size, true);
        for vm_addr in 90..140 {
            for len in 1..20 {
                let bytes: Vec<Option<u64>> = (0..len)
                    .map(|k| region.vm_to_host(AccessType::Load, vm_addr + k, 1))
                    .collect();
                let host_addr = region.vm_to_host(AccessType::Load, vm_addr, len);
                match host_addr {
                    Some(host_addr) => {
                        for (k, byte) in bytes.iter().enumerate() {
                            assert_eq!(*byte, Some(host_addr + k as u64));
                        }
                    }
                    None => assert!(bytes.contains(&None)),
                }
            }
        }
    }
}

#[test]
fn gaps_are_violations() {
    for aligned_memory_mapping in [false, true] {
        let config = config_with(aligned_memory_mapping);
        let mem0 = [0; 8];
        let mut mem1 = vec![1, 2, 3, 4, 5, 6, 7, 8];
        let mut host = host_of(&[&mem0, &mem1]);
        let mut m = created(MemoryMapping::new(
            vec![
                MemoryRegion::new_readonly(&mem0, ebpf::MM_RODATA_START),
                MemoryRegion::new_writable_gapped(&mut mem1, ebpf::MM_STACK_START, 2),
            ],
            &config,
            SBPFVersion::V3,
        ));
        assert_violation(m.load::<u16>(&host, ebpf::MM_STACK_START + 1));
        assert_violation(m.store(&mut host, 0xffffu16, ebpf::MM_STACK_START + 1));
        assert_violation(m.load::<u32>(&host, ebpf::MM_STACK_START));
        assert_eq!(m.load::<u16>(&host, ebpf::MM_STACK_START + 4).unwrap(), 0x0403);
    }
}

#[test]
fn read_only_regions_translate_their_slice() {
    let mem = [1u8; 10];
    let region = MemoryRegion::new_readonly(&mem, 100);
    for vm_addr in 95..115u64 {
        for len in 0..12u64 {
            assert_eq!(region.vm_to_host(AccessType::Store, vm_addr, len), None);
            let inside = vm_addr >= 100 && vm_addr + len <= 110;
            assert_eq!(
                region.vm_to_host(AccessType::Load, vm_addr, len),
                if inside {
                    Some(mem.as_ptr() as u64 + vm_addr - 100)
                } else {
                    None
                }
            );
        }
    }
}

#[test]
fn slices_are_where_they_are() {
    let bytes = [1u8, 2, 3];
    let start = bytes.as_ptr() as usize;
    assert_eq!(slice_addresses(&bytes), (start, start + 3));
    assert_eq!(slice_addresses(&bytes[1..2]), (start + 1, start + 2));
    assert_ne!(slice_addresses(&[]).0, 0);
    assert_eq!(MemoryRegion::new_readonly(&bytes[1..], 0).host_addr, start as u64 + 1);
}

#[test]
fn translation_keeps_the_order() {
    let region = MemoryRegion::from_host_range(0x1000, 12, 0x100, 4, true);
    let mut last = 0;
    for vm_addr in 0x100..0x118 {
        let loaded = region.vm_to_host(AccessType::Load, vm_addr, 1);
        assert_eq!(loaded.is_some(), vm_addr % 8 < 4);
        assert_eq!(region.vm_to_host(AccessType::Store, vm_addr, 0), loaded);
        if let Some(host_addr) = loaded {
            assert!(host_addr > last);
            last = host_addr;
        }
    }
    assert_eq!(last, 0x100b);
}
