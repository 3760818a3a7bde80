use procpin::error::Error;
use procpin::topology::windows::{
    cpus, decode, ProcInfo, ProcInfoIterator, WindowsCacheGroup, CACHE_DATA, CACHE_UNIFIED,
    RELATION_CACHE, RELATION_PROCESSOR_CORE,
};
use procpin::topology::{CacheGroup, Cpu};

fn header(relationship: u32, size: u32) -> Vec<u8> {
    let mut record = Vec::new();
    record.extend_from_slice(&relationship.to_le_bytes());
    record.extend_from_slice(&size.to_le_bytes());
    record
}

fn processor_record(mask: u64) -> Vec<u8> {
    let mut record = header(RELATION_PROCESSOR_CORE, 48);
    record.push(1); // flags
    record.push(0); // efficiency class
    record.extend_from_slice(&[0u8; 20]);
    record.extend_from_slice(&1u16.to_le_bytes()); // group count
    record.extend_from_slice(&mask.to_le_bytes());
    record.extend_from_slice(&[0u8; 8]); // group and reserved
    assert_eq!(record.len(), 48);
    record
}

fn cache_record(level: u8, kind: u32, size: u32, mask: u64) -> Vec<u8> {
    let mut record = header(RELATION_CACHE, 56);
    record.push(level);
    record.push(8); // associativity
    record.extend_from_slice(&64u16.to_le_bytes()); // line size
    record.extend_from_slice(&size.to_le_bytes());
    record.extend_from_slice(&kind.to_le_bytes());
    record.extend_from_slice(&[0u8; 18]);
    record.extend_from_slice(&1u16.to_le_bytes()); // group count
    record.extend_from_slice(&mask.to_le_bytes());
    record.extend_from_slice(&[0u8; 8]); // group and reserved
    assert_eq!(record.len(), 56);
    record
}

fn other_record(relationship: u32, size: u32) -> Vec<u8> {
    let mut record = header(relationship, size);
    record.resize(size as usize, 0xAA);
    record
}

fn buffer_of(records: &[Vec<u8>]) -> Vec<u8> {
    let mut buffer = Vec::new();
    for record in records {
        buffer.extend_from_slice(record);
    }
    buffer
}

#[test]
fn iterator_yields_nothing_for_empty_buffer() {
    let mut walk = ProcInfoIterator::new(Vec::new());
    assert_eq!(walk.next(), None);
    assert_eq!(walk.next(), None);
}

#[test]
fn iterator_follows_declared_lengths() {
    let buffer = buffer_of(&[
        other_record(1, 40),
        processor_record(0b11),
        other_record(3, 8),
        cache_record(3, CACHE_UNIFIED, 32 << 20, 0xFF),
        other_record(4, 77),
    ]);
    let mut walk = ProcInfoIterator::new(buffer);
    assert_eq!(walk.next(), Some(Ok(ProcInfo::Other { relationship: 1 })));
    assert_eq!(walk.next(), Some(Ok(ProcInfo::ProcessorCore { mask: 0b11 })));
    assert_eq!(walk.next(), Some(Ok(ProcInfo::Other { relationship: 3 })));
    assert_eq!(
        walk.next(),
        Some(Ok(ProcInfo::Cache { level: 3, kind: CACHE_UNIFIED, size: 32 << 20, mask: 0xFF }))
    );
    assert_eq!(walk.next(), Some(Ok(ProcInfo::Other { relationship: 4 })));
    assert_eq!(walk.next(), None);
}

#[test]
fn iterator_reads_fields_little_endian() {
    let buffer = cache_record(2, 0x0102_0304, 0x0A0B_0C0D, 0x1122_3344_5566_7788);
    let mut walk = ProcInfoIterator::new(buffer);
    assert_eq!(
        walk.next(),
        Some(Ok(ProcInfo::Cache {
            level: 2,
            kind: 0x0102_0304,
            size: 0x0A0B_0C0D,
            mask: 0x1122_3344_5566_7788,
        }))
    );
    let mut walk = ProcInfoIterator::new(processor_record(0xFEDC_BA98_7654_3210));
    assert_eq!(walk.next(), Some(Ok(ProcInfo::ProcessorCore { mask: 0xFEDC_BA98_7654_3210 })));
    let mut walk = ProcInfoIterator::new(other_record(0x8000_0001, 8));
    assert_eq!(walk.next(), Some(Ok(ProcInfo::Other { relationship: 0x8000_0001 })));
}

#[test]
fn iterator_rejects_cut_header() {
    let mut buffer = other_record(1, 8);
    buffer.extend_from_slice(&[0, 0, 0, 0, 8]);
    let mut walk = ProcInfoIterator::new(buffer);
    assert_eq!(walk.next(), Some(Ok(ProcInfo::Other { relationship: 1 })));
    assert_eq!(walk.next(), Some(Err(Error::Parse)));
    assert_eq!(walk.next(), None);
}

#[test]
fn iterator_rejects_length_past_end() {
    let mut buffer = header(1, 9);
    buffer.resize(8, 0);
    let mut walk = ProcInfoIterator::new(buffer);
    assert_eq!(walk.next(), Some(Err(Error::Parse)));
    assert_eq!(walk.next(), None);
}

#[test]
fn iterator_rejects_length_below_header() {
    for size in [0u32, 1, 7] {
        let mut buffer = header(1, size);
        buffer.resize(64, 0);
        let mut walk = ProcInfoIterator::new(buffer);
        assert_eq!(walk.next(), Some(Err(Error::Parse)));
        assert_eq!(walk.next(), None);
    }
}

#[test]
fn iterator_rejects_records_without_their_mask() {
    let mut short_core = header(RELATION_PROCESSOR_CORE, 39);
    short_core.resize(39, 0);
    let mut walk = ProcInfoIterator::new(short_core);
    assert_eq!(walk.next(), Some(Err(Error::Parse)));

    let mut least_core = header(RELATION_PROCESSOR_CORE, 40);
    least_core.resize(32, 0);
    least_core.extend_from_slice(&5u64.to_le_bytes());
    let mut walk = ProcInfoIterator::new(least_core);
    assert_eq!(walk.next(), Some(Ok(ProcInfo::ProcessorCore { mask: 5 })));

    let mut short_cache = header(RELATION_CACHE, 47);
    short_cache.resize(47, 0);
    let mut walk = ProcInfoIterator::new(short_cache);
    assert_eq!(walk.next(), Some(Err(Error::Parse)));

    let mut least_cache = header(RELATION_CACHE, 48);
    least_cache.resize(40, 0);
    least_cache.extend_from_slice(&9u64.to_le_bytes());
    let mut walk = ProcInfoIterator::new(least_cache);
    assert_eq!(
        walk.next(),
        Some(Ok(ProcInfo::Cache { level: 0, kind: 0, size: 0, mask: 9 }))
    );
}

#[test]
fn decode_gives_all_records_or_none() {
    let good = buffer_of(&[processor_record(1), other_record(9, 12)]);
    assert_eq!(
        decode(good.clone()).unwrap(),
        vec![ProcInfo::ProcessorCore { mask: 1 }, ProcInfo::Other { relationship: 9 }]
    );
    let mut bad = good;
    bad.push(0);
    assert_eq!(decode(bad), Err(Error::Parse));
    assert_eq!(decode(Vec::new()).unwrap(), Vec::<ProcInfo>::new());
}

#[test]
fn from_l3_takes_data_and_unified_caches_of_level_three() {
    let unified = ProcInfo::Cache { level: 3, kind: CACHE_UNIFIED, size: 4096, mask: 0xF0 };
    assert_eq!(
        WindowsCacheGroup::from_l3(&unified),
        Some(WindowsCacheGroup { mask: 0xF0, l3_size: 4096 })
    );
    let data = ProcInfo::Cache { level: 3, kind: CACHE_DATA, size: 1, mask: 1 };
    assert_eq!(WindowsCacheGroup::from_l3(&data), Some(WindowsCacheGroup { mask: 1, l3_size: 1 }));
}

#[test]
fn from_l3_passes_over_everything_else() {
    let instruction = ProcInfo::Cache { level: 3, kind: 1, size: 4096, mask: 0xF0 };
    assert_eq!(WindowsCacheGroup::from_l3(&instruction), None);
    let trace = ProcInfo::Cache { level: 3, kind: 3, size: 4096, mask: 0xF0 };
    assert_eq!(WindowsCacheGroup::from_l3(&trace), None);
    for level in [0u8, 1, 2, 4, 255] {
        let cache = ProcInfo::Cache { level, kind: CACHE_UNIFIED, size: 4096, mask: 0xF0 };
        assert_eq!(WindowsCacheGroup::from_l3(&cache), None);
    }
    assert_eq!(WindowsCacheGroup::from_l3(&ProcInfo::ProcessorCore { mask: 0xF0 }), None);
    assert_eq!(WindowsCacheGroup::from_l3(&ProcInfo::Other { relationship: 2 }), None);
}

#[test]
fn cpus_puts_each_core_behind_its_cache() {
    let buffer = buffer_of(&[
        processor_record(0b0000_0011),
        processor_record(0b0000_1100),
        cache_record(1, CACHE_DATA, 32 << 10, 0b0000_0011),
        cache_record(2, CACHE_UNIFIED, 512 << 10, 0b0000_0011),
        cache_record(3, CACHE_UNIFIED, 16 << 20, 0b0000_1111),
        processor_record(0b0011_0000),
        processor_record(0b1100_0000),
        cache_record(3, CACHE_UNIFIED, 96 << 20, 0b1111_0000),
        other_record(3, 24),
    ]);
    let expected = vec![
        Cpu {
            physical_core: 0,
            logical_core: 0,
            affinity_mask: 0b0000_0011,
            l3_group: CacheGroup { id: 0, size: 16 << 20 },
        },
        Cpu {
            physical_core: 1,
            logical_core: 2,
            affinity_mask: 0b0000_1100,
            l3_group: CacheGroup { id: 0, size: 16 << 20 },
        },
        Cpu {
            physical_core: 2,
            logical_core: 4,
            affinity_mask: 0b0011_0000,
            l3_group: CacheGroup { id: 1, size: 96 << 20 },
        },
        Cpu {
            physical_core: 3,
            logical_core: 6,
            affinity_mask: 0b1100_0000,
            l3_group: CacheGroup { id: 1, size: 96 << 20 },
        },
    ];
    assert_eq!(cpus(buffer), Ok(expected));
}

#[test]
fn cpus_takes_the_first_cache_that_overlaps() {
    let buffer = buffer_of(&[
        cache_record(3, CACHE_UNIFIED, 10, 0b0100),
        cache_record(3, CACHE_UNIFIED, 20, 0b0110),
        cache_record(3, CACHE_DATA, 30, 0b0011),
        processor_record(0b0010),
        processor_record(0b0001),
    ]);
    let found = cpus(buffer).unwrap();
    assert_eq!(found.len(), 2);
    assert_eq!(found[0].l3_group, CacheGroup { id: 1, size: 20 });
    assert_eq!(found[1].l3_group, CacheGroup { id: 2, size: 30 });
}

#[test]
fn cpus_halves_the_lowest_processor_for_the_physical_core() {
    let buffer = buffer_of(&[
        cache_record(3, CACHE_UNIFIED, 1, u64::MAX),
        processor_record(1 << 63),
        processor_record(1 << 5),
        processor_record(0b1010_0000),
    ]);
    let found = cpus(buffer).unwrap();
    assert_eq!((found[0].physical_core, found[0].logical_core), (31, 63));
    assert_eq!((found[1].physical_core, found[1].logical_core), (2, 5));
    assert_eq!((found[2].physical_core, found[2].logical_core), (2, 5));
    assert_eq!(found[2].affinity_mask, 0b1010_0000);
}

#[test]
fn cpus_refuses_a_core_without_a_cache() {
    let buffer = buffer_of(&[
        cache_record(3, CACHE_UNIFIED, 1, 0b0011),
        processor_record(0b0001),
        processor_record(0b0100),
    ]);
    assert_eq!(cpus(buffer), Err(Error::Parse));
    let only_lower_levels = buffer_of(&[
        cache_record(2, CACHE_UNIFIED, 1, 0b0011),
        processor_record(0b0001),
    ]);
    assert_eq!(cpus(only_lower_levels), Err(Error::Parse));
    let empty_mask = buffer_of(&[cache_record(3, CACHE_UNIFIED, 1, u64::MAX), processor_record(0)]);
    assert_eq!(cpus(empty_mask), Err(Error::Parse));
}

#[test]
fn cpus_refuses_a_malformed_buffer() {
    let mut buffer = buffer_of(&[
        cache_record(3, CACHE_UNIFIED, 1, 0b0011),
        processor_record(0b0001),
    ]);
    buffer.extend_from_slice(&[1, 2, 3]);
    assert_eq!(cpus(buffer), Err(Error::Parse));
}

#[test]
fn cpus_of_a_buffer_without_cores_is_no_topology() {
    assert_eq!(cpus(Vec::new()), Err(Error::Io));
    let buffer = buffer_of(&[cache_record(3, CACHE_UNIFIED, 1, 0b0011), other_record(5, 16)]);
    assert_eq!(cpus(buffer), Err(Error::Io));
}
