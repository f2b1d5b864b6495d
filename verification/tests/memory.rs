use hecate_vm::config::{SimConfig, VmRuntimeOptions};
use hecate_vm::memory::{seed_from, HecateMemory, MemoryBounds, MemoryReadResult, MemoryRequest};
use hecate_vm::stats::RunStats;

fn options() -> VmRuntimeOptions {
    VmRuntimeOptions {
        cache_line_size: 64,
        l1_size: 1024,
        l2_size: 4096,
        l3_size: 8192,
        max_instructions: None,
    }
}

fn memory() -> HecateMemory {
    HecateMemory::new(options(), &SimConfig::default())
}

fn full(result: MemoryReadResult) -> Vec<u8> {
    match result {
        MemoryReadResult::Full { bytes, .. } => bytes,
        MemoryReadResult::Partial { .. } => panic!("partial read"),
    }
}

#[test]
fn bounds_and_what_they_hold() {
    let bounds = MemoryBounds { start: 10, end: 20 };
    assert!(bounds.contains(10) && bounds.contains(20));
    assert!(!bounds.contains(9) && !bounds.contains(21));
    assert_eq!(bounds.available_from(10), 11);
    assert_eq!(bounds.available_from(20), 1);
    assert_eq!(bounds.available_from(21), 0);
    let whole = MemoryBounds { start: 0, end: u32::MAX };
    assert_eq!(whole.available_from(0), u32::MAX);
    assert_eq!(whole.available_from(1), u32::MAX);
}

#[test]
fn bounds_grow() {
    let mut bounds = MemoryBounds { start: 10, end: 20 };
    bounds.expand_to_include(5, 2);
    assert_eq!(bounds, MemoryBounds { start: 5, end: 20 });
    bounds.expand_to_include(19, 4);
    assert_eq!(bounds, MemoryBounds { start: 5, end: 22 });
    bounds.expand_to_include(u32::MAX, 9);
    assert_eq!(bounds, MemoryBounds { start: 5, end: u32::MAX });
    bounds.expand_to_include(0, 0);
    assert_eq!(bounds, MemoryBounds { start: 0, end: u32::MAX });
}

#[test]
fn empty_memory_is_not_initialized() {
    let mut memory = memory();
    let error = memory.read_external(4, 8).unwrap_err();
    assert_eq!(error.message, "memory is not initialized");
    assert_eq!(error.display(), "memory is not initialized");
    assert_eq!((error.addr, error.len, error.bounds), (4, 8, None));
    let error = memory.write_external(4, &[1]).unwrap_err();
    assert_eq!(error.message, "memory is not initialized");
    assert_eq!((error.addr, error.len), (4, 1));
}

#[test]
fn reads_are_clipped() {
    let mut memory = memory();
    memory.write_bytes_raw(0x100, &[1, 2, 3, 4]);
    assert_eq!(full(memory.read_external(0x100, 4).unwrap()), vec![1, 2, 3, 4]);
    assert_eq!(full(memory.read_external(0x101, 0).unwrap()), Vec::<u8>::new());
    match memory.read_external(0x102, 10).unwrap() {
        MemoryReadResult::Partial { addr, requested_len, available_len, bytes, bounds } => {
            assert_eq!((addr, requested_len, available_len), (0x102, 10, 2));
            assert_eq!(bytes, vec![3, 4]);
            assert_eq!(bounds, MemoryBounds { start: 0x100, end: 0x103 });
        }
        MemoryReadResult::Full { .. } => panic!("full read"),
    }
    let error = memory.read_external(0x104, 1).unwrap_err();
    assert_eq!(
        error.message,
        "address 0x00000104 is out of bounds (valid range 0x00000100..=0x00000103)"
    );
}

#[test]
fn what_is_written_reads_back() {
    let mut memory = memory();
    memory.zero_fill(0x100, 16);
    memory.write_external(0x104, &[9, 8, 7]).unwrap();
    assert_eq!(full(memory.read_external(0x104, 3).unwrap()), vec![9, 8, 7]);
    assert_eq!(memory.bounds, Some(MemoryBounds { start: 0x100, end: 0x10f }));
    assert_eq!(memory.read_program_bytes(0x103, 5), vec![0, 9, 8, 7, 0]);
    memory.write_external(0x104, &[]).unwrap();
    assert_eq!(full(memory.read_external(0x104, 3).unwrap()), vec![9, 8, 7]);
}

#[test]
fn refused_writes_change_nothing() {
    let mut memory = memory();
    memory.write_bytes_raw(0x100, &[1, 2, 3, 4]);
    let error = memory.write_external(0x102, &[5, 6, 7]).unwrap_err();
    assert_eq!(
        error.message,
        "write range 0x00000102..=0x00000104 exceeds bounds 0x00000100..=0x00000103"
    );
    let error = memory.write_external(0xff, &[5]).unwrap_err();
    assert_eq!(
        error.message,
        "address 0x000000ff is out of bounds (valid range 0x00000100..=0x00000103)"
    );
    assert_eq!(memory.read_program_bytes(0x100, 4), vec![1, 2, 3, 4]);
}

#[test]
fn a_write_past_the_last_address_is_refused() {
    let mut memory = memory();
    memory.write_bytes_raw(0xffff_fff0, &[0; 16]);
    assert_eq!(
        memory.bounds,
        Some(MemoryBounds { start: 0xffff_fff0, end: 0xffff_ffff })
    );
    let error = memory.write_external(0xffff_fffe, &[1, 2, 3]).unwrap_err();
    assert_eq!(error.message, "address range overflows the 32-bit address space");
    memory.write_external(0xffff_fffe, &[1, 2]).unwrap();
}

#[test]
fn raw_writes_wrap_around() {
    let mut memory = memory();
    memory.write_bytes_raw(0xffff_ffff, &[1, 2]);
    assert_eq!(memory.read_program_bytes(0xffff_ffff, 2), vec![1, 2]);
    assert_eq!(memory.bytes.get(&0), Some(&2));
    assert_eq!(
        memory.bounds,
        Some(MemoryBounds { start: 0xffff_ffff, end: 0xffff_ffff })
    );
}

#[test]
fn loads_after_stores() {
    let mut memory = memory();
    let mut stats = RunStats::default();
    let stored = MemoryRequest::Store { bytes: vec![1, 2, 3, 4] };
    assert_eq!(memory.access(0x40, stored, &mut stats), Some(vec![1, 2, 3, 4]));
    let load = MemoryRequest::Load { size: 4 };
    assert_eq!(memory.access(0x40, load, &mut stats), Some(vec![1, 2, 3, 4]));
    assert_eq!(stats.memory_access_count, 2);
    assert_eq!(stats.data_stores, 1);
    assert_eq!(stats.data_loads, 1);
    assert_eq!(stats.cache_hits.l1d, 1);
    assert_eq!(stats.cycles, 1 + 3);
}

#[test]
fn what_was_never_written_cannot_be_loaded() {
    let mut memory = memory();
    let mut stats = RunStats::default();
    memory.write_bytes_raw(0x40, &[1, 2, 3]);
    assert_eq!(memory.access(0x40, MemoryRequest::Load { size: 4 }, &mut stats), None);
    assert_eq!(memory.access(0x40, MemoryRequest::Exec { size: 2 }, &mut stats), Some(vec![1, 2]));
    // A refused access counts, and brings its line into the caches.
    assert_eq!(stats.memory_access_count, 2);
    assert_eq!(stats.data_loads, 1);
    assert_eq!(stats.instruction_fetches, 1);
    assert_eq!(stats.cycles, 125 + 11);
}

#[test]
fn every_access_counts() {
    let mut memory = memory();
    let mut stats = RunStats::default();
    memory.zero_fill(0, 256);
    for addr in 0..64u32 {
        memory.access(addr, MemoryRequest::Load { size: 1 }, &mut stats);
        memory.access(addr, MemoryRequest::Exec { size: 2 }, &mut stats);
        memory.access(addr, MemoryRequest::Store { bytes: vec![1] }, &mut stats);
    }
    assert_eq!(stats.memory_access_count, 192);
    assert_eq!(
        stats.memory_access_count,
        stats.instruction_fetches + stats.data_loads + stats.data_stores
    );
}

#[test]
fn zeroing_covers_the_range_in_use() {
    let mut memory = memory();
    memory.write_bytes_raw(0x10, &[1, 2]);
    memory.write_bytes_raw(0x20, &[3]);
    memory.zero_current_bounds();
    assert_eq!(memory.bytes.len(), 17);
    assert_eq!(memory.read_program_bytes(0x10, 17), vec![0; 17]);
    assert_eq!(memory.bounds, Some(MemoryBounds { start: 0x10, end: 0x20 }));
}

#[test]
fn random_bytes_cover_the_range_in_use() {
    let mut memory = memory();
    memory.write_bytes_raw(0x10, &[0; 4]);
    memory.randomize_from(1);
    let mut state: u64 = 1 ^ (0x10u64 << 32) ^ 0x13;
    let mut expected = Vec::new();
    for _ in 0..4 {
        state ^= state << 13;
        state ^= state >> 7;
        state ^= state << 17;
        expected.push(state as u8);
    }
    assert_eq!(memory.read_program_bytes(0x10, 4), expected);
    assert_eq!(memory.bytes.len(), 4);
    memory.randomize_current_bounds(Some(7));
    assert_eq!(memory.bytes.len(), 4);
}

#[test]
fn random_bytes_change_with_time() {
    let fill = |nanos: Option<u128>| {
        let mut memory = memory();
        memory.write_bytes_raw(0, &[0; 256]);
        memory.randomize_current_bounds(nanos);
        memory.read_program_bytes(0, 256)
    };
    assert_eq!(fill(Some(1)), fill(Some(1)));
    assert_eq!(fill(Some(1)), fill(Some((1u128 << 64) + 1)));
    assert_ne!(fill(Some(1)), fill(Some(2)));
    assert_ne!(fill(Some(1)), fill(None));
}

#[test]
fn seeds_are_the_low_bits_of_the_time() {
    assert_eq!(seed_from(Some(0)), 0);
    assert_eq!(seed_from(Some(1_700_000_000_000_000_007)), 1_700_000_000_000_000_007);
    assert_eq!(seed_from(Some(u64::MAX as u128)), u64::MAX);
    assert_eq!(seed_from(Some((1u128 << 64) + 5)), 5);
    assert_eq!(seed_from(None), 0x9e37_79b9_7f4a_7c15);
}

#[test]
fn memory_comes_back_from_a_dump() {
    let mut memory = memory();
    let mut stats = RunStats::default();
    memory.write_bytes_raw(0x10, &[1, 2, 3]);
    memory.access(0x10, MemoryRequest::Load { size: 1 }, &mut stats);
    let mut config = SimConfig::default();
    config.l1_latency = 4;
    let mut copy = HecateMemory::from_dump(options(), memory.dump(), &config);
    assert_eq!(copy.bytes, memory.bytes);
    assert_eq!(copy.bounds, memory.bounds);
    let before = stats.cycles;
    copy.access(0x10, MemoryRequest::Load { size: 1 }, &mut stats);
    assert_eq!(stats.cycles - before, 4);
}

#[test]
fn clearing_forgets_bytes_and_range() {
    let mut memory = memory();
    memory.write_bytes_raw(0x10, &[1]);
    memory.clear_bytes();
    assert!(memory.bytes.is_empty());
    assert_eq!(memory.bounds, None);
}
