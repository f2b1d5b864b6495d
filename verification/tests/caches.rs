use hecate_vm::cache::{CacheHierarchy, CacheLevel};
use hecate_vm::config::{SimConfig, VmRuntimeOptions};
use hecate_vm::stats::RunStats;

fn options(l1: u32, l2: u32, l3: u32) -> VmRuntimeOptions {
    VmRuntimeOptions {
        cache_line_size: 64,
        l1_size: l1,
        l2_size: l2,
        l3_size: l3,
        max_instructions: None,
    }
}

fn lines(level: &CacheLevel) -> Vec<u32> {
    level.lines.iter().copied().collect()
}

#[test]
fn the_line_used_longest_ago_leaves() {
    let mut level = CacheLevel::new(2);
    level.insert(1);
    level.insert(2);
    assert_eq!(lines(&level), vec![2, 1]);
    assert!(level.touch(1));
    assert_eq!(lines(&level), vec![1, 2]);
    level.insert(3);
    assert_eq!(lines(&level), vec![3, 1]);
    assert!(!level.touch(2));
    assert_eq!(lines(&level), vec![3, 1]);
}

#[test]
fn a_held_line_is_not_inserted_twice() {
    let mut level = CacheLevel::new(3);
    for line in [1, 2, 3, 1, 1] {
        level.insert(line);
    }
    assert_eq!(lines(&level), vec![1, 3, 2]);
    assert_eq!(level.line_set.len(), 3);
}

#[test]
fn a_cache_without_room_holds_one_line() {
    let mut level = CacheLevel::new(0);
    level.insert(7);
    assert_eq!(lines(&level), vec![7]);
    level.insert(8);
    assert_eq!(lines(&level), vec![8]);
    assert!(!level.touch(7));
}

#[test]
fn sizes_become_lines() {
    let caches = CacheHierarchy::new(options(63, 128, 1000), &SimConfig::default());
    assert_eq!(caches.l1i.capacity_lines, 1);
    assert_eq!(caches.l1d.capacity_lines, 1);
    assert_eq!(caches.l2.capacity_lines, 2);
    assert_eq!(caches.l3.capacity_lines, 15);
    assert_eq!(caches.line(63), 0);
    assert_eq!(caches.line(64), 1);
}

#[test]
fn a_second_read_of_a_line_hits() {
    let mut caches = CacheHierarchy::new(options(1024, 4096, 8192), &SimConfig::default());
    let mut stats = RunStats::default();
    assert_eq!(caches.read_cost(0x100, false, &mut stats), 125);
    assert_eq!(caches.read_cost(0x13f, false, &mut stats), 3);
    assert_eq!(stats.cache_hits.l1d, 1);
    assert_eq!(caches.read_cost(0x140, false, &mut stats), 125);
    // The instruction cache is another one; the shared level behind it has the line.
    assert_eq!(caches.read_cost(0x100, true, &mut stats), 11);
    assert_eq!(caches.read_cost(0x100, true, &mut stats), 3);
    assert_eq!(stats.cache_hits.l1i, 1);
    assert_eq!(stats.cache_hits.l2, 1);
    assert_eq!(stats.cache_hits.l3, 0);
}

#[test]
fn deeper_levels_answer_what_the_first_lost() {
    let mut caches = CacheHierarchy::new(options(64, 128, 256), &SimConfig::default());
    let mut stats = RunStats::default();
    for addr in [0u32, 64, 128] {
        assert_eq!(caches.read_cost(addr, false, &mut stats), 125);
    }
    // One line in the first level, two in the second, four in the third.
    assert_eq!(caches.read_cost(64, false, &mut stats), 11);
    assert_eq!(caches.read_cost(0, false, &mut stats), 50);
    assert_eq!(caches.read_cost(0, false, &mut stats), 3);
    assert_eq!(stats.cache_hits.l2, 1);
    assert_eq!(stats.cache_hits.l3, 1);
    assert_eq!(stats.cache_hits.l1d, 1);
}

#[test]
fn a_load_after_a_store_hits() {
    let mut caches = CacheHierarchy::new(options(1024, 4096, 8192), &SimConfig::default());
    let mut stats = RunStats::default();
    assert_eq!(caches.store_cost(0x200), 1);
    assert_eq!(caches.read_cost(0x23c, false, &mut stats), 3);
    assert_eq!(stats.cache_hits.l1d, 1);
    // A fetch from there does not find the line in its own first level.
    assert_eq!(caches.read_cost(0x200, true, &mut stats), 11);
}

#[test]
fn fetches_and_loads_keep_apart() {
    let mut caches = CacheHierarchy::new(options(1024, 4096, 8192), &SimConfig::default());
    let mut stats = RunStats::default();
    caches.read_cost(0, true, &mut stats);
    assert!(caches.l1d.lines.is_empty());
    caches.read_cost(64, false, &mut stats);
    assert_eq!(lines(&caches.l1i), vec![0]);
    assert_eq!(lines(&caches.l1d), vec![1]);
}

#[test]
fn caches_stay_well_formed() {
    let mut caches = CacheHierarchy::new(options(128, 192, 256), &SimConfig::default());
    let mut stats = RunStats::default();
    let mut addr: u32 = 1;
    for step in 0..200u32 {
        addr = addr.wrapping_mul(1103515245).wrapping_add(12345) % 4096;
        if step % 3 == 0 {
            caches.store_cost(addr);
        } else {
            caches.read_cost(addr, step % 2 == 0, &mut stats);
        }
        for level in [&caches.l1i, &caches.l1d, &caches.l2, &caches.l3] {
            assert!(level.lines.len() <= level.capacity_lines);
            assert_eq!(level.lines.len(), level.line_set.len());
            for line in level.lines.iter() {
                assert!(level.line_set.contains(line));
            }
        }
    }
}

#[test]
fn a_copy_of_the_caches_is_the_same() {
    let mut caches = CacheHierarchy::new(options(1024, 4096, 8192), &SimConfig::default());
    let mut stats = RunStats::default();
    for addr in [0u32, 64, 640, 64] {
        caches.read_cost(addr, false, &mut stats);
    }
    let copy = caches.clone();
    assert_eq!(lines(&copy.l1d), lines(&caches.l1d));
    assert_eq!(copy.l1d.line_set, caches.l1d.line_set);
    assert_eq!(lines(&copy.l3), lines(&caches.l3));
    assert_eq!(copy.memory_latency, 125);
}
