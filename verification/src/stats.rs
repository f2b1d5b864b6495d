//! Counters that a run collects.

use std::collections::HashMap;
use vstd::prelude::*;

verus! {

broadcast use vstd::std_specs::hash::group_hash_axioms;

/// How often each cache answered a read.
#[derive(Debug, Clone, Copy, PartialEq, Eq, Structural)]
pub struct CacheHits {
    pub l1i: u64,
    pub l1d: u64,
    pub l2: u64,
    pub l3: u64,
}

impl Default for CacheHits {
    fn default() -> (hits: Self)
        ensures
            hits == (CacheHits { l1i: 0, l1d: 0, l2: 0, l3: 0 }),
    {
        CacheHits { l1i: 0, l1d: 0, l2: 0, l3: 0 }
    }
}

/// All counters of a run.
#[derive(Debug)]
pub struct RunStats {
    pub cycles: u64,
    pub instret: u64,
    pub memory_access_count: u64,
    pub instruction_fetches: u64,
    pub data_loads: u64,
    pub data_stores: u64,
    pub syscall_count: u64,
    pub syscall_cycles: u64,
    pub syscall_hits: HashMap<u32, u64>,
    pub syscall_cycle_totals: HashMap<u32, u64>,
    pub cache_hits: CacheHits,
    pub io_bytes_written: u64,
    pub io_cycles: u64,
}

/// What `RunStats` says, with its tables as mathematical maps.
pub ghost struct StatsModel {
    pub cycles: u64,
    pub instret: u64,
    pub memory_access_count: u64,
    pub instruction_fetches: u64,
    pub data_loads: u64,
    pub data_stores: u64,
    pub syscall_count: u64,
    pub syscall_cycles: u64,
    pub syscall_hits: Map<u32, u64>,
    pub syscall_cycle_totals: Map<u32, u64>,
    pub cache_hits: CacheHits,
    pub io_bytes_written: u64,
    pub io_cycles: u64,
}

impl View for RunStats {
    type V = StatsModel;

    open spec fn view(&self) -> StatsModel {
        StatsModel {
            cycles: self.cycles,
            instret: self.instret,
            memory_access_count: self.memory_access_count,
            instruction_fetches: self.instruction_fetches,
            data_loads: self.data_loads,
            data_stores: self.data_stores,
            syscall_count: self.syscall_count,
            syscall_cycles: self.syscall_cycles,
            syscall_hits: self.syscall_hits@,
            syscall_cycle_totals: self.syscall_cycle_totals@,
            cache_hits: self.cache_hits,
            io_bytes_written: self.io_bytes_written,
            io_cycles: self.io_cycles,
        }
    }
}

impl StatsModel {
    /// The counters before anything has run.
    pub open spec fn zero() -> StatsModel {
        StatsModel {
            cycles: 0,
            instret: 0,
            memory_access_count: 0,
            instruction_fetches: 0,
            data_loads: 0,
            data_stores: 0,
            syscall_count: 0,
            syscall_cycles: 0,
            syscall_hits: Map::empty(),
            syscall_cycle_totals: Map::empty(),
            cache_hits: CacheHits { l1i: 0, l1d: 0, l2: 0, l3: 0 },
            io_bytes_written: 0,
            io_cycles: 0,
        }
    }
}

impl Default for RunStats {
    fn default() -> (stats: Self)
        ensures
            stats@ == StatsModel::zero(),
    {
        RunStats {
            cycles: 0,
            instret: 0,
            memory_access_count: 0,
            instruction_fetches: 0,
            data_loads: 0,
            data_stores: 0,
            syscall_count: 0,
            syscall_cycles: 0,
            syscall_hits: HashMap::new(),
            syscall_cycle_totals: HashMap::new(),
            cache_hits: CacheHits::default(),
            io_bytes_written: 0,
            io_cycles: 0,
        }
    }
}

impl Clone for RunStats {
    fn clone(&self) -> (copy: Self)
        ensures
            copy@ == self@,
    {
        RunStats {
            cycles: self.cycles,
            instret: self.instret,
            memory_access_count: self.memory_access_count,
            instruction_fetches: self.instruction_fetches,
            data_loads: self.data_loads,
            data_stores: self.data_stores,
            syscall_count: self.syscall_count,
            syscall_cycles: self.syscall_cycles,
            syscall_hits: self.syscall_hits.clone(),
            syscall_cycle_totals: self.syscall_cycle_totals.clone(),
            cache_hits: self.cache_hits,
            io_bytes_written: self.io_bytes_written,
            io_cycles: self.io_cycles,
        }
    }
}

/// The table `m` with `amount` added to the entry of `code`, a missing entry counting as zero.
pub open spec fn bumped(m: Map<u32, u64>, code: u32, amount: u64) -> Map<u32, u64> {
    let current = if m.contains_key(code) {
        m[code]
    } else {
        0
    };
    m.insert(code, current.wrapping_add(amount))
}

/// Adds `amount` to the entry of `code`.
pub fn bump(table: &mut HashMap<u32, u64>, code: u32, amount: u64)
    ensures
        final(table)@ == bumped(old(table)@, code, amount),
{
    let current: u64 = match table.get(&code) {
        Some(count) => *count,
        None => 0,
    };
    table.insert(code, current.wrapping_add(amount));
}

/// How many different numbers the counters have.
pub open spec fn turn() -> int {
    0x1_0000_0000_0000_0000
}

/// Adding to a sum that was kept up to whole turns gives the sum kept so.
pub proof fn lemma_adds_up_to_turns(sum: int, kept: int, more: int)
    requires
        kept == sum % turn(),
    ensures
        (kept + more) % turn() == (sum + more) % turn(),
{
    vstd::arithmetic::div_mod::lemma_add_mod_noop_right(more, sum, turn());
}

/// A counter wraps around to the sum without whole turns.
pub proof fn lemma_wraps_to_turns(n: u64, more: u64)
    ensures
        n.wrapping_add(more) == (n + more) % turn(),
{
}

/// A product wraps around to the product without whole turns.
pub proof fn lemma_product_wraps(n: u64, factor: u64)
    ensures
        n.wrapping_mul(factor) == (n * factor) % turn(),
        0 <= n * factor,
        n == 0 ==> n.wrapping_mul(factor) == 0,
        n * factor <= u64::MAX ==> n.wrapping_mul(factor) == n * factor,
{
    assert(0 <= n * factor) by (nonlinear_arith)
        requires
            0 <= n,
            0 <= factor,
    ;
    if n == 0 {
        assert(0 * factor == 0) by (nonlinear_arith);
    }
}

/// The product of a sum is the sum of the products, whole turns left out everywhere.
pub proof fn lemma_product_of_sum(n: u64, more: u64, factor: u64)
    ensures
        n.wrapping_add(more).wrapping_mul(factor) == n.wrapping_mul(factor).wrapping_add(
            more.wrapping_mul(factor),
        ),
{
    let sum = n.wrapping_add(more);
    lemma_wraps_to_turns(n, more);
    lemma_product_wraps(sum, factor);
    lemma_product_wraps(n, factor);
    lemma_product_wraps(more, factor);
    lemma_wraps_to_turns(n.wrapping_mul(factor), more.wrapping_mul(factor));
    vstd::arithmetic::div_mod::lemma_mul_mod_noop_left(n + more, factor as int, turn());
    assert((n + more) * factor == n * factor + more * factor) by (nonlinear_arith);
    vstd::arithmetic::div_mod::lemma_add_mod_noop(n * factor, more * factor, turn());
}

/// Adding to an entry of a table changes that entry alone: by the amount, from zero if there was
/// none.
pub proof fn law_bumped(table: Map<u32, u64>, code: u32, amount: u64, other: u32)
    ensures
        bumped(table, code, amount).contains_key(code),
        !table.contains_key(code) ==> bumped(table, code, amount)[code] == amount,
        table.contains_key(code) ==> bumped(table, code, amount)[code] == (table[code] + amount)
            % 0x1_0000_0000_0000_0000,
        other != code ==> bumped(table, code, amount).contains_key(other) == table.contains_key(
            other,
        ),
        other != code && table.contains_key(other) ==> bumped(table, code, amount)[other]
            == table[other],
{
}

/// Adding twice to an entry is adding the sum, and entries do not get in each other's way.
pub proof fn law_bumped_twice(table: Map<u32, u64>, a: u32, b: u32, n: u64, m: u64)
    ensures
        n + m <= u64::MAX ==> bumped(bumped(table, a, n), a, m) == bumped(
            table,
            a,
            (n + m) as u64,
        ),
        a != b ==> bumped(bumped(table, a, n), b, m) == bumped(bumped(table, b, m), a, n),
{
    if n + m <= u64::MAX {
        assert(bumped(bumped(table, a, n), a, m) =~= bumped(table, a, (n + m) as u64));
    }
    if a != b {
        assert(bumped(bumped(table, a, n), b, m) =~= bumped(bumped(table, b, m), a, n));
    }
}

/// Before anything has run, nothing has been counted.
pub proof fn law_nothing_counted()
    ensures
        ({
            let zero = StatsModel::zero();
            &&& zero.cycles == 0 && zero.instret == 0
            &&& zero.memory_access_count == 0 && zero.instruction_fetches == 0
            &&& zero.data_loads == 0 && zero.data_stores == 0
            &&& zero.syscall_count == 0 && zero.syscall_cycles == 0
            &&& zero.io_bytes_written == 0 && zero.io_cycles == 0
            &&& zero.cache_hits.l1i == 0 && zero.cache_hits.l1d == 0
            &&& zero.cache_hits.l2 == 0 && zero.cache_hits.l3 == 0
            &&& forall|code: u32| !zero.syscall_hits.contains_key(code)
            &&& forall|code: u32| !zero.syscall_cycle_totals.contains_key(code)
        }),
{
}

} // verus!
