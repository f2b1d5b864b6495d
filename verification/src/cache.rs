//! Least-recently-used caches and the cost of memory accesses through them.

use crate::config::{SimConfig, VmRuntimeOptions};
use crate::stats::{CacheHits, RunStats};
use std::collections::{HashSet, VecDeque};
use vstd::prelude::*;

verus! {

broadcast use vstd::std_specs::hash::group_hash_axioms;

/// One cache: the lines it holds, the most recently used one first.
#[derive(Debug)]
pub struct CacheLevel {
    pub capacity_lines: usize,
    pub lines: VecDeque<u32>,
    pub line_set: HashSet<u32>,
}

/// What a cache holds: `lines` in order of use, the latest first, and `held` for lookups.
#[verifier::ext_equal]
pub ghost struct LevelModel {
    pub capacity: nat,
    pub lines: Seq<u32>,
    pub held: Set<u32>,
}

impl LevelModel {
    /// An empty cache.
    pub open spec fn empty(capacity: nat) -> LevelModel {
        LevelModel { capacity, lines: Seq::empty(), held: Set::empty() }
    }

    /// No line is listed twice, `held` has the listed lines, and there are no more of them
    /// than fit (a cache has room for one line at least).
    pub open spec fn wf(self) -> bool {
        &&& self.lines.no_duplicates()
        &&& forall|line: u32| #[trigger] self.held.contains(line) <==> self.lines.contains(line)
        &&& self.lines.len() <= self.capacity || self.lines.len() <= 1
    }

    /// After a lookup of `line`: a line that is held becomes the latest one.
    pub open spec fn touched(self, line: u32) -> LevelModel {
        if self.held.contains(line) {
            LevelModel { lines: seq![line] + self.lines.remove_value(line), ..self }
        } else {
            self
        }
    }

    /// After `line` entered: the line used longest ago leaves a full cache.
    pub open spec fn inserted(self, line: u32) -> LevelModel {
        if self.held.contains(line) {
            self.touched(line)
        } else if self.lines.len() >= self.capacity && self.lines.len() > 0 {
            LevelModel {
                lines: seq![line] + self.lines.drop_last(),
                held: self.held.remove(self.lines.last()).insert(line),
                ..self
            }
        } else {
            LevelModel { lines: seq![line] + self.lines, held: self.held.insert(line), ..self }
        }
    }
}

impl View for CacheLevel {
    type V = LevelModel;

    open spec fn view(&self) -> LevelModel {
        LevelModel {
            capacity: self.capacity_lines as nat,
            lines: self.lines@,
            held: self.line_set@,
        }
    }
}

impl Clone for CacheLevel {
    fn clone(&self) -> (copy: Self)
        ensures
            copy@ == self@,
    {
        let mut line_set: HashSet<u32> = HashSet::new();
        for line in it: self.line_set.iter()
            invariant
                it.seq().unref().to_set() == self.line_set@,
                line_set@ == it.seq().unref().take(it.index() as int).to_set(),
                it.seq().unref().take(it.seq().len() as int) == it.seq().unref(),
        {
            proof {
                lemma_set_of_prefix(it.seq().unref(), it.index() as int);
            }
            line_set.insert(*line);
        }
        assert(line_set@ == self.line_set@);
        let mut lines: VecDeque<u32> = VecDeque::new();
        let mut next: usize = 0;
        while next < self.lines.len()
            invariant
                next <= self.lines@.len(),
                lines@ == self.lines@.take(next as int),
            decreases self.lines@.len() - next,
        {
            lines.push_back(self.lines[next]);
            next = next + 1;
        }
        assert(lines@ == self.lines@);
        CacheLevel { capacity_lines: self.capacity_lines, lines, line_set }
    }
}

impl CacheLevel {
    pub fn new(capacity_lines: usize) -> (level: Self)
        ensures
            level@ == LevelModel::empty(capacity_lines as nat),
    {
        CacheLevel { capacity_lines, lines: VecDeque::new(), line_set: HashSet::new() }
    }

    /// Looks `line` up, and makes it the most recently used one if it is held.
    pub fn touch(&mut self, line: u32) -> (hit: bool)
        ensures
            hit == old(self)@.held.contains(line),
            final(self)@ == old(self)@.touched(line),
    {
        if !self.line_set.contains(&line) {
            return false;
        }
        let mut pos: usize = 0;
        while pos < self.lines.len() && self.lines[pos] != line
            invariant
                *self == *old(self),
                pos <= self.lines@.len(),
                forall|i: int| 0 <= i < pos ==> self.lines@[i] != line,
            decreases self.lines@.len() - pos,
        {
            pos = pos + 1;
        }
        proof {
            self.lines@.index_of_first_ensures(line);
        }
        if pos < self.lines.len() {
            self.lines.remove(pos);
        }
        self.lines.push_front(line);
        true
    }

    /// Makes `line` the most recently used line; the line used longest ago leaves a full cache.
    pub fn insert(&mut self, line: u32)
        ensures
            final(self)@ == old(self)@.inserted(line),
    {
        if self.line_set.contains(&line) {
            self.touch(line);
            return;
        }
        if self.lines.len() >= self.capacity_lines {
            if let Some(evicted) = self.lines.pop_back() {
                self.line_set.remove(&evicted);
            }
        }
        self.lines.push_front(line);
        self.line_set.insert(line);
    }
}

/// Taking one more item of a list adds that item to the set of those taken.
pub proof fn lemma_set_of_prefix(all: Seq<u32>, n: int)
    requires
        0 <= n < all.len(),
    ensures
        all.take(n + 1).to_set() == all.take(n).to_set().insert(all[n]),
{
    let longer = all.take(n + 1);
    assert forall|v: u32| longer.to_set().contains(v) <==> all.take(n).to_set().insert(
        all[n],
    ).contains(v) by {
        if longer.contains(v) {
            let i = longer.index_of(v);
            assert(longer[i] == v);
            if i < n {
                assert(all.take(n)[i] == v);
            }
        }
        if all.take(n).contains(v) {
            let i = all.take(n).index_of(v);
            assert(longer[i] == all.take(n)[i]);
        }
        assert(longer[n] == all[n]);
    }
}

/// Where a read found its line.
#[derive(Debug, Clone, Copy, PartialEq, Eq, Structural)]
pub enum Found {
    L1,
    L2,
    L3,
    Memory,
}

/// The first-level caches for instructions and data, and the two levels that they share.
#[derive(Debug)]
pub struct CacheHierarchy {
    pub line_size: u32,
    pub l1i: CacheLevel,
    pub l1d: CacheLevel,
    pub l2: CacheLevel,
    pub l3: CacheLevel,
    pub l1_latency: u64,
    pub l2_latency: u64,
    pub l3_latency: u64,
    pub memory_latency: u64,
    pub store_latency: u64,
}

/// What `CacheHierarchy` holds.
pub ghost struct CachesModel {
    pub line_size: u32,
    pub l1i: LevelModel,
    pub l1d: LevelModel,
    pub l2: LevelModel,
    pub l3: LevelModel,
    pub l1_latency: u64,
    pub l2_latency: u64,
    pub l3_latency: u64,
    pub memory_latency: u64,
    pub store_latency: u64,
}

impl View for CacheHierarchy {
    type V = CachesModel;

    open spec fn view(&self) -> CachesModel {
        CachesModel {
            line_size: self.line_size,
            l1i: self.l1i@,
            l1d: self.l1d@,
            l2: self.l2@,
            l3: self.l3@,
            l1_latency: self.l1_latency,
            l2_latency: self.l2_latency,
            l3_latency: self.l3_latency,
            memory_latency: self.memory_latency,
            store_latency: self.store_latency,
        }
    }
}

/// Which of the caches `l1`, `l2` and `l3` holds `line`, the fastest one first.
pub open spec fn lookup(l1: LevelModel, l2: LevelModel, l3: LevelModel, line: u32) -> Found {
    if l1.held.contains(line) {
        Found::L1
    } else if l2.held.contains(line) {
        Found::L2
    } else if l3.held.contains(line) {
        Found::L3
    } else {
        Found::Memory
    }
}

/// How many lines of `line_size` bytes a cache of `bytes` bytes has.
pub open spec fn lines_in(bytes: u32, line_size: u32) -> nat {
    if bytes >= line_size {
        (bytes / line_size) as nat
    } else {
        1
    }
}

/// `hits` after a read that was answered by `found`.
pub open spec fn hits_after(hits: CacheHits, is_instruction: bool, found: Found) -> CacheHits {
    match found {
        Found::L1 if is_instruction => CacheHits { l1i: hits.l1i.wrapping_add(1), ..hits },
        Found::L1 => CacheHits { l1d: hits.l1d.wrapping_add(1), ..hits },
        Found::L2 => CacheHits { l2: hits.l2.wrapping_add(1), ..hits },
        Found::L3 => CacheHits { l3: hits.l3.wrapping_add(1), ..hits },
        Found::Memory => hits,
    }
}

impl CachesModel {
    /// Every cache is well-formed, and a line has at least one byte.
    pub open spec fn wf(self) -> bool {
        self.line_size > 0 && self.l1i.wf() && self.l1d.wf() && self.l2.wf() && self.l3.wf()
    }

    /// The line that `addr` lies in.
    pub open spec fn line(self, addr: u32) -> u32 {
        addr / self.line_size
    }

    /// Where a read at `addr` finds its line.
    pub open spec fn found(self, addr: u32, is_instruction: bool) -> Found {
        lookup(
            if is_instruction {
                self.l1i
            } else {
                self.l1d
            },
            self.l2,
            self.l3,
            self.line(addr),
        )
    }

    /// What a read that was answered by `found` costs.
    pub open spec fn latency(self, found: Found) -> u64 {
        match found {
            Found::L1 => self.l1_latency,
            Found::L2 => self.l2_latency,
            Found::L3 => self.l3_latency,
            Found::Memory => self.memory_latency,
        }
    }

    /// After a read at `addr`: the line is in the first-level cache that was asked, and in
    /// every level above the one that answered.
    pub open spec fn read(self, addr: u32, is_instruction: bool) -> CachesModel {
        let line = self.line(addr);
        let found = self.found(addr, is_instruction);
        let l1 = if is_instruction {
            self.l1i.inserted(line)
        } else {
            self.l1d.inserted(line)
        };
        CachesModel {
            l1i: if is_instruction {
                l1
            } else {
                self.l1i
            },
            l1d: if is_instruction {
                self.l1d
            } else {
                l1
            },
            l2: if found == Found::L1 {
                self.l2
            } else {
                self.l2.inserted(line)
            },
            l3: if found == Found::L1 || found == Found::L2 {
                self.l3
            } else {
                self.l3.inserted(line)
            },
            ..self
        }
    }

    /// After a store at `addr`: the line is in the data cache and in both shared levels.
    pub open spec fn stored(self, addr: u32) -> CachesModel {
        let line = self.line(addr);
        CachesModel {
            l1d: self.l1d.inserted(line),
            l2: self.l2.inserted(line),
            l3: self.l3.inserted(line),
            ..self
        }
    }

    /// Empty caches of the sizes that `options` asks for, with the costs that `config` gives.
    pub open spec fn fresh(
        options: VmRuntimeOptions,
        config: crate::config::ConfigModel,
    ) -> CachesModel {
        CachesModel {
            line_size: options.cache_line_size,
            l1i: LevelModel::empty(lines_in(options.l1_size, options.cache_line_size)),
            l1d: LevelModel::empty(lines_in(options.l1_size, options.cache_line_size)),
            l2: LevelModel::empty(lines_in(options.l2_size, options.cache_line_size)),
            l3: LevelModel::empty(lines_in(options.l3_size, options.cache_line_size)),
            l1_latency: config.l1_latency,
            l2_latency: config.l2_latency,
            l3_latency: config.l3_latency,
            memory_latency: config.memory_latency,
            store_latency: config.store_latency,
        }
    }

    /// The same lines, under the line size of `options` and the costs of `config`.
    pub open spec fn retimed(
        self,
        options: VmRuntimeOptions,
        config: crate::config::ConfigModel,
    ) -> CachesModel {
        CachesModel {
            line_size: options.cache_line_size,
            l1_latency: config.l1_latency,
            l2_latency: config.l2_latency,
            l3_latency: config.l3_latency,
            memory_latency: config.memory_latency,
            store_latency: config.store_latency,
            ..self
        }
    }
}

impl Clone for CacheHierarchy {
    fn clone(&self) -> (copy: Self)
        ensures
            copy@ == self@,
    {
        CacheHierarchy {
            line_size: self.line_size,
            l1i: self.l1i.clone(),
            l1d: self.l1d.clone(),
            l2: self.l2.clone(),
            l3: self.l3.clone(),
            l1_latency: self.l1_latency,
            l2_latency: self.l2_latency,
            l3_latency: self.l3_latency,
            memory_latency: self.memory_latency,
            store_latency: self.store_latency,
        }
    }
}

/// The number of lines in a cache of `bytes` bytes, at least one.
fn line_count(bytes: u32, line_size: u32) -> (count: usize)
    requires
        line_size > 0,
    ensures
        count == lines_in(bytes, line_size),
{
    let count: u32 = bytes / line_size;
    proof {
        vstd::arithmetic::div_mod::lemma_div_is_ordered(
            if bytes >= line_size { line_size as int } else { bytes as int },
            if bytes >= line_size { bytes as int } else { line_size - 1 },
            line_size as int,
        );
        if bytes < line_size {
            vstd::arithmetic::div_mod::lemma_basic_div(bytes as int, line_size as int);
        } else {
            vstd::arithmetic::div_mod::lemma_div_by_self(line_size as int);
        }
    }
    if count > 1 {
        count as usize
    } else {
        1
    }
}

/// Looks `line` up in three caches, the fastest first, and takes it into those that lacked it.
fn read_through(l1: &mut CacheLevel, l2: &mut CacheLevel, l3: &mut CacheLevel, line: u32) -> (found:
    Found)
    ensures
        found == lookup(old(l1)@, old(l2)@, old(l3)@, line),
        final(l1)@ == old(l1)@.inserted(line),
        final(l2)@ == (if found == Found::L1 {
            old(l2)@
        } else {
            old(l2)@.inserted(line)
        }),
        final(l3)@ == (if found == Found::L1 || found == Found::L2 {
            old(l3)@
        } else {
            old(l3)@.inserted(line)
        }),
{
    if l1.touch(line) {
        return Found::L1;
    }
    if l2.touch(line) {
        l1.insert(line);
        return Found::L2;
    }
    if l3.touch(line) {
        l2.insert(line);
        l1.insert(line);
        return Found::L3;
    }
    l3.insert(line);
    l2.insert(line);
    l1.insert(line);
    Found::Memory
}

impl CacheHierarchy {
    pub fn new(options: VmRuntimeOptions, config: &SimConfig) -> (caches: Self)
        requires
            options.cache_line_size > 0,
        ensures
            caches@ == CachesModel::fresh(options, config@),
    {
        let line_size: u32 = options.cache_line_size;
        CacheHierarchy {
            line_size,
            l1i: CacheLevel::new(line_count(options.l1_size, line_size)),
            l1d: CacheLevel::new(line_count(options.l1_size, line_size)),
            l2: CacheLevel::new(line_count(options.l2_size, line_size)),
            l3: CacheLevel::new(line_count(options.l3_size, line_size)),
            l1_latency: config.l1_latency,
            l2_latency: config.l2_latency,
            l3_latency: config.l3_latency,
            memory_latency: config.memory_latency,
            store_latency: config.store_latency,
        }
    }

    /// The line that `addr` lies in.
    pub fn line(&self, addr: u32) -> (line: u32)
        requires
            self.line_size > 0,
        ensures
            line == self@.line(addr),
    {
        addr / self.line_size
    }

    /// The cycles of a read at `addr`; counts the hit.
    pub fn read_cost(&mut self, addr: u32, is_instruction: bool, stats: &mut RunStats) -> (cost:
        u64)
        requires
            old(self).line_size > 0,
        ensures
            cost == old(self)@.latency(old(self)@.found(addr, is_instruction)),
            final(self)@ == old(self)@.read(addr, is_instruction),
            final(stats)@ == (crate::stats::StatsModel {
                cache_hits: hits_after(
                    old(stats).cache_hits,
                    is_instruction,
                    old(self)@.found(addr, is_instruction),
                ),
                ..old(stats)@
            }),
    {
        let line: u32 = self.line(addr);
        let found = if is_instruction {
            read_through(&mut self.l1i, &mut self.l2, &mut self.l3, line)
        } else {
            read_through(&mut self.l1d, &mut self.l2, &mut self.l3, line)
        };
        match found {
            Found::L1 => {
                if is_instruction {
                    stats.cache_hits.l1i = stats.cache_hits.l1i.wrapping_add(1);
                } else {
                    stats.cache_hits.l1d = stats.cache_hits.l1d.wrapping_add(1);
                }
                self.l1_latency
            },
            Found::L2 => {
                stats.cache_hits.l2 = stats.cache_hits.l2.wrapping_add(1);
                self.l2_latency
            },
            Found::L3 => {
                stats.cache_hits.l3 = stats.cache_hits.l3.wrapping_add(1);
                self.l3_latency
            },
            Found::Memory => self.memory_latency,
        }
    }

    /// The cycles of a store at `addr`.
    pub fn store_cost(&mut self, addr: u32) -> (cost: u64)
        requires
            old(self).line_size > 0,
        ensures
            cost == old(self).store_latency,
            final(self)@ == old(self)@.stored(addr),
    {
        let line: u32 = self.line(addr);
        self.l1d.insert(line);
        self.l2.insert(line);
        self.l3.insert(line);
        self.store_latency
    }
}

/// Lookups and insertions keep a cache well-formed: no line is held twice, and no more lines
/// than fit. What they bring in stands in front and is held; nothing else comes in, and only
/// the line used longest ago can leave, when an insertion needs its place.
pub proof fn law_level_kept(level: LevelModel, line: u32)
    requires
        level.wf(),
    ensures
        level.touched(line).wf(),
        level.inserted(line).wf(),
        level.inserted(line).lines[0] == line,
        level.inserted(line).held.contains(line),
        forall|l: u32| level.touched(line).held.contains(l) <==> level.held.contains(l),
        forall|l: u32| #[trigger]
            level.inserted(line).held.contains(l) ==> l == line || level.held.contains(l),
        forall|l: u32| #[trigger]
            level.held.contains(l) && !level.inserted(line).held.contains(l)
                ==> level.lines.len() >= level.capacity && l == level.lines.last(),
{
    lemma_touched(level, line);
    if !level.held.contains(line) {
        lemma_entered(level, line);
    }
}

proof fn lemma_touched(level: LevelModel, line: u32)
    requires
        level.wf(),
    ensures
        level.touched(line).wf(),
        level.held.contains(line) ==> level.touched(line).lines[0] == line,
{
    if level.held.contains(line) {
        let lines = level.lines;
        lines.index_of_first_ensures(line);
        let at = lines.index_of_first(line).unwrap();
        let after = level.touched(line).lines;
        assert(after == seq![line] + lines.remove(at));
        assert forall|l: u32| after.contains(l) <==> lines.contains(l) by {
            if after.contains(l) {
                let i = after.index_of(l);
                assert(after[i] == l);
                if i == 0 {
                    assert(lines[at] == l);
                } else if i - 1 < at {
                    assert(lines[i - 1] == l);
                } else {
                    assert(lines[i] == l);
                }
            }
            if lines.contains(l) {
                let i = lines.index_of(l);
                assert(lines[i] == l);
                if i < at {
                    assert(after[i + 1] == l);
                } else if i == at {
                    assert(after[0] == l);
                } else {
                    assert(after[i] == l);
                }
            }
        }
        assert forall|i: int, j: int| 0 <= i < j < after.len() implies after[i] != after[j] by {
            let j0 = if j - 1 < at {
                j - 1
            } else {
                j
            };
            assert(after[j] == lines[j0]);
            if i > 0 {
                let i0 = if i - 1 < at {
                    i - 1
                } else {
                    i
                };
                assert(after[i] == lines[i0]);
                assert(i0 != j0);
            } else {
                assert(j0 != at);
                assert(lines[at] == line);
            }
        }
    }
}

proof fn lemma_entered(level: LevelModel, line: u32)
    requires
        level.wf(),
        !level.held.contains(line),
    ensures
        level.inserted(line).wf(),
        forall|l: u32| #[trigger]
            level.inserted(line).held.contains(l) ==> l == line || level.held.contains(l),
        forall|l: u32| #[trigger]
            level.held.contains(l) && !level.inserted(line).held.contains(l)
                ==> level.lines.len() >= level.capacity && l == level.lines.last(),
{
    let lines = level.lines;
    let after = level.inserted(line);
    let full = lines.len() >= level.capacity && lines.len() > 0;
    let rest = if full {
        lines.drop_last()
    } else {
        lines
    };
    assert(after.lines == seq![line] + rest);
    assert forall|l: u32| #[trigger] after.held.contains(l) <==> after.lines.contains(l) by {
        if after.lines.contains(l) {
            let i = after.lines.index_of(l);
            assert(after.lines[i] == l);
            if i > 0 {
                assert(rest[i - 1] == l);
                assert(lines[i - 1] == l);
                assert(lines.contains(l));
                if full {
                    assert(lines[lines.len() - 1] != l);
                }
            }
        }
        if after.held.contains(l) {
            if l == line {
                assert(after.lines[0] == l);
            } else {
                assert(lines.contains(l));
                let i = lines.index_of(l);
                assert(lines[i] == l);
                assert(rest[i] == l);
                assert(after.lines[i + 1] == l);
            }
        }
    }
    assert forall|i: int, j: int| 0 <= i < j < after.lines.len() implies after.lines[i]
        != after.lines[j] by {
        assert(after.lines[j] == lines[j - 1]);
        assert(lines.contains(lines[j - 1]));
        if i > 0 {
            assert(after.lines[i] == lines[i - 1]);
        }
    }
}

/// Reads and stores keep caches well-formed.
pub proof fn law_caches_kept(caches: CachesModel, addr: u32, is_instruction: bool)
    requires
        caches.wf(),
    ensures
        caches.read(addr, is_instruction).wf(),
        caches.stored(addr).wf(),
{
    let line = caches.line(addr);
    law_level_kept(caches.l1i, line);
    law_level_kept(caches.l1d, line);
    law_level_kept(caches.l2, line);
    law_level_kept(caches.l3, line);
}

/// Fresh caches are well-formed.
pub proof fn law_fresh_caches(options: VmRuntimeOptions, config: crate::config::ConfigModel)
    requires
        options.cache_line_size > 0,
    ensures
        CachesModel::fresh(options, config).wf(),
{
}

/// A read brings its line into the first-level cache that was asked: reading the same line
/// again finds it there, and costs what that cache costs.
pub proof fn law_second_read_hits(caches: CachesModel, addr: u32, again: u32, is_instruction: bool)
    requires
        caches.line(addr) == caches.line(again),
    ensures
        caches.read(addr, is_instruction).found(again, is_instruction) == Found::L1,
        caches.read(addr, is_instruction).latency(Found::L1) == caches.l1_latency,
{
}

/// A store brings its line into the data cache: loading from that line finds it there.
pub proof fn law_load_after_store_hits(caches: CachesModel, addr: u32, again: u32)
    requires
        caches.line(addr) == caches.line(again),
    ensures
        caches.stored(addr).found(again, false) == Found::L1,
{
}

/// Instruction fetches leave the data cache alone, and loads leave the instruction cache alone.
pub proof fn law_first_level_split(caches: CachesModel, addr: u32)
    ensures
        caches.read(addr, true).l1d == caches.l1d,
        caches.read(addr, false).l1i == caches.l1i,
        caches.stored(addr).l1i == caches.l1i,
{
}

/// A line of so many bytes has so many addresses: those from its start on.
pub proof fn law_lines_of_addresses(caches: CachesModel, addr: u32)
    requires
        caches.line_size > 0,
    ensures
        caches.line(addr) * caches.line_size <= addr < (caches.line(addr) + 1) * caches.line_size,
{
    let n = addr as int;
    let d = caches.line_size as int;
    let q = caches.line(addr) as int;
    vstd::arithmetic::div_mod::lemma_fundamental_div_mod(n, d);
    vstd::arithmetic::div_mod::lemma_mod_bound(n, d);
    assert(q * d == d * q && (q + 1) * d == d * q + d) by (nonlinear_arith);
}

/// The line that is used stands in front; the lines that were used after it move back by one
/// place, and those used before it stay where they are.
pub proof fn law_used_line_moves_to_front(level: LevelModel, line: u32, at: int)
    requires
        level.wf(),
        0 <= at < level.lines.len(),
        level.lines[at] == line,
    ensures
        ({
            let after = level.touched(line).lines;
            &&& after.len() == level.lines.len()
            &&& after[0] == line
            &&& forall|i: int| 0 <= i < at ==> after[i + 1] == #[trigger] level.lines[i]
            &&& forall|i: int| at < i < level.lines.len() ==> after[i] == #[trigger] level.lines[i]
            &&& level.inserted(line) == level.touched(line)
            &&& level.touched(line).held == level.held
            &&& level.touched(line).capacity == level.capacity
        }),
{
    let lines = level.lines;
    assert(lines.contains(line));
    lines.index_of_first_ensures(line);
    let found = lines.index_of_first(line).unwrap();
    assert(lines[found] == line);
    assert(found == at);
    assert(level.touched(line).lines == seq![line] + lines.remove(at));
}

/// A line that is not held comes in front of all others, which keep their order; if there is no
/// room, the last of them, the one used longest ago, leaves. Looking it up alone changes nothing.
pub proof fn law_new_line_comes_in_front(level: LevelModel, line: u32)
    requires
        !level.held.contains(line),
    ensures
        ({
            let after = level.inserted(line);
            let kept = after.lines.len() - 1;
            &&& after.lines[0] == line
            &&& after.held.contains(line)
            &&& after.capacity == level.capacity
            &&& level.lines.len() < level.capacity || level.lines.len() == 0 ==> kept
                == level.lines.len() && after.held == level.held.insert(line)
            &&& level.lines.len() >= level.capacity && level.lines.len() > 0 ==> kept
                == level.lines.len() - 1 && after.held == level.held.remove(
                level.lines[level.lines.len() - 1],
            ).insert(line)
            &&& forall|i: int| 0 <= i < kept ==> after.lines[i + 1] == #[trigger] level.lines[i]
            &&& level.touched(line) == level
        }),
{
}

/// A cache has as many lines as fit into its size, and one at least.
pub proof fn law_lines_fit(bytes: u32, line_size: u32)
    requires
        line_size > 0,
    ensures
        bytes < line_size ==> lines_in(bytes, line_size) == 1,
        bytes >= line_size ==> lines_in(bytes, line_size) * line_size <= bytes < (lines_in(
            bytes,
            line_size,
        ) + 1) * line_size,
{
    if bytes >= line_size {
        let n = bytes as int;
        let d = line_size as int;
        let q = lines_in(bytes, line_size) as int;
        vstd::arithmetic::div_mod::lemma_fundamental_div_mod(n, d);
        vstd::arithmetic::div_mod::lemma_mod_bound(n, d);
        assert(q * d == d * q && (q + 1) * d == d * q + d) by (nonlinear_arith);
    }
}

/// Fresh caches hold nothing; each level has the size that the settings give it, and costs what
/// the configuration says of it.
pub proof fn law_fresh_levels(options: VmRuntimeOptions, config: crate::config::ConfigModel)
    ensures
        ({
            let caches = CachesModel::fresh(options, config);
            &&& caches.line_size == options.cache_line_size
            &&& caches.l1i.capacity == lines_in(options.l1_size, options.cache_line_size)
            &&& caches.l1d.capacity == lines_in(options.l1_size, options.cache_line_size)
            &&& caches.l2.capacity == lines_in(options.l2_size, options.cache_line_size)
            &&& caches.l3.capacity == lines_in(options.l3_size, options.cache_line_size)
            &&& caches.latency(Found::L1) == config.l1_latency
            &&& caches.latency(Found::L2) == config.l2_latency
            &&& caches.latency(Found::L3) == config.l3_latency
            &&& caches.latency(Found::Memory) == config.memory_latency
            &&& caches.store_latency == config.store_latency
            &&& forall|addr: u32, fetch: bool| caches.found(addr, fetch) == Found::Memory
        }),
{
}

/// Where a read finds its line: in the first-level cache that is asked, or else in the second
/// level, or else in the third, and only otherwise in memory; it costs what that level costs.
pub proof fn law_where_reads_find(caches: CachesModel, addr: u32, is_instruction: bool)
    ensures
        ({
            let line = addr / caches.line_size;
            let l1 = if is_instruction {
                caches.l1i
            } else {
                caches.l1d
            };
            let found = caches.found(addr, is_instruction);
            &&& found == Found::L1 <==> l1.held.contains(line)
            &&& found == Found::L2 <==> !l1.held.contains(line) && caches.l2.held.contains(line)
            &&& found == Found::L3 <==> !l1.held.contains(line) && !caches.l2.held.contains(line)
                && caches.l3.held.contains(line)
            &&& l1.held.contains(line) ==> caches.latency(found) == caches.l1_latency
            &&& !l1.held.contains(line) && caches.l2.held.contains(line) ==> caches.latency(found)
                == caches.l2_latency
            &&& !l1.held.contains(line) && !caches.l2.held.contains(line)
                && caches.l3.held.contains(line) ==> caches.latency(found) == caches.l3_latency
            &&& !l1.held.contains(line) && !caches.l2.held.contains(line)
                && !caches.l3.held.contains(line) ==> caches.latency(found)
                == caches.memory_latency
        }),
{
}

/// A store brings its line into the data cache and into both shared levels, in front of all
/// others, and touches nothing else.
pub proof fn law_stores_reach_every_level(caches: CachesModel, addr: u32)
    requires
        caches.wf(),
    ensures
        ({
            let line = addr / caches.line_size;
            let after = caches.stored(addr);
            &&& after.l1d.held.contains(line) && after.l1d.lines[0] == line
            &&& after.l2.held.contains(line) && after.l2.lines[0] == line
            &&& after.l3.held.contains(line) && after.l3.lines[0] == line
            &&& after.l1i == caches.l1i
            &&& after.l1d == caches.l1d.inserted(line)
            &&& after.l2 == caches.l2.inserted(line)
            &&& after.l3 == caches.l3.inserted(line)
            &&& after.line_size == caches.line_size
            &&& after.l1_latency == caches.l1_latency && after.l2_latency == caches.l2_latency
            &&& after.l3_latency == caches.l3_latency
            &&& after.memory_latency == caches.memory_latency
            &&& after.store_latency == caches.store_latency
        }),
{
    let line = caches.line(addr);
    law_level_kept(caches.l1d, line);
    law_level_kept(caches.l2, line);
    law_level_kept(caches.l3, line);
}

/// A line that was stored is in the third level: a read that finds it neither in the first level
/// nor in the second costs what the third one costs, and counts as a hit of it.
pub proof fn law_stored_lines_are_found(
    caches: CachesModel,
    later: CachesModel,
    addr: u32,
    is_instruction: bool,
)
    requires
        caches.wf(),
        later.line_size == caches.line_size,
        later.l3 == caches.stored(addr).l3,
        !later.l2.held.contains(caches.line(addr)),
        !later.l1i.held.contains(caches.line(addr)),
        !later.l1d.held.contains(caches.line(addr)),
    ensures
        later.latency(later.found(addr, is_instruction)) == later.l3_latency,
        hits_after(CacheHits { l1i: 0, l1d: 0, l2: 0, l3: 0 }, is_instruction, later.found(
            addr,
            is_instruction,
        )).l3 == 1,
{
    law_stores_reach_every_level(caches, addr);
}

/// A line that was stored is found by the next read of an instruction, in the second level if the
/// instruction cache does not have it, and by the next load in the data cache.
pub proof fn law_reads_after_stores(caches: CachesModel, addr: u32)
    requires
        caches.wf(),
    ensures
        caches.stored(addr).found(addr, false) == Found::L1,
        !caches.l1i.held.contains(caches.line(addr)) ==> caches.stored(addr).found(addr, true)
            == Found::L2,
{
    law_stores_reach_every_level(caches, addr);
}

/// After a read its line stands in front of the first-level cache that was asked, and of each
/// level in which it was looked for; levels that were not asked stay as they were.
pub proof fn law_reads_reach_the_levels_asked(
    caches: CachesModel,
    addr: u32,
    is_instruction: bool,
)
    requires
        caches.wf(),
    ensures
        ({
            let line = addr / caches.line_size;
            let after = caches.read(addr, is_instruction);
            let l1 = if is_instruction {
                after.l1i
            } else {
                after.l1d
            };
            let held_first = if is_instruction {
                caches.l1i.held.contains(line)
            } else {
                caches.l1d.held.contains(line)
            };
            &&& l1.held.contains(line) && l1.lines[0] == line
            &&& is_instruction ==> after.l1i == caches.l1i.inserted(line) && after.l1d
                == caches.l1d
            &&& !is_instruction ==> after.l1d == caches.l1d.inserted(line) && after.l1i
                == caches.l1i
            &&& held_first ==> after.l2 == caches.l2 && after.l3 == caches.l3
            &&& !held_first ==> after.l2 == caches.l2.inserted(line) && after.l2.lines[0] == line
            &&& !held_first && caches.l2.held.contains(line) ==> after.l3 == caches.l3
            &&& !held_first && !caches.l2.held.contains(line) ==> after.l3
                == caches.l3.inserted(line) && after.l3.lines[0] == line
            &&& after.line_size == caches.line_size
            &&& after.l1_latency == caches.l1_latency && after.l2_latency == caches.l2_latency
            &&& after.l3_latency == caches.l3_latency
            &&& after.memory_latency == caches.memory_latency
            &&& after.store_latency == caches.store_latency
        }),
{
    let line = caches.line(addr);
    law_level_kept(caches.l1i, line);
    law_level_kept(caches.l1d, line);
    law_level_kept(caches.l2, line);
    law_level_kept(caches.l3, line);
}

/// A read counts one hit of the cache that answered it, and of no other; one that memory answered
/// counts none.
pub proof fn law_hits_are_counted_where_found(hits: CacheHits, is_instruction: bool, found: Found)
    requires
        hits.l1i < u64::MAX,
        hits.l1d < u64::MAX,
        hits.l2 < u64::MAX,
        hits.l3 < u64::MAX,
    ensures
        ({
            let after = hits_after(hits, is_instruction, found);
            &&& after.l1i - hits.l1i == (if found == Found::L1 && is_instruction {
                1int
            } else {
                0
            })
            &&& after.l1d - hits.l1d == (if found == Found::L1 && !is_instruction {
                1int
            } else {
                0
            })
            &&& after.l2 - hits.l2 == (if found == Found::L2 {
                1int
            } else {
                0
            })
            &&& after.l3 - hits.l3 == (if found == Found::L3 {
                1int
            } else {
                0
            })
        }),
{
}

/// Caches of a dump keep their lines and get the line size and the costs of the settings.
pub proof fn law_retimed(
    caches: CachesModel,
    options: VmRuntimeOptions,
    config: crate::config::ConfigModel,
)
    ensures
        ({
            let after = caches.retimed(options, config);
            &&& after.l1i == caches.l1i && after.l1d == caches.l1d
            &&& after.l2 == caches.l2 && after.l3 == caches.l3
            &&& after.line_size == options.cache_line_size
            &&& after.latency(Found::L1) == config.l1_latency
            &&& after.latency(Found::L2) == config.l2_latency
            &&& after.latency(Found::L3) == config.l3_latency
            &&& after.latency(Found::Memory) == config.memory_latency
            &&& after.store_latency == config.store_latency
        }),
{
}

} // verus!
