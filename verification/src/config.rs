//! Configuration of a run.

use crate::number;
use std::collections::HashMap;
use vstd::prelude::*;

verus! {

broadcast use vstd::std_specs::hash::group_hash_axioms;

/// Sizes of the simulated caches in bytes, and the instruction quota.
#[derive(Debug, Clone, Copy, PartialEq, Eq, Structural)]
pub struct VmRuntimeOptions {
    pub cache_line_size: u32,
    pub l1_size: u32,
    pub l2_size: u32,
    pub l3_size: u32,
    pub max_instructions: Option<u64>,
}

/// Latencies as a configuration file gives them.
#[derive(Debug, Clone, Copy, PartialEq, Eq, Structural)]
pub struct LatencyConfigRaw {
    pub l1: Option<u64>,
    pub l2: Option<u64>,
    pub l3: Option<u64>,
    pub memory: Option<u64>,
    pub store: Option<u64>,
}

/// A configuration file: what it does not give is left to another file, or to the defaults.
/// The entries of `syscall_cycles` have different keys.
#[derive(Debug)]
pub struct SimConfigRaw {
    pub default_syscall_cycles: Option<u64>,
    pub io_cycles_per_byte: Option<u64>,
    pub latency: LatencyConfigRaw,
    pub syscall_cycles: Vec<(String, u64)>,
}

/// What `SimConfigRaw` gives, with its entries as a mathematical map.
#[verifier::ext_equal]
pub ghost struct RawModel {
    pub default_syscall_cycles: Option<u64>,
    pub io_cycles_per_byte: Option<u64>,
    pub latency: LatencyConfigRaw,
    pub syscall_cycles: Map<Seq<char>, u64>,
}

/// The map of a list of entries; a later entry replaces an earlier one with its key.
pub open spec fn table(entries: Seq<(String, u64)>) -> Map<Seq<char>, u64>
    decreases entries.len(),
{
    if entries.len() == 0 {
        Map::empty()
    } else {
        table(entries.drop_last()).insert(entries.last().0@, entries.last().1)
    }
}

/// Whether no two entries have the same key.
pub open spec fn distinct(entries: Seq<(String, u64)>) -> bool {
    forall|i: int, j: int|
        0 <= i < j < entries.len() ==> (#[trigger] entries[i]).0@ != (#[trigger] entries[j]).0@
}

impl View for SimConfigRaw {
    type V = RawModel;

    open spec fn view(&self) -> RawModel {
        RawModel {
            default_syscall_cycles: self.default_syscall_cycles,
            io_cycles_per_byte: self.io_cycles_per_byte,
            latency: self.latency,
            syscall_cycles: table(self.syscall_cycles@),
        }
    }
}

/// The first of two optional values that there is.
pub open spec fn or(first: Option<u64>, second: Option<u64>) -> Option<u64> {
    match first {
        Some(value) => Some(value),
        None => second,
    }
}

impl RawModel {
    /// A file that gives nothing.
    pub open spec fn empty() -> RawModel {
        RawModel {
            default_syscall_cycles: None,
            io_cycles_per_byte: None,
            latency: LatencyConfigRaw { l1: None, l2: None, l3: None, memory: None, store: None },
            syscall_cycles: Map::empty(),
        }
    }

    /// This file with `user` over it: what `user` gives counts.
    pub open spec fn merged(self, user: RawModel) -> RawModel {
        RawModel {
            default_syscall_cycles: or(user.default_syscall_cycles, self.default_syscall_cycles),
            io_cycles_per_byte: or(user.io_cycles_per_byte, self.io_cycles_per_byte),
            latency: LatencyConfigRaw {
                l1: or(user.latency.l1, self.latency.l1),
                l2: or(user.latency.l2, self.latency.l2),
                l3: or(user.latency.l3, self.latency.l3),
                memory: or(user.latency.memory, self.latency.memory),
                store: or(user.latency.store, self.latency.store),
            },
            syscall_cycles: self.syscall_cycles.union_prefer_right(user.syscall_cycles),
        }
    }
}

/// An optional value, or the default.
pub open spec fn given(value: Option<u64>, default: u64) -> u64 {
    match value {
        Some(value) => value,
        None => default,
    }
}

/// The table of system calls of the first `count` entries; a later entry replaces an earlier
/// one with its number. The first key that is no number is the complaint.
pub open spec fn resolved_table(entries: Seq<(String, u64)>, count: nat) -> Result<
    Map<u32, u64>,
    Seq<char>,
>
    decreases count,
{
    if count == 0 {
        Ok(Map::empty())
    } else {
        let (key, cycles) = entries[count - 1];
        match (resolved_table(entries, (count - 1) as nat), u32_auto(key@)) {
            (Err(complaint), _) => Err(complaint),
            (Ok(_), Err(complaint)) => Err("invalid syscall key in config: "@ + complaint),
            (Ok(found), Ok(code)) => Ok(found.insert(code, cycles)),
        }
    }
}

/// The number of 32 bits that `raw` stands for, in hexadecimal behind a prefix or in decimal, or
/// the complaint about it.
pub open spec fn u32_auto(raw: Seq<char>) -> Result<u32, Seq<char>> {
    match number::auto_u32(raw) {
        Ok(n) => Ok(n),
        Err(complaint) => Err(
            (if number::notation(raw).radix == 16 {
                "invalid u32 hex '"@
            } else {
                "invalid u32 '"@
            }) + raw + "': "@ + complaint,
        ),
    }
}

/// Costs of a run, complete.
#[derive(Debug)]
pub struct SimConfig {
    pub default_syscall_cycles: u64,
    pub io_cycles_per_byte: u64,
    pub l1_latency: u64,
    pub l2_latency: u64,
    pub l3_latency: u64,
    pub memory_latency: u64,
    pub store_latency: u64,
    pub syscall_cycles: HashMap<u32, u64>,
}

/// What `SimConfig` says, with its table as a mathematical map.
#[verifier::ext_equal]
pub ghost struct ConfigModel {
    pub default_syscall_cycles: u64,
    pub io_cycles_per_byte: u64,
    pub l1_latency: u64,
    pub l2_latency: u64,
    pub l3_latency: u64,
    pub memory_latency: u64,
    pub store_latency: u64,
    pub syscall_cycles: Map<u32, u64>,
}

impl ConfigModel {
    /// What a system call with the number `code` costs.
    pub open spec fn cycles_for(self, code: u32) -> u64 {
        if self.syscall_cycles.contains_key(code) {
            self.syscall_cycles[code]
        } else {
            self.default_syscall_cycles
        }
    }
}

impl View for SimConfig {
    type V = ConfigModel;

    open spec fn view(&self) -> ConfigModel {
        ConfigModel {
            default_syscall_cycles: self.default_syscall_cycles,
            io_cycles_per_byte: self.io_cycles_per_byte,
            l1_latency: self.l1_latency,
            l2_latency: self.l2_latency,
            l3_latency: self.l3_latency,
            memory_latency: self.memory_latency,
            store_latency: self.store_latency,
            syscall_cycles: self.syscall_cycles@,
        }
    }
}

impl Clone for SimConfig {
    fn clone(&self) -> (copy: Self)
        ensures
            copy@ == self@,
    {
        SimConfig {
            default_syscall_cycles: self.default_syscall_cycles,
            io_cycles_per_byte: self.io_cycles_per_byte,
            l1_latency: self.l1_latency,
            l2_latency: self.l2_latency,
            l3_latency: self.l3_latency,
            memory_latency: self.memory_latency,
            store_latency: self.store_latency,
            syscall_cycles: self.syscall_cycles.clone(),
        }
    }
}

/// What a system call with the number `code` costs: its entry in the table, or the default.
pub fn syscall_cycles_for(
    code: u32,
    default_cycles: u64,
    syscall_cycles: &HashMap<u32, u64>,
) -> (cycles: u64)
    ensures
        cycles == (if syscall_cycles@.contains_key(code) {
            syscall_cycles@[code]
        } else {
            default_cycles
        }),
{
    match syscall_cycles.get(&code) {
        Some(cycles) => *cycles,
        None => default_cycles,
    }
}

/// The costs that a file gives, and the defaults for the others, with the table of system calls
/// `found`.
pub open spec fn complete(raw: RawModel, found: Map<u32, u64>) -> ConfigModel {
    ConfigModel {
        default_syscall_cycles: given(raw.default_syscall_cycles, 500),
        io_cycles_per_byte: given(raw.io_cycles_per_byte, 20),
        l1_latency: given(raw.latency.l1, 3),
        l2_latency: given(raw.latency.l2, 11),
        l3_latency: given(raw.latency.l3, 50),
        memory_latency: given(raw.latency.memory, 125),
        store_latency: given(raw.latency.store, 1),
        syscall_cycles: found,
    }
}

/// Reads a number of 32 bits, in hexadecimal behind a prefix or in decimal.
pub fn parse_u32_auto(raw: &str) -> (result: Result<u32, String>)
    ensures
        match result {
            Ok(n) => u32_auto(raw@) == Ok::<u32, Seq<char>>(n),
            Err(complaint) => u32_auto(raw@) == Err::<u32, Seq<char>>(complaint@),
        },
{
    match number::read_auto_u32(raw) {
        Ok(n) => Ok(n),
        Err((hex, complaint)) => {
            let front = if hex {
                "invalid u32 hex '"
            } else {
                "invalid u32 '"
            };
            Err(front.to_owned().concat(raw).concat("': ").concat(complaint.as_str()))
        },
    }
}

/// A list with different keys holds each of them with its value, and no other.
proof fn lemma_table(entries: Seq<(String, u64)>)
    requires
        distinct(entries),
    ensures
        forall|i: int|
            0 <= i < entries.len() ==> #[trigger] table(entries).contains_key(entries[i].0@)
                && table(entries)[entries[i].0@] == entries[i].1,
        forall|key: Seq<char>| #[trigger]
            table(entries).contains_key(key) ==> exists|i: int|
                0 <= i < entries.len() && (#[trigger] entries[i]).0@ == key,
    decreases entries.len(),
{
    if entries.len() > 0 {
        let front = entries.drop_last();
        lemma_table(front);
        assert forall|i: int| 0 <= i < entries.len() implies #[trigger] table(
            entries,
        ).contains_key(entries[i].0@) && table(entries)[entries[i].0@] == entries[i].1 by {
            if i < front.len() {
                assert(front[i] == entries[i]);
                assert(table(front).contains_key(front[i].0@));
            }
        }
        assert forall|key: Seq<char>| #[trigger] table(entries).contains_key(key) implies exists|
            i: int,
        |
            0 <= i < entries.len() && (#[trigger] entries[i]).0@ == key by {
            if key == entries.last().0@ {
                assert(entries[entries.len() - 1].0@ == key);
            } else {
                assert(table(front).contains_key(key));
                let i = choose|i: int| 0 <= i < front.len() && (#[trigger] front[i]).0@ == key;
                assert(entries[i].0@ == key);
            }
        }
    }
}

/// Two lists with different keys that hold the same values under the same keys have the same map.
proof fn lemma_same_table(entries: Seq<(String, u64)>, map: Map<Seq<char>, u64>)
    requires
        distinct(entries),
        forall|i: int|
            0 <= i < entries.len() ==> map.contains_key((#[trigger] entries[i]).0@)
                && map[entries[i].0@] == entries[i].1,
        forall|key: Seq<char>| #[trigger]
            map.contains_key(key) ==> exists|i: int|
                0 <= i < entries.len() && (#[trigger] entries[i]).0@ == key,
    ensures
        table(entries) == map,
{
    lemma_table(entries);
    assert forall|key: Seq<char>| table(entries).contains_key(key) <==> map.contains_key(key) by {
        if table(entries).contains_key(key) {
            let i = choose|i: int| 0 <= i < entries.len() && (#[trigger] entries[i]).0@ == key;
            assert(map.contains_key(entries[i].0@));
        }
        if map.contains_key(key) {
            let i = choose|i: int| 0 <= i < entries.len() && (#[trigger] entries[i]).0@ == key;
            assert(table(entries).contains_key(entries[i].0@));
        }
    }
    assert forall|key: Seq<char>| table(entries).contains_key(key) implies table(entries)[key]
        == map[key] by {
        let i = choose|i: int| 0 <= i < entries.len() && (#[trigger] entries[i]).0@ == key;
        assert(table(entries).contains_key(entries[i].0@));
    }
    assert(table(entries) == map);
}

/// Puts an entry into a list of entries with different keys, in place of the one with its key.
fn put(entries: &mut Vec<(String, u64)>, key: String, value: u64)
    requires
        distinct(old(entries)@),
    ensures
        distinct(final(entries)@),
        table(final(entries)@) == table(old(entries)@).insert(key@, value),
{
    let ghost before = entries@;
    let ghost wanted = table(before).insert(key@, value);
    let mut next: usize = 0;
    while next < entries.len()
        invariant
            next <= entries@.len(),
            entries@ == before,
            before == old(entries)@,
            distinct(before),
            wanted == table(before).insert(key@, value),
            forall|i: int| 0 <= i < next ==> (#[trigger] before[i]).0@ != key@,
        decreases entries@.len() - next,
    {
        if entries[next].0 == key {
            entries.set(next, (key, value));
            proof {
                let after = entries@;
                lemma_table(before);
                assert forall|i: int| 0 <= i < after.len() implies wanted.contains_key(
                    (#[trigger] after[i]).0@,
                ) && wanted[after[i].0@] == after[i].1 by {
                    assert(before[i].0@ == after[i].0@);
                    assert(table(before).contains_key(before[i].0@));
                    if i != next {
                        assert(before[next as int].0@ == key@);
                    }
                }
                assert forall|k: Seq<char>| #[trigger] wanted.contains_key(k) implies exists|
                    i: int,
                |
                    0 <= i < after.len() && (#[trigger] after[i]).0@ == k by {
                    if k == key@ {
                        assert(after[next as int].0@ == k);
                    } else {
                        assert(table(before).contains_key(k));
                        let i = choose|i: int|
                            0 <= i < before.len() && (#[trigger] before[i]).0@ == k;
                        assert(after[i].0@ == k);
                    }
                }
                assert forall|i: int, j: int| 0 <= i < j < after.len() implies (
                #[trigger] after[i]).0@ != (#[trigger] after[j]).0@ by {
                    assert(before[i].0@ == after[i].0@);
                    assert(before[j].0@ == after[j].0@);
                }
                lemma_same_table(after, wanted);
            }
            return;
        }
        next = next + 1;
    }
    entries.push((key, value));
    assert(entries@.drop_last() == before);
}

impl SimConfigRaw {
    /// Whether no two entries have the same key.
    pub open spec fn wf(&self) -> bool {
        distinct(self.syscall_cycles@)
    }

    /// This file with `user` over it: what `user` gives counts.
    pub fn merge_with(self, user: SimConfigRaw) -> (merged: SimConfigRaw)
        requires
            self.wf(),
            user.wf(),
        ensures
            merged.wf(),
            merged@ == self@.merged(user@),
    {
        let mut cycles = self.syscall_cycles;
        let mut next: usize = 0;
        while next < user.syscall_cycles.len()
            invariant
                next <= user.syscall_cycles@.len(),
                distinct(cycles@),
                table(cycles@) == table(self.syscall_cycles@).union_prefer_right(
                    table(user.syscall_cycles@.take(next as int)),
                ),
            decreases user.syscall_cycles@.len() - next,
        {
            let key = user.syscall_cycles[next].0.clone();
            let value: u64 = user.syscall_cycles[next].1;
            proof {
                assert(user.syscall_cycles@.take(next + 1).drop_last()
                    == user.syscall_cycles@.take(next as int));
            }
            put(&mut cycles, key, value);
            next = next + 1;
        }
        assert(user.syscall_cycles@.take(next as int) == user.syscall_cycles@);
        SimConfigRaw {
            default_syscall_cycles: first_given(
                user.default_syscall_cycles,
                self.default_syscall_cycles,
            ),
            io_cycles_per_byte: first_given(user.io_cycles_per_byte, self.io_cycles_per_byte),
            latency: LatencyConfigRaw {
                l1: first_given(user.latency.l1, self.latency.l1),
                l2: first_given(user.latency.l2, self.latency.l2),
                l3: first_given(user.latency.l3, self.latency.l3),
                memory: first_given(user.latency.memory, self.latency.memory),
                store: first_given(user.latency.store, self.latency.store),
            },
            syscall_cycles: cycles,
        }
    }

    /// The costs that this file gives, and the defaults for the others.
    pub fn resolve(self) -> (result: Result<SimConfig, String>)
        ensures
            match (result, resolved_table(self.syscall_cycles@, self.syscall_cycles@.len())) {
                (Ok(config), Ok(found)) => config@ == complete(self@, found),
                (Err(complaint), Err(text)) => complaint@ == text,
                _ => false,
            },
    {
        let mut syscall_cycles: HashMap<u32, u64> = HashMap::new();
        let mut next: usize = 0;
        while next < self.syscall_cycles.len()
            invariant
                next <= self.syscall_cycles@.len(),
                resolved_table(self.syscall_cycles@, next as nat) == Ok::<
                    Map<u32, u64>,
                    Seq<char>,
                >(syscall_cycles@),
            decreases self.syscall_cycles@.len() - next,
        {
            let key = &self.syscall_cycles[next].0;
            match parse_u32_auto(key.as_str()) {
                Ok(code) => {
                    syscall_cycles.insert(code, self.syscall_cycles[next].1);
                },
                Err(complaint) => {
                    proof {
                        lemma_complaint_stays(
                            self.syscall_cycles@,
                            (next + 1) as nat,
                            self.syscall_cycles@.len(),
                        );
                    }
                    return Err(
                        "invalid syscall key in config: ".to_owned().concat(complaint.as_str()),
                    );
                },
            }
            next = next + 1;
        }
        Ok(
            SimConfig {
                default_syscall_cycles: self.default_syscall_cycles.unwrap_or(500),
                io_cycles_per_byte: self.io_cycles_per_byte.unwrap_or(20),
                l1_latency: self.latency.l1.unwrap_or(3),
                l2_latency: self.latency.l2.unwrap_or(11),
                l3_latency: self.latency.l3.unwrap_or(50),
                memory_latency: self.latency.memory.unwrap_or(125),
                store_latency: self.latency.store.unwrap_or(1),
                syscall_cycles,
            },
        )
    }
}

/// Where the first equals sign of a text stands.
pub open spec fn equals_at(raw: Seq<char>) -> Option<int> {
    raw.index_of_first('=')
}

/// The key and the cycles that a score on the command line gives, or the complaint about it.
pub open spec fn score(raw: Seq<char>) -> Result<(Seq<char>, u64), Seq<char>> {
    match equals_at(raw) {
        None => Err("invalid syscall score '"@ + raw + "': expected CODE=CYCLES"@),
        Some(at) => match number::auto_u64(raw.skip(at + 1)) {
            Ok(cycles) => Ok((raw.take(at), cycles)),
            Err(complaint) => Err("invalid syscall score '"@ + raw + "': "@ + complaint),
        },
    }
}

/// The key and the cycles that a score on the command line gives.
pub fn parse_syscall_score(raw: &str) -> (result: Result<(String, u64), String>)
    ensures
        match (result, score(raw@)) {
            (Ok((key, cycles)), Ok((wanted, price))) => key@ == wanted && cycles == price,
            (Err(complaint), Err(text)) => complaint@ == text,
            _ => false,
        },
{
    let len: usize = raw.unicode_len();
    let mut at: usize = 0;
    while at < len && raw.get_char(at) != '='
        invariant
            at <= len,
            len == raw@.len(),
            forall|i: int| 0 <= i < at ==> raw@[i] != '=',
        decreases len - at,
    {
        at = at + 1;
    }
    proof {
        raw@.index_of_first_ensures('=');
        if at < len {
            assert(raw@.contains(raw@[at as int]));
        }
    }
    if at == len {
        return Err(
            "invalid syscall score '".to_owned().concat(raw).concat("': expected CODE=CYCLES"),
        );
    }
    assert(raw@.subrange(at + 1, len as int) == raw@.skip(at + 1));
    assert(raw@.subrange(0, at as int) == raw@.take(at as int));
    match number::read_auto_u64(raw.substring_char(at + 1, len)) {
        Ok(cycles) => Ok((raw.substring_char(0, at).to_owned(), cycles)),
        Err((_, complaint)) => Err(
            "invalid syscall score '".to_owned().concat(raw).concat("': ").concat(
                complaint.as_str(),
            ),
        ),
    }
}

/// The table of the first `count` scores; a later one replaces an earlier one with its key.
pub open spec fn score_table(scores: Seq<String>, count: nat) -> Result<
    Map<Seq<char>, u64>,
    Seq<char>,
>
    decreases count,
{
    if count == 0 {
        Ok(Map::empty())
    } else {
        match (score_table(scores, (count - 1) as nat), score(scores[count - 1]@)) {
            (Err(complaint), _) => Err(complaint),
            (Ok(_), Err(complaint)) => Err(complaint),
            (Ok(found), Ok((key, cycles))) => Ok(found.insert(key, cycles)),
        }
    }
}

proof fn lemma_score_complaint_stays(scores: Seq<String>, count: nat, longer: nat)
    requires
        count <= longer,
        score_table(scores, count) is Err,
    ensures
        score_table(scores, longer) == score_table(scores, count),
    decreases longer,
{
    if count < longer {
        lemma_score_complaint_stays(scores, count, (longer - 1) as nat);
    }
}

/// The file that scores on the command line stand for.
pub fn config_from_scores(default_score: Option<u64>, scores: &Vec<String>) -> (result: Result<
    SimConfigRaw,
    String,
>)
    ensures
        match (result, score_table(scores@, scores@.len())) {
            (Ok(raw), Ok(found)) => {
                &&& raw.wf()
                &&& raw@ == (RawModel {
                    default_syscall_cycles: default_score,
                    syscall_cycles: found,
                    ..RawModel::empty()
                })
            },
            (Err(complaint), Err(text)) => complaint@ == text,
            _ => false,
        },
{
    let mut entries: Vec<(String, u64)> = Vec::new();
    let mut next: usize = 0;
    while next < scores.len()
        invariant
            next <= scores@.len(),
            distinct(entries@),
            score_table(scores@, next as nat) == Ok::<Map<Seq<char>, u64>, Seq<char>>(
                table(entries@),
            ),
        decreases scores@.len() - next,
    {
        match parse_syscall_score(scores[next].as_str()) {
            Ok((key, cycles)) => put(&mut entries, key, cycles),
            Err(complaint) => {
                proof {
                    lemma_score_complaint_stays(scores@, (next + 1) as nat, scores@.len());
                }
                return Err(complaint);
            },
        }
        next = next + 1;
    }
    Ok(
        SimConfigRaw {
            default_syscall_cycles: default_score,
            syscall_cycles: entries,
            ..SimConfigRaw::default()
        },
    )
}

impl Default for SimConfig {
    /// The costs of a file that gives nothing.
    fn default() -> (config: Self)
        ensures
            config@ == complete(RawModel::empty(), Map::empty()),
    {
        SimConfig {
            default_syscall_cycles: 500,
            io_cycles_per_byte: 20,
            l1_latency: 3,
            l2_latency: 11,
            l3_latency: 50,
            memory_latency: 125,
            store_latency: 1,
            syscall_cycles: HashMap::new(),
        }
    }
}

impl Default for SimConfigRaw {
    /// A file that gives nothing.
    fn default() -> (raw: Self)
        ensures
            raw.wf(),
            raw@ == RawModel::empty(),
            raw.syscall_cycles@.len() == 0,
    {
        SimConfigRaw {
            default_syscall_cycles: None,
            io_cycles_per_byte: None,
            latency: LatencyConfigRaw { l1: None, l2: None, l3: None, memory: None, store: None },
            syscall_cycles: Vec::new(),
        }
    }
}

/// The first of two optional values that there is.
fn first_given(first: Option<u64>, second: Option<u64>) -> (value: Option<u64>)
    ensures
        value == or(first, second),
{
    match first {
        Some(value) => Some(value),
        None => second,
    }
}

/// A complaint about an entry is the complaint about all longer lists.
proof fn lemma_complaint_stays(entries: Seq<(String, u64)>, count: nat, longer: nat)
    requires
        count <= longer,
        resolved_table(entries, count) is Err,
    ensures
        resolved_table(entries, longer) == resolved_table(entries, count),
    decreases longer,
{
    if count < longer {
        lemma_complaint_stays(entries, count, (longer - 1) as nat);
    }
}

/// A file that gives nothing changes nothing, under or over another one.
pub proof fn law_merge_with_nothing(raw: RawModel)
    ensures
        raw.merged(RawModel::empty()) == raw,
        RawModel::empty().merged(raw) == raw,
{
    assert(raw.merged(RawModel::empty()) =~= raw);
    assert(RawModel::empty().merged(raw) =~= raw);
}

/// It does not matter which two of three files are put over each other first.
pub proof fn law_merge_is_associative(a: RawModel, b: RawModel, c: RawModel)
    ensures
        a.merged(b).merged(c) == a.merged(b.merged(c)),
{
    assert(a.merged(b).merged(c) =~= a.merged(b.merged(c)));
}

/// A file over itself gives the same.
pub proof fn law_merge_is_idempotent(raw: RawModel)
    ensures
        raw.merged(raw) == raw,
{
    assert(raw.merged(raw) =~= raw);
}

/// What the upper file gives counts; what it does not give, the lower file gives.
pub proof fn law_merge_prefers_user(raw: RawModel, user: RawModel, key: Seq<char>)
    ensures
        user.syscall_cycles.contains_key(key) ==> raw.merged(user).syscall_cycles.contains_key(key)
            && raw.merged(user).syscall_cycles[key] == user.syscall_cycles[key],
        !user.syscall_cycles.contains_key(key) ==> raw.merged(user).syscall_cycles.contains_key(
            key,
        ) == raw.syscall_cycles.contains_key(key),
        !user.syscall_cycles.contains_key(key) && raw.syscall_cycles.contains_key(key)
            ==> raw.merged(user).syscall_cycles[key] == raw.syscall_cycles[key],
        user.default_syscall_cycles is Some ==> raw.merged(user).default_syscall_cycles
            == user.default_syscall_cycles,
        user.default_syscall_cycles is None ==> raw.merged(user).default_syscall_cycles
            == raw.default_syscall_cycles,
        user.io_cycles_per_byte is Some ==> raw.merged(user).io_cycles_per_byte
            == user.io_cycles_per_byte,
        user.io_cycles_per_byte is None ==> raw.merged(user).io_cycles_per_byte
            == raw.io_cycles_per_byte,
        user.latency.l1 is Some ==> raw.merged(user).latency.l1 == user.latency.l1,
        user.latency.l1 is None ==> raw.merged(user).latency.l1 == raw.latency.l1,
        user.latency.l2 is Some ==> raw.merged(user).latency.l2 == user.latency.l2,
        user.latency.l2 is None ==> raw.merged(user).latency.l2 == raw.latency.l2,
        user.latency.l3 is Some ==> raw.merged(user).latency.l3 == user.latency.l3,
        user.latency.l3 is None ==> raw.merged(user).latency.l3 == raw.latency.l3,
        user.latency.memory is Some ==> raw.merged(user).latency.memory == user.latency.memory,
        user.latency.memory is None ==> raw.merged(user).latency.memory == raw.latency.memory,
        user.latency.store is Some ==> raw.merged(user).latency.store == user.latency.store,
        user.latency.store is None ==> raw.merged(user).latency.store == raw.latency.store,
{
}

/// What a file gives is what the run costs, each value under its own name; what it does not give
/// has a default of its own.
pub proof fn law_given_or_default(raw: RawModel, found: Map<u32, u64>)
    ensures
        ({
            let config = complete(raw, found);
            &&& raw.default_syscall_cycles matches Some(v) ==> config.default_syscall_cycles == v
            &&& raw.default_syscall_cycles is None ==> config.default_syscall_cycles == 500
            &&& raw.io_cycles_per_byte matches Some(v) ==> config.io_cycles_per_byte == v
            &&& raw.io_cycles_per_byte is None ==> config.io_cycles_per_byte == 20
            &&& raw.latency.l1 matches Some(v) ==> config.l1_latency == v
            &&& raw.latency.l1 is None ==> config.l1_latency == 3
            &&& raw.latency.l2 matches Some(v) ==> config.l2_latency == v
            &&& raw.latency.l2 is None ==> config.l2_latency == 11
            &&& raw.latency.l3 matches Some(v) ==> config.l3_latency == v
            &&& raw.latency.l3 is None ==> config.l3_latency == 50
            &&& raw.latency.memory matches Some(v) ==> config.memory_latency == v
            &&& raw.latency.memory is None ==> config.memory_latency == 125
            &&& raw.latency.store matches Some(v) ==> config.store_latency == v
            &&& raw.latency.store is None ==> config.store_latency == 1
            &&& config.syscall_cycles == found
        }),
{
}

/// What the upper of two files gives is what the run costs, whatever the lower one says; what
/// only the lower one gives counts too.
pub proof fn law_user_file_counts(raw: RawModel, user: RawModel, found: Map<u32, u64>)
    ensures
        ({
            let config = complete(raw.merged(user), found);
            let lower = complete(raw, found);
            &&& user.default_syscall_cycles matches Some(v) ==> config.default_syscall_cycles == v
            &&& user.default_syscall_cycles is None ==> config.default_syscall_cycles
                == lower.default_syscall_cycles
            &&& user.io_cycles_per_byte matches Some(v) ==> config.io_cycles_per_byte == v
            &&& user.io_cycles_per_byte is None ==> config.io_cycles_per_byte
                == lower.io_cycles_per_byte
            &&& user.latency.l1 matches Some(v) ==> config.l1_latency == v
            &&& user.latency.l1 is None ==> config.l1_latency == lower.l1_latency
            &&& user.latency.l2 matches Some(v) ==> config.l2_latency == v
            &&& user.latency.l2 is None ==> config.l2_latency == lower.l2_latency
            &&& user.latency.l3 matches Some(v) ==> config.l3_latency == v
            &&& user.latency.l3 is None ==> config.l3_latency == lower.l3_latency
            &&& user.latency.memory matches Some(v) ==> config.memory_latency == v
            &&& user.latency.memory is None ==> config.memory_latency == lower.memory_latency
            &&& user.latency.store matches Some(v) ==> config.store_latency == v
            &&& user.latency.store is None ==> config.store_latency == lower.store_latency
        }),
{
}

/// A system call costs what the table says under its number, and the default price if the table
/// says nothing; no other entry of the table matters.
pub proof fn law_call_prices(config: ConfigModel, code: u32, other: u32, cycles: u64)
    ensures
        ({
            let priced = ConfigModel {
                syscall_cycles: config.syscall_cycles.insert(code, cycles),
                ..config
            };
            &&& priced.cycles_for(code) == cycles
            &&& other != code ==> priced.cycles_for(other) == config.cycles_for(other)
            &&& !config.syscall_cycles.contains_key(code) ==> config.cycles_for(code)
                == config.default_syscall_cycles
        }),
{
}

/// The table of system calls that a list of entries gives has the numbers of their keys, each with
/// the cycles of the last entry of that number; it is given if and only if every key is a number.
#[verifier::rlimit(40)]
pub proof fn law_resolved_table(entries: Seq<(String, u64)>, count: nat)
    requires
        count <= entries.len(),
    ensures
        resolved_table(entries, count) is Ok <==> forall|i: int|
            0 <= i < count ==> number::auto_u32((#[trigger] entries[i]).0@) is Ok,
        resolved_table(entries, count) matches Ok(found) ==> forall|code: u32|
            #![trigger found.contains_key(code)]
            found.contains_key(code) <==> exists|i: int|
                0 <= i < count && number::auto_u32((#[trigger] entries[i]).0@) == Ok::<
                    u32,
                    Seq<char>,
                >(code),
        resolved_table(entries, count) matches Ok(found) ==> forall|i: int|
            #![trigger entries[i]]
            0 <= i < count && (forall|j: int|
                i < j < count ==> number::auto_u32((#[trigger] entries[j]).0@)
                    != number::auto_u32(entries[i].0@))
                ==> found[number::auto_u32(entries[i].0@)->Ok_0] == entries[i].1,
    decreases count,
{
    if count > 0 {
        let n = (count - 1) as nat;
        law_resolved_table(entries, n);
        let last = number::auto_u32(entries[n as int].0@);
        assert(u32_auto(entries[n as int].0@) is Ok <==> last is Ok);
        if resolved_table(entries, count) is Ok {
            let found = resolved_table(entries, count)->Ok_0;
            let before = resolved_table(entries, n)->Ok_0;
            assert(found == before.insert(last->Ok_0, entries[n as int].1));
            assert forall|code: u32| #![trigger found.contains_key(code)]
                found.contains_key(code) <==> exists|i: int|
                    0 <= i < count && number::auto_u32((#[trigger] entries[i]).0@) == Ok::<
                        u32,
                        Seq<char>,
                    >(code) by {
                if found.contains_key(code) && code != last->Ok_0 {
                    assert(before.contains_key(code));
                    let i = choose|i: int|
                        0 <= i < n && number::auto_u32((#[trigger] entries[i]).0@) == Ok::<
                            u32,
                            Seq<char>,
                        >(code);
                    assert(0 <= i < count && number::auto_u32(entries[i].0@) == Ok::<
                        u32,
                        Seq<char>,
                    >(code));
                }
                if exists|i: int|
                    0 <= i < count && number::auto_u32((#[trigger] entries[i]).0@) == Ok::<
                        u32,
                        Seq<char>,
                    >(code) {
                    let i = choose|i: int|
                        0 <= i < count && number::auto_u32((#[trigger] entries[i]).0@) == Ok::<
                            u32,
                            Seq<char>,
                        >(code);
                    if i < n {
                        assert(before.contains_key(code));
                    }
                }
            }
            assert forall|i: int| #![trigger entries[i]]
                0 <= i < count && (forall|j: int|
                    i < j < count ==> number::auto_u32((#[trigger] entries[j]).0@)
                        != number::auto_u32(entries[i].0@)) implies found[number::auto_u32(
                entries[i].0@,
            )->Ok_0] == entries[i].1 by {
                if i < n {
                    assert(number::auto_u32(entries[n as int].0@) != number::auto_u32(
                        entries[i].0@,
                    ));
                    assert(number::auto_u32(entries[i].0@) is Ok);
                }
            }
        }
    }
}

/// A number is read as it is; the complaint about a text that is none quotes it, and says whether
/// it was taken for a hexadecimal one.
pub proof fn law_numbers_in_files(raw: Seq<char>)
    ensures
        number::auto_u32(raw) matches Ok(n) ==> u32_auto(raw) == Ok::<u32, Seq<char>>(n),
        number::auto_u32(raw) matches Err(complaint) ==> u32_auto(raw) == Err::<u32, Seq<char>>(
            (if raw.len() >= 2 && raw[0] == '0' && (raw[1] == 'x' || raw[1] == 'X') {
                "invalid u32 hex '"@
            } else {
                "invalid u32 '"@
            }) + raw + "': "@ + complaint,
        ),
{
}

/// Entries whose keys are numbers make a table.
proof fn lemma_table_of_numbers(entries: Seq<(String, u64)>, count: nat)
    requires
        forall|i: int| 0 <= i < count ==> u32_auto((#[trigger] entries[i]).0@) is Ok,
    ensures
        resolved_table(entries, count) is Ok,
    decreases count,
{
    if count > 0 {
        lemma_table_of_numbers(entries, (count - 1) as nat);
        assert(u32_auto(entries[count - 1].0@) is Ok);
    }
}

/// The complaint about a list of entries is about the first key that is no number.
pub proof fn law_first_bad_key(entries: Seq<(String, u64)>, count: nat, bad: int)
    requires
        0 <= bad < count <= entries.len(),
        forall|i: int| 0 <= i < bad ==> u32_auto((#[trigger] entries[i]).0@) is Ok,
        u32_auto(entries[bad].0@) is Err,
    ensures
        resolved_table(entries, count) == Err::<Map<u32, u64>, Seq<char>>(
            "invalid syscall key in config: "@ + u32_auto(entries[bad].0@)->Err_0,
        ),
{
    lemma_table_of_numbers(entries, bad as nat);
    assert(resolved_table(entries, (bad + 1) as nat) is Err);
    lemma_complaint_stays(entries, (bad + 1) as nat, count);
}

/// A score that was written as a key, an equals sign and a number reads back as that key and that
/// number; a text without an equals sign is no score.
pub proof fn law_scores_read_back(key: Seq<char>, cycles: u64)
    requires
        !key.contains('='),
    ensures
        score(key + seq!['='] + crate::text::dec(cycles as nat)) == Ok::<
            (Seq<char>, u64),
            Seq<char>,
        >((key, cycles)),
        score(key) == Err::<(Seq<char>, u64), Seq<char>>(
            "invalid syscall score '"@ + key + "': expected CODE=CYCLES"@,
        ),
{
    let digits = crate::text::dec(cycles as nat);
    let raw = key + seq!['='] + digits;
    let at = key.len() as int;
    raw.index_of_first_ensures('=');
    key.index_of_first_ensures('=');
    assert(raw[at] == '=');
    assert(raw.contains('='));
    assert forall|i: int| 0 <= i < at implies raw[i] != '=' by {
        assert(key.contains(key[i]));
    }
    assert(equals_at(raw) == Some(at));
    assert(raw.skip(at + 1) == digits);
    assert(raw.take(at) == key);
    number::law_long_numbers_read_back(cycles, 0);
}

/// A score that comes later replaces earlier ones with its key and leaves the others alone.
pub proof fn law_later_scores_count(scores: Seq<String>, count: nat, other: Seq<char>)
    requires
        score_table(scores, count) is Ok,
        score(scores[count as int]@) is Ok,
    ensures
        ({
            let before = score_table(scores, count)->Ok_0;
            let after = score_table(scores, (count + 1) as nat);
            let (key, cycles) = score(scores[count as int]@)->Ok_0;
            &&& after matches Ok(table) && table.contains_key(key) && table[key] == cycles && (other
                != key ==> table.contains_key(other) == before.contains_key(other) && (
            before.contains_key(other) ==> table[other] == before[other]))
        }),
{
}

/// A score is split at its first equals sign: the key is what stands in front of it, and the
/// cycles are the number behind it, in decimal or behind its prefix in hexadecimal. A complaint
/// about that number quotes the whole score.
pub proof fn law_scores_split(key: Seq<char>, rest: Seq<char>)
    requires
        !key.contains('='),
    ensures
        ({
            let raw = key + seq!['='] + rest;
            &&& number::auto_u64(rest) matches Ok(cycles) ==> score(raw) == Ok::<
                (Seq<char>, u64),
                Seq<char>,
            >((key, cycles))
            &&& number::auto_u64(rest) matches Err(complaint) ==> score(raw) == Err::<
                (Seq<char>, u64),
                Seq<char>,
            >("invalid syscall score '"@ + raw + "': "@ + complaint)
        }),
{
    let raw = key + seq!['='] + rest;
    let at = key.len() as int;
    raw.index_of_first_ensures('=');
    assert(raw[at] == '=');
    assert(raw.contains('='));
    assert forall|i: int| 0 <= i < at implies raw[i] != '=' by {
        assert(key.contains(key[i]));
    }
    assert(equals_at(raw) == Some(at));
    assert(raw.skip(at + 1) == rest);
    assert(raw.take(at) == key);
}

/// The complaint about a list of scores is the one about its first score that is none.
pub proof fn law_first_bad_score(scores: Seq<String>, count: nat, bad: int)
    requires
        0 <= bad < count <= scores.len(),
        forall|i: int| 0 <= i < bad ==> score((#[trigger] scores[i])@) is Ok,
        score(scores[bad]@) is Err,
    ensures
        score_table(scores, count) == Err::<Map<Seq<char>, u64>, Seq<char>>(
            score(scores[bad]@)->Err_0,
        ),
{
    lemma_table_of_scores(scores, bad as nat);
    assert(score_table(scores, (bad + 1) as nat) is Err);
    lemma_score_complaint_stays(scores, (bad + 1) as nat, count);
}

/// Scores make a table.
proof fn lemma_table_of_scores(scores: Seq<String>, count: nat)
    requires
        forall|i: int| 0 <= i < count ==> score((#[trigger] scores[i])@) is Ok,
    ensures
        score_table(scores, count) is Ok,
    decreases count,
{
    if count > 0 {
        lemma_table_of_scores(scores, (count - 1) as nat);
        assert(score(scores[count - 1]@) is Ok);
    }
}

/// An empty file gives nothing, and no scores make an empty table; a list of entries gives each
/// key the value of its last entry.
pub proof fn law_nothing_given(scores: Seq<String>, entries: Seq<(String, u64)>, key: Seq<char>)
    ensures
        ({
            let empty = RawModel::empty();
            &&& empty.default_syscall_cycles is None && empty.io_cycles_per_byte is None
            &&& empty.latency.l1 is None && empty.latency.l2 is None && empty.latency.l3 is None
            &&& empty.latency.memory is None && empty.latency.store is None
            &&& !empty.syscall_cycles.contains_key(key)
        }),
        score_table(scores, 0) == Ok::<Map<Seq<char>, u64>, Seq<char>>(Map::empty()),
        !table(Seq::empty()).contains_key(key),
        entries.len() > 0 ==> table(entries).contains_key(entries.last().0@) && table(
            entries,
        )[entries.last().0@] == entries.last().1,
        entries.len() > 0 && key != entries.last().0@ ==> table(entries).contains_key(key) == table(
            entries.drop_last(),
        ).contains_key(key) && table(entries)[key] == table(entries.drop_last())[key],
{
}

} // verus!
