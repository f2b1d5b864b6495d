//! The memory of the machine: bytes, the range of addresses in use, and the caches in front.

use crate::cache::{self, CacheHierarchy, CachesModel};
use crate::config::{ConfigModel, SimConfig, VmRuntimeOptions};
use crate::stats::{self, RunStats, StatsModel};
use crate::text;
use std::collections::HashMap;
use vstd::prelude::*;

verus! {

broadcast use vstd::std_specs::hash::group_hash_axioms;

/// The address `offset` bytes after `addr`; addresses wrap around.
pub open spec fn wrap32(addr: u32, offset: int) -> u32 {
    ((addr + offset) % 0x1_0000_0000) as u32
}

/// The range of addresses in use, both ends included.
#[derive(Debug, Clone, Copy, PartialEq, Eq, Structural)]
pub struct MemoryBounds {
    pub start: u32,
    pub end: u32,
}

impl MemoryBounds {
    /// Whether `addr` lies in the range.
    pub open spec fn has(self, addr: u32) -> bool {
        self.start <= addr <= self.end
    }

    /// The last address of `len` bytes from `addr` on, no further than the last address there is.
    pub open spec fn last_of(addr: u32, len: u32) -> u32 {
        if len == 0 {
            addr
        } else if addr + len - 1 > u32::MAX {
            u32::MAX
        } else {
            (addr + len - 1) as u32
        }
    }

    /// The smallest range with this one and `len` bytes from `addr` on.
    pub open spec fn expanded(self, addr: u32, len: u32) -> MemoryBounds {
        MemoryBounds {
            start: if addr < self.start {
                addr
            } else {
                self.start
            },
            end: if Self::last_of(addr, len) > self.end {
                Self::last_of(addr, len)
            } else {
                self.end
            },
        }
    }

    pub fn contains(&self, addr: u32) -> (inside: bool)
        ensures
            inside == self.has(addr),
    {
        self.start <= addr && addr <= self.end
    }

    /// How many bytes there are from `addr` to the end of the range; a count that does not fit
    /// is given as the largest number.
    pub fn available_from(&self, addr: u32) -> (count: u32)
        ensures
            !self.has(addr) ==> count == 0,
            self.has(addr) && self.end - addr < u32::MAX ==> count == self.end - addr + 1,
            self.has(addr) && self.end - addr == u32::MAX ==> count == u32::MAX,
    {
        if !self.contains(addr) {
            0
        } else {
            self.end.saturating_sub(addr).saturating_add(1)
        }
    }

    pub fn expand_to_include(&mut self, addr: u32, len: u32)
        ensures
            *final(self) == old(self).expanded(addr, len),
    {
        if addr < self.start {
            self.start = addr;
        }
        let end: u32 = if len == 0 {
            addr
        } else {
            addr.saturating_add(len.saturating_sub(1))
        };
        if end > self.end {
            self.end = end;
        }
    }
}

/// Why memory could not be read or written from outside the machine.
#[derive(Debug)]
pub struct MemoryAccessError {
    pub addr: u32,
    pub len: u32,
    pub bounds: Option<MemoryBounds>,
    pub message: String,
}

/// What `MemoryAccessError` says.
#[verifier::ext_equal]
pub ghost struct AccessErrorModel {
    pub addr: u32,
    pub len: u32,
    pub bounds: Option<MemoryBounds>,
    pub message: Seq<char>,
}

impl View for MemoryAccessError {
    type V = AccessErrorModel;

    open spec fn view(&self) -> AccessErrorModel {
        AccessErrorModel {
            addr: self.addr,
            len: self.len,
            bounds: self.bounds,
            message: self.message@,
        }
    }
}

impl MemoryAccessError {
    /// The text of the complaint.
    pub fn display(&self) -> (text: String)
        ensures
            text@ == self@.message,
    {
        self.message.clone()
    }
}

/// What a read from outside the machine gives: all of the bytes, or those up to the end of
/// the range in use.
#[derive(Debug)]
pub enum MemoryReadResult {
    Full { addr: u32, len: u32, bytes: Vec<u8> },
    Partial {
        addr: u32,
        requested_len: u32,
        available_len: u32,
        bytes: Vec<u8>,
        bounds: MemoryBounds,
    },
}

/// What `MemoryReadResult` says.
#[verifier::ext_equal]
pub ghost enum ReadModel {
    Full { addr: u32, len: u32, bytes: Seq<u8> },
    Partial {
        addr: u32,
        requested_len: u32,
        available_len: u32,
        bytes: Seq<u8>,
        bounds: MemoryBounds,
    },
}

impl View for MemoryReadResult {
    type V = ReadModel;

    open spec fn view(&self) -> ReadModel {
        match *self {
            MemoryReadResult::Full { addr, len, bytes } => ReadModel::Full {
                addr,
                len,
                bytes: bytes@,
            },
            MemoryReadResult::Partial { addr, requested_len, available_len, bytes, bounds } => {
                ReadModel::Partial { addr, requested_len, available_len, bytes: bytes@, bounds }
            },
        }
    }
}

/// A copy of the memory with its caches.
#[derive(Debug)]
pub struct VmMemoryDump {
    pub bytes: HashMap<u32, u8>,
    pub bounds: Option<MemoryBounds>,
    pub caches: CacheHierarchy,
}

/// An access by a program: `size` bytes fetched or loaded, or these bytes stored.
#[derive(Debug)]
pub enum MemoryRequest {
    Exec { size: u32 },
    Load { size: u32 },
    Store { bytes: Vec<u8> },
}

/// What `MemoryRequest` asks for.
#[verifier::ext_equal]
pub ghost enum RequestModel {
    Exec { size: u32 },
    Load { size: u32 },
    Store { bytes: Seq<u8> },
}

impl View for MemoryRequest {
    type V = RequestModel;

    open spec fn view(&self) -> RequestModel {
        match *self {
            MemoryRequest::Exec { size } => RequestModel::Exec { size },
            MemoryRequest::Load { size } => RequestModel::Load { size },
            MemoryRequest::Store { bytes } => RequestModel::Store { bytes: bytes@ },
        }
    }
}

/// The memory of the machine.
#[derive(Debug)]
pub struct HecateMemory {
    pub bytes: HashMap<u32, u8>,
    pub caches: CacheHierarchy,
    pub bounds: Option<MemoryBounds>,
}

/// What the memory holds; an address without an entry was never written.
pub ghost struct MemoryModel {
    pub bytes: Map<u32, u8>,
    pub bounds: Option<MemoryBounds>,
    pub caches: CachesModel,
}

impl View for HecateMemory {
    type V = MemoryModel;

    open spec fn view(&self) -> MemoryModel {
        MemoryModel { bytes: self.bytes@, bounds: self.bounds, caches: self.caches@ }
    }
}

impl View for VmMemoryDump {
    type V = MemoryModel;

    open spec fn view(&self) -> MemoryModel {
        MemoryModel { bytes: self.bytes@, bounds: self.bounds, caches: self.caches@ }
    }
}

/// The range in use after `len` bytes from `addr` on were used.
pub open spec fn bounds_with(bounds: Option<MemoryBounds>, addr: u32, len: u32) -> Option<
    MemoryBounds,
> {
    if len == 0 {
        bounds
    } else {
        match bounds {
            Some(range) => Some(range.expanded(addr, len)),
            None => Some(MemoryBounds { start: addr, end: MemoryBounds::last_of(addr, len) }),
        }
    }
}

/// `bytes` with `data` written from `addr` on, the first byte first.
pub open spec fn written(bytes: Map<u32, u8>, addr: u32, data: Seq<u8>) -> Map<u32, u8>
    decreases data.len(),
{
    if data.len() == 0 {
        bytes
    } else {
        written(bytes, addr, data.drop_last()).insert(wrap32(addr, data.len() - 1), data.last())
    }
}

/// `len` zero bytes.
pub open spec fn zeros(len: u32) -> Seq<u8> {
    Seq::new(len as nat, |i: int| 0u8)
}

/// The byte at `addr`; one that was never written reads as zero.
pub open spec fn byte_at(bytes: Map<u32, u8>, addr: u32) -> u8 {
    if bytes.contains_key(addr) {
        bytes[addr]
    } else {
        0
    }
}

/// `len` bytes from `addr` on; those that were never written read as zero.
pub open spec fn bytes_at(bytes: Map<u32, u8>, addr: u32, len: nat) -> Seq<u8> {
    Seq::new(len, |i: int| byte_at(bytes, wrap32(addr, i)))
}

/// Whether each of `size` bytes from `addr` on was written.
pub open spec fn mapped(bytes: Map<u32, u8>, addr: u32, size: u32) -> bool {
    forall|i: int| 0 <= i < size ==> bytes.contains_key(#[trigger] wrap32(addr, i))
}

/// `bytes` with a zero at each address of `range`.
pub open spec fn zeroed(bytes: Map<u32, u8>, range: MemoryBounds) -> Map<u32, u8> {
    bytes.union_prefer_right(Map::new(|addr: u32| range.has(addr), |addr: u32| 0u8))
}

/// The next state of the generator that fills memory.
pub open spec fn xorshift(state: u64) -> u64 {
    let a = state ^ (state << 13);
    let b = a ^ (a >> 7);
    b ^ (b << 17)
}

/// `bytes` with the low bytes of the generator's states at the addresses from `addr` to `end`.
pub open spec fn randomized(bytes: Map<u32, u8>, addr: int, end: u32, state: u64) -> Map<u32, u8>
    decreases end + 1 - addr,
{
    if addr > end || addr < 0 {
        bytes
    } else {
        let next = xorshift(state);
        randomized(bytes.insert(addr as u32, (next % 256) as u8), addr + 1, end, next)
    }
}

/// The generator's first state for `range`.
pub open spec fn first_state(seed: u64, range: MemoryBounds) -> u64 {
    seed ^ ((range.start as u64) << 32) ^ range.end as u64
}

/// The complaint about an address outside `range`.
pub open spec fn out_of_bounds_text(addr: u32, range: MemoryBounds) -> Seq<char> {
    "address 0x"@ + text::hex_padded(addr as nat, 8) + " is out of bounds (valid range 0x"@
        + text::hex_padded(range.start as nat, 8) + "..=0x"@ + text::hex_padded(
        range.end as nat,
        8,
    ) + ")"@
}

/// The complaint about a write from `addr` to `end` that leaves `range`.
pub open spec fn exceeds_text(addr: u32, end: u32, range: MemoryBounds) -> Seq<char> {
    "write range 0x"@ + text::hex_padded(addr as nat, 8) + "..=0x"@ + text::hex_padded(
        end as nat,
        8,
    ) + " exceeds bounds 0x"@ + text::hex_padded(range.start as nat, 8) + "..=0x"@
        + text::hex_padded(range.end as nat, 8)
}

impl MemoryModel {
    /// Empty memory behind empty caches.
    pub open spec fn fresh(options: VmRuntimeOptions, config: ConfigModel) -> MemoryModel {
        MemoryModel {
            bytes: Map::empty(),
            bounds: None,
            caches: CachesModel::fresh(options, config),
        }
    }

    /// After every address in use was set to zero.
    pub open spec fn zero(self) -> MemoryModel {
        MemoryModel {
            bytes: match self.bounds {
                Some(range) => zeroed(self.bytes, range),
                None => self.bytes,
            },
            ..self
        }
    }

    /// After `data` was written from `addr` on, past the caches.
    pub open spec fn write_raw(self, addr: u32, data: Seq<u8>) -> MemoryModel {
        MemoryModel {
            bytes: written(self.bytes, addr, data),
            bounds: bounds_with(
                self.bounds,
                addr,
                (data.len() % 0x1_0000_0000) as u32,
            ),
            caches: self.caches,
        }
    }

    /// What a read of `len` bytes at `addr` from outside gives.
    pub open spec fn read_external(self, addr: u32, len: u32) -> Result<
        ReadModel,
        AccessErrorModel,
    > {
        match self.bounds {
            None => Err(
                AccessErrorModel {
                    addr,
                    len,
                    bounds: None,
                    message: "memory is not initialized"@,
                },
            ),
            Some(range) if !range.has(addr) => Err(
                AccessErrorModel {
                    addr,
                    len,
                    bounds: Some(range),
                    message: out_of_bounds_text(addr, range),
                },
            ),
            Some(range) if len <= range.end - addr + 1 => Ok(
                ReadModel::Full { addr, len, bytes: bytes_at(self.bytes, addr, len as nat) },
            ),
            Some(range) => Ok(
                ReadModel::Partial {
                    addr,
                    requested_len: len,
                    available_len: (range.end - addr + 1) as u32,
                    bytes: bytes_at(self.bytes, addr, (range.end - addr + 1) as nat),
                    bounds: range,
                },
            ),
        }
    }

    /// Why a write of `len` bytes at `addr` from outside is refused, if it is.
    pub open spec fn write_refusal(self, addr: u32, len: u32) -> Option<AccessErrorModel> {
        let last = addr + (if len == 0 {
            0
        } else {
            len - 1
        });
        match self.bounds {
            None => Some(
                AccessErrorModel {
                    addr,
                    len,
                    bounds: None,
                    message: "memory is not initialized"@,
                },
            ),
            Some(range) if !range.has(addr) => Some(
                AccessErrorModel {
                    addr,
                    len,
                    bounds: Some(range),
                    message: out_of_bounds_text(addr, range),
                },
            ),
            Some(range) if last > u32::MAX => Some(
                AccessErrorModel {
                    addr,
                    len,
                    bounds: Some(range),
                    message: "address range overflows the 32-bit address space"@,
                },
            ),
            Some(range) if last > range.end => Some(
                AccessErrorModel {
                    addr,
                    len,
                    bounds: Some(range),
                    message: exceeds_text(addr, last as u32, range),
                },
            ),
            Some(range) => None,
        }
    }

    /// After a write of `data` at `addr` from outside.
    pub open spec fn write_external(self, addr: u32, data: Seq<u8>) -> MemoryModel {
        if self.write_refusal(addr, (data.len() % 0x1_0000_0000) as u32) is Some {
            self
        } else {
            self.write_raw(addr, data)
        }
    }

    /// After the addresses in use were filled by the generator that starts from `seed`.
    pub open spec fn randomize(self, seed: u64) -> MemoryModel {
        MemoryModel {
            bytes: match self.bounds {
                Some(range) => randomized(
                    self.bytes,
                    range.start as int,
                    range.end,
                    first_state(seed, range),
                ),
                None => self.bytes,
            },
            ..self
        }
    }

    /// After an access by a program.
    pub open spec fn accessed(self, addr: u32, request: RequestModel) -> MemoryModel {
        match request {
            RequestModel::Exec { size } => MemoryModel {
                caches: self.caches.read(addr, true),
                ..self
            },
            RequestModel::Load { size } => MemoryModel {
                caches: self.caches.read(addr, false),
                ..self
            },
            RequestModel::Store { bytes } => MemoryModel {
                caches: self.caches.stored(addr),
                ..self.write_raw(addr, bytes)
            },
        }
    }

    /// The bytes that an access by a program moves; `None` if one of those to be read was never
    /// written.
    pub open spec fn reply(self, addr: u32, request: RequestModel) -> Option<Seq<u8>> {
        match request {
            RequestModel::Exec { size } | RequestModel::Load { size } => if mapped(
                self.bytes,
                addr,
                size,
            ) {
                Some(bytes_at(self.bytes, addr, size as nat))
            } else {
                None
            },
            RequestModel::Store { bytes } => Some(bytes),
        }
    }

    /// The counters after an access by a program.
    pub open spec fn counted(
        self,
        addr: u32,
        request: RequestModel,
        before: StatsModel,
    ) -> StatsModel {
        let access = before.memory_access_count.wrapping_add(1);
        match request {
            RequestModel::Exec { size } => {
                let found = self.caches.found(addr, true);
                StatsModel {
                    memory_access_count: access,
                    instruction_fetches: before.instruction_fetches.wrapping_add(1),
                    cache_hits: cache::hits_after(before.cache_hits, true, found),
                    cycles: before.cycles.wrapping_add(self.caches.latency(found)),
                    ..before
                }
            },
            RequestModel::Load { size } => {
                let found = self.caches.found(addr, false);
                StatsModel {
                    memory_access_count: access,
                    data_loads: before.data_loads.wrapping_add(1),
                    cache_hits: cache::hits_after(before.cache_hits, false, found),
                    cycles: before.cycles.wrapping_add(self.caches.latency(found)),
                    ..before
                }
            },
            RequestModel::Store { bytes } => StatsModel {
                memory_access_count: access,
                data_stores: before.data_stores.wrapping_add(1),
                cycles: before.cycles.wrapping_add(self.caches.store_latency),
                ..before
            },
        }
    }
}

/// An access by a program, and where it goes.
#[verifier::ext_equal]
pub ghost struct AccessModel {
    pub addr: u32,
    pub request: RequestModel,
}

impl MemoryModel {
    /// What an access by a program costs.
    pub open spec fn access_cost(self, access: AccessModel) -> u64 {
        match access.request {
            RequestModel::Exec { .. } => self.caches.latency(self.caches.found(access.addr, true)),
            RequestModel::Load { .. } => self.caches.latency(self.caches.found(access.addr, false)),
            RequestModel::Store { .. } => self.caches.store_latency,
        }
    }

    /// After accesses by a program, one behind the other.
    pub open spec fn accessed_all(self, accesses: Seq<AccessModel>) -> MemoryModel
        decreases accesses.len(),
    {
        if accesses.len() == 0 {
            self
        } else {
            let last = accesses.last();
            self.accessed_all(accesses.drop_last()).accessed(last.addr, last.request)
        }
    }

    /// The counters after accesses by a program, one behind the other.
    pub open spec fn counted_all(
        self,
        accesses: Seq<AccessModel>,
        before: StatsModel,
    ) -> StatsModel
        decreases accesses.len(),
    {
        if accesses.len() == 0 {
            before
        } else {
            let front = accesses.drop_last();
            let last = accesses.last();
            self.accessed_all(front).counted(
                last.addr,
                last.request,
                self.counted_all(front, before),
            )
        }
    }

    /// What accesses by a program cost together, one behind the other.
    pub open spec fn cost_of_all(self, accesses: Seq<AccessModel>) -> nat
        decreases accesses.len(),
    {
        if accesses.len() == 0 {
            0
        } else {
            let front = accesses.drop_last();
            self.cost_of_all(front) + self.accessed_all(front).access_cost(accesses.last()) as nat
        }
    }
}

/// The low 32 bits of a length.
fn short_len(len: usize) -> (short: u32)
    ensures
        short == len as int % 0x1_0000_0000,
{
    (len as u64 % 0x1_0000_0000) as u32
}

/// Where random bytes start from at `nanos` nanoseconds after the start of 1970: the low 64 bits
/// of that number, or a fixed number if the clock is before that.
pub open spec fn seed_at(nanos: Option<u128>) -> u64 {
    match nanos {
        Some(n) => (n % 0x1_0000_0000_0000_0000) as u64,
        None => 0x9e37_79b9_7f4a_7c15,
    }
}

/// Where random bytes start from at `nanos` nanoseconds after the start of 1970.
pub fn seed_from(nanos: Option<u128>) -> (seed: u64)
    ensures
        seed == seed_at(nanos),
{
    match nanos {
        Some(n) => (n % 0x1_0000_0000_0000_0000) as u64,
        None => 0x9e37_79b9_7f4a_7c15,
    }
}

impl HecateMemory {
    pub fn new(options: VmRuntimeOptions, config: &SimConfig) -> (memory: Self)
        requires
            options.cache_line_size > 0,
        ensures
            memory@ == MemoryModel::fresh(options, config@),
    {
        HecateMemory {
            bytes: HashMap::new(),
            caches: CacheHierarchy::new(options, config),
            bounds: None,
        }
    }

    /// The memory of a dump, under the line size of `options` and the costs of `config`.
    pub fn from_dump(options: VmRuntimeOptions, dump: VmMemoryDump, config: &SimConfig) -> (memory:
        Self)
        ensures
            memory@ == (MemoryModel { caches: dump@.caches.retimed(options, config@), ..dump@ }),
    {
        let mut caches = dump.caches;
        caches.line_size = options.cache_line_size;
        caches.l1_latency = config.l1_latency;
        caches.l2_latency = config.l2_latency;
        caches.l3_latency = config.l3_latency;
        caches.memory_latency = config.memory_latency;
        caches.store_latency = config.store_latency;
        HecateMemory { bytes: dump.bytes, caches, bounds: dump.bounds }
    }

    pub fn reset_caches(&mut self, options: VmRuntimeOptions, config: &SimConfig)
        requires
            options.cache_line_size > 0,
        ensures
            final(self)@ == (MemoryModel {
                caches: CachesModel::fresh(options, config@),
                ..old(self)@
            }),
    {
        self.caches = CacheHierarchy::new(options, config);
    }

    pub fn clear_bytes(&mut self)
        ensures
            final(self)@ == (MemoryModel { bytes: Map::empty(), bounds: None, ..old(self)@ }),
    {
        self.bytes.clear();
        self.bounds = None;
    }

    pub fn update_bounds(&mut self, addr: u32, len: u32)
        ensures
            final(self)@ == (MemoryModel {
                bounds: bounds_with(old(self).bounds, addr, len),
                ..old(self)@
            }),
    {
        if len == 0 {
            return;
        }
        let updated = match self.bounds {
            Some(range) => {
                let mut range = range;
                range.expand_to_include(addr, len);
                range
            },
            None => MemoryBounds {
                start: addr,
                end: addr.saturating_add(len.saturating_sub(1)),
            },
        };
        self.bounds = Some(updated);
    }

    /// Writes `data` from `addr` on, past the caches.
    pub fn write_bytes_raw(&mut self, addr: u32, data: &[u8])
        ensures
            final(self)@ == old(self)@.write_raw(addr, data@),
    {
        self.update_bounds(addr, short_len(data.len()));
        let ghost before = self.bytes@;
        let mut next: usize = 0;
        let mut at: u32 = addr;
        assert(data@.take(0) == Seq::<u8>::empty());
        while next < data.len()
            invariant
                next <= data@.len(),
                at == wrap32(addr, next as int),
                self.bytes@ == written(before, addr, data@.take(next as int)),
                self.bounds == old(self)@.write_raw(addr, data@).bounds,
                self.caches@ == old(self).caches@,
            decreases data@.len() - next,
        {
            self.bytes.insert(at, data[next]);
            proof {
                let longer = data@.take(next + 1);
                assert(longer.drop_last() == data@.take(next as int));
            }
            at = at.wrapping_add(1);
            next = next + 1;
        }
        assert(data@.take(next as int) == data@);
    }

    /// Writes `len` zeros from `addr` on, past the caches.
    pub fn zero_fill(&mut self, addr: u32, len: u32)
        ensures
            final(self)@ == old(self)@.write_raw(addr, zeros(len)),
    {
        self.update_bounds(addr, len);
        let ghost before = self.bytes@;
        let mut next: u32 = 0;
        let mut at: u32 = addr;
        assert(zeros(0) == Seq::<u8>::empty());
        while next < len
            invariant
                next <= len,
                at == wrap32(addr, next as int),
                self.bytes@ == written(before, addr, zeros(next)),
                self.bounds == bounds_with(old(self).bounds, addr, len),
                self.caches@ == old(self).caches@,
            decreases len - next,
        {
            self.bytes.insert(at, 0);
            proof {
                let longer = zeros((next + 1) as u32);
                assert(longer.drop_last() == zeros(next));
            }
            at = at.wrapping_add(1);
            next = next + 1;
        }
    }

    /// Writes a zero at every address in use.
    pub fn zero_current_bounds(&mut self)
        ensures
            final(self)@ == old(self)@.zero(),
    {
        let Some(range) = self.bounds else {
            return;
        };
        let mut at: u64 = range.start as u64;
        while at <= range.end as u64
            invariant
                range.start <= at,
                at <= range.end + 1 || at == range.start,
                self.bounds == old(self).bounds,
                self.caches@ == old(self).caches@,
                forall|a: u32| #[trigger]
                    self.bytes@.contains_key(a) <==> old(self).bytes@.contains_key(a)
                        || range.start <= a < at,
                forall|a: u32| #[trigger]
                    self.bytes@.contains_key(a) ==> self.bytes@[a] == (if range.start <= a < at {
                        0
                    } else {
                        old(self).bytes@[a]
                    }),
            decreases range.end + 1 - at,
        {
            self.bytes.insert(at as u32, 0);
            at = at + 1;
        }
        assert(self.bytes@ == zeroed(old(self).bytes@, range));
    }

    /// Writes bytes of the generator that starts from `seed` at every address in use.
    pub fn randomize_from(&mut self, seed: u64)
        ensures
            final(self)@ == old(self)@.randomize(seed),
    {
        let Some(range) = self.bounds else {
            return;
        };
        let mut state: u64 = seed ^ ((range.start as u64) << 32u64) ^ range.end as u64;
        let mut at: u64 = range.start as u64;
        while at <= range.end as u64
            invariant
                range.start <= at,
                self.bounds == old(self).bounds,
                self.bounds == Some(range),
                self.caches@ == old(self).caches@,
                randomized(self.bytes@, at as int, range.end, state) == old(self)@.randomize(
                    seed,
                ).bytes,
            decreases range.end + 1 - at,
        {
            state = state ^ (state << 13u64);
            state = state ^ (state >> 7u64);
            state = state ^ (state << 17u64);
            self.bytes.insert(at as u32, (state % 256) as u8);
            at = at + 1;
        }
    }

    /// Writes bytes of a generator that starts from the time, `nanos` nanoseconds after the start
    /// of 1970, at every address in use; `None` stands for a clock before that.
    pub fn randomize_current_bounds(&mut self, nanos: Option<u128>)
        ensures
            final(self)@ == old(self)@.randomize(seed_at(nanos)),
    {
        self.randomize_from(seed_from(nanos));
    }

    /// `len` bytes from `addr` on; those that were never written read as zero.
    pub fn read_program_bytes(&self, addr: u32, len: u32) -> (bytes: Vec<u8>)
        ensures
            bytes@ == bytes_at(self.bytes@, addr, len as nat),
    {
        let mut bytes: Vec<u8> = Vec::new();
        let mut next: u32 = 0;
        let mut at: u32 = addr;
        while next < len
            invariant
                next <= len,
                at == wrap32(addr, next as int),
                bytes@ == bytes_at(self.bytes@, addr, next as nat),
            decreases len - next,
        {
            let byte: u8 = match self.bytes.get(&at) {
                Some(byte) => *byte,
                None => 0,
            };
            bytes.push(byte);
            at = at.wrapping_add(1);
            next = next + 1;
        }
        bytes
    }

    /// `size` bytes from `addr` on, if each of them was written.
    pub(crate) fn read_mapped(&self, addr: u32, size: u32) -> (bytes: Option<Vec<u8>>)
        ensures
            bytes is Some <==> mapped(self.bytes@, addr, size),
            bytes matches Some(read) ==> read@ == bytes_at(self.bytes@, addr, size as nat),
    {
        let mut bytes: Vec<u8> = Vec::new();
        let mut next: u32 = 0;
        let mut at: u32 = addr;
        while next < size
            invariant
                next <= size,
                at == wrap32(addr, next as int),
                mapped(self.bytes@, addr, next),
                bytes@ == bytes_at(self.bytes@, addr, next as nat),
            decreases size - next,
        {
            match self.bytes.get(&at) {
                Some(byte) => bytes.push(*byte),
                None => return None,
            }
            at = at.wrapping_add(1);
            next = next + 1;
        }
        Some(bytes)
    }

    /// Reads `len` bytes at `addr` from outside the machine, as far as they are in use.
    pub fn read_external(&self, addr: u32, len: u32) -> (result: Result<
        MemoryReadResult,
        MemoryAccessError,
    >)
        ensures
            match result {
                Ok(read) => self@.read_external(addr, len) == Ok::<
                    ReadModel,
                    AccessErrorModel,
                >(read@),
                Err(error) => self@.read_external(addr, len) == Err::<
                    ReadModel,
                    AccessErrorModel,
                >(error@),
            },
    {
        let Some(range) = self.bounds else {
            return Err(
                MemoryAccessError {
                    addr,
                    len,
                    bounds: None,
                    message: "memory is not initialized".to_owned(),
                },
            );
        };
        if !range.contains(addr) {
            return Err(
                MemoryAccessError {
                    addr,
                    len,
                    bounds: Some(range),
                    message: out_of_bounds_message(addr, range),
                },
            );
        }
        let reachable: u32 = range.available_from(addr);
        let available_len: u32 = if len < reachable {
            len
        } else {
            reachable
        };
        let bytes = self.read_program_bytes(addr, available_len);
        if available_len == len {
            Ok(MemoryReadResult::Full { addr, len, bytes })
        } else {
            Ok(
                MemoryReadResult::Partial {
                    addr,
                    requested_len: len,
                    available_len,
                    bytes,
                    bounds: range,
                },
            )
        }
    }

    /// Writes `data` at `addr` from outside the machine, if all of it is in use.
    pub fn write_external(&mut self, addr: u32, data: &[u8]) -> (result: Result<
        (),
        MemoryAccessError,
    >)
        ensures
            final(self)@ == old(self)@.write_external(addr, data@),
            match result {
                Ok(()) => old(self)@.write_refusal(
                    addr,
                    (data@.len() % 0x1_0000_0000) as u32,
                ) is None,
                Err(error) => old(self)@.write_refusal(
                    addr,
                    (data@.len() % 0x1_0000_0000) as u32,
                ) == Some(error@),
            },
    {
        let len: u32 = short_len(data.len());
        let Some(range) = self.bounds else {
            return Err(
                MemoryAccessError {
                    addr,
                    len,
                    bounds: None,
                    message: "memory is not initialized".to_owned(),
                },
            );
        };
        if !range.contains(addr) {
            return Err(
                MemoryAccessError {
                    addr,
                    len,
                    bounds: Some(range),
                    message: out_of_bounds_message(addr, range),
                },
            );
        }
        let Some(end) = addr.checked_add(len.saturating_sub(1)) else {
            return Err(
                MemoryAccessError {
                    addr,
                    len,
                    bounds: Some(range),
                    message: "address range overflows the 32-bit address space".to_owned(),
                },
            );
        };
        if end > range.end {
            return Err(
                MemoryAccessError {
                    addr,
                    len,
                    bounds: Some(range),
                    message: exceeds_message(addr, end, range),
                },
            );
        }
        self.write_bytes_raw(addr, data);
        Ok(())
    }

    /// A copy of the memory.
    pub fn dump(&self) -> (dump: VmMemoryDump)
        ensures
            dump@ == self@,
    {
        VmMemoryDump {
            bytes: self.bytes.clone(),
            bounds: self.bounds,
            caches: self.caches.clone(),
        }
    }

    /// Serves an access by a program, through the caches, and counts it.
    pub fn access(&mut self, addr: u32, request: MemoryRequest, stats: &mut RunStats) -> (reply:
        Option<Vec<u8>>)
        requires
            old(self).caches.line_size > 0,
        ensures
            reply is Some <==> old(self)@.reply(addr, request@) is Some,
            reply matches Some(bytes) ==> old(self)@.reply(addr, request@) == Some(bytes@),
            final(self)@ == old(self)@.accessed(addr, request@),
            final(stats)@ == old(self)@.counted(addr, request@, old(stats)@),
    {
        match request {
            MemoryRequest::Exec { size } => {
                self.charge_fetch(addr, size, stats);
                self.read_mapped(addr, size)
            },
            MemoryRequest::Load { size } => {
                self.charge_load(addr, size, stats);
                self.read_mapped(addr, size)
            },
            MemoryRequest::Store { bytes } => {
                self.store(addr, bytes.as_slice(), stats);
                Some(bytes)
            },
        }
    }

    fn charge_fetch(&mut self, addr: u32, size: u32, stats: &mut RunStats)
        requires
            old(self).caches.line_size > 0,
        ensures
            final(self)@ == old(self)@.accessed(addr, RequestModel::Exec { size }),
            final(stats)@ == old(self)@.counted(addr, RequestModel::Exec { size }, old(stats)@),
    {
        stats.memory_access_count = stats.memory_access_count.wrapping_add(1);
        stats.instruction_fetches = stats.instruction_fetches.wrapping_add(1);
        let cost: u64 = self.caches.read_cost(addr, true, stats);
        stats.cycles = stats.cycles.wrapping_add(cost);
    }

    fn charge_load(&mut self, addr: u32, size: u32, stats: &mut RunStats)
        requires
            old(self).caches.line_size > 0,
        ensures
            final(self)@ == old(self)@.accessed(addr, RequestModel::Load { size }),
            final(stats)@ == old(self)@.counted(addr, RequestModel::Load { size }, old(stats)@),
    {
        stats.memory_access_count = stats.memory_access_count.wrapping_add(1);
        stats.data_loads = stats.data_loads.wrapping_add(1);
        let cost: u64 = self.caches.read_cost(addr, false, stats);
        stats.cycles = stats.cycles.wrapping_add(cost);
    }

    fn store(&mut self, addr: u32, bytes: &[u8], stats: &mut RunStats)
        requires
            old(self).caches.line_size > 0,
        ensures
            final(self)@ == old(self)@.accessed(addr, RequestModel::Store { bytes: bytes@ }),
            final(stats)@ == old(self)@.counted(
                addr,
                RequestModel::Store { bytes: bytes@ },
                old(stats)@,
            ),
    {
        stats.memory_access_count = stats.memory_access_count.wrapping_add(1);
        stats.data_stores = stats.data_stores.wrapping_add(1);
        let cost: u64 = self.caches.store_cost(addr);
        stats.cycles = stats.cycles.wrapping_add(cost);
        self.write_bytes_raw(addr, bytes);
    }
}

fn out_of_bounds_message(addr: u32, range: MemoryBounds) -> (message: String)
    ensures
        message@ == out_of_bounds_text(addr, range),
{
    "address 0x".to_owned().concat(text::to_hex_padded(addr, 8).as_str()).concat(
        " is out of bounds (valid range 0x",
    ).concat(text::to_hex_padded(range.start, 8).as_str()).concat("..=0x").concat(
        text::to_hex_padded(range.end, 8).as_str(),
    ).concat(")")
}

fn exceeds_message(addr: u32, end: u32, range: MemoryBounds) -> (message: String)
    ensures
        message@ == exceeds_text(addr, end, range),
{
    "write range 0x".to_owned().concat(text::to_hex_padded(addr, 8).as_str()).concat(
        "..=0x",
    ).concat(text::to_hex_padded(end, 8).as_str()).concat(" exceeds bounds 0x").concat(
        text::to_hex_padded(range.start, 8).as_str(),
    ).concat("..=0x").concat(text::to_hex_padded(range.end, 8).as_str())
}

/// Two offsets less than the whole address space apart lead to the same address only if they
/// are equal.
pub proof fn lemma_wrap_apart(addr: u32, i: int, j: int)
    requires
        0 <= i < 0x1_0000_0000,
        0 <= j < 0x1_0000_0000,
        wrap32(addr, i) == wrap32(addr, j),
    ensures
        i == j,
{
}

/// Writing puts each byte of `data` at its address, and leaves every other address as it was.
pub proof fn law_written(bytes: Map<u32, u8>, addr: u32, data: Seq<u8>)
    requires
        data.len() <= 0x1_0000_0000,
    ensures
        forall|i: int|
            #![trigger wrap32(addr, i)]
            0 <= i < data.len() ==> {
                &&& written(bytes, addr, data).contains_key(wrap32(addr, i))
                &&& written(bytes, addr, data)[wrap32(addr, i)] == data[i]
            },
        forall|a: u32|
            (forall|i: int| 0 <= i < data.len() ==> #[trigger] wrap32(addr, i) != a) ==> {
                &&& #[trigger] written(bytes, addr, data).contains_key(a) == bytes.contains_key(a)
                &&& written(bytes, addr, data)[a] == bytes[a]
            },
    decreases data.len(),
{
    if data.len() > 0 {
        let shorter = data.drop_last();
        let n = data.len() - 1;
        law_written(bytes, addr, shorter);
        let before = written(bytes, addr, shorter);
        let after = written(bytes, addr, data);
        assert(after == before.insert(wrap32(addr, n), data[n]));
        assert forall|i: int| #![trigger wrap32(addr, i)] 0 <= i < data.len() implies
            after.contains_key(wrap32(addr, i)) && after[wrap32(addr, i)] == data[i] by {
            if i < n {
                assert(before.contains_key(wrap32(addr, i)) && before[wrap32(addr, i)]
                    == shorter[i]);
                if wrap32(addr, i) == wrap32(addr, n) {
                    lemma_wrap_apart(addr, i, n);
                }
            }
        }
        assert forall|a: u32|
            (forall|i: int| 0 <= i < data.len() ==> #[trigger] wrap32(addr, i) != a) implies (
        #[trigger] after.contains_key(a) == bytes.contains_key(a) && after[a] == bytes[a]) by {
            assert(wrap32(addr, n) != a);
            assert forall|i: int| 0 <= i < shorter.len() implies #[trigger] wrap32(addr, i)
                != a by {}
            assert(before.contains_key(a) == bytes.contains_key(a));
        }
    }
}

/// Going on from an address is going further from where that address was counted.
pub proof fn lemma_wrap_twice(addr: u32, i: int, j: int)
    ensures
        wrap32(wrap32(addr, i), j) == wrap32(addr, i + j),
        wrap32(addr, i + 0x1_0000_0000) == wrap32(addr, i),
{
}

/// What writing does to one address that it reaches.
pub proof fn lemma_written_at(bytes: Map<u32, u8>, addr: u32, data: Seq<u8>, i: int)
    requires
        data.len() <= 0x1_0000_0000,
        0 <= i < data.len(),
    ensures
        written(bytes, addr, data).contains_key(wrap32(addr, i)),
        written(bytes, addr, data)[wrap32(addr, i)] == data[i],
{
    law_written(bytes, addr, data);
}

/// What writing does to the address `k` bytes from its start, which it does not reach.
pub proof fn lemma_written_beside(bytes: Map<u32, u8>, addr: u32, data: Seq<u8>, k: int)
    requires
        data.len() <= k < 0x1_0000_0000,
    ensures
        written(bytes, addr, data).contains_key(wrap32(addr, k)) == bytes.contains_key(
            wrap32(addr, k),
        ),
        written(bytes, addr, data)[wrap32(addr, k)] == bytes[wrap32(addr, k)],
{
    law_written(bytes, addr, data);
    let a = wrap32(addr, k);
    assert forall|i: int| 0 <= i < data.len() implies #[trigger] wrap32(addr, i) != a by {
        if wrap32(addr, i) == a {
            lemma_wrap_apart(addr, i, k);
        }
    }
    assert(written(bytes, addr, data).contains_key(a) == bytes.contains_key(a));
}

/// Reading gives back what was written.
pub proof fn law_read_back(bytes: Map<u32, u8>, addr: u32, data: Seq<u8>)
    requires
        data.len() <= 0x1_0000_0000,
    ensures
        bytes_at(written(bytes, addr, data), addr, data.len()) == data,
{
    law_written(bytes, addr, data);
    assert forall|i: int| 0 <= i < data.len() implies bytes_at(
        written(bytes, addr, data),
        addr,
        data.len(),
    )[i] == data[i] by {
        assert(written(bytes, addr, data)[wrap32(addr, i)] == data[i]);
    }
}

/// A write from outside that is not refused can be read back in full, and leaves the range in
/// use as it was.
pub proof fn law_read_after_write(memory: MemoryModel, addr: u32, data: Seq<u8>)
    requires
        data.len() <= u32::MAX,
        memory.write_refusal(addr, data.len() as u32) is None,
    ensures
        memory.write_external(addr, data).read_external(addr, data.len() as u32) == Ok::<
            ReadModel,
            AccessErrorModel,
        >(ReadModel::Full { addr, len: data.len() as u32, bytes: data }),
        memory.write_external(addr, data).bounds == memory.bounds,
        memory.write_external(addr, data).caches == memory.caches,
{
    law_read_back(memory.bytes, addr, data);
}

/// A write from outside that is refused changes nothing.
pub proof fn law_refused_write(memory: MemoryModel, addr: u32, data: Seq<u8>)
    requires
        memory.write_refusal(addr, (data.len() % 0x1_0000_0000) as u32) is Some,
    ensures
        memory.write_external(addr, data) == memory,
{
}

/// A read from outside never reaches past the range in use, and gives what a program would
/// read there.
pub proof fn law_read_clipped(memory: MemoryModel, addr: u32, len: u32)
    ensures
        match memory.read_external(addr, len) {
            Ok(ReadModel::Full { addr: at, len: n, bytes }) => {
                &&& at == addr && n == len
                &&& memory.bounds matches Some(range) && range.has(addr) && addr + len <= range.end
                    + 1
                &&& bytes == bytes_at(memory.bytes, addr, len as nat)
            },
            Ok(ReadModel::Partial { addr: at, requested_len, available_len, bytes, bounds }) => {
                &&& at == addr && requested_len == len && memory.bounds == Some(bounds)
                &&& addr + available_len == bounds.end + 1
                &&& available_len < len
                &&& bytes == bytes_at(memory.bytes, addr, available_len as nat)
            },
            Err(error) => match memory.bounds {
                Some(range) => !range.has(addr),
                None => true,
            },
        },
{
}

/// What a program stores it can load again, at the same address and of the same size.
pub proof fn law_load_after_store(memory: MemoryModel, addr: u32, bytes: Seq<u8>)
    requires
        bytes.len() <= u32::MAX,
    ensures
        memory.accessed(addr, RequestModel::Store { bytes }).reply(
            addr,
            RequestModel::Load { size: bytes.len() as u32 },
        ) == Some(bytes),
{
    law_written(memory.bytes, addr, bytes);
    law_read_back(memory.bytes, addr, bytes);
}

/// Fetches and loads change neither bytes nor range.
pub proof fn law_reads_change_no_bytes(memory: MemoryModel, addr: u32, size: u32)
    ensures
        memory.accessed(addr, RequestModel::Exec { size }).bytes == memory.bytes,
        memory.accessed(addr, RequestModel::Exec { size }).bounds == memory.bounds,
        memory.accessed(addr, RequestModel::Load { size }).bytes == memory.bytes,
        memory.accessed(addr, RequestModel::Load { size }).bounds == memory.bounds,
{
}

/// Whether the accesses that were counted are the fetches, loads and stores that were counted.
pub open spec fn accesses_add_up(counters: StatsModel) -> bool {
    counters.memory_access_count == counters.instruction_fetches.wrapping_add(
        counters.data_loads,
    ).wrapping_add(counters.data_stores)
}

/// Every access counts once, whether a cache answers it or not, and keeps the sum of fetches,
/// loads and stores; its cost is added to the cycles.
pub proof fn law_every_access_counts(
    memory: MemoryModel,
    addr: u32,
    request: RequestModel,
    counters: StatsModel,
)
    ensures
        ({
            let after = memory.counted(addr, request, counters);
            &&& after.memory_access_count == counters.memory_access_count.wrapping_add(1)
            &&& accesses_add_up(counters) ==> accesses_add_up(after)
            &&& after.cycles == counters.cycles.wrapping_add(
                match request {
                    RequestModel::Exec { .. } => memory.caches.latency(
                        memory.caches.found(addr, true),
                    ),
                    RequestModel::Load { .. } => memory.caches.latency(
                        memory.caches.found(addr, false),
                    ),
                    RequestModel::Store { .. } => memory.caches.store_latency,
                },
            )
            &&& after.instret == counters.instret
        }),
{
}

/// Accesses add what they cost to the cycles, and count each once; nothing else is counted.
pub proof fn law_accesses_cost(memory: MemoryModel, accesses: Seq<AccessModel>, before: StatsModel)
    ensures
        ({
            let after = memory.counted_all(accesses, before);
            &&& after.cycles == (before.cycles + memory.cost_of_all(accesses)) % stats::turn()
            &&& after.memory_access_count == (before.memory_access_count + accesses.len())
                % stats::turn()
            &&& accesses_add_up(before) ==> accesses_add_up(after)
            &&& after.instret == before.instret
            &&& after.syscall_count == before.syscall_count
            &&& after.syscall_cycles == before.syscall_cycles
            &&& after.syscall_hits == before.syscall_hits
            &&& after.syscall_cycle_totals == before.syscall_cycle_totals
            &&& after.io_bytes_written == before.io_bytes_written
            &&& after.io_cycles == before.io_cycles
        }),
    decreases accesses.len(),
{
    if accesses.len() > 0 {
        let front = accesses.drop_last();
        let last = accesses.last();
        law_accesses_cost(memory, front, before);
        law_every_access_counts(
            memory.accessed_all(front),
            last.addr,
            last.request,
            memory.counted_all(front, before),
        );
        let so_far = memory.counted_all(front, before);
        let cost = memory.accessed_all(front).access_cost(last);
        stats::lemma_wraps_to_turns(so_far.cycles, cost);
        stats::lemma_adds_up_to_turns(
            before.cycles + memory.cost_of_all(front),
            so_far.cycles as int,
            cost as int,
        );
        stats::lemma_wraps_to_turns(so_far.memory_access_count, 1);
        stats::lemma_adds_up_to_turns(
            before.memory_access_count + front.len(),
            so_far.memory_access_count as int,
            1,
        );
    }
}

/// Accesses behind others go on where those ended.
pub proof fn lemma_accesses_join(
    memory: MemoryModel,
    first: Seq<AccessModel>,
    second: Seq<AccessModel>,
)
    ensures
        memory.accessed_all(first + second) == memory.accessed_all(first).accessed_all(second),
        memory.cost_of_all(first + second) == memory.cost_of_all(first) + memory.accessed_all(
            first,
        ).cost_of_all(second),
    decreases second.len(),
{
    if second.len() == 0 {
        assert(first + second == first);
    } else {
        assert((first + second).drop_last() == first + second.drop_last());
        lemma_accesses_join(memory, first, second.drop_last());
    }
}

/// Filling the range in use with random bytes gives every address in it a byte, and leaves
/// every other address as it was.
pub proof fn law_randomized(bytes: Map<u32, u8>, addr: int, end: u32, state: u64)
    requires
        0 <= addr,
    ensures
        forall|a: u32| #[trigger]
            randomized(bytes, addr, end, state).contains_key(a) <==> bytes.contains_key(a) || addr
                <= a <= end,
        forall|a: u32|
            !(addr <= a <= end) ==> #[trigger] randomized(bytes, addr, end, state)[a] == bytes[a],
    decreases end + 1 - addr,
{
    if addr <= end {
        let next = xorshift(state);
        let first = bytes.insert(addr as u32, (next % 256) as u8);
        law_randomized(first, addr + 1, end, next);
        let after = randomized(bytes, addr, end, state);
        assert(after == randomized(first, addr + 1, end, next));
        assert forall|a: u32| #[trigger] after.contains_key(a) <==> bytes.contains_key(a) || addr
            <= a <= end by {
            assert(first.contains_key(a) <==> bytes.contains_key(a) || a == addr);
        }
        assert forall|a: u32| !(addr <= a <= end) implies #[trigger] after[a] == bytes[a] by {
            assert(first[a] == bytes[a]);
        }
    }
}

/// Zeroing the range in use makes every address in it read as zero, and leaves every other
/// address as it was.
pub proof fn law_zeroed(bytes: Map<u32, u8>, range: MemoryBounds, addr: u32)
    ensures
        range.has(addr) ==> zeroed(bytes, range).contains_key(addr) && zeroed(bytes, range)[addr]
            == 0,
        !range.has(addr) ==> zeroed(bytes, range).contains_key(addr) == bytes.contains_key(addr)
            && (bytes.contains_key(addr) ==> zeroed(bytes, range)[addr] == bytes[addr]),
{
}

/// Addresses count up from where they start, and from zero again behind the last one.
pub proof fn law_addresses(addr: u32, offset: int)
    requires
        0 <= offset < 0x1_0000_0000,
    ensures
        addr + offset <= u32::MAX ==> wrap32(addr, offset) == addr + offset,
        addr + offset > u32::MAX ==> wrap32(addr, offset) == addr + offset - 0x1_0000_0000,
{
}

/// The range in use after some bytes were used is the smallest one that has them, up to the last
/// address there is, and what was in use before; no bytes change nothing.
pub proof fn law_range_in_use(bounds: Option<MemoryBounds>, addr: u32, len: u32)
    ensures
        len == 0 ==> bounds_with(bounds, addr, len) == bounds,
        len > 0 ==> (bounds_with(bounds, addr, len) matches Some(after) && ({
            let last = addr + len - 1;
            &&& after.start <= addr <= after.end
            &&& last <= u32::MAX ==> last <= after.end
            &&& last > u32::MAX ==> after.end == u32::MAX
            &&& bounds matches Some(before) ==> after.start <= before.start && before.end
                <= after.end
            &&& after.start == addr || (bounds matches Some(before) && after.start
                == before.start)
            &&& after.end == last || (last > u32::MAX && after.end == u32::MAX) || (
            bounds matches Some(before) && after.end == before.end)
            &&& bounds is None ==> after.start == addr
            &&& bounds is None && last <= u32::MAX ==> after.end == last
            &&& bounds is None && last > u32::MAX ==> after.end == u32::MAX
        })),
        forall|range: MemoryBounds, a: u32|
            #![trigger range.has(a)]
            range.has(a) <==> range.start <= a && a <= range.end,
{
}

/// Growing a range by no bytes at an address still takes that address in.
pub proof fn law_range_grows(range: MemoryBounds, addr: u32, len: u32)
    ensures
        ({
            let after = range.expanded(addr, len);
            let last = if len == 0 {
                addr as int
            } else {
                addr + len - 1
            };
            &&& after.start <= addr && after.start <= range.start
            &&& after.start == addr || after.start == range.start
            &&& after.end >= range.end
            &&& last <= u32::MAX ==> after.end >= last && (after.end == last || after.end
                == range.end)
            &&& last > u32::MAX ==> after.end == u32::MAX
        }),
{
}

/// Reading gives what stands at each address, counted up from the first; what was never written
/// reads as zero.
pub proof fn law_bytes_read(bytes: Map<u32, u8>, addr: u32, len: nat, i: int)
    requires
        0 <= i < len <= 0x1_0000_0000,
    ensures
        bytes_at(bytes, addr, len).len() == len,
        addr + i <= u32::MAX && bytes.contains_key((addr + i) as u32) ==> bytes_at(
            bytes,
            addr,
            len,
        )[i] == bytes[(addr + i) as u32],
        addr + i <= u32::MAX && !bytes.contains_key((addr + i) as u32) ==> bytes_at(
            bytes,
            addr,
            len,
        )[i] == 0,
{
}

/// When a read from outside is refused, and in which words: nothing is in use, or the address is
/// not. Otherwise it is answered, in full if the bytes asked for are in use.
pub proof fn law_refused_reads(memory: MemoryModel, addr: u32, len: u32)
    ensures
        memory.bounds is None ==> memory.read_external(addr, len) == Err::<
            ReadModel,
            AccessErrorModel,
        >(
            AccessErrorModel {
                addr,
                len,
                bounds: None,
                message: "memory is not initialized"@,
            },
        ),
        memory.bounds matches Some(range) ==> (addr < range.start || addr > range.end
            ==> memory.read_external(addr, len) == Err::<ReadModel, AccessErrorModel>(
            AccessErrorModel {
                addr,
                len,
                bounds: Some(range),
                message: "address 0x"@ + text::hex_padded(addr as nat, 8)
                    + " is out of bounds (valid range 0x"@ + text::hex_padded(
                    range.start as nat,
                    8,
                ) + "..=0x"@ + text::hex_padded(range.end as nat, 8) + ")"@,
            },
        )),
        memory.bounds matches Some(range) ==> (range.start <= addr <= range.end && addr + len - 1
            <= range.end ==> memory.read_external(addr, len) is Ok && memory.read_external(
            addr,
            len,
        )->Ok_0 is Full),
        memory.bounds matches Some(range) ==> (range.start <= addr <= range.end && addr + len - 1
            > range.end ==> memory.read_external(addr, len) is Ok && memory.read_external(
            addr,
            len,
        )->Ok_0 is Partial),
{
}

/// When a write from outside is refused, and in which words: nothing is in use, or the first
/// address is not, or there is no such last address, or the last address is not in use.
/// Otherwise it is not refused.
pub proof fn law_refused_writes(memory: MemoryModel, addr: u32, len: u32)
    ensures
        ({
            let refusal = memory.write_refusal(addr, len);
            let last = if len == 0 {
                addr as int
            } else {
                addr + len - 1
            };
            &&& refusal matches Some(error) ==> error.addr == addr && error.len == len
                && error.bounds == memory.bounds
            &&& memory.bounds is None ==> refusal is Some && refusal->0.message
                == "memory is not initialized"@
            &&& memory.bounds matches Some(range) ==> {
                &&& addr < range.start || addr > range.end ==> refusal is Some
                    && refusal->0.message == "address 0x"@ + text::hex_padded(addr as nat, 8)
                    + " is out of bounds (valid range 0x"@ + text::hex_padded(
                    range.start as nat,
                    8,
                ) + "..=0x"@ + text::hex_padded(range.end as nat, 8) + ")"@
                &&& range.start <= addr <= range.end && last > u32::MAX ==> refusal is Some
                    && refusal->0.message == "address range overflows the 32-bit address space"@
                &&& range.start <= addr <= range.end < last <= u32::MAX ==> refusal is Some
                    && refusal->0.message == "write range 0x"@ + text::hex_padded(addr as nat, 8)
                    + "..=0x"@ + text::hex_padded(last as nat, 8) + " exceeds bounds 0x"@
                    + text::hex_padded(range.start as nat, 8) + "..=0x"@ + text::hex_padded(
                    range.end as nat,
                    8,
                )
                &&& range.start <= addr && last <= range.end ==> refusal is None
            }
        }),
{
}

/// A fetch or a load is answered if and only if each of its bytes was written once, with those
/// bytes; a store always is.
pub proof fn law_replies(memory: MemoryModel, addr: u32, size: u32, bytes: Seq<u8>)
    ensures
        memory.reply(addr, RequestModel::Load { size }) == memory.reply(
            addr,
            RequestModel::Exec { size },
        ),
        memory.reply(addr, RequestModel::Load { size }) is Some <==> forall|i: int|
            0 <= i < size ==> memory.bytes.contains_key(#[trigger] wrap32(addr, i)),
        memory.reply(addr, RequestModel::Load { size }) matches Some(found) ==> found.len() == size
            && forall|i: int|
            0 <= i < size ==> found[i] == memory.bytes[#[trigger] wrap32(addr, i)],
        memory.reply(addr, RequestModel::Store { bytes }) == Some(bytes),
{
    if memory.reply(addr, RequestModel::Load { size }) is Some {
        let found = memory.reply(addr, RequestModel::Load { size })->0;
        assert forall|i: int| 0 <= i < size implies found[i] == memory.bytes[#[trigger] wrap32(
            addr,
            i,
        )] by {}
    }
}

/// A fetch is counted as a fetch, a load as a load and a store as a store, and each as nothing
/// else. A fetch or a load counts as a hit of the cache that answers it; a store counts as none.
/// A fetch or a load costs what that cache costs, and a store what stores cost.
pub proof fn law_accesses_are_counted_apart(
    memory: MemoryModel,
    addr: u32,
    size: u32,
    bytes: Seq<u8>,
    before: StatsModel,
)
    requires
        before.instruction_fetches < u64::MAX,
        before.data_loads < u64::MAX,
        before.data_stores < u64::MAX,
        before.memory_access_count < u64::MAX,
    ensures
        ({
            let fetched = memory.counted(addr, RequestModel::Exec { size }, before);
            let loaded = memory.counted(addr, RequestModel::Load { size }, before);
            let stored = memory.counted(addr, RequestModel::Store { bytes }, before);
            let line = addr / memory.caches.line_size;
            &&& fetched.instruction_fetches == before.instruction_fetches + 1
            &&& fetched.data_loads == before.data_loads
            &&& fetched.data_stores == before.data_stores
            &&& loaded.data_loads == before.data_loads + 1
            &&& loaded.instruction_fetches == before.instruction_fetches
            &&& loaded.data_stores == before.data_stores
            &&& stored.data_stores == before.data_stores + 1
            &&& stored.instruction_fetches == before.instruction_fetches
            &&& stored.data_loads == before.data_loads
            &&& fetched.memory_access_count == before.memory_access_count + 1
            &&& loaded.memory_access_count == before.memory_access_count + 1
            &&& stored.memory_access_count == before.memory_access_count + 1
            &&& stored.cache_hits == before.cache_hits
            &&& fetched.cache_hits == cache::hits_after(
                before.cache_hits,
                true,
                memory.caches.found(addr, true),
            )
            &&& loaded.cache_hits == cache::hits_after(
                before.cache_hits,
                false,
                memory.caches.found(addr, false),
            )
            &&& memory.caches.l1i.held.contains(line) ==> fetched.cycles
                == before.cycles.wrapping_add(memory.caches.l1_latency)
            &&& memory.caches.l1d.held.contains(line) ==> loaded.cycles
                == before.cycles.wrapping_add(memory.caches.l1_latency)
            &&& stored.cycles == before.cycles.wrapping_add(memory.caches.store_latency)
        }),
{
}

/// A fetch goes through the instruction cache, a load through the data cache, and a store into
/// every level of data, in memory and into the range in use.
pub proof fn law_accesses_go_through_caches(
    memory: MemoryModel,
    addr: u32,
    size: u32,
    bytes: Seq<u8>,
)
    requires
        bytes.len() <= u32::MAX,
    ensures
        memory.accessed(addr, RequestModel::Exec { size }).caches == memory.caches.read(addr, true),
        memory.accessed(addr, RequestModel::Load { size }).caches == memory.caches.read(addr, false),
        memory.accessed(addr, RequestModel::Store { bytes }).caches == memory.caches.stored(addr),
        memory.accessed(addr, RequestModel::Store { bytes }).bytes == written(
            memory.bytes,
            addr,
            bytes,
        ),
        memory.accessed(addr, RequestModel::Store { bytes }).bounds == bounds_with(
            memory.bounds,
            addr,
            bytes.len() as u32,
        ),
{
}

/// A write that is not refused writes its bytes, and nothing to the caches.
pub proof fn law_accepted_write(memory: MemoryModel, addr: u32, data: Seq<u8>)
    requires
        data.len() <= u32::MAX,
        memory.write_refusal(addr, data.len() as u32) is None,
    ensures
        memory.write_external(addr, data).bytes == written(memory.bytes, addr, data),
        memory.write_external(addr, data).caches == memory.caches,
{
}

/// Each address of the range in use gets the low byte of a state of the generator, from the first
/// address on; a state comes from the one before it by three shifts, and the first one from the
/// seed and both ends of the range.
pub proof fn law_random_bytes(bytes: Map<u32, u8>, addr: u32, end: u32, state: u64)
    requires
        addr <= end,
    ensures
        ({
            let a = state ^ (state << 13);
            let b = a ^ (a >> 7);
            let next = b ^ (b << 17);
            let after = randomized(bytes, addr as int, end, state);
            &&& after[addr] == next % 256
            &&& forall|at: u32|
                addr < at <= end ==> #[trigger] after[at] == randomized(
                    bytes,
                    addr + 1,
                    end,
                    next,
                )[at]
        }),
        forall|seed: u64, range: MemoryBounds| #[trigger]
            first_state(seed, range) == seed ^ ((range.start as u64) << 32) ^ (range.end as u64),
{
    let next = xorshift(state);
    let first = bytes.insert(addr, (next % 256) as u8);
    law_randomized(first, addr + 1, end, next);
    let after = randomized(bytes, addr as int, end, state);
    assert(after == randomized(first, addr + 1, end, next));
    assert(after[addr] == first[addr]);
    assert forall|at: u32| addr < at <= end implies #[trigger] after[at] == randomized(
        bytes,
        addr + 1,
        end,
        next,
    )[at] by {
        lemma_random_alike(first, bytes, addr + 1, end, next, at);
    }
}

/// The bytes that the generator gives do not depend on what was there.
proof fn lemma_random_alike(
    one: Map<u32, u8>,
    two: Map<u32, u8>,
    addr: int,
    end: u32,
    state: u64,
    at: u32,
)
    requires
        0 <= addr <= at <= end,
    ensures
        randomized(one, addr, end, state)[at] == randomized(two, addr, end, state)[at],
    decreases end - addr,
{
    let next = xorshift(state);
    let byte = (next % 256) as u8;
    let a = one.insert(addr as u32, byte);
    let b = two.insert(addr as u32, byte);
    assert(randomized(one, addr, end, state) == randomized(a, addr + 1, end, next));
    assert(randomized(two, addr, end, state) == randomized(b, addr + 1, end, next));
    if addr == at {
        law_randomized(a, addr + 1, end, next);
        law_randomized(b, addr + 1, end, next);
    } else {
        lemma_random_alike(a, b, addr + 1, end, next, at);
    }
}

/// Filling memory at random or with zeros reaches the range in use, from its start to its end, and
/// leaves range and caches as they are; where nothing is in use it does nothing.
pub proof fn law_filled_range(memory: MemoryModel, seed: u64, addr: u32)
    ensures
        memory.zero().bounds == memory.bounds && memory.zero().caches == memory.caches,
        memory.randomize(seed).bounds == memory.bounds && memory.randomize(seed).caches
            == memory.caches,
        memory.bounds is None ==> memory.zero() == memory && memory.randomize(seed) == memory,
        memory.bounds matches Some(range) ==> memory.randomize(seed).bytes == randomized(
            memory.bytes,
            range.start as int,
            range.end,
            first_state(seed, range),
        ),
        memory.bounds matches Some(range) ==> (range.start <= addr <= range.end
            ==> memory.zero().bytes.contains_key(addr) && memory.zero().bytes[addr] == 0),
        memory.bounds matches Some(range) ==> (!(range.start <= addr <= range.end)
            ==> memory.zero().bytes.contains_key(addr) == memory.bytes.contains_key(addr) && (
        memory.bytes.contains_key(addr) ==> memory.zero().bytes[addr] == memory.bytes[addr])),
{
}

/// Random bytes start from the low 64 bits of the time, and from a fixed number without one.
pub proof fn law_seeds(nanos: u128)
    ensures
        nanos <= u64::MAX ==> seed_at(Some(nanos)) == nanos,
        nanos > u64::MAX ==> seed_at(Some(nanos)) == seed_at(
            Some((nanos - 0x1_0000_0000_0000_0000) as u128),
        ),
        seed_at(None) == 0x9e37_79b9_7f4a_7c15,
{
}

/// Several accesses do what one after the other does, and count and cost what they do together.
pub proof fn law_accesses_one_by_one(
    memory: MemoryModel,
    accesses: Seq<AccessModel>,
    next: AccessModel,
    before: StatsModel,
)
    ensures
        memory.accessed_all(accesses.push(next)) == memory.accessed_all(accesses).accessed(
            next.addr,
            next.request,
        ),
        memory.counted_all(accesses.push(next), before) == memory.accessed_all(accesses).counted(
            next.addr,
            next.request,
            memory.counted_all(accesses, before),
        ),
        memory.cost_of_all(accesses.push(next)) == memory.cost_of_all(accesses)
            + memory.accessed_all(accesses).access_cost(next),
        memory.accessed_all(Seq::empty()) == memory,
        memory.counted_all(Seq::empty(), before) == before,
{
    assert(accesses.push(next).drop_last() == accesses);
}

} // verus!
